use vstd::prelude::*;

use vstd::utf8::{decode_utf8, valid_utf8};

use crate::error::CustomError;

verus! {

/// The four little-endian bytes of `x`.
pub open spec fn u32_le(x: u32) -> Seq<u8> {
    seq![(x & 0xff) as u8, ((x >> 8u32) & 0xff) as u8, ((x >> 16u32) & 0xff) as u8, ((x >> 24u32) & 0xff) as u8]
}

/// The `u32` whose little-endian bytes are `b0 b1 b2 b3`.
pub open spec fn u32_from_le(b0: u8, b1: u8, b2: u8, b3: u8) -> u32 {
    (b0 as u32) | ((b1 as u32) << 8u32) | ((b2 as u32) << 16u32) | ((b3 as u32) << 24u32)
}

/// The `u32` read little-endian from the first four bytes of `s`.
pub open spec fn u32_at(s: Seq<u8>, i: int) -> u32
    recommends
        0 <= i && i + 4 <= s.len(),
{
    u32_from_le(s[i], s[i + 1], s[i + 2], s[i + 3])
}

pub proof fn lemma_u32_le_round_trip(x: u32)
    ensures
        u32_at(u32_le(x), 0) == x,
{
    let b = u32_le(x);
    let (b0, b1, b2, b3) = (b[0], b[1], b[2], b[3]);
    assert(b0 == (x & 0xff) as u8);
    assert(b3 == ((x >> 24u32) & 0xff) as u8);
    assert(u32_from_le(
        (x & 0xff) as u8,
        ((x >> 8u32) & 0xff) as u8,
        ((x >> 16u32) & 0xff) as u8,
        ((x >> 24u32) & 0xff) as u8,
    ) == x) by (bit_vector);
}

pub proof fn lemma_le_u32_round_trip(b0: u8, b1: u8, b2: u8, b3: u8)
    ensures
        u32_le(u32_from_le(b0, b1, b2, b3)) == seq![b0, b1, b2, b3],
{
    let x = u32_from_le(b0, b1, b2, b3);
    assert(x == (b0 as u32) | ((b1 as u32) << 8u32) | ((b2 as u32) << 16u32) | ((b3 as u32)
        << 24u32));
    assert((x & 0xff) as u8 == b0 && ((x >> 8u32) & 0xff) as u8 == b1 && ((x >> 16u32) & 0xff) as u8
        == b2 && ((x >> 24u32) & 0xff) as u8 == b3) by (bit_vector)
        requires
            x == (b0 as u32) | ((b1 as u32) << 8u32) | ((b2 as u32) << 16u32) | ((b3 as u32)
                << 24u32),
    ;
    assert(u32_le(x) =~= seq![b0, b1, b2, b3]);
}

/// The little-endian bytes of `x`, written out by shifts.
pub fn u32_to_le(x: u32) -> (r: [u8; 4])
    ensures
        r@ == u32_le(x),
{
    let r = [(x & 0xff) as u8, ((x >> 8u32) & 0xff) as u8, ((x >> 16u32) & 0xff) as u8, ((x >> 24u32)
        & 0xff) as u8];
    assert(r@ =~= u32_le(x));
    r
}

/// The `u16` read little-endian at offset `i` of `s`.
pub open spec fn u16_at(s: Seq<u8>, i: int) -> u16 {
    (s[i] as u16) | ((s[i + 1] as u16) << 8u16)
}

/// The `u64` whose little-endian bytes are `b`.
pub open spec fn u64_from_le(b: Seq<u8>) -> u64 {
    (b[0] as u64) | ((b[1] as u64) << 8u64) | ((b[2] as u64) << 16u64) | ((b[3] as u64) << 24u64)
        | ((b[4] as u64) << 32u64) | ((b[5] as u64) << 40u64) | ((b[6] as u64) << 48u64) | ((
    b[7] as u64) << 56u64)
}

/// The `u64` read little-endian at offset `i` of `s`.
pub open spec fn u64_at(s: Seq<u8>, i: int) -> u64 {
    u64_from_le(s.subrange(i, i + 8))
}

/// The eight little-endian bytes of `x`.
pub open spec fn u64_le(x: u64) -> Seq<u8> {
    seq![
        (x & 0xff) as u8,
        ((x >> 8u64) & 0xff) as u8,
        ((x >> 16u64) & 0xff) as u8,
        ((x >> 24u64) & 0xff) as u8,
        ((x >> 32u64) & 0xff) as u8,
        ((x >> 40u64) & 0xff) as u8,
        ((x >> 48u64) & 0xff) as u8,
        ((x >> 56u64) & 0xff) as u8,
    ]
}

/// How many bytes a CompactSize integer takes, given its first byte.
pub open spec fn varint_len(first: u8) -> nat {
    if first == 0xfd {
        3
    } else if first == 0xfe {
        5
    } else if first == 0xff {
        9
    } else {
        1
    }
}

/// Whether `s` starts with a complete CompactSize integer.
pub open spec fn varint_ok(s: Seq<u8>) -> bool {
    s.len() > 0 && s.len() >= varint_len(s[0])
}

/// The value of the CompactSize integer at the start of `s`.
pub open spec fn varint_value(s: Seq<u8>) -> u64 {
    if s[0] == 0xfd {
        u16_at(s, 1) as u64
    } else if s[0] == 0xfe {
        u32_at(s, 1) as u64
    } else if s[0] == 0xff {
        u64_at(s, 1)
    } else {
        s[0] as u64
    }
}

/// The CompactSize encoding of `n`: one byte below `0xfd`, else a marker
/// byte and 2, 4 or 8 little-endian bytes.
pub open spec fn varint_bytes(n: u64) -> Seq<u8> {
    if n < 0xfd {
        seq![n as u8]
    } else if n <= 0xffff {
        seq![0xfdu8, (n & 0xff) as u8, ((n >> 8u64) & 0xff) as u8]
    } else if n <= 0xffff_ffff {
        seq![0xfeu8] + u32_le(n as u32)
    } else {
        seq![0xffu8] + u64_le(n)
    }
}

/// Reading back the eight little-endian bytes of `n` gives `n`.
pub proof fn lemma_u64_le_round_trip(n: u64)
    ensures
        u64_at(u64_le(n), 0) == n,
{
    let b = u64_le(n);
    assert(b.subrange(0, 8) =~= b);
    assert(u64_from_le(b) == ((n & 0xff) as u8 as u64) | ((((n >> 8u64) & 0xff) as u8 as u64) << 8u64)
        | ((((n >> 16u64) & 0xff) as u8 as u64) << 16u64) | ((((n >> 24u64) & 0xff) as u8 as u64) << 24u64)
        | ((((n >> 32u64) & 0xff) as u8 as u64) << 32u64) | ((((n >> 40u64) & 0xff) as u8 as u64) << 40u64)
        | ((((n >> 48u64) & 0xff) as u8 as u64) << 48u64) | ((((n >> 56u64) & 0xff) as u8 as u64) << 56u64));
    assert(((n & 0xff) as u8 as u64) | ((((n >> 8u64) & 0xff) as u8 as u64) << 8u64)
        | ((((n >> 16u64) & 0xff) as u8 as u64) << 16u64) | ((((n >> 24u64) & 0xff) as u8 as u64) << 24u64)
        | ((((n >> 32u64) & 0xff) as u8 as u64) << 32u64) | ((((n >> 40u64) & 0xff) as u8 as u64) << 40u64)
        | ((((n >> 48u64) & 0xff) as u8 as u64) << 48u64) | ((((n >> 56u64) & 0xff) as u8 as u64) << 56u64)
        == n) by (bit_vector);
}

/// Decoding the encoding of `n`, followed by anything, gives `n` back and
/// consumes exactly the encoding.
pub proof fn lemma_varint_round_trip(n: u64, tail: Seq<u8>)
    ensures
        varint_ok(varint_bytes(n) + tail),
        varint_len((varint_bytes(n) + tail)[0]) == varint_bytes(n).len(),
        varint_value(varint_bytes(n) + tail) == n,
{
    let s = varint_bytes(n) + tail;
    if n < 0xfd {
        assert(s[0] == n as u8);
    } else if n <= 0xffff {
        assert(s[1] == (n & 0xff) as u8 && s[2] == ((n >> 8u64) & 0xff) as u8);
        assert(((((n & 0xff) as u8) as u16) | (((((n >> 8u64) & 0xff) as u8) as u16) << 8u16)) as u64
            == n) by (bit_vector)
            requires
                n <= 0xffff,
        ;
    } else if n <= 0xffff_ffff {
        let x = n as u32;
        lemma_u32_le_round_trip(x);
        assert(s.subrange(1, 5) =~= u32_le(x));
        assert(u32_at(s, 1) == u32_at(u32_le(x), 0));
    } else {
        assert(s.subrange(1, 9) =~= u64_le(n));
        lemma_u64_le_round_trip(n);
    }
}

/// The CompactSize encoding of `n`.
pub fn to_varint_bytes(n: u64) -> (r: Vec<u8>)
    ensures
        r@ == varint_bytes(n),
{
    let mut r: Vec<u8> = Vec::new();
    if n < 0xfd {
        r.push(n as u8);
    } else if n <= 0xffff {
        r.push(0xfd);
        r.push((n & 0xff) as u8);
        r.push(((n >> 8u64) & 0xff) as u8);
    } else if n <= 0xffff_ffff {
        r.push(0xfe);
        let b = u32_to_le(n as u32);
        r.push(b[0]);
        r.push(b[1]);
        r.push(b[2]);
        r.push(b[3]);
    } else {
        r.push(0xff);
        r.push((n & 0xff) as u8);
        r.push(((n >> 8u64) & 0xff) as u8);
        r.push(((n >> 16u64) & 0xff) as u8);
        r.push(((n >> 24u64) & 0xff) as u8);
        r.push(((n >> 32u64) & 0xff) as u8);
        r.push(((n >> 40u64) & 0xff) as u8);
        r.push(((n >> 48u64) & 0xff) as u8);
        r.push(((n >> 56u64) & 0xff) as u8);
    }
    assert(r@ =~= varint_bytes(n));
    r
}

/// Appends `bytes` to `buffer`.
pub fn append_bytes(buffer: &mut Vec<u8>, bytes: &[u8])
    ensures
        final(buffer)@ == old(buffer)@ + bytes@,
{
    let mut i: usize = 0;
    while i < bytes.len()
        invariant
            i <= bytes@.len(),
            buffer@ == old(buffer)@ + bytes@.subrange(0, i as int),
        decreases bytes@.len() - i,
    {
        buffer.push(bytes[i]);
        i = i + 1;
        assert(buffer@ =~= old(buffer)@ + bytes@.subrange(0, i as int));
    }
    assert(bytes@.subrange(0, i as int) =~= bytes@);
}

/// Byte-wise equality of two buffers.
pub fn bytes_equal(a: &Vec<u8>, b: &Vec<u8>) -> (r: bool)
    ensures
        r == (a@ == b@),
{
    if a.len() != b.len() {
        return false;
    }
    let mut i: usize = 0;
    while i < a.len()
        invariant
            i <= a@.len(),
            a@.len() == b@.len(),
            forall|k: int| 0 <= k < i ==> a@[k] == b@[k],
        decreases a@.len() - i,
    {
        if a[i] != b[i] {
            return false;
        }
        i = i + 1;
    }
    assert(a@ =~= b@);
    true
}

/// A read cursor over an owned byte buffer.
pub struct BufferParser {
    buffer: Vec<u8>,
    pos: usize,
}

impl BufferParser {
    /// The bytes not yet consumed.
    pub closed spec fn rest(&self) -> Seq<u8> {
        self.buffer@.subrange(self.pos as int, self.buffer@.len() as int)
    }

    pub closed spec fn wf(&self) -> bool {
        self.pos <= self.buffer@.len()
    }

    pub fn new(buffer: Vec<u8>) -> (r: Self)
        ensures
            r.wf(),
            r.rest() == buffer@,
    {
        let r = BufferParser { buffer, pos: 0 };
        assert(r.rest() =~= r.buffer@);
        r
    }

    /// The number of bytes left.
    pub fn len(&self) -> (r: usize)
        requires
            self.wf(),
        ensures
            r == self.rest().len(),
    {
        self.buffer.len() - self.pos
    }

    pub fn is_empty(&self) -> (r: bool)
        requires
            self.wf(),
        ensures
            r == (self.rest().len() == 0),
    {
        self.pos == self.buffer.len()
    }

    /// Takes the next `n` bytes.
    pub fn extract_buffer(&mut self, n: usize) -> (r: Result<Vec<u8>, CustomError>)
        requires
            old(self).wf(),
        ensures
            final(self).wf(),
            n <= old(self).rest().len() ==> r == Ok::<Vec<u8>, CustomError>(r->Ok_0) && r->Ok_0@
                == old(self).rest().take(n as int) && final(self).rest() == old(self).rest().skip(
                n as int),
            n > old(self).rest().len() ==> r == Err::<Vec<u8>, CustomError>(
                CustomError::SerializedBufferIsInvalid,
            ) && final(self).rest() == old(self).rest(),
    {
        if n > self.buffer.len() - self.pos {
            return Err(CustomError::SerializedBufferIsInvalid);
        }
        let mut out: Vec<u8> = Vec::new();
        let start = self.pos;
        let end = start + n;
        let mut i: usize = start;
        while i < end
            invariant
                end == start + n,
                end <= self.buffer@.len(),
                start <= i <= end,
                out@ == self.buffer@.subrange(start as int, i as int),
            decreases end - i,
        {
            out.push(self.buffer[i]);
            i = i + 1;
            assert(out@ =~= self.buffer@.subrange(start as int, i as int));
        }
        self.pos = end;
        assert(out@ =~= old(self).rest().take(n as int));
        assert(self.rest() =~= old(self).rest().skip(n as int));
        Ok(out)
    }
    /// Whether `new` is `old` with its first `n` bytes consumed.
    pub open spec fn consumed(old: Seq<u8>, new: Seq<u8>, n: int) -> bool {
        n <= old.len() && new == old.skip(n)
    }

    /// Takes one byte.
    pub fn extract_u8(&mut self) -> (r: Result<u8, CustomError>)
        requires
            old(self).wf(),
        ensures
            final(self).wf(),
            1 <= old(self).rest().len() ==> r == Ok::<u8, CustomError>(old(self).rest()[0])
                && Self::consumed(old(self).rest(), final(self).rest(), 1),
            1 > old(self).rest().len() ==> r == Err::<u8, CustomError>(
                CustomError::SerializedBufferIsInvalid,
            ) && final(self).rest() == old(self).rest(),
    {
        if self.buffer.len() - self.pos < 1 {
            return Err(CustomError::SerializedBufferIsInvalid);
        }
        let v = self.buffer[self.pos];
        self.pos = self.pos + 1;
        assert(self.rest() =~= old(self).rest().skip(1));
        Ok(v)
    }

    /// Takes a little-endian `u16`.
    pub fn extract_u16(&mut self) -> (r: Result<u16, CustomError>)
        requires
            old(self).wf(),
        ensures
            final(self).wf(),
            2 <= old(self).rest().len() ==> r == Ok::<u16, CustomError>(u16_at(old(self).rest(), 0))
                && Self::consumed(old(self).rest(), final(self).rest(), 2),
            2 > old(self).rest().len() ==> r == Err::<u16, CustomError>(
                CustomError::SerializedBufferIsInvalid,
            ) && final(self).rest() == old(self).rest(),
    {
        if self.buffer.len() - self.pos < 2 {
            return Err(CustomError::SerializedBufferIsInvalid);
        }
        let p = self.pos;
        let v = (self.buffer[p] as u16) | ((self.buffer[p + 1] as u16) << 8u16);
        self.pos = p + 2;
        assert(self.rest() =~= old(self).rest().skip(2));
        Ok(v)
    }

    /// Takes a little-endian `u32`.
    pub fn extract_u32(&mut self) -> (r: Result<u32, CustomError>)
        requires
            old(self).wf(),
        ensures
            final(self).wf(),
            4 <= old(self).rest().len() ==> r == Ok::<u32, CustomError>(u32_at(old(self).rest(), 0))
                && Self::consumed(old(self).rest(), final(self).rest(), 4),
            4 > old(self).rest().len() ==> r == Err::<u32, CustomError>(
                CustomError::SerializedBufferIsInvalid,
            ) && final(self).rest() == old(self).rest(),
    {
        if self.buffer.len() - self.pos < 4 {
            return Err(CustomError::SerializedBufferIsInvalid);
        }
        let p = self.pos;
        let v = (self.buffer[p] as u32) | ((self.buffer[p + 1] as u32) << 8u32) | ((self.buffer[p
            + 2] as u32) << 16u32) | ((self.buffer[p + 3] as u32) << 24u32);
        self.pos = p + 4;
        assert(self.rest() =~= old(self).rest().skip(4));
        Ok(v)
    }

    /// Takes a little-endian `i32` (two's complement).
    pub fn extract_i32(&mut self) -> (r: Result<i32, CustomError>)
        requires
            old(self).wf(),
        ensures
            final(self).wf(),
            4 <= old(self).rest().len() ==> r == Ok::<i32, CustomError>(
                u32_at(old(self).rest(), 0) as i32,
            ) && Self::consumed(old(self).rest(), final(self).rest(), 4),
            4 > old(self).rest().len() ==> r == Err::<i32, CustomError>(
                CustomError::SerializedBufferIsInvalid,
            ) && final(self).rest() == old(self).rest(),
    {
        let v = self.extract_u32()?;
        Ok(v as i32)
    }

    /// Takes a little-endian `u64`.
    pub fn extract_u64(&mut self) -> (r: Result<u64, CustomError>)
        requires
            old(self).wf(),
        ensures
            final(self).wf(),
            8 <= old(self).rest().len() ==> r == Ok::<u64, CustomError>(u64_at(old(self).rest(), 0))
                && Self::consumed(old(self).rest(), final(self).rest(), 8),
            8 > old(self).rest().len() ==> r == Err::<u64, CustomError>(
                CustomError::SerializedBufferIsInvalid,
            ) && final(self).rest() == old(self).rest(),
    {
        if self.buffer.len() - self.pos < 8 {
            return Err(CustomError::SerializedBufferIsInvalid);
        }
        let p = self.pos;
        let b = &self.buffer;
        let v = (b[p] as u64) | ((b[p + 1] as u64) << 8u64) | ((b[p + 2] as u64) << 16u64) | ((b[p
            + 3] as u64) << 24u64) | ((b[p + 4] as u64) << 32u64) | ((b[p + 5] as u64) << 40u64) | ((
        b[p + 6] as u64) << 48u64) | ((b[p + 7] as u64) << 56u64);
        self.pos = p + 8;
        assert(old(self).rest().subrange(0, 8) =~= self.buffer@.subrange(p as int, p + 8));
        assert(self.rest() =~= old(self).rest().skip(8));
        Ok(v)
    }

    /// Takes a CompactSize integer: a first byte of `0xfd`, `0xfe` or `0xff`
    /// announces 2, 4 or 8 little-endian bytes; any other first byte is the
    /// value itself.
    pub fn extract_varint(&mut self) -> (r: Result<u64, CustomError>)
        requires
            old(self).wf(),
        ensures
            final(self).wf(),
            varint_ok(old(self).rest()) ==> r == Ok::<u64, CustomError>(
                varint_value(old(self).rest()),
            ) && Self::consumed(
                old(self).rest(),
                final(self).rest(),
                varint_len(old(self).rest()[0]) as int,
            ),
            !varint_ok(old(self).rest()) ==> r == Err::<u64, CustomError>(
                CustomError::SerializedBufferIsInvalid,
            ),
            final(self).rest().len() <= old(self).rest().len(),
    {
        let ghost s = self.rest();
        let first = self.extract_u8()?;
        if first == 0xfd {
            match self.extract_u16() {
                Ok(v) => {
                    assert(self.rest() =~= s.skip(3));
                    Ok(v as u64)
                },
                Err(e) => Err(e),
            }
        } else if first == 0xfe {
            match self.extract_u32() {
                Ok(v) => {
                    assert(self.rest() =~= s.skip(5));
                    Ok(v as u64)
                },
                Err(e) => Err(e),
            }
        } else if first == 0xff {
            match self.extract_u64() {
                Ok(v) => {
                    assert(s.skip(1).subrange(0, 8) =~= s.subrange(1, 9));
                    assert(self.rest() =~= s.skip(9));
                    Ok(v)
                },
                Err(e) => Err(e),
            }
        } else {
            Ok(first as u64)
        }
    }

    /// Takes `n` bytes and decodes them as UTF-8.
    pub fn extract_string(&mut self, n: usize) -> (r: Result<String, CustomError>)
        requires
            old(self).wf(),
        ensures
            final(self).wf(),
            n <= old(self).rest().len() && valid_utf8(old(self).rest().take(n as int)) ==> r
                == Ok::<String, CustomError>(r->Ok_0) && r->Ok_0@ == decode_utf8(
                old(self).rest().take(n as int),
            ) && Self::consumed(old(self).rest(), final(self).rest(), n as int),
            !(n <= old(self).rest().len() && valid_utf8(old(self).rest().take(n as int))) ==> r
                == Err::<String, CustomError>(CustomError::SerializedBufferIsInvalid),
    {
        let bytes = self.extract_buffer(n)?;
        match string_from_utf8(bytes) {
            Some(s) => Ok(s),
            None => Err(CustomError::SerializedBufferIsInvalid),
        }
    }
}

/// Relies on `String::from_utf8`: it succeeds exactly on valid UTF-8, and the
/// string then holds the decoded characters.
#[verifier::external_body]
fn string_from_utf8(b: Vec<u8>) -> (r: Option<String>)
    ensures
        r is Some <==> valid_utf8(b@),
        r is Some ==> r->Some_0@ == decode_utf8(b@),
{
    String::from_utf8(b).ok()
}

} // verus!
