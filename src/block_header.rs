use vstd::prelude::*;

use crate::error::CustomError;
use crate::hashing::{sha256d, sha256d_of};
use crate::parser::{
    append_bytes, lemma_le_u32_round_trip, lemma_u32_le_round_trip, u32_at, u32_le, u32_to_le,
    BufferParser,
};

verus! {

/// Length of a serialized block header.
pub const HEADER_SIZE: usize = 80;

/// A block header as the wire carries it.
#[derive(Debug)]
pub struct BlockHeader {
    pub version: i32,
    pub prev_block_hash: Vec<u8>,
    pub merkle_root: Vec<u8>,
    pub timestamp: u32,
    pub bits: u32,
    pub nonce: u32,
}

/// The mathematical value of a block header.
pub ghost struct HeaderModel {
    pub version: i32,
    pub prev_block_hash: Seq<u8>,
    pub merkle_root: Seq<u8>,
    pub timestamp: u32,
    pub bits: u32,
    pub nonce: u32,
}

impl View for BlockHeader {
    type V = HeaderModel;

    open spec fn view(&self) -> HeaderModel {
        HeaderModel {
            version: self.version,
            prev_block_hash: self.prev_block_hash@,
            merkle_root: self.merkle_root@,
            timestamp: self.timestamp,
            bits: self.bits,
            nonce: self.nonce,
        }
    }
}

impl HeaderModel {
    /// Both hashes are 32 bytes long, so the header serializes to 80 bytes.
    pub open spec fn wf(self) -> bool {
        self.prev_block_hash.len() == 32 && self.merkle_root.len() == 32
    }
}

/// The serialization of a header: version, previous hash, Merkle root,
/// timestamp, bits and nonce, integers little-endian.
#[verifier::opaque]
pub open spec fn header_bytes(h: HeaderModel) -> Seq<u8> {
    u32_le(h.version as u32) + h.prev_block_hash + h.merkle_root + u32_le(h.timestamp) + u32_le(
        h.bits,
    ) + u32_le(h.nonce)
}

/// The header read from the first 80 bytes of `b`.
pub open spec fn header_of_bytes(b: Seq<u8>) -> HeaderModel {
    HeaderModel {
        version: u32_at(b, 0) as i32,
        prev_block_hash: b.subrange(4, 36),
        merkle_root: b.subrange(36, 68),
        timestamp: u32_at(b, 68),
        bits: u32_at(b, 72),
        nonce: u32_at(b, 76),
    }
}

/// The identity of a header: the double SHA-256 of its serialization.
pub open spec fn header_hash(h: HeaderModel) -> Seq<u8> {
    sha256d_of(header_bytes(h))
}

/// The exponent byte of compact `bits`.
pub open spec fn bits_exponent(bits: u32) -> int {
    (bits >> 24u32) as int
}

/// The mantissa bytes of compact `bits`, most significant first (`k` in 0..3).
pub open spec fn bits_mantissa_byte(bits: u32, k: int) -> u8 {
    if k == 0 {
        ((bits >> 16u32) & 0xff) as u8
    } else if k == 1 {
        ((bits >> 8u32) & 0xff) as u8
    } else {
        (bits & 0xff) as u8
    }
}

/// The proof-of-work rule on a 32-byte hash read little-endian: with
/// exponent `e` (between 3 and 32), the bytes at `e` and above are zero, and
/// the three bytes below `e`, from the most significant down, are strictly
/// below the mantissa in lexicographic order.
pub open spec fn pow_ok(h: Seq<u8>, bits: u32) -> bool {
    let e = bits_exponent(bits);
    &&& h.len() == 32
    &&& 3 <= e <= 32
    &&& forall|i: int| e <= i < 32 ==> h[i] == 0
    &&& {
        ||| h[e - 1] < bits_mantissa_byte(bits, 0)
        ||| h[e - 1] == bits_mantissa_byte(bits, 0) && h[e - 2] < bits_mantissa_byte(bits, 1)
        ||| h[e - 1] == bits_mantissa_byte(bits, 0) && h[e - 2] == bits_mantissa_byte(bits, 1)
            && h[e - 3] < bits_mantissa_byte(bits, 2)
    }
}

/// Checks a 32-byte hash against the target that `bits` encodes.
pub fn hash_meets_target(hash: &Vec<u8>, bits: u32) -> (r: bool)
    requires
        hash@.len() == 32,
    ensures
        r == pow_ok(hash@, bits),
{
    let e = (bits >> 24u32) as usize;
    if e < 3 || e > 32 {
        return false;
    }
    let mut i: usize = e;
    while i < 32
        invariant
            3 <= e <= i <= 32,
            e as int == bits_exponent(bits),
            hash@.len() == 32,
            forall|j: int| e <= j < i ==> hash@[j] == 0,
        decreases 32 - i,
    {
        if hash[i] != 0 {
            assert(hash@[i as int] != 0);
            return false;
        }
        i = i + 1;
    }
    let m0 = ((bits >> 16u32) & 0xff) as u8;
    let m1 = ((bits >> 8u32) & 0xff) as u8;
    let m2 = (bits & 0xff) as u8;
    if hash[e - 1] != m0 {
        return hash[e - 1] < m0;
    }
    if hash[e - 2] != m1 {
        return hash[e - 2] < m1;
    }
    if hash[e - 3] != m2 {
        return hash[e - 3] < m2;
    }
    false
}

/// Header round trip: for every 80-byte buffer, serializing the header
/// parsed from it without validation gives the buffer back.
pub proof fn lemma_header_bytes_of_bytes(b: Seq<u8>)
    requires
        b.len() == 80,
    ensures
        header_bytes(header_of_bytes(b)) == b,
        header_of_bytes(b).wf(),
{
    reveal(header_bytes);
    let h = header_of_bytes(b);
    lemma_le_u32_round_trip(b[0], b[1], b[2], b[3]);
    lemma_le_u32_round_trip(b[68], b[69], b[70], b[71]);
    lemma_le_u32_round_trip(b[72], b[73], b[74], b[75]);
    lemma_le_u32_round_trip(b[76], b[77], b[78], b[79]);
    let v = u32_at(b, 0);
    assert((v as i32) as u32 == v) by (bit_vector);
    assert(header_bytes(h) =~= b);
}

/// Reading back the serialization of a well-formed header gives the header.
pub proof fn lemma_header_of_header_bytes(h: HeaderModel)
    requires
        h.wf(),
    ensures
        header_bytes(h).len() == 80,
        header_of_bytes(header_bytes(h)) == h,
{
    reveal(header_bytes);
    let b = header_bytes(h);
    lemma_u32_le_round_trip(h.version as u32);
    lemma_u32_le_round_trip(h.timestamp);
    lemma_u32_le_round_trip(h.bits);
    lemma_u32_le_round_trip(h.nonce);
    assert(b.subrange(0, 4) =~= u32_le(h.version as u32));
    assert(b.subrange(68, 72) =~= u32_le(h.timestamp));
    assert(b.subrange(72, 76) =~= u32_le(h.bits));
    assert(b.subrange(76, 80) =~= u32_le(h.nonce));
    assert(u32_at(b, 0) == u32_at(b.subrange(0, 4), 0));
    assert(u32_at(b, 68) == u32_at(b.subrange(68, 72), 0));
    assert(u32_at(b, 72) == u32_at(b.subrange(72, 76), 0));
    assert(u32_at(b, 76) == u32_at(b.subrange(76, 80), 0));
    let hv = h.version;
    assert(((hv as u32) as i32) == hv) by (bit_vector);
    assert(b.subrange(4, 36) =~= h.prev_block_hash);
    assert(b.subrange(36, 68) =~= h.merkle_root);
}

/// The hash of the header read from `b` is the hash of its first 80 bytes.
pub proof fn lemma_hash_of_read_header(b: Seq<u8>)
    requires
        b.len() >= 80,
    ensures
        header_hash(header_of_bytes(b)) == sha256d_of(b.take(80)),
        header_bytes(header_of_bytes(b)) == b.take(80),
        header_of_bytes(b.take(80)) == header_of_bytes(b),
        header_of_bytes(b).wf(),
{
    let t = b.take(80);
    lemma_header_bytes_of_bytes(t);
    assert forall|i: int| 0 <= i < 80 implies t[i] == b[i] by {}
    assert(u32_at(t, 0) == u32_at(b, 0));
    assert(u32_at(t, 68) == u32_at(b, 68));
    assert(u32_at(t, 72) == u32_at(b, 72));
    assert(u32_at(t, 76) == u32_at(b, 76));
    assert(t.subrange(4, 36) =~= b.subrange(4, 36));
    assert(t.subrange(36, 68) =~= b.subrange(36, 68));
    assert(header_of_bytes(t) == header_of_bytes(b));
}

impl BlockHeader {
    /// The 80-byte wire form (longer or shorter if a hash field is not 32 bytes).
    pub fn serialize(&self) -> (r: Vec<u8>)
        ensures
            r@ == header_bytes(self@),
    {
        proof {
            reveal(header_bytes);
        }
        let mut buffer: Vec<u8> = Vec::new();
        append_bytes(&mut buffer, &u32_to_le(self.version as u32));
        append_bytes(&mut buffer, self.prev_block_hash.as_slice());
        append_bytes(&mut buffer, self.merkle_root.as_slice());
        append_bytes(&mut buffer, &u32_to_le(self.timestamp));
        append_bytes(&mut buffer, &u32_to_le(self.bits));
        append_bytes(&mut buffer, &u32_to_le(self.nonce));
        buffer
    }

    /// Reads a header from the first 80 bytes of `buffer` (the rest is
    /// ignored); with `validate`, the header must also pass proof of work.
    pub fn parse(buffer: Vec<u8>, validate: bool) -> (r: Result<Self, CustomError>)
        ensures
            buffer@.len() < 80 ==> r == Err::<Self, CustomError>(
                CustomError::SerializedBufferIsInvalid,
            ),
            buffer@.len() >= 80 && validate && !pow_ok(
                sha256d_of(buffer@.take(80)),
                header_of_bytes(buffer@).bits,
            ) ==> r == Err::<Self, CustomError>(CustomError::HeaderInvalidPoW),
            buffer@.len() >= 80 && (!validate || pow_ok(
                sha256d_of(buffer@.take(80)),
                header_of_bytes(buffer@).bits,
            )) ==> r is Ok && r->Ok_0@ == header_of_bytes(buffer@),
    {
        let ghost b = buffer@;
        let mut parser = BufferParser::new(buffer);
        if parser.len() < HEADER_SIZE {
            return Err(CustomError::SerializedBufferIsInvalid);
        }
        let block_header = Self::read_fields(&mut parser);
        proof {
            lemma_hash_of_read_header(b);
        }
        if validate {
            if !block_header.validate() {
                return Err(CustomError::HeaderInvalidPoW);
            }
        }
        Ok(block_header)
    }

    fn read_fields(parser: &mut BufferParser) -> (r: Self)
        requires
            old(parser).wf(),
            old(parser).rest().len() >= 80,
        ensures
            r@ == header_of_bytes(old(parser).rest()),
    {
        let ghost b = parser.rest();
        let version = match parser.extract_i32() {
            Ok(v) => v,
            Err(_) => 0,
        };
        assert(parser.rest() =~= b.skip(4));
        let prev_block_hash = match parser.extract_buffer(32) {
            Ok(v) => v,
            Err(_) => Vec::new(),
        };
        assert(parser.rest() =~= b.skip(36));
        let merkle_root = match parser.extract_buffer(32) {
            Ok(v) => v,
            Err(_) => Vec::new(),
        };
        assert(parser.rest() =~= b.skip(68));
        let timestamp = match parser.extract_u32() {
            Ok(v) => v,
            Err(_) => 0,
        };
        assert(parser.rest() =~= b.skip(72));
        let bits = match parser.extract_u32() {
            Ok(v) => v,
            Err(_) => 0,
        };
        assert(parser.rest() =~= b.skip(76));
        let nonce = match parser.extract_u32() {
            Ok(v) => v,
            Err(_) => 0,
        };
        assert(prev_block_hash@ =~= b.subrange(4, 36));
        assert(merkle_root@ =~= b.subrange(36, 68));
        assert(u32_at(b.skip(68), 0) == u32_at(b, 68));
        assert(u32_at(b.skip(72), 0) == u32_at(b, 72));
        assert(u32_at(b.skip(76), 0) == u32_at(b, 76));
        let r = BlockHeader { version, prev_block_hash, merkle_root, timestamp, bits, nonce };
        assert(r@ =~= header_of_bytes(b));
        r
    }

    /// Whether the header's hash meets the target its own `bits` encode.
    pub fn validate(&self) -> (r: bool)
        ensures
            r == pow_ok(header_hash(self@), self.bits),
    {
        let hash = self.hash();
        hash_meets_target(&hash, self.bits)
    }

    /// The header's identity: the double SHA-256 of its serialization.
    pub fn hash(&self) -> (r: Vec<u8>)
        ensures
            r@ == header_hash(self@),
            r@.len() == 32,
    {
        let bytes = self.serialize();
        sha256d(bytes.as_slice())
    }
}

} // verus!
