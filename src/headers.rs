use vstd::prelude::*;

use crate::block_header::{
    header_bytes, header_hash, header_of_bytes, lemma_hash_of_read_header,
    lemma_header_of_header_bytes, pow_ok, BlockHeader, HeaderModel,
};
use crate::error::CustomError;
use crate::hashing::sha256d_of;
use crate::parser::{
    append_bytes, lemma_varint_round_trip, to_varint_bytes, varint_bytes, varint_len, varint_ok,
    varint_value, BufferParser,
};

verus! {

/// Length of one header record in a `headers` message: the header and its
/// zero transaction count.
pub const RECORD_SIZE: usize = 81;

/// The payload of a `headers` message: an ordered page of block headers.
#[derive(Debug)]
pub struct Headers {
    pub headers: Vec<BlockHeader>,
}

impl View for Headers {
    type V = Seq<HeaderModel>;

    open spec fn view(&self) -> Seq<HeaderModel> {
        self.headers@.map_values(|h: BlockHeader| h@)
    }
}

/// The headers-file form: the 80-byte headers concatenated, no framing.
pub open spec fn headers_file_bytes(hs: Seq<HeaderModel>) -> Seq<u8>
    decreases hs.len(),
{
    if hs.len() == 0 {
        seq![]
    } else {
        headers_file_bytes(hs.drop_last()) + header_bytes(hs.last())
    }
}

/// The records of a `headers` message: each header followed by a zero byte.
pub open spec fn header_records(hs: Seq<HeaderModel>) -> Seq<u8>
    decreases hs.len(),
{
    if hs.len() == 0 {
        seq![]
    } else {
        header_records(hs.drop_last()) + header_bytes(hs.last()) + seq![0u8]
    }
}

/// The payload of a `headers` message: the count as a CompactSize integer,
/// then the records.
pub open spec fn headers_msg_bytes(hs: Seq<HeaderModel>) -> Seq<u8> {
    varint_bytes(hs.len() as u64) + header_records(hs)
}

/// The bytes after the count of a `headers` payload.
pub open spec fn msg_body(b: Seq<u8>) -> Seq<u8> {
    b.skip(varint_len(b[0]) as int)
}

/// A `headers` payload has a complete count and a whole number of records.
pub open spec fn msg_shape_ok(b: Seq<u8>) -> bool {
    varint_ok(b) && msg_body(b).len() % 81 == 0
}

/// The number of records in a well-shaped `headers` payload.
pub open spec fn msg_count(b: Seq<u8>) -> int {
    (msg_body(b).len() / 81) as int
}

/// Record `i` of a `headers` payload.
pub open spec fn msg_record(b: Seq<u8>, i: int) -> Seq<u8> {
    msg_body(b).subrange(81 * i, 81 * i + 81)
}

/// The header a record carries passes proof of work.
pub open spec fn record_pow_ok(rec: Seq<u8>) -> bool {
    pow_ok(sha256d_of(rec.take(80)), header_of_bytes(rec).bits)
}

/// What parsing a `headers` payload yields: the count is read and not
/// checked, each record's header is read from its first 80 bytes and must
/// pass proof of work.
pub open spec fn parse_headers_msg(b: Seq<u8>) -> Result<Seq<HeaderModel>, CustomError> {
    if !msg_shape_ok(b) {
        Err(CustomError::SerializedBufferIsInvalid)
    } else if exists|i: int| 0 <= i < msg_count(b) && !record_pow_ok(#[trigger] msg_record(b, i)) {
        Err(CustomError::HeaderInvalidPoW)
    } else {
        Ok(Seq::new(msg_count(b) as nat, |i: int| header_of_bytes(msg_record(b, i))))
    }
}

/// What parsing a headers file yields: one header per 80 bytes.
pub open spec fn parse_headers_file(b: Seq<u8>) -> Result<Seq<HeaderModel>, CustomError> {
    if b.len() % 80 != 0 {
        Err(CustomError::SerializedBufferIsInvalid)
    } else {
        Ok(Seq::new((b.len() / 80) as nat, |i: int| header_of_bytes(b.subrange(80 * i, 80 * i + 80))))
    }
}

impl Headers {
    /// An empty page.
    pub fn new() -> (r: Self)
        ensures
            r@ == Seq::<HeaderModel>::empty(),
    {
        let r = Headers { headers: Vec::new() };
        assert(r@ =~= Seq::<HeaderModel>::empty());
        r
    }

    /// The headers-file form of the page: the headers back to back.
    pub fn serialize_headers(&self) -> (r: Vec<u8>)
        ensures
            r@ == headers_file_bytes(self@),
    {
        let mut buffer: Vec<u8> = Vec::new();
        let mut i: usize = 0;
        while i < self.headers.len()
            invariant
                i <= self.headers@.len(),
                buffer@ == headers_file_bytes(self@.take(i as int)),
            decreases self.headers@.len() - i,
        {
            let hb = self.headers[i].serialize();
            append_bytes(&mut buffer, hb.as_slice());
            assert(self@.take(i + 1).drop_last() =~= self@.take(i as int));
            i = i + 1;
        }
        assert(self@.take(i as int) =~= self@);
        buffer
    }

    /// Reads a headers file: one header per 80 bytes, without proof-of-work
    /// validation; a length that is not a multiple of 80 is refused.
    pub fn parse_headers(buffer: Vec<u8>) -> (r: Result<Vec<BlockHeader>, CustomError>)
        ensures
            match r {
                Ok(v) => parse_headers_file(buffer@) == Ok::<Seq<HeaderModel>, CustomError>(
                    v@.map_values(|h: BlockHeader| h@),
                ),
                Err(e) => parse_headers_file(buffer@) == Err::<Seq<HeaderModel>, CustomError>(e),
            },
    {
        let ghost b = buffer@;
        let mut parser = BufferParser::new(buffer);
        if parser.len() % 80 != 0 {
            return Err(CustomError::SerializedBufferIsInvalid);
        }
        let mut headers: Vec<BlockHeader> = Vec::new();
        while !parser.is_empty()
            invariant
                parser.wf(),
                b.len() % 80 == 0,
                80 * headers@.len() <= b.len(),
                parser.rest() == b.skip(80 * headers@.len() as int),
                forall|k: int|
                    0 <= k < headers@.len() ==> (#[trigger] headers@[k])@ == header_of_bytes(
                        b.subrange(80 * k, 80 * k + 80),
                    ),
            decreases parser.rest().len(),
        {
            let ghost j = headers@.len() as int;
            assert(parser.rest().len() >= 80);
            let chunk = match parser.extract_buffer(80) {
                Ok(c) => c,
                Err(e) => return Err(e),
            };
            assert(chunk@ =~= b.subrange(80 * j, 80 * j + 80));
            let header = match BlockHeader::parse(chunk, false) {
                Ok(h) => h,
                Err(e) => return Err(e),
            };
            headers.push(header);
            assert(parser.rest() =~= b.skip(80 * headers@.len() as int));
        }
        assert(headers@.map_values(|h: BlockHeader| h@) =~= Seq::new(
            (b.len() / 80) as nat,
            |i: int| header_of_bytes(b.subrange(80 * i, 80 * i + 80)),
        ));
        Ok(headers)
    }

    /// The command name of this message in a frame.
    pub fn get_command(&self) -> (r: String)
        ensures
            r@ == "headers"@,
    {
        String::from_str("headers")
    }

    /// The `headers` payload: the count, then each header and a zero byte.
    pub fn serialize(&self) -> (r: Vec<u8>)
        ensures
            r@ == headers_msg_bytes(self@),
    {
        let mut buffer = to_varint_bytes(self.headers.len() as u64);
        let ghost start = buffer@;
        let mut i: usize = 0;
        while i < self.headers.len()
            invariant
                i <= self.headers@.len(),
                start == varint_bytes(self@.len() as u64),
                buffer@ == start + header_records(self@.take(i as int)),
            decreases self.headers@.len() - i,
        {
            let hb = self.headers[i].serialize();
            append_bytes(&mut buffer, hb.as_slice());
            buffer.push(0u8);
            assert(self@.take(i + 1).drop_last() =~= self@.take(i as int));
            assert(buffer@ =~= start + header_records(self@.take(i + 1)));
            i = i + 1;
        }
        assert(self@.take(i as int) =~= self@);
        buffer
    }

    /// Parses a `headers` payload: the count, then 81-byte records whose
    /// first 80 bytes are a header that must pass proof of work.
    pub fn parse(buffer: Vec<u8>) -> (r: Result<Self, CustomError>)
        ensures
            match r {
                Ok(h) => parse_headers_msg(buffer@) == Ok::<Seq<HeaderModel>, CustomError>(h@),
                Err(e) => parse_headers_msg(buffer@) == Err::<Seq<HeaderModel>, CustomError>(e),
            },
    {
        let ghost b = buffer@;
        let mut parser = BufferParser::new(buffer);
        // the count is read past; the records that follow decide the page
        let _count = parser.extract_varint()?;
        let ghost body = parser.rest();
        assert(body == msg_body(b));
        if parser.len() % RECORD_SIZE != 0 {
            return Err(CustomError::SerializedBufferIsInvalid);
        }
        let mut headers: Vec<BlockHeader> = Vec::new();
        while parser.len() >= RECORD_SIZE
            invariant
                parser.wf(),
                b == buffer@,
                msg_shape_ok(b),
                body == msg_body(b),
                81 * headers@.len() <= body.len(),
                parser.rest() == body.skip(81 * headers@.len() as int),
                forall|k: int|
                    0 <= k < headers@.len() ==> (#[trigger] headers@[k])@ == header_of_bytes(
                        msg_record(b, k),
                    ) && record_pow_ok(msg_record(b, k)),
            decreases parser.rest().len(),
        {
            let ghost j = headers@.len() as int;
            let chunk = match parser.extract_buffer(RECORD_SIZE) {
                Ok(c) => c,
                Err(e) => return Err(e),
            };
            assert(chunk@ =~= msg_record(b, j));
            let header = match BlockHeader::parse(chunk, true) {
                Ok(h) => h,
                Err(e) => {
                    assert(e == CustomError::HeaderInvalidPoW);
                    assert(0 <= j < msg_count(b) && !record_pow_ok(msg_record(b, j)));
                    assert(exists|i: int|
                        0 <= i < msg_count(b) && !record_pow_ok(#[trigger] msg_record(b, i)));
                    return Err(e);
                },
            };
            headers.push(header);
            assert(parser.rest() =~= body.skip(81 * headers@.len() as int));
        }
        let r = Headers { headers };
        assert(headers@.len() == msg_count(b));
        assert forall|i: int| 0 <= i < msg_count(b) implies record_pow_ok(
            #[trigger] msg_record(b, i),
        ) by {
            assert(headers@[i]@ == header_of_bytes(msg_record(b, i)));
        }
        assert(r@ =~= Seq::new(msg_count(b) as nat, |i: int| header_of_bytes(msg_record(b, i))));
        Ok(r)
    }
}

pub proof fn lemma_header_records(hs: Seq<HeaderModel>)
    requires
        forall|i: int| 0 <= i < hs.len() ==> (#[trigger] hs[i]).wf(),
    ensures
        header_records(hs).len() == 81 * hs.len(),
        forall|i: int|
            0 <= i < hs.len() ==> #[trigger] header_records(hs).subrange(81 * i, 81 * i + 81)
                == header_bytes(hs[i]) + seq![0u8],
    decreases hs.len(),
{
    if hs.len() > 0 {
        let p = hs.drop_last();
        lemma_header_records(p);
        lemma_header_of_header_bytes(hs.last());
        let r = header_records(hs);
        let pr = header_records(p);
        assert(r == pr + (header_bytes(hs.last()) + seq![0u8]));
        assert forall|i: int| 0 <= i < hs.len() implies #[trigger] r.subrange(81 * i, 81 * i + 81)
            == header_bytes(hs[i]) + seq![0u8] by {
            if i < hs.len() - 1 {
                assert(pr.subrange(81 * i, 81 * i + 81) == header_bytes(p[i]) + seq![0u8]);
                assert(r.subrange(81 * i, 81 * i + 81) =~= pr.subrange(81 * i, 81 * i + 81));
            } else {
                assert(r.subrange(81 * i, 81 * i + 81) =~= header_bytes(hs.last()) + seq![0u8]);
            }
        }
    }
}

} // verus!

verus! {

/// Codec round trip: serializing a page of well-formed headers that all
/// pass proof of work, then parsing the payload, gives the page back.
pub proof fn lemma_headers_msg_round_trip(hs: Seq<HeaderModel>)
    requires
        hs.len() <= u64::MAX,
        forall|i: int| 0 <= i < hs.len() ==> (#[trigger] hs[i]).wf(),
        forall|i: int| 0 <= i < hs.len() ==> pow_ok(header_hash(#[trigger] hs[i]), hs[i].bits),
    ensures
        parse_headers_msg(headers_msg_bytes(hs)) == Ok::<Seq<HeaderModel>, CustomError>(hs),
{
    let n = hs.len();
    let r = header_records(hs);
    let b = headers_msg_bytes(hs);
    lemma_varint_round_trip(n as u64, r);
    lemma_header_records(hs);
    assert(msg_body(b) =~= r);
    assert(msg_count(b) == n);
    assert forall|i: int| 0 <= i < n implies #[trigger] msg_record(b, i) == header_bytes(hs[i])
        + seq![0u8] && header_of_bytes(msg_record(b, i)) == hs[i] && record_pow_ok(
        msg_record(b, i),
    ) by {
        let rec = msg_record(b, i);
        assert(r.subrange(81 * i, 81 * i + 81) == header_bytes(hs[i]) + seq![0u8]);
        lemma_header_of_header_bytes(hs[i]);
        assert(rec.take(80) =~= header_bytes(hs[i]));
        lemma_hash_of_read_header(rec);
    }
    assert(Seq::new(msg_count(b) as nat, |i: int| header_of_bytes(msg_record(b, i))) =~= hs);
}

/// A `headers` payload is canonical when its count is the minimal
/// CompactSize encoding of the number of records and every record ends in
/// a zero transaction count.
pub open spec fn canonical_headers_payload(b: Seq<u8>) -> bool {
    &&& msg_shape_ok(b)
    &&& b.take(varint_len(b[0]) as int) == varint_bytes(msg_count(b) as u64)
    &&& forall|i: int| 0 <= i < msg_count(b) ==> (#[trigger] msg_record(b, i))[80] == 0u8
}

/// Payload round trip: a canonical payload that parses serializes back to
/// exactly the same bytes.
pub proof fn lemma_headers_payload_round_trip(b: Seq<u8>)
    requires
        canonical_headers_payload(b),
        parse_headers_msg(b) is Ok,
    ensures
        headers_msg_bytes(parse_headers_msg(b)->Ok_0) == b,
{
    let n = msg_count(b);
    let hs = parse_headers_msg(b)->Ok_0;
    let body = msg_body(b);
    assert(hs.len() == n);
    assert forall|i: int| 0 <= i < hs.len() implies (#[trigger] hs[i]).wf() by {
        lemma_hash_of_read_header(msg_record(b, i));
    }
    lemma_header_records(hs);
    let r = header_records(hs);
    assert forall|i: int| 0 <= i < n implies #[trigger] r.subrange(81 * i, 81 * i + 81)
        == msg_record(b, i) by {
        let rec = msg_record(b, i);
        lemma_hash_of_read_header(rec);
        assert(r.subrange(81 * i, 81 * i + 81) == header_bytes(hs[i]) + seq![0u8]);
        assert(header_bytes(hs[i]) + seq![0u8] =~= rec);
    }
    assert forall|j: int| 0 <= j < r.len() implies r[j] == body[j] by {
        let i = j / 81;
        let o = j % 81;
        assert(0 <= i < n);
        assert(r.subrange(81 * i, 81 * i + 81) == msg_record(b, i));
        assert(r.subrange(81 * i, 81 * i + 81)[o] == r[j]);
        assert(msg_record(b, i)[o] == body[j]);
    }
    assert(r =~= body);
    assert(b =~= b.take(varint_len(b[0]) as int) + body);
}

} // verus!
