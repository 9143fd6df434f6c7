use vstd::prelude::*;

use crate::error::CustomError;
use crate::hashing::{sha256d, sha256d_of};
use crate::parser::{
    append_bytes, lemma_u64_le_round_trip, to_varint_bytes, u32_at, u32_le, u32_to_le, u64_at,
    u64_le, varint_bytes, BufferParser,
};

verus! {

/// Length of a message frame header.
pub const FRAME_HEADER_SIZE: usize = 24;

/// Length of the command field of a frame.
pub const COMMAND_SIZE: usize = 12;

/// A command name padded with zero bytes to the 12-byte field.
pub open spec fn padded_command(name: Seq<u8>) -> Seq<u8> {
    name + Seq::new((12 - name.len()) as nat, |i: int| 0u8)
}

/// The checksum of a payload: the first four bytes of its double SHA-256.
pub open spec fn payload_checksum(payload: Seq<u8>) -> Seq<u8> {
    sha256d_of(payload).take(4)
}

/// The 24-byte header of a wire message.
#[derive(Debug)]
pub struct MessageHeader {
    pub magic: u32,
    /// The command field, zero-padded.
    pub command: Vec<u8>,
    pub payload_size: u32,
    pub checksum: Vec<u8>,
}

/// The bytes of a frame header followed by the payload.
pub open spec fn frame_bytes(magic: u32, name: Seq<u8>, payload: Seq<u8>) -> Seq<u8> {
    u32_le(magic) + padded_command(name) + u32_le(payload.len() as u32) + payload_checksum(payload)
        + payload
}

impl MessageHeader {
    /// Reads a frame header from the first 24 bytes of `buffer`.
    pub fn parse(buffer: Vec<u8>) -> (r: Result<Self, CustomError>)
        ensures
            buffer@.len() < 24 ==> r == Err::<Self, CustomError>(
                CustomError::SerializedBufferIsInvalid,
            ),
            buffer@.len() >= 24 ==> r is Ok && r->Ok_0.magic == u32_at(buffer@, 0)
                && r->Ok_0.command@ == buffer@.subrange(4, 16) && r->Ok_0.payload_size == u32_at(
                buffer@,
                16,
            ) && r->Ok_0.checksum@ == buffer@.subrange(20, 24),
    {
        let ghost b = buffer@;
        let mut parser = BufferParser::new(buffer);
        if parser.len() < FRAME_HEADER_SIZE {
            return Err(CustomError::SerializedBufferIsInvalid);
        }
        let magic = parser.extract_u32()?;
        assert(parser.rest() =~= b.skip(4));
        let command = parser.extract_buffer(COMMAND_SIZE)?;
        assert(parser.rest() =~= b.skip(16));
        let payload_size = parser.extract_u32()?;
        assert(parser.rest() =~= b.skip(20));
        let checksum = parser.extract_buffer(4)?;
        assert(command@ =~= b.subrange(4, 16));
        assert(checksum@ =~= b.subrange(20, 24));
        assert(u32_at(b.skip(16), 0) == u32_at(b, 16));
        Ok(MessageHeader { magic, command, payload_size, checksum })
    }

    /// Whether the frame's checksum is that of `payload`.
    pub fn checksum_matches(&self, payload: &Vec<u8>) -> (r: bool)
        ensures
            r == (self.checksum@ == payload_checksum(payload@)),
    {
        let digest = sha256d(payload.as_slice());
        if self.checksum.len() != 4 {
            return false;
        }
        let mut i: usize = 0;
        while i < 4
            invariant
                i <= 4,
                digest@.len() == 32,
                digest@ == sha256d_of(payload@),
                self.checksum@.len() == 4,
                forall|k: int| 0 <= k < i ==> self.checksum@[k] == digest@[k],
            decreases 4 - i,
        {
            if self.checksum[i] != digest[i] {
                assert(self.checksum@[i as int] != payload_checksum(payload@)[i as int]);
                return false;
            }
            i = i + 1;
        }
        assert(self.checksum@ =~= digest@.take(4));
        true
    }
}

/// Frames a payload: magic, zero-padded command, payload length, checksum,
/// then the payload.
pub fn frame_message(magic: u32, name: &Vec<u8>, payload: &Vec<u8>) -> (r: Vec<u8>)
    requires
        name@.len() <= 12,
        payload@.len() <= u32::MAX,
    ensures
        r@ == frame_bytes(magic, name@, payload@),
{
    let mut buffer: Vec<u8> = Vec::new();
    append_bytes(&mut buffer, &u32_to_le(magic));
    append_bytes(&mut buffer, name.as_slice());
    let mut k: usize = name.len();
    let ghost before = buffer@;
    while k < COMMAND_SIZE
        invariant
            name@.len() <= k <= 12,
            buffer@ == before + Seq::new((k - name@.len()) as nat, |i: int| 0u8),
        decreases 12 - k,
    {
        buffer.push(0u8);
        k = k + 1;
        assert(buffer@ =~= before + Seq::new((k - name@.len()) as nat, |i: int| 0u8));
    }
    append_bytes(&mut buffer, &u32_to_le(payload.len() as u32));
    let digest = sha256d(payload.as_slice());
    append_bytes(&mut buffer, &[digest[0], digest[1], digest[2], digest[3]]);
    append_bytes(&mut buffer, payload.as_slice());
    proof {
        let cs = seq![digest@[0], digest@[1], digest@[2], digest@[3]];
        assert(cs =~= payload_checksum(payload@));
    }
    assert(buffer@ =~= frame_bytes(magic, name@, payload@));
    buffer
}

/// A `ping` liveness probe.
#[derive(Debug, Clone, Copy, PartialEq, Eq, Structural)]
pub struct Ping {
    pub nonce: u64,
}

/// The answer to a `ping`, carrying the same nonce.
#[derive(Debug, Clone, Copy, PartialEq, Eq, Structural)]
pub struct Pong {
    pub nonce: u64,
}

fn parse_nonce(buffer: Vec<u8>) -> (r: Result<u64, CustomError>)
    ensures
        buffer@.len() < 8 ==> r == Err::<u64, CustomError>(CustomError::SerializedBufferIsInvalid),
        buffer@.len() >= 8 ==> r == Ok::<u64, CustomError>(u64_at(buffer@, 0)),
{
    let mut parser = BufferParser::new(buffer);
    parser.extract_u64()
}

fn serialize_nonce(nonce: u64) -> (r: Vec<u8>)
    ensures
        r@ == u64_le(nonce),
{
    let mut r: Vec<u8> = Vec::new();
    r.push((nonce & 0xff) as u8);
    r.push(((nonce >> 8u64) & 0xff) as u8);
    r.push(((nonce >> 16u64) & 0xff) as u8);
    r.push(((nonce >> 24u64) & 0xff) as u8);
    r.push(((nonce >> 32u64) & 0xff) as u8);
    r.push(((nonce >> 40u64) & 0xff) as u8);
    r.push(((nonce >> 48u64) & 0xff) as u8);
    r.push(((nonce >> 56u64) & 0xff) as u8);
    assert(r@ =~= u64_le(nonce));
    r
}

impl Ping {
    pub fn get_command(&self) -> (r: String)
        ensures
            r@ == "ping"@,
    {
        String::from_str("ping")
    }

    /// The payload: the nonce, eight bytes little-endian.
    pub fn serialize(&self) -> (r: Vec<u8>)
        ensures
            r@ == u64_le(self.nonce),
    {
        serialize_nonce(self.nonce)
    }

    /// Reads the nonce from the first eight bytes of the payload.
    pub fn parse(buffer: Vec<u8>) -> (r: Result<Self, CustomError>)
        ensures
            buffer@.len() < 8 ==> r == Err::<Self, CustomError>(
                CustomError::SerializedBufferIsInvalid,
            ),
            buffer@.len() >= 8 ==> r == Ok::<Self, CustomError>(Ping { nonce: u64_at(buffer@, 0) }),
    {
        let nonce = parse_nonce(buffer)?;
        Ok(Ping { nonce })
    }
}

impl Pong {
    pub fn get_command(&self) -> (r: String)
        ensures
            r@ == "pong"@,
    {
        String::from_str("pong")
    }

    /// The payload: the nonce, eight bytes little-endian.
    pub fn serialize(&self) -> (r: Vec<u8>)
        ensures
            r@ == u64_le(self.nonce),
    {
        serialize_nonce(self.nonce)
    }

    /// Reads the nonce from the first eight bytes of the payload.
    pub fn parse(buffer: Vec<u8>) -> (r: Result<Self, CustomError>)
        ensures
            buffer@.len() < 8 ==> r == Err::<Self, CustomError>(
                CustomError::SerializedBufferIsInvalid,
            ),
            buffer@.len() >= 8 ==> r == Ok::<Self, CustomError>(Pong { nonce: u64_at(buffer@, 0) }),
    {
        let nonce = parse_nonce(buffer)?;
        Ok(Pong { nonce })
    }
}

/// Codec round trip for `ping` and `pong`: the payload written for a
/// nonce is eight bytes long and reads back as that nonce.
pub proof fn lemma_nonce_round_trip(nonce: u64)
    ensures
        u64_le(nonce).len() == 8,
        u64_at(u64_le(nonce), 0) == nonce,
{
    lemma_u64_le_round_trip(nonce);
}

/// The payload of a `getheaders` request: protocol version, one locator
/// hash, and a zero stop hash (ask for as many as the peer will send).
pub open spec fn get_headers_bytes(version: i32, locator: Seq<u8>) -> Seq<u8> {
    u32_le(version as u32) + varint_bytes(1) + locator + Seq::new(32, |i: int| 0u8)
}

/// Builds a `getheaders` payload asking for the headers after `locator`.
pub fn get_headers_payload(version: i32, locator: &Vec<u8>) -> (r: Vec<u8>)
    ensures
        r@ == get_headers_bytes(version, locator@),
{
    let mut buffer: Vec<u8> = Vec::new();
    append_bytes(&mut buffer, &u32_to_le(version as u32));
    let count = to_varint_bytes(1);
    append_bytes(&mut buffer, count.as_slice());
    append_bytes(&mut buffer, locator.as_slice());
    let ghost before = buffer@;
    let mut k: usize = 0;
    while k < 32
        invariant
            k <= 32,
            buffer@ == before + Seq::new(k as nat, |i: int| 0u8),
        decreases 32 - k,
    {
        buffer.push(0u8);
        k = k + 1;
        assert(buffer@ =~= before + Seq::new(k as nat, |i: int| 0u8));
    }
    assert(buffer@ =~= get_headers_bytes(version, locator@));
    buffer
}

} // verus!
