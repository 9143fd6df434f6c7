use vstd::prelude::*;

use crate::error::CustomError;
use crate::parser::{
    append_bytes, lemma_u32_le_round_trip, lemma_varint_round_trip, to_varint_bytes, u32_at,
    u32_le, u32_to_le, varint_bytes, varint_len, varint_ok, varint_value, BufferParser,
};

verus! {

/// Length of one inventory entry: a 4-byte type and a 32-byte hash.
pub const INVENTORY_SIZE: usize = 36;

/// What an inventory entry refers to.
#[derive(Debug, Clone, Copy, PartialEq, Eq, Structural)]
pub enum InventoryType {
    Error,
    Tx,
    Block,
    FilteredBlock,
    CompactBlock,
    WitnessTx,
    WitnessBlock,
}

/// The wire code of an inventory type.
pub open spec fn inv_code(t: InventoryType) -> u32 {
    match t {
        InventoryType::Error => 0,
        InventoryType::Tx => 1,
        InventoryType::Block => 2,
        InventoryType::FilteredBlock => 3,
        InventoryType::CompactBlock => 4,
        InventoryType::WitnessTx => 0x4000_0001,
        InventoryType::WitnessBlock => 0x4000_0002,
    }
}

/// The inventory type a wire code names, if any.
pub open spec fn inv_type_of(code: u32) -> Option<InventoryType> {
    if code == 0 {
        Some(InventoryType::Error)
    } else if code == 1 {
        Some(InventoryType::Tx)
    } else if code == 2 {
        Some(InventoryType::Block)
    } else if code == 3 {
        Some(InventoryType::FilteredBlock)
    } else if code == 4 {
        Some(InventoryType::CompactBlock)
    } else if code == 0x4000_0001 {
        Some(InventoryType::WitnessTx)
    } else if code == 0x4000_0002 {
        Some(InventoryType::WitnessBlock)
    } else {
        None
    }
}

impl InventoryType {
    pub fn code(&self) -> (r: u32)
        ensures
            r == inv_code(*self),
    {
        match self {
            InventoryType::Error => 0,
            InventoryType::Tx => 1,
            InventoryType::Block => 2,
            InventoryType::FilteredBlock => 3,
            InventoryType::CompactBlock => 4,
            InventoryType::WitnessTx => 0x4000_0001,
            InventoryType::WitnessBlock => 0x4000_0002,
        }
    }

    pub fn from_code(code: u32) -> (r: Option<InventoryType>)
        ensures
            r == inv_type_of(code),
    {
        if code == 0 {
            Some(InventoryType::Error)
        } else if code == 1 {
            Some(InventoryType::Tx)
        } else if code == 2 {
            Some(InventoryType::Block)
        } else if code == 3 {
            Some(InventoryType::FilteredBlock)
        } else if code == 4 {
            Some(InventoryType::CompactBlock)
        } else if code == 0x4000_0001 {
            Some(InventoryType::WitnessTx)
        } else if code == 0x4000_0002 {
            Some(InventoryType::WitnessBlock)
        } else {
            None
        }
    }
}

/// An entry of an `inv`, `getdata` or `notfound` message.
#[derive(Debug)]
pub struct Inventory {
    pub inv_type: InventoryType,
    pub hash: Vec<u8>,
}

impl Inventory {
    pub fn new(inv_type: InventoryType, hash: Vec<u8>) -> (r: Self)
        ensures
            r.inv_type == inv_type,
            r.hash@ == hash@,
    {
        Inventory { inv_type, hash }
    }
}

/// The bytes after the count of an inventory payload.
pub open spec fn inv_body(b: Seq<u8>) -> Seq<u8> {
    b.skip(varint_len(b[0]) as int)
}

/// Entry `i` of an inventory payload.
pub open spec fn inv_entry(b: Seq<u8>, i: int) -> Seq<u8> {
    inv_body(b).subrange(36 * i, 36 * i + 36)
}

/// An inventory payload is well formed: a complete count, exactly that many
/// 36-byte entries, and a known type in each.
pub open spec fn inv_payload_ok(b: Seq<u8>) -> bool {
    &&& varint_ok(b)
    &&& inv_body(b).len() == 36 * varint_value(b)
    &&& forall|i: int| 0 <= i < varint_value(b) ==> inv_type_of(u32_at(#[trigger] inv_entry(b, i), 0)) is Some
}

/// The serialization of inventory entries: the count, then each type code
/// and hash.
pub open spec fn inv_entries_bytes(es: Seq<(InventoryType, Seq<u8>)>) -> Seq<u8>
    decreases es.len(),
{
    if es.len() == 0 {
        Seq::empty()
    } else {
        inv_entries_bytes(es.drop_last()) + u32_le(inv_code(es.last().0)) + es.last().1
    }
}

pub open spec fn inv_view(v: Seq<Inventory>) -> Seq<(InventoryType, Seq<u8>)> {
    v.map_values(|e: Inventory| (e.inv_type, e.hash@))
}

/// Reads the entries of an `inv`, `getdata` or `notfound` payload.
pub fn parse_inventories(buffer: Vec<u8>) -> (r: Result<Vec<Inventory>, CustomError>)
    ensures
        inv_payload_ok(buffer@) ==> r is Ok && r->Ok_0@.len() == varint_value(buffer@) && forall|
            i: int,
        |
            0 <= i < r->Ok_0@.len() ==> Some((#[trigger] r->Ok_0@[i]).inv_type) == inv_type_of(
                u32_at(inv_entry(buffer@, i), 0),
            ) && r->Ok_0@[i].hash@ == inv_entry(buffer@, i).subrange(4, 36),
        !inv_payload_ok(buffer@) ==> r == Err::<Vec<Inventory>, CustomError>(
            CustomError::SerializedBufferIsInvalid,
        ),
{
    let ghost b = buffer@;
    let mut parser = BufferParser::new(buffer);
    let count = parser.extract_varint()?;
    let ghost body = parser.rest();
    assert(body == inv_body(b));
    let left = parser.len();
    if left % INVENTORY_SIZE != 0 || (left / INVENTORY_SIZE) as u64 != count {
        return Err(CustomError::SerializedBufferIsInvalid);
    }
    let n = left / INVENTORY_SIZE;
    let mut out: Vec<Inventory> = Vec::new();
    let mut i: usize = 0;
    while i < n
        invariant
            parser.wf(),
            b == buffer@,
            varint_ok(b),
            body == inv_body(b),
            body.len() == 36 * n,
            n == varint_value(b),
            i <= n,
            out@.len() == i,
            parser.rest() == body.skip(36 * i),
            forall|k: int|
                0 <= k < i ==> Some((#[trigger] out@[k]).inv_type) == inv_type_of(
                    u32_at(inv_entry(b, k), 0),
                ) && out@[k].hash@ == inv_entry(b, k).subrange(4, 36),
        decreases n - i,
    {
        let ghost e = inv_entry(b, i as int);
        assert(parser.rest().take(36) =~= e);
        let code = match parser.extract_u32() {
            Ok(c) => c,
            Err(err) => return Err(err),
        };
        let hash = match parser.extract_buffer(32) {
            Ok(h) => h,
            Err(err) => return Err(err),
        };
        assert(u32_at(e, 0) == code);
        assert(hash@ =~= e.subrange(4, 36));
        assert(parser.rest() =~= body.skip(36 * (i + 1)));
        match InventoryType::from_code(code) {
            Some(t) => {
                out.push(Inventory { inv_type: t, hash });
            },
            None => {
                assert(inv_type_of(u32_at(inv_entry(b, i as int), 0)) is None);
                return Err(CustomError::SerializedBufferIsInvalid);
            },
        }
        i = i + 1;
    }
    assert forall|k: int| 0 <= k < varint_value(b) implies inv_type_of(
        u32_at(#[trigger] inv_entry(b, k), 0),
    ) is Some by {
        assert(Some(out@[k].inv_type) == inv_type_of(u32_at(inv_entry(b, k), 0)));
    }
    Ok(out)
}

/// Writes an inventory payload: the count, then each type code and hash.
pub fn serialize_inventories(entries: &Vec<Inventory>) -> (r: Vec<u8>)
    ensures
        r@ == varint_bytes(entries@.len() as u64) + inv_entries_bytes(inv_view(entries@)),
{
    let mut buffer = to_varint_bytes(entries.len() as u64);
    let ghost start = buffer@;
    let mut i: usize = 0;
    while i < entries.len()
        invariant
            i <= entries@.len(),
            buffer@ == start + inv_entries_bytes(inv_view(entries@).take(i as int)),
        decreases entries@.len() - i,
    {
        append_bytes(&mut buffer, &u32_to_le(entries[i].inv_type.code()));
        append_bytes(&mut buffer, entries[i].hash.as_slice());
        assert(inv_view(entries@).take(i + 1).drop_last() =~= inv_view(entries@).take(i as int));
        assert(buffer@ =~= start + inv_entries_bytes(inv_view(entries@).take(i + 1)));
        i = i + 1;
    }
    assert(inv_view(entries@).take(i as int) =~= inv_view(entries@));
    buffer
}

proof fn lemma_inv_entries_bytes(es: Seq<(InventoryType, Seq<u8>)>)
    requires
        forall|i: int| 0 <= i < es.len() ==> (#[trigger] es[i]).1.len() == 32,
    ensures
        inv_entries_bytes(es).len() == 36 * es.len(),
        forall|i: int|
            0 <= i < es.len() ==> #[trigger] inv_entries_bytes(es).subrange(36 * i, 36 * i + 36)
                == u32_le(inv_code(es[i].0)) + es[i].1,
    decreases es.len(),
{
    if es.len() > 0 {
        let p = es.drop_last();
        lemma_inv_entries_bytes(p);
        let r = inv_entries_bytes(es);
        let pr = inv_entries_bytes(p);
        assert forall|i: int| 0 <= i < es.len() implies #[trigger] r.subrange(36 * i, 36 * i + 36)
            == u32_le(inv_code(es[i].0)) + es[i].1 by {
            if i < es.len() - 1 {
                assert(pr.subrange(36 * i, 36 * i + 36) == u32_le(inv_code(p[i].0)) + p[i].1);
                assert(r.subrange(36 * i, 36 * i + 36) =~= pr.subrange(36 * i, 36 * i + 36));
            } else {
                assert(r.subrange(36 * i, 36 * i + 36) =~= u32_le(inv_code(es.last().0))
                    + es.last().1);
            }
        }
    }
}

/// Codec round trip for inventory payloads: writing entries with 32-byte
/// hashes and reading the payload back gives the same types and hashes, in
/// the same order.
pub proof fn lemma_inventory_round_trip(es: Seq<(InventoryType, Seq<u8>)>)
    requires
        es.len() <= u64::MAX,
        forall|i: int| 0 <= i < es.len() ==> (#[trigger] es[i]).1.len() == 32,
    ensures
        inv_payload_ok(varint_bytes(es.len() as u64) + inv_entries_bytes(es)),
        varint_value(varint_bytes(es.len() as u64) + inv_entries_bytes(es)) == es.len(),
        forall|i: int|
            0 <= i < es.len() ==> {
                let e = #[trigger] inv_entry(varint_bytes(es.len() as u64) + inv_entries_bytes(es), i);
                &&& inv_type_of(u32_at(e, 0)) == Some(es[i].0)
                &&& e.subrange(4, 36) == es[i].1
            },
{
    let r = inv_entries_bytes(es);
    let b = varint_bytes(es.len() as u64) + r;
    lemma_varint_round_trip(es.len() as u64, r);
    lemma_inv_entries_bytes(es);
    assert(inv_body(b) =~= r);
    assert forall|i: int| 0 <= i < es.len() implies {
        let e = #[trigger] inv_entry(b, i);
        &&& inv_type_of(u32_at(e, 0)) == Some(es[i].0)
        &&& e.subrange(4, 36) == es[i].1
    } by {
        let e = inv_entry(b, i);
        assert(e == u32_le(inv_code(es[i].0)) + es[i].1);
        lemma_u32_le_round_trip(inv_code(es[i].0));
        assert(e.subrange(0, 4) =~= u32_le(inv_code(es[i].0)));
        assert(u32_at(e, 0) == u32_at(u32_le(inv_code(es[i].0)), 0));
        assert(e.subrange(4, 36) =~= es[i].1);
    }
}

} // verus!
