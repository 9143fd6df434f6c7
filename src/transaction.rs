use vstd::prelude::*;

use crate::parser::{u16_at, u32_at, u64_at, varint_len, varint_ok, varint_value};

verus! {

/// The CompactSize integer at `pos` of `s`: where it ends and its value.
pub open spec fn varint_end(s: Seq<u8>, pos: int) -> Option<(int, u64)> {
    if 0 <= pos < s.len() && varint_ok(s.skip(pos)) {
        Some((pos + varint_len(s[pos]), varint_value(s.skip(pos))))
    } else {
        None
    }
}

/// The end of a length-prefixed byte string (a script or a witness item)
/// at `pos`.
pub open spec fn var_bytes_end(s: Seq<u8>, pos: int) -> Option<int> {
    match varint_end(s, pos) {
        Some((p, n)) => if p + n <= s.len() {
            Some(p + n)
        } else {
            None
        },
        None => None,
    }
}

/// The end of an input at `pos`: outpoint (36 bytes), script, sequence (4).
pub open spec fn input_end(s: Seq<u8>, pos: int) -> Option<int> {
    if pos + 36 > s.len() {
        None
    } else {
        match var_bytes_end(s, pos + 36) {
            Some(p) => if p + 4 <= s.len() {
                Some(p + 4)
            } else {
                None
            },
            None => None,
        }
    }
}

/// The end of an output at `pos`: value (8 bytes), then script.
pub open spec fn output_end(s: Seq<u8>, pos: int) -> Option<int> {
    if pos + 8 > s.len() {
        None
    } else {
        var_bytes_end(s, pos + 8)
    }
}

/// Element kinds that repeat a counted number of times.
pub open spec fn element_end(s: Seq<u8>, pos: int, kind: u8) -> Option<int> {
    if kind == 0 {
        input_end(s, pos)
    } else if kind == 1 {
        output_end(s, pos)
    } else {
        var_bytes_end(s, pos)
    }
}

/// The end of `n` elements of `kind` (0 inputs, 1 outputs, 2 byte strings)
/// laid end to end from `pos`.
pub open spec fn repeat_end(s: Seq<u8>, pos: int, n: nat, kind: u8) -> Option<int>
    decreases n,
{
    if n == 0 {
        Some(pos)
    } else {
        match element_end(s, pos, kind) {
            Some(p) => repeat_end(s, p, (n - 1) as nat, kind),
            None => None,
        }
    }
}

/// The end of one input's witness at `pos`: a count, then that many items.
pub open spec fn witness_end(s: Seq<u8>, pos: int) -> Option<int> {
    match varint_end(s, pos) {
        Some((p, m)) => repeat_end(s, p, m as nat, 2),
        None => None,
    }
}

/// The end of `n` witnesses laid end to end from `pos`.
pub open spec fn witnesses_end(s: Seq<u8>, pos: int, n: nat) -> Option<int>
    decreases n,
{
    if n == 0 {
        Some(pos)
    } else {
        match witness_end(s, pos) {
            Some(p) => witnesses_end(s, p, (n - 1) as nat),
            None => None,
        }
    }
}

/// The end of a transaction from its inputs on (`pos` is just after the
/// input count): inputs, output count, outputs, the witnesses when
/// `segwit`, and the 4-byte lock time.
pub open spec fn tx_body_end(s: Seq<u8>, pos: int, inputs: u64, segwit: bool) -> Option<int> {
    match repeat_end(s, pos, inputs as nat, 0) {
        Some(p) => match varint_end(s, p) {
            Some((q, outputs)) => match repeat_end(s, q, outputs as nat, 1) {
                Some(r) => {
                    let w = if segwit {
                        witnesses_end(s, r, inputs as nat)
                    } else {
                        Some(r)
                    };
                    match w {
                        Some(t) => if t + 4 <= s.len() {
                            Some(t + 4)
                        } else {
                            None
                        },
                        None => None,
                    }
                },
                None => None,
            },
            None => None,
        },
        None => None,
    }
}

/// The end of the transaction in consensus encoding that starts at
/// `start`: a 4-byte version, the input count (a zero count followed by
/// the flag byte 1 marks a segregated-witness transaction, whose real input
/// count follows), then the body.
pub open spec fn tx_end(s: Seq<u8>, start: int) -> Option<int> {
    if start < 0 || start + 4 > s.len() {
        None
    } else {
        match varint_end(s, start + 4) {
            Some((p, c)) => if c != 0 {
                tx_body_end(s, p, c, false)
            } else if p < s.len() && s[p] == 1 {
                match varint_end(s, p + 1) {
                    Some((q, n)) => tx_body_end(s, q, n, true),
                    None => None,
                }
            } else {
                None
            },
            None => None,
        }
    }
}

/// Reads the CompactSize integer at `pos`.
pub fn varint_at(s: &Vec<u8>, pos: usize) -> (r: Option<(usize, u64)>)
    requires
        pos <= s@.len(),
    ensures
        r is Some <==> varint_end(s@, pos as int) is Some,
        r is Some ==> r->Some_0.0 as int == varint_end(s@, pos as int)->Some_0.0 && r->Some_0.1
            == varint_end(s@, pos as int)->Some_0.1,
        r is Some ==> pos < r->Some_0.0 <= s@.len(),
{
    let ghost t = s@.skip(pos as int);
    if pos == s.len() {
        return None;
    }
    let first = s[pos];
    let left = s.len() - pos;
    assert(t[0] == first);
    if first == 0xfd {
        if left < 3 {
            return None;
        }
        assert(t[1] == s@[pos + 1] && t[2] == s@[pos + 2]);
        let v = (s[pos + 1] as u16) | ((s[pos + 2] as u16) << 8u16);
        assert(v == u16_at(t, 1));
        Some((pos + 3, v as u64))
    } else if first == 0xfe {
        if left < 5 {
            return None;
        }
        assert(t[1] == s@[pos + 1] && t[2] == s@[pos + 2] && t[3] == s@[pos + 3] && t[4] == s@[pos
            + 4]);
        let v = (s[pos + 1] as u32) | ((s[pos + 2] as u32) << 8u32) | ((s[pos + 3] as u32) << 16u32)
            | ((s[pos + 4] as u32) << 24u32);
        assert(v == u32_at(t, 1));
        Some((pos + 5, v as u64))
    } else if first == 0xff {
        if left < 9 {
            return None;
        }
        let v = (s[pos + 1] as u64) | ((s[pos + 2] as u64) << 8u64) | ((s[pos + 3] as u64) << 16u64)
            | ((s[pos + 4] as u64) << 24u64) | ((s[pos + 5] as u64) << 32u64) | ((s[pos + 6] as u64)
            << 40u64) | ((s[pos + 7] as u64) << 48u64) | ((s[pos + 8] as u64) << 56u64);
        assert(t.subrange(1, 9) =~= s@.subrange(pos + 1, pos + 9));
        assert(v == u64_at(t, 1));
        Some((pos + 9, v))
    } else {
        Some((pos + 1, first as u64))
    }
}

fn var_bytes_at(s: &Vec<u8>, pos: usize) -> (r: Option<usize>)
    requires
        pos <= s@.len(),
    ensures
        r is Some <==> var_bytes_end(s@, pos as int) is Some,
        r is Some ==> r->Some_0 as int == var_bytes_end(s@, pos as int)->Some_0 && r->Some_0
            <= s@.len()
            && pos <= r->Some_0,
{
    match varint_at(s, pos) {
        Some((p, n)) => {
            if n > (s.len() - p) as u64 {
                None
            } else {
                Some(p + n as usize)
            }
        },
        None => None,
    }
}

fn element_at(s: &Vec<u8>, pos: usize, kind: u8) -> (r: Option<usize>)
    requires
        pos <= s@.len(),
    ensures
        r is Some <==> element_end(s@, pos as int, kind) is Some,
        r is Some ==> r->Some_0 as int == element_end(s@, pos as int, kind)->Some_0 && r->Some_0
            <= s@.len()
            && pos <= r->Some_0,
{
    if kind == 0 {
        if s.len() - pos < 36 {
            return None;
        }
        match var_bytes_at(s, pos + 36) {
            Some(p) => if s.len() - p < 4 {
                None
            } else {
                Some(p + 4)
            },
            None => None,
        }
    } else if kind == 1 {
        if s.len() - pos < 8 {
            return None;
        }
        var_bytes_at(s, pos + 8)
    } else {
        var_bytes_at(s, pos)
    }
}

fn repeat_at(s: &Vec<u8>, pos: usize, n: u64, kind: u8) -> (r: Option<usize>)
    requires
        pos <= s@.len(),
    ensures
        r is Some <==> repeat_end(s@, pos as int, n as nat, kind) is Some,
        r is Some ==> r->Some_0 as int == repeat_end(s@, pos as int, n as nat, kind)->Some_0
            && pos <= r->Some_0 <= s@.len(),
{
    let mut p = pos;
    let mut i: u64 = 0;
    while i < n
        invariant
            pos <= p <= s@.len(),
            i <= n,
            repeat_end(s@, pos as int, n as nat, kind) == repeat_end(
                s@,
                p as int,
                (n - i) as nat,
                kind,
            ),
        decreases n - i,
    {
        match element_at(s, p, kind) {
            Some(q) => {
                p = q;
            },
            None => {
                return None;
            },
        }
        i = i + 1;
    }
    Some(p)
}

fn witnesses_at(s: &Vec<u8>, pos: usize, n: u64) -> (r: Option<usize>)
    requires
        pos <= s@.len(),
    ensures
        r is Some <==> witnesses_end(s@, pos as int, n as nat) is Some,
        r is Some ==> r->Some_0 as int == witnesses_end(s@, pos as int, n as nat)->Some_0
            && pos <= r->Some_0 <= s@.len(),
{
    let mut p = pos;
    let mut i: u64 = 0;
    while i < n
        invariant
            pos <= p <= s@.len(),
            i <= n,
            witnesses_end(s@, pos as int, n as nat) == witnesses_end(s@, p as int, (n - i) as nat),
        decreases n - i,
    {
        let items = match varint_at(s, p) {
            Some(v) => v,
            None => {
                return None;
            },
        };
        match repeat_at(s, items.0, items.1, 2) {
            Some(q) => {
                p = q;
            },
            None => {
                return None;
            },
        }
        i = i + 1;
    }
    Some(p)
}

fn tx_body_at(s: &Vec<u8>, pos: usize, inputs: u64, segwit: bool) -> (r: Option<usize>)
    requires
        pos <= s@.len(),
    ensures
        r is Some <==> tx_body_end(s@, pos as int, inputs, segwit) is Some,
        r is Some ==> r->Some_0 as int == tx_body_end(s@, pos as int, inputs, segwit)->Some_0
            && pos <= r->Some_0 <= s@.len(),
{
    let p = repeat_at(s, pos, inputs, 0)?;
    let (q, outputs) = varint_at(s, p)?;
    let r = repeat_at(s, q, outputs, 1)?;
    let t = if segwit {
        witnesses_at(s, r, inputs)?
    } else {
        r
    };
    if s.len() - t < 4 {
        None
    } else {
        Some(t + 4)
    }
}

/// Measures the transaction in consensus encoding that starts at `start`,
/// returning where it ends.
pub fn transaction_end(s: &Vec<u8>, start: usize) -> (r: Option<usize>)
    requires
        start <= s@.len(),
    ensures
        r is Some <==> tx_end(s@, start as int) is Some,
        r is Some ==> r->Some_0 as int == tx_end(s@, start as int)->Some_0
            && start < r->Some_0 <= s@.len(),
{
    if s.len() - start < 4 {
        return None;
    }
    let (p, c) = varint_at(s, start + 4)?;
    if c != 0 {
        tx_body_at(s, p, c, false)
    } else if p < s.len() && s[p] == 1 {
        let (q, n) = varint_at(s, p + 1)?;
        tx_body_at(s, q, n, true)
    } else {
        None
    }
}

} // verus!
