use vstd::prelude::*;

use crate::block_header::{header_of_bytes, pow_ok, BlockHeader};
use crate::error::CustomError;
use crate::hashing::{sha256d, sha256d_of};
use crate::parser::{append_bytes, bytes_equal};
use crate::transaction::{transaction_end, tx_end, varint_at, varint_end};

verus! {

/// The next level of a Merkle tree: each pair hashed together, the last
/// node paired with itself when the level is odd.
pub open spec fn merkle_level(level: Seq<Seq<u8>>) -> Seq<Seq<u8>> {
    Seq::new(
        ((level.len() + 1) / 2) as nat,
        |i: int|
            sha256d_of(
                level[2 * i] + if 2 * i + 1 < level.len() {
                    level[2 * i + 1]
                } else {
                    level[2 * i]
                },
            ),
    )
}

/// The root of the Merkle tree over `level` (not empty): levels are
/// combined until one node remains.
pub open spec fn merkle_root_of(level: Seq<Seq<u8>>) -> Seq<u8>
    decreases level.len(),
{
    if level.len() <= 1 {
        if level.len() == 1 {
            level[0]
        } else {
            Seq::empty()
        }
    } else {
        merkle_root_of(merkle_level(level))
    }
}

/// The identifiers of transactions: the double SHA-256 of each.
pub open spec fn tx_ids(txs: Seq<Seq<u8>>) -> Seq<Seq<u8>> {
    txs.map_values(|t: Seq<u8>| sha256d_of(t))
}

/// A block is consistent when it has a transaction and the Merkle root of
/// its transaction identifiers is the root its header names.
pub open spec fn merkle_matches(header_root: Seq<u8>, txs: Seq<Seq<u8>>) -> bool {
    txs.len() > 0 && merkle_root_of(tx_ids(txs)) == header_root
}

/// A block: a header and its transactions in consensus encoding.
#[derive(Debug)]
pub struct Block {
    pub header: BlockHeader,
    pub transactions: Vec<Vec<u8>>,
}

pub open spec fn deep(v: Seq<Vec<u8>>) -> Seq<Seq<u8>> {
    v.map_values(|x: Vec<u8>| x@)
}

fn next_level(level: &Vec<Vec<u8>>) -> (r: Vec<Vec<u8>>)
    requires
        level@.len() >= 1,
    ensures
        deep(r@) == merkle_level(deep(level@)),
{
    let n = level.len();
    let half = n / 2 + n % 2;
    let mut out: Vec<Vec<u8>> = Vec::new();
    let mut j: usize = 0;
    while j < half
        invariant
            n == level@.len(),
            half == (n + 1) / 2,
            j <= half,
            out@.len() == j,
            forall|k: int|
                0 <= k < out@.len() ==> (#[trigger] out@[k])@ == merkle_level(deep(level@))[k],
        decreases half - j,
    {
        let i = 2 * j;
        let mut pair: Vec<u8> = Vec::new();
        append_bytes(&mut pair, level[i].as_slice());
        if i + 1 < n {
            append_bytes(&mut pair, level[i + 1].as_slice());
        } else {
            append_bytes(&mut pair, level[i].as_slice());
        }
        let h = sha256d(pair.as_slice());
        proof {
            let d = deep(level@);
            let k = j as int;
            assert(d[2 * k] == level@[i as int]@);
            if i + 1 < n {
                assert(d[2 * k + 1] == level@[i + 1]@);
            }
            assert(h@ == merkle_level(d)[k]);
        }
        out.push(h);
        j = j + 1;
    }
    assert(deep(out@) =~= merkle_level(deep(level@)));
    out
}

/// The Merkle root over `ids` (not empty).
pub fn merkle_root(ids: Vec<Vec<u8>>) -> (r: Vec<u8>)
    requires
        ids@.len() >= 1,
    ensures
        r@ == merkle_root_of(deep(ids@)),
{
    let mut level = ids;
    while level.len() > 1
        invariant
            level@.len() >= 1,
            merkle_root_of(deep(level@)) == merkle_root_of(deep(ids@)),
        decreases level@.len(),
    {
        level = next_level(&level);
        assert(deep(level@).len() == level@.len());
    }
    let mut root = level;
    root.pop().unwrap()
}

/// `n` transactions laid end to end from `pos`, if the bytes hold them.
pub open spec fn split_txs(s: Seq<u8>, pos: int, n: nat) -> Option<Seq<Seq<u8>>>
    decreases n,
{
    if n == 0 {
        Some(Seq::empty())
    } else {
        match tx_end(s, pos) {
            Some(e) => match split_txs(s, e, (n - 1) as nat) {
                Some(rest) => Some(seq![s.subrange(pos, e)] + rest),
                None => None,
            },
            None => None,
        }
    }
}

/// The transactions of a block payload: after the 80-byte header, a count
/// and that many transactions (bytes after the last one are not read).
pub open spec fn block_txs(b: Seq<u8>) -> Option<Seq<Seq<u8>>> {
    match varint_end(b, 80) {
        Some((p, c)) => split_txs(b, p, c as nat),
        None => None,
    }
}

/// `prefix` followed by what `tail` holds, if it holds anything.
pub open spec fn prepend_txs(prefix: Seq<Seq<u8>>, tail: Option<Seq<Seq<u8>>>) -> Option<
    Seq<Seq<u8>>,
> {
    match tail {
        Some(t) => Some(prefix + t),
        None => None,
    }
}

fn copy_range(s: &Vec<u8>, from: usize, to: usize) -> (r: Vec<u8>)
    requires
        from <= to <= s@.len(),
    ensures
        r@ == s@.subrange(from as int, to as int),
{
    let mut out: Vec<u8> = Vec::new();
    let mut i: usize = from;
    while i < to
        invariant
            from <= i <= to <= s@.len(),
            out@ == s@.subrange(from as int, i as int),
        decreases to - i,
    {
        out.push(s[i]);
        i = i + 1;
        assert(out@ =~= s@.subrange(from as int, i as int));
    }
    out
}

impl Block {
    /// Reads a block: an 80-byte header that must pass proof of work, a
    /// transaction count, then that many transactions in consensus
    /// encoding, each measured where it stands.
    pub fn parse(buffer: Vec<u8>) -> (r: Result<Self, CustomError>)
        ensures
            buffer@.len() < 80 ==> r == Err::<Self, CustomError>(
                CustomError::SerializedBufferIsInvalid,
            ),
            buffer@.len() >= 80 && !pow_ok(sha256d_of(buffer@.take(80)), header_of_bytes(buffer@).bits)
                ==> r == Err::<Self, CustomError>(CustomError::HeaderInvalidPoW),
            buffer@.len() >= 80 && pow_ok(sha256d_of(buffer@.take(80)), header_of_bytes(buffer@).bits)
                && block_txs(buffer@) is None ==> r == Err::<Self, CustomError>(
                CustomError::SerializedBufferIsInvalid,
            ),
            buffer@.len() >= 80 && pow_ok(sha256d_of(buffer@.take(80)), header_of_bytes(buffer@).bits)
                && block_txs(buffer@) is Some ==> r is Ok && r->Ok_0.header@ == header_of_bytes(
                buffer@,
            ) && deep(r->Ok_0.transactions@) == block_txs(buffer@)->Some_0,
    {
        let ghost b = buffer@;
        if buffer.len() < 80 {
            return Err(CustomError::SerializedBufferIsInvalid);
        }
        let header_bytes = copy_range(&buffer, 0, 80);
        assert(header_bytes@ =~= b.take(80));
        assert(header_bytes@.take(80) =~= b.take(80));
        proof {
            crate::block_header::lemma_hash_of_read_header(b);
        }
        let header = BlockHeader::parse(header_bytes, true)?;
        let (start, count) = match varint_at(&buffer, 80) {
            Some(v) => v,
            None => {
                return Err(CustomError::SerializedBufferIsInvalid);
            },
        };
        let mut pos = start;
        let mut transactions: Vec<Vec<u8>> = Vec::new();
        let mut i: u64 = 0;
        while i < count
            invariant
                b == buffer@,
                b.len() >= 80,
                pow_ok(sha256d_of(b.take(80)), header_of_bytes(b).bits),
                pos <= b.len(),
                i <= count,
                block_txs(b) == prepend_txs(
                    deep(transactions@),
                    split_txs(b, pos as int, (count - i) as nat),
                ),
            decreases count - i,
        {
            let end = match transaction_end(&buffer, pos) {
                Some(e) => e,
                None => {
                    return Err(CustomError::SerializedBufferIsInvalid);
                },
            };
            let tx = copy_range(&buffer, pos, end);
            let ghost before = deep(transactions@);
            transactions.push(tx);
            proof {
                assert(deep(transactions@) =~= before + seq![b.subrange(pos as int, end as int)]);
                match split_txs(b, end as int, (count - i - 1) as nat) {
                    Some(t) => {
                        assert(before + (seq![b.subrange(pos as int, end as int)] + t)
                            =~= deep(transactions@) + t);
                    },
                    None => {},
                }
            }
            pos = end;
            i = i + 1;
        }
        assert(deep(transactions@) + Seq::empty() =~= deep(transactions@));
        Ok(Block { header, transactions })
    }

    /// Recomputes the Merkle root from the transactions and compares it
    /// with the header's; a block without transactions has no root.
    pub fn create_merkle_root(&self) -> (r: Result<Vec<u8>, CustomError>)
        ensures
            merkle_matches(self.header.merkle_root@, deep(self.transactions@)) ==> r is Ok
                && r->Ok_0@ == self.header.merkle_root@,
            !merkle_matches(self.header.merkle_root@, deep(self.transactions@)) ==> r
                == Err::<Vec<u8>, CustomError>(CustomError::InvalidMerkleRoot),
    {
        let n = self.transactions.len();
        if n == 0 {
            return Err(CustomError::InvalidMerkleRoot);
        }
        let mut ids: Vec<Vec<u8>> = Vec::new();
        let mut i: usize = 0;
        while i < n
            invariant
                n == self.transactions@.len(),
                i <= n,
                ids@.len() == i,
                forall|k: int|
                    0 <= k < i ==> (#[trigger] ids@[k])@ == tx_ids(deep(self.transactions@))[k],
            decreases n - i,
        {
            let id = sha256d(self.transactions[i].as_slice());
            ids.push(id);
            i = i + 1;
        }
        assert(deep(ids@) =~= tx_ids(deep(self.transactions@)));
        let root = merkle_root(ids);
        if bytes_equal(&root, &self.header.merkle_root) {
            Ok(root)
        } else {
            Err(CustomError::InvalidMerkleRoot)
        }
    }
}

/// Merkle soundness: the check accepts a block exactly when the header's
/// root is the one its transactions give, so changing the header's root
/// to any other value makes it fail.
pub proof fn lemma_merkle_soundness(header_root: Seq<u8>, tampered: Seq<u8>, txs: Seq<Seq<u8>>)
    requires
        txs.len() > 0,
        header_root == merkle_root_of(tx_ids(txs)),
        tampered != header_root,
    ensures
        merkle_matches(header_root, txs),
        !merkle_matches(tampered, txs),
{
}

} // verus!
