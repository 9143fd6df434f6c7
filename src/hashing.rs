use vstd::prelude::*;

verus! {

/// The double SHA-256 digest of `b`, in the byte order the digest is
/// produced (read little-endian, it is the number that proof of work bounds).
pub uninterp spec fn sha256d_of(b: Seq<u8>) -> Seq<u8>;

/// Relies on `bitcoin_hashes::sha256d::Hash::hash` and `to_byte_array`: the
/// 32-byte double SHA-256 digest of the input, a function of the bytes alone.
#[verifier::external_body]
pub(crate) fn sha256d(b: &[u8]) -> (r: Vec<u8>)
    ensures
        r@ == sha256d_of(b@),
        r@.len() == 32,
{
    let digest = <bitcoin_hashes::sha256d::Hash as bitcoin_hashes::Hash>::hash(b);
    bitcoin_hashes::Hash::to_byte_array(digest).to_vec()
}

} // verus!
