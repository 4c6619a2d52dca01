//! BLAKE3 digests of whole byte strings and of bytes that arrive in pieces.
use vstd::prelude::*;

verus! {

/// The 32 bytes that `blake3::hash` gives for `bytes`.
pub uninterp spec fn blake3_digest(bytes: Seq<u8>) -> Seq<u8>;

/// The bytes that a hasher has taken in so far, in order.
pub uninterp spec fn hasher_input(hasher: blake3::Hasher) -> Seq<u8>;

/// An incremental BLAKE3 state.
#[verifier::external_type_specification]
#[verifier::external_body]
pub struct ExHasher(blake3::Hasher);

/// `blake3::hash`: the digest of all of `bytes`.
#[verifier::external_body]
pub(crate) fn outside_hash(bytes: &[u8]) -> (result: [u8; 32])
    ensures
        result@ == blake3_digest(bytes@),
{
    *blake3::hash(bytes).as_bytes()
}

/// `blake3::Hasher::new`: a hasher that has taken in nothing.
#[verifier::external_body]
pub(crate) fn outside_hasher_new() -> (result: blake3::Hasher)
    ensures
        hasher_input(result) == Seq::<u8>::empty(),
{
    blake3::Hasher::new()
}

/// `blake3::Hasher::update`: takes in `bytes` behind what came before. The number of bytes taken
/// in altogether is kept in a `u64`.
#[verifier::external_body]
pub(crate) fn outside_hasher_update(hasher: &mut blake3::Hasher, bytes: &[u8])
    requires
        hasher_input(*old(hasher)).len() + bytes@.len() <= u64::MAX,
    ensures
        hasher_input(*final(hasher)) == hasher_input(*old(hasher)) + bytes@,
{
    hasher.update(bytes);
}

/// `blake3::Hasher::finalize`: the digest of the bytes taken in, the same as for all of them at
/// once.
#[verifier::external_body]
pub(crate) fn outside_hasher_finalize(hasher: &blake3::Hasher) -> (result: [u8; 32])
    ensures
        result@ == blake3_digest(hasher_input(*hasher)),
{
    *hasher.finalize().as_bytes()
}

} // verus!
