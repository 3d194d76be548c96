//! Digests of byte strings.

use vstd::prelude::*;

verus! {

/// The digest that `blake3::hash` gives a byte string, thirty-two bytes long.
pub uninterp spec fn blake3_hash(data: Seq<u8>) -> Seq<u8>;

/// Calls `blake3::hash` and takes the raw bytes of its result, which depend on the input alone.
/// What those bytes are is left unsaid.
#[verifier::external_body]
pub(crate) fn digest(data: &[u8]) -> (result: [u8; 32])
    ensures
        result@ == blake3_hash(data@),
{
    *blake3::hash(data).as_bytes()
}

} // verus!
