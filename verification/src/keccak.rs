//! Hash-derived schema identifiers: the 4-byte call selector and the
//! 32-byte event topic, both taken from the Keccak-256 digest of a
//! canonical signature.

use vstd::prelude::*;

use crate::signature::signature_bytes;
use crate::types::AbiType;

verus! {

/// The Keccak-256 digest of a byte string. The digest itself is opaque
/// to this crate; contracts name it and tie every selector to it.
pub uninterp spec fn keccak_of(data: Seq<u8>) -> Seq<u8>;

/// Relies on `ethers_core::utils::keccak256`: the Keccak-256 digest, a
/// pure function of the input bytes, always 32 bytes long.
#[verifier::external_body]
pub(crate) fn keccak256(data: &Vec<u8>) -> (r: Vec<u8>)
    ensures
        r@ == keccak_of(data@),
        r@.len() == 32,
{
    ethers_core::utils::keccak256(data.as_slice()).to_vec()
}

/// The 4-byte call selector of a canonical signature.
pub open spec fn selector_of(name: Seq<u8>, ins: Seq<AbiType>) -> Seq<u8> {
    keccak_of(signature_bytes(name, ins)).take(4)
}

/// The 32-byte topic of a canonical event signature.
pub open spec fn topic_of(name: Seq<u8>, ins: Seq<AbiType>) -> Seq<u8> {
    keccak_of(signature_bytes(name, ins))
}

/// Compute the 4-byte call selector of a schema's canonical signature.
pub fn selector_x(name: &Vec<u8>, ins: &Vec<AbiType>) -> (r: Vec<u8>)
    ensures
        r@ == selector_of(name@, ins@),
        r@.len() == 4,
{
    let sig = crate::signature::signature_x(name, ins);
    let mut h = keccak256(&sig);
    h.truncate(4);
    proof {
        assert(h@ =~= selector_of(name@, ins@));
    }
    h
}

/// Compute the 32-byte event topic of a schema's canonical signature.
pub fn topic_x(name: &Vec<u8>, ins: &Vec<AbiType>) -> (r: Vec<u8>)
    ensures
        r@ == topic_of(name@, ins@),
        r@.len() == 32,
{
    let sig = crate::signature::signature_x(name, ins);
    keccak256(&sig)
}

/// Selector determinism: two schemas with the same canonical signature
/// carry the same selector and the same topic.
pub proof fn lemma_selector_deterministic(
    name_a: Seq<u8>,
    ins_a: Seq<AbiType>,
    name_b: Seq<u8>,
    ins_b: Seq<AbiType>,
)
    requires
        signature_bytes(name_a, ins_a) == signature_bytes(name_b, ins_b),
    ensures
        selector_of(name_a, ins_a) == selector_of(name_b, ins_b),
        topic_of(name_a, ins_a) == topic_of(name_b, ins_b),
{
}

} // verus!
