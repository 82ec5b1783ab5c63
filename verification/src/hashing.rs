//! The hashing strategy.
//!
//! Digests are hex strings (`0x` followed by lowercase hex digits) naming
//! Starknet field elements, and the digest of one, two or many such
//! strings is the Starknet Poseidon hash of the named field elements,
//! re-encoded as a hex string. Two-input calls — merges, bagging, root
//! binding — use the dedicated two-argument primitive, never a degenerate
//! many-input call.
//!
//! The Poseidon permutation itself is outside code; its results are
//! named by uninterpreted spec functions, and everything built on top of
//! them is verified.

use crate::errors::MMRError;
use starknet_crypto::Felt;
use starknet_crypto::poseidon_hash;
use starknet_crypto::poseidon_hash_many;
use starknet_crypto::poseidon_hash_single;
use vstd::prelude::*;

verus! {

/// The digest of one element under the single-input Poseidon hash.
pub uninterp spec fn single_hash(element: Seq<char>) -> Seq<char>;

/// The digest of two elements under the two-input Poseidon hash. The
/// order of the operands matters.
pub uninterp spec fn pair_hash(left: Seq<char>, right: Seq<char>) -> Seq<char>;

/// The digest of a list of elements under the many-input Poseidon hash.
pub uninterp spec fn many_hash(elements: Seq<Seq<char>>) -> Seq<char>;

/// Relies on starknet_crypto::poseidon_hash_single and Felt::from_hex:
/// both are deterministic functions of the argument string alone (a
/// string that does not parse as a field element is read as zero), and
/// the digest is re-encoded with `format!("0x{:x}", _)`.
#[verifier::external_body]
fn poseidon_single(element: &str) -> (r: String)
    ensures
        r@ == single_hash(element@),
{
    let felt = Felt::from_hex(element).unwrap_or_default();
    format!("0x{:x}", poseidon_hash_single(felt))
}

/// Relies on starknet_crypto::poseidon_hash and Felt::from_hex: both are
/// deterministic functions of the argument strings alone (a string that
/// does not parse as a field element is read as zero), and the digest is
/// re-encoded with `format!("0x{:x}", _)`.
#[verifier::external_body]
fn poseidon_pair(left: &str, right: &str) -> (r: String)
    ensures
        r@ == pair_hash(left@, right@),
{
    let left_felt = Felt::from_hex(left).unwrap_or_default();
    let right_felt = Felt::from_hex(right).unwrap_or_default();
    format!("0x{:x}", poseidon_hash(left_felt, right_felt))
}

/// Relies on starknet_crypto::poseidon_hash_many and Felt::from_hex: both
/// are deterministic functions of the argument strings alone (a string
/// that does not parse as a field element is read as zero), and the
/// digest is re-encoded with `format!("0x{:x}", _)`.
#[verifier::external_body]
fn poseidon_many(elements: &Vec<String>) -> (r: String)
    ensures
        r@ == many_hash(elements@.map_values(|s: String| s@)),
{
    let felts: Vec<Felt> = elements.iter().map(|e| Felt::from_hex(e).unwrap_or_default()).collect();
    format!("0x{:x}", poseidon_hash_many(&felts))
}

/// The digest of `data` under the canonical strategy: the dedicated
/// two-input primitive for pairs, the single- and many-input variants for
/// the other arities. Empty input is a hard error, never a default digest.
pub fn hash(data: Vec<String>) -> (result: Result<String, MMRError>)
    ensures
        data@.len() == 0 ==> result == Err::<String, MMRError>(MMRError::HashError),
        data@.len() == 1 ==> (result matches Ok(r) && r@ == single_hash(data@[0]@)),
        data@.len() == 2 ==> (result matches Ok(r) && r@ == pair_hash(data@[0]@, data@[1]@)),
        data@.len() > 2 ==> (result matches Ok(r) && r@ == many_hash(
            data@.map_values(|s: String| s@),
        )),
{
    if data.len() == 0 {
        Err(MMRError::HashError)
    } else if data.len() == 1 {
        Ok(poseidon_single(data[0].as_str()))
    } else if data.len() == 2 {
        Ok(poseidon_pair(data[0].as_str(), data[1].as_str()))
    } else {
        Ok(poseidon_many(&data))
    }
}

} // verus!
