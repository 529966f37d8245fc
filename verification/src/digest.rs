//! The 160-bit double digest used by the hash opcode: a 256-bit secure hash
//! followed by a 160-bit secure hash.

use vstd::prelude::*;
use sha2::Digest;

verus! {

/// The 32-byte digest that `sha2::Sha256` computes for a byte sequence.
pub uninterp spec fn sha256_of(data: Seq<u8>) -> Seq<u8>;

/// The 20-byte digest that `ripemd::Ripemd160` computes for a byte sequence.
pub uninterp spec fn ripemd160_of(data: Seq<u8>) -> Seq<u8>;

/// The 160-bit double digest of a byte sequence.
pub open spec fn spec_hash160(data: Seq<u8>) -> Seq<u8> {
    ripemd160_of(sha256_of(data))
}

/// Relies on sha2::Sha256::digest: a 32-byte digest that is a function of
/// the input bytes alone.
#[verifier::external_body]
fn sha256(data: &[u8]) -> (r: Vec<u8>)
    ensures
        r@ == sha256_of(data@),
        r@.len() == 32,
{
    sha2::Sha256::digest(data).to_vec()
}

/// Relies on ripemd::Ripemd160::digest: a 20-byte digest that is a function
/// of the input bytes alone.
#[verifier::external_body]
fn ripemd160(data: &[u8]) -> (r: Vec<u8>)
    ensures
        r@ == ripemd160_of(data@),
        r@.len() == 20,
{
    ripemd::Ripemd160::digest(data).to_vec()
}

/// The 20-byte digest obtained by applying the 256-bit hash and then the
/// 160-bit hash to `data`.
pub fn hash160(data: &[u8]) -> (r: Vec<u8>)
    ensures
        r@ == spec_hash160(data@),
        r@.len() == 20,
{
    let sha = sha256(data);
    ripemd160(sha.as_slice())
}

} // verus!
