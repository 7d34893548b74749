//! Deterministic pseudo-identity derivation: an account decoded from the
//! digest of a seeded name.

use vstd::prelude::*;

verus! {

/// The SCALE encoding of a `(name, index, seed)` triple, as
/// parity-scale-codec produces it: a function of the three values alone.
pub uninterp spec fn scale_encoding_of(name: Seq<char>, index: u32, seed: u32) -> Seq<u8>;

/// The 256-bit Blake2 digest of a byte string: a function of the bytes
/// alone.
pub uninterp spec fn blake2_256_of(data: Seq<u8>) -> Seq<u8>;

/// Relies on parity-scale-codec's `Encode` impl for `(&str, u32, u32)`: the
/// SCALE encoding of the triple, determined by the three values alone.
#[verifier::external_body]
fn encode_seed_triple(name: &'static str, index: u32, seed: u32) -> (r: Vec<u8>)
    ensures
        r@ == scale_encoding_of(name@, index, seed),
{
    parity_scale_codec::Encode::encode(&(name, index, seed))
}

/// Relies on sp-io's `hashing::blake2_256`: the 256-bit (32-byte) Blake2
/// digest of the input, determined by the input bytes alone.
#[verifier::external_body]
fn blake2_256_hash(data: &Vec<u8>) -> (r: Vec<u8>)
    ensures
        r@ == blake2_256_of(data@),
        r@.len() == 32,
{
    sp_io::hashing::blake2_256(data.as_slice()).to_vec()
}

/// Relies on parity-scale-codec's `Decode` impl for the caller's account
/// type: the account decoded from the entropy bytes, or nothing when they
/// do not decode.
#[verifier::external_body]
fn decode_account<AccountId: parity_scale_codec::Decode>(entropy: &Vec<u8>) -> Option<AccountId> {
    let mut input = entropy.as_slice();
    AccountId::decode(&mut input).ok()
}

/// Relies on core's `Default` impl for the caller's account type.
#[verifier::external_body]
fn default_account<AccountId: core::default::Default>() -> AccountId {
    AccountId::default()
}

/// The entropy an account is decoded from: the 256-bit Blake2 digest of the
/// SCALE-encoded `(name, index, seed)` triple, a 32-byte function of the
/// three inputs alone.
pub fn account_entropy(name: &'static str, index: u32, seed: u32) -> (r: Vec<u8>)
    ensures
        r@ == blake2_256_of(scale_encoding_of(name@, index, seed)),
        r@.len() == 32,
{
    let encoded = encode_seed_triple(name, index, seed);
    blake2_256_hash(&encoded)
}

/// Grabs an account, seeded by a name and an index: the account is decoded
/// from the Blake2 digest of the SCALE-encoded `(name, index, seed)` triple,
/// so equal inputs always name the same identity. When the digest does not
/// decode as the account type, that type's default value stands in.
pub fn account<AccountId: parity_scale_codec::Decode + core::default::Default>(
    name: &'static str,
    index: u32,
    seed: u32,
) -> AccountId {
    let entropy = account_entropy(name, index, seed);
    match decode_account::<AccountId>(&entropy) {
        Some(a) => a,
        None => default_account::<AccountId>(),
    }
}

} // verus!
