//! Identifiers of debt and repay positions, derived with Keccak-256.
use crate::codec::be_bytes;
use vstd::prelude::*;

verus! {

/// The Keccak-256 digest of `data`.
pub uninterp spec fn keccak_digest(data: Seq<u8>) -> Seq<u8>;

/// Relies on `sha3::Keccak256` (through `digest::Digest::digest`): a 32-byte digest that
/// depends on the input bytes alone.
#[verifier::external_body]
fn keccak256(data: &[u8]) -> (r: Vec<u8>)
    ensures
        r@ == keccak_digest(data@),
        r@.len() == 32,
{
    <sha3::Keccak256 as sha3::Digest>::digest(data).to_vec()
}

/// What is hashed to name the debt position opened with `nonce`.
pub open spec fn position_preimage(nonce: u64) -> Seq<u8> {
    be_bytes(nonce as nat, 8)
}

/// What is hashed to name the staging of `amount` units of receipt `token` / `nonce`.
pub open spec fn repay_preimage(token: Seq<u8>, amount: u128, nonce: u64) -> Seq<u8> {
    token + be_bytes(amount as nat, 16) + be_bytes(nonce as nat, 8)
}

/// Identifier of the debt position opened with `nonce`.
pub fn position_id_for(nonce: u64) -> (r: Vec<u8>)
    ensures
        r@ == keccak_digest(position_preimage(nonce)),
        r@.len() == 32,
{
    let mut data: Vec<u8> = Vec::new();
    crate::codec::push_be(&mut data, nonce as u128, 8);
    assert(data@ =~= position_preimage(nonce));
    keccak256(data.as_slice())
}

/// Identifier of a repay position staged for `amount` units of receipt `token` / `nonce`.
pub fn repay_id_for(token: &[u8], amount: u128, nonce: u64) -> (r: Vec<u8>)
    ensures
        r@ == keccak_digest(repay_preimage(token@, amount, nonce)),
        r@.len() == 32,
{
    let mut data: Vec<u8> = Vec::new();
    let mut i: usize = 0;
    while i < token.len()
        invariant
            i <= token@.len(),
            data@ == token@.subrange(0, i as int),
        decreases token@.len() - i,
    {
        data.push(token[i]);
        i = i + 1;
        assert(data@ =~= token@.subrange(0, i as int));
    }
    assert(token@.subrange(0, token@.len() as int) =~= token@);
    crate::codec::push_be(&mut data, amount, 16);
    crate::codec::push_be(&mut data, nonce as u128, 8);
    assert(data@ =~= repay_preimage(token@, amount, nonce));
    keccak256(data.as_slice())
}

} // verus!
