//! The common coin: a bit read off the threshold signature into which the
//! members' shares combine.

use crate::config::NodeId;
use crate::messages::SignatureShare;
use std::collections::BTreeMap;
use vstd::prelude::*;

verus! {

/// The threshold signature that `threshold_crypto` interpolates from the
/// shares, each under the index of its member, for the key set with this
/// `bincode` encoding; `None` where the key set does not decode, a share is
/// no group element, or the shares are too few for the key set's threshold.
pub uninterp spec fn combined_signature(
    key_set: Seq<u8>,
    shares: Map<NodeId, Seq<u8>>,
) -> Option<Seq<u8>>;

/// The encoding starts with a count of zero coefficients: a key set without
/// a master key, from which nothing can be combined.
pub open spec fn empty_key_set(key_set: Seq<u8>) -> bool {
    key_set.len() >= 8 && forall|i: int| 0 <= i < 8 ==> key_set[i] == 0
}

/// The shares as byte strings.
pub open spec fn share_bytes(shares: Map<NodeId, SignatureShare>) -> Map<NodeId, Seq<u8>> {
    shares.map_values(|share: SignatureShare| share@)
}

/// The bytes of a signature, if there is one.
pub open spec fn signature_bytes(signature: Option<Vec<u8>>) -> Option<Seq<u8>> {
    match signature {
        Some(bytes) => Some(bytes@),
        None => None,
    }
}

/// Calls `PublicKeySet::combine_signatures` of `threshold_crypto` on the key
/// set that `bincode::deserialize` reads from `key_set` and on the shares
/// that `SignatureShare::from_bytes` reads, each under its member's index
/// and in ascending order of index, as the map hands them out, and hands
/// back `Signature::to_bytes` of what comes out. Believed, not proved: that
/// the outcome is a function of these arguments alone, and that a
/// signature has 96 bytes. A key set without coefficients is kept out,
/// because the call does not return on it.
#[verifier::external_body]
pub(crate) fn combine_signatures(
    key_set: &Vec<u8>,
    shares: &BTreeMap<NodeId, SignatureShare>,
) -> (signature: Option<Vec<u8>>)
    requires
        !empty_key_set(key_set@),
    ensures
        signature_bytes(signature) == combined_signature(key_set@, share_bytes(shares@)),
        signature matches Some(bytes) ==> bytes@.len() == 96,
{
    let keys: threshold_crypto::PublicKeySet = bincode::deserialize(key_set).ok()?;
    let mut decoded = BTreeMap::new();
    for (id, share) in shares.iter() {
        decoded.insert(*id, threshold_crypto::SignatureShare::from_bytes(share).ok()?);
    }
    keys.combine_signatures(decoded.iter()).ok().map(|s| s.to_bytes().to_vec())
}

/// Whether the encoding announces a key set without coefficients.
pub fn is_empty_key_set(key_set: &Vec<u8>) -> (empty: bool)
    ensures
        empty == empty_key_set(key_set@),
{
    if key_set.len() < 8 {
        return false;
    }
    let mut i: usize = 0;
    while i < 8
        invariant
            i <= 8,
            key_set.len() >= 8,
            forall|j: int| 0 <= j < i ==> key_set@[j] == 0,
        decreases 8 - i,
    {
        if key_set[i] != 0 {
            return false;
        }
        i = i + 1;
    }
    true
}

/// 256 to the power of `n`.
pub open spec fn pow256(n: nat) -> nat
    decreases n,
{
    if n == 0 {
        1
    } else {
        256 * pow256((n - 1) as nat)
    }
}

/// The number that the bytes spell, most significant byte first.
pub open spec fn be_value(bytes: Seq<u8>) -> nat
    decreases bytes.len(),
{
    if bytes.len() == 0 {
        0
    } else {
        be_value(bytes.drop_last()) * 256 + bytes.last() as nat
    }
}

/// The coin of a signature: its first eight bytes, read as a big-endian
/// number, modulo two.
pub open spec fn coin_of(signature: Seq<u8>) -> nat {
    be_value(signature.take(8)) % 2
}

/// A number of `n` bytes is below 256 to the `n`.
proof fn lemma_be_value_bound(bytes: Seq<u8>)
    ensures
        be_value(bytes) < pow256(bytes.len()),
    decreases bytes.len(),
{
    if bytes.len() > 0 {
        lemma_be_value_bound(bytes.drop_last());
    }
}

/// Reads the coin off a signature.
pub fn coin_of_signature(signature: &Vec<u8>) -> (coin: usize)
    requires
        signature.len() >= 8,
    ensures
        coin == coin_of(signature@),
        coin < 2,
{
    let mut value: u64 = 0;
    let mut i: usize = 0;
    while i < 8
        invariant
            i <= 8,
            signature.len() >= 8,
            value as nat == be_value(signature@.take(i as int)),
        decreases 8 - i,
    {
        proof {
            let next = signature@.take(i + 1);
            assert(next.drop_last() == signature@.take(i as int));
            lemma_be_value_bound(next);
            lemma_be_value_bound(signature@.take(i as int));
            reveal_with_fuel(pow256, 10);
            assert(pow256(next.len()) <= pow256(8));
            assert(pow256(8) == 0x1_0000_0000_0000_0000);
        }
        value = value * 256 + signature[i] as u64;
        i = i + 1;
    }
    (value % 2) as usize
}

} // verus!
