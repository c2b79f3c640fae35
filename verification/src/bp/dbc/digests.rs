//! Digests: the hash functions of the `bitcoin` crate, each behind one
//! function whose contract is taken on trust, and what compares digests.

use vstd::prelude::*;

verus! {

/// One more than the longest input that the hash functions are given:
/// beyond it the bit length of the input no longer fits the 64-bit
/// length field of the padding.
pub const HASH_INPUT_LIMIT: u64 = 0x2000_0000_0000_0000;

/// The SHA-256 digest of a byte string.
pub uninterp spec fn sha256_spec(data: Seq<u8>) -> [u8; 32];

/// The HASH160 digest (RIPEMD-160 of SHA-256) of a byte string.
pub uninterp spec fn hash160_spec(data: Seq<u8>) -> [u8; 20];

/// Calls `bitcoin::hashes::sha256::Hash::hash` and hands back the digest's
/// 32 bytes. Trusted: the digest depends on the input bytes alone.
#[verifier::external_body]
pub(crate) fn sha256(data: &[u8]) -> (digest: [u8; 32])
    requires
        data@.len() < HASH_INPUT_LIMIT,
    ensures
        digest == sha256_spec(data@),
{
    let digest = <bitcoin::hashes::sha256::Hash as bitcoin::hashes::Hash>::hash(data);
    <bitcoin::hashes::sha256::Hash as bitcoin::hashes::Hash>::to_byte_array(digest)
}

/// Calls `bitcoin::hashes::hash160::Hash::hash` and hands back the digest's
/// 20 bytes. Trusted: the digest depends on the input bytes alone.
#[verifier::external_body]
pub(crate) fn hash160(data: &[u8]) -> (digest: [u8; 20])
    requires
        data@.len() < HASH_INPUT_LIMIT,
    ensures
        digest == hash160_spec(data@),
{
    let digest = <bitcoin::hashes::hash160::Hash as bitcoin::hashes::Hash>::hash(data);
    <bitcoin::hashes::hash160::Hash as bitcoin::hashes::Hash>::to_byte_array(digest)
}

/// Two arrays are equal exactly when they hold the same bytes.
pub proof fn lemma_array_eq<const N: usize>(a: [u8; N], b: [u8; N])
    ensures
        (a@ == b@) == (a == b),
{
    if a@ == b@ {
        assert(a =~= b);
    }
}

/// The array that holds the given bytes.
pub open spec fn as_array<const N: usize>(bytes: Seq<u8>) -> [u8; N] {
    choose|a: [u8; N]| a@ == bytes
}

/// An array is the array that holds its bytes.
pub proof fn lemma_as_array<const N: usize>(a: [u8; N])
    ensures
        as_array::<N>(a@) == a,
{
    lemma_array_eq(a, as_array::<N>(a@));
}

/// Whether two byte arrays hold the same bytes.
pub fn bytes_eq<const N: usize>(a: &[u8; N], b: &[u8; N]) -> (same: bool)
    ensures
        same == (*a == *b),
{
    let mut i: usize = 0;
    while i < N
        invariant
            i <= N,
            forall|j: int| 0 <= j < i ==> a@[j] == b@[j],
        decreases N - i,
    {
        if a[i] != b[i] {
            assert(a@[i as int] != b@[i as int]);
            return false;
        }
        i += 1;
    }
    assert(a@ =~= b@);
    assert(*a =~= *b);
    true
}

/// Whether two byte strings hold the same bytes.
pub fn slices_eq(a: &[u8], b: &[u8]) -> (same: bool)
    ensures
        same == (a@ == b@),
{
    let n = a.len();
    if b.len() != n {
        return false;
    }
    let mut i: usize = 0;
    while i < n
        invariant
            i <= n,
            n == a@.len(),
            n == b@.len(),
            forall|j: int| 0 <= j < i ==> a@[j] == b@[j],
        decreases n - i,
    {
        if a[i] != b[i] {
            return false;
        }
        i += 1;
    }
    assert(a@ =~= b@);
    true
}

} // verus!
