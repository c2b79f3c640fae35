//! Commitment into a single public key: the key is moved by a tweak that
//! is derived from the key, the protocol tag and the commitment value.

use crate::bp::dbc::error::Error;
use crate::bp::dbc::digests::{bytes_eq, sha256, sha256_spec};
use crate::strict_encoding::put_bytes;
use bitcoin::secp256k1::{PublicKey, Scalar, Secp256k1};
use vstd::prelude::*;

verus! {

/// A public key in its compressed form.
pub type PubkeyBytes = [u8; 33];

/// The value that is committed to.
pub type CommitmentValue = [u8; 32];

/// Tag of the protocol on whose behalf the commitment is made.
pub type ProtocolTag = [u8; 32];

/// Whether the bytes are the encoding of a point of the curve.
pub uninterp spec fn is_pubkey(bytes: Seq<u8>) -> bool;

/// The key that results from adding the tweak, times the generator, to the
/// key; nothing where the key or the tweak is unusable or the sum is the
/// point at infinity.
pub uninterp spec fn tweak_add_spec(key: Seq<u8>, tweak: Seq<u8>) -> Option<PubkeyBytes>;

/// Calls `secp256k1::PublicKey::from_slice` and says whether it accepted
/// the bytes. Trusted: the answer depends on the bytes alone.
#[verifier::external_body]
pub(crate) fn pubkey_parses(bytes: &[u8]) -> (ok: bool)
    ensures
        ok == is_pubkey(bytes@),
{
    PublicKey::from_slice(bytes).is_ok()
}

/// Calls `secp256k1::PublicKey::add_exp_tweak` on the parsed key with the
/// tweak as a scalar, and hands back the compressed form of the sum.
/// Trusted: the result depends on the two byte strings alone.
#[verifier::external_body]
pub(crate) fn tweak_add(key: &PubkeyBytes, tweak: &[u8; 32]) -> (r: Option<PubkeyBytes>)
    ensures
        r == tweak_add_spec(key@, tweak@),
{
    let secp = Secp256k1::verification_only();
    let point = PublicKey::from_slice(key).ok()?;
    let scalar = Scalar::from_be_bytes(*tweak).ok()?;
    match point.add_exp_tweak(&secp, &scalar) {
        Ok(sum) => Some(sum.serialize()),
        Err(_) => None,
    }
}

/// A key to commit into, and the protocol's tag.
#[derive(Clone, Copy, Debug, PartialEq, Eq)]
pub struct PubkeyContainer {
    pub pubkey: PubkeyBytes,
    pub tag: ProtocolTag,
}

/// What lets a verifier compute the commitment again: the key as it was,
/// the value, the tweak that was added and the number of the attempt that
/// gave it.
#[derive(Clone, Copy, Debug, PartialEq, Eq)]
pub struct PubkeyProof {
    pub container: PubkeyContainer,
    pub value: CommitmentValue,
    pub tweak: [u8; 32],
    pub attempt: u8,
}

/// A key that carries a commitment, with its proof.
#[derive(Clone, Copy, Debug, PartialEq, Eq)]
pub struct PubkeyCommitment {
    pub committed: PubkeyBytes,
    pub proof: PubkeyProof,
}

/// Domain separator of key tweaks.
pub open spec fn tweak_tag() -> Seq<u8> {
    seq![0x6bu8, 0x65, 0x79, 0x3a]
}

/// What is hashed into the tweak of the given attempt.
pub open spec fn tweak_message(
    attempt: u8,
    tag: Seq<u8>,
    key: Seq<u8>,
    value: Seq<u8>,
) -> Seq<u8> {
    tweak_tag() + seq![attempt] + tag + key + value
}

/// The tweak of the given attempt.
pub open spec fn tweak_of(attempt: u8, c: PubkeyContainer, value: CommitmentValue) -> [u8; 32] {
    sha256_spec(tweak_message(attempt, c.tag@, c.pubkey@, value@))
}

/// The commitment of the first attempt, from `attempt` on, whose tweak
/// gives a key.
pub open spec fn search_tweak(
    c: PubkeyContainer,
    value: CommitmentValue,
    attempt: nat,
) -> Option<PubkeyCommitment>
    decreases 256 - attempt,
{
    if attempt >= 256 {
        None
    } else {
        let tweak = tweak_of(attempt as u8, c, value);
        match tweak_add_spec(c.pubkey@, tweak@) {
            Some(committed) => Some(
                PubkeyCommitment {
                    committed,
                    proof: PubkeyProof { container: c, value, tweak, attempt: attempt as u8 },
                },
            ),
            None => search_tweak(c, value, attempt + 1),
        }
    }
}

/// The commitment of a value into a key.
pub open spec fn pubkey_commit_spec(c: PubkeyContainer, value: CommitmentValue) -> Result<
    PubkeyCommitment,
    Error,
> {
    if !is_pubkey(c.pubkey@) {
        Err(Error::UnsupportedContainerKind)
    } else {
        match search_tweak(c, value, 0) {
            Some(commitment) => Ok(commitment),
            None => Err(Error::NoCommittableCarrier),
        }
    }
}

/// Whether the key is the commitment that the proof speaks of.
pub open spec fn pubkey_verify_spec(committed: PubkeyBytes, proof: PubkeyProof) -> bool {
    pubkey_commit_spec(proof.container, proof.value) == Ok::<PubkeyCommitment, Error>(
        PubkeyCommitment { committed, proof },
    )
}

/// What a search finds keeps the container and the value, and its tweak is
/// that of its attempt.
pub proof fn lemma_search_tweak(c: PubkeyContainer, value: CommitmentValue, attempt: nat)
    ensures
        search_tweak(c, value, attempt) matches Some(found) ==> found.proof.container == c
            && found.proof.value == value && found.proof.tweak == tweak_of(
            found.proof.attempt,
            c,
            value,
        ),
    decreases 256 - attempt,
{
    if attempt < 256 {
        lemma_search_tweak(c, value, attempt + 1);
    }
}

/// A commitment verifies against its own proof.
pub proof fn lemma_pubkey_round_trip(c: PubkeyContainer, value: CommitmentValue)
    ensures
        pubkey_commit_spec(c, value) matches Ok(made) ==> pubkey_verify_spec(
            made.committed,
            made.proof,
        ),
{
    lemma_search_tweak(c, value, 0);
}

/// No other key verifies against the proof of a commitment.
pub proof fn lemma_pubkey_tamper(c: PubkeyContainer, value: CommitmentValue, other: PubkeyBytes)
    ensures
        pubkey_commit_spec(c, value) matches Ok(made) ==> (other != made.committed
            ==> !pubkey_verify_spec(other, made.proof)),
{
    lemma_search_tweak(c, value, 0);
}

/// A proof into which another value was put does not verify, unless the
/// two values hash to the same tweak.
pub proof fn lemma_pubkey_other_value(
    c: PubkeyContainer,
    value: CommitmentValue,
    other: CommitmentValue,
)
    requires
        forall|attempt: u8| tweak_of(attempt, c, other) != tweak_of(attempt, c, value),
    ensures
        pubkey_commit_spec(c, value) matches Ok(made) ==> !pubkey_verify_spec(
            made.committed,
            PubkeyProof { value: other, ..made.proof },
        ),
{
    lemma_search_tweak(c, value, 0);
    lemma_search_tweak(c, other, 0);
}

/// Writes what is hashed into the tweak of the given attempt.
fn tweak_input(attempt: u8, c: &PubkeyContainer, value: &CommitmentValue) -> (buf: Vec<u8>)
    ensures
        buf@ == tweak_message(attempt, c.tag@, c.pubkey@, value@),
{
    let mut buf: Vec<u8> = Vec::new();
    buf.push(0x6bu8);
    buf.push(0x65u8);
    buf.push(0x79u8);
    buf.push(0x3au8);
    assert(buf@ =~= tweak_tag());
    buf.push(attempt);
    put_bytes(&mut buf, c.tag.as_slice());
    put_bytes(&mut buf, c.pubkey.as_slice());
    put_bytes(&mut buf, value.as_slice());
    buf
}

impl PubkeyContainer {
    /// Commits the value into the key. The same container and value give
    /// the same commitment, whoever computes it.
    pub fn commit(&self, value: &CommitmentValue) -> (r: Result<PubkeyCommitment, Error>)
        ensures
            r == pubkey_commit_spec(*self, *value),
    {
        if !pubkey_parses(self.pubkey.as_slice()) {
            return Err(Error::UnsupportedContainerKind);
        }
        let mut attempt: u8 = 0;
        loop
            invariant
                search_tweak(*self, *value, 0) == search_tweak(*self, *value, attempt as nat),
                is_pubkey(self.pubkey@),
            decreases 256 - attempt,
        {
            let input = tweak_input(attempt, self, value);
            let tweak = sha256(input.as_slice());
            match tweak_add(&self.pubkey, &tweak) {
                Some(committed) => {
                    return Ok(
                        PubkeyCommitment {
                            committed,
                            proof: PubkeyProof {
                                container: *self,
                                value: *value,
                                tweak,
                                attempt,
                            },
                        },
                    );
                },
                None => {},
            }
            if attempt == 255 {
                assert(search_tweak(*self, *value, 256) is None);
                return Err(Error::NoCommittableCarrier);
            }
            attempt += 1;
        }
    }
}

impl PubkeyProof {
    /// Whether the two proofs hold the same container, value, tweak and
    /// attempt.
    pub fn same(&self, other: &PubkeyProof) -> (same: bool)
        ensures
            same == (*self == *other),
    {
        bytes_eq(&self.container.pubkey, &other.container.pubkey) && bytes_eq(
            &self.container.tag,
            &other.container.tag,
        ) && bytes_eq(&self.value, &other.value) && bytes_eq(&self.tweak, &other.tweak)
            && self.attempt == other.attempt
    }

    /// Computes the commitment again from the container and the value that
    /// the proof holds, and says whether it gives the key and this proof.
    pub fn verify(&self, committed: &PubkeyBytes) -> (ok: bool)
        ensures
            ok == pubkey_verify_spec(*committed, *self),
    {
        match self.container.commit(&self.value) {
            Ok(made) => bytes_eq(&made.committed, committed) && made.proof.same(self),
            Err(_) => false,
        }
    }
}

/// The commitment is a function of the container and the value: made
/// twice, it is the same.
pub proof fn lemma_pubkey_deterministic(
    a: PubkeyContainer,
    b: PubkeyContainer,
    value: CommitmentValue,
)
    requires
        a.pubkey@ == b.pubkey@,
        a.tag@ == b.tag@,
    ensures
        pubkey_commit_spec(a, value) == pubkey_commit_spec(b, value),
{
    crate::bp::dbc::digests::lemma_array_eq(a.pubkey, b.pubkey);
    crate::bp::dbc::digests::lemma_array_eq(a.tag, b.tag);
}

} // verus!
