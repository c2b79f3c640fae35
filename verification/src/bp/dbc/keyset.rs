//! Commitment into a set of public keys: one key of the set, picked by a
//! hash of the set and the value, takes the tweak; the others stay as they
//! are.

use crate::bp::dbc::error::Error;
use crate::bp::dbc::pubkey::{
    pubkey_commit_spec, CommitmentValue, ProtocolTag, PubkeyBytes, PubkeyContainer, PubkeyProof,
};
use crate::bp::dbc::digests::{bytes_eq, sha256, sha256_spec, HASH_INPUT_LIMIT};
use crate::strict_encoding::{get_u64, put_bytes, u64_at};
use vstd::prelude::*;

verus! {

/// An ordered set of keys to commit into, and the protocol's tag.
#[derive(Clone, Debug, PartialEq, Eq)]
pub struct KeysetContainer {
    pub keys: Vec<PubkeyBytes>,
    pub tag: ProtocolTag,
}

/// What lets a verifier compute the commitment again: the set as it was,
/// the value, the place of the key that took the tweak and the proof of
/// that key's commitment.
#[derive(Clone, Debug, PartialEq, Eq)]
pub struct KeysetProof {
    pub container: KeysetContainer,
    pub value: CommitmentValue,
    pub index: usize,
    pub key_proof: PubkeyProof,
}

/// A set of keys that carries a commitment, with its proof.
#[derive(Clone, Debug, PartialEq, Eq)]
pub struct KeysetCommitment {
    pub committed: Vec<PubkeyBytes>,
    pub proof: KeysetProof,
}

pub struct KeysetContainerView {
    pub keys: Seq<PubkeyBytes>,
    pub tag: ProtocolTag,
}

pub struct KeysetProofView {
    pub container: KeysetContainerView,
    pub value: CommitmentValue,
    pub index: int,
    pub key_proof: PubkeyProof,
}

pub struct KeysetCommitmentView {
    pub committed: Seq<PubkeyBytes>,
    pub proof: KeysetProofView,
}

impl View for KeysetContainer {
    type V = KeysetContainerView;

    open spec fn view(&self) -> KeysetContainerView {
        KeysetContainerView { keys: self.keys@, tag: self.tag }
    }
}

impl View for KeysetProof {
    type V = KeysetProofView;

    open spec fn view(&self) -> KeysetProofView {
        KeysetProofView {
            container: self.container@,
            value: self.value,
            index: self.index as int,
            key_proof: self.key_proof,
        }
    }
}

impl View for KeysetCommitment {
    type V = KeysetCommitmentView;

    open spec fn view(&self) -> KeysetCommitmentView {
        KeysetCommitmentView { committed: self.committed@, proof: self.proof@ }
    }
}

/// Domain separator of the digest of a set of keys.
pub open spec fn keyset_tag() -> Seq<u8> {
    seq![0x73u8, 0x65, 0x74, 0x3a]
}

/// The keys of the set, one after the other.
pub open spec fn flatten_keys(keys: Seq<PubkeyBytes>) -> Seq<u8>
    decreases keys.len(),
{
    if keys.len() == 0 {
        Seq::empty()
    } else {
        flatten_keys(keys.drop_last()) + keys.last()@
    }
}

/// The canonical encoding of the set under the protocol's tag.
pub open spec fn keyset_message(c: KeysetContainerView) -> Seq<u8> {
    keyset_tag() + c.tag@ + flatten_keys(c.keys)
}

/// The digest that stands for the set.
pub open spec fn keyset_digest(c: KeysetContainerView) -> [u8; 32] {
    sha256_spec(keyset_message(c))
}

/// The place of the key that takes the tweak: the first eight bytes of the
/// hash of the set's digest and the value, as a number, modulo the number
/// of keys.
pub open spec fn keyset_index(c: KeysetContainerView, value: CommitmentValue) -> int {
    u64_at(sha256_spec(keyset_digest(c)@ + value@)@, 0) % (c.keys.len() as int)
}

/// The commitment of a value into a set of keys.
pub open spec fn keyset_commit_spec(c: KeysetContainerView, value: CommitmentValue) -> Result<
    KeysetCommitmentView,
    Error,
> {
    if c.keys.len() == 0 {
        Err(Error::NoCommittableCarrier)
    } else if keyset_message(c).len() >= HASH_INPUT_LIMIT {
        Err(Error::UnsupportedContainerKind)
    } else {
        let index = keyset_index(c, value);
        match pubkey_commit_spec(
            PubkeyContainer { pubkey: c.keys[index], tag: keyset_digest(c) },
            value,
        ) {
            Ok(made) => Ok(
                KeysetCommitmentView {
                    committed: c.keys.update(index, made.committed),
                    proof: KeysetProofView { container: c, value, index, key_proof: made.proof },
                },
            ),
            Err(e) => Err(e),
        }
    }
}

/// Whether the set is the commitment that the proof speaks of.
pub open spec fn keyset_verify_spec(committed: Seq<PubkeyBytes>, proof: KeysetProofView) -> bool {
    keyset_commit_spec(proof.container, proof.value) == Ok::<KeysetCommitmentView, Error>(
        KeysetCommitmentView { committed, proof },
    )
}

/// A commitment verifies against its own proof.
pub proof fn lemma_keyset_round_trip(c: KeysetContainerView, value: CommitmentValue)
    ensures
        keyset_commit_spec(c, value) matches Ok(made) ==> keyset_verify_spec(
            made.committed,
            made.proof,
        ),
{
}

/// No other set verifies against the proof of a commitment.
pub proof fn lemma_keyset_tamper(
    c: KeysetContainerView,
    value: CommitmentValue,
    other: Seq<PubkeyBytes>,
)
    ensures
        keyset_commit_spec(c, value) matches Ok(made) ==> (other != made.committed
            ==> !keyset_verify_spec(other, made.proof)),
{
}

/// Only the key at the chosen place differs from the set as it was.
pub proof fn lemma_keyset_rest_unchanged(c: KeysetContainerView, value: CommitmentValue)
    ensures
        keyset_commit_spec(c, value) matches Ok(made) ==> made.committed.len() == c.keys.len()
            && 0 <= made.proof.index < c.keys.len() && forall|i: int|
            0 <= i < c.keys.len() && i != made.proof.index ==> made.committed[i] == c.keys[i],
{
}

/// Copies a list of keys.
pub fn copy_keys(keys: &Vec<PubkeyBytes>) -> (copy: Vec<PubkeyBytes>)
    ensures
        copy@ == keys@,
{
    let n = keys.len();
    let mut copy: Vec<PubkeyBytes> = Vec::new();
    let mut i: usize = 0;
    while i < n
        invariant
            i <= n,
            n == keys@.len(),
            copy@ == keys@.take(i as int),
        decreases n - i,
    {
        copy.push(keys[i]);
        assert(keys@.take(i + 1) =~= keys@.take(i as int).push(keys@[i as int]));
        i += 1;
    }
    assert(keys@.take(n as int) =~= keys@);
    copy
}

/// Whether two lists hold the same keys.
pub fn same_keys(a: &Vec<PubkeyBytes>, b: &Vec<PubkeyBytes>) -> (same: bool)
    ensures
        same == (a@ == b@),
{
    let n = a.len();
    if b.len() != n {
        return false;
    }
    let mut i: usize = 0;
    while i < n
        invariant
            i <= n,
            n == a@.len(),
            n == b@.len(),
            forall|j: int| 0 <= j < i ==> a@[j] == b@[j],
        decreases n - i,
    {
        if !bytes_eq(&a[i], &b[i]) {
            assert(a@[i as int] != b@[i as int]);
            return false;
        }
        i += 1;
    }
    assert(a@ =~= b@);
    true
}

impl KeysetContainer {
    /// Writes the canonical encoding of the set.
    fn message(&self) -> (buf: Vec<u8>)
        ensures
            buf@ == keyset_message(self@),
    {
        let mut buf: Vec<u8> = Vec::new();
        buf.push(0x73u8);
        buf.push(0x65u8);
        buf.push(0x74u8);
        buf.push(0x3au8);
        assert(buf@ =~= keyset_tag());
        put_bytes(&mut buf, self.tag.as_slice());
        let n = self.keys.len();
        let mut i: usize = 0;
        while i < n
            invariant
                i <= n,
                n == self.keys@.len(),
                buf@ == keyset_tag() + self.tag@ + flatten_keys(self.keys@.take(i as int)),
            decreases n - i,
        {
            put_bytes(&mut buf, self.keys[i].as_slice());
            proof {
                let next = self.keys@.take(i + 1);
                assert(next.drop_last() =~= self.keys@.take(i as int));
                assert(next.last() == self.keys@[i as int]);
                assert(buf@ =~= keyset_tag() + self.tag@ + flatten_keys(next));
            }
            i += 1;
        }
        assert(self.keys@.take(n as int) =~= self.keys@);
        buf
    }

    /// Commits the value into the set. The same set and value give the
    /// same commitment, whoever computes it.
    pub fn commit(&self, value: &CommitmentValue) -> (r: Result<KeysetCommitment, Error>)
        ensures
            match r {
                Ok(made) => keyset_commit_spec(self@, *value) == Ok::<KeysetCommitmentView, Error>(
                    made@,
                ),
                Err(e) => keyset_commit_spec(self@, *value) == Err::<KeysetCommitmentView, Error>(
                    e,
                ),
            },
    {
        let n = self.keys.len();
        if n == 0 {
            return Err(Error::NoCommittableCarrier);
        }
        let message = self.message();
        if message.len() as u64 >= HASH_INPUT_LIMIT {
            return Err(Error::UnsupportedContainerKind);
        }
        let digest = sha256(message.as_slice());
        let mut input: Vec<u8> = Vec::new();
        put_bytes(&mut input, digest.as_slice());
        put_bytes(&mut input, value.as_slice());
        assert(input@ =~= digest@ + value@);
        let pick = sha256(input.as_slice());
        let number = get_u64(pick.as_slice(), 0);
        let index = (number % (n as u64)) as usize;
        let key = PubkeyContainer { pubkey: self.keys[index], tag: digest };
        match key.commit(value) {
            Ok(made) => {
                let mut committed = copy_keys(&self.keys);
                committed.set(index, made.committed);
                Ok(
                    KeysetCommitment {
                        committed,
                        proof: KeysetProof {
                            container: KeysetContainer { keys: copy_keys(&self.keys), tag: self.tag },
                            value: *value,
                            index,
                            key_proof: made.proof,
                        },
                    },
                )
            },
            Err(e) => Err(e),
        }
    }
}

impl KeysetProof {
    /// Computes the commitment again from the set and the value that the
    /// proof holds, and says whether it gives the committed set and this
    /// proof.
    pub fn verify(&self, committed: &Vec<PubkeyBytes>) -> (ok: bool)
        ensures
            ok == keyset_verify_spec(committed@, self@),
    {
        match self.container.commit(&self.value) {
            Ok(made) => same_keys(&made.committed, committed) && made.proof.index == self.index
                && made.proof.key_proof.same(&self.key_proof),
            Err(_) => false,
        }
    }
}

/// A proof into which another value was put does not verify, unless the
/// other value gives the same committed container.
pub proof fn lemma_keyset_other_value(c: KeysetContainerView, value: CommitmentValue, other: CommitmentValue)
    requires
        keyset_commit_spec(c, value) is Ok,
        !(keyset_commit_spec(c, other) matches Ok(again) && again.committed == keyset_commit_spec(
            c,
            value,
        )->Ok_0.committed),
    ensures
        !keyset_verify_spec(
            keyset_commit_spec(c, value)->Ok_0.committed,
            KeysetProofView { value: other, ..keyset_commit_spec(c, value)->Ok_0.proof },
        ),
{
}

} // verus!
