//! What all layers of commitment have in common: a container takes a
//! value and gives a committed carrier with its proof; a proof says of a
//! carrier whether it is the one that was committed.

use crate::bp::dbc::error::Error;
use crate::bp::dbc::keyset::{
    keyset_commit_spec, keyset_verify_spec, KeysetCommitment, KeysetCommitmentView,
    KeysetContainer, KeysetProof,
};
use crate::bp::dbc::lockscript::{
    lockscript_commit_spec, lockscript_verify_spec, LockscriptCommitment, LockscriptCommitmentView,
    LockscriptContainer, LockscriptProof,
};
use crate::bp::dbc::pubkey::{
    pubkey_commit_spec, pubkey_verify_spec, CommitmentValue, PubkeyBytes, PubkeyCommitment,
    PubkeyContainer, PubkeyProof,
};
use crate::bp::dbc::spk::{
    spk_commit_spec, spk_verify_spec, SpkCommitment, SpkCommitmentView, SpkContainer, SpkProof,
};
use crate::bp::dbc::taproot::{
    taproot_commit_spec, taproot_verify_spec, TaprootCommitment, TaprootContainer, TaprootProof,
    XOnlyKey,
};
use crate::bp::dbc::tx::{
    tx_commit_spec, tx_verify_spec, Tx, TxCommitment, TxCommitmentView, TxContainer, TxProof,
    TxSupplement,
};
use crate::bp::dbc::txout::{
    outputs_view, txout_commit_spec, txout_verify_spec, TxOut, TxoutCommitment,
    TxoutCommitmentView, TxoutContainer, TxoutProof,
};
use vstd::prelude::*;

verus! {

/// A carrier into which a value can be committed.
pub trait Container: Sized {
    /// What the committer says of the carrier's layout, where the layer
    /// asks for it.
    type Supplement;

    /// The committed carrier with its proof.
    type Commitment;

    /// Whether `made` is what committing the value gives.
    spec fn gives(
        &self,
        supplement: &Self::Supplement,
        value: CommitmentValue,
        made: Result<Self::Commitment, Error>,
    ) -> bool;

    /// Commits the value into the carrier.
    fn embed_commit(&self, supplement: &Self::Supplement, value: &CommitmentValue) -> (made: Result<
        Self::Commitment,
        Error,
    >)
        ensures
            self.gives(supplement, *value, made),
    ;
}

/// What lets a verifier compute a commitment again.
pub trait Proof {
    /// The kind of carrier that the proof speaks of.
    type Committed;

    /// Whether the carrier is the commitment that the proof speaks of.
    spec fn accepts(&self, committed: &Self::Committed) -> bool;

    /// Computes the commitment again and compares. A carrier that does
    /// not fit is no error: the answer is `false`.
    fn verify_commitment(&self, committed: &Self::Committed) -> (ok: bool)
        ensures
            ok == self.accepts(committed),
    ;
}

impl Container for PubkeyContainer {
    type Supplement = ();

    type Commitment = PubkeyCommitment;

    open spec fn gives(
        &self,
        supplement: &(),
        value: CommitmentValue,
        made: Result<PubkeyCommitment, Error>,
    ) -> bool {
        made == pubkey_commit_spec(*self, value)
    }

    fn embed_commit(&self, supplement: &(), value: &CommitmentValue) -> (made: Result<
        PubkeyCommitment,
        Error,
    >) {
        self.commit(value)
    }
}

impl Proof for PubkeyProof {
    type Committed = PubkeyBytes;

    open spec fn accepts(&self, committed: &PubkeyBytes) -> bool {
        pubkey_verify_spec(*committed, *self)
    }

    fn verify_commitment(&self, committed: &PubkeyBytes) -> (ok: bool) {
        self.verify(committed)
    }
}

impl Container for KeysetContainer {
    type Supplement = ();

    type Commitment = KeysetCommitment;

    open spec fn gives(
        &self,
        supplement: &(),
        value: CommitmentValue,
        made: Result<KeysetCommitment, Error>,
    ) -> bool {
        match made {
            Ok(c) => keyset_commit_spec(self@, value) == Ok::<KeysetCommitmentView, Error>(c@),
            Err(e) => keyset_commit_spec(self@, value) == Err::<KeysetCommitmentView, Error>(e),
        }
    }

    fn embed_commit(&self, supplement: &(), value: &CommitmentValue) -> (made: Result<
        KeysetCommitment,
        Error,
    >) {
        self.commit(value)
    }
}

impl Proof for KeysetProof {
    type Committed = Vec<PubkeyBytes>;

    open spec fn accepts(&self, committed: &Vec<PubkeyBytes>) -> bool {
        keyset_verify_spec(committed@, self@)
    }

    fn verify_commitment(&self, committed: &Vec<PubkeyBytes>) -> (ok: bool) {
        self.verify(committed)
    }
}

impl Container for LockscriptContainer {
    type Supplement = ();

    type Commitment = LockscriptCommitment;

    open spec fn gives(
        &self,
        supplement: &(),
        value: CommitmentValue,
        made: Result<LockscriptCommitment, Error>,
    ) -> bool {
        match made {
            Ok(c) => lockscript_commit_spec(self@, value) == Ok::<LockscriptCommitmentView, Error>(
                c@,
            ),
            Err(e) => lockscript_commit_spec(self@, value) == Err::<
                LockscriptCommitmentView,
                Error,
            >(e),
        }
    }

    fn embed_commit(&self, supplement: &(), value: &CommitmentValue) -> (made: Result<
        LockscriptCommitment,
        Error,
    >) {
        self.commit(value)
    }
}

impl Proof for LockscriptProof {
    type Committed = Vec<u8>;

    open spec fn accepts(&self, committed: &Vec<u8>) -> bool {
        lockscript_verify_spec(committed@, self@)
    }

    fn verify_commitment(&self, committed: &Vec<u8>) -> (ok: bool) {
        self.verify(committed.as_slice())
    }
}

impl Container for SpkContainer {
    type Supplement = ();

    type Commitment = SpkCommitment;

    open spec fn gives(
        &self,
        supplement: &(),
        value: CommitmentValue,
        made: Result<SpkCommitment, Error>,
    ) -> bool {
        match made {
            Ok(c) => spk_commit_spec(self@, value) == Ok::<SpkCommitmentView, Error>(c@),
            Err(e) => spk_commit_spec(self@, value) == Err::<SpkCommitmentView, Error>(e),
        }
    }

    fn embed_commit(&self, supplement: &(), value: &CommitmentValue) -> (made: Result<
        SpkCommitment,
        Error,
    >) {
        self.commit(value)
    }
}

impl Proof for SpkProof {
    type Committed = Vec<u8>;

    open spec fn accepts(&self, committed: &Vec<u8>) -> bool {
        spk_verify_spec(committed@, self@)
    }

    fn verify_commitment(&self, committed: &Vec<u8>) -> (ok: bool) {
        self.verify(committed.as_slice())
    }
}

impl Container for TaprootContainer {
    type Supplement = ();

    type Commitment = TaprootCommitment;

    open spec fn gives(
        &self,
        supplement: &(),
        value: CommitmentValue,
        made: Result<TaprootCommitment, Error>,
    ) -> bool {
        made == taproot_commit_spec(*self, value)
    }

    fn embed_commit(&self, supplement: &(), value: &CommitmentValue) -> (made: Result<
        TaprootCommitment,
        Error,
    >) {
        self.commit(value)
    }
}

impl Proof for TaprootProof {
    type Committed = XOnlyKey;

    open spec fn accepts(&self, committed: &XOnlyKey) -> bool {
        taproot_verify_spec(*committed, *self)
    }

    fn verify_commitment(&self, committed: &XOnlyKey) -> (ok: bool) {
        self.verify(committed)
    }
}

impl Container for TxoutContainer {
    type Supplement = ();

    type Commitment = TxoutCommitment;

    open spec fn gives(
        &self,
        supplement: &(),
        value: CommitmentValue,
        made: Result<TxoutCommitment, Error>,
    ) -> bool {
        match made {
            Ok(c) => txout_commit_spec(self@, value) == Ok::<TxoutCommitmentView, Error>(c@),
            Err(e) => txout_commit_spec(self@, value) == Err::<TxoutCommitmentView, Error>(e),
        }
    }

    fn embed_commit(&self, supplement: &(), value: &CommitmentValue) -> (made: Result<
        TxoutCommitment,
        Error,
    >) {
        self.commit(value)
    }
}

impl Proof for TxoutProof {
    type Committed = Vec<TxOut>;

    open spec fn accepts(&self, committed: &Vec<TxOut>) -> bool {
        txout_verify_spec(outputs_view(committed@), self@)
    }

    fn verify_commitment(&self, committed: &Vec<TxOut>) -> (ok: bool) {
        self.verify(committed)
    }
}

impl Container for TxContainer {
    type Supplement = TxSupplement;

    type Commitment = TxCommitment;

    open spec fn gives(
        &self,
        supplement: &TxSupplement,
        value: CommitmentValue,
        made: Result<TxCommitment, Error>,
    ) -> bool {
        match made {
            Ok(c) => tx_commit_spec(self@, *supplement, value) == Ok::<TxCommitmentView, Error>(c@),
            Err(e) => tx_commit_spec(self@, *supplement, value) == Err::<TxCommitmentView, Error>(
                e,
            ),
        }
    }

    fn embed_commit(&self, supplement: &TxSupplement, value: &CommitmentValue) -> (made: Result<
        TxCommitment,
        Error,
    >) {
        self.commit(supplement, value)
    }
}

impl Proof for TxProof {
    type Committed = Tx;

    open spec fn accepts(&self, committed: &Tx) -> bool {
        tx_verify_spec(committed@, self@)
    }

    fn verify_commitment(&self, committed: &Tx) -> (ok: bool) {
        self.verify(committed)
    }
}

} // verus!
