//! Commitment into one output of a list of outputs, at the place that the
//! caller names.

use crate::bp::dbc::digests::slices_eq;
use crate::bp::dbc::error::Error;
use crate::bp::dbc::pubkey::{CommitmentValue, ProtocolTag, PubkeyBytes};
use crate::bp::dbc::spk::{
    copy_bytes, spk_commit_spec, ScriptEncodeData, ScriptEncodeDataView, SpkContainer,
    SpkContainerView,
};
use vstd::prelude::*;

verus! {

/// An output of a transaction.
#[derive(Clone, Debug, PartialEq, Eq)]
pub struct TxOut {
    pub value: u64,
    pub script_pubkey: Vec<u8>,
}

pub struct TxOutView {
    pub value: u64,
    pub script_pubkey: Seq<u8>,
}

impl View for TxOut {
    type V = TxOutView;

    open spec fn view(&self) -> TxOutView {
        TxOutView { value: self.value, script_pubkey: self.script_pubkey@ }
    }
}

/// The outputs of a list, each as what it stands for.
pub open spec fn outputs_view(v: Seq<TxOut>) -> Seq<TxOutView> {
    Seq::new(v.len(), |i: int| v[i]@)
}

/// Outputs to commit into, the number of the output that takes the
/// commitment, the key and what else stands behind that output, and the
/// protocol's tag.
#[derive(Clone, Debug, PartialEq, Eq)]
pub struct TxoutContainer {
    pub outputs: Vec<TxOut>,
    pub index: usize,
    pub pubkey: PubkeyBytes,
    pub source: ScriptEncodeData,
    pub tag: ProtocolTag,
}

#[derive(Clone, Debug, PartialEq, Eq)]
pub struct TxoutProof {
    pub container: TxoutContainer,
    pub value: CommitmentValue,
}

/// Outputs of which one carries a commitment, with the proof.
#[derive(Clone, Debug, PartialEq, Eq)]
pub struct TxoutCommitment {
    pub committed: Vec<TxOut>,
    pub proof: TxoutProof,
}

pub struct TxoutContainerView {
    pub outputs: Seq<TxOutView>,
    pub index: int,
    pub pubkey: PubkeyBytes,
    pub source: ScriptEncodeDataView,
    pub tag: ProtocolTag,
}

pub struct TxoutProofView {
    pub container: TxoutContainerView,
    pub value: CommitmentValue,
}

pub struct TxoutCommitmentView {
    pub committed: Seq<TxOutView>,
    pub proof: TxoutProofView,
}

impl View for TxoutContainer {
    type V = TxoutContainerView;

    open spec fn view(&self) -> TxoutContainerView {
        TxoutContainerView {
            outputs: outputs_view(self.outputs@),
            index: self.index as int,
            pubkey: self.pubkey,
            source: self.source@,
            tag: self.tag,
        }
    }
}

impl View for TxoutProof {
    type V = TxoutProofView;

    open spec fn view(&self) -> TxoutProofView {
        TxoutProofView { container: self.container@, value: self.value }
    }
}

impl View for TxoutCommitment {
    type V = TxoutCommitmentView;

    open spec fn view(&self) -> TxoutCommitmentView {
        TxoutCommitmentView { committed: outputs_view(self.committed@), proof: self.proof@ }
    }
}

/// The commitment of a value into the named output: its script-pubkey is
/// replaced, its amount and the other outputs stay.
pub open spec fn txout_commit_spec(c: TxoutContainerView, value: CommitmentValue) -> Result<
    TxoutCommitmentView,
    Error,
> {
    if !(0 <= c.index < c.outputs.len()) {
        Err(Error::NoCommittableOutput)
    } else {
        match spk_commit_spec(
            SpkContainerView {
                script_pubkey: c.outputs[c.index].script_pubkey,
                pubkey: c.pubkey,
                source: c.source,
                tag: c.tag,
            },
            value,
        ) {
            Ok(made) => Ok(
                TxoutCommitmentView {
                    committed: c.outputs.update(
                        c.index,
                        TxOutView { value: c.outputs[c.index].value, script_pubkey: made.committed },
                    ),
                    proof: TxoutProofView { container: c, value },
                },
            ),
            Err(e) => Err(e),
        }
    }
}

/// Whether the outputs are the commitment that the proof speaks of.
pub open spec fn txout_verify_spec(committed: Seq<TxOutView>, proof: TxoutProofView) -> bool {
    txout_commit_spec(proof.container, proof.value) == Ok::<TxoutCommitmentView, Error>(
        TxoutCommitmentView { committed, proof },
    )
}

/// A commitment verifies against its own proof.
pub proof fn lemma_txout_round_trip(c: TxoutContainerView, value: CommitmentValue)
    ensures
        txout_commit_spec(c, value) matches Ok(made) ==> txout_verify_spec(
            made.committed,
            made.proof,
        ),
{
}

/// No other outputs verify against the proof of a commitment.
pub proof fn lemma_txout_tamper(
    c: TxoutContainerView,
    value: CommitmentValue,
    other: Seq<TxOutView>,
)
    ensures
        txout_commit_spec(c, value) matches Ok(made) ==> (other != made.committed
            ==> !txout_verify_spec(other, made.proof)),
{
}

impl TxOut {
    /// A copy of the output.
    pub fn copy(&self) -> (copy: TxOut)
        ensures
            copy@ == self@,
    {
        TxOut { value: self.value, script_pubkey: copy_bytes(self.script_pubkey.as_slice()) }
    }

    /// Whether the two outputs are the same.
    pub fn same(&self, other: &TxOut) -> (same: bool)
        ensures
            same == (self@ == other@),
    {
        self.value == other.value && slices_eq(
            self.script_pubkey.as_slice(),
            other.script_pubkey.as_slice(),
        )
    }
}

/// Copies a list of outputs.
pub fn copy_outputs(outputs: &Vec<TxOut>) -> (copy: Vec<TxOut>)
    ensures
        outputs_view(copy@) == outputs_view(outputs@),
{
    let n = outputs.len();
    let mut copy: Vec<TxOut> = Vec::new();
    let mut i: usize = 0;
    while i < n
        invariant
            i <= n,
            n == outputs@.len(),
            copy@.len() == i,
            forall|j: int| 0 <= j < i ==> copy@[j]@ == outputs@[j]@,
        decreases n - i,
    {
        copy.push(outputs[i].copy());
        i += 1;
    }
    assert(outputs_view(copy@) =~= outputs_view(outputs@));
    copy
}

/// Whether two lists hold the same outputs.
pub fn same_outputs(a: &Vec<TxOut>, b: &Vec<TxOut>) -> (same: bool)
    ensures
        same == (outputs_view(a@) == outputs_view(b@)),
{
    let n = a.len();
    if b.len() != n {
        assert(outputs_view(a@).len() != outputs_view(b@).len());
        return false;
    }
    let mut i: usize = 0;
    while i < n
        invariant
            i <= n,
            n == a@.len(),
            n == b@.len(),
            forall|j: int| 0 <= j < i ==> a@[j]@ == b@[j]@,
        decreases n - i,
    {
        if !a[i].same(&b[i]) {
            assert(outputs_view(a@)[i as int] != outputs_view(b@)[i as int]);
            return false;
        }
        i += 1;
    }
    assert(outputs_view(a@) =~= outputs_view(b@));
    true
}

/// Commits the value into the output with the given number.
pub fn commit_output(
    outputs: &Vec<TxOut>,
    index: usize,
    pubkey: &PubkeyBytes,
    source: &ScriptEncodeData,
    tag: &ProtocolTag,
    value: &CommitmentValue,
) -> (r: Result<Vec<TxOut>, Error>)
    ensures
        match r {
            Ok(committed) => txout_commit_spec(
                TxoutContainerView {
                    outputs: outputs_view(outputs@),
                    index: index as int,
                    pubkey: *pubkey,
                    source: source@,
                    tag: *tag,
                },
                *value,
            ) matches Ok(made) && made.committed == outputs_view(committed@),
            Err(e) => txout_commit_spec(
                TxoutContainerView {
                    outputs: outputs_view(outputs@),
                    index: index as int,
                    pubkey: *pubkey,
                    source: source@,
                    tag: *tag,
                },
                *value,
            ) == Err::<TxoutCommitmentView, Error>(e),
        },
{
    if index >= outputs.len() {
        return Err(Error::NoCommittableOutput);
    }
    let spk = SpkContainer {
        script_pubkey: copy_bytes(outputs[index].script_pubkey.as_slice()),
        pubkey: *pubkey,
        source: source.copy(),
        tag: *tag,
    };
    match spk.commit(value) {
        Ok(made) => {
            let mut committed = copy_outputs(outputs);
            let ghost copied = committed@;
            let amount = outputs[index].value;
            committed.set(index, TxOut { value: amount, script_pubkey: made.committed });
            assert(outputs_view(committed@) =~= outputs_view(outputs@).update(
                index as int,
                TxOutView { value: amount, script_pubkey: made@.committed },
            )) by {
                assert(forall|j: int|
                    0 <= j < copied.len() ==> outputs_view(copied)[j] == outputs_view(outputs@)[j]);
            }
            Ok(committed)
        },
        Err(e) => Err(e),
    }
}

impl TxoutContainer {
    /// A copy of the container.
    pub fn copy(&self) -> (copy: TxoutContainer)
        ensures
            copy@ == self@,
    {
        TxoutContainer {
            outputs: copy_outputs(&self.outputs),
            index: self.index,
            pubkey: self.pubkey,
            source: self.source.copy(),
            tag: self.tag,
        }
    }

    /// Commits the value into the named output. The same container and
    /// value give the same commitment, whoever computes it.
    pub fn commit(&self, value: &CommitmentValue) -> (r: Result<TxoutCommitment, Error>)
        ensures
            match r {
                Ok(made) => txout_commit_spec(self@, *value) == Ok::<TxoutCommitmentView, Error>(
                    made@,
                ),
                Err(e) => txout_commit_spec(self@, *value) == Err::<TxoutCommitmentView, Error>(e),
            },
    {
        match commit_output(&self.outputs, self.index, &self.pubkey, &self.source, &self.tag, value) {
            Ok(committed) => Ok(
                TxoutCommitment {
                    committed,
                    proof: TxoutProof { container: self.copy(), value: *value },
                },
            ),
            Err(e) => Err(e),
        }
    }
}

impl TxoutProof {
    /// Computes the commitment again from the container and the value that
    /// the proof holds, and says whether it gives the committed outputs.
    pub fn verify(&self, committed: &Vec<TxOut>) -> (ok: bool)
        ensures
            ok == txout_verify_spec(outputs_view(committed@), self@),
    {
        match self.container.commit(&self.value) {
            Ok(made) => same_outputs(&made.committed, committed),
            Err(_) => false,
        }
    }
}

/// A proof into which another value was put does not verify, unless the
/// other value gives the same committed container.
pub proof fn lemma_txout_other_value(c: TxoutContainerView, value: CommitmentValue, other: CommitmentValue)
    requires
        txout_commit_spec(c, value) is Ok,
        !(txout_commit_spec(c, other) matches Ok(again) && again.committed == txout_commit_spec(
            c,
            value,
        )->Ok_0.committed),
    ensures
        !txout_verify_spec(
            txout_commit_spec(c, value)->Ok_0.committed,
            TxoutProofView { value: other, ..txout_commit_spec(c, value)->Ok_0.proof },
        ),
{
}

} // verus!
