//! Commitment into a whole transaction, at the first output that the
//! supplement leaves eligible.

use crate::bp::blind::Txid;
use crate::bp::dbc::error::Error;
use crate::bp::dbc::pubkey::{CommitmentValue, ProtocolTag, PubkeyBytes};
use crate::bp::dbc::spk::{
    classify, copy_bytes, embed, embed_spec, lemma_embed_shape, method_of, ScriptEncodeData,
    ScriptEncodeDataView,
};
use crate::bp::dbc::txout::{
    commit_output, copy_outputs, outputs_view, same_outputs, txout_commit_spec, TxOut, TxOutView,
    TxoutContainerView,
};
use crate::bp::dbc::digests::{bytes_eq, slices_eq, HASH_INPUT_LIMIT};
use bitcoin::blockdata::locktime::absolute::LockTime;
use bitcoin::blockdata::transaction::Version;
use bitcoin::hashes::Hash as _;
use bitcoin::{Amount, OutPoint, ScriptBuf, Sequence, Witness};
use vstd::prelude::*;

verus! {

/// An input of a transaction: the output that it spends, the script that
/// unlocks that output, and the sequence number.
#[derive(Clone, Debug, PartialEq, Eq)]
pub struct TxIn {
    pub txid: Txid,
    pub vout: u32,
    pub script_sig: Vec<u8>,
    pub sequence: u32,
}

pub struct TxInView {
    pub txid: Txid,
    pub vout: u32,
    pub script_sig: Seq<u8>,
    pub sequence: u32,
}

impl View for TxIn {
    type V = TxInView;

    open spec fn view(&self) -> TxInView {
        TxInView {
            txid: self.txid,
            vout: self.vout,
            script_sig: self.script_sig@,
            sequence: self.sequence,
        }
    }
}

/// A transaction, as far as its identifier depends on it: everything but
/// the witnesses.
#[derive(Clone, Debug, PartialEq, Eq)]
pub struct Tx {
    pub version: i32,
    pub lock_time: u32,
    pub inputs: Vec<TxIn>,
    pub outputs: Vec<TxOut>,
}

pub struct TxView {
    pub version: i32,
    pub lock_time: u32,
    pub inputs: Seq<TxInView>,
    pub outputs: Seq<TxOutView>,
}

/// The inputs of a list, each as what it stands for.
pub open spec fn inputs_view(v: Seq<TxIn>) -> Seq<TxInView> {
    Seq::new(v.len(), |i: int| v[i]@)
}

impl View for Tx {
    type V = TxView;

    open spec fn view(&self) -> TxView {
        TxView {
            version: self.version,
            lock_time: self.lock_time,
            inputs: inputs_view(self.inputs@),
            outputs: outputs_view(self.outputs@),
        }
    }
}

/// The identifier of a transaction: the double SHA-256 of its encoding
/// without witnesses.
pub uninterp spec fn txid_spec(tx: TxView) -> Txid;

/// Room that one input takes in the encoding beside its script.
pub const INPUT_ROOM: u64 = 64;

/// Room that one output takes in the encoding beside its script-pubkey.
pub const OUTPUT_ROOM: u64 = 32;

/// A bound on the length of the encoding of the inputs.
pub open spec fn inputs_size(inputs: Seq<TxInView>) -> nat
    decreases inputs.len(),
{
    if inputs.len() == 0 {
        0
    } else {
        inputs_size(inputs.drop_last()) + INPUT_ROOM as nat + inputs.last().script_sig.len()
    }
}

/// A bound on the length of the encoding of the outputs.
pub open spec fn outputs_size(outputs: Seq<TxOutView>) -> nat
    decreases outputs.len(),
{
    if outputs.len() == 0 {
        0
    } else {
        outputs_size(outputs.drop_last()) + OUTPUT_ROOM as nat + outputs.last().script_pubkey.len()
    }
}

/// A bound on the length of the encoding of the transaction.
pub open spec fn tx_size(tx: TxView) -> nat {
    INPUT_ROOM as nat + inputs_size(tx.inputs) + outputs_size(tx.outputs)
}

/// The bound of a list's beginning does not exceed the bound of the list.
pub proof fn lemma_inputs_size_grows(inputs: Seq<TxInView>, i: int)
    requires
        0 <= i <= inputs.len(),
    ensures
        inputs_size(inputs.take(i)) <= inputs_size(inputs),
    decreases inputs.len(),
{
    if i < inputs.len() {
        lemma_inputs_size_grows(inputs.drop_last(), i);
        assert(inputs.drop_last().take(i) =~= inputs.take(i));
    } else {
        assert(inputs.take(i) =~= inputs);
    }
}

pub proof fn lemma_outputs_size_grows(outputs: Seq<TxOutView>, i: int)
    requires
        0 <= i <= outputs.len(),
    ensures
        outputs_size(outputs.take(i)) <= outputs_size(outputs),
    decreases outputs.len(),
{
    if i < outputs.len() {
        lemma_outputs_size_grows(outputs.drop_last(), i);
        assert(outputs.drop_last().take(i) =~= outputs.take(i));
    } else {
        assert(outputs.take(i) =~= outputs);
    }
}

/// Builds the transaction in the types of the `bitcoin` crate, without
/// witnesses, and calls `bitcoin::Transaction::compute_txid`. Trusted: the
/// identifier depends on version, inputs, outputs and lock time alone.
#[verifier::external_body]
pub(crate) fn txid_of(tx: &Tx) -> (id: Txid)
    requires
        tx_size(tx@) < HASH_INPUT_LIMIT,
    ensures
        id == txid_spec(tx@),
{
    let input = tx.inputs.iter().map(|i| bitcoin::TxIn {
        previous_output: OutPoint::new(bitcoin::Txid::from_byte_array(i.txid), i.vout),
        script_sig: ScriptBuf::from_bytes(i.script_sig.clone()),
        sequence: Sequence(i.sequence),
        witness: Witness::new(),
    }).collect();
    let output = tx.outputs.iter().map(|o| bitcoin::TxOut {
        value: Amount::from_sat(o.value),
        script_pubkey: ScriptBuf::from_bytes(o.script_pubkey.clone()),
    }).collect();
    let (version, lock_time) = (Version(tx.version), LockTime::from_consensus(tx.lock_time));
    bitcoin::Transaction { version, lock_time, input, output }.compute_txid().to_byte_array()
}

/// What the committer says of the transaction's layout.
#[derive(Clone, Copy, Debug, PartialEq, Eq)]
pub struct TxSupplement {
    /// The output that returns the change, which takes no commitment.
    pub change_output: Option<u32>,
    /// The one output that may take the commitment, where all others are to
    /// be left alone.
    pub only_output: Option<u32>,
}

/// A transaction to commit into, the key and what else stands behind the
/// output that will take the commitment, and the protocol's tag.
#[derive(Clone, Debug, PartialEq, Eq)]
pub struct TxContainer {
    pub tx: Tx,
    pub pubkey: PubkeyBytes,
    pub source: ScriptEncodeData,
    pub tag: ProtocolTag,
}

/// What lets a verifier compute the commitment again: the transaction as
/// it was, the supplement, the value and the number of the output chosen.
#[derive(Clone, Debug, PartialEq, Eq)]
pub struct TxProof {
    pub container: TxContainer,
    pub supplement: TxSupplement,
    pub value: CommitmentValue,
    pub index: usize,
}

/// A transaction that carries a commitment, with its proof.
#[derive(Clone, Debug, PartialEq, Eq)]
pub struct TxCommitment {
    pub committed: Tx,
    pub proof: TxProof,
}

pub struct TxContainerView {
    pub tx: TxView,
    pub pubkey: PubkeyBytes,
    pub source: ScriptEncodeDataView,
    pub tag: ProtocolTag,
}

pub struct TxProofView {
    pub container: TxContainerView,
    pub supplement: TxSupplement,
    pub value: CommitmentValue,
    pub index: int,
}

pub struct TxCommitmentView {
    pub committed: TxView,
    pub proof: TxProofView,
}

impl View for TxContainer {
    type V = TxContainerView;

    open spec fn view(&self) -> TxContainerView {
        TxContainerView {
            tx: self.tx@,
            pubkey: self.pubkey,
            source: self.source@,
            tag: self.tag,
        }
    }
}

impl View for TxProof {
    type V = TxProofView;

    open spec fn view(&self) -> TxProofView {
        TxProofView {
            container: self.container@,
            supplement: self.supplement,
            value: self.value,
            index: self.index as int,
        }
    }
}

impl View for TxCommitment {
    type V = TxCommitmentView;

    open spec fn view(&self) -> TxCommitmentView {
        TxCommitmentView { committed: self.committed@, proof: self.proof@ }
    }
}

/// Whether an output could take a commitment at all: its script-pubkey
/// has a shape that an embedding method takes.
pub open spec fn is_carrier(outputs: Seq<TxOutView>, i: int) -> bool {
    0 <= i < outputs.len() && classify(outputs[i].script_pubkey) is Some
}

/// Whether the supplement leaves the output out.
pub open spec fn excluded(s: TxSupplement, i: int) -> bool {
    (s.change_output matches Some(change) && change == i) || (s.only_output matches Some(only)
        && only != i)
}

/// Whether the output may take the commitment.
pub open spec fn eligible(outputs: Seq<TxOutView>, s: TxSupplement, i: int) -> bool {
    is_carrier(outputs, i) && !excluded(s, i)
}

/// The lowest eligible output from `from` on.
pub open spec fn first_eligible(outputs: Seq<TxOutView>, s: TxSupplement, from: int) -> Option<int>
    decreases outputs.len() - from,
{
    if from < 0 || from >= outputs.len() {
        None
    } else if eligible(outputs, s, from) {
        Some(from)
    } else {
        first_eligible(outputs, s, from + 1)
    }
}

/// Whether any output could take a commitment.
pub open spec fn any_carrier(outputs: Seq<TxOutView>) -> bool {
    exists|i: int| is_carrier(outputs, i)
}

/// The commitment of a value into a transaction under a supplement.
pub open spec fn tx_commit_spec(
    c: TxContainerView,
    s: TxSupplement,
    value: CommitmentValue,
) -> Result<TxCommitmentView, Error> {
    match first_eligible(c.tx.outputs, s, 0) {
        None => if any_carrier(c.tx.outputs) {
            Err(Error::NoCommittableOutput)
        } else {
            Err(Error::NoCommittableCarrier)
        },
        Some(index) => match txout_commit_spec(
            TxoutContainerView {
                outputs: c.tx.outputs,
                index,
                pubkey: c.pubkey,
                source: c.source,
                tag: c.tag,
            },
            value,
        ) {
            Ok(made) => Ok(
                TxCommitmentView {
                    committed: TxView { outputs: made.committed, ..c.tx },
                    proof: TxProofView { container: c, supplement: s, value, index },
                },
            ),
            Err(e) => Err(e),
        },
    }
}

/// Whether the transaction is the commitment that the proof speaks of.
pub open spec fn tx_verify_spec(committed: TxView, proof: TxProofView) -> bool {
    tx_commit_spec(proof.container, proof.supplement, proof.value) == Ok::<TxCommitmentView, Error>(
        TxCommitmentView { committed, proof },
    )
}

/// Whether the output with the number carries the value for the given
/// key, source and tag: its script-pubkey has a shape that an embedding
/// method takes, and is what that method makes of key, source, tag and
/// value.
pub open spec fn output_carries(
    outputs: Seq<TxOutView>,
    i: int,
    pubkey: PubkeyBytes,
    source: ScriptEncodeDataView,
    tag: ProtocolTag,
    value: CommitmentValue,
) -> bool {
    0 <= i < outputs.len() && match classify(outputs[i].script_pubkey) {
        Some(method) => embed_spec(method, pubkey, source, tag, value) == Ok::<Seq<u8>, Error>(
            outputs[i].script_pubkey,
        ),
        None => false,
    }
}

/// Whether some output of the transaction carries the value for the given
/// key, source and tag. Who holds these can check a committed transaction
/// without the transaction as it was before and without the supplement
/// under which the committer chose the output.
pub open spec fn tx_carries_spec(
    tx: TxView,
    pubkey: PubkeyBytes,
    source: ScriptEncodeDataView,
    tag: ProtocolTag,
    value: CommitmentValue,
) -> bool {
    exists|i: int| output_carries(tx.outputs, i, pubkey, source, tag, value)
}

/// What `first_eligible` finds is eligible, and no output before it is.
pub proof fn lemma_first_eligible(outputs: Seq<TxOutView>, s: TxSupplement, from: int)
    requires
        0 <= from,
    ensures
        match first_eligible(outputs, s, from) {
            Some(i) => from <= i < outputs.len() && eligible(outputs, s, i) && forall|j: int|
                from <= j < i ==> !eligible(outputs, s, j),
            None => forall|j: int| from <= j < outputs.len() ==> !eligible(outputs, s, j),
        },
    decreases outputs.len() - from,
{
    if from < outputs.len() && !eligible(outputs, s, from) {
        lemma_first_eligible(outputs, s, from + 1);
    }
}

/// A commitment verifies against its own proof.
pub proof fn lemma_tx_round_trip(c: TxContainerView, s: TxSupplement, value: CommitmentValue)
    ensures
        tx_commit_spec(c, s, value) matches Ok(made) ==> tx_verify_spec(made.committed, made.proof),
{
}

/// No other transaction verifies against the proof of a commitment.
pub proof fn lemma_tx_tamper(
    c: TxContainerView,
    s: TxSupplement,
    value: CommitmentValue,
    other: TxView,
)
    ensures
        tx_commit_spec(c, s, value) matches Ok(made) ==> (other != made.committed
            ==> !tx_verify_spec(other, made.proof)),
{
}

/// The output that takes the commitment is the lowest that the supplement
/// leaves eligible, and only that output changes.
pub proof fn lemma_tx_placement(c: TxContainerView, s: TxSupplement, value: CommitmentValue)
    ensures
        tx_commit_spec(c, s, value) matches Ok(made) ==> eligible(
            c.tx.outputs,
            s,
            made.proof.index,
        ) && (forall|j: int| 0 <= j < made.proof.index ==> !eligible(c.tx.outputs, s, j))
            && made.committed.outputs.len() == c.tx.outputs.len() && (forall|j: int|
            0 <= j < c.tx.outputs.len() && j != made.proof.index ==> made.committed.outputs[j]
                == c.tx.outputs[j]),
{
    lemma_first_eligible(c.tx.outputs, s, 0);
}

/// A committed transaction carries its value in the output that was
/// chosen, whatever the supplement under which it was chosen.
pub proof fn lemma_tx_carries(c: TxContainerView, s: TxSupplement, value: CommitmentValue)
    ensures
        tx_commit_spec(c, s, value) matches Ok(made) ==> output_carries(
            made.committed.outputs,
            made.proof.index,
            c.pubkey,
            c.source,
            c.tag,
            value,
        ) && tx_carries_spec(made.committed, c.pubkey, c.source, c.tag, value),
{
    if let Ok(made) = tx_commit_spec(c, s, value) {
        lemma_first_eligible(c.tx.outputs, s, 0);
        let index = made.proof.index;
        let method = classify(c.tx.outputs[index].script_pubkey)->Some_0;
        lemma_embed_shape(method, c.pubkey, c.source, c.tag, value);
        assert(output_carries(made.committed.outputs, index, c.pubkey, c.source, c.tag, value));
    }
}

impl TxIn {
    /// A copy of the input.
    pub fn copy(&self) -> (copy: TxIn)
        ensures
            copy@ == self@,
    {
        TxIn {
            txid: self.txid,
            vout: self.vout,
            script_sig: copy_bytes(self.script_sig.as_slice()),
            sequence: self.sequence,
        }
    }

    /// Whether the two inputs are the same.
    pub fn same(&self, other: &TxIn) -> (same: bool)
        ensures
            same == (self@ == other@),
    {
        bytes_eq(&self.txid, &other.txid) && self.vout == other.vout && slices_eq(
            self.script_sig.as_slice(),
            other.script_sig.as_slice(),
        ) && self.sequence == other.sequence
    }
}

/// Copies a list of inputs.
pub fn copy_inputs(inputs: &Vec<TxIn>) -> (copy: Vec<TxIn>)
    ensures
        inputs_view(copy@) == inputs_view(inputs@),
{
    let n = inputs.len();
    let mut copy: Vec<TxIn> = Vec::new();
    let mut i: usize = 0;
    while i < n
        invariant
            i <= n,
            n == inputs@.len(),
            copy@.len() == i,
            forall|j: int| 0 <= j < i ==> copy@[j]@ == inputs@[j]@,
        decreases n - i,
    {
        copy.push(inputs[i].copy());
        i += 1;
    }
    assert(inputs_view(copy@) =~= inputs_view(inputs@));
    copy
}

/// Whether two lists hold the same inputs.
pub fn same_inputs(a: &Vec<TxIn>, b: &Vec<TxIn>) -> (same: bool)
    ensures
        same == (inputs_view(a@) == inputs_view(b@)),
{
    let n = a.len();
    if b.len() != n {
        assert(inputs_view(a@).len() != inputs_view(b@).len());
        return false;
    }
    let mut i: usize = 0;
    while i < n
        invariant
            i <= n,
            n == a@.len(),
            n == b@.len(),
            forall|j: int| 0 <= j < i ==> a@[j]@ == b@[j]@,
        decreases n - i,
    {
        if !a[i].same(&b[i]) {
            assert(inputs_view(a@)[i as int] != inputs_view(b@)[i as int]);
            return false;
        }
        i += 1;
    }
    assert(inputs_view(a@) =~= inputs_view(b@));
    true
}

impl Tx {
    /// A copy of the transaction.
    pub fn copy(&self) -> (copy: Tx)
        ensures
            copy@ == self@,
    {
        Tx {
            version: self.version,
            lock_time: self.lock_time,
            inputs: copy_inputs(&self.inputs),
            outputs: copy_outputs(&self.outputs),
        }
    }

    /// The bound on the length of the transaction's encoding, where it is
    /// below the longest input that can be hashed.
    pub fn size(&self) -> (r: Option<u64>)
        ensures
            match r {
                Some(n) => n == tx_size(self@) && n < HASH_INPUT_LIMIT,
                None => tx_size(self@) >= HASH_INPUT_LIMIT,
            },
    {
        let ghost ins = inputs_view(self.inputs@);
        let ghost outs = outputs_view(self.outputs@);
        let mut size: u64 = INPUT_ROOM;
        let n = self.inputs.len();
        let mut i: usize = 0;
        while i < n
            invariant
                i <= n,
                n == self.inputs@.len(),
                ins == inputs_view(self.inputs@),
                size == INPUT_ROOM + inputs_size(ins.take(i as int)),
                size < HASH_INPUT_LIMIT,
            decreases n - i,
        {
            let len = self.inputs[i].script_sig.len();
            proof {
                assert(ins.take(i + 1).drop_last() =~= ins.take(i as int));
                assert(ins.take(i + 1).last() == ins[i as int]);
                lemma_inputs_size_grows(ins, i + 1);
            }
            if len as u64 >= HASH_INPUT_LIMIT {
                return None;
            }
            size = size + INPUT_ROOM + len as u64;
            if size >= HASH_INPUT_LIMIT {
                return None;
            }
            i += 1;
        }
        assert(ins.take(n as int) =~= ins);
        let m = self.outputs.len();
        let mut k: usize = 0;
        while k < m
            invariant
                k <= m,
                m == self.outputs@.len(),
                ins == inputs_view(self.inputs@),
                outs == outputs_view(self.outputs@),
                size == INPUT_ROOM + inputs_size(ins) + outputs_size(outs.take(k as int)),
                size < HASH_INPUT_LIMIT,
            decreases m - k,
        {
            let len = self.outputs[k].script_pubkey.len();
            proof {
                assert(outs.take(k + 1).drop_last() =~= outs.take(k as int));
                assert(outs.take(k + 1).last() == outs[k as int]);
                lemma_outputs_size_grows(outs, k + 1);
            }
            if len as u64 >= HASH_INPUT_LIMIT {
                return None;
            }
            size = size + OUTPUT_ROOM + len as u64;
            if size >= HASH_INPUT_LIMIT {
                return None;
            }
            k += 1;
        }
        assert(outs.take(m as int) =~= outs);
        Some(size)
    }

    /// The identifier of the transaction; nothing where the transaction
    /// is too long to be hashed.
    pub fn txid(&self) -> (r: Option<Txid>)
        ensures
            match r {
                Some(id) => tx_size(self@) < HASH_INPUT_LIMIT && id == txid_spec(self@),
                None => tx_size(self@) >= HASH_INPUT_LIMIT,
            },
    {
        match self.size() {
            Some(_) => Some(txid_of(self)),
            None => None,
        }
    }

    /// Whether the two transactions are the same.
    pub fn same(&self, other: &Tx) -> (same: bool)
        ensures
            same == (self@ == other@),
    {
        self.version == other.version && self.lock_time == other.lock_time && same_inputs(
            &self.inputs,
            &other.inputs,
        ) && same_outputs(&self.outputs, &other.outputs)
    }
}

/// Whether the supplement leaves the output with the given number out.
pub fn is_excluded(s: &TxSupplement, i: usize) -> (out: bool)
    ensures
        out == excluded(*s, i as int),
{
    let change = match s.change_output {
        Some(change) => change as usize == i,
        None => false,
    };
    let other = match s.only_output {
        Some(only) => only as usize != i,
        None => false,
    };
    change || other
}

impl TxContainer {
    /// A copy of the container.
    pub fn copy(&self) -> (copy: TxContainer)
        ensures
            copy@ == self@,
    {
        TxContainer {
            tx: self.tx.copy(),
            pubkey: self.pubkey,
            source: self.source.copy(),
            tag: self.tag,
        }
    }

    /// Commits the value into the lowest output that the supplement leaves
    /// eligible. The same container, supplement and value give the same
    /// commitment, whoever computes it.
    pub fn commit(&self, supplement: &TxSupplement, value: &CommitmentValue) -> (r: Result<
        TxCommitment,
        Error,
    >)
        ensures
            match r {
                Ok(made) => tx_commit_spec(self@, *supplement, *value) == Ok::<
                    TxCommitmentView,
                    Error,
                >(made@),
                Err(e) => tx_commit_spec(self@, *supplement, *value) == Err::<
                    TxCommitmentView,
                    Error,
                >(e),
            },
    {
        let n = self.tx.outputs.len();
        let ghost outputs = outputs_view(self.tx.outputs@);
        let mut carrier = false;
        let mut i: usize = 0;
        while i < n
            invariant
                i <= n,
                n == self.tx.outputs@.len(),
                outputs == outputs_view(self.tx.outputs@),
                first_eligible(outputs, *supplement, 0) == first_eligible(
                    outputs,
                    *supplement,
                    i as int,
                ),
                carrier == exists|j: int| 0 <= j < i && is_carrier(outputs, j),
            decreases n - i,
        {
            let shaped = method_of(self.tx.outputs[i].script_pubkey.as_slice()).is_some();
            assert(shaped == is_carrier(outputs, i as int));
            if shaped && !is_excluded(supplement, i) {
                return match commit_output(
                    &self.tx.outputs,
                    i,
                    &self.pubkey,
                    &self.source,
                    &self.tag,
                    value,
                ) {
                    Ok(committed) => Ok(
                        TxCommitment {
                            committed: Tx {
                                version: self.tx.version,
                                lock_time: self.tx.lock_time,
                                inputs: copy_inputs(&self.tx.inputs),
                                outputs: committed,
                            },
                            proof: TxProof {
                                container: self.copy(),
                                supplement: *supplement,
                                value: *value,
                                index: i,
                            },
                        },
                    ),
                    Err(e) => Err(e),
                };
            }
            if shaped {
                carrier = true;
            }
            i += 1;
        }
        assert(carrier == any_carrier(outputs));
        if carrier {
            Err(Error::NoCommittableOutput)
        } else {
            Err(Error::NoCommittableCarrier)
        }
    }
}

impl TxProof {
    /// Computes the commitment again from the container, the supplement and
    /// the value that the proof holds, and says whether it gives the
    /// committed transaction and this proof.
    pub fn verify(&self, committed: &Tx) -> (ok: bool)
        ensures
            ok == tx_verify_spec(committed@, self@),
    {
        match self.container.commit(&self.supplement, &self.value) {
            Ok(made) => made.committed.same(committed) && made.proof.index == self.index,
            Err(_) => false,
        }
    }
}

/// Whether some output of the transaction carries the value for the given
/// key, source and tag.
pub fn tx_carries(
    tx: &Tx,
    pubkey: &PubkeyBytes,
    source: &ScriptEncodeData,
    tag: &ProtocolTag,
    value: &CommitmentValue,
) -> (ok: bool)
    ensures
        ok == tx_carries_spec(tx@, *pubkey, source@, *tag, *value),
{
    let ghost outputs = outputs_view(tx.outputs@);
    let n = tx.outputs.len();
    let mut i: usize = 0;
    while i < n
        invariant
            i <= n,
            n == tx.outputs@.len(),
            outputs == outputs_view(tx.outputs@),
            forall|j: int| 0 <= j < i ==> !output_carries(outputs, j, *pubkey, source@, *tag, *value),
        decreases n - i,
    {
        let script = tx.outputs[i].script_pubkey.as_slice();
        let carries = match method_of(script) {
            Some(method) => match embed(method, pubkey, source, tag, value) {
                Ok(made) => slices_eq(made.as_slice(), script),
                Err(_) => false,
            },
            None => false,
        };
        assert(carries == output_carries(outputs, i as int, *pubkey, source@, *tag, *value));
        if carries {
            assert(output_carries(tx@.outputs, i as int, *pubkey, source@, *tag, *value));
            return true;
        }
        i += 1;
    }
    false
}

/// A proof into which another value was put does not verify, unless the
/// other value gives the same committed transaction.
pub proof fn lemma_tx_other_value(
    c: TxContainerView,
    s: TxSupplement,
    value: CommitmentValue,
    other: CommitmentValue,
)
    requires
        tx_commit_spec(c, s, value) is Ok,
        !(tx_commit_spec(c, s, other) matches Ok(again) && again.committed == tx_commit_spec(
            c,
            s,
            value,
        )->Ok_0.committed),
    ensures
        !tx_verify_spec(
            tx_commit_spec(c, s, value)->Ok_0.committed,
            TxProofView { value: other, ..tx_commit_spec(c, s, value)->Ok_0.proof },
        ),
{
}

} // verus!
