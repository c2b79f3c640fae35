//! Commitment into a script-pubkey: the shape of the script-pubkey picks
//! the embedding method, and the key or script behind it takes the
//! commitment.

use crate::bp::dbc::error::Error;
use crate::bp::dbc::lockscript::{
    lockscript_commit_spec, LockscriptContainer, LockscriptContainerView,
};
use crate::bp::dbc::pubkey::{
    pubkey_commit_spec, CommitmentValue, ProtocolTag, PubkeyBytes, PubkeyContainer,
};
use crate::bp::dbc::taproot::{taproot_commit_spec, to_x_only, x_of, TaprootContainer};
use crate::bp::dbc::digests::{hash160, hash160_spec, slices_eq};
use crate::strict_encoding::put_bytes;
use vstd::prelude::*;

verus! {

pub const OP_DUP: u8 = 0x76;

pub const OP_HASH160: u8 = 0xa9;

pub const OP_EQUAL: u8 = 0x87;

pub const OP_EQUALVERIFY: u8 = 0x88;

pub const OP_CHECKSIG: u8 = 0xac;

/// The opcode that pushes the number one: witness version 1.
pub const OP_1: u8 = 0x51;

/// What stands behind a script-pubkey beside the key.
#[derive(Clone, Debug, PartialEq, Eq)]
pub enum ScriptEncodeData {
    /// Nothing: the script-pubkey is made of the key alone.
    SinglePubkey,
    /// The script whose hash the script-pubkey holds.
    LockScript(Vec<u8>),
    /// The root of the script tree of a taproot output.
    Taproot([u8; 32]),
}

pub enum ScriptEncodeDataView {
    SinglePubkey,
    LockScript(Seq<u8>),
    Taproot([u8; 32]),
}

impl View for ScriptEncodeData {
    type V = ScriptEncodeDataView;

    open spec fn view(&self) -> ScriptEncodeDataView {
        match *self {
            ScriptEncodeData::SinglePubkey => ScriptEncodeDataView::SinglePubkey,
            ScriptEncodeData::LockScript(script) => ScriptEncodeDataView::LockScript(script@),
            ScriptEncodeData::Taproot(root) => ScriptEncodeDataView::Taproot(root),
        }
    }
}

/// The embedding methods, one for each shape of script-pubkey that is
/// taken.
#[derive(Clone, Copy, Debug, PartialEq, Eq, Structural)]
pub enum ScriptEncodeMethod {
    /// A key and a signature check.
    Bare,
    /// The hash of a key.
    PubkeyHash,
    /// The hash of a script.
    ScriptHash,
    /// A taproot output key.
    Taproot,
}

pub open spec fn p2pk(key: Seq<u8>) -> Seq<u8> {
    seq![33u8] + key + seq![OP_CHECKSIG]
}

pub open spec fn p2pkh(hash: Seq<u8>) -> Seq<u8> {
    seq![OP_DUP, OP_HASH160, 20u8] + hash + seq![OP_EQUALVERIFY, OP_CHECKSIG]
}

pub open spec fn p2sh(hash: Seq<u8>) -> Seq<u8> {
    seq![OP_HASH160, 20u8] + hash + seq![OP_EQUAL]
}

pub open spec fn p2tr(key: Seq<u8>) -> Seq<u8> {
    seq![OP_1, 32u8] + key
}

/// The method that the shape of a script-pubkey calls for; none for a
/// shape that is not taken.
pub open spec fn classify(s: Seq<u8>) -> Option<ScriptEncodeMethod> {
    if s.len() == 35 && s[0] == 33 && s[34] == OP_CHECKSIG {
        Some(ScriptEncodeMethod::Bare)
    } else if s.len() == 25 && s[0] == OP_DUP && s[1] == OP_HASH160 && s[2] == 20 && s[23]
        == OP_EQUALVERIFY && s[24] == OP_CHECKSIG {
        Some(ScriptEncodeMethod::PubkeyHash)
    } else if s.len() == 23 && s[0] == OP_HASH160 && s[1] == 20 && s[22] == OP_EQUAL {
        Some(ScriptEncodeMethod::ScriptHash)
    } else if s.len() == 34 && s[0] == OP_1 && s[1] == 32 {
        Some(ScriptEncodeMethod::Taproot)
    } else {
        None
    }
}

/// The shape of a script-pubkey.
pub fn method_of(s: &[u8]) -> (m: Option<ScriptEncodeMethod>)
    ensures
        m == classify(s@),
{
    let n = s.len();
    if n == 35 && s[0] == 33 && s[34] == OP_CHECKSIG {
        Some(ScriptEncodeMethod::Bare)
    } else if n == 25 && s[0] == OP_DUP && s[1] == OP_HASH160 && s[2] == 20 && s[23]
        == OP_EQUALVERIFY && s[24] == OP_CHECKSIG {
        Some(ScriptEncodeMethod::PubkeyHash)
    } else if n == 23 && s[0] == OP_HASH160 && s[1] == 20 && s[22] == OP_EQUAL {
        Some(ScriptEncodeMethod::ScriptHash)
    } else if n == 34 && s[0] == OP_1 && s[1] == 32 {
        Some(ScriptEncodeMethod::Taproot)
    } else {
        None
    }
}

/// A script-pubkey to commit into, the key and what else stands behind
/// it, and the protocol's tag. Of the script-pubkey only the shape is
/// read: the commitment is made from the key and the source.
#[derive(Clone, Debug, PartialEq, Eq)]
pub struct SpkContainer {
    pub script_pubkey: Vec<u8>,
    pub pubkey: PubkeyBytes,
    pub source: ScriptEncodeData,
    pub tag: ProtocolTag,
}

#[derive(Clone, Debug, PartialEq, Eq)]
pub struct SpkProof {
    pub container: SpkContainer,
    pub value: CommitmentValue,
    pub method: ScriptEncodeMethod,
}

/// A script-pubkey that carries a commitment, with its proof.
#[derive(Clone, Debug, PartialEq, Eq)]
pub struct SpkCommitment {
    pub committed: Vec<u8>,
    pub proof: SpkProof,
}

pub struct SpkContainerView {
    pub script_pubkey: Seq<u8>,
    pub pubkey: PubkeyBytes,
    pub source: ScriptEncodeDataView,
    pub tag: ProtocolTag,
}

pub struct SpkProofView {
    pub container: SpkContainerView,
    pub value: CommitmentValue,
    pub method: ScriptEncodeMethod,
}

pub struct SpkCommitmentView {
    pub committed: Seq<u8>,
    pub proof: SpkProofView,
}

impl View for SpkContainer {
    type V = SpkContainerView;

    open spec fn view(&self) -> SpkContainerView {
        SpkContainerView {
            script_pubkey: self.script_pubkey@,
            pubkey: self.pubkey,
            source: self.source@,
            tag: self.tag,
        }
    }
}

impl View for SpkProof {
    type V = SpkProofView;

    open spec fn view(&self) -> SpkProofView {
        SpkProofView { container: self.container@, value: self.value, method: self.method }
    }
}

impl View for SpkCommitment {
    type V = SpkCommitmentView;

    open spec fn view(&self) -> SpkCommitmentView {
        SpkCommitmentView { committed: self.committed@, proof: self.proof@ }
    }
}

/// The script-pubkey that carries the value, for the given method, key,
/// source and tag.
pub open spec fn embed_spec(
    method: ScriptEncodeMethod,
    pubkey: PubkeyBytes,
    source: ScriptEncodeDataView,
    tag: ProtocolTag,
    value: CommitmentValue,
) -> Result<Seq<u8>, Error> {
    match (method, source) {
        (ScriptEncodeMethod::Bare, ScriptEncodeDataView::SinglePubkey) => match pubkey_commit_spec(
            PubkeyContainer { pubkey, tag },
            value,
        ) {
            Ok(made) => Ok(p2pk(made.committed@)),
            Err(e) => Err(e),
        },
        (ScriptEncodeMethod::PubkeyHash, ScriptEncodeDataView::SinglePubkey) => match pubkey_commit_spec(
            PubkeyContainer { pubkey, tag },
            value,
        ) {
            Ok(made) => Ok(p2pkh(hash160_spec(made.committed@)@)),
            Err(e) => Err(e),
        },
        (ScriptEncodeMethod::ScriptHash, ScriptEncodeDataView::LockScript(script)) => match lockscript_commit_spec(
            LockscriptContainerView { script, tag },
            value,
        ) {
            Ok(made) => Ok(p2sh(hash160_spec(made.committed)@)),
            Err(e) => Err(e),
        },
        (ScriptEncodeMethod::Taproot, ScriptEncodeDataView::SinglePubkey) => match taproot_commit_spec(
            TaprootContainer { internal_key: x_of(pubkey), merkle_root: None, tag },
            value,
        ) {
            Ok(made) => Ok(p2tr(made.committed@)),
            Err(e) => Err(e),
        },
        (ScriptEncodeMethod::Taproot, ScriptEncodeDataView::Taproot(root)) => match taproot_commit_spec(
            TaprootContainer { internal_key: x_of(pubkey), merkle_root: Some(root), tag },
            value,
        ) {
            Ok(made) => Ok(p2tr(made.committed@)),
            Err(e) => Err(e),
        },
        _ => Err(Error::UnsupportedContainerKind),
    }
}

/// The commitment of a value into a script-pubkey.
pub open spec fn spk_commit_spec(c: SpkContainerView, value: CommitmentValue) -> Result<
    SpkCommitmentView,
    Error,
> {
    match classify(c.script_pubkey) {
        None => Err(Error::UnsupportedContainerKind),
        Some(method) => match embed_spec(method, c.pubkey, c.source, c.tag, value) {
            Ok(committed) => Ok(
                SpkCommitmentView { committed, proof: SpkProofView { container: c, value, method } },
            ),
            Err(e) => Err(e),
        },
    }
}

/// Whether the script-pubkey is the commitment that the proof speaks of.
pub open spec fn spk_verify_spec(committed: Seq<u8>, proof: SpkProofView) -> bool {
    spk_commit_spec(proof.container, proof.value) == Ok::<SpkCommitmentView, Error>(
        SpkCommitmentView { committed, proof },
    )
}

/// What an embedding gives has the shape of its method.
pub proof fn lemma_embed_shape(
    method: ScriptEncodeMethod,
    pubkey: PubkeyBytes,
    source: ScriptEncodeDataView,
    tag: ProtocolTag,
    value: CommitmentValue,
)
    ensures
        embed_spec(method, pubkey, source, tag, value) matches Ok(committed) ==> classify(committed)
            == Some(method),
{
}

/// A commitment keeps the shape of the script-pubkey, so committing into
/// the committed script-pubkey with the same key and source gives it again.
pub proof fn lemma_spk_shape(c: SpkContainerView, value: CommitmentValue)
    ensures
        spk_commit_spec(c, value) matches Ok(made) ==> classify(made.committed) == classify(
            c.script_pubkey,
        ),
        spk_commit_spec(c, value) matches Ok(made) ==> (spk_commit_spec(
            SpkContainerView { script_pubkey: made.committed, ..c },
            value,
        ) matches Ok(again) && again.committed == made.committed),
{
    if let Some(method) = classify(c.script_pubkey) {
        lemma_embed_shape(method, c.pubkey, c.source, c.tag, value);
    }
}

/// A commitment verifies against its own proof.
pub proof fn lemma_spk_round_trip(c: SpkContainerView, value: CommitmentValue)
    ensures
        spk_commit_spec(c, value) matches Ok(made) ==> spk_verify_spec(made.committed, made.proof),
{
}

/// No other script-pubkey verifies against the proof of a commitment.
pub proof fn lemma_spk_tamper(c: SpkContainerView, value: CommitmentValue, other: Seq<u8>)
    ensures
        spk_commit_spec(c, value) matches Ok(made) ==> (other != made.committed ==> !spk_verify_spec(
            other,
            made.proof,
        )),
{
}

/// Copies a byte string.
pub fn copy_bytes(data: &[u8]) -> (copy: Vec<u8>)
    ensures
        copy@ == data@,
{
    let mut copy: Vec<u8> = Vec::new();
    put_bytes(&mut copy, data);
    assert(copy@ =~= data@);
    copy
}

impl ScriptEncodeData {
    /// A copy of the source.
    pub fn copy(&self) -> (copy: ScriptEncodeData)
        ensures
            copy@ == self@,
    {
        match self {
            ScriptEncodeData::SinglePubkey => ScriptEncodeData::SinglePubkey,
            ScriptEncodeData::LockScript(script) => ScriptEncodeData::LockScript(
                copy_bytes(script.as_slice()),
            ),
            ScriptEncodeData::Taproot(root) => ScriptEncodeData::Taproot(*root),
        }
    }
}

/// Makes the script-pubkey that carries the value, for the given method,
/// key, source and tag.
pub fn embed(
    method: ScriptEncodeMethod,
    pubkey: &PubkeyBytes,
    source: &ScriptEncodeData,
    tag: &ProtocolTag,
    value: &CommitmentValue,
) -> (r: Result<Vec<u8>, Error>)
    ensures
        match r {
            Ok(committed) => embed_spec(method, *pubkey, source@, *tag, *value) == Ok::<
                Seq<u8>,
                Error,
            >(committed@),
            Err(e) => embed_spec(method, *pubkey, source@, *tag, *value) == Err::<Seq<u8>, Error>(e),
        },
{
    match (method, source) {
        (ScriptEncodeMethod::Bare, ScriptEncodeData::SinglePubkey) => {
            match (PubkeyContainer { pubkey: *pubkey, tag: *tag }).commit(value) {
                Ok(made) => {
                    let mut out: Vec<u8> = Vec::new();
                    out.push(33u8);
                    put_bytes(&mut out, made.committed.as_slice());
                    out.push(OP_CHECKSIG);
                    assert(out@ =~= p2pk(made.committed@));
                    Ok(out)
                },
                Err(e) => Err(e),
            }
        },
        (ScriptEncodeMethod::PubkeyHash, ScriptEncodeData::SinglePubkey) => {
            match (PubkeyContainer { pubkey: *pubkey, tag: *tag }).commit(value) {
                Ok(made) => {
                    let hash = hash160(made.committed.as_slice());
                    let mut out: Vec<u8> = Vec::new();
                    out.push(OP_DUP);
                    out.push(OP_HASH160);
                    out.push(20u8);
                    put_bytes(&mut out, hash.as_slice());
                    out.push(OP_EQUALVERIFY);
                    out.push(OP_CHECKSIG);
                    assert(out@ =~= p2pkh(hash@));
                    Ok(out)
                },
                Err(e) => Err(e),
            }
        },
        (ScriptEncodeMethod::ScriptHash, ScriptEncodeData::LockScript(script)) => {
            let inner = LockscriptContainer { script: copy_bytes(script.as_slice()), tag: *tag };
            match inner.commit(value) {
                Ok(made) => {
                    let hash = hash160(made.committed.as_slice());
                    let mut out: Vec<u8> = Vec::new();
                    out.push(OP_HASH160);
                    out.push(20u8);
                    put_bytes(&mut out, hash.as_slice());
                    out.push(OP_EQUAL);
                    assert(out@ =~= p2sh(hash@));
                    Ok(out)
                },
                Err(e) => Err(e),
            }
        },
        (ScriptEncodeMethod::Taproot, ScriptEncodeData::SinglePubkey) => {
            let inner = TaprootContainer {
                internal_key: to_x_only(pubkey),
                merkle_root: None,
                tag: *tag,
            };
            match inner.commit(value) {
                Ok(made) => {
                    let mut out: Vec<u8> = Vec::new();
                    out.push(OP_1);
                    out.push(32u8);
                    put_bytes(&mut out, made.committed.as_slice());
                    assert(out@ =~= p2tr(made.committed@));
                    Ok(out)
                },
                Err(e) => Err(e),
            }
        },
        (ScriptEncodeMethod::Taproot, ScriptEncodeData::Taproot(root)) => {
            let inner = TaprootContainer {
                internal_key: to_x_only(pubkey),
                merkle_root: Some(*root),
                tag: *tag,
            };
            match inner.commit(value) {
                Ok(made) => {
                    let mut out: Vec<u8> = Vec::new();
                    out.push(OP_1);
                    out.push(32u8);
                    put_bytes(&mut out, made.committed.as_slice());
                    assert(out@ =~= p2tr(made.committed@));
                    Ok(out)
                },
                Err(e) => Err(e),
            }
        },
        _ => Err(Error::UnsupportedContainerKind),
    }
}

impl SpkContainer {
    /// A copy of the container.
    pub fn copy(&self) -> (copy: SpkContainer)
        ensures
            copy@ == self@,
    {
        SpkContainer {
            script_pubkey: copy_bytes(self.script_pubkey.as_slice()),
            pubkey: self.pubkey,
            source: self.source.copy(),
            tag: self.tag,
        }
    }

    /// Commits the value into the script-pubkey. The same container and
    /// value give the same commitment, whoever computes it.
    pub fn commit(&self, value: &CommitmentValue) -> (r: Result<SpkCommitment, Error>)
        ensures
            match r {
                Ok(made) => spk_commit_spec(self@, *value) == Ok::<SpkCommitmentView, Error>(made@),
                Err(e) => spk_commit_spec(self@, *value) == Err::<SpkCommitmentView, Error>(e),
            },
    {
        match method_of(self.script_pubkey.as_slice()) {
            None => Err(Error::UnsupportedContainerKind),
            Some(method) => match embed(method, &self.pubkey, &self.source, &self.tag, value) {
                Ok(committed) => Ok(
                    SpkCommitment {
                        committed,
                        proof: SpkProof { container: self.copy(), value: *value, method },
                    },
                ),
                Err(e) => Err(e),
            },
        }
    }
}

impl SpkProof {
    /// Computes the commitment again from the container and the value that
    /// the proof holds, and says whether it gives the committed
    /// script-pubkey and this proof.
    pub fn verify(&self, committed: &[u8]) -> (ok: bool)
        ensures
            ok == spk_verify_spec(committed@, self@),
    {
        match self.container.commit(&self.value) {
            Ok(made) => slices_eq(made.committed.as_slice(), committed) && made.proof.method
                == self.method,
            Err(_) => false,
        }
    }
}

/// A proof into which another value was put does not verify, unless the
/// other value gives the same committed container.
pub proof fn lemma_spk_other_value(c: SpkContainerView, value: CommitmentValue, other: CommitmentValue)
    requires
        spk_commit_spec(c, value) is Ok,
        !(spk_commit_spec(c, other) matches Ok(again) && again.committed == spk_commit_spec(
            c,
            value,
        )->Ok_0.committed),
    ensures
        !spk_verify_spec(
            spk_commit_spec(c, value)->Ok_0.committed,
            SpkProofView { value: other, ..spk_commit_spec(c, value)->Ok_0.proof },
        ),
{
}

} // verus!
