//! Anchors: what binds nodes of a contract's graph to the transaction that
//! carries the commitment to them.

use crate::bp::blind::Txid;
use crate::bp::dbc::pubkey::{CommitmentValue, ProtocolTag, PubkeyBytes};
use crate::bp::dbc::spk::ScriptEncodeData;
use crate::bp::dbc::tx::{
    lemma_tx_carries, tx_carries, tx_carries_spec, tx_commit_spec, tx_size, txid_spec, Tx,
    TxContainerView, TxSupplement, TxView,
};
use crate::bp::dbc::digests::{bytes_eq, sha256, sha256_spec, HASH_INPUT_LIMIT};
use crate::rgb::contract::nodes::NodeId;
use crate::strict_encoding::{put_bytes, StrictEncode};
use vstd::prelude::*;

verus! {

/// One message of a multi-message commitment: the protocol (here the
/// contract) that it belongs to, where that is told, and the message (here
/// the identifier of a node).
pub type MultimsgItem = (Option<[u8; 32]>, [u8; 32]);

pub type MultimsgModel = Seq<(Option<Seq<u8>>, Seq<u8>)>;

pub const SOURCE_SINGLE_PUBKEY: u8 = 0;

pub const SOURCE_LOCK_SCRIPT: u8 = 1;

pub const SOURCE_TAPROOT: u8 = 2;

/// What the encoding of a script source stands for.
pub enum SourceModel {
    SinglePubkey,
    LockScript(Seq<u8>),
    Taproot(Seq<u8>),
}

impl StrictEncode for ScriptEncodeData {
    type Model = SourceModel;

    open spec fn model(&self) -> Self::Model {
        match *self {
            ScriptEncodeData::SinglePubkey => SourceModel::SinglePubkey,
            ScriptEncodeData::LockScript(script) => SourceModel::LockScript(script.model()),
            ScriptEncodeData::Taproot(root) => SourceModel::Taproot(root@),
        }
    }

    open spec fn wf(&self) -> bool {
        true
    }

    open spec fn encodable(m: Self::Model) -> bool {
        match m {
            SourceModel::SinglePubkey => true,
            SourceModel::LockScript(script) => Vec::<u8>::encodable(script),
            SourceModel::Taproot(root) => root.len() == 32,
        }
    }

    open spec fn ser(m: Self::Model, commit: bool) -> Seq<u8> {
        match m {
            SourceModel::SinglePubkey => seq![SOURCE_SINGLE_PUBKEY],
            SourceModel::LockScript(script) => seq![SOURCE_LOCK_SCRIPT] + Vec::<u8>::ser(
                script,
                commit,
            ),
            SourceModel::Taproot(root) => seq![SOURCE_TAPROOT] + root,
        }
    }

    open spec fn parse(s: Seq<u8>, pos: int) -> Option<(Self::Model, int)> {
        if 0 <= pos < s.len() {
            if s[pos] == SOURCE_SINGLE_PUBKEY {
                Some((SourceModel::SinglePubkey, pos + 1))
            } else if s[pos] == SOURCE_LOCK_SCRIPT {
                match Vec::<u8>::parse(s, pos + 1) {
                    Some((script, end)) => Some((SourceModel::LockScript(script), end)),
                    None => None,
                }
            } else if s[pos] == SOURCE_TAPROOT {
                match <[u8; 32]>::parse(s, pos + 1) {
                    Some((root, end)) => Some((SourceModel::Taproot(root), end)),
                    None => None,
                }
            } else {
                None
            }
        } else {
            None
        }
    }

    proof fn lemma_parse_sound(s: Seq<u8>, pos: int) {
        if pos < s.len() {
            if s[pos] == SOURCE_SINGLE_PUBKEY {
                assert(s.subrange(pos, pos + 1) =~= seq![SOURCE_SINGLE_PUBKEY]);
            } else if s[pos] == SOURCE_LOCK_SCRIPT {
                Vec::<u8>::lemma_parse_sound(s, pos + 1);
                if let Some((script, end)) = Vec::<u8>::parse(s, pos + 1) {
                    assert(s.subrange(pos, end) =~= seq![SOURCE_LOCK_SCRIPT] + s.subrange(
                        pos + 1,
                        end,
                    ));
                }
            } else if s[pos] == SOURCE_TAPROOT {
                <[u8; 32]>::lemma_parse_sound(s, pos + 1);
                if let Some((root, end)) = <[u8; 32]>::parse(s, pos + 1) {
                    assert(s.subrange(pos, end) =~= seq![SOURCE_TAPROOT] + s.subrange(pos + 1, end));
                }
            }
        }
    }

    proof fn lemma_parse_complete(s: Seq<u8>, pos: int, m: Self::Model) {
        let enc = Self::ser(m, false);
        let t = s.subrange(pos, pos + enc.len());
        assert(t[0] == s[pos]);
        match m {
            SourceModel::SinglePubkey => {},
            SourceModel::LockScript(script) => {
                let inner = Vec::<u8>::ser(script, false);
                assert(s.subrange(pos + 1, pos + 1 + inner.len()) =~= t.subrange(
                    1,
                    (1 + inner.len()) as int,
                ));
                assert(t.subrange(1, (1 + inner.len()) as int) =~= inner);
                Vec::<u8>::lemma_parse_complete(s, pos + 1, script);
            },
            SourceModel::Taproot(root) => {
                assert(s.subrange(pos + 1, pos + 33) =~= t.subrange(1, 33));
                assert(t.subrange(1, 33) =~= root);
            },
        }
    }

    fn write(&self, out: &mut Vec<u8>, commit: bool) -> (ok: bool) {
        match self {
            ScriptEncodeData::SinglePubkey => {
                out.push(SOURCE_SINGLE_PUBKEY);
                true
            },
            ScriptEncodeData::LockScript(script) => {
                out.push(SOURCE_LOCK_SCRIPT);
                let ok = script.write(out, commit);
                assert(ok ==> out@ =~= old(out)@ + Self::ser(self.model(), commit));
                ok
            },
            ScriptEncodeData::Taproot(root) => {
                out.push(SOURCE_TAPROOT);
                put_bytes(out, root.as_slice());
                assert(out@ =~= old(out)@ + Self::ser(self.model(), commit));
                true
            },
        }
    }

    fn read(buf: &[u8], pos: usize) -> (r: Option<(Self, usize)>) {
        if pos >= buf.len() {
            return None;
        }
        let kind = buf[pos];
        if kind == SOURCE_SINGLE_PUBKEY {
            Some((ScriptEncodeData::SinglePubkey, pos + 1))
        } else if kind == SOURCE_LOCK_SCRIPT {
            match Vec::<u8>::read(buf, pos + 1) {
                Some((script, end)) => Some((ScriptEncodeData::LockScript(script), end)),
                None => None,
            }
        } else if kind == SOURCE_TAPROOT {
            match <[u8; 32]>::read(buf, pos + 1) {
                Some((root, end)) => Some((ScriptEncodeData::Taproot(root), end)),
                None => None,
            }
        } else {
            None
        }
    }
}

/// What lets a verifier find the commitment in the anchoring transaction:
/// the key before the commitment, and what else stands behind the output.
#[derive(Clone, Debug, PartialEq, Eq)]
pub struct AnchorProof {
    pub pubkey: PubkeyBytes,
    pub source: ScriptEncodeData,
}

/// The binding of nodes to the transaction with the given identifier.
#[derive(Clone, Debug, PartialEq, Eq)]
pub struct Anchor {
    pub txid: Txid,
    pub commitment: Vec<MultimsgItem>,
    pub entropy: Option<u64>,
    pub proof: AnchorProof,
}

pub type AnchorFields = (Txid, (Vec<MultimsgItem>, (Option<u64>, (PubkeyBytes, ScriptEncodeData))));

pub type AnchorModel = (Seq<u8>, (MultimsgModel, (Option<u64>, (Seq<u8>, SourceModel))));

impl StrictEncode for Anchor {
    type Model = AnchorModel;

    open spec fn model(&self) -> Self::Model {
        (
            self.txid@,
            (
                self.commitment.model(),
                (self.entropy, (self.proof.pubkey@, self.proof.source.model())),
            ),
        )
    }

    open spec fn wf(&self) -> bool {
        true
    }

    open spec fn encodable(m: Self::Model) -> bool {
        AnchorFields::encodable(m)
    }

    open spec fn ser(m: Self::Model, commit: bool) -> Seq<u8> {
        AnchorFields::ser(m, commit)
    }

    open spec fn parse(s: Seq<u8>, pos: int) -> Option<(Self::Model, int)> {
        AnchorFields::parse(s, pos)
    }

    proof fn lemma_parse_sound(s: Seq<u8>, pos: int) {
        AnchorFields::lemma_parse_sound(s, pos);
    }

    proof fn lemma_parse_complete(s: Seq<u8>, pos: int, m: Self::Model) {
        AnchorFields::lemma_parse_complete(s, pos, m);
    }

    fn write(&self, out: &mut Vec<u8>, commit: bool) -> (ok: bool) {
        put_bytes(out, self.txid.as_slice());
        if !self.commitment.write(out, commit) {
            return false;
        }
        self.entropy.write(out, commit);
        put_bytes(out, self.proof.pubkey.as_slice());
        let ok = self.proof.source.write(out, commit);
        assert(ok ==> out@ =~= old(out)@ + Self::ser(self.model(), commit));
        ok
    }

    fn read(buf: &[u8], pos: usize) -> (r: Option<(Self, usize)>) {
        match AnchorFields::read(buf, pos) {
            Some(((txid, (commitment, (entropy, (pubkey, source)))), end)) => Some(
                (Anchor { txid, commitment, entropy, proof: AnchorProof { pubkey, source } }, end),
            ),
            None => None,
        }
    }
}

/// Domain separator of the tag under which contracts commit.
pub open spec fn protocol_name() -> Seq<u8> {
    seq![0x72u8, 0x67, 0x62]
}

/// The tag under which contracts commit.
pub open spec fn protocol_tag() -> ProtocolTag {
    sha256_spec(protocol_name())
}

/// Domain separator of the value that an anchor commits to.
pub open spec fn multimsg_tag() -> Seq<u8> {
    seq![0x6du8, 0x6d, 0x3a]
}

/// What is hashed into the value that an anchor commits to: the encoding
/// of its messages and its entropy.
pub open spec fn multimsg_message(commitment: MultimsgModel, entropy: Option<u64>) -> Seq<u8> {
    multimsg_tag() + Vec::<MultimsgItem>::ser(commitment, false) + Option::<u64>::ser(
        entropy,
        false,
    )
}

/// Whether the anchor names the node as a message of the contract.
pub open spec fn names_node(
    commitment: Seq<MultimsgItem>,
    contract_id: NodeId,
    node_id: NodeId,
) -> bool {
    exists|i: int|
        0 <= i < commitment.len() && #[trigger] commitment[i] == (Some(contract_id), node_id)
}

impl Anchor {
    /// Whether the value that the anchor commits to can be computed: the
    /// messages can be encoded and hashed.
    pub open spec fn hashable(&self) -> bool {
        Vec::<MultimsgItem>::encodable(self.commitment.model()) && multimsg_message(
            self.commitment.model(),
            self.entropy,
        ).len() < HASH_INPUT_LIMIT
    }

    /// The value that the anchor commits to.
    pub open spec fn value_spec(&self) -> CommitmentValue {
        sha256_spec(multimsg_message(self.commitment.model(), self.entropy))
    }

    /// Whether the anchor binds the node of the contract to the
    /// transaction: it names the node, the transaction is the one whose
    /// identifier the anchor holds, and one of its outputs carries the
    /// anchor's value for the anchor's key and source.
    pub open spec fn binds(&self, contract_id: NodeId, node_id: NodeId, tx: TxView) -> bool {
        &&& names_node(self.commitment@, contract_id, node_id)
        &&& self.hashable()
        &&& tx_size(tx) < HASH_INPUT_LIMIT
        &&& txid_spec(tx) == self.txid
        &&& tx_carries_spec(
            tx,
            self.proof.pubkey,
            self.proof.source@,
            protocol_tag(),
            self.value_spec(),
        )
    }

    /// An anchor binds the transaction that committing the anchor's value
    /// gives, under whatever supplement the committer chose the output:
    /// where the anchor names the node, holds the key and the source that
    /// were committed with, and holds the identifier of the committed
    /// transaction.
    pub proof fn lemma_binds_what_was_committed(
        &self,
        contract_id: NodeId,
        node_id: NodeId,
        c: TxContainerView,
        s: TxSupplement,
    )
        requires
            names_node(self.commitment@, contract_id, node_id),
            self.hashable(),
            c.pubkey == self.proof.pubkey,
            c.source == self.proof.source@,
            c.tag == protocol_tag(),
            tx_commit_spec(c, s, self.value_spec()) is Ok,
            tx_size(tx_commit_spec(c, s, self.value_spec())->Ok_0.committed) < HASH_INPUT_LIMIT,
            txid_spec(tx_commit_spec(c, s, self.value_spec())->Ok_0.committed) == self.txid,
        ensures
            self.binds(contract_id, node_id, tx_commit_spec(c, s, self.value_spec())->Ok_0.committed),
    {
        lemma_tx_carries(c, s, self.value_spec());
    }

    /// Whether the anchor names the node as a message of the contract.
    pub fn names(&self, contract_id: &NodeId, node_id: &NodeId) -> (found: bool)
        ensures
            found == names_node(self.commitment@, *contract_id, *node_id),
    {
        let n = self.commitment.len();
        let mut i: usize = 0;
        while i < n
            invariant
                i <= n,
                n == self.commitment@.len(),
                forall|j: int|
                    0 <= j < i ==> #[trigger] self.commitment@[j] != (Some(*contract_id), *node_id),
            decreases n - i,
        {
            let item = &self.commitment[i];
            let protocol = match item.0 {
                Some(protocol) => bytes_eq(&protocol, contract_id),
                None => false,
            };
            if protocol && bytes_eq(&item.1, node_id) {
                return true;
            }
            i += 1;
        }
        false
    }

    /// The value that the anchor commits to; nothing where it cannot be
    /// computed.
    pub fn value(&self) -> (r: Option<CommitmentValue>)
        ensures
            match r {
                Some(value) => self.hashable() && value == self.value_spec(),
                None => !self.hashable(),
            },
    {
        let mut message: Vec<u8> = Vec::new();
        message.push(0x6du8);
        message.push(0x6du8);
        message.push(0x3au8);
        assert(message@ =~= multimsg_tag());
        if !self.commitment.write(&mut message, false) {
            return None;
        }
        self.entropy.write(&mut message, false);
        if message.len() as u64 >= HASH_INPUT_LIMIT {
            return None;
        }
        Some(sha256(message.as_slice()))
    }

    /// Checks the anchor against the transaction that was found for its
    /// identifier.
    pub fn verify(&self, contract_id: &NodeId, node_id: &NodeId, tx: &Tx) -> (ok: bool)
        ensures
            ok == self.binds(*contract_id, *node_id, tx@),
    {
        if !self.names(contract_id, node_id) {
            return false;
        }
        let value = match self.value() {
            Some(value) => value,
            None => { return false; },
        };
        let mut name: Vec<u8> = Vec::new();
        name.push(0x72u8);
        name.push(0x67u8);
        name.push(0x62u8);
        assert(name@ =~= protocol_name());
        let tag = sha256(name.as_slice());
        match tx.txid() {
            Some(id) => bytes_eq(&id, &self.txid) && tx_carries(
                tx,
                &self.proof.pubkey,
                &self.proof.source,
                &tag,
                &value,
            ),
            None => false,
        }
    }
}

} // verus!
