use lnpbp::bp::blind::{OutpointReveal, Txid};
use lnpbp::bp::dbc::{ScriptEncodeData, Tx, TxContainer, TxIn, TxOut, TxSupplement};
use lnpbp::rgb::contract::anchor::{Anchor, AnchorProof};
use lnpbp::rgb::contract::assignment::{
    AmountCommitment, Assignment, Assignments, State, STATE_DATA, STATE_DECLARATIVE, STATE_FIELD,
};
use lnpbp::rgb::contract::data::{Amount, DataValue, Void};
use lnpbp::rgb::contract::nodes::{Extension, Genesis, NodeId, Transition};
use lnpbp::rgb::contract::seal::Seal;
use lnpbp::rgb::schema::{NodeSchema, Schema};
use lnpbp::rgb::stash::consignment::Consignment;
use lnpbp::rgb::validation::{
    resolution_of, Finding, Severity, Status, TxResolver, TxResolverError, Validator,
};

const G1: [u8; 33] = [2, 121, 190, 102, 126, 249, 220, 187, 172, 85, 160, 98, 149, 206, 135, 11, 7, 2, 155, 252, 219, 45, 206, 40, 217, 89, 242, 129, 91, 22, 248, 23, 152];

fn outpoint(n: u8) -> OutpointReveal {
    OutpointReveal { blinding: 0x0102030405060708 + n as u64, txid: [n; 32], vout: n as u32 }
}

fn amount(seal: Seal, value: u64) -> Assignment<Amount, AmountCommitment> {
    Assignment { seal, state: State::Revealed(Amount { value, blinding: vec![1; 32] }) }
}

fn genesis() -> Genesis {
    Genesis::new(
        [3; 32],
        vec![vec![1, 2, 3]],
        vec![(0, vec![DataValue { tag: 0x21, bytes: b"USDT".to_vec() }])],
        vec![
            (1, Assignments::Field(vec![
                amount(Seal::Revealed(outpoint(1)), 60),
                amount(Seal::Revealed(outpoint(2)), 40),
            ])),
            (2, Assignments::Declarative(vec![])),
        ],
        vec![],
        vec![],
    )
    .unwrap()
}

/// A transition of type 1 that closes the given assignments of type 1 of
/// the genesis and assigns the amount to a concealed seal.
fn transfer(parent: NodeId, indexes: Vec<u16>, to: &OutpointReveal, value: u64) -> Transition {
    Transition::new(
        1,
        vec![],
        vec![(parent, vec![(1, indexes)])],
        vec![(1, Assignments::Field(vec![amount(Seal::Concealed(to.conceal()), value)]))],
        vec![],
        vec![],
    )
    .unwrap()
}

fn anchor(txid: u8, contract: NodeId, node: NodeId) -> Anchor {
    Anchor {
        txid: [txid; 32],
        commitment: vec![(None, [8; 32]), (Some(contract), node)],
        entropy: Some(5),
        proof: AnchorProof { pubkey: G1, source: ScriptEncodeData::SinglePubkey },
    }
}

fn schema() -> Schema {
    Schema {
        owned_right_types: vec![(1, STATE_FIELD), (2, STATE_DECLARATIVE), (3, STATE_DATA)],
        genesis: NodeSchema { owned_rights: vec![1, 2], closes: vec![] },
        transitions: vec![
            (1, NodeSchema { owned_rights: vec![1], closes: vec![1] }),
            (2, NodeSchema { owned_rights: vec![1, 3], closes: vec![] }),
        ],
        extensions: vec![(7, NodeSchema { owned_rights: vec![2], closes: vec![] })],
    }
}

/// The tag under which contracts commit: the hash of the protocol's name.
const PROTOCOL_TAG: [u8; 32] = [137, 212, 26, 25, 140, 252, 231, 58, 145, 132, 97, 118, 10, 166, 236, 90, 82, 190, 227, 219, 3, 242, 110, 136, 50, 87, 22, 194, 130, 60, 50, 210];

fn host_tx() -> Tx {
    let mut p2pkh = vec![0x76, 0xa9, 0x14];
    p2pkh.extend_from_slice(&[0u8; 20]);
    p2pkh.extend_from_slice(&[0x88, 0xac]);
    Tx {
        version: 2,
        lock_time: 0,
        inputs: vec![TxIn { txid: [9; 32], vout: 0, script_sig: vec![], sequence: 0 }],
        outputs: vec![
            TxOut { value: 546, script_pubkey: p2pkh.clone() },
            TxOut { value: 1000, script_pubkey: p2pkh },
        ],
    }
}

const ANCHOR_VALUE: [u8; 32] = [173, 222, 17, 3, 226, 98, 171, 51, 35, 97, 249, 65, 245, 185, 11, 38, 238, 80, 167, 28, 130, 252, 57, 84, 218, 156, 231, 109, 231, 88, 226, 247];

const NO_SUPPLEMENT: TxSupplement = TxSupplement { change_output: None, only_output: None };

/// The transaction that carries the anchor's commitment, made under the
/// supplement.
fn anchoring_tx(anchor: &Anchor, supplement: &TxSupplement) -> Tx {
    let host = TxContainer {
        tx: host_tx(),
        pubkey: anchor.proof.pubkey,
        source: ScriptEncodeData::SinglePubkey,
        tag: PROTOCOL_TAG,
    };
    host.commit(supplement, &anchor.value().unwrap()).unwrap().committed
}

/// An anchor for the node with the transaction that carries its
/// commitment; the anchor names that transaction.
fn anchored(contract: NodeId, node: NodeId, supplement: &TxSupplement) -> (Anchor, Tx) {
    let mut a = anchor(0, contract, node);
    let tx = anchoring_tx(&a, supplement);
    a.txid = tx.txid().unwrap();
    (a, tx)
}

struct Answers(Vec<(Txid, Result<Option<(Tx, u64)>, TxResolverError>)>);

impl TxResolver for Answers {
    fn resolve(&self, txid: &Txid) -> Result<Option<(Tx, u64)>, TxResolverError> {
        for (known, answer) in &self.0 {
            if known == txid {
                return answer.clone();
            }
        }
        Ok(None)
    }
}

/// A consignment with one transfer, and the transaction that its anchor
/// names.
fn one_transfer(supplement: &TxSupplement) -> (Consignment, Tx) {
    let g = genesis();
    let t = transfer(g.node_id(), vec![0], &outpoint(9), 60);
    let (a, tx) = anchored(g.node_id(), t.node_id(), supplement);
    (Consignment::with(g, vec![], vec![(a, t)], vec![]), tx)
}

fn count(status: &Status, pick: fn(&Finding) -> bool) -> usize {
    status.findings.iter().filter(|f| pick(f)).count()
}

#[test]
fn anchor_value_is_the_hash_of_its_messages() {
    let a = Anchor {
        txid: [0; 32],
        commitment: vec![(Some([1; 32]), [2; 32])],
        entropy: None,
        proof: AnchorProof { pubkey: G1, source: ScriptEncodeData::SinglePubkey },
    };
    assert_eq!(a.value(), Some(ANCHOR_VALUE));
    assert!(a.names(&[1; 32], &[2; 32]));
    assert!(!a.names(&[2; 32], &[1; 32]));
    assert!(!a.names(&[1; 32], &[3; 32]));
}

#[test]
fn consignment_with_its_transaction_is_valid() {
    let (c, tx) = one_transfer(&NO_SUPPLEMENT);
    let txid = c.state_transitions[0].0.txid;
    let status = c.validate(&schema(), Answers(vec![(txid, Ok(Some((tx, 3))))]));
    assert_eq!(status.findings, vec![]);
    assert!(status.is_valid());
    assert!(!status.has_errors());
}

#[test]
fn commitment_made_under_a_supplement_is_valid() {
    // the first output is set aside as change: the commitment stands in the second
    let change = TxSupplement { change_output: Some(0), only_output: None };
    let (c, tx) = one_transfer(&change);
    assert_eq!(tx.outputs[0], host_tx().outputs[0]);
    assert_ne!(tx.outputs[1], host_tx().outputs[1]);
    let txid = c.state_transitions[0].0.txid;
    let status = c.validate(&schema(), Answers(vec![(txid, Ok(Some((tx, 1))))]));
    assert_eq!(status.findings, vec![]);
    // all outputs but the second are to be left alone
    let only = TxSupplement { change_output: None, only_output: Some(1) };
    let (c, tx) = one_transfer(&only);
    let txid = c.state_transitions[0].0.txid;
    let status = c.validate(&schema(), Answers(vec![(txid, Ok(Some((tx, 1))))]));
    assert_eq!(status.findings, vec![]);
}

#[test]
fn altered_transaction_is_an_invalid_anchor() {
    let (c, tx) = one_transfer(&NO_SUPPLEMENT);
    let txid = c.state_transitions[0].0.txid;
    let mut variants = vec![];
    let mut other = tx.clone();
    other.outputs[0].value += 1;
    variants.push(other);
    let mut other = tx.clone();
    other.outputs[1].value = 0;
    variants.push(other);
    let mut other = tx.clone();
    other.outputs[1].script_pubkey[5] ^= 1;
    variants.push(other);
    let mut other = tx.clone();
    other.lock_time = 7;
    variants.push(other);
    let mut other = tx.clone();
    other.inputs[0].vout = 3;
    variants.push(other);
    let mut other = tx.clone();
    other.inputs[0].script_sig = vec![0x51];
    variants.push(other);
    for i in 0..tx.outputs[0].script_pubkey.len() {
        let mut other = tx.clone();
        other.outputs[0].script_pubkey[i] ^= 0x10;
        variants.push(other);
    }
    for other in variants {
        let status = c.validate(&schema(), Answers(vec![(txid, Ok(Some((other, 1))))]));
        assert_eq!(status.findings, vec![Finding::InvalidAnchor(txid)]);
        assert!(status.has_errors());
    }
}

#[test]
fn unresolved_txid_is_one_warning() {
    let (c, _) = one_transfer(&NO_SUPPLEMENT);
    let txid = c.state_transitions[0].0.txid;
    let status = c.validate(&schema(), Answers(vec![(txid, Ok(None))]));
    assert_eq!(status.findings, vec![Finding::UnresolvedTxid(txid)]);
    assert_eq!(count(&status, |f| matches!(f, Finding::UnresolvedTxid(_))), 1);
    assert_eq!(count(&status, |f| matches!(f, Finding::InvalidAnchor(_))), 0);
    assert!(status.is_valid());
    assert!(!status.has_errors());
}

#[test]
fn failed_lookup_counts_as_unresolved() {
    let (c, tx) = one_transfer(&NO_SUPPLEMENT);
    let txid = c.state_transitions[0].0.txid;
    let status = c.validate(&schema(), Answers(vec![(txid, Err(TxResolverError {}))]));
    assert_eq!(status.findings, vec![Finding::UnresolvedTxid(txid)]);
    let status = Validator::validate_resolved(&schema(), &c, &vec![Err(TxResolverError {})]);
    assert_eq!(status.findings, vec![Finding::UnresolvedTxid(txid)]);
    assert_eq!(resolution_of(&Err(TxResolverError {})), None);
    assert_eq!(resolution_of(&Ok(None)), None);
    assert_eq!(resolution_of(&Ok(Some((tx.clone(), 9)))), Some(&tx));
}

#[test]
fn transaction_without_the_commitment_is_an_invalid_anchor() {
    let g = genesis();
    let t = transfer(g.node_id(), vec![0], &outpoint(9), 60);
    // the anchor names the transaction as it was before the commitment
    let mut a = anchor(0, g.node_id(), t.node_id());
    a.txid = host_tx().txid().unwrap();
    let txid = a.txid;
    let c = Consignment::with(g, vec![], vec![(a, t)], vec![]);
    let status = c.validate(&schema(), Answers(vec![(txid, Ok(Some((host_tx(), 1))))]));
    assert_eq!(status.findings, vec![Finding::InvalidAnchor(txid)]);
    assert!(status.has_errors());
    assert!(!status.is_valid());
}

#[test]
fn transaction_with_another_identifier_is_an_invalid_anchor() {
    let (c, tx) = one_transfer(&NO_SUPPLEMENT);
    let (anchor, transition) = c.state_transitions[0].clone();
    let named = Anchor { txid: [0x21; 32], ..anchor };
    let c = Consignment::with(c.genesis.clone(), vec![], vec![(named, transition)], vec![]);
    let status = c.validate(&schema(), Answers(vec![([0x21; 32], Ok(Some((tx, 1))))]));
    assert_eq!(status.findings, vec![Finding::InvalidAnchor([0x21; 32])]);
}

#[test]
fn anchor_that_does_not_name_the_node_is_invalid() {
    let g = genesis();
    let t = transfer(g.node_id(), vec![0], &outpoint(9), 60);
    let (a, tx) = anchored(g.node_id(), [0x44; 32], &NO_SUPPLEMENT);
    let txid = a.txid;
    let c = Consignment::with(g, vec![], vec![(a, t)], vec![]);
    let status = c.validate(&schema(), Answers(vec![(txid, Ok(Some((tx, 1))))]));
    assert_eq!(status.findings, vec![Finding::InvalidAnchor(txid)]);
}

#[test]
fn state_of_the_wrong_kind_is_one_schema_violation_and_validation_goes_on() {
    let g = genesis();
    let bad = Transition::new(
        1,
        vec![],
        vec![(g.node_id(), vec![(1, vec![0])])],
        vec![(1, Assignments::Declarative(vec![Assignment {
            seal: Seal::Revealed(outpoint(4)),
            state: State::Revealed(Void {}),
        }]))],
        vec![],
        vec![],
    )
    .unwrap();
    let good = transfer(g.node_id(), vec![1], &outpoint(9), 40);
    let (bad_id, good_id) = (bad.node_id(), good.node_id());
    let a1 = anchor(0x21, g.node_id(), bad_id);
    let a2 = anchor(0x22, g.node_id(), good_id);
    let c = Consignment::with(g, vec![], vec![(a1, bad), (a2, good)], vec![]);
    let status = c.validate(&schema(), Answers(vec![]));
    assert_eq!(
        status.findings,
        vec![
            Finding::SchemaViolation { node: bad_id, item: 1 },
            Finding::UnresolvedTxid([0x21; 32]),
            Finding::UnresolvedTxid([0x22; 32]),
        ]
    );
    assert_eq!(count(&status, |f| matches!(f, Finding::SchemaViolation { .. })), 1);
    assert!(status.has_errors());
}

#[test]
fn what_the_schema_does_not_allow_is_found() {
    let g = genesis();
    // a type of transition that the schema does not know
    let unknown = Transition::new(9, vec![], vec![], vec![], vec![], vec![]).unwrap();
    // a transition of type 2 may not close anything and may not assign rights of type 2
    let greedy = Transition::new(
        2,
        vec![],
        vec![(g.node_id(), vec![(1, vec![0]), (2, vec![])])],
        vec![
            (3, Assignments::Data(vec![])),
            (2, Assignments::Declarative(vec![])),
            (1, Assignments::Field(vec![])),
        ],
        vec![],
        vec![],
    )
    .unwrap();
    let (u, gr) = (unknown.node_id(), greedy.node_id());
    let a1 = anchor(0x21, g.node_id(), u);
    let a2 = anchor(0x22, g.node_id(), gr);
    let x1 = Extension::new(7, g.node_id(), vec![], vec![], vec![], vec![], vec![]).unwrap();
    let x2 = Extension::new(8, g.node_id(), vec![], vec![], vec![], vec![], vec![]).unwrap();
    let x2_id = x2.node_id();
    let c = Consignment::with(g, vec![], vec![(a1, unknown), (a2, greedy)], vec![x1, x2]);
    let status = Validator::validate_resolved(&schema(), &c, &Vec::new());
    assert_eq!(
        status.findings,
        vec![
            Finding::SchemaViolation { node: u, item: 9 },
            Finding::UnresolvedTxid([0x21; 32]),
            Finding::SchemaViolation { node: gr, item: 2 },
            Finding::SchemaViolation { node: gr, item: 1 },
            Finding::SchemaViolation { node: gr, item: 2 },
            Finding::UnresolvedTxid([0x22; 32]),
            Finding::SchemaViolation { node: x2_id, item: 8 },
        ]
    );
}

#[test]
fn genesis_is_held_to_the_schema() {
    let g = Genesis::new(
        [3; 32],
        vec![],
        vec![],
        vec![(3, Assignments::Data(vec![])), (1, Assignments::Data(vec![]))],
        vec![],
        vec![],
    )
    .unwrap();
    let id = g.node_id();
    let c = Consignment::with(g, vec![], vec![], vec![]);
    let status = c.validate(&schema(), Answers(vec![]));
    assert_eq!(
        status.findings,
        vec![
            Finding::SchemaViolation { node: id, item: 3 },
            Finding::SchemaViolation { node: id, item: 1 },
        ]
    );
}

#[test]
fn parent_that_the_graph_does_not_hold_is_dangling() {
    let g = genesis();
    let second = transfer(g.node_id(), vec![1], &outpoint(9), 40);
    let second_id = second.node_id();
    // closes a right of a transition that only comes later, and one of a node that is nowhere
    let first = Transition::new(
        1,
        vec![],
        vec![(second_id, vec![(1, vec![0])]), ([0x66; 32], vec![])],
        vec![],
        vec![],
        vec![],
    )
    .unwrap();
    let first_id = first.node_id();
    let third = transfer(second_id, vec![0], &outpoint(8), 40);
    let third_id = third.node_id();
    let a1 = anchor(0x21, g.node_id(), first_id);
    let a2 = anchor(0x22, g.node_id(), second_id);
    let a3 = anchor(0x23, g.node_id(), third_id);
    let c = Consignment::with(g, vec![], vec![(a1, first), (a2, second), (a3, third)], vec![]);
    let status = c.validate(&schema(), Answers(vec![]));
    assert_eq!(
        status.findings,
        vec![
            Finding::DanglingInput { node: first_id, parent: second_id },
            Finding::DanglingInput { node: first_id, parent: [0x66; 32] },
            Finding::UnresolvedTxid([0x21; 32]),
            Finding::UnresolvedTxid([0x22; 32]),
            Finding::UnresolvedTxid([0x23; 32]),
            Finding::AssignmentReuse { node: third_id, parent: second_id, right_type: 1, index: 0 },
        ]
    );
}

#[test]
fn assignment_closed_twice_is_a_reuse() {
    let g = genesis();
    let gid = g.node_id();
    let t1 = transfer(gid, vec![0], &outpoint(9), 60);
    let t2 = transfer(gid, vec![1, 0, 1], &outpoint(8), 40);
    let t2_id = t2.node_id();
    let a1 = anchor(0x21, gid, t1.node_id());
    let a2 = anchor(0x22, gid, t2_id);
    let c = Consignment::with(g, vec![], vec![(a1, t1), (a2, t2)], vec![]);
    let status = c.validate(&schema(), Answers(vec![]));
    assert_eq!(
        status.findings,
        vec![
            Finding::UnresolvedTxid([0x21; 32]),
            Finding::UnresolvedTxid([0x22; 32]),
            Finding::AssignmentReuse { node: t2_id, parent: gid, right_type: 1, index: 0 },
            Finding::AssignmentReuse { node: t2_id, parent: gid, right_type: 1, index: 1 },
        ]
    );
    assert!(status.has_errors());
}

#[test]
fn unknown_version_is_found() {
    let (c, _) = one_transfer(&NO_SUPPLEMENT);
    let txid = c.state_transitions[0].0.txid;
    let c = Consignment { version: 1, ..c };
    let status = c.validate(&schema(), Answers(vec![]));
    assert_eq!(status.findings, vec![Finding::UnsupportedVersion(1), Finding::UnresolvedTxid(txid)]);
}

#[test]
fn answers_are_taken_in_the_order_of_the_transitions() {
    let g = genesis();
    let gid = g.node_id();
    let t1 = transfer(gid, vec![0], &outpoint(9), 60);
    let t2 = transfer(gid, vec![1], &outpoint(8), 40);
    let a1 = anchor(0x21, gid, t1.node_id());
    let (a2, tx2) = anchored(gid, t2.node_id(), &NO_SUPPLEMENT);
    let id2 = a2.txid;
    let c = Consignment::with(g, vec![], vec![(a1, t1), (a2, t2)], vec![]);
    let answers = vec![Ok(None), Ok(Some((tx2.clone(), 1)))];
    let status = Validator::validate_resolved(&schema(), &c, &answers);
    assert_eq!(status.findings, vec![Finding::UnresolvedTxid([0x21; 32])]);
    let status = Validator::validate_resolved(&schema(), &c, &vec![Ok(Some((tx2, 1)))]);
    assert_eq!(
        status.findings,
        vec![Finding::InvalidAnchor([0x21; 32]), Finding::UnresolvedTxid(id2)]
    );
}

#[test]
fn only_unresolved_transactions_are_warnings() {
    assert_eq!(Finding::UnresolvedTxid([0; 32]).severity(), Severity::Warning);
    assert_eq!(Finding::InvalidAnchor([0; 32]).severity(), Severity::Error);
    assert_eq!(Finding::UnsupportedVersion(2).severity(), Severity::Error);
    assert_eq!(Finding::DanglingInput { node: [0; 32], parent: [1; 32] }.severity(), Severity::Error);
    assert_eq!(Finding::SchemaViolation { node: [0; 32], item: 1 }.severity(), Severity::Error);
    assert_eq!(
        Finding::AssignmentReuse { node: [0; 32], parent: [1; 32], right_type: 1, index: 0 }
            .severity(),
        Severity::Error
    );
    assert!(Status::new().is_valid());
}

#[test]
fn closed_assignment_that_the_parent_does_not_have_is_dangling() {
    let g = genesis();
    let gid = g.node_id();
    // the genesis has two assignments of type 1 and none of type 2 or 5
    let t = Transition::new(
        1,
        vec![],
        vec![(gid, vec![(1, vec![1, 2]), (2, vec![0]), (5, vec![])])],
        vec![],
        vec![],
        vec![],
    )
    .unwrap();
    let tid = t.node_id();
    let c = Consignment::with(g, vec![], vec![(anchor(0x21, gid, tid), t)], vec![]);
    let status = Validator::validate_resolved(&schema(), &c, &Vec::new());
    assert_eq!(
        status.findings,
        vec![
            Finding::DanglingInput { node: tid, parent: gid },
            Finding::DanglingInput { node: tid, parent: gid },
            Finding::SchemaViolation { node: tid, item: 2 },
            Finding::SchemaViolation { node: tid, item: 5 },
            Finding::UnresolvedTxid([0x21; 32]),
        ]
    );
}

#[test]
fn rights_of_an_extension_can_be_closed() {
    let g = genesis();
    let gid = g.node_id();
    let x = Extension::new(
        7,
        gid,
        vec![],
        vec![],
        vec![(2, Assignments::Declarative(vec![Assignment {
            seal: Seal::Revealed(outpoint(5)),
            state: State::Revealed(Void {}),
        }]))],
        vec![],
        vec![],
    )
    .unwrap();
    let xid = x.node_id();
    let t = Transition::new(2, vec![], vec![(xid, vec![(2, vec![0])])], vec![], vec![], vec![])
        .unwrap();
    let tid = t.node_id();
    let c = Consignment::with(g, vec![], vec![(anchor(0x21, gid, tid), t)], vec![x]);
    let status = Validator::validate_resolved(&schema(), &c, &Vec::new());
    assert_eq!(
        status.findings,
        vec![
            Finding::SchemaViolation { node: tid, item: 2 },
            Finding::UnresolvedTxid([0x21; 32]),
        ]
    );
}
