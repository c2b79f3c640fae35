//! Validation of a consignment: one pass over its nodes that collects what
//! is wrong with them instead of stopping at the first fault.

use crate::bp::blind::Txid;
use crate::bp::dbc::tx::{tx_commit_spec, tx_size, txid_spec, Tx, TxContainerView, TxSupplement};
use crate::bp::dbc::digests::{as_array, bytes_eq, lemma_as_array, HASH_INPUT_LIMIT};
use crate::rgb::contract::anchor::{names_node, protocol_tag, Anchor};
use crate::rgb::contract::assignment::{assignments_len, state_kind_of, AssignmentsModel};
use crate::rgb::contract::nodes::{
    extension_owned, extension_type_of, genesis_owned, transition_owned, transition_parents,
    transition_type_of, NodeId, OwnedRights, OwnedRightsModel, ParentOwned, ParentOwnedModel,
    ParentRight,
};
use crate::rgb::schema::{
    find_node_schema, node_schema_index, permits, state_kind_for, NodeSchema, Schema,
};
use crate::rgb::stash::consignment::{Consignment, RGB_CONSIGNMENT_VERSION};
use crate::strict_encoding::StrictEncode;
use vstd::prelude::*;

verus! {

/// How much a finding weighs.
#[derive(Clone, Copy, Debug, PartialEq, Eq, Structural)]
pub enum Severity {
    /// To be shown to the receiver; does not stand against acceptance.
    Warning,
    /// Stands against acceptance.
    Error,
}

/// Something that validation found wrong.
#[derive(Clone, Copy, Debug, PartialEq, Eq)]
pub enum Finding {
    /// The consignment has a version that is not known.
    UnsupportedVersion(u16),
    /// The node closes rights of a parent that the graph does not hold
    /// before it, or an assignment that the parent does not have.
    DanglingInput { node: NodeId, parent: NodeId },
    /// The node does what the schema does not allow: it has the type
    /// `item` that the schema does not know, assigns rights of the type
    /// `item` that it may not assign or whose state is of the wrong kind,
    /// or closes rights of the type `item` that it may not close.
    SchemaViolation { node: NodeId, item: u16 },
    /// The transaction that an anchor names could not be had.
    UnresolvedTxid(Txid),
    /// The transaction that an anchor names does not carry the commitment
    /// that the anchor speaks of.
    InvalidAnchor(Txid),
    /// The node closes an assignment that was closed before.
    AssignmentReuse { node: NodeId, parent: NodeId, right_type: u16, index: u16 },
}

impl Finding {
    pub open spec fn severity_spec(self) -> Severity {
        match self {
            Finding::UnresolvedTxid(_) => Severity::Warning,
            _ => Severity::Error,
        }
    }

    /// An unresolved transaction is a warning: it may not be confirmed
    /// yet. Everything else is an error.
    pub fn severity(&self) -> (s: Severity)
        ensures
            s == self.severity_spec(),
    {
        match self {
            Finding::UnresolvedTxid(_) => Severity::Warning,
            _ => Severity::Error,
        }
    }
}

/// What validation found, in the order in which it found it.
#[derive(Clone, Debug, PartialEq, Eq)]
pub struct Status {
    pub findings: Vec<Finding>,
}

impl Status {
    pub fn new() -> (s: Status)
        ensures
            s.findings@ == Seq::<Finding>::empty(),
    {
        Status { findings: Vec::new() }
    }

    pub open spec fn has_errors_spec(&self) -> bool {
        exists|i: int|
            0 <= i < self.findings@.len() && (#[trigger] self.findings@[i]).severity_spec()
                == Severity::Error
    }

    /// Whether any finding is an error.
    pub fn has_errors(&self) -> (r: bool)
        ensures
            r == self.has_errors_spec(),
    {
        let n = self.findings.len();
        let mut i: usize = 0;
        while i < n
            invariant
                i <= n,
                n == self.findings@.len(),
                forall|j: int|
                    0 <= j < i ==> (#[trigger] self.findings@[j]).severity_spec()
                        != Severity::Error,
            decreases n - i,
        {
            match self.findings[i].severity() {
                Severity::Error => {
                    return true;
                },
                Severity::Warning => {},
            }
            i += 1;
        }
        false
    }

    /// Whether the consignment may be accepted: no finding is an error.
    pub fn is_valid(&self) -> (r: bool)
        ensures
            r == !self.has_errors_spec(),
    {
        !self.has_errors()
    }

    fn add(&mut self, finding: Finding)
        ensures
            final(self).findings@ == old(self).findings@ + seq![finding],
    {
        self.findings.push(finding);
        assert(self.findings@ =~= old(self).findings@ + seq![finding]);
    }
}

/// What the one who resolves transactions says where the lookup itself
/// failed.
#[derive(Clone, Copy, Debug, PartialEq, Eq)]
pub struct TxResolverError {}

/// The way to the transactions that anchors name. Nothing is asked of an
/// implementation: whatever it answers, validation says what follows from
/// the answer.
pub trait TxResolver {
    /// The transaction with the identifier and the number of its
    /// confirmations, nothing where there is no such transaction.
    fn resolve(&self, txid: &Txid) -> Result<Option<(Tx, u64)>, TxResolverError>;
}

pub open spec fn version_findings(version: u16) -> Seq<Finding> {
    if version == RGB_CONSIGNMENT_VERSION {
        Seq::empty()
    } else {
        seq![Finding::UnsupportedVersion(version)]
    }
}

/// Whether the node may assign the rights and their state is of the kind
/// that the schema declares for their type.
pub open spec fn right_conforms(
    schema: Schema,
    ns: NodeSchema,
    right: (u16, AssignmentsModel),
) -> bool {
    ns.owned_rights@.contains(right.0) && state_kind_for(schema.owned_right_types@, right.0)
        == Some(state_kind_of(right.1))
}

/// One finding for each type of owned right that does not conform.
pub open spec fn owned_violations(
    schema: Schema,
    ns: NodeSchema,
    node: NodeId,
    owned: OwnedRightsModel,
) -> Seq<Finding>
    decreases owned.len(),
{
    if owned.len() == 0 {
        Seq::empty()
    } else {
        owned_violations(schema, ns, node, owned.drop_last()) + if right_conforms(
            schema,
            ns,
            owned.last(),
        ) {
            Seq::empty()
        } else {
            seq![Finding::SchemaViolation { node, item: owned.last().0 }]
        }
    }
}

/// One finding for each type of right of one parent that the node may not
/// close.
pub open spec fn closed_right_violations(
    ns: NodeSchema,
    node: NodeId,
    rights: Seq<(u16, Seq<u16>)>,
) -> Seq<Finding>
    decreases rights.len(),
{
    if rights.len() == 0 {
        Seq::empty()
    } else {
        closed_right_violations(ns, node, rights.drop_last()) + if ns.closes@.contains(
            rights.last().0,
        ) {
            Seq::empty()
        } else {
            seq![Finding::SchemaViolation { node, item: rights.last().0 }]
        }
    }
}

/// The same over all parents.
pub open spec fn closes_violations(
    ns: NodeSchema,
    node: NodeId,
    parents: ParentOwnedModel,
) -> Seq<Finding>
    decreases parents.len(),
{
    if parents.len() == 0 {
        Seq::empty()
    } else {
        closes_violations(ns, node, parents.drop_last()) + closed_right_violations(
            ns,
            node,
            parents.last().1,
        )
    }
}

/// What is wrong with a node of the given type, owned rights and closed
/// parent rights under the schemas of its kind: the type itself where the
/// schema does not know it, else the rights that do not conform.
pub open spec fn node_violations(
    schema: Schema,
    list: Seq<(u16, NodeSchema)>,
    node: NodeId,
    node_type: u16,
    owned: OwnedRightsModel,
    parents: ParentOwnedModel,
) -> Seq<Finding> {
    match node_schema_index(list, node_type, 0) {
        None => seq![Finding::SchemaViolation { node, item: node_type }],
        Some(i) => owned_violations(schema, list[i].1, node, owned) + closes_violations(
            list[i].1,
            node,
            parents,
        ),
    }
}

/// The place of the first transition before the one with the number `t`,
/// from `from` on, that has the identifier.
pub open spec fn transition_with(c: Consignment, t: int, id: NodeId, from: int) -> Option<int>
    decreases t - from,
{
    if from < 0 || from >= t || from >= c.state_transitions@.len() {
        None
    } else if c.state_transitions@[from].1.id_spec() == id {
        Some(from)
    } else {
        transition_with(c, t, id, from + 1)
    }
}

/// The place of the first extension, from `from` on, that has the
/// identifier.
pub open spec fn extension_with(c: Consignment, id: NodeId, from: int) -> Option<int>
    decreases c.state_extensions@.len() - from,
{
    if from < 0 || from >= c.state_extensions@.len() {
        None
    } else if c.state_extensions@[from].id_spec() == id {
        Some(from)
    } else {
        extension_with(c, id, from + 1)
    }
}

/// The owned rights of the node with the identifier that the graph holds
/// before the transition with the number `t`: the genesis, an earlier
/// transition or an extension. Nothing where it holds no such node.
pub open spec fn node_before(c: Consignment, t: int, id: NodeId) -> Option<OwnedRightsModel> {
    if id == c.genesis.id_spec() {
        Some(genesis_owned(c.genesis.model()))
    } else {
        match transition_with(c, t, id, 0) {
            Some(j) => Some(transition_owned(c.state_transitions@[j].1.model())),
            None => match extension_with(c, id, 0) {
                Some(j) => Some(extension_owned(c.state_extensions@[j].model())),
                None => None,
            },
        }
    }
}

/// Whether the owned rights hold an assignment of the type with the
/// number.
pub open spec fn has_output(owned: OwnedRightsModel, right_type: u16, index: u16) -> bool {
    exists|i: int|
        0 <= i < owned.len() && (#[trigger] owned[i]).0 == right_type && index < assignments_len(
            owned[i].1,
        )
}

/// One finding for each of the numbers under which the parent has no
/// assignment of the type.
pub open spec fn missing_indexes(
    node: NodeId,
    parent: NodeId,
    owned: OwnedRightsModel,
    right_type: u16,
    indexes: Seq<u16>,
) -> Seq<Finding>
    decreases indexes.len(),
{
    if indexes.len() == 0 {
        Seq::empty()
    } else {
        missing_indexes(node, parent, owned, right_type, indexes.drop_last()) + if has_output(
            owned,
            right_type,
            indexes.last(),
        ) {
            Seq::empty()
        } else {
            seq![Finding::DanglingInput { node, parent }]
        }
    }
}

/// The same over all types of rights that are closed.
pub open spec fn missing_outputs(
    node: NodeId,
    parent: NodeId,
    owned: OwnedRightsModel,
    rights: Seq<(u16, Seq<u16>)>,
) -> Seq<Finding>
    decreases rights.len(),
{
    if rights.len() == 0 {
        Seq::empty()
    } else {
        missing_outputs(node, parent, owned, rights.drop_last()) + missing_indexes(
            node,
            parent,
            owned,
            rights.last().0,
            rights.last().1,
        )
    }
}

/// What is wrong with the rights that a transition closes of one parent:
/// one finding where the graph does not hold the parent before the
/// transition, else one for each closed assignment that the parent does
/// not have.
pub open spec fn parent_findings(
    c: Consignment,
    t: int,
    node: NodeId,
    parent: NodeId,
    rights: Seq<(u16, Seq<u16>)>,
) -> Seq<Finding> {
    match node_before(c, t, parent) {
        None => seq![Finding::DanglingInput { node, parent }],
        Some(owned) => missing_outputs(node, parent, owned, rights),
    }
}

/// The same over all parents.
pub open spec fn dangling_findings(
    c: Consignment,
    t: int,
    node: NodeId,
    parents: ParentOwnedModel,
) -> Seq<Finding>
    decreases parents.len(),
{
    if parents.len() == 0 {
        Seq::empty()
    } else {
        dangling_findings(c, t, node, parents.drop_last()) + parent_findings(
            c,
            t,
            node,
            as_array(parents.last().0),
            parents.last().1,
        )
    }
}

/// An assignment that a transition closes: a parent, a type of right and
/// the number of the assignment among the parent's assignments of that
/// type.
#[derive(Clone, Copy, Debug, PartialEq, Eq)]
pub struct Input {
    pub parent: NodeId,
    pub right_type: u16,
    pub index: u16,
}

pub open spec fn inputs_of_indexes(parent: NodeId, right_type: u16, indexes: Seq<u16>) -> Seq<
    Input,
> {
    Seq::new(indexes.len(), |i: int| Input { parent, right_type, index: indexes[i] })
}

pub open spec fn inputs_of_rights(parent: NodeId, rights: Seq<(u16, Seq<u16>)>) -> Seq<Input>
    decreases rights.len(),
{
    if rights.len() == 0 {
        Seq::empty()
    } else {
        inputs_of_rights(parent, rights.drop_last()) + inputs_of_indexes(
            parent,
            rights.last().0,
            rights.last().1,
        )
    }
}

/// The assignments that a node with the given parent rights closes, in
/// their order.
pub open spec fn inputs_of_parents(parents: ParentOwnedModel) -> Seq<Input>
    decreases parents.len(),
{
    if parents.len() == 0 {
        Seq::empty()
    } else {
        inputs_of_parents(parents.drop_last()) + inputs_of_rights(
            as_array(parents.last().0),
            parents.last().1,
        )
    }
}

/// The assignments that the transitions before the one with the number
/// `t` close.
pub open spec fn inputs_before(c: Consignment, t: int) -> Seq<Input>
    decreases t,
{
    if t <= 0 {
        Seq::empty()
    } else {
        inputs_before(c, t - 1) + inputs_of_parents(
            transition_parents(c.state_transitions@[t - 1].1.model()),
        )
    }
}

/// One finding for each of the assignments that was closed before: by what
/// was seen, or earlier in the list itself.
pub open spec fn reuse_findings(node: NodeId, seen: Seq<Input>, inputs: Seq<Input>) -> Seq<Finding>
    decreases inputs.len(),
{
    if inputs.len() == 0 {
        Seq::empty()
    } else {
        let input = inputs.last();
        reuse_findings(node, seen, inputs.drop_last()) + if (seen + inputs.drop_last()).contains(
            input,
        ) {
            seq![
                Finding::AssignmentReuse {
                    node,
                    parent: input.parent,
                    right_type: input.right_type,
                    index: input.index,
                },
            ]
        } else {
            Seq::empty()
        }
    }
}

/// What a resolver answers: the transaction and the number of its
/// confirmations, nothing where there is no such transaction, or the
/// failure of the lookup.
pub type Answer = Result<Option<(Tx, u64)>, TxResolverError>;

/// The transaction that an answer brings. A failed lookup brings none, as
/// little as the answer that there is no such transaction.
pub open spec fn resolved(answer: Answer) -> Option<Tx> {
    match answer {
        Ok(Some((tx, _))) => Some(tx),
        Ok(None) => None,
        Err(_) => None,
    }
}

/// What follows from the answer to the question for an anchor's
/// transaction: a warning where it brings no transaction, an error where
/// the transaction is not the one that the anchor names or does not carry
/// the commitment to the node.
pub open spec fn anchor_findings(
    anchor: Anchor,
    contract_id: NodeId,
    node_id: NodeId,
    answer: Answer,
) -> Seq<Finding> {
    match resolved(answer) {
        None => seq![Finding::UnresolvedTxid(anchor.txid)],
        Some(tx) => if anchor.binds(contract_id, node_id, tx@) {
            Seq::empty()
        } else {
            seq![Finding::InvalidAnchor(anchor.txid)]
        },
    }
}

/// An anchor whose transaction was found adds no finding where the
/// transaction is what committing the anchor's value gives, under whatever
/// supplement the committer chose the output, and the anchor names the
/// node and that transaction.
pub proof fn lemma_committed_anchor_is_valid(
    anchor: Anchor,
    contract_id: NodeId,
    node_id: NodeId,
    c: TxContainerView,
    s: TxSupplement,
    tx: Tx,
    confirmations: u64,
)
    requires
        names_node(anchor.commitment@, contract_id, node_id),
        anchor.hashable(),
        c.pubkey == anchor.proof.pubkey,
        c.source == anchor.proof.source@,
        c.tag == protocol_tag(),
        tx_commit_spec(c, s, anchor.value_spec()) matches Ok(made) && made.committed == tx@,
        tx_size(tx@) < HASH_INPUT_LIMIT,
        txid_spec(tx@) == anchor.txid,
    ensures
        anchor_findings(anchor, contract_id, node_id, Ok(Some((tx, confirmations))))
            == Seq::<Finding>::empty(),
{
    anchor.lemma_binds_what_was_committed(contract_id, node_id, c, s);
}

/// An anchor whose transaction was found is invalid where the transaction
/// has another identifier than the anchor holds, and where the anchor does
/// not name the node: a node that was altered after it was anchored has
/// another identifier than the one that the anchor names.
pub proof fn lemma_foreign_anchor_is_invalid(
    anchor: Anchor,
    contract_id: NodeId,
    node_id: NodeId,
    tx: Tx,
    confirmations: u64,
)
    requires
        txid_spec(tx@) != anchor.txid || !names_node(anchor.commitment@, contract_id, node_id),
    ensures
        anchor_findings(anchor, contract_id, node_id, Ok(Some((tx, confirmations)))) == seq![
            Finding::InvalidAnchor(anchor.txid),
        ],
{
}

/// The answer for the transition with the number `t`; where the answers
/// end before it, the answer that there is no such transaction.
pub open spec fn answer_at(answers: Seq<Answer>, t: int) -> Answer {
    if 0 <= t < answers.len() {
        answers[t]
    } else {
        Ok(None)
    }
}

/// What is wrong with the transition with the number `t`: closed rights
/// that the graph does not hold before it, what the schema does not allow, what follows from
/// the answer for its anchor, and assignments closed twice.
pub open spec fn transition_findings(
    schema: Schema,
    c: Consignment,
    t: int,
    answer: Answer,
) -> Seq<Finding> {
    let entry = c.state_transitions@[t];
    let node = entry.1.id_spec();
    let m = entry.1.model();
    dangling_findings(c, t, node, transition_parents(m)) + node_violations(
        schema,
        schema.transitions@,
        node,
        transition_type_of(m),
        transition_owned(m),
        transition_parents(m),
    ) + anchor_findings(entry.0, c.genesis.id_spec(), node, answer) + reuse_findings(
        node,
        inputs_before(c, t),
        inputs_of_parents(transition_parents(m)),
    )
}

/// What is wrong with the first `n` transitions.
pub open spec fn transitions_findings(
    schema: Schema,
    c: Consignment,
    answers: Seq<Answer>,
    n: nat,
) -> Seq<Finding>
    decreases n,
{
    if n == 0 {
        Seq::empty()
    } else {
        transitions_findings(schema, c, answers, (n - 1) as nat) + transition_findings(
            schema,
            c,
            n - 1,
            answer_at(answers, n - 1),
        )
    }
}

/// What the schema does not allow of the extension with the number `e`.
pub open spec fn extension_findings(schema: Schema, c: Consignment, e: int) -> Seq<Finding> {
    let m = c.state_extensions@[e].model();
    node_violations(
        schema,
        schema.extensions@,
        c.state_extensions@[e].id_spec(),
        extension_type_of(m),
        extension_owned(m),
        Seq::empty(),
    )
}

/// What the schema does not allow of the first `n` extensions.
pub open spec fn extensions_findings(schema: Schema, c: Consignment, n: nat) -> Seq<Finding>
    decreases n,
{
    if n == 0 {
        Seq::empty()
    } else {
        extensions_findings(schema, c, (n - 1) as nat) + extension_findings(schema, c, n - 1)
    }
}

/// Everything that validation finds in a consignment under a schema, given
/// the resolver's answers for the transactions of its anchors as they
/// came: first the version, then the genesis, the transitions and the
/// extensions, each in its order.
pub open spec fn validation_findings(
    schema: Schema,
    c: Consignment,
    answers: Seq<Answer>,
) -> Seq<Finding> {
    version_findings(c.version) + owned_violations(
        schema,
        schema.genesis,
        c.genesis.id_spec(),
        genesis_owned(c.genesis.model()),
    ) + transitions_findings(schema, c, answers, c.state_transitions@.len())
        + extensions_findings(schema, c, c.state_extensions@.len())
}

/// The transaction that an answer brings. A failed lookup brings none.
pub fn resolution_of(answer: &Answer) -> (r: Option<&Tx>)
    ensures
        match r {
            Some(tx) => resolved(*answer) == Some(*tx),
            None => resolved(*answer) is None,
        },
{
    match answer {
        Ok(Some((tx, _))) => Some(tx),
        Ok(None) => None,
        Err(_) => None,
    }
}

/// Adds a finding for each type of owned right that does not conform.
pub fn check_owned(
    schema: &Schema,
    ns: &NodeSchema,
    node: &NodeId,
    owned: &OwnedRights,
    status: &mut Status,
)
    ensures
        final(status).findings@ == old(status).findings@ + owned_violations(
            *schema,
            *ns,
            *node,
            owned.model(),
        ),
{
    let n = owned.len();
    let ghost ms = owned.model();
    let mut i: usize = 0;
    assert(status.findings@ =~= old(status).findings@ + Seq::<Finding>::empty());
    while i < n
        invariant
            i <= n,
            n == owned@.len(),
            ms == owned.model(),
            status.findings@ == old(status).findings@ + owned_violations(
                *schema,
                *ns,
                *node,
                ms.take(i as int),
            ),
        decreases n - i,
    {
        let right_type = owned[i].0;
        let allowed = permits(&ns.owned_rights, right_type);
        let declared = schema.state_kind(right_type);
        let kind = owned[i].1.state_kind();
        let conforms = allowed && match declared {
            Some(k) => k == kind,
            None => false,
        };
        if !conforms {
            status.add(Finding::SchemaViolation { node: *node, item: right_type });
        }
        proof {
            let next = ms.take(i + 1);
            assert(next.drop_last() =~= ms.take(i as int));
            assert(next.last() == ms[i as int]);
            assert(conforms == right_conforms(*schema, *ns, next.last()));
            assert(status.findings@ =~= old(status).findings@ + owned_violations(
                *schema,
                *ns,
                *node,
                next,
            ));
        }
        i += 1;
    }
    assert(ms.take(n as int) =~= ms);
}

/// Adds a finding for each type of parent right that the node may not
/// close.
pub fn check_closes(
    ns: &NodeSchema,
    node: &NodeId,
    parents: &Vec<ParentOwned>,
    status: &mut Status,
)
    ensures
        final(status).findings@ == old(status).findings@ + closes_violations(
            *ns,
            *node,
            parents.model(),
        ),
{
    let n = parents.len();
    let ghost ms = parents.model();
    let mut i: usize = 0;
    assert(status.findings@ =~= old(status).findings@ + Seq::<Finding>::empty());
    while i < n
        invariant
            i <= n,
            n == parents@.len(),
            ms == parents.model(),
            status.findings@ == old(status).findings@ + closes_violations(
                *ns,
                *node,
                ms.take(i as int),
            ),
        decreases n - i,
    {
        let ghost outer = status.findings@;
        let rights = &parents[i].1;
        let ghost rs = rights.model();
        let m = rights.len();
        let mut k: usize = 0;
        assert(status.findings@ =~= outer + Seq::<Finding>::empty());
        while k < m
            invariant
                k <= m,
                m == rights@.len(),
                rs == rights.model(),
                status.findings@ == outer + closed_right_violations(*ns, *node, rs.take(k as int)),
            decreases m - k,
        {
            let right_type = rights[k].0;
            if !permits(&ns.closes, right_type) {
                status.add(Finding::SchemaViolation { node: *node, item: right_type });
            }
            proof {
                let next = rs.take(k + 1);
                assert(next.drop_last() =~= rs.take(k as int));
                assert(next.last() == rs[k as int]);
                assert(status.findings@ =~= outer + closed_right_violations(*ns, *node, next));
            }
            k += 1;
        }
        proof {
            assert(rs.take(m as int) =~= rs);
            let next = ms.take(i + 1);
            assert(next.drop_last() =~= ms.take(i as int));
            assert(next.last() == ms[i as int]);
            assert(ms[i as int].1 == rs);
            assert(status.findings@ =~= old(status).findings@ + closes_violations(
                *ns,
                *node,
                next,
            ));
        }
        i += 1;
    }
    assert(ms.take(n as int) =~= ms);
}

/// Adds what is wrong with a node under the schemas of its kind.
pub fn check_node(
    schema: &Schema,
    list: &Vec<(u16, NodeSchema)>,
    node: &NodeId,
    node_type: u16,
    owned: &OwnedRights,
    parents: &Vec<ParentOwned>,
    status: &mut Status,
)
    ensures
        final(status).findings@ == old(status).findings@ + node_violations(
            *schema,
            list@,
            *node,
            node_type,
            owned.model(),
            parents.model(),
        ),
{
    match find_node_schema(list, node_type) {
        None => {
            status.add(Finding::SchemaViolation { node: *node, item: node_type });
        },
        Some(i) => {
            check_owned(schema, &list[i].1, node, owned, status);
            check_closes(&list[i].1, node, parents, status);
            assert(status.findings@ =~= old(status).findings@ + (owned_violations(
                *schema,
                list@[i as int].1,
                *node,
                owned.model(),
            ) + closes_violations(list@[i as int].1, *node, parents.model())));
        },
    }
}

/// The owned rights of the node with the identifier that the graph holds
/// before the transition with the number `t`.
pub fn find_node<'a>(c: &'a Consignment, t: usize, id: &NodeId) -> (r: Option<&'a OwnedRights>)
    requires
        t <= c.state_transitions@.len(),
    ensures
        match r {
            Some(owned) => node_before(*c, t as int, *id) == Some(owned.model()),
            None => node_before(*c, t as int, *id) is None,
        },
{
    if bytes_eq(&c.genesis.node_id(), id) {
        return Some(c.genesis.owned_rights());
    }
    let mut j: usize = 0;
    while j < t
        invariant
            j <= t,
            t <= c.state_transitions@.len(),
            c.genesis.id_spec() != *id,
            transition_with(*c, t as int, *id, 0) == transition_with(*c, t as int, *id, j as int),
        decreases t - j,
    {
        if bytes_eq(&c.state_transitions[j].1.node_id(), id) {
            return Some(c.state_transitions[j].1.owned_rights());
        }
        j += 1;
    }
    let m = c.state_extensions.len();
    let mut e: usize = 0;
    while e < m
        invariant
            e <= m,
            m == c.state_extensions@.len(),
            c.genesis.id_spec() != *id,
            transition_with(*c, t as int, *id, 0) is None,
            extension_with(*c, *id, 0) == extension_with(*c, *id, e as int),
        decreases m - e,
    {
        if bytes_eq(&c.state_extensions[e].node_id(), id) {
            return Some(c.state_extensions[e].owned_rights());
        }
        e += 1;
    }
    None
}

/// Whether the owned rights hold an assignment of the type with the
/// number.
pub fn holds_output(owned: &OwnedRights, right_type: u16, index: u16) -> (found: bool)
    ensures
        found == has_output(owned.model(), right_type, index),
{
    let n = owned.len();
    let ghost ms = owned.model();
    let mut i: usize = 0;
    while i < n
        invariant
            i <= n,
            n == owned@.len(),
            ms == owned.model(),
            forall|j: int|
                0 <= j < i ==> !((#[trigger] ms[j]).0 == right_type && index < assignments_len(
                    ms[j].1,
                )),
        decreases n - i,
    {
        if owned[i].0 == right_type && (index as usize) < owned[i].1.len() {
            assert(ms[i as int].0 == right_type && index < assignments_len(ms[i as int].1));
            return true;
        }
        i += 1;
    }
    false
}

/// Adds a finding for each closed assignment that the parent does not
/// have.
pub fn check_outputs(
    node: &NodeId,
    parent: &NodeId,
    owned: &OwnedRights,
    rights: &Vec<ParentRight>,
    status: &mut Status,
)
    ensures
        final(status).findings@ == old(status).findings@ + missing_outputs(
            *node,
            *parent,
            owned.model(),
            rights.model(),
        ),
{
    let n = rights.len();
    let ghost rs = rights.model();
    let ghost om = owned.model();
    let mut i: usize = 0;
    assert(status.findings@ =~= old(status).findings@ + Seq::<Finding>::empty());
    while i < n
        invariant
            i <= n,
            n == rights@.len(),
            rs == rights.model(),
            om == owned.model(),
            status.findings@ == old(status).findings@ + missing_outputs(
                *node,
                *parent,
                om,
                rs.take(i as int),
            ),
        decreases n - i,
    {
        let ghost outer = status.findings@;
        let right_type = rights[i].0;
        let indexes = &rights[i].1;
        let ghost xs = indexes.model();
        let q = indexes.len();
        let mut x: usize = 0;
        assert(status.findings@ =~= outer + Seq::<Finding>::empty());
        while x < q
            invariant
                x <= q,
                q == indexes@.len(),
                xs == indexes.model(),
                om == owned.model(),
                status.findings@ == outer + missing_indexes(
                    *node,
                    *parent,
                    om,
                    right_type,
                    xs.take(x as int),
                ),
            decreases q - x,
        {
            if !holds_output(owned, right_type, indexes[x]) {
                status.add(Finding::DanglingInput { node: *node, parent: *parent });
            }
            proof {
                let next = xs.take(x + 1);
                assert(next.drop_last() =~= xs.take(x as int));
                assert(next.last() == xs[x as int]);
                assert(status.findings@ =~= outer + missing_indexes(
                    *node,
                    *parent,
                    om,
                    right_type,
                    next,
                ));
            }
            x += 1;
        }
        proof {
            assert(xs.take(q as int) =~= xs);
            let next = rs.take(i + 1);
            assert(next.drop_last() =~= rs.take(i as int));
            assert(next.last() == rs[i as int]);
            assert(rs[i as int].1 == xs);
            assert(status.findings@ =~= old(status).findings@ + missing_outputs(
                *node,
                *parent,
                om,
                next,
            ));
        }
        i += 1;
    }
    assert(rs.take(n as int) =~= rs);
}

/// Adds what is wrong with the rights that the transition with the number
/// `t` closes: parents that the graph does not hold before it, and closed
/// assignments that their parents do not have.
pub fn check_parents(
    c: &Consignment,
    t: usize,
    node: &NodeId,
    parents: &Vec<ParentOwned>,
    status: &mut Status,
)
    requires
        t <= c.state_transitions@.len(),
    ensures
        final(status).findings@ == old(status).findings@ + dangling_findings(
            *c,
            t as int,
            *node,
            parents.model(),
        ),
{
    let n = parents.len();
    let ghost ms = parents.model();
    let mut i: usize = 0;
    assert(status.findings@ =~= old(status).findings@ + Seq::<Finding>::empty());
    while i < n
        invariant
            i <= n,
            n == parents@.len(),
            ms == parents.model(),
            t <= c.state_transitions@.len(),
            status.findings@ == old(status).findings@ + dangling_findings(
                *c,
                t as int,
                *node,
                ms.take(i as int),
            ),
        decreases n - i,
    {
        let ghost before = status.findings@;
        let parent = parents[i].0;
        proof {
            lemma_as_array(parent);
        }
        match find_node(c, t, &parent) {
            None => {
                status.add(Finding::DanglingInput { node: *node, parent });
            },
            Some(owned) => {
                check_outputs(node, &parent, owned, &parents[i].1, status);
            },
        }
        proof {
            let next = ms.take(i + 1);
            assert(next.drop_last() =~= ms.take(i as int));
            assert(next.last() == ms[i as int]);
            assert(ms[i as int].1 == parents@[i as int].1.model());
            assert(status.findings@ == before + parent_findings(
                *c,
                t as int,
                *node,
                parent,
                ms[i as int].1,
            ));
            assert(status.findings@ =~= old(status).findings@ + dangling_findings(
                *c,
                t as int,
                *node,
                next,
            ));
        }
        i += 1;
    }
    assert(ms.take(n as int) =~= ms);
}

/// The assignments that a node with the given parent rights closes.
pub fn collect_inputs(parents: &Vec<ParentOwned>) -> (inputs: Vec<Input>)
    ensures
        inputs@ == inputs_of_parents(parents.model()),
{
    let mut inputs: Vec<Input> = Vec::new();
    let n = parents.len();
    let ghost ms = parents.model();
    let mut i: usize = 0;
    while i < n
        invariant
            i <= n,
            n == parents@.len(),
            ms == parents.model(),
            inputs@ == inputs_of_parents(ms.take(i as int)),
        decreases n - i,
    {
        let ghost outer = inputs@;
        let parent = parents[i].0;
        let rights = &parents[i].1;
        let ghost rs = rights.model();
        let m = rights.len();
        let mut k: usize = 0;
        assert(inputs@ =~= outer + Seq::<Input>::empty());
        while k < m
            invariant
                k <= m,
                m == rights@.len(),
                rs == rights.model(),
                inputs@ == outer + inputs_of_rights(parent, rs.take(k as int)),
            decreases m - k,
        {
            let ghost middle = inputs@;
            let right_type = rights[k].0;
            let indexes = &rights[k].1;
            let ghost xs = indexes.model();
            let q = indexes.len();
            let mut x: usize = 0;
            while x < q
                invariant
                    x <= q,
                    q == indexes@.len(),
                    xs == indexes.model(),
                    inputs@ == middle + inputs_of_indexes(parent, right_type, xs.take(x as int)),
                decreases q - x,
            {
                inputs.push(Input { parent, right_type, index: indexes[x] });
                assert(inputs@ =~= middle + inputs_of_indexes(parent, right_type, xs.take(x + 1)));
                x += 1;
            }
            proof {
                assert(xs.take(q as int) =~= xs);
                let next = rs.take(k + 1);
                assert(next.drop_last() =~= rs.take(k as int));
                assert(next.last() == rs[k as int]);
                assert(rs[k as int].1 == xs);
                assert(inputs@ =~= outer + inputs_of_rights(parent, next));
            }
            k += 1;
        }
        proof {
            assert(rs.take(m as int) =~= rs);
            lemma_as_array(parent);
            let next = ms.take(i + 1);
            assert(next.drop_last() =~= ms.take(i as int));
            assert(next.last() == ms[i as int]);
            assert(ms[i as int].1 == rs);
            assert(inputs@ =~= inputs_of_parents(next));
        }
        i += 1;
    }
    assert(ms.take(n as int) =~= ms);
    inputs
}

/// Whether the list holds the assignment.
pub fn was_seen(seen: &Vec<Input>, input: &Input) -> (found: bool)
    ensures
        found == seen@.contains(*input),
{
    let n = seen.len();
    let mut i: usize = 0;
    while i < n
        invariant
            i <= n,
            n == seen@.len(),
            forall|j: int| 0 <= j < i ==> seen@[j] != *input,
        decreases n - i,
    {
        if bytes_eq(&seen[i].parent, &input.parent) && seen[i].right_type == input.right_type
            && seen[i].index == input.index {
            assert(seen@[i as int] == *input);
            return true;
        }
        i += 1;
    }
    false
}

/// Adds a finding for each of the assignments that was closed before, and
/// remembers them all.
pub fn check_reuse(node: &NodeId, seen: &mut Vec<Input>, inputs: &Vec<Input>, status: &mut Status)
    ensures
        final(seen)@ == old(seen)@ + inputs@,
        final(status).findings@ == old(status).findings@ + reuse_findings(
            *node,
            old(seen)@,
            inputs@,
        ),
{
    let n = inputs.len();
    let mut i: usize = 0;
    assert(status.findings@ =~= old(status).findings@ + Seq::<Finding>::empty());
    assert(seen@ =~= old(seen)@ + inputs@.take(0));
    while i < n
        invariant
            i <= n,
            n == inputs@.len(),
            seen@ == old(seen)@ + inputs@.take(i as int),
            status.findings@ == old(status).findings@ + reuse_findings(
                *node,
                old(seen)@,
                inputs@.take(i as int),
            ),
        decreases n - i,
    {
        let input = inputs[i];
        if was_seen(seen, &input) {
            status.add(
                Finding::AssignmentReuse {
                    node: *node,
                    parent: input.parent,
                    right_type: input.right_type,
                    index: input.index,
                },
            );
        }
        proof {
            let next = inputs@.take(i + 1);
            assert(next.drop_last() =~= inputs@.take(i as int));
            assert(next.last() == input);
            assert(status.findings@ =~= old(status).findings@ + reuse_findings(
                *node,
                old(seen)@,
                next,
            ));
        }
        seen.push(input);
        assert(seen@ =~= old(seen)@ + inputs@.take(i + 1));
        i += 1;
    }
    assert(inputs@.take(n as int) =~= inputs@);
}

/// Adds what follows from the answer to the question for an anchor's
/// transaction.
pub fn check_anchor(
    anchor: &Anchor,
    contract_id: &NodeId,
    node_id: &NodeId,
    answer: &Answer,
    status: &mut Status,
)
    ensures
        final(status).findings@ == old(status).findings@ + anchor_findings(
            *anchor,
            *contract_id,
            *node_id,
            *answer,
        ),
{
    match resolution_of(answer) {
        None => {
            status.add(Finding::UnresolvedTxid(anchor.txid));
        },
        Some(tx) => {
            if !anchor.verify(contract_id, node_id, tx) {
                status.add(Finding::InvalidAnchor(anchor.txid));
            } else {
                assert(status.findings@ =~= old(status).findings@ + Seq::<Finding>::empty());
            }
        },
    }
}

pub struct Validator {}

impl Validator {
    /// Validates the consignment under the schema, given the resolver's
    /// answers for the transactions of its anchors as they came, one for
    /// each transition in their order; a transition behind the last answer
    /// counts as unresolved.
    pub fn validate_resolved(schema: &Schema, c: &Consignment, answers: &Vec<Answer>) -> (status:
        Status)
        ensures
            status.findings@ == validation_findings(*schema, *c, answers@),
    {
        let ghost res = answers@;
        let mut status = Status::new();
        if c.version != RGB_CONSIGNMENT_VERSION {
            status.add(Finding::UnsupportedVersion(c.version));
        }
        assert(status.findings@ =~= version_findings(c.version));
        let genesis_id = c.genesis.node_id();
        check_owned(schema, &schema.genesis, &genesis_id, c.genesis.owned_rights(), &mut status);
        let ghost head = status.findings@;
        let n = c.state_transitions.len();
        let mut seen: Vec<Input> = Vec::new();
        let mut t: usize = 0;
        assert(status.findings@ =~= head + Seq::<Finding>::empty());
        while t < n
            invariant
                t <= n,
                n == c.state_transitions@.len(),
                res == answers@,
                genesis_id == c.genesis.id_spec(),
                seen@ == inputs_before(*c, t as int),
                status.findings@ == head + transitions_findings(*schema, *c, res, t as nat),
            decreases n - t,
        {
            let ghost before = status.findings@;
            let anchor = &c.state_transitions[t].0;
            let transition = &c.state_transitions[t].1;
            let node = transition.node_id();
            let parents = transition.parents();
            check_parents(c, t, &node, parents, &mut status);
            check_node(
                schema,
                &schema.transitions,
                &node,
                transition.transition_type(),
                transition.owned_rights(),
                parents,
                &mut status,
            );
            let none: Answer = Ok(None);
            let answer = if t < answers.len() {
                &answers[t]
            } else {
                &none
            };
            check_anchor(anchor, &genesis_id, &node, answer, &mut status);
            let inputs = collect_inputs(parents);
            check_reuse(&node, &mut seen, &inputs, &mut status);
            proof {
                assert(status.findings@ =~= before + transition_findings(
                    *schema,
                    *c,
                    t as int,
                    answer_at(res, t as int),
                ));
                assert(status.findings@ =~= head + transitions_findings(
                    *schema,
                    *c,
                    res,
                    (t + 1) as nat,
                ));
            }
            t += 1;
        }
        let ghost middle = status.findings@;
        let m = c.state_extensions.len();
        let mut e: usize = 0;
        let empty: Vec<ParentOwned> = Vec::new();
        assert(empty.model() =~= Seq::empty());
        assert(status.findings@ =~= middle + Seq::<Finding>::empty());
        while e < m
            invariant
                e <= m,
                m == c.state_extensions@.len(),
                empty.model() == Seq::<(Seq<u8>, Seq<(u16, Seq<u16>)>)>::empty(),
                status.findings@ == middle + extensions_findings(*schema, *c, e as nat),
            decreases m - e,
        {
            let extension = &c.state_extensions[e];
            let node = extension.node_id();
            check_node(
                schema,
                &schema.extensions,
                &node,
                extension.extension_type(),
                extension.owned_rights(),
                &empty,
                &mut status,
            );
            assert(status.findings@ =~= middle + extensions_findings(*schema, *c, (e + 1) as nat));
            e += 1;
        }
        status
    }

    /// Validates the consignment under the schema: asks the resolver for
    /// the transaction of each anchor, in the order of the transitions, and
    /// validates with the answers as they came.
    pub fn validate<R: TxResolver>(schema: &Schema, c: &Consignment, resolver: R) -> (status:
        Status)
        ensures
            exists|answers: Seq<Answer>|
                answers.len() == c.state_transitions@.len() && status.findings@
                    == validation_findings(*schema, *c, answers),
    {
        let n = c.state_transitions.len();
        let mut answers: Vec<Answer> = Vec::new();
        let mut t: usize = 0;
        while t < n
            invariant
                t <= n,
                n == c.state_transitions@.len(),
                answers@.len() == t,
            decreases n - t,
        {
            answers.push(resolver.resolve(&c.state_transitions[t].0.txid));
            t += 1;
        }
        Self::validate_resolved(schema, c, &answers)
    }
}

} // verus!
