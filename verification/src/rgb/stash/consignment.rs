//! Consignments: a contract's graph as it is handed from one party to
//! another.

use crate::bp::blind::{OutpointHash, OutpointReveal, Txid};
use crate::rgb::contract::anchor::{Anchor, AnchorModel};
use crate::rgb::contract::nodes::{
    count_in_rights, extension_owned, lemma_reveal_rights, reveal_extension, reveal_transition,
    transition_owned, Extension, ExtensionModel, Genesis, GenesisModel, NodeId, Transition,
    TransitionModel,
};
use crate::rgb::contract::seal::{conceal_all, hashes_of};
use crate::rgb::schema::Schema;
use crate::rgb::validation::{validation_findings, Answer, Status, TxResolver, Validator};
use crate::rgb::stash::ordered::{ascending, insert_ordered};
use crate::strict_encoding::{
    get_u16, put_u16, strict_decode, strict_encode, u16_at, u16_le, write_four, StrictEncode,
};
use vstd::prelude::*;

verus! {

/// Where the consignment's chain of validity ends for its receiver: nodes
/// and the concealed seals of theirs that the receiver owns.
pub type ConsignmentEndpoints = Vec<(NodeId, OutpointHash)>;

/// The state transitions, each with the anchor that binds it to its
/// transaction.
pub type TransitionData = Vec<(Anchor, Transition)>;

pub type ExtensionData = Vec<Extension>;

pub const RGB_CONSIGNMENT_VERSION: u16 = 0;

#[derive(Clone, Debug)]
pub struct Consignment {
    pub version: u16,
    pub genesis: Genesis,
    pub endpoints: ConsignmentEndpoints,
    pub state_transitions: TransitionData,
    pub state_extensions: ExtensionData,
}

/// Everything of a consignment behind its version, in the order of the
/// encoding.
pub type ConsignmentBody = (Genesis, (ConsignmentEndpoints, (TransitionData, ExtensionData)));

pub type ConsignmentBodyModel = (
    GenesisModel,
    (Seq<(Seq<u8>, Seq<u8>)>, (Seq<(AnchorModel, TransitionModel)>, Seq<ExtensionModel>)),
);

/// Why bytes were not read as a consignment.
#[derive(Clone, Copy, Debug, PartialEq, Eq, Structural)]
pub enum DecodeError {
    /// The bytes start with a version that is not known.
    UnsupportedVersion(u16),
    /// The bytes are not the encoding of a consignment: they end too
    /// early, hold what cannot be read, or go on behind the consignment.
    Malformed,
}

impl StrictEncode for Consignment {
    type Model = (u16, ConsignmentBodyModel);

    open spec fn model(&self) -> Self::Model {
        (
            self.version_spec(),
            (
                self.genesis.model(),
                (
                    self.endpoints.model(),
                    (self.state_transitions.model(), self.state_extensions.model()),
                ),
            ),
        )
    }

    /// Every node of the consignment is valid.
    open spec fn wf(&self) -> bool {
        self.genesis.wf() && self.state_transitions.wf() && self.state_extensions.wf()
    }

    open spec fn encodable(m: Self::Model) -> bool {
        m.0 == RGB_CONSIGNMENT_VERSION && ConsignmentBody::encodable(m.1)
    }

    open spec fn ser(m: Self::Model, commit: bool) -> Seq<u8> {
        u16_le(m.0) + ConsignmentBody::ser(m.1, commit)
    }

    /// Bytes that start with another version are not read.
    open spec fn parse(s: Seq<u8>, pos: int) -> Option<(Self::Model, int)> {
        match <(u16, ConsignmentBody)>::parse(s, pos) {
            Some((m, end)) => if m.0 == RGB_CONSIGNMENT_VERSION {
                Some((m, end))
            } else {
                None
            },
            None => None,
        }
    }

    proof fn lemma_parse_sound(s: Seq<u8>, pos: int) {
        <(u16, ConsignmentBody)>::lemma_parse_sound(s, pos);
    }

    proof fn lemma_parse_complete(s: Seq<u8>, pos: int, m: Self::Model) {
        <(u16, ConsignmentBody)>::lemma_parse_complete(s, pos, m);
    }

    #[verifier::rlimit(60)]
    fn write(&self, out: &mut Vec<u8>, commit: bool) -> (ok: bool) {
        let ghost body = (
            self.genesis.model(),
            (
                self.endpoints.model(),
                (self.state_transitions.model(), self.state_extensions.model()),
            ),
        );
        assert(self.model() == (self.version, body));
        put_u16(out, self.version);
        if self.version != RGB_CONSIGNMENT_VERSION {
            return false;
        }
        let ghost mid = out@;
        let ok = write_four(
            &self.genesis,
            &self.endpoints,
            &self.state_transitions,
            &self.state_extensions,
            out,
            commit,
        );
        assert(ok == ConsignmentBody::encodable(body));
        if ok {
            assert(out@ == mid + ConsignmentBody::ser(body, commit));
            assert(out@ =~= old(out)@ + (u16_le(self.version) + ConsignmentBody::ser(body, commit)));
        }
        ok
    }

    fn read(buf: &[u8], pos: usize) -> (r: Option<(Self, usize)>) {
        if buf.len() - pos < 2 {
            return None;
        }
        let version = get_u16(buf, pos);
        match ConsignmentBody::read(buf, pos + 2) {
            Some(((genesis, (endpoints, (state_transitions, state_extensions))), end)) => {
                if version != RGB_CONSIGNMENT_VERSION {
                    return None;
                }
                Some(
                    (
                        Consignment {
                            version,
                            genesis,
                            endpoints,
                            state_transitions,
                            state_extensions,
                        },
                        end,
                    ),
                )
            },
            None => None,
        }
    }
}

/// How many seals of the transitions a look with the known outpoints
/// reveals.
pub open spec fn count_in_transitions(ts: Seq<(Anchor, Transition)>, known: Seq<OutpointReveal>) -> nat
    decreases ts.len(),
{
    if ts.len() == 0 {
        0
    } else {
        count_in_transitions(ts.drop_last(), known) + count_in_rights(
            transition_owned(ts.last().1.model()),
            known,
        )
    }
}

/// How many seals of the extensions a look with the known outpoints
/// reveals.
pub open spec fn count_in_extensions(es: Seq<Extension>, known: Seq<OutpointReveal>) -> nat
    decreases es.len(),
{
    if es.len() == 0 {
        0
    } else {
        count_in_extensions(es.drop_last(), known) + count_in_rights(
            extension_owned(es.last().model()),
            known,
        )
    }
}

/// The count as a machine number: itself where it fits, else the largest
/// machine number.
pub open spec fn capped(n: nat) -> usize {
    if n <= usize::MAX {
        n as usize
    } else {
        usize::MAX
    }
}

/// Whether `after` is what the transitions `before` become by a look at
/// their seals with the known outpoints: anchors and identifiers stay,
/// each concealed seal whose hash is that of a known outpoint is revealed.
pub open spec fn transitions_revealed(
    before: Seq<(Anchor, Transition)>,
    after: Seq<(Anchor, Transition)>,
    known: Seq<OutpointReveal>,
) -> bool {
    &&& after.len() == before.len()
    &&& forall|i: int|
        0 <= i < before.len() ==> {
            &&& (#[trigger] after[i]).0 == before[i].0
            &&& after[i].1.wf()
            &&& after[i].1.id_spec() == before[i].1.id_spec()
            &&& after[i].1.model() == reveal_transition(before[i].1.model(), known)
        }
}

/// The same for extensions.
pub open spec fn extensions_revealed(
    before: Seq<Extension>,
    after: Seq<Extension>,
    known: Seq<OutpointReveal>,
) -> bool {
    &&& after.len() == before.len()
    &&& forall|i: int|
        0 <= i < before.len() ==> {
            &&& (#[trigger] after[i]).wf()
            &&& after[i].id_spec() == before[i].id_spec()
            &&& after[i].model() == reveal_extension(before[i].model(), known)
        }
}

/// After a look with some outpoints, a second look with the same outpoints
/// finds nothing to reveal in the transitions and would change none.
pub proof fn lemma_transitions_idempotent(
    before: Seq<(Anchor, Transition)>,
    after: Seq<(Anchor, Transition)>,
    known: Seq<OutpointReveal>,
)
    requires
        transitions_revealed(before, after, known),
    ensures
        count_in_transitions(after, known) == 0,
        forall|i: int|
            0 <= i < after.len() ==> reveal_transition((#[trigger] after[i]).1.model(), known)
                == after[i].1.model(),
    decreases before.len(),
{
    if before.len() > 0 {
        assert(transitions_revealed(before.drop_last(), after.drop_last(), known)) by {
            assert forall|i: int| 0 <= i < before.drop_last().len() implies {
                &&& (#[trigger] after.drop_last()[i]).0 == before.drop_last()[i].0
                &&& after.drop_last()[i].1.wf()
                &&& after.drop_last()[i].1.id_spec() == before.drop_last()[i].1.id_spec()
                &&& after.drop_last()[i].1.model() == reveal_transition(
                    before.drop_last()[i].1.model(),
                    known,
                )
            } by {
                assert(after[i].0 == before[i].0);
            }
        }
        lemma_transitions_idempotent(before.drop_last(), after.drop_last(), known);
        let last = before.len() - 1;
        assert(after[last].0 == before[last].0);
        lemma_reveal_rights(transition_owned(before[last].1.model()), known);
    }
    assert forall|i: int| 0 <= i < after.len() implies reveal_transition(
        (#[trigger] after[i]).1.model(),
        known,
    ) == after[i].1.model() by {
        assert(after[i].0 == before[i].0);
        lemma_reveal_rights(transition_owned(before[i].1.model()), known);
    }
}

/// The same for extensions.
pub proof fn lemma_extensions_idempotent(
    before: Seq<Extension>,
    after: Seq<Extension>,
    known: Seq<OutpointReveal>,
)
    requires
        extensions_revealed(before, after, known),
    ensures
        count_in_extensions(after, known) == 0,
        forall|i: int|
            0 <= i < after.len() ==> reveal_extension((#[trigger] after[i]).model(), known)
                == after[i].model(),
    decreases before.len(),
{
    if before.len() > 0 {
        assert(extensions_revealed(before.drop_last(), after.drop_last(), known)) by {
            assert forall|i: int| 0 <= i < before.drop_last().len() implies {
                &&& (#[trigger] after.drop_last()[i]).wf()
                &&& after.drop_last()[i].id_spec() == before.drop_last()[i].id_spec()
                &&& after.drop_last()[i].model() == reveal_extension(
                    before.drop_last()[i].model(),
                    known,
                )
            } by {
                assert(after[i].wf());
            }
        }
        lemma_extensions_idempotent(before.drop_last(), after.drop_last(), known);
        let last = before.len() - 1;
        assert(after[last].wf());
        lemma_reveal_rights(extension_owned(before[last].model()), known);
    }
    assert forall|i: int| 0 <= i < after.len() implies reveal_extension(
        (#[trigger] after[i]).model(),
        known,
    ) == after[i].model() by {
        assert(after[i].wf());
        lemma_reveal_rights(extension_owned(before[i].model()), known);
    }
}

/// Revealing seals twice with the same outpoints changes the consignment
/// only the first time: in what the first look left, a second look finds
/// nothing to reveal and would change no transition and no extension.
pub proof fn lemma_reveal_seals_idempotent(
    before: Consignment,
    after: Consignment,
    known: Seq<OutpointReveal>,
)
    requires
        transitions_revealed(before.state_transitions@, after.state_transitions@, known),
        extensions_revealed(before.state_extensions@, after.state_extensions@, known),
    ensures
        after.count_revealed_by(known) == 0,
        forall|i: int|
            0 <= i < after.state_transitions@.len() ==> reveal_transition(
                (#[trigger] after.state_transitions@[i]).1.model(),
                known,
            ) == after.state_transitions@[i].1.model(),
        forall|i: int|
            0 <= i < after.state_extensions@.len() ==> reveal_extension(
                (#[trigger] after.state_extensions@[i]).model(),
                known,
            ) == after.state_extensions@[i].model(),
{
    lemma_transitions_idempotent(before.state_transitions@, after.state_transitions@, known);
    lemma_extensions_idempotent(before.state_extensions@, after.state_extensions@, known);
}

impl Consignment {
    pub open spec fn version_spec(&self) -> u16 {
        self.version
    }

    /// Whether the consignment holds a node with the identifier: its
    /// genesis, one of its transitions or one of its extensions.
    pub open spec fn holds_node(&self, id: NodeId) -> bool {
        ||| id == self.genesis.id_spec()
        ||| exists|i: int|
            0 <= i < self.state_transitions@.len() && (
            #[trigger] self.state_transitions@[i]).1.id_spec() == id
        ||| exists|i: int|
            0 <= i < self.state_extensions@.len() && (
            #[trigger] self.state_extensions@[i]).id_spec() == id
    }

    /// Whether one of the consignment's anchors names the transaction.
    pub open spec fn holds_txid(&self, txid: Txid) -> bool {
        exists|i: int|
            0 <= i < self.state_transitions@.len() && (
            #[trigger] self.state_transitions@[i]).0.txid == txid
    }

    /// How many seals of the consignment a look with the known outpoints
    /// reveals.
    pub open spec fn count_revealed_by(&self, known: Seq<OutpointReveal>) -> nat {
        count_in_transitions(self.state_transitions@, known) + count_in_extensions(
            self.state_extensions@,
            known,
        )
    }

    /// Makes a consignment of the current version.
    pub fn with(
        genesis: Genesis,
        endpoints: ConsignmentEndpoints,
        state_transitions: TransitionData,
        state_extensions: ExtensionData,
    ) -> (c: Consignment)
        ensures
            c.version_spec() == RGB_CONSIGNMENT_VERSION,
            c.genesis == genesis,
            c.endpoints == endpoints,
            c.state_transitions == state_transitions,
            c.state_extensions == state_extensions,
    {
        Self {
            version: RGB_CONSIGNMENT_VERSION,
            genesis,
            endpoints,
            state_extensions,
            state_transitions,
        }
    }

    /// The version of the consignment.
    pub fn version(&self) -> (v: u16)
        ensures
            v == self.version_spec(),
    {
        self.version
    }

    /// The identifiers of the transactions that the anchors name, in
    /// ascending order, each once.
    pub fn txids(&self) -> (ids: Vec<Txid>)
        ensures
            ascending(ids@),
            forall|txid: Txid| ids@.contains(txid) <==> self.holds_txid(txid),
    {
        let mut ids: Vec<Txid> = Vec::new();
        let n = self.state_transitions.len();
        let mut i: usize = 0;
        while i < n
            invariant
                i <= n,
                n == self.state_transitions@.len(),
                ascending(ids@),
                forall|txid: Txid|
                    ids@.contains(txid) <==> exists|j: int|
                        0 <= j < i && (#[trigger] self.state_transitions@[j]).0.txid == txid,
            decreases n - i,
        {
            let ghost before = ids@;
            insert_ordered(&mut ids, self.state_transitions[i].0.txid);
            proof {
                assert forall|txid: Txid| ids@.contains(txid) <==> exists|j: int|
                    0 <= j < i + 1 && (#[trigger] self.state_transitions@[j]).0.txid == txid by {
                    if ids@.contains(txid) {
                        if before.contains(txid) {
                            let j = choose|j: int|
                                0 <= j < i && (#[trigger] self.state_transitions@[j]).0.txid
                                    == txid;
                            assert(self.state_transitions@[j].0.txid == txid);
                        } else {
                            assert(self.state_transitions@[i as int].0.txid == txid);
                        }
                    }
                }
            }
            i += 1;
        }
        ids
    }

    /// The identifiers of the genesis, the transitions and the extensions,
    /// in ascending order, each once.
    pub fn node_ids(&self) -> (ids: Vec<NodeId>)
        ensures
            ascending(ids@),
            forall|id: NodeId| ids@.contains(id) <==> self.holds_node(id),
    {
        let mut ids: Vec<NodeId> = Vec::new();
        ids.push(self.genesis.node_id());
        assert(ids@[0] == self.genesis.id_spec());
        let n = self.state_transitions.len();
        let mut i: usize = 0;
        while i < n
            invariant
                i <= n,
                n == self.state_transitions@.len(),
                ascending(ids@),
                forall|id: NodeId|
                    ids@.contains(id) <==> (id == self.genesis.id_spec() || exists|j: int|
                        0 <= j < i && (#[trigger] self.state_transitions@[j]).1.id_spec() == id),
            decreases n - i,
        {
            let ghost before = ids@;
            insert_ordered(&mut ids, self.state_transitions[i].1.node_id());
            proof {
                assert forall|id: NodeId| ids@.contains(id) <==> (id == self.genesis.id_spec()
                    || exists|j: int|
                    0 <= j < i + 1 && (#[trigger] self.state_transitions@[j]).1.id_spec()
                        == id) by {
                    if ids@.contains(id) && id != self.genesis.id_spec() {
                        if before.contains(id) {
                            let j = choose|j: int|
                                0 <= j < i && (#[trigger] self.state_transitions@[j]).1.id_spec()
                                    == id;
                            assert(self.state_transitions@[j].1.id_spec() == id);
                        } else {
                            assert(self.state_transitions@[i as int].1.id_spec() == id);
                        }
                    }
                }
            }
            i += 1;
        }
        let m = self.state_extensions.len();
        let mut k: usize = 0;
        while k < m
            invariant
                k <= m,
                m == self.state_extensions@.len(),
                n == self.state_transitions@.len(),
                ascending(ids@),
                forall|id: NodeId|
                    ids@.contains(id) <==> (id == self.genesis.id_spec() || (exists|j: int|
                        0 <= j < n && (#[trigger] self.state_transitions@[j]).1.id_spec() == id)
                        || exists|j: int|
                        0 <= j < k && (#[trigger] self.state_extensions@[j]).id_spec() == id),
            decreases m - k,
        {
            let ghost before = ids@;
            insert_ordered(&mut ids, self.state_extensions[k].node_id());
            proof {
                assert forall|id: NodeId| ids@.contains(id) <==> (id == self.genesis.id_spec() || (
                exists|j: int|
                    0 <= j < n && (#[trigger] self.state_transitions@[j]).1.id_spec() == id)
                    || exists|j: int|
                    0 <= j < k + 1 && (#[trigger] self.state_extensions@[j]).id_spec() == id) by {
                    if ids@.contains(id) && !before.contains(id) {
                        assert(self.state_extensions@[k as int].id_spec() == id);
                    }
                    if before.contains(id) && id != self.genesis.id_spec() && !(exists|j: int|
                        0 <= j < n && (#[trigger] self.state_transitions@[j]).1.id_spec() == id) {
                        let j = choose|j: int|
                            0 <= j < k && (#[trigger] self.state_extensions@[j]).id_spec() == id;
                        assert(self.state_extensions@[j].id_spec() == id);
                    }
                }
            }
            k += 1;
        }
        ids
    }

    /// Validates the consignment under the schema. The transactions that
    /// the anchors name are asked of the resolver; what is found is what
    /// follows from the resolver's answers, one for each transition.
    pub fn validate<R: TxResolver>(&self, schema: &Schema, resolver: R) -> (status: Status)
        ensures
            exists|answers: Seq<Answer>|
                answers.len() == self.state_transitions@.len() && status.findings@
                    == validation_findings(*schema, *self, answers),
    {
        Validator::validate(schema, self, resolver)
    }

    /// Reveals previously known seal information: every concealed seal of
    /// a transition or an extension whose hash is that of a known outpoint
    /// is replaced with that outpoint. Returns the number of seals
    /// revealed, over all transitions and extensions; should that number
    /// not fit a machine number, the largest machine number.
    pub fn reveal_seals(&mut self, known_seals: &[OutpointReveal]) -> (count: usize)
        requires
            old(self).wf(),
        ensures
            final(self).wf(),
            count == capped(old(self).count_revealed_by(known_seals@)),
            final(self).version_spec() == old(self).version_spec(),
            final(self).genesis == old(self).genesis,
            final(self).endpoints == old(self).endpoints,
            transitions_revealed(
                old(self).state_transitions@,
                final(self).state_transitions@,
                known_seals@,
            ),
            extensions_revealed(
                old(self).state_extensions@,
                final(self).state_extensions@,
                known_seals@,
            ),
    {
        let hashes = conceal_all(known_seals);
        let ghost known = known_seals@;
        let ghost ts = self.state_transitions@;
        let ghost es = self.state_extensions@;
        let n = self.state_transitions.len();
        let mut count: usize = 0;
        let mut i: usize = 0;
        while i < n
            invariant
                i <= n,
                n == ts.len(),
                known == known_seals@,
                hashes_of(known, hashes@),
                ts == old(self).state_transitions@,
                es == old(self).state_extensions@,
                self.state_extensions@ == es,
                self.genesis == old(self).genesis,
                self.endpoints == old(self).endpoints,
                self.version_spec() == old(self).version_spec(),
                self.state_transitions@.len() == n,
                old(self).wf(),
                count == capped(count_in_transitions(ts.take(i as int), known)),
                forall|j: int|
                    0 <= j < i ==> {
                        &&& (#[trigger] self.state_transitions@[j]).0 == ts[j].0
                        &&& self.state_transitions@[j].1.wf()
                        &&& self.state_transitions@[j].1.id_spec() == ts[j].1.id_spec()
                        &&& self.state_transitions@[j].1.model() == reveal_transition(
                            ts[j].1.model(),
                            known,
                        )
                    },
                forall|j: int| i <= j < n ==> (#[trigger] self.state_transitions@[j]) == ts[j],
            decreases n - i,
        {
            let ghost prev = self.state_transitions@;
            proof {
                assert(ts[i as int].1.wf());
                assert(ts.take(i + 1).drop_last() =~= ts.take(i as int));
                assert(ts.take(i + 1).last() == ts[i as int]);
            }
            let c = self.state_transitions[i].1.reveal_seals_with(known_seals, hashes.as_slice());
            proof {
                assert(forall|j: int| 0 <= j < n && j != i ==> self.state_transitions@[j] == prev[j]);
                assert(self.state_transitions@[i as int].0 == prev[i as int].0);
            }
            count = if c > usize::MAX - count {
                usize::MAX
            } else {
                count + c
            };
            i += 1;
        }
        proof {
            assert(ts.take(n as int) =~= ts);
        }
        let m = self.state_extensions.len();
        let ghost base = count_in_transitions(ts, known);
        let mut k: usize = 0;
        while k < m
            invariant
                k <= m,
                m == es.len(),
                known == known_seals@,
                hashes_of(known, hashes@),
                ts == old(self).state_transitions@,
                es == old(self).state_extensions@,
                self.genesis == old(self).genesis,
                self.endpoints == old(self).endpoints,
                self.version_spec() == old(self).version_spec(),
                self.state_extensions@.len() == m,
                old(self).wf(),
                transitions_revealed(ts, self.state_transitions@, known),
                base == count_in_transitions(ts, known),
                count == capped(base + count_in_extensions(es.take(k as int), known)),
                forall|j: int|
                    0 <= j < k ==> {
                        &&& (#[trigger] self.state_extensions@[j]).wf()
                        &&& self.state_extensions@[j].id_spec() == es[j].id_spec()
                        &&& self.state_extensions@[j].model() == reveal_extension(
                            es[j].model(),
                            known,
                        )
                    },
                forall|j: int| k <= j < m ==> (#[trigger] self.state_extensions@[j]) == es[j],
            decreases m - k,
        {
            let ghost prev = self.state_extensions@;
            proof {
                assert(es[k as int].wf());
                assert(es.take(k + 1).drop_last() =~= es.take(k as int));
                assert(es.take(k + 1).last() == es[k as int]);
            }
            let c = self.state_extensions[k].reveal_seals_with(known_seals, hashes.as_slice());
            proof {
                assert(forall|j: int| 0 <= j < m && j != k ==> self.state_extensions@[j] == prev[j]);
            }
            count = if c > usize::MAX - count {
                usize::MAX
            } else {
                count + c
            };
            k += 1;
        }
        proof {
            assert(es.take(m as int) =~= es);
            assert(self.state_transitions.wf()) by {
                assert forall|j: int| 0 <= j < self.state_transitions@.len() implies (
                #[trigger] self.state_transitions@[j]).wf() by {
                    assert(self.state_transitions@[j].1.wf());
                }
            }
        }
        count
    }

    /// Encodes the consignment for transfer. Gives nothing exactly when
    /// the consignment cannot be encoded: it is of another version, or one
    /// of its lists has more items than the encoding can count.
    pub fn strict_encode(&self) -> (r: Option<Vec<u8>>)
        requires
            self.wf(),
        ensures
            match r {
                Some(bytes) => Consignment::encodable(self.model()) && bytes@ == Consignment::ser(
                    self.model(),
                    false,
                ),
                None => !Consignment::encodable(self.model()),
            },
    {
        strict_encode(self)
    }

    /// Decodes a consignment from bytes that hold its encoding and nothing
    /// else. Bytes that start with an unknown version are refused as such;
    /// all other bytes that are not the encoding of a consignment are
    /// refused as malformed.
    pub fn strict_decode(bytes: &[u8]) -> (r: Result<Consignment, DecodeError>)
        ensures
            match r {
                Ok(c) => c.wf() && Consignment::parse(bytes@, 0) == Some(
                    (c.model(), bytes@.len() as int),
                ),
                Err(DecodeError::UnsupportedVersion(v)) => bytes@.len() >= 2 && v == u16_at(
                    bytes@,
                    0,
                ) && v != RGB_CONSIGNMENT_VERSION,
                Err(DecodeError::Malformed) => (bytes@.len() < 2 || u16_at(bytes@, 0)
                    == RGB_CONSIGNMENT_VERSION) && !(Consignment::parse(bytes@, 0) matches Some(
                    (_, end),
                ) && end == bytes@.len()),
            },
    {
        if bytes.len() >= 2 {
            let version = get_u16(bytes, 0);
            if version != RGB_CONSIGNMENT_VERSION {
                return Err(DecodeError::UnsupportedVersion(version));
            }
        }
        match strict_decode::<Consignment>(bytes) {
            Some(c) => Ok(c),
            None => Err(DecodeError::Malformed),
        }
    }
}

} // verus!
