//! The nodes of a contract's graph: genesis, state transitions and state
//! extensions.
//!
//! A node is a tuple of fields in the order of its encoding, together with
//! its identifier: the hash of the node's commitment encoding, computed when
//! the node is made.

use crate::bp::blind::{OutpointHash, OutpointReveal};
use crate::bp::dbc::digests::{sha256, sha256_spec, HASH_INPUT_LIMIT};
use crate::rgb::contract::assignment::{
    count_in_assignments, lemma_reveal_assignments, reveal_assignments,
    Assignments, AssignmentsModel,
};
use crate::rgb::contract::data::DataValue;
use crate::rgb::contract::seal::{conceal_all, hashes_of};
use crate::strict_encoding::{all_encodable, ser_items, StrictEncode};
use vstd::prelude::*;

verus! {

/// Identifier of a node: the hash of its commitment encoding.
pub type NodeId = [u8; 32];

/// One metadata field: its type and its values.
pub type MetaField = (u16, Vec<DataValue>);

pub type Metadata = Vec<MetaField>;

/// The assignments of one type of owned right.
pub type OwnedRight = (u16, Assignments);

pub type OwnedRights = Vec<OwnedRight>;

/// Assignments of one type that a transition closes: their numbers among
/// the parent's assignments of that type.
pub type ParentRight = (u16, Vec<u16>);

/// The owned rights of one parent node that a transition closes.
pub type ParentOwned = (NodeId, Vec<ParentRight>);

/// The public rights of one parent node that an extension uses.
pub type ParentPublic = (NodeId, Vec<u16>);

pub type MetadataModel = Seq<(u16, Seq<(u8, Seq<u8>)>)>;

pub type OwnedRightsModel = Seq<(u16, AssignmentsModel)>;

pub type ParentOwnedModel = Seq<(Seq<u8>, Seq<(u16, Seq<u16>)>)>;

pub type ParentPublicModel = Seq<(Seq<u8>, Seq<u16>)>;

/// Fields of a genesis: schema, chains, metadata, owned rights, public
/// rights, script.
pub type GenesisFields = (
    [u8; 32],
    (Vec<Vec<u8>>, (Metadata, (OwnedRights, (Vec<u16>, Vec<u8>)))),
);

pub type GenesisModel = (
    Seq<u8>,
    (Seq<Seq<u8>>, (MetadataModel, (OwnedRightsModel, (Seq<u16>, Seq<u8>)))),
);

/// Fields of a transition: type, metadata, closed parent rights, owned
/// rights, public rights, script.
pub type TransitionFields = (
    u16,
    (Metadata, (Vec<ParentOwned>, (OwnedRights, (Vec<u16>, Vec<u8>)))),
);

pub type TransitionModel = (
    u16,
    (MetadataModel, (ParentOwnedModel, (OwnedRightsModel, (Seq<u16>, Seq<u8>)))),
);

/// Fields of an extension: type, contract, metadata, used parent rights,
/// owned rights, public rights, script.
pub type ExtensionFields = (
    u16,
    ([u8; 32], (Metadata, (Vec<ParentPublic>, (OwnedRights, (Vec<u16>, Vec<u8>))))),
);

pub type ExtensionModel = (
    u16,
    (Seq<u8>, (MetadataModel, (ParentPublicModel, (OwnedRightsModel, (Seq<u16>, Seq<u8>))))),
);

pub const KIND_GENESIS: u8 = 0;

pub const KIND_TRANSITION: u8 = 1;

pub const KIND_EXTENSION: u8 = 2;

/// Domain separator of node identifiers: four letters and the kind of node.
pub open spec fn node_tag(kind: u8) -> Seq<u8> {
    seq![0x72u8, 0x67, 0x62, 0x3a, kind]
}

/// The identifier of a node of the given kind and commitment encoding.
pub open spec fn node_id_of(kind: u8, commitment: Seq<u8>) -> NodeId {
    sha256_spec(node_tag(kind) + commitment)
}

/// Whether a commitment encoding is short enough to be hashed.
pub open spec fn hashable(commitment: Seq<u8>) -> bool {
    5 + commitment.len() < HASH_INPUT_LIMIT
}

/// A node of a contract's graph.
#[derive(Clone, Debug, PartialEq, Eq)]
pub struct Node<const KIND: u8, F> {
    fields: F,
    id: NodeId,
}

pub type Genesis = Node<0, GenesisFields>;

pub type Transition = Node<1, TransitionFields>;

pub type Extension = Node<2, ExtensionFields>;

impl<const KIND: u8, F: StrictEncode> StrictEncode for Node<KIND, F> {
    type Model = F::Model;

    closed spec fn model(&self) -> Self::Model {
        self.fields.model()
    }

    /// The fields can be encoded and hashed, and the identifier is the
    /// hash of their commitment encoding.
    closed spec fn wf(&self) -> bool {
        &&& self.fields.wf()
        &&& Self::encodable(self.fields.model())
        &&& self.id == node_id_of(KIND, F::ser(self.fields.model(), true))
    }

    open spec fn encodable(m: Self::Model) -> bool {
        F::encodable(m) && hashable(F::ser(m, true))
    }

    open spec fn ser(m: Self::Model, commit: bool) -> Seq<u8> {
        F::ser(m, commit)
    }

    open spec fn parse(s: Seq<u8>, pos: int) -> Option<(Self::Model, int)> {
        match F::parse(s, pos) {
            Some((m, end)) => if hashable(F::ser(m, true)) {
                Some((m, end))
            } else {
                None
            },
            None => None,
        }
    }

    proof fn lemma_parse_sound(s: Seq<u8>, pos: int) {
        F::lemma_parse_sound(s, pos);
    }

    proof fn lemma_parse_complete(s: Seq<u8>, pos: int, m: Self::Model) {
        F::lemma_parse_complete(s, pos, m);
    }

    fn write(&self, out: &mut Vec<u8>, commit: bool) -> (ok: bool) {
        self.fields.write(out, commit)
    }

    fn read(buf: &[u8], pos: usize) -> (r: Option<(Self, usize)>) {
        proof {
            F::lemma_parse_sound(buf@, pos as int);
        }
        match F::read(buf, pos) {
            Some((fields, end)) => match Self::assemble(fields) {
                Some(node) => Some((node, end)),
                None => None,
            },
            None => None,
        }
    }
}

impl<const KIND: u8, F: StrictEncode> Node<KIND, F> {
    /// The identifier that the node holds.
    pub closed spec fn id_spec(&self) -> NodeId {
        self.id
    }

    /// A valid node can be encoded, and its identifier is the hash of its
    /// commitment encoding.
    pub proof fn lemma_identity(&self)
        requires
            self.wf(),
        ensures
            Self::encodable(self.model()),
            self.id_spec() == node_id_of(KIND, F::ser(self.model(), true)),
    {
    }

    /// Makes a node of the fields and computes its identifier. Fails
    /// exactly when the fields cannot be encoded or their commitment
    /// encoding is too long to be hashed.
    pub fn assemble(fields: F) -> (r: Option<Self>)
        requires
            fields.wf(),
        ensures
            match r {
                Some(node) => node.wf() && node.model() == fields.model(),
                None => !Self::encodable(fields.model()),
            },
    {
        let mut buf: Vec<u8> = Vec::new();
        buf.push(0x72u8);
        buf.push(0x67u8);
        buf.push(0x62u8);
        buf.push(0x3au8);
        buf.push(KIND);
        assert(buf@ =~= node_tag(KIND));
        if !fields.write(&mut buf, true) {
            return None;
        }
        if buf.len() as u64 >= HASH_INPUT_LIMIT {
            return None;
        }
        let id = sha256(buf.as_slice());
        Some(Node { fields, id })
    }

    /// The node's identifier.
    pub fn node_id(&self) -> (id: NodeId)
        ensures
            id == self.id_spec(),
    {
        self.id
    }
}

/// The owned rights after a look at each seal with the known outpoints.
pub open spec fn reveal_rights(
    ms: OwnedRightsModel,
    known: Seq<OutpointReveal>,
) -> OwnedRightsModel {
    Seq::new(ms.len(), |i: int| (ms[i].0, reveal_assignments(ms[i].1, known)))
}

/// How many seals such a look reveals.
pub open spec fn count_in_rights(ms: OwnedRightsModel, known: Seq<OutpointReveal>) -> nat
    decreases ms.len(),
{
    if ms.len() == 0 {
        0
    } else {
        count_in_rights(ms.drop_last(), known) + count_in_assignments(ms.last().1, known)
    }
}

/// Revealing seals changes neither what the owned rights commit to nor
/// whether they can be encoded; a second look reveals nothing more.
pub proof fn lemma_reveal_rights(ms: OwnedRightsModel, known: Seq<OutpointReveal>)
    ensures
        ser_items::<OwnedRight>(reveal_rights(ms, known), true) == ser_items::<OwnedRight>(
            ms,
            true,
        ),
        OwnedRights::ser(reveal_rights(ms, known), true) == OwnedRights::ser(ms, true),
        OwnedRights::encodable(ms) ==> OwnedRights::encodable(reveal_rights(ms, known)),
        OwnedRights::encodable(ms) ==> count_in_rights(ms, known) <= 0xFFFF * ms.len(),
        count_in_rights(reveal_rights(ms, known), known) == 0,
        reveal_rights(reveal_rights(ms, known), known) == reveal_rights(ms, known),
    decreases ms.len(),
{
    let after = reveal_rights(ms, known);
    if ms.len() > 0 {
        lemma_reveal_rights(ms.drop_last(), known);
        assert(after.drop_last() =~= reveal_rights(ms.drop_last(), known));
        lemma_reveal_assignments(ms.last().1, known);
        if OwnedRights::encodable(ms) {
            assert(OwnedRight::encodable(ms.last()));
            assert(all_encodable::<OwnedRight>(ms.drop_last())) by {
                assert forall|i: int| 0 <= i < ms.drop_last().len() implies OwnedRight::encodable(
                    #[trigger] ms.drop_last()[i],
                ) by {
                    assert(OwnedRight::encodable(ms[i]));
                }
            }
        }
    }
    assert forall|i: int| 0 <= i < after.len() implies (#[trigger] after[i]).1
        == reveal_assignments(after[i].1, known) && (OwnedRights::encodable(ms)
        ==> OwnedRight::encodable(after[i])) by {
        lemma_reveal_assignments(ms[i].1, known);
        if OwnedRights::encodable(ms) {
            assert(OwnedRight::encodable(ms[i]));
        }
    }
    assert(reveal_rights(after, known) =~= after);
}

/// Looks at every seal of the owned rights with the known outpoints and
/// their hashes. Returns the number of seals revealed.
pub fn reveal_in_rights(
    v: &mut OwnedRights,
    known: &[OutpointReveal],
    hashes: &[OutpointHash],
) -> (count: usize)
    requires
        hashes_of(known@, hashes@),
        OwnedRights::encodable(old(v).model()),
    ensures
        final(v).model() == reveal_rights(old(v).model(), known@),
        count == count_in_rights(old(v).model(), known@),
        final(v).wf(),
{
    let n = v.len();
    let ghost before = v.model();
    let mut count: usize = 0;
    let mut i: usize = 0;
    while i < n
        invariant
            i <= n,
            n == v@.len(),
            n <= 0xFFFF,
            before == old(v).model(),
            before.len() == n,
            OwnedRights::encodable(before),
            hashes_of(known@, hashes@),
            count <= 0xFFFF * i,
            count == count_in_rights(before.take(i as int), known@),
            forall|j: int|
                0 <= j < i ==> (#[trigger] v@[j]).model() == (
                    before[j].0,
                    reveal_assignments(before[j].1, known@),
                ),
            forall|j: int| i <= j < n ==> (#[trigger] v@[j]).model() == before[j],
        decreases n - i,
    {
        let ghost prev = v@;
        proof {
            assert(OwnedRight::encodable(before[i as int]));
            lemma_reveal_assignments(before[i as int].1, known@);
        }
        let c = v[i].1.reveal_seals(known, hashes);
        proof {
            assert(forall|j: int| 0 <= j < n && j != i ==> v@[j] == prev[j]);
            assert(v@[i as int].0 == prev[i as int].0);
            assert(before.take(i + 1).drop_last() =~= before.take(i as int));
            assert(before.take(i + 1).last() == before[i as int]);
        }
        count += c;
        i += 1;
    }
    proof {
        assert(before.take(n as int) =~= before);
        assert(v.model() =~= reveal_rights(before, known@));
    }
    count
}

/// The owned rights among the fields of a genesis.
pub open spec fn genesis_owned(m: GenesisModel) -> OwnedRightsModel {
    m.1.1.1.0
}

/// The type of a transition.
pub open spec fn transition_type_of(m: TransitionModel) -> u16 {
    m.0
}

/// The parent rights that a transition closes.
pub open spec fn transition_parents(m: TransitionModel) -> ParentOwnedModel {
    m.1.1.0
}

/// The owned rights among the fields of a transition.
pub open spec fn transition_owned(m: TransitionModel) -> OwnedRightsModel {
    m.1.1.1.0
}

/// The type of an extension.
pub open spec fn extension_type_of(m: ExtensionModel) -> u16 {
    m.0
}

/// The owned rights among the fields of an extension.
pub open spec fn extension_owned(m: ExtensionModel) -> OwnedRightsModel {
    m.1.1.1.1.0
}

/// A transition after a look at each of its seals with the known
/// outpoints.
pub open spec fn reveal_transition(
    m: TransitionModel,
    known: Seq<OutpointReveal>,
) -> TransitionModel {
    (m.0, (m.1.0, (m.1.1.0, (reveal_rights(m.1.1.1.0, known), m.1.1.1.1))))
}

/// An extension after a look at each of its seals with the known
/// outpoints.
pub open spec fn reveal_extension(m: ExtensionModel, known: Seq<OutpointReveal>) -> ExtensionModel {
    (m.0, (m.1.0, (m.1.1.0, (m.1.1.1.0, (reveal_rights(m.1.1.1.1.0, known), m.1.1.1.1.1)))))
}

impl Node<0, GenesisFields> {
    /// Makes a genesis. Fails exactly when the fields cannot be encoded.
    pub fn new(
        schema_id: [u8; 32],
        chain: Vec<Vec<u8>>,
        metadata: Metadata,
        owned_rights: OwnedRights,
        public_rights: Vec<u16>,
        script: Vec<u8>,
    ) -> (r: Option<Genesis>)
        ensures
            match r {
                Some(node) => node.wf() && node.model() == (
                    schema_id@,
                    (
                        chain.model(),
                        (
                            metadata.model(),
                            (owned_rights.model(), (public_rights.model(), script.model())),
                        ),
                    ),
                ),
                None => !Genesis::encodable(
                    (
                        schema_id@,
                        (
                            chain.model(),
                            (
                                metadata.model(),
                                (owned_rights.model(), (public_rights.model(), script.model())),
                            ),
                        ),
                    ),
                ),
            },
    {
        let fields: GenesisFields = (
            schema_id,
            (chain, (metadata, (owned_rights, (public_rights, script)))),
        );
        assert(fields.wf());
        Node::assemble(fields)
    }

    pub fn schema_id(&self) -> (r: [u8; 32])
        ensures
            r@ == self.model().0,
    {
        self.fields.0
    }

    pub fn chain(&self) -> (r: &Vec<Vec<u8>>)
        ensures
            r.model() == self.model().1.0,
    {
        &self.fields.1.0
    }

    pub fn metadata(&self) -> (r: &Metadata)
        ensures
            r.model() == self.model().1.1.0,
    {
        &self.fields.1.1.0
    }

    pub fn owned_rights(&self) -> (r: &OwnedRights)
        ensures
            r.model() == genesis_owned(self.model()),
    {
        &self.fields.1.1.1.0
    }

    pub fn public_rights(&self) -> (r: &Vec<u16>)
        ensures
            r.model() == self.model().1.1.1.1.0,
    {
        &self.fields.1.1.1.1.0
    }

    pub fn script(&self) -> (r: &Vec<u8>)
        ensures
            r.model() == self.model().1.1.1.1.1,
    {
        &self.fields.1.1.1.1.1
    }
}

impl Node<1, TransitionFields> {
    /// Makes a transition. Fails exactly when the fields cannot be
    /// encoded.
    pub fn new(
        transition_type: u16,
        metadata: Metadata,
        parents: Vec<ParentOwned>,
        owned_rights: OwnedRights,
        public_rights: Vec<u16>,
        script: Vec<u8>,
    ) -> (r: Option<Transition>)
        ensures
            match r {
                Some(node) => node.wf() && node.model() == (
                    transition_type,
                    (
                        metadata.model(),
                        (
                            parents.model(),
                            (owned_rights.model(), (public_rights.model(), script.model())),
                        ),
                    ),
                ),
                None => !Transition::encodable(
                    (
                        transition_type,
                        (
                            metadata.model(),
                            (
                                parents.model(),
                                (owned_rights.model(), (public_rights.model(), script.model())),
                            ),
                        ),
                    ),
                ),
            },
    {
        let fields: TransitionFields = (
            transition_type,
            (metadata, (parents, (owned_rights, (public_rights, script)))),
        );
        assert(fields.wf());
        Node::assemble(fields)
    }

    pub fn transition_type(&self) -> (r: u16)
        ensures
            r == transition_type_of(self.model()),
    {
        self.fields.0
    }

    pub fn metadata(&self) -> (r: &Metadata)
        ensures
            r.model() == self.model().1.0,
    {
        &self.fields.1.0
    }

    pub fn parents(&self) -> (r: &Vec<ParentOwned>)
        ensures
            r.model() == transition_parents(self.model()),
    {
        &self.fields.1.1.0
    }

    pub fn owned_rights(&self) -> (r: &OwnedRights)
        ensures
            r.model() == transition_owned(self.model()),
    {
        &self.fields.1.1.1.0
    }

    pub fn public_rights(&self) -> (r: &Vec<u16>)
        ensures
            r.model() == self.model().1.1.1.1.0,
    {
        &self.fields.1.1.1.1.0
    }

    pub fn script(&self) -> (r: &Vec<u8>)
        ensures
            r.model() == self.model().1.1.1.1.1,
    {
        &self.fields.1.1.1.1.1
    }

    /// Looks at every seal of the transition with the known outpoints and
    /// their hashes: each concealed seal whose hash is that of a known
    /// outpoint becomes that outpoint. Returns the number of seals
    /// revealed. The identifier stays what it was.
    pub fn reveal_seals_with(
        &mut self,
        known: &[OutpointReveal],
        hashes: &[OutpointHash],
    ) -> (count: usize)
        requires
            old(self).wf(),
            hashes_of(known@, hashes@),
        ensures
            final(self).wf(),
            final(self).id_spec() == old(self).id_spec(),
            final(self).model() == reveal_transition(old(self).model(), known@),
            count == count_in_rights(transition_owned(old(self).model()), known@),
    {
        proof {
            lemma_reveal_rights(transition_owned(self.model()), known@);
        }
        reveal_in_rights(&mut self.fields.1.1.1.0, known, hashes)
    }

    /// Looks at every seal of the transition with the known outpoints.
    pub fn reveal_seals(&mut self, known: &[OutpointReveal]) -> (count: usize)
        requires
            old(self).wf(),
        ensures
            final(self).wf(),
            final(self).id_spec() == old(self).id_spec(),
            final(self).model() == reveal_transition(old(self).model(), known@),
            count == count_in_rights(transition_owned(old(self).model()), known@),
    {
        let hashes = conceal_all(known);
        self.reveal_seals_with(known, hashes.as_slice())
    }
}

impl Node<2, ExtensionFields> {
    /// Makes an extension. Fails exactly when the fields cannot be
    /// encoded.
    pub fn new(
        extension_type: u16,
        contract_id: NodeId,
        metadata: Metadata,
        parents: Vec<ParentPublic>,
        owned_rights: OwnedRights,
        public_rights: Vec<u16>,
        script: Vec<u8>,
    ) -> (r: Option<Extension>)
        ensures
            match r {
                Some(node) => node.wf() && node.model() == (
                    extension_type,
                    (
                        contract_id@,
                        (
                            metadata.model(),
                            (
                                parents.model(),
                                (owned_rights.model(), (public_rights.model(), script.model())),
                            ),
                        ),
                    ),
                ),
                None => !Extension::encodable(
                    (
                        extension_type,
                        (
                            contract_id@,
                            (
                                metadata.model(),
                                (
                                    parents.model(),
                                    (
                                        owned_rights.model(),
                                        (public_rights.model(), script.model()),
                                    ),
                                ),
                            ),
                        ),
                    ),
                ),
            },
    {
        let fields: ExtensionFields = (
            extension_type,
            (contract_id, (metadata, (parents, (owned_rights, (public_rights, script))))),
        );
        assert(fields.wf());
        Node::assemble(fields)
    }

    pub fn extension_type(&self) -> (r: u16)
        ensures
            r == extension_type_of(self.model()),
    {
        self.fields.0
    }

    pub fn contract_id(&self) -> (r: NodeId)
        ensures
            r@ == self.model().1.0,
    {
        self.fields.1.0
    }

    pub fn metadata(&self) -> (r: &Metadata)
        ensures
            r.model() == self.model().1.1.0,
    {
        &self.fields.1.1.0
    }

    pub fn parents(&self) -> (r: &Vec<ParentPublic>)
        ensures
            r.model() == self.model().1.1.1.0,
    {
        &self.fields.1.1.1.0
    }

    pub fn owned_rights(&self) -> (r: &OwnedRights)
        ensures
            r.model() == extension_owned(self.model()),
    {
        &self.fields.1.1.1.1.0
    }

    pub fn public_rights(&self) -> (r: &Vec<u16>)
        ensures
            r.model() == self.model().1.1.1.1.1.0,
    {
        &self.fields.1.1.1.1.1.0
    }

    pub fn script(&self) -> (r: &Vec<u8>)
        ensures
            r.model() == self.model().1.1.1.1.1.1,
    {
        &self.fields.1.1.1.1.1.1
    }

    /// Looks at every seal of the extension with the known outpoints and
    /// their hashes: each concealed seal whose hash is that of a known
    /// outpoint becomes that outpoint. Returns the number of seals
    /// revealed. The identifier stays what it was.
    pub fn reveal_seals_with(
        &mut self,
        known: &[OutpointReveal],
        hashes: &[OutpointHash],
    ) -> (count: usize)
        requires
            old(self).wf(),
            hashes_of(known@, hashes@),
        ensures
            final(self).wf(),
            final(self).id_spec() == old(self).id_spec(),
            final(self).model() == reveal_extension(old(self).model(), known@),
            count == count_in_rights(extension_owned(old(self).model()), known@),
    {
        proof {
            lemma_reveal_rights(extension_owned(self.model()), known@);
        }
        reveal_in_rights(&mut self.fields.1.1.1.1.0, known, hashes)
    }

    /// Looks at every seal of the extension with the known outpoints.
    pub fn reveal_seals(&mut self, known: &[OutpointReveal]) -> (count: usize)
        requires
            old(self).wf(),
        ensures
            final(self).wf(),
            final(self).id_spec() == old(self).id_spec(),
            final(self).model() == reveal_extension(old(self).model(), known@),
            count == count_in_rights(extension_owned(old(self).model()), known@),
    {
        let hashes = conceal_all(known);
        self.reveal_seals_with(known, hashes.as_slice())
    }
}

/// A node that is read from the encoding of a valid node has that node's
/// fields and its identifier.
pub proof fn lemma_node_id_stable<const KIND: u8, F: StrictEncode>(
    sent: Node<KIND, F>,
    received: Node<KIND, F>,
)
    requires
        sent.wf(),
        received.wf(),
        Node::<KIND, F>::parse(Node::<KIND, F>::ser(sent.model(), false), 0) == Some(
            (received.model(), Node::<KIND, F>::ser(sent.model(), false).len() as int),
        ),
    ensures
        received.model() == sent.model(),
        received.id_spec() == sent.id_spec(),
{
    sent.lemma_identity();
    received.lemma_identity();
    crate::strict_encoding::lemma_round_trip::<Node<KIND, F>>(sent.model());
}

} // verus!
