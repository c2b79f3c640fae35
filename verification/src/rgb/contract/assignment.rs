//! Assignments of rights to seals.
//!
//! An assignment binds a state to a seal. Either half may be concealed; the
//! encoding starts with one byte that says which.

use crate::bp::blind::{OutpointHash, OutpointReveal};
use crate::rgb::contract::data::{Amount, DataValue, Void, TAG_U64};
use crate::rgb::contract::seal::{
    hashes_of, is_revealed_by, lemma_reveal_idempotent,
    lemma_reveal_keeps_commitment, lemma_seal_complete, lemma_seal_sound, parse_seal,
    reveal_seal, seal_encodable, seal_ser, Seal, SealModel,
};
use crate::strict_encoding::{all_encodable, ser_items, StrictEncode};
use vstd::prelude::*;

verus! {

/// A state in the clear or concealed.
#[derive(Clone, Debug, PartialEq, Eq)]
pub enum State<R, C> {
    Revealed(R),
    Concealed(C),
}

#[derive(Clone, Debug, PartialEq, Eq)]
pub struct Assignment<R, C> {
    pub seal: Seal,
    pub state: State<R, C>,
}

/// Commitment to an amount, with the proof that the amount is in range.
#[derive(Clone, Debug, PartialEq, Eq)]
pub struct AmountCommitment {
    pub commitment: Vec<u8>,
    pub rangeproof: Vec<u8>,
}

impl StrictEncode for AmountCommitment {
    type Model = (Seq<u8>, Seq<u8>);

    open spec fn model(&self) -> Self::Model {
        (self.commitment.model(), self.rangeproof.model())
    }

    open spec fn wf(&self) -> bool {
        true
    }

    open spec fn encodable(m: Self::Model) -> bool {
        <(Vec<u8>, Vec<u8>)>::encodable(m)
    }

    open spec fn ser(m: Self::Model, commit: bool) -> Seq<u8> {
        <(Vec<u8>, Vec<u8>)>::ser(m, commit)
    }

    open spec fn parse(s: Seq<u8>, pos: int) -> Option<(Self::Model, int)> {
        <(Vec<u8>, Vec<u8>)>::parse(s, pos)
    }

    proof fn lemma_parse_sound(s: Seq<u8>, pos: int) {
        <(Vec<u8>, Vec<u8>)>::lemma_parse_sound(s, pos);
    }

    proof fn lemma_parse_complete(s: Seq<u8>, pos: int, m: Self::Model) {
        <(Vec<u8>, Vec<u8>)>::lemma_parse_complete(s, pos, m);
    }

    fn write(&self, out: &mut Vec<u8>, commit: bool) -> (ok: bool) {
        if !self.commitment.write(out, commit) {
            return false;
        }
        let ok = self.rangeproof.write(out, commit);
        assert(ok ==> out@ =~= old(out)@ + Self::ser(self.model(), commit));
        ok
    }

    fn read(buf: &[u8], pos: usize) -> (r: Option<(Self, usize)>) {
        match <(Vec<u8>, Vec<u8>)>::read(buf, pos) {
            Some(((commitment, rangeproof), end)) => Some(
                (AmountCommitment { commitment, rangeproof }, end),
            ),
            None => None,
        }
    }
}

pub open spec fn state_model<R: StrictEncode, C: StrictEncode>(s: State<R, C>) -> State<
    R::Model,
    C::Model,
> {
    match s {
        State::Revealed(r) => State::Revealed(r.model()),
        State::Concealed(c) => State::Concealed(c.model()),
    }
}

pub open spec fn state_encodable<R: StrictEncode, C: StrictEncode>(
    m: State<R::Model, C::Model>,
) -> bool {
    match m {
        State::Revealed(r) => R::encodable(r),
        State::Concealed(c) => C::encodable(c),
    }
}

pub open spec fn state_ser<R: StrictEncode, C: StrictEncode>(
    m: State<R::Model, C::Model>,
    commit: bool,
) -> Seq<u8> {
    match m {
        State::Revealed(r) => R::ser(r, commit),
        State::Concealed(c) => C::ser(c, commit),
    }
}

pub open spec fn parse_state<R: StrictEncode, C: StrictEncode>(
    s: Seq<u8>,
    pos: int,
    revealed: bool,
) -> Option<(State<R::Model, C::Model>, int)> {
    if revealed {
        match R::parse(s, pos) {
            Some((r, end)) => Some((State::Revealed(r), end)),
            None => None,
        }
    } else {
        match C::parse(s, pos) {
            Some((c, end)) => Some((State::Concealed(c), end)),
            None => None,
        }
    }
}

/// The first byte of an assignment: 0 when seal and state are concealed,
/// 1 when both are in the clear, 2 when only the seal is concealed, 3 when
/// only the state is.
pub open spec fn kind_of(seal_revealed: bool, state_revealed: bool) -> u8 {
    if seal_revealed {
        if state_revealed {
            1
        } else {
            3
        }
    } else {
        if state_revealed {
            2
        } else {
            0
        }
    }
}

impl<R: StrictEncode, C: StrictEncode> StrictEncode for Assignment<R, C> {
    type Model = (SealModel, State<R::Model, C::Model>);

    open spec fn model(&self) -> Self::Model {
        (self.seal.model(), state_model(self.state))
    }

    open spec fn wf(&self) -> bool {
        match self.state {
            State::Revealed(r) => r.wf(),
            State::Concealed(c) => c.wf(),
        }
    }

    open spec fn encodable(m: Self::Model) -> bool {
        seal_encodable(m.0) && state_encodable::<R, C>(m.1)
    }

    /// For commitment the seal is written concealed, whatever its form.
    open spec fn ser(m: Self::Model, commit: bool) -> Seq<u8> {
        seq![kind_of(!commit && m.0 is Revealed, m.1 is Revealed)] + seal_ser(m.0, commit)
            + state_ser::<R, C>(m.1, commit)
    }

    open spec fn parse(s: Seq<u8>, pos: int) -> Option<(Self::Model, int)> {
        if 0 <= pos < s.len() && s[pos] <= 3 {
            let k = s[pos];
            match parse_seal(s, pos + 1, k == 1 || k == 3) {
                Some((seal, mid)) => match parse_state::<R, C>(s, mid, k == 1 || k == 2) {
                    Some((state, end)) => Some(((seal, state), end)),
                    None => None,
                },
                None => None,
            }
        } else {
            None
        }
    }

    proof fn lemma_parse_sound(s: Seq<u8>, pos: int) {
        if pos < s.len() && s[pos] <= 3 {
            let k = s[pos];
            lemma_seal_sound(s, pos + 1, k == 1 || k == 3);
            if let Some((seal, mid)) = parse_seal(s, pos + 1, k == 1 || k == 3) {
                R::lemma_parse_sound(s, mid);
                C::lemma_parse_sound(s, mid);
                if let Some((state, end)) = parse_state::<R, C>(s, mid, k == 1 || k == 2) {
                    assert(s.subrange(pos, end) =~= seq![k] + s.subrange(pos + 1, mid)
                        + s.subrange(mid, end));
                }
            }
        }
    }

    proof fn lemma_parse_complete(s: Seq<u8>, pos: int, m: Self::Model) {
        let enc = Self::ser(m, false);
        let ss = seal_ser(m.0, false);
        let st = state_ser::<R, C>(m.1, false);
        let t = s.subrange(pos, pos + enc.len());
        let mid = pos + 1 + ss.len();
        assert(t[0] == s[pos]);
        assert(s.subrange(pos + 1, mid) =~= ss) by {
            assert(s.subrange(pos + 1, mid) =~= t.subrange(1, (1 + ss.len()) as int));
        }
        assert(s.subrange(mid, mid + st.len()) =~= st) by {
            assert(s.subrange(mid, mid + st.len()) =~= t.subrange(
                (1 + ss.len()) as int,
                (1 + ss.len() + st.len()) as int,
            ));
        }
        lemma_seal_complete(s, pos + 1, m.0);
        match m.1 {
            State::Revealed(r) => {
                R::lemma_parse_complete(s, mid, r);
            },
            State::Concealed(c) => {
                C::lemma_parse_complete(s, mid, c);
            },
        }
    }

    fn write(&self, out: &mut Vec<u8>, commit: bool) -> (ok: bool) {
        let seal_revealed = match self.seal {
            Seal::Revealed(_) => !commit,
            Seal::Concealed(_) => false,
        };
        let kind: u8 = match &self.state {
            State::Revealed(_) => if seal_revealed {
                1
            } else {
                2
            },
            State::Concealed(_) => if seal_revealed {
                3
            } else {
                0
            },
        };
        out.push(kind);
        self.seal.write(out, commit);
        let ok = match &self.state {
            State::Revealed(r) => r.write(out, commit),
            State::Concealed(c) => c.write(out, commit),
        };
        assert(ok ==> out@ =~= old(out)@ + Self::ser(self.model(), commit));
        ok
    }

    fn read(buf: &[u8], pos: usize) -> (r: Option<(Self, usize)>) {
        if pos >= buf.len() {
            return None;
        }
        let k = buf[pos];
        if k > 3 {
            return None;
        }
        proof {
            lemma_seal_sound(buf@, pos + 1, k == 1 || k == 3);
        }
        let (seal, mid) = match Seal::read(buf, pos + 1, k == 1 || k == 3) {
            Some(x) => x,
            None => { return None; },
        };
        if k == 1 || k == 2 {
            match R::read(buf, mid) {
                Some((r, end)) => Some((Assignment { seal, state: State::Revealed(r) }, end)),
                None => None,
            }
        } else {
            match C::read(buf, mid) {
                Some((c, end)) => Some((Assignment { seal, state: State::Concealed(c) }, end)),
                None => None,
            }
        }
    }
}

/// An assignment after a look at its seal with the known outpoints.
pub open spec fn reveal_one<RM, CM>(m: (SealModel, State<RM, CM>), known: Seq<OutpointReveal>) -> (
    SealModel,
    State<RM, CM>,
) {
    (reveal_seal(m.0, known), m.1)
}

/// A list of assignments after a look at each seal.
pub open spec fn reveal_each<RM, CM>(
    ms: Seq<(SealModel, State<RM, CM>)>,
    known: Seq<OutpointReveal>,
) -> Seq<(SealModel, State<RM, CM>)> {
    Seq::new(ms.len(), |i: int| reveal_one(ms[i], known))
}

/// How many seals of the list such a look reveals.
pub open spec fn count_revealed<RM, CM>(
    ms: Seq<(SealModel, State<RM, CM>)>,
    known: Seq<OutpointReveal>,
) -> nat
    decreases ms.len(),
{
    if ms.len() == 0 {
        0
    } else {
        count_revealed(ms.drop_last(), known) + if is_revealed_by(ms.last().0, known) {
            1nat
        } else {
            0nat
        }
    }
}

pub proof fn lemma_count_bound<RM, CM>(
    ms: Seq<(SealModel, State<RM, CM>)>,
    known: Seq<OutpointReveal>,
)
    ensures
        count_revealed(ms, known) <= ms.len(),
    decreases ms.len(),
{
    if ms.len() > 0 {
        lemma_count_bound(ms.drop_last(), known);
    }
}

/// Revealing seals changes neither what a list of assignments commits to
/// nor whether it can be encoded.
pub proof fn lemma_reveal_each_commitment<R: StrictEncode, C: StrictEncode>(
    ms: Seq<(SealModel, State<R::Model, C::Model>)>,
    known: Seq<OutpointReveal>,
)
    ensures
        ser_items::<Assignment<R, C>>(reveal_each(ms, known), true) == ser_items::<
            Assignment<R, C>,
        >(ms, true),
        all_encodable::<Assignment<R, C>>(ms) ==> all_encodable::<Assignment<R, C>>(
            reveal_each(ms, known),
        ),
    decreases ms.len(),
{
    let after = reveal_each(ms, known);
    if ms.len() > 0 {
        lemma_reveal_each_commitment::<R, C>(ms.drop_last(), known);
        assert(after.drop_last() =~= reveal_each(ms.drop_last(), known));
        lemma_reveal_keeps_commitment(ms.last().0, known);
    }
    if all_encodable::<Assignment<R, C>>(ms) {
        assert forall|i: int| 0 <= i < after.len() implies Assignment::<R, C>::encodable(
            #[trigger] after[i],
        ) by {
            lemma_reveal_keeps_commitment(ms[i].0, known);
            assert(Assignment::<R, C>::encodable(ms[i]));
        }
    }
}

/// A second look with the same outpoints reveals nothing and changes
/// nothing.
pub proof fn lemma_reveal_each_idempotent<RM, CM>(
    ms: Seq<(SealModel, State<RM, CM>)>,
    known: Seq<OutpointReveal>,
)
    ensures
        count_revealed(reveal_each(ms, known), known) == 0,
        reveal_each(reveal_each(ms, known), known) == reveal_each(ms, known),
    decreases ms.len(),
{
    let after = reveal_each(ms, known);
    if ms.len() > 0 {
        lemma_reveal_each_idempotent(ms.drop_last(), known);
        assert(after.drop_last() =~= reveal_each(ms.drop_last(), known));
        lemma_reveal_idempotent(ms.last().0, known);
    }
    assert forall|i: int| 0 <= i < after.len() implies reveal_one(#[trigger] after[i], known)
        == after[i] by {
        lemma_reveal_idempotent(ms[i].0, known);
    }
    assert(reveal_each(after, known) =~= after);
}

/// Looks at every seal of the list with the known outpoints and their
/// hashes. Returns the number of seals revealed.
pub fn reveal_list<R: StrictEncode, C: StrictEncode>(
    v: &mut Vec<Assignment<R, C>>,
    known: &[OutpointReveal],
    hashes: &[OutpointHash],
) -> (count: usize)
    requires
        hashes_of(known@, hashes@),
    ensures
        final(v).model() == reveal_each(old(v).model(), known@),
        count == count_revealed(old(v).model(), known@),
        old(v).wf() ==> final(v).wf(),
{
    let n = v.len();
    let ghost before = v.model();
    let mut count: usize = 0;
    let mut i: usize = 0;
    while i < n
        invariant
            i <= n,
            n == v@.len(),
            before == old(v).model(),
            before.len() == n,
            hashes_of(known@, hashes@),
            count <= i,
            count == count_revealed(before.take(i as int), known@),
            v@.len() == old(v)@.len(),
            forall|j: int| 0 <= j < n ==> (#[trigger] v@[j]).state == old(v)@[j].state,
            forall|j: int| 0 <= j < i ==> (#[trigger] v@[j]).model() == reveal_one(before[j], known@),
            forall|j: int| i <= j < n ==> (#[trigger] v@[j]).model() == before[j],
        decreases n - i,
    {
        let ghost prev = v@;
        let done = v[i].seal.reveal_known(known, hashes);
        proof {
            assert(v@.len() == n);
            assert(forall|j: int| 0 <= j < n && j != i ==> v@[j] == prev[j]);
            assert(v@[i as int].state == prev[i as int].state);
            assert(before.take(i + 1).drop_last() =~= before.take(i as int));
            assert(before.take(i + 1).last() == before[i as int]);
        }
        if done {
            count += 1;
        }
        i += 1;
    }
    proof {
        assert(before.take(n as int) =~= before);
        assert(v.model() =~= reveal_each(before, known@));
    }
    count
}

/// The assignments of one type of right: all of them carry the same kind
/// of state.
#[derive(Clone, Debug, PartialEq, Eq)]
pub enum Assignments {
    /// Rights without data.
    Declarative(Vec<Assignment<Void, Void>>),
    /// Rights that carry an amount.
    Field(Vec<Assignment<Amount, AmountCommitment>>),
    /// Rights that carry a value.
    Data(Vec<Assignment<DataValue, [u8; 32]>>),
}

pub type DeclarativeModel = (SealModel, State<(), ()>);

pub type FieldModel = (SealModel, State<(u64, Seq<u8>), (Seq<u8>, Seq<u8>)>);

pub type DataModel = (SealModel, State<(u8, Seq<u8>), Seq<u8>>);

pub enum AssignmentsModel {
    Declarative(Seq<DeclarativeModel>),
    Field(Seq<FieldModel>),
    Data(Seq<DataModel>),
}

/// Kind of state that the assignments of a right carry.
pub const STATE_DECLARATIVE: u8 = 0;

pub const STATE_FIELD: u8 = 1;

pub const STATE_DATA: u8 = 2;

/// A list read behind `skip` leading bytes is the encoding that follows
/// those bytes.
pub proof fn lemma_list_behind_sound<T: StrictEncode>(s: Seq<u8>, pos: int, skip: int)
    requires
        0 <= pos,
        0 <= skip,
        pos + skip <= s.len(),
    ensures
        Vec::<T>::parse(s, pos + skip) matches Some((v, end)) ==> pos + skip <= end <= s.len()
            && Vec::<T>::encodable(v) && s.subrange(pos, end) == s.subrange(pos, pos + skip)
            + Vec::<T>::ser(v, false),
{
    Vec::<T>::lemma_parse_sound(s, pos + skip);
    if let Some((v, end)) = Vec::<T>::parse(s, pos + skip) {
        assert(s.subrange(pos, end) =~= s.subrange(pos, pos + skip) + s.subrange(pos + skip, end));
    }
}

/// Where some leading bytes and the encoding of a list stand, the bytes
/// are found and the list is read behind them.
pub proof fn lemma_list_behind_complete<T: StrictEncode>(
    s: Seq<u8>,
    pos: int,
    lead: Seq<u8>,
    v: Seq<T::Model>,
)
    requires
        0 <= pos,
        pos + lead.len() + Vec::<T>::ser(v, false).len() <= s.len(),
        Vec::<T>::encodable(v),
        s.subrange(pos, pos + lead.len() + Vec::<T>::ser(v, false).len()) == lead + Vec::<T>::ser(
            v,
            false,
        ),
    ensures
        forall|i: int| 0 <= i < lead.len() ==> s[pos + i] == lead[i],
        Vec::<T>::parse(s, pos + lead.len()) == Some(
            (v, pos + lead.len() + Vec::<T>::ser(v, false).len()),
        ),
{
    let sv = Vec::<T>::ser(v, false);
    let t = s.subrange(pos, pos + lead.len() + sv.len());
    assert forall|i: int| 0 <= i < lead.len() implies s[pos + i] == lead[i] by {
        assert(t[i] == s[pos + i]);
    }
    assert(s.subrange(pos + lead.len(), pos + lead.len() + sv.len()) =~= sv) by {
        assert(s.subrange(pos + lead.len(), pos + lead.len() + sv.len()) =~= t.subrange(
            lead.len() as int,
            (lead.len() + sv.len()) as int,
        ));
    }
    Vec::<T>::lemma_parse_complete(s, pos + lead.len(), v);
}

impl StrictEncode for Assignments {
    type Model = AssignmentsModel;

    open spec fn model(&self) -> Self::Model {
        match *self {
            Assignments::Declarative(v) => AssignmentsModel::Declarative(v.model()),
            Assignments::Field(v) => AssignmentsModel::Field(v.model()),
            Assignments::Data(v) => AssignmentsModel::Data(v.model()),
        }
    }

    open spec fn wf(&self) -> bool {
        true
    }

    open spec fn encodable(m: Self::Model) -> bool {
        match m {
            AssignmentsModel::Declarative(v) => Vec::<Assignment<Void, Void>>::encodable(v),
            AssignmentsModel::Field(v) => Vec::<Assignment<Amount, AmountCommitment>>::encodable(
                v,
            ),
            AssignmentsModel::Data(v) => Vec::<Assignment<DataValue, [u8; 32]>>::encodable(v),
        }
    }

    /// The kind of state, for amounts also the tag of their type, then the
    /// list.
    open spec fn ser(m: Self::Model, commit: bool) -> Seq<u8> {
        match m {
            AssignmentsModel::Declarative(v) => seq![STATE_DECLARATIVE] + Vec::<
                Assignment<Void, Void>,
            >::ser(v, commit),
            AssignmentsModel::Field(v) => seq![STATE_FIELD, TAG_U64] + Vec::<
                Assignment<Amount, AmountCommitment>,
            >::ser(v, commit),
            AssignmentsModel::Data(v) => seq![STATE_DATA] + Vec::<
                Assignment<DataValue, [u8; 32]>,
            >::ser(v, commit),
        }
    }

    open spec fn parse(s: Seq<u8>, pos: int) -> Option<(Self::Model, int)> {
        if 0 <= pos < s.len() {
            if s[pos] == STATE_DECLARATIVE {
                match Vec::<Assignment<Void, Void>>::parse(s, pos + 1) {
                    Some((v, end)) => Some((AssignmentsModel::Declarative(v), end)),
                    None => None,
                }
            } else if s[pos] == STATE_FIELD {
                if pos + 1 < s.len() && s[pos + 1] == TAG_U64 {
                    match Vec::<Assignment<Amount, AmountCommitment>>::parse(s, pos + 2) {
                        Some((v, end)) => Some((AssignmentsModel::Field(v), end)),
                        None => None,
                    }
                } else {
                    None
                }
            } else if s[pos] == STATE_DATA {
                match Vec::<Assignment<DataValue, [u8; 32]>>::parse(s, pos + 1) {
                    Some((v, end)) => Some((AssignmentsModel::Data(v), end)),
                    None => None,
                }
            } else {
                None
            }
        } else {
            None
        }
    }

    proof fn lemma_parse_sound(s: Seq<u8>, pos: int) {
        if pos < s.len() {
            if s[pos] == STATE_DECLARATIVE {
                lemma_list_behind_sound::<Assignment<Void, Void>>(s, pos, 1);
                assert(s.subrange(pos, pos + 1) =~= seq![STATE_DECLARATIVE]);
            } else if s[pos] == STATE_FIELD {
                if pos + 1 < s.len() && s[pos + 1] == TAG_U64 {
                    lemma_list_behind_sound::<Assignment<Amount, AmountCommitment>>(s, pos, 2);
                    assert(s.subrange(pos, pos + 2) =~= seq![STATE_FIELD, TAG_U64]);
                }
            } else if s[pos] == STATE_DATA {
                lemma_list_behind_sound::<Assignment<DataValue, [u8; 32]>>(s, pos, 1);
                assert(s.subrange(pos, pos + 1) =~= seq![STATE_DATA]);
            }
        }
    }

    proof fn lemma_parse_complete(s: Seq<u8>, pos: int, m: Self::Model) {
        match m {
            AssignmentsModel::Declarative(v) => {
                lemma_list_behind_complete::<Assignment<Void, Void>>(
                    s,
                    pos,
                    seq![STATE_DECLARATIVE],
                    v,
                );
                assert(s[pos + 0] == seq![STATE_DECLARATIVE][0]);
            },
            AssignmentsModel::Field(v) => {
                lemma_list_behind_complete::<Assignment<Amount, AmountCommitment>>(
                    s,
                    pos,
                    seq![STATE_FIELD, TAG_U64],
                    v,
                );
                assert(s[pos + 0] == seq![STATE_FIELD, TAG_U64][0]);
                assert(s[pos + 1] == seq![STATE_FIELD, TAG_U64][1]);
            },
            AssignmentsModel::Data(v) => {
                lemma_list_behind_complete::<Assignment<DataValue, [u8; 32]>>(
                    s,
                    pos,
                    seq![STATE_DATA],
                    v,
                );
                assert(s[pos + 0] == seq![STATE_DATA][0]);
            },
        }
    }

    fn write(&self, out: &mut Vec<u8>, commit: bool) -> (ok: bool) {
        match self {
            Assignments::Declarative(v) => {
                out.push(STATE_DECLARATIVE);
                let ok = v.write(out, commit);
                assert(ok ==> out@ =~= old(out)@ + Self::ser(self.model(), commit));
                ok
            },
            Assignments::Field(v) => {
                out.push(STATE_FIELD);
                out.push(TAG_U64);
                let ok = v.write(out, commit);
                assert(ok ==> out@ =~= old(out)@ + Self::ser(self.model(), commit));
                ok
            },
            Assignments::Data(v) => {
                out.push(STATE_DATA);
                let ok = v.write(out, commit);
                assert(ok ==> out@ =~= old(out)@ + Self::ser(self.model(), commit));
                ok
            },
        }
    }

    fn read(buf: &[u8], pos: usize) -> (r: Option<(Self, usize)>) {
        let len = buf.len();
        if pos >= len {
            return None;
        }
        let kind = buf[pos];
        if kind == STATE_DECLARATIVE {
            match Vec::<Assignment<Void, Void>>::read(buf, pos + 1) {
                Some((v, end)) => Some((Assignments::Declarative(v), end)),
                None => None,
            }
        } else if kind == STATE_FIELD {
            if len - pos < 2 || buf[pos + 1] != TAG_U64 {
                return None;
            }
            match Vec::<Assignment<Amount, AmountCommitment>>::read(buf, pos + 2) {
                Some((v, end)) => Some((Assignments::Field(v), end)),
                None => None,
            }
        } else if kind == STATE_DATA {
            match Vec::<Assignment<DataValue, [u8; 32]>>::read(buf, pos + 1) {
                Some((v, end)) => Some((Assignments::Data(v), end)),
                None => None,
            }
        } else {
            None
        }
    }
}

/// The assignments after a look at each seal with the known outpoints.
pub open spec fn reveal_assignments(
    m: AssignmentsModel,
    known: Seq<OutpointReveal>,
) -> AssignmentsModel {
    match m {
        AssignmentsModel::Declarative(v) => AssignmentsModel::Declarative(reveal_each(v, known)),
        AssignmentsModel::Field(v) => AssignmentsModel::Field(reveal_each(v, known)),
        AssignmentsModel::Data(v) => AssignmentsModel::Data(reveal_each(v, known)),
    }
}

/// How many seals such a look reveals.
pub open spec fn count_in_assignments(m: AssignmentsModel, known: Seq<OutpointReveal>) -> nat {
    match m {
        AssignmentsModel::Declarative(v) => count_revealed(v, known),
        AssignmentsModel::Field(v) => count_revealed(v, known),
        AssignmentsModel::Data(v) => count_revealed(v, known),
    }
}

/// The number of assignments.
pub open spec fn assignments_len(m: AssignmentsModel) -> nat {
    match m {
        AssignmentsModel::Declarative(v) => v.len(),
        AssignmentsModel::Field(v) => v.len(),
        AssignmentsModel::Data(v) => v.len(),
    }
}

pub proof fn lemma_reveal_assignments(m: AssignmentsModel, known: Seq<OutpointReveal>)
    ensures
        Assignments::ser(reveal_assignments(m, known), true) == Assignments::ser(m, true),
        Assignments::encodable(m) ==> Assignments::encodable(reveal_assignments(m, known)),
        count_in_assignments(m, known) <= assignments_len(m),
        assignments_len(reveal_assignments(m, known)) == assignments_len(m),
        count_in_assignments(reveal_assignments(m, known), known) == 0,
        reveal_assignments(reveal_assignments(m, known), known) == reveal_assignments(m, known),
{
    match m {
        AssignmentsModel::Declarative(v) => {
            lemma_reveal_each_commitment::<Void, Void>(v, known);
            lemma_reveal_each_idempotent(v, known);
            lemma_count_bound(v, known);
        },
        AssignmentsModel::Field(v) => {
            lemma_reveal_each_commitment::<Amount, AmountCommitment>(v, known);
            lemma_reveal_each_idempotent(v, known);
            lemma_count_bound(v, known);
        },
        AssignmentsModel::Data(v) => {
            lemma_reveal_each_commitment::<DataValue, [u8; 32]>(v, known);
            lemma_reveal_each_idempotent(v, known);
            lemma_count_bound(v, known);
        },
    }
}

impl Assignments {
    /// Looks at every seal with the known outpoints and their hashes.
    /// Returns the number of seals revealed.
    pub fn reveal_seals(&mut self, known: &[OutpointReveal], hashes: &[OutpointHash]) -> (count:
        usize)
        requires
            hashes_of(known@, hashes@),
        ensures
            final(self).model() == reveal_assignments(old(self).model(), known@),
            count == count_in_assignments(old(self).model(), known@),
    {
        match self {
            Assignments::Declarative(v) => reveal_list(v, known, hashes),
            Assignments::Field(v) => reveal_list(v, known, hashes),
            Assignments::Data(v) => reveal_list(v, known, hashes),
        }
    }

    /// The number of assignments.
    pub fn len(&self) -> (n: usize)
        ensures
            n == assignments_len(self.model()),
    {
        match self {
            Assignments::Declarative(v) => v.len(),
            Assignments::Field(v) => v.len(),
            Assignments::Data(v) => v.len(),
        }
    }

    /// Kind of state that the assignments carry.
    pub fn state_kind(&self) -> (k: u8)
        ensures
            k == state_kind_of(self.model()),
    {
        match self {
            Assignments::Declarative(_) => STATE_DECLARATIVE,
            Assignments::Field(_) => STATE_FIELD,
            Assignments::Data(_) => STATE_DATA,
        }
    }
}

pub open spec fn state_kind_of(m: AssignmentsModel) -> u8 {
    match m {
        AssignmentsModel::Declarative(_) => STATE_DECLARATIVE,
        AssignmentsModel::Field(_) => STATE_FIELD,
        AssignmentsModel::Data(_) => STATE_DATA,
    }
}

} // verus!
