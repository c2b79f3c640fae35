//! Commitment into a script: where the script holds a key, the first such
//! key takes the tweak; where it holds none, a data carrier with a digest
//! of the commitment is appended.

use crate::bp::dbc::error::Error;
use crate::bp::dbc::pubkey::{
    pubkey_commit_spec, CommitmentValue, ProtocolTag, PubkeyBytes, PubkeyContainer, PubkeyProof,
};
use crate::bp::dbc::digests::{lemma_array_eq, sha256, sha256_spec, slices_eq, HASH_INPUT_LIMIT};
use crate::strict_encoding::{get_u16, get_u32, put_bytes, u16_at, u32_at};
use vstd::prelude::*;

verus! {

pub const OP_PUSHDATA1: u8 = 0x4c;

pub const OP_PUSHDATA2: u8 = 0x4d;

pub const OP_PUSHDATA4: u8 = 0x4e;

pub const OP_RETURN: u8 = 0x6a;

/// The opcode that pushes the 33 bytes behind it.
pub const OP_PUSHBYTES_33: u8 = 33;

/// Room that the hashed messages need beside the script itself.
pub const SCRIPT_HEADROOM: u64 = 128;

/// The instruction at `pos`: where its data starts and how long the data
/// is (nothing for an opcode that pushes none). No instruction where the
/// script ends inside the opcode's length field or inside its data.
pub open spec fn instruction(s: Seq<u8>, pos: int) -> Option<(int, int)>
    recommends
        0 <= pos < s.len(),
{
    let op = s[pos];
    let (start, len) = if 1 <= op <= 75 {
        (pos + 1, op as int)
    } else if op == OP_PUSHDATA1 {
        (pos + 2, if pos + 2 <= s.len() {
            s[pos + 1] as int
        } else {
            0
        })
    } else if op == OP_PUSHDATA2 {
        (pos + 3, if pos + 3 <= s.len() {
            u16_at(s, pos + 1)
        } else {
            0
        })
    } else if op == OP_PUSHDATA4 {
        (pos + 5, if pos + 5 <= s.len() {
            u32_at(s, pos + 1)
        } else {
            0
        })
    } else {
        (pos + 1, 0)
    };
    if start + len <= s.len() {
        Some((start, len))
    } else {
        None
    }
}

/// Whether the instruction at `pos` pushes a key in compressed form: 33
/// bytes, pushed by the shortest opcode, of which the first is 2 or 3.
pub open spec fn pushes_key(s: Seq<u8>, pos: int) -> bool {
    s[pos] == OP_PUSHBYTES_33 && pos + 34 <= s.len() && (s[pos + 1] == 2 || s[pos + 1] == 3)
}

/// Outcome of looking for a key in a script.
pub enum Scan {
    /// The first key's bytes start here.
    Key(int),
    /// The script holds no key.
    NoKey,
    /// The script ends inside an instruction.
    Malformed,
}

/// Looks for the first key from the instruction at `pos` on.
pub open spec fn first_key(s: Seq<u8>, pos: int) -> Scan
    decreases s.len() - pos,
{
    if pos < 0 || pos >= s.len() {
        Scan::NoKey
    } else {
        match instruction(s, pos) {
            None => Scan::Malformed,
            Some((start, len)) => if pushes_key(s, pos) {
                Scan::Key(pos + 1)
            } else if start + len > pos {
                first_key(s, start + len)
            } else {
                Scan::Malformed
            },
        }
    }
}

/// The key whose bytes stand at `offset`.
pub open spec fn key_at(s: Seq<u8>, offset: int) -> PubkeyBytes {
    choose|key: PubkeyBytes| key@ == s.subrange(offset, offset + 33)
}

/// Where the commitment went.
#[derive(Clone, Copy, Debug, PartialEq, Eq)]
pub enum ScriptPlacement {
    /// Into the key whose bytes start at the offset.
    Key { offset: usize, key_proof: PubkeyProof },
    /// Into a data carrier behind the script.
    Carrier,
}

pub enum ScriptPlacementView {
    Key { offset: int, key_proof: PubkeyProof },
    Carrier,
}

impl View for ScriptPlacement {
    type V = ScriptPlacementView;

    open spec fn view(&self) -> ScriptPlacementView {
        match *self {
            ScriptPlacement::Key { offset, key_proof } => ScriptPlacementView::Key {
                offset: offset as int,
                key_proof,
            },
            ScriptPlacement::Carrier => ScriptPlacementView::Carrier,
        }
    }
}

/// A script to commit into, and the protocol's tag.
#[derive(Clone, Debug, PartialEq, Eq)]
pub struct LockscriptContainer {
    pub script: Vec<u8>,
    pub tag: ProtocolTag,
}

/// What lets a verifier compute the commitment again: the script as it
/// was, the value, and where the commitment went.
#[derive(Clone, Debug, PartialEq, Eq)]
pub struct LockscriptProof {
    pub container: LockscriptContainer,
    pub value: CommitmentValue,
    pub placement: ScriptPlacement,
}

/// A script that carries a commitment, with its proof.
#[derive(Clone, Debug, PartialEq, Eq)]
pub struct LockscriptCommitment {
    pub committed: Vec<u8>,
    pub proof: LockscriptProof,
}

pub struct LockscriptContainerView {
    pub script: Seq<u8>,
    pub tag: ProtocolTag,
}

pub struct LockscriptProofView {
    pub container: LockscriptContainerView,
    pub value: CommitmentValue,
    pub placement: ScriptPlacementView,
}

pub struct LockscriptCommitmentView {
    pub committed: Seq<u8>,
    pub proof: LockscriptProofView,
}

impl View for LockscriptContainer {
    type V = LockscriptContainerView;

    open spec fn view(&self) -> LockscriptContainerView {
        LockscriptContainerView { script: self.script@, tag: self.tag }
    }
}

impl View for LockscriptProof {
    type V = LockscriptProofView;

    open spec fn view(&self) -> LockscriptProofView {
        LockscriptProofView {
            container: self.container@,
            value: self.value,
            placement: self.placement@,
        }
    }
}

impl View for LockscriptCommitment {
    type V = LockscriptCommitmentView;

    open spec fn view(&self) -> LockscriptCommitmentView {
        LockscriptCommitmentView { committed: self.committed@, proof: self.proof@ }
    }
}

/// Domain separator of the digest that binds a key's tweak to its script.
pub open spec fn script_tag() -> Seq<u8> {
    seq![0x73u8, 0x63, 0x72, 0x3a]
}

/// Domain separator of the digest that a data carrier holds.
pub open spec fn carrier_tag() -> Seq<u8> {
    seq![0x63u8, 0x61, 0x72, 0x3a]
}

/// The digest that stands for the script under the protocol's tag.
pub open spec fn script_digest(c: LockscriptContainerView) -> [u8; 32] {
    sha256_spec(script_tag() + c.tag@ + c.script)
}

/// The digest that a data carrier holds.
pub open spec fn carrier_digest(c: LockscriptContainerView, value: CommitmentValue) -> [u8; 32] {
    sha256_spec(carrier_tag() + c.tag@ + c.script + value@)
}

/// The commitment of a value into a script.
pub open spec fn lockscript_commit_spec(
    c: LockscriptContainerView,
    value: CommitmentValue,
) -> Result<LockscriptCommitmentView, Error> {
    if c.script.len() + SCRIPT_HEADROOM >= HASH_INPUT_LIMIT {
        Err(Error::UnsupportedContainerKind)
    } else {
        match first_key(c.script, 0) {
            Scan::Malformed => Err(Error::UnsupportedContainerKind),
            Scan::Key(offset) => match pubkey_commit_spec(
                PubkeyContainer { pubkey: key_at(c.script, offset), tag: script_digest(c) },
                value,
            ) {
                Ok(made) => Ok(
                    LockscriptCommitmentView {
                        committed: c.script.subrange(0, offset) + made.committed@
                            + c.script.subrange(offset + 33, c.script.len() as int),
                        proof: LockscriptProofView {
                            container: c,
                            value,
                            placement: ScriptPlacementView::Key { offset, key_proof: made.proof },
                        },
                    },
                ),
                Err(e) => Err(e),
            },
            Scan::NoKey => Ok(
                LockscriptCommitmentView {
                    committed: c.script + seq![OP_RETURN, 32u8] + carrier_digest(c, value)@,
                    proof: LockscriptProofView {
                        container: c,
                        value,
                        placement: ScriptPlacementView::Carrier,
                    },
                },
            ),
        }
    }
}

/// Whether the script is the commitment that the proof speaks of.
pub open spec fn lockscript_verify_spec(committed: Seq<u8>, proof: LockscriptProofView) -> bool {
    lockscript_commit_spec(proof.container, proof.value) == Ok::<LockscriptCommitmentView, Error>(
        LockscriptCommitmentView { committed, proof },
    )
}

/// The commitment goes into a key exactly when the script holds one, and
/// into a carrier exactly when it holds none.
pub proof fn lemma_lockscript_placement(c: LockscriptContainerView, value: CommitmentValue)
    ensures
        lockscript_commit_spec(c, value) matches Ok(made) ==> ((made.proof.placement is Key) == (
        first_key(c.script, 0) is Key)) && ((made.proof.placement is Carrier) == (first_key(
            c.script,
            0,
        ) is NoKey)),
{
}

/// A commitment verifies against its own proof.
pub proof fn lemma_lockscript_round_trip(c: LockscriptContainerView, value: CommitmentValue)
    ensures
        lockscript_commit_spec(c, value) matches Ok(made) ==> lockscript_verify_spec(
            made.committed,
            made.proof,
        ),
{
}

/// No other script verifies against the proof of a commitment.
pub proof fn lemma_lockscript_tamper(
    c: LockscriptContainerView,
    value: CommitmentValue,
    other: Seq<u8>,
)
    ensures
        lockscript_commit_spec(c, value) matches Ok(made) ==> (other != made.committed
            ==> !lockscript_verify_spec(other, made.proof)),
{
}

/// Looks for the first key of the script. Gives nothing for a script that
/// ends inside an instruction, else the offset of the key's bytes where
/// there is a key.
pub fn find_key(script: &[u8]) -> (r: Option<Option<usize>>)
    ensures
        match r {
            None => first_key(script@, 0) is Malformed,
            Some(None) => first_key(script@, 0) is NoKey,
            Some(Some(offset)) => first_key(script@, 0) == Scan::Key(offset as int) && offset + 33
                <= script@.len(),
        },
{
    let n = script.len();
    let mut pos: usize = 0;
    while pos < n
        invariant
            pos <= n,
            n == script@.len(),
            first_key(script@, 0) == first_key(script@, pos as int),
        decreases n - pos,
    {
        let op = script[pos];
        let rest = n - pos;
        let (skip, len): (usize, usize) = if 1 <= op && op <= 75 {
            (1, op as usize)
        } else if op == OP_PUSHDATA1 {
            if rest < 2 {
                return None;
            }
            (2, script[pos + 1] as usize)
        } else if op == OP_PUSHDATA2 {
            if rest < 3 {
                return None;
            }
            (3, get_u16(script, pos + 1) as usize)
        } else if op == OP_PUSHDATA4 {
            if rest < 5 {
                return None;
            }
            (5, get_u32(script, pos + 1) as usize)
        } else {
            (1, 0)
        };
        if rest - skip < len {
            return None;
        }
        if op == OP_PUSHBYTES_33 && (script[pos + 1] == 2 || script[pos + 1] == 3) {
            return Some(Some(pos + 1));
        }
        pos = pos + skip + len;
    }
    Some(None)
}

/// Copies the 33 bytes of the key that stand at `offset`.
pub fn read_key(script: &[u8], offset: usize) -> (key: PubkeyBytes)
    requires
        offset + 33 <= script@.len(),
    ensures
        key == key_at(script@, offset as int),
{
    let n = script.len();
    let mut key = [0u8;33];
    let mut i: usize = 0;
    while i < 33
        invariant
            i <= 33,
            offset + 33 <= n,
            n == script@.len(),
            key@.take(i as int) == script@.subrange(offset as int, offset + i),
        decreases 33 - i,
    {
        key[i] = script[offset + i];
        assert(key@.take(i + 1) =~= script@.subrange(offset as int, offset + i + 1));
        i += 1;
    }
    proof {
        assert(key@.take(33) =~= key@);
        lemma_array_eq(key, key_at(script@, offset as int));
    }
    key
}

impl LockscriptContainer {
    /// Commits the value into the script. The same script and value give
    /// the same commitment, whoever computes it.
    pub fn commit(&self, value: &CommitmentValue) -> (r: Result<LockscriptCommitment, Error>)
        ensures
            match r {
                Ok(made) => lockscript_commit_spec(self@, *value) == Ok::<
                    LockscriptCommitmentView,
                    Error,
                >(made@),
                Err(e) => lockscript_commit_spec(self@, *value) == Err::<
                    LockscriptCommitmentView,
                    Error,
                >(e),
            },
            r matches Ok(made) ==> made.committed@.len() <= self.script@.len() + 34,
    {
        let n = self.script.len();
        if n as u64 >= HASH_INPUT_LIMIT - SCRIPT_HEADROOM {
            return Err(Error::UnsupportedContainerKind);
        }
        let script = self.script.as_slice();
        match find_key(script) {
            None => Err(Error::UnsupportedContainerKind),
            Some(Some(offset)) => {
                let mut message: Vec<u8> = Vec::new();
                message.push(0x73u8);
                message.push(0x63u8);
                message.push(0x72u8);
                message.push(0x3au8);
                assert(message@ =~= script_tag());
                put_bytes(&mut message, self.tag.as_slice());
                put_bytes(&mut message, script);
                let digest = sha256(message.as_slice());
                let key = PubkeyContainer { pubkey: read_key(script, offset), tag: digest };
                match key.commit(value) {
                    Ok(made) => {
                        let mut committed: Vec<u8> = Vec::new();
                        let mut i: usize = 0;
                        while i < n
                            invariant
                                i <= n,
                                n == script@.len(),
                                offset + 33 <= n,
                                committed@.len() == i,
                                forall|j: int|
                                    0 <= j < i ==> committed@[j] == if offset <= j < offset + 33 {
                                        made.committed@[j - offset]
                                    } else {
                                        script@[j]
                                    },
                            decreases n - i,
                        {
                            if offset <= i && i - offset < 33 {
                                committed.push(made.committed[i - offset]);
                            } else {
                                committed.push(script[i]);
                            }
                            i += 1;
                        }
                        assert(committed@ =~= script@.subrange(0, offset as int)
                            + made.committed@ + script@.subrange(offset + 33, n as int));
                        let mut copy: Vec<u8> = Vec::new();
                        put_bytes(&mut copy, script);
                        assert(copy@ =~= script@);
                        Ok(
                            LockscriptCommitment {
                                committed,
                                proof: LockscriptProof {
                                    container: LockscriptContainer { script: copy, tag: self.tag },
                                    value: *value,
                                    placement: ScriptPlacement::Key {
                                        offset,
                                        key_proof: made.proof,
                                    },
                                },
                            },
                        )
                    },
                    Err(e) => Err(e),
                }
            },
            Some(None) => {
                let mut message: Vec<u8> = Vec::new();
                message.push(0x63u8);
                message.push(0x61u8);
                message.push(0x72u8);
                message.push(0x3au8);
                assert(message@ =~= carrier_tag());
                put_bytes(&mut message, self.tag.as_slice());
                put_bytes(&mut message, script);
                put_bytes(&mut message, value.as_slice());
                let digest = sha256(message.as_slice());
                let mut committed: Vec<u8> = Vec::new();
                put_bytes(&mut committed, script);
                committed.push(OP_RETURN);
                committed.push(32u8);
                put_bytes(&mut committed, digest.as_slice());
                assert(committed@ =~= script@ + seq![OP_RETURN, 32u8] + digest@);
                let mut copy: Vec<u8> = Vec::new();
                put_bytes(&mut copy, script);
                assert(copy@ =~= script@);
                Ok(
                    LockscriptCommitment {
                        committed,
                        proof: LockscriptProof {
                            container: LockscriptContainer { script: copy, tag: self.tag },
                            value: *value,
                            placement: ScriptPlacement::Carrier,
                        },
                    },
                )
            },
        }
    }
}

impl ScriptPlacement {
    /// Whether the two placements are the same.
    pub fn same(&self, other: &ScriptPlacement) -> (same: bool)
        ensures
            same == (self@ == other@),
    {
        match (self, other) {
            (
                ScriptPlacement::Key { offset: a, key_proof: p },
                ScriptPlacement::Key { offset: b, key_proof: q },
            ) => *a == *b && p.same(q),
            (ScriptPlacement::Carrier, ScriptPlacement::Carrier) => true,
            _ => false,
        }
    }
}

impl LockscriptProof {
    /// Computes the commitment again from the script and the value that
    /// the proof holds, and says whether it gives the committed script and
    /// this proof.
    pub fn verify(&self, committed: &[u8]) -> (ok: bool)
        ensures
            ok == lockscript_verify_spec(committed@, self@),
    {
        match self.container.commit(&self.value) {
            Ok(made) => slices_eq(made.committed.as_slice(), committed) && made.proof.placement.same(
                &self.placement,
            ),
            Err(_) => false,
        }
    }
}

/// A proof into which another value was put does not verify, unless the
/// other value gives the same committed container.
pub proof fn lemma_lockscript_other_value(c: LockscriptContainerView, value: CommitmentValue, other: CommitmentValue)
    requires
        lockscript_commit_spec(c, value) is Ok,
        !(lockscript_commit_spec(c, other) matches Ok(again) && again.committed == lockscript_commit_spec(
            c,
            value,
        )->Ok_0.committed),
    ensures
        !lockscript_verify_spec(
            lockscript_commit_spec(c, value)->Ok_0.committed,
            LockscriptProofView { value: other, ..lockscript_commit_spec(c, value)->Ok_0.proof },
        ),
{
}

} // verus!
