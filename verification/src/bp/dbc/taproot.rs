//! Commitment into a taproot output: into the internal key where the
//! output has no script tree, into an added leaf of the tree where it has
//! one. Either way the holder of the internal key can still spend.

use crate::bp::dbc::error::Error;
use crate::bp::dbc::lockscript::OP_RETURN;
use crate::bp::dbc::pubkey::{
    pubkey_commit_spec, CommitmentValue, ProtocolTag, PubkeyBytes, PubkeyContainer, PubkeyProof,
};
use crate::bp::dbc::digests::{bytes_eq, lemma_array_eq, sha256, sha256_spec, HASH_INPUT_LIMIT};
use crate::strict_encoding::put_bytes;
use bitcoin::secp256k1::{Scalar, Secp256k1, XOnlyPublicKey};
use bitcoin::taproot::{LeafVersion, TapLeafHash, TapNodeHash, TapTweakHash};
use vstd::prelude::*;

verus! {

/// A public key given by its x coordinate alone.
pub type XOnlyKey = [u8; 32];

/// The hash that tweaks the internal key of a taproot output with the
/// given root of the script tree; nothing where the key's bytes are no x
/// coordinate of a point of the curve.
pub uninterp spec fn tap_tweak_hash_spec(internal: Seq<u8>, root: Option<[u8; 32]>) -> Option<
    [u8; 32],
>;

/// The key that results from adding the tweak, times the generator, to the
/// point with the given x coordinate and an even y coordinate; nothing
/// where the key or the tweak is unusable or the sum is the point at
/// infinity.
pub uninterp spec fn xonly_tweak_add_spec(key: Seq<u8>, tweak: Seq<u8>) -> Option<XOnlyKey>;

/// The hash of a tapscript leaf that holds the script.
pub uninterp spec fn tap_leaf_hash_spec(script: Seq<u8>) -> [u8; 32];

/// The hash of the branch over two nodes of a script tree.
pub uninterp spec fn tap_branch_hash_spec(a: Seq<u8>, b: Seq<u8>) -> [u8; 32];

/// Calls `bitcoin::taproot::TapTweakHash::from_key_and_tweak` on the
/// parsed key and the root. Trusted: the hash depends on the key's and the
/// root's bytes alone; nothing comes back where the key does not parse.
#[verifier::external_body]
pub(crate) fn tap_tweak_hash(internal: &XOnlyKey, root: Option<[u8; 32]>) -> (r: Option<[u8; 32]>)
    ensures
        r == tap_tweak_hash_spec(internal@, root),
{
    let key = XOnlyPublicKey::from_slice(internal).ok()?;
    let hash = TapTweakHash::from_key_and_tweak(key, root.map(TapNodeHash::assume_hidden));
    Some(<TapTweakHash as bitcoin::hashes::Hash>::to_byte_array(hash))
}

/// Calls `secp256k1::XOnlyPublicKey::add_tweak` on the parsed key with the
/// tweak as a scalar, and hands back the x coordinate of the sum. Trusted:
/// the result depends on the two byte strings alone.
#[verifier::external_body]
pub(crate) fn xonly_tweak_add(key: &XOnlyKey, tweak: &[u8; 32]) -> (r: Option<XOnlyKey>)
    ensures
        r == xonly_tweak_add_spec(key@, tweak@),
{
    let secp = Secp256k1::verification_only();
    let point = XOnlyPublicKey::from_slice(key).ok()?;
    let scalar = Scalar::from_be_bytes(*tweak).ok()?;
    match point.add_tweak(&secp, &scalar) {
        Ok((sum, _)) => Some(sum.serialize()),
        Err(_) => None,
    }
}

/// Calls `bitcoin::taproot::TapLeafHash::from_script` with the tapscript
/// leaf version. Trusted: the hash depends on the script's bytes alone.
#[verifier::external_body]
pub(crate) fn tap_leaf_hash(script: &[u8]) -> (h: [u8; 32])
    requires
        script@.len() + 128 < HASH_INPUT_LIMIT,
    ensures
        h == tap_leaf_hash_spec(script@),
{
    let hash = TapLeafHash::from_script(bitcoin::Script::from_bytes(script), LeafVersion::TapScript);
    <TapLeafHash as bitcoin::hashes::Hash>::to_byte_array(hash)
}

/// Calls `bitcoin::taproot::TapNodeHash::from_node_hashes`. Trusted: the
/// hash depends on the bytes of the two nodes alone.
#[verifier::external_body]
pub(crate) fn tap_branch_hash(a: &[u8; 32], b: &[u8; 32]) -> (h: [u8; 32])
    ensures
        h == tap_branch_hash_spec(a@, b@),
{
    let hash = TapNodeHash::from_node_hashes(
        TapNodeHash::assume_hidden(*a),
        TapNodeHash::assume_hidden(*b),
    );
    <TapNodeHash as bitcoin::hashes::Hash>::to_byte_array(hash)
}

/// An internal key to commit into, the root of the output's script tree
/// where it has one, and the protocol's tag.
#[derive(Clone, Copy, Debug, PartialEq, Eq)]
pub struct TaprootContainer {
    pub internal_key: XOnlyKey,
    pub merkle_root: Option<[u8; 32]>,
    pub tag: ProtocolTag,
}

/// Where the commitment went.
#[derive(Clone, Copy, Debug, PartialEq, Eq)]
pub enum TaprootPlacement {
    /// Into the internal key.
    InternalKey { key_proof: PubkeyProof },
    /// Into a leaf with this hash, joined to the tree at its root.
    ScriptLeaf { leaf: [u8; 32] },
}

#[derive(Clone, Copy, Debug, PartialEq, Eq)]
pub struct TaprootProof {
    pub container: TaprootContainer,
    pub value: CommitmentValue,
    pub placement: TaprootPlacement,
}

/// The output key of a taproot output that carries a commitment, with its
/// proof.
#[derive(Clone, Copy, Debug, PartialEq, Eq)]
pub struct TaprootCommitment {
    pub committed: XOnlyKey,
    pub proof: TaprootProof,
}

/// The output key of a taproot output with the given internal key and
/// root of the script tree: the internal key, tweaked by the hash of the
/// key and the root.
pub open spec fn tap_output_key_spec(internal: Seq<u8>, root: Option<[u8; 32]>) -> Option<
    XOnlyKey,
> {
    match tap_tweak_hash_spec(internal, root) {
        Some(tweak) => xonly_tweak_add_spec(internal, tweak@),
        None => None,
    }
}

/// Computes the output key of a taproot output.
pub fn tap_output_key(internal: &XOnlyKey, root: Option<[u8; 32]>) -> (r: Option<XOnlyKey>)
    ensures
        r == tap_output_key_spec(internal@, root),
{
    match tap_tweak_hash(internal, root) {
        Some(tweak) => xonly_tweak_add(internal, &tweak),
        None => None,
    }
}

/// The key with the given x coordinate and an even y coordinate, in
/// compressed form.
pub open spec fn even_key(x: XOnlyKey) -> PubkeyBytes {
    choose|key: PubkeyBytes| key@ == seq![2u8] + x@
}

/// The x coordinate of a key in compressed form.
pub open spec fn x_of(key: PubkeyBytes) -> XOnlyKey {
    choose|x: XOnlyKey| x@ == key@.subrange(1, 33)
}

/// Domain separator of the digest that a commitment leaf holds.
pub open spec fn leaf_tag() -> Seq<u8> {
    seq![0x74u8, 0x61, 0x70, 0x3a]
}

/// The script of the leaf that carries a commitment: a data carrier with
/// a digest of the tag, the key, the root and the value.
pub open spec fn leaf_script(c: TaprootContainer, root: [u8; 32], value: CommitmentValue) -> Seq<u8> {
    seq![OP_RETURN, 32u8] + sha256_spec(
        leaf_tag() + c.tag@ + c.internal_key@ + root@ + value@,
    )@
}

/// The commitment of a value into a taproot output.
pub open spec fn taproot_commit_spec(c: TaprootContainer, value: CommitmentValue) -> Result<
    TaprootCommitment,
    Error,
> {
    match c.merkle_root {
        None => match pubkey_commit_spec(
            PubkeyContainer { pubkey: even_key(c.internal_key), tag: c.tag },
            value,
        ) {
            Ok(made) => match tap_output_key_spec(x_of(made.committed)@, None) {
                Some(committed) => Ok(
                    TaprootCommitment {
                        committed,
                        proof: TaprootProof {
                            container: c,
                            value,
                            placement: TaprootPlacement::InternalKey { key_proof: made.proof },
                        },
                    },
                ),
                None => Err(Error::NoCommittableCarrier),
            },
            Err(e) => Err(e),
        },
        Some(root) => {
            let leaf = tap_leaf_hash_spec(leaf_script(c, root, value));
            match tap_output_key_spec(c.internal_key@, Some(tap_branch_hash_spec(root@, leaf@))) {
                Some(committed) => Ok(
                    TaprootCommitment {
                        committed,
                        proof: TaprootProof {
                            container: c,
                            value,
                            placement: TaprootPlacement::ScriptLeaf { leaf },
                        },
                    },
                ),
                None => Err(Error::NoCommittableCarrier),
            }
        },
    }
}

/// Whether the output key is the commitment that the proof speaks of.
pub open spec fn taproot_verify_spec(committed: XOnlyKey, proof: TaprootProof) -> bool {
    taproot_commit_spec(proof.container, proof.value) == Ok::<TaprootCommitment, Error>(
        TaprootCommitment { committed, proof },
    )
}

/// The commitment goes into the internal key exactly when the output has
/// no script tree.
pub proof fn lemma_taproot_placement(c: TaprootContainer, value: CommitmentValue)
    ensures
        taproot_commit_spec(c, value) matches Ok(made) ==> (made.proof.placement is InternalKey)
            == (c.merkle_root is None),
{
}

/// A commitment verifies against its own proof.
pub proof fn lemma_taproot_round_trip(c: TaprootContainer, value: CommitmentValue)
    ensures
        taproot_commit_spec(c, value) matches Ok(made) ==> taproot_verify_spec(
            made.committed,
            made.proof,
        ),
{
}

/// No other output key verifies against the proof of a commitment.
pub proof fn lemma_taproot_tamper(c: TaprootContainer, value: CommitmentValue, other: XOnlyKey)
    ensures
        taproot_commit_spec(c, value) matches Ok(made) ==> (other != made.committed
            ==> !taproot_verify_spec(other, made.proof)),
{
}

/// The compressed form of the key with the given x coordinate and an even
/// y coordinate.
pub fn to_even_key(x: &XOnlyKey) -> (key: PubkeyBytes)
    ensures
        key == even_key(*x),
{
    let mut key = [0u8;33];
    key[0] = 2u8;
    let mut i: usize = 0;
    while i < 32
        invariant
            i <= 32,
            key@[0] == 2u8,
            forall|j: int| 0 <= j < i ==> key@[j + 1] == x@[j],
        decreases 32 - i,
    {
        key[i + 1] = x[i];
        i += 1;
    }
    proof {
        assert(key@ =~= seq![2u8] + x@);
        lemma_array_eq(key, even_key(*x));
    }
    key
}

/// The x coordinate of a key in compressed form.
pub fn to_x_only(key: &PubkeyBytes) -> (x: XOnlyKey)
    ensures
        x == x_of(*key),
{
    let mut x = [0u8;32];
    let mut i: usize = 0;
    while i < 32
        invariant
            i <= 32,
            forall|j: int| 0 <= j < i ==> x@[j] == key@[j + 1],
        decreases 32 - i,
    {
        x[i] = key[i + 1];
        i += 1;
    }
    proof {
        assert(x@ =~= key@.subrange(1, 33));
        lemma_array_eq(x, x_of(*key));
    }
    x
}

impl TaprootContainer {
    /// Commits the value into the output. The same container and value
    /// give the same commitment, whoever computes it.
    pub fn commit(&self, value: &CommitmentValue) -> (r: Result<TaprootCommitment, Error>)
        ensures
            r == taproot_commit_spec(*self, *value),
    {
        match self.merkle_root {
            None => {
                let key = PubkeyContainer { pubkey: to_even_key(&self.internal_key), tag: self.tag };
                match key.commit(value) {
                    Ok(made) => {
                        let x = to_x_only(&made.committed);
                        match tap_output_key(&x, None) {
                            Some(committed) => Ok(
                                TaprootCommitment {
                                    committed,
                                    proof: TaprootProof {
                                        container: *self,
                                        value: *value,
                                        placement: TaprootPlacement::InternalKey {
                                            key_proof: made.proof,
                                        },
                                    },
                                },
                            ),
                            None => Err(Error::NoCommittableCarrier),
                        }
                    },
                    Err(e) => Err(e),
                }
            },
            Some(root) => {
                let mut message: Vec<u8> = Vec::new();
                message.push(0x74u8);
                message.push(0x61u8);
                message.push(0x70u8);
                message.push(0x3au8);
                assert(message@ =~= leaf_tag());
                put_bytes(&mut message, self.tag.as_slice());
                put_bytes(&mut message, self.internal_key.as_slice());
                put_bytes(&mut message, root.as_slice());
                put_bytes(&mut message, value.as_slice());
                let digest = sha256(message.as_slice());
                let mut script: Vec<u8> = Vec::new();
                script.push(OP_RETURN);
                script.push(32u8);
                put_bytes(&mut script, digest.as_slice());
                assert(script@ =~= leaf_script(*self, root, *value));
                let leaf = tap_leaf_hash(script.as_slice());
                let joined = tap_branch_hash(&root, &leaf);
                match tap_output_key(&self.internal_key, Some(joined)) {
                    Some(committed) => Ok(
                        TaprootCommitment {
                            committed,
                            proof: TaprootProof {
                                container: *self,
                                value: *value,
                                placement: TaprootPlacement::ScriptLeaf { leaf },
                            },
                        },
                    ),
                    None => Err(Error::NoCommittableCarrier),
                }
            },
        }
    }
}

impl TaprootProof {
    /// Whether the two proofs are the same.
    pub fn same(&self, other: &TaprootProof) -> (same: bool)
        ensures
            same == (*self == *other),
    {
        let roots = match (self.container.merkle_root, other.container.merkle_root) {
            (Some(a), Some(b)) => bytes_eq(&a, &b),
            (None, None) => true,
            _ => false,
        };
        let placements = match (self.placement, other.placement) {
            (
                TaprootPlacement::InternalKey { key_proof: p },
                TaprootPlacement::InternalKey { key_proof: q },
            ) => p.same(&q),
            (TaprootPlacement::ScriptLeaf { leaf: a }, TaprootPlacement::ScriptLeaf { leaf: b }) => {
                bytes_eq(&a, &b)
            },
            _ => false,
        };
        roots && placements && bytes_eq(&self.container.internal_key, &other.container.internal_key)
            && bytes_eq(&self.container.tag, &other.container.tag) && bytes_eq(
            &self.value,
            &other.value,
        )
    }

    /// Computes the commitment again from the container and the value that
    /// the proof holds, and says whether it gives the output key and this
    /// proof.
    pub fn verify(&self, committed: &XOnlyKey) -> (ok: bool)
        ensures
            ok == taproot_verify_spec(*committed, *self),
    {
        match self.container.commit(&self.value) {
            Ok(made) => bytes_eq(&made.committed, committed) && made.proof.same(self),
            Err(_) => false,
        }
    }
}

/// A proof into which another value was put does not verify, unless the
/// other value gives the same output key.
pub proof fn lemma_taproot_other_value(
    c: TaprootContainer,
    value: CommitmentValue,
    other: CommitmentValue,
)
    requires
        taproot_commit_spec(c, value) is Ok,
        !(taproot_commit_spec(c, other) matches Ok(again) && again.committed
            == taproot_commit_spec(c, value)->Ok_0.committed),
    ensures
        !taproot_verify_spec(
            taproot_commit_spec(c, value)->Ok_0.committed,
            TaprootProof { value: other, ..taproot_commit_spec(c, value)->Ok_0.proof },
        ),
{
}

} // verus!
