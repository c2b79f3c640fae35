//! Blinded references to transaction outputs.

use crate::bp::dbc::digests::{sha256, sha256_spec};
use crate::strict_encoding::StrictEncode;
use vstd::prelude::*;

verus! {

/// Identifier of a Bitcoin transaction.
pub type Txid = [u8; 32];

/// One-way hash of a blinded transaction output.
pub type OutpointHash = [u8; 32];

/// A transaction output together with the blinding factor that salts its
/// hash.
#[derive(Clone, Copy, Debug, PartialEq, Eq)]
pub struct OutpointReveal {
    pub blinding: u64,
    pub txid: Txid,
    pub vout: u32,
}

/// Domain separator of outpoint hashes.
pub open spec fn outpoint_tag() -> Seq<u8> {
    seq![0x73u8, 0x65, 0x61, 0x6c, 0x3a]
}

/// The hash that conceals an outpoint: SHA-256 over the domain separator
/// and the outpoint's encoding.
pub open spec fn outpoint_hash(blinding: u64, txid: Seq<u8>, vout: u32) -> OutpointHash {
    sha256_spec(outpoint_tag() + OutpointReveal::ser((blinding, (txid, vout)), false))
}

impl StrictEncode for OutpointReveal {
    type Model = (u64, (Seq<u8>, u32));

    open spec fn model(&self) -> Self::Model {
        (self.blinding, (self.txid@, self.vout))
    }

    open spec fn wf(&self) -> bool {
        true
    }

    open spec fn encodable(m: Self::Model) -> bool {
        <(u64, (Txid, u32))>::encodable(m)
    }

    open spec fn ser(m: Self::Model, commit: bool) -> Seq<u8> {
        <(u64, (Txid, u32))>::ser(m, commit)
    }

    open spec fn parse(s: Seq<u8>, pos: int) -> Option<(Self::Model, int)> {
        <(u64, (Txid, u32))>::parse(s, pos)
    }

    proof fn lemma_parse_sound(s: Seq<u8>, pos: int) {
        <(u64, (Txid, u32))>::lemma_parse_sound(s, pos);
    }

    proof fn lemma_parse_complete(s: Seq<u8>, pos: int, m: Self::Model) {
        <(u64, (Txid, u32))>::lemma_parse_complete(s, pos, m);
    }

    fn write(&self, out: &mut Vec<u8>, commit: bool) -> (ok: bool) {
        self.blinding.write(out, commit);
        self.txid.write(out, commit);
        self.vout.write(out, commit);
        assert(out@ =~= old(out)@ + Self::ser(self.model(), commit));
        true
    }

    fn read(buf: &[u8], pos: usize) -> (r: Option<(Self, usize)>) {
        match <(u64, (Txid, u32))>::read(buf, pos) {
            Some(((blinding, (txid, vout)), end)) => Some(
                (OutpointReveal { blinding, txid, vout }, end),
            ),
            None => None,
        }
    }
}

impl OutpointReveal {
    /// The hash under which this outpoint is concealed.
    pub open spec fn hash_spec(&self) -> OutpointHash {
        outpoint_hash(self.blinding, self.txid@, self.vout)
    }

    /// Conceals the outpoint.
    pub fn conceal(&self) -> (h: OutpointHash)
        ensures
            h == self.hash_spec(),
    {
        let mut buf: Vec<u8> = Vec::new();
        buf.push(0x73u8);
        buf.push(0x65u8);
        buf.push(0x61u8);
        buf.push(0x6cu8);
        buf.push(0x3au8);
        assert(buf@ =~= outpoint_tag());
        self.write(&mut buf, false);
        sha256(buf.as_slice())
    }
}

} // verus!
