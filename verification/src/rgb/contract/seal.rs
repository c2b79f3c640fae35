//! Seals: references to the transaction outputs that rights are bound to,
//! in the clear or concealed behind a hash.

use crate::bp::blind::{outpoint_hash, OutpointHash, OutpointReveal};
use crate::bp::dbc::digests::{bytes_eq, lemma_array_eq};
use crate::strict_encoding::{put_bytes, StrictEncode};
use vstd::prelude::*;

verus! {

/// Tag that the encoding puts before an outpoint in the clear.
pub const SEAL_TXOUTPOINT: u8 = 0;

#[derive(Clone, Copy, Debug, PartialEq, Eq)]
pub enum Seal {
    /// Only the hash of the blinded outpoint is known.
    Concealed(OutpointHash),
    /// The outpoint and its blinding factor are known.
    Revealed(OutpointReveal),
}

/// What a seal stands for: the bytes of a hash, or the blinding factor,
/// transaction id and output number of an outpoint.
pub enum SealModel {
    Concealed(Seq<u8>),
    Revealed(u64, Seq<u8>, u32),
}

pub open spec fn seal_encodable(m: SealModel) -> bool {
    match m {
        SealModel::Concealed(h) => h.len() == 32,
        SealModel::Revealed(_, txid, _) => txid.len() == 32,
    }
}

/// The hash that stands for the seal once it is concealed.
pub open spec fn concealed_form(m: SealModel) -> Seq<u8> {
    match m {
        SealModel::Concealed(h) => h,
        SealModel::Revealed(blinding, txid, vout) => outpoint_hash(blinding, txid, vout)@,
    }
}

/// The bytes of a seal: as it is for transfer, concealed for commitment.
pub open spec fn seal_ser(m: SealModel, commit: bool) -> Seq<u8> {
    if commit {
        concealed_form(m)
    } else {
        match m {
            SealModel::Concealed(h) => h,
            SealModel::Revealed(blinding, txid, vout) => seq![SEAL_TXOUTPOINT]
                + OutpointReveal::ser((blinding, (txid, vout)), false),
        }
    }
}

/// Reads a seal that the surrounding encoding announces as revealed or as
/// concealed.
pub open spec fn parse_seal(s: Seq<u8>, pos: int, revealed: bool) -> Option<(SealModel, int)> {
    if revealed {
        if 0 <= pos < s.len() && s[pos] == SEAL_TXOUTPOINT {
            match OutpointReveal::parse(s, pos + 1) {
                Some((o, end)) => Some((SealModel::Revealed(o.0, o.1.0, o.1.1), end)),
                None => None,
            }
        } else {
            None
        }
    } else {
        match <[u8; 32]>::parse(s, pos) {
            Some((h, end)) => Some((SealModel::Concealed(h), end)),
            None => None,
        }
    }
}

pub proof fn lemma_seal_sound(s: Seq<u8>, pos: int, revealed: bool)
    requires
        0 <= pos <= s.len(),
    ensures
        parse_seal(s, pos, revealed) matches Some((m, end)) ==> pos <= end <= s.len()
            && seal_encodable(m) && (m is Revealed) == revealed && s.subrange(pos, end)
            == seal_ser(m, false),
{
    if revealed {
        if pos < s.len() && s[pos] == SEAL_TXOUTPOINT {
            OutpointReveal::lemma_parse_sound(s, pos + 1);
            if let Some((o, end)) = OutpointReveal::parse(s, pos + 1) {
                assert(s.subrange(pos, end) =~= seq![SEAL_TXOUTPOINT] + s.subrange(pos + 1, end));
            }
        }
    } else {
        <[u8; 32]>::lemma_parse_sound(s, pos);
    }
}

pub proof fn lemma_seal_complete(s: Seq<u8>, pos: int, m: SealModel)
    requires
        0 <= pos,
        pos + seal_ser(m, false).len() <= s.len(),
        seal_encodable(m),
        s.subrange(pos, pos + seal_ser(m, false).len()) == seal_ser(m, false),
    ensures
        parse_seal(s, pos, m is Revealed) == Some((m, pos + seal_ser(m, false).len())),
{
    let enc = seal_ser(m, false);
    let t = s.subrange(pos, pos + enc.len());
    match m {
        SealModel::Concealed(h) => {
            <[u8; 32]>::lemma_parse_complete(s, pos, h);
        },
        SealModel::Revealed(blinding, txid, vout) => {
            let o = (blinding, (txid, vout));
            let so = OutpointReveal::ser(o, false);
            assert(t[0] == s[pos]);
            assert(s.subrange(pos + 1, pos + 1 + so.len()) =~= t.subrange(
                1,
                (1 + so.len()) as int,
            ));
            assert(t.subrange(1, (1 + so.len()) as int) =~= so);
            OutpointReveal::lemma_parse_complete(s, pos + 1, o);
        },
    }
}

/// The first of the known outpoints whose hash is `h`.
pub open spec fn first_match(h: Seq<u8>, known: Seq<OutpointReveal>) -> Option<OutpointReveal>
    decreases known.len(),
{
    if known.len() == 0 {
        None
    } else if known[0].hash_spec()@ == h {
        Some(known[0])
    } else {
        first_match(h, known.skip(1))
    }
}

/// The seal after the holder of the known outpoints has looked at it: a
/// concealed seal whose hash is that of a known outpoint becomes that
/// outpoint; every other seal stays as it is.
pub open spec fn reveal_seal(m: SealModel, known: Seq<OutpointReveal>) -> SealModel {
    match m {
        SealModel::Concealed(h) => match first_match(h, known) {
            Some(o) => SealModel::Revealed(o.blinding, o.txid@, o.vout),
            None => m,
        },
        SealModel::Revealed(..) => m,
    }
}

/// Whether looking at the seal with the known outpoints reveals it.
pub open spec fn is_revealed_by(m: SealModel, known: Seq<OutpointReveal>) -> bool {
    m matches SealModel::Concealed(h) && first_match(h, known) is Some
}

/// What `first_match` finds is one of the known outpoints, and it has the
/// hash that was looked for.
pub proof fn lemma_first_match(h: Seq<u8>, known: Seq<OutpointReveal>)
    ensures
        first_match(h, known) matches Some(o) ==> known.contains(o) && o.hash_spec()@ == h,
    decreases known.len(),
{
    if known.len() > 0 && known[0].hash_spec()@ != h {
        lemma_first_match(h, known.skip(1));
        if let Some(o) = first_match(h, known.skip(1)) {
            let i = choose|i: int| 0 <= i < known.skip(1).len() && known.skip(1)[i] == o;
            assert(known[i + 1] == o);
        }
    }
}

/// Revealing changes nothing of what a seal commits to.
pub proof fn lemma_reveal_keeps_commitment(m: SealModel, known: Seq<OutpointReveal>)
    ensures
        concealed_form(reveal_seal(m, known)) == concealed_form(m),
        seal_encodable(m) ==> seal_encodable(reveal_seal(m, known)),
{
    if let SealModel::Concealed(h) = m {
        lemma_first_match(h, known);
    }
}

/// A second look with the same outpoints reveals nothing more.
pub proof fn lemma_reveal_idempotent(m: SealModel, known: Seq<OutpointReveal>)
    ensures
        !is_revealed_by(reveal_seal(m, known), known),
        reveal_seal(reveal_seal(m, known), known) == reveal_seal(m, known),
{
}

/// The hashes of the known outpoints, in their order.
pub open spec fn hashes_of(known: Seq<OutpointReveal>, hashes: Seq<OutpointHash>) -> bool {
    hashes.len() == known.len() && forall|i: int|
        0 <= i < known.len() ==> hashes[i] == (#[trigger] known[i]).hash_spec()
}

/// Computes the hash of each outpoint.
pub fn conceal_all(known: &[OutpointReveal]) -> (hashes: Vec<OutpointHash>)
    ensures
        hashes_of(known@, hashes@),
{
    let n = known.len();
    let mut hashes: Vec<OutpointHash> = Vec::new();
    let mut i: usize = 0;
    while i < n
        invariant
            i <= n,
            n == known@.len(),
            hashes@.len() == i,
            forall|j: int| 0 <= j < i ==> hashes@[j] == (#[trigger] known@[j]).hash_spec(),
        decreases n - i,
    {
        hashes.push(known[i].conceal());
        i += 1;
    }
    hashes
}

impl Seal {
    pub open spec fn model(&self) -> SealModel {
        match *self {
            Seal::Concealed(h) => SealModel::Concealed(h@),
            Seal::Revealed(o) => SealModel::Revealed(o.blinding, o.txid@, o.vout),
        }
    }

    /// Appends the seal's bytes to `out`.
    pub fn write(&self, out: &mut Vec<u8>, commit: bool)
        ensures
            final(out)@ == old(out)@ + seal_ser(self.model(), commit),
    {
        match self {
            Seal::Concealed(h) => {
                put_bytes(out, h.as_slice());
            },
            Seal::Revealed(o) => {
                if commit {
                    let h = o.conceal();
                    put_bytes(out, h.as_slice());
                } else {
                    out.push(SEAL_TXOUTPOINT);
                    o.write(out, false);
                    assert(out@ =~= old(out)@ + (seq![SEAL_TXOUTPOINT] + OutpointReveal::ser(
                        o.model(),
                        false,
                    )));
                }
            },
        }
    }

    /// Reads a seal of the announced form.
    pub fn read(buf: &[u8], pos: usize, revealed: bool) -> (r: Option<(Seal, usize)>)
        requires
            pos <= buf@.len(),
        ensures
            match r {
                Some((x, end)) => parse_seal(buf@, pos as int, revealed) == Some(
                    (x.model(), end as int),
                ),
                None => parse_seal(buf@, pos as int, revealed) is None,
            },
    {
        if revealed {
            if pos >= buf.len() || buf[pos] != SEAL_TXOUTPOINT {
                return None;
            }
            match OutpointReveal::read(buf, pos + 1) {
                Some((o, end)) => Some((Seal::Revealed(o), end)),
                None => None,
            }
        } else {
            match <[u8; 32]>::read(buf, pos) {
                Some((h, end)) => Some((Seal::Concealed(h), end)),
                None => None,
            }
        }
    }

    /// Replaces a concealed seal with the first known outpoint that hashes
    /// to it. Returns whether it did.
    pub fn reveal_known(
        &mut self,
        known: &[OutpointReveal],
        hashes: &[OutpointHash],
    ) -> (done: bool)
        requires
            hashes_of(known@, hashes@),
        ensures
            final(self).model() == reveal_seal(old(self).model(), known@),
            done == is_revealed_by(old(self).model(), known@),
    {
        let h = match self {
            Seal::Concealed(h) => *h,
            Seal::Revealed(_) => { return false; },
        };
        let n = known.len();
        let mut i: usize = 0;
        assert(known@.skip(0) =~= known@);
        while i < n
            invariant
                i <= n,
                n == known@.len(),
                hashes_of(known@, hashes@),
                *self == Seal::Concealed(h),
                *old(self) == Seal::Concealed(h),
                first_match(h@, known@) == first_match(h@, known@.skip(i as int)),
            decreases n - i,
        {
            proof {
                lemma_array_eq(known@[i as int].hash_spec(), h);
                assert(known@.skip(i as int).len() > 0);
                assert(known@.skip(i as int)[0] == known@[i as int]);
                assert(known@.skip(i as int).skip(1) =~= known@.skip(i + 1));
            }
            if bytes_eq(&hashes[i], &h) {
                assert(first_match(h@, known@.skip(i as int)) == Some(known@[i as int]));
                *self = Seal::Revealed(known[i]);
                return true;
            }
            i += 1;
        }
        assert(known@.skip(n as int).len() == 0);
        false
    }
}

} // verus!
