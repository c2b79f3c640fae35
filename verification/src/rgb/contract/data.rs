//! State data and metadata values.

use crate::strict_encoding::{
    get_bytes, get_u16, lemma_u16_at, lemma_u16_le, lemma_u64_at, lemma_u64_le, put_bytes,
    put_u16, u16_at, u16_le, u64_at, u64_le, StrictEncode,
};
use vstd::prelude::*;

verus! {

/// Tag of an unsigned 64-bit value; amounts are written with it.
pub const TAG_U64: u8 = 3;

/// Tag of a byte string.
pub const TAG_BYTES: u8 = 0x20;

/// Tag of a text string.
pub const TAG_STRING: u8 = 0x21;

/// Number of payload bytes of a value whose tag names a fixed-size type:
/// integers of 8 to 64 bits, unsigned (tags 0 to 3) and signed (8 to 11),
/// and the two binary floating-point widths (0x12, 0x13).
pub open spec fn fixed_size(tag: u8) -> Option<nat> {
    if tag == 0 || tag == 8 {
        Some(1)
    } else if tag == 1 || tag == 9 {
        Some(2)
    } else if tag == 2 || tag == 10 || tag == 0x12 {
        Some(4)
    } else if tag == 3 || tag == 11 || tag == 0x13 {
        Some(8)
    } else {
        None
    }
}

/// Whether the tag names a type of variable length.
pub open spec fn is_blob_tag(tag: u8) -> bool {
    tag == TAG_BYTES || tag == TAG_STRING
}

pub fn fixed_size_of(tag: u8) -> (n: Option<usize>)
    ensures
        match n {
            Some(k) => fixed_size(tag) == Some(k as nat),
            None => fixed_size(tag) is None,
        },
{
    if tag == 0 || tag == 8 {
        Some(1)
    } else if tag == 1 || tag == 9 {
        Some(2)
    } else if tag == 2 || tag == 10 || tag == 0x12 {
        Some(4)
    } else if tag == 3 || tag == 11 || tag == 0x13 {
        Some(8)
    } else {
        None
    }
}

/// A typed value: the tag of its type and the bytes of the value, in the
/// byte order of the encoding.
#[derive(Clone, Debug, PartialEq, Eq)]
pub struct DataValue {
    pub tag: u8,
    pub bytes: Vec<u8>,
}

impl StrictEncode for DataValue {
    type Model = (u8, Seq<u8>);

    open spec fn model(&self) -> Self::Model {
        (self.tag, self.bytes@)
    }

    open spec fn wf(&self) -> bool {
        true
    }

    open spec fn encodable(m: Self::Model) -> bool {
        match fixed_size(m.0) {
            Some(n) => m.1.len() == n,
            None => is_blob_tag(m.0) && m.1.len() <= 0xFFFF,
        }
    }

    open spec fn ser(m: Self::Model, commit: bool) -> Seq<u8> {
        if fixed_size(m.0) is Some {
            seq![m.0] + m.1
        } else {
            seq![m.0] + u16_le(m.1.len() as u16) + m.1
        }
    }

    open spec fn parse(s: Seq<u8>, pos: int) -> Option<(Self::Model, int)> {
        if 0 <= pos < s.len() {
            let tag = s[pos];
            match fixed_size(tag) {
                Some(n) => if pos + 1 + n <= s.len() {
                    Some(((tag, s.subrange(pos + 1, pos + 1 + n)), pos + 1 + n))
                } else {
                    None
                },
                None => if is_blob_tag(tag) && pos + 3 <= s.len() && pos + 3 + u16_at(s, pos + 1)
                    <= s.len() {
                    let n = u16_at(s, pos + 1);
                    Some(((tag, s.subrange(pos + 3, pos + 3 + n)), pos + 3 + n))
                } else {
                    None
                },
            }
        } else {
            None
        }
    }

    proof fn lemma_parse_sound(s: Seq<u8>, pos: int) {
        if let Some((m, end)) = Self::parse(s, pos) {
            if fixed_size(m.0) is Some {
                assert(s.subrange(pos, end) =~= seq![m.0] + m.1);
            } else {
                lemma_u16_at(s, pos + 1);
                assert(s.subrange(pos, end) =~= seq![m.0] + s.subrange(pos + 1, pos + 3) + m.1);
            }
        }
    }

    proof fn lemma_parse_complete(s: Seq<u8>, pos: int, m: Self::Model) {
        let enc = Self::ser(m, false);
        let t = s.subrange(pos, pos + enc.len());
        assert(t[0] == s[pos]);
        if fixed_size(m.0) is Some {
            assert(s.subrange(pos + 1, pos + 1 + m.1.len()) =~= t.subrange(
                1,
                (1 + m.1.len()) as int,
            ));
            assert(t.subrange(1, (1 + m.1.len()) as int) =~= m.1);
        } else {
            lemma_u16_le(m.1.len() as u16);
            assert(t[1] == s[pos + 1] && t[2] == s[pos + 2]);
            assert(u16_at(s, pos + 1) == m.1.len());
            assert(s.subrange(pos + 3, pos + 3 + m.1.len()) =~= t.subrange(
                3,
                (3 + m.1.len()) as int,
            ));
            assert(t.subrange(3, (3 + m.1.len()) as int) =~= m.1);
        }
    }

    fn write(&self, out: &mut Vec<u8>, commit: bool) -> (ok: bool) {
        let n = self.bytes.len();
        out.push(self.tag);
        match fixed_size_of(self.tag) {
            Some(k) => {
                if n != k {
                    return false;
                }
                put_bytes(out, self.bytes.as_slice());
                true
            },
            None => {
                if !(self.tag == TAG_BYTES || self.tag == TAG_STRING) || n > 0xFFFF {
                    return false;
                }
                put_u16(out, n as u16);
                put_bytes(out, self.bytes.as_slice());
                true
            },
        }
    }

    fn read(buf: &[u8], pos: usize) -> (r: Option<(Self, usize)>) {
        let len = buf.len();
        if pos >= len {
            return None;
        }
        let tag = buf[pos];
        match fixed_size_of(tag) {
            Some(k) => {
                if len - pos - 1 < k {
                    return None;
                }
                let bytes = get_bytes(buf, pos + 1, k);
                Some((DataValue { tag, bytes }, pos + 1 + k))
            },
            None => {
                if !(tag == TAG_BYTES || tag == TAG_STRING) || len - pos < 3 {
                    return None;
                }
                let n = get_u16(buf, pos + 1) as usize;
                if len - pos - 3 < n {
                    return None;
                }
                let bytes = get_bytes(buf, pos + 3, n);
                Some((DataValue { tag, bytes }, pos + 3 + n))
            },
        }
    }
}

/// The state of a right that carries no data.
#[derive(Clone, Copy, Debug, PartialEq, Eq)]
pub struct Void {}

impl StrictEncode for Void {
    type Model = ();

    open spec fn model(&self) -> Self::Model {
        ()
    }

    open spec fn wf(&self) -> bool {
        true
    }

    open spec fn encodable(m: Self::Model) -> bool {
        true
    }

    open spec fn ser(m: Self::Model, commit: bool) -> Seq<u8> {
        Seq::empty()
    }

    open spec fn parse(s: Seq<u8>, pos: int) -> Option<(Self::Model, int)> {
        Some(((), pos))
    }

    proof fn lemma_parse_sound(s: Seq<u8>, pos: int) {
        assert(s.subrange(pos, pos) =~= Seq::<u8>::empty());
    }

    proof fn lemma_parse_complete(s: Seq<u8>, pos: int, m: Self::Model) {
    }

    fn write(&self, out: &mut Vec<u8>, commit: bool) -> (ok: bool) {
        assert(out@ =~= old(out)@ + Seq::<u8>::empty());
        true
    }

    fn read(buf: &[u8], pos: usize) -> (r: Option<(Self, usize)>) {
        Some((Void {  }, pos))
    }
}

/// An amount in the clear, with the factor that blinds its commitment.
#[derive(Clone, Debug, PartialEq, Eq)]
pub struct Amount {
    pub value: u64,
    pub blinding: Vec<u8>,
}

impl StrictEncode for Amount {
    type Model = (u64, Seq<u8>);

    open spec fn model(&self) -> Self::Model {
        (self.value, self.blinding@)
    }

    open spec fn wf(&self) -> bool {
        true
    }

    open spec fn encodable(m: Self::Model) -> bool {
        m.1.len() <= 0xFFFF
    }

    open spec fn ser(m: Self::Model, commit: bool) -> Seq<u8> {
        seq![TAG_U64] + u64_le(m.0) + u16_le(m.1.len() as u16) + m.1
    }

    open spec fn parse(s: Seq<u8>, pos: int) -> Option<(Self::Model, int)> {
        if 0 <= pos && pos + 11 <= s.len() && s[pos] == TAG_U64 && pos + 11 + u16_at(s, pos + 9)
            <= s.len() {
            let n = u16_at(s, pos + 9);
            Some(((u64_at(s, pos + 1) as u64, s.subrange(pos + 11, pos + 11 + n)), pos + 11 + n))
        } else {
            None
        }
    }

    proof fn lemma_parse_sound(s: Seq<u8>, pos: int) {
        if let Some((m, end)) = Self::parse(s, pos) {
            lemma_u64_at(s, pos + 1);
            lemma_u16_at(s, pos + 9);
            assert(s.subrange(pos, end) =~= seq![TAG_U64] + s.subrange(pos + 1, pos + 9)
                + s.subrange(pos + 9, pos + 11) + m.1);
        }
    }

    proof fn lemma_parse_complete(s: Seq<u8>, pos: int, m: Self::Model) {
        let enc = Self::ser(m, false);
        let t = s.subrange(pos, pos + enc.len());
        lemma_u64_le(m.0);
        lemma_u16_le(m.1.len() as u16);
        assert(t[0] == s[pos]);
        assert(s.subrange(pos + 1, pos + 9) =~= t.subrange(1, 9));
        assert(t.subrange(1, 9) =~= u64_le(m.0));
        lemma_u64_at(s, pos + 1);
        assert(u64_at(s, pos + 1) == u64_at(u64_le(m.0), 0)) by {
            let a = s.subrange(pos + 1, pos + 9);
            assert(a[0] == s[pos + 1] && a[1] == s[pos + 2] && a[2] == s[pos + 3] && a[3] == s[pos
                + 4]);
            assert(a[4] == s[pos + 5] && a[5] == s[pos + 6] && a[6] == s[pos + 7] && a[7] == s[pos
                + 8]);
        }
        assert(t[9] == s[pos + 9] && t[10] == s[pos + 10]);
        assert(t[9] == u16_le(m.1.len() as u16)[0] && t[10] == u16_le(m.1.len() as u16)[1]);
        assert(s.subrange(pos + 11, pos + 11 + m.1.len()) =~= t.subrange(
            11,
            (11 + m.1.len()) as int,
        ));
        assert(t.subrange(11, (11 + m.1.len()) as int) =~= m.1);
    }

    fn write(&self, out: &mut Vec<u8>, commit: bool) -> (ok: bool) {
        let n = self.blinding.len();
        if n > 0xFFFF {
            return false;
        }
        out.push(TAG_U64);
        self.value.write(out, commit);
        put_u16(out, n as u16);
        put_bytes(out, self.blinding.as_slice());
        true
    }

    fn read(buf: &[u8], pos: usize) -> (r: Option<(Self, usize)>) {
        let len = buf.len();
        if len - pos < 11 || buf[pos] != TAG_U64 {
            return None;
        }
        let value = match u64::read(buf, pos + 1) {
            Some((v, _)) => v,
            None => { return None; },
        };
        let n = get_u16(buf, pos + 9) as usize;
        if len - pos - 11 < n {
            return None;
        }
        let blinding = get_bytes(buf, pos + 11, n);
        Some((Amount { value, blinding }, pos + 11 + n))
    }
}

} // verus!
