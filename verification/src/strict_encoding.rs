//! Canonical binary encoding: little-endian integers, fixed-size byte
//! arrays written as they are, and lists prefixed with a 16-bit count.
//!
//! Every encodable type names a mathematical model of its values, says how
//! a model is written as bytes and how bytes are read back, and proves that
//! the two agree.

use vstd::prelude::*;

verus! {

/// A type with a canonical binary encoding.
///
/// `ser(m, false)` is the transfer encoding of a model value and
/// `ser(m, true)` its commitment encoding, in which data that may be
/// concealed is written in concealed form. `parse` reads the transfer
/// encoding only.
pub trait StrictEncode: Sized {
    /// The mathematical value that an executable value stands for.
    type Model;

    spec fn model(&self) -> Self::Model;

    /// The validity of the executable value itself: what its type keeps
    /// true of every value that its constructors hand out.
    spec fn wf(&self) -> bool;

    /// Whether every count and length inside the value fits its prefix.
    spec fn encodable(m: Self::Model) -> bool;

    spec fn ser(m: Self::Model, commit: bool) -> Seq<u8>;

    /// Reads one value starting at `pos`; gives the value and the position
    /// just behind it.
    spec fn parse(s: Seq<u8>, pos: int) -> Option<(Self::Model, int)>;

    /// What `parse` accepts is the transfer encoding of what it returns.
    proof fn lemma_parse_sound(s: Seq<u8>, pos: int)
        requires
            0 <= pos <= s.len(),
        ensures
            Self::parse(s, pos) matches Some((m, end)) ==> pos <= end <= s.len()
                && Self::encodable(m) && s.subrange(pos, end) == Self::ser(m, false),
    ;

    /// `parse` accepts the transfer encoding of every encodable value,
    /// whatever follows it.
    proof fn lemma_parse_complete(s: Seq<u8>, pos: int, m: Self::Model)
        requires
            0 <= pos,
            pos + Self::ser(m, false).len() <= s.len(),
            Self::encodable(m),
            s.subrange(pos, pos + Self::ser(m, false).len()) == Self::ser(m, false),
        ensures
            Self::parse(s, pos) == Some((m, pos + Self::ser(m, false).len())),
    ;

    /// Appends the encoding to `out`. Returns `false`, leaving `out` with
    /// an unfinished tail, exactly when the value is not encodable.
    fn write(&self, out: &mut Vec<u8>, commit: bool) -> (ok: bool)
        requires
            self.wf(),
        ensures
            ok == Self::encodable(self.model()),
            ok ==> final(out)@ == old(out)@ + Self::ser(self.model(), commit),
    ;

    fn read(buf: &[u8], pos: usize) -> (r: Option<(Self, usize)>)
        requires
            pos <= buf@.len(),
        ensures
            match r {
                Some((x, end)) => x.wf() && Self::parse(buf@, pos as int) == Some(
                    (x.model(), end as int),
                ),
                None => Self::parse(buf@, pos as int) is None,
            },
    ;
}

impl StrictEncode for u8 {
    type Model = u8;

    open spec fn model(&self) -> u8 {
        *self
    }

    open spec fn wf(&self) -> bool {
        true
    }

    open spec fn encodable(m: u8) -> bool {
        true
    }

    open spec fn ser(m: u8, commit: bool) -> Seq<u8> {
        seq![m]
    }

    open spec fn parse(s: Seq<u8>, pos: int) -> Option<(u8, int)> {
        if 0 <= pos && pos + 1 <= s.len() {
            Some((s[pos], pos + 1))
        } else {
            None
        }
    }

    proof fn lemma_parse_sound(s: Seq<u8>, pos: int) {
        if pos + 1 <= s.len() {
            assert(s.subrange(pos, pos + 1) =~= seq![s[pos]]);
        }
    }

    proof fn lemma_parse_complete(s: Seq<u8>, pos: int, m: u8) {
        assert(s.subrange(pos, pos + 1)[0] == s[pos]);
    }

    fn write(&self, out: &mut Vec<u8>, commit: bool) -> (ok: bool) {
        out.push(*self);
        true
    }

    fn read(buf: &[u8], pos: usize) -> (r: Option<(u8, usize)>) {
        if pos < buf.len() {
            Some((buf[pos], pos + 1))
        } else {
            None
        }
    }
}

/// The two bytes of a 16-bit number, low byte first.
pub open spec fn u16_le(v: u16) -> Seq<u8> {
    seq![(v % 256) as u8, (v / 256) as u8]
}

impl StrictEncode for u16 {
    type Model = u16;

    open spec fn model(&self) -> u16 {
        *self
    }

    open spec fn wf(&self) -> bool {
        true
    }

    open spec fn encodable(m: u16) -> bool {
        true
    }

    open spec fn ser(m: u16, commit: bool) -> Seq<u8> {
        u16_le(m)
    }

    open spec fn parse(s: Seq<u8>, pos: int) -> Option<(u16, int)> {
        if 0 <= pos && pos + 2 <= s.len() {
            Some(((s[pos] + 256 * s[pos + 1]) as u16, pos + 2))
        } else {
            None
        }
    }

    proof fn lemma_parse_sound(s: Seq<u8>, pos: int) {
        if pos + 2 <= s.len() {
            let v = (s[pos] + 256 * s[pos + 1]) as u16;
            assert(s.subrange(pos, pos + 2) =~= u16_le(v));
        }
    }

    proof fn lemma_parse_complete(s: Seq<u8>, pos: int, m: u16) {
        let t = s.subrange(pos, pos + 2);
        assert(t[0] == s[pos] && t[1] == s[pos + 1]);
    }

    fn write(&self, out: &mut Vec<u8>, commit: bool) -> (ok: bool) {
        put_u16(out, *self);
        true
    }

    fn read(buf: &[u8], pos: usize) -> (r: Option<(u16, usize)>) {
        if buf.len() - pos >= 2 {
            Some((get_u16(buf, pos), pos + 2))
        } else {
            None
        }
    }
}

/// The value of the two bytes at `pos`, low byte first.
pub open spec fn u16_at(s: Seq<u8>, pos: int) -> int {
    s[pos] + 256 * s[pos + 1]
}

/// The value of the four bytes at `pos`, low byte first.
pub open spec fn u32_at(s: Seq<u8>, pos: int) -> int {
    u16_at(s, pos) + 65536 * u16_at(s, pos + 2)
}

/// The value of the eight bytes at `pos`, low byte first.
pub open spec fn u64_at(s: Seq<u8>, pos: int) -> int {
    u32_at(s, pos) + 4294967296 * u32_at(s, pos + 4)
}

/// The four bytes of a 32-bit number, low byte first.
pub open spec fn u32_le(v: u32) -> Seq<u8> {
    u16_le((v % 65536) as u16) + u16_le((v / 65536) as u16)
}

/// The eight bytes of a 64-bit number, low byte first.
pub open spec fn u64_le(v: u64) -> Seq<u8> {
    u32_le((v % 4294967296) as u32) + u32_le((v / 4294967296) as u32)
}

pub proof fn lemma_u32_le(v: u32)
    ensures
        u32_le(v).len() == 4,
        u32_at(u32_le(v), 0) == v,
{
    let lo = (v % 65536) as u16;
    let hi = (v / 65536) as u16;
    lemma_u16_le(lo);
    lemma_u16_le(hi);
    let t = u32_le(v);
    assert(t[0] == u16_le(lo)[0] && t[1] == u16_le(lo)[1] && t[2] == u16_le(hi)[0] && t[3]
        == u16_le(hi)[1]);
}

/// The two bytes at `pos` are the encoding of their value.
pub proof fn lemma_u16_at(s: Seq<u8>, pos: int)
    requires
        0 <= pos,
        pos + 2 <= s.len(),
    ensures
        0 <= u16_at(s, pos) < 65536,
        s.subrange(pos, pos + 2) == u16_le(u16_at(s, pos) as u16),
{
    assert(s.subrange(pos, pos + 2) =~= u16_le(u16_at(s, pos) as u16));
}

/// A 16-bit number is the value of its own two bytes.
pub proof fn lemma_u16_le(v: u16)
    ensures
        u16_le(v).len() == 2,
        u16_at(u16_le(v), 0) == v,
{
}

/// Appends `data` to `out`.
pub fn put_bytes(out: &mut Vec<u8>, data: &[u8])
    ensures
        final(out)@ == old(out)@ + data@,
{
    let n = data.len();
    let mut i: usize = 0;
    while i < n
        invariant
            i <= n,
            n == data@.len(),
            out@ == old(out)@ + data@.take(i as int),
        decreases n - i,
    {
        out.push(data[i]);
        assert(data@.take(i + 1) =~= data@.take(i as int).push(data@[i as int]));
        i += 1;
    }
    assert(data@.take(n as int) =~= data@);
}

/// Copies the `n` bytes that stand at `pos`.
pub fn get_bytes(buf: &[u8], pos: usize, n: usize) -> (data: Vec<u8>)
    requires
        pos + n <= buf@.len(),
    ensures
        data@ == buf@.subrange(pos as int, pos + n),
{
    let len = buf.len();
    let mut data: Vec<u8> = Vec::new();
    let mut i: usize = 0;
    while i < n
        invariant
            i <= n,
            pos + n <= len,
            len == buf@.len(),
            data@ == buf@.subrange(pos as int, pos + i),
        decreases n - i,
    {
        data.push(buf[pos + i]);
        assert(data@ =~= buf@.subrange(pos as int, pos + i + 1));
        i += 1;
    }
    data
}

/// The four bytes at `pos` are the encoding of their value.
pub proof fn lemma_u32_at(s: Seq<u8>, pos: int)
    requires
        0 <= pos,
        pos + 4 <= s.len(),
    ensures
        0 <= u32_at(s, pos) < 4294967296,
        s.subrange(pos, pos + 4) == u32_le(u32_at(s, pos) as u32),
{
    lemma_u16_at(s, pos);
    lemma_u16_at(s, pos + 2);
    let lo = u16_at(s, pos);
    let hi = u16_at(s, pos + 2);
    lemma_small_halves(lo, hi);
    let v = (lo + 65536 * hi) as u32;
    assert(u32_le(v) == u16_le(lo as u16) + u16_le(hi as u16));
    assert(s.subrange(pos, pos + 4) =~= s.subrange(pos, pos + 2) + s.subrange(pos + 2, pos + 4));
}

proof fn lemma_small_halves(lo: int, hi: int)
    requires
        0 <= lo < 65536,
        0 <= hi < 65536,
    ensures
        0 <= lo + 65536 * hi < 4294967296,
        (lo + 65536 * hi) % 65536 == lo,
        (lo + 65536 * hi) / 65536 == hi,
{
}

proof fn lemma_halves(lo: int, hi: int)
    requires
        0 <= lo < 4294967296,
        0 <= hi < 4294967296,
    ensures
        0 <= lo + 4294967296 * hi < 18446744073709551616,
        (lo + 4294967296 * hi) % 4294967296 == lo,
        (lo + 4294967296 * hi) / 4294967296 == hi,
{
}

/// The eight bytes at `pos` are the encoding of their value.
pub proof fn lemma_u64_at(s: Seq<u8>, pos: int)
    requires
        0 <= pos,
        pos + 8 <= s.len(),
    ensures
        0 <= u64_at(s, pos) < 18446744073709551616,
        s.subrange(pos, pos + 8) == u64_le(u64_at(s, pos) as u64),
{
    lemma_u32_at(s, pos);
    lemma_u32_at(s, pos + 4);
    let lo = u32_at(s, pos);
    let hi = u32_at(s, pos + 4);
    lemma_halves(lo, hi);
    let v = (lo + 4294967296 * hi) as u64;
    assert(u64_le(v) == u32_le(lo as u32) + u32_le(hi as u32));
    assert(s.subrange(pos, pos + 8) =~= s.subrange(pos, pos + 4) + s.subrange(pos + 4, pos + 8));
}

pub proof fn lemma_u64_le(v: u64)
    ensures
        u64_le(v).len() == 8,
        u64_at(u64_le(v), 0) == v,
{
    let lo = (v % 4294967296) as u32;
    let hi = (v / 4294967296) as u32;
    lemma_u32_le(lo);
    lemma_u32_le(hi);
    let t = u64_le(v);
    assert(t.subrange(0, 4) =~= u32_le(lo));
    assert(t.subrange(4, 8) =~= u32_le(hi));
    assert(u32_at(t, 0) == u32_at(u32_le(lo), 0)) by {
        assert(t[0] == u32_le(lo)[0] && t[1] == u32_le(lo)[1] && t[2] == u32_le(lo)[2] && t[3]
            == u32_le(lo)[3]);
    }
    assert(u32_at(t, 4) == u32_at(u32_le(hi), 0)) by {
        assert(t[4] == u32_le(hi)[0] && t[5] == u32_le(hi)[1] && t[6] == u32_le(hi)[2] && t[7]
            == u32_le(hi)[3]);
    }
}

/// Appends the two bytes of `v`, low byte first.
pub fn put_u16(out: &mut Vec<u8>, v: u16)
    ensures
        final(out)@ == old(out)@ + u16_le(v),
{
    let lo = (v % 256) as u8;
    let hi = (v / 256) as u8;
    out.push(lo);
    out.push(hi);
    assert(u16_le(v) =~= seq![lo, hi]);
    assert(out@ =~= old(out)@ + seq![lo, hi]);
}

/// The 16-bit number whose two bytes stand at `pos`, low byte first.
pub fn get_u16(buf: &[u8], pos: usize) -> (v: u16)
    requires
        pos + 2 <= buf@.len(),
    ensures
        v == u16_at(buf@, pos as int),
{
    let len = buf.len();
    assert(pos + 2 <= len);
    let lo = buf[pos] as u16;
    let hi = buf[pos + 1] as u16;
    lo + 256 * hi
}

/// Appends the four bytes of `v`, low byte first.
pub fn put_u32(out: &mut Vec<u8>, v: u32)
    ensures
        final(out)@ == old(out)@ + u32_le(v),
{
    let lo = (v % 65536) as u16;
    let hi = (v / 65536) as u16;
    put_u16(out, lo);
    put_u16(out, hi);
    assert(out@ =~= old(out)@ + (u16_le(lo) + u16_le(hi)));
}

/// The 32-bit number whose four bytes stand at `pos`, low byte first.
pub fn get_u32(buf: &[u8], pos: usize) -> (v: u32)
    requires
        pos + 4 <= buf@.len(),
    ensures
        v == u32_at(buf@, pos as int),
{
    let len = buf.len();
    assert(pos + 4 <= len);
    let lo = get_u16(buf, pos) as u32;
    let hi = get_u16(buf, pos + 2) as u32;
    lo + 65536 * hi
}

/// The 64-bit number whose eight bytes stand at `pos`, low byte first.
pub fn get_u64(buf: &[u8], pos: usize) -> (v: u64)
    requires
        pos + 8 <= buf@.len(),
    ensures
        v == u64_at(buf@, pos as int),
{
    let len = buf.len();
    assert(pos + 8 <= len);
    let lo = get_u32(buf, pos) as u64;
    let hi = get_u32(buf, pos + 4) as u64;
    lo + 4294967296 * hi
}

impl StrictEncode for u32 {
    type Model = u32;

    open spec fn model(&self) -> u32 {
        *self
    }

    open spec fn wf(&self) -> bool {
        true
    }

    open spec fn encodable(m: u32) -> bool {
        true
    }

    open spec fn ser(m: u32, commit: bool) -> Seq<u8> {
        u32_le(m)
    }

    open spec fn parse(s: Seq<u8>, pos: int) -> Option<(u32, int)> {
        if 0 <= pos && pos + 4 <= s.len() {
            Some((u32_at(s, pos) as u32, pos + 4))
        } else {
            None
        }
    }

    proof fn lemma_parse_sound(s: Seq<u8>, pos: int) {
        if pos + 4 <= s.len() {
            lemma_u32_at(s, pos);
        }
    }

    proof fn lemma_parse_complete(s: Seq<u8>, pos: int, m: u32) {
        let t = s.subrange(pos, pos + 4);
        lemma_u32_le(m);
        assert(t[0] == s[pos] && t[1] == s[pos + 1] && t[2] == s[pos + 2] && t[3] == s[pos + 3]);
    }

    fn write(&self, out: &mut Vec<u8>, commit: bool) -> (ok: bool) {
        put_u32(out, *self);
        true
    }

    fn read(buf: &[u8], pos: usize) -> (r: Option<(u32, usize)>) {
        if buf.len() - pos >= 4 {
            Some((get_u32(buf, pos), pos + 4))
        } else {
            None
        }
    }
}

impl StrictEncode for u64 {
    type Model = u64;

    open spec fn model(&self) -> u64 {
        *self
    }

    open spec fn wf(&self) -> bool {
        true
    }

    open spec fn encodable(m: u64) -> bool {
        true
    }

    open spec fn ser(m: u64, commit: bool) -> Seq<u8> {
        u64_le(m)
    }

    open spec fn parse(s: Seq<u8>, pos: int) -> Option<(u64, int)> {
        if 0 <= pos && pos + 8 <= s.len() {
            Some((u64_at(s, pos) as u64, pos + 8))
        } else {
            None
        }
    }

    proof fn lemma_parse_sound(s: Seq<u8>, pos: int) {
        if pos + 8 <= s.len() {
            lemma_u64_at(s, pos);
        }
    }

    proof fn lemma_parse_complete(s: Seq<u8>, pos: int, m: u64) {
        let t = s.subrange(pos, pos + 8);
        lemma_u64_le(m);
        assert(t[0] == s[pos] && t[1] == s[pos + 1] && t[2] == s[pos + 2] && t[3] == s[pos + 3]);
        assert(t[4] == s[pos + 4] && t[5] == s[pos + 5] && t[6] == s[pos + 6] && t[7] == s[pos
            + 7]);
    }

    fn write(&self, out: &mut Vec<u8>, commit: bool) -> (ok: bool) {
        let v = *self;
        let lo = (v % 4294967296) as u32;
        let hi = (v / 4294967296) as u32;
        put_u32(out, lo);
        put_u32(out, hi);
        assert(out@ =~= old(out)@ + (u32_le(lo) + u32_le(hi)));
        true
    }

    fn read(buf: &[u8], pos: usize) -> (r: Option<(u64, usize)>) {
        if buf.len() - pos >= 8 {
            let lo = get_u32(buf, pos);
            let hi = get_u32(buf, pos + 4);
            Some((lo as u64 + 4294967296 * (hi as u64), pos + 8))
        } else {
            None
        }
    }
}

impl<const N: usize> StrictEncode for [u8; N] {
    type Model = Seq<u8>;

    open spec fn model(&self) -> Seq<u8> {
        self@
    }

    open spec fn wf(&self) -> bool {
        true
    }

    open spec fn encodable(m: Seq<u8>) -> bool {
        m.len() == N
    }

    open spec fn ser(m: Seq<u8>, commit: bool) -> Seq<u8> {
        m
    }

    open spec fn parse(s: Seq<u8>, pos: int) -> Option<(Seq<u8>, int)> {
        if 0 <= pos && pos + N <= s.len() {
            Some((s.subrange(pos, pos + N), pos + N))
        } else {
            None
        }
    }

    proof fn lemma_parse_sound(s: Seq<u8>, pos: int) {
    }

    proof fn lemma_parse_complete(s: Seq<u8>, pos: int, m: Seq<u8>) {
    }

    fn write(&self, out: &mut Vec<u8>, commit: bool) -> (ok: bool) {
        let mut i: usize = 0;
        while i < N
            invariant
                i <= N,
                out@ == old(out)@ + self@.take(i as int),
            decreases N - i,
        {
            out.push(self[i]);
            assert(self@.take(i + 1) =~= self@.take(i as int).push(self@[i as int]));
            i += 1;
        }
        assert(self@.take(N as int) =~= self@);
        true
    }

    fn read(buf: &[u8], pos: usize) -> (r: Option<([u8; N], usize)>) {
        if buf.len() - pos < N {
            return None;
        }
        let mut a = [0u8;N];
        let mut i: usize = 0;
        while i < N
            invariant
                i <= N,
                pos + N <= buf@.len() <= usize::MAX,
                a@.take(i as int) == buf@.subrange(pos as int, pos + i),
            decreases N - i,
        {
            a[i] = buf[pos + i];
            assert(a@.take(i + 1) =~= buf@.subrange(pos as int, pos + i + 1));
            i += 1;
        }
        assert(a@.take(N as int) =~= a@);
        Some((a, pos + N))
    }
}

impl<A: StrictEncode, B: StrictEncode> StrictEncode for (A, B) {
    type Model = (A::Model, B::Model);

    open spec fn model(&self) -> (A::Model, B::Model) {
        (self.0.model(), self.1.model())
    }

    open spec fn wf(&self) -> bool {
        self.0.wf() && self.1.wf()
    }

    open spec fn encodable(m: (A::Model, B::Model)) -> bool {
        A::encodable(m.0) && B::encodable(m.1)
    }

    open spec fn ser(m: (A::Model, B::Model), commit: bool) -> Seq<u8> {
        A::ser(m.0, commit) + B::ser(m.1, commit)
    }

    open spec fn parse(s: Seq<u8>, pos: int) -> Option<((A::Model, B::Model), int)> {
        match A::parse(s, pos) {
            Some((a, mid)) => match B::parse(s, mid) {
                Some((b, end)) => Some(((a, b), end)),
                None => None,
            },
            None => None,
        }
    }

    proof fn lemma_parse_sound(s: Seq<u8>, pos: int) {
        A::lemma_parse_sound(s, pos);
        if let Some((a, mid)) = A::parse(s, pos) {
            B::lemma_parse_sound(s, mid);
            if let Some((b, end)) = B::parse(s, mid) {
                assert(s.subrange(pos, end) =~= s.subrange(pos, mid) + s.subrange(mid, end));
            }
        }
    }

    proof fn lemma_parse_complete(s: Seq<u8>, pos: int, m: (A::Model, B::Model)) {
        let sa = A::ser(m.0, false);
        let sb = B::ser(m.1, false);
        let mid = pos + sa.len();
        assert(s.subrange(pos, mid) =~= sa) by {
            assert(s.subrange(pos, mid) =~= s.subrange(pos, mid + sb.len()).subrange(
                0,
                sa.len() as int,
            ));
        }
        assert(s.subrange(mid, mid + sb.len()) =~= sb) by {
            assert(s.subrange(mid, mid + sb.len()) =~= s.subrange(pos, mid + sb.len()).subrange(
                sa.len() as int,
                (sa.len() + sb.len()) as int,
            ));
        }
        A::lemma_parse_complete(s, pos, m.0);
        B::lemma_parse_complete(s, mid, m.1);
    }

    fn write(&self, out: &mut Vec<u8>, commit: bool) -> (ok: bool) {
        if !self.0.write(out, commit) {
            return false;
        }
        if !self.1.write(out, commit) {
            return false;
        }
        assert(out@ =~= old(out)@ + (A::ser(self.0.model(), commit) + B::ser(
            self.1.model(),
            commit,
        )));
        true
    }

    fn read(buf: &[u8], pos: usize) -> (r: Option<((A, B), usize)>) {
        proof {
            A::lemma_parse_sound(buf@, pos as int);
        }
        match A::read(buf, pos) {
            Some((a, mid)) => match B::read(buf, mid) {
                Some((b, end)) => Some(((a, b), end)),
                None => None,
            },
            None => None,
        }
    }
}

impl<T: StrictEncode> StrictEncode for Option<T> {
    type Model = Option<T::Model>;

    open spec fn model(&self) -> Option<T::Model> {
        match *self {
            Some(x) => Some(x.model()),
            None => None,
        }
    }

    open spec fn wf(&self) -> bool {
        match *self {
            Some(x) => x.wf(),
            None => true,
        }
    }

    open spec fn encodable(m: Option<T::Model>) -> bool {
        match m {
            Some(x) => T::encodable(x),
            None => true,
        }
    }

    open spec fn ser(m: Option<T::Model>, commit: bool) -> Seq<u8> {
        match m {
            Some(x) => seq![1u8] + T::ser(x, commit),
            None => seq![0u8],
        }
    }

    open spec fn parse(s: Seq<u8>, pos: int) -> Option<(Option<T::Model>, int)> {
        if 0 <= pos < s.len() {
            if s[pos] == 0 {
                Some((None, pos + 1))
            } else if s[pos] == 1 {
                match T::parse(s, pos + 1) {
                    Some((x, end)) => Some((Some(x), end)),
                    None => None,
                }
            } else {
                None
            }
        } else {
            None
        }
    }

    proof fn lemma_parse_sound(s: Seq<u8>, pos: int) {
        if pos < s.len() {
            if s[pos] == 0 {
                assert(s.subrange(pos, pos + 1) =~= seq![0u8]);
            } else if s[pos] == 1 {
                T::lemma_parse_sound(s, pos + 1);
                if let Some((x, end)) = T::parse(s, pos + 1) {
                    assert(s.subrange(pos, end) =~= seq![1u8] + s.subrange(pos + 1, end));
                }
            }
        }
    }

    proof fn lemma_parse_complete(s: Seq<u8>, pos: int, m: Option<T::Model>) {
        let enc = Self::ser(m, false);
        let t = s.subrange(pos, pos + enc.len());
        assert(t[0] == s[pos]);
        match m {
            Some(x) => {
                let sx = T::ser(x, false);
                assert(s.subrange(pos + 1, pos + 1 + sx.len()) =~= sx) by {
                    assert(s.subrange(pos + 1, pos + 1 + sx.len()) =~= t.subrange(
                        1,
                        (1 + sx.len()) as int,
                    ));
                }
                T::lemma_parse_complete(s, pos + 1, x);
            },
            None => {},
        }
    }

    fn write(&self, out: &mut Vec<u8>, commit: bool) -> (ok: bool) {
        match self {
            Some(x) => {
                out.push(1u8);
                let ok = x.write(out, commit);
                assert(ok ==> out@ =~= old(out)@ + (seq![1u8] + T::ser(x.model(), commit)));
                ok
            },
            None => {
                out.push(0u8);
                true
            },
        }
    }

    fn read(buf: &[u8], pos: usize) -> (r: Option<(Option<T>, usize)>) {
        if pos >= buf.len() {
            return None;
        }
        let tag = buf[pos];
        if tag == 0 {
            Some((None, pos + 1))
        } else if tag == 1 {
            match T::read(buf, pos + 1) {
                Some((x, end)) => Some((Some(x), end)),
                None => None,
            }
        } else {
            None
        }
    }
}

/// The models of the items of a list, in order.
pub open spec fn models<T: StrictEncode>(v: Seq<T>) -> Seq<T::Model> {
    Seq::new(v.len(), |i: int| v[i].model())
}

pub open spec fn all_encodable<T: StrictEncode>(ms: Seq<T::Model>) -> bool {
    forall|i: int| 0 <= i < ms.len() ==> T::encodable(#[trigger] ms[i])
}

/// The encodings of the items of a list, one after the other.
pub open spec fn ser_items<T: StrictEncode>(ms: Seq<T::Model>, commit: bool) -> Seq<u8>
    decreases ms.len(),
{
    if ms.len() == 0 {
        Seq::empty()
    } else {
        ser_items::<T>(ms.drop_last(), commit) + T::ser(ms.last(), commit)
    }
}

/// Reads `n` items one after the other, starting at `pos`.
pub open spec fn parse_items<T: StrictEncode>(s: Seq<u8>, pos: int, n: nat) -> Option<
    (Seq<T::Model>, int),
>
    decreases n,
{
    if n == 0 {
        Some((Seq::empty(), pos))
    } else {
        match parse_items::<T>(s, pos, (n - 1) as nat) {
            Some((head, mid)) => match T::parse(s, mid) {
                Some((x, end)) => Some((head.push(x), end)),
                None => None,
            },
            None => None,
        }
    }
}

pub proof fn lemma_items_sound<T: StrictEncode>(s: Seq<u8>, pos: int, n: nat)
    requires
        0 <= pos <= s.len(),
    ensures
        parse_items::<T>(s, pos, n) matches Some((ms, end)) ==> ms.len() == n && pos <= end
            <= s.len() && all_encodable::<T>(ms) && s.subrange(pos, end) == ser_items::<T>(
            ms,
            false,
        ),
    decreases n,
{
    if n == 0 {
        assert(s.subrange(pos, pos) =~= Seq::<u8>::empty());
    } else {
        lemma_items_sound::<T>(s, pos, (n - 1) as nat);
        if let Some((head, mid)) = parse_items::<T>(s, pos, (n - 1) as nat) {
            T::lemma_parse_sound(s, mid);
            if let Some((x, end)) = T::parse(s, mid) {
                let ms = head.push(x);
                assert(ms.drop_last() =~= head);
                assert(s.subrange(pos, end) =~= s.subrange(pos, mid) + s.subrange(mid, end));
            }
        }
    }
}

pub proof fn lemma_items_complete<T: StrictEncode>(s: Seq<u8>, pos: int, ms: Seq<T::Model>)
    requires
        0 <= pos,
        pos + ser_items::<T>(ms, false).len() <= s.len(),
        all_encodable::<T>(ms),
        s.subrange(pos, pos + ser_items::<T>(ms, false).len()) == ser_items::<T>(ms, false),
    ensures
        parse_items::<T>(s, pos, ms.len()) == Some((ms, pos + ser_items::<T>(ms, false).len())),
    decreases ms.len(),
{
    if ms.len() == 0 {
    } else {
        let head = ms.drop_last();
        let sh = ser_items::<T>(head, false);
        let sx = T::ser(ms.last(), false);
        let all = s.subrange(pos, pos + sh.len() + sx.len());
        assert(s.subrange(pos, pos + sh.len()) =~= sh) by {
            assert(s.subrange(pos, pos + sh.len()) =~= all.subrange(0, sh.len() as int));
        }
        assert(s.subrange(pos + sh.len(), pos + sh.len() + sx.len()) =~= sx) by {
            assert(s.subrange(pos + sh.len(), pos + sh.len() + sx.len()) =~= all.subrange(
                sh.len() as int,
                (sh.len() + sx.len()) as int,
            ));
        }
        lemma_items_complete::<T>(s, pos, head);
        T::lemma_parse_complete(s, pos + sh.len(), ms.last());
        assert(head.push(ms.last()) =~= ms);
    }
}

/// Once a list cannot be read up to some item, it cannot be read further.
pub proof fn lemma_items_fail<T: StrictEncode>(s: Seq<u8>, pos: int, k: nat, n: nat)
    requires
        k <= n,
        parse_items::<T>(s, pos, k) is None,
    ensures
        parse_items::<T>(s, pos, n) is None,
    decreases n,
{
    if k < n {
        lemma_items_fail::<T>(s, pos, k, (n - 1) as nat);
    }
}

impl<T: StrictEncode> StrictEncode for Vec<T> {
    type Model = Seq<T::Model>;

    open spec fn model(&self) -> Seq<T::Model> {
        models(self@)
    }

    open spec fn wf(&self) -> bool {
        forall|i: int| 0 <= i < self@.len() ==> (#[trigger] self@[i]).wf()
    }

    open spec fn encodable(m: Seq<T::Model>) -> bool {
        m.len() <= 0xFFFF && all_encodable::<T>(m)
    }

    open spec fn ser(m: Seq<T::Model>, commit: bool) -> Seq<u8> {
        u16_le(m.len() as u16) + ser_items::<T>(m, commit)
    }

    open spec fn parse(s: Seq<u8>, pos: int) -> Option<(Seq<T::Model>, int)> {
        match u16::parse(s, pos) {
            Some((n, mid)) => parse_items::<T>(s, mid, n as nat),
            None => None,
        }
    }

    proof fn lemma_parse_sound(s: Seq<u8>, pos: int) {
        u16::lemma_parse_sound(s, pos);
        if let Some((n, mid)) = u16::parse(s, pos) {
            lemma_items_sound::<T>(s, mid, n as nat);
            if let Some((ms, end)) = parse_items::<T>(s, mid, n as nat) {
                assert(s.subrange(pos, end) =~= s.subrange(pos, mid) + s.subrange(mid, end));
            }
        }
    }

    proof fn lemma_parse_complete(s: Seq<u8>, pos: int, m: Seq<T::Model>) {
        let sn = u16_le(m.len() as u16);
        let si = ser_items::<T>(m, false);
        let all = s.subrange(pos, pos + 2 + si.len());
        assert(s.subrange(pos, pos + 2) =~= sn) by {
            assert(s.subrange(pos, pos + 2) =~= all.subrange(0, 2));
        }
        assert(s.subrange(pos + 2, pos + 2 + si.len()) =~= si) by {
            assert(s.subrange(pos + 2, pos + 2 + si.len()) =~= all.subrange(
                2,
                (2 + si.len()) as int,
            ));
        }
        u16::lemma_parse_complete(s, pos, m.len() as u16);
        lemma_items_complete::<T>(s, pos + 2, m);
    }

    fn write(&self, out: &mut Vec<u8>, commit: bool) -> (ok: bool) {
        let n = self.len();
        if n > 0xFFFF {
            return false;
        }
        let ghost start = out@;
        let ghost ms = models(self@);
        put_u16(out, n as u16);
        let mut i: usize = 0;
        while i < n
            invariant
                i <= n,
                n == self@.len(),
                ms == models(self@),
                self.wf(),
                out@ == start + u16_le(n as u16) + ser_items::<T>(ms.take(i as int), commit),
                all_encodable::<T>(ms.take(i as int)),
            decreases n - i,
        {
            let ok = self[i].write(out, commit);
            if !ok {
                assert(!T::encodable(ms[i as int]));
                return false;
            }
            proof {
                let next = ms.take(i + 1);
                assert(next.drop_last() =~= ms.take(i as int));
                assert(next.last() == ms[i as int]);
                assert(out@ =~= start + u16_le(n as u16) + ser_items::<T>(next, commit));
            }
            i += 1;
        }
        proof {
            assert(ms.take(n as int) =~= ms);
            assert(out@ =~= start + (u16_le(n as u16) + ser_items::<T>(ms, commit)));
        }
        true
    }

    fn read(buf: &[u8], pos: usize) -> (r: Option<(Vec<T>, usize)>) {
        let (n, first) = match u16::read(buf, pos) {
            Some(x) => x,
            None => { return None; },
        };
        let mut v: Vec<T> = Vec::new();
        let mut p = first;
        let mut i: u16 = 0;
        assert(models(v@) =~= Seq::<T::Model>::empty());
        while i < n
            invariant
                i <= n,
                first <= buf@.len(),
                p <= buf@.len(),
                u16::parse(buf@, pos as int) == Some((n, first as int)),
                v.wf(),
                parse_items::<T>(buf@, first as int, i as nat) == Some((models(v@), p as int)),
            decreases n - i,
        {
            proof {
                T::lemma_parse_sound(buf@, p as int);
            }
            match T::read(buf, p) {
                Some((x, end)) => {
                    let ghost head = models(v@);
                    v.push(x);
                    assert(models(v@) =~= head.push(x.model()));
                    p = end;
                },
                None => {
                    proof {
                        lemma_items_fail::<T>(buf@, first as int, (i + 1) as nat, n as nat);
                    }
                    return None;
                },
            }
            i += 1;
        }
        Some((v, p))
    }
}

/// Appends the encodings of four values, one after the other, as the
/// encoding of their nested pairs.
pub fn write_four<A: StrictEncode, B: StrictEncode, C: StrictEncode, D: StrictEncode>(
    a: &A,
    b: &B,
    c: &C,
    d: &D,
    out: &mut Vec<u8>,
    commit: bool,
) -> (ok: bool)
    requires
        a.wf(),
        b.wf(),
        c.wf(),
        d.wf(),
    ensures
        ok == <(A, (B, (C, D)))>::encodable((a.model(), (b.model(), (c.model(), d.model())))),
        ok ==> final(out)@ == old(out)@ + <(A, (B, (C, D)))>::ser(
            (a.model(), (b.model(), (c.model(), d.model()))),
            commit,
        ),
{
    if !a.write(out, commit) {
        return false;
    }
    if !b.write(out, commit) {
        return false;
    }
    if !c.write(out, commit) {
        return false;
    }
    if !d.write(out, commit) {
        return false;
    }
    assert(out@ =~= old(out)@ + (A::ser(a.model(), commit) + (B::ser(b.model(), commit) + (C::ser(
        c.model(),
        commit,
    ) + D::ser(d.model(), commit)))));
    true
}

/// The encoding of an encodable value is read back as that value.
pub proof fn lemma_round_trip<T: StrictEncode>(m: T::Model)
    requires
        T::encodable(m),
    ensures
        T::parse(T::ser(m, false), 0) == Some((m, T::ser(m, false).len() as int)),
{
    let s = T::ser(m, false);
    assert(s.subrange(0, s.len() as int) =~= s);
    T::lemma_parse_complete(s, 0, m);
}

/// Bytes that are read to their end as a value are the encoding of that
/// value, and of no other.
pub proof fn lemma_read_is_encoding<T: StrictEncode>(s: Seq<u8>, m: T::Model)
    requires
        T::parse(s, 0) == Some((m, s.len() as int)),
    ensures
        T::encodable(m),
        T::ser(m, false) == s,
{
    T::lemma_parse_sound(s, 0);
    assert(s.subrange(0, s.len() as int) =~= s);
}

/// Encodes a value for transfer. Gives nothing exactly when the value
/// cannot be encoded.
pub fn strict_encode<T: StrictEncode>(value: &T) -> (r: Option<Vec<u8>>)
    requires
        value.wf(),
    ensures
        match r {
            Some(bytes) => T::encodable(value.model()) && bytes@ == T::ser(value.model(), false),
            None => !T::encodable(value.model()),
        },
{
    let mut out: Vec<u8> = Vec::new();
    if value.write(&mut out, false) {
        assert(out@ =~= T::ser(value.model(), false));
        Some(out)
    } else {
        None
    }
}

/// Decodes a value from bytes that hold its encoding and nothing else.
/// Gives nothing exactly when the bytes are no such encoding.
pub fn strict_decode<T: StrictEncode>(bytes: &[u8]) -> (r: Option<T>)
    ensures
        match r {
            Some(value) => value.wf() && T::parse(bytes@, 0) == Some(
                (value.model(), bytes@.len() as int),
            ),
            None => !(T::parse(bytes@, 0) matches Some((_, end)) && end == bytes@.len()),
        },
{
    match T::read(bytes, 0) {
        Some((value, end)) => if end == bytes.len() {
            Some(value)
        } else {
            None
        },
        None => None,
    }
}

} // verus!
