//! The paths of encoded chunks and of probes, rewritten in place for each chunk.
use vstd::prelude::*;
use vstd::utf8::{encode_utf8, is_ascii_chars};

use crate::encoder::ascii_bytes;
use crate::num::{
    all_digits, decimal, digit, digits_value, is_digit, lemma_zero_padded, push_zero_padded, zero_padded,
};

verus! {

broadcast use vstd::utf8::is_ascii_chars_encode_utf8;

/// The byte of one decimal digit.
pub open spec fn digit_byte(d: int) -> u8 {
    (48 + d) as u8
}

/// The byte at place `k` of a word, counted from the lowest.
pub open spec fn byte_at(w: u64, k: int) -> u8 {
    ((w >> ((8 * k) as u64)) & 0xff) as u8
}

/// A dot and a file extension of three bytes.
pub open spec fn dotted(ext: Seq<char>) -> Seq<u8> {
    seq![46u8] + encode_utf8(ext)
}

/// A dot and a file extension of three bytes.
pub fn dot_ext(ext: &str) -> (tail: [u8; 4])
    requires
        encode_utf8(ext@).len() == 3,
    ensures
        tail@ == dotted(ext@),
{
    let b = ext.as_bytes();
    let tail = [46u8, b[0], b[1], b[2]];
    assert(tail@ =~= dotted(ext@));
    tail
}

proof fn lemma_tenth_16(v: u32)
    requires
        v <= 65535,
    ensures
        v * 0xCCCD <= u32::MAX,
        ((v * 0xCCCD) as u32) >> 19 == v / 10,
{
    let x: u32 = (v * 0xCCCD) as u32;
    let q = v / 10;
    let r = v % 10;
    assert(x >> 19 == x / 524288) by (bit_vector);
    assert(x == 524288 * q + (2 * q + 52429 * r));
}

proof fn lemma_five_digits(a: u64, b: u64, c: u64, d: u64, e: u64, w: u64)
    requires
        a < 10,
        b < 10,
        c < 10,
        d < 10,
        e < 10,
        w == 0x0030_3030_3030u64 | a | (b << 8) | (c << 16) | (d << 24) | (e << 32),
    ensures
        byte_at(w, 0) == 48 + a,
        byte_at(w, 1) == 48 + b,
        byte_at(w, 2) == 48 + c,
        byte_at(w, 3) == 48 + d,
        byte_at(w, 4) == 48 + e,
        w >> 40 == 0,
{
    assert(a < 10 && b < 10 && c < 10 && d < 10 && e < 10 && w == 0x0030_3030_3030u64 | a | (b << 8)
        | (c << 16) | (d << 24) | (e << 32) ==> (w >> 0u64) & 0xff == 48 + a && (w >> 8u64) & 0xff
        == 48 + b && (w >> 16u64) & 0xff == 48 + c && (w >> 24u64) & 0xff == 48 + d && (w >> 32u64)
        & 0xff == 48 + e && w >> 40u64 == 0) by (bit_vector);
}

/// The five decimal digits of a chunk number as ASCII bytes, the first in the lowest place; the
/// three places above them are zero.
pub fn idx_digits(idx: u16) -> (w: u64)
    ensures
        byte_at(w, 0) == digit_byte(idx as int / 10000),
        byte_at(w, 1) == digit_byte(idx as int / 1000 % 10),
        byte_at(w, 2) == digit_byte(idx as int / 100 % 10),
        byte_at(w, 3) == digit_byte(idx as int / 10 % 10),
        byte_at(w, 4) == digit_byte(idx as int % 10),
        byte_at(w, 5) == 0,
        byte_at(w, 6) == 0,
        byte_at(w, 7) == 0,
{
    let v0: u32 = idx as u32;
    proof {
        lemma_tenth_16(v0);
    }
    let v1: u32 = (v0 * 0xCCCD) >> 19;
    proof {
        lemma_tenth_16(v1);
    }
    let v2: u32 = (v1 * 0xCCCD) >> 19;
    proof {
        lemma_tenth_16(v2);
    }
    let v3: u32 = (v2 * 0xCCCD) >> 19;
    proof {
        lemma_tenth_16(v3);
    }
    let v4: u32 = (v3 * 0xCCCD) >> 19;
    let a: u64 = v4 as u64;
    let b: u64 = (v3 - v4 * 10) as u64;
    let c: u64 = (v2 - v3 * 10) as u64;
    let d: u64 = (v1 - v2 * 10) as u64;
    let e: u64 = (v0 - v1 * 10) as u64;
    let w: u64 = 0x0030_3030_3030u64 | a | (b << 8) | (c << 16) | (d << 24) | (e << 32);
    proof {
        lemma_five_digits(a, b, c, d, e, w);
        assert(w >> 40 == 0 ==> (w >> 40u64) & 0xff == 0 && (w >> 48u64) & 0xff == 0 && (w
            >> 56u64) & 0xff == 0) by (bit_vector);
    }
    w
}

/// The number of a chunk as it stands in a file name: at least four digits.
pub open spec fn idx_bytes(idx: u16) -> Seq<u8> {
    ascii_bytes(zero_padded(idx as nat, 4))
}

/// The digits of a chunk number, one by one.
proof fn lemma_idx_bytes(idx: u16)
    ensures
        idx < 10000 ==> idx_bytes(idx) == seq![
            digit_byte(idx as int / 1000 % 10),
            digit_byte(idx as int / 100 % 10),
            digit_byte(idx as int / 10 % 10),
            digit_byte(idx as int % 10),
        ],
        idx >= 10000 ==> idx_bytes(idx) == seq![
            digit_byte(idx as int / 10000),
            digit_byte(idx as int / 1000 % 10),
            digit_byte(idx as int / 100 % 10),
            digit_byte(idx as int / 10 % 10),
            digit_byte(idx as int % 10),
        ],
{
    reveal_with_fuel(decimal, 6);
    let n = idx as nat;
    assert(n / 10 / 10 == n / 100);
    assert(n / 10 / 10 / 10 == n / 1000);
    assert(n / 10 / 10 / 10 / 10 == n / 10000);
    if n < 10 {
        assert(decimal(n) =~= seq![digit(n)]);
    } else if n < 100 {
        assert(decimal(n) =~= seq![digit(n / 10), digit(n % 10)]);
    } else if n < 1000 {
        assert(decimal(n) =~= seq![digit(n / 100), digit(n / 10 % 10), digit(n % 10)]);
    } else if n < 10000 {
        assert(decimal(n) =~= seq![
            digit(n / 1000),
            digit(n / 100 % 10),
            digit(n / 10 % 10),
            digit(n % 10),
        ]);
    } else {
        assert(decimal(n) =~= seq![
            digit(n / 10000),
            digit(n / 1000 % 10),
            digit(n / 100 % 10),
            digit(n / 10 % 10),
            digit(n % 10),
        ]);
    }
    if idx < 10000 {
        assert(idx_bytes(idx) =~= seq![
            digit_byte(idx as int / 1000 % 10),
            digit_byte(idx as int / 100 % 10),
            digit_byte(idx as int / 10 % 10),
            digit_byte(idx as int % 10),
        ]);
    } else {
        assert(idx_bytes(idx) =~= seq![
            digit_byte(idx as int / 10000),
            digit_byte(idx as int / 1000 % 10),
            digit_byte(idx as int / 100 % 10),
            digit_byte(idx as int / 10 % 10),
            digit_byte(idx as int % 10),
        ]);
    }
}

/// Appends the bytes of `w` at the places `from..to`.
fn push_bytes(buf: &mut Vec<u8>, w: u64, from: usize, to: usize)
    requires
        from <= to <= 8,
    ensures
        final(buf)@ == old(buf)@ + Seq::new((to - from) as nat, |k: int| byte_at(w, from + k)),
{
    let mut k: usize = from;
    assert(buf@ =~= old(buf)@ + Seq::new(0, |k: int| byte_at(w, from + k)));
    while k < to
        invariant
            from <= k <= to <= 8,
            buf@ == old(buf)@ + Seq::new((k - from) as nat, |k: int| byte_at(w, from + k)),
        decreases to - k,
    {
        let s: u64 = (8 * k) as u64;
        assert((w >> s) & 0xff <= 0xff) by (bit_vector);
        buf.push(((w >> s) & 0xff) as u8);
        k = k + 1;
        assert(buf@ =~= old(buf)@ + Seq::new((k - from) as nat, |k: int| byte_at(w, from + k)));
    }
}

/// Appends the number of a chunk: at least four digits.
fn push_idx(buf: &mut Vec<u8>, idx: u16)
    ensures
        final(buf)@ == old(buf)@ + idx_bytes(idx),
{
    let dig: u64 = idx_digits(idx);
    let skip: usize = if idx < 10000 {
        1
    } else {
        0
    };
    push_bytes(buf, dig, skip, 5);
    proof {
        lemma_idx_bytes(idx);
    }
    assert(buf@ =~= old(buf)@ + idx_bytes(idx));
}

/// Appends every byte of `more`.
fn push_all(buf: &mut Vec<u8>, more: &[u8])
    ensures
        final(buf)@ == old(buf)@ + more@,
{
    let mut i: usize = 0;
    assert(buf@ =~= old(buf)@ + more@.take(0));
    while i < more.len()
        invariant
            i <= more@.len(),
            buf@ == old(buf)@ + more@.take(i as int),
        decreases more@.len() - i,
    {
        buf.push(more[i]);
        i = i + 1;
        assert(buf@ =~= old(buf)@ + more@.take(i as int));
    }
    assert(more@.take(i as int) =~= more@);
}

/// The path of an encoded chunk: `<work dir>/encode/<number>.<extension>`.
pub struct OutPath {
    buf: Vec<u8>,
    at: usize,
    tail: [u8; 4],
}

impl OutPath {
    /// The place of the number lies inside the path.
    pub closed spec fn wf(&self) -> bool {
        self.at <= self.buf@.len()
    }

    /// What stands before the number.
    pub closed spec fn head(&self) -> Seq<u8> {
        self.buf@.take(self.at as int)
    }

    /// What stands behind the number.
    pub closed spec fn ending(&self) -> Seq<u8> {
        self.tail@
    }

    /// The path as bytes.
    pub closed spec fn path(&self) -> Seq<u8> {
        self.buf@
    }

    /// The path of chunks with extension `ext` under `work_dir`, not yet set to a chunk.
    pub fn new(work_dir: &str, ext: &str) -> (p: Self)
        requires
            encode_utf8(ext@).len() == 3,
        ensures
            p.wf(),
            p.head() == encode_utf8(work_dir@) + ascii_bytes("/encode/"@),
            p.ending() == dotted(ext@),
    {
        let mut buf: Vec<u8> = Vec::new();
        push_all(&mut buf, work_dir.as_bytes());
        proof {
            reveal_strlit("/encode/");
            assert(is_ascii_chars("/encode/"@));
        }
        push_all(&mut buf, "/encode/".as_bytes());
        assert(encode_utf8("/encode/"@) =~= ascii_bytes("/encode/"@));
        let at: usize = buf.len();
        assert(buf@.take(at as int) =~= encode_utf8(work_dir@) + ascii_bytes("/encode/"@));
        OutPath { buf, at, tail: dot_ext(ext) }
    }

    /// Turns the path to chunk `idx`.
    pub fn set(&mut self, idx: u16) -> (r: &Vec<u8>)
        requires
            old(self).wf(),
        ensures
            final(self).wf(),
            final(self).head() == old(self).head(),
            final(self).ending() == old(self).ending(),
            r@ == old(self).head() + idx_bytes(idx) + old(self).ending(),
            final(self).path() == r@,
    {
        self.buf.truncate(self.at);
        push_idx(&mut self.buf, idx);
        push_all(&mut self.buf, &self.tail);
        assert(self.buf@.take(self.at as int) =~= old(self).head());
        &self.buf
    }
}

/// A quality in hundredths as it stands in a file name: at least three digits, a dot, two digits.
pub open spec fn quality_bytes(h: u32) -> Seq<u8> {
    ascii_bytes(zero_padded(h as nat / 100, 3) + "."@ + zero_padded(h as nat % 100, 2))
}

/// A quality in hundredths as it is packed into a file name: three bytes, a dot, two digits. The
/// three bytes are the digits of a quality below 1000. From there on, what is above the tens is no
/// digit, and its bits are laid over the three bytes.
pub open spec fn packed_bytes(h: u32) -> Seq<u8> {
    let x = h as u64;
    let hundreds = x / 10000;
    seq![
        (0x30u64 | hundreds % 256) as u8,
        (0x30u64 | hundreds / 256 % 256 | x / 1000 % 10) as u8,
        (0x30u64 | hundreds / 65536 | x / 100 % 10) as u8,
        46u8,
        digit_byte(h as int / 10 % 10),
        digit_byte(h as int % 10),
    ]
}

proof fn lemma_tenth_32(h: u64)
    requires
        h <= u32::MAX,
    ensures
        h * 0xCCCC_CCCD <= u64::MAX,
        ((h * 0xCCCC_CCCD) as u64) >> 35 == h / 10,
{
    let x: u64 = (h * 0xCCCC_CCCD) as u64;
    let q = h / 10;
    let r = h % 10;
    assert(x >> 35 == x / 34359738368) by (bit_vector);
    assert(x == 34359738368 * q + (2 * q + 3435973837 * r));
}

proof fn lemma_quality_word(a: u64, b: u64, c: u64, d: u64, e: u64, w: u64)
    requires
        a < 0x8_0000,
        b < 10,
        c < 10,
        d < 10,
        e < 10,
        w == 0x0030_302E_3030_305Fu64 | (a << 8) | (b << 16) | (c << 24) | (d << 40) | (e << 48),
    ensures
        byte_at(w, 0) == 95,
        byte_at(w, 1) == (0x30u64 | a % 256) as u8,
        byte_at(w, 2) == (0x30u64 | a / 256 % 256 | b) as u8,
        byte_at(w, 3) == (0x30u64 | a / 65536 | c) as u8,
        byte_at(w, 4) == 46,
        byte_at(w, 5) == 48 + d,
        byte_at(w, 6) == 48 + e,
{
    assert(a < 0x8_0000 && b < 10 && c < 10 && d < 10 && e < 10 && w == 0x0030_302E_3030_305Fu64 | (
    a << 8) | (b << 16) | (c << 24) | (d << 40) | (e << 48) ==> (w >> 0u64) & 0xff == 95 && (w
        >> 8u64) & 0xff == 0x30u64 | a % 256 && (w >> 16u64) & 0xff == 0x30u64 | a / 256 % 256 | b
        && (w >> 24u64) & 0xff == 0x30u64 | a / 65536 | c && (w >> 32u64) & 0xff == 46 && (w
        >> 40u64) & 0xff == 48 + d && (w >> 48u64) & 0xff == 48 + e) by (bit_vector);
}

/// An underscore and a quality in hundredths as it is packed into a file name, the first byte in
/// the lowest place.
fn quality_digits(h: u32) -> (w: u64)
    ensures
        byte_at(w, 0) == 95,
        forall|k: int| 0 <= k < 6 ==> byte_at(w, 1 + k) == #[trigger] packed_bytes(h)[k],
{
    let h0: u64 = h as u64;
    proof {
        lemma_tenth_32(h0);
    }
    let h1: u64 = (h0 * 0xCCCC_CCCD) >> 35;
    proof {
        lemma_tenth_32(h1);
    }
    let h2: u64 = (h1 * 0xCCCC_CCCD) >> 35;
    proof {
        lemma_tenth_32(h2);
    }
    let h3: u64 = (h2 * 0xCCCC_CCCD) >> 35;
    proof {
        lemma_tenth_32(h3);
    }
    let h4: u64 = (h3 * 0xCCCC_CCCD) >> 35;
    let b: u64 = h3 - h4 * 10;
    let c: u64 = h2 - h3 * 10;
    let d: u64 = h1 - h2 * 10;
    let e: u64 = h0 - h1 * 10;
    let w: u64 = 0x0030_302E_3030_305Fu64 | (h4 << 8) | (b << 16) | (c << 24) | (d << 40) | (e
        << 48);
    proof {
        assert(h2 == h0 / 100 && h3 == h0 / 1000 && h4 == h0 / 10000);
        lemma_quality_word(h4, b, c, d, e, w);
        let s = packed_bytes(h);
        assert(byte_at(w, 1) == s[0] && byte_at(w, 2) == s[1] && byte_at(w, 3) == s[2]);
        assert(byte_at(w, 4) == s[3] && byte_at(w, 5) == s[4] && byte_at(w, 6) == s[5]);
    }
    w
}

/// The digits of a quality, one by one.
proof fn lemma_quality_bytes(h: u32)
    requires
        h < 100_000,
    ensures
        quality_bytes(h) == seq![
            digit_byte(h as int / 10000),
            digit_byte(h as int / 1000 % 10),
            digit_byte(h as int / 100 % 10),
            46u8,
            digit_byte(h as int / 10 % 10),
            digit_byte(h as int % 10),
        ],
{
    reveal_with_fuel(decimal, 4);
    reveal_strlit(".");
    let n = h as nat / 100;
    let m = h as nat % 100;
    assert(n / 10 / 10 == n / 100);
    assert(n / 100 == h as nat / 10000);
    assert(n / 10 % 10 == h as nat / 1000 % 10);
    assert(n % 10 == h as nat / 100 % 10);
    assert(m / 10 == h as nat / 10 % 10);
    assert(m % 10 == h as nat % 10);
    assert(zero_padded(n, 3) =~= seq![digit(n / 100), digit(n / 10 % 10), digit(n % 10)]);
    assert(zero_padded(m, 2) =~= seq![digit(m / 10), digit(m % 10)]);
    assert(quality_bytes(h) =~= seq![
        digit_byte(h as int / 10000),
        digit_byte(h as int / 1000 % 10),
        digit_byte(h as int / 100 % 10),
        46u8,
        digit_byte(h as int / 10 % 10),
        digit_byte(h as int % 10),
    ]);
}

proof fn lemma_quality_ascii(h: u32)
    ensures
        is_ascii_chars(zero_padded(h as nat / 100, 3) + "."@ + zero_padded(h as nat % 100, 2)),
{
    reveal_strlit(".");
    let a = zero_padded(h as nat / 100, 3);
    let b = zero_padded(h as nat % 100, 2);
    lemma_zero_padded(h as nat / 100, 3);
    lemma_zero_padded(h as nat % 100, 2);
    let q = a + "."@ + b;
    assert forall|i: int| 0 <= i < q.len() implies '\0' <= #[trigger] q[i] <= '\u{7f}' by {
        if i < a.len() {
            assert(is_digit(a[i]));
        } else if i > a.len() {
            assert(is_digit(b[i - a.len() - 1]));
        }
    }
}

/// A quality below 1000 is packed as its digits.
pub proof fn law_packed_is_written_out(h: u32)
    requires
        h < 100_000,
    ensures
        packed_bytes(h) == quality_bytes(h),
{
    lemma_quality_bytes(h);
    lemma_packed_bytes(h);
}

/// Appends an underscore and a quality in hundredths as it is packed.
fn push_packed(buf: &mut Vec<u8>, h: u32)
    ensures
        final(buf)@ == old(buf)@.push(95u8) + packed_bytes(h),
{
    let w: u64 = quality_digits(h);
    push_bytes(buf, w, 0, 7);
    let ghost want = old(buf)@.push(95u8) + packed_bytes(h);
    assert forall|k: int| 0 <= k < want.len() implies buf@[k] == want[k] by {
        let n = old(buf)@.len();
        if k > n {
            assert(byte_at(w, 1 + (k - n - 1)) == packed_bytes(h)[k - n - 1]);
        }
    }
    assert(buf@ =~= want);
}

/// Appends an underscore and a quality in hundredths, written out.
fn push_quality(buf: &mut Vec<u8>, h: u32)
    ensures
        final(buf)@ == old(buf)@.push(95u8) + quality_bytes(h),
{
    let mut s = String::new();
    push_zero_padded(&mut s, (h / 100) as u64, 3);
    s.append(".");
    push_zero_padded(&mut s, (h % 100) as u64, 2);
    buf.push(95u8);
    push_all(buf, s.as_str().as_bytes());
    proof {
        lemma_quality_ascii(h);
        assert(s@ =~= zero_padded(h as nat / 100, 3) + "."@ + zero_padded(h as nat % 100, 2));
        assert(encode_utf8(s@) =~= quality_bytes(h));
    }
}

/// The path of a probe: `<work dir>/split/<number>_<quality>.<extension>`.
pub struct SplitPath {
    buf: Vec<u8>,
    at: usize,
    tail: [u8; 4],
}

impl SplitPath {
    /// The place of the number lies inside the path.
    pub closed spec fn wf(&self) -> bool {
        self.at <= self.buf@.len()
    }

    /// What stands before the number.
    pub closed spec fn head(&self) -> Seq<u8> {
        self.buf@.take(self.at as int)
    }

    /// What stands behind the quality.
    pub closed spec fn ending(&self) -> Seq<u8> {
        self.tail@
    }

    /// The path as bytes.
    pub closed spec fn path(&self) -> Seq<u8> {
        self.buf@
    }

    /// A path for runs that keep their probes in memory.
    pub fn unused() -> (p: Self)
        ensures
            p.wf(),
            p.head() == Seq::<u8>::empty(),
            p.path() == Seq::<u8>::empty(),
            p.ending() == seq![0u8, 0u8, 0u8, 0u8],
    {
        let p = SplitPath { buf: Vec::new(), at: 0, tail: [0u8, 0u8, 0u8, 0u8] };
        assert(p.head() =~= Seq::<u8>::empty());
        p
    }

    /// The path of probes with extension `ext` under `work_dir`, not yet set to a chunk.
    pub fn new(work_dir: &str, ext: &str) -> (p: Self)
        requires
            encode_utf8(ext@).len() == 3,
        ensures
            p.wf(),
            p.head() == encode_utf8(work_dir@) + ascii_bytes("/split/"@),
            p.ending() == dotted(ext@),
    {
        let mut buf: Vec<u8> = Vec::new();
        push_all(&mut buf, work_dir.as_bytes());
        proof {
            reveal_strlit("/split/");
            assert(is_ascii_chars("/split/"@));
        }
        push_all(&mut buf, "/split/".as_bytes());
        assert(encode_utf8("/split/"@) =~= ascii_bytes("/split/"@));
        let at: usize = buf.len();
        assert(buf@.take(at as int) =~= encode_utf8(work_dir@) + ascii_bytes("/split/"@));
        SplitPath { buf, at, tail: dot_ext(ext) }
    }

    /// Turns the path to the probe of chunk `idx` at a quality of `hundredths`, on a system whose
    /// paths are bytes.
    pub fn set(&mut self, idx: u16, hundredths: u32) -> (r: &Vec<u8>)
        requires
            old(self).wf(),
        ensures
            final(self).wf(),
            final(self).head() == old(self).head(),
            final(self).ending() == old(self).ending(),
            r@ == (old(self).head() + idx_bytes(idx)).push(95u8) + packed_bytes(hundredths) + old(
                self,
            ).ending(),
            final(self).path() == r@,
    {
        self.buf.truncate(self.at);
        push_idx(&mut self.buf, idx);
        push_packed(&mut self.buf, hundredths);
        push_all(&mut self.buf, &self.tail);
        assert(self.buf@.take(self.at as int) =~= old(self).head());
        &self.buf
    }

    /// Turns the path to the probe of chunk `idx` at a quality of `hundredths`, on a system whose
    /// paths are texts: the quality is written out.
    pub fn set_text(&mut self, idx: u16, hundredths: u32) -> (r: &Vec<u8>)
        requires
            old(self).wf(),
        ensures
            final(self).wf(),
            final(self).head() == old(self).head(),
            final(self).ending() == old(self).ending(),
            r@ == (old(self).head() + idx_bytes(idx)).push(95u8) + quality_bytes(hundredths) + old(
                self,
            ).ending(),
            final(self).path() == r@,
    {
        self.buf.truncate(self.at);
        push_idx(&mut self.buf, idx);
        push_quality(&mut self.buf, hundredths);
        push_all(&mut self.buf, &self.tail);
        assert(self.buf@.take(self.at as int) =~= old(self).head());
        &self.buf
    }
}

/// A number is made of its digits.
proof fn lemma_digits_make_number(n: int)
    requires
        0 <= n,
    ensures
        n == n / 10000 * 10000 + n / 1000 % 10 * 1000 + n / 100 % 10 * 100 + n / 10 % 10 * 10 + n % 10,
        0 <= n / 10000,
        n <= 65535 ==> n / 10000 <= 6,
        n < 10000 ==> n / 10000 == 0,
{
    let (q1, q2, q3, q4) = (n / 10, n / 100, n / 1000, n / 10000);
    assert(q2 == q1 / 10) by {
        vstd::arithmetic::div_mod::lemma_div_denominator(n, 10, 10);
    }
    assert(q3 == q2 / 10) by {
        vstd::arithmetic::div_mod::lemma_div_denominator(n, 100, 10);
    }
    assert(q4 == q3 / 10) by {
        vstd::arithmetic::div_mod::lemma_div_denominator(n, 1000, 10);
    }
    assert(n == q1 * 10 + n % 10);
    assert(q1 == q2 * 10 + q1 % 10);
    assert(q2 == q3 * 10 + q2 % 10);
    assert(q3 == q4 * 10 + q3 % 10);
}

/// Different chunks have different file names.
pub proof fn law_chunk_names_differ(a: u16, b: u16)
    requires
        idx_bytes(a) == idx_bytes(b),
    ensures
        a == b,
{
    lemma_idx_bytes(a);
    lemma_idx_bytes(b);
    lemma_digits_make_number(a as int);
    lemma_digits_make_number(b as int);
    let s = idx_bytes(a);
    let n = s.len() as int;
    assert(n == 4 || n == 5);
    assert(s[n - 1] == digit_byte(a as int % 10) && s[n - 1] == digit_byte(b as int % 10));
    assert(a as int % 10 == b as int % 10);
    assert(s[n - 2] == digit_byte(a as int / 10 % 10) && s[n - 2] == digit_byte(b as int / 10 % 10));
    assert(a as int / 10 % 10 == b as int / 10 % 10);
    assert(s[n - 3] == digit_byte(a as int / 100 % 10) && s[n - 3] == digit_byte(
        b as int / 100 % 10,
    ));
    assert(a as int / 100 % 10 == b as int / 100 % 10);
    assert(s[n - 4] == digit_byte(a as int / 1000 % 10) && s[n - 4] == digit_byte(
        b as int / 1000 % 10,
    ));
    assert(a as int / 1000 % 10 == b as int / 1000 % 10);
    if n == 5 {
        assert(s[0] == digit_byte(a as int / 10000) && s[0] == digit_byte(b as int / 10000));
    }
    assert(a as int / 10000 == b as int / 10000);
}

/// A file name tells the number of its chunk from what stands behind the underscore.
proof fn lemma_number_is_set_off(i1: u16, q1: Seq<u8>, i2: u16, q2: Seq<u8>)
    requires
        idx_bytes(i1).push(95u8) + q1 == idx_bytes(i2).push(95u8) + q2,
    ensures
        i1 == i2,
        q1 == q2,
{
    lemma_idx_bytes(i1);
    lemma_idx_bytes(i2);
    let n1 = idx_bytes(i1).len() as int;
    let n2 = idx_bytes(i2).len() as int;
    let s = idx_bytes(i1).push(95u8) + q1;
    let t = idx_bytes(i2).push(95u8) + q2;
    assert(s[n1] == 95 && t[n2] == 95);
    if n1 < n2 {
        assert(t[4] == digit_byte(i2 as int % 10));
    }
    if n2 < n1 {
        assert(s[4] == digit_byte(i1 as int % 10));
    }
    assert(idx_bytes(i1) =~= s.take(n1));
    assert(idx_bytes(i2) =~= t.take(n2));
    law_chunk_names_differ(i1, i2);
    assert(q1 =~= s.skip(n1 + 1));
    assert(q2 =~= t.skip(n2 + 1));
}

/// Different probes have different file names where the quality is written out: another chunk or
/// another quality is another name.
pub proof fn law_probe_text_names_differ(i1: u16, h1: u32, i2: u16, h2: u32)
    requires
        idx_bytes(i1).push(95u8) + quality_bytes(h1) == idx_bytes(i2).push(95u8) + quality_bytes(h2),
    ensures
        i1 == i2,
        h1 == h2,
{
    lemma_number_is_set_off(i1, quality_bytes(h1), i2, quality_bytes(h2));
    lemma_quality_differs(h1, h2);
}

/// Different probes have different file names where the quality is packed and below 1600: another
/// chunk or another quality is another name. At 1600 the name is that of 0.
pub proof fn law_probe_names_differ(i1: u16, h1: u32, i2: u16, h2: u32)
    requires
        h1 < 160_000,
        h2 < 160_000,
        idx_bytes(i1).push(95u8) + packed_bytes(h1) == idx_bytes(i2).push(95u8) + packed_bytes(h2),
    ensures
        i1 == i2,
        h1 == h2,
{
    lemma_number_is_set_off(i1, packed_bytes(h1), i2, packed_bytes(h2));
    lemma_packed_bytes(h1);
    lemma_packed_bytes(h2);
    lemma_digits_make_number(h1 as int);
    lemma_digits_make_number(h2 as int);
    let (s, t) = (packed_bytes(h1), packed_bytes(h2));
    assert(s[0] == t[0] && s[1] == t[1] && s[2] == t[2] && s[4] == t[4] && s[5] == t[5]);
}

/// The bytes of a packed quality below 1600, one by one.
proof fn lemma_packed_bytes(h: u32)
    requires
        h < 160_000,
    ensures
        packed_bytes(h) == seq![
            digit_byte(h as int / 10000),
            digit_byte(h as int / 1000 % 10),
            digit_byte(h as int / 100 % 10),
            46u8,
            digit_byte(h as int / 10 % 10),
            digit_byte(h as int % 10),
        ],
{
    let x = h as u64;
    let (a, b, c) = (x / 10000, x / 1000 % 10, x / 100 % 10);
    assert(a < 16 && b < 10 && c < 10 ==> 0x30u64 | a == 48 + a && 0x30u64 | 0 | b == 48 + b
        && 0x30u64 | 0 | c == 48 + c) by (bit_vector);
}

proof fn lemma_quality_differs(h1: u32, h2: u32)
    requires
        quality_bytes(h1) == quality_bytes(h2),
    ensures
        h1 == h2,
{
    reveal_strlit(".");
    reveal_with_fuel(decimal, 3);
    let (a1, b1) = (zero_padded(h1 as nat / 100, 3), zero_padded(h1 as nat % 100, 2));
    let (a2, b2) = (zero_padded(h2 as nat / 100, 3), zero_padded(h2 as nat % 100, 2));
    let q1 = a1 + "."@ + b1;
    let q2 = a2 + "."@ + b2;
    lemma_quality_ascii(h1);
    lemma_quality_ascii(h2);
    assert(quality_bytes(h1).len() == q1.len());
    assert(quality_bytes(h2).len() == q2.len());
    assert forall|i: int| 0 <= i < q1.len() implies q1[i] == q2[i] by {
        assert(quality_bytes(h1)[i] == q1[i] as u8);
        assert(quality_bytes(h2)[i] == q2[i] as u8);
    }
    assert(q1 =~= q2);
    assert(b1.len() == 2 && b2.len() == 2);
    assert(a1 =~= q1.take(q1.len() - 3));
    assert(a2 =~= q2.take(q2.len() - 3));
    assert(b1 =~= q1.skip(q1.len() - 2));
    assert(b2 =~= q2.skip(q2.len() - 2));
    lemma_zero_padded(h1 as nat / 100, 3);
    lemma_zero_padded(h2 as nat / 100, 3);
    lemma_zero_padded(h1 as nat % 100, 2);
    lemma_zero_padded(h2 as nat % 100, 2);
}


/// The digits in a chunk's file name are its number, in four digits where they are enough.
pub proof fn law_chunk_name_is_its_number(idx: u16)
    ensures
        exists|d: Seq<char>| #[trigger]
            ascii_bytes(d) == idx_bytes(idx) && all_digits(d) && digits_value(d) == idx && d.len()
                >= 4 && (idx < 10000 ==> d.len() == 4),
{
    lemma_zero_padded(idx as nat, 4);
    lemma_idx_bytes(idx);
    let d = zero_padded(idx as nat, 4);
    assert(ascii_bytes(d) == idx_bytes(idx));
    assert(d.len() == idx_bytes(idx).len());
}

/// The word that holds a chunk's digits holds its number: the bytes stand for ten thousands, and so
/// on down to ones, and nothing stands above them.
pub proof fn law_word_is_the_number(idx: u16, w: u64)
    requires
        call_ensures(idx_digits, (idx,), w),
    ensures
        (byte_at(w, 0) - 48) * 10000 + (byte_at(w, 1) - 48) * 1000 + (byte_at(w, 2) - 48) * 100 + (
        byte_at(w, 3) - 48) * 10 + (byte_at(w, 4) - 48) == idx,
        forall|k: int| 0 <= k < 5 ==> 48 <= #[trigger] byte_at(w, k) <= 57,
        byte_at(w, 5) == 0 && byte_at(w, 6) == 0 && byte_at(w, 7) == 0,
{
    lemma_digits_make_number(idx as int);
    assert forall|k: int| 0 <= k < 5 implies 48 <= #[trigger] byte_at(w, k) <= 57 by {
        assert(k == 0 || k == 1 || k == 2 || k == 3 || k == 4);
    }
}

/// A quality that is written out is read back: the digits before the dot are its whole part, the two
/// behind it its hundredths.
pub proof fn law_written_quality_reads_back(h: u32)
    ensures
        exists|a: Seq<char>, b: Seq<char>| #[trigger]
            ascii_bytes(a.push('.') + b) == quality_bytes(h) && all_digits(a) && all_digits(b)
                && digits_value(a) * 100 + digits_value(b) == h && b.len() == 2 && a.len() >= 3,
{
    reveal_strlit(".");
    reveal_with_fuel(decimal, 3);
    let (a, b) = (zero_padded(h as nat / 100, 3), zero_padded(h as nat % 100, 2));
    lemma_zero_padded(h as nat / 100, 3);
    lemma_zero_padded(h as nat % 100, 2);
    assert(a + "."@ + b =~= a.push('.') + b);
    assert(ascii_bytes(a.push('.') + b) == quality_bytes(h));
}

/// The files of chunks and those of probes lie in different directories of the work directory, and
/// both have a dot and the stream's extension at the end.
pub proof fn law_chunks_and_probes_lie_apart(
    work_dir: &str,
    ext: &str,
    chunks: OutPath,
    probes: SplitPath,
)
    requires
        encode_utf8(ext@).len() == 3,
        call_ensures(OutPath::new, (work_dir, ext), chunks),
        call_ensures(SplitPath::new, (work_dir, ext), probes),
    ensures
        chunks.wf() && probes.wf(),
        encode_utf8(work_dir@).is_prefix_of(chunks.head()),
        encode_utf8(work_dir@).is_prefix_of(probes.head()),
        chunks.head().skip(encode_utf8(work_dir@).len() as int) == ascii_bytes("/encode/"@),
        probes.head().skip(encode_utf8(work_dir@).len() as int) == ascii_bytes("/split/"@),
        chunks.head() != probes.head(),
        chunks.ending() == probes.ending(),
        chunks.ending().len() == 4 && chunks.ending()[0] == 46,
        chunks.ending().skip(1) == encode_utf8(ext@),
{
    reveal_strlit("/encode/");
    reveal_strlit("/split/");
    let n = encode_utf8(work_dir@).len() as int;
    assert(chunks.head().skip(n) =~= ascii_bytes("/encode/"@));
    assert(probes.head().skip(n) =~= ascii_bytes("/split/"@));
    assert(chunks.head().len() == n + 8);
    assert(probes.head().len() == n + 7);
    assert(chunks.ending().skip(1) =~= encode_utf8(ext@));
}


/// The path of a chunk is what stands before the number, the number, and the extension; turned to
/// another chunk it differs in the number alone, and turned twice it is as if turned once.
pub proof fn law_path_turns_to_a_chunk(p: &mut OutPath, idx: u16, r: &Vec<u8>)
    requires
        p.wf(),
        call_ensures(OutPath::set, (p, idx), r),
    ensures
        old(p).head().is_prefix_of(r@),
        r@.skip(r@.len() - old(p).ending().len()) == old(p).ending(),
        r@.subrange(old(p).head().len() as int, r@.len() - old(p).ending().len()) == idx_bytes(idx),
        final(p).head() == old(p).head() && final(p).ending() == old(p).ending(),
        final(p).wf(),
{
    let (a, b, c) = (old(p).head(), idx_bytes(idx), old(p).ending());
    assert(r@ == a + b + c);
    assert(r@.skip(r@.len() - c.len()) =~= c);
    assert(r@.subrange(a.len() as int, r@.len() - c.len()) =~= b);
}

/// The path of a probe is what stands before the number, the number, an underscore, the quality and
/// the extension; of a quality below 1000 it is the same on every system.
pub proof fn law_path_turns_to_a_probe(
    p: &mut SplitPath,
    q: &mut SplitPath,
    idx: u16,
    h: u32,
    r: &Vec<u8>,
    t: &Vec<u8>,
)
    requires
        p.wf() && q.wf(),
        p.head() == q.head() && p.ending() == q.ending(),
        call_ensures(SplitPath::set, (p, idx, h), r),
        call_ensures(SplitPath::set_text, (q, idx, h), t),
    ensures
        h < 100_000 ==> r@ == t@,
        r@ == old(p).head() + idx_bytes(idx) + seq![95u8] + packed_bytes(h) + old(p).ending(),
        t@ == old(p).head() + idx_bytes(idx) + seq![95u8] + quality_bytes(h) + old(p).ending(),
        final(p).head() == old(p).head() && final(p).ending() == old(p).ending(),
{
    if h < 100_000 {
        law_packed_is_written_out(h);
    }
    let a = old(p).head() + idx_bytes(idx);
    assert(a.push(95u8) =~= a + seq![95u8]);
}


/// A path that is not used holds nothing.
pub proof fn law_unused_path_is_empty(p: SplitPath)
    requires
        call_ensures(SplitPath::unused, (), p),
    ensures
        p.wf() && p.path().len() == 0 && p.head().len() == 0,
{
}

} // verus!
