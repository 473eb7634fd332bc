//! What is known of a video, and the arithmetic of its shape.
use vstd::prelude::*;

use crate::text::{
    find_chars, find_from, index_from, index_of, is_free_of, lemma_find_from, lemma_first_piece,
    lemma_index_at, occurs_at, opt_pair, pieces, pieces_of, text_of, texts, to_chars,
};

verus! {

/// The colour volume of a mastering display: chromaticities in units of 1/50000, luminances in
/// units of 1/10000.
#[derive(Clone, Copy, Debug, PartialEq, Eq, Structural)]
pub struct Mastering {
    pub gx: u32,
    pub gy: u32,
    pub bx: u32,
    pub by: u32,
    pub rx: u32,
    pub ry: u32,
    pub wx: u32,
    pub wy: u32,
    pub lmax: u32,
    pub lmin: u32,
}

/// A chromaticity in units of 1/65536.
#[derive(Clone, Copy, Debug, PartialEq, Eq, Structural)]
pub struct Point16 {
    pub x: u16,
    pub y: u16,
}

/// The colour volume of a mastering display in the units of AV1 metadata: chromaticities in
/// 1/65536, the highest luminance in 1/256, the lowest in 1/16384.
#[derive(Clone, Copy, Debug, PartialEq, Eq, Structural)]
pub struct Av1Mastering {
    pub r: Point16,
    pub g: Point16,
    pub b: Point16,
    pub wp: Point16,
    pub max_luma: u32,
    pub min_luma: u32,
}

/// What is known of a video.
pub struct VidInf {
    pub width: u32,
    pub height: u32,
    pub fps_num: u32,
    pub fps_den: u32,
    pub frames: usize,
    pub color_primaries: i8,
    pub transfer_characteristics: i8,
    pub matrix_coefficients: i8,
    pub color_range: i8,
    pub chroma_sample_position: i8,
    /// The colour volume that the container's text states, each number cut to a whole.
    pub mastering_display: Option<Mastering>,
    /// The light levels as text.
    pub content_light: Option<String>,
    /// The colour volume of the stream, each number rounded.
    pub mastering: Option<Mastering>,
    /// The colour volume of the stream in the units of AV1 metadata.
    pub av1_mastering: Option<Av1Mastering>,
    /// The highest light level of a pixel, and of a frame on average.
    pub content_light_level: Option<(u16, u16)>,
    pub is_10b: bool,
    /// The aspect ratio of the display.
    pub dar: Option<(u32, u32)>,
    pub y_linesz: usize,
}

/// Whether `d` divides `n`.
pub open spec fn divides(d: nat, n: nat) -> bool {
    d > 0 && n % d == 0
}

/// Euclid's algorithm.
pub open spec fn gcd_of(a: nat, b: nat) -> nat
    decreases b,
{
    if b == 0 {
        a
    } else {
        gcd_of(b, a % b)
    }
}

proof fn lemma_divides_sum(d: nat, q: nat, b: nat, r: nat)
    requires
        divides(d, b),
        divides(d, r),
    ensures
        divides(d, q * b + r),
{
    let x = b / d;
    let y = r / d;
    vstd::arithmetic::div_mod::lemma_fundamental_div_mod(b as int, d as int);
    vstd::arithmetic::div_mod::lemma_fundamental_div_mod(r as int, d as int);
    assert(q * b + r == (q * x + y) * d) by (nonlinear_arith)
        requires
            b == d * x,
            r == d * y,
    ;
    vstd::arithmetic::div_mod::lemma_mod_multiples_basic((q * x + y) as int, d as int);
}

proof fn lemma_divides_rest(d: nat, q: nat, b: nat, a: nat, r: nat)
    requires
        divides(d, a),
        divides(d, b),
        a == q * b + r,
    ensures
        divides(d, r),
{
    let x = a / d;
    let y = b / d;
    vstd::arithmetic::div_mod::lemma_fundamental_div_mod(a as int, d as int);
    vstd::arithmetic::div_mod::lemma_fundamental_div_mod(b as int, d as int);
    assert(r == (x - q * y) * d) by (nonlinear_arith)
        requires
            a == d * x,
            b == d * y,
            a == q * b + r,
    ;
    vstd::arithmetic::div_mod::lemma_mod_multiples_basic(x - q * y, d as int);
}

/// The greatest common divisor divides both numbers, and whatever divides both divides it.
pub proof fn law_gcd(a: nat, b: nat)
    requires
        a > 0 || b > 0,
    ensures
        gcd_of(a, b) > 0,
        divides(gcd_of(a, b), a),
        divides(gcd_of(a, b), b),
        forall|d: nat| divides(d, a) && divides(d, b) ==> #[trigger] divides(d, gcd_of(a, b)),
    decreases b,
{
    if b == 0 {
        assert(a % a == 0) by {
            vstd::arithmetic::div_mod::lemma_mod_self_0(a as int);
        }
        assert(0nat % a == 0) by {
            vstd::arithmetic::div_mod::lemma_small_mod(0, a);
        }
    } else {
        let q = a / b;
        let r = a % b;
        let g = gcd_of(b, r);
        vstd::arithmetic::div_mod::lemma_fundamental_div_mod(a as int, b as int);
        assert(a == q * b + r) by (nonlinear_arith)
            requires
                a == b * q + r,
        ;
        law_gcd(b, r);
        lemma_divides_sum(g, q, b, r);
        assert forall|d: nat| divides(d, a) && divides(d, b) implies #[trigger] divides(
            d,
            gcd_of(a, b),
        ) by {
            lemma_divides_rest(d, q, b, a, r);
        }
    }
}

/// The greatest common divisor is a combination of the two numbers.
proof fn lemma_bezout(a: nat, b: nat) -> (r: (int, int))
    ensures
        r.0 * a + r.1 * b == gcd_of(a, b),
    decreases b,
{
    if b == 0 {
        assert(1 * a + 0 * b == a);
        (1, 0)
    } else {
        let q = a / b;
        let m = a % b;
        let (x, y) = lemma_bezout(b, m);
        vstd::arithmetic::div_mod::lemma_fundamental_div_mod(a as int, b as int);
        assert(y * a + (x - y * q) * b == x * b + y * m) by (nonlinear_arith)
            requires
                a == b * q + m,
        ;
        (y, x - y * q)
    }
}

/// A number whose multiple by `d` is a multiple of `n` is no smaller than `n` in lowest terms
/// against `d`.
pub proof fn lemma_least_multiple(n: nat, d: nat, t: nat)
    requires
        n > 0,
        t > 0,
        (t * d) % n == 0,
    ensures
        n / gcd_of(n, d) <= t,
{
    law_gcd(n, d);
    let g = gcd_of(n, d);
    let (x, y) = lemma_bezout(n, d);
    let k = (t * d) / n;
    vstd::arithmetic::div_mod::lemma_fundamental_div_mod((t * d) as int, n as int);
    assert(t * g == n * (x * t + y * k)) by (nonlinear_arith)
        requires
            x * n + y * d == g,
            t * d == n * k,
    ;
    let m = x * t + y * k;
    assert(t * g > 0) by (nonlinear_arith)
        requires
            t > 0,
            g > 0,
    ;
    assert(m >= 1) by (nonlinear_arith)
        requires
            n * m > 0,
            n > 0,
    ;
    assert(n <= t * g) by (nonlinear_arith)
        requires
            t * g == n * m,
            m >= 1,
            n > 0,
    ;
    vstd::arithmetic::div_mod::lemma_fundamental_div_mod(n as int, g as int);
    let q = n / g;
    assert(q <= t) by (nonlinear_arith)
        requires
            n == g * q,
            n <= t * g,
            g > 0,
    ;
}

/// The greatest common divisor; of two zeros it is zero.
pub fn gcd(a: u64, b: u64) -> (g: u64)
    ensures
        g as nat == gcd_of(a as nat, b as nat),
{
    let mut x: u64 = a;
    let mut y: u64 = b;
    while y != 0
        invariant
            gcd_of(x as nat, y as nat) == gcd_of(a as nat, b as nat),
        decreases y,
    {
        let t: u64 = x % y;
        x = y;
        y = t;
    }
    x
}

/// The greatest common divisor, at least one.
pub open spec fn common(a: nat, b: nat) -> nat {
    if gcd_of(a, b) > 1 {
        gcd_of(a, b)
    } else {
        1
    }
}

/// The shape of a pixel in lowest terms: the display's shape against the frame's.
pub open spec fn pixel_shape(inf: &VidInf) -> (nat, nat) {
    match inf.dar {
        Some((dw, dh)) => {
            let n = (dw * inf.height) as nat;
            let d = (dh * inf.width) as nat;
            (n / common(n, d), d / common(n, d))
        },
        None => (1, 1),
    }
}

/// The shape of a pixel in lowest terms.
pub fn h26x_sar(inf: &VidInf) -> (r: (u64, u64))
    ensures
        (r.0 as nat, r.1 as nat) == pixel_shape(inf),
{
    match inf.dar {
        Some((dw, dh)) => {
            assert(dw * inf.height <= u32::MAX * u32::MAX) by (nonlinear_arith)
                requires
                    dw <= u32::MAX,
                    inf.height <= u32::MAX,
            ;
            assert(dh * inf.width <= u32::MAX * u32::MAX) by (nonlinear_arith)
                requires
                    dh <= u32::MAX,
                    inf.width <= u32::MAX,
            ;
            let n: u64 = dw as u64 * inf.height as u64;
            let d: u64 = dh as u64 * inf.width as u64;
            let g0: u64 = gcd(n, d);
            let g: u64 = if g0 > 1 {
                g0
            } else {
                1
            };
            (n / g, d / g)
        },
        None => (1, 1),
    }
}

/// The shape of a pixel has the ratio of the display's shape to the frame's, and no smaller
/// numbers have it.
pub proof fn law_pixel_shape_is_exact(inf: &VidInf, dw: u32, dh: u32)
    requires
        inf.dar == Some((dw, dh)),
        dw > 0,
        dh > 0,
        inf.width > 0,
        inf.height > 0,
    ensures
        pixel_shape(inf).0 * (dh * inf.width) == pixel_shape(inf).1 * (dw * inf.height),
        gcd_of(pixel_shape(inf).0, pixel_shape(inf).1) == 1,
{
    let n = (dw * inf.height) as nat;
    let d = (dh * inf.width) as nat;
    assert(n > 0) by (nonlinear_arith)
        requires
            n == dw * inf.height,
            dw > 0,
            inf.height > 0,
    ;
    assert(d > 0) by (nonlinear_arith)
        requires
            d == dh * inf.width,
            dh > 0,
            inf.width > 0,
    ;
    law_gcd(n, d);
    let g = gcd_of(n, d);
    assert(common(n, d) == g);
    let (x, y) = (n / g, d / g);
    vstd::arithmetic::div_mod::lemma_fundamental_div_mod(n as int, g as int);
    vstd::arithmetic::div_mod::lemma_fundamental_div_mod(d as int, g as int);
    assert(x * d == y * n) by (nonlinear_arith)
        requires
            n == g * x,
            d == g * y,
    ;
    assert(x > 0) by (nonlinear_arith)
        requires
            n == g * x,
            n > 0,
    ;
    law_gcd(x, y);
    let c = gcd_of(x, y);
    let (u, v) = (x / c, y / c);
    vstd::arithmetic::div_mod::lemma_fundamental_div_mod(x as int, c as int);
    vstd::arithmetic::div_mod::lemma_fundamental_div_mod(y as int, c as int);
    assert(n == u * (c * g) && d == v * (c * g)) by (nonlinear_arith)
        requires
            n == g * x,
            d == g * y,
            x == c * u,
            y == c * v,
    ;
    assert(c * g > 0) by (nonlinear_arith)
        requires
            c > 0,
            g > 0,
    ;
    vstd::arithmetic::div_mod::lemma_mod_multiples_basic(u as int, (c * g) as int);
    vstd::arithmetic::div_mod::lemma_mod_multiples_basic(v as int, (c * g) as int);
    assert(divides(c * g, n) && divides(c * g, d));
    assert(divides(c * g, g));
    vstd::arithmetic::div_mod::lemma_fundamental_div_mod(g as int, (c * g) as int);
    let k = g / (c * g);
    assert(c == 1) by (nonlinear_arith)
        requires
            g == (c * g) * k,
            g > 0,
            c > 0,
            k >= 0,
    ;
}

/// The two texts between a marker and the next closing bracket, parted by the first comma.
pub open spec fn pair_of(s: Seq<char>, marker: Seq<char>) -> Option<(Seq<char>, Seq<char>)> {
    match find_from(s, marker, 0) {
        Some(i) => {
            let start = i + marker.len();
            let end = index_from(s, ')', start);
            if end < s.len() {
                let parts = pieces_of(s.subrange(start, end), ',');
                if parts.len() >= 2 {
                    Some((parts[0], parts[1]))
                } else {
                    None
                }
            } else {
                None
            }
        },
        None => None,
    }
}

/// The two texts between a marker and the next closing bracket, parted by the first comma.
pub fn pair_text(s: &str, marker: &str) -> (r: Option<(String, String)>)
    ensures
        opt_pair(r) == pair_of(s@, marker@),
{
    let v = to_chars(s);
    let m = to_chars(marker);
    match find_chars(&v, &m, 0) {
        Some(i) => {
            let n: usize = v.len();
            let start: usize = i + m.len();
            let end: usize = index_of(&v, ')', start);
            if end < n {
                let inner = text_of(&v, start, end);
                let parts = pieces(inner.as_str(), ',');
                if parts.len() >= 2 {
                    assert(texts(parts@)[0] == parts@[0]@ && texts(parts@)[1] == parts@[1]@);
                    Some((parts[0].clone(), parts[1].clone()))
                } else {
                    None
                }
            } else {
                None
            }
        },
        None => None,
    }
}

/// The numbers of a mastering display as text.
pub struct MasteringTexts {
    pub g: (String, String),
    pub b: (String, String),
    pub r: (String, String),
    pub wp: (String, String),
    pub l: (String, String),
}

/// The texts of a pair.
pub open spec fn pair_view(p: (String, String)) -> (Seq<char>, Seq<char>) {
    (p.0@, p.1@)
}

/// Takes the description of a mastering display apart, where all five pairs are there.
pub fn mastering_texts(md: &str) -> (r: Option<MasteringTexts>)
    ensures
        r is Some <==> pair_of(md@, "G("@) is Some && pair_of(md@, "B("@) is Some && pair_of(
            md@,
            "R("@,
        ) is Some && pair_of(md@, "WP("@) is Some && pair_of(md@, "L("@) is Some,
        r matches Some(t) ==> {
            &&& pair_of(md@, "G("@) == Some(pair_view(t.g))
            &&& pair_of(md@, "B("@) == Some(pair_view(t.b))
            &&& pair_of(md@, "R("@) == Some(pair_view(t.r))
            &&& pair_of(md@, "WP("@) == Some(pair_view(t.wp))
            &&& pair_of(md@, "L("@) == Some(pair_view(t.l))
        },
{
    let g = pair_text(md, "G(");
    let b = pair_text(md, "B(");
    let r = pair_text(md, "R(");
    let wp = pair_text(md, "WP(");
    let l = pair_text(md, "L(");
    match (g, b, r, wp, l) {
        (Some(g), Some(b), Some(r), Some(wp), Some(l)) => Some(MasteringTexts { g, b, r, wp, l }),
        _ => None,
    }
}

/// Two texts behind a marker, with a comma between them and a bracket behind, are found as a pair; the
/// marker starts with a character that does not stand before it.
pub proof fn law_pairs_are_found(
    pre: Seq<char>,
    marker: Seq<char>,
    a: Seq<char>,
    b: Seq<char>,
    post: Seq<char>,
)
    requires
        marker.len() > 0,
        is_free_of(pre, marker[0]),
        is_free_of(a, ','),
        is_free_of(b, ','),
        is_free_of(a, ')'),
        is_free_of(b, ')'),
    ensures
        pair_of(pre + marker + a + seq![','] + b + seq![')'] + post, marker) == Some((a, b)),
{
    let s = pre + marker + a + seq![','] + b + seq![')'] + post;
    let n = pre.len() as int;
    assert(s.subrange(n, n + marker.len()) =~= marker);
    assert(occurs_at(s, marker, n));
    lemma_find_from(s, marker, 0);
    let i = find_from(s, marker, 0)->0;
    if i < n {
        assert(s.subrange(i, i + marker.len())[0] == pre[i]);
    }
    assert(i == n);
    let start = n + marker.len();
    let end = start + a.len() + 1 + b.len();
    assert forall|k: int| start <= k < end implies s[k] != ')' by {
        if k < start + a.len() {
            assert(s[k] == a[k - start]);
        } else if k > start + a.len() {
            assert(s[k] == b[k - start - a.len() - 1]);
        }
    }
    assert(s[end] == ')');
    lemma_index_at(s, ')', start, end);
    assert(s.subrange(start, end) =~= a.push(',') + b);
    lemma_first_piece(a, b, ',');
    lemma_first_piece(b, seq![], ',');
}


/// A video without a display shape has square pixels, and one whose display has the shape of the frame
/// too.
pub proof fn law_plain_pixels_are_square(inf: &VidInf)
    ensures
        inf.dar is None ==> pixel_shape(inf) == (1nat, 1nat),
        inf.width > 0 && inf.height > 0 && inf.dar == Some((inf.width, inf.height)) ==> pixel_shape(inf)
            == (1nat, 1nat),
{
    if inf.width > 0 && inf.height > 0 && inf.dar == Some((inf.width, inf.height)) {
        let n = (inf.width * inf.height) as nat;
        assert(inf.height * inf.width == inf.width * inf.height) by (nonlinear_arith);
        assert(n > 0) by (nonlinear_arith)
            requires
                n == inf.width * inf.height,
                inf.width > 0,
                inf.height > 0,
        ;
        law_pixel_shape_is_exact(inf, inf.width, inf.height);
        let (x, y) = pixel_shape(inf);
        assert(x == y);
        law_gcd(x, y);
        assert(x % x == 0) by (nonlinear_arith)
            requires
                x > 0,
        ;
        reveal_with_fuel(gcd_of, 3);
        assert(gcd_of(x, x) == x);
    }
}

} // verus!
