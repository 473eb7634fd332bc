//! Single-precision numbers by their IEEE 754 bit patterns: which is less, and in what order they
//! are sorted.
use vstd::prelude::*;

verus! {

/// The bit pattern of 8.
pub const EIGHT: u32 = 0x4100_0000;

/// The bit pattern of 10.
pub const TEN: u32 = 0x4120_0000;

/// The bit pattern of infinity.
pub const INFINITY: u32 = 0x7f80_0000;

/// The bit pattern of the number nearest to one thousandth.
pub const THOUSANDTH: u32 = 0x3a83_126f;

/// The pattern without its sign.
pub open spec fn magnitude(b: u32) -> int {
    b as int % 0x8000_0000
}

/// Whether the sign is set.
pub open spec fn negative(b: u32) -> bool {
    b >= 0x8000_0000
}

/// Whether the pattern stands for no number.
pub open spec fn is_nan(b: u32) -> bool {
    magnitude(b) > 0x7f80_0000
}

/// Numbers compare as these integers do; both zeros are 0.
pub open spec fn key_of(b: u32) -> int {
    if negative(b) {
        -magnitude(b)
    } else {
        magnitude(b)
    }
}

/// `a < b`, which no pattern that stands for no number takes part in.
pub open spec fn is_lt(a: u32, b: u32) -> bool {
    !is_nan(a) && !is_nan(b) && key_of(a) < key_of(b)
}

/// `a <= b`, which no pattern that stands for no number takes part in.
pub open spec fn is_le(a: u32, b: u32) -> bool {
    !is_nan(a) && !is_nan(b) && key_of(a) <= key_of(b)
}

/// The place of a pattern in the total order: negative patterns first, the larger in size the
/// earlier, and -0 before +0.
pub open spec fn rank_of(b: u32) -> int {
    if negative(b) {
        -magnitude(b) - 1
    } else {
        magnitude(b)
    }
}

fn key(b: u32) -> (k: i64)
    ensures
        k == key_of(b),
{
    let m: i64 = (b % 0x8000_0000) as i64;
    if b >= 0x8000_0000 {
        -m
    } else {
        m
    }
}

/// Whether the pattern stands for no number.
pub fn nan(b: u32) -> (r: bool)
    ensures
        r == is_nan(b),
{
    b % 0x8000_0000 > 0x7f80_0000
}

/// `a < b`.
pub fn lt(a: u32, b: u32) -> (r: bool)
    ensures
        r == is_lt(a, b),
{
    !nan(a) && !nan(b) && key(a) < key(b)
}

/// `a <= b`.
pub fn le(a: u32, b: u32) -> (r: bool)
    ensures
        r == is_le(a, b),
{
    !nan(a) && !nan(b) && key(a) <= key(b)
}

/// The place of a pattern in the total order.
pub fn rank(b: u32) -> (r: i64)
    ensures
        r == rank_of(b),
{
    let m: i64 = (b % 0x8000_0000) as i64;
    if b >= 0x8000_0000 {
        -m - 1
    } else {
        m
    }
}

/// Different patterns have different places in the total order.
pub proof fn law_rank_tells_patterns_apart(a: u32, b: u32)
    requires
        rank_of(a) == rank_of(b),
    ensures
        a == b,
{
}

/// Numbers that are less come first in the total order.
pub proof fn law_rank_agrees_with_less(a: u32, b: u32)
    requires
        is_lt(a, b),
    ensures
        rank_of(a) < rank_of(b),
{
}


/// Of two numbers one is less than the other, or each is at most the other; and what is less is not
/// more.
pub proof fn law_numbers_are_ordered(a: u32, b: u32)
    requires
        !is_nan(a),
        !is_nan(b),
    ensures
        is_lt(a, b) || is_le(b, a),
        !(is_lt(a, b) && is_le(b, a)),
        is_le(a, b) <==> !is_lt(b, a),
        is_le(a, a) && !is_lt(a, a),
{
}

/// The order is one of a line: what is less than something less is less.
pub proof fn law_less_is_transitive(a: u32, b: u32, c: u32)
    ensures
        is_lt(a, b) && is_lt(b, c) ==> is_lt(a, c),
        is_le(a, b) && is_lt(b, c) ==> is_lt(a, c),
        is_lt(a, b) && is_le(b, c) ==> is_lt(a, c),
        is_le(a, b) && is_le(b, c) ==> is_le(a, c),
{
}

/// Numbers without a sign are ordered as their patterns, those with a sign the other way round, and
/// these are never more than those; infinity is the largest of all, and what lies beyond it is no
/// number.
pub proof fn law_patterns_order_numbers(a: u32, b: u32)
    ensures
        a <= INFINITY && b <= INFINITY ==> (is_lt(a, b) <==> a < b),
        0x8000_0000 <= a <= 0xff80_0000 && 0x8000_0000 <= b <= 0xff80_0000 ==> (is_lt(a, b) <==> b
            < a),
        0x8000_0000 <= a <= 0xff80_0000 && b <= INFINITY ==> is_le(a, b),
        !is_nan(a) ==> is_le(a, INFINITY),
        INFINITY < a < 0x8000_0000 || 0xff80_0000 < a ==> is_nan(a) && !is_lt(a, b) && !is_lt(b, a)
            && !is_le(a, b) && !is_le(b, a),
{
}

} // verus!
