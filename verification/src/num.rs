//! Numbers as text: decimal and hexadecimal digits, padding, and reading them back.
use vstd::prelude::*;

use crate::text::to_chars;

verus! {

/// The character of a digit below sixteen.
pub open spec fn digit(d: nat) -> char {
    if d < 10 {
        ('0' as u32 + d) as char
    } else {
        ('a' as u32 + (d - 10)) as char
    }
}

/// The character of a digit below sixteen.
pub fn digit_char(d: u64) -> (c: char)
    requires
        d < 16,
    ensures
        c == digit(d as nat),
{
    if d < 10 {
        let n: u8 = 48 + d as u8;
        n as char
    } else {
        let n: u8 = 87 + d as u8;
        n as char
    }
}

/// The decimal digits of a number, without leading zeros.
pub open spec fn decimal(n: nat) -> Seq<char>
    decreases n,
{
    if n < 10 {
        seq![digit(n)]
    } else {
        decimal(n / 10).push(digit(n % 10))
    }
}

/// The lower-case hexadecimal digits of a number, without leading zeros.
pub open spec fn hexadecimal(n: nat) -> Seq<char>
    decreases n,
{
    if n < 16 {
        seq![digit(n)]
    } else {
        hexadecimal(n / 16).push(digit(n % 16))
    }
}

/// A number with a sign in front when it is negative.
pub open spec fn signed(n: int) -> Seq<char> {
    if n < 0 {
        seq!['-'] + decimal((-n) as nat)
    } else {
        decimal(n as nat)
    }
}

/// `n` copies of one character.
pub open spec fn run_of(c: char, n: nat) -> Seq<char> {
    Seq::new(n, |i: int| c)
}

/// The text moved right with `fill` until it is `width` characters wide.
pub open spec fn pad_left(s: Seq<char>, fill: char, width: nat) -> Seq<char> {
    if s.len() < width {
        run_of(fill, (width - s.len()) as nat) + s
    } else {
        s
    }
}

/// The text followed by blanks until it is `width` characters wide.
pub open spec fn pad_right(s: Seq<char>, width: nat) -> Seq<char> {
    if s.len() < width {
        s + run_of(' ', (width - s.len()) as nat)
    } else {
        s
    }
}

/// The number in decimal with leading zeros up to `width` digits.
pub open spec fn zero_padded(n: nat, width: nat) -> Seq<char> {
    pad_left(decimal(n), '0', width)
}

/// Appends the decimal digits of `n`.
pub fn push_decimal(s: &mut String, n: u64)
    ensures
        final(s)@ == old(s)@ + decimal(n as nat),
    decreases n,
{
    if n >= 10 {
        push_decimal(s, n / 10);
    }
    s.push(digit_char(n % 10));
    assert(s@ =~= old(s)@ + decimal(n as nat));
}

/// The decimal digits of `n`.
pub fn decimal_text(n: u64) -> (s: String)
    ensures
        s@ == decimal(n as nat),
{
    let mut s = String::new();
    push_decimal(&mut s, n);
    assert(s@ =~= decimal(n as nat));
    s
}

/// The decimal digits of `n`.
pub fn usize_text(n: usize) -> (s: String)
    ensures
        s@ == decimal(n as nat),
{
    decimal_text(n as u64)
}

/// The decimal digits of `n`, signed.
pub fn signed_text(n: i64) -> (s: String)
    ensures
        s@ == signed(n as int),
{
    let mut s = String::new();
    if n < 0 {
        s.push('-');
        let m: u64 = if n == i64::MIN {
            0x8000_0000_0000_0000
        } else {
            (-n) as u64
        };
        push_decimal(&mut s, m);
        assert(s@ =~= signed(n as int));
    } else {
        push_decimal(&mut s, n as u64);
        assert(s@ =~= signed(n as int));
    }
    s
}

/// Appends the hexadecimal digits of `n`.
pub fn push_hexadecimal(s: &mut String, n: u64)
    ensures
        final(s)@ == old(s)@ + hexadecimal(n as nat),
    decreases n,
{
    if n >= 16 {
        push_hexadecimal(s, n / 16);
    }
    s.push(digit_char(n % 16));
    assert(s@ =~= old(s)@ + hexadecimal(n as nat));
}

/// Appends `n` copies of `c`.
pub fn push_run(s: &mut String, c: char, n: usize)
    ensures
        final(s)@ == old(s)@ + run_of(c, n as nat),
{
    let mut i: usize = 0;
    assert(s@ =~= old(s)@ + run_of(c, 0));
    while i < n
        invariant
            i <= n,
            s@ == old(s)@ + run_of(c, i as nat),
        decreases n - i,
    {
        s.push(c);
        i = i + 1;
        assert(s@ =~= old(s)@ + run_of(c, i as nat));
    }
}

/// Appends `t`, moved right with `fill` to `width` characters.
pub fn push_padded_left(s: &mut String, t: &str, fill: char, width: usize)
    ensures
        final(s)@ == old(s)@ + pad_left(t@, fill, width as nat),
{
    let v = to_chars(t);
    if v.len() < width {
        push_run(s, fill, width - v.len());
    }
    s.append(t);
    assert(s@ =~= old(s)@ + pad_left(t@, fill, width as nat));
}

/// Appends `t`, followed by blanks up to `width` characters.
pub fn push_padded_right(s: &mut String, t: &str, width: usize)
    ensures
        final(s)@ == old(s)@ + pad_right(t@, width as nat),
{
    let v = to_chars(t);
    s.append(t);
    if v.len() < width {
        push_run(s, ' ', width - v.len());
    }
    assert(s@ =~= old(s)@ + pad_right(t@, width as nat));
}

/// Appends `n` in decimal with leading zeros up to `width` digits.
pub fn push_zero_padded(s: &mut String, n: u64, width: usize)
    ensures
        final(s)@ == old(s)@ + zero_padded(n as nat, width as nat),
{
    let t = decimal_text(n);
    push_padded_left(s, t.as_str(), '0', width);
}

/// Appends `n` in decimal, moved right with blanks to `width` characters.
pub fn push_right_aligned(s: &mut String, n: u64, width: usize)
    ensures
        final(s)@ == old(s)@ + pad_left(decimal(n as nat), ' ', width as nat),
{
    let t = decimal_text(n);
    push_padded_left(s, t.as_str(), ' ', width);
}

/// Whether the character is one of the ten decimal digits.
pub open spec fn is_digit(c: char) -> bool {
    '0' <= c && c <= '9'
}

/// The number that a run of decimal digits stands for.
pub open spec fn digits_value(s: Seq<char>) -> nat
    decreases s.len(),
{
    if s.len() == 0 {
        0
    } else {
        digits_value(s.drop_last()) * 10 + (s.last() as u32 - '0' as u32) as nat
    }
}

/// Whether the text is one or more decimal digits.
pub open spec fn all_digits(s: Seq<char>) -> bool {
    s.len() > 0 && forall|i: int| 0 <= i < s.len() ==> is_digit(#[trigger] s[i])
}

/// The number that a text stands for: decimal digits, with an optional `+` in front.
pub open spec fn number_of(s: Seq<char>) -> Option<nat> {
    let d = if s.len() > 1 && s[0] == '+' {
        s.drop_first()
    } else {
        s
    };
    if all_digits(d) {
        Some(digits_value(d))
    } else {
        None
    }
}

/// The number that a text stands for, where it fits the machine word.
pub open spec fn usize_of(s: Seq<char>) -> Option<usize> {
    match number_of(s) {
        Some(n) => if n <= usize::MAX {
            Some(n as usize)
        } else {
            None
        },
        None => None,
    }
}

/// Reads a number: decimal digits, with an optional `+` in front.
pub fn parse_usize(s: &str) -> (r: Option<usize>)
    ensures
        r == usize_of(s@),
{
    let v = to_chars(s);
    let start: usize = if v.len() > 1 && v[0] == '+' {
        1
    } else {
        0
    };
    let ghost d = if v@.len() > 1 && v@[0] == '+' {
        v@.drop_first()
    } else {
        v@
    };
    assert(d =~= v@.skip(start as int));
    if v.len() == 0 {
        return None;
    }
    let mut i: usize = start;
    let mut n: usize = 0;
    let mut fits: bool = true;
    assert(d.take(0) =~= seq![]);
    while i < v.len()
        invariant
            v@ == s@,
            start <= i <= v@.len(),
            start < v@.len(),
            d == v@.skip(start as int),
            number_of(s@) == (if all_digits(d) {
                Some(digits_value(d))
            } else {
                None
            }),
            forall|k: int| 0 <= k < i - start ==> is_digit(#[trigger] d[k]),
            fits ==> n as nat == digits_value(d.take(i - start)),
            !fits ==> digits_value(d.take(i - start)) > usize::MAX,
        decreases v@.len() - i,
    {
        let c = v[i];
        assert(c == d[i - start]);
        if !('0' <= c && c <= '9') {
            assert(!is_digit(d[i - start]));
            return None;
        }
        let x: usize = (c as u32 - 48) as usize;
        assert(d.take(i - start + 1).drop_last() =~= d.take(i - start));
        assert(d.take(i - start + 1).last() == c);
        if fits {
            if n > usize::MAX / 10 || n * 10 > usize::MAX - x {
                fits = false;
                assert(n > usize::MAX / 10 ==> n * 10 > usize::MAX) by (nonlinear_arith);
            } else {
                n = n * 10 + x;
            }
        }
        i = i + 1;
    }
    assert(d.take(i - start) =~= d);
    if fits {
        Some(n)
    } else {
        None
    }
}

/// The digits of a number are all decimal digits.
pub proof fn lemma_decimal_digits(n: nat)
    ensures
        all_digits(decimal(n)),
        digits_value(decimal(n)) == n,
    decreases n,
{
    if n < 10 {
        let s = decimal(n);
        assert(s.drop_last() =~= Seq::<char>::empty());
        assert(digits_value(Seq::<char>::empty()) == 0);
        assert(s.last() == digit(n));
    } else {
        lemma_decimal_digits(n / 10);
        let s = decimal(n);
        assert(s.drop_last() =~= decimal(n / 10));
        assert(s.last() == digit(n % 10));
        assert forall|i: int| 0 <= i < s.len() implies is_digit(#[trigger] s[i]) by {
            if i < s.len() - 1 {
                assert(s[i] == decimal(n / 10)[i]);
            }
        }
    }
}

/// Reading the decimal digits of a number gives the number back.
pub proof fn law_decimal_reads_back(n: usize)
    ensures
        usize_of(decimal(n as nat)) == Some(n),
{
    lemma_decimal_digits(n as nat);
    let s = decimal(n as nat);
    assert(is_digit(s[0]));
}

/// Leading zeros do not change a number.
proof fn lemma_leading_zeros(k: nat, s: Seq<char>)
    ensures
        digits_value(run_of('0', k) + s) == digits_value(s),
    decreases k + s.len(),
{
    let t = run_of('0', k) + s;
    if s.len() > 0 {
        lemma_leading_zeros(k, s.drop_last());
        assert(t.drop_last() =~= run_of('0', k) + s.drop_last());
        assert(t.last() == s.last());
    } else if k > 0 {
        lemma_leading_zeros((k - 1) as nat, s);
        assert(t.drop_last() =~= run_of('0', (k - 1) as nat) + s);
        assert(t.last() == '0');
    } else {
        assert(t =~= s);
    }
}

/// The digits of a padded number are decimal digits and stand for the number.
pub proof fn lemma_zero_padded(n: nat, width: nat)
    ensures
        all_digits(zero_padded(n, width)),
        digits_value(zero_padded(n, width)) == n,
        zero_padded(n, width).len() >= width,
{
    lemma_decimal_digits(n);
    let d = decimal(n);
    if d.len() < width {
        let k = (width - d.len()) as nat;
        lemma_leading_zeros(k, d);
        let p = zero_padded(n, width);
        assert forall|i: int| 0 <= i < p.len() implies is_digit(#[trigger] p[i]) by {
            if i >= k {
                assert(p[i] == d[i - k]);
            }
        }
    }
}


/// The number that lower-case hexadecimal digits stand for.
pub open spec fn hex_value(s: Seq<char>) -> nat
    decreases s.len(),
{
    if s.len() == 0 {
        0
    } else {
        hex_value(s.drop_last()) * 16 + if is_digit(s.last()) {
            (s.last() as u32 - '0' as u32) as nat
        } else {
            (s.last() as u32 - 'a' as u32 + 10) as nat
        }
    }
}

/// The hexadecimal digits of a number are lower-case, stand for the number, and start with no zero but
/// that of nought.
pub proof fn law_hexadecimal_reads_back(n: nat)
    ensures
        hex_value(hexadecimal(n)) == n,
        hexadecimal(n).len() > 0,
        forall|i: int|
            0 <= i < hexadecimal(n).len() ==> is_digit(#[trigger] hexadecimal(n)[i]) || 'a'
                <= hexadecimal(n)[i] <= 'f',
        n > 0 ==> hexadecimal(n)[0] != '0',
    decreases n,
{
    let s = hexadecimal(n);
    if n < 16 {
        assert(s.drop_last() =~= Seq::<char>::empty());
        assert(hex_value(Seq::<char>::empty()) == 0);
        assert(s.last() == digit(n));
    } else {
        law_hexadecimal_reads_back(n / 16);
        assert(s.drop_last() =~= hexadecimal(n / 16));
        assert(s.last() == digit(n % 16));
        assert forall|i: int| 0 <= i < s.len() implies is_digit(#[trigger] s[i]) || 'a' <= s[i]
            <= 'f' by {
            if i < s.len() - 1 {
                assert(s[i] == hexadecimal(n / 16)[i]);
            }
        }
        assert(s[0] == hexadecimal(n / 16)[0]);
    }
}

/// The decimal digits of a number stand for it, and start with no zero but that of nought; one with a
/// sign is a minus and its digits where it is negative, and its digits alone where it is not.
pub proof fn law_signed_reads_back(n: int)
    ensures
        ({
            let s = signed(n);
            if n < 0 {
                &&& s[0] == '-'
                &&& all_digits(s.skip(1))
                &&& digits_value(s.skip(1)) == -n
                &&& s[1] != '0'
            } else {
                &&& all_digits(s)
                &&& digits_value(s) == n
                &&& n > 0 ==> s[0] != '0'
            }
        }),
{
    let m = if n < 0 {
        (-n) as nat
    } else {
        n as nat
    };
    lemma_decimal_digits(m);
    lemma_no_leading_zero(m);
    if n < 0 {
        assert(signed(n).skip(1) =~= decimal(m));
    }
}

proof fn lemma_no_leading_zero(n: nat)
    ensures
        n > 0 ==> decimal(n)[0] != '0',
        decimal(n).len() > 0,
    decreases n,
{
    if n >= 10 {
        lemma_no_leading_zero(n / 10);
        assert(decimal(n)[0] == decimal(n / 10)[0]);
    }
}

/// A text that is padded has at least its width and no more than it needs; the text itself stands at
/// the end or at the start, and the rest is filled.
pub proof fn law_padding_keeps_the_text(s: Seq<char>, fill: char, width: nat)
    ensures
        ({
            let l = pad_left(s, fill, width);
            &&& l.len() == if s.len() < width {
                width
            } else {
                s.len()
            }
            &&& l.skip(l.len() - s.len()) == s
            &&& forall|i: int| 0 <= i < l.len() - s.len() ==> l[i] == fill
        }),
        ({
            let r = pad_right(s, width);
            &&& r.len() == if s.len() < width {
                width
            } else {
                s.len()
            }
            &&& r.take(s.len() as int) == s
            &&& forall|i: int| s.len() <= i < r.len() ==> r[i] == ' '
        }),
{
    let l = pad_left(s, fill, width);
    let r = pad_right(s, width);
    assert(l.skip(l.len() - s.len()) =~= s);
    assert(r.take(s.len() as int) =~= s);
}

/// A text is a number exactly when it is decimal digits, or a plus and decimal digits; and the number
/// is that of the digits.
pub proof fn law_numbers_are_digits(s: Seq<char>)
    ensures
        number_of(s) is Some <==> all_digits(s) || (s.len() > 0 && s[0] == '+' && all_digits(s.skip(1))),
        all_digits(s) ==> number_of(s) == Some(digits_value(s)),
        s.len() > 0 && s[0] == '+' && all_digits(s.skip(1)) ==> number_of(s) == Some(
            digits_value(s.skip(1)),
        ),
{
    if all_digits(s) {
        assert(is_digit(s[0]));
    }
}

} // verus!
