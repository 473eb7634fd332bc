//! Text as sequences of characters: comparing, splitting, searching, trimming.
use vstd::prelude::*;
use vstd::utf8::{decode_utf8, valid_utf8};

verus! {

/// `String::push` appends one character.
pub assume_specification[ String::push ](s: &mut String, c: char)
    ensures
        final(s)@ == old(s)@.push(c),
;

/// `core::str::from_utf8` accepts exactly the bytes that are valid UTF-8, and gives the text that
/// they encode.
#[verifier::external_body]
pub(crate) fn from_utf8(bytes: &[u8]) -> (r: Option<String>)
    ensures
        r is Some <==> valid_utf8(bytes@),
        r matches Some(s) ==> s@ == decode_utf8(bytes@),
{
    match core::str::from_utf8(bytes) {
        Ok(s) => Some(s.to_owned()),
        Err(_) => None,
    }
}

/// The texts that a list of strings holds.
pub open spec fn texts(v: Seq<String>) -> Seq<Seq<char>> {
    v.map_values(|s: String| s@)
}

/// The characters of `s`.
pub fn to_chars(s: &str) -> (v: Vec<char>)
    ensures
        v@ == s@,
{
    let mut v: Vec<char> = Vec::new();
    for c in it: s.chars()
        invariant
            it.seq() == s@,
            v@ == it.seq().take(it.index()),
    {
        v.push(c);
    }
    v
}

/// The string made of the characters `from..to` of `v`.
pub fn text_of(v: &Vec<char>, from: usize, to: usize) -> (s: String)
    requires
        from <= to <= v@.len(),
    ensures
        s@ == v@.subrange(from as int, to as int),
{
    let mut s = String::new();
    let mut i: usize = from;
    while i < to
        invariant
            from <= i <= to <= v@.len(),
            s@ == v@.subrange(from as int, i as int),
        decreases to - i,
    {
        s.push(v[i]);
        i = i + 1;
        assert(v@.subrange(from as int, i as int) == v@.subrange(from as int, i - 1).push(v@[i - 1]));
    }
    s
}

/// Appends the text of `t` to the list.
pub fn push_text(list: &mut Vec<String>, t: &str)
    ensures
        texts(final(list)@) == texts(old(list)@).push(t@),
        final(list)@.len() == old(list)@.len() + 1,
{
    list.push(t.to_owned());
    assert(texts(list@) =~= texts(old(list)@).push(t@));
}

/// Appends a string to the list.
pub fn push_owned(list: &mut Vec<String>, t: String)
    ensures
        texts(final(list)@) == texts(old(list)@).push(t@),
        final(list)@.len() == old(list)@.len() + 1,
{
    list.push(t);
    assert(texts(list@) =~= texts(old(list)@).push(t@));
}

/// Appends every text of `more`, in order.
pub fn push_texts(list: &mut Vec<String>, more: &[&str])
    ensures
        texts(final(list)@) == texts(old(list)@) + more@.map_values(|t: &str| t@),
{
    let mut i: usize = 0;
    while i < more.len()
        invariant
            i <= more@.len(),
            texts(list@) == texts(old(list)@) + more@.take(i as int).map_values(|t: &str| t@),
        decreases more@.len() - i,
    {
        push_text(list, more[i]);
        i = i + 1;
        assert(more@.take(i as int).map_values(|t: &str| t@) =~= more@.take(i - 1).map_values(
            |t: &str| t@,
        ).push(more@[i - 1]@));
    }
    assert(more@.take(i as int) =~= more@);
}

/// Appends the strings of `more`, in order.
pub fn push_strings(list: &mut Vec<String>, more: &Vec<String>)
    ensures
        texts(final(list)@) == texts(old(list)@) + texts(more@),
{
    let mut i: usize = 0;
    while i < more.len()
        invariant
            i <= more@.len(),
            texts(list@) == texts(old(list)@) + texts(more@.take(i as int)),
        decreases more@.len() - i,
    {
        push_text(list, more[i].as_str());
        i = i + 1;
        assert(texts(more@.take(i as int)) =~= texts(more@.take(i - 1)).push(more@[i - 1]@));
    }
    assert(more@.take(i as int) =~= more@);
}

/// Whether two texts are the same.
pub fn same(a: &str, b: &str) -> (r: bool)
    ensures
        r == (a@ == b@),
{
    let x = to_chars(a);
    let y = to_chars(b);
    if x.len() != y.len() {
        return false;
    }
    let mut i: usize = 0;
    while i < x.len()
        invariant
            x@ == a@,
            y@ == b@,
            x@.len() == y@.len(),
            i <= x@.len(),
            forall|k: int| 0 <= k < i ==> x@[k] == y@[k],
        decreases x@.len() - i,
    {
        if x[i] != y[i] {
            return false;
        }
        i = i + 1;
    }
    assert(x@ =~= y@);
    true
}

/// The lower-case form of an ASCII letter; every other character is itself.
pub open spec fn ascii_lower(c: char) -> char {
    if 'A' <= c && c <= 'Z' {
        ((c as u32) + 32) as char
    } else {
        c
    }
}

/// The text with every ASCII letter in lower case.
pub open spec fn ascii_lowered(s: Seq<char>) -> Seq<char> {
    s.map_values(|c: char| ascii_lower(c))
}

/// The lower-case form of an ASCII letter.
pub fn lower(c: char) -> (r: char)
    ensures
        r == ascii_lower(c),
{
    if 'A' <= c && c <= 'Z' {
        let n: u8 = c as u8;
        (n + 32) as char
    } else {
        c
    }
}

/// Whether two texts are the same when the case of ASCII letters is ignored.
pub fn eq_ignore_ascii_case(a: &str, b: &str) -> (r: bool)
    ensures
        r == (ascii_lowered(a@) == ascii_lowered(b@)),
{
    let x = to_chars(a);
    let y = to_chars(b);
    if x.len() != y.len() {
        assert(ascii_lowered(a@).len() != ascii_lowered(b@).len());
        return false;
    }
    let mut i: usize = 0;
    while i < x.len()
        invariant
            x@ == a@,
            y@ == b@,
            x@.len() == y@.len(),
            i <= x@.len(),
            forall|k: int| 0 <= k < i ==> ascii_lower(x@[k]) == ascii_lower(y@[k]),
        decreases x@.len() - i,
    {
        if lower(x[i]) != lower(y[i]) {
            assert(ascii_lowered(a@)[i as int] != ascii_lowered(b@)[i as int]);
            return false;
        }
        i = i + 1;
    }
    assert(ascii_lowered(a@) =~= ascii_lowered(b@));
    true
}

/// The characters with the Unicode property `White_Space`.
pub open spec fn is_space(c: char) -> bool {
    ||| 0x9 <= c as u32 <= 0xd
    ||| c as u32 == 0x20
    ||| c as u32 == 0x85
    ||| c as u32 == 0xa0
    ||| c as u32 == 0x1680
    ||| 0x2000 <= c as u32 <= 0x200a
    ||| c as u32 == 0x2028
    ||| c as u32 == 0x2029
    ||| c as u32 == 0x202f
    ||| c as u32 == 0x205f
    ||| c as u32 == 0x3000
}

/// Whether the character is white space.
pub fn space(c: char) -> (r: bool)
    ensures
        r == is_space(c),
{
    let n: u32 = c as u32;
    (0x9 <= n && n <= 0xd) || n == 0x20 || n == 0x85 || n == 0xa0 || n == 0x1680 || (0x2000 <= n
        && n <= 0x200a) || n == 0x2028 || n == 0x2029 || n == 0x202f || n == 0x205f || n == 0x3000
}

/// How many characters stand before the first white space.
pub open spec fn word_len(s: Seq<char>) -> nat
    decreases s.len(),
{
    if s.len() == 0 || is_space(s[0]) {
        0
    } else {
        1 + word_len(s.drop_first())
    }
}

/// A word is never longer than the text it starts.
pub proof fn lemma_word_len(s: Seq<char>)
    ensures
        word_len(s) <= s.len(),
        forall|k: int| 0 <= k < word_len(s) ==> !is_space(s[k]),
        word_len(s) < s.len() ==> is_space(s[word_len(s) as int]),
    decreases s.len(),
{
    if s.len() > 0 && !is_space(s[0]) {
        lemma_word_len(s.drop_first());
        assert forall|k: int| 0 <= k < word_len(s) implies !is_space(s[k]) by {
            if k > 0 {
                assert(s[k] == s.drop_first()[k - 1]);
            }
        }
    }
}

/// The maximal runs of characters that are not white space, in order.
pub open spec fn words_of(s: Seq<char>) -> Seq<Seq<char>>
    decreases s.len(),
{
    if s.len() == 0 {
        seq![]
    } else if is_space(s[0]) {
        words_of(s.drop_first())
    } else {
        let n = word_len(s);
        if n <= s.len() {
            seq![s.take(n as int)] + words_of(s.skip(n as int))
        } else {
            seq![]
        }
    }
}

proof fn lemma_word_len_at(s: Seq<char>, n: int)
    requires
        0 <= n <= s.len(),
        forall|k: int| 0 <= k < n ==> !is_space(s[k]),
        n < s.len() ==> is_space(s[n]),
    ensures
        word_len(s) == n,
{
    lemma_word_len(s);
    let m = word_len(s) as int;
    if m < n {
        assert(is_space(s[m]));
    }
    if n < m {
        assert(!is_space(s[n]));
    }
}

/// The words of two texts with a space between them are those of the first and then those of the
/// second.
pub proof fn law_words_of_both(a: Seq<char>, b: Seq<char>)
    ensures
        words_of(a.push(' ') + b) == words_of(a) + words_of(b),
    decreases a.len(),
{
    let s = a.push(' ') + b;
    if a.len() == 0 {
        assert(s[0] == ' ');
        assert(s.drop_first() =~= b);
        assert(words_of(a) + words_of(b) =~= words_of(b));
    } else {
        assert(s[0] == a[0]);
        if is_space(a[0]) {
            assert(s.drop_first() =~= a.drop_first().push(' ') + b);
            law_words_of_both(a.drop_first(), b);
        } else {
            lemma_word_len(a);
            let n = word_len(a) as int;
            assert forall|k: int| 0 <= k < n implies !is_space(s[k]) by {
                assert(s[k] == a[k]);
            }
            assert(is_space(s[n]));
            lemma_word_len_at(s, n);
            assert(n > 0);
            assert(s.take(n) =~= a.take(n));
            assert(s.skip(n) =~= a.skip(n).push(' ') + b);
            law_words_of_both(a.skip(n), b);
            assert(words_of(s) =~= words_of(a) + words_of(b));
        }
    }
}

/// The words of a text: its maximal runs of characters that are not white space.
pub fn words(s: &str) -> (r: Vec<String>)
    ensures
        texts(r@) == words_of(s@),
{
    let v = to_chars(s);
    let mut r: Vec<String> = Vec::new();
    let mut i: usize = 0;
    assert(v@.skip(0) =~= v@);
    assert(texts(r@) =~= seq![]);
    while i < v.len()
        invariant
            v@ == s@,
            i <= v@.len(),
            texts(r@) + words_of(v@.skip(i as int)) == words_of(v@),
        decreases v@.len() - i,
    {
        let ghost rest = v@.skip(i as int);
        if space(v[i]) {
            assert(rest.drop_first() =~= v@.skip(i + 1));
            i = i + 1;
        } else {
            let start: usize = i;
            let ghost before = texts(r@);
            while i < v.len() && !space(v[i])
                invariant
                    start <= i <= v@.len(),
                    forall|k: int| start <= k < i ==> !is_space(v@[k]),
                decreases v@.len() - i,
            {
                i = i + 1;
            }
            proof {
                assert forall|k: int| 0 <= k < i - start implies !is_space(rest[k]) by {
                    assert(rest[k] == v@[start + k]);
                }
                lemma_word_len_at(rest, i - start);
                assert(rest.take(i - start) =~= v@.subrange(start as int, i as int));
                assert(rest.skip(i - start) =~= v@.skip(i as int));
            }
            let w = text_of(&v, start, i);
            push_text(&mut r, w.as_str());
            assert(texts(r@) + words_of(v@.skip(i as int)) =~= before + words_of(rest));
        }
    }
    assert(v@.skip(i as int) =~= seq![]);
    assert(texts(r@) + words_of(v@.skip(i as int)) =~= texts(r@));
    r
}

/// The first position at or after `from` that holds `c`, or the end.
pub open spec fn index_from(s: Seq<char>, c: char, from: int) -> int
    decreases s.len() - from,
{
    if from < 0 || from >= s.len() {
        s.len() as int
    } else if s[from] == c {
        from
    } else {
        index_from(s, c, from + 1)
    }
}

/// What the first position of a character means.
pub proof fn lemma_index_from(s: Seq<char>, c: char, from: int)
    requires
        0 <= from <= s.len(),
    ensures
        from <= index_from(s, c, from) <= s.len(),
        forall|k: int| from <= k < index_from(s, c, from) ==> s[k] != c,
        index_from(s, c, from) < s.len() ==> s[index_from(s, c, from)] == c,
    decreases s.len() - from,
{
    if from < s.len() && s[from] != c {
        lemma_index_from(s, c, from + 1);
    }
}

/// The first position at or after `from` that holds `c`, or the end.
pub fn index_of(v: &Vec<char>, c: char, from: usize) -> (i: usize)
    requires
        from <= v@.len(),
    ensures
        i as int == index_from(v@, c, from as int),
        from <= i <= v@.len(),
        i < v@.len() ==> v@[i as int] == c,
{
    let mut i: usize = from;
    while i < v.len() && v[i] != c
        invariant
            from <= i <= v@.len(),
            index_from(v@, c, from as int) == index_from(v@, c, i as int),
        decreases v@.len() - i,
    {
        i = i + 1;
    }
    i
}

/// The pieces of `s` from `from` on that the separator parts; there is always at least one.
pub open spec fn pieces_from(s: Seq<char>, sep: char, from: int) -> Seq<Seq<char>>
    decreases s.len() - from,
    when 0 <= from <= s.len()
{
    let i = index_from(s, sep, from);
    if from <= i < s.len() {
        seq![s.subrange(from, i)] + pieces_from(s, sep, i + 1)
    } else {
        seq![s.subrange(from, s.len() as int)]
    }
}

/// The pieces that the separator parts a text into; there is always at least one.
pub open spec fn pieces_of(s: Seq<char>, sep: char) -> Seq<Seq<char>> {
    pieces_from(s, sep, 0)
}

/// The pieces that the separator parts a text into.
pub fn pieces(s: &str, sep: char) -> (r: Vec<String>)
    ensures
        texts(r@) == pieces_of(s@, sep),
        r@.len() >= 1,
{
    let v = to_chars(s);
    let mut r: Vec<String> = Vec::new();
    let mut from: usize = 0;
    let mut i: usize = index_of(&v, sep, 0);
    assert(texts(r@) =~= seq![]);
    assert(texts(r@) + pieces_from(v@, sep, 0) =~= pieces_of(s@, sep));
    while i < v.len()
        invariant
            v@ == s@,
            from <= i <= v@.len(),
            i as int == index_from(v@, sep, from as int),
            texts(r@) + pieces_from(v@, sep, from as int) == pieces_of(s@, sep),
        decreases v@.len() - i,
    {
        let ghost before = texts(r@);
        let w = text_of(&v, from, i);
        push_text(&mut r, w.as_str());
        assert(texts(r@) + pieces_from(v@, sep, i + 1) =~= before + pieces_from(
            v@,
            sep,
            from as int,
        ));
        from = i + 1;
        i = index_of(&v, sep, from);
    }
    let w = text_of(&v, from, v.len());
    push_text(&mut r, w.as_str());
    r
}

/// The text without the white space at its start.
pub open spec fn trimmed_start(s: Seq<char>) -> Seq<char>
    decreases s.len(),
{
    if s.len() > 0 && is_space(s[0]) {
        trimmed_start(s.drop_first())
    } else {
        s
    }
}

/// The text without the white space at its end.
pub open spec fn trimmed_end(s: Seq<char>) -> Seq<char>
    decreases s.len(),
{
    if s.len() > 0 && is_space(s.last()) {
        trimmed_end(s.drop_last())
    } else {
        s
    }
}

/// The text without the white space at both ends.
pub open spec fn trimmed(s: Seq<char>) -> Seq<char> {
    trimmed_end(trimmed_start(s))
}

/// The text without the white space at both ends.
pub fn trim(s: &str) -> (r: String)
    ensures
        r@ == trimmed(s@),
{
    let v = to_chars(s);
    let mut a: usize = 0;
    assert(v@.skip(0) =~= v@);
    while a < v.len() && space(v[a])
        invariant
            v@ == s@,
            a <= v@.len(),
            trimmed_start(v@) == trimmed_start(v@.skip(a as int)),
        decreases v@.len() - a,
    {
        assert(v@.skip(a as int).drop_first() =~= v@.skip(a + 1));
        a = a + 1;
    }
    assert(trimmed_start(v@) == v@.skip(a as int));
    let mut b: usize = v.len();
    assert(v@.subrange(a as int, b as int) =~= v@.skip(a as int));
    while b > a && space(v[b - 1])
        invariant
            v@ == s@,
            a <= b <= v@.len(),
            trimmed_end(v@.skip(a as int)) == trimmed_end(v@.subrange(a as int, b as int)),
        decreases b - a,
    {
        assert(v@.subrange(a as int, b as int).drop_last() =~= v@.subrange(a as int, b - 1));
        b = b - 1;
    }
    text_of(&v, a, b)
}

/// Whether `p` stands in `s` at position `i`.
pub open spec fn occurs_at(s: Seq<char>, p: Seq<char>, i: int) -> bool {
    0 <= i && i + p.len() <= s.len() && s.subrange(i, i + p.len()) == p
}

/// The first position of `p` at or after `from`.
pub open spec fn find_from(s: Seq<char>, p: Seq<char>, from: int) -> Option<int>
    decreases s.len() + 1 - from,
{
    if from < 0 || from + p.len() > s.len() {
        None
    } else if occurs_at(s, p, from) {
        Some(from)
    } else {
        find_from(s, p, from + 1)
    }
}

/// What the first position of a text means.
pub proof fn lemma_find_from(s: Seq<char>, p: Seq<char>, from: int)
    requires
        0 <= from,
    ensures
        match find_from(s, p, from) {
            Some(i) => from <= i && occurs_at(s, p, i) && forall|k: int|
                from <= k < i ==> !occurs_at(s, p, k),
            None => forall|k: int| from <= k ==> !occurs_at(s, p, k),
        },
    decreases s.len() + 1 - from,
{
    if from + p.len() <= s.len() && !occurs_at(s, p, from) {
        lemma_find_from(s, p, from + 1);
    }
}

/// Whether `p` stands in `v` at position `i`.
pub fn at(v: &Vec<char>, p: &Vec<char>, i: usize) -> (r: bool)
    requires
        i <= v@.len(),
    ensures
        r == occurs_at(v@, p@, i as int),
{
    let n: usize = v.len();
    if n - i < p.len() {
        return false;
    }
    let mut k: usize = 0;
    while k < p.len()
        invariant
            k <= p@.len(),
            n == v@.len(),
            i + p@.len() <= n,
            forall|j: int| 0 <= j < k ==> v@[i + j] == p@[j],
        decreases p@.len() - k,
    {
        if v[i + k] != p[k] {
            assert(v@.subrange(i as int, i + p@.len())[k as int] != p@[k as int]);
            return false;
        }
        k = k + 1;
    }
    assert(v@.subrange(i as int, i + p@.len()) =~= p@);
    true
}

/// The first position of `p` in `v` at or after `from`.
pub fn find_chars(v: &Vec<char>, p: &Vec<char>, from: usize) -> (r: Option<usize>)
    requires
        from <= v@.len(),
    ensures
        match r {
            Some(i) => find_from(v@, p@, from as int) == Some(i as int) && i + p@.len() <= v@.len()
                && from <= i,
            None => find_from(v@, p@, from as int) is None,
        },
{
    let n: usize = v.len();
    let m: usize = p.len();
    let mut i: usize = from;
    while n - i >= m
        invariant
            n == v@.len(),
            m == p@.len(),
            from <= i <= n,
            find_from(v@, p@, from as int) == find_from(v@, p@, i as int),
        decreases n - i,
    {
        if at(v, p, i) {
            return Some(i);
        }
        assert(m == 0 ==> v@.subrange(i as int, i as int) =~= p@);
        i = i + 1;
    }
    None
}

/// Whether the text holds `p`.
pub fn contains(s: &str, p: &str) -> (r: bool)
    ensures
        r == (find_from(s@, p@, 0) is Some),
{
    let v = to_chars(s);
    let q = to_chars(p);
    find_chars(&v, &q, 0).is_some()
}

/// Whether the text starts with `p`.
pub fn starts_with(s: &str, p: &str) -> (r: bool)
    ensures
        r == p@.is_prefix_of(s@),
{
    let v = to_chars(s);
    let q = to_chars(p);
    at(&v, &q, 0)
}

/// What is left of a text after a prefix, if it starts with it.
pub open spec fn after_prefix(s: Seq<char>, p: Seq<char>) -> Option<Seq<char>> {
    if p.is_prefix_of(s) {
        Some(s.skip(p.len() as int))
    } else {
        None
    }
}

/// The view of an optional string.
pub open spec fn opt_text(s: Option<String>) -> Option<Seq<char>> {
    match s {
        Some(t) => Some(t@),
        None => None,
    }
}

/// What is left of a text after a prefix, if it starts with it.
pub fn strip_prefix(s: &str, p: &str) -> (r: Option<String>)
    ensures
        opt_text(r) == after_prefix(s@, p@),
{
    let v = to_chars(s);
    let q = to_chars(p);
    if at(&v, &q, 0) {
        assert(v@.subrange(q@.len() as int, v@.len() as int) =~= v@.skip(q@.len() as int));
        Some(text_of(&v, q.len(), v.len()))
    } else {
        None
    }
}

/// The texts before and after the first `p`.
pub open spec fn parted(s: Seq<char>, p: Seq<char>) -> Option<(Seq<char>, Seq<char>)> {
    match find_from(s, p, 0) {
        Some(i) => Some((s.take(i), s.skip(i + p.len()))),
        None => None,
    }
}

/// The view of an optional pair of strings.
pub open spec fn opt_pair(s: Option<(String, String)>) -> Option<(Seq<char>, Seq<char>)> {
    match s {
        Some(t) => Some((t.0@, t.1@)),
        None => None,
    }
}

/// The texts before and after the first `p`.
pub fn split_once(s: &str, p: &str) -> (r: Option<(String, String)>)
    ensures
        opt_pair(r) == parted(s@, p@),
{
    let v = to_chars(s);
    let q = to_chars(p);
    match find_chars(&v, &q, 0) {
        Some(i) => {
            let n: usize = v.len();
            let a = text_of(&v, 0, i);
            let b = text_of(&v, i + q.len(), n);
            assert(a@ =~= v@.take(i as int));
            assert(b@ =~= v@.skip(i + q@.len()));
            Some((a, b))
        },
        None => None,
    }
}

/// A line without a carriage return at its end.
pub open spec fn without_return(s: Seq<char>) -> Seq<char> {
    if s.len() > 0 && s.last() == '\r' {
        s.drop_last()
    } else {
        s
    }
}

/// The lines of `s` from `from` on. Each ends with a line feed, a carriage return before it
/// belongs to the ending, and the last line needs no ending.
pub open spec fn lines_from(s: Seq<char>, from: int) -> Seq<Seq<char>>
    decreases s.len() - from,
{
    if from < 0 || from >= s.len() {
        seq![]
    } else {
        let i = index_from(s, '\n', from);
        if from <= i < s.len() {
            seq![without_return(s.subrange(from, i))] + lines_from(s, i + 1)
        } else {
            seq![s.subrange(from, s.len() as int)]
        }
    }
}

/// The lines of a text.
pub open spec fn lines_of(s: Seq<char>) -> Seq<Seq<char>> {
    lines_from(s, 0)
}

/// The lines of a text.
pub fn lines(s: &str) -> (r: Vec<String>)
    ensures
        texts(r@) == lines_of(s@),
{
    let v = to_chars(s);
    let mut r: Vec<String> = Vec::new();
    let mut from: usize = 0;
    assert(texts(r@) =~= seq![]);
    assert(texts(r@) + lines_from(v@, 0) =~= lines_of(s@));
    while from < v.len()
        invariant
            v@ == s@,
            from <= v@.len(),
            texts(r@) + lines_from(v@, from as int) == lines_of(s@),
        decreases v@.len() - from,
    {
        let ghost before = texts(r@);
        let i: usize = index_of(&v, '\n', from);
        if i == v.len() {
            let w = text_of(&v, from, i);
            push_text(&mut r, w.as_str());
            assert(texts(r@) =~= before + lines_from(v@, from as int));
            return r;
        }
        let end: usize = if i > from && v[i - 1] == '\r' {
            i - 1
        } else {
            i
        };
        let w = text_of(&v, from, end);
        assert(w@ =~= without_return(v@.subrange(from as int, i as int)));
        push_text(&mut r, w.as_str());
        assert(texts(r@) + lines_from(v@, i + 1) =~= before + lines_from(v@, from as int));
        from = i + 1;
    }
    assert(texts(r@) + lines_from(v@, from as int) =~= texts(r@));
    r
}

/// The texts put together with `sep` between them.
pub open spec fn joined_by(parts: Seq<Seq<char>>, sep: Seq<char>) -> Seq<char>
    decreases parts.len(),
{
    if parts.len() == 0 {
        seq![]
    } else if parts.len() == 1 {
        parts[0]
    } else {
        joined_by(parts.drop_last(), sep) + sep + parts.last()
    }
}

/// The texts put together with `sep` between them.
pub fn join_by(parts: &Vec<String>, sep: &str) -> (r: String)
    ensures
        r@ == joined_by(texts(parts@), sep@),
{
    let mut r = String::new();
    let mut i: usize = 0;
    assert(texts(parts@).take(0) =~= seq![]);
    assert(r@ =~= joined_by(texts(parts@).take(0), sep@));
    while i < parts.len()
        invariant
            i <= parts@.len(),
            r@ == joined_by(texts(parts@).take(i as int), sep@),
        decreases parts@.len() - i,
    {
        let ghost part = texts(parts@).take(i + 1);
        assert(part.drop_last() =~= texts(parts@).take(i as int));
        assert(part.last() == parts@[i as int]@);
        if i > 0 {
            r.append(sep);
        }
        r.append(parts[i].as_str());
        assert(r@ =~= joined_by(part, sep@));
        i = i + 1;
    }
    assert(texts(parts@).take(i as int) =~= texts(parts@));
    r
}

/// The first position of a character is where it first stands.
pub proof fn lemma_index_at(s: Seq<char>, c: char, from: int, i: int)
    requires
        0 <= from <= i <= s.len(),
        forall|k: int| from <= k < i ==> s[k] != c,
        i < s.len() ==> s[i] == c,
    ensures
        index_from(s, c, from) == i,
{
    lemma_index_from(s, c, from);
    let j = index_from(s, c, from);
    if j < i {
        assert(s[j] == c);
    }
    if i < j {
        assert(s[i] != c);
    }
}

/// Whether the text holds no such character.
pub open spec fn is_free_of(s: Seq<char>, c: char) -> bool {
    forall|k: int| 0 <= k < s.len() ==> s[k] != c
}

proof fn lemma_pieces_shift(a: Seq<char>, b: Seq<char>, sep: char, from: int)
    requires
        0 <= from <= b.len(),
    ensures
        pieces_from(a + b, sep, a.len() + from) == pieces_from(b, sep, from),
    decreases b.len() - from,
{
    let s = a + b;
    lemma_index_from(b, sep, from);
    let i = index_from(b, sep, from);
    assert forall|k: int| a.len() + from <= k < a.len() + i implies s[k] != sep by {
        assert(s[k] == b[k - a.len()]);
    }
    if i < b.len() {
        assert(s[a.len() + i] == b[i]);
    }
    lemma_index_at(s, sep, a.len() + from, a.len() + i);
    if i < b.len() {
        lemma_pieces_shift(a, b, sep, i + 1);
        assert(s.subrange(a.len() + from, a.len() + i) =~= b.subrange(from, i));
    } else {
        assert(s.subrange(a.len() + from, s.len() as int) =~= b.subrange(from, b.len() as int));
    }
}

/// A text in front of a separator is the first piece.
pub proof fn lemma_first_piece(a: Seq<char>, rest: Seq<char>, sep: char)
    requires
        is_free_of(a, sep),
    ensures
        pieces_of(a.push(sep) + rest, sep) == seq![a] + pieces_of(rest, sep),
        pieces_of(a, sep) == seq![a],
{
    let s = a.push(sep) + rest;
    assert(s[a.len() as int] == sep);
    assert forall|k: int| 0 <= k < a.len() implies s[k] != sep by {
        assert(s[k] == a[k]);
    }
    lemma_index_at(s, sep, 0, a.len() as int);
    assert(s.subrange(0, a.len() as int) =~= a);
    lemma_pieces_shift(a.push(sep), rest, sep, 0);
    lemma_index_at(a, sep, 0, a.len() as int);
    assert(a.subrange(0, a.len() as int) =~= a);
}

/// Texts that are put together with a separator that none of them holds come apart into themselves.
pub proof fn law_pieces_come_apart(parts: Seq<Seq<char>>, sep: char)
    requires
        parts.len() > 0,
        forall|i: int| 0 <= i < parts.len() ==> is_free_of(#[trigger] parts[i], sep),
    ensures
        pieces_of(joined_by(parts, seq![sep]), sep) == parts,
    decreases parts.len(),
{
    lemma_joined_from_front(parts, seq![sep]);
    lemma_first_piece(parts[0], seq![], sep);
    if parts.len() == 1 {
        assert(parts =~= seq![parts[0]]);
    } else {
        let rest = parts.drop_first();
        assert forall|i: int| 0 <= i < rest.len() implies is_free_of(#[trigger] rest[i], sep) by {
            assert(rest[i] == parts[i + 1]);
        }
        law_pieces_come_apart(rest, sep);
        assert(joined_by(parts, seq![sep]) =~= parts[0].push(sep) + joined_by(rest, seq![sep]));
        lemma_first_piece(parts[0], joined_by(rest, seq![sep]), sep);
        assert(seq![parts[0]] + rest =~= parts);
    }
}

proof fn lemma_joined_from_front(parts: Seq<Seq<char>>, sep: Seq<char>)
    requires
        parts.len() > 0,
    ensures
        parts.len() >= 2 ==> joined_by(parts, sep) == parts[0] + sep + joined_by(
            parts.drop_first(),
            sep,
        ),
    decreases parts.len(),
{
    if parts.len() == 2 {
        assert(parts.drop_last() =~= seq![parts[0]]);
        assert(parts.drop_first() =~= seq![parts[1]]);
        assert(joined_by(seq![parts[0]], sep) == parts[0]);
        assert(joined_by(seq![parts[1]], sep) == parts[1]);
        assert(joined_by(parts, sep) =~= parts[0] + sep + joined_by(parts.drop_first(), sep));
    } else if parts.len() > 2 {
        let init = parts.drop_last();
        lemma_joined_from_front(init, sep);
        let tail = parts.drop_first();
        assert(tail.drop_last() =~= init.drop_first());
        assert(tail.last() == parts.last());
        assert(joined_by(parts, sep) =~= parts[0] + sep + joined_by(tail, sep));
    }
}

proof fn lemma_pieces_from(s: Seq<char>, sep: char, from: int)
    requires
        0 <= from <= s.len(),
    ensures
        pieces_from(s, sep, from).len() > 0,
        joined_by(pieces_from(s, sep, from), seq![sep]) == s.skip(from),
        forall|i: int|
            0 <= i < pieces_from(s, sep, from).len() ==> is_free_of(
                #[trigger] pieces_from(s, sep, from)[i],
                sep,
            ),
    decreases s.len() - from,
{
    lemma_index_from(s, sep, from);
    let i = index_from(s, sep, from);
    let p = pieces_from(s, sep, from);
    if i < s.len() {
        lemma_pieces_from(s, sep, i + 1);
        let rest = pieces_from(s, sep, i + 1);
        assert(p.drop_first() =~= rest);
        lemma_joined_from_front(p, seq![sep]);
        assert(s.subrange(from, i) + seq![sep] + s.skip(i + 1) =~= s.skip(from));
        assert forall|k: int| 0 <= k < p.len() implies is_free_of(#[trigger] p[k], sep) by {
            if k > 0 {
                assert(p[k] == rest[k - 1]);
            }
        }
    } else {
        assert(s.subrange(from, s.len() as int) =~= s.skip(from));
    }
}

/// The pieces of a text, put together again with the separator between them, are the text, and none
/// of them holds the separator.
pub proof fn law_pieces_join_back(s: Seq<char>, sep: char)
    ensures
        joined_by(pieces_of(s, sep), seq![sep]) == s,
        forall|i: int|
            0 <= i < pieces_of(s, sep).len() ==> is_free_of(#[trigger] pieces_of(s, sep)[i], sep),
{
    lemma_pieces_from(s, sep, 0);
    assert(s.skip(0) =~= s);
}

/// A text that is parted is what stood before, the separator, and what stood behind; the separator
/// does not stand further left, and a text that is not parted does not hold it.
pub proof fn law_parted_joins_back(s: Seq<char>, p: Seq<char>)
    ensures
        match parted(s, p) {
            Some((a, b)) => a + p + b == s && forall|k: int| 0 <= k < a.len() ==> !occurs_at(s, p, k),
            None => forall|k: int| !occurs_at(s, p, k),
        },
{
    lemma_find_from(s, p, 0);
    if let Some(i) = find_from(s, p, 0) {
        assert(s.take(i) + p + s.skip(i + p.len()) =~= s);
    } else {
        assert forall|k: int| !occurs_at(s, p, k) by {
            if k < 0 {
                assert(!occurs_at(s, p, k));
            }
        }
    }
}

proof fn lemma_trimmed_start(s: Seq<char>)
    ensures
        trimmed_start(s).len() <= s.len(),
        trimmed_start(s) == s.skip(s.len() - trimmed_start(s).len()),
        trimmed_start(s).len() > 0 ==> !is_space(trimmed_start(s)[0]),
        forall|k: int| 0 <= k < s.len() - trimmed_start(s).len() ==> is_space(#[trigger] s[k]),
    decreases s.len(),
{
    if s.len() > 0 && is_space(s[0]) {
        let t = s.drop_first();
        lemma_trimmed_start(t);
        let n = s.len() - trimmed_start(s).len();
        assert(trimmed_start(s) =~= s.skip(n));
        assert forall|k: int| 0 <= k < n implies is_space(#[trigger] s[k]) by {
            if k > 0 {
                assert(is_space(t[k - 1]));
            }
        }
    } else {
        assert(s.skip(0) =~= s);
    }
}

proof fn lemma_trimmed_end(s: Seq<char>)
    ensures
        trimmed_end(s).len() <= s.len(),
        trimmed_end(s) == s.take(trimmed_end(s).len() as int),
        trimmed_end(s).len() > 0 ==> !is_space(trimmed_end(s).last()),
        forall|k: int| trimmed_end(s).len() <= k < s.len() ==> is_space(#[trigger] s[k]),
    decreases s.len(),
{
    if s.len() > 0 && is_space(s.last()) {
        let t = s.drop_last();
        lemma_trimmed_end(t);
        assert(trimmed_end(s) =~= s.take(trimmed_end(s).len() as int));
        assert forall|k: int| trimmed_end(s).len() <= k < s.len() implies is_space(
            #[trigger] s[k],
        ) by {
            if k < s.len() - 1 {
                assert(is_space(t[k]));
            }
        }
    } else {
        assert(s.take(s.len() as int) =~= s);
    }
}

/// A text that starts and ends with other than white space is trimmed already; what is trimmed is
/// such a text or nothing, and only white space is cut off.
pub proof fn law_trimmed_cuts_white_space(s: Seq<char>)
    ensures
        s.len() > 0 && !is_space(s[0]) && !is_space(s.last()) ==> trimmed(s) == s,
        trimmed(s).len() > 0 ==> !is_space(trimmed(s)[0]) && !is_space(trimmed(s).last()),
        exists|a: int, b: int|
            0 <= a <= b <= s.len() && trimmed(s) == #[trigger] s.subrange(a, b) && (forall|k: int|
                0 <= k < a || b <= k < s.len() ==> is_space(#[trigger] s[k])),
{
    let t = trimmed_start(s);
    lemma_trimmed_start(s);
    lemma_trimmed_end(t);
    let a = s.len() - t.len();
    let b = a + trimmed(s).len();
    assert(trimmed(s) =~= s.subrange(a, b));
    assert forall|k: int| 0 <= k < a || b <= k < s.len() implies is_space(#[trigger] s[k]) by {
        if k >= b {
            assert(s[k] == t[k - a]);
        }
    }
    if s.len() > 0 && !is_space(s[0]) && !is_space(s.last()) {
        assert(s[s.len() - 1] == s.last());
        if a > 0 {
            assert(is_space(s[0]));
        }
        if b < s.len() {
            assert(is_space(s[s.len() - 1]));
        }
        assert(trimmed(s) =~= s);
    }
}

/// Whether the text is not empty and holds no white space.
pub open spec fn is_word(w: Seq<char>) -> bool {
    w.len() > 0 && forall|k: int| 0 <= k < w.len() ==> !is_space(#[trigger] w[k])
}

/// No word is empty or holds white space, and a text without white space is one word.
pub proof fn law_words_hold_no_white_space(s: Seq<char>)
    ensures
        forall|i: int| 0 <= i < words_of(s).len() ==> is_word(#[trigger] words_of(s)[i]),
        is_word(s) ==> words_of(s) == seq![s],
    decreases s.len(),
{
    if s.len() > 0 {
        if is_space(s[0]) {
            law_words_hold_no_white_space(s.drop_first());
            let w = words_of(s);
            assert(w == words_of(s.drop_first()));
            assert forall|i: int| 0 <= i < w.len() implies is_word(#[trigger] w[i]) by {
                assert(is_word(words_of(s.drop_first())[i]));
            }
        } else {
            lemma_word_len(s);
            let n = word_len(s) as int;
            let rest = s.skip(n);
            law_words_hold_no_white_space(rest);
            let w = words_of(s);
            assert forall|i: int| 0 <= i < w.len() implies is_word(#[trigger] w[i]) by {
                if i > 0 {
                    assert(w[i] == words_of(rest)[i - 1]);
                }
            }
            if is_word(s) {
                if n < s.len() {
                    assert(is_space(s[n]));
                }
                assert(s.take(n) =~= s);
                assert(rest =~= seq![]);
                assert(w =~= seq![s]);
            }
        }
    }
}


/// A text with a separator of one character is parted where it first stands.
pub proof fn law_first_separator_parts(a: Seq<char>, c: char, b: Seq<char>)
    requires
        is_free_of(a, c),
    ensures
        parted(a.push(c) + b, seq![c]) == Some((a, b)),
        is_free_of(b, c) ==> parted(b, seq![c]) is None,
{
    let s = a.push(c) + b;
    law_parted_joins_back(s, seq![c]);
    assert(occurs_at(s, seq![c], a.len() as int)) by {
        assert(s.subrange(a.len() as int, a.len() as int + 1) =~= seq![c]);
    }
    if let Some((x, y)) = parted(s, seq![c]) {
        assert(x.len() <= a.len()) by {
            if x.len() > a.len() {
                assert(!occurs_at(s, seq![c], a.len() as int));
            }
        }
        assert((x + seq![c] + y)[x.len() as int] == c);
        assert(s[x.len() as int] == c);
        if x.len() < a.len() {
            assert(s[x.len() as int] == a[x.len() as int]);
        }
        assert(x =~= s.take(x.len() as int));
        assert(x =~= a);
        assert(y =~= s.skip(x.len() as int + 1));
        assert(y =~= b);
    }
    if is_free_of(b, c) {
        law_parted_joins_back(b, seq![c]);
        if let Some((x, y)) = parted(b, seq![c]) {
            assert((x + seq![c] + y)[x.len() as int] == c);
            assert(b[x.len() as int] == c);
        }
    }
}

/// What stands behind a prefix is found, and a text that does not start with it has nothing there.
pub proof fn law_prefix_comes_off(p: Seq<char>, s: Seq<char>)
    ensures
        after_prefix(p + s, p) == Some(s),
        after_prefix(s, p) matches Some(r) ==> p + r == s,
        after_prefix(s, p) is None <==> !p.is_prefix_of(s),
{
    assert((p + s).skip(p.len() as int) =~= s);
    assert((p + s).take(p.len() as int) =~= p);
    assert(p.is_prefix_of(p + s));
    if let Some(r) = after_prefix(s, p) {
        assert(p + r =~= s);
    }
}


/// Whether a key stands in a text with a value right behind it, and what follows starts with `next`.
pub open spec fn gives(
    text: Seq<char>,
    key: Seq<char>,
    value: Seq<char>,
    next: Seq<char>,
) -> bool {
    exists|a: Seq<char>, b: Seq<char>| #[trigger] (a + key + value + next + b) == text
}

/// What a text gives, a longer text gives.
pub proof fn lemma_gives_more(x: Seq<char>, y: Seq<char>)
    ensures
        forall|k: Seq<char>, v: Seq<char>, n: Seq<char>| #[trigger]
            gives(x, k, v, n) ==> gives(x + y, k, v, n),
{
    assert forall|k: Seq<char>, v: Seq<char>, n: Seq<char>| #[trigger] gives(x, k, v, n) implies gives(
        x + y,
        k,
        v,
        n,
    ) by {
        let (a, b) = choose|a: Seq<char>, b: Seq<char>| #[trigger] (a + k + v + n + b) == x;
        assert(a + k + v + n + (b + y) =~= x + y);
    }
}

/// A text gives what stands at its end.
pub proof fn lemma_gives_here(a: Seq<char>, key: Seq<char>, value: Seq<char>, next: Seq<char>)
    ensures
        gives(a + key + value + next, key, value, next),
{
    assert(a + key + value + next + Seq::<char>::empty() =~= a + key + value + next);
}


/// What a text gives, it gives behind another text.
pub proof fn lemma_gives_behind(x: Seq<char>, y: Seq<char>)
    ensures
        forall|k: Seq<char>, v: Seq<char>, n: Seq<char>| #[trigger]
            gives(y, k, v, n) ==> gives(x + y, k, v, n),
{
    assert forall|k: Seq<char>, v: Seq<char>, n: Seq<char>| #[trigger] gives(y, k, v, n) implies gives(
        x + y,
        k,
        v,
        n,
    ) by {
        let (a, b) = choose|a: Seq<char>, b: Seq<char>| #[trigger] (a + k + v + n + b) == y;
        assert((x + a) + k + v + n + b =~= x + y);
    }
}


proof fn lemma_lines_shift(a: Seq<char>, b: Seq<char>, from: int)
    requires
        0 <= from <= b.len(),
    ensures
        lines_from(a + b, a.len() + from) == lines_from(b, from),
    decreases b.len() - from,
{
    let s = a + b;
    if from < b.len() {
        lemma_index_from(b, '\n', from);
        let i = index_from(b, '\n', from);
        assert forall|k: int| a.len() + from <= k < a.len() + i implies s[k] != '\n' by {
            assert(s[k] == b[k - a.len()]);
        }
        if i < b.len() {
            assert(s[a.len() + i] == b[i]);
        }
        lemma_index_at(s, '\n', a.len() + from, a.len() + i);
        if i < b.len() {
            lemma_lines_shift(a, b, i + 1);
            assert(s.subrange(a.len() + from, a.len() + i) =~= b.subrange(from, i));
        } else {
            assert(s.subrange(a.len() + from, s.len() as int) =~= b.subrange(from, b.len() as int));
        }
    }
}

/// A line ends with a line feed, before which a carriage return belongs to the ending; the lines
/// behind it are those of the rest. What stands behind the last line feed is a line where there is
/// anything.
pub proof fn law_lines_end_with_line_feeds(a: Seq<char>, rest: Seq<char>)
    requires
        is_free_of(a, '\n'),
    ensures
        a.len() == 0 || a.last() != '\r' ==> lines_of(a.push('\n') + rest) == seq![a] + lines_of(rest),
        lines_of(a.push('\r').push('\n') + rest) == seq![a] + lines_of(rest),
        a.len() > 0 ==> lines_of(a) == seq![a],
        lines_of(seq![]) == Seq::<Seq<char>>::empty(),
{
    let s = a.push('\n') + rest;
    assert(s[a.len() as int] == '\n');
    assert forall|k: int| 0 <= k < a.len() implies s[k] != '\n' by {
        assert(s[k] == a[k]);
    }
    lemma_index_at(s, '\n', 0, a.len() as int);
    assert(s.subrange(0, a.len() as int) =~= a);
    lemma_lines_shift(a.push('\n'), rest, 0);
    let b = a.push('\r');
    let t = b.push('\n') + rest;
    assert(t[b.len() as int] == '\n');
    assert forall|k: int| 0 <= k < b.len() implies t[k] != '\n' by {
        assert(t[k] == b[k]);
    }
    lemma_index_at(t, '\n', 0, b.len() as int);
    assert(t.subrange(0, b.len() as int) =~= b);
    assert(b.drop_last() =~= a);
    lemma_lines_shift(b.push('\n'), rest, 0);
    if a.len() > 0 {
        lemma_index_at(a, '\n', 0, a.len() as int);
        assert(a.subrange(0, a.len() as int) =~= a);
    }
}

/// Letters are put in lower case one by one: a capital becomes the small letter at the same place of
/// the alphabet, everything else stays, and doing it twice changes nothing more.
pub proof fn law_capitals_become_small(s: Seq<char>, i: int)
    requires
        0 <= i < s.len(),
    ensures
        ascii_lowered(s).len() == s.len(),
        'A' <= s[i] <= 'Z' ==> 'a' <= ascii_lowered(s)[i] <= 'z' && ascii_lowered(s)[i] as u32
            - 'a' as u32 == s[i] as u32 - 'A' as u32,
        !('A' <= s[i] <= 'Z') ==> ascii_lowered(s)[i] == s[i],
        ascii_lowered(ascii_lowered(s)) == ascii_lowered(s),
{
    assert(ascii_lowered(ascii_lowered(s)) =~= ascii_lowered(s));
}

/// Of ASCII, only the blank, the tab and the characters that end lines or pages are white space;
/// beyond it, the no-break and typographic blanks are.
pub proof fn law_white_space(c: char)
    ensures
        c as u32 <= 0x7f ==> (is_space(c) <==> c == ' ' || c == '\t' || c == '\n' || c == '\u{b}' || c
            == '\u{c}' || c == '\r'),
        c == '\u{85}' || c == '\u{a0}' || c == '\u{1680}' || c == '\u{2028}' || c == '\u{2029}' || c
            == '\u{202f}' || c == '\u{205f}' || c == '\u{3000}' ==> is_space(c),
        '\u{2000}' <= c <= '\u{200a}' ==> is_space(c),
        '\u{a1}' <= c <= '\u{167f}' || '\u{1681}' <= c <= '\u{1fff}' || '\u{200b}' <= c <= '\u{2027}'
            || c > '\u{3000}' ==> !is_space(c),
{
}


/// What is trimmed stays as it is when it is trimmed again, and holds no character that the text does
/// not.
pub proof fn law_trimming_twice_is_trimming_once(s: Seq<char>, c: char)
    ensures
        trimmed(trimmed(s)) == trimmed(s),
        is_free_of(s, c) ==> is_free_of(trimmed(s), c),
{
    law_trimmed_cuts_white_space(s);
    let (a, b) = choose|a: int, b: int|
        0 <= a <= b <= s.len() && trimmed(s) == #[trigger] s.subrange(a, b) && (forall|k: int|
            0 <= k < a || b <= k < s.len() ==> is_space(#[trigger] s[k]));
    let t = trimmed(s);
    assert(t == s.subrange(a, b));
    if is_free_of(s, c) {
        assert forall|k: int| 0 <= k < t.len() implies t[k] != c by {
            assert(t[k] == s[a + k]);
        }
    }
    law_trimmed_cuts_white_space(t);
    if t.len() == 0 {
        assert(trimmed_start(t) == t);
        assert(trimmed_end(t) == t);
    }
}

} // verus!
