//! File paths as `/`-separated text.
use vstd::prelude::*;

use crate::text::{opt_text, text_of, to_chars};

verus! {

/// The path without trailing slashes and trailing `/.` segments; the root stays.
pub open spec fn body_of(p: Seq<char>) -> Seq<char>
    decreases p.len(),
{
    if p.len() >= 2 && p.last() == '/' {
        body_of(p.drop_last())
    } else if p.len() >= 2 && p.last() == '.' && p[p.len() - 2] == '/' {
        body_of(p.drop_last())
    } else {
        p
    }
}

/// Where the last segment of a path starts: behind its last slash.
pub open spec fn name_start(p: Seq<char>) -> int
    decreases p.len(),
{
    if p.len() == 0 || p.last() == '/' {
        p.len() as int
    } else {
        name_start(p.drop_last())
    }
}

/// The last segment of a path, where it names an entry of a directory.
pub open spec fn file_name_of(p: Seq<char>) -> Option<Seq<char>> {
    let b = body_of(p);
    let n = b.skip(name_start(b));
    if n.len() == 0 || n == seq!['.'] || n == seq!['.', '.'] {
        None
    } else {
        Some(n)
    }
}

/// Where the extension of a file name starts: at its last dot, unless that is the first character.
pub open spec fn dot_of(n: Seq<char>) -> Option<int>
    decreases n.len(),
{
    if n.len() < 2 {
        None
    } else if n.last() == '.' {
        Some(n.len() - 1)
    } else {
        dot_of(n.drop_last())
    }
}

/// The dot stands inside the name.
pub proof fn lemma_dot_of(n: Seq<char>)
    ensures
        dot_of(n) matches Some(d) ==> 0 < d < n.len(),
    decreases n.len(),
{
    if n.len() >= 2 && n.last() != '.' {
        lemma_dot_of(n.drop_last());
    }
}

/// The name starts inside the path.
pub proof fn lemma_name_start(p: Seq<char>)
    ensures
        0 <= name_start(p) <= p.len(),
        forall|k: int| name_start(p) <= k < p.len() ==> p[k] != '/',
        name_start(p) > 0 ==> p[name_start(p) - 1] == '/',
    decreases p.len(),
{
    if p.len() > 0 && p.last() != '/' {
        lemma_name_start(p.drop_last());
        let q = p.drop_last();
        assert forall|k: int| name_start(p) <= k < p.len() implies p[k] != '/' by {
            if k < p.len() - 1 {
                assert(p[k] == q[k]);
            }
        }
        if name_start(p) > 0 {
            assert(q[name_start(q) - 1] == '/');
        }
    }
}

/// The body of a path is a prefix of it.
pub proof fn lemma_body(p: Seq<char>)
    ensures
        body_of(p).len() <= p.len(),
        body_of(p) == p.take(body_of(p).len() as int),
    decreases p.len(),
{
    if p.len() >= 2 && (p.last() == '/' || (p.last() == '.' && p[p.len() - 2] == '/')) {
        lemma_body(p.drop_last());
        assert(body_of(p) =~= p.take(body_of(p).len() as int));
    } else {
        assert(p.take(p.len() as int) =~= p);
    }
}

/// The last segment without its extension.
pub open spec fn file_stem_of(p: Seq<char>) -> Option<Seq<char>> {
    match file_name_of(p) {
        Some(n) => match dot_of(n) {
            Some(d) => Some(n.take(d)),
            None => Some(n),
        },
        None => None,
    }
}

/// What stands behind the dot of the last segment.
pub open spec fn extension_of(p: Seq<char>) -> Option<Seq<char>> {
    match file_name_of(p) {
        Some(n) => match dot_of(n) {
            Some(d) => Some(n.skip(d + 1)),
            None => None,
        },
        None => None,
    }
}

/// `name` inside the directory `dir`.
pub open spec fn joined(dir: Seq<char>, name: Seq<char>) -> Seq<char> {
    if dir.len() == 0 {
        name
    } else if dir.last() == '/' {
        dir + name
    } else {
        dir.push('/') + name
    }
}

/// The directory that holds the last segment.
pub open spec fn parent_of(p: Seq<char>) -> Seq<char> {
    let b = body_of(p);
    body_of(b.take(name_start(b)))
}

/// The path with its last segment replaced, or with one more segment where it has none.
pub open spec fn renamed(p: Seq<char>, name: Seq<char>) -> Seq<char> {
    match file_name_of(p) {
        Some(n) => joined(parent_of(p), name),
        None => joined(p, name),
    }
}

/// The path with the extension of its last segment replaced; unchanged where it has no name.
pub open spec fn re_extended(p: Seq<char>, ext: Seq<char>) -> Seq<char> {
    let b = body_of(p);
    match file_stem_of(p) {
        Some(stem) => b.take(name_start(b)) + stem + seq!['.'] + ext,
        None => p,
    }
}

/// How many characters of `v[..n]` its body has.
fn body_len(v: &Vec<char>, n: usize) -> (m: usize)
    requires
        n <= v@.len(),
    ensures
        m <= n,
        v@.take(m as int) == body_of(v@.take(n as int)),
{
    let mut m: usize = n;
    while m >= 2 && (v[m - 1] == '/' || (v[m - 1] == '.' && v[m - 2] == '/'))
        invariant
            m <= n <= v@.len(),
            body_of(v@.take(m as int)) == body_of(v@.take(n as int)),
        decreases m,
    {
        assert(v@.take(m as int).drop_last() =~= v@.take(m - 1));
        m = m - 1;
    }
    m
}

/// Where the last segment of `v[..n]` starts.
fn start_of(v: &Vec<char>, n: usize) -> (i: usize)
    requires
        n <= v@.len(),
    ensures
        i <= n,
        i as int == name_start(v@.take(n as int)),
{
    let mut i: usize = n;
    while i > 0 && v[i - 1] != '/'
        invariant
            i <= n <= v@.len(),
            name_start(v@.take(i as int)) == name_start(v@.take(n as int)),
        decreases i,
    {
        assert(v@.take(i as int).drop_last() =~= v@.take(i - 1));
        i = i - 1;
    }
    i
}

/// Where the extension of the name `v[a..b]` starts, counted from `a`.
fn dot_in(v: &Vec<char>, a: usize, b: usize) -> (d: Option<usize>)
    requires
        a <= b <= v@.len(),
    ensures
        match d {
            Some(i) => dot_of(v@.subrange(a as int, b as int)) == Some(i as int) && 0 < i < b - a,
            None => dot_of(v@.subrange(a as int, b as int)) is None,
        },
{
    let mut i: usize = b - a;
    while i >= 2
        invariant
            a + i <= b <= v@.len(),
            a <= b,
            dot_of(v@.subrange(a as int, a + i)) == dot_of(v@.subrange(a as int, b as int)),
        decreases i,
    {
        assert(v@.subrange(a as int, a + i).last() == v@[a + i - 1]);
        if v[a + (i - 1)] == '.' {
            return Some(i - 1);
        }
        assert(v@.subrange(a as int, a + i).drop_last() =~= v@.subrange(a as int, a + i - 1));
        i = i - 1;
    }
    None
}

/// The bounds of the last segment, where it names an entry of a directory.
fn name_bounds(v: &Vec<char>) -> (r: Option<(usize, usize)>)
    ensures
        match r {
            Some((a, b)) => a <= b <= v@.len() && v@.take(b as int) == body_of(v@) && a as int
                == name_start(body_of(v@)) && file_name_of(v@) == Some(
                v@.subrange(a as int, b as int),
            ),
            None => file_name_of(v@) is None,
        },
{
    let n: usize = v.len();
    assert(v@.take(n as int) =~= v@);
    let b: usize = body_len(v, n);
    let a: usize = start_of(v, b);
    let ghost name = body_of(v@).skip(name_start(body_of(v@)));
    assert(name =~= v@.subrange(a as int, b as int));
    if a == b {
        return None;
    }
    if b - a == 1 && v[a] == '.' {
        assert(name =~= seq!['.']);
        return None;
    }
    if b - a == 2 && v[a] == '.' && v[a + 1] == '.' {
        assert(name =~= seq!['.', '.']);
        return None;
    }
    assert(name.len() == b - a);
    assert(name[0] == v@[a as int]);
    assert(b - a == 2 ==> name[1] == v@[a + 1]);
    Some((a, b))
}

/// The last segment of a path without its extension.
pub fn file_stem(p: &str) -> (r: Option<String>)
    ensures
        opt_text(r) == file_stem_of(p@),
{
    let v = to_chars(p);
    match name_bounds(&v) {
        Some((a, b)) => match dot_in(&v, a, b) {
            Some(d) => {
                let s = text_of(&v, a, a + d);
                assert(s@ =~= v@.subrange(a as int, b as int).take(d as int));
                Some(s)
            },
            None => Some(text_of(&v, a, b)),
        },
        None => None,
    }
}

/// What stands behind the dot of the last segment.
pub fn extension(p: &str) -> (r: Option<String>)
    ensures
        opt_text(r) == extension_of(p@),
{
    let v = to_chars(p);
    match name_bounds(&v) {
        Some((a, b)) => match dot_in(&v, a, b) {
            Some(d) => {
                let s = text_of(&v, a + d + 1, b);
                assert(s@ =~= v@.subrange(a as int, b as int).skip(d + 1));
                Some(s)
            },
            None => None,
        },
        None => None,
    }
}

/// The last segment of a path.
pub fn file_name(p: &str) -> (r: Option<String>)
    ensures
        opt_text(r) == file_name_of(p@),
{
    let v = to_chars(p);
    match name_bounds(&v) {
        Some((a, b)) => Some(text_of(&v, a, b)),
        None => None,
    }
}

/// `name` inside the directory `dir`.
pub fn join(dir: &str, name: &str) -> (r: String)
    ensures
        r@ == joined(dir@, name@),
{
    let v = to_chars(dir);
    let mut r = dir.to_owned();
    if v.len() > 0 && v[v.len() - 1] != '/' {
        r.push('/');
    }
    r.append(name);
    assert(r@ =~= joined(dir@, name@));
    r
}

/// The path with its last segment replaced by `name`.
pub fn with_file_name(p: &str, name: &str) -> (r: String)
    ensures
        r@ == renamed(p@, name@),
{
    let v = to_chars(p);
    match name_bounds(&v) {
        Some((a, b)) => {
            let m: usize = body_len(&v, a);
            let dir = text_of(&v, 0, m);
            assert(dir@ =~= v@.take(m as int));
            assert(body_of(v@).take(a as int) =~= v@.take(a as int));
            join(dir.as_str(), name)
        },
        None => join(p, name),
    }
}

/// The path with the extension of its last segment replaced by `ext`.
pub fn with_extension(p: &str, ext: &str) -> (r: String)
    ensures
        r@ == re_extended(p@, ext@),
{
    let v = to_chars(p);
    match name_bounds(&v) {
        Some((a, b)) => {
            let e: usize = match dot_in(&v, a, b) {
                Some(d) => a + d,
                None => b,
            };
            let mut r = text_of(&v, 0, e);
            let ghost stem = v@.subrange(a as int, e as int);
            assert(file_stem_of(p@) == Some(stem)) by {
                assert(v@.subrange(a as int, b as int).take(e - a) =~= stem);
            }
            assert(r@ =~= body_of(v@).take(a as int) + stem);
            r.push('.');
            r.append(ext);
            assert(r@ =~= re_extended(p@, ext@));
            r
        },
        None => p.to_owned(),
    }
}

/// The last segment of a path holds no separator.
pub proof fn lemma_name_has_no_slash(p: Seq<char>)
    requires
        file_name_of(p) is Some,
    ensures
        forall|k: int| 0 <= k < file_name_of(p)->0.len() ==> (#[trigger] file_name_of(p)->0[k]) != '/',
{
    let b = body_of(p);
    lemma_name_start(b);
    let n = b.skip(name_start(b));
    assert forall|k: int| 0 <= k < n.len() implies (#[trigger] n[k]) != '/' by {
        assert(n[k] == b[name_start(b) + k]);
    }
}

/// A path renamed to a plain file name has that name.
pub proof fn law_renamed_has_name(p: Seq<char>, name: Seq<char>)
    requires
        name.len() > 0,
        forall|k: int| 0 <= k < name.len() ==> name[k] != '/',
        name != seq!['.'],
        name != seq!['.', '.'],
    ensures
        file_name_of(renamed(p, name)) == Some(name),
{
    let dir = match file_name_of(p) {
        Some(n) => parent_of(p),
        None => p,
    };
    let r = joined(dir, name);
    let d = r.len() - name.len();
    assert(r.skip(d) =~= name);
    assert forall|k: int| d <= k < r.len() implies r[k] != '/' by {
        assert(r[k] == name[k - d]);
    }
    assert(r.last() == name.last());
    if r.len() >= 2 && r.last() == '.' && r[r.len() - 2] == '/' {
        if name.len() >= 2 {
            assert(r[r.len() - 2] == name[name.len() - 2]);
        } else {
            assert(name =~= seq!['.']);
        }
    }
    assert(body_of(r) == r);
    lemma_name_start(r);
    let n = name_start(r);
    if n < d {
        assert(r[d - 1] == '/');
    }
    if n > d {
        assert(r[n - 1] == '/');
    }
}


proof fn lemma_dot_parts(n: Seq<char>)
    ensures
        dot_of(n) matches Some(d) ==> 0 < d < n.len() && n[d] == '.' && forall|k: int|
            d < k < n.len() ==> n[k] != '.',
        dot_of(n) is None ==> forall|k: int| 0 < k < n.len() ==> n[k] != '.',
    decreases n.len(),
{
    if n.len() >= 2 && n.last() != '.' {
        let m = n.drop_last();
        lemma_dot_parts(m);
        if let Some(d) = dot_of(n) {
            assert forall|k: int| d < k < n.len() implies n[k] != '.' by {
                if k < n.len() - 1 {
                    assert(n[k] == m[k]);
                }
            }
        } else {
            assert forall|k: int| 0 < k < n.len() implies n[k] != '.' by {
                if k < n.len() - 1 {
                    assert(n[k] == m[k]);
                }
            }
        }
    }
}

/// A file name is its stem, a dot and its extension, which holds no dot, or its stem alone, which
/// then holds none behind its first character; the stem is never empty. Only a path with a name has
/// either.
pub proof fn law_name_is_stem_and_extension(p: Seq<char>)
    ensures
        match (file_name_of(p), file_stem_of(p), extension_of(p)) {
            (Some(n), Some(s), Some(e)) => {
                &&& n == s.push('.') + e
                &&& s.len() > 0
                &&& forall|k: int| 0 <= k < e.len() ==> e[k] != '.'
            },
            (Some(n), Some(s), None) => n == s && n.len() > 0 && forall|k: int|
                0 < k < n.len() ==> n[k] != '.',
            (None, None, None) => true,
            _ => false,
        },
{
    if let Some(n) = file_name_of(p) {
        lemma_dot_parts(n);
        if let Some(d) = dot_of(n) {
            assert(n =~= n.take(d).push('.') + n.skip(d + 1));
        }
    }
}

/// The name of a path is what stands behind its last slash, when it ends with neither a slash nor a
/// dot segment; what stands before the name is its directory, up to slashes and dot segments.
pub proof fn law_path_is_directory_and_name(p: Seq<char>)
    ensures
        file_name_of(p) matches Some(n) ==> {
            let b = body_of(p);
            &&& b.is_prefix_of(p)
            &&& b == b.take(b.len() - n.len()) + n
            &&& b.len() > n.len() ==> b[b.len() - n.len() - 1] == '/'
            &&& forall|k: int| 0 <= k < n.len() ==> n[k] != '/'
            &&& parent_of(p).is_prefix_of(p)
            &&& parent_of(p).len() + n.len() <= p.len()
        },
        p.len() > 0 && p.last() != '/' && p.last() != '.' ==> body_of(p) == p,
{
    lemma_body(p);
    let b = body_of(p);
    lemma_name_start(b);
    if let Some(n) = file_name_of(p) {
        assert(b.take(b.len() - n.len()) + n =~= b);
        lemma_name_has_no_slash(p);
        let d = b.take(name_start(b));
        lemma_body(d);
        assert(parent_of(p) =~= p.take(parent_of(p).len() as int));
    }
}

/// A name inside a directory is the name of the path, and stands behind the directory and one slash.
pub proof fn law_joined_has_name(dir: Seq<char>, name: Seq<char>)
    requires
        name.len() > 0,
        forall|k: int| 0 <= k < name.len() ==> name[k] != '/',
        name != seq!['.'],
        name != seq!['.', '.'],
    ensures
        file_name_of(joined(dir, name)) == Some(name),
        dir.is_prefix_of(joined(dir, name)),
        joined(dir, name).skip(joined(dir, name).len() - name.len()) == name,
        dir.len() > 0 ==> joined(dir, name)[joined(dir, name).len() - name.len() - 1] == '/',
        joined(dir, name).len() <= dir.len() + 1 + name.len(),
{
    let r = joined(dir, name);
    lemma_plain_name(r.take(r.len() - name.len()), name);
    assert(r =~= r.take(r.len() - name.len()) + name);
    assert(r.skip(r.len() - name.len()) =~= name);
}

proof fn lemma_plain_name(head: Seq<char>, name: Seq<char>)
    requires
        name.len() > 0,
        forall|k: int| 0 <= k < name.len() ==> name[k] != '/',
        name != seq!['.'],
        name != seq!['.', '.'],
        head.len() == 0 || head.last() == '/',
    ensures
        file_name_of(head + name) == Some(name),
        body_of(head + name) == head + name,
        name_start(head + name) == head.len(),
{
    let r = head + name;
    let d = head.len() as int;
    assert(r.skip(d) =~= name);
    assert forall|k: int| d <= k < r.len() implies r[k] != '/' by {
        assert(r[k] == name[k - d]);
    }
    assert(r.last() == name.last());
    if r.len() >= 2 && r.last() == '.' && r[r.len() - 2] == '/' {
        if name.len() >= 2 {
            assert(r[r.len() - 2] == name[name.len() - 2]);
        } else {
            assert(name =~= seq!['.']);
        }
    }
    assert(body_of(r) == r);
    lemma_name_start(r);
    let n = name_start(r);
    if n < d {
        assert(r[d - 1] == '/');
    }
    if n > d {
        assert(r[n - 1] == '/');
    }
}

/// A path with its extension replaced has that extension, the same stem and the same directory; a
/// path without a name stays.
pub proof fn law_re_extended_has_extension(p: Seq<char>, ext: Seq<char>)
    requires
        ext.len() > 0,
        forall|k: int| 0 <= k < ext.len() ==> ext[k] != '/' && ext[k] != '.',
    ensures
        file_name_of(p) is None ==> re_extended(p, ext) == p,
        file_name_of(p) is Some ==> {
            let r = re_extended(p, ext);
            &&& extension_of(r) == Some(ext)
            &&& file_stem_of(r) == file_stem_of(p)
            &&& parent_of(r) == parent_of(p)
        },
{
    if let Some(n) = file_name_of(p) {
        let b = body_of(p);
        let ns = name_start(b);
        let head = b.take(ns);
        let stem = file_stem_of(p)->0;
        let name = stem.push('.') + ext;
        let r = re_extended(p, ext);
        assert(r =~= head + name);
        lemma_name_start(b);
        lemma_name_has_no_slash(p);
        law_name_is_stem_and_extension(p);
        assert forall|k: int| 0 <= k < name.len() implies name[k] != '/' by {
            if k < stem.len() {
                assert(name[k] == stem[k] && stem[k] == n[k]);
            } else if k > stem.len() {
                assert(name[k] == ext[k - stem.len() - 1]);
            }
        }
        assert(name.last() == ext.last());
        assert(name.last() != '.');
        lemma_plain_name(head, name);
        lemma_dot_parts(name);
        let d = dot_of(name);
        assert(name[stem.len() as int] == '.');
        assert(d == Some(stem.len() as int)) by {
            if let Some(i) = d {
                if i > stem.len() {
                    assert(name[i] == ext[i - stem.len() - 1]);
                }
                if i < stem.len() {
                    assert(name[stem.len() as int] != '.');
                }
            } else {
                assert(name[stem.len() as int] != '.');
            }
        }
        assert(name.take(stem.len() as int) =~= stem);
        assert(name.skip(stem.len() as int + 1) =~= ext);
        assert((head + name).take(head.len() as int) =~= head);
    }
}

} // verus!
