//! Sorting and counting.
use vstd::prelude::*;

verus! {

/// Whether the item `a` comes before the item `b`: by its key, and among equal keys by its place.
pub open spec fn precedes(keys: Seq<i128>, a: usize, b: usize) -> bool {
    keys[a as int] < keys[b as int] || (keys[a as int] == keys[b as int] && a < b)
}

/// Whether the places stand in the order of their keys.
pub open spec fn in_order(keys: Seq<i128>, r: Seq<usize>) -> bool {
    &&& forall|i: int| 0 <= i < r.len() ==> (#[trigger] r[i]) < keys.len()
    &&& forall|i: int, j: int| 0 <= i < j < r.len() ==> precedes(keys, #[trigger] r[i], #[trigger] r[j])
}

/// Whether every place below `n` is there.
pub open spec fn covers(r: Seq<usize>, n: int) -> bool {
    forall|k: usize| k < n ==> #[trigger] r.contains(k)
}

/// Whether these are the places of a list in the order of their keys.
pub open spec fn is_order(keys: Seq<i128>, r: Seq<usize>) -> bool {
    r.len() == keys.len() && in_order(keys, r) && covers(r, keys.len() as int)
}

/// The places of a list in the order of their keys; equal keys keep their order.
pub open spec fn order_of(keys: Seq<i128>) -> Seq<usize> {
    choose|r: Seq<usize>| is_order(keys, r)
}

/// The places of a list in the order of their keys; equal keys keep their order.
pub fn stable_order(keys: &Vec<i128>) -> (r: Vec<usize>)
    ensures
        is_order(keys@, r@),
        r@ == order_of(keys@),
{
    let mut r: Vec<usize> = Vec::new();
    let n: usize = keys.len();
    let mut i: usize = 0;
    while i < n
        invariant
            n == keys@.len(),
            i <= n,
            r@.len() == i,
            in_order(keys@, r@),
            forall|k: int| 0 <= k < r@.len() ==> (#[trigger] r@[k]) < i,
            covers(r@, i as int),
        decreases n - i,
    {
        let mut at: usize = i;
        while at > 0 && keys[r[at - 1]] > keys[i]
            invariant
                n == keys@.len(),
                i < n,
                at <= i,
                r@.len() == i,
                in_order(keys@, r@),
                forall|k: int| at <= k < i ==> keys@[(#[trigger] r@[k]) as int] > keys@[i as int],
            decreases at,
        {
            at = at - 1;
        }
        let ghost before = r@;
        r.insert(at, i);
        assert(r@ =~= before.insert(at as int, i));
        proof {
            let s = r@;
            assert forall|x: int, y: int| 0 <= x < y < s.len() implies precedes(
                keys@,
                #[trigger] s[x],
                #[trigger] s[y],
            ) by {
                let px = if x < at {
                    x
                } else {
                    x - 1
                };
                let py = if y < at {
                    y
                } else {
                    y - 1
                };
                if x != at && y != at {
                    assert(s[x] == before[px] && s[y] == before[py]);
                    assert(precedes(keys@, before[px], before[py]));
                } else if y == at {
                    assert(s[x] == before[x]);
                    if x < at - 1 {
                        assert(precedes(keys@, before[x], before[at - 1]));
                    }
                } else {
                    assert(s[y] == before[y - 1]);
                }
            }
            assert forall|k: usize| k < i + 1 implies #[trigger] s.contains(k) by {
                if k == i {
                    assert(s[at as int] == k);
                } else {
                    assert(before.contains(k));
                    let j = choose|j: int| 0 <= j < before.len() && before[j] == k;
                    if j < at {
                        assert(s[j] == k);
                    } else {
                        assert(s[j + 1] == k);
                    }
                }
            }
        }
        i = i + 1;
    }
    proof {
        assert(is_order(keys@, r@));
        law_order_is_unique(keys@, r@, order_of(keys@));
    }
    r
}

/// There is only one such order.
pub proof fn law_order_is_unique(keys: Seq<i128>, a: Seq<usize>, b: Seq<usize>)
    requires
        is_order(keys, a),
        is_order(keys, b),
    ensures
        a == b,
{
    lemma_same_up_to(keys, a, b, a.len() as int);
    assert(a =~= b);
}

proof fn lemma_same_up_to(keys: Seq<i128>, a: Seq<usize>, b: Seq<usize>, n: int)
    requires
        a.len() == b.len(),
        0 <= n <= a.len(),
        in_order(keys, a),
        in_order(keys, b),
        covers(a, keys.len() as int),
        covers(b, keys.len() as int),
    ensures
        forall|i: int| 0 <= i < n ==> a[i] == b[i],
    decreases n,
{
    if n > 0 {
        lemma_same_up_to(keys, a, b, n - 1);
        let x = a[n - 1];
        let y = b[n - 1];
        assert(b.contains(x));
        assert(a.contains(y));
        let j = choose|j: int| 0 <= j < b.len() && b[j] == x;
        let k = choose|k: int| 0 <= k < a.len() && a[k] == y;
        if j < n - 1 {
            assert(a[j] == b[j]);
            assert(precedes(keys, a[j], a[n - 1]));
        }
        if k < n - 1 {
            assert(a[k] == b[k]);
            assert(precedes(keys, b[k], b[n - 1]));
        }
        if j > n - 1 {
            assert(precedes(keys, b[n - 1], b[j]));
            if k > n - 1 {
                assert(precedes(keys, a[n - 1], a[k]));
            }
        }
    }
}

/// How often a key occurs.
pub open spec fn occurrences(keys: Seq<u64>, k: u64) -> nat
    decreases keys.len(),
{
    if keys.len() == 0 {
        0
    } else {
        occurrences(keys.drop_last(), k) + if keys.last() == k {
            1nat
        } else {
            0nat
        }
    }
}

/// Whether the rows are the keys in ascending order, each with how often it occurs.
pub open spec fn counts(keys: Seq<u64>, r: Seq<(u64, usize)>) -> bool {
    &&& forall|i: int, j: int| 0 <= i < j < r.len() ==> (#[trigger] r[i]).0 < (#[trigger] r[j]).0
    &&& forall|i: int|
        0 <= i < r.len() ==> (#[trigger] r[i]).1 == occurrences(keys, r[i].0) && r[i].1 > 0
    &&& forall|k: u64|
        occurrences(keys, k) > 0 ==> exists|i: int| 0 <= i < r.len() && (#[trigger] r[i]).0 == k
}

proof fn lemma_occurrences_bound(keys: Seq<u64>, k: u64)
    ensures
        occurrences(keys, k) <= keys.len(),
    decreases keys.len(),
{
    if keys.len() > 0 {
        lemma_occurrences_bound(keys.drop_last(), k);
    }
}

/// The keys in ascending order, each with how often it occurs.
pub open spec fn tally(keys: Seq<u64>) -> Seq<(u64, usize)> {
    choose|r: Seq<(u64, usize)>| counts(keys, r)
}

proof fn lemma_same_rows(keys: Seq<u64>, a: Seq<(u64, usize)>, b: Seq<(u64, usize)>, n: int)
    requires
        counts(keys, a),
        counts(keys, b),
        0 <= n <= a.len(),
    ensures
        n <= b.len(),
        forall|i: int| 0 <= i < n ==> a[i] == b[i],
    decreases n,
{
    if n > 0 {
        lemma_same_rows(keys, a, b, n - 1);
        let x = a[n - 1].0;
        assert(occurrences(keys, x) > 0);
        let j = choose|j: int| 0 <= j < b.len() && (#[trigger] b[j]).0 == x;
        if j < n - 1 {
            assert(a[j] == b[j]);
            assert(a[j].0 < a[n - 1].0);
        }
        let y = b[n - 1].0;
        assert(occurrences(keys, y) > 0);
        let k = choose|k: int| 0 <= k < a.len() && (#[trigger] a[k]).0 == y;
        if k < n - 1 {
            assert(a[k] == b[k]);
            assert(b[k].0 < b[n - 1].0);
        }
        if j > n - 1 {
            assert(b[n - 1].0 < b[j].0);
            if k > n - 1 {
                assert(a[n - 1].0 < a[k].0);
            }
        }
    }
}

/// There is only one such list.
pub proof fn law_tally_is_unique(keys: Seq<u64>, a: Seq<(u64, usize)>, b: Seq<(u64, usize)>)
    requires
        counts(keys, a),
        counts(keys, b),
    ensures
        a == b,
{
    lemma_same_rows(keys, a, b, a.len() as int);
    lemma_same_rows(keys, b, a, b.len() as int);
    assert(a =~= b);
}

/// All counts together.
pub open spec fn total_count(r: Seq<(u64, usize)>) -> nat
    decreases r.len(),
{
    if r.len() == 0 {
        0
    } else {
        total_count(r.drop_last()) + r.last().1 as nat
    }
}

/// How often the keys of some rows occur, together.
spec fn total_occurrences(keys: Seq<u64>, r: Seq<(u64, usize)>) -> nat
    decreases r.len(),
{
    if r.len() == 0 {
        0
    } else {
        total_occurrences(keys, r.drop_last()) + occurrences(keys, r.last().0)
    }
}

proof fn lemma_one_more_key(keys: Seq<u64>, r: Seq<(u64, usize)>)
    requires
        keys.len() > 0,
        forall|i: int, j: int| 0 <= i < j < r.len() ==> (#[trigger] r[i]).0 < (#[trigger] r[j]).0,
    ensures
        total_occurrences(keys, r) == total_occurrences(keys.drop_last(), r) + if exists|i: int|
            0 <= i < r.len() && (#[trigger] r[i]).0 == keys.last() {
            1nat
        } else {
            0nat
        },
    decreases r.len(),
{
    if r.len() > 0 {
        let init = r.drop_last();
        let k = keys.last();
        assert(forall|i: int| 0 <= i < init.len() ==> #[trigger] init[i] == r[i]);
        lemma_one_more_key(keys, init);
        if exists|i: int| 0 <= i < init.len() && (#[trigger] init[i]).0 == k {
            let i = choose|i: int| 0 <= i < init.len() && (#[trigger] init[i]).0 == k;
            assert(r[i].0 == k);
            assert(r[i].0 < r[r.len() - 1].0);
        } else if r.last().0 == k {
            assert(r[r.len() - 1].0 == k);
        } else {
            assert forall|i: int| 0 <= i < r.len() implies (#[trigger] r[i]).0 != k by {
                if i < init.len() {
                    assert(init[i].0 != k);
                }
            }
        }
    }
}

proof fn lemma_every_key_is_met(keys: Seq<u64>, r: Seq<(u64, usize)>)
    requires
        forall|i: int, j: int| 0 <= i < j < r.len() ==> (#[trigger] r[i]).0 < (#[trigger] r[j]).0,
        forall|k: u64|
            #[trigger] occurrences(keys, k) > 0 ==> exists|i: int|
                0 <= i < r.len() && (#[trigger] r[i]).0 == k,
    ensures
        total_occurrences(keys, r) == keys.len(),
    decreases keys.len(),
{
    if keys.len() > 0 {
        let init = keys.drop_last();
        assert(occurrences(keys, keys.last()) > 0);
        assert forall|k: u64| #[trigger] occurrences(init, k) > 0 implies exists|i: int|
            0 <= i < r.len() && (#[trigger] r[i]).0 == k by {
            assert(occurrences(keys, k) > 0);
        }
        lemma_every_key_is_met(init, r);
        lemma_one_more_key(keys, r);
    } else {
        assert(keys =~= seq![]);
        lemma_nothing_occurs(r);
    }
}

proof fn lemma_nothing_occurs(r: Seq<(u64, usize)>)
    ensures
        total_occurrences(seq![], r) == 0,
    decreases r.len(),
{
    if r.len() > 0 {
        lemma_nothing_occurs(r.drop_last());
    }
}

proof fn lemma_counts_are_occurrences(keys: Seq<u64>, r: Seq<(u64, usize)>)
    requires
        forall|i: int| 0 <= i < r.len() ==> (#[trigger] r[i]).1 == occurrences(keys, r[i].0),
    ensures
        total_count(r) == total_occurrences(keys, r),
    decreases r.len(),
{
    if r.len() > 0 {
        let init = r.drop_last();
        assert(forall|i: int| 0 <= i < init.len() ==> #[trigger] init[i] == r[i]);
        assert(r.last() == r[r.len() - 1]);
        lemma_counts_are_occurrences(keys, init);
    }
}

/// The counts of a list together are the length of the list.
pub proof fn law_tally_counts_all(keys: Seq<u64>, r: Seq<(u64, usize)>)
    requires
        counts(keys, r),
    ensures
        total_count(r) == keys.len(),
{
    lemma_counts_are_occurrences(keys, r);
    lemma_every_key_is_met(keys, r);
}

/// The keys in ascending order, each with how often it occurs.
pub fn count_keys(keys: &Vec<u64>) -> (r: Vec<(u64, usize)>)
    ensures
        counts(keys@, r@),
        r@ == tally(keys@),
{
    let mut r: Vec<(u64, usize)> = Vec::new();
    let n: usize = keys.len();
    let mut i: usize = 0;
    assert(keys@.take(0) =~= seq![]);
    while i < n
        invariant
            n == keys@.len(),
            i <= n,
            counts(keys@.take(i as int), r@),
        decreases n - i,
    {
        let k: u64 = keys[i];
        let ghost was = keys@.take(i as int);
        let ghost now = keys@.take(i + 1);
        assert(now.drop_last() =~= was);
        assert(now.last() == k);
        assert forall|x: u64| #[trigger] occurrences(now, x) == occurrences(was, x) + (if x == k {
            1nat
        } else {
            0nat
        }) by {}
        let mut at: usize = 0;
        while at < r.len() && r[at].0 < k
            invariant
                at <= r@.len(),
                forall|j: int| 0 <= j < at ==> (#[trigger] r@[j]).0 < k,
            decreases r@.len() - at,
        {
            at = at + 1;
        }
        let ghost before = r@;
        if at < r.len() && r[at].0 == k {
            proof {
                lemma_occurrences_bound(was, k);
                assert(before[at as int].1 == occurrences(was, k));
            }
            let c: usize = r[at].1;
            r.set(at, (k, c + 1));
            proof {
                let s = r@;
                assert forall|x: u64| occurrences(now, x) > 0 implies exists|j: int|
                    0 <= j < s.len() && (#[trigger] s[j]).0 == x by {
                    if x == k {
                        assert(s[at as int].0 == x);
                    } else {
                        let j = choose|j: int| 0 <= j < before.len() && (#[trigger] before[j]).0 == x;
                        assert(s[j].0 == x);
                    }
                }
            }
        } else {
            r.insert(at, (k, 1));
            assert(r@ =~= before.insert(at as int, (k, 1usize)));
            proof {
                let s = r@;
                if occurrences(was, k) > 0 {
                    let j = choose|j: int| 0 <= j < before.len() && (#[trigger] before[j]).0 == k;
                    if j > at {
                        assert(before[at as int].0 < before[j].0);
                    }
                }
                assert forall|x: int, y: int| 0 <= x < y < s.len() implies (#[trigger] s[x]).0 < (
                #[trigger] s[y]).0 by {
                    let px = if x < at {
                        x
                    } else {
                        x - 1
                    };
                    let py = if y < at {
                        y
                    } else {
                        y - 1
                    };
                    if x != at && y != at {
                        assert(s[x] == before[px] && s[y] == before[py]);
                    } else if y == at {
                        assert(s[x] == before[x]);
                    } else {
                        assert(s[y] == before[y - 1]);
                        if y - 1 > at {
                            assert(before[at as int].0 < before[y - 1].0);
                        }
                    }
                }
                assert forall|x: int| 0 <= x < s.len() implies (#[trigger] s[x]).1 == occurrences(
                    now,
                    s[x].0,
                ) && s[x].1 > 0 by {
                    if x < at {
                        assert(s[x] == before[x]);
                    } else if x > at {
                        assert(s[x] == before[x - 1]);
                        assert(s[x].0 != k);
                    }
                }
                assert forall|x: u64| occurrences(now, x) > 0 implies exists|j: int|
                    0 <= j < s.len() && (#[trigger] s[j]).0 == x by {
                    if x == k {
                        assert(s[at as int].0 == x);
                    } else {
                        let j = choose|j: int| 0 <= j < before.len() && (#[trigger] before[j]).0 == x;
                        if j < at {
                            assert(s[j].0 == x);
                        } else {
                            assert(s[j + 1].0 == x);
                        }
                    }
                }
            }
        }
        i = i + 1;
    }
    assert(keys@.take(i as int) =~= keys@);
    proof {
        law_tally_is_unique(keys@, r@, tally(keys@));
    }
    r
}


/// Where a key belongs among places in the order of their keys: behind those with the same key.
proof fn lemma_place(keys: Seq<i128>, r: Seq<usize>, k: i128, n: int) -> (p: int)
    requires
        in_order(keys, r),
        0 <= n <= r.len(),
        forall|i: int| n <= i < r.len() ==> keys[(#[trigger] r[i]) as int] > k,
    ensures
        0 <= p <= n,
        forall|i: int| 0 <= i < p ==> keys[(#[trigger] r[i]) as int] <= k,
        forall|i: int| p <= i < r.len() ==> keys[(#[trigger] r[i]) as int] > k,
    decreases n,
{
    if n == 0 {
        0
    } else if keys[r[n - 1] as int] > k {
        lemma_place(keys, r, k, n - 1)
    } else {
        assert forall|i: int| 0 <= i < n implies keys[(#[trigger] r[i]) as int] <= k by {
            if i < n - 1 {
                assert(precedes(keys, r[i], r[n - 1]));
            }
        }
        n
    }
}

proof fn lemma_inserted_is_order(keys: Seq<i128>, r: Seq<usize>, p: int)
    requires
        keys.len() > 0,
        keys.len() - 1 <= usize::MAX,
        is_order(keys.drop_last(), r),
        0 <= p <= r.len(),
        forall|i: int| 0 <= i < p ==> keys[(#[trigger] r[i]) as int] <= keys.last(),
        forall|i: int| p <= i < r.len() ==> keys[(#[trigger] r[i]) as int] > keys.last(),
    ensures
        is_order(keys, r.insert(p, (keys.len() - 1) as usize)),
{
    let n = (keys.len() - 1) as usize;
    let init = keys.drop_last();
    let s = r.insert(p, n);
    assert(forall|i: int| 0 <= i < p ==> #[trigger] s[i] == r[i]);
    assert(forall|i: int| p < i < s.len() ==> #[trigger] s[i] == r[i - 1]);
    assert(s[p] == n);
    assert forall|i: int| 0 <= i < s.len() implies (#[trigger] s[i]) < keys.len() by {
        if i < p {
            assert(r[i] < init.len());
        } else if i > p {
            assert(r[i - 1] < init.len());
        }
    }
    assert forall|i: int, j: int| 0 <= i < j < s.len() implies precedes(
        keys,
        #[trigger] s[i],
        #[trigger] s[j],
    ) by {
        if i < p {
            assert(r[i] < init.len());
            if j < p {
                assert(precedes(init, r[i], r[j]));
                assert(r[j] < init.len());
            } else if j > p {
                assert(precedes(init, r[i], r[j - 1]));
                assert(r[j - 1] < init.len());
            }
        } else if i == p {
            assert(keys[r[j - 1] as int] > keys.last());
        } else {
            assert(precedes(init, r[i - 1], r[j - 1]));
            assert(r[i - 1] < init.len());
            assert(r[j - 1] < init.len());
        }
    }
    assert forall|k: usize| k < keys.len() implies #[trigger] s.contains(k) by {
        if k == n {
            assert(s[p] == k);
        } else {
            assert(r.contains(k));
            let i = choose|i: int| 0 <= i < r.len() && r[i] == k;
            if i < p {
                assert(s[i] == k);
            } else {
                assert(s[i + 1] == k);
            }
        }
    }
}

/// Every list has such an order.
pub proof fn law_order_is_there(keys: Seq<i128>)
    requires
        keys.len() <= usize::MAX,
    ensures
        is_order(keys, order_of(keys)),
    decreases keys.len(),
{
    if keys.len() == 0 {
        assert(is_order(keys, seq![]));
    } else {
        let init = keys.drop_last();
        law_order_is_there(init);
        let r = order_of(init);
        assert forall|i: int, j: int| 0 <= i < j < r.len() implies precedes(
            keys,
            #[trigger] r[i],
            #[trigger] r[j],
        ) by {
            assert(precedes(init, r[i], r[j]));
            assert(r[i] < init.len() && r[j] < init.len());
        }
        assert forall|i: int| 0 <= i < r.len() implies (#[trigger] r[i]) < keys.len() by {
            assert(r[i] < init.len());
        }
        let p = lemma_place(keys, r, keys.last(), r.len() as int);
        lemma_inserted_is_order(keys, r, p);
        assert(is_order(keys, r.insert(p, (keys.len() - 1) as usize)));
    }
}

/// A key that is in a list occurs, and one that occurs is in the list.
pub proof fn law_what_is_there_occurs(keys: Seq<u64>, k: u64)
    ensures
        occurrences(keys, k) > 0 <==> keys.contains(k),
        occurrences(keys, k) <= keys.len(),
        (forall|i: int| 0 <= i < keys.len() ==> keys[i] == k) ==> occurrences(keys, k)
            == keys.len(),
    decreases keys.len(),
{
    if keys.len() > 0 {
        let init = keys.drop_last();
        law_what_is_there_occurs(init, k);
        assert(keys.last() == keys[keys.len() - 1]);
        assert(forall|i: int| 0 <= i < init.len() ==> #[trigger] init[i] == keys[i]);
        if init.contains(k) {
            let i = choose|i: int| 0 <= i < init.len() && init[i] == k;
            assert(keys[i] == k);
        }
        if keys.contains(k) && keys.last() != k {
            let i = choose|i: int| 0 <= i < keys.len() && keys[i] == k;
            assert(init[i] == k);
        }
    }
}

} // verus!
