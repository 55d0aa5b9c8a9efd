//! Stable sorting.
use vstd::prelude::*;

verus! {

/// `x` put behind every item of `s` that it may follow, counted from the end.
pub open spec fn insert_last<T>(s: Seq<T>, x: T, le: spec_fn(T, T) -> bool) -> Seq<T>
    decreases s.len(),
{
    if s.len() == 0 || le(s.last(), x) {
        s.push(x)
    } else {
        insert_last(s.drop_last(), x, le).push(s.last())
    }
}

/// The items of `s` in the order `le`, equal items in the order in which they
/// stand in `s`.
pub open spec fn sorted<T>(s: Seq<T>, le: spec_fn(T, T) -> bool) -> Seq<T>
    decreases s.len(),
{
    if s.len() == 0 {
        s
    } else {
        insert_last(sorted(s.drop_last(), le), s.last(), le)
    }
}

pub open spec fn total<T>(le: spec_fn(T, T) -> bool) -> bool {
    &&& forall|a: T, b: T| #[trigger] le(a, b) || #[trigger] le(b, a)
    &&& forall|a: T, b: T, c: T| #[trigger] le(a, b) && #[trigger] le(b, c) ==> le(a, c)
}

pub open spec fn ascending<T>(s: Seq<T>, le: spec_fn(T, T) -> bool) -> bool {
    forall|i: int, j: int| 0 <= i < j < s.len() ==> #[trigger] le(s[i], s[j])
}

proof fn lemma_insert_position<T>(s: Seq<T>, x: T, le: spec_fn(T, T) -> bool, p: int)
    requires
        0 <= p <= s.len(),
        p == 0 || le(s[p - 1], x),
        forall|i: int| p <= i < s.len() ==> !le(#[trigger] s[i], x),
    ensures
        insert_last(s, x, le) == s.insert(p, x),
    decreases s.len(),
{
    if p == s.len() {
        assert(s.insert(p, x) =~= s.push(x));
    } else {
        assert(!le(s[s.len() - 1], x));
        lemma_insert_position(s.drop_last(), x, le, p);
        assert(s.drop_last().insert(p, x).push(s.last()) =~= s.insert(p, x));
    }
}

proof fn lemma_insert<T>(s: Seq<T>, x: T, le: spec_fn(T, T) -> bool)
    requires
        total(le),
        ascending(s, le),
    ensures
        ascending(insert_last(s, x, le), le),
        insert_last(s, x, le).to_multiset() == s.to_multiset().insert(x),
        insert_last(s, x, le).len() == s.len() + 1,
        forall|i: int|
            0 <= i <= s.len() ==> #[trigger] insert_last(s, x, le)[i] == x || s.contains(
                insert_last(s, x, le)[i],
            ),
    decreases s.len(),
{
    broadcast use vstd::seq_lib::group_to_multiset_ensures;

    let r = insert_last(s, x, le);
    if s.len() == 0 || le(s.last(), x) {
        assert forall|i: int, j: int| 0 <= i < j < r.len() implies #[trigger] le(r[i], r[j]) by {
            if j == s.len() && i < s.len() - 1 {
                assert(le(s[i], s[s.len() - 1]));
            }
        }
    } else {
        let t = insert_last(s.drop_last(), x, le);
        lemma_insert(s.drop_last(), x, le);
        assert(s =~= s.drop_last().push(s.last()));
        assert(le(x, s.last())) by {
            assert(le(s.last(), x) || le(x, s.last()));
        }
        assert forall|i: int, j: int| 0 <= i < j < r.len() implies #[trigger] le(r[i], r[j]) by {
            if j == s.len() {
                assert(r[i] == t[i]);
                if t[i] != x {
                    let k = choose|k: int| 0 <= k < s.len() - 1 && s.drop_last()[k] == t[i];
                    assert(le(s[k], s[s.len() - 1]));
                }
            } else {
                assert(le(t[i], t[j]));
            }
        }
        assert forall|i: int| 0 <= i <= s.len() implies #[trigger] r[i] == x || s.contains(r[i]) by {
            if i < s.len() {
                assert(r[i] == t[i]);
                if t[i] != x {
                    let k = choose|k: int| 0 <= k < s.len() - 1 && s.drop_last()[k] == t[i];
                    assert(s[k] == t[i]);
                }
            } else {
                assert(s[s.len() - 1] == r[i]);
            }
        }
        assert(r.to_multiset() =~= s.to_multiset().insert(x));
    }
}

/// Sorting by a total order puts the items in order and neither adds nor
/// drops one.
pub proof fn lemma_sorted<T>(s: Seq<T>, le: spec_fn(T, T) -> bool)
    requires
        total(le),
    ensures
        ascending(sorted(s, le), le),
        sorted(s, le).to_multiset() == s.to_multiset(),
        sorted(s, le).len() == s.len(),
    decreases s.len(),
{
    broadcast use vstd::seq_lib::group_to_multiset_ensures;

    if s.len() > 0 {
        lemma_sorted(s.drop_last(), le);
        lemma_insert(sorted(s.drop_last(), le), s.last(), le);
        assert(s =~= s.drop_last().push(s.last()));
    }
}

proof fn lemma_insert_map<T, U>(
    s: Seq<T>,
    x: T,
    f: spec_fn(T) -> U,
    le_t: spec_fn(T, T) -> bool,
    le_u: spec_fn(U, U) -> bool,
)
    requires
        forall|a: T, b: T| #[trigger] le_t(a, b) == le_u(f(a), f(b)),
    ensures
        insert_last(s, x, le_t).map_values(f) == insert_last(s.map_values(f), f(x), le_u),
    decreases s.len(),
{
    if s.len() == 0 || le_t(s.last(), x) {
        assert(s.push(x).map_values(f) =~= s.map_values(f).push(f(x)));
        if s.len() > 0 {
            assert(s.map_values(f).last() == f(s.last()));
        }
    } else {
        assert(!le_t(s.last(), x));
        lemma_insert_map(s.drop_last(), x, f, le_t, le_u);
        assert(s.map_values(f).last() == f(s.last()));
        assert(s.map_values(f).drop_last() =~= s.drop_last().map_values(f));
        let t = insert_last(s.drop_last(), x, le_t);
        assert(t.push(s.last()).map_values(f) =~= t.map_values(f).push(f(s.last())));
    }
}

/// Sorting by what a function makes of the items is sorting what it makes of
/// them.
pub proof fn lemma_sorted_map<T, U>(
    s: Seq<T>,
    f: spec_fn(T) -> U,
    le_t: spec_fn(T, T) -> bool,
    le_u: spec_fn(U, U) -> bool,
)
    requires
        forall|a: T, b: T| #[trigger] le_t(a, b) == le_u(f(a), f(b)),
    ensures
        sorted(s, le_t).map_values(f) == sorted(s.map_values(f), le_u),
    decreases s.len(),
{
    if s.len() == 0 {
        assert(s.map_values(f) =~= Seq::<U>::empty());
        assert(sorted(s, le_t).map_values(f) =~= Seq::<U>::empty());
    } else {
        lemma_sorted_map(s.drop_last(), f, le_t, le_u);
        lemma_insert_map(sorted(s.drop_last(), le_t), s.last(), f, le_t, le_u);
        assert(s.map_values(f).drop_last() =~= s.drop_last().map_values(f));
        assert(s.map_values(f).last() == f(s.last()));
    }
}

/// No two items have the same key.
pub open spec fn unique<T, K>(s: Seq<T>, key: spec_fn(T) -> K) -> bool {
    forall|i: int, j: int| 0 <= i < j < s.len() ==> key(#[trigger] s[i]) != key(#[trigger] s[j])
}

/// Sorting neither adds nor drops an item.
pub proof fn lemma_sorted_contains<T>(s: Seq<T>, le: spec_fn(T, T) -> bool, x: T)
    requires
        total(le),
    ensures
        sorted(s, le).contains(x) == s.contains(x),
{
    broadcast use vstd::seq_lib::group_to_multiset_ensures;

    lemma_sorted(s, le);
    assert(s.contains(x) == (s.to_multiset().count(x) > 0));
    assert(sorted(s, le).contains(x) == (sorted(s, le).to_multiset().count(x) > 0));
}

/// Sorting keeps keys apart.
pub proof fn lemma_sorted_unique<T, K>(s: Seq<T>, le: spec_fn(T, T) -> bool, key: spec_fn(T) -> K)
    requires
        total(le),
        unique(s, key),
    ensures
        unique(sorted(s, le), key),
{
    let r = sorted(s, le);
    lemma_sorted(s, le);
    assert(s.no_duplicates());
    s.lemma_multiset_has_no_duplicates();
    r.lemma_multiset_has_no_duplicates_conv();
    assert forall|i: int, j: int| 0 <= i < j < r.len() implies key(#[trigger] r[i]) != key(
        #[trigger] r[j],
    ) by {
        lemma_sorted_contains(s, le, r[i]);
        lemma_sorted_contains(s, le, r[j]);
        assert(r.contains(r[i]) && r.contains(r[j]));
        let a = choose|a: int| 0 <= a < s.len() && s[a] == r[i];
        let b = choose|b: int| 0 <= b < s.len() && s[b] == r[j];
        assert(r[i] != r[j]);
        if a < b {
            assert(key(s[a]) != key(s[b]));
        } else {
            assert(key(s[b]) != key(s[a]));
        }
    }
}

/// Leaving items out keeps keys apart, and what is left is what was kept.
pub proof fn lemma_filter_unique<T, K>(s: Seq<T>, keep: spec_fn(T) -> bool, key: spec_fn(T) -> K)
    requires
        unique(s, key),
    ensures
        unique(s.filter(keep), key),
        forall|i: int|
            0 <= i < s.filter(keep).len() ==> s.contains(#[trigger] s.filter(keep)[i]) && keep(
                s.filter(keep)[i],
            ),
    decreases s.len(),
{
    reveal(Seq::filter);
    if s.len() > 0 {
        let front = s.drop_last();
        let f = front.filter(keep);
        let r = s.filter(keep);
        assert(unique(front, key)) by {
            assert forall|i: int, j: int| 0 <= i < j < front.len() implies key(#[trigger] front[i])
                != key(#[trigger] front[j]) by {
                assert(key(s[i]) != key(s[j]));
            }
        }
        lemma_filter_unique(front, keep, key);
        assert forall|i: int| 0 <= i < r.len() implies s.contains(#[trigger] r[i]) && keep(r[i]) by {
            if i < f.len() {
                assert(r[i] == f[i]);
                let k = choose|k: int| 0 <= k < front.len() && front[k] == f[i];
                assert(s[k] == r[i]);
            } else {
                assert(s[s.len() - 1] == r[i]);
            }
        }
        assert forall|i: int, j: int| 0 <= i < j < r.len() implies key(#[trigger] r[i]) != key(
            #[trigger] r[j],
        ) by {
            assert(r[i] == f[i]);
            if j < f.len() {
                assert(r[j] == f[j]);
            } else {
                let k = choose|k: int| 0 <= k < front.len() && front[k] == f[i];
                assert(s[k] == r[i]);
                assert(key(s[k]) != key(s[s.len() - 1]));
            }
        }
    }
}

/// Sorts `v` with the comparison `before`, which decides `le`.
pub(crate) fn sort_stable<T, F: Fn(&T, &T) -> bool>(
    v: Vec<T>,
    before: F,
    Ghost(le): Ghost<spec_fn(T, T) -> bool>,
) -> (r: Vec<T>)
    requires
        forall|a: T, b: T| #[trigger] before.requires((&a, &b)),
        forall|a: T, b: T, o: bool| #[trigger] before.ensures((&a, &b), o) ==> o == le(a, b),
    ensures
        r@ == sorted(v@, le),
{
    let mut out: Vec<T> = Vec::new();
    let ghost all = v@;
    for x in it: v
        invariant
            it.seq() == all,
            out@ == sorted(all.take(it.index() as int), le),
            forall|a: T, b: T| #[trigger] before.requires((&a, &b)),
            forall|a: T, b: T, o: bool| #[trigger] before.ensures((&a, &b), o) ==> o == le(a, b),
    {
        let mut p: usize = out.len();
        while p > 0
            invariant
                p <= out@.len(),
                forall|i: int| p <= i < out@.len() ==> !le(#[trigger] out@[i], x),
                forall|a: T, b: T| #[trigger] before.requires((&a, &b)),
                forall|a: T, b: T, o: bool| #[trigger] before.ensures((&a, &b), o) ==> o == le(a, b),
            ensures
                p <= out@.len(),
                forall|i: int| p <= i < out@.len() ==> !le(#[trigger] out@[i], x),
                p == 0 || le(out@[p - 1], x),
            decreases p,
        {
            if before(&out[p - 1], &x) {
                break;
            }
            p -= 1;
        }
        proof {
            lemma_insert_position(out@, x, le, p as int);
            assert(all.take(it.index() + 1).drop_last() =~= all.take(it.index() as int));
            assert(all.take(it.index() + 1).last() == x);
        }
        out.insert(p, x);
    }
    proof {
        assert(all.take(all.len() as int) =~= all);
    }
    out
}

proof fn lemma_insert_filter_len<T>(
    s: Seq<T>,
    x: T,
    le: spec_fn(T, T) -> bool,
    keep: spec_fn(T) -> bool,
)
    ensures
        insert_last(s, x, le).filter(keep).len() == s.filter(keep).len() + if keep(x) {
            1int
        } else {
            0
        },
    decreases s.len(),
{
    reveal(Seq::filter);
    let r = insert_last(s, x, le);
    if s.len() == 0 || le(s.last(), x) {
        assert(r.drop_last() =~= s);
    } else {
        lemma_insert_filter_len(s.drop_last(), x, le, keep);
        assert(r.drop_last() =~= insert_last(s.drop_last(), x, le));
    }
}

/// Sorting does not change how many items something is true of.
pub proof fn lemma_sorted_filter_len<T>(
    s: Seq<T>,
    le: spec_fn(T, T) -> bool,
    keep: spec_fn(T) -> bool,
)
    ensures
        sorted(s, le).filter(keep).len() == s.filter(keep).len(),
    decreases s.len(),
{
    reveal(Seq::filter);
    if s.len() > 0 {
        lemma_sorted_filter_len(s.drop_last(), le, keep);
        lemma_insert_filter_len(sorted(s.drop_last(), le), s.last(), le, keep);
    }
}

} // verus!
