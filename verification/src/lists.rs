//! Lists picked from lists.
use vstd::prelude::*;

verus! {

/// The items that `keep` accepts, in order. `accepts` is what `keep` decides.
pub(crate) fn keep_if<T, F: Fn(&T) -> bool>(
    v: Vec<T>,
    keep: F,
    Ghost(accepts): Ghost<spec_fn(T) -> bool>,
) -> (r: Vec<T>)
    requires
        forall|x: &T| #[trigger] call_requires(keep, (x,)),
        forall|x: &T, b: bool| #[trigger] call_ensures(keep, (x,), b) ==> b == accepts(*x),
    ensures
        r@ == v@.filter(accepts),
{
    let ghost list = v@;
    let mut out: Vec<T> = Vec::new();
    proof {
        reveal(Seq::filter);
        assert(list.take(0) =~= Seq::<T>::empty());
        assert(out@ =~= list.take(0).filter(accepts));
    }
    for x in it: v
        invariant
            it.seq() == list,
            forall|x: &T| #[trigger] call_requires(keep, (x,)),
            forall|x: &T, b: bool| #[trigger] call_ensures(keep, (x,), b) ==> b == accepts(*x),
            out@ == list.take(it.index() as int).filter(accepts),
    {
        proof {
            reveal(Seq::filter);
            assert(list.take(it.index() + 1).drop_last() =~= list.take(it.index() as int));
            assert(list.take(it.index() + 1).last() == x);
        }
        if keep(&x) {
            out.push(x);
        }
    }
    proof {
        assert(list.take(list.len() as int) =~= list);
    }
    out
}

/// The first position from `i` on whose item is accepted.
pub open spec fn first_from<T>(s: Seq<T>, accepts: spec_fn(T) -> bool, i: int) -> Option<int>
    decreases s.len() - i,
{
    if i < 0 || i >= s.len() {
        None
    } else if accepts(s[i]) {
        Some(i)
    } else {
        first_from(s, accepts, i + 1)
    }
}

/// The first position is in the list, its item is accepted, and none before it
/// is.
pub proof fn lemma_first_from<T>(s: Seq<T>, accepts: spec_fn(T) -> bool, i: int)
    requires
        0 <= i,
    ensures
        match first_from(s, accepts, i) {
            Some(k) => i <= k < s.len() && accepts(s[k]) && forall|j: int|
                i <= j < k ==> !accepts(#[trigger] s[j]),
            None => forall|j: int| i <= j < s.len() ==> !accepts(#[trigger] s[j]),
        },
    decreases s.len() - i,
{
    if i < s.len() && !accepts(s[i]) {
        lemma_first_from(s, accepts, i + 1);
    }
}

/// The first position whose item is accepted.
pub(crate) fn position<T, F: Fn(&T) -> bool>(
    v: &Vec<T>,
    keep: F,
    Ghost(accepts): Ghost<spec_fn(T) -> bool>,
) -> (r: Option<usize>)
    requires
        forall|x: &T| #[trigger] call_requires(keep, (x,)),
        forall|x: &T, b: bool| #[trigger] call_ensures(keep, (x,), b) ==> b == accepts(*x),
    ensures
        match r {
            Some(i) => i < v@.len() && first_from(v@, accepts, 0) == Some(i as int) && accepts(
                v@[i as int],
            ),
            None => first_from(v@, accepts, 0) is None,
        },
{
    let mut i: usize = 0;
    while i < v.len()
        invariant
            i <= v@.len(),
            forall|x: &T| #[trigger] call_requires(keep, (x,)),
            forall|x: &T, b: bool| #[trigger] call_ensures(keep, (x,), b) ==> b == accepts(*x),
            first_from(v@, accepts, 0) == first_from(v@, accepts, i as int),
        decreases v.len() - i,
    {
        if keep(&v[i]) {
            return Some(i);
        }
        i += 1;
    }
    None
}

/// Choosing before a mapping is choosing behind it.
pub proof fn lemma_filter_map<T, U>(
    s: Seq<T>,
    f: spec_fn(T) -> U,
    before: spec_fn(T) -> bool,
    behind: spec_fn(U) -> bool,
)
    requires
        forall|x: T| #[trigger] before(x) == behind(f(x)),
    ensures
        s.map_values(f).filter(behind) == s.filter(before).map_values(f),
    decreases s.len(),
{
    reveal(Seq::filter);
    if s.len() == 0 {
        assert(s.map_values(f).filter(behind) =~= s.filter(before).map_values(f));
    } else {
        let front = s.drop_last();
        lemma_filter_map(front, f, before, behind);
        assert(s.map_values(f).drop_last() =~= front.map_values(f));
        assert(before(s.last()) == behind(f(s.last())));
        assert(s.map_values(f).filter(behind) =~= s.filter(before).map_values(f));
    }
}

/// Whether `r` is what stands in `s` at ascending places.
pub open spec fn stands_at<T>(r: Seq<T>, s: Seq<T>, at: Seq<int>) -> bool {
    &&& at.len() == r.len()
    &&& forall|k: int| 0 <= k < at.len() ==> 0 <= #[trigger] at[k] < s.len() && r[k] == s[at[k]]
    &&& forall|j: int, k: int| 0 <= j < k < at.len() ==> #[trigger] at[j] < #[trigger] at[k]
}

/// Whether `r` holds the items of `s` of which something is true, all of them and
/// no others, in their order.
pub open spec fn is_choice<T>(r: Seq<T>, s: Seq<T>, holds: spec_fn(T) -> bool) -> bool {
    exists|at: Seq<int>| #[trigger]
        stands_at(r, s, at) && forall|i: int|
            0 <= i < s.len() ==> #[trigger] at.contains(i) == holds(s[i])
}

pub proof fn lemma_filter_places<T>(s: Seq<T>, keep: spec_fn(T) -> bool) -> (at: Seq<int>)
    ensures
        stands_at(s.filter(keep), s, at),
        forall|i: int| 0 <= i < s.len() ==> #[trigger] at.contains(i) == keep(s[i]),
    decreases s.len(),
{
    reveal(Seq::filter);
    if s.len() == 0 {
        Seq::empty()
    } else {
        let n = s.len() - 1;
        let front = s.drop_last();
        let before = lemma_filter_places(front, keep);
        let at = if keep(s.last()) {
            before.push(n)
        } else {
            before
        };
        assert forall|i: int| 0 <= i < s.len() implies #[trigger] at.contains(i) == keep(s[i]) by {
            if i < n {
                assert(before.contains(i) == keep(front[i]));
                if before.contains(i) {
                    let k = choose|k: int| 0 <= k < before.len() && before[k] == i;
                    assert(at[k] == i);
                } else if at.contains(i) {
                    let k = choose|k: int| 0 <= k < at.len() && at[k] == i;
                    assert(before[k] == i);
                }
            } else if keep(s[n]) {
                assert(at[before.len() as int] == n);
            } else if at.contains(n) {
                let k = choose|k: int| 0 <= k < at.len() && at[k] == n;
                assert(before[k] < n);
            }
        }
        assert forall|k: int| 0 <= k < at.len() implies 0 <= #[trigger] at[k] < s.len()
            && s.filter(keep)[k] == s[at[k]] by {
            if k < before.len() {
                assert(before[k] == at[k]);
                assert(front[before[k]] == s[at[k]]);
            }
        }
        assert forall|j: int, k: int| 0 <= j < k < at.len() implies #[trigger] at[j]
            < #[trigger] at[k] by {
            assert(before[j] == at[j]);
            if k < before.len() {
                assert(before[k] == at[k]);
            }
        }
        at
    }
}

/// What a filter leaves is the choice of what it accepts.
pub proof fn lemma_filter_is_choice<T>(
    s: Seq<T>,
    keep: spec_fn(T) -> bool,
    holds: spec_fn(T) -> bool,
)
    requires
        forall|i: int| 0 <= i < s.len() ==> keep(#[trigger] s[i]) == holds(s[i]),
    ensures
        is_choice(s.filter(keep), s, holds),
{
    let at = lemma_filter_places(s, keep);
    assert forall|i: int| 0 <= i < s.len() implies #[trigger] at.contains(i) == holds(s[i]) by {
        assert(keep(s[i]) == holds(s[i]));
    }
    assert(stands_at(s.filter(keep), s, at));
}

/// Two filters one behind the other are one.
pub proof fn lemma_filter_filter<T>(
    s: Seq<T>,
    a: spec_fn(T) -> bool,
    b: spec_fn(T) -> bool,
    both: spec_fn(T) -> bool,
)
    requires
        forall|x: T| #[trigger] both(x) == (a(x) && b(x)),
    ensures
        s.filter(a).filter(b) == s.filter(both),
    decreases s.len(),
{
    reveal(Seq::filter);
    if s.len() > 0 {
        let front = s.drop_last();
        lemma_filter_filter(front, a, b, both);
        assert(both(s.last()) == (a(s.last()) && b(s.last())));
        if a(s.last()) {
            assert(front.filter(a).push(s.last()).drop_last() =~= front.filter(a));
        }
    }
}

} // verus!
