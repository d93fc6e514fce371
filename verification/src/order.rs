//! Sets of indices, listed in ascending order.

use vstd::prelude::*;

verus! {

/// Whether every element of `s` is above all elements before it.
pub open spec fn ascending(s: Seq<u64>) -> bool {
    forall|i: int, j: int| 0 <= i < j < s.len() ==> s[i] < s[j]
}

/// Whether `m` is the greatest element of `set`.
pub open spec fn is_greatest(set: Set<u64>, m: u64) -> bool {
    &&& set.contains(m)
    &&& forall|x: u64| #[trigger] set.contains(x) ==> x <= m
}

/// The greatest element of `set`.
pub open spec fn greatest(set: Set<u64>) -> u64 {
    choose|m: u64| is_greatest(set, m)
}

/// The elements of a finite set in ascending order.
pub open spec fn in_order(set: Set<u64>) -> Seq<u64>
    decreases set.len(),
    when set.finite()
    via in_order_decreases
{
    if set.len() == 0 {
        Seq::empty()
    } else {
        in_order(set.remove(greatest(set))).push(greatest(set))
    }
}

#[via_fn]
proof fn in_order_decreases(set: Set<u64>) {
    if set.len() > 0 {
        lemma_greatest(set);
    }
}

/// A finite set that is not empty has a greatest element.
pub proof fn lemma_greatest(set: Set<u64>)
    requires
        set.finite(),
        set.len() > 0,
    ensures
        is_greatest(set, greatest(set)),
    decreases set.len(),
{
    let x = set.choose();
    let rest = set.remove(x);
    if rest.len() == 0 {
        assert forall|y: u64| #[trigger] set.contains(y) implies y <= x by {
            if y != x {
                assert(rest.contains(y));
                assert(rest.remove(y).len() + 1 == rest.len());
            }
        }
        assert(is_greatest(set, x));
    } else {
        lemma_greatest(rest);
        let m = greatest(rest);
        assert forall|y: u64| #[trigger] set.contains(y) implies y <= m || y <= x by {
            if y != x {
                assert(rest.contains(y));
            }
        }
        if x < m {
            assert(is_greatest(set, m));
        } else {
            assert(is_greatest(set, x));
        }
    }
}

/// The list is ascending, and it holds the elements of the set and nothing else.
pub proof fn lemma_in_order(set: Set<u64>)
    requires
        set.finite(),
    ensures
        ascending(in_order(set)),
        in_order(set).to_set() == set,
        in_order(set).len() == set.len(),
    decreases set.len(),
{
    if set.len() == 0 {
        assert(in_order(set).to_set() =~= set);
    } else {
        lemma_greatest(set);
        let m = greatest(set);
        let rest = set.remove(m);
        lemma_in_order(rest);
        let front = in_order(rest);
        let all = in_order(set);
        assert(all == front.push(m));
        assert forall|i: int, j: int| 0 <= i < j < all.len() implies all[i] < all[j] by {
            assert(front.to_set().contains(front[i]));
            assert(rest.contains(all[i]));
        }
        assert forall|x: u64| all.to_set().contains(x) == set.contains(x) by {
            if set.contains(x) {
                if x == m {
                    assert(all[all.len() - 1] == m);
                } else {
                    assert(front.to_set().contains(x));
                    let i = choose|i: int| 0 <= i < front.len() && front[i] == x;
                    assert(all[i] == x);
                }
            }
            if all.to_set().contains(x) {
                let i = choose|i: int| 0 <= i < all.len() && all[i] == x;
                if i < front.len() {
                    assert(front.to_set().contains(front[i]));
                }
            }
        }
        assert(all.to_set() =~= set);
    }
}

/// There is one ascending list of the elements of a set.
pub proof fn lemma_in_order_unique(s: Seq<u64>)
    requires
        ascending(s),
    ensures
        s.to_set().finite(),
        in_order(s.to_set()) == s,
    decreases s.len(),
{
    vstd::seq_lib::seq_to_set_is_finite(s);
    if s.len() == 0 {
        assert(s.to_set() =~= Set::empty());
        assert(s =~= Seq::empty());
    } else {
        let front = s.drop_last();
        let m = s.last();
        lemma_in_order_unique(front);
        assert(s.to_set().contains(m));
        assert forall|x: u64| #[trigger] s.to_set().contains(x) implies x <= m by {
            let i = choose|i: int| 0 <= i < s.len() && s[i] == x;
        }
        assert(is_greatest(s.to_set(), m));
        lemma_greatest(s.to_set());
        assert(greatest(s.to_set()) == m);
        assert(s.to_set().remove(m) =~= front.to_set()) by {
            assert forall|x: u64|
                s.to_set().remove(m).contains(x) == front.to_set().contains(x) by {
                if s.to_set().remove(m).contains(x) {
                    let i = choose|i: int| 0 <= i < s.len() && s[i] == x;
                    assert(front[i] == x);
                }
                if front.to_set().contains(x) {
                    let i = choose|i: int| 0 <= i < front.len() && front[i] == x;
                    assert(s[i] == x);
                }
            }
        }
        assert(front.push(m) =~= s);
    }
}

/// An element above all others comes last.
pub proof fn lemma_in_order_append(set: Set<u64>, x: u64)
    requires
        set.finite(),
        forall|y: u64| #[trigger] set.contains(y) ==> y < x,
    ensures
        in_order(set.insert(x)) == in_order(set).push(x),
{
    lemma_greatest(set.insert(x));
    assert(is_greatest(set.insert(x), x));
    assert(set.insert(x).remove(x) =~= set);
}

/// Leaving elements out does not reorder the others.
pub proof fn lemma_in_order_filter(set: Set<u64>, keep: spec_fn(u64) -> bool)
    requires
        set.finite(),
    ensures
        set.filter(keep).finite(),
        in_order(set.filter(keep)) == in_order(set).filter(keep),
    decreases set.len(),
{
    reveal(Seq::filter);
    set.lemma_len_filter(keep);
    if set.len() == 0 {
        assert(set.filter(keep) =~= set);
        assert(in_order(set).filter(keep) =~= Seq::empty());
    } else {
        lemma_greatest(set);
        let m = greatest(set);
        let rest = set.remove(m);
        lemma_in_order_filter(rest, keep);
        assert(in_order(set).drop_last() =~= in_order(rest));
        if keep(m) {
            assert(set.filter(keep) =~= rest.filter(keep).insert(m));
            lemma_in_order_append(rest.filter(keep), m);
        } else {
            assert(set.filter(keep) =~= rest.filter(keep));
        }
    }
}

} // verus!
