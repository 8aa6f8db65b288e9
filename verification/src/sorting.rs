//! A verified insertion sort over `Vec`, driven by a three-way comparator.

use vstd::prelude::*;
use vstd::relations::{sorted_by, strongly_connected, transitive};
use vstd::seq_lib::group_to_multiset_ensures;
use core::cmp::Ordering;

verus! {

/// Does the comparator's contract decide the relation `leq`? Whenever the
/// comparator may return `o` on `(a, b)`, `o` is anything but `Greater`
/// exactly when `leq(a, b)` holds.
pub open spec fn comparator_decides<T, F: Fn(&T, &T) -> Ordering>(
    compare: F,
    leq: spec_fn(T, T) -> bool,
) -> bool {
    forall|a: &T, b: &T, o: Ordering|
        #[trigger] call_ensures(compare, (a, b), o) ==> ((o != Ordering::Greater) <==> leq(*a, *b))
}

/// The comparator decides `leq`, and `leq` orders every pair of values one
/// way or the other, composably.
pub open spec fn decided_order<T, F: Fn(&T, &T) -> Ordering>(
    compare: F,
    leq: spec_fn(T, T) -> bool,
) -> bool {
    comparator_decides(compare, leq) && transitive(leq) && strongly_connected(leq)
}


/// Inserts `x` into `s` behind every element the comparison does not place
/// strictly after `x`: the insertion step of a stable insertion sort.
pub open spec fn stable_insert_by<T>(s: Seq<T>, x: T, c: spec_fn(T, T) -> Ordering) -> Seq<T>
    decreases s.len(),
{
    if s.len() == 0 {
        seq![x]
    } else if c(s.last(), x) == Ordering::Greater {
        stable_insert_by(s.drop_last(), x, c).push(s.last())
    } else {
        s.push(x)
    }
}

/// The stable sort of `u` under the three-way comparison `c`: elements the
/// comparison ties keep their relative input order.
pub open spec fn stable_sort_by<T>(u: Seq<T>, c: spec_fn(T, T) -> Ordering) -> Seq<T>
    decreases u.len(),
{
    if u.len() == 0 {
        Seq::empty()
    } else {
        stable_insert_by(stable_sort_by(u.drop_last(), c), u.last(), c)
    }
}

/// Does the comparator compute exactly the three-way comparison `c`?
pub open spec fn computes_cmp<T, F: Fn(&T, &T) -> Ordering>(
    compare: F,
    c: spec_fn(T, T) -> Ordering,
) -> bool {
    forall|a: &T, b: &T, o: Ordering|
        #[trigger] call_ensures(compare, (a, b), o) ==> o == c(*a, *b)
}

/// Sorts `v` in place by insertion, using `compare`. The result is always a
/// permutation of the input, sorted by every order the comparator's
/// contract decides; and for a comparator that computes a fixed three-way
/// comparison, the result is exactly the stable sort under it, so tied
/// elements keep their relative input order.
#[verifier::loop_isolation(false)]
pub(crate) fn sort_vec_by<T, F: Fn(&T, &T) -> Ordering>(v: &mut Vec<T>, compare: F)
    requires
        forall|a: &T, b: &T| #[trigger] call_requires(compare, (a, b)),
    ensures
        final(v)@.len() == old(v)@.len(),
        final(v)@.to_multiset() == old(v)@.to_multiset(),
        forall|leq: spec_fn(T, T) -> bool|
            #[trigger] decided_order(compare, leq) ==> sorted_by(final(v)@, leq),
        forall|c: spec_fn(T, T) -> Ordering|
            #[trigger] computes_cmp(compare, c) ==> final(v)@ == stable_sort_by(old(v)@, c),
{
    broadcast use group_to_multiset_ensures;

    if v.len() <= 1 {
        proof {
            assert(v@.to_multiset() =~= old(v)@.to_multiset());
            assert forall|c: spec_fn(T, T) -> Ordering|
                #[trigger] computes_cmp(compare, c) implies v@ == stable_sort_by(old(v)@, c) by {
                if old(v)@.len() == 0 {
                    assert(v@ =~= stable_sort_by(old(v)@, c));
                } else {
                    assert(old(v)@.drop_last() =~= Seq::<T>::empty());
                    assert(stable_sort_by(Seq::<T>::empty(), c) =~= Seq::<T>::empty());
                    assert(stable_sort_by(old(v)@, c) == stable_insert_by(
                        Seq::<T>::empty(),
                        old(v)@.last(),
                        c,
                    ));
                    assert(stable_insert_by(Seq::<T>::empty(), old(v)@.last(), c) =~= seq![
                        old(v)@.last(),
                    ]);
                    assert(v@ =~= seq![old(v)@.last()]);
                }
            }
        }
        return ;
    }
    proof {
        assert forall|c: spec_fn(T, T) -> Ordering|
            #[trigger] computes_cmp(compare, c) implies v@.take(1) == stable_sort_by(
            old(v)@.take(1),
            c,
        ) by {
            let u = old(v)@.take(1);
            assert(u.drop_last() =~= Seq::<T>::empty());
            assert(stable_sort_by(Seq::<T>::empty(), c) =~= Seq::<T>::empty());
            assert(stable_sort_by(u, c) == stable_insert_by(Seq::<T>::empty(), u.last(), c));
            assert(stable_insert_by(Seq::<T>::empty(), u.last(), c) =~= seq![u.last()]);
            assert(v@.take(1) =~= seq![u.last()]);
        }
    }
    let mut i: usize = 1;
    while i < v.len()
        invariant
            1 <= i <= v@.len(),
            v@.len() == old(v)@.len(),
            v@.to_multiset() == old(v)@.to_multiset(),
            forall|leq: spec_fn(T, T) -> bool|
                #[trigger] decided_order(compare, leq) ==> sorted_by(v@.take(i as int), leq),
            forall|k: int| i <= k < v@.len() ==> v@[k] == old(v)@[k],
            forall|c: spec_fn(T, T) -> Ordering|
                #[trigger] computes_cmp(compare, c) ==> v@.take(i as int) == stable_sort_by(
                    old(v)@.take(i as int),
                    c,
                ),
        decreases v@.len() - i,
    {
        let ghost pre = v@;
        let x = v.remove(i);
        let ghost mid = v@;
        proof {
            pre.remove_ensures(i as int);
            assert(mid.take(i as int) =~= pre.take(i as int));
            assert forall|c: spec_fn(T, T) -> Ordering|
                #[trigger] computes_cmp(compare, c) implies stable_insert_by(
                mid.take(i as int),
                x,
                c,
            ) == stable_insert_by(mid.take(i as int), x, c) + mid.subrange(
                i as int,
                i as int,
            ) by {
                assert(stable_insert_by(mid.take(i as int), x, c) + mid.subrange(i as int, i as int)
                    =~= stable_insert_by(mid.take(i as int), x, c));
            }
        }
        let mut j: usize = i;
        let mut searching = true;
        while searching && j > 0
            invariant
                j <= i,
                i <= mid.len(),
                v@ == mid,
                forall|leq: spec_fn(T, T) -> bool, k: int|
                    #[trigger] decided_order(compare, leq) && j <= k < i ==> #[trigger] leq(
                        x,
                        mid[k],
                    ),
                !searching ==> 1 <= j && (forall|leq: spec_fn(T, T) -> bool|
                    #[trigger] decided_order(compare, leq) ==> leq(mid[j - 1], x)),
                forall|c: spec_fn(T, T) -> Ordering|
                    #[trigger] computes_cmp(compare, c) ==> stable_insert_by(
                        mid.take(i as int),
                        x,
                        c,
                    ) == stable_insert_by(mid.take(j as int), x, c) + mid.subrange(
                        j as int,
                        i as int,
                    ),
                !searching ==> (forall|c: spec_fn(T, T) -> Ordering|
                    #[trigger] computes_cmp(compare, c) ==> c(mid[j - 1], x) != Ordering::Greater),
            decreases (if searching { 1int } else { 0int }), j,
        {
            let ord = compare(&v[j - 1], &x);
            if matches!(ord, Ordering::Greater) {
                proof {
                    assert forall|leq: spec_fn(T, T) -> bool, k: int|
                        #[trigger] decided_order(compare, leq) && j - 1 <= k < i implies #[trigger] leq(
                        x,
                        mid[k],
                    ) by {
                        if k == j - 1 {
                            assert(!leq(mid[j - 1], x));
                            assert(leq(x, mid[j - 1]));
                        }
                    }
                    assert forall|c: spec_fn(T, T) -> Ordering|
                        #[trigger] computes_cmp(compare, c) implies stable_insert_by(
                        mid.take(i as int),
                        x,
                        c,
                    ) == stable_insert_by(mid.take(j - 1), x, c) + mid.subrange(
                        j - 1,
                        i as int,
                    ) by {
                        assert(ord == c(mid[j - 1], x));
                        assert(mid.take(j as int).last() == mid[j - 1]);
                        assert(mid.take(j as int).drop_last() =~= mid.take(j - 1));
                        assert(stable_insert_by(mid.take(j as int), x, c) == stable_insert_by(
                            mid.take(j - 1),
                            x,
                            c,
                        ).push(mid[j - 1]));
                        assert(stable_insert_by(mid.take(j - 1), x, c).push(mid[j - 1])
                            + mid.subrange(j as int, i as int) =~= stable_insert_by(
                            mid.take(j - 1),
                            x,
                            c,
                        ) + mid.subrange(j - 1, i as int));
                    }
                }
                j = j - 1;
            } else {
                proof {
                    assert forall|leq: spec_fn(T, T) -> bool|
                        #[trigger] decided_order(compare, leq) implies leq(mid[j - 1], x) by {}
                    assert forall|c: spec_fn(T, T) -> Ordering|
                        #[trigger] computes_cmp(compare, c) implies c(mid[j - 1], x)
                        != Ordering::Greater by {
                        assert(ord == c(mid[j - 1], x));
                    }
                }
                searching = false;
            }
        }
        v.insert(j, x);
        proof {
            assert(v@ =~= mid.insert(j as int, x));
            mid.insert_ensures(j as int, x);
            assert(pre[i as int] == x);
            assert(x == old(v)@[i as int]);
            assert forall|k: int| i + 1 <= k < v@.len() implies v@[k] == old(v)@[k] by {
                assert(v@[k] == mid[k - 1]);
                assert(mid[k - 1] == pre[k]);
            }
            assert(v@.to_multiset() =~= pre.to_multiset()) by {
                assert(mid.to_multiset() == pre.to_multiset().remove(x));
                assert(v@.to_multiset() == mid.to_multiset().insert(x));
                assert(pre.to_multiset().contains(x));
                assert(pre.to_multiset().remove(x).insert(x) =~= pre.to_multiset());
            }
            assert forall|leq: spec_fn(T, T) -> bool|
                #[trigger] decided_order(compare, leq) implies sorted_by(v@.take(i + 1), leq) by {
                let s = v@.take(i + 1);
                assert forall|p: int, q: int| 0 <= p < q < s.len() implies #[trigger] leq(
                    s[p],
                    s[q],
                ) by {
                    assert(sorted_by(pre.take(i as int), leq));
                    assert(forall|k: int|
                        0 <= k < i ==> pre.take(i as int)[k] == #[trigger] mid[k]);
                    if q < j {
                        assert(leq(s[p], s[q]));
                    } else if q == j {
                        // s[q] is the newly inserted element
                        assert(s[q] == x);
                        if p < j - 1 {
                            assert(leq(mid[p], mid[j - 1]));
                            assert(leq(mid[j - 1], x));
                        } else {
                            assert(p == j - 1);
                        }
                    } else if p == j {
                        assert(s[p] == x);
                        assert(s[q] == mid[q - 1]);
                        assert(leq(x, mid[q - 1]));
                    } else if p < j {
                        assert(s[p] == mid[p]);
                        assert(s[q] == mid[q - 1]);
                        assert(leq(x, mid[q - 1]));
                        if p < j - 1 {
                            assert(leq(mid[p], mid[j - 1]));
                            assert(leq(mid[j - 1], x));
                        } else {
                            assert(p == j - 1);
                            assert(leq(mid[j - 1], x));
                        }
                    } else {
                        assert(s[p] == mid[p - 1]);
                        assert(s[q] == mid[q - 1]);
                        assert(leq(mid[p - 1], mid[q - 1]));
                    }
                }
            }
            assert forall|c: spec_fn(T, T) -> Ordering|
                #[trigger] computes_cmp(compare, c) implies v@.take(i + 1) == stable_sort_by(
                old(v)@.take(i + 1),
                c,
            ) by {
                assert(old(v)@.take(i + 1).drop_last() =~= old(v)@.take(i as int));
                assert(old(v)@.take(i + 1).last() == old(v)@[i as int]);
                assert(stable_sort_by(old(v)@.take(i + 1), c) == stable_insert_by(
                    stable_sort_by(old(v)@.take(i as int), c),
                    x,
                    c,
                ));
                assert(pre.take(i as int) == stable_sort_by(old(v)@.take(i as int), c));
                assert(stable_insert_by(mid.take(i as int), x, c) == stable_insert_by(
                    mid.take(j as int),
                    x,
                    c,
                ) + mid.subrange(j as int, i as int));
                if j == 0 {
                    assert(mid.take(0) =~= Seq::<T>::empty());
                    assert(stable_insert_by(mid.take(0), x, c) =~= seq![x]);
                } else {
                    assert(c(mid[j - 1], x) != Ordering::Greater);
                    assert(mid.take(j as int).last() == mid[j - 1]);
                    assert(stable_insert_by(mid.take(j as int), x, c) == mid.take(
                        j as int,
                    ).push(x));
                }
                assert(v@.take(i + 1) =~= stable_insert_by(mid.take(j as int), x, c)
                    + mid.subrange(j as int, i as int));
            }
        }
        i = i + 1;
    }
    proof {
        assert(v@.take(v@.len() as int) =~= v@);
        assert(old(v)@.take(old(v)@.len() as int) =~= old(v)@);
    }
}

} // verus!
