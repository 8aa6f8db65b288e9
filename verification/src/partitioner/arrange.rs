//! The deterministic-ordering pass: puts every output bucket of the engine
//! into its canonical order.

use vstd::prelude::*;
use vstd::relations::{sorted_by, strongly_connected, transitive};
use vstd::seq_lib::lemma_sorted_unique;
use core::cmp::Ordering;
use crate::log_entry::{entry_views, LogEntry, LogEntryView};
use crate::sorting::{comparator_decides, decided_order, sort_vec_by};
use crate::text_order::{cmp_lawful, le_of, lemma_lawful_total_ordering};
use super::classify::{cross_views, pair_views, solo_views};
use super::match_pair::{MatchPair, PairView};
use super::match_group::{GroupView, MatchGroup, SingleFileMatchGroup};
use super::model::lemma_map_values_multiset;
use super::order::{
    entry_cmp_exec, entry_cmp_rel, entry_seq_cmp_rel, group_cmp_exec, group_cmp_rel,
    lemma_entry_cmp_lawful, lemma_entry_seq_cmp_lawful, lemma_group_cmp_lawful,
    lemma_pair_cmp_lawful, pair_cmp_exec, pair_cmp_rel, solo_group_cmp_exec,
};

verus! {

/// Entries in canonical order: by path, then digest key.
pub open spec fn sort_entry_views(s: Seq<LogEntryView>) -> Seq<LogEntryView> {
    s.sort_by(le_of(entry_cmp_rel()))
}

/// Pairs in canonical order: by their source 1 entry, then source 2 entry.
pub open spec fn sort_pair_views(s: Seq<PairView>) -> Seq<PairView> {
    s.sort_by(le_of(pair_cmp_rel()))
}

/// Sorts a member list, as a function value.
pub open spec fn sort_members_fn() -> spec_fn(Seq<LogEntryView>) -> Seq<LogEntryView> {
    |s: Seq<LogEntryView>| sort_entry_views(s)
}

/// Single-source groups in canonical order: members sorted, then the groups
/// themselves ordered by their member lists.
pub open spec fn sort_solo_views(s: Seq<Seq<LogEntryView>>) -> Seq<Seq<LogEntryView>> {
    s.map_values(sort_members_fn()).sort_by(le_of(entry_seq_cmp_rel()))
}

/// Sorts both sides of a cross-source group, as a function value.
pub open spec fn sort_group_members_fn() -> spec_fn(GroupView) -> GroupView {
    |g: GroupView|
        GroupView {
            from_file1: sort_entry_views(g.from_file1),
            from_file2: sort_entry_views(g.from_file2),
        }
}

/// Cross-source groups in canonical order: each side sorted, then the groups
/// ordered by their sides.
pub open spec fn sort_cross_views(s: Seq<GroupView>) -> Seq<GroupView> {
    s.map_values(sort_group_members_fn()).sort_by(le_of(group_cmp_rel()))
}

/// The entry order lifted to entry values.
pub open spec fn entry_value_le() -> spec_fn(LogEntry, LogEntry) -> bool {
    |a: LogEntry, b: LogEntry| le_of(entry_cmp_rel())(a@, b@)
}

/// The pair order lifted to pair values.
pub open spec fn pair_value_le() -> spec_fn(MatchPair, MatchPair) -> bool {
    |a: MatchPair, b: MatchPair| le_of(pair_cmp_rel())(a@, b@)
}

/// The member-list order lifted to single-source group values.
pub open spec fn solo_value_le() -> spec_fn(SingleFileMatchGroup, SingleFileMatchGroup) -> bool {
    |a: SingleFileMatchGroup, b: SingleFileMatchGroup| le_of(entry_seq_cmp_rel())(a@, b@)
}

/// The group order lifted to cross-source group values.
pub open spec fn group_value_le() -> spec_fn(MatchGroup, MatchGroup) -> bool {
    |a: MatchGroup, b: MatchGroup| le_of(group_cmp_rel())(a@, b@)
}

/// A lawful order lifted through views stays transitive and connected.
proof fn lemma_lifted_le_props<T: View>(c: spec_fn(T::V, T::V) -> Ordering, le: spec_fn(T, T) -> bool)
    requires
        cmp_lawful(c),
        forall|a: T, b: T| #[trigger] le(a, b) == le_of(c)(a@, b@),
    ensures
        transitive(le),
        strongly_connected(le),
{
    lemma_lawful_total_ordering(c);
    assert forall|x: T, y: T, z: T| #[trigger] le(x, y) && #[trigger] le(y, z) implies le(
        x,
        z,
    ) by {
        assert(le_of(c)(x@, y@) && le_of(c)(y@, z@));
        assert(le_of(c)(x@, z@));
    }
    assert forall|x: T, y: T| #[trigger] le(x, y) || #[trigger] le(y, x) by {
        assert(le_of(c)(x@, y@) || le_of(c)(y@, x@));
    }
}

/// A sorted permutation of a sequence is its canonical sorted form.
proof fn lemma_canonical_sort<V>(oldv: Seq<V>, newv: Seq<V>, c: spec_fn(V, V) -> Ordering)
    requires
        cmp_lawful(c),
        newv.to_multiset() == oldv.to_multiset(),
        sorted_by(newv, le_of(c)),
    ensures
        newv == oldv.sort_by(le_of(c)),
{
    lemma_lawful_total_ordering(c);
    oldv.lemma_sort_by_ensures(le_of(c));
    lemma_sorted_unique(newv, oldv.sort_by(le_of(c)), le_of(c));
}

proof fn lemma_entry_views_multiset(s1: Seq<LogEntry>, s2: Seq<LogEntry>)
    requires
        s1.to_multiset() == s2.to_multiset(),
    ensures
        entry_views(s1).to_multiset() == entry_views(s2).to_multiset(),
{
    let f = |e: LogEntry| e@;
    assert(entry_views(s1) =~= s1.map_values(f));
    assert(entry_views(s2) =~= s2.map_values(f));
    lemma_map_values_multiset(s1, s2, f);
}

proof fn lemma_pair_views_multiset(s1: Seq<MatchPair>, s2: Seq<MatchPair>)
    requires
        s1.to_multiset() == s2.to_multiset(),
    ensures
        pair_views(s1).to_multiset() == pair_views(s2).to_multiset(),
{
    let f = |p: MatchPair| p@;
    assert(pair_views(s1) =~= s1.map_values(f));
    assert(pair_views(s2) =~= s2.map_values(f));
    lemma_map_values_multiset(s1, s2, f);
}

proof fn lemma_solo_views_multiset(s1: Seq<SingleFileMatchGroup>, s2: Seq<SingleFileMatchGroup>)
    requires
        s1.to_multiset() == s2.to_multiset(),
    ensures
        solo_views(s1).to_multiset() == solo_views(s2).to_multiset(),
{
    let f = |g: SingleFileMatchGroup| g@;
    assert(solo_views(s1) =~= s1.map_values(f));
    assert(solo_views(s2) =~= s2.map_values(f));
    lemma_map_values_multiset(s1, s2, f);
}

proof fn lemma_cross_views_multiset(s1: Seq<MatchGroup>, s2: Seq<MatchGroup>)
    requires
        s1.to_multiset() == s2.to_multiset(),
    ensures
        cross_views(s1).to_multiset() == cross_views(s2).to_multiset(),
{
    let f = |g: MatchGroup| g@;
    assert(cross_views(s1) =~= s1.map_values(f));
    assert(cross_views(s2) =~= s2.map_values(f));
    lemma_map_values_multiset(s1, s2, f);
}

/// Sorts unmatched entries by path, then digest key.
pub(crate) fn sort_log_entries_by_filename(x: &mut Vec<LogEntry>)
    ensures
        entry_views(final(x)@) == sort_entry_views(entry_views(old(x)@)),
{
    sort_vec_by(x, entry_cmp_exec);
    proof {
        lemma_entry_cmp_lawful();
        lemma_lifted_le_props::<LogEntry>(entry_cmp_rel(), entry_value_le());
        assert(comparator_decides(entry_cmp_exec, entry_value_le())) by {
            assert forall|a: &LogEntry, b: &LogEntry, o: Ordering|
                #[trigger] call_ensures(entry_cmp_exec, (a, b), o) implies ((o
                != Ordering::Greater) <==> entry_value_le()(*a, *b)) by {
                assert(o == entry_cmp_rel()(a@, b@));
            }
        }
        assert(decided_order(entry_cmp_exec, entry_value_le()));
        assert(sorted_by(x@, entry_value_le()));
        assert forall|i: int, j: int| 0 <= i < j < entry_views(x@).len() implies #[trigger] le_of(
            entry_cmp_rel(),
        )(entry_views(x@)[i], entry_views(x@)[j]) by {
            assert(entry_value_le()(x@[i], x@[j]));
        }
        assert(sorted_by(entry_views(x@), le_of(entry_cmp_rel())));
        lemma_entry_views_multiset(x@, old(x)@);
        lemma_canonical_sort(entry_views(old(x)@), entry_views(x@), entry_cmp_rel());
    }
}

/// Sorts match pairs by their source 1 entry, then source 2 entry.
pub(crate) fn sort_match_pairs_by_filename(x: &mut Vec<MatchPair>)
    ensures
        pair_views(final(x)@) == sort_pair_views(pair_views(old(x)@)),
{
    sort_vec_by(x, pair_cmp_exec);
    proof {
        lemma_pair_cmp_lawful();
        lemma_lifted_le_props::<MatchPair>(pair_cmp_rel(), pair_value_le());
        assert(comparator_decides(pair_cmp_exec, pair_value_le())) by {
            assert forall|a: &MatchPair, b: &MatchPair, o: Ordering|
                #[trigger] call_ensures(pair_cmp_exec, (a, b), o) implies ((o
                != Ordering::Greater) <==> pair_value_le()(*a, *b)) by {
                assert(o == pair_cmp_rel()(a@, b@));
            }
        }
        assert(decided_order(pair_cmp_exec, pair_value_le()));
        assert(sorted_by(x@, pair_value_le()));
        assert forall|i: int, j: int| 0 <= i < j < pair_views(x@).len() implies #[trigger] le_of(
            pair_cmp_rel(),
        )(pair_views(x@)[i], pair_views(x@)[j]) by {
            assert(pair_value_le()(x@[i], x@[j]));
        }
        assert(sorted_by(pair_views(x@), le_of(pair_cmp_rel())));
        lemma_pair_views_multiset(x@, old(x)@);
        lemma_canonical_sort(pair_views(old(x)@), pair_views(x@), pair_cmp_rel());
    }
}

/// Sorts each single-source group's members, then orders the groups by their
/// member lists.
pub(crate) fn sort_single_file_match_groups_by_filename(x: &mut Vec<SingleFileMatchGroup>)
    ensures
        solo_views(final(x)@) == sort_solo_views(solo_views(old(x)@)),
{
    let ghost orig = x@;
    let mut i: usize = 0;
    while i < x.len()
        invariant
            i <= x@.len(),
            x@.len() == orig.len(),
            forall|k: int| 0 <= k < i ==> #[trigger] x@[k]@ == sort_members_fn()(orig[k]@),
            forall|k: int| i <= k < x@.len() ==> #[trigger] x@[k] == orig[k],
        decreases x@.len() - i,
    {
        let ghost pre = x@;
        let mut g = x.remove(i);
        let ghost gpre = g;
        g.log_entries.sort_by(entry_cmp_exec);
        proof {
            lemma_entry_cmp_lawful();
            lemma_lifted_le_props::<LogEntry>(entry_cmp_rel(), entry_value_le());
            assert(comparator_decides(entry_cmp_exec, entry_value_le())) by {
                assert forall|a: &LogEntry, b: &LogEntry, o: Ordering|
                    #[trigger] call_ensures(entry_cmp_exec, (a, b), o) implies ((o
                    != Ordering::Greater) <==> entry_value_le()(*a, *b)) by {
                    assert(o == entry_cmp_rel()(a@, b@));
                }
            }
            let nv = g.log_entries@;
            let ov = gpre.log_entries@;
            assert(decided_order(entry_cmp_exec, entry_value_le()));
            assert(sorted_by(nv, entry_value_le()));
            assert forall|p: int, q: int|
                0 <= p < q < entry_views(nv).len() implies #[trigger] le_of(entry_cmp_rel())(
                entry_views(nv)[p],
                entry_views(nv)[q],
            ) by {
                assert(entry_value_le()(nv[p], nv[q]));
            }
            assert(sorted_by(entry_views(nv), le_of(entry_cmp_rel())));
            lemma_entry_views_multiset(nv, ov);
            lemma_canonical_sort(entry_views(ov), entry_views(nv), entry_cmp_rel());
            assert(g@ == sort_members_fn()(gpre@));
        }
        let ghost gsnap = g;
        x.insert(i, g);
        proof {
            pre.remove_ensures(i as int);
            pre.remove(i as int).insert_ensures(i as int, gsnap);
            assert(x@ =~= pre.update(i as int, gsnap));
            assert(gpre == orig[i as int]);
        }
        i = i + 1;
    }
    let ghost mid = x@;
    proof {
        assert(solo_views(mid) =~= solo_views(orig).map_values(sort_members_fn()));
    }
    sort_vec_by(x, solo_group_cmp_exec);
    proof {
        lemma_entry_seq_cmp_lawful();
        lemma_lifted_le_props::<SingleFileMatchGroup>(entry_seq_cmp_rel(), solo_value_le());
        assert(comparator_decides(solo_group_cmp_exec, solo_value_le())) by {
            assert forall|a: &SingleFileMatchGroup, b: &SingleFileMatchGroup, o: Ordering|
                #[trigger] call_ensures(solo_group_cmp_exec, (a, b), o) implies ((o
                != Ordering::Greater) <==> solo_value_le()(*a, *b)) by {
                assert(o == entry_seq_cmp_rel()(a@, b@));
            }
        }
        assert(decided_order(solo_group_cmp_exec, solo_value_le()));
        assert(sorted_by(x@, solo_value_le()));
        assert forall|p: int, q: int| 0 <= p < q < solo_views(x@).len() implies #[trigger] le_of(
            entry_seq_cmp_rel(),
        )(solo_views(x@)[p], solo_views(x@)[q]) by {
            assert(solo_value_le()(x@[p], x@[q]));
        }
        assert(sorted_by(solo_views(x@), le_of(entry_seq_cmp_rel())));
        lemma_solo_views_multiset(x@, mid);
        lemma_canonical_sort(solo_views(mid), solo_views(x@), entry_seq_cmp_rel());
    }
}

/// Sorts each cross-source group's sides, then orders the groups by their
/// sides.
pub(crate) fn sort_match_groups_by_filename(x: &mut Vec<MatchGroup>)
    ensures
        cross_views(final(x)@) == sort_cross_views(cross_views(old(x)@)),
{
    let ghost orig = x@;
    let mut i: usize = 0;
    while i < x.len()
        invariant
            i <= x@.len(),
            x@.len() == orig.len(),
            forall|k: int| 0 <= k < i ==> #[trigger] x@[k]@ == sort_group_members_fn()(orig[k]@),
            forall|k: int| i <= k < x@.len() ==> #[trigger] x@[k] == orig[k],
        decreases x@.len() - i,
    {
        let ghost pre = x@;
        let mut g = x.remove(i);
        let ghost gpre = g;
        g.from_file1.sort_by(entry_cmp_exec);
        g.from_file2.sort_by(entry_cmp_exec);
        proof {
            lemma_entry_cmp_lawful();
            lemma_lifted_le_props::<LogEntry>(entry_cmp_rel(), entry_value_le());
            assert(comparator_decides(entry_cmp_exec, entry_value_le())) by {
                assert forall|a: &LogEntry, b: &LogEntry, o: Ordering|
                    #[trigger] call_ensures(entry_cmp_exec, (a, b), o) implies ((o
                    != Ordering::Greater) <==> entry_value_le()(*a, *b)) by {
                    assert(o == entry_cmp_rel()(a@, b@));
                }
            }
            let nv1 = g.from_file1@;
            let ov1 = gpre.from_file1@;
            assert(decided_order(entry_cmp_exec, entry_value_le()));
            assert(sorted_by(nv1, entry_value_le()));
            assert forall|p: int, q: int|
                0 <= p < q < entry_views(nv1).len() implies #[trigger] le_of(entry_cmp_rel())(
                entry_views(nv1)[p],
                entry_views(nv1)[q],
            ) by {
                assert(entry_value_le()(nv1[p], nv1[q]));
            }
            assert(sorted_by(entry_views(nv1), le_of(entry_cmp_rel())));
            lemma_entry_views_multiset(nv1, ov1);
            lemma_canonical_sort(entry_views(ov1), entry_views(nv1), entry_cmp_rel());
            let nv2 = g.from_file2@;
            let ov2 = gpre.from_file2@;
            assert(sorted_by(nv2, entry_value_le()));
            assert forall|p: int, q: int|
                0 <= p < q < entry_views(nv2).len() implies #[trigger] le_of(entry_cmp_rel())(
                entry_views(nv2)[p],
                entry_views(nv2)[q],
            ) by {
                assert(entry_value_le()(nv2[p], nv2[q]));
            }
            assert(sorted_by(entry_views(nv2), le_of(entry_cmp_rel())));
            lemma_entry_views_multiset(nv2, ov2);
            lemma_canonical_sort(entry_views(ov2), entry_views(nv2), entry_cmp_rel());
            assert(g@ =~= sort_group_members_fn()(gpre@));
        }
        let ghost gsnap = g;
        x.insert(i, g);
        proof {
            pre.remove_ensures(i as int);
            pre.remove(i as int).insert_ensures(i as int, gsnap);
            assert(x@ =~= pre.update(i as int, gsnap));
            assert(gpre == orig[i as int]);
        }
        i = i + 1;
    }
    let ghost mid = x@;
    proof {
        assert(cross_views(mid) =~= cross_views(orig).map_values(sort_group_members_fn()));
    }
    sort_vec_by(x, group_cmp_exec);
    proof {
        lemma_group_cmp_lawful();
        lemma_lifted_le_props::<MatchGroup>(group_cmp_rel(), group_value_le());
        assert(comparator_decides(group_cmp_exec, group_value_le())) by {
            assert forall|a: &MatchGroup, b: &MatchGroup, o: Ordering|
                #[trigger] call_ensures(group_cmp_exec, (a, b), o) implies ((o
                != Ordering::Greater) <==> group_value_le()(*a, *b)) by {
                assert(o == group_cmp_rel()(a@, b@));
            }
        }
        assert(decided_order(group_cmp_exec, group_value_le()));
        assert(sorted_by(x@, group_value_le()));
        assert forall|p: int, q: int| 0 <= p < q < cross_views(x@).len() implies #[trigger] le_of(
            group_cmp_rel(),
        )(cross_views(x@)[p], cross_views(x@)[q]) by {
            assert(group_value_le()(x@[p], x@[q]));
        }
        assert(sorted_by(cross_views(x@), le_of(group_cmp_rel())));
        lemma_cross_views_multiset(x@, mid);
        lemma_canonical_sort(cross_views(mid), cross_views(x@), group_cmp_rel());
    }
}

} // verus!
