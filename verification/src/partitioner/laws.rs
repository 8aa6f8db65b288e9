//! The engine's stated laws, proved over the model: every record lands in
//! exactly one bucket, matched records never reach a later tier, and the
//! result depends only on what the two logs contain, not on their order.

use vstd::prelude::*;
use vstd::multiset::Multiset;
use vstd::seq_lib::{lemma_sorted_unique, to_multiset_len};
use crate::log_entry::{record_line, LogEntryView};
use crate::text_order::{le_of, lemma_lawful_total_ordering};
use super::arrange::{
    sort_cross_views, sort_entry_views, sort_group_members_fn, sort_members_fn, sort_pair_views,
    sort_solo_views,
};
use super::match_pair::PairView;
use super::match_group::GroupView;
use super::model::{
    group_f1_fn, group_f2_fn, key_count, keys_in_order, keys_of, lemma_distinct_same_elements_multiset,
    lemma_filter_agree, lemma_filter_multiset, lemma_first_occurrences_contains,
    lemma_first_occurrences_distinct, lemma_flatten_multiset, lemma_map_values_multiset,
    lemma_singleton_multiset, lemma_tier_members1, lemma_tier_members2, lemma_with_key_nonempty,
    key_is, lemma_with_key_pred, lone1_key_pred, lone2_key_pred, mk_lone_fn, mk_pair_fn,
    pair_f1_fn, pair_f2_fn, pair_key_pred, solo1_key_pred, solo2_key_pred, cross_key_pred,
    tier_cross, tier_pairs, tier_solo1, tier_solo2, tier_unmatched1, tier_unmatched2, with_key,
    MatchTier,
};
use super::order::{
    entry_cmp_rel, entry_seq_cmp_rel, group_cmp_rel, lemma_entry_cmp_lawful,
    lemma_entry_seq_cmp_lawful, lemma_group_cmp_lawful, lemma_pair_cmp_lawful, pair_cmp_rel,
};
use super::{spec_partition, PartitionView};

verus! {

/// The entries of source 1 that a tier classifies (rather than leaves
/// unmatched): the pairs' source 1 sides, the source 1 single-source groups,
/// and the cross-source groups' source 1 sides.
pub open spec fn tier_classified1(
    u1: Seq<LogEntryView>,
    u2: Seq<LogEntryView>,
    t: MatchTier,
) -> Multiset<LogEntryView> {
    tier_pairs(u1, u2, t).map_values(pair_f1_fn()).to_multiset().add(
        tier_solo1(u1, u2, t).flatten().to_multiset(),
    ).add(tier_cross(u1, u2, t).map_values(group_f1_fn()).flatten().to_multiset())
}

/// The entries of source 2 that a tier classifies.
pub open spec fn tier_classified2(
    u1: Seq<LogEntryView>,
    u2: Seq<LogEntryView>,
    t: MatchTier,
) -> Multiset<LogEntryView> {
    tier_pairs(u1, u2, t).map_values(pair_f2_fn()).to_multiset().add(
        tier_solo2(u1, u2, t).flatten().to_multiset(),
    ).add(tier_cross(u1, u2, t).map_values(group_f2_fn()).flatten().to_multiset())
}

/// Tier exclusivity: every record of a tier's input is either classified at
/// that tier or handed on as unmatched, never both and never twice. In
/// particular, a record classified at one tier never appears among the next
/// tier's inputs, which are exactly the unmatched lists.
pub proof fn lemma_tier_exclusivity(
    u1: Seq<LogEntryView>,
    u2: Seq<LogEntryView>,
    t: MatchTier,
    v: LogEntryView,
)
    ensures
        u1.to_multiset().count(v) == tier_classified1(u1, u2, t).count(v) + tier_unmatched1(
            u1,
            u2,
            t,
        ).to_multiset().count(v),
        u2.to_multiset().count(v) == tier_classified2(u1, u2, t).count(v) + tier_unmatched2(
            u1,
            u2,
            t,
        ).to_multiset().count(v),
{
    broadcast use vstd::multiset::group_multiset_axioms;

    lemma_tier_members1(u1, u2, t);
    lemma_tier_members2(u1, u2, t);
}

/// Everything a partition holds, as one multiset of entries.
pub open spec fn partition_members(pv: PartitionView) -> Multiset<LogEntryView> {
    pv.full_match_pairs.map_values(pair_f1_fn()).to_multiset().add(
        pv.full_match_pairs.map_values(pair_f2_fn()).to_multiset(),
    ).add(pv.full_match_groups_file1.flatten().to_multiset()).add(
        pv.full_match_groups_file2.flatten().to_multiset(),
    ).add(pv.full_match_groups.map_values(group_f1_fn()).flatten().to_multiset()).add(
        pv.full_match_groups.map_values(group_f2_fn()).flatten().to_multiset(),
    ).add(pv.name_match_pairs.map_values(pair_f1_fn()).to_multiset()).add(
        pv.name_match_pairs.map_values(pair_f2_fn()).to_multiset(),
    ).add(pv.name_match_groups_file1.flatten().to_multiset()).add(
        pv.name_match_groups_file2.flatten().to_multiset(),
    ).add(pv.name_match_groups.map_values(group_f1_fn()).flatten().to_multiset()).add(
        pv.name_match_groups.map_values(group_f2_fn()).flatten().to_multiset(),
    ).add(pv.hashes_match_pairs.map_values(pair_f1_fn()).to_multiset()).add(
        pv.hashes_match_pairs.map_values(pair_f2_fn()).to_multiset(),
    ).add(pv.hashes_match_groups_file1.flatten().to_multiset()).add(
        pv.hashes_match_groups_file2.flatten().to_multiset(),
    ).add(pv.hashes_match_groups.map_values(group_f1_fn()).flatten().to_multiset()).add(
        pv.hashes_match_groups.map_values(group_f2_fn()).flatten().to_multiset(),
    ).add(pv.no_match_file1.to_multiset()).add(pv.no_match_file2.to_multiset())
}

/// Sorting member lists with equal multisets gives the same list.
proof fn lemma_sort_entry_views_ms(a: Seq<LogEntryView>, b: Seq<LogEntryView>)
    requires
        a.to_multiset() == b.to_multiset(),
    ensures
        sort_entry_views(a) == sort_entry_views(b),
{
    lemma_entry_cmp_lawful();
    lemma_lawful_total_ordering(entry_cmp_rel());
    a.lemma_sort_by_ensures(le_of(entry_cmp_rel()));
    b.lemma_sort_by_ensures(le_of(entry_cmp_rel()));
    lemma_sorted_unique(sort_entry_views(a), sort_entry_views(b), le_of(entry_cmp_rel()));
}

proof fn lemma_sort_pair_views_ms(a: Seq<PairView>, b: Seq<PairView>)
    requires
        a.to_multiset() == b.to_multiset(),
    ensures
        sort_pair_views(a) == sort_pair_views(b),
{
    lemma_pair_cmp_lawful();
    lemma_lawful_total_ordering(pair_cmp_rel());
    a.lemma_sort_by_ensures(le_of(pair_cmp_rel()));
    b.lemma_sort_by_ensures(le_of(pair_cmp_rel()));
    lemma_sorted_unique(sort_pair_views(a), sort_pair_views(b), le_of(pair_cmp_rel()));
}

/// Canonical sorting of single-source group lists depends only on the
/// multiset of member-sorted groups.
proof fn lemma_sort_solo_views_ms(a: Seq<Seq<LogEntryView>>, b: Seq<Seq<LogEntryView>>)
    requires
        a.map_values(sort_members_fn()).to_multiset() == b.map_values(
            sort_members_fn(),
        ).to_multiset(),
    ensures
        sort_solo_views(a) == sort_solo_views(b),
{
    lemma_entry_seq_cmp_lawful();
    lemma_lawful_total_ordering(entry_seq_cmp_rel());
    a.map_values(sort_members_fn()).lemma_sort_by_ensures(le_of(entry_seq_cmp_rel()));
    b.map_values(sort_members_fn()).lemma_sort_by_ensures(le_of(entry_seq_cmp_rel()));
    lemma_sorted_unique(sort_solo_views(a), sort_solo_views(b), le_of(entry_seq_cmp_rel()));
}

proof fn lemma_sort_cross_views_ms(a: Seq<GroupView>, b: Seq<GroupView>)
    requires
        a.map_values(sort_group_members_fn()).to_multiset() == b.map_values(
            sort_group_members_fn(),
        ).to_multiset(),
    ensures
        sort_cross_views(a) == sort_cross_views(b),
{
    lemma_group_cmp_lawful();
    lemma_lawful_total_ordering(group_cmp_rel());
    a.map_values(sort_group_members_fn()).lemma_sort_by_ensures(le_of(group_cmp_rel()));
    b.map_values(sort_group_members_fn()).lemma_sort_by_ensures(le_of(group_cmp_rel()));
    lemma_sorted_unique(sort_cross_views(a), sort_cross_views(b), le_of(group_cmp_rel()));
}

/// One tier's outputs depend only on what the two input lists contain.
proof fn lemma_tier_deterministic(
    v1: Seq<LogEntryView>,
    v2: Seq<LogEntryView>,
    w1: Seq<LogEntryView>,
    w2: Seq<LogEntryView>,
    t: MatchTier,
)
    requires
        v1.to_multiset() == w1.to_multiset(),
        v2.to_multiset() == w2.to_multiset(),
    ensures
        tier_pairs(v1, v2, t).to_multiset() == tier_pairs(w1, w2, t).to_multiset(),
        tier_solo1(v1, v2, t).map_values(sort_members_fn()).to_multiset() == tier_solo1(
            w1,
            w2,
            t,
        ).map_values(sort_members_fn()).to_multiset(),
        tier_solo2(v1, v2, t).map_values(sort_members_fn()).to_multiset() == tier_solo2(
            w1,
            w2,
            t,
        ).map_values(sort_members_fn()).to_multiset(),
        tier_cross(v1, v2, t).map_values(sort_group_members_fn()).to_multiset() == tier_cross(
            w1,
            w2,
            t,
        ).map_values(sort_group_members_fn()).to_multiset(),
        tier_unmatched1(v1, v2, t).to_multiset() == tier_unmatched1(w1, w2, t).to_multiset(),
        tier_unmatched2(v1, v2, t).to_multiset() == tier_unmatched2(w1, w2, t).to_multiset(),
{
    assert forall|k: Seq<char>|
        #[trigger] with_key(v1, t, k).to_multiset() == with_key(w1, t, k).to_multiset()
            && key_count(v1, t, k) == key_count(w1, t, k) by {
        lemma_filter_multiset(v1, w1, key_is(t, k));
        lemma_with_key_pred(v1, t, k);
        lemma_with_key_pred(w1, t, k);
        to_multiset_len(with_key(v1, t, k));
        to_multiset_len(with_key(w1, t, k));
    }
    assert forall|k: Seq<char>|
        #[trigger] with_key(v2, t, k).to_multiset() == with_key(w2, t, k).to_multiset()
            && key_count(v2, t, k) == key_count(w2, t, k) by {
        lemma_filter_multiset(v2, w2, key_is(t, k));
        lemma_with_key_pred(v2, t, k);
        lemma_with_key_pred(w2, t, k);
        to_multiset_len(with_key(v2, t, k));
        to_multiset_len(with_key(w2, t, k));
    }

    let kv1 = keys_in_order(v1, t);
    let kw1 = keys_in_order(w1, t);
    let kv2 = keys_in_order(v2, t);
    let kw2 = keys_in_order(w2, t);
    lemma_first_occurrences_distinct(keys_of(v1, t));
    lemma_first_occurrences_distinct(keys_of(w1, t));
    lemma_first_occurrences_distinct(keys_of(v2, t));
    lemma_first_occurrences_distinct(keys_of(w2, t));
    assert forall|k: Seq<char>| kv1.contains(k) <==> kw1.contains(k) by {
        assert(with_key(v1, t, k).to_multiset() == with_key(w1, t, k).to_multiset());
        lemma_keys_in_order_contains(v1, t, k);
        lemma_keys_in_order_contains(w1, t, k);
    }
    assert forall|k: Seq<char>| kv2.contains(k) <==> kw2.contains(k) by {
        assert(with_key(v2, t, k).to_multiset() == with_key(w2, t, k).to_multiset());
        lemma_keys_in_order_contains(v2, t, k);
        lemma_keys_in_order_contains(w2, t, k);
    }
    lemma_distinct_same_elements_multiset(kv1, kw1);
    lemma_distinct_same_elements_multiset(kv2, kw2);

    // pairs
    lemma_filter_multiset(kv1, kw1, pair_key_pred(v1, v2, t));
    assert forall|i: int| 0 <= i < kw1.len() implies (#[trigger] pair_key_pred(v1, v2, t)(kw1[i])
        <==> pair_key_pred(w1, w2, t)(kw1[i])) by {
        assert(with_key(v1, t, kw1[i]).to_multiset() == with_key(w1, t, kw1[i]).to_multiset());
        assert(with_key(v2, t, kw1[i]).to_multiset() == with_key(w2, t, kw1[i]).to_multiset());
    }
    lemma_filter_agree(kw1, pair_key_pred(v1, v2, t), pair_key_pred(w1, w2, t));
    let kpv = kv1.filter(pair_key_pred(v1, v2, t));
    let kpw = kw1.filter(pair_key_pred(w1, w2, t));
    assert(kpv.to_multiset() == kpw.to_multiset());
    lemma_map_values_multiset(kpv, kpw, mk_pair_fn(v1, v2, t));
    assert(kpw.map_values(mk_pair_fn(v1, v2, t)) =~= kpw.map_values(mk_pair_fn(w1, w2, t))) by {
        assert forall|i: int| 0 <= i < kpw.len() implies mk_pair_fn(v1, v2, t)(kpw[i])
            == mk_pair_fn(w1, w2, t)(kpw[i]) by {
            kw1.lemma_filter_pred(pair_key_pred(w1, w2, t), i);
            let k = kpw[i];
            lemma_singleton_multiset(with_key(v1, t, k), with_key(w1, t, k));
            lemma_singleton_multiset(with_key(v2, t, k), with_key(w2, t, k));
            assert(mk_pair_fn(v1, v2, t)(k) =~= mk_pair_fn(w1, w2, t)(k));
        }
    }

    // unmatched 1
    lemma_filter_multiset(kv1, kw1, lone1_key_pred(v1, v2, t));
    assert forall|i: int| 0 <= i < kw1.len() implies (#[trigger] lone1_key_pred(v1, v2, t)(kw1[i])
        <==> lone1_key_pred(w1, w2, t)(kw1[i])) by {
        assert(with_key(v1, t, kw1[i]).to_multiset() == with_key(w1, t, kw1[i]).to_multiset());
        assert(with_key(v2, t, kw1[i]).to_multiset() == with_key(w2, t, kw1[i]).to_multiset());
    }
    lemma_filter_agree(kw1, lone1_key_pred(v1, v2, t), lone1_key_pred(w1, w2, t));
    let klv = kv1.filter(lone1_key_pred(v1, v2, t));
    let klw = kw1.filter(lone1_key_pred(w1, w2, t));
    lemma_map_values_multiset(klv, klw, mk_lone_fn(v1, t));
    assert(klw.map_values(mk_lone_fn(v1, t)) =~= klw.map_values(mk_lone_fn(w1, t))) by {
        assert forall|i: int| 0 <= i < klw.len() implies mk_lone_fn(v1, t)(klw[i]) == mk_lone_fn(
            w1,
            t,
        )(klw[i]) by {
            kw1.lemma_filter_pred(lone1_key_pred(w1, w2, t), i);
            let k = klw[i];
            lemma_singleton_multiset(with_key(v1, t, k), with_key(w1, t, k));
        }
    }

    // unmatched 2
    lemma_filter_multiset(kv2, kw2, lone2_key_pred(v1, v2, t));
    assert forall|i: int| 0 <= i < kw2.len() implies (#[trigger] lone2_key_pred(v1, v2, t)(kw2[i])
        <==> lone2_key_pred(w1, w2, t)(kw2[i])) by {
        assert(with_key(v1, t, kw2[i]).to_multiset() == with_key(w1, t, kw2[i]).to_multiset());
        assert(with_key(v2, t, kw2[i]).to_multiset() == with_key(w2, t, kw2[i]).to_multiset());
    }
    lemma_filter_agree(kw2, lone2_key_pred(v1, v2, t), lone2_key_pred(w1, w2, t));
    let k2v = kv2.filter(lone2_key_pred(v1, v2, t));
    let k2w = kw2.filter(lone2_key_pred(w1, w2, t));
    lemma_map_values_multiset(k2v, k2w, mk_lone_fn(v2, t));
    assert(k2w.map_values(mk_lone_fn(v2, t)) =~= k2w.map_values(mk_lone_fn(w2, t))) by {
        assert forall|i: int| 0 <= i < k2w.len() implies mk_lone_fn(v2, t)(k2w[i]) == mk_lone_fn(
            w2,
            t,
        )(k2w[i]) by {
            kw2.lemma_filter_pred(lone2_key_pred(w1, w2, t), i);
            let k = k2w[i];
            lemma_singleton_multiset(with_key(v2, t, k), with_key(w2, t, k));
        }
    }

    // single-source groups of source 1, member-sorted
    lemma_filter_multiset(kv1, kw1, solo1_key_pred(v1, v2, t));
    assert forall|i: int| 0 <= i < kw1.len() implies (#[trigger] solo1_key_pred(v1, v2, t)(kw1[i])
        <==> solo1_key_pred(w1, w2, t)(kw1[i])) by {
        assert(with_key(v1, t, kw1[i]).to_multiset() == with_key(w1, t, kw1[i]).to_multiset());
        assert(with_key(v2, t, kw1[i]).to_multiset() == with_key(w2, t, kw1[i]).to_multiset());
    }
    lemma_filter_agree(kw1, solo1_key_pred(v1, v2, t), solo1_key_pred(w1, w2, t));
    let ksv = kv1.filter(solo1_key_pred(v1, v2, t));
    let ksw = kw1.filter(solo1_key_pred(w1, w2, t));
    let gsv = |k: Seq<char>| sort_entry_views(with_key(v1, t, k));
    let gsw = |k: Seq<char>| sort_entry_views(with_key(w1, t, k));
    assert(tier_solo1(v1, v2, t).map_values(sort_members_fn()) =~= ksv.map_values(gsv));
    assert(tier_solo1(w1, w2, t).map_values(sort_members_fn()) =~= ksw.map_values(gsw));
    lemma_map_values_multiset(ksv, ksw, gsv);
    assert(ksw.map_values(gsv) =~= ksw.map_values(gsw)) by {
        assert forall|i: int| 0 <= i < ksw.len() implies gsv(ksw[i]) == gsw(ksw[i]) by {
            lemma_sort_entry_views_ms(with_key(v1, t, ksw[i]), with_key(w1, t, ksw[i]));
        }
    }

    // single-source groups of source 2, member-sorted
    lemma_filter_multiset(kv2, kw2, solo2_key_pred(v1, v2, t));
    assert forall|i: int| 0 <= i < kw2.len() implies (#[trigger] solo2_key_pred(v1, v2, t)(kw2[i])
        <==> solo2_key_pred(w1, w2, t)(kw2[i])) by {
        assert(with_key(v1, t, kw2[i]).to_multiset() == with_key(w1, t, kw2[i]).to_multiset());
        assert(with_key(v2, t, kw2[i]).to_multiset() == with_key(w2, t, kw2[i]).to_multiset());
    }
    lemma_filter_agree(kw2, solo2_key_pred(v1, v2, t), solo2_key_pred(w1, w2, t));
    let jsv = kv2.filter(solo2_key_pred(v1, v2, t));
    let jsw = kw2.filter(solo2_key_pred(w1, w2, t));
    let hsv = |k: Seq<char>| sort_entry_views(with_key(v2, t, k));
    let hsw = |k: Seq<char>| sort_entry_views(with_key(w2, t, k));
    assert(tier_solo2(v1, v2, t).map_values(sort_members_fn()) =~= jsv.map_values(hsv));
    assert(tier_solo2(w1, w2, t).map_values(sort_members_fn()) =~= jsw.map_values(hsw));
    lemma_map_values_multiset(jsv, jsw, hsv);
    assert(jsw.map_values(hsv) =~= jsw.map_values(hsw)) by {
        assert forall|i: int| 0 <= i < jsw.len() implies hsv(jsw[i]) == hsw(jsw[i]) by {
            lemma_sort_entry_views_ms(with_key(v2, t, jsw[i]), with_key(w2, t, jsw[i]));
        }
    }

    // cross-source groups, member-sorted
    lemma_filter_multiset(kv1, kw1, cross_key_pred(v1, v2, t));
    assert forall|i: int| 0 <= i < kw1.len() implies (#[trigger] cross_key_pred(v1, v2, t)(kw1[i])
        <==> cross_key_pred(w1, w2, t)(kw1[i])) by {
        assert(with_key(v1, t, kw1[i]).to_multiset() == with_key(w1, t, kw1[i]).to_multiset());
        assert(with_key(v2, t, kw1[i]).to_multiset() == with_key(w2, t, kw1[i]).to_multiset());
    }
    lemma_filter_agree(kw1, cross_key_pred(v1, v2, t), cross_key_pred(w1, w2, t));
    let kcv = kv1.filter(cross_key_pred(v1, v2, t));
    let kcw = kw1.filter(cross_key_pred(w1, w2, t));
    let csv = |k: Seq<char>|
        GroupView {
            from_file1: sort_entry_views(with_key(v1, t, k)),
            from_file2: sort_entry_views(with_key(v2, t, k)),
        };
    let csw = |k: Seq<char>|
        GroupView {
            from_file1: sort_entry_views(with_key(w1, t, k)),
            from_file2: sort_entry_views(with_key(w2, t, k)),
        };
    assert(tier_cross(v1, v2, t).map_values(sort_group_members_fn()) =~= kcv.map_values(csv));
    assert(tier_cross(w1, w2, t).map_values(sort_group_members_fn()) =~= kcw.map_values(csw));
    lemma_map_values_multiset(kcv, kcw, csv);
    assert(kcw.map_values(csv) =~= kcw.map_values(csw)) by {
        assert forall|i: int| 0 <= i < kcw.len() implies csv(kcw[i]) == csw(kcw[i]) by {
            lemma_sort_entry_views_ms(with_key(v1, t, kcw[i]), with_key(w1, t, kcw[i]));
            lemma_sort_entry_views_ms(with_key(v2, t, kcw[i]), with_key(w2, t, kcw[i]));
            assert(csv(kcw[i]) =~= csw(kcw[i]));
        }
    }
}

proof fn lemma_keys_in_order_contains(u: Seq<LogEntryView>, t: MatchTier, k: Seq<char>)
    ensures
        keys_in_order(u, t).contains(k) <==> key_count(u, t, k) >= 1,
{
    lemma_first_occurrences_contains(keys_of(u, t), k);
    lemma_with_key_nonempty(u, t, k);
}

/// Deterministic ordering: the partition of two logs depends only on what
/// the logs contain, not on the order their records arrive in. Reordering
/// either input list leaves every bucket of the result byte-for-byte equal.
pub proof fn lemma_partition_deterministic(
    v1: Seq<LogEntryView>,
    v2: Seq<LogEntryView>,
    w1: Seq<LogEntryView>,
    w2: Seq<LogEntryView>,
)
    requires
        v1.to_multiset() == w1.to_multiset(),
        v2.to_multiset() == w2.to_multiset(),
    ensures
        spec_partition(v1, v2) == spec_partition(w1, w2),
{
    let fv1 = tier_unmatched1(v1, v2, MatchTier::Full);
    let fv2 = tier_unmatched2(v1, v2, MatchTier::Full);
    let fw1 = tier_unmatched1(w1, w2, MatchTier::Full);
    let fw2 = tier_unmatched2(w1, w2, MatchTier::Full);
    let nv1 = tier_unmatched1(fv1, fv2, MatchTier::Name);
    let nv2 = tier_unmatched2(fv1, fv2, MatchTier::Name);
    let nw1 = tier_unmatched1(fw1, fw2, MatchTier::Name);
    let nw2 = tier_unmatched2(fw1, fw2, MatchTier::Name);
    lemma_tier_deterministic(v1, v2, w1, w2, MatchTier::Full);
    lemma_tier_deterministic(fv1, fv2, fw1, fw2, MatchTier::Name);
    lemma_tier_deterministic(nv1, nv2, nw1, nw2, MatchTier::Hashes);
    lemma_sort_pair_views_ms(tier_pairs(v1, v2, MatchTier::Full), tier_pairs(w1, w2, MatchTier::Full));
    lemma_sort_pair_views_ms(
        tier_pairs(fv1, fv2, MatchTier::Name),
        tier_pairs(fw1, fw2, MatchTier::Name),
    );
    lemma_sort_pair_views_ms(
        tier_pairs(nv1, nv2, MatchTier::Hashes),
        tier_pairs(nw1, nw2, MatchTier::Hashes),
    );
    lemma_sort_solo_views_ms(
        tier_solo1(v1, v2, MatchTier::Full),
        tier_solo1(w1, w2, MatchTier::Full),
    );
    lemma_sort_solo_views_ms(
        tier_solo2(v1, v2, MatchTier::Full),
        tier_solo2(w1, w2, MatchTier::Full),
    );
    lemma_sort_solo_views_ms(
        tier_solo1(fv1, fv2, MatchTier::Name),
        tier_solo1(fw1, fw2, MatchTier::Name),
    );
    lemma_sort_solo_views_ms(
        tier_solo2(fv1, fv2, MatchTier::Name),
        tier_solo2(fw1, fw2, MatchTier::Name),
    );
    lemma_sort_solo_views_ms(
        tier_solo1(nv1, nv2, MatchTier::Hashes),
        tier_solo1(nw1, nw2, MatchTier::Hashes),
    );
    lemma_sort_solo_views_ms(
        tier_solo2(nv1, nv2, MatchTier::Hashes),
        tier_solo2(nw1, nw2, MatchTier::Hashes),
    );
    lemma_sort_cross_views_ms(
        tier_cross(v1, v2, MatchTier::Full),
        tier_cross(w1, w2, MatchTier::Full),
    );
    lemma_sort_cross_views_ms(
        tier_cross(fv1, fv2, MatchTier::Name),
        tier_cross(fw1, fw2, MatchTier::Name),
    );
    lemma_sort_cross_views_ms(
        tier_cross(nv1, nv2, MatchTier::Hashes),
        tier_cross(nw1, nw2, MatchTier::Hashes),
    );
    lemma_sort_entry_views_ms(
        tier_unmatched1(nv1, nv2, MatchTier::Hashes),
        tier_unmatched1(nw1, nw2, MatchTier::Hashes),
    );
    lemma_sort_entry_views_ms(
        tier_unmatched2(nv1, nv2, MatchTier::Hashes),
        tier_unmatched2(nw1, nw2, MatchTier::Hashes),
    );
    assert(spec_partition(v1, v2) =~= spec_partition(w1, w2));
}


/// Sorting each member list preserves the flattened contents.
proof fn lemma_member_sorted_flatten_ms(x: Seq<Seq<LogEntryView>>)
    ensures
        x.map_values(sort_members_fn()).flatten().to_multiset() == x.flatten().to_multiset(),
    decreases x.len(),
{
    broadcast use vstd::multiset::group_multiset_axioms;

    lemma_entry_cmp_lawful();
    lemma_lawful_total_ordering(entry_cmp_rel());
    if x.len() == 0 {
        assert(x.map_values(sort_members_fn()) =~= Seq::<Seq<LogEntryView>>::empty());
    } else {
        let x0 = x.drop_last();
        let g = x.last();
        lemma_member_sorted_flatten_ms(x0);
        assert(x =~= x0.push(g));
        assert(x.map_values(sort_members_fn()) =~= x0.map_values(sort_members_fn()).push(
            sort_members_fn()(g),
        ));
        x0.lemma_flatten_push(g);
        x0.map_values(sort_members_fn()).lemma_flatten_push(sort_members_fn()(g));
        vstd::seq_lib::lemma_multiset_commutative(x0.flatten(), g);
        vstd::seq_lib::lemma_multiset_commutative(
            x0.map_values(sort_members_fn()).flatten(),
            sort_members_fn()(g),
        );
        g.lemma_sort_by_ensures(le_of(entry_cmp_rel()));
        assert(x.map_values(sort_members_fn()).flatten().to_multiset()
            =~= x.flatten().to_multiset());
    }
}

/// Canonical sorting does not change which entries the single-source groups
/// hold.
proof fn lemma_sort_solo_flatten_ms(s: Seq<Seq<LogEntryView>>)
    ensures
        sort_solo_views(s).flatten().to_multiset() == s.flatten().to_multiset(),
{
    lemma_member_sorted_flatten_ms(s);
    let mid = s.map_values(sort_members_fn());
    lemma_entry_seq_cmp_lawful();
    lemma_lawful_total_ordering(entry_seq_cmp_rel());
    mid.lemma_sort_by_ensures(le_of(entry_seq_cmp_rel()));
    lemma_flatten_multiset(sort_solo_views(s), mid);
}

/// Canonical sorting does not change which entries either side of the
/// cross-source groups holds.
proof fn lemma_sort_cross_flatten_ms(s: Seq<GroupView>)
    ensures
        sort_cross_views(s).map_values(group_f1_fn()).flatten().to_multiset() == s.map_values(
            group_f1_fn(),
        ).flatten().to_multiset(),
        sort_cross_views(s).map_values(group_f2_fn()).flatten().to_multiset() == s.map_values(
            group_f2_fn(),
        ).flatten().to_multiset(),
{
    let mid = s.map_values(sort_group_members_fn());
    lemma_group_cmp_lawful();
    lemma_lawful_total_ordering(group_cmp_rel());
    mid.lemma_sort_by_ensures(le_of(group_cmp_rel()));
    let sorted = sort_cross_views(s);
    lemma_map_values_multiset(sorted, mid, group_f1_fn());
    lemma_map_values_multiset(sorted, mid, group_f2_fn());
    lemma_flatten_multiset(sorted.map_values(group_f1_fn()), mid.map_values(group_f1_fn()));
    lemma_flatten_multiset(sorted.map_values(group_f2_fn()), mid.map_values(group_f2_fn()));
    assert(mid.map_values(group_f1_fn()) =~= s.map_values(group_f1_fn()).map_values(
        sort_members_fn(),
    ));
    assert(mid.map_values(group_f2_fn()) =~= s.map_values(group_f2_fn()).map_values(
        sort_members_fn(),
    ));
    lemma_member_sorted_flatten_ms(s.map_values(group_f1_fn()));
    lemma_member_sorted_flatten_ms(s.map_values(group_f2_fn()));
}

/// Canonical sorting does not change a tier's pair entries.
proof fn lemma_sort_pairs_side_ms(s: Seq<PairView>)
    ensures
        sort_pair_views(s).map_values(pair_f1_fn()).to_multiset() == s.map_values(
            pair_f1_fn(),
        ).to_multiset(),
        sort_pair_views(s).map_values(pair_f2_fn()).to_multiset() == s.map_values(
            pair_f2_fn(),
        ).to_multiset(),
{
    lemma_pair_cmp_lawful();
    lemma_lawful_total_ordering(pair_cmp_rel());
    s.lemma_sort_by_ensures(le_of(pair_cmp_rel()));
    lemma_map_values_multiset(sort_pair_views(s), s, pair_f1_fn());
    lemma_map_values_multiset(sort_pair_views(s), s, pair_f2_fn());
}

/// Canonical sorting does not change an unmatched list's entries.
proof fn lemma_sort_entries_ms(s: Seq<LogEntryView>)
    ensures
        sort_entry_views(s).to_multiset() == s.to_multiset(),
{
    lemma_entry_cmp_lawful();
    lemma_lawful_total_ordering(entry_cmp_rel());
    s.lemma_sort_by_ensures(le_of(entry_cmp_rel()));
}

/// The partition property: every record of both input lists appears in
/// exactly one output bucket of the partition, with no omission and no
/// duplication.
pub proof fn lemma_partition_property(u1: Seq<LogEntryView>, u2: Seq<LogEntryView>)
    ensures
        partition_members(spec_partition(u1, u2)) == u1.to_multiset().add(u2.to_multiset()),
{
    broadcast use vstd::multiset::group_multiset_axioms;

    let fu1 = tier_unmatched1(u1, u2, MatchTier::Full);
    let fu2 = tier_unmatched2(u1, u2, MatchTier::Full);
    let nu1 = tier_unmatched1(fu1, fu2, MatchTier::Name);
    let nu2 = tier_unmatched2(fu1, fu2, MatchTier::Name);
    lemma_tier_members1(u1, u2, MatchTier::Full);
    lemma_tier_members2(u1, u2, MatchTier::Full);
    lemma_tier_members1(fu1, fu2, MatchTier::Name);
    lemma_tier_members2(fu1, fu2, MatchTier::Name);
    lemma_tier_members1(nu1, nu2, MatchTier::Hashes);
    lemma_tier_members2(nu1, nu2, MatchTier::Hashes);
    lemma_sort_pairs_side_ms(tier_pairs(u1, u2, MatchTier::Full));
    lemma_sort_pairs_side_ms(tier_pairs(fu1, fu2, MatchTier::Name));
    lemma_sort_pairs_side_ms(tier_pairs(nu1, nu2, MatchTier::Hashes));
    lemma_sort_solo_flatten_ms(tier_solo1(u1, u2, MatchTier::Full));
    lemma_sort_solo_flatten_ms(tier_solo2(u1, u2, MatchTier::Full));
    lemma_sort_solo_flatten_ms(tier_solo1(fu1, fu2, MatchTier::Name));
    lemma_sort_solo_flatten_ms(tier_solo2(fu1, fu2, MatchTier::Name));
    lemma_sort_solo_flatten_ms(tier_solo1(nu1, nu2, MatchTier::Hashes));
    lemma_sort_solo_flatten_ms(tier_solo2(nu1, nu2, MatchTier::Hashes));
    lemma_sort_cross_flatten_ms(tier_cross(u1, u2, MatchTier::Full));
    lemma_sort_cross_flatten_ms(tier_cross(fu1, fu2, MatchTier::Name));
    lemma_sort_cross_flatten_ms(tier_cross(nu1, nu2, MatchTier::Hashes));
    lemma_sort_entries_ms(tier_unmatched1(nu1, nu2, MatchTier::Hashes));
    lemma_sort_entries_ms(tier_unmatched2(nu1, nu2, MatchTier::Hashes));
    assert(partition_members(spec_partition(u1, u2)) =~= u1.to_multiset().add(u2.to_multiset()));
}

/// Idempotence of the full-match tier: a record present exactly once in each
/// source under its full identity yields exactly one full-match pair, and
/// neither copy is handed on to the later tiers.
pub proof fn lemma_full_match_idempotent(
    u1: Seq<LogEntryView>,
    u2: Seq<LogEntryView>,
    v: LogEntryView,
)
    requires
        key_count(u1, MatchTier::Full, record_line(v)) == 1,
        key_count(u2, MatchTier::Full, record_line(v)) == 1,
        u1.contains(v),
        u2.contains(v),
    ensures
        spec_partition(u1, u2).full_match_pairs.to_multiset().count(
            PairView { from_file1: v, from_file2: v },
        ) == 1,
        !tier_unmatched1(u1, u2, MatchTier::Full).contains(v),
        !tier_unmatched2(u1, u2, MatchTier::Full).contains(v),
{
    broadcast use vstd::multiset::group_multiset_axioms;
    broadcast use vstd::seq_lib::group_to_multiset_ensures;

    let t = MatchTier::Full;
    let k = record_line(v);
    assert(super::model::tier_key(t, v) == k);
    let kio = keys_in_order(u1, t);
    lemma_first_occurrences_distinct(keys_of(u1, t));

    // the key class of `v` in each source is exactly `v`
    let i1 = choose|i: int| 0 <= i < u1.len() && u1[i] == v;
    u1.lemma_filter_contains(key_is(t, k), i1);
    lemma_with_key_pred(u1, t, k);
    assert(with_key(u1, t, k).contains(v));
    assert(with_key(u1, t, k) =~= seq![v]);
    let i2 = choose|i: int| 0 <= i < u2.len() && u2[i] == v;
    u2.lemma_filter_contains(key_is(t, k), i2);
    lemma_with_key_pred(u2, t, k);
    assert(with_key(u2, t, k).contains(v));
    assert(with_key(u2, t, k) =~= seq![v]);

    let pairp = pair_key_pred(u1, u2, t);
    let kp = kio.filter(pairp);
    let tp = tier_pairs(u1, u2, t);
    let pv = PairView { from_file1: v, from_file2: v };

    lemma_keys_in_order_contains(u1, t, k);
    assert(kio.contains(k));
    let ik = choose|i: int| 0 <= i < kio.len() && kio[i] == k;
    kio.lemma_filter_contains(pairp, ik);
    assert(kp.contains(k));
    assert(mk_pair_fn(u1, u2, t)(k) =~= pv);

    // the mapped pair list repeats no pair: a pair's source 1 entry pins its key
    super::model::lemma_filter_no_duplicates(kio, pairp);
    assert forall|a: int, b: int| 0 <= a < tp.len() && 0 <= b < tp.len() && a != b implies tp[a]
        != tp[b] by {
        kio.lemma_filter_pred(pairp, a);
        kio.lemma_filter_pred(pairp, b);
        if tp[a] == tp[b] {
            assert(with_key(u1, t, kp[a]).contains(with_key(u1, t, kp[a])[0])) by {
                assert(key_count(u1, t, kp[a]) == 1);
            }
            u1.lemma_filter_contains_rev(key_is(t, kp[a]), with_key(u1, t, kp[a])[0]);
            assert(super::model::tier_key(t, tp[a].from_file1) == kp[a]) by {
                lemma_with_key_pred(u1, t, kp[a]);
                u1.lemma_filter_pred(key_is(t, kp[a]), 0);
            }
            assert(super::model::tier_key(t, tp[b].from_file1) == kp[b]) by {
                lemma_with_key_pred(u1, t, kp[b]);
                u1.lemma_filter_pred(key_is(t, kp[b]), 0);
            }
            assert(kp[a] == kp[b]);
            assert(false);
        }
    }
    assert(tp.no_duplicates());
    assert(tp.contains(pv)) by {
        let ip = choose|i: int| 0 <= i < kp.len() && kp[i] == k;
        assert(tp[ip] == pv);
    }
    tp.lemma_multiset_has_no_duplicates();
    assert(tp.to_multiset().contains(pv));
    assert(tp.to_multiset().count(pv) == 1);
    lemma_pair_cmp_lawful();
    lemma_lawful_total_ordering(pair_cmp_rel());
    tp.lemma_sort_by_ensures(le_of(pair_cmp_rel()));
    assert(spec_partition(u1, u2).full_match_pairs.to_multiset().count(pv) == 1);

    // `v` holds a pair key, so it is not handed on as unmatched
    assert(!tier_unmatched1(u1, u2, t).contains(v)) by {
        let un = tier_unmatched1(u1, u2, t);
        if un.contains(v) {
            let j = choose|j: int| 0 <= j < un.len() && un[j] == v;
            let kl = kio.filter(lone1_key_pred(u1, u2, t));
            kio.lemma_filter_pred(lone1_key_pred(u1, u2, t), j);
            assert(un[j] == mk_lone_fn(u1, t)(kl[j]));
            assert(key_count(u1, t, kl[j]) == 1);
            assert(with_key(u1, t, kl[j]).contains(with_key(u1, t, kl[j])[0]));
            lemma_with_key_pred(u1, t, kl[j]);
            u1.lemma_filter_pred(key_is(t, kl[j]), 0);
            assert(super::model::tier_key(t, v) == kl[j]);
            assert(kl[j] == k);
            assert(key_count(u2, t, k) == 0);
            assert(false);
        }
    }
    assert(!tier_unmatched2(u1, u2, t).contains(v)) by {
        let un = tier_unmatched2(u1, u2, t);
        let kio2 = keys_in_order(u2, t);
        if un.contains(v) {
            let j = choose|j: int| 0 <= j < un.len() && un[j] == v;
            let kl = kio2.filter(lone2_key_pred(u1, u2, t));
            kio2.lemma_filter_pred(lone2_key_pred(u1, u2, t), j);
            assert(un[j] == mk_lone_fn(u2, t)(kl[j]));
            assert(key_count(u2, t, kl[j]) == 1);
            assert(with_key(u2, t, kl[j]).contains(with_key(u2, t, kl[j])[0]));
            lemma_with_key_pred(u2, t, kl[j]);
            u2.lemma_filter_pred(key_is(t, kl[j]), 0);
            assert(super::model::tier_key(t, v) == kl[j]);
            assert(kl[j] == k);
            assert(key_count(u1, t, k) == 0);
            assert(false);
        }
    }
}

} // verus!
