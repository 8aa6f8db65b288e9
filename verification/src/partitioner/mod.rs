//! The matching/partitioning engine: classifies every record of two
//! inventory logs into exactly one outcome bucket across three cascaded
//! match tiers, then puts every bucket into a canonical order and checks a
//! size invariant.

use vstd::prelude::*;

pub mod arrange;
pub mod classify;
pub mod laws;
pub mod match_group;
pub mod match_pair;
pub mod model;
pub mod order;

use crate::log_entry::{entry_views, LogEntry, LogEntryView};
use crate::text_order::{le_of, lemma_lawful_total_ordering};
use self::arrange::{
    sort_cross_views, sort_entry_views, sort_group_members_fn, sort_log_entries_by_filename,
    sort_match_groups_by_filename, sort_match_pairs_by_filename, sort_members_fn, sort_pair_views,
    sort_single_file_match_groups_by_filename, sort_solo_views,
};
use self::classify::{classify, cross_views, pair_views, solo_views};
use self::match_group::{GroupView, MatchGroup, SingleFileMatchGroup};
use self::match_pair::{MatchPair, PairView};
use self::model::{
    group_f1_fn, group_f2_fn, group_len_total, lemma_flatten_len, lemma_flatten_multiset,
    lemma_map_values_multiset, lemma_tier_members1, lemma_tier_members2, pair_f1_fn, pair_f2_fn,
    seq_len_total, tier_cross, tier_pairs, tier_solo1, tier_solo2, tier_unmatched1,
    tier_unmatched2, MatchTier,
};
use self::order::{
    entry_cmp_rel, entry_seq_cmp_rel, group_cmp_rel, lemma_entry_cmp_lawful,
    lemma_entry_seq_cmp_lawful, lemma_group_cmp_lawful, lemma_pair_cmp_lawful, pair_cmp_rel,
};

verus! {

/// Represents the contents of two hashdeep logs partitioned
/// by match type, allowing inference of intervening file changes.
#[derive(Debug, PartialEq)]
pub struct MatchPartition {
    pub full_match_pairs: Vec<MatchPair>,
    pub full_match_groups: Vec<MatchGroup>,
    pub full_match_groups_file1: Vec<SingleFileMatchGroup>,
    pub full_match_groups_file2: Vec<SingleFileMatchGroup>,
    pub name_match_pairs: Vec<MatchPair>,
    pub name_match_groups: Vec<MatchGroup>,
    pub name_match_groups_file1: Vec<SingleFileMatchGroup>,
    pub name_match_groups_file2: Vec<SingleFileMatchGroup>,
    pub hashes_match_pairs: Vec<MatchPair>,
    pub hashes_match_groups: Vec<MatchGroup>,
    pub hashes_match_groups_file1: Vec<SingleFileMatchGroup>,
    pub hashes_match_groups_file2: Vec<SingleFileMatchGroup>,
    pub no_match_file1: Vec<LogEntry>,
    pub no_match_file2: Vec<LogEntry>,
}

/// The mathematical content of a `MatchPartition`.
#[verifier::ext_equal]
pub ghost struct PartitionView {
    pub full_match_pairs: Seq<PairView>,
    pub full_match_groups: Seq<GroupView>,
    pub full_match_groups_file1: Seq<Seq<LogEntryView>>,
    pub full_match_groups_file2: Seq<Seq<LogEntryView>>,
    pub name_match_pairs: Seq<PairView>,
    pub name_match_groups: Seq<GroupView>,
    pub name_match_groups_file1: Seq<Seq<LogEntryView>>,
    pub name_match_groups_file2: Seq<Seq<LogEntryView>>,
    pub hashes_match_pairs: Seq<PairView>,
    pub hashes_match_groups: Seq<GroupView>,
    pub hashes_match_groups_file1: Seq<Seq<LogEntryView>>,
    pub hashes_match_groups_file2: Seq<Seq<LogEntryView>>,
    pub no_match_file1: Seq<LogEntryView>,
    pub no_match_file2: Seq<LogEntryView>,
}

impl View for MatchPartition {
    type V = PartitionView;

    open spec fn view(&self) -> PartitionView {
        PartitionView {
            full_match_pairs: pair_views(self.full_match_pairs@),
            full_match_groups: cross_views(self.full_match_groups@),
            full_match_groups_file1: solo_views(self.full_match_groups_file1@),
            full_match_groups_file2: solo_views(self.full_match_groups_file2@),
            name_match_pairs: pair_views(self.name_match_pairs@),
            name_match_groups: cross_views(self.name_match_groups@),
            name_match_groups_file1: solo_views(self.name_match_groups_file1@),
            name_match_groups_file2: solo_views(self.name_match_groups_file2@),
            hashes_match_pairs: pair_views(self.hashes_match_pairs@),
            hashes_match_groups: cross_views(self.hashes_match_groups@),
            hashes_match_groups_file1: solo_views(self.hashes_match_groups_file1@),
            hashes_match_groups_file2: solo_views(self.hashes_match_groups_file2@),
            no_match_file1: entry_views(self.no_match_file1@),
            no_match_file2: entry_views(self.no_match_file2@),
        }
    }
}

#[derive(Debug, PartialEq)]
pub enum MatchPartitionError {
    ChecksumFailure,
    ChecksumArithmeticOverflow,
}

impl MatchPartitionError {
    /// A printable description of the error.
    pub fn message(&self) -> (r: &'static str)
        ensures
            match self {
                MatchPartitionError::ChecksumFailure => r@
                    == "Serious error: Match partition checksum failed (this should never happen)"@,
                MatchPartitionError::ChecksumArithmeticOverflow => r@
                    == "arithmetic overflow in match partition checksum calculation"@,
            },
    {
        match self {
            MatchPartitionError::ChecksumFailure => "Serious error: Match partition checksum failed (this should never happen)",
            MatchPartitionError::ChecksumArithmeticOverflow => "arithmetic overflow in match partition checksum calculation",
        }
    }
}

/// What the engine produces for two input lists: every record classified
/// across the three tiers, with every bucket in canonical order.
pub open spec fn spec_partition(u1: Seq<LogEntryView>, u2: Seq<LogEntryView>) -> PartitionView {
    let fu1 = tier_unmatched1(u1, u2, MatchTier::Full);
    let fu2 = tier_unmatched2(u1, u2, MatchTier::Full);
    let nu1 = tier_unmatched1(fu1, fu2, MatchTier::Name);
    let nu2 = tier_unmatched2(fu1, fu2, MatchTier::Name);
    PartitionView {
        full_match_pairs: sort_pair_views(tier_pairs(u1, u2, MatchTier::Full)),
        full_match_groups: sort_cross_views(tier_cross(u1, u2, MatchTier::Full)),
        full_match_groups_file1: sort_solo_views(tier_solo1(u1, u2, MatchTier::Full)),
        full_match_groups_file2: sort_solo_views(tier_solo2(u1, u2, MatchTier::Full)),
        name_match_pairs: sort_pair_views(tier_pairs(fu1, fu2, MatchTier::Name)),
        name_match_groups: sort_cross_views(tier_cross(fu1, fu2, MatchTier::Name)),
        name_match_groups_file1: sort_solo_views(tier_solo1(fu1, fu2, MatchTier::Name)),
        name_match_groups_file2: sort_solo_views(tier_solo2(fu1, fu2, MatchTier::Name)),
        hashes_match_pairs: sort_pair_views(tier_pairs(nu1, nu2, MatchTier::Hashes)),
        hashes_match_groups: sort_cross_views(tier_cross(nu1, nu2, MatchTier::Hashes)),
        hashes_match_groups_file1: sort_solo_views(tier_solo1(nu1, nu2, MatchTier::Hashes)),
        hashes_match_groups_file2: sort_solo_views(tier_solo2(nu1, nu2, MatchTier::Hashes)),
        no_match_file1: sort_entry_views(tier_unmatched1(nu1, nu2, MatchTier::Hashes)),
        no_match_file2: sort_entry_views(tier_unmatched2(nu1, nu2, MatchTier::Hashes)),
    }
}

/// The number of entries a partition accounts for: two per pair, every group
/// member, and every unmatched entry.
pub open spec fn partition_total(pv: PartitionView) -> int {
    2 * pv.full_match_pairs.len() + seq_len_total(pv.full_match_groups_file1) + seq_len_total(
        pv.full_match_groups_file2,
    ) + group_len_total(pv.full_match_groups) + 2 * pv.name_match_pairs.len() + seq_len_total(
        pv.name_match_groups_file1,
    ) + seq_len_total(pv.name_match_groups_file2) + group_len_total(pv.name_match_groups) + 2
        * pv.hashes_match_pairs.len() + seq_len_total(pv.hashes_match_groups_file1)
        + seq_len_total(pv.hashes_match_groups_file2) + group_len_total(pv.hashes_match_groups)
        + pv.no_match_file1.len() + pv.no_match_file2.len()
}

proof fn lemma_seq_len_total_extend(sv: Seq<Seq<LogEntryView>>, i: int)
    requires
        0 <= i < sv.len(),
    ensures
        seq_len_total(sv.take(i + 1)) == seq_len_total(sv.take(i)) + sv[i].len(),
{
    assert(sv.take(i + 1).drop_last() =~= sv.take(i));
    assert(sv.take(i + 1).last() == sv[i]);
}

proof fn lemma_seq_len_total_prefix(sv: Seq<Seq<LogEntryView>>, i: int)
    requires
        0 <= i <= sv.len(),
    ensures
        seq_len_total(sv.take(i)) <= seq_len_total(sv),
    decreases sv.len() - i,
{
    if i == sv.len() {
        assert(sv.take(i) =~= sv);
    } else {
        lemma_seq_len_total_extend(sv, i);
        lemma_seq_len_total_prefix(sv, i + 1);
    }
}

proof fn lemma_group_len_total_extend(gv: Seq<GroupView>, i: int)
    requires
        0 <= i < gv.len(),
    ensures
        group_len_total(gv.take(i + 1)) == group_len_total(gv.take(i)) + gv[i].from_file1.len()
            + gv[i].from_file2.len(),
{
    assert(gv.take(i + 1).drop_last() =~= gv.take(i));
    assert(gv.take(i + 1).last() == gv[i]);
}

proof fn lemma_group_len_total_prefix(gv: Seq<GroupView>, i: int)
    requires
        0 <= i <= gv.len(),
    ensures
        group_len_total(gv.take(i)) <= group_len_total(gv),
    decreases gv.len() - i,
{
    if i == gv.len() {
        assert(gv.take(i) =~= gv);
    } else {
        lemma_group_len_total_extend(gv, i);
        lemma_group_len_total_prefix(gv, i + 1);
    }
}

proof fn lemma_group_len_total_nonneg(gv: Seq<GroupView>)
    ensures
        group_len_total(gv) >= 0,
    decreases gv.len(),
{
    if gv.len() > 0 {
        lemma_group_len_total_nonneg(gv.drop_last());
    }
}

/// The total member count of a group list splits into its two sides.
proof fn lemma_group_len_split(gv: Seq<GroupView>)
    ensures
        group_len_total(gv) == seq_len_total(gv.map_values(group_f1_fn())) + seq_len_total(
            gv.map_values(group_f2_fn()),
        ),
    decreases gv.len(),
{
    if gv.len() == 0 {
    } else {
        let g0 = gv.drop_last();
        lemma_group_len_split(g0);
        assert(gv.map_values(group_f1_fn()).drop_last() =~= g0.map_values(group_f1_fn()));
        assert(gv.map_values(group_f2_fn()).drop_last() =~= g0.map_values(group_f2_fn()));
        assert(gv.map_values(group_f1_fn()).last() == gv.last().from_file1);
        assert(gv.map_values(group_f2_fn()).last() == gv.last().from_file2);
    }
}

/// A list's multiset determines its total member length.
proof fn lemma_seq_len_total_multiset(xs: Seq<Seq<LogEntryView>>, ys: Seq<Seq<LogEntryView>>)
    requires
        xs.to_multiset() == ys.to_multiset(),
    ensures
        seq_len_total(xs) == seq_len_total(ys),
{
    lemma_flatten_multiset(xs, ys);
    lemma_flatten_len(xs);
    lemma_flatten_len(ys);
    vstd::seq_lib::to_multiset_len(xs.flatten());
    vstd::seq_lib::to_multiset_len(ys.flatten());
}

proof fn lemma_sort_pair_views_len(s: Seq<PairView>)
    ensures
        sort_pair_views(s).len() == s.len(),
{
    lemma_pair_cmp_lawful();
    lemma_lawful_total_ordering(pair_cmp_rel());
    s.lemma_sort_by_ensures(le_of(pair_cmp_rel()));
    vstd::seq_lib::to_multiset_len(s);
    vstd::seq_lib::to_multiset_len(sort_pair_views(s));
}

proof fn lemma_sort_entry_views_len(s: Seq<LogEntryView>)
    ensures
        sort_entry_views(s).len() == s.len(),
{
    lemma_entry_cmp_lawful();
    lemma_lawful_total_ordering(entry_cmp_rel());
    s.lemma_sort_by_ensures(le_of(entry_cmp_rel()));
    vstd::seq_lib::to_multiset_len(s);
    vstd::seq_lib::to_multiset_len(sort_entry_views(s));
}

proof fn lemma_sorted_members_total(s: Seq<Seq<LogEntryView>>)
    ensures
        seq_len_total(s.map_values(sort_members_fn())) == seq_len_total(s),
    decreases s.len(),
{
    if s.len() == 0 {
        assert(s.map_values(sort_members_fn()) =~= Seq::<Seq<LogEntryView>>::empty());
    } else {
        let s0 = s.drop_last();
        lemma_sorted_members_total(s0);
        assert(s.map_values(sort_members_fn()).drop_last() =~= s0.map_values(sort_members_fn()));
        assert(s.map_values(sort_members_fn()).last() == sort_entry_views(s.last()));
        lemma_sort_entry_views_len(s.last());
    }
}

proof fn lemma_sort_solo_views_total(s: Seq<Seq<LogEntryView>>)
    ensures
        seq_len_total(sort_solo_views(s)) == seq_len_total(s),
{
    lemma_sorted_members_total(s);
    let mid = s.map_values(sort_members_fn());
    lemma_entry_seq_cmp_lawful();
    lemma_lawful_total_ordering(entry_seq_cmp_rel());
    mid.lemma_sort_by_ensures(le_of(entry_seq_cmp_rel()));
    lemma_seq_len_total_multiset(sort_solo_views(s), mid);
}

proof fn lemma_sorted_group_members_total(s: Seq<GroupView>)
    ensures
        group_len_total(s.map_values(sort_group_members_fn())) == group_len_total(s),
    decreases s.len(),
{
    if s.len() == 0 {
        assert(s.map_values(sort_group_members_fn()) =~= Seq::<GroupView>::empty());
    } else {
        let s0 = s.drop_last();
        lemma_sorted_group_members_total(s0);
        assert(s.map_values(sort_group_members_fn()).drop_last() =~= s0.map_values(
            sort_group_members_fn(),
        ));
        assert(s.map_values(sort_group_members_fn()).last() == sort_group_members_fn()(s.last()));
        lemma_sort_entry_views_len(s.last().from_file1);
        lemma_sort_entry_views_len(s.last().from_file2);
    }
}

proof fn lemma_sort_cross_views_total(s: Seq<GroupView>)
    ensures
        group_len_total(sort_cross_views(s)) == group_len_total(s),
{
    lemma_sorted_group_members_total(s);
    let mid = s.map_values(sort_group_members_fn());
    lemma_group_cmp_lawful();
    lemma_lawful_total_ordering(group_cmp_rel());
    mid.lemma_sort_by_ensures(le_of(group_cmp_rel()));
    let sorted = sort_cross_views(s);
    lemma_group_len_split(sorted);
    lemma_group_len_split(mid);
    lemma_map_values_multiset(sorted, mid, group_f1_fn());
    lemma_map_values_multiset(sorted, mid, group_f2_fn());
    lemma_seq_len_total_multiset(sorted.map_values(group_f1_fn()), mid.map_values(group_f1_fn()));
    lemma_seq_len_total_multiset(sorted.map_values(group_f2_fn()), mid.map_values(group_f2_fn()));
}

/// One tier accounts for every source 1 entry exactly once, by count.
proof fn lemma_tier_len1(u1: Seq<LogEntryView>, u2: Seq<LogEntryView>, t: MatchTier)
    ensures
        u1.len() == tier_pairs(u1, u2, t).len() + seq_len_total(tier_solo1(u1, u2, t))
            + seq_len_total(tier_cross(u1, u2, t).map_values(group_f1_fn())) + tier_unmatched1(
            u1,
            u2,
            t,
        ).len(),
{
    broadcast use vstd::multiset::group_multiset_axioms;

    lemma_tier_members1(u1, u2, t);
    vstd::seq_lib::to_multiset_len(u1);
    vstd::seq_lib::to_multiset_len(tier_pairs(u1, u2, t).map_values(pair_f1_fn()));
    vstd::seq_lib::to_multiset_len(tier_solo1(u1, u2, t).flatten());
    vstd::seq_lib::to_multiset_len(tier_cross(u1, u2, t).map_values(group_f1_fn()).flatten());
    vstd::seq_lib::to_multiset_len(tier_unmatched1(u1, u2, t));
    lemma_flatten_len(tier_solo1(u1, u2, t));
    lemma_flatten_len(tier_cross(u1, u2, t).map_values(group_f1_fn()));
}

/// One tier accounts for every source 2 entry exactly once, by count.
proof fn lemma_tier_len2(u1: Seq<LogEntryView>, u2: Seq<LogEntryView>, t: MatchTier)
    ensures
        u2.len() == tier_pairs(u1, u2, t).len() + seq_len_total(tier_solo2(u1, u2, t))
            + seq_len_total(tier_cross(u1, u2, t).map_values(group_f2_fn())) + tier_unmatched2(
            u1,
            u2,
            t,
        ).len(),
{
    broadcast use vstd::multiset::group_multiset_axioms;

    lemma_tier_members2(u1, u2, t);
    vstd::seq_lib::to_multiset_len(u2);
    vstd::seq_lib::to_multiset_len(tier_pairs(u1, u2, t).map_values(pair_f2_fn()));
    vstd::seq_lib::to_multiset_len(tier_solo2(u1, u2, t).flatten());
    vstd::seq_lib::to_multiset_len(tier_cross(u1, u2, t).map_values(group_f2_fn()).flatten());
    vstd::seq_lib::to_multiset_len(tier_unmatched2(u1, u2, t));
    lemma_flatten_len(tier_solo2(u1, u2, t));
    lemma_flatten_len(tier_cross(u1, u2, t).map_values(group_f2_fn()));
}

/// The partition accounts for every input entry exactly once, by count: the
/// size invariant the engine checks at run time always holds.
pub proof fn lemma_partition_total(u1: Seq<LogEntryView>, u2: Seq<LogEntryView>)
    ensures
        partition_total(spec_partition(u1, u2)) == u1.len() + u2.len(),
{
    let fu1 = tier_unmatched1(u1, u2, MatchTier::Full);
    let fu2 = tier_unmatched2(u1, u2, MatchTier::Full);
    let nu1 = tier_unmatched1(fu1, fu2, MatchTier::Name);
    let nu2 = tier_unmatched2(fu1, fu2, MatchTier::Name);
    lemma_tier_len1(u1, u2, MatchTier::Full);
    lemma_tier_len2(u1, u2, MatchTier::Full);
    lemma_tier_len1(fu1, fu2, MatchTier::Name);
    lemma_tier_len2(fu1, fu2, MatchTier::Name);
    lemma_tier_len1(nu1, nu2, MatchTier::Hashes);
    lemma_tier_len2(nu1, nu2, MatchTier::Hashes);
    lemma_group_len_split(tier_cross(u1, u2, MatchTier::Full));
    lemma_group_len_split(tier_cross(fu1, fu2, MatchTier::Name));
    lemma_group_len_split(tier_cross(nu1, nu2, MatchTier::Hashes));
    lemma_sort_pair_views_len(tier_pairs(u1, u2, MatchTier::Full));
    lemma_sort_pair_views_len(tier_pairs(fu1, fu2, MatchTier::Name));
    lemma_sort_pair_views_len(tier_pairs(nu1, nu2, MatchTier::Hashes));
    lemma_sort_solo_views_total(tier_solo1(u1, u2, MatchTier::Full));
    lemma_sort_solo_views_total(tier_solo2(u1, u2, MatchTier::Full));
    lemma_sort_solo_views_total(tier_solo1(fu1, fu2, MatchTier::Name));
    lemma_sort_solo_views_total(tier_solo2(fu1, fu2, MatchTier::Name));
    lemma_sort_solo_views_total(tier_solo1(nu1, nu2, MatchTier::Hashes));
    lemma_sort_solo_views_total(tier_solo2(nu1, nu2, MatchTier::Hashes));
    lemma_sort_cross_views_total(tier_cross(u1, u2, MatchTier::Full));
    lemma_sort_cross_views_total(tier_cross(fu1, fu2, MatchTier::Name));
    lemma_sort_cross_views_total(tier_cross(nu1, nu2, MatchTier::Hashes));
    lemma_sort_entry_views_len(tier_unmatched1(nu1, nu2, MatchTier::Hashes));
    lemma_sort_entry_views_len(tier_unmatched2(nu1, nu2, MatchTier::Hashes));
}

/// The count of entries held in pairs (two per pair).
fn pairs_sum(pairs: &Vec<MatchPair>) -> (r: Option<usize>)
    ensures
        match r {
            Some(n) => n == 2 * pairs@.len(),
            None => 2 * pairs@.len() > usize::MAX,
        },
{
    pairs.len().checked_mul(2)
}

/// The count of entries held in a list of cross-source groups.
#[verifier::loop_isolation(false)]
fn groups_sum(groups: &Vec<MatchGroup>) -> (r: Option<usize>)
    ensures
        match r {
            Some(n) => n == group_len_total(cross_views(groups@)),
            None => group_len_total(cross_views(groups@)) > usize::MAX,
        },
{
    let ghost gv = cross_views(groups@);
    let mut acc: usize = 0;
    let mut i: usize = 0;
    proof {
        assert(gv.take(0) =~= Seq::<GroupView>::empty());
    }
    while i < groups.len()
        invariant
            i <= groups@.len(),
            gv.len() == groups@.len(),
            acc == group_len_total(gv.take(i as int)),
        decreases groups@.len() - i,
    {
        let n1 = groups[i].from_file1.len();
        let n2 = groups[i].from_file2.len();
        proof {
            assert(gv[i as int] == groups@[i as int]@);
            assert(gv[i as int].from_file1.len() == n1);
            assert(gv[i as int].from_file2.len() == n2);
            lemma_group_len_total_extend(gv, i as int);
            lemma_group_len_total_prefix(gv, i + 1);
            assert(group_len_total(gv.take(i as int)) >= 0) by {
                lemma_group_len_total_nonneg(gv.take(i as int));
            }
        }
        let both = match n1.checked_add(n2) {
            Some(b) => b,
            None => {
                return None;
            },
        };
        match acc.checked_add(both) {
            Some(a2) => {
                acc = a2;
            },
            None => {
                return None;
            },
        }
        i = i + 1;
    }
    proof {
        assert(gv.take(gv.len() as int) =~= gv);
    }
    Some(acc)
}

/// The count of entries held in a list of single-source groups.
#[verifier::loop_isolation(false)]
fn single_file_groups_sum(groups: &Vec<SingleFileMatchGroup>) -> (r: Option<usize>)
    ensures
        match r {
            Some(n) => n == seq_len_total(solo_views(groups@)),
            None => seq_len_total(solo_views(groups@)) > usize::MAX,
        },
{
    let ghost sv = solo_views(groups@);
    let mut acc: usize = 0;
    let mut i: usize = 0;
    proof {
        assert(sv.take(0) =~= Seq::<Seq<LogEntryView>>::empty());
    }
    while i < groups.len()
        invariant
            i <= groups@.len(),
            sv.len() == groups@.len(),
            acc == seq_len_total(sv.take(i as int)),
        decreases groups@.len() - i,
    {
        let n = groups[i].log_entries.len();
        proof {
            assert(sv[i as int] == groups@[i as int]@);
            assert(sv[i as int].len() == n);
            lemma_seq_len_total_extend(sv, i as int);
            lemma_seq_len_total_prefix(sv, i + 1);
        }
        match acc.checked_add(n) {
            Some(a2) => {
                acc = a2;
            },
            None => {
                return None;
            },
        }
        i = i + 1;
    }
    proof {
        assert(sv.take(sv.len() as int) =~= sv);
    }
    Some(acc)
}

/// Adds two partial counts, propagating failure.
fn opt_add(a: Option<usize>, b: Option<usize>) -> (r: Option<usize>)
    ensures
        match (a, b) {
            (Some(x), Some(y)) => if x + y <= usize::MAX {
                r == Some((x + y) as usize)
            } else {
                r is None
            },
            _ => r is None,
        },
{
    match (a, b) {
        (Some(x), Some(y)) => x.checked_add(y),
        _ => None,
    }
}

impl MatchPartition {
    /// Counts every entry the partition holds, failing on arithmetic
    /// overflow.
    fn total_log_entries(&self) -> (r: Option<usize>)
        ensures
            match r {
                Some(n) => n == partition_total(self@),
                None => partition_total(self@) > usize::MAX,
            },
    {
        proof {
            lemma_group_len_total_nonneg(self@.full_match_groups);
            lemma_group_len_total_nonneg(self@.name_match_groups);
            lemma_group_len_total_nonneg(self@.hashes_match_groups);
            lemma_flatten_len(self@.full_match_groups_file1);
            lemma_flatten_len(self@.full_match_groups_file2);
            lemma_flatten_len(self@.name_match_groups_file1);
            lemma_flatten_len(self@.name_match_groups_file2);
            lemma_flatten_len(self@.hashes_match_groups_file1);
            lemma_flatten_len(self@.hashes_match_groups_file2);
        }
        let mut acc = pairs_sum(&self.full_match_pairs);
        acc = opt_add(acc, single_file_groups_sum(&self.full_match_groups_file1));
        acc = opt_add(acc, single_file_groups_sum(&self.full_match_groups_file2));
        acc = opt_add(acc, groups_sum(&self.full_match_groups));
        acc = opt_add(acc, pairs_sum(&self.name_match_pairs));
        acc = opt_add(acc, single_file_groups_sum(&self.name_match_groups_file1));
        acc = opt_add(acc, single_file_groups_sum(&self.name_match_groups_file2));
        acc = opt_add(acc, groups_sum(&self.name_match_groups));
        acc = opt_add(acc, pairs_sum(&self.hashes_match_pairs));
        acc = opt_add(acc, single_file_groups_sum(&self.hashes_match_groups_file1));
        acc = opt_add(acc, single_file_groups_sum(&self.hashes_match_groups_file2));
        acc = opt_add(acc, groups_sum(&self.hashes_match_groups));
        acc = opt_add(acc, Some(self.no_match_file1.len()));
        acc = opt_add(acc, Some(self.no_match_file2.len()));
        acc
    }
}

/// The main implementation function for the `part` command:
/// Partitions entries into a structure of match pairs and groupings, allowing
/// comparison of the two source hashdeep log files in terms of inferred
/// intervening file changes.
///
/// # Errors
///
/// An integrity check is run on the results of the partitioning operation.
/// An error will be issued if this check fails; the only failure the
/// contract admits is arithmetic overflow of the check itself, on inputs
/// whose combined length exceeds `usize::MAX`.
pub fn match_partition(from_file1: &Vec<LogEntry>, from_file2: &Vec<LogEntry>) -> (r: Result<
    MatchPartition,
    MatchPartitionError,
>)
    ensures
        match r {
            Ok(mp) => mp@ == spec_partition(entry_views(from_file1@), entry_views(from_file2@))
                && from_file1@.len() + from_file2@.len() <= usize::MAX,
            Err(e) => e == MatchPartitionError::ChecksumArithmeticOverflow && from_file1@.len()
                + from_file2@.len() > usize::MAX,
        },
{
    let ghost u1 = entry_views(from_file1@);
    let ghost u2 = entry_views(from_file2@);
    let ghost fu1 = tier_unmatched1(u1, u2, MatchTier::Full);
    let ghost fu2 = tier_unmatched2(u1, u2, MatchTier::Full);
    let ghost nu1 = tier_unmatched1(fu1, fu2, MatchTier::Name);
    let ghost nu2 = tier_unmatched2(fu1, fu2, MatchTier::Name);

    let full_matches = classify(from_file1, from_file2, MatchTier::Full);
    proof {
        assert(entry_views(full_matches.unmatched1@) == fu1);
        assert(entry_views(full_matches.unmatched2@) == fu2);
    }
    let name_matches = classify(&full_matches.unmatched1, &full_matches.unmatched2, MatchTier::Name);
    proof {
        assert(entry_views(name_matches.unmatched1@) == nu1);
        assert(entry_views(name_matches.unmatched2@) == nu2);
    }
    let hashes_matches = classify(
        &name_matches.unmatched1,
        &name_matches.unmatched2,
        MatchTier::Hashes,
    );

    let mut mp = MatchPartition {
        full_match_pairs: full_matches.pairs,
        full_match_groups: full_matches.cross_groups,
        full_match_groups_file1: full_matches.solo_groups1,
        full_match_groups_file2: full_matches.solo_groups2,
        name_match_pairs: name_matches.pairs,
        name_match_groups: name_matches.cross_groups,
        name_match_groups_file1: name_matches.solo_groups1,
        name_match_groups_file2: name_matches.solo_groups2,
        hashes_match_pairs: hashes_matches.pairs,
        hashes_match_groups: hashes_matches.cross_groups,
        hashes_match_groups_file1: hashes_matches.solo_groups1,
        hashes_match_groups_file2: hashes_matches.solo_groups2,
        no_match_file1: hashes_matches.unmatched1,
        no_match_file2: hashes_matches.unmatched2,
    };

    sort_match_pairs_by_filename(&mut mp.full_match_pairs);
    sort_single_file_match_groups_by_filename(&mut mp.full_match_groups_file1);
    sort_single_file_match_groups_by_filename(&mut mp.full_match_groups_file2);
    sort_match_groups_by_filename(&mut mp.full_match_groups);
    sort_match_pairs_by_filename(&mut mp.name_match_pairs);
    sort_single_file_match_groups_by_filename(&mut mp.name_match_groups_file1);
    sort_single_file_match_groups_by_filename(&mut mp.name_match_groups_file2);
    sort_match_groups_by_filename(&mut mp.name_match_groups);
    sort_match_pairs_by_filename(&mut mp.hashes_match_pairs);
    sort_single_file_match_groups_by_filename(&mut mp.hashes_match_groups_file1);
    sort_single_file_match_groups_by_filename(&mut mp.hashes_match_groups_file2);
    sort_match_groups_by_filename(&mut mp.hashes_match_groups);
    sort_log_entries_by_filename(&mut mp.no_match_file1);
    sort_log_entries_by_filename(&mut mp.no_match_file2);

    proof {
        assert(mp@ =~= spec_partition(u1, u2));
        lemma_partition_total(u1, u2);
    }

    let total_from_both_files = from_file1.len().checked_add(from_file2.len());

    match (mp.total_log_entries(), total_from_both_files) {
        (Some(x), Some(y)) => {
            if x == y {
                Ok(mp)
            } else {
                Err(MatchPartitionError::ChecksumFailure)
            }
        },
        _ => Err(MatchPartitionError::ChecksumArithmeticOverflow),
    }
}

} // verus!
