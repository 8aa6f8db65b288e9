//! The mathematical model of the matching engine: match tiers, key grouping,
//! and the classification of every key's bucket, stated over entry views.

use vstd::prelude::*;
use vstd::seq_lib::*;
use vstd::multiset::Multiset;
use crate::log_entry::{LogEntryView, record_line};
use super::match_pair::PairView;
use super::match_group::GroupView;

verus! {

/// The three cascaded match tiers: by full record identity, by path, and by
/// digest key.
#[derive(Clone, Copy, Debug)]
pub enum MatchTier {
    Full,
    Name,
    Hashes,
}

/// The match key an entry contributes under a tier.
pub open spec fn tier_key(t: MatchTier, v: LogEntryView) -> Seq<char> {
    match t {
        MatchTier::Full => record_line(v),
        MatchTier::Name => v.filename,
        MatchTier::Hashes => v.hashes,
    }
}

/// The key of each entry of `u`, in order.
pub open spec fn keys_of(u: Seq<LogEntryView>, t: MatchTier) -> Seq<Seq<char>> {
    u.map_values(|v: LogEntryView| tier_key(t, v))
}

/// The entries of `u` whose key under `t` is `k`, in order.
pub open spec fn with_key(u: Seq<LogEntryView>, t: MatchTier, k: Seq<char>) -> Seq<LogEntryView> {
    u.filter(|v: LogEntryView| tier_key(t, v) == k)
}

/// How many entries of `u` carry key `k` under tier `t`.
pub open spec fn key_count(u: Seq<LogEntryView>, t: MatchTier, k: Seq<char>) -> nat {
    with_key(u, t, k).len()
}

/// Key held by exactly one entry of each source: resolves to a pair.
pub open spec fn pair_key(
    u1: Seq<LogEntryView>,
    u2: Seq<LogEntryView>,
    t: MatchTier,
    k: Seq<char>,
) -> bool {
    key_count(u1, t, k) == 1 && key_count(u2, t, k) == 1
}

/// Key held by two or more entries of source 1 and none of source 2.
pub open spec fn solo1_key(
    u1: Seq<LogEntryView>,
    u2: Seq<LogEntryView>,
    t: MatchTier,
    k: Seq<char>,
) -> bool {
    key_count(u1, t, k) >= 2 && key_count(u2, t, k) == 0
}

/// Key held by two or more entries of source 2 and none of source 1.
pub open spec fn solo2_key(
    u1: Seq<LogEntryView>,
    u2: Seq<LogEntryView>,
    t: MatchTier,
    k: Seq<char>,
) -> bool {
    key_count(u1, t, k) == 0 && key_count(u2, t, k) >= 2
}

/// Key held by entries of both sources, but not exactly one of each.
pub open spec fn cross_key(
    u1: Seq<LogEntryView>,
    u2: Seq<LogEntryView>,
    t: MatchTier,
    k: Seq<char>,
) -> bool {
    key_count(u1, t, k) >= 1 && key_count(u2, t, k) >= 1 && !(key_count(u1, t, k) == 1
        && key_count(u2, t, k) == 1)
}

/// Key held by exactly one entry overall, from source 1: stays unmatched.
pub open spec fn lone1_key(
    u1: Seq<LogEntryView>,
    u2: Seq<LogEntryView>,
    t: MatchTier,
    k: Seq<char>,
) -> bool {
    key_count(u1, t, k) == 1 && key_count(u2, t, k) == 0
}

/// Key held by exactly one entry overall, from source 2: stays unmatched.
pub open spec fn lone2_key(
    u1: Seq<LogEntryView>,
    u2: Seq<LogEntryView>,
    t: MatchTier,
    k: Seq<char>,
) -> bool {
    key_count(u1, t, k) == 0 && key_count(u2, t, k) == 1
}

/// Each distinct element of `s`, once, in order of first occurrence.
pub open spec fn first_occurrences<A>(s: Seq<A>) -> Seq<A>
    decreases s.len(),
{
    if s.len() == 0 {
        Seq::empty()
    } else {
        let rest = first_occurrences(s.drop_last());
        if rest.contains(s.last()) {
            rest
        } else {
            rest.push(s.last())
        }
    }
}

/// The distinct keys of `u` under `t`, in order of first occurrence.
pub open spec fn keys_in_order(u: Seq<LogEntryView>, t: MatchTier) -> Seq<Seq<char>> {
    first_occurrences(keys_of(u, t))
}


/// Holding key `k` under tier `t`, as a function value.
pub open spec fn key_is(t: MatchTier, k: Seq<char>) -> spec_fn(LogEntryView) -> bool {
    |v: LogEntryView| tier_key(t, v) == k
}

/// `with_key` is the filter by `key_is`.
pub proof fn lemma_with_key_pred(u: Seq<LogEntryView>, t: MatchTier, k: Seq<char>)
    ensures
        u.filter(key_is(t, k)) == with_key(u, t, k),
    decreases u.len(),
{
    reveal(Seq::filter);
    if u.len() > 0 {
        lemma_with_key_pred(u.drop_last(), t, k);
    }
}

/// The pair-key predicate as a function value, shared by specs and proofs.
pub open spec fn pair_key_pred(u1: Seq<LogEntryView>, u2: Seq<LogEntryView>, t: MatchTier) -> spec_fn(Seq<char>) -> bool {
    |k: Seq<char>| pair_key(u1, u2, t, k)
}

pub open spec fn solo1_key_pred(u1: Seq<LogEntryView>, u2: Seq<LogEntryView>, t: MatchTier) -> spec_fn(Seq<char>) -> bool {
    |k: Seq<char>| solo1_key(u1, u2, t, k)
}

pub open spec fn solo2_key_pred(u1: Seq<LogEntryView>, u2: Seq<LogEntryView>, t: MatchTier) -> spec_fn(Seq<char>) -> bool {
    |k: Seq<char>| solo2_key(u1, u2, t, k)
}

pub open spec fn cross_key_pred(u1: Seq<LogEntryView>, u2: Seq<LogEntryView>, t: MatchTier) -> spec_fn(Seq<char>) -> bool {
    |k: Seq<char>| cross_key(u1, u2, t, k)
}

pub open spec fn lone1_key_pred(u1: Seq<LogEntryView>, u2: Seq<LogEntryView>, t: MatchTier) -> spec_fn(Seq<char>) -> bool {
    |k: Seq<char>| lone1_key(u1, u2, t, k)
}

pub open spec fn lone2_key_pred(u1: Seq<LogEntryView>, u2: Seq<LogEntryView>, t: MatchTier) -> spec_fn(Seq<char>) -> bool {
    |k: Seq<char>| lone2_key(u1, u2, t, k)
}

/// Builds the pair a pair-key resolves to.
pub open spec fn mk_pair_fn(u1: Seq<LogEntryView>, u2: Seq<LogEntryView>, t: MatchTier) -> spec_fn(Seq<char>) -> PairView {
    |k: Seq<char>| PairView { from_file1: with_key(u1, t, k)[0], from_file2: with_key(u2, t, k)[0] }
}

/// Builds the member list a solo key of source 1 resolves to.
pub open spec fn mk_solo1_fn(u1: Seq<LogEntryView>, t: MatchTier) -> spec_fn(Seq<char>) -> Seq<LogEntryView> {
    |k: Seq<char>| with_key(u1, t, k)
}

/// Builds the cross-source group a cross key resolves to.
pub open spec fn mk_cross_fn(u1: Seq<LogEntryView>, u2: Seq<LogEntryView>, t: MatchTier) -> spec_fn(Seq<char>) -> GroupView {
    |k: Seq<char>| GroupView { from_file1: with_key(u1, t, k), from_file2: with_key(u2, t, k) }
}

/// Picks the lone entry an unmatched key resolves to.
pub open spec fn mk_lone_fn(u: Seq<LogEntryView>, t: MatchTier) -> spec_fn(Seq<char>) -> LogEntryView {
    |k: Seq<char>| with_key(u, t, k)[0]
}

/// The pairs a tier produces: one per key held exactly once in each source,
/// in order of the key's first occurrence in source 1.
pub open spec fn tier_pairs(u1: Seq<LogEntryView>, u2: Seq<LogEntryView>, t: MatchTier) -> Seq<
    PairView,
> {
    keys_in_order(u1, t).filter(pair_key_pred(u1, u2, t)).map_values(mk_pair_fn(u1, u2, t))
}

/// The single-source groups of source 1: one per key held at least twice in
/// source 1 and never in source 2.
pub open spec fn tier_solo1(u1: Seq<LogEntryView>, u2: Seq<LogEntryView>, t: MatchTier) -> Seq<
    Seq<LogEntryView>,
> {
    keys_in_order(u1, t).filter(solo1_key_pred(u1, u2, t)).map_values(mk_solo1_fn(u1, t))
}

/// The single-source groups of source 2.
pub open spec fn tier_solo2(u1: Seq<LogEntryView>, u2: Seq<LogEntryView>, t: MatchTier) -> Seq<
    Seq<LogEntryView>,
> {
    keys_in_order(u2, t).filter(solo2_key_pred(u1, u2, t)).map_values(mk_solo1_fn(u2, t))
}

/// The cross-source groups: one per key held by both sources but not exactly
/// once in each.
pub open spec fn tier_cross(u1: Seq<LogEntryView>, u2: Seq<LogEntryView>, t: MatchTier) -> Seq<
    GroupView,
> {
    keys_in_order(u1, t).filter(cross_key_pred(u1, u2, t)).map_values(mk_cross_fn(u1, u2, t))
}

/// The entries of source 1 left unmatched by a tier, in source order.
pub open spec fn tier_unmatched1(u1: Seq<LogEntryView>, u2: Seq<LogEntryView>, t: MatchTier) -> Seq<
    LogEntryView,
> {
    keys_in_order(u1, t).filter(lone1_key_pred(u1, u2, t)).map_values(mk_lone_fn(u1, t))
}

/// The entries of source 2 left unmatched by a tier, in source order.
pub open spec fn tier_unmatched2(u1: Seq<LogEntryView>, u2: Seq<LogEntryView>, t: MatchTier) -> Seq<
    LogEntryView,
> {
    keys_in_order(u2, t).filter(lone2_key_pred(u1, u2, t)).map_values(mk_lone_fn(u2, t))
}


/// Everything one tier of classification produces, at the view level.
#[verifier::ext_equal]
pub ghost struct TierView {
    pub pairs: Seq<PairView>,
    pub cross_groups: Seq<GroupView>,
    pub solo_groups1: Seq<Seq<LogEntryView>>,
    pub solo_groups2: Seq<Seq<LogEntryView>>,
    pub unmatched1: Seq<LogEntryView>,
    pub unmatched2: Seq<LogEntryView>,
}

/// The complete classification of one tier.
pub open spec fn tier_view(u1: Seq<LogEntryView>, u2: Seq<LogEntryView>, t: MatchTier) -> TierView {
    TierView {
        pairs: tier_pairs(u1, u2, t),
        cross_groups: tier_cross(u1, u2, t),
        solo_groups1: tier_solo1(u1, u2, t),
        solo_groups2: tier_solo2(u1, u2, t),
        unmatched1: tier_unmatched1(u1, u2, t),
        unmatched2: tier_unmatched2(u1, u2, t),
    }
}

/// No element of `s` occurs twice.
pub open spec fn distinct_seq<A>(s: Seq<A>) -> bool {
    forall|i: int, j: int| 0 <= i < j < s.len() ==> s[i] != s[j]
}

pub proof fn lemma_first_occurrences_push<A>(s: Seq<A>, x: A)
    ensures
        first_occurrences(s.push(x)) == if first_occurrences(s).contains(x) {
            first_occurrences(s)
        } else {
            first_occurrences(s).push(x)
        },
{
    assert(s.push(x).drop_last() =~= s);
    assert(s.push(x).last() == x);
}

pub proof fn lemma_first_occurrences_contains<A>(s: Seq<A>, x: A)
    ensures
        first_occurrences(s).contains(x) <==> s.contains(x),
    decreases s.len(),
{
    broadcast use group_seq_properties;

    if s.len() > 0 {
        lemma_first_occurrences_contains(s.drop_last(), x);
        assert(s =~= s.drop_last().push(s.last()));
    }
}

pub proof fn lemma_first_occurrences_distinct<A>(s: Seq<A>)
    ensures
        distinct_seq(first_occurrences(s)),
    decreases s.len(),
{
    if s.len() > 0 {
        lemma_first_occurrences_distinct(s.drop_last());
        let rest = first_occurrences(s.drop_last());
        if !rest.contains(s.last()) {
            assert forall|i: int, j: int|
                0 <= i < j < rest.push(s.last()).len() implies rest.push(s.last())[i] != rest.push(
                s.last(),
            )[j] by {
                if j == rest.len() {
                    assert(rest.contains(rest[i]));
                }
            }
        }
    }
}

pub proof fn lemma_first_occurrences_concat<A>(a: Seq<A>, b: Seq<A>)
    ensures
        first_occurrences(a + b) == first_occurrences(a) + first_occurrences(b).filter(
            |x: A| !a.contains(x),
        ),
    decreases b.len(),
{
    broadcast use group_seq_properties;

    let novel = |x: A| !a.contains(x);
    if b.len() == 0 {
        assert(a + b =~= a);
        assert(first_occurrences(b) =~= Seq::<A>::empty());
        reveal(Seq::filter);
        assert(first_occurrences(a) + first_occurrences(b).filter(novel) =~= first_occurrences(a));
    } else {
        let b0 = b.drop_last();
        let x = b.last();
        lemma_first_occurrences_concat(a, b0);
        assert(a + b =~= (a + b0).push(x));
        lemma_first_occurrences_push(a + b0, x);
        lemma_first_occurrences_push(b0, x);
        Seq::lemma_filter_push(first_occurrences(b0), x, novel);
        lemma_first_occurrences_contains(a + b0, x);
        lemma_first_occurrences_contains(b0, x);
        assert((a + b0).contains(x) <==> a.contains(x) || b0.contains(x));
        if first_occurrences(b0).contains(x) {
            lemma_first_occurrences_contains(b0, x);
        }
        if !a.contains(x) && !b0.contains(x) {
            assert(first_occurrences(a) + first_occurrences(b0).filter(novel).push(x)
                =~= (first_occurrences(a) + first_occurrences(b0).filter(novel)).push(x));
        }
    }
}

/// `u` holds an entry with key `k` exactly when `k` is among `u`'s keys.
pub proof fn lemma_with_key_nonempty(u: Seq<LogEntryView>, t: MatchTier, k: Seq<char>)
    ensures
        keys_of(u, t).contains(k) <==> key_count(u, t, k) > 0,
    decreases u.len(),
{
    broadcast use group_seq_properties;

    reveal(Seq::filter);
    if u.len() > 0 {
        lemma_with_key_nonempty(u.drop_last(), t, k);
        assert(keys_of(u, t) =~= keys_of(u.drop_last(), t).push(tier_key(t, u.last())));
    }
}

/// A filter whose predicate holds of every element keeps the sequence whole.
pub proof fn lemma_filter_all<A>(s: Seq<A>, p: spec_fn(A) -> bool)
    requires
        forall|i: int| 0 <= i < s.len() ==> #[trigger] p(s[i]),
    ensures
        s.filter(p) == s,
    decreases s.len(),
{
    reveal(Seq::filter);
    if s.len() > 0 {
        lemma_filter_all(s.drop_last(), p);
        assert(s.filter(p) =~= s);
    } else {
        assert(s.filter(p) =~= s);
    }
}

/// Filters by predicates that agree on every element of `s` are equal.
pub proof fn lemma_filter_agree<A>(s: Seq<A>, p: spec_fn(A) -> bool, q: spec_fn(A) -> bool)
    requires
        forall|i: int| 0 <= i < s.len() ==> (#[trigger] p(s[i]) <==> q(s[i])),
    ensures
        s.filter(p) == s.filter(q),
    decreases s.len(),
{
    reveal(Seq::filter);
    if s.len() > 0 {
        lemma_filter_agree(s.drop_last(), p, q);
    }
}

/// Filtering twice is filtering by the conjunction.
pub proof fn lemma_filter_compose<A>(
    s: Seq<A>,
    p: spec_fn(A) -> bool,
    q: spec_fn(A) -> bool,
    pq: spec_fn(A) -> bool,
)
    requires
        forall|x: A| #[trigger] pq(x) <==> (p(x) && q(x)),
    ensures
        s.filter(p).filter(q) == s.filter(pq),
    decreases s.len(),
{
    reveal(Seq::filter);
    if s.len() > 0 {
        lemma_filter_compose(s.drop_last(), p, q, pq);
        if p(s.last()) {
            Seq::lemma_filter_push(s.drop_last().filter(p), s.last(), q);
        }
    }
}

/// Filtering by the disjunction of element-wise exclusive predicates splits
/// the multiset.
pub proof fn lemma_filter_disjoint_multiset<A>(
    s: Seq<A>,
    p: spec_fn(A) -> bool,
    q: spec_fn(A) -> bool,
    pq: spec_fn(A) -> bool,
)
    requires
        forall|x: A| #[trigger] pq(x) <==> (p(x) || q(x)),
        forall|x: A| !(#[trigger] p(x) && q(x)),
    ensures
        s.filter(pq).to_multiset() == s.filter(p).to_multiset().add(s.filter(q).to_multiset()),
    decreases s.len(),
{
    broadcast use group_to_multiset_ensures;
    broadcast use vstd::multiset::group_multiset_axioms;

    reveal(Seq::filter);
    if s.len() == 0 {
        assert(s.filter(pq).to_multiset() =~= s.filter(p).to_multiset().add(
            s.filter(q).to_multiset(),
        ));
    } else {
        let s0 = s.drop_last();
        let x = s.last();
        lemma_filter_disjoint_multiset(s0, p, q, pq);
        assert(s =~= s0.push(x));
        Seq::lemma_filter_push(s0, x, p);
        Seq::lemma_filter_push(s0, x, q);
        Seq::lemma_filter_push(s0, x, pq);
        assert(s.filter(pq).to_multiset() =~= s.filter(p).to_multiset().add(
            s.filter(q).to_multiset(),
        ));
    }
}

/// Collecting the entries of `u` key by key over a distinct key list yields
/// exactly the entries of `u` whose key is listed.
pub proof fn lemma_key_cover_multiset(u: Seq<LogEntryView>, t: MatchTier, ks: Seq<Seq<char>>)
    requires
        distinct_seq(ks),
    ensures
        ks.flat_map(mk_solo1_fn(u, t)).to_multiset() == u.filter(
            |v: LogEntryView| ks.contains(tier_key(t, v)),
        ).to_multiset(),
    decreases ks.len(),
{
    broadcast use group_to_multiset_ensures;
    broadcast use vstd::multiset::group_multiset_axioms;
    broadcast use group_seq_properties;

    let f = mk_solo1_fn(u, t);
    if ks.len() == 0 {
        reveal(Seq::filter);
        assert(ks.flat_map(f) =~= Seq::<LogEntryView>::empty());
        assert(ks.flat_map(f).to_multiset() =~= u.filter(
            |v: LogEntryView| ks.contains(tier_key(t, v)),
        ).to_multiset());
    } else {
        let ks0 = ks.drop_last();
        let k = ks.last();
        assert(distinct_seq(ks0));
        lemma_key_cover_multiset(u, t, ks0);
        assert(ks =~= ks0.push(k));
        ks0.lemma_flat_map_push(f, k);
        lemma_multiset_commutative(ks0.flat_map(f), f(k));
        let p = |v: LogEntryView| ks0.contains(tier_key(t, v));
        let q = |v: LogEntryView| tier_key(t, v) == k;
        let pq = |v: LogEntryView| ks.contains(tier_key(t, v));
        assert(!ks0.contains(k));
        assert(forall|v: LogEntryView| #[trigger] pq(v) <==> (p(v) || q(v)));
        assert(forall|v: LogEntryView| !(#[trigger] p(v) && q(v)));
        lemma_filter_disjoint_multiset(u, p, q, pq);
        assert(ks.flat_map(f).to_multiset() =~= u.filter(pq).to_multiset());
    }
}


/// Projects a pair onto its source 1 entry.
pub open spec fn pair_f1_fn() -> spec_fn(PairView) -> LogEntryView {
    |p: PairView| p.from_file1
}

/// Projects a pair onto its source 2 entry.
pub open spec fn pair_f2_fn() -> spec_fn(PairView) -> LogEntryView {
    |p: PairView| p.from_file2
}

/// Projects a cross-source group onto its source 1 members.
pub open spec fn group_f1_fn() -> spec_fn(GroupView) -> Seq<LogEntryView> {
    |g: GroupView| g.from_file1
}

/// Projects a cross-source group onto its source 2 members.
pub open spec fn group_f2_fn() -> spec_fn(GroupView) -> Seq<LogEntryView> {
    |g: GroupView| g.from_file2
}

/// A sequence's multiset determines the multiset of its image under a map.
pub proof fn lemma_map_values_multiset<A, B>(s1: Seq<A>, s2: Seq<A>, f: spec_fn(A) -> B)
    requires
        s1.to_multiset() == s2.to_multiset(),
    ensures
        s1.map_values(f).to_multiset() == s2.map_values(f).to_multiset(),
    decreases s1.len(),
{
    broadcast use group_to_multiset_ensures;
    broadcast use vstd::multiset::group_multiset_axioms;

    if s1.len() == 0 {
        assert(s1.to_multiset().len() == s1.len());
        assert(s2.to_multiset().len() == s2.len());
        assert(s2.len() == 0);
        assert(s1.map_values(f) =~= s2.map_values(f));
    } else {
        let x = s1.last();
        let s1p = s1.drop_last();
        assert(s1 =~= s1p.push(x));
        assert(s1.to_multiset().contains(x));
        assert(s2.to_multiset().contains(x));
        assert(s2.contains(x));
        let idx = choose|idx: int| 0 <= idx < s2.len() && s2[idx] == x;
        let s2p = s2.remove(idx);
        s2.remove_ensures(idx);
        assert(s2p.to_multiset() == s2.to_multiset().remove(x));
        assert(s1p.to_multiset() =~= s2p.to_multiset()) by {
            assert(s1.to_multiset() == s1p.to_multiset().insert(x));
            assert(s1p.to_multiset().insert(x).remove(x) =~= s1p.to_multiset());
        }
        lemma_map_values_multiset(s1p, s2p, f);
        assert(s1.map_values(f) =~= s1p.map_values(f).push(f(x)));
        assert(s2p.map_values(f) =~= s2.map_values(f).remove(idx)) by {
            s2.map_values(f).remove_ensures(idx);
        }
        assert(s2.map_values(f).remove(idx).to_multiset() == s2.map_values(f).to_multiset().remove(
            f(x),
        )) by {
            assert(s2.map_values(f)[idx] == f(x));
        }
        assert(s2.map_values(f).to_multiset().contains(f(x))) by {
            assert(s2.map_values(f)[idx] == f(x));
            assert(s2.map_values(f).contains(f(x)));
        }
        assert(s1.map_values(f).to_multiset() =~= s2.map_values(f).to_multiset()) by {
            assert(s1.map_values(f).to_multiset() == s1p.map_values(f).to_multiset().insert(f(x)));
            assert(s2.map_values(f).to_multiset().remove(f(x)).insert(f(x)) =~= s2.map_values(
                f,
            ).to_multiset());
        }
    }
}

/// Splitting a sequence by a predicate splits the multiset of its flat map.
pub proof fn lemma_flat_map_split<A, B>(
    s: Seq<A>,
    f: spec_fn(A) -> Seq<B>,
    p: spec_fn(A) -> bool,
    q: spec_fn(A) -> bool,
)
    requires
        forall|x: A| #[trigger] q(x) <==> !p(x),
    ensures
        s.flat_map(f).to_multiset() == s.filter(p).flat_map(f).to_multiset().add(
            s.filter(q).flat_map(f).to_multiset(),
        ),
    decreases s.len(),
{
    broadcast use group_to_multiset_ensures;
    broadcast use vstd::multiset::group_multiset_axioms;

    reveal(Seq::filter);
    if s.len() == 0 {
        assert(s.flat_map(f) =~= Seq::<B>::empty());
        assert(s.filter(p) =~= Seq::<A>::empty());
        assert(s.filter(q) =~= Seq::<A>::empty());
        assert(Seq::<A>::empty().flat_map(f) =~= Seq::<B>::empty());
        assert(s.flat_map(f).to_multiset() =~= s.filter(p).flat_map(f).to_multiset().add(
            s.filter(q).flat_map(f).to_multiset(),
        ));
    } else {
        let s0 = s.drop_last();
        let x = s.last();
        lemma_flat_map_split(s0, f, p, q);
        assert(s =~= s0.push(x));
        s0.lemma_flat_map_push(f, x);
        lemma_multiset_commutative(s0.flat_map(f), f(x));
        Seq::lemma_filter_push(s0, x, p);
        Seq::lemma_filter_push(s0, x, q);
        if p(x) {
            s0.filter(p).lemma_flat_map_push(f, x);
            lemma_multiset_commutative(s0.filter(p).flat_map(f), f(x));
        } else {
            s0.filter(q).lemma_flat_map_push(f, x);
            lemma_multiset_commutative(s0.filter(q).flat_map(f), f(x));
        }
        assert(s.flat_map(f).to_multiset() =~= s.filter(p).flat_map(f).to_multiset().add(
            s.filter(q).flat_map(f).to_multiset(),
        ));
    }
}

/// A flat map whose pieces are all singletons is a plain map.
pub proof fn lemma_flat_map_singletons<A, B>(s: Seq<A>, f: spec_fn(A) -> Seq<B>, g: spec_fn(A) -> B)
    requires
        forall|i: int| 0 <= i < s.len() ==> #[trigger] f(s[i]) == seq![g(s[i])],
    ensures
        s.flat_map(f) == s.map_values(g),
    decreases s.len(),
{
    broadcast use group_seq_properties;

    if s.len() == 0 {
        assert(s.flat_map(f) =~= Seq::<B>::empty());
        assert(s.flat_map(f) =~= s.map_values(g));
    } else {
        let s0 = s.drop_last();
        let x = s.last();
        assert(s =~= s0.push(x));
        assert(forall|i: int| 0 <= i < s0.len() ==> s0[i] == #[trigger] s[i]);
        lemma_flat_map_singletons(s0, f, g);
        s0.lemma_flat_map_push(f, x);
        assert(f(x) == seq![g(x)]);
        assert(s.flat_map(f) =~= s.map_values(g));
    }
}

/// The total length of a list of member lists.
pub open spec fn seq_len_total(gs: Seq<Seq<LogEntryView>>) -> int
    decreases gs.len(),
{
    if gs.len() == 0 {
        0
    } else {
        seq_len_total(gs.drop_last()) + gs.last().len()
    }
}

/// The total member count of a list of cross-source groups.
pub open spec fn group_len_total(gs: Seq<GroupView>) -> int
    decreases gs.len(),
{
    if gs.len() == 0 {
        0
    } else {
        group_len_total(gs.drop_last()) + gs.last().from_file1.len() + gs.last().from_file2.len()
    }
}

/// Flattening a list of member lists yields exactly their total length.
pub proof fn lemma_flatten_len(gs: Seq<Seq<LogEntryView>>)
    ensures
        gs.flatten().len() == seq_len_total(gs),
        seq_len_total(gs) >= 0,
    decreases gs.len(),
{
    if gs.len() == 0 {
    } else {
        let g0 = gs.drop_last();
        lemma_flatten_len(g0);
        assert(gs =~= g0.push(gs.last()));
        g0.lemma_flatten_push(gs.last());
    }
}

/// Two duplicate-free sequences with the same elements carry the same
/// multiset.
pub proof fn lemma_distinct_same_elements_multiset<A>(s1: Seq<A>, s2: Seq<A>)
    requires
        s1.no_duplicates(),
        s2.no_duplicates(),
        forall|x: A| s1.contains(x) <==> s2.contains(x),
    ensures
        s1.to_multiset() == s2.to_multiset(),
{
    broadcast use group_to_multiset_ensures;
    broadcast use vstd::multiset::group_multiset_axioms;

    s1.lemma_multiset_has_no_duplicates();
    s2.lemma_multiset_has_no_duplicates();
    assert forall|x: A| s1.to_multiset().count(x) == s2.to_multiset().count(x) by {
        if s1.contains(x) {
            assert(s1.to_multiset().count(x) == 1 && s2.to_multiset().count(x) == 1);
        } else {
            assert(!s2.contains(x));
            assert(s1.to_multiset().count(x) == 0 && s2.to_multiset().count(x) == 0);
        }
    }
    assert(s1.to_multiset() =~= s2.to_multiset());
}

/// A filter of a duplicate-free sequence is duplicate-free.
pub proof fn lemma_filter_no_duplicates<A>(s: Seq<A>, p: spec_fn(A) -> bool)
    requires
        s.no_duplicates(),
    ensures
        s.filter(p).no_duplicates(),
    decreases s.len(),
{
    broadcast use group_seq_properties;

    reveal(Seq::filter);
    if s.len() > 0 {
        let s0 = s.drop_last();
        assert(s0.no_duplicates());
        lemma_filter_no_duplicates(s0, p);
        if p(s.last()) {
            assert(!s0.contains(s.last()));
            assert forall|x: A| s0.filter(p).contains(x) implies s0.contains(x) by {
                let i = choose|i: int| 0 <= i < s0.filter(p).len() && s0.filter(p)[i] == x;
                s0.lemma_filter_contains_rev(p, x);
            }
            assert(!s0.filter(p).contains(s.last()));
        }
    }
}


/// A list's multiset determines the multiset of its flattening.
pub proof fn lemma_flatten_multiset<B>(xs: Seq<Seq<B>>, ys: Seq<Seq<B>>)
    requires
        xs.to_multiset() == ys.to_multiset(),
    ensures
        xs.flatten().to_multiset() == ys.flatten().to_multiset(),
    decreases xs.len(),
{
    broadcast use group_to_multiset_ensures;
    broadcast use vstd::multiset::group_multiset_axioms;

    if xs.len() == 0 {
        assert(xs.to_multiset().len() == xs.len());
        assert(ys.to_multiset().len() == ys.len());
        assert(ys.len() == 0);
        assert(xs.flatten() =~= ys.flatten());
    } else {
        let x = xs.last();
        let xsp = xs.drop_last();
        assert(xs =~= xsp.push(x));
        assert(xs.to_multiset().contains(x));
        assert(ys.to_multiset().contains(x));
        assert(ys.contains(x));
        let idx = choose|idx: int| 0 <= idx < ys.len() && ys[idx] == x;
        let ysp = ys.remove(idx);
        ys.remove_ensures(idx);
        assert(ysp.to_multiset() == ys.to_multiset().remove(x));
        assert(xsp.to_multiset() =~= ysp.to_multiset()) by {
            assert(xs.to_multiset() == xsp.to_multiset().insert(x));
            assert(xsp.to_multiset().insert(x).remove(x) =~= xsp.to_multiset());
        }
        lemma_flatten_multiset(xsp, ysp);
        xsp.lemma_flatten_push(x);
        lemma_multiset_commutative(xsp.flatten(), x);
        // flatten of ys splits around index idx
        let a = ys.take(idx);
        let b = ys.skip(idx + 1);
        assert(ys =~= a + (seq![x] + b));
        lemma_flatten_concat(a, seq![x] + b);
        lemma_flatten_concat(seq![x], b);
        assert((seq![x] + b).flatten() == seq![x].flatten() + b.flatten());
        seq![x].lemma_flatten_one_element();
        assert(seq![x].flatten() == x);
        assert(ysp =~= a + b);
        lemma_flatten_concat(a, b);
        lemma_multiset_commutative(a.flatten(), b.flatten());
        lemma_multiset_commutative(a.flatten(), x + b.flatten());
        lemma_multiset_commutative(x, b.flatten());
        assert(ys.flatten().to_multiset() =~= ysp.flatten().to_multiset().add(x.to_multiset()));
        assert(xs.flatten().to_multiset() =~= ys.flatten().to_multiset());
    }
}

/// Every entry of source 1 lands in exactly one source-1-holding bucket of a
/// tier: the pairs' source 1 sides, the source 1 single-source groups, the
/// cross-source groups' source 1 sides, and the source 1 unmatched list
/// together hold exactly the entries of source 1.
pub proof fn lemma_tier_members1(u1: Seq<LogEntryView>, u2: Seq<LogEntryView>, t: MatchTier)
    ensures
        u1.to_multiset() == tier_pairs(u1, u2, t).map_values(pair_f1_fn()).to_multiset().add(
            tier_solo1(u1, u2, t).flatten().to_multiset(),
        ).add(tier_cross(u1, u2, t).map_values(group_f1_fn()).flatten().to_multiset()).add(
            tier_unmatched1(u1, u2, t).to_multiset(),
        ),
{
    broadcast use group_to_multiset_ensures;
    broadcast use vstd::multiset::group_multiset_axioms;
    broadcast use group_seq_properties;

    let ks = keys_in_order(u1, t);
    let f = mk_solo1_fn(u1, t);
    lemma_first_occurrences_distinct(keys_of(u1, t));
    lemma_key_cover_multiset(u1, t, ks);
    let coverp = |v: LogEntryView| ks.contains(tier_key(t, v));
    assert forall|i: int| 0 <= i < u1.len() implies #[trigger] coverp(u1[i]) by {
        assert(keys_of(u1, t)[i] == tier_key(t, u1[i]));
        assert(keys_of(u1, t).contains(tier_key(t, u1[i])));
        lemma_first_occurrences_contains(keys_of(u1, t), tier_key(t, u1[i]));
    }
    lemma_filter_all(u1, coverp);
    assert(ks.flat_map(f).to_multiset() == u1.to_multiset());

    assert forall|k: Seq<char>| #[trigger] ks.contains(k) implies key_count(u1, t, k) >= 1 by {
        lemma_first_occurrences_contains(keys_of(u1, t), k);
        lemma_with_key_nonempty(u1, t, k);
    }

    let pairp = pair_key_pred(u1, u2, t);
    let solop = solo1_key_pred(u1, u2, t);
    let crossp = cross_key_pred(u1, u2, t);
    let lonep = lone1_key_pred(u1, u2, t);
    let npair = |k: Seq<char>| !pair_key(u1, u2, t, k);
    let nsolo = |k: Seq<char>| !solo1_key(u1, u2, t, k);
    let ncross = |k: Seq<char>| !cross_key(u1, u2, t, k);
    let comb1 = |k: Seq<char>| !pair_key(u1, u2, t, k) && !solo1_key(u1, u2, t, k);
    let comb2 = |k: Seq<char>|
        !pair_key(u1, u2, t, k) && !solo1_key(u1, u2, t, k) && !cross_key(u1, u2, t, k);

    lemma_flat_map_split(ks, f, pairp, npair);
    let r1 = ks.filter(npair);
    lemma_flat_map_split(r1, f, solop, nsolo);
    lemma_filter_compose(ks, npair, solop, solop);
    let r2 = r1.filter(nsolo);
    lemma_filter_compose(ks, npair, nsolo, comb1);
    assert(r2 == ks.filter(comb1));
    lemma_flat_map_split(r2, f, crossp, ncross);
    lemma_filter_compose(ks, comb1, crossp, crossp);
    assert(r2.filter(crossp) == ks.filter(crossp));
    lemma_filter_compose(ks, comb1, ncross, comb2);
    assert(r2.filter(ncross) == ks.filter(comb2));
    assert(ks.filter(comb2) == ks.filter(lonep)) by {
        assert forall|i: int| 0 <= i < ks.len() implies (#[trigger] comb2(ks[i]) <==> lonep(
            ks[i],
        )) by {
            assert(ks.contains(ks[i]));
            assert(key_count(u1, t, ks[i]) >= 1);
        }
        lemma_filter_agree(ks, comb2, lonep);
    }

    // pair keys resolve to singleton member lists
    assert forall|i: int| 0 <= i < ks.filter(pairp).len() implies #[trigger] f(
        ks.filter(pairp)[i],
    ) == seq![mk_lone_fn(u1, t)(ks.filter(pairp)[i])] by {
        ks.lemma_filter_pred(pairp, i);
        let k = ks.filter(pairp)[i];
        assert(with_key(u1, t, k).len() == 1);
        assert(with_key(u1, t, k) =~= seq![with_key(u1, t, k)[0]]);
    }
    lemma_flat_map_singletons(ks.filter(pairp), f, mk_lone_fn(u1, t));
    assert(tier_pairs(u1, u2, t).map_values(pair_f1_fn()) =~= ks.filter(pairp).map_values(
        mk_lone_fn(u1, t),
    ));

    // lone keys resolve to singleton member lists
    assert forall|i: int| 0 <= i < ks.filter(lonep).len() implies #[trigger] f(
        ks.filter(lonep)[i],
    ) == seq![mk_lone_fn(u1, t)(ks.filter(lonep)[i])] by {
        ks.lemma_filter_pred(lonep, i);
        let k = ks.filter(lonep)[i];
        assert(with_key(u1, t, k).len() == 1);
        assert(with_key(u1, t, k) =~= seq![with_key(u1, t, k)[0]]);
    }
    lemma_flat_map_singletons(ks.filter(lonep), f, mk_lone_fn(u1, t));
    assert(tier_unmatched1(u1, u2, t) == ks.filter(lonep).map_values(mk_lone_fn(u1, t)));

    // the single-source groups are exactly the flat map over their keys
    assert(tier_solo1(u1, u2, t).flatten() == ks.filter(solop).flat_map(f));

    // the cross groups' source 1 sides are the flat map over their keys
    assert(tier_cross(u1, u2, t).map_values(group_f1_fn()) =~= ks.filter(crossp).map_values(f));
    assert(tier_cross(u1, u2, t).map_values(group_f1_fn()).flatten() == ks.filter(
        crossp,
    ).flat_map(f));

    assert(u1.to_multiset() =~= tier_pairs(u1, u2, t).map_values(pair_f1_fn()).to_multiset().add(
        tier_solo1(u1, u2, t).flatten().to_multiset(),
    ).add(tier_cross(u1, u2, t).map_values(group_f1_fn()).flatten().to_multiset()).add(
        tier_unmatched1(u1, u2, t).to_multiset(),
    ));
}

/// The source 2 counterpart of `lemma_tier_members1`.
pub proof fn lemma_tier_members2(u1: Seq<LogEntryView>, u2: Seq<LogEntryView>, t: MatchTier)
    ensures
        u2.to_multiset() == tier_pairs(u1, u2, t).map_values(pair_f2_fn()).to_multiset().add(
            tier_solo2(u1, u2, t).flatten().to_multiset(),
        ).add(tier_cross(u1, u2, t).map_values(group_f2_fn()).flatten().to_multiset()).add(
            tier_unmatched2(u1, u2, t).to_multiset(),
        ),
{
    broadcast use group_to_multiset_ensures;
    broadcast use vstd::multiset::group_multiset_axioms;
    broadcast use group_seq_properties;

    let ks1 = keys_in_order(u1, t);
    let ks = keys_in_order(u2, t);
    let f = mk_solo1_fn(u2, t);
    lemma_first_occurrences_distinct(keys_of(u1, t));
    lemma_first_occurrences_distinct(keys_of(u2, t));
    assert(ks1.no_duplicates());
    assert(ks.no_duplicates());
    lemma_key_cover_multiset(u2, t, ks);
    let coverp = |v: LogEntryView| ks.contains(tier_key(t, v));
    assert forall|i: int| 0 <= i < u2.len() implies #[trigger] coverp(u2[i]) by {
        assert(keys_of(u2, t)[i] == tier_key(t, u2[i]));
        assert(keys_of(u2, t).contains(tier_key(t, u2[i])));
        lemma_first_occurrences_contains(keys_of(u2, t), tier_key(t, u2[i]));
    }
    lemma_filter_all(u2, coverp);
    assert(ks.flat_map(f).to_multiset() == u2.to_multiset());

    assert forall|k: Seq<char>| #[trigger] ks.contains(k) implies key_count(u2, t, k) >= 1 by {
        lemma_first_occurrences_contains(keys_of(u2, t), k);
        lemma_with_key_nonempty(u2, t, k);
    }
    assert forall|k: Seq<char>| #[trigger] ks1.contains(k) implies key_count(u1, t, k) >= 1 by {
        lemma_first_occurrences_contains(keys_of(u1, t), k);
        lemma_with_key_nonempty(u1, t, k);
    }
    assert forall|k: Seq<char>| key_count(u1, t, k) >= 1 implies #[trigger] ks1.contains(k) by {
        lemma_with_key_nonempty(u1, t, k);
        lemma_first_occurrences_contains(keys_of(u1, t), k);
    }
    assert forall|k: Seq<char>| key_count(u2, t, k) >= 1 implies #[trigger] ks.contains(k) by {
        lemma_with_key_nonempty(u2, t, k);
        lemma_first_occurrences_contains(keys_of(u2, t), k);
    }

    let pairp = pair_key_pred(u1, u2, t);
    let solop = solo2_key_pred(u1, u2, t);
    let crossp = cross_key_pred(u1, u2, t);
    let lonep = lone2_key_pred(u1, u2, t);
    let npair = |k: Seq<char>| !pair_key(u1, u2, t, k);
    let nsolo = |k: Seq<char>| !solo2_key(u1, u2, t, k);
    let ncross = |k: Seq<char>| !cross_key(u1, u2, t, k);
    let comb1 = |k: Seq<char>| !pair_key(u1, u2, t, k) && !solo2_key(u1, u2, t, k);
    let comb2 = |k: Seq<char>|
        !pair_key(u1, u2, t, k) && !solo2_key(u1, u2, t, k) && !cross_key(u1, u2, t, k);

    lemma_flat_map_split(ks, f, pairp, npair);
    let r1 = ks.filter(npair);
    lemma_flat_map_split(r1, f, solop, nsolo);
    lemma_filter_compose(ks, npair, solop, solop);
    let r2 = r1.filter(nsolo);
    lemma_filter_compose(ks, npair, nsolo, comb1);
    assert(r2 == ks.filter(comb1));
    lemma_flat_map_split(r2, f, crossp, ncross);
    lemma_filter_compose(ks, comb1, crossp, crossp);
    assert(r2.filter(crossp) == ks.filter(crossp));
    lemma_filter_compose(ks, comb1, ncross, comb2);
    assert(r2.filter(ncross) == ks.filter(comb2));
    assert(ks.filter(comb2) == ks.filter(lonep)) by {
        assert forall|i: int| 0 <= i < ks.len() implies (#[trigger] comb2(ks[i]) <==> lonep(
            ks[i],
        )) by {
            assert(ks.contains(ks[i]));
            assert(key_count(u2, t, ks[i]) >= 1);
        }
        lemma_filter_agree(ks, comb2, lonep);
    }

    // pair keys resolve to singleton member lists of source 2
    assert forall|i: int| 0 <= i < ks.filter(pairp).len() implies #[trigger] f(
        ks.filter(pairp)[i],
    ) == seq![mk_lone_fn(u2, t)(ks.filter(pairp)[i])] by {
        ks.lemma_filter_pred(pairp, i);
        let k = ks.filter(pairp)[i];
        assert(with_key(u2, t, k).len() == 1);
        assert(with_key(u2, t, k) =~= seq![with_key(u2, t, k)[0]]);
    }
    lemma_flat_map_singletons(ks.filter(pairp), f, mk_lone_fn(u2, t));

    // the pair and cross keys enumerated from source 1 and source 2 agree as
    // multisets: both list exactly the keys of that kind, once
    lemma_filter_no_duplicates(ks1, pairp);
    lemma_filter_no_duplicates(ks, pairp);
    assert forall|x: Seq<char>|
        ks1.filter(pairp).contains(x) <==> ks.filter(pairp).contains(x) by {
        if ks1.filter(pairp).contains(x) {
            ks1.lemma_filter_contains_rev(pairp, x);
            assert(pairp(x));
            assert(key_count(u2, t, x) >= 1);
            assert(ks.contains(x));
            let i = choose|i: int| 0 <= i < ks.len() && ks[i] == x;
            ks.lemma_filter_contains(pairp, i);
        }
        if ks.filter(pairp).contains(x) {
            ks.lemma_filter_contains_rev(pairp, x);
            assert(pairp(x));
            assert(key_count(u1, t, x) >= 1);
            assert(ks1.contains(x));
            let i = choose|i: int| 0 <= i < ks1.len() && ks1[i] == x;
            ks1.lemma_filter_contains(pairp, i);
        }
    }
    lemma_distinct_same_elements_multiset(ks1.filter(pairp), ks.filter(pairp));
    lemma_map_values_multiset(ks1.filter(pairp), ks.filter(pairp), mk_lone_fn(u2, t));
    assert(tier_pairs(u1, u2, t).map_values(pair_f2_fn()) =~= ks1.filter(pairp).map_values(
        mk_lone_fn(u2, t),
    ));

    lemma_filter_no_duplicates(ks1, crossp);
    lemma_filter_no_duplicates(ks, crossp);
    assert forall|x: Seq<char>|
        ks1.filter(crossp).contains(x) <==> ks.filter(crossp).contains(x) by {
        if ks1.filter(crossp).contains(x) {
            ks1.lemma_filter_contains_rev(crossp, x);
            assert(crossp(x));
            assert(key_count(u2, t, x) >= 1);
            assert(ks.contains(x));
            let i = choose|i: int| 0 <= i < ks.len() && ks[i] == x;
            ks.lemma_filter_contains(crossp, i);
        }
        if ks.filter(crossp).contains(x) {
            ks.lemma_filter_contains_rev(crossp, x);
            assert(crossp(x));
            assert(key_count(u1, t, x) >= 1);
            assert(ks1.contains(x));
            let i = choose|i: int| 0 <= i < ks1.len() && ks1[i] == x;
            ks1.lemma_filter_contains(crossp, i);
        }
    }
    lemma_distinct_same_elements_multiset(ks1.filter(crossp), ks.filter(crossp));
    lemma_map_values_multiset(ks1.filter(crossp), ks.filter(crossp), f);
    lemma_flatten_multiset(
        ks1.filter(crossp).map_values(f),
        ks.filter(crossp).map_values(f),
    );
    assert(tier_cross(u1, u2, t).map_values(group_f2_fn()) =~= ks1.filter(crossp).map_values(f));

    // lone keys resolve to singleton member lists
    assert forall|i: int| 0 <= i < ks.filter(lonep).len() implies #[trigger] f(
        ks.filter(lonep)[i],
    ) == seq![mk_lone_fn(u2, t)(ks.filter(lonep)[i])] by {
        ks.lemma_filter_pred(lonep, i);
        let k = ks.filter(lonep)[i];
        assert(with_key(u2, t, k).len() == 1);
        assert(with_key(u2, t, k) =~= seq![with_key(u2, t, k)[0]]);
    }
    lemma_flat_map_singletons(ks.filter(lonep), f, mk_lone_fn(u2, t));
    assert(tier_unmatched2(u1, u2, t) == ks.filter(lonep).map_values(mk_lone_fn(u2, t)));

    assert(tier_solo2(u1, u2, t).flatten() == ks.filter(solop).flat_map(f));

    assert(u2.to_multiset() =~= tier_pairs(u1, u2, t).map_values(pair_f2_fn()).to_multiset().add(
        tier_solo2(u1, u2, t).flatten().to_multiset(),
    ).add(tier_cross(u1, u2, t).map_values(group_f2_fn()).flatten().to_multiset()).add(
        tier_unmatched2(u1, u2, t).to_multiset(),
    ));
}


/// A sequence's multiset determines the multiset of any filter of it.
pub proof fn lemma_filter_multiset<A>(s1: Seq<A>, s2: Seq<A>, p: spec_fn(A) -> bool)
    requires
        s1.to_multiset() == s2.to_multiset(),
    ensures
        s1.filter(p).to_multiset() == s2.filter(p).to_multiset(),
    decreases s1.len(),
{
    broadcast use group_to_multiset_ensures;
    broadcast use vstd::multiset::group_multiset_axioms;

    reveal(Seq::filter);
    if s1.len() == 0 {
        assert(s1.to_multiset().len() == s1.len());
        assert(s2.to_multiset().len() == s2.len());
        assert(s2.len() == 0);
        assert(s1.filter(p) =~= s2.filter(p));
    } else {
        let x = s1.last();
        let s1p = s1.drop_last();
        assert(s1 =~= s1p.push(x));
        assert(s1.to_multiset().contains(x));
        assert(s2.to_multiset().contains(x));
        assert(s2.contains(x));
        let idx = choose|idx: int| 0 <= idx < s2.len() && s2[idx] == x;
        let s2p = s2.remove(idx);
        s2.remove_ensures(idx);
        assert(s2p.to_multiset() == s2.to_multiset().remove(x));
        assert(s1p.to_multiset() =~= s2p.to_multiset()) by {
            assert(s1.to_multiset() == s1p.to_multiset().insert(x));
            assert(s1p.to_multiset().insert(x).remove(x) =~= s1p.to_multiset());
        }
        lemma_filter_multiset(s1p, s2p, p);
        Seq::lemma_filter_push(s1p, x, p);
        // split s2 around idx to relate its filter to the filter of s2p
        let a = s2.take(idx);
        let b = s2.skip(idx + 1);
        assert(s2 =~= a + (seq![x] + b));
        Seq::filter_distributes_over_add(a, seq![x] + b, p);
        Seq::filter_distributes_over_add(seq![x], b, p);
        assert(seq![x].drop_last() =~= Seq::<A>::empty());
        assert(seq![x].filter(p) == if p(x) { seq![x] } else { Seq::<A>::empty() }) by {
            assert(Seq::<A>::empty().filter(p) =~= Seq::<A>::empty());
            if p(x) {
                assert(seq![x].filter(p) =~= seq![x]);
            } else {
                assert(seq![x].filter(p) =~= Seq::<A>::empty());
            }
        }
        assert(s2p =~= a + b);
        Seq::filter_distributes_over_add(a, b, p);
        lemma_multiset_commutative(a.filter(p), b.filter(p));
        lemma_multiset_commutative(a.filter(p), seq![x].filter(p) + b.filter(p));
        lemma_multiset_commutative(seq![x].filter(p), b.filter(p));
        if p(x) {
            assert(seq![x].to_multiset() =~= Multiset::<A>::empty().insert(x));
            assert(s2.filter(p).to_multiset() =~= s2p.filter(p).to_multiset().insert(x));
            assert(s1.filter(p).to_multiset() =~= s2.filter(p).to_multiset());
        } else {
            assert(s2.filter(p).to_multiset() =~= s2p.filter(p).to_multiset());
            assert(s1.filter(p).to_multiset() =~= s2.filter(p).to_multiset());
        }
    }
}

/// Multiset-equal singleton sequences are equal.
pub proof fn lemma_singleton_multiset<A>(s1: Seq<A>, s2: Seq<A>)
    requires
        s1.to_multiset() == s2.to_multiset(),
        s1.len() == 1,
    ensures
        s2.len() == 1,
        s1[0] == s2[0],
        s1 == s2,
{
    broadcast use group_to_multiset_ensures;
    broadcast use vstd::multiset::group_multiset_axioms;

    assert(s1.to_multiset().len() == s1.len());
    assert(s2.to_multiset().len() == s2.len());
    assert(s1 =~= Seq::<A>::empty().push(s1[0]));
    assert(s2 =~= Seq::<A>::empty().push(s2[0]));
    assert(s1.to_multiset().contains(s1[0]));
    assert(s2.to_multiset().contains(s2[0]));
    assert(s2.contains(s1[0]));
    assert(s1[0] == s2[0]);
    assert(s1 =~= s2);
}

} // verus!
