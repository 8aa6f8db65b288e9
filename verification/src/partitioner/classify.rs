//! The per-tier classifier: groups the entries of two logs by match key and
//! resolves every key's bucket into a pair, a group, or an unmatched entry.

use vstd::prelude::*;
use vstd::seq_lib::*;
use crate::log_entry::{entry_views, LogEntry, LogEntryView};
use crate::some_vec::SomeVec;
use super::match_pair::{MatchPair, PairView};
use super::match_group::{GroupView, MatchGroup, SingleFileMatchGroup};
use super::model::{
    MatchTier, TierView, cross_key, cross_key_pred, distinct_seq, first_occurrences,
    key_count, keys_in_order, keys_of, lemma_filter_compose, lemma_first_occurrences_concat,
    lemma_first_occurrences_contains, lemma_first_occurrences_distinct,
    lemma_first_occurrences_push, lemma_with_key_nonempty, lone1_key, lone1_key_pred, lone2_key,
    lone2_key_pred, mk_cross_fn, mk_lone_fn, mk_pair_fn, mk_solo1_fn, pair_key, pair_key_pred,
    solo1_key, solo1_key_pred, solo2_key, solo2_key_pred, tier_key, tier_view, with_key,
};

verus! {

/// What one tier of classification produces: resolved pairs and groups, plus
/// the entries that found no counterpart at this tier.
#[derive(Debug, PartialEq)]
pub struct TierResult {
    pub pairs: Vec<MatchPair>,
    pub cross_groups: Vec<MatchGroup>,
    pub solo_groups1: Vec<SingleFileMatchGroup>,
    pub solo_groups2: Vec<SingleFileMatchGroup>,
    pub unmatched1: Vec<LogEntry>,
    pub unmatched2: Vec<LogEntry>,
}

/// The views of a sequence of match pairs.
pub open spec fn pair_views(s: Seq<MatchPair>) -> Seq<PairView> {
    s.map_values(|p: MatchPair| p@)
}

/// The views of a sequence of cross-source groups.
pub open spec fn cross_views(s: Seq<MatchGroup>) -> Seq<GroupView> {
    s.map_values(|g: MatchGroup| g@)
}

/// The views of a sequence of single-source groups.
pub open spec fn solo_views(s: Seq<SingleFileMatchGroup>) -> Seq<Seq<LogEntryView>> {
    s.map_values(|g: SingleFileMatchGroup| g@)
}

impl View for TierResult {
    type V = TierView;

    open spec fn view(&self) -> TierView {
        TierView {
            pairs: pair_views(self.pairs@),
            cross_groups: cross_views(self.cross_groups@),
            solo_groups1: solo_views(self.solo_groups1@),
            solo_groups2: solo_views(self.solo_groups2@),
            unmatched1: entry_views(self.unmatched1@),
            unmatched2: entry_views(self.unmatched2@),
        }
    }
}

/// One key's bucket while grouping: the entries of each source carrying the
/// key, in source order.
struct Bucket {
    key: String,
    from1: Vec<LogEntry>,
    from2: Vec<LogEntry>,
}

spec fn bucket_keys(bs: Seq<Bucket>) -> Seq<Seq<char>> {
    bs.map_values(|b: Bucket| b.key@)
}

/// The bucket table faithfully groups the processed prefixes `p1` and `p2`:
/// one bucket per distinct key in first-occurrence order, holding exactly the
/// entries with that key.
spec fn buckets_wf(bs: Seq<Bucket>, p1: Seq<LogEntryView>, p2: Seq<LogEntryView>, t: MatchTier) -> bool {
    &&& bucket_keys(bs) == first_occurrences(keys_of(p1, t) + keys_of(p2, t))
    &&& forall|i: int|
        0 <= i < bs.len() ==> entry_views(#[trigger] bs[i].from1@) == with_key(p1, t, bs[i].key@)
    &&& forall|i: int|
        0 <= i < bs.len() ==> entry_views(#[trigger] bs[i].from2@) == with_key(p2, t, bs[i].key@)
}

/// The match key of an entry under a tier, as text.
fn tier_key_exec(t: MatchTier, e: &LogEntry) -> (k: String)
    ensures
        k@ == tier_key(t, e@),
{
    match t {
        MatchTier::Full => e.to_string(),
        MatchTier::Name => e.filename.clone(),
        MatchTier::Hashes => e.hashes.clone(),
    }
}

/// Finds the bucket holding key `k`, if any.
#[verifier::loop_isolation(false)]
fn find_bucket(buckets: &Vec<Bucket>, k: &String) -> (r: Option<usize>)
    ensures
        match r {
            Some(i) => i < buckets@.len() && buckets@[i as int].key@ == k@,
            None => forall|i: int| 0 <= i < buckets@.len() ==> buckets@[i as int].key@ != k@,
        },
{
    let mut i: usize = 0;
    while i < buckets.len()
        invariant
            i <= buckets@.len(),
            forall|j: int| 0 <= j < i ==> buckets@[j].key@ != k@,
        decreases buckets@.len() - i,
    {
        if buckets[i].key == *k {
            return Some(i);
        }
        i = i + 1;
    }
    None
}

/// Copies a list of entries.
#[verifier::loop_isolation(false)]
fn clone_entries(v: &Vec<LogEntry>) -> (r: Vec<LogEntry>)
    ensures
        r@ == v@,
{
    let mut r: Vec<LogEntry> = Vec::new();
    let mut i: usize = 0;
    while i < v.len()
        invariant
            i <= v@.len(),
            r@ == v@.take(i as int),
        decreases v@.len() - i,
    {
        r.push(v[i].clone());
        proof {
            assert(v@.take(i + 1) =~= v@.take(i as int).push(v@[i as int]));
        }
        i = i + 1;
    }
    proof {
        assert(v@.take(v@.len() as int) =~= v@);
    }
    r
}

/// Files `e` under its key among the buckets of source `side1` (source 1 when
/// true, source 2 when false). While source 1 is being filed, no source 2
/// entry has been processed yet.
#[verifier::loop_isolation(false)]
fn bucket_insert(
    buckets: &mut Vec<Bucket>,
    e: LogEntry,
    t: MatchTier,
    side1: bool,
    Ghost(p1): Ghost<Seq<LogEntryView>>,
    Ghost(p2): Ghost<Seq<LogEntryView>>,
)
    requires
        buckets_wf(old(buckets)@, p1, p2, t),
        side1 ==> p2 == Seq::<LogEntryView>::empty(),
    ensures
        side1 ==> buckets_wf(final(buckets)@, p1.push(e@), p2, t),
        !side1 ==> buckets_wf(final(buckets)@, p1, p2.push(e@), t),
{
    let ghost k1s = keys_of(p1, t);
    let ghost k2s = keys_of(p2, t);
    let ghost key = tier_key(t, e@);
    let ghost all_pre = k1s + k2s;
    let ghost all_post = if side1 { keys_of(p1.push(e@), t) + k2s } else {
        k1s + keys_of(p2.push(e@), t)
    };
    proof {
        if side1 {
            assert(keys_of(p1.push(e@), t) =~= k1s.push(key));
            assert(k2s =~= Seq::<Seq<char>>::empty());
            assert(all_post =~= all_pre.push(key));
        } else {
            assert(keys_of(p2.push(e@), t) =~= k2s.push(key));
            assert(all_post =~= all_pre.push(key));
        }
        lemma_first_occurrences_push(all_pre, key);
        lemma_first_occurrences_distinct(all_pre);
        lemma_first_occurrences_contains(all_pre, key);
    }
    let k = tier_key_exec(t, &e);
    match find_bucket(buckets, &k) {
        Some(bi) => {
            proof {
                assert(first_occurrences(all_pre).contains(key)) by {
                    assert(bucket_keys(buckets@)[bi as int] == key);
                }
                assert(first_occurrences(all_post) == first_occurrences(all_pre));
            }
            let ghost pre = buckets@;
            let mut b = buckets.remove(bi);
            if side1 {
                b.from1.push(e);
            } else {
                b.from2.push(e);
            }
            let ghost bsnap = b;
            buckets.insert(bi, b);
            proof {
                let post = buckets@;
                pre.remove_ensures(bi as int);
                pre.remove(bi as int).insert_ensures(bi as int, bsnap);
                assert(post =~= pre.update(bi as int, bsnap));
                assert(bsnap.key@ == key);
                assert(bucket_keys(post) =~= bucket_keys(pre));
                let pfull = if side1 { p1.push(e@) } else { p1 };
                let qfull = if side1 { p2 } else { p2.push(e@) };
                assert forall|i: int| 0 <= i < post.len() implies entry_views(
                    #[trigger] post[i].from1@,
                ) == with_key(pfull, t, post[i].key@) by {
                    let ki = post[i].key@;
                    if side1 {
                        Seq::lemma_filter_push(p1, e@, |v: LogEntryView| tier_key(t, v) == ki);
                        if i == bi {
                            assert(ki == key);
                            assert(post[i].from1@ == pre[i].from1@.push(e));
                            assert(entry_views(post[i].from1@) =~= entry_views(
                                pre[i].from1@,
                            ).push(e@));
                            assert(with_key(pfull, t, ki) == with_key(p1, t, ki).push(e@));
                        } else {
                            assert(post[i].from1@ == pre[i].from1@);
                            assert(bucket_keys(pre)[i] == ki && bucket_keys(pre)[bi as int]
                                == key);
                            assert(ki != key);
                            assert(with_key(pfull, t, ki) == with_key(p1, t, ki));
                        }
                    } else {
                        assert(post[i].from1@ == pre[i].from1@);
                    }
                }
                assert forall|i: int| 0 <= i < post.len() implies entry_views(
                    #[trigger] post[i].from2@,
                ) == with_key(qfull, t, post[i].key@) by {
                    let ki = post[i].key@;
                    if !side1 {
                        Seq::lemma_filter_push(p2, e@, |v: LogEntryView| tier_key(t, v) == ki);
                        if i == bi {
                            assert(ki == key);
                            assert(post[i].from2@ == pre[i].from2@.push(e));
                            assert(entry_views(post[i].from2@) =~= entry_views(
                                pre[i].from2@,
                            ).push(e@));
                            assert(with_key(qfull, t, ki) == with_key(p2, t, ki).push(e@));
                        } else {
                            assert(post[i].from2@ == pre[i].from2@);
                            assert(bucket_keys(pre)[i] == ki && bucket_keys(pre)[bi as int]
                                == key);
                            assert(ki != key);
                            assert(with_key(qfull, t, ki) == with_key(p2, t, ki));
                        }
                    } else {
                        assert(post[i].from2@ == pre[i].from2@);
                    }
                }
            }
        },
        None => {
            proof {
                assert forall|j: int|
                    0 <= j < first_occurrences(all_pre).len() implies first_occurrences(
                    all_pre,
                )[j] != key by {
                    assert(bucket_keys(buckets@)[j] != key);
                }
                assert(!first_occurrences(all_pre).contains(key));
                assert(first_occurrences(all_post) == first_occurrences(all_pre).push(key));
                assert(!all_pre.contains(key)) by {
                    lemma_first_occurrences_contains(all_pre, key);
                }
                assert(!k1s.contains(key) && !k2s.contains(key)) by {
                    if k1s.contains(key) {
                        let j = choose|j: int| 0 <= j < k1s.len() && k1s[j] == key;
                        assert(all_pre[j] == key);
                    }
                    if k2s.contains(key) {
                        let j = choose|j: int| 0 <= j < k2s.len() && k2s[j] == key;
                        assert(all_pre[k1s.len() + j] == key);
                    }
                }
                lemma_with_key_nonempty(p1, t, key);
                lemma_with_key_nonempty(p2, t, key);
            }
            let ghost pre = buckets@;
            let mut own: Vec<LogEntry> = Vec::new();
            own.push(e);
            let b = if side1 {
                Bucket { key: k, from1: own, from2: Vec::new() }
            } else {
                Bucket { key: k, from1: Vec::new(), from2: own }
            };
            let ghost bsnap = b;
            buckets.push(b);
            proof {
                let post = buckets@;
                assert(post =~= pre.push(bsnap));
                assert(bucket_keys(post) =~= bucket_keys(pre).push(key));
                let pfull = if side1 { p1.push(e@) } else { p1 };
                let qfull = if side1 { p2 } else { p2.push(e@) };
                assert(with_key(p1, t, key).len() == 0 && with_key(p2, t, key).len() == 0);
                assert(with_key(p1, t, key) =~= Seq::<LogEntryView>::empty());
                assert(with_key(p2, t, key) =~= Seq::<LogEntryView>::empty());
                assert forall|i: int| 0 <= i < post.len() implies entry_views(
                    #[trigger] post[i].from1@,
                ) == with_key(pfull, t, post[i].key@) by {
                    let ki = post[i].key@;
                    if side1 {
                        Seq::lemma_filter_push(p1, e@, |v: LogEntryView| tier_key(t, v) == ki);
                        if i == post.len() - 1 {
                            assert(ki == key);
                            assert(entry_views(post[i].from1@) =~= seq![e@]);
                            assert(with_key(pfull, t, key) == with_key(p1, t, key).push(e@));
                            assert(with_key(p1, t, key).push(e@) =~= seq![e@]);
                        } else {
                            assert(post[i].from1@ == pre[i].from1@);
                            assert(bucket_keys(pre)[i] == ki);
                            assert(ki != key) by {
                                if ki == key {
                                    assert(bucket_keys(buckets@)[i] == key);
                                }
                            }
                            assert(with_key(pfull, t, ki) == with_key(p1, t, ki));
                        }
                    } else {
                        if i == post.len() - 1 {
                            assert(ki == key);
                            assert(entry_views(post[i].from1@) =~= Seq::<LogEntryView>::empty());
                        } else {
                            assert(post[i].from1@ == pre[i].from1@);
                        }
                    }
                }
                assert forall|i: int| 0 <= i < post.len() implies entry_views(
                    #[trigger] post[i].from2@,
                ) == with_key(qfull, t, post[i].key@) by {
                    let ki = post[i].key@;
                    if !side1 {
                        Seq::lemma_filter_push(p2, e@, |v: LogEntryView| tier_key(t, v) == ki);
                        if i == post.len() - 1 {
                            assert(ki == key);
                            assert(entry_views(post[i].from2@) =~= seq![e@]);
                            assert(with_key(qfull, t, key) == with_key(p2, t, key).push(e@));
                            assert(with_key(p2, t, key).push(e@) =~= seq![e@]);
                        } else {
                            assert(post[i].from2@ == pre[i].from2@);
                            assert(bucket_keys(pre)[i] == ki);
                            assert(ki != key) by {
                                if ki == key {
                                    assert(bucket_keys(buckets@)[i] == key);
                                }
                            }
                            assert(with_key(qfull, t, ki) == with_key(p2, t, ki));
                        }
                    } else {
                        if i == post.len() - 1 {
                            assert(ki == key);
                            assert(entry_views(post[i].from2@) =~= Seq::<LogEntryView>::empty());
                        } else {
                            assert(post[i].from2@ == pre[i].from2@);
                        }
                    }
                }
            }
        },
    }
}

/// Groups the entries of two logs by their key under tier `t`, then resolves
/// each key's bucket: a lone entry stays unmatched, one entry from each
/// source becomes a pair, entries of a single source become a single-source
/// group, and anything else becomes a cross-source group.
#[verifier::loop_isolation(false)]
pub fn classify(from_file1: &Vec<LogEntry>, from_file2: &Vec<LogEntry>, t: MatchTier) -> (r:
    TierResult)
    ensures
        r@ == tier_view(entry_views(from_file1@), entry_views(from_file2@), t),
{
    let ghost u1 = entry_views(from_file1@);
    let ghost u2 = entry_views(from_file2@);
    let ghost k1s = keys_of(u1, t);
    let ghost k2s = keys_of(u2, t);

    let mut buckets: Vec<Bucket> = Vec::new();
    proof {
        assert(keys_of(Seq::<LogEntryView>::empty(), t) + keys_of(Seq::<LogEntryView>::empty(), t)
            =~= Seq::<Seq<char>>::empty());
        assert(bucket_keys(buckets@) =~= Seq::<Seq<char>>::empty());
        assert(buckets_wf(
            buckets@,
            Seq::<LogEntryView>::empty(),
            Seq::<LogEntryView>::empty(),
            t,
        ));
    }

    let mut i: usize = 0;
    while i < from_file1.len()
        invariant
            i <= from_file1@.len(),
            buckets_wf(buckets@, u1.take(i as int), Seq::<LogEntryView>::empty(), t),
        decreases from_file1@.len() - i,
    {
        let e = from_file1[i].clone();
        proof {
            assert(e@ == u1[i as int]);
        }
        bucket_insert(&mut buckets, e, t, true, Ghost(u1.take(i as int)), Ghost(Seq::<LogEntryView>::empty()));
        proof {
            assert(u1.take(i + 1) =~= u1.take(i as int).push(u1[i as int]));
        }
        i = i + 1;
    }
    proof {
        assert(u1.take(u1.len() as int) =~= u1);
    }

    let mut j: usize = 0;
    proof {
        assert(u2.take(0) =~= Seq::<LogEntryView>::empty());
    }
    while j < from_file2.len()
        invariant
            j <= from_file2@.len(),
            buckets_wf(buckets@, u1, u2.take(j as int), t),
        decreases from_file2@.len() - j,
    {
        let e = from_file2[j].clone();
        proof {
            assert(e@ == u2[j as int]);
        }
        bucket_insert(&mut buckets, e, t, false, Ghost(u1), Ghost(u2.take(j as int)));
        proof {
            assert(u2.take(j + 1) =~= u2.take(j as int).push(u2[j as int]));
        }
        j = j + 1;
    }
    proof {
        assert(u2.take(u2.len() as int) =~= u2);
    }

    let ghost bk = bucket_keys(buckets@);
    proof {
        lemma_first_occurrences_distinct(k1s + k2s);
    }

    let mut pairs: Vec<MatchPair> = Vec::new();
    let mut cross_groups: Vec<MatchGroup> = Vec::new();
    let mut solo_groups1: Vec<SingleFileMatchGroup> = Vec::new();
    let mut solo_groups2: Vec<SingleFileMatchGroup> = Vec::new();
    let mut unmatched1: Vec<LogEntry> = Vec::new();
    let mut unmatched2: Vec<LogEntry> = Vec::new();

    let mut m: usize = 0;
    proof {
        assert(bk.take(0) =~= Seq::<Seq<char>>::empty());
        reveal(Seq::filter);
    }
    while m < buckets.len()
        invariant
            m <= buckets@.len(),
            bk == bucket_keys(buckets@),
            buckets_wf(buckets@, u1, u2, t),
            distinct_seq(bk),
            pair_views(pairs@) == bk.take(m as int).filter(pair_key_pred(u1, u2, t)).map_values(
                mk_pair_fn(u1, u2, t),
            ),
            cross_views(cross_groups@) == bk.take(m as int).filter(
                cross_key_pred(u1, u2, t),
            ).map_values(mk_cross_fn(u1, u2, t)),
            solo_views(solo_groups1@) == bk.take(m as int).filter(
                solo1_key_pred(u1, u2, t),
            ).map_values(mk_solo1_fn(u1, t)),
            solo_views(solo_groups2@) == bk.take(m as int).filter(
                solo2_key_pred(u1, u2, t),
            ).map_values(mk_solo1_fn(u2, t)),
            entry_views(unmatched1@) == bk.take(m as int).filter(
                lone1_key_pred(u1, u2, t),
            ).map_values(mk_lone_fn(u1, t)),
            entry_views(unmatched2@) == bk.take(m as int).filter(
                lone2_key_pred(u1, u2, t),
            ).map_values(mk_lone_fn(u2, t)),
        decreases buckets@.len() - m,
    {
        let ghost key = bk[m as int];
        let ghost n1 = key_count(u1, t, key);
        let ghost n2 = key_count(u2, t, key);
        proof {
            assert(entry_views(buckets@[m as int].from1@) == with_key(u1, t, key));
            assert(entry_views(buckets@[m as int].from2@) == with_key(u2, t, key));
            assert(buckets@[m as int].from1@.len() == n1);
            assert(buckets@[m as int].from2@.len() == n2);
            assert(n1 + n2 >= 1) by {
                assert(first_occurrences(k1s + k2s).contains(key)) by {
                    assert(bk[m as int] == key);
                }
                lemma_first_occurrences_contains(k1s + k2s, key);
                let ix = choose|ix: int| 0 <= ix < (k1s + k2s).len() && (k1s + k2s)[ix] == key;
                lemma_with_key_nonempty(u1, t, key);
                lemma_with_key_nonempty(u2, t, key);
                if ix < k1s.len() {
                    assert(k1s.contains(key)) by {
                        assert(k1s[ix] == key);
                    }
                } else {
                    assert(k2s.contains(key)) by {
                        assert(k2s[ix - k1s.len()] == key);
                    }
                }
            }
            assert(bk.take(m + 1) =~= bk.take(m as int).push(key));
            Seq::lemma_filter_push(bk.take(m as int), key, pair_key_pred(u1, u2, t));
            Seq::lemma_filter_push(bk.take(m as int), key, cross_key_pred(u1, u2, t));
            Seq::lemma_filter_push(bk.take(m as int), key, solo1_key_pred(u1, u2, t));
            Seq::lemma_filter_push(bk.take(m as int), key, solo2_key_pred(u1, u2, t));
            Seq::lemma_filter_push(bk.take(m as int), key, lone1_key_pred(u1, u2, t));
            Seq::lemma_filter_push(bk.take(m as int), key, lone2_key_pred(u1, u2, t));
            assert(pair_key_pred(u1, u2, t)(key) == pair_key(u1, u2, t, key));
            assert(cross_key_pred(u1, u2, t)(key) == cross_key(u1, u2, t, key));
            assert(solo1_key_pred(u1, u2, t)(key) == solo1_key(u1, u2, t, key));
            assert(solo2_key_pred(u1, u2, t)(key) == solo2_key(u1, u2, t, key));
            assert(lone1_key_pred(u1, u2, t)(key) == lone1_key(u1, u2, t, key));
            assert(lone2_key_pred(u1, u2, t)(key) == lone2_key(u1, u2, t, key));
        }
        let n1x = buckets[m].from1.len();
        let n2x = buckets[m].from2.len();
        if n1x == 1 && n2x == 1 {
            let p = MatchPair {
                from_file1: buckets[m].from1[0].clone(),
                from_file2: buckets[m].from2[0].clone(),
            };
            let ghost pv = p@;
            proof {
                assert(pv =~= mk_pair_fn(u1, u2, t)(key)) by {
                    assert(entry_views(buckets@[m as int].from1@)[0] == buckets@[m as int].from1@[0]@);
                    assert(entry_views(buckets@[m as int].from2@)[0] == buckets@[m as int].from2@[0]@);
                }
            }
            let ghost ppre = pairs@;
            pairs.push(p);
            proof {
                assert(pairs@ == ppre.push(p));
                assert(pair_views(pairs@) =~= pair_views(ppre).push(pv));
                let pred = pair_key_pred(u1, u2, t);
                let mk = mk_pair_fn(u1, u2, t);
                assert(bk.take(m + 1).filter(pred) == bk.take(m as int).filter(pred).push(key));
                assert(bk.take(m as int).filter(pred).push(key).map_values(mk) =~= bk.take(
                    m as int,
                ).filter(pred).map_values(mk).push(mk(key)));
                assert(pair_views(pairs@) == bk.take(m + 1).filter(pred).map_values(mk));
            }
        } else if n1x == 1 && n2x == 0 {
            let x = buckets[m].from1[0].clone();
            let ghost xv = x@;
            proof {
                assert(entry_views(buckets@[m as int].from1@)[0] == buckets@[m as int].from1@[0]@);
                assert(xv == mk_lone_fn(u1, t)(key));
            }
            let ghost upre = unmatched1@;
            unmatched1.push(x);
            proof {
                assert(unmatched1@ == upre.push(x));
                assert(entry_views(unmatched1@) =~= entry_views(upre).push(xv));
                let pred = lone1_key_pred(u1, u2, t);
                let mk = mk_lone_fn(u1, t);
                assert(bk.take(m + 1).filter(pred) == bk.take(m as int).filter(pred).push(key));
                assert(bk.take(m as int).filter(pred).push(key).map_values(mk) =~= bk.take(
                    m as int,
                ).filter(pred).map_values(mk).push(mk(key)));
                assert(entry_views(unmatched1@) == bk.take(m + 1).filter(pred).map_values(mk));
            }
        } else if n1x == 0 && n2x == 1 {
            let x = buckets[m].from2[0].clone();
            let ghost xv = x@;
            proof {
                assert(entry_views(buckets@[m as int].from2@)[0] == buckets@[m as int].from2@[0]@);
                assert(xv == mk_lone_fn(u2, t)(key));
            }
            let ghost upre = unmatched2@;
            unmatched2.push(x);
            proof {
                assert(unmatched2@ == upre.push(x));
                assert(entry_views(unmatched2@) =~= entry_views(upre).push(xv));
                let pred = lone2_key_pred(u1, u2, t);
                let mk = mk_lone_fn(u2, t);
                assert(bk.take(m + 1).filter(pred) == bk.take(m as int).filter(pred).push(key));
                assert(bk.take(m as int).filter(pred).push(key).map_values(mk) =~= bk.take(
                    m as int,
                ).filter(pred).map_values(mk).push(mk(key)));
                assert(entry_views(unmatched2@) == bk.take(m + 1).filter(pred).map_values(mk));
            }
        } else if n2x == 0 {
            let members = clone_entries(&buckets[m].from1);
            match SomeVec::from_vec(members) {
                Some(log_entries) => {
                    let g = SingleFileMatchGroup { log_entries };
                    let ghost gv = g@;
                    proof {
                        assert(gv =~= with_key(u1, t, key));
                        assert(gv == mk_solo1_fn(u1, t)(key));
                    }
                    let ghost spre = solo_groups1@;
                    solo_groups1.push(g);
                    proof {
                        assert(solo_groups1@ == spre.push(g));
                        assert(solo_views(solo_groups1@) =~= solo_views(spre).push(gv));
                        let pred = solo1_key_pred(u1, u2, t);
                        let mk = mk_solo1_fn(u1, t);
                        assert(bk.take(m + 1).filter(pred) == bk.take(m as int).filter(
                            pred,
                        ).push(key));
                        assert(bk.take(m as int).filter(pred).push(key).map_values(mk) =~= bk.take(
                            m as int,
                        ).filter(pred).map_values(mk).push(mk(key)));
                        assert(solo_views(solo_groups1@) == bk.take(m + 1).filter(
                            pred,
                        ).map_values(mk));
                    }
                },
                None => {
                    proof {
                        assert(false);
                    }
                },
            }
        } else if n1x == 0 {
            let members = clone_entries(&buckets[m].from2);
            match SomeVec::from_vec(members) {
                Some(log_entries) => {
                    let g = SingleFileMatchGroup { log_entries };
                    let ghost gv = g@;
                    proof {
                        assert(gv =~= with_key(u2, t, key));
                        assert(gv == mk_solo1_fn(u2, t)(key));
                    }
                    let ghost spre = solo_groups2@;
                    solo_groups2.push(g);
                    proof {
                        assert(solo_groups2@ == spre.push(g));
                        assert(solo_views(solo_groups2@) =~= solo_views(spre).push(gv));
                        let pred = solo2_key_pred(u1, u2, t);
                        let mk = mk_solo1_fn(u2, t);
                        assert(bk.take(m + 1).filter(pred) == bk.take(m as int).filter(
                            pred,
                        ).push(key));
                        assert(bk.take(m as int).filter(pred).push(key).map_values(mk) =~= bk.take(
                            m as int,
                        ).filter(pred).map_values(mk).push(mk(key)));
                        assert(solo_views(solo_groups2@) == bk.take(m + 1).filter(
                            pred,
                        ).map_values(mk));
                    }
                },
                None => {
                    proof {
                        assert(false);
                    }
                },
            }
        } else {
            let members1 = clone_entries(&buckets[m].from1);
            let members2 = clone_entries(&buckets[m].from2);
            match (SomeVec::from_vec(members1), SomeVec::from_vec(members2)) {
                (Some(sv1), Some(sv2)) => {
                    let g = MatchGroup { from_file1: sv1, from_file2: sv2 };
                    let ghost gv = g@;
                    proof {
                        assert(gv =~= mk_cross_fn(u1, u2, t)(key));
                    }
                    let ghost cpre = cross_groups@;
                    cross_groups.push(g);
                    proof {
                        assert(cross_groups@ == cpre.push(g));
                        assert(cross_views(cross_groups@) =~= cross_views(cpre).push(gv));
                        let pred = cross_key_pred(u1, u2, t);
                        let mk = mk_cross_fn(u1, u2, t);
                        assert(bk.take(m + 1).filter(pred) == bk.take(m as int).filter(
                            pred,
                        ).push(key));
                        assert(bk.take(m as int).filter(pred).push(key).map_values(mk) =~= bk.take(
                            m as int,
                        ).filter(pred).map_values(mk).push(mk(key)));
                        assert(cross_views(cross_groups@) == bk.take(m + 1).filter(
                            pred,
                        ).map_values(mk));
                    }
                },
                _ => {
                    proof {
                        assert(false);
                    }
                },
            }
        }
        m = m + 1;
    }
    proof {
        assert(bk.take(bk.len() as int) =~= bk);
    }

    let r = TierResult { pairs, cross_groups, solo_groups1, solo_groups2, unmatched1, unmatched2 };
    proof {
        lemma_first_occurrences_concat(k1s, k2s);
        let novel = |x: Seq<char>| !k1s.contains(x);
        let apart = first_occurrences(k1s);
        let bpart = first_occurrences(k2s).filter(novel);
        assert(bk == apart + bpart);
        assert forall|x: Seq<char>| #[trigger] k1s.contains(x) implies key_count(u1, t, x) >= 1 by {
            lemma_with_key_nonempty(u1, t, x);
        }
        assert forall|x: Seq<char>| !k1s.contains(x) implies key_count(u1, t, x) == 0 by {
            lemma_with_key_nonempty(u1, t, x);
        }

        // keys appearing only in source 2 satisfy none of the source-1-led predicates
        assert forall|i: int| 0 <= i < bpart.len() implies !(#[trigger] pair_key_pred(u1, u2, t)(
            bpart[i],
        )) by {
            first_occurrences(k2s).lemma_filter_pred(novel, i);
        }
        assert forall|i: int| 0 <= i < bpart.len() implies !(#[trigger] cross_key_pred(u1, u2, t)(
            bpart[i],
        )) by {
            first_occurrences(k2s).lemma_filter_pred(novel, i);
        }
        assert forall|i: int| 0 <= i < bpart.len() implies !(#[trigger] solo1_key_pred(u1, u2, t)(
            bpart[i],
        )) by {
            first_occurrences(k2s).lemma_filter_pred(novel, i);
        }
        assert forall|i: int| 0 <= i < bpart.len() implies !(#[trigger] lone1_key_pred(u1, u2, t)(
            bpart[i],
        )) by {
            first_occurrences(k2s).lemma_filter_pred(novel, i);
        }
        bpart.lemma_all_neg_filter_empty(pair_key_pred(u1, u2, t));
        bpart.lemma_all_neg_filter_empty(cross_key_pred(u1, u2, t));
        bpart.lemma_all_neg_filter_empty(solo1_key_pred(u1, u2, t));
        bpart.lemma_all_neg_filter_empty(lone1_key_pred(u1, u2, t));

        // keys appearing in source 1 satisfy neither of the source-2-only predicates
        assert forall|i: int| 0 <= i < apart.len() implies !(#[trigger] solo2_key_pred(u1, u2, t)(
            apart[i],
        )) by {
            lemma_first_occurrences_contains(k1s, apart[i]);
            assert(apart.contains(apart[i]));
        }
        assert forall|i: int| 0 <= i < apart.len() implies !(#[trigger] lone2_key_pred(u1, u2, t)(
            apart[i],
        )) by {
            lemma_first_occurrences_contains(k1s, apart[i]);
            assert(apart.contains(apart[i]));
        }
        apart.lemma_all_neg_filter_empty(solo2_key_pred(u1, u2, t));
        apart.lemma_all_neg_filter_empty(lone2_key_pred(u1, u2, t));

        Seq::filter_distributes_over_add(apart, bpart, pair_key_pred(u1, u2, t));
        Seq::filter_distributes_over_add(apart, bpart, cross_key_pred(u1, u2, t));
        Seq::filter_distributes_over_add(apart, bpart, solo1_key_pred(u1, u2, t));
        Seq::filter_distributes_over_add(apart, bpart, lone1_key_pred(u1, u2, t));
        Seq::filter_distributes_over_add(apart, bpart, solo2_key_pred(u1, u2, t));
        Seq::filter_distributes_over_add(apart, bpart, lone2_key_pred(u1, u2, t));

        assert(bk.filter(pair_key_pred(u1, u2, t)) =~= keys_in_order(u1, t).filter(
            pair_key_pred(u1, u2, t),
        ));
        assert(bk.filter(cross_key_pred(u1, u2, t)) =~= keys_in_order(u1, t).filter(
            cross_key_pred(u1, u2, t),
        ));
        assert(bk.filter(solo1_key_pred(u1, u2, t)) =~= keys_in_order(u1, t).filter(
            solo1_key_pred(u1, u2, t),
        ));
        assert(bk.filter(lone1_key_pred(u1, u2, t)) =~= keys_in_order(u1, t).filter(
            lone1_key_pred(u1, u2, t),
        ));

        // for source-2-only predicates, the first-occurrence restriction to
        // novel keys is immaterial
        lemma_filter_compose(
            first_occurrences(k2s),
            novel,
            solo2_key_pred(u1, u2, t),
            solo2_key_pred(u1, u2, t),
        );
        lemma_filter_compose(
            first_occurrences(k2s),
            novel,
            lone2_key_pred(u1, u2, t),
            lone2_key_pred(u1, u2, t),
        );
        assert(bk.filter(solo2_key_pred(u1, u2, t)) =~= keys_in_order(u2, t).filter(
            solo2_key_pred(u1, u2, t),
        ));
        assert(bk.filter(lone2_key_pred(u1, u2, t)) =~= keys_in_order(u2, t).filter(
            lone2_key_pred(u1, u2, t),
        ));

        assert(r@ =~= tier_view(u1, u2, t));
    }
    r
}

} // verus!
