//! The total orders used to put every output bucket into a canonical order:
//! entries by path then digest key, pairs and groups by their members.

use vstd::prelude::*;
use core::cmp::Ordering;
use crate::log_entry::{entry_views, LogEntry, LogEntryView};
use crate::some_vec::SomeVec;
use crate::text_order::{
    cmp_lawful, lemma_lex2_lawful, lemma_lex_cmp_lawful, lemma_seq_cmp_lawful, lex2_cmp,
    lex_cmp_rel, seq_cmp, seq_cmp_rel, str_cmp,
};
use super::match_pair::{MatchPair, PairView};
use super::match_group::{GroupView, MatchGroup, SingleFileMatchGroup};

verus! {

/// Orders entry views by path, then by digest key.
pub open spec fn entry_cmp_rel() -> spec_fn(LogEntryView, LogEntryView) -> Ordering {
    lex2_cmp(
        lex_cmp_rel(),
        lex_cmp_rel(),
        |v: LogEntryView| v.filename,
        |v: LogEntryView| v.hashes,
    )
}

/// Orders pair views by their source 1 entry, then their source 2 entry.
pub open spec fn pair_cmp_rel() -> spec_fn(PairView, PairView) -> Ordering {
    lex2_cmp(
        entry_cmp_rel(),
        entry_cmp_rel(),
        |p: PairView| p.from_file1,
        |p: PairView| p.from_file2,
    )
}

/// Orders member lists element-wise by the entry order.
pub open spec fn entry_seq_cmp_rel() -> spec_fn(Seq<LogEntryView>, Seq<LogEntryView>) -> Ordering {
    seq_cmp_rel(entry_cmp_rel())
}

/// Orders cross-source group views by their source 1 members, then their
/// source 2 members.
pub open spec fn group_cmp_rel() -> spec_fn(GroupView, GroupView) -> Ordering {
    lex2_cmp(
        entry_seq_cmp_rel(),
        entry_seq_cmp_rel(),
        |g: GroupView| g.from_file1,
        |g: GroupView| g.from_file2,
    )
}

pub proof fn lemma_entry_cmp_lawful()
    ensures
        cmp_lawful(entry_cmp_rel()),
{
    lemma_lex_cmp_lawful();
    let f = |v: LogEntryView| v.filename;
    let g = |v: LogEntryView| v.hashes;
    assert forall|x: LogEntryView, y: LogEntryView|
        #![trigger f(x), f(y)]
        f(x) == f(y) && g(x) == g(y) implies x == y by {
        assert(x =~= y);
    }
    lemma_lex2_lawful(lex_cmp_rel(), lex_cmp_rel(), f, g);
}

pub proof fn lemma_pair_cmp_lawful()
    ensures
        cmp_lawful(pair_cmp_rel()),
{
    lemma_entry_cmp_lawful();
    let f = |p: PairView| p.from_file1;
    let g = |p: PairView| p.from_file2;
    assert forall|x: PairView, y: PairView|
        #![trigger f(x), f(y)]
        f(x) == f(y) && g(x) == g(y) implies x == y by {
        assert(x =~= y);
    }
    lemma_lex2_lawful(entry_cmp_rel(), entry_cmp_rel(), f, g);
}

pub proof fn lemma_entry_seq_cmp_lawful()
    ensures
        cmp_lawful(entry_seq_cmp_rel()),
{
    lemma_entry_cmp_lawful();
    lemma_seq_cmp_lawful(entry_cmp_rel());
}

pub proof fn lemma_group_cmp_lawful()
    ensures
        cmp_lawful(group_cmp_rel()),
{
    lemma_entry_seq_cmp_lawful();
    let f = |g: GroupView| g.from_file1;
    let g2 = |g: GroupView| g.from_file2;
    assert forall|x: GroupView, y: GroupView|
        #![trigger f(x), f(y)]
        f(x) == f(y) && g2(x) == g2(y) implies x == y by {
        assert(x =~= y);
    }
    lemma_lex2_lawful(entry_seq_cmp_rel(), entry_seq_cmp_rel(), f, g2);
}

/// Compares two entries: by path, then by digest key.
pub fn entry_cmp_exec(a: &LogEntry, b: &LogEntry) -> (r: Ordering)
    ensures
        r == entry_cmp_rel()(a@, b@),
{
    let o = str_cmp(a.filename.as_str(), b.filename.as_str());
    if matches!(o, Ordering::Equal) {
        str_cmp(a.hashes.as_str(), b.hashes.as_str())
    } else {
        o
    }
}

/// Compares two match pairs by their entries.
pub fn pair_cmp_exec(a: &MatchPair, b: &MatchPair) -> (r: Ordering)
    ensures
        r == pair_cmp_rel()(a@, b@),
{
    let o = entry_cmp_exec(&a.from_file1, &b.from_file1);
    if matches!(o, Ordering::Equal) {
        entry_cmp_exec(&a.from_file2, &b.from_file2)
    } else {
        o
    }
}

/// Compares two member lists element-wise by the entry order.
#[verifier::loop_isolation(false)]
pub fn entry_list_cmp_exec(a: &SomeVec<LogEntry>, b: &SomeVec<LogEntry>) -> (r: Ordering)
    ensures
        r == entry_seq_cmp_rel()(entry_views(a@), entry_views(b@)),
{
    let ghost va = entry_views(a@);
    let ghost vb = entry_views(b@);
    let na = a.len();
    let nb = b.len();
    let mut i: usize = 0;
    proof {
        assert(va.skip(0) =~= va);
        assert(vb.skip(0) =~= vb);
    }
    while i < na && i < nb
        invariant
            i <= na,
            i <= nb,
            na == va.len(),
            nb == vb.len(),
            seq_cmp(va, vb, entry_cmp_rel()) == seq_cmp(
                va.skip(i as int),
                vb.skip(i as int),
                entry_cmp_rel(),
            ),
        decreases na - i,
    {
        let o = entry_cmp_exec(a.at(i), b.at(i));
        proof {
            assert(va.skip(i as int)[0] == va[i as int]);
            assert(vb.skip(i as int)[0] == vb[i as int]);
            assert(va[i as int] == a@[i as int]@);
            assert(vb[i as int] == b@[i as int]@);
        }
        if !matches!(o, Ordering::Equal) {
            return o;
        }
        proof {
            assert(va.skip(i as int).drop_first() =~= va.skip(i + 1));
            assert(vb.skip(i as int).drop_first() =~= vb.skip(i + 1));
        }
        i = i + 1;
    }
    proof {
        assert(va.skip(i as int).len() == na - i);
        assert(vb.skip(i as int).len() == nb - i);
    }
    if na == nb {
        Ordering::Equal
    } else if i == na {
        Ordering::Less
    } else {
        Ordering::Greater
    }
}

/// Compares two single-source groups by their members.
pub fn solo_group_cmp_exec(a: &SingleFileMatchGroup, b: &SingleFileMatchGroup) -> (r: Ordering)
    ensures
        r == entry_seq_cmp_rel()(a@, b@),
{
    entry_list_cmp_exec(&a.log_entries, &b.log_entries)
}

/// Compares two cross-source groups by their source 1 members, then their
/// source 2 members.
pub fn group_cmp_exec(a: &MatchGroup, b: &MatchGroup) -> (r: Ordering)
    ensures
        r == group_cmp_rel()(a@, b@),
{
    let o = entry_list_cmp_exec(&a.from_file1, &b.from_file1);
    if matches!(o, Ordering::Equal) {
        entry_list_cmp_exec(&a.from_file2, &b.from_file2)
    } else {
        o
    }
}

} // verus!
