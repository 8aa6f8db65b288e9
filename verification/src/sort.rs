//! Sorting a log's entries by file path: a stable sort, so entries that
//! share a path keep their relative order from the input.

use vstd::prelude::*;
use vstd::relations::sorted_by;
use core::cmp::Ordering;
use crate::log_entry::LogEntry;
use crate::sorting::{computes_cmp, sort_vec_by, stable_sort_by};
use crate::text_order::{lex_cmp, str_cmp};

verus! {

/// The by-path comparison of two entries, as a function value: entries with
/// equal paths compare `Equal`, whatever their digest keys.
pub open spec fn path_cmp() -> spec_fn(LogEntry, LogEntry) -> Ordering {
    |a: LogEntry, b: LogEntry| lex_cmp(a.filename@, b.filename@)
}

/// The at-or-before-by-path relation on entries, as a function value.
pub open spec fn path_le() -> spec_fn(LogEntry, LogEntry) -> bool {
    |a: LogEntry, b: LogEntry| lex_cmp(a.filename@, b.filename@) != Ordering::Greater
}

/// Compares two entries by file path alone.
fn path_cmp_exec(a: &LogEntry, b: &LogEntry) -> (r: Ordering)
    ensures
        r == path_cmp()(*a, *b),
{
    str_cmp(a.filename.as_str(), b.filename.as_str())
}

/// Sorts a log's entries by file path: the stable sort under the by-path
/// comparison, so entries with equal paths keep their relative input order.
/// This is what the stand-alone sort operation applies before a log is
/// written back out.
pub fn sort_log_entries(entries: &mut Vec<LogEntry>)
    ensures
        final(entries)@ == stable_sort_by(old(entries)@, path_cmp()),
        final(entries)@.to_multiset() == old(entries)@.to_multiset(),
        sorted_by(final(entries)@, path_le()),
{
    sort_vec_by(entries, path_cmp_exec);
    proof {
        assert(computes_cmp(path_cmp_exec, path_cmp())) by {
            assert forall|a: &LogEntry, b: &LogEntry, o: Ordering|
                #[trigger] call_ensures(path_cmp_exec, (a, b), o) implies o == path_cmp()(
                *a,
                *b,
            ) by {}
        }
        assert(crate::sorting::decided_order(path_cmp_exec, path_le())) by {
            assert forall|a: &LogEntry, b: &LogEntry, o: Ordering|
                #[trigger] call_ensures(path_cmp_exec, (a, b), o) implies ((o
                != Ordering::Greater) <==> path_le()(*a, *b)) by {
                assert(o == path_cmp()(*a, *b));
            }
            assert forall|x: LogEntry, y: LogEntry, z: LogEntry|
                #[trigger] path_le()(x, y) && #[trigger] path_le()(y, z) implies path_le()(
                x,
                z,
            ) by {
                crate::text_order::lemma_lex_le_trans(x.filename@, y.filename@, z.filename@);
            }
            assert forall|x: LogEntry, y: LogEntry| #[trigger] path_le()(x, y) || #[trigger] path_le()(
                y,
                x,
            ) by {
                crate::text_order::lemma_lex_cmp_antisym(x.filename@, y.filename@);
                crate::text_order::lemma_lex_cmp_antisym(y.filename@, x.filename@);
            }
        }
    }
}

} // verus!
