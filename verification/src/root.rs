//! Adjusting a log's root directory: removing a path prefix from every
//! entry and dropping the entries that do not carry it.

use vstd::prelude::*;

use crate::common::{dec_digits, starts_with_spec, string_views, usize_to_string};
use crate::log_entry::{entry_views, LogEntry, LogEntryView};

verus! {

/// What came of a root change: the counts of entries kept and dropped, plus
/// any warnings the log's header raised while loading.
#[derive(Debug, PartialEq)]
pub struct ChangeRootSuccess {
    /// Printable warning lines about the hashdeep log file, if any were
    /// emitted.
    pub file_warning_lines: Option<Vec<String>>,
    /// The number of entries that matched the prefix.
    pub entries_matched: usize,
    /// The number of entries that were omitted (did not match the prefix).
    pub entries_omitted: usize,
}

/// Does the entry's path start with the prefix?
pub open spec fn matches_prefix(prefix: Seq<char>) -> spec_fn(LogEntryView) -> bool {
    |v: LogEntryView| starts_with_spec(v.filename, prefix)
}

/// The entry with the prefix removed from its path, as a function value.
pub open spec fn strip_prefix_fn(prefix: Seq<char>) -> spec_fn(LogEntryView) -> LogEntryView {
    |v: LogEntryView|
        LogEntryView { hashes: v.hashes, filename: v.filename.skip(prefix.len() as int) }
}

/// The entries whose paths carry the prefix, each with the prefix removed.
pub open spec fn spec_change_root(u: Seq<LogEntryView>, prefix: Seq<char>) -> Seq<LogEntryView> {
    u.filter(matches_prefix(prefix)).map_values(strip_prefix_fn(prefix))
}

/// Removes `root_prefix` from the path of every entry that starts with it
/// and drops the entries that do not.
#[verifier::loop_isolation(false)]
pub fn change_root_entries(entries: &Vec<LogEntry>, root_prefix: &str) -> (r: Vec<LogEntry>)
    ensures
        entry_views(r@) == spec_change_root(entry_views(entries@), root_prefix@),
{
    let ghost u = entry_views(entries@);
    let ghost p = root_prefix@;
    let m = root_prefix.unicode_len();
    let mut r: Vec<LogEntry> = Vec::new();
    proof {
        assert(u.take(0) =~= Seq::<LogEntryView>::empty());
        reveal(Seq::filter);
        assert(entry_views(r@) =~= spec_change_root(u.take(0), p));
    }
    let mut i: usize = 0;
    while i < entries.len()
        invariant
            i <= entries@.len(),
            u == entry_views(entries@),
            m == p.len(),
            entry_views(r@) == spec_change_root(u.take(i as int), p),
        decreases entries@.len() - i,
    {
        proof {
            assert(u.take(i + 1) =~= u.take(i as int).push(u[i as int]));
            Seq::lemma_filter_push(u.take(i as int), u[i as int], matches_prefix(p));
        }
        let name = entries[i].filename.as_str();
        let n = name.unicode_len();
        let keeps = if m > n {
            false
        } else {
            crate::common::str_eq(name.substring_char(0, m), root_prefix)
        };
        if keeps {
            let new_name = name.substring_char(m, n).to_owned();
            let e = LogEntry { hashes: entries[i].hashes.clone(), filename: new_name };
            let ghost ev = e@;
            let ghost rpre = r@;
            proof {
                assert(matches_prefix(p)(u[i as int]));
                assert(ev =~= strip_prefix_fn(p)(u[i as int]));
            }
            r.push(e);
            proof {
                let fpre = u.take(i as int).filter(matches_prefix(p));
                assert(entry_views(r@) =~= entry_views(rpre).push(ev));
                assert(fpre.push(u[i as int]).map_values(strip_prefix_fn(p)) =~= fpre.map_values(
                    strip_prefix_fn(p),
                ).push(strip_prefix_fn(p)(u[i as int])));
                assert(entry_views(r@) == spec_change_root(u.take(i + 1), p));
            }
        } else {
            proof {
                assert(!matches_prefix(p)(u[i as int]));
                assert(entry_views(r@) == spec_change_root(u.take(i + 1), p));
            }
        }
        i = i + 1;
    }
    proof {
        assert(u.take(u.len() as int) =~= u);
    }
    r
}

impl ChangeRootSuccess {
    /// Printable info lines about the root change. The entry counts must not
    /// overflow when added; the operation that produced them never lets them.
    pub fn info_lines(&self) -> (r: Vec<String>)
        requires
            self.entries_matched + self.entries_omitted <= usize::MAX,
        ensures
            string_views(r@) == spec_info_lines(
                self.entries_matched as int,
                self.entries_omitted as int,
            ),
    {
        let mut v: Vec<String> = Vec::new();
        let total = self.entries_matched + self.entries_omitted;
        let mut first = "Input file contains ".to_owned();
        first.append(usize_to_string(total).as_str());
        first.append(" entries:");
        v.push(first);
        if self.entries_matched == 0 {
        } else if self.entries_matched == total {
            let mut line = "  All ".to_owned();
            line.append(usize_to_string(self.entries_matched).as_str());
            line.append(" entries matched the prefix");
            v.push(line);
        } else {
            let mut line = "  ".to_owned();
            line.append(usize_to_string(self.entries_matched).as_str());
            line.append(" entries matched the prefix");
            v.push(line);
            let mut line2 = "  ".to_owned();
            line2.append(usize_to_string(self.entries_omitted).as_str());
            line2.append(" entries did not match the prefix and were omitted");
            v.push(line2);
        }
        proof {
            assert(string_views(v@) =~= spec_info_lines(
                self.entries_matched as int,
                self.entries_omitted as int,
            ));
        }
        v
    }

    /// Printable warning lines about the root change.
    pub fn warning_lines(&self) -> (r: Vec<String>)
        ensures
            self.entries_matched == 0 ==> string_views(r@) == seq![
                "Warning: No entries matched the prefix (All entries were omitted)"@,
            ],
            self.entries_matched != 0 ==> r@.len() == 0,
    {
        let mut v: Vec<String> = Vec::new();
        if self.entries_matched == 0 {
            v.push("Warning: No entries matched the prefix (All entries were omitted)".to_owned());
            proof {
                assert(string_views(v@) =~= seq![
                    "Warning: No entries matched the prefix (All entries were omitted)"@,
                ]);
            }
        }
        v
    }
}

/// The info lines reporting a root change's entry counts.
pub open spec fn spec_info_lines(matched: int, omitted: int) -> Seq<Seq<char>> {
    let total = matched + omitted;
    let first = "Input file contains "@ + dec_digits(total) + " entries:"@;
    if matched == 0 {
        seq![first]
    } else if matched == total {
        seq![first, "  All "@ + dec_digits(matched) + " entries matched the prefix"@]
    } else {
        seq![
            first,
            "  "@ + dec_digits(matched) + " entries matched the prefix"@,
            "  "@ + dec_digits(omitted) + " entries did not match the prefix and were omitted"@,
        ]
    }
}

} // verus!
