//! Groups of log entries that share a match key but could not be resolved
//! into a single pair.

use vstd::prelude::*;
use crate::log_entry::{entry_views, LogEntry, LogEntryView};
use crate::some_vec::SomeVec;

verus! {

/// Two or more entries from the same source log sharing a match key (an
/// anomaly: duplicate keys within one log).
#[derive(Debug, PartialEq)]
pub struct SingleFileMatchGroup {
    pub log_entries: SomeVec<LogEntry>,
}

/// Entries from both source logs sharing a match key, where the count
/// breakdown could not be resolved into a single pair.
#[derive(Debug, PartialEq)]
pub struct MatchGroup {
    pub from_file1: SomeVec<LogEntry>,
    pub from_file2: SomeVec<LogEntry>,
}

/// The mathematical content of a `MatchGroup`: both member lists as
/// sequences of entry views.
#[verifier::ext_equal]
pub ghost struct GroupView {
    pub from_file1: Seq<LogEntryView>,
    pub from_file2: Seq<LogEntryView>,
}

impl View for SingleFileMatchGroup {
    type V = Seq<LogEntryView>;

    open spec fn view(&self) -> Seq<LogEntryView> {
        entry_views(self.log_entries@)
    }
}

impl View for MatchGroup {
    type V = GroupView;

    open spec fn view(&self) -> GroupView {
        GroupView {
            from_file1: entry_views(self.from_file1@),
            from_file2: entry_views(self.from_file2@),
        }
    }
}

} // verus!
