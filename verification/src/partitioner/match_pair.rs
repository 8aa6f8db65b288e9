//! A matched pair of log entries, one from each source log.

use vstd::prelude::*;
use crate::log_entry::{LogEntry, LogEntryView};

verus! {

/// A match pair of file entries, one from each of two files.
///
/// The intended meaning of a match pair is a (probable) representation
/// of the same file in two different hashdeep logs, possibly before and after
/// some change to the file name, path, or contents.
#[derive(Debug, PartialEq)]
pub struct MatchPair {
    pub from_file1: LogEntry,
    pub from_file2: LogEntry,
}

/// The mathematical content of a `MatchPair`.
#[verifier::ext_equal]
pub ghost struct PairView {
    pub from_file1: LogEntryView,
    pub from_file2: LogEntryView,
}

impl View for MatchPair {
    type V = PairView;

    open spec fn view(&self) -> PairView {
        PairView { from_file1: self.from_file1@, from_file2: self.from_file2@ }
    }
}

} // verus!
