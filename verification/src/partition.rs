//! The statistics block reported after a partition run.

use vstd::prelude::*;
use crate::common::{dec_digits, usize_to_string};
use crate::partitioner::{MatchPartition, PartitionView};

verus! {

/// What a successful partition run reports: statistics about every bucket,
/// plus any warnings the two logs raised while loading.
#[derive(Debug, PartialEq)]
pub struct PartitionLogSuccess {
    /// Printable warning lines about the first hashdeep log file, if any
    /// were emitted.
    pub file1_warning_lines: Option<Vec<String>>,
    /// Printable warning lines about the second hashdeep log file, if any
    /// were emitted.
    pub file2_warning_lines: Option<Vec<String>>,
    /// Printable statistics about the partitioning results.
    pub stats_string: String,
}

/// The statistics block for a partition: one line per bucket, with the
/// anomaly buckets annotated as expected to be empty.
pub open spec fn stats_text(pv: PartitionView) -> Seq<char> {
    "log partition statistics:\n"@ + "   (note: \"pairs\" have 1 entry in each file)\n"@ + " "@
        + dec_digits(pv.full_match_pairs.len() as int) + " full match pairs\n"@ + " "@
        + dec_digits(pv.full_match_groups_file1.len() as int)
        + " full match groups in file 1 only (should be 0)\n"@ + " "@ + dec_digits(
        pv.full_match_groups_file2.len() as int,
    ) + " full match groups in file 2 only (should be 0)\n"@ + " "@ + dec_digits(
        pv.full_match_groups.len() as int,
    ) + " full match groups in both files (should be 0)\n"@ + " "@ + dec_digits(
        pv.name_match_pairs.len() as int,
    ) + " name match pairs\n"@ + " "@ + dec_digits(pv.name_match_groups_file1.len() as int)
        + " name match groups in file 1 only (should be 0)\n"@ + " "@ + dec_digits(
        pv.name_match_groups_file2.len() as int,
    ) + " name match groups in file 2 only (should be 0)\n"@ + " "@ + dec_digits(
        pv.name_match_groups.len() as int,
    ) + " name match groups in both files (should be 0)\n"@ + " "@ + dec_digits(
        pv.hashes_match_pairs.len() as int,
    ) + " hashes match pairs\n"@ + " "@ + dec_digits(pv.hashes_match_groups_file1.len() as int)
        + " hashes match groups in file 1 only\n"@ + " "@ + dec_digits(
        pv.hashes_match_groups_file2.len() as int,
    ) + " hashes match groups in file 2 only\n"@ + " "@ + dec_digits(
        pv.hashes_match_groups.len() as int,
    ) + " hashes match groups in both files\n"@ + " "@ + dec_digits(
        pv.no_match_file1.len() as int,
    ) + " entries in file 1 with no match\n"@ + " "@ + dec_digits(pv.no_match_file2.len() as int)
        + " entries in file 2 with no match\n"@
}

/// Renders the statistics block for a partition.
pub fn partition_stats_string(mp: &MatchPartition) -> (r: String)
    ensures
        r@ == stats_text(mp@),
{
    let mut s = "log partition statistics:\n".to_owned();
    s.append("   (note: \"pairs\" have 1 entry in each file)\n");
    s.append(" ");
    s.append(usize_to_string(mp.full_match_pairs.len()).as_str());
    s.append(" full match pairs\n");
    s.append(" ");
    s.append(usize_to_string(mp.full_match_groups_file1.len()).as_str());
    s.append(" full match groups in file 1 only (should be 0)\n");
    s.append(" ");
    s.append(usize_to_string(mp.full_match_groups_file2.len()).as_str());
    s.append(" full match groups in file 2 only (should be 0)\n");
    s.append(" ");
    s.append(usize_to_string(mp.full_match_groups.len()).as_str());
    s.append(" full match groups in both files (should be 0)\n");
    s.append(" ");
    s.append(usize_to_string(mp.name_match_pairs.len()).as_str());
    s.append(" name match pairs\n");
    s.append(" ");
    s.append(usize_to_string(mp.name_match_groups_file1.len()).as_str());
    s.append(" name match groups in file 1 only (should be 0)\n");
    s.append(" ");
    s.append(usize_to_string(mp.name_match_groups_file2.len()).as_str());
    s.append(" name match groups in file 2 only (should be 0)\n");
    s.append(" ");
    s.append(usize_to_string(mp.name_match_groups.len()).as_str());
    s.append(" name match groups in both files (should be 0)\n");
    s.append(" ");
    s.append(usize_to_string(mp.hashes_match_pairs.len()).as_str());
    s.append(" hashes match pairs\n");
    s.append(" ");
    s.append(usize_to_string(mp.hashes_match_groups_file1.len()).as_str());
    s.append(" hashes match groups in file 1 only\n");
    s.append(" ");
    s.append(usize_to_string(mp.hashes_match_groups_file2.len()).as_str());
    s.append(" hashes match groups in file 2 only\n");
    s.append(" ");
    s.append(usize_to_string(mp.hashes_match_groups.len()).as_str());
    s.append(" hashes match groups in both files\n");
    s.append(" ");
    s.append(usize_to_string(mp.no_match_file1.len()).as_str());
    s.append(" entries in file 1 with no match\n");
    s.append(" ");
    s.append(usize_to_string(mp.no_match_file2.len()).as_str());
    s.append(" entries in file 2 with no match\n");
    proof {
        assert(s@ =~= stats_text(mp@));
    }
    s
}

} // verus!
