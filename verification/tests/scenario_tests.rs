use hashdeep_compare::log_entry::LogEntry;
use hashdeep_compare::partitioner::match_partition;

fn entries(lines: &[&str]) -> Vec<LogEntry> {
    lines.iter().map(|l| LogEntry::from_str(l).unwrap()).collect()
}

fn bucket_counts(
    mp: &hashdeep_compare::partitioner::MatchPartition,
) -> (usize, usize, usize, usize, usize) {
    (
        mp.full_match_pairs.len(),
        mp.name_match_pairs.len(),
        mp.hashes_match_pairs.len(),
        mp.no_match_file1.len(),
        mp.no_match_file2.len(),
    )
}

// Both logs contain one identical record: one full-match pair, all other
// buckets empty.
#[test]
fn identical_record_full_match_test() {
    let f1 = entries(&["4,aa,bb,dir/f.txt"]);
    let f2 = entries(&["4,aa,bb,dir/f.txt"]);
    let mp = match_partition(&f1, &f2).unwrap();
    assert_eq!(bucket_counts(&mp), (1, 0, 0, 0, 0));
    assert_eq!(mp.full_match_pairs[0].from_file1.to_string(), "4,aa,bb,dir/f.txt");
    assert_eq!(mp.full_match_pairs[0].from_file2.to_string(), "4,aa,bb,dir/f.txt");
    assert_eq!(mp.full_match_groups.len(), 0);
    assert_eq!(mp.full_match_groups_file1.len(), 0);
    assert_eq!(mp.full_match_groups_file2.len(), 0);
    assert_eq!(mp.name_match_groups.len(), 0);
    assert_eq!(mp.hashes_match_groups.len(), 0);
}

// Same path, different digest: one name-match pair, no full or hashes pairs.
#[test]
fn same_path_name_match_test() {
    let f1 = entries(&["4,aa,bb,dir/f.txt"]);
    let f2 = entries(&["4,cc,dd,dir/f.txt"]);
    let mp = match_partition(&f1, &f2).unwrap();
    assert_eq!(bucket_counts(&mp), (0, 1, 0, 0, 0));
    assert_eq!(mp.name_match_pairs[0].from_file1.to_string(), "4,aa,bb,dir/f.txt");
    assert_eq!(mp.name_match_pairs[0].from_file2.to_string(), "4,cc,dd,dir/f.txt");
}

// Same digest, different path: one hashes-match pair.
#[test]
fn same_digest_hashes_match_test() {
    let f1 = entries(&["4,aa,bb,dir/f.txt"]);
    let f2 = entries(&["4,aa,bb,dir/g.txt"]);
    let mp = match_partition(&f1, &f2).unwrap();
    assert_eq!(bucket_counts(&mp), (0, 0, 1, 0, 0));
    assert_eq!(mp.hashes_match_pairs[0].from_file1.to_string(), "4,aa,bb,dir/f.txt");
    assert_eq!(mp.hashes_match_pairs[0].from_file2.to_string(), "4,aa,bb,dir/g.txt");
}

// The same record twice in one log and absent from the other: one
// single-source full-match group of size 2.
#[test]
fn duplicate_record_single_source_group_test() {
    let f1 = entries(&["4,aa,bb,dir/f.txt", "4,aa,bb,dir/f.txt"]);
    let f2 = entries(&[]);
    let mp = match_partition(&f1, &f2).unwrap();
    assert_eq!(mp.full_match_groups_file1.len(), 1);
    assert_eq!(mp.full_match_groups_file1[0].log_entries.len(), 2);
    assert_eq!(bucket_counts(&mp), (0, 0, 0, 0, 0));
    assert_eq!(mp.full_match_groups_file2.len(), 0);
    assert_eq!(mp.full_match_groups.len(), 0);
}

// A record with no counterpart anywhere in the other log ends up unmatched;
// symmetric for the other source.
#[test]
fn unmatched_record_test() {
    let f1 = entries(&["4,aa,bb,only-in-1.txt"]);
    let f2 = entries(&["5,cc,dd,only-in-2.txt"]);
    let mp = match_partition(&f1, &f2).unwrap();
    assert_eq!(bucket_counts(&mp), (0, 0, 0, 1, 1));
    assert_eq!(mp.no_match_file1[0].to_string(), "4,aa,bb,only-in-1.txt");
    assert_eq!(mp.no_match_file2[0].to_string(), "5,cc,dd,only-in-2.txt");
}

// Identical records, one per source, pair at the full tier and never reach
// the name or hashes tiers.
#[test]
fn full_match_tier_exclusive_test() {
    let f1 = entries(&["4,aa,bb,dir/f.txt", "4,cc,dd,dir/f.txt"]);
    let f2 = entries(&["4,aa,bb,dir/f.txt", "4,aa,bb,dir/g.txt"]);
    let mp = match_partition(&f1, &f2).unwrap();
    // the identical pair lands at the full tier only
    assert_eq!(mp.full_match_pairs.len(), 1);
    assert_eq!(mp.full_match_pairs[0].from_file1.to_string(), "4,aa,bb,dir/f.txt");
    // the leftover records find no partner at the later tiers: the matching
    // copies were consumed by the full tier and never handed on
    assert_eq!(mp.name_match_pairs.len(), 0);
    assert_eq!(mp.hashes_match_pairs.len(), 0);
    assert_eq!(mp.no_match_file1.len(), 1);
    assert_eq!(mp.no_match_file2.len(), 1);
}

// The buckets come out sorted by path regardless of input order.
#[test]
fn sorted_output_test() {
    let f1 = entries(&["1,a,b,zeta.txt", "2,c,d,alpha.txt", "3,e,f,mid.txt"]);
    let f2 = entries(&["1,a,b,zeta.txt", "2,c,d,alpha.txt", "3,e,f,mid.txt"]);
    let mp = match_partition(&f1, &f2).unwrap();
    assert_eq!(mp.full_match_pairs.len(), 3);
    assert_eq!(mp.full_match_pairs[0].from_file1.filename, "alpha.txt");
    assert_eq!(mp.full_match_pairs[1].from_file1.filename, "mid.txt");
    assert_eq!(mp.full_match_pairs[2].from_file1.filename, "zeta.txt");
}
