use hashdeep_compare::help::{help_string, long_about_hash_string, long_about_sort_string};
use hashdeep_compare::log_entry::LogEntry;
use hashdeep_compare::partition::partition_stats_string;
use hashdeep_compare::partitioner::match_partition;
use hashdeep_compare::root::{change_root_entries, ChangeRootSuccess};
use hashdeep_compare::sort::sort_log_entries;

fn entries(lines: &[&str]) -> Vec<LogEntry> {
    lines.iter().map(|l| LogEntry::from_str(l).unwrap()).collect()
}

#[test]
fn help_string_test() {
    assert_eq!(help_string("1.2.3"), "hashdeep-compare v1.2.3");
    assert_eq!(
        long_about_hash_string(),
        "Invokes hashdeep and generates a log file compatible with hashdeep-compare."
    );
    assert_eq!(long_about_sort_string(), "Sorts the entries in a hashdeep log by file path.");
}

#[test]
fn sort_log_entries_test() {
    let mut v = entries(&["3,e,f,zz.txt", "1,a,b,mm.txt", "2,c,d,aa.txt"]);
    sort_log_entries(&mut v);
    let names: Vec<String> = v.iter().map(|e| e.filename.clone()).collect();
    assert_eq!(names, vec!["aa.txt", "mm.txt", "zz.txt"]);
}

#[test]
fn sort_log_entries_stable_test() {
    // the sort is by path alone and stable: entries sharing a path keep
    // their relative input order, whatever their digest keys
    let mut v = entries(&["2,c,d,p.txt", "9,z,z,a.txt", "1,a,b,p.txt"]);
    sort_log_entries(&mut v);
    let lines: Vec<String> = v.iter().map(|e| e.to_string()).collect();
    assert_eq!(lines, vec!["9,z,z,a.txt", "2,c,d,p.txt", "1,a,b,p.txt"]);
}

#[test]
fn change_root_entries_test() {
    let v = entries(&[
        "1,a,b,hashdeepComp/kept.txt",
        "2,c,d,elsewhere/dropped.txt",
        "3,e,f,hashdeepComp/sub/kept2.txt",
    ]);
    let changed = change_root_entries(&v, "hashdeepComp/");
    let names: Vec<String> = changed.iter().map(|e| e.filename.clone()).collect();
    assert_eq!(names, vec!["kept.txt", "sub/kept2.txt"]);
    assert_eq!(changed[0].hashes, "1,a,b");
}

#[test]
fn change_root_success_lines_test() {
    let all = ChangeRootSuccess { file_warning_lines: None, entries_matched: 3, entries_omitted: 0 };
    assert_eq!(
        all.info_lines(),
        vec!["Input file contains 3 entries:", "  All 3 entries matched the prefix"]
    );
    assert_eq!(all.warning_lines(), Vec::<String>::new());

    let some = ChangeRootSuccess { file_warning_lines: None, entries_matched: 2, entries_omitted: 1 };
    assert_eq!(
        some.info_lines(),
        vec![
            "Input file contains 3 entries:",
            "  2 entries matched the prefix",
            "  1 entries did not match the prefix and were omitted",
        ]
    );

    let none = ChangeRootSuccess { file_warning_lines: None, entries_matched: 0, entries_omitted: 4 };
    assert_eq!(none.info_lines(), vec!["Input file contains 4 entries:"]);
    assert_eq!(
        none.warning_lines(),
        vec!["Warning: No entries matched the prefix (All entries were omitted)"]
    );
}

#[test]
fn partition_stats_string_test() {
    let f1 = entries(&["4,aa,bb,dir/f.txt", "9,zz,yy,lonely"]);
    let f2 = entries(&["4,aa,bb,dir/f.txt"]);
    let mp = match_partition(&f1, &f2).unwrap();
    let stats = partition_stats_string(&mp);
    let expected = "log partition statistics:\n   (note: \"pairs\" have 1 entry in each file)\n 1 full match pairs\n 0 full match groups in file 1 only (should be 0)\n 0 full match groups in file 2 only (should be 0)\n 0 full match groups in both files (should be 0)\n 0 name match pairs\n 0 name match groups in file 1 only (should be 0)\n 0 name match groups in file 2 only (should be 0)\n 0 name match groups in both files (should be 0)\n 0 hashes match pairs\n 0 hashes match groups in file 1 only\n 0 hashes match groups in file 2 only\n 0 hashes match groups in both files\n 1 entries in file 1 with no match\n 0 entries in file 2 with no match\n";
    assert_eq!(stats, expected);
}

#[test]
fn change_root_text_prefix_test() {
    // the prefix is applied as plain text, without any path rules
    let v = entries(&["1,a,b,testdir/file.txt"]);
    let changed = change_root_entries(&v, "test");
    assert_eq!(changed[0].filename, "dir/file.txt");
}
