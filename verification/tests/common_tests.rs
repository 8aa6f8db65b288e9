use hashdeep_compare::common::{
    check_hashdeep_log_header, parse_log_contents, render_log_entries, render_log_file,
    render_match_groups, render_match_pairs, render_single_file_match_groups, usize_to_string,
    HashdeepLogHeaderWarning,
};
use hashdeep_compare::common::HashdeepLogHeaderWarning::{
    HeaderNotFound, Unexpected5thLineContent, UnexpectedHeaderLineCount, UnexpectedVersionString,
    UntestedLogFormat,
};
use hashdeep_compare::log_entry::LogEntry;
use hashdeep_compare::partitioner::match_partition;

#[test]
fn check_hashdeep_log_header_test() {
    fn to_vec_string(x: &[&str]) -> Vec<String> {
        x.iter().map(|x| x.to_string()).collect::<Vec<String>>()
    }

    //success
    {
        let header_lines = [
            "%%%% HASHDEEP-1.0",
            "%%%% size,md5,sha256,filename",
            "## Invoked from: /home/user",
            "## $ hashdeep -lr hashdeepComp/",
            "## ",
        ];

        let expected = [];

        let warnings = check_hashdeep_log_header(&to_vec_string(&header_lines));

        assert_eq!(warnings, expected);
    }

    //success with sort message in header
    {
        let header_lines = [
            "%%%% HASHDEEP-1.0",
            "%%%% size,md5,sha256,filename",
            "## Invoked from: /home/user",
            "## $ hashdeep -lr hashdeepComp/",
            "## Sorted by hashdeep-compare v0.0.0",
        ];

        let expected = [];

        let warnings = check_hashdeep_log_header(&to_vec_string(&header_lines));

        assert_eq!(warnings, expected);
    }

    {
        let header_lines = [
            "%%%% HASHDEEP-2.0",
            "%%%% size,md5,sha256,filename",
            "## Invoked from: /home/user",
            "## $ hashdeep -lr hashdeepComp/",
            "## ",
        ];

        let expected = [UnexpectedVersionString("%%%% HASHDEEP-2.0".into())];

        let warnings = check_hashdeep_log_header(&to_vec_string(&header_lines));

        assert_eq!(warnings, expected);
    }

    {
        let header_lines = [];

        let expected = [HeaderNotFound];

        let warnings = check_hashdeep_log_header(&to_vec_string(&header_lines));

        assert_eq!(warnings, expected);
    }

    {
        let header_lines = [
            "%%%% HASHDEEP-1.0",
            "%%%% size,md5,filename",
            "## Invoked from: /home/user",
            "## $ hashdeep -lr hashdeepComp/",
            "## ",
        ];

        let expected = [UntestedLogFormat("%%%% size,md5,filename".into())];

        let warnings = check_hashdeep_log_header(&to_vec_string(&header_lines));

        assert_eq!(warnings, expected);
    }

    {
        let header_lines = [
            "%%%% HASHDEEP-1.0",
            "%%%% size,md5,sha256,filename",
            "## Invoked from: /home/user",
            "## $ hashdeep -lr hashdeepComp/",
        ];

        let expected = [UnexpectedHeaderLineCount(4)];

        let warnings = check_hashdeep_log_header(&to_vec_string(&header_lines));

        assert_eq!(warnings, expected);
    }

    {
        let header_lines = ["%%%% HASHDEEP-3.0", "%%%% size,sha256,filename"];

        let expected = [
            UnexpectedVersionString("%%%% HASHDEEP-3.0".into()),
            UntestedLogFormat("%%%% size,sha256,filename".into()),
            UnexpectedHeaderLineCount(2),
        ];

        let warnings = check_hashdeep_log_header(&to_vec_string(&header_lines));

        assert_eq!(warnings, expected);
    }

    {
        let header_lines = [
            "%%%% HASHDEEP-1.0",
            "%%%% size,md5,sha256,filename",
            "## Invoked from: /home/user",
            "## $ hashdeep -lr hashdeepComp/",
            "## invalid 5th line content",
        ];

        let expected = [Unexpected5thLineContent("## invalid 5th line content".to_string())];

        let warnings = check_hashdeep_log_header(&to_vec_string(&header_lines));

        assert_eq!(warnings, expected);
    }
}

#[test]
fn usize_to_string_test() {
    assert_eq!(usize_to_string(0), "0");
    assert_eq!(usize_to_string(7), "7");
    assert_eq!(usize_to_string(10), "10");
    assert_eq!(usize_to_string(305), "305");
    assert_eq!(usize_to_string(120034), "120034");
}

#[test]
fn parse_log_contents_test() {
    let contents = "%%%% HASHDEEP-1.0\n%%%% size,md5,sha256,filename\n## Invoked from: /home/user\n## $ hashdeep -lr hashdeepComp/\n## \n4,aa,bb,dir/f.txt\nnot a log line\n5,cc,dd,dir/g.txt\n";
    let log_file = parse_log_contents(contents);
    assert_eq!(log_file.header_lines.len(), 5);
    assert_eq!(log_file.header_warnings.len(), 0);
    assert_eq!(log_file.entries.len(), 2);
    assert_eq!(log_file.entries[0].to_string(), "4,aa,bb,dir/f.txt");
    assert_eq!(log_file.entries[1].to_string(), "5,cc,dd,dir/g.txt");
    assert_eq!(log_file.invalid_lines, vec!["not a log line".to_string()]);
}

#[test]
fn parse_log_contents_crlf_test() {
    let contents = "%%%% HASHDEEP-1.0\r\n%%%% size,md5,sha256,filename\r\n## a\r\n## b\r\n## \r\n4,aa,bb,dir/f.txt\r\n";
    let log_file = parse_log_contents(contents);
    assert_eq!(log_file.header_lines[0], "%%%% HASHDEEP-1.0");
    assert_eq!(log_file.header_warnings.len(), 0);
    assert_eq!(log_file.entries.len(), 1);
    assert_eq!(log_file.entries[0].to_string(), "4,aa,bb,dir/f.txt");
}

#[test]
fn warning_report_test() {
    let clean = parse_log_contents(
        "%%%% HASHDEEP-1.0\n%%%% size,md5,sha256,filename\n## a\n## b\n## \n4,aa,bb,f\n",
    );
    assert_eq!(clean.warning_report(), None);

    let with_problems = parse_log_contents("%%%% HASHDEEP-2.0\nbroken line\n");
    let report = with_problems.warning_report().unwrap();
    assert_eq!(
        report,
        vec![
            "Unexpected version string: \"%%%% HASHDEEP-2.0\"".to_string(),
            "Unexpected header line count: 1 (expected: 5)".to_string(),
            "1 invalid log entry detected".to_string(),
        ]
    );
}

#[test]
fn note_header_modified_test() {
    let mut log_file = parse_log_contents(
        "%%%% HASHDEEP-1.0\n%%%% size,md5,sha256,filename\n## a\n## b\n## \n4,aa,bb,f\n",
    );
    log_file.note_header_modified("9.9.9");
    assert_eq!(log_file.header_lines[4], "## Modified by hashdeep-compare v9.9.9");

    // a short header disqualifies the note
    let mut short = parse_log_contents("%%%% HASHDEEP-1.0\n%%%% size,md5,sha256,filename\n");
    let before = short.header_lines.clone();
    short.note_header_modified("9.9.9");
    assert_eq!(short.header_lines, before);
}

#[test]
fn render_log_entries_test() {
    let entries: Vec<LogEntry> =
        ["4,aa,bb,dir/f.txt", "5,cc,dd,dir/g.txt"].iter().map(|l| LogEntry::from_str(l).unwrap()).collect();
    assert_eq!(render_log_entries(&entries), vec!["4,aa,bb,dir/f.txt", "5,cc,dd,dir/g.txt"]);
}

#[test]
fn render_log_file_round_trip_test() {
    // rendering a freshly parsed log reproduces its lines
    let contents = "%%%% HASHDEEP-1.0\n%%%% size,md5,sha256,filename\n## a\n## b\n## \n4,aa,bb,dir/f.txt\n5,cc,dd,dir/g.txt\n";
    let log_file = parse_log_contents(contents);
    let lines = render_log_file(&log_file);
    let mut rebuilt = String::new();
    for line in &lines {
        rebuilt.push_str(line);
        rebuilt.push('\n');
    }
    assert_eq!(rebuilt, contents);
}

#[test]
fn render_partition_buckets_test() {
    let f1: Vec<LogEntry> = ["4,aa,bb,dir/f.txt", "6,ee,ff,solo", "6,ee,ff,solo", "7,gg,hh,cross", "7,gg,hh,cross"]
        .iter()
        .map(|l| LogEntry::from_str(l).unwrap())
        .collect();
    let f2: Vec<LogEntry> = ["4,aa,bb,dir/f.txt", "7,gg,hh,cross"]
        .iter()
        .map(|l| LogEntry::from_str(l).unwrap())
        .collect();
    let mp = match_partition(&f1, &f2).unwrap();

    assert_eq!(
        render_match_pairs(&mp.full_match_pairs),
        vec!["file1: 4,aa,bb,dir/f.txt", "file2: 4,aa,bb,dir/f.txt", ""]
    );
    assert_eq!(
        render_single_file_match_groups(&mp.full_match_groups_file1),
        vec!["6,ee,ff,solo", "6,ee,ff,solo", ""]
    );
    assert_eq!(
        render_match_groups(&mp.full_match_groups),
        vec!["file1: 7,gg,hh,cross", "file1: 7,gg,hh,cross", "file2: 7,gg,hh,cross", ""]
    );
}
