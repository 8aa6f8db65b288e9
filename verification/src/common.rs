//! Reading and rendering of hashdeep logs: header validation, line
//! tokenization, and the textual form of every output bucket.

use vstd::prelude::*;
use core::cmp::Ordering;
use crate::log_entry::{entry_views, record_line, spec_parse, LogEntry, LogEntryView};
use crate::partitioner::match_pair::{MatchPair, PairView};
use crate::partitioner::match_group::{GroupView, MatchGroup, SingleFileMatchGroup};
use crate::partitioner::classify::{cross_views, pair_views, solo_views};
use crate::text_order::{lemma_lex_cmp_eq, lemma_lex_cmp_refl, lex_cmp, str_cmp};

verus! {

/// Are two strings the same text?
pub fn str_eq(a: &str, b: &str) -> (r: bool)
    ensures
        r == (a@ == b@),
{
    let o = str_cmp(a, b);
    proof {
        if lex_cmp(a@, b@) == Ordering::Equal {
            lemma_lex_cmp_eq(a@, b@);
        }
        if a@ == b@ {
            lemma_lex_cmp_refl(a@);
        }
    }
    matches!(o, Ordering::Equal)
}

/// Does `s` start with `prefix`?
pub open spec fn starts_with_spec(s: Seq<char>, prefix: Seq<char>) -> bool {
    s.len() >= prefix.len() && s.subrange(0, prefix.len() as int) == prefix
}

/// Tests whether `s` starts with `prefix`.
pub fn str_starts_with(s: &str, prefix: &str) -> (r: bool)
    ensures
        r == starts_with_spec(s@, prefix@),
{
    let n = s.unicode_len();
    let m = prefix.unicode_len();
    if m > n {
        return false;
    }
    let head = s.substring_char(0, m);
    str_eq(head, prefix)
}

/// The decimal digits of `n`, most significant first.
pub open spec fn dec_digits(n: int) -> Seq<char>
    decreases n,
{
    if n < 10 {
        seq![((48 + if n >= 0 { n } else { 0 }) as char)]
    } else {
        dec_digits(n / 10).push((48 + n % 10) as char)
    }
}

/// One decimal digit as text.
fn digit_str(d: usize) -> (r: &'static str)
    requires
        d < 10,
    ensures
        r@ == seq![(48 + d) as char],
{
    let r = match d {
        0 => "0",
        1 => "1",
        2 => "2",
        3 => "3",
        4 => "4",
        5 => "5",
        6 => "6",
        7 => "7",
        8 => "8",
        _ => "9",
    };
    proof {
        reveal_strlit("0");
        reveal_strlit("1");
        reveal_strlit("2");
        reveal_strlit("3");
        reveal_strlit("4");
        reveal_strlit("5");
        reveal_strlit("6");
        reveal_strlit("7");
        reveal_strlit("8");
        reveal_strlit("9");
        assert(r@ =~= seq![(48 + d) as char]);
    }
    r
}

/// Renders a count in decimal.
pub fn usize_to_string(n: usize) -> (r: String)
    ensures
        r@ == dec_digits(n as int),
    decreases n,
{
    if n < 10 {
        let d = digit_str(n);
        let r = d.to_owned();
        r
    } else {
        let mut r = usize_to_string(n / 10);
        r.append(digit_str(n % 10));
        proof {
            assert(r@ =~= dec_digits(n as int));
        }
        r
    }
}

/// A deviation of a log's five-line header from the expected form.
#[derive(Clone, Debug, PartialEq)]
pub enum HashdeepLogHeaderWarning {
    UnexpectedVersionString(String),
    HeaderNotFound,
    UntestedLogFormat(String),
    UnexpectedHeaderLineCount(usize),
    Unexpected5thLineContent(String),
}

/// The mathematical content of a header warning.
#[verifier::ext_equal]
pub ghost enum HeaderWarningView {
    UnexpectedVersionString { s: Seq<char> },
    HeaderNotFound,
    UntestedLogFormat { s: Seq<char> },
    UnexpectedHeaderLineCount { n: int },
    Unexpected5thLineContent { s: Seq<char> },
}

impl View for HashdeepLogHeaderWarning {
    type V = HeaderWarningView;

    open spec fn view(&self) -> HeaderWarningView {
        match self {
            HashdeepLogHeaderWarning::UnexpectedVersionString(s) => {
                HeaderWarningView::UnexpectedVersionString { s: s@ }
            },
            HashdeepLogHeaderWarning::HeaderNotFound => HeaderWarningView::HeaderNotFound,
            HashdeepLogHeaderWarning::UntestedLogFormat(s) => {
                HeaderWarningView::UntestedLogFormat { s: s@ }
            },
            HashdeepLogHeaderWarning::UnexpectedHeaderLineCount(n) => {
                HeaderWarningView::UnexpectedHeaderLineCount { n: *n as int }
            },
            HashdeepLogHeaderWarning::Unexpected5thLineContent(s) => {
                HeaderWarningView::Unexpected5thLineContent { s: s@ }
            },
        }
    }
}

/// The views of a list of header warnings.
pub open spec fn warning_views(s: Seq<HashdeepLogHeaderWarning>) -> Seq<HeaderWarningView> {
    s.map_values(|w: HashdeepLogHeaderWarning| w@)
}

/// The warnings the header check yields for the given header lines.
pub open spec fn spec_check_header(lines: Seq<Seq<char>>) -> Seq<HeaderWarningView> {
    if lines.len() == 0 {
        seq![HeaderWarningView::HeaderNotFound]
    } else {
        let w1: Seq<HeaderWarningView> = if lines[0] == "%%%% HASHDEEP-1.0"@ {
            Seq::empty()
        } else {
            seq![HeaderWarningView::UnexpectedVersionString { s: lines[0] }]
        };
        let w2: Seq<HeaderWarningView> = if lines.len() < 2 || lines[1]
            == "%%%% size,md5,sha256,filename"@ {
            Seq::empty()
        } else {
            seq![HeaderWarningView::UntestedLogFormat { s: lines[1] }]
        };
        let w3: Seq<HeaderWarningView> = if lines.len() < 5 || lines[4] == "## "@
            || starts_with_spec(lines[4], "## Sorted by hashdeep-compare"@) {
            Seq::empty()
        } else {
            seq![HeaderWarningView::Unexpected5thLineContent { s: lines[4] }]
        };
        let w4: Seq<HeaderWarningView> = if lines.len() == 5 {
            Seq::empty()
        } else {
            seq![HeaderWarningView::UnexpectedHeaderLineCount { n: lines.len() as int }]
        };
        w1 + w2 + w3 + w4
    }
}

/// Checks a log's header lines against the expected five-line form:
///
/// ```text
/// %%%% HASHDEEP-1.0
/// %%%% size,md5,sha256,filename
/// ## Invoked from: /home/user
/// ## $ hashdeep -lr hashdeepComp/
/// ##
/// ```
pub fn check_hashdeep_log_header(header_lines: &Vec<String>) -> (r: Vec<HashdeepLogHeaderWarning>)
    ensures
        warning_views(r@) == spec_check_header(header_lines@.map_values(|s: String| s@)),
{
    let ghost lv = header_lines@.map_values(|s: String| s@);
    let mut warnings: Vec<HashdeepLogHeaderWarning> = Vec::new();
    if header_lines.len() == 0 {
        warnings.push(HashdeepLogHeaderWarning::HeaderNotFound);
        proof {
            assert(warning_views(warnings@) =~= spec_check_header(lv));
        }
        return warnings;
    }
    if !str_eq(header_lines[0].as_str(), "%%%% HASHDEEP-1.0") {
        warnings.push(
            HashdeepLogHeaderWarning::UnexpectedVersionString(header_lines[0].clone()),
        );
    }
    if header_lines.len() >= 2 && !str_eq(
        header_lines[1].as_str(),
        "%%%% size,md5,sha256,filename",
    ) {
        warnings.push(HashdeepLogHeaderWarning::UntestedLogFormat(header_lines[1].clone()));
    }
    if header_lines.len() >= 5 && !str_eq(header_lines[4].as_str(), "## ") && !str_starts_with(
        header_lines[4].as_str(),
        "## Sorted by hashdeep-compare",
    ) {
        warnings.push(
            HashdeepLogHeaderWarning::Unexpected5thLineContent(header_lines[4].clone()),
        );
    }
    if header_lines.len() != 5 {
        warnings.push(HashdeepLogHeaderWarning::UnexpectedHeaderLineCount(header_lines.len()));
    }
    proof {
        assert(warning_views(warnings@) =~= spec_check_header(lv));
    }
    warnings
}


/// The views of a list of strings.
pub open spec fn string_views(s: Seq<String>) -> Seq<Seq<char>> {
    s.map_values(|x: String| x@)
}

/// Index of the first newline of `s` at or after `start` (or `s.len()` if
/// none).
pub open spec fn find_newline(s: Seq<char>, start: int) -> int
    decreases s.len() - start,
{
    if start < 0 || start >= s.len() {
        s.len() as int
    } else if s[start] == '\n' {
        start
    } else {
        find_newline(s, start + 1)
    }
}

/// A line with any trailing carriage return removed.
pub open spec fn trim_cr(l: Seq<char>) -> Seq<char> {
    if l.len() > 0 && l.last() == '\r' {
        l.drop_last()
    } else {
        l
    }
}

/// The lines of a text: split at newlines, each line's trailing carriage
/// return removed, the final line ending optional.
pub open spec fn split_lines(s: Seq<char>) -> Seq<Seq<char>>
    decreases s.len(),
{
    if s.len() == 0 {
        Seq::empty()
    } else {
        let i = find_newline(s, 0);
        if 0 <= i && i < s.len() {
            seq![trim_cr(s.subrange(0, i))] + split_lines(s.subrange(i + 1, s.len() as int))
        } else {
            seq![s]
        }
    }
}

proof fn lemma_find_newline_unique(s: Seq<char>, start: int, r: int)
    requires
        0 <= start <= r <= s.len(),
        r < s.len() ==> s[r] == '\n',
        forall|j: int| start <= j < r ==> s[j] != '\n',
    ensures
        find_newline(s, start) == r,
    decreases s.len() - start,
{
    if start < s.len() && s[start] != '\n' {
        lemma_find_newline_unique(s, start + 1, r);
    }
}

/// Finds the first newline of `s` at or after `start`.
#[verifier::loop_isolation(false)]
fn find_newline_exec(s: &str, start: usize, n: usize) -> (r: usize)
    requires
        n == s@.len(),
        start <= n,
    ensures
        r == find_newline(s@, start as int),
        start <= r <= n,
{
    let mut i: usize = start;
    while i < n
        invariant
            start <= i <= n,
            forall|j: int| start <= j < i ==> s@[j] != '\n',
        decreases n - i,
    {
        let c = s.get_char(i);
        if c == '\n' {
            proof {
                lemma_find_newline_unique(s@, start as int, i as int);
            }
            return i;
        }
        i = i + 1;
    }
    proof {
        lemma_find_newline_unique(s@, start as int, n as int);
    }
    n
}

/// Splits a text into its lines.
pub fn split_lines_exec(contents: &str) -> (r: Vec<String>)
    ensures
        string_views(r@) == split_lines(contents@),
    decreases contents@.len(),
{
    let n = contents.unicode_len();
    if n == 0 {
        let r: Vec<String> = Vec::new();
        proof {
            assert(string_views(r@) =~= split_lines(contents@));
        }
        return r;
    }
    let i = find_newline_exec(contents, 0, n);
    if i == n {
        let mut r: Vec<String> = Vec::new();
        r.push(contents.to_owned());
        proof {
            assert(string_views(r@) =~= split_lines(contents@));
        }
        r
    } else {
        let piece = contents.substring_char(0, i);
        let pn = i;
        let line = if pn > 0 && piece.get_char(pn - 1) == '\r' {
            piece.substring_char(0, pn - 1).to_owned()
        } else {
            piece.to_owned()
        };
        proof {
            assert(piece@ == contents@.subrange(0, i as int));
            if pn > 0 && piece@[pn - 1] == '\r' {
                assert(line@ =~= trim_cr(contents@.subrange(0, i as int)));
            } else {
                assert(line@ =~= trim_cr(contents@.subrange(0, i as int)));
            }
        }
        let rest = contents.substring_char(i + 1, n);
        let mut r = split_lines_exec(rest);
        r.insert(0, line);
        proof {
            assert(string_views(r@) =~= split_lines(contents@));
        }
        r
    }
}

/// Is this line part of a log's header?
pub open spec fn is_header_line(l: Seq<char>) -> bool {
    starts_with_spec(l, "%%%%"@) || starts_with_spec(l, "##"@)
}

/// How many leading lines belong to the header.
pub open spec fn header_count(ls: Seq<Seq<char>>) -> int
    decreases ls.len(),
{
    if ls.len() == 0 {
        0
    } else if is_header_line(ls[0]) {
        1 + header_count(ls.drop_first())
    } else {
        0
    }
}

proof fn lemma_header_count_unique(ls: Seq<Seq<char>>, i: int)
    requires
        0 <= i <= ls.len(),
        forall|j: int| 0 <= j < i ==> is_header_line(#[trigger] ls[j]),
        i < ls.len() ==> !is_header_line(ls[i]),
    ensures
        header_count(ls) == i,
    decreases ls.len(),
{
    if ls.len() > 0 && i > 0 {
        assert(is_header_line(ls[0]));
        lemma_header_count_unique(ls.drop_first(), i - 1);
    }
}

/// Holds whenever a line parses as a record, as a function value.
pub open spec fn parsable() -> spec_fn(Seq<char>) -> bool {
    |l: Seq<char>| spec_parse(l) is Some
}

/// Fails whenever a line does not parse, as a function value.
pub open spec fn unparsable() -> spec_fn(Seq<char>) -> bool {
    |l: Seq<char>| !(spec_parse(l) is Some)
}

/// The record a parsable line denotes, as a function value.
pub open spec fn parse_of() -> spec_fn(Seq<char>) -> LogEntryView {
    |l: Seq<char>| spec_parse(l).unwrap()
}

/// The header lines of a log text.
pub open spec fn log_header_lines(s: Seq<char>) -> Seq<Seq<char>> {
    split_lines(s).take(header_count(split_lines(s)))
}

/// The body lines of a log text: everything after the header.
pub open spec fn log_body_lines(s: Seq<char>) -> Seq<Seq<char>> {
    split_lines(s).skip(header_count(split_lines(s)))
}

/// The result of successfully reading a hashdeep log:
/// its entries, plus load-time header warnings and entry parse failures (if
/// any).
#[derive(Debug, PartialEq)]
pub struct LogFile {
    pub entries: Vec<LogEntry>,
    pub header_warnings: Vec<HashdeepLogHeaderWarning>,
    pub header_lines: Vec<String>,
    pub invalid_lines: Vec<String>,
}

/// Parses a hashdeep log's text: collects the header lines by their prefix
/// symbols, checks them, then tokenizes every body line into a record,
/// keeping unparseable lines as warnings.
#[verifier::loop_isolation(false)]
pub fn parse_log_contents(contents: &str) -> (r: LogFile)
    ensures
        string_views(r.header_lines@) == log_header_lines(contents@),
        warning_views(r.header_warnings@) == spec_check_header(log_header_lines(contents@)),
        entry_views(r.entries@) == log_body_lines(contents@).filter(parsable()).map_values(
            parse_of(),
        ),
        string_views(r.invalid_lines@) == log_body_lines(contents@).filter(unparsable()),
{
    let lines = split_lines_exec(contents);
    let ghost lv = split_lines(contents@);
    let n = lines.len();
    let mut i: usize = 0;
    let mut header_lines: Vec<String> = Vec::new();
    let mut keep_scanning = true;
    while keep_scanning && i < n
        invariant
            i <= n,
            n == lv.len(),
            string_views(lines@) == lv,
            forall|j: int| 0 <= j < i ==> is_header_line(#[trigger] lv[j]),
            string_views(header_lines@) == lv.take(i as int),
            !keep_scanning ==> i < n && !is_header_line(lv[i as int]),
        decreases n - i + (if keep_scanning { 1int } else { 0int }),
    {
        let is_header = str_starts_with(lines[i].as_str(), "%%%%") || str_starts_with(
            lines[i].as_str(),
            "##",
        );
        if is_header {
            header_lines.push(lines[i].clone());
            proof {
                assert(string_views(header_lines@) =~= lv.take(i + 1));
            }
            i = i + 1;
        } else {
            keep_scanning = false;
        }
    }
    proof {
        lemma_header_count_unique(lv, i as int);
        assert(string_views(header_lines@) == log_header_lines(contents@));
    }
    let header_warnings = check_hashdeep_log_header(&header_lines);

    let ghost body = lv.skip(i as int);
    let hc = i;
    let mut entries: Vec<LogEntry> = Vec::new();
    let mut invalid_lines: Vec<String> = Vec::new();
    let mut j: usize = hc;
    proof {
        assert(body.take(0) =~= Seq::<Seq<char>>::empty());
        reveal(Seq::filter);
    }
    while j < n
        invariant
            hc <= j <= n,
            n == lv.len(),
            string_views(lines@) == lv,
            body == lv.skip(hc as int),
            entry_views(entries@) == body.take(j - hc).filter(parsable()).map_values(parse_of()),
            string_views(invalid_lines@) == body.take(j - hc).filter(unparsable()),
        decreases n - j,
    {
        proof {
            assert(body.take(j - hc + 1) =~= body.take(j - hc).push(lv[j as int]));
            Seq::lemma_filter_push(body.take(j - hc), lv[j as int], parsable());
            Seq::lemma_filter_push(body.take(j - hc), lv[j as int], unparsable());
        }
        match LogEntry::from_str(lines[j].as_str()) {
            Some(e) => {
                let ghost ev = e@;
                let ghost epre = entries@;
                proof {
                    assert(lv[j as int] == lines@[j as int]@);
                    assert(spec_parse(lv[j as int]) == Some(ev));
                    assert(parse_of()(lv[j as int]) == ev);
                    assert(parsable()(lv[j as int]));
                }
                entries.push(e);
                proof {
                    let fpre = body.take(j - hc).filter(parsable());
                    assert(entries@ == epre.push(e));
                    assert(entry_views(entries@) =~= entry_views(epre).push(ev));
                    assert(body.take(j - hc + 1).filter(parsable()) == fpre.push(lv[j as int]));
                    assert(fpre.push(lv[j as int]).map_values(parse_of()) =~= fpre.map_values(
                        parse_of(),
                    ).push(parse_of()(lv[j as int])));
                    assert(entry_views(entries@) == body.take(j - hc + 1).filter(
                        parsable(),
                    ).map_values(parse_of()));
                }
            },
            None => {
                let ghost ipre = invalid_lines@;
                invalid_lines.push(lines[j].clone());
                proof {
                    assert(lv[j as int] == lines@[j as int]@);
                    assert(string_views(invalid_lines@) =~= string_views(ipre).push(
                        lv[j as int],
                    ));
                    assert(string_views(invalid_lines@) =~= body.take(j - hc + 1).filter(
                        unparsable(),
                    ));
                }
            },
        }
        j = j + 1;
    }
    proof {
        assert(body.take(n - hc) =~= body);
    }
    LogFile { entries, header_warnings, header_lines, invalid_lines }
}


/// The printable text of a header warning.
pub open spec fn warning_line(w: HeaderWarningView) -> Seq<char> {
    match w {
        HeaderWarningView::UnexpectedVersionString { s } => "Unexpected version string: \""@ + s
            + "\""@,
        HeaderWarningView::HeaderNotFound => "Header not found"@,
        HeaderWarningView::UntestedLogFormat { s } => "Untested log format: \""@ + s + "\""@,
        HeaderWarningView::UnexpectedHeaderLineCount { n } => "Unexpected header line count: "@
            + dec_digits(n) + " (expected: 5)"@,
        HeaderWarningView::Unexpected5thLineContent { s } => "Unexpected 5th line content: \""@ + s
            + "\""@,
    }
}

impl HashdeepLogHeaderWarning {
    /// Renders the warning as one printable line.
    pub fn to_string(&self) -> (r: String)
        ensures
            r@ == warning_line(self@),
    {
        match self {
            HashdeepLogHeaderWarning::UnexpectedVersionString(s) => {
                let mut r = "Unexpected version string: \"".to_owned();
                r.append(s.as_str());
                r.append("\"");
                proof {
                    assert(r@ =~= warning_line(self@));
                }
                r
            },
            HashdeepLogHeaderWarning::HeaderNotFound => "Header not found".to_owned(),
            HashdeepLogHeaderWarning::UntestedLogFormat(s) => {
                let mut r = "Untested log format: \"".to_owned();
                r.append(s.as_str());
                r.append("\"");
                proof {
                    assert(r@ =~= warning_line(self@));
                }
                r
            },
            HashdeepLogHeaderWarning::UnexpectedHeaderLineCount(n) => {
                let mut r = "Unexpected header line count: ".to_owned();
                let d = usize_to_string(*n);
                r.append(d.as_str());
                r.append(" (expected: 5)");
                proof {
                    assert(r@ =~= warning_line(self@));
                }
                r
            },
            HashdeepLogHeaderWarning::Unexpected5thLineContent(s) => {
                let mut r = "Unexpected 5th line content: \"".to_owned();
                r.append(s.as_str());
                r.append("\"");
                proof {
                    assert(r@ =~= warning_line(self@));
                }
                r
            },
        }
    }
}

/// The printable text of each warning, as a function value.
pub open spec fn warning_line_fn() -> spec_fn(HeaderWarningView) -> Seq<char> {
    |w: HeaderWarningView| warning_line(w)
}

/// The lines of a load report: one per header warning, then a note counting
/// invalid entries, if any.
pub open spec fn report_lines(ws: Seq<HeaderWarningView>, invalid: int) -> Seq<Seq<char>> {
    ws.map_values(warning_line_fn()) + if invalid == 0 {
        Seq::<Seq<char>>::empty()
    } else if invalid == 1 {
        seq!["1 invalid log entry detected"@]
    } else {
        seq![dec_digits(invalid) + " invalid log entries detected"@]
    }
}

impl LogFile {
    /// Returns a Vec of printable warning lines (or None, if no warnings or
    /// invalid lines exist).
    #[verifier::loop_isolation(false)]
    pub fn warning_report(&self) -> (r: Option<Vec<String>>)
        ensures
            match r {
                Some(ls) => string_views(ls@) == report_lines(
                    warning_views(self.header_warnings@),
                    self.invalid_lines@.len() as int,
                ) && ls@.len() > 0,
                None => report_lines(
                    warning_views(self.header_warnings@),
                    self.invalid_lines@.len() as int,
                ).len() == 0,
            },
    {
        let ghost wv = warning_views(self.header_warnings@);
        let mut lines: Vec<String> = Vec::new();
        let mut i: usize = 0;
        while i < self.header_warnings.len()
            invariant
                i <= self.header_warnings@.len(),
                string_views(lines@) == wv.take(i as int).map_values(warning_line_fn()),
            decreases self.header_warnings@.len() - i,
        {
            let ghost lpre = lines@;
            lines.push(self.header_warnings[i].to_string());
            proof {
                assert(wv.take(i + 1) =~= wv.take(i as int).push(wv[i as int]));
                assert(string_views(lines@) =~= string_views(lpre).push(
                    warning_line(wv[i as int]),
                ));
                assert(wv.take(i + 1).map_values(warning_line_fn()) =~= wv.take(
                    i as int,
                ).map_values(warning_line_fn()).push(warning_line(wv[i as int])));
                assert(string_views(lines@) == wv.take(i + 1).map_values(warning_line_fn()));
            }
            i = i + 1;
        }
        proof {
            assert(wv.take(wv.len() as int) =~= wv);
        }
        let ninvalid = self.invalid_lines.len();
        if ninvalid == 1 {
            lines.push("1 invalid log entry detected".to_owned());
        } else if ninvalid > 1 {
            let mut line = usize_to_string(ninvalid);
            line.append(" invalid log entries detected");
            lines.push(line);
        }
        proof {
            assert(string_views(lines@) =~= report_lines(wv, ninvalid as int));
        }
        if lines.is_empty() {
            None
        } else {
            Some(lines)
        }
    }
}

/// Does a warning rule out adding the modification note to the header?
pub open spec fn skips_header_note(w: HeaderWarningView) -> bool {
    match w {
        HeaderWarningView::HeaderNotFound => true,
        HeaderWarningView::UnexpectedHeaderLineCount { .. } => true,
        HeaderWarningView::Unexpected5thLineContent { .. } => true,
        _ => false,
    }
}

/// The note a processed log carries on its fifth header line.
pub open spec fn header_note(version: Seq<char>) -> Seq<char> {
    "## Modified by hashdeep-compare v"@ + version
}

impl LogFile {
    /// Unless any disqualifying header warnings are found, replaces the
    /// fifth header line with a note naming this tool and its version.
    #[verifier::loop_isolation(false)]
    pub fn note_header_modified(&mut self, version: &str)
        ensures
            final(self).entries == old(self).entries,
            final(self).header_warnings == old(self).header_warnings,
            final(self).invalid_lines == old(self).invalid_lines,
            if (exists|i: int|
                0 <= i < old(self).header_warnings@.len() && skips_header_note(
                    #[trigger] old(self).header_warnings@[i]@,
                )) || old(self).header_lines@.len() < 5 {
                final(self).header_lines == old(self).header_lines
            } else {
                string_views(final(self).header_lines@) == string_views(
                    old(self).header_lines@,
                ).update(4, header_note(version@))
            },
    {
        let mut i: usize = 0;
        while i < self.header_warnings.len()
            invariant
                i <= self.header_warnings@.len(),
                self == old(self),
                forall|j: int|
                    0 <= j < i ==> !skips_header_note(#[trigger] self.header_warnings@[j]@),
            decreases self.header_warnings@.len() - i,
        {
            let skip = match &self.header_warnings[i] {
                HashdeepLogHeaderWarning::HeaderNotFound => true,
                HashdeepLogHeaderWarning::UnexpectedHeaderLineCount(_) => true,
                HashdeepLogHeaderWarning::Unexpected5thLineContent(_) => true,
                _ => false,
            };
            if skip {
                proof {
                    assert(skips_header_note(self.header_warnings@[i as int]@));
                }
                return ;
            }
            i = i + 1;
        }
        if self.header_lines.len() >= 5 {
            let mut line = "## Modified by hashdeep-compare v".to_owned();
            line.append(version);
            let ghost hpre = self.header_lines@;
            let _old_line = self.header_lines.remove(4);
            self.header_lines.insert(4, line);
            proof {
                hpre.remove_ensures(4);
                hpre.remove(4).insert_ensures(4, self.header_lines@[4]);
                assert(self.header_lines@ =~= hpre.update(4, self.header_lines@[4]));
                assert(self.header_lines@[4]@ == header_note(version@));
                assert(string_views(self.header_lines@) =~= string_views(hpre).update(
                    4,
                    header_note(version@),
                ));
            }
        }
    }
}

/// The rendered line of one entry, as a function value.
pub open spec fn record_line_fn() -> spec_fn(LogEntryView) -> Seq<char> {
    |v: LogEntryView| record_line(v)
}

/// The lines that render a list of entries, one line per entry.
pub open spec fn entry_lines(u: Seq<LogEntryView>) -> Seq<Seq<char>> {
    u.map_values(record_line_fn())
}

/// Renders a list of entries, one line per entry.
#[verifier::loop_isolation(false)]
pub fn render_log_entries(entries: &Vec<LogEntry>) -> (r: Vec<String>)
    ensures
        string_views(r@) == entry_lines(entry_views(entries@)),
{
    let ghost u = entry_views(entries@);
    let mut r: Vec<String> = Vec::new();
    let mut i: usize = 0;
    while i < entries.len()
        invariant
            i <= entries@.len(),
            u == entry_views(entries@),
            string_views(r@) == entry_lines(u.take(i as int)),
        decreases entries@.len() - i,
    {
        let ghost rpre = r@;
        r.push(entries[i].to_string());
        proof {
            assert(u.take(i + 1) =~= u.take(i as int).push(u[i as int]));
            assert(string_views(r@) =~= string_views(rpre).push(record_line(u[i as int])));
            assert(entry_lines(u.take(i + 1)) =~= entry_lines(u.take(i as int)).push(
                record_line(u[i as int]),
            ));
            assert(string_views(r@) == entry_lines(u.take(i + 1)));
        }
        i = i + 1;
    }
    proof {
        assert(u.take(u.len() as int) =~= u);
    }
    r
}


/// The line rendering one entry under a source label, as a function value.
pub open spec fn labeled_line_fn(label: Seq<char>) -> spec_fn(LogEntryView) -> Seq<char> {
    |v: LogEntryView| label + record_line(v)
}

/// The three lines that render one match pair: its two labeled entries and a
/// blank separator.
pub open spec fn pair_block(p: PairView) -> Seq<Seq<char>> {
    seq![
        "file1: "@ + record_line(p.from_file1),
        "file2: "@ + record_line(p.from_file2),
        Seq::<char>::empty(),
    ]
}

/// `pair_block` as a function value.
pub open spec fn pair_block_fn() -> spec_fn(PairView) -> Seq<Seq<char>> {
    |p: PairView| pair_block(p)
}

/// The lines that render a list of match pairs.
pub open spec fn match_pair_lines(ps: Seq<PairView>) -> Seq<Seq<char>> {
    ps.flat_map(pair_block_fn())
}

/// Renders match pairs: two labeled lines per pair, a blank line after each.
#[verifier::loop_isolation(false)]
pub fn render_match_pairs(pairs: &Vec<MatchPair>) -> (r: Vec<String>)
    ensures
        string_views(r@) == match_pair_lines(pair_views(pairs@)),
{
    let ghost ps = pair_views(pairs@);
    let mut r: Vec<String> = Vec::new();
    proof {
        assert(ps.take(0) =~= Seq::<PairView>::empty());
        assert(Seq::<PairView>::empty().flat_map(pair_block_fn()) =~= Seq::<Seq<char>>::empty());
        assert(string_views(r@) =~= ps.take(0).flat_map(pair_block_fn()));
    }
    let mut i: usize = 0;
    while i < pairs.len()
        invariant
            i <= pairs@.len(),
            ps == pair_views(pairs@),
            string_views(r@) == ps.take(i as int).flat_map(pair_block_fn()),
        decreases pairs@.len() - i,
    {
        let ghost rpre = r@;
        let mut l1 = "file1: ".to_owned();
        l1.append(pairs[i].from_file1.to_string().as_str());
        r.push(l1);
        let mut l2 = "file2: ".to_owned();
        l2.append(pairs[i].from_file2.to_string().as_str());
        r.push(l2);
        r.push("".to_owned());
        proof {
            reveal_strlit("");
            assert(""@ =~= Seq::<char>::empty());
            assert(ps.take(i + 1) =~= ps.take(i as int).push(ps[i as int]));
            ps.take(i as int).lemma_flat_map_push(pair_block_fn(), ps[i as int]);
            assert(string_views(r@) =~= string_views(rpre) + pair_block(ps[i as int]));
            assert(string_views(r@) =~= ps.take(i + 1).flat_map(pair_block_fn()));
        }
        i = i + 1;
    }
    proof {
        assert(ps.take(ps.len() as int) =~= ps);
    }
    r
}

/// The lines that render one single-source group: its member lines and a
/// blank separator.
pub open spec fn solo_block(g: Seq<LogEntryView>) -> Seq<Seq<char>> {
    entry_lines(g).push(Seq::<char>::empty())
}

/// `solo_block` as a function value.
pub open spec fn solo_block_fn() -> spec_fn(Seq<LogEntryView>) -> Seq<Seq<char>> {
    |g: Seq<LogEntryView>| solo_block(g)
}

/// The lines that render a list of single-source groups.
pub open spec fn single_file_match_group_lines(gs: Seq<Seq<LogEntryView>>) -> Seq<Seq<char>> {
    gs.flat_map(solo_block_fn())
}

/// Renders single-source groups: each group's member lines, a blank line
/// after each group.
#[verifier::loop_isolation(false)]
pub fn render_single_file_match_groups(groups: &Vec<SingleFileMatchGroup>) -> (r: Vec<String>)
    ensures
        string_views(r@) == single_file_match_group_lines(solo_views(groups@)),
{
    let ghost gs = solo_views(groups@);
    let mut r: Vec<String> = Vec::new();
    proof {
        assert(gs.take(0) =~= Seq::<Seq<LogEntryView>>::empty());
        assert(Seq::<Seq<LogEntryView>>::empty().flat_map(solo_block_fn()) =~= Seq::<
            Seq<char>,
        >::empty());
        assert(string_views(r@) =~= gs.take(0).flat_map(solo_block_fn()));
    }
    let mut i: usize = 0;
    while i < groups.len()
        invariant
            i <= groups@.len(),
            gs == solo_views(groups@),
            string_views(r@) == gs.take(i as int).flat_map(solo_block_fn()),
        decreases groups@.len() - i,
    {
        let ghost rpre = r@;
        let ghost g = gs[i as int];
        let members = groups[i].log_entries.inner_ref();
        let mut j: usize = 0;
        while j < members.len()
            invariant
                j <= members@.len(),
                g == entry_views(members@),
                string_views(r@) == string_views(rpre) + entry_lines(g.take(j as int)),
            decreases members@.len() - j,
        {
            let ghost rj = r@;
            r.push(members[j].to_string());
            proof {
                assert(g.take(j + 1) =~= g.take(j as int).push(g[j as int]));
                assert(string_views(r@) =~= string_views(rj).push(record_line(g[j as int])));
                assert(entry_lines(g.take(j + 1)) =~= entry_lines(g.take(j as int)).push(
                    record_line(g[j as int]),
                ));
                assert(string_views(r@) =~= string_views(rpre) + entry_lines(g.take(j + 1)));
            }
            j = j + 1;
        }
        let ghost rmid = r@;
        r.push("".to_owned());
        proof {
            reveal_strlit("");
            assert(""@ =~= Seq::<char>::empty());
            assert(g.take(g.len() as int) =~= g);
            assert(string_views(r@) =~= string_views(rmid).push(Seq::<char>::empty()));
            assert(gs.take(i + 1) =~= gs.take(i as int).push(g));
            gs.take(i as int).lemma_flat_map_push(solo_block_fn(), g);
            assert(string_views(r@) =~= string_views(rpre) + solo_block(g));
            assert(string_views(r@) =~= gs.take(i + 1).flat_map(solo_block_fn()));
        }
        i = i + 1;
    }
    proof {
        assert(gs.take(gs.len() as int) =~= gs);
    }
    r
}

/// The lines that render one cross-source group: its labeled member lines
/// from each source and a blank separator.
pub open spec fn group_block(g: GroupView) -> Seq<Seq<char>> {
    g.from_file1.map_values(labeled_line_fn("file1: "@)) + g.from_file2.map_values(
        labeled_line_fn("file2: "@),
    ) + seq![Seq::<char>::empty()]
}

/// `group_block` as a function value.
pub open spec fn group_block_fn() -> spec_fn(GroupView) -> Seq<Seq<char>> {
    |g: GroupView| group_block(g)
}

/// The lines that render a list of cross-source groups.
pub open spec fn match_group_lines(gs: Seq<GroupView>) -> Seq<Seq<char>> {
    gs.flat_map(group_block_fn())
}

/// Renders one source's members of a cross-source group under its label.
#[verifier::loop_isolation(false)]
fn render_labeled_entries(members: &Vec<LogEntry>, label: &str, r: &mut Vec<String>)
    ensures
        string_views(final(r)@) == string_views(old(r)@) + entry_views(members@).map_values(
            labeled_line_fn(label@),
        ),
{
    let ghost g = entry_views(members@);
    let ghost rpre = r@;
    let mut j: usize = 0;
    while j < members.len()
        invariant
            j <= members@.len(),
            g == entry_views(members@),
            string_views(r@) == string_views(rpre) + g.take(j as int).map_values(
                labeled_line_fn(label@),
            ),
        decreases members@.len() - j,
    {
        let ghost rj = r@;
        let mut line = label.to_owned();
        line.append(members[j].to_string().as_str());
        r.push(line);
        proof {
            assert(g.take(j + 1) =~= g.take(j as int).push(g[j as int]));
            assert(string_views(r@) =~= string_views(rj).push(
                labeled_line_fn(label@)(g[j as int]),
            ));
            assert(g.take(j + 1).map_values(labeled_line_fn(label@)) =~= g.take(
                j as int,
            ).map_values(labeled_line_fn(label@)).push(labeled_line_fn(label@)(g[j as int])));
            assert(string_views(r@) =~= string_views(rpre) + g.take(j + 1).map_values(
                labeled_line_fn(label@),
            ));
        }
        j = j + 1;
    }
    proof {
        assert(g.take(g.len() as int) =~= g);
    }
}

/// Renders cross-source groups: each group's labeled member lines, a blank
/// line after each group.
#[verifier::loop_isolation(false)]
pub fn render_match_groups(groups: &Vec<MatchGroup>) -> (r: Vec<String>)
    ensures
        string_views(r@) == match_group_lines(cross_views(groups@)),
{
    let ghost gs = cross_views(groups@);
    let mut r: Vec<String> = Vec::new();
    proof {
        assert(gs.take(0) =~= Seq::<GroupView>::empty());
        assert(Seq::<GroupView>::empty().flat_map(group_block_fn()) =~= Seq::<Seq<char>>::empty());
        assert(string_views(r@) =~= gs.take(0).flat_map(group_block_fn()));
    }
    let mut i: usize = 0;
    while i < groups.len()
        invariant
            i <= groups@.len(),
            gs == cross_views(groups@),
            string_views(r@) == gs.take(i as int).flat_map(group_block_fn()),
        decreases groups@.len() - i,
    {
        let ghost rpre = r@;
        let ghost g = gs[i as int];
        render_labeled_entries(groups[i].from_file1.inner_ref(), "file1: ", &mut r);
        render_labeled_entries(groups[i].from_file2.inner_ref(), "file2: ", &mut r);
        let ghost rmid = r@;
        r.push("".to_owned());
        proof {
            reveal_strlit("");
            assert(""@ =~= Seq::<char>::empty());
            assert(string_views(r@) =~= string_views(rmid).push(Seq::<char>::empty()));
            assert(gs.take(i + 1) =~= gs.take(i as int).push(g));
            gs.take(i as int).lemma_flat_map_push(group_block_fn(), g);
            assert(string_views(r@) =~= string_views(rpre) + group_block(g));
            assert(string_views(r@) =~= gs.take(i + 1).flat_map(group_block_fn()));
        }
        i = i + 1;
    }
    proof {
        assert(gs.take(gs.len() as int) =~= gs);
    }
    r
}

/// The lines that replicate a whole log file: its header, then its entries.
pub open spec fn log_file_lines(header: Seq<Seq<char>>, u: Seq<LogEntryView>) -> Seq<Seq<char>> {
    header + entry_lines(u)
}

/// Renders a whole log file: its header lines, then one line per entry.
pub fn render_log_file(log_file: &LogFile) -> (r: Vec<String>)
    ensures
        string_views(r@) == log_file_lines(
            string_views(log_file.header_lines@),
            entry_views(log_file.entries@),
        ),
{
    let mut r = log_file.header_lines.clone();
    proof {
        assert(string_views(r@) =~= string_views(log_file.header_lines@));
    }
    let body = render_log_entries(&log_file.entries);
    let mut body_mut = body;
    r.append(&mut body_mut);
    proof {
        assert(string_views(r@) =~= log_file_lines(
            string_views(log_file.header_lines@),
            entry_views(log_file.entries@),
        ));
    }
    r
}

} // verus!
