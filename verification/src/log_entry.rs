//! A single parsed inventory record: a digest key (three comma-separated hash
//! fields) plus a file path.

use vstd::prelude::*;

verus! {

/// One parsed inventory line: `hashes` holds the first three comma-separated
/// fields rejoined with commas, `filename` holds everything after them (the
/// path may itself contain commas).
#[derive(Debug, Hash)]
pub struct LogEntry {
    pub hashes: String,
    pub filename: String,
}

/// The mathematical content of a `LogEntry`: both fields as char sequences.
#[verifier::ext_equal]
pub ghost struct LogEntryView {
    pub hashes: Seq<char>,
    pub filename: Seq<char>,
}

impl View for LogEntry {
    type V = LogEntryView;

    open spec fn view(&self) -> LogEntryView {
        LogEntryView { hashes: self.hashes@, filename: self.filename@ }
    }
}

/// The views of a sequence of entries.
pub open spec fn entry_views(s: Seq<LogEntry>) -> Seq<LogEntryView> {
    s.map_values(|e: LogEntry| e@)
}

/// The textual form of an entry: the digest key, a comma, then the path.
pub open spec fn record_line(v: LogEntryView) -> Seq<char> {
    v.hashes + seq![','] + v.filename
}

/// Index of the first comma of `s` at or after `start` (or `s.len()` if none).
pub open spec fn find_comma(s: Seq<char>, start: int) -> int
    decreases s.len() - start,
{
    if start < 0 || start >= s.len() {
        s.len() as int
    } else if s[start] == ',' {
        start
    } else {
        find_comma(s, start + 1)
    }
}

/// A well-formed digest key: exactly two commas splitting it into three
/// non-empty hash fields.
pub open spec fn hashes_ok(h: Seq<char>) -> bool {
    let q1 = find_comma(h, 0);
    let q2 = find_comma(h, q1 + 1);
    &&& 0 < q1
    &&& q1 + 1 < q2
    &&& q2 + 1 < h.len()
    &&& find_comma(h, q2 + 1) == h.len()
}

/// A well-formed entry: valid digest key and a non-empty path.
pub open spec fn valid_entry(v: LogEntryView) -> bool {
    hashes_ok(v.hashes) && v.filename.len() > 0
}

/// What parsing a line yields: the prefix up to the third comma becomes the
/// digest key, the rest becomes the path; `None` when the line has fewer than
/// four comma-separated fields, an empty hash field, or an empty path.
pub open spec fn spec_parse(s: Seq<char>) -> Option<LogEntryView> {
    let n = s.len() as int;
    let i1 = find_comma(s, 0);
    let i2 = find_comma(s, i1 + 1);
    let i3 = find_comma(s, i2 + 1);
    if 0 < i1 && i1 + 1 < i2 && i2 + 1 < i3 && i3 + 1 < n {
        Some(LogEntryView { hashes: s.subrange(0, i3), filename: s.subrange(i3 + 1, n) })
    } else {
        None
    }
}

proof fn lemma_find_comma_bounds(s: Seq<char>, start: int)
    requires
        0 <= start <= s.len(),
    ensures
        start <= find_comma(s, start) <= s.len(),
        find_comma(s, start) < s.len() ==> s[find_comma(s, start)] == ',',
        forall|j: int| start <= j < find_comma(s, start) ==> s[j] != ',',
    decreases s.len() - start,
{
    if start < s.len() && s[start] != ',' {
        lemma_find_comma_bounds(s, start + 1);
    }
}

proof fn lemma_find_comma_unique(s: Seq<char>, start: int, r: int)
    requires
        0 <= start <= r <= s.len(),
        r < s.len() ==> s[r] == ',',
        forall|j: int| start <= j < r ==> s[j] != ',',
    ensures
        find_comma(s, start) == r,
    decreases s.len() - start,
{
    if start < s.len() && s[start] != ',' {
        lemma_find_comma_unique(s, start + 1, r);
    }
}

/// Parsing the rendered text of a well-formed entry gives that entry back.
pub proof fn lemma_parse_of_record_line(v: LogEntryView)
    requires
        valid_entry(v),
    ensures
        spec_parse(record_line(v)) == Some(v),
{
    let h = v.hashes;
    let f = v.filename;
    let s = record_line(v);
    let m = h.len() as int;
    let q1 = find_comma(h, 0);
    let q2 = find_comma(h, q1 + 1);
    lemma_find_comma_bounds(h, 0);
    lemma_find_comma_bounds(h, q1 + 1);
    lemma_find_comma_bounds(h, q2 + 1);
    assert(s[m] == ',');
    assert forall|j: int| 0 <= j < q1 implies s[j] != ',' by {
        assert(s[j] == h[j]);
    }
    lemma_find_comma_unique(s, 0, q1);
    assert forall|j: int| q1 + 1 <= j < q2 implies s[j] != ',' by {
        assert(s[j] == h[j]);
    }
    lemma_find_comma_unique(s, q1 + 1, q2);
    assert forall|j: int| q2 + 1 <= j < m implies s[j] != ',' by {
        assert(s[j] == h[j]);
    }
    lemma_find_comma_unique(s, q2 + 1, m);
    assert(s.subrange(0, m) =~= h);
    assert(s.subrange(m + 1, s.len() as int) =~= f);
}

/// A successful parse yields a well-formed entry whose rendered text is the
/// parsed line.
pub proof fn lemma_record_line_of_parse(s: Seq<char>, v: LogEntryView)
    requires
        spec_parse(s) == Some(v),
    ensures
        valid_entry(v),
        record_line(v) == s,
{
    let n = s.len() as int;
    let i1 = find_comma(s, 0);
    let i2 = find_comma(s, i1 + 1);
    let i3 = find_comma(s, i2 + 1);
    lemma_find_comma_bounds(s, 0);
    lemma_find_comma_bounds(s, i1 + 1);
    lemma_find_comma_bounds(s, i2 + 1);
    let h = s.subrange(0, i3);
    let f = s.subrange(i3 + 1, n);
    assert forall|j: int| 0 <= j < i1 implies h[j] != ',' by {
        assert(h[j] == s[j]);
    }
    lemma_find_comma_unique(h, 0, i1);
    assert forall|j: int| i1 + 1 <= j < i2 implies h[j] != ',' by {
        assert(h[j] == s[j]);
    }
    lemma_find_comma_unique(h, i1 + 1, i2);
    assert forall|j: int| i2 + 1 <= j < i3 implies h[j] != ',' by {
        assert(h[j] == s[j]);
    }
    lemma_find_comma_unique(h, i2 + 1, i3);
    assert(record_line(v) =~= s);
}

impl Clone for LogEntry {
    /// Duplicates the entry; the copy is equal to the original.
    fn clone(&self) -> (r: Self)
        ensures
            r == *self,
    {
        LogEntry { hashes: self.hashes.clone(), filename: self.filename.clone() }
    }
}

impl PartialEq for LogEntry {
    fn eq(&self, other: &Self) -> (r: bool) {
        self.hashes == other.hashes && self.filename == other.filename
    }
}

impl vstd::std_specs::cmp::PartialEqSpecImpl for LogEntry {
    open spec fn obeys_eq_spec() -> bool {
        true
    }

    open spec fn eq_spec(&self, other: &Self) -> bool {
        self@ == other@
    }
}

impl Eq for LogEntry {

}

/// Finds the first comma of `s` at or after `start`; returns `n` (the char
/// length of `s`) when there is none.
pub(crate) fn find_comma_exec(s: &str, start: usize, n: usize) -> (r: usize)
    requires
        n == s@.len(),
        start <= n,
    ensures
        r == find_comma(s@, start as int),
        start <= r <= n,
{
    let mut i: usize = start;
    while i < n
        invariant
            start <= i <= n,
            n == s@.len(),
            find_comma(s@, start as int) == find_comma(s@, i as int),
        decreases n - i,
    {
        let c = s.get_char(i);
        if c == ',' {
            proof {
                lemma_find_comma_unique(s@, i as int, i as int);
            }
            return i;
        }
        i = i + 1;
    }
    proof {
        lemma_find_comma_unique(s@, i as int, n as int);
    }
    n
}

impl LogEntry {
    /// Parses one inventory line: the first three comma-separated fields form
    /// the digest key, everything after them is the path. Returns `None` when
    /// fewer than four fields exist, a hash field is empty, or the path is
    /// empty.
    pub fn from_str(s: &str) -> (r: Option<LogEntry>)
        ensures
            match r {
                Some(e) => spec_parse(s@) == Some(e@),
                None => spec_parse(s@) is None,
            },
    {
        let n = s.unicode_len();
        let i1 = find_comma_exec(s, 0, n);
        if i1 == n {
            return None;
        }
        let i2 = find_comma_exec(s, i1 + 1, n);
        if i2 == n {
            return None;
        }
        let i3 = find_comma_exec(s, i2 + 1, n);
        if i3 == n {
            return None;
        }
        if !(0 < i1 && i1 + 1 < i2 && i2 + 1 < i3 && i3 + 1 < n) {
            return None;
        }
        let hashes = s.substring_char(0, i3).to_owned();
        let filename = s.substring_char(i3 + 1, n).to_owned();
        Some(LogEntry { hashes, filename })
    }

    /// Renders the entry back to its line form: digest key, comma, path.
    pub fn to_string(&self) -> (r: String)
        ensures
            r@ == record_line(self@),
    {
        let mut r = self.hashes.clone();
        r.append(",");
        r.append(self.filename.as_str());
        proof {
            reveal_strlit(",");
            assert(","@ =~= seq![',']);
            assert(r@ =~= record_line(self@));
        }
        r
    }
}

} // verus!
