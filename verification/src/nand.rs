//! The legacy line-level comparison of two logs: which distinct raw body
//! lines appear in only one of the files, listed in the order of the text
//! after each line's digest fields.

use vstd::prelude::*;
use core::cmp::Ordering;
use crate::common::{str_eq, string_views};
use crate::log_entry::{find_comma, find_comma_exec};
use crate::partitioner::model::{first_occurrences, lemma_first_occurrences_push};
use crate::sorting::{computes_cmp, sort_vec_by, stable_insert_by, stable_sort_by};
use crate::text_order::{lex_cmp, str_cmp};

verus! {

/// The sort key of a raw log line: everything after its third comma, or
/// empty when the line has fewer than four comma-separated fields.
pub open spec fn nand_sort_key(l: Seq<char>) -> Seq<char> {
    let i1 = find_comma(l, 0);
    let i2 = find_comma(l, i1 + 1);
    let i3 = find_comma(l, i2 + 1);
    if 0 <= i3 && i3 < l.len() {
        l.subrange(i3 + 1, l.len() as int)
    } else {
        Seq::empty()
    }
}

/// Orders line views by their sort key, as a function value.
pub open spec fn line_key_cmp() -> spec_fn(Seq<char>, Seq<char>) -> Ordering {
    |a: Seq<char>, b: Seq<char>| lex_cmp(nand_sort_key(a), nand_sort_key(b))
}

/// The same order over the line values themselves.
pub open spec fn line_value_cmp() -> spec_fn(String, String) -> Ordering {
    |a: String, b: String| lex_cmp(nand_sort_key(a@), nand_sort_key(b@))
}

/// The body lines of a raw log: everything after the five header lines.
pub open spec fn body_views(lines: Seq<String>) -> Seq<Seq<char>> {
    if lines.len() >= 5 {
        string_views(lines).skip(5)
    } else {
        Seq::empty()
    }
}

/// Absence from a body, as a function value.
pub open spec fn absent_from(body: Seq<Seq<char>>) -> spec_fn(Seq<char>) -> bool {
    |l: Seq<char>| !body.contains(l)
}

/// The distinct body lines of the first log that the second log's body does
/// not hold, in first-occurrence order.
pub open spec fn distinct_difference(lines1: Seq<String>, lines2: Seq<String>) -> Seq<Seq<char>> {
    first_occurrences(body_views(lines1)).filter(absent_from(body_views(lines2)))
}

/// The sort key of a raw line as text.
fn nand_key_exec(l: &str) -> (k: String)
    ensures
        k@ == nand_sort_key(l@),
{
    let n = l.unicode_len();
    let i1 = find_comma_exec(l, 0, n);
    let i2 = if i1 == n {
        n
    } else {
        find_comma_exec(l, i1 + 1, n)
    };
    let i3 = if i2 == n {
        n
    } else {
        find_comma_exec(l, i2 + 1, n)
    };
    if i3 == n {
        let k = "".to_owned();
        proof {
            reveal_strlit("");
            assert(k@ =~= nand_sort_key(l@));
        }
        k
    } else {
        l.substring_char(i3 + 1, n).to_owned()
    }
}

/// Compares two raw lines by their sort keys.
fn nand_cmp_exec(a: &String, b: &String) -> (r: Ordering)
    ensures
        r == line_value_cmp()(*a, *b),
{
    let ka = nand_key_exec(a.as_str());
    let kb = nand_key_exec(b.as_str());
    str_cmp(ka.as_str(), kb.as_str())
}

/// Does the list hold a line with this text?
#[verifier::loop_isolation(false)]
fn holds_line(lines: &Vec<String>, l: &str) -> (r: bool)
    ensures
        r == string_views(lines@).contains(l@),
{
    let mut i: usize = 0;
    while i < lines.len()
        invariant
            i <= lines@.len(),
            forall|j: int| 0 <= j < i ==> string_views(lines@)[j] != l@,
        decreases lines@.len() - i,
    {
        if str_eq(lines[i].as_str(), l) {
            proof {
                assert(string_views(lines@)[i as int] == l@);
            }
            return true;
        }
        i = i + 1;
    }
    proof {
        if string_views(lines@).contains(l@) {
            let j = choose|j: int|
                0 <= j < string_views(lines@).len() && string_views(lines@)[j] == l@;
            assert(false);
        }
    }
    false
}

/// Does the log's body (everything after the five header lines) hold this
/// line?
#[verifier::loop_isolation(false)]
fn body_holds_line(lines: &Vec<String>, l: &str) -> (r: bool)
    ensures
        r == body_views(lines@).contains(l@),
{
    if lines.len() < 5 {
        return false;
    }
    let ghost b = body_views(lines@);
    let mut i: usize = 5;
    while i < lines.len()
        invariant
            5 <= i <= lines@.len(),
            lines@.len() >= 5,
            b == body_views(lines@),
            forall|j: int| 0 <= j < i - 5 ==> b[j] != l@,
        decreases lines@.len() - i,
    {
        if str_eq(lines[i].as_str(), l) {
            proof {
                assert(b[i - 5] == l@);
            }
            return true;
        }
        i = i + 1;
    }
    proof {
        if b.contains(l@) {
            let j = choose|j: int| 0 <= j < b.len() && b[j] == l@;
            assert(false);
        }
    }
    false
}

proof fn lemma_stable_insert_views(s: Seq<String>, x: String)
    ensures
        string_views(stable_insert_by(s, x, line_value_cmp())) == stable_insert_by(
            string_views(s),
            x@,
            line_key_cmp(),
        ),
    decreases s.len(),
{
    if s.len() == 0 {
        assert(string_views(stable_insert_by(s, x, line_value_cmp())) =~= stable_insert_by(
            string_views(s),
            x@,
            line_key_cmp(),
        ));
    } else {
        assert(string_views(s).last() == s.last()@);
        lemma_stable_insert_views(s.drop_last(), x);
        assert(string_views(s.drop_last()) =~= string_views(s).drop_last());
        if line_value_cmp()(s.last(), x) == Ordering::Greater {
            assert(string_views(stable_insert_by(s, x, line_value_cmp())) =~= stable_insert_by(
                string_views(s),
                x@,
                line_key_cmp(),
            ));
        } else {
            assert(string_views(stable_insert_by(s, x, line_value_cmp())) =~= stable_insert_by(
                string_views(s),
                x@,
                line_key_cmp(),
            ));
        }
    }
}

proof fn lemma_stable_sort_views(u: Seq<String>)
    ensures
        string_views(stable_sort_by(u, line_value_cmp())) == stable_sort_by(
            string_views(u),
            line_key_cmp(),
        ),
    decreases u.len(),
{
    if u.len() == 0 {
        assert(string_views(stable_sort_by(u, line_value_cmp())) =~= stable_sort_by(
            string_views(u),
            line_key_cmp(),
        ));
    } else {
        lemma_stable_sort_views(u.drop_last());
        assert(string_views(u.drop_last()) =~= string_views(u).drop_last());
        assert(string_views(u).last() == u.last()@);
        lemma_stable_insert_views(stable_sort_by(u.drop_last(), line_value_cmp()), u.last());
    }
}

/// The distinct body lines of the first log that the second log's body does
/// not hold, stably sorted by the text after their digest fields.
#[verifier::loop_isolation(false)]
pub fn nand_only_in_first(lines1: &Vec<String>, lines2: &Vec<String>) -> (r: Vec<String>)
    ensures
        string_views(r@) == stable_sort_by(
            distinct_difference(lines1@, lines2@),
            line_key_cmp(),
        ),
{
    let ghost b1 = body_views(lines1@);
    let ghost b2 = body_views(lines2@);
    let mut seen: Vec<String> = Vec::new();
    let mut picked: Vec<String> = Vec::new();
    proof {
        reveal(Seq::filter);
        if lines1@.len() >= 5 {
            assert(b1.take(0) =~= Seq::<Seq<char>>::empty());
        }
        assert(string_views(seen@) =~= Seq::<Seq<char>>::empty());
        assert(string_views(picked@) =~= Seq::<Seq<char>>::empty());
    }
    if lines1.len() >= 5 {
        let mut i: usize = 5;
        while i < lines1.len()
            invariant
                5 <= i <= lines1@.len(),
                lines1@.len() >= 5,
                b1 == body_views(lines1@),
                b2 == body_views(lines2@),
                string_views(seen@) == first_occurrences(b1.take(i - 5)),
                string_views(picked@) == first_occurrences(b1.take(i - 5)).filter(
                    absent_from(b2),
                ),
            decreases lines1@.len() - i,
        {
            let line = &lines1[i];
            proof {
                assert(b1[i - 5] == lines1@[i as int]@);
                assert(b1.take(i - 5 + 1) =~= b1.take(i - 5).push(b1[i - 5]));
                lemma_first_occurrences_push(b1.take(i - 5), b1[i - 5]);
                Seq::lemma_filter_push(
                    first_occurrences(b1.take(i - 5)),
                    b1[i - 5],
                    absent_from(b2),
                );
            }
            if !holds_line(&seen, line.as_str()) {
                let ghost spre = seen@;
                seen.push(line.clone());
                proof {
                    assert(string_views(seen@) =~= string_views(spre).push(lines1@[i as int]@));
                    assert(string_views(seen@) == first_occurrences(b1.take(i - 5 + 1)));
                }
                if !body_holds_line(lines2, line.as_str()) {
                    let ghost ppre = picked@;
                    proof {
                        assert(absent_from(b2)(b1[i - 5]));
                    }
                    picked.push(line.clone());
                    proof {
                        assert(string_views(picked@) =~= string_views(ppre).push(
                            lines1@[i as int]@,
                        ));
                        assert(string_views(picked@) == first_occurrences(
                            b1.take(i - 5 + 1),
                        ).filter(absent_from(b2)));
                    }
                } else {
                    proof {
                        assert(!absent_from(b2)(b1[i - 5]));
                    }
                }
            }
            i = i + 1;
        }
        proof {
            assert(b1.take(lines1@.len() - 5) =~= b1);
        }
    } else {
        proof {
            assert(b1 =~= Seq::<Seq<char>>::empty());
            assert(first_occurrences(b1).filter(absent_from(b2)) =~= Seq::<Seq<char>>::empty());
        }
    }
    let ghost diff_vals = picked@;
    sort_vec_by(&mut picked, nand_cmp_exec);
    proof {
        assert(computes_cmp(nand_cmp_exec, line_value_cmp())) by {
            assert forall|a: &String, b: &String, o: Ordering|
                #[trigger] call_ensures(nand_cmp_exec, (a, b), o) implies o == line_value_cmp()(
                *a,
                *b,
            ) by {}
        }
        assert(picked@ == stable_sort_by(diff_vals, line_value_cmp()));
        lemma_stable_sort_views(diff_vals);
        assert(string_views(diff_vals) == distinct_difference(lines1@, lines2@));
    }
    picked
}

} // verus!
