//! Locating marker lines by a substring pattern and cutting the text
//! between two line numbers: a second, single-region way to pull one export
//! block out of a document.

use vstd::prelude::*;
use crate::lines::{lemma_lines_count, spec_lines, split_lines, strings_view};
use crate::tags::open_prefix;

verus! {

/// Whether `pattern` occurs in `line` at offset `j`.
pub open spec fn pattern_at(line: Seq<char>, pattern: Seq<char>, j: int) -> bool {
    pattern.is_prefix_of(line.skip(j))
}

/// Whether `pattern` occurs somewhere in `line`.
pub open spec fn line_contains(line: Seq<char>, pattern: Seq<char>) -> bool {
    exists|j: int| 0 <= j <= line.len() - pattern.len() && pattern_at(line, pattern, j)
}

/// Whether the 1-based line number `ln` lies in the scope `[start, end]`,
/// where `-1` leaves that bound open.
pub open spec fn in_scope(ln: int, start: int, end: int) -> bool {
    (start == -1 || ln >= start) && (end == -1 || ln <= end)
}

/// The 1-based number of the first line at index `i` or later that contains
/// `pattern` and lies in scope, or `-1` when none does.
pub open spec fn find_from(
    lines: Seq<Seq<char>>,
    pattern: Seq<char>,
    start: int,
    end: int,
    i: int,
) -> int
    decreases lines.len() - i,
{
    if i < 0 || i >= lines.len() {
        -1
    } else if line_contains(lines[i], pattern) && in_scope(i + 1, start, end) {
        i + 1
    } else {
        find_from(lines, pattern, start, end, i + 1)
    }
}

/// The 1-based number of the first line of a document that contains
/// `pattern` and lies in the scope `[start, end]`, or `-1` when none does.
pub open spec fn spec_find_pattern(
    text: Seq<char>,
    pattern: Seq<char>,
    start: int,
    end: int,
) -> int {
    find_from(spec_lines(text), pattern, start, end, 0)
}

/// The concatenation, without separators, of the lines at index `i` or
/// later whose 1-based number lies strictly between `start` and `end`.
pub open spec fn split_from(lines: Seq<Seq<char>>, start: int, end: int, i: int) -> Seq<char>
    decreases lines.len() - i,
{
    if i < 0 || i >= lines.len() {
        Seq::empty()
    } else {
        (if start < i + 1 && i + 1 < end {
            lines[i]
        } else {
            Seq::empty()
        }) + split_from(lines, start, end, i + 1)
    }
}

/// The concatenation, without separators, of the lines of a document whose
/// 1-based number lies strictly between `start` and `end`.
pub open spec fn spec_split_text(text: Seq<char>, start: int, end: int) -> Seq<char> {
    split_from(spec_lines(text), start, end, 0)
}

/// Whether `pattern` occurs in `line` at offset `j`.
fn match_at(line: &str, pattern: &str, j: usize) -> (r: bool)
    requires
        j + pattern@.len() <= line@.len(),
    ensures
        r == pattern_at(line@, pattern@, j as int),
{
    let n = line.unicode_len();
    let m = pattern.unicode_len();
    let mut i: usize = 0;
    while i < m
        invariant
            n == line@.len(),
            m == pattern@.len(),
            j + m <= line@.len(),
            0 <= i <= m,
            forall|jj: int| 0 <= jj < i ==> line@[j + jj] == pattern@[jj],
        decreases m - i,
    {
        if line.get_char(j + i) != pattern.get_char(i) {
            assert(!pattern_at(line@, pattern@, j as int)) by {
                assert(line@.skip(j as int)[i as int] == line@[j + i]);
                assert(line@.skip(j as int).subrange(0, m as int)[i as int] != pattern@[i as int]);
            }
            return false;
        }
        i += 1;
    }
    assert(pattern_at(line@, pattern@, j as int)) by {
        assert(line@.skip(j as int).subrange(0, m as int) =~= pattern@);
    }
    true
}

/// Whether `pattern` occurs somewhere in `line`.
fn line_contains_pattern(line: &str, pattern: &str) -> (r: bool)
    ensures
        r == line_contains(line@, pattern@),
{
    let n = line.unicode_len();
    let m = pattern.unicode_len();
    if m > n {
        assert(!line_contains(line@, pattern@));
        return false;
    }
    let mut j: usize = 0;
    while j <= n - m
        invariant
            n == line@.len(),
            m == pattern@.len(),
            m <= n,
            0 <= j <= n - m + 1,
            forall|jj: int| 0 <= jj < j ==> !pattern_at(line@, pattern@, jj),
        decreases n + 1 - j,
    {
        if match_at(line, pattern, j) {
            assert(line_contains(line@, pattern@));
            return true;
        }
        j += 1;
    }
    false
}

/// Returns the 1-based number of the first line of `text` that contains
/// `pattern` and lies in the scope `[start, end]` (`-1` leaves a bound
/// open), or `-1` when no line does.
pub fn find_pattern(pattern: String, text: &mut String, start: i32, end: i32) -> (r: i32)
    requires
        old(text)@.len() < 0x7fff_ffff,
    ensures
        final(text)@ == old(text)@,
        r == spec_find_pattern(old(text)@, pattern@, start as int, end as int),
{
    let lines = split_lines(text.as_str());
    let ghost lv = strings_view(lines@);
    proof {
        lemma_lines_count(old(text)@);
    }
    let mut k: usize = 0;
    while k < lines.len()
        invariant
            lv == strings_view(lines@),
            lv == spec_lines(old(text)@),
            lv.len() == lines@.len(),
            lv.len() <= 0x7fff_ffff,
            0 <= k <= lines@.len(),
            spec_find_pattern(old(text)@, pattern@, start as int, end as int) == find_from(
                lv,
                pattern@,
                start as int,
                end as int,
                k as int,
            ),
        decreases lines@.len() - k,
    {
        proof {
            assert(lv[k as int] == lines@[k as int]@);
        }
        let line = &lines[k];
        let line_number: i32 = (k as i32) + 1;
        if line_contains_pattern(line.as_str(), pattern.as_str()) {
            if (start == -1 || line_number >= start) && (end == -1 || line_number <= end) {
                return line_number;
            }
        }
        k += 1;
    }
    -1
}

/// Returns the lines of `text` whose 1-based number lies strictly between
/// `start` and `end`, concatenated without separators.
pub fn split_text(text: &mut String, start: i32, end: i32) -> (r: String)
    requires
        old(text)@.len() < 0x7fff_ffff,
    ensures
        final(text)@ == old(text)@,
        r@ == spec_split_text(old(text)@, start as int, end as int),
{
    let lines = split_lines(text.as_str());
    let ghost lv = strings_view(lines@);
    proof {
        lemma_lines_count(old(text)@);
    }
    let mut sub_text = String::new();
    let mut k: usize = 0;
    proof {
        assert(sub_text@ + spec_split_text(old(text)@, start as int, end as int)
            =~= spec_split_text(old(text)@, start as int, end as int));
    }
    while k < lines.len()
        invariant
            lv == strings_view(lines@),
            lv == spec_lines(old(text)@),
            lv.len() == lines@.len(),
            lv.len() <= 0x7fff_ffff,
            0 <= k <= lines@.len(),
            sub_text@ + split_from(lv, start as int, end as int, k as int) == spec_split_text(
                old(text)@,
                start as int,
                end as int,
            ),
        decreases lines@.len() - k,
    {
        proof {
            assert(lv[k as int] == lines@[k as int]@);
        }
        let line = &lines[k];
        let line_number: i32 = (k as i32) + 1;
        let ghost prev = sub_text@;
        if start < line_number && line_number < end {
            sub_text.append(line.as_str());
        }
        proof {
            assert(prev + ((if start < k + 1 && k + 1 < end {
                lv[k as int]
            } else {
                Seq::<char>::empty()
            }) + split_from(lv, start as int, end as int, k as int + 1)) =~= sub_text@
                + split_from(lv, start as int, end as int, k as int + 1));
        }
        k += 1;
    }
    proof {
        assert(sub_text@ + Seq::<char>::empty() =~= sub_text@);
    }
    sub_text
}

/// The full open-marker pattern that `export_by_pattern` searches for:
/// `<!-- export -->` for the empty pattern, `<!-- export <p> -->` otherwise.
pub open spec fn full_pattern_start(p: Seq<char>) -> Seq<char> {
    if p.len() == 0 {
        open_prefix() + seq![' ', '-', '-', '>']
    } else {
        open_prefix() + seq![' '] + p + seq![' ', '-', '-', '>']
    }
}

/// The full close-marker pattern that `export_by_pattern` searches for:
/// `<!-- /export -->` for the empty pattern, `<!-- /export <p> -->`
/// otherwise.
pub open spec fn full_pattern_end(p: Seq<char>) -> Seq<char> {
    if p.len() == 0 {
        seq!['<', '!', '-', '-', ' ', '/', 'e', 'x', 'p', 'o', 'r', 't', ' ', '-', '-', '>']
    } else {
        seq!['<', '!', '-', '-', ' ', '/', 'e', 'x', 'p', 'o', 'r', 't', ' '] + p + seq![
            ' ',
            '-',
            '-',
            '>',
        ]
    }
}

/// The text between the first line containing the open-marker pattern and
/// the first line containing the close-marker pattern.
pub open spec fn spec_export_by_pattern(text: Seq<char>, p: Seq<char>) -> Seq<char> {
    spec_split_text(
        text,
        spec_find_pattern(text, full_pattern_start(p), -1, -1),
        spec_find_pattern(text, full_pattern_end(p), -1, -1),
    )
}

/// Returns the text of `text` strictly between the first line containing
/// `<!-- export -->` and the first line containing `<!-- /export -->`
/// (with `pattern`, if non-empty, spliced into both markers), the lines
/// concatenated without separators; empty when either marker is missing.
pub fn export_by_pattern(pattern: String, text: &mut String) -> (r: String)
    requires
        old(text)@.len() < 0x7fff_ffff,
    ensures
        final(text)@ == old(text)@,
        r@ == spec_export_by_pattern(old(text)@, pattern@),
{
    let mut local: String = text.as_str().to_owned();

    let mut full_pattern_start: String = String::from_str("<!-- export -->");
    let mut full_pattern_end: String = String::from_str("<!-- /export -->");
    proof {
        reveal_strlit("<!-- export -->");
        reveal_strlit("<!-- /export -->");
    }
    if !pattern.as_str().is_empty() {
        full_pattern_start = String::from_str("<!-- export ");
        full_pattern_start.append(pattern.as_str());
        full_pattern_start.append(" -->");
        full_pattern_end = String::from_str("<!-- /export ");
        full_pattern_end.append(pattern.as_str());
        full_pattern_end.append(" -->");
        proof {
            reveal_strlit("<!-- export ");
            reveal_strlit("<!-- /export ");
            reveal_strlit(" -->");
        }
    }
    proof {
        assert(full_pattern_start@ =~= crate::pattern::full_pattern_start(pattern@));
        assert(full_pattern_end@ =~= crate::pattern::full_pattern_end(pattern@));
    }

    let line1 = find_pattern(full_pattern_start, &mut local, -1, -1);
    let line2 = find_pattern(full_pattern_end, &mut local, -1, -1);
    let sub_text = split_text(&mut local, line1, line2);
    sub_text
}

} // verus!
