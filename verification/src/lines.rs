//! Splitting a document into its lines.
//!
//! A line ends at `\n` or at `\r\n`; the terminator is not part of the line,
//! and a final line ending is optional, so the empty document has no lines.

use vstd::prelude::*;

verus! {

/// `l` with one trailing carriage return removed, if it has one.
pub open spec fn strip_cr(l: Seq<char>) -> Seq<char> {
    if l.len() > 0 && l.last() == '\r' {
        l.drop_last()
    } else {
        l
    }
}

/// The lines of `text` from offset `i` on, with `cur` the part of the
/// current line already consumed. A `\n` ends the current line (dropping a
/// `\r` just before it); a last line without terminator counts only when it
/// is non-empty.
pub open spec fn lines_from(text: Seq<char>, i: int, cur: Seq<char>) -> Seq<Seq<char>>
    decreases text.len() - i,
{
    if i < 0 || i >= text.len() {
        if cur.len() > 0 {
            seq![cur]
        } else {
            Seq::empty()
        }
    } else if text[i] == '\n' {
        seq![strip_cr(cur)] + lines_from(text, i + 1, Seq::empty())
    } else {
        lines_from(text, i + 1, cur.push(text[i]))
    }
}

/// The lines of `text`.
pub open spec fn spec_lines(text: Seq<char>) -> Seq<Seq<char>> {
    lines_from(text, 0, Seq::empty())
}

/// Each remaining character ends at most one line, and the line still in
/// progress adds at most one more.
proof fn lemma_lines_from_count(text: Seq<char>, i: int, cur: Seq<char>)
    requires
        0 <= i <= text.len(),
    ensures
        lines_from(text, i, cur).len() <= text.len() - i + 1,
    decreases text.len() - i,
{
    if i < text.len() {
        if text[i] == '\n' {
            lemma_lines_from_count(text, i + 1, Seq::empty());
        } else {
            lemma_lines_from_count(text, i + 1, cur.push(text[i]));
        }
    }
}

/// A document of `n` characters has at most `n + 1` lines.
pub proof fn lemma_lines_count(text: Seq<char>)
    ensures
        spec_lines(text).len() <= text.len() + 1,
{
    lemma_lines_from_count(text, 0, Seq::empty());
}

/// The views of the strings in `v`.
pub open spec fn strings_view(v: Seq<String>) -> Seq<Seq<char>> {
    v.map_values(|s: String| s@)
}

/// Splits `text` into its lines.
pub fn split_lines(text: &str) -> (lines: Vec<String>)
    ensures
        strings_view(lines@) == spec_lines(text@),
{
    let n = text.unicode_len();
    let mut lines: Vec<String> = Vec::new();
    let mut start: usize = 0;
    let mut i: usize = 0;
    proof {
        assert(text@.subrange(0, 0) =~= Seq::<char>::empty());
        assert(strings_view(lines@) + spec_lines(text@) =~= spec_lines(text@));
    }
    while i < n
        invariant
            n == text@.len(),
            0 <= start <= i <= n,
            spec_lines(text@) == strings_view(lines@) + lines_from(
                text@,
                i as int,
                text@.subrange(start as int, i as int),
            ),
        decreases n - i,
    {
        let ghost cur = text@.subrange(start as int, i as int);
        if text.get_char(i) == '\n' {
            let end: usize = if i > start && text.get_char(i - 1) == '\r' {
                i - 1
            } else {
                i
            };
            proof {
                if i > start && text@[i as int - 1] == '\r' {
                    assert(cur.len() > 0 && cur.last() == '\r');
                    assert(strip_cr(cur) =~= text@.subrange(start as int, end as int));
                } else {
                    assert(strip_cr(cur) =~= text@.subrange(start as int, end as int));
                }
            }
            let line = text.substring_char(start, end).to_owned();
            lines.push(line);
            proof {
                assert(strings_view(lines@) =~= strings_view(lines@.drop_last()) + seq![
                    strip_cr(cur),
                ]);
            }
            start = i + 1;
            proof {
                assert(text@.subrange(start as int, i as int + 1) =~= Seq::<char>::empty());
            }
        } else {
            proof {
                assert(cur.push(text@[i as int]) =~= text@.subrange(start as int, i as int + 1));
            }
        }
        i += 1;
    }
    if start < n {
        let line = text.substring_char(start, n).to_owned();
        lines.push(line);
        proof {
            assert(strings_view(lines@) =~= strings_view(lines@.drop_last()) + seq![
                text@.subrange(start as int, n as int),
            ]);
        }
    }
    lines
}

} // verus!
