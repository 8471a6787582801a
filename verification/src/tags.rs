//! Classification of marker lines and extraction of the filename label
//! carried by an open marker.

use vstd::prelude::*;

verus! {

/// The characters of the open-marker prefix, `<!-- export`.
pub open spec fn open_prefix() -> Seq<char> {
    seq!['<', '!', '-', '-', ' ', 'e', 'x', 'p', 'o', 'r', 't']
}

/// The characters of the close-marker prefix, `<!-- /export`.
pub open spec fn close_prefix() -> Seq<char> {
    seq!['<', '!', '-', '-', ' ', '/', 'e', 'x', 'p', 'o', 'r', 't']
}

/// The characters of the terminator token, `-->`.
pub open spec fn end_token() -> Seq<char> {
    seq!['-', '-', '>']
}

/// A line opens a region iff it begins with `<!-- export` at offset 0.
pub open spec fn is_open_tag_line(line: Seq<char>) -> bool {
    open_prefix().is_prefix_of(line)
}

/// A line closes a region iff it begins with `<!-- /export` at offset 0.
pub open spec fn is_close_tag_line(line: Seq<char>) -> bool {
    close_prefix().is_prefix_of(line)
}

/// The whitespace characters that label trimming removes.
pub open spec fn is_ws(c: char) -> bool {
    c == ' ' || c == '\t' || c == '\r' || c == '\n'
}

/// `s` with leading whitespace removed.
pub open spec fn trim_front(s: Seq<char>) -> Seq<char>
    decreases s.len(),
{
    if s.len() > 0 && is_ws(s[0]) {
        trim_front(s.drop_first())
    } else {
        s
    }
}

/// `s` with trailing whitespace removed.
pub open spec fn trim_back(s: Seq<char>) -> Seq<char>
    decreases s.len(),
{
    if s.len() > 0 && is_ws(s.last()) {
        trim_back(s.drop_last())
    } else {
        s
    }
}

/// `s` with leading and trailing whitespace removed.
pub open spec fn spec_trim(s: Seq<char>) -> Seq<char> {
    trim_back(trim_front(s))
}

/// Whether the terminator token `-->` occurs in `s` at offset `j`.
pub open spec fn end_token_at(s: Seq<char>, j: int) -> bool {
    end_token().is_prefix_of(s.skip(j))
}

/// The prefix of `s` that precedes the first occurrence of `-->`, or all of
/// `s` when the token does not occur.
pub open spec fn until_end_token(s: Seq<char>) -> Seq<char>
    decreases s.len(),
{
    if end_token().is_prefix_of(s) {
        Seq::empty()
    } else if s.len() == 0 {
        s
    } else {
        seq![s[0]] + until_end_token(s.drop_first())
    }
}

/// The label of an open-marker line: everything after the `<!-- export`
/// prefix up to (not including) the first `-->`, trimmed of surrounding
/// whitespace; the empty sequence when no token is left.
pub open spec fn spec_label(line: Seq<char>) -> Seq<char> {
    spec_trim(until_end_token(line.skip(open_prefix().len() as int)))
}

/// `until_end_token(s)` is the prefix of `s` that ends at the first
/// occurrence of `-->`, or all of `s` when there is none.
pub(crate) proof fn lemma_until_end_token(s: Seq<char>, k: int)
    requires
        0 <= k <= s.len(),
        forall|j: int| 0 <= j < k ==> !end_token_at(s, j),
        k < s.len() ==> end_token_at(s, k),
    ensures
        until_end_token(s) == s.subrange(0, k),
    decreases s.len(),
{
    assert(s.skip(0) =~= s);
    if end_token().is_prefix_of(s) {
        assert(end_token_at(s, 0));
        assert(k == 0);
        assert(until_end_token(s) =~= s.subrange(0, 0));
    } else if s.len() == 0 {
        assert(until_end_token(s) =~= s.subrange(0, 0));
    } else {
        assert(!end_token_at(s, 0));
        assert(k >= 1) by {
            if k == 0 {
                assert(end_token_at(s, 0));
            }
        }
        let t = s.drop_first();
        assert forall|j: int| 0 <= j < k - 1 implies !end_token_at(t, j) by {
            assert(t.skip(j) =~= s.skip(j + 1));
            assert(!end_token_at(s, j + 1));
        }
        if k - 1 < t.len() {
            assert(t.skip(k - 1) =~= s.skip(k));
        }
        lemma_until_end_token(t, k - 1);
        assert(seq![s[0]] + t.subrange(0, k - 1) =~= s.subrange(0, k));
    }
}

/// Dropping leading whitespace leaves the suffix that starts at the first
/// non-whitespace character.
proof fn lemma_trim_front_range(s: Seq<char>, a: int)
    requires
        0 <= a <= s.len(),
        forall|j: int| 0 <= j < a ==> is_ws(s[j]),
        a < s.len() ==> !is_ws(s[a]),
    ensures
        trim_front(s) == s.subrange(a, s.len() as int),
    decreases s.len(),
{
    if a == 0 {
        assert(trim_front(s) =~= s.subrange(0, s.len() as int));
    } else {
        assert(is_ws(s[0]));
        let t = s.drop_first();
        assert forall|j: int| 0 <= j < a - 1 implies is_ws(t[j]) by {
            assert(t[j] == s[j + 1]);
        }
        lemma_trim_front_range(t, a - 1);
        assert(t.subrange(a - 1, t.len() as int) =~= s.subrange(a, s.len() as int));
    }
}

/// Dropping trailing whitespace leaves the prefix that ends just after the
/// last non-whitespace character.
proof fn lemma_trim_back_range(s: Seq<char>, b: int)
    requires
        0 <= b <= s.len(),
        forall|j: int| b <= j < s.len() ==> is_ws(s[j]),
        b > 0 ==> !is_ws(s[b - 1]),
    ensures
        trim_back(s) == s.subrange(0, b),
    decreases s.len(),
{
    if b == s.len() {
        assert(trim_back(s) =~= s.subrange(0, b));
    } else {
        assert(is_ws(s.last()));
        let t = s.drop_last();
        lemma_trim_back_range(t, b);
        assert(t.subrange(0, b) =~= s.subrange(0, b));
    }
}

/// The characters of `s` between the first and last non-whitespace ones are
/// exactly what trimming keeps.
proof fn lemma_trim_range(s: Seq<char>, a: int, b: int)
    requires
        0 <= a <= b <= s.len(),
        forall|j: int| 0 <= j < a ==> is_ws(s[j]),
        forall|j: int| b <= j < s.len() ==> is_ws(s[j]),
        a < s.len() ==> !is_ws(s[a]),
        b > a ==> !is_ws(s[b - 1]),
        a == b ==> b == s.len(),
    ensures
        spec_trim(s) == s.subrange(a, b),
    decreases s.len(),
{
    lemma_trim_front_range(s, a);
    let t = s.subrange(a, s.len() as int);
    assert forall|j: int| b - a <= j < t.len() implies is_ws(t[j]) by {
        assert(t[j] == s[j + a]);
    }
    if b - a > 0 {
        assert(t[b - a - 1] == s[b - 1]);
    }
    lemma_trim_back_range(t, b - a);
    assert(t.subrange(0, b - a) =~= s.subrange(a, b));
}

/// The smallest offset in `[from, n)` at which `-->` occurs in `line`, or
/// `n` when it occurs nowhere there.
fn find_end_token_from(line: &str, from: usize) -> (k: usize)
    requires
        from <= line@.len(),
    ensures
        from <= k <= line@.len(),
        forall|j: int| from <= j < k ==> !end_token_at(line@, j),
        k < line@.len() ==> end_token_at(line@, k as int),
{
    let n = line.unicode_len();
    let mut k: usize = from;
    while n >= 3 && k <= n - 3
        invariant
            n == line@.len(),
            from <= k <= n,
            forall|j: int| from <= j < k ==> !end_token_at(line@, j),
        decreases n - k,
    {
        if line.get_char(k) == '-' && line.get_char(k + 1) == '-' && line.get_char(k + 2) == '>' {
            proof {
                assert(end_token().is_prefix_of(line@.skip(k as int))) by {
                    assert(line@.skip(k as int).subrange(0, 3) =~= end_token());
                }
            }
            return k;
        }
        proof {
            assert(!end_token_at(line@, k as int)) by {
                if end_token().is_prefix_of(line@.skip(k as int)) {
                    assert(line@.skip(k as int)[0] == line@[k as int]);
                    assert(line@.skip(k as int)[1] == line@[k as int + 1]);
                    assert(line@.skip(k as int)[2] == line@[k as int + 2]);
                    assert(line@.skip(k as int).subrange(0, 3) =~= end_token());
                    assert(end_token()[0] == '-' && end_token()[1] == '-' && end_token()[2] == '>');
                }
            }
        }
        k += 1;
    }
    proof {
        assert forall|j: int| from <= j < n implies !end_token_at(line@, j) by {
            if j >= k {
                assert(line@.skip(j).len() < 3);
            }
        }
    }
    n
}

/// Whether `prefix` occurs at offset 0 of `line`.
fn has_prefix(line: &str, prefix: &str) -> (r: bool)
    ensures
        r == prefix@.is_prefix_of(line@),
{
    let n = prefix.unicode_len();
    if line.unicode_len() < n {
        return false;
    }
    let mut i: usize = 0;
    while i < n
        invariant
            n == prefix@.len(),
            n <= line@.len(),
            0 <= i <= n,
            forall|j: int| 0 <= j < i ==> line@[j] == prefix@[j],
        decreases n - i,
    {
        if line.get_char(i) != prefix.get_char(i) {
            assert(!prefix@.is_prefix_of(line@)) by {
                assert(line@.subrange(0, n as int)[i as int] != prefix@[i as int]);
            }
            return false;
        }
        i += 1;
    }
    assert(prefix@.is_prefix_of(line@)) by {
        assert(line@.subrange(0, n as int) =~= prefix@);
    }
    true
}

/// Whether `c` is one of the whitespace characters that trimming removes.
fn is_ws_char(c: char) -> (r: bool)
    ensures
        r == is_ws(c),
{
    c == ' ' || c == '\t' || c == '\r' || c == '\n'
}

/// Extracts the filename label from an open-marker line: the text between
/// the `<!-- export` prefix and the first `-->`, trimmed of surrounding
/// whitespace; the empty string when no token is left.
pub fn get_export_filename<'a>(line: &'a str) -> (r: &'a str)
    requires
        is_open_tag_line(line@),
    ensures
        r@ == spec_label(line@),
{
    let n = line.unicode_len();
    assert(open_prefix().len() == 11);
    let k = find_end_token_from(line, 11);
    let mut a: usize = 11;
    while a < k && is_ws_char(line.get_char(a))
        invariant
            n == line@.len(),
            11 <= a <= k <= n,
            forall|j: int| 11 <= j < a ==> is_ws(line@[j]),
        decreases k - a,
    {
        a += 1;
    }
    let mut b: usize = k;
    while b > a && is_ws_char(line.get_char(b - 1))
        invariant
            n == line@.len(),
            a <= b <= k <= n,
            forall|j: int| b <= j < k ==> is_ws(line@[j]),
        decreases b,
    {
        b -= 1;
    }
    proof {
        let rest = line@.skip(11);
        assert forall|j: int| 0 <= j < k - 11 implies !end_token_at(rest, j) by {
            assert(rest.skip(j) =~= line@.skip(j + 11));
            assert(!end_token_at(line@, j + 11));
        }
        if k < n {
            assert(rest.skip(k - 11) =~= line@.skip(k as int));
        }
        lemma_until_end_token(rest, k - 11);
        let seg = line@.subrange(11, k as int);
        assert(rest.subrange(0, k - 11) =~= seg);
        assert(a == b ==> a == k) by {
            if a < k && a == b {
                assert(is_ws(line@[a as int]));
            }
        }
        assert forall|j: int| 0 <= j < a - 11 implies is_ws(seg[j]) by {
            assert(seg[j] == line@[j + 11]);
        }
        assert forall|j: int| b - 11 <= j < seg.len() implies is_ws(seg[j]) by {
            assert(seg[j] == line@[j + 11]);
        }
        if a < k {
            assert(seg[a - 11] == line@[a as int]);
        }
        if b > a {
            assert(seg[b - 12] == line@[b as int - 1]);
        }
        lemma_trim_range(seg, a - 11, b - 11);
        assert(seg.subrange(a - 11, b - 11) =~= line@.subrange(a as int, b as int));
    }
    line.substring_char(a, b)
}

/// Whether `line` begins with the open-marker prefix (when `openning` is
/// true) or with the close-marker prefix (when it is false).
pub fn is_tag(line: &str, openning: bool) -> (r: bool)
    ensures
        openning ==> r == is_open_tag_line(line@),
        !openning ==> r == is_close_tag_line(line@),
{
    if openning {
        let r = has_prefix(line, "<!-- export");
        proof {
            reveal_strlit("<!-- export");
            assert("<!-- export"@ =~= open_prefix());
        }
        r
    } else {
        let r = has_prefix(line, "<!-- /export");
        proof {
            reveal_strlit("<!-- /export");
            assert("<!-- /export"@ =~= close_prefix());
        }
        r
    }
}

} // verus!
