//! Properties of the extractor, stated and proved once over the
//! specification functions that the executable functions' contracts use.

use vstd::prelude::*;
use crate::extract::{
    append_line, extract_from, run_state, scan_emits, scan_state, scan_step, spec_extract,
    PartView,
};
use crate::tags::{
    end_token, end_token_at, is_close_tag_line, is_open_tag_line, is_ws, lemma_until_end_token,
    open_prefix, spec_label, spec_trim, trim_back, trim_front,
};

verus! {

/// A scan that never sees an open marker emits nothing.
proof fn lemma_extract_no_open(lines: Seq<Seq<char>>, i: int)
    requires
        0 <= i,
        forall|j: int| i <= j < lines.len() ==> !is_open_tag_line(lines[j]),
    ensures
        extract_from(lines, i, Option::None) == Seq::<PartView>::empty(),
    decreases lines.len() - i,
{
    if i < lines.len() {
        lemma_extract_no_open(lines, i + 1);
        assert(scan_emits(Option::None, lines[i]) + extract_from(lines, i + 1, Option::None)
            =~= Seq::<PartView>::empty());
    }
}

/// A document with no marker lines yields no regions.
pub proof fn lemma_no_marker_lines_no_regions(lines: Seq<Seq<char>>)
    requires
        forall|i: int|
            0 <= i < lines.len() ==> !is_open_tag_line(lines[i]) && !is_close_tag_line(lines[i]),
    ensures
        spec_extract(lines) == Seq::<PartView>::empty(),
{
    lemma_extract_no_open(lines, 0);
}

/// A document of exactly an open marker and, on the next line, a close
/// marker yields one region, with the open marker's label and empty
/// contents.
pub proof fn lemma_adjacent_pair_one_empty_region(open_line: Seq<char>, close_line: Seq<char>)
    requires
        is_open_tag_line(open_line),
        is_close_tag_line(close_line),
    ensures
        spec_extract(seq![open_line, close_line]) == seq![
            PartView { filename: spec_label(open_line), contents: Seq::<char>::empty() },
        ],
{
    let lines = seq![open_line, close_line];
    let p0 = PartView { filename: spec_label(open_line), contents: Seq::<char>::empty() };
    assert(lines[0] == open_line && lines[1] == close_line);
    assert(scan_step(Option::None, open_line) == Option::Some(p0));
    assert(extract_from(lines, 2, Option::None) == Seq::<PartView>::empty());
    assert(extract_from(lines, 1, Option::Some(p0)) =~= seq![p0]);
    assert(spec_extract(lines) =~= seq![p0]);
}

/// Scans over line ranges with the same contents emit the same regions.
proof fn lemma_extract_agree(
    a: Seq<Seq<char>>,
    b: Seq<Seq<char>>,
    i: int,
    j: int,
    st: Option<PartView>,
)
    requires
        0 <= i <= a.len(),
        0 <= j <= b.len(),
        a.len() - i == b.len() - j,
        forall|d: int| 0 <= d < a.len() - i ==> #[trigger] a[i + d] == b[j + d],
    ensures
        extract_from(a, i, st) == extract_from(b, j, st),
    decreases a.len() - i,
{
    if i < a.len() {
        assert(a[i] == b[j]) by {
            assert(a[i + 0] == b[j + 0]);
        }
        assert forall|d: int| 0 <= d < a.len() - (i + 1) implies #[trigger] a[i + 1 + d] == b[j
            + 1 + d] by {
            assert(a[i + (d + 1)] == b[j + (d + 1)]);
        }
        lemma_extract_agree(a, b, i + 1, j + 1, scan_step(st, a[i]));
    }
}

/// Inserting a plain line at a point where the scan is closed changes
/// nothing from that point on.
proof fn lemma_insert_plain_from(lines: Seq<Seq<char>>, k: int, l: Seq<char>, i: int, st: Option<
    PartView,
>)
    requires
        0 <= i <= k <= lines.len(),
        !is_open_tag_line(l),
        !is_close_tag_line(l),
        run_state(lines, i, k, st) == Option::<PartView>::None,
    ensures
        extract_from(lines.insert(k, l), i, st) == extract_from(lines, i, st),
    decreases k - i,
{
    let ins = lines.insert(k, l);
    if i == k {
        assert(st == Option::<PartView>::None);
        assert(ins[k] == l);
        assert(scan_step(st, l) == Option::<PartView>::None);
        assert(scan_emits(st, l) == Seq::<PartView>::empty());
        assert forall|d: int| 0 <= d < ins.len() - (k + 1) implies #[trigger] ins[k + 1 + d]
            == lines[k + d] by {}
        lemma_extract_agree(ins, lines, k + 1, k, Option::None);
        assert(Seq::<PartView>::empty() + extract_from(ins, k + 1, Option::None) =~= extract_from(
            ins,
            k + 1,
            Option::None,
        ));
    } else {
        assert(ins[i] == lines[i]);
        lemma_insert_plain_from(lines, k, l, i + 1, scan_step(st, lines[i]));
    }
}

/// A line that is neither an open nor a close marker, placed at a point
/// where no region is open, leaves the extracted regions unchanged.
pub proof fn lemma_plain_line_outside_pairs_inert(lines: Seq<Seq<char>>, k: int, l: Seq<char>)
    requires
        0 <= k <= lines.len(),
        !is_open_tag_line(l),
        !is_close_tag_line(l),
        scan_state(lines, k) == Option::<PartView>::None,
    ensures
        spec_extract(lines.insert(k, l)) == spec_extract(lines),
{
    lemma_insert_plain_from(lines, k, l, 0, Option::None);
}

/// A scan with a region open emits nothing when no close marker follows.
proof fn lemma_open_no_close_no_emit(lines: Seq<Seq<char>>, i: int, p: PartView)
    requires
        0 <= i,
        forall|j: int| i <= j < lines.len() ==> !is_close_tag_line(lines[j]),
    ensures
        extract_from(lines, i, Option::Some(p)) == Seq::<PartView>::empty(),
    decreases lines.len() - i,
{
    if i < lines.len() {
        assert(scan_emits(Option::Some(p), lines[i]) == Seq::<PartView>::empty());
        if is_open_tag_line(lines[i]) {
            lemma_open_no_close_no_emit(lines, i + 1, p);
        } else {
            lemma_open_no_close_no_emit(
                lines,
                i + 1,
                PartView { filename: p.filename, contents: append_line(p.contents, lines[i]) },
            );
        }
        assert(Seq::<PartView>::empty() + extract_from(
            lines,
            i + 1,
            scan_step(Option::Some(p), lines[i]),
        ) =~= extract_from(lines, i + 1, scan_step(Option::Some(p), lines[i])));
    }
}

/// From a point where the scan is closed, lines from an open marker that is
/// never closed contribute nothing.
proof fn lemma_extract_take(lines: Seq<Seq<char>>, k: int, i: int, st: Option<PartView>)
    requires
        0 <= i <= k <= lines.len(),
        run_state(lines, i, k, st) == Option::<PartView>::None,
        forall|j: int| k <= j < lines.len() ==> !is_close_tag_line(lines[j]),
    ensures
        extract_from(lines, i, st) == extract_from(lines.take(k), i, st),
    decreases k - i,
{
    let cut = lines.take(k);
    if i == k {
        assert(st == Option::<PartView>::None);
        assert(extract_from(cut, k, st) == Seq::<PartView>::empty());
        if k < lines.len() {
            let l = lines[k];
            assert(scan_emits(st, l) == Seq::<PartView>::empty());
            if is_open_tag_line(l) {
                let p0 = PartView { filename: spec_label(l), contents: Seq::<char>::empty() };
                assert(scan_step(st, l) == Option::Some(p0));
                lemma_open_no_close_no_emit(lines, k + 1, p0);
            } else {
                assert(scan_step(st, l) == Option::<PartView>::None);
                lemma_extract_no_close_still_none(lines, k + 1);
            }
            assert(Seq::<PartView>::empty() + Seq::<PartView>::empty() =~= Seq::<
                PartView,
            >::empty());
        }
    } else {
        assert(cut[i] == lines[i]);
        lemma_extract_take(lines, k, i + 1, scan_step(st, lines[i]));
    }
}

/// A closed scan that only ever meets lines without close markers can emit
/// a region only after an open marker; with no close marker at all it emits
/// nothing.
proof fn lemma_extract_no_close_still_none(lines: Seq<Seq<char>>, i: int)
    requires
        0 <= i,
        forall|j: int| i <= j < lines.len() ==> !is_close_tag_line(lines[j]),
    ensures
        extract_from(lines, i, Option::None) == Seq::<PartView>::empty(),
    decreases lines.len() - i,
{
    if i < lines.len() {
        if is_open_tag_line(lines[i]) {
            let p0 = PartView { filename: spec_label(lines[i]), contents: Seq::<char>::empty() };
            lemma_open_no_close_no_emit(lines, i + 1, p0);
        } else {
            lemma_extract_no_close_still_none(lines, i + 1);
        }
        assert(scan_emits(Option::None, lines[i]) + extract_from(
            lines,
            i + 1,
            scan_step(Option::None, lines[i]),
        ) =~= extract_from(lines, i + 1, scan_step(Option::None, lines[i])));
    }
}

/// An open marker that no later close marker answers yields no region: the
/// document extracts exactly what its prefix before that marker does.
pub proof fn lemma_unterminated_region_discarded(lines: Seq<Seq<char>>, k: int)
    requires
        0 <= k < lines.len(),
        is_open_tag_line(lines[k]),
        scan_state(lines, k) == Option::<PartView>::None,
        forall|j: int| k < j < lines.len() ==> !is_close_tag_line(lines[j]),
    ensures
        spec_extract(lines) == spec_extract(lines.take(k)),
{
    assert(!is_close_tag_line(lines[k])) by {
        if is_close_tag_line(lines[k]) {
            assert(crate::tags::close_prefix()[5] == '/');
            assert(crate::tags::open_prefix()[5] == 'e');
            assert(lines[k].subrange(0, 11)[5] == lines[k][5]);
            assert(lines[k].subrange(0, 12)[5] == lines[k][5]);
        }
    }
    lemma_extract_take(lines, k, 0, Option::None);
}

/// A sequence of whitespace characters trims away to nothing.
proof fn lemma_trim_front_all_ws(w: Seq<char>)
    requires
        forall|j: int| 0 <= j < w.len() ==> is_ws(w[j]),
    ensures
        trim_front(w) == Seq::<char>::empty(),
    decreases w.len(),
{
    if w.len() > 0 {
        lemma_trim_front_all_ws(w.drop_first());
    } else {
        assert(w =~= Seq::<char>::empty());
    }
}

/// Whitespace in front of a sequence does not affect its front trim.
proof fn lemma_trim_front_prepend_ws(w: Seq<char>, t: Seq<char>)
    requires
        forall|j: int| 0 <= j < w.len() ==> is_ws(w[j]),
    ensures
        trim_front(w + t) == trim_front(t),
    decreases w.len(),
{
    if w.len() == 0 {
        assert(w + t =~= t);
    } else {
        assert(is_ws((w + t)[0]));
        assert((w + t).drop_first() =~= w.drop_first() + t);
        lemma_trim_front_prepend_ws(w.drop_first(), t);
    }
}

/// Whitespace behind a sequence does not affect its back trim.
proof fn lemma_trim_back_append_ws(t: Seq<char>, w: Seq<char>)
    requires
        forall|j: int| 0 <= j < w.len() ==> is_ws(w[j]),
    ensures
        trim_back(t + w) == trim_back(t),
    decreases w.len(),
{
    if w.len() == 0 {
        assert(t + w =~= t);
    } else {
        assert(is_ws((t + w).last()));
        assert((t + w).drop_last() =~= t + w.drop_last());
        lemma_trim_back_append_ws(t, w.drop_last());
    }
}

/// Front-trimming past appended trailing whitespace: when the core is
/// non-empty the whitespace survives the front trim unchanged; when the
/// core is all whitespace the front trim eats into the appended part.
proof fn lemma_trim_front_append(s: Seq<char>, w: Seq<char>)
    requires
        forall|j: int| 0 <= j < w.len() ==> is_ws(w[j]),
    ensures
        trim_front(s).len() > 0 ==> trim_front(s + w) == trim_front(s) + w,
        trim_front(s).len() == 0 ==> trim_front(s + w) == trim_front(w),
    decreases s.len(),
{
    if s.len() == 0 {
        assert(s + w =~= w);
    } else if is_ws(s[0]) {
        assert((s + w).drop_first() =~= s.drop_first() + w);
        lemma_trim_front_append(s.drop_first(), w);
    } else {
        assert(trim_front(s) == s);
        assert(trim_front(s + w) == s + w);
    }
}

/// Label parsing is insensitive to whitespace around the filename token: an
/// open marker made of the open prefix, any whitespace, a token free of
/// `-->`, any whitespace again, and the terminator parses to the trimmed
/// token, however much whitespace stands on either side of it.
pub proof fn lemma_label_whitespace_insensitive(
    ws1: Seq<char>,
    t: Seq<char>,
    ws2: Seq<char>,
    rest: Seq<char>,
)
    requires
        forall|j: int| 0 <= j < ws1.len() ==> is_ws(ws1[j]),
        forall|j: int| 0 <= j < ws2.len() ==> is_ws(ws2[j]),
        forall|j: int| 0 <= j < t.len() ==> !end_token_at(t, j),
    ensures
        spec_label(open_prefix() + ws1 + t + ws2 + end_token() + rest) == spec_trim(t),
{
    let line = open_prefix() + ws1 + t + ws2 + end_token() + rest;
    let body = ws1 + t + ws2 + end_token() + rest;
    assert(line.skip(11) =~= body);
    let w1 = ws1.len() as int;
    let tl = t.len() as int;
    let w2 = ws2.len() as int;
    let k = w1 + tl + w2;
    assert forall|j: int| 0 <= j < k implies !end_token_at(body, j) by {
        if end_token_at(body, j) {
            assert(body.skip(j).subrange(0, 3) == end_token());
            assert(body[j] == '-' && body[j + 1] == '-' && body[j + 2] == '>') by {
                assert(body.skip(j)[0] == body[j]);
                assert(body.skip(j)[1] == body[j + 1]);
                assert(body.skip(j)[2] == body[j + 2]);
                assert(body.skip(j).subrange(0, 3)[0] == body.skip(j)[0]);
                assert(body.skip(j).subrange(0, 3)[1] == body.skip(j)[1]);
                assert(body.skip(j).subrange(0, 3)[2] == body.skip(j)[2]);
            }
            if j < w1 {
                assert(body[j] == ws1[j]);
                assert(is_ws(ws1[j]));
            } else if j < w1 + tl {
                if j + 2 < w1 + tl {
                    assert(body[j] == t[j - w1]);
                    assert(body[j + 1] == t[j - w1 + 1]);
                    assert(body[j + 2] == t[j - w1 + 2]);
                    assert(!end_token_at(t, j - w1));
                    assert(t.skip(j - w1).subrange(0, 3) =~= end_token());
                } else if j + 2 < k {
                    assert(body[j + 2] == ws2[j + 2 - (w1 + tl)]);
                    assert(is_ws(ws2[j + 2 - (w1 + tl)]));
                } else {
                    assert(body[j + 2] == end_token()[j + 2 - k]);
                    assert(j + 2 - k < 2);
                }
            } else {
                assert(body[j] == ws2[j - (w1 + tl)]);
                assert(is_ws(ws2[j - (w1 + tl)]));
            }
        }
    }
    assert(end_token_at(body, k)) by {
        assert(body.skip(k).subrange(0, 3) =~= end_token());
    }
    lemma_until_end_token(body, k);
    assert(body.subrange(0, k) =~= ws1 + t + ws2);
    lemma_trim_whitespace_insensitive(ws1, t, ws2);
}

/// Label trimming is insensitive to surrounding whitespace: padding a
/// segment with extra leading or trailing whitespace leaves its trimmed
/// value unchanged.
pub proof fn lemma_trim_whitespace_insensitive(ws1: Seq<char>, s: Seq<char>, ws2: Seq<char>)
    requires
        forall|j: int| 0 <= j < ws1.len() ==> is_ws(ws1[j]),
        forall|j: int| 0 <= j < ws2.len() ==> is_ws(ws2[j]),
    ensures
        spec_trim(ws1 + s + ws2) == spec_trim(s),
{
    assert(ws1 + s + ws2 =~= ws1 + (s + ws2));
    lemma_trim_front_prepend_ws(ws1, s + ws2);
    lemma_trim_front_append(s, ws2);
    if trim_front(s).len() > 0 {
        lemma_trim_back_append_ws(trim_front(s), ws2);
    } else {
        lemma_trim_front_all_ws(ws2);
        assert(trim_back(Seq::<char>::empty()) == Seq::<char>::empty());
    }
}

} // verus!
