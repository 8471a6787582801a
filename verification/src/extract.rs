//! The region extractor: a single forward scan over the document's lines
//! that collects the text enclosed by each open/close marker pair.

use vstd::prelude::*;
use crate::lines::{spec_lines, split_lines, strings_view};
use crate::tags::{get_export_filename, is_close_tag_line, is_open_tag_line, is_tag, spec_label};

verus! {

/// One extracted region: the filename label of its open marker (empty when
/// the marker carried none) and the text of the lines between its markers.
pub struct TextPart {
    pub filename: String,
    pub contents: String,
}

/// The mathematical value of a [`TextPart`]: its label and contents as
/// character sequences.
pub ghost struct PartView {
    pub filename: Seq<char>,
    pub contents: Seq<char>,
}

impl View for TextPart {
    type V = PartView;

    open spec fn view(&self) -> PartView {
        PartView { filename: self.filename@, contents: self.contents@ }
    }
}

/// The views of the parts in `parts`.
pub open spec fn parts_view(parts: Seq<TextPart>) -> Seq<PartView> {
    parts.map_values(|p: TextPart| p@)
}

/// `line` added to accumulated region contents: joined with a single
/// newline when contents already hold text, taken verbatim otherwise.
pub open spec fn append_line(contents: Seq<char>, line: Seq<char>) -> Seq<char> {
    if contents.len() > 0 {
        contents + seq!['\n'] + line
    } else {
        line
    }
}

/// The scan state after reading one line: `None` when no region is open,
/// `Some` of the region accumulated so far otherwise. An open marker opens a
/// region only from the closed state; one seen while a region is open is
/// dropped; any other line while open is accumulated as content.
pub open spec fn scan_step(st: Option<PartView>, line: Seq<char>) -> Option<PartView> {
    match st {
        Option::None => if is_open_tag_line(line) {
            Option::Some(PartView { filename: spec_label(line), contents: Seq::empty() })
        } else {
            Option::None
        },
        Option::Some(p) => if is_close_tag_line(line) {
            Option::None
        } else if is_open_tag_line(line) {
            Option::Some(p)
        } else {
            Option::Some(PartView { filename: p.filename, contents: append_line(p.contents, line) })
        },
    }
}

/// The regions emitted on reading one line: exactly the accumulated region
/// when a close marker ends it, nothing otherwise.
pub open spec fn scan_emits(st: Option<PartView>, line: Seq<char>) -> Seq<PartView> {
    match st {
        Option::Some(p) => if is_close_tag_line(line) {
            seq![p]
        } else {
            Seq::empty()
        },
        Option::None => Seq::empty(),
    }
}

/// The regions emitted from line `i` on, starting in state `st`. A region
/// still open when the lines run out is discarded.
pub open spec fn extract_from(lines: Seq<Seq<char>>, i: int, st: Option<PartView>) -> Seq<
    PartView,
>
    decreases lines.len() - i,
{
    if i < 0 || i >= lines.len() {
        Seq::empty()
    } else {
        scan_emits(st, lines[i]) + extract_from(lines, i + 1, scan_step(st, lines[i]))
    }
}

/// The regions of a document, in the order their close markers appear.
pub open spec fn spec_extract(lines: Seq<Seq<char>>) -> Seq<PartView> {
    extract_from(lines, 0, Option::None)
}

/// The scan state after running lines `[i, k)` from state `st`.
pub open spec fn run_state(
    lines: Seq<Seq<char>>,
    i: int,
    k: int,
    st: Option<PartView>,
) -> Option<PartView>
    decreases k - i,
{
    if i < 0 || i >= k {
        st
    } else {
        run_state(lines, i + 1, k, scan_step(st, lines[i]))
    }
}

/// The scan state after the first `k` lines of a document.
pub open spec fn scan_state(lines: Seq<Seq<char>>, k: int) -> Option<PartView> {
    run_state(lines, 0, k, Option::None)
}

/// Extracts the export regions of `text`: scans its lines once and returns,
/// in the order their close markers appear, one part per open/close marker
/// pair, holding the open marker's label and the enclosed lines joined with
/// newlines. Open markers seen while a region is open are dropped, and a
/// region still open at the end of the document is discarded.
pub fn traverse_text(text: &mut String) -> (parts: Vec<TextPart>)
    ensures
        final(text)@ == old(text)@,
        parts_view(parts@) == spec_extract(spec_lines(old(text)@)),
{
    let lines = split_lines(text.as_str());
    let ghost lv = strings_view(lines@);
    let mut parts: Vec<TextPart> = Vec::new();
    let mut is_open: bool = false;
    let mut current = TextPart { filename: String::new(), contents: String::new() };
    let mut i: usize = 0;
    proof {
        assert(parts_view(parts@) + spec_extract(lv) =~= spec_extract(lv));
    }
    while i < lines.len()
        invariant
            lv == strings_view(lines@),
            lv == spec_lines(old(text)@),
            lv.len() == lines@.len(),
            0 <= i <= lines@.len(),
            parts_view(parts@) + extract_from(
                lv,
                i as int,
                (if is_open {
                    Option::Some(current@)
                } else {
                    Option::None
                }),
            ) == spec_extract(lv),
        decreases lines@.len() - i,
    {
        let ghost st = if is_open {
            Option::Some(current@)
        } else {
            Option::<PartView>::None
        };
        proof {
            assert(lv[i as int] == lines@[i as int]@);
        }
        let line = &lines[i];
        if !is_open && is_tag(line.as_str(), true) {
            is_open = true;
            let filename = get_export_filename(line.as_str());
            current = TextPart { filename: filename.to_owned(), contents: String::new() };
            proof {
                assert(scan_step(st, lv[i as int]) == Option::Some(current@));
                assert(scan_emits(st, lv[i as int]) + extract_from(
                    lv,
                    i as int + 1,
                    Option::Some(current@),
                ) =~= extract_from(lv, i as int + 1, Option::Some(current@)));
            }
        } else if is_open {
            if is_tag(line.as_str(), false) {
                is_open = false;
                let ghost prev_parts = parts@;
                parts.push(current);
                current = TextPart { filename: String::new(), contents: String::new() };
                proof {
                    assert(parts_view(parts@) =~= parts_view(prev_parts) + scan_emits(
                        st,
                        lv[i as int],
                    ));
                    assert(parts_view(prev_parts) + (scan_emits(st, lv[i as int]) + extract_from(
                        lv,
                        i as int + 1,
                        Option::None,
                    )) =~= (parts_view(prev_parts) + scan_emits(st, lv[i as int])) + extract_from(
                        lv,
                        i as int + 1,
                        Option::None,
                    ));
                }
            } else if is_tag(line.as_str(), true) {
                proof {
                    assert(scan_step(st, lv[i as int]) == st);
                    assert(scan_emits(st, lv[i as int]) + extract_from(lv, i as int + 1, st)
                        =~= extract_from(lv, i as int + 1, st));
                }
            } else {
                let ghost prev = current@;
                if current.contents.as_str().is_empty() {
                    current.contents.append(line.as_str());
                } else {
                    current.contents.append("\n");
                    current.contents.append(line.as_str());
                }
                proof {
                    reveal_strlit("\n");
                    assert("\n"@ =~= seq!['\n']);
                    assert(current@.contents =~= append_line(prev.contents, lv[i as int]));
                    assert(scan_step(st, lv[i as int]) == Option::Some(current@));
                    assert(scan_emits(st, lv[i as int]) + extract_from(
                        lv,
                        i as int + 1,
                        Option::Some(current@),
                    ) =~= extract_from(lv, i as int + 1, Option::Some(current@)));
                }
            }
        } else {
            proof {
                assert(scan_step(st, lv[i as int]) == st);
                assert(scan_emits(st, lv[i as int]) + extract_from(lv, i as int + 1, st)
                    =~= extract_from(lv, i as int + 1, st));
            }
        }
        i += 1;
    }
    proof {
        assert(parts_view(parts@) + Seq::<PartView>::empty() =~= parts_view(parts@));
    }
    parts
}

/// A part with its output filename settled: the default replaces an empty
/// label, a non-empty label stands verbatim; contents are unchanged.
pub open spec fn resolved_view(p: PartView, default_filename: Seq<char>) -> PartView {
    PartView {
        filename: if p.filename.len() == 0 {
            default_filename
        } else {
            p.filename
        },
        contents: p.contents,
    }
}

/// Resolves the output filename of each part: a part whose label is empty
/// gets `default_filename`, any other keeps its label. The caller then
/// writes each resolved part's contents to its filename, in order.
pub fn save_parts(default_filename: &str, parts: Vec<TextPart>) -> (resolved: Vec<TextPart>)
    ensures
        resolved@.len() == parts@.len(),
        forall|i: int|
            0 <= i < parts@.len() ==> resolved@[i]@ == resolved_view(
                parts@[i]@,
                default_filename@,
            ),
{
    let mut resolved: Vec<TextPart> = Vec::new();
    let mut i: usize = 0;
    while i < parts.len()
        invariant
            0 <= i <= parts@.len(),
            resolved@.len() == i,
            forall|j: int|
                0 <= j < i ==> resolved@[j]@ == resolved_view(parts@[j]@, default_filename@),
        decreases parts@.len() - i,
    {
        let part = &parts[i];
        let filename: String = if part.filename.as_str().is_empty() {
            default_filename.to_owned()
        } else {
            part.filename.clone()
        };
        resolved.push(TextPart { filename, contents: part.contents.clone() });
        i += 1;
    }
    resolved
}

} // verus!
