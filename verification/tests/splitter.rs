use markdown_splitter::export_by_pattern;
use markdown_splitter::find_pattern;
use markdown_splitter::get_export_filename;
use markdown_splitter::is_tag;
use markdown_splitter::save_parts;
use markdown_splitter::split_text;
use markdown_splitter::traverse_text;
use markdown_splitter::TextPart;

// find_pattern

#[test]
fn find_pattern_empty() {
    assert_eq!(find_pattern("".to_string(), &mut "".to_string(), 1, 1), -1);
}

#[test]
fn find_pattern_found() {
    assert_eq!(find_pattern("pattern".to_string(), &mut "pattern".to_string(), 1, 1), 1);
}

#[test]
fn find_pattern_line2() {
    assert_eq!(find_pattern("pattern".to_string(), &mut "line1\npattern".to_string(), 1, 2), 2);
}

#[test]
fn find_pattern_out_of_scope() {
    assert_eq!(find_pattern("pattern".to_string(), &mut "pattern".to_string(), 2, 2), -1);
}

// split_text

#[test]
fn split_text_example() {
    let result = split_text(&mut "line1\nline2\nline3".to_string(), 1, 3);
    assert_eq!(result, "line2".to_string());
}

#[test]
fn split_text_empty() {
    let result = split_text(&mut "line1\nline2\nline3".to_string(), 2, 2);
    assert_eq!(result, "".to_string());
}

// is_tag

#[test]
fn is_tag_open() {
    assert_eq!(is_tag("<!-- export ok -->", true), true);
}

#[test]
fn is_tag_close() {
    assert_eq!(is_tag("<!-- /export -->", false), true);
}

#[test]
fn is_tag_plain() {
    assert_eq!(is_tag("not a tag", true), false);
    assert_eq!(is_tag("not a tag", false), false);
}

#[test]
fn is_tag_must_start_line() {
    assert_eq!(is_tag("text <!-- export -->", true), false);
    assert_eq!(is_tag("text <!-- /export -->", false), false);
}

#[test]
fn is_tag_close_is_not_open() {
    assert_eq!(is_tag("<!-- /export -->", true), false);
}

// get_export_filename

#[test]
fn export_filename_token() {
    assert_eq!(get_export_filename("<!-- export ok -->"), "ok");
}

#[test]
fn export_filename_with_extension() {
    assert_eq!(get_export_filename("<!-- export ok.md -->"), "ok.md");
}

#[test]
fn export_filename_absent() {
    assert_eq!(get_export_filename("<!-- export -->"), "");
}

#[test]
fn export_filename_whitespace_padding_ignored() {
    assert_eq!(get_export_filename("<!-- export   notes.md   -->"), "notes.md");
    assert_eq!(get_export_filename("<!-- export notes.md -->"), "notes.md");
}

// traverse_text

#[test]
fn traverse_no_markers() {
    let mut text = "line1\nline2\nline3".to_string();
    let parts = traverse_text(&mut text);
    assert_eq!(parts.len(), 0);
}

#[test]
fn traverse_empty_document() {
    let mut text = "".to_string();
    let parts = traverse_text(&mut text);
    assert_eq!(parts.len(), 0);
}

#[test]
fn traverse_unlabelled_region() {
    let mut text = "a\n<!-- export -->\nb\nc\n<!-- /export -->\nd".to_string();
    let parts = traverse_text(&mut text);
    assert_eq!(parts.len(), 1);
    assert_eq!(parts[0].filename, "");
    assert_eq!(parts[0].contents, "b\nc");
}

#[test]
fn traverse_labelled_region() {
    let mut text = "<!-- export out.md -->\nhello\n<!-- /export -->".to_string();
    let parts = traverse_text(&mut text);
    assert_eq!(parts.len(), 1);
    assert_eq!(parts[0].filename, "out.md");
    assert_eq!(parts[0].contents, "hello");
}

#[test]
fn traverse_two_regions_in_order() {
    let mut text = "<!-- export a.md -->\none\n<!-- /export -->\nmiddle\n<!-- export b.md -->\ntwo\n<!-- /export -->".to_string();
    let parts = traverse_text(&mut text);
    assert_eq!(parts.len(), 2);
    assert_eq!(parts[0].filename, "a.md");
    assert_eq!(parts[0].contents, "one");
    assert_eq!(parts[1].filename, "b.md");
    assert_eq!(parts[1].contents, "two");
}

#[test]
fn traverse_adjacent_markers_empty_region() {
    let mut text = "<!-- export -->\n<!-- /export -->".to_string();
    let parts = traverse_text(&mut text);
    assert_eq!(parts.len(), 1);
    assert_eq!(parts[0].filename, "");
    assert_eq!(parts[0].contents, "");
}

#[test]
fn traverse_unterminated_region_discarded() {
    let mut text = "<!-- export -->\nx".to_string();
    let parts = traverse_text(&mut text);
    assert_eq!(parts.len(), 0);
}

#[test]
fn traverse_unterminated_after_complete_region() {
    let mut text =
        "<!-- export a.md -->\nkept\n<!-- /export -->\n<!-- export b.md -->\nlost".to_string();
    let parts = traverse_text(&mut text);
    assert_eq!(parts.len(), 1);
    assert_eq!(parts[0].filename, "a.md");
    assert_eq!(parts[0].contents, "kept");
}

#[test]
fn traverse_plain_line_outside_pairs_inert() {
    let mut with_line = "before\n<!-- export -->\nx\n<!-- /export -->".to_string();
    let mut without_line = "<!-- export -->\nx\n<!-- /export -->".to_string();
    let with_parts = traverse_text(&mut with_line);
    let without_parts = traverse_text(&mut without_line);
    assert_eq!(with_parts.len(), without_parts.len());
    assert_eq!(with_parts[0].filename, without_parts[0].filename);
    assert_eq!(with_parts[0].contents, without_parts[0].contents);
}

#[test]
fn traverse_open_marker_inside_region_dropped() {
    let mut text = "<!-- export a.md -->\none\n<!-- export b.md -->\ntwo\n<!-- /export -->".to_string();
    let parts = traverse_text(&mut text);
    assert_eq!(parts.len(), 1);
    assert_eq!(parts[0].filename, "a.md");
    assert_eq!(parts[0].contents, "one\ntwo");
}

#[test]
fn traverse_crlf_line_endings() {
    let mut text = "<!-- export out.md -->\r\nhello\r\n<!-- /export -->\r\n".to_string();
    let parts = traverse_text(&mut text);
    assert_eq!(parts.len(), 1);
    assert_eq!(parts[0].filename, "out.md");
    assert_eq!(parts[0].contents, "hello");
}

// save_parts

#[test]
fn save_parts_default_filename() {
    let parts = vec![TextPart { filename: "".to_string(), contents: "body".to_string() }];
    let resolved = save_parts("export.md", parts);
    assert_eq!(resolved.len(), 1);
    assert_eq!(resolved[0].filename, "export.md");
    assert_eq!(resolved[0].contents, "body");
}

#[test]
fn save_parts_keeps_explicit_filename() {
    let parts = vec![
        TextPart { filename: "notes.md".to_string(), contents: "a".to_string() },
        TextPart { filename: "".to_string(), contents: "b".to_string() },
    ];
    let resolved = save_parts("export.md", parts);
    assert_eq!(resolved.len(), 2);
    assert_eq!(resolved[0].filename, "notes.md");
    assert_eq!(resolved[0].contents, "a");
    assert_eq!(resolved[1].filename, "export.md");
    assert_eq!(resolved[1].contents, "b");
}

// export_by_pattern

#[test]
fn export_by_pattern_unnamed_markers() {
    let mut text = "a\n<!-- export -->\nb\n<!-- /export -->\nc".to_string();
    let result = export_by_pattern("".to_string(), &mut text);
    assert_eq!(result, "b");
}

#[test]
fn export_by_pattern_named_markers() {
    let mut text =
        "<!-- export one -->\nfirst\n<!-- /export one -->\n<!-- export two -->\nsecond\n<!-- /export two -->".to_string();
    let result = export_by_pattern("two".to_string(), &mut text);
    assert_eq!(result, "second");
}

#[test]
fn export_by_pattern_missing_marker() {
    let mut text = "plain text only".to_string();
    let result = export_by_pattern("".to_string(), &mut text);
    assert_eq!(result, "");
}
