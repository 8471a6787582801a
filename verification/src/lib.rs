//! Extraction of delimited export regions from a markdown document.
//!
//! A document may contain marker lines: an open marker starts with
//! `<!-- export` (optionally carrying a filename label before the closing
//! `-->`), a close marker starts with `<!-- /export`. The extractor walks the
//! document line by line and collects the text enclosed by each open/close
//! pair into a named region; a thin driver then writes each region to its own
//! file.

pub mod extract;
pub mod laws;
pub mod lines;
pub mod pattern;
pub mod tags;

pub use pattern::export_by_pattern;
pub use pattern::find_pattern;
pub use pattern::split_text;

pub use extract::save_parts;
pub use extract::traverse_text;
pub use extract::TextPart;
pub use tags::get_export_filename;
pub use tags::is_tag;
