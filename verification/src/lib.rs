//! A changelog parser: extracts per-version release notes from a
//! markdown-formatted changelog document.
//!
//! The parser scans the document line by line, recognises Atx-style
//! (`# 0.1.0`) and Setext-style (`0.1.0` underlined with `=` or `-`)
//! headings outside fenced code blocks and HTML comments, extracts a
//! version token from each qualifying heading, and collects the text
//! that follows as that release's notes.

use vstd::prelude::*;

mod chars;
mod codefmt;
mod error;
mod extract;
mod heading;
mod parser;
mod pattern;
mod release;
mod scan;
mod unlink;

verus! {

pub use chars::{
    find_char_from, find_sub_from, is_blank, is_ws_char, leading_spaces, line_end, matches_at,
    trim_back, trim_both, trim_front,
};
pub use codefmt::{
    bytes_match_at, format_macros, spec_fmt, spec_format_macros, spec_replace_at,
};
pub use error::Error;
pub use extract::{extract_version_from_title, first_ws, spec_extract};
pub use heading::{
    all_char, is_underline, leading_hashes, spec_heading, trim_start, trim_start3, SpecHeading,
};
pub use parser::{
    distinct_keys, dup_at, dup_msg, empty_format_msg, entries, entries_match, first_dup, has_key,
    lemma_duplicate_errs, lemma_empty_errs, lemma_first_dup_agrees, lemma_first_dup_le,
    lemma_parse_deterministic, lemma_parse_matches_iter, no_release_msg, parse, parse_iter,
    parse_result_matches, Changelog, Parser,
};
pub use release::{Release, SpecRelease};
pub use scan::{
    close_at, close_eof, close_marker, comment_after, is_fence, open_marker, skip_blanks,
    spec_releases, spec_scan, ParseIter, SpecOpen,
};
pub use pattern::{
    default_prefix_pattern, default_prefix_src, default_version_pattern, default_version_src,
    regex_compiles, regex_error_text, regex_find_end, regex_is_match, Pattern,
};
pub use unlink::{full_unlink, spec_full_unlink, spec_unlink, unlink};

} // verus!
