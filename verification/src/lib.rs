//! A verified reader for Apache combined access logs: gzip-compressed files
//! are inflated, split into text lines, and each line is parsed against the
//! combined-log grammar into a [`log_entry::ApacheLog`] record. The grammar,
//! the line splitting and the per-file staging are specified and proved here;
//! the thin shell that walks a directory and prints records lives outside.

use vstd::prelude::*;

pub mod log_entry;
pub mod pipeline;
pub mod text;
pub mod timestamp;

verus! {

/// Whitespace as the log grammar knows it: space, tab, carriage return, line feed.
pub open spec fn is_space(c: char) -> bool {
    c == ' ' || c == '\t' || c == '\r' || c == '\n'
}

/// Decimal digit.
pub open spec fn is_digit(c: char) -> bool {
    48 <= c as u32 && c as u32 <= 57
}

} // verus!
