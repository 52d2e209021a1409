//! A verified core for a line-oriented text concatenation utility.
//!
//! The library resolves display options from argument tokens, encodes
//! non-printing characters in caret/meta notation, and formats input lines
//! one at a time while threading a small numbering state across calls.
//! All I/O stays outside; the library works on plain strings and vectors.

pub mod format;
pub mod options;
pub mod pipeline;
