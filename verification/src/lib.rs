//! A verified parser for unified-diff streams.
//!
//! The parser reads a diff one line at a time, recognises the unified-diff
//! line shapes (file-pair headers, hunk headers, hunk-body lines, and
//! arbitrary non-diff preamble), and accumulates one descriptor pair per
//! hunk header: the affected path, the edit direction, the starting line,
//! and the line count on each side of the change.

pub mod classify;
pub mod diff;
pub mod laws;
