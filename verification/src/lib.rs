//! A small line-oriented text toolkit.
//!
//! The heart of the crate is a one-line templating engine: a classifier that
//! decides whether a line is literal text, an interpolation, or an `if`/`for`
//! directive; a parser that turns a directive's condition into structured
//! data; and a generator that renders classified content against a read-only
//! variable context.  Around it stand verified helpers for selecting
//! character, byte and field ranges from lines, tail-style start indices,
//! word and line counting, common-line comparison, duplicate-line grouping,
//! month-name parsing, source-file metrics, permission-bit formatting, and a
//! text viewer's cursor state.

// The templating engine.
pub mod context;
pub mod parser;
pub mod generator;
pub mod laws;

// Shared text and number groundwork.
pub mod text;
pub mod digits;

// Line-oriented utilities.
pub mod compare;
pub mod counts;
pub mod dedup;
pub mod finding;
pub mod months;
pub mod perms;
pub mod resize;
pub mod select;
pub mod stats;
pub mod tailing;
pub mod viewer;
