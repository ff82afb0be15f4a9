//! A parser for the at-rules of style sheets: `@container`, `@media`,
//! `@supports`, `@import`, `@keyframes`, `@layer`, `@namespace` and
//! `@font-face`, with their condition grammars.
//!
//! The syntax tree borrows nothing: each textual field is a [`stream::Span`],
//! a byte range of the input, trimmed of white space. Every parsing function
//! reads from a [`stream::Stream`] and states in its contract how the cursor
//! moves, which alternative the input selects, and that the spans of the tree
//! it returns stand in the input in the order of the tree, inside the text it
//! consumed.
pub mod stream;
pub mod at_rule;
pub mod sheet;
pub mod supports;
pub mod media;
pub mod container;
pub mod import;
