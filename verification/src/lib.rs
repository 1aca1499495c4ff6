//! Splitting class-list text found in template and string literals into the
//! parts that may be reordered and the parts that must stay as they are.
//!
//! A class list inside a template literal may touch the expressions around
//! it; what touches an expression stays verbatim, and only the region set off
//! by whitespace is registered for reordering. The modules, leaves first:
//!
//! - `whitespace`: the whitespace predicates, runs at the ends of a text,
//!   trimming;
//! - `registry`: output tokens, the token stream, the class registry;
//! - `classifier`: which attributes and calls carry class lists;
//! - `position`: where a fragment stands in its template;
//! - `splitter`: the split of a template fragment and its emission;
//! - `literal`: the writer for string literals;
//! - `render`: what the output amounts to, and how it relates to the input.
//!
//! All text is handled by its characters: the view of a `str` is a
//! `Seq<char>`, and every index in a contract is an index into that sequence.

pub mod whitespace;
pub mod registry;
pub mod splitter;
pub mod literal;
pub mod position;
pub mod classifier;
pub mod render;
