//! Rewrites fenced `dataview` query blocks of Markdown text into one-line
//! HTML comments, and decides which entries of a directory tree are visited.

pub mod fence;
pub mod filter;
pub mod plan;
pub mod text;
pub mod whitespace;
