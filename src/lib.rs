//! Search over markdown and outline documents: a small query language, the
//! grammar of headings, timestamps and property blocks, and a per-file search
//! that filters sections by their headings and scores the lines.
pub mod args;
pub mod datetime;
pub mod extensions;
pub mod header;
pub mod marks;
pub mod number;
pub mod parser;
pub mod parsers;
pub mod query;
pub mod result;
pub mod searcher;
pub mod text;
pub mod utils;
