//! A file search engine: command-line tokens are sorted into flags, root paths
//! and name patterns, and a depth-first walk over directory listings collects
//! the paths of the entries whose base name one of the patterns accepts.
//!
//! The library never touches the filesystem. Whoever drives it answers two
//! questions with plain values: whether a token names an existing entry, and
//! what a directory holds.
//!
//! - [`option`]: the switches, read off the flag tokens.
//! - [`pattern`]: name patterns, compiled by the `regex` crate.
//! - [`args`]: the classification of a command line.
//! - [`walk`]: the search, one step at a time.
//! - [`sort`], [`report`]: the order of the paths found, and the lines that
//!   report them.
//! - [`tree`]: what a search finds in a directory tree, and the proof that
//!   the walk finds it.
//! - [`text`]: equality of strings.

pub mod text;
pub mod option;
pub mod pattern;
pub mod args;
pub mod walk;
pub mod sort;
pub mod report;
pub mod tree;

pub use args::Args;
pub use option::Options;
pub use walk::run;
