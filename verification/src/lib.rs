//! Flattening of JSON documents into delimited text records.
//!
//! A document is walked breadth first; every leaf, and every container
//! that sits under an object key, becomes one record that names an
//! identifier, a pointer, a type and a value. Records are rendered as
//! delimited lines and may be filtered by a regular expression on one
//! column. The input is one document, or one document per line.
//!
//! - [`json`]: the document tree, its model, and parsing.
//! - [`pointer`]: the walk that turns a document into records.
//! - [`resolve`], [`distinct`]: what a pointer leads to, and what holds of
//!   the pointers of a walk.
//! - [`output`]: records and the blocks they are made of.
//! - [`format`], [`filter`]: lines, and the filter on them.
//! - [`driver`]: documents in, lines out.
//! - [`scan`]: the scanner that tracks quotes in a byte stream.
//! - [`error`]: errors, their texts and exit codes.

pub mod distinct;
pub mod driver;
pub mod error;
pub mod filter;
pub mod format;
pub mod json;
pub mod output;
pub mod pointer;
pub mod resolve;
pub mod scan;
pub mod text;
