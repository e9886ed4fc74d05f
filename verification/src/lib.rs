//! Discovery and extraction planning for container archives.
//!
//! The library is the decision core of a bulk archive extractor: which files
//! of a source tree are candidate archives, which entries of an archive the
//! filter retains, where each entry lands under the output root, and what a
//! whole run materializes. The filesystem walk, the archive decoding and the
//! worker pool that calls these decisions are plain I/O and live outside it.

pub mod config;
pub mod extract;
pub mod laws;
pub mod model;
pub mod paths;
pub mod scan;
pub mod strings;
