//! A file search engine: filter criteria, a depth-bounded directory walk
//! driven by the caller, content digests, sorting and de-duplication of the
//! results, plans for bulk file operations, a folder tree view, and the
//! results and settings as records to be kept in files.
//!
//! The library itself touches neither the file system nor the clock. The
//! caller lists directories and reads files, and hands the library plain
//! values; every decision is taken here.
//!
//! Three things are taken on trust from other crates: which day of the
//! calendar falls on which second (chrono), which texts a regular expression
//! matches (regex), and the SHA-256 digest of a sequence of bytes (sha2).

pub mod text;
pub mod error;
pub mod filter;
pub mod helper;
pub mod path;
pub mod search_file;
