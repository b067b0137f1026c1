//! An in-memory filesystem index with fuzzy search.
//!
//! The crate keeps one cache per mounted volume, mapping base filenames to
//! every concrete path that carries that name.  A derived token index makes
//! candidate lookup for search queries sub-linear, a compact compressed
//! snapshot format persists the whole index across restarts, and a bounded
//! LRU cache stores user tags with the same persistence pattern.

pub mod alist;
pub mod cache;
pub mod commands;
pub mod describe;
pub mod persist;
pub mod search;
pub mod state;
pub mod strutil;
pub mod tags;
pub mod themes;
pub mod tokens;
pub mod volume;
