//! A navigable list of search results.
//!
//! Results are grouped by file: every group is a header that names the file,
//! followed by the matching lines found in it. The groups are stored one after
//! another in a single flat sequence, and a selection moves over the matches of
//! that sequence without ever resting on a header.

pub mod entries;
pub mod grouping;
pub mod laws;
pub mod list;
pub mod model;

pub use entries::{EntryType, FileEntry, Match};
pub use list::{ListState, ResultList};
