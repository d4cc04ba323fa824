//! Reader for RPF7 package archives: header validation, entry-table and
//! name-table decoding, directory-tree reconstruction, lookup, listing and
//! extraction of stored file data.

pub mod archive;
pub mod census;
pub mod entry;
pub mod error;
pub mod header;
pub mod inflate;
pub mod le;
pub mod names;
pub mod pattern;
pub mod placeholder;
pub mod tree;

pub use archive::{count_directories, count_entries, stored_span, RpfArchive};
pub use entry::{RpfDirectoryEntry, RpfEntry, RpfFileEntry};
pub use error::RpfError;
pub use header::{resolve_table_start, RpfHeader};
pub use pattern::matches_pattern;
