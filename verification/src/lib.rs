//! Reader for Thor patch lists and Thor patch archives.
//!
//! A patch list names the patches that a server offers. A patch is an archive of files to put in
//! place or to remove.

pub mod access_laws;
pub mod archive;
pub mod bytes;
pub mod container;
pub mod entries;
pub mod entry;
pub mod error;
pub mod format_laws;
pub mod header;
pub mod laws;
pub mod patch_list;
pub mod table;
pub mod text;
pub mod windows_1252;
pub mod zlib;

pub use archive::{ArchiveError, ThorArchive};
pub use container::{is_within_bounds, parse_thor_patch, ThorContainer};
pub use entries::FileEntries;
pub use entry::ThorFileEntry;
pub use error::{ErrorKind, ParseError, ParseResult};
pub use header::{ThorHeader, ThorMode};
pub use patch_list::{patch_list_from_string, ThorPatchInfo, ThorPatchList};
pub use table::{MultipleFilesTableDesc, SingleFileTableDesc, ThorTable};
