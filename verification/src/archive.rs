//! Access to the files of an archive.
use vstd::prelude::*;

use crate::container;
use crate::container::{parse_thor_patch, ContainerView, ThorContainer};
use crate::entries;
use crate::entry::{FileEntryView, ThorFileEntry};
use crate::zlib;
use crate::zlib::zlib_decode;

verus! {

/// Why an archive, or a file of it, cannot be read.
#[derive(Debug)]
pub enum ArchiveError {
    /// The content of the archive does not follow the format.
    Malformed,
    /// The archive has no file of that path.
    NotFound,
    /// The archive ends inside of the file.
    UnexpectedEnd,
    /// The file cannot be decompressed.
    Decompression(std::io::Error),
    /// The decompressed file is not as long as the archive says.
    UnexpectedSize,
}

/// The mathematical counterpart of [`ArchiveError`].
pub enum ArchiveErrorView {
    Malformed,
    NotFound,
    UnexpectedEnd,
    Decompression(std::io::Error),
    UnexpectedSize,
}

impl View for ArchiveError {
    type V = ArchiveErrorView;

    open spec fn view(&self) -> ArchiveErrorView {
        match *self {
            ArchiveError::Malformed => ArchiveErrorView::Malformed,
            ArchiveError::NotFound => ArchiveErrorView::NotFound,
            ArchiveError::UnexpectedEnd => ArchiveErrorView::UnexpectedEnd,
            ArchiveError::Decompression(error) => ArchiveErrorView::Decompression(error),
            ArchiveError::UnexpectedSize => ArchiveErrorView::UnexpectedSize,
        }
    }
}

/// A result with the value and the error taken by their views.
pub open spec fn outcome<T: View>(result: Result<T, ArchiveError>) -> Result<
    T::V,
    ArchiveErrorView,
> {
    match result {
        Ok(value) => Ok(value@),
        Err(error) => Err(error@),
    }
}

/// The bytes of an archive that hold a compressed file. Of an archive that is too short there are
/// none; an empty run of bytes lies anywhere.
pub open spec fn stored_bytes(content: Seq<u8>, entry: FileEntryView) -> Result<
    Seq<u8>,
    ArchiveErrorView,
> {
    if entry.size_compressed == 0 {
        Ok(seq![])
    } else if entry.offset + entry.size_compressed <= content.len() {
        Ok(content.subrange(entry.offset, entry.offset + entry.size_compressed))
    } else {
        Err(ArchiveErrorView::UnexpectedEnd)
    }
}

/// A file that was decompressed to `decoded`, or could not be decompressed for the reason that
/// `decoded` gives.
pub open spec fn checked_content(
    entry: FileEntryView,
    decoded: Result<Seq<u8>, std::io::Error>,
) -> Result<Seq<u8>, ArchiveErrorView> {
    match decoded {
        Err(error) => Err(ArchiveErrorView::Decompression(error)),
        Ok(decoded) => if decoded.len() == entry.size {
            Ok(decoded)
        } else {
            Err(ArchiveErrorView::UnexpectedSize)
        },
    }
}

/// The file of a path, out of the archive whose content and description are given.
pub open spec fn file_content(
    container: ContainerView,
    content: Seq<u8>,
    path: Seq<char>,
) -> Result<Seq<u8>, ArchiveErrorView> {
    if !container.entries.contains_key(path) {
        Err(ArchiveErrorView::NotFound)
    } else {
        let entry = container.entries[path];
        match stored_bytes(content, entry) {
            Err(error) => Err(error),
            Ok(stored) => checked_content(entry, zlib::zlib_decoded(stored)),
        }
    }
}

/// Checks a file that was decompressed, or passes on why it could not be.
pub fn check_file_content(
    entry: &ThorFileEntry,
    decoded: Result<Vec<u8>, std::io::Error>,
) -> (res: Result<Vec<u8>, ArchiveError>)
    ensures
        outcome(res) == checked_content(entry@, zlib::decoding(decoded)),
{
    let decoded = match decoded {
        Ok(decoded) => decoded,
        Err(error) => return Err(ArchiveError::Decompression(error)),
    };
    if decoded.len() != entry.size {
        return Err(ArchiveError::UnexpectedSize);
    }
    Ok(decoded)
}

/// Unpacks a file from the bytes that the archive holds at the file's offset. An error of the
/// decompression is passed on as it is.
pub fn unpack_file_content(entry: &ThorFileEntry, stored: &[u8]) -> (res: Result<
    Vec<u8>,
    ArchiveError,
>)
    ensures
        outcome(res) == checked_content(entry@, zlib::zlib_decoded(stored@)),
{
    check_file_content(entry, zlib_decode(stored))
}

/// An archive that has been read.
#[derive(Debug)]
pub struct ThorArchive {
    container: ThorContainer,
}

impl View for ThorArchive {
    type V = ContainerView;

    closed spec fn view(&self) -> ContainerView {
        self.container@
    }
}

impl ThorArchive {
    /// Reads an archive from its content.
    pub fn new(content: &[u8]) -> (res: Result<ThorArchive, ArchiveError>)
        requires
            container::within_bounds(content@),
        ensures
            outcome(res) == (match container::thor_patch(content@) {
                Ok((_, container)) => Ok(container),
                Err(_) => Err(ArchiveErrorView::Malformed),
            }),
    {
        match parse_thor_patch(content) {
            Ok((_, container)) => Ok(ThorArchive { container }),
            Err(_) => Err(ArchiveError::Malformed),
        }
    }

    /// Whether the files go into a GRF archive rather than into the client's directory.
    pub fn use_grf_merging(&self) -> (res: bool)
        ensures
            res == self@.header.use_grf_merging,
    {
        self.container.header.use_grf_merging
    }

    /// The number of files that the header gives.
    pub fn file_count(&self) -> (res: usize)
        ensures
            res == self@.header.file_count,
    {
        self.container.header.file_count
    }

    /// The name of the GRF archive that the files go into; the default one if it is empty.
    pub fn target_grf_name(&self) -> (res: String)
        ensures
            res@ == self@.header.target_grf_name,
    {
        self.container.header.target_grf_name.clone()
    }

    /// The entry of the file of a path.
    pub fn get_file_entry(&self, file_path: &str) -> (res: Option<&ThorFileEntry>)
        ensures
            match res {
                Some(entry) => self@.entries.contains_pair(file_path@, entry@),
                None => !self@.entries.contains_key(file_path@),
            },
    {
        self.container.entries.get(file_path)
    }

    /// The entries of all the files.
    pub fn get_entries(&self) -> (res: &[ThorFileEntry])
        ensures
            entries::lists_entries(entries::entry_views(res@), self@.entries),
    {
        self.container.entries.values()
    }

    /// The entry of the file of a path, which says where in the archive the file is stored.
    pub fn locate_file(&self, file_path: &str) -> (res: Result<&ThorFileEntry, ArchiveError>)
        ensures
            outcome(res) == (if self@.entries.contains_key(file_path@) {
                Ok(self@.entries[file_path@])
            } else {
                Err(ArchiveErrorView::NotFound)
            }),
    {
        match self.get_file_entry(file_path) {
            Some(entry) => Ok(entry),
            None => Err(ArchiveError::NotFound),
        }
    }

    /// Reads a file out of the content of the archive. The compressed size must be one that
    /// memory can hold.
    pub fn read_file_content(&self, content: &[u8], file_path: &str) -> (res: Result<
        Vec<u8>,
        ArchiveError,
    >)
        requires
            self@.entries.contains_key(file_path@) ==> self@.entries[file_path@].size_compressed
                <= isize::MAX,
        ensures
            outcome(res) == file_content(self@, content@, file_path@),
    {
        let entry = self.locate_file(file_path)?;
        let (_, nothing) = content.split_at(content.len());
        if entry.size_compressed == 0 {
            assert(nothing@ =~= seq![]);
            return unpack_file_content(entry, nothing);
        }
        let available = content.len() as u64;
        let size = entry.size_compressed as u64;
        if available < size || available - size < entry.offset {
            return Err(ArchiveError::UnexpectedEnd);
        }
        let (_, tail) = content.split_at(entry.offset as usize);
        let (stored, _) = tail.split_at(entry.size_compressed);
        assert(stored@ =~= content@.subrange(
            entry.offset as int,
            entry.offset + entry.size_compressed,
        ));
        unpack_file_content(entry, stored)
    }
}

} // verus!
