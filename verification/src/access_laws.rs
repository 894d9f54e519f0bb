//! What a caller is answered: which file is read from which bytes, why a file is refused, and what
//! results, errors and entries stand for.
use vstd::prelude::*;
use vstd::std_specs::cmp::PartialEqSpec;

use crate::archive;
use crate::archive::{ArchiveError, ArchiveErrorView};
use crate::container::{ContainerView, ThorContainer};
use crate::entries;
use crate::entries::FileEntries;
use crate::entry::{FileEntryView, ThorFileEntry};
use crate::error;
use crate::error::{ParseError, ParseErrorView, ParseResult};
use crate::header::ThorHeader;
use crate::patch_list;
use crate::patch_list::ThorPatchInfo;
use crate::table::{MultipleFilesTableDesc, SingleFileTableDesc, ThorTable};
use crate::zlib;

verus! {

/// A file is read exactly where its entry points into the archive, the bytes there decompress to
/// it, and it is as long as the entry says. No other content is ever given out for it.
pub proof fn law_when_a_file_is_read(
    patch: ContainerView,
    content: Seq<u8>,
    path: Seq<char>,
    file: Seq<u8>,
)
    ensures
        archive::file_content(patch, content, path) == Ok::<_, ArchiveErrorView>(file) <==> {
            let entry = patch.entries[path];
            &&& patch.entries.contains_key(path)
            &&& entry.size == file.len()
            &&& if entry.size_compressed == 0 {
                zlib::zlib_decoded(seq![]) == Ok::<_, std::io::Error>(file)
            } else {
                &&& entry.offset + entry.size_compressed <= content.len()
                &&& zlib::zlib_decoded(
                    content.subrange(entry.offset, entry.offset + entry.size_compressed),
                ) == Ok::<_, std::io::Error>(file)
            }
        },
{
}

/// A path that the archive does not have is not found.
pub proof fn law_unknown_path_is_not_found(
    patch: ContainerView,
    content: Seq<u8>,
    path: Seq<char>,
)
    requires
        !patch.entries.contains_key(path),
    ensures
        archive::file_content(patch, content, path) == Err::<Seq<u8>, _>(
            ArchiveErrorView::NotFound,
        ),
{
}

/// A file that runs past the end of the archive is refused, whatever its entry says of its size.
pub proof fn law_file_past_the_end_is_refused(
    patch: ContainerView,
    content: Seq<u8>,
    path: Seq<char>,
)
    requires
        patch.entries.contains_key(path),
        patch.entries[path].size_compressed != 0,
        patch.entries[path].offset + patch.entries[path].size_compressed > content.len(),
    ensures
        archive::file_content(patch, content, path) == Err::<Seq<u8>, _>(
            ArchiveErrorView::UnexpectedEnd,
        ),
{
}

/// A file whose bytes lie inside of the archive is refused if they cannot be decompressed, with
/// the error of the decompression, and if they decompress to data of another size.
pub proof fn law_files_refused_by_their_bytes(
    patch: ContainerView,
    content: Seq<u8>,
    path: Seq<char>,
    stored: Seq<u8>,
)
    requires
        patch.entries.contains_key(path),
        stored.len() == patch.entries[path].size_compressed,
        stored.len() > 0 ==> patch.entries[path].offset + stored.len() <= content.len() && stored
            == content.subrange(
            patch.entries[path].offset,
            patch.entries[path].offset + stored.len(),
        ),
    ensures
        zlib::zlib_decoded(stored) matches Err(error) ==> archive::file_content(
            patch,
            content,
            path,
        ) == Err::<Seq<u8>, _>(ArchiveErrorView::Decompression(error)),
        zlib::zlib_decoded(stored) matches Ok(decoded) && decoded.len() != patch.entries[path].size
            ==> archive::file_content(patch, content, path) == Err::<Seq<u8>, _>(
            ArchiveErrorView::UnexpectedSize,
        ),
{
    if stored.len() == 0 {
        assert(stored =~= seq![]);
    }
}

/// Decompressed data is a file exactly if it is as long as its entry says. An error of the
/// decompression stays what it is.
pub proof fn law_decompressed_data_is_checked(
    entry: FileEntryView,
    decoded: Seq<u8>,
    error: std::io::Error,
)
    ensures
        decoded.len() == entry.size ==> archive::checked_content(entry, Ok(decoded)) == Ok::<
            _,
            ArchiveErrorView,
        >(decoded),
        decoded.len() != entry.size ==> archive::checked_content(entry, Ok(decoded)) == Err::<
            Seq<u8>,
            _,
        >(ArchiveErrorView::UnexpectedSize),
        archive::checked_content(entry, Err(error)) == Err::<Seq<u8>, _>(
            ArchiveErrorView::Decompression(error),
        ),
{
}

/// Contracts speak of a result of the archive as it is: of its value, or of its very error.
pub proof fn law_outcomes_are_results<T: View>(result: Result<T, ArchiveError>)
    ensures
        match result {
            Ok(value) => archive::outcome(result) == Ok::<T::V, ArchiveErrorView>(value@),
            Err(error) => archive::outcome(result) == Err::<T::V, ArchiveErrorView>(
                match error {
                    ArchiveError::Malformed => ArchiveErrorView::Malformed,
                    ArchiveError::NotFound => ArchiveErrorView::NotFound,
                    ArchiveError::UnexpectedEnd => ArchiveErrorView::UnexpectedEnd,
                    ArchiveError::Decompression(cause) => ArchiveErrorView::Decompression(cause),
                    ArchiveError::UnexpectedSize => ArchiveErrorView::UnexpectedSize,
                },
            ),
        },
{
}

/// Contracts speak of a result of a parser as it is: of its value and the bytes that are left, or
/// of its very error and the bytes that it points at.
pub proof fn law_parsed_results_are_results<'a, T: View>(result: ParseResult<'a, T>)
    ensures
        match result {
            Ok((rest, value)) => error::parsed(result) == Ok::<_, ParseErrorView>((rest@, value@)),
            Err(error) => error::parsed(result) == Err::<(Seq<u8>, T::V), _>(
                match error {
                    ParseError::Incomplete(n) => ParseErrorView::Incomplete(n as int),
                    ParseError::Error(at, kind) => ParseErrorView::Error(at@, kind),
                    ParseError::Failure(at, kind) => ParseErrorView::Failure(at@, kind),
                },
            ),
        },
{
}

/// Contracts speak of every field of a header.
pub proof fn law_header_is_its_fields(header: ThorHeader)
    ensures
        header@.use_grf_merging == header.use_grf_merging,
        header@.file_count == header.file_count,
        header@.mode == header.mode,
        header@.target_grf_name == header.target_grf_name@,
{
}

/// Contracts speak of every field of an entry.
pub proof fn law_entry_is_its_fields(entry: ThorFileEntry)
    ensures
        entry@.size_compressed == entry.size_compressed,
        entry@.size == entry.size,
        entry@.relative_path == entry.relative_path@,
        entry@.is_removed == entry.is_removed,
        entry@.offset == entry.offset,
{
}

/// Contracts speak of every part of an archive's description, and of tables as they are.
pub proof fn law_container_is_its_parts(
    container: ThorContainer,
    table: ThorTable,
    single: SingleFileTableDesc,
    multiple: MultipleFilesTableDesc,
)
    ensures
        container@.header == container.header@,
        container@.table == container.table,
        container@.entries == container.entries@,
        table@ == table,
        single@ == single,
        multiple@ == multiple,
{
}

/// Contracts speak of both fields of a patch, and of every patch of a list.
pub proof fn law_patch_is_its_fields(patch: ThorPatchInfo, patches: Seq<ThorPatchInfo>, i: int)
    ensures
        patch@.index == patch.index,
        patch@.file_name == patch.file_name@,
        patch_list::patch_views(patches).len() == patches.len(),
        0 <= i < patches.len() ==> patch_list::patch_views(patches)[i] == patches[i]@,
{
}

/// The listed entries are those of the archive: none is listed twice, and none is left out or made
/// up.
pub proof fn law_entries_are_listed_once(
    files: Seq<ThorFileEntry>,
    map: Map<Seq<char>, FileEntryView>,
)
    requires
        entries::lists_entries(entries::entry_views(files), map),
    ensures
        forall|i: int, j: int|
            0 <= i < j < files.len() ==> (#[trigger] files[i]).relative_path@ != (
            #[trigger] files[j]).relative_path@,
        forall|i: int|
            0 <= i < files.len() ==> map.contains_key((#[trigger] files[i]).relative_path@)
                && map[files[i].relative_path@] == files[i]@,
        forall|path: Seq<char>| #[trigger]
            map.contains_key(path) ==> exists|i: int|
                0 <= i < files.len() && (#[trigger] files[i]).relative_path@ == path,
{
    let views = entries::entry_views(files);
    assert forall|i: int, j: int| 0 <= i < j < files.len() implies (
    #[trigger] files[i]).relative_path@ != (#[trigger] files[j]).relative_path@ by {
        assert(views[i].relative_path != views[j].relative_path);
    }
    assert forall|i: int| 0 <= i < files.len() implies map.contains_key(
        (#[trigger] files[i]).relative_path@,
    ) && map[files[i].relative_path@] == files[i]@ by {
        assert(map.contains_pair(views[i].relative_path, views[i]));
    }
    assert forall|path: Seq<char>| #[trigger] map.contains_key(path) implies exists|i: int|
        0 <= i < files.len() && (#[trigger] files[i]).relative_path@ == path by {
        let i = choose|i: int| 0 <= i < views.len() && #[trigger] views[i].relative_path == path;
        assert(files[i].relative_path@ == path);
    }
}

/// Entries are equal if they agree in every field.
pub proof fn law_equality_of_entries(a: ThorFileEntry, b: ThorFileEntry)
    ensures
        <ThorFileEntry as PartialEqSpec>::obeys_eq_spec(),
        a.eq_spec(&b) <==> {
            &&& a.size_compressed == b.size_compressed
            &&& a.size == b.size
            &&& a.relative_path@ == b.relative_path@
            &&& a.is_removed == b.is_removed
            &&& a.offset == b.offset
        },
{
}

/// Two collections of files are equal if the same entries stand under the same paths.
pub proof fn law_equality_of_files(a: FileEntries, b: FileEntries)
    ensures
        <FileEntries as PartialEqSpec>::obeys_eq_spec(),
        a.eq_spec(&b) <==> forall|path: Seq<char>, entry: FileEntryView|
            a@.contains_pair(path, entry) <==> b@.contains_pair(path, entry),
{
    if forall|path: Seq<char>, entry: FileEntryView|
        a@.contains_pair(path, entry) <==> b@.contains_pair(path, entry) {
        assert forall|path: Seq<char>| #[trigger]
            a@.dom().contains(path) <==> b@.dom().contains(path) by {
            if a@.dom().contains(path) {
                assert(a@.contains_pair(path, a@[path]));
            }
            if b@.dom().contains(path) {
                assert(b@.contains_pair(path, b@[path]));
            }
        }
        assert(a@.dom() =~= b@.dom());
        assert forall|path: Seq<char>| #[trigger] a@.dom().contains(path) implies a@[path]
            == b@[path] by {
            assert(a@.contains_pair(path, a@[path]));
        }
        assert(a@ =~= b@);
    }
}

/// Contracts speak of the outcome of decompressing as it is: of the data, or of the very error.
pub proof fn law_decodings_are_results(result: Result<Vec<u8>, std::io::Error>)
    ensures
        match result {
            Ok(decoded) => zlib::decoding(result) == Ok::<_, std::io::Error>(decoded@),
            Err(error) => zlib::decoding(result) == Err::<Seq<u8>, _>(error),
        },
{
}

} // verus!
