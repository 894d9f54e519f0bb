//! A Thor patch archive as a whole.
use vstd::prelude::*;

use crate::entries;
use crate::entries::{parse_multiple_files_entries, FileEntries};
use crate::entry;
use crate::entry::{parse_single_file_entry, FileEntryView};
use crate::error;
use crate::error::{ErrorKind, ParseError, ParseErrorView, ParseResult, ParseResultView};
use crate::header;
use crate::header::{parse_header_fields, parse_thor_header, HeaderView, ThorHeader, ThorMode};
use crate::table;
use crate::table::{
    parse_multiple_files_table, parse_single_file_table, MultipleFilesTableDesc, ThorTable,
};
use crate::zlib;
use crate::zlib::zlib_decode;

verus! {

/// What an archive says of itself and of its files.
#[derive(Debug, PartialEq, Eq)]
pub struct ThorContainer {
    pub header: ThorHeader,
    pub table: ThorTable,
    pub entries: FileEntries,
}

/// The mathematical counterpart of [`ThorContainer`].
pub struct ContainerView {
    pub header: HeaderView,
    pub table: ThorTable,
    pub entries: Map<Seq<char>, FileEntryView>,
}

impl View for ThorContainer {
    type V = ContainerView;

    open spec fn view(&self) -> ContainerView {
        ContainerView { header: self.header@, table: self.table, entries: self.entries@ }
    }
}

/// The archive of one file that has the given header, with what follows the header.
pub open spec fn single_file_patch(
    header: HeaderView,
    after_header: Seq<u8>,
) -> ParseResultView<ContainerView> {
    match table::single_file_table(after_header) {
        Err(error) => Err(error),
        Ok((after_table, table)) => match entry::single_file_entry(after_table) {
            Err(error) => Err(error),
            Ok((rest, entry)) => Ok(
                (
                    rest,
                    ContainerView {
                        header,
                        table: ThorTable::SingleFile(table),
                        entries: Map::empty().insert(entry.relative_path, entry),
                    },
                ),
            ),
        },
    }
}

/// The archive of several files that has the given header and table description and whose table
/// was decompressed to `decoded`, or could not be decompressed for the reason that `decoded`
/// gives.
pub open spec fn multiple_files_patch(
    input: Seq<u8>,
    header: HeaderView,
    table: MultipleFilesTableDesc,
    decoded: Result<Seq<u8>, std::io::Error>,
) -> ParseResultView<ContainerView> {
    match decoded {
        Err(_) => Err(ParseErrorView::Failure(input, ErrorKind::Switch)),
        Ok(decoded) => match entries::multiple_files_entries(decoded) {
            Err(_) => Err(ParseErrorView::Failure(input, ErrorKind::Many1)),
            Ok((_, entries)) => Ok(
                (
                    seq![],
                    ContainerView { header, table: ThorTable::MultipleFiles(table), entries },
                ),
            ),
        },
    }
}

/// The archive that an input holds.
///
/// In an archive of several files the description of the table gives the table's place in the
/// input. The table cannot lie before the end of its own description, and its place is kept
/// relative to that end.
pub open spec fn thor_patch(input: Seq<u8>) -> ParseResultView<ContainerView> {
    match header::thor_header(input) {
        Err(error) => Err(error),
        Ok((after_header, header)) => match header.mode {
            ThorMode::Invalid => Err(ParseErrorView::Failure(input, ErrorKind::Switch)),
            ThorMode::SingleFile => single_file_patch(header, after_header),
            ThorMode::MultipleFiles => match table::multiple_files_table(after_header) {
                Err(error) => Err(error),
                Ok((data, table)) => {
                    let data_at = input.len() - data.len();
                    if table.file_table_offset < data_at {
                        Err(ParseErrorView::Failure(input, ErrorKind::Switch))
                    } else {
                        multiple_files_patch(
                            input,
                            header,
                            MultipleFilesTableDesc {
                                file_table_compressed_size: table.file_table_compressed_size,
                                file_table_offset: (table.file_table_offset - data_at) as u64,
                            },
                            zlib::zlib_decoded(input.skip(table.file_table_offset as int)),
                        )
                    }
                },
            },
        },
    }
}

/// Whether the numbers in an input can be followed: the number of files is not negative, and the
/// table of several files does not lie past the end of the input.
pub open spec fn within_bounds(input: Seq<u8>) -> bool {
    match header::thor_header(input) {
        Err(_) => true,
        Ok((after_header, header)) => {
            &&& header.file_count >= 0
            &&& header.mode == ThorMode::MultipleFiles ==> match table::multiple_files_table(
                after_header,
            ) {
                Err(_) => true,
                Ok((_, table)) => table.file_table_offset <= input.len(),
            }
        },
    }
}

/// Tells whether the numbers in an input can be followed, so that it may be handed to
/// [`parse_thor_patch`].
pub fn is_within_bounds(input: &[u8]) -> (res: bool)
    ensures
        res == within_bounds(input@),
{
    match parse_header_fields(input) {
        Err(_) => true,
        Ok((rest, fields)) => {
            if fields.file_count_and_one == 0 {
                return false;
            }
            if fields.mode != ThorMode::MultipleFiles {
                return true;
            }
            match parse_multiple_files_table(rest) {
                Err(_) => true,
                Ok((_, table)) => table.file_table_offset <= input.len() as u64,
            }
        },
    }
}

/// Builds an archive of several files from the outcome of decompressing its table.
pub fn build_multiple_files_patch<'a>(
    input: &'a [u8],
    header: ThorHeader,
    table: MultipleFilesTableDesc,
    decoded: Result<Vec<u8>, std::io::Error>,
) -> (res: ParseResult<'a, ThorContainer>)
    ensures
        error::parsed(res) == multiple_files_patch(
            input@,
            header@,
            table,
            zlib::decoding(decoded),
        ),
{
    let decoded = match decoded {
        Ok(decoded) => decoded,
        Err(_) => return Err(ParseError::Failure(input, ErrorKind::Switch)),
    };
    match parse_multiple_files_entries(decoded.as_slice()) {
        Ok((_, entries)) => {
            let (_, end) = input.split_at(input.len());
            assert(end@ =~= seq![]);
            Ok((end, ThorContainer { header, table: ThorTable::MultipleFiles(table), entries }))
        },
        Err(_) => Err(ParseError::Failure(input, ErrorKind::Many1)),
    }
}

/// Parses an archive.
pub fn parse_thor_patch<'a>(input: &'a [u8]) -> (res: ParseResult<'a, ThorContainer>)
    requires
        within_bounds(input@),
    ensures
        error::parsed(res) == thor_patch(input@),
{
    let (rest, header) = parse_thor_header(input)?;
    match header.mode {
        ThorMode::Invalid => Err(ParseError::Failure(input, ErrorKind::Switch)),
        ThorMode::SingleFile => {
            let (rest, table) = parse_single_file_table(rest)?;
            let (rest, entry) = parse_single_file_entry(rest)?;
            Ok(
                (
                    rest,
                    ThorContainer {
                        header,
                        table: ThorTable::SingleFile(table),
                        entries: FileEntries::new().insert(entry),
                    },
                ),
            )
        },
        ThorMode::MultipleFiles => {
            let (data, table) = parse_multiple_files_table(rest)?;
            let data_at = (input.len() - data.len()) as u64;
            if table.file_table_offset < data_at {
                return Err(ParseError::Failure(input, ErrorKind::Switch));
            }
            // The place of the table inside of `data`.
            let file_table_offset = table.file_table_offset - data_at;
            let (_, compressed) = data.split_at(file_table_offset as usize);
            assert(compressed@ =~= input@.skip(table.file_table_offset as int));
            build_multiple_files_patch(
                input,
                header,
                MultipleFilesTableDesc {
                    file_table_compressed_size: table.file_table_compressed_size,
                    file_table_offset,
                },
                zlib_decode(compressed),
            )
        },
    }
}

} // verus!
