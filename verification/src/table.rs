//! Where an archive keeps its table of files.
use vstd::prelude::*;

use crate::bytes;
use crate::bytes::{extend_to_u64, extend_to_usize, le_i32, take};
use crate::error;
use crate::error::{ErrorKind, ParseErrorView, ParseResult, ParseResultView};

verus! {

/// Where an archive keeps its table of files.
#[derive(Debug, PartialEq, Eq, Structural)]
pub enum ThorTable {
    SingleFile(SingleFileTableDesc),
    MultipleFiles(MultipleFilesTableDesc),
}

/// The table of an archive of one file.
#[derive(Debug, PartialEq, Eq, Structural)]
pub struct SingleFileTableDesc {
    pub file_table_offset: u64,
}

/// The table of an archive of several files.
#[derive(Debug, PartialEq, Eq, Structural)]
pub struct MultipleFilesTableDesc {
    pub file_table_compressed_size: usize,
    pub file_table_offset: u64,
}

impl View for SingleFileTableDesc {
    type V = SingleFileTableDesc;

    open spec fn view(&self) -> SingleFileTableDesc {
        *self
    }
}

impl View for MultipleFilesTableDesc {
    type V = MultipleFilesTableDesc;

    open spec fn view(&self) -> MultipleFilesTableDesc {
        *self
    }
}

impl View for ThorTable {
    type V = ThorTable;

    open spec fn view(&self) -> ThorTable {
        *self
    }
}

/// The table description of an archive of one file: a single byte without meaning.
pub open spec fn single_file_table(input: Seq<u8>) -> ParseResultView<SingleFileTableDesc> {
    if input.len() < 1 {
        Err(ParseErrorView::Incomplete(1))
    } else {
        Ok((input.skip(1), SingleFileTableDesc { file_table_offset: 0 }))
    }
}

/// Parses the table description of an archive of one file.
pub fn parse_single_file_table<'a>(input: &'a [u8]) -> (res: ParseResult<'a, SingleFileTableDesc>)
    ensures
        error::parsed(res) == single_file_table(input@),
{
    let (rest, _) = take(1, input)?;
    Ok((rest, SingleFileTableDesc { file_table_offset: 0 }))
}

/// The table description of an archive of several files: the compressed size of the table and its
/// offset, both as signed 32-bit numbers.
pub open spec fn multiple_files_table(input: Seq<u8>) -> ParseResultView<MultipleFilesTableDesc> {
    if input.len() < 4 {
        Err(ParseErrorView::Error(input, ErrorKind::Eof))
    } else if input.len() < 8 {
        Err(ParseErrorView::Error(input.skip(4), ErrorKind::Eof))
    } else {
        Ok(
            (
                input.skip(8),
                MultipleFilesTableDesc {
                    file_table_compressed_size: bytes::extended_to_usize(
                        bytes::i32_at(input, 0),
                    ) as usize,
                    file_table_offset: bytes::extended_to_u64(bytes::i32_at(input, 4)) as u64,
                },
            ),
        )
    }
}

/// Parses the table description of an archive of several files.
pub fn parse_multiple_files_table<'a>(input: &'a [u8]) -> (res: ParseResult<
    'a,
    MultipleFilesTableDesc,
>)
    ensures
        error::parsed(res) == multiple_files_table(input@),
{
    let (rest, file_table_compressed_size) = le_i32(input)?;
    let (rest, file_table_offset) = le_i32(rest)?;
    assert(rest@ =~= input@.skip(8));
    Ok(
        (
            rest,
            MultipleFilesTableDesc {
                file_table_compressed_size: extend_to_usize(file_table_compressed_size),
                file_table_offset: extend_to_u64(file_table_offset),
            },
        ),
    )
}

} // verus!
