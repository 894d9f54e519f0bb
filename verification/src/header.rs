//! The header of a Thor patch archive.
use vstd::prelude::*;
use vstd::string::*;
use vstd::utf8;

use crate::bytes;
use crate::bytes::{le_i16, le_u32, le_u8, tag, take};
use crate::error;
use crate::error::{ErrorKind, ParseError, ParseErrorView, ParseResult, ParseResultView};

verus! {

/// The signature that every archive begins with.
pub const HEADER_MAGIC: &'static str = "ASSF (C) 2007 Aeomin DEV";

/// How the files of an archive are stored.
#[derive(Debug, Clone, Copy, PartialEq, Eq, Structural)]
pub enum ThorMode {
    SingleFile,
    MultipleFiles,
    Invalid,
}

/// The header of an archive.
#[derive(Debug, PartialEq, Eq)]
pub struct ThorHeader {
    /// Whether the files go into a GRF archive rather than into the client's directory.
    pub use_grf_merging: bool,
    pub file_count: usize,
    pub mode: ThorMode,
    /// The GRF archive that the files go into; the default one if the name is empty.
    pub target_grf_name: String,
}

/// The mathematical counterpart of [`ThorHeader`].
pub struct HeaderView {
    pub use_grf_merging: bool,
    pub file_count: int,
    pub mode: ThorMode,
    pub target_grf_name: Seq<char>,
}

impl View for ThorHeader {
    type V = HeaderView;

    open spec fn view(&self) -> HeaderView {
        HeaderView {
            use_grf_merging: self.use_grf_merging,
            file_count: self.file_count as int,
            mode: self.mode,
            target_grf_name: self.target_grf_name@,
        }
    }
}

#[verifier::external_type_specification]
#[verifier::external_body]
pub struct ExUtf8Error(core::str::Utf8Error);

/// `core::str::from_utf8` takes bytes for text if they are valid UTF-8, and fails if they are
/// not.
pub assume_specification<'a>[ core::str::from_utf8 ](v: &'a [u8]) -> (res: Result<
    &'a str,
    core::str::Utf8Error,
>)
    ensures
        res is Ok <==> utf8::valid_utf8(v@),
        res matches Ok(text) ==> text@ == utf8::decode_utf8(v@),
;

/// The mode that a number stands for.
pub open spec fn thor_mode(i: int) -> ThorMode {
    if i == 33 {
        ThorMode::SingleFile
    } else if i == 48 {
        ThorMode::MultipleFiles
    } else {
        ThorMode::Invalid
    }
}

/// Tells the mode that a number stands for.
pub fn i16_to_thor_mode(i: i16) -> (res: ThorMode)
    ensures
        res == thor_mode(i as int),
{
    match i {
        33 => ThorMode::SingleFile,
        48 => ThorMode::MultipleFiles,
        _ => ThorMode::Invalid,
    }
}

/// The header at the start of an input.
///
/// | at | bytes | field                                              |
/// |----|-------|----------------------------------------------------|
/// |  0 |    24 | signature                                          |
/// | 24 |     1 | 1 if the files go into a GRF archive               |
/// | 25 |     4 | number of files and one more                       |
/// | 29 |     2 | mode                                               |
/// | 31 |     1 | length of the GRF archive's name                   |
/// | 32 |       | the GRF archive's name, in UTF-8                   |
///
/// The number of files is -1 where the field that holds one more than it is 0.
pub open spec fn thor_header(input: Seq<u8>) -> ParseResultView<HeaderView> {
    let magic = HEADER_MAGIC.spec_bytes();
    if !bytes::agrees_with(input, magic) {
        Err(ParseErrorView::Error(input, ErrorKind::Tag))
    } else if input.len() < 24 {
        Err(ParseErrorView::Incomplete(24))
    } else if input.len() < 25 {
        Err(ParseErrorView::Error(input.skip(24), ErrorKind::Eof))
    } else if input.len() < 29 {
        Err(ParseErrorView::Error(input.skip(25), ErrorKind::Eof))
    } else if input.len() < 31 {
        Err(ParseErrorView::Error(input.skip(29), ErrorKind::Eof))
    } else if input.len() < 32 {
        Err(ParseErrorView::Error(input.skip(31), ErrorKind::Eof))
    } else if input.len() < 32 + input[31] {
        Err(ParseErrorView::Incomplete(input[31] as int))
    } else if !utf8::valid_utf8(input.subrange(32, 32 + input[31])) {
        Err(ParseErrorView::Error(input.skip(32), ErrorKind::MapRes))
    } else {
        Ok(
            (
                input.skip(32 + input[31]),
                HeaderView {
                    use_grf_merging: input[24] == 1,
                    file_count: bytes::u32_at(input, 25) - 1,
                    mode: thor_mode(bytes::i16_at(input, 29)),
                    target_grf_name: utf8::decode_utf8(input.subrange(32, 32 + input[31])),
                },
            ),
        )
    }
}

/// The length of the signature.
pub proof fn lemma_header_magic_len()
    ensures
        HEADER_MAGIC.spec_bytes().len() == 24,
{
    reveal_strlit("ASSF (C) 2007 Aeomin DEV");
    assert(is_ascii(HEADER_MAGIC));
}

/// The fields of a header, with the file count as it is stored.
pub(crate) struct HeaderFields {
    pub(crate) use_grf_merging: bool,
    pub(crate) file_count_and_one: u32,
    pub(crate) mode: ThorMode,
    pub(crate) target_grf_name: String,
}

impl View for HeaderFields {
    type V = HeaderView;

    open(crate) spec fn view(&self) -> HeaderView {
        HeaderView {
            use_grf_merging: self.use_grf_merging,
            file_count: self.file_count_and_one - 1,
            mode: self.mode,
            target_grf_name: self.target_grf_name@,
        }
    }
}

/// Parses the fields of a header.
pub(crate) fn parse_header_fields<'a>(input: &'a [u8]) -> (res: ParseResult<'a, HeaderFields>)
    ensures
        error::parsed(res) == thor_header(input@),
{
    proof {
        lemma_header_magic_len();
    }
    let (rest, _) = tag(HEADER_MAGIC.as_bytes(), input)?;
    let (rest, use_grf_merging) = le_u8(rest)?;
    assert(rest@ =~= input@.skip(25));
    let (rest, file_count_and_one) = le_u32(rest)?;
    assert(rest@ =~= input@.skip(29));
    let (rest, mode) = le_i16(rest)?;
    assert(rest@ =~= input@.skip(31));
    let (rest, target_grf_name_size) = le_u8(rest)?;
    assert(rest@ =~= input@.skip(32));
    let name_at = rest;
    let (rest, target_grf_name) = take(target_grf_name_size as usize, rest)?;
    assert(rest@ =~= input@.skip(32 + input@[31]));
    assert(target_grf_name@ =~= input@.subrange(32, 32 + input@[31]));
    let target_grf_name = match core::str::from_utf8(target_grf_name) {
        Ok(name) => name,
        Err(_) => return Err(ParseError::Error(name_at, ErrorKind::MapRes)),
    };
    Ok(
        (
            rest,
            HeaderFields {
                use_grf_merging: use_grf_merging == 1,
                file_count_and_one,
                mode: i16_to_thor_mode(mode),
                target_grf_name: target_grf_name.to_string(),
            },
        ),
    )
}

/// Parses the header of an archive. The field that holds one more than the number of files must
/// not be 0.
pub fn parse_thor_header<'a>(input: &'a [u8]) -> (res: ParseResult<'a, ThorHeader>)
    requires
        thor_header(input@) matches Ok((_, header)) ==> header.file_count >= 0,
    ensures
        error::parsed(res) == thor_header(input@),
{
    let (rest, fields) = parse_header_fields(input)?;
    Ok(
        (
            rest,
            ThorHeader {
                use_grf_merging: fields.use_grf_merging,
                file_count: (fields.file_count_and_one - 1) as usize,
                mode: fields.mode,
                target_grf_name: fields.target_grf_name,
            },
        ),
    )
}

} // verus!
