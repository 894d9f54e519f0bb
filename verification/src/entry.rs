//! The files of an archive.
use vstd::prelude::*;

use crate::bytes;
use crate::bytes::{extend_to_usize, le_i32, le_u32, le_u8, take};
use crate::error;
use crate::error::{ErrorKind, ParseError, ParseErrorView, ParseResult, ParseResultView};
use crate::windows_1252;
use crate::windows_1252::string_from_win_1252;

verus! {

/// One file of an archive.
#[derive(Debug)]
pub struct ThorFileEntry {
    pub size_compressed: usize,
    pub size: usize,
    pub relative_path: String,
    pub is_removed: bool,
    pub offset: u64,
}

/// The mathematical counterpart of [`ThorFileEntry`].
pub struct FileEntryView {
    pub size_compressed: int,
    pub size: int,
    pub relative_path: Seq<char>,
    pub is_removed: bool,
    pub offset: int,
}

impl View for ThorFileEntry {
    type V = FileEntryView;

    open spec fn view(&self) -> FileEntryView {
        FileEntryView {
            size_compressed: self.size_compressed as int,
            size: self.size as int,
            relative_path: self.relative_path@,
            is_removed: self.is_removed,
            offset: self.offset as int,
        }
    }
}

impl Clone for ThorFileEntry {
    fn clone(&self) -> (res: Self)
        ensures
            res == *self,
    {
        ThorFileEntry {
            size_compressed: self.size_compressed,
            size: self.size,
            relative_path: self.relative_path.clone(),
            is_removed: self.is_removed,
            offset: self.offset,
        }
    }
}

impl PartialEq for ThorFileEntry {
    fn eq(&self, other: &Self) -> (res: bool) {
        self.size_compressed == other.size_compressed && self.size == other.size
            && self.relative_path == other.relative_path && self.is_removed == other.is_removed
            && self.offset == other.offset
    }
}

impl vstd::std_specs::cmp::PartialEqSpecImpl for ThorFileEntry {
    open spec fn obeys_eq_spec() -> bool {
        true
    }

    open spec fn eq_spec(&self, other: &Self) -> bool {
        self@ == other@
    }
}

impl Eq for ThorFileEntry {

}

/// Feeds a text to a hasher, by `<String as std::hash::Hash>::hash`. Nothing is claimed of what
/// the hasher makes of the text, since any type can be a hasher; contracts speak of the calls of
/// this function.
#[verifier::external_body]
pub fn feed_text<H: std::hash::Hasher>(text: &String, state: &mut H) {
    std::hash::Hash::hash(text, state);
}

/// Hands a text and a hasher to `feed`.
fn feed_with<H: std::hash::Hasher, F: Fn(&String, &mut H)>(feed: F, text: &String, state: &mut H)
    requires
        forall|s: &mut H| call_requires(feed, (text, s)),
    ensures
        exists|s: &mut H| #[trigger]
            call_ensures(feed, (text, s), ()) && *s == *old(state) && *final(s) == *final(state),
{
    feed(text, state)
}

impl std::hash::Hash for ThorFileEntry {
    /// Entries are told apart by their paths: what happens to the hasher is what feeding it the
    /// path, and nothing else, can do to it. The second clause says the same of the path as a
    /// text, whichever string holds it.
    fn hash<H: std::hash::Hasher>(&self, state: &mut H)
        ensures
            exists|s: &mut H| #[trigger]
                call_ensures(feed_text::<H>, (&self.relative_path, s), ()) && *s == *old(state)
                    && *final(s) == *final(state),
            exists|text: &String, s: &mut H| #[trigger]
                call_ensures(feed_text::<H>, (text, s), ()) && text@ == self@.relative_path && *s
                    == *old(state) && *final(s) == *final(state),
    {
        feed_with(feed_text::<H>, &self.relative_path, state);
    }
}

/// Whether the flags of an entry mark its file for removal: their lowest bit is set.
pub open spec fn marks_removal(flags: u8) -> bool {
    flags % 2 == 1
}

/// Checks the flags of an entry. If the lowest bit is set, the entry indicates a file deletion.
pub fn is_file_removed(flags: u8) -> (res: bool)
    ensures
        res == marks_removal(flags),
{
    assert((flags & 0b1 == 1) == (flags % 2 == 1)) by (bit_vector);
    (flags & 0b1) == 1
}

/// The path at the start of an input: `count` bytes in `windows-1252`.
fn take_string_ansi<'a>(count: u8, input: &'a [u8]) -> (res: ParseResult<'a, String>)
    ensures
        error::parsed(res) == (if input@.len() < count {
            Err(ParseErrorView::Incomplete(count as int))
        } else {
            Ok(
                (
                    input@.skip(count as int),
                    windows_1252::windows_1252(input@.take(count as int)),
                ),
            )
        }),
{
    let (rest, text) = take(count as usize, input)?;
    match string_from_win_1252(text) {
        Ok(text) => Ok((rest, text)),
        Err(_) => Err(ParseError::Error(input, ErrorKind::MapRes)),
    }
}

/// The entry of an archive of one file.
///
/// | at | bytes | field                               |
/// |----|-------|-------------------------------------|
/// |  0 |     4 | size of the compressed file, signed |
/// |  4 |     4 | size of the file, signed            |
/// |  8 |     1 | length of the path                  |
/// |  9 |       | the path, in `windows-1252`         |
pub open spec fn single_file_entry(input: Seq<u8>) -> ParseResultView<FileEntryView> {
    if input.len() < 4 {
        Err(ParseErrorView::Error(input, ErrorKind::Eof))
    } else if input.len() < 8 {
        Err(ParseErrorView::Error(input.skip(4), ErrorKind::Eof))
    } else if input.len() < 9 {
        Err(ParseErrorView::Error(input.skip(8), ErrorKind::Eof))
    } else if input.len() < 9 + input[8] {
        Err(ParseErrorView::Incomplete(input[8] as int))
    } else {
        Ok(
            (
                input.skip(9 + input[8]),
                FileEntryView {
                    size_compressed: bytes::extended_to_usize(bytes::i32_at(input, 0)),
                    size: bytes::extended_to_usize(bytes::i32_at(input, 4)),
                    relative_path: windows_1252::windows_1252(input.subrange(9, 9 + input[8])),
                    is_removed: false,
                    offset: 0,
                },
            ),
        )
    }
}

/// Parses the entry of an archive of one file.
pub fn parse_single_file_entry<'a>(input: &'a [u8]) -> (res: ParseResult<'a, ThorFileEntry>)
    ensures
        error::parsed(res) == single_file_entry(input@),
{
    let (rest, size_compressed) = le_i32(input)?;
    let (rest, size) = le_i32(rest)?;
    assert(rest@ =~= input@.skip(8));
    let (rest, relative_path_size) = le_u8(rest)?;
    assert(rest@ =~= input@.skip(9));
    let (rest, relative_path) = take_string_ansi(relative_path_size, rest)?;
    proof {
        assert(rest@ =~= input@.skip(9 + input@[8]));
        assert(input@.skip(9).take(input@[8] as int) =~= input@.subrange(9, 9 + input@[8]));
    }
    Ok(
        (
            rest,
            ThorFileEntry {
                size_compressed: extend_to_usize(size_compressed),
                size: extend_to_usize(size),
                relative_path,
                is_removed: false,
                offset: 0,
            },
        ),
    )
}

/// An entry in the table of an archive of several files. With `n` the length of the path:
///
/// | at     | bytes | field                               |
/// |--------|-------|-------------------------------------|
/// |      0 |     1 | length of the path                  |
/// |      1 |   `n` | the path, in `windows-1252`         |
/// |  `n`+1 |     1 | flags                               |
/// |  `n`+2 |     4 | offset of the file                  |
/// |  `n`+6 |     4 | size of the compressed file, signed |
/// | `n`+10 |     4 | size of the file, signed            |
///
/// The entry of a file marked for removal ends after the flags.
pub open spec fn multiple_files_entry(input: Seq<u8>) -> ParseResultView<FileEntryView> {
    let n = input[0] as int;
    if input.len() < 1 {
        Err(ParseErrorView::Error(input, ErrorKind::Eof))
    } else if input.len() < n + 1 {
        Err(ParseErrorView::Incomplete(n))
    } else if input.len() < n + 2 {
        Err(ParseErrorView::Error(input.skip(n + 1), ErrorKind::Eof))
    } else if marks_removal(input[n + 1]) {
        Ok(
            (
                input.skip(n + 2),
                FileEntryView {
                    size_compressed: 0,
                    size: 0,
                    relative_path: windows_1252::windows_1252(input.subrange(1, n + 1)),
                    is_removed: true,
                    offset: 0,
                },
            ),
        )
    } else if input.len() < n + 6 {
        Err(ParseErrorView::Error(input.skip(n + 2), ErrorKind::Eof))
    } else if input.len() < n + 10 {
        Err(ParseErrorView::Error(input.skip(n + 6), ErrorKind::Eof))
    } else if input.len() < n + 14 {
        Err(ParseErrorView::Error(input.skip(n + 10), ErrorKind::Eof))
    } else {
        Ok(
            (
                input.skip(n + 14),
                FileEntryView {
                    size_compressed: bytes::extended_to_usize(bytes::i32_at(input, n + 6)),
                    size: bytes::extended_to_usize(bytes::i32_at(input, n + 10)),
                    relative_path: windows_1252::windows_1252(input.subrange(1, n + 1)),
                    is_removed: false,
                    offset: bytes::u32_at(input, n + 2),
                },
            ),
        )
    }
}

/// Parses an entry in the table of an archive of several files.
pub fn parse_multiple_files_entry<'a>(input: &'a [u8]) -> (res: ParseResult<'a, ThorFileEntry>)
    ensures
        error::parsed(res) == multiple_files_entry(input@),
{
    let ghost n = input@[0] as int;
    let (rest, relative_path_size) = le_u8(input)?;
    let (rest, relative_path) = take_string_ansi(relative_path_size, rest)?;
    proof {
        assert(rest@ =~= input@.skip(n + 1));
        assert(input@.skip(1).take(n) =~= input@.subrange(1, n + 1));
    }
    let (rest, flags) = le_u8(rest)?;
    assert(rest@ =~= input@.skip(n + 2));
    if is_file_removed(flags) {
        return Ok(
            (
                rest,
                ThorFileEntry {
                    size_compressed: 0,
                    size: 0,
                    relative_path,
                    is_removed: true,
                    offset: 0,
                },
            ),
        );
    }
    let (rest, offset) = le_u32(rest)?;
    assert(rest@ =~= input@.skip(n + 6));
    let (rest, size_compressed) = le_i32(rest)?;
    assert(rest@ =~= input@.skip(n + 10));
    let (rest, size) = le_i32(rest)?;
    assert(rest@ =~= input@.skip(n + 14));
    Ok(
        (
            rest,
            ThorFileEntry {
                size_compressed: extend_to_usize(size_compressed),
                size: extend_to_usize(size),
                relative_path,
                is_removed: false,
                offset: offset as u64,
            },
        ),
    )
}

} // verus!
