//! What the bytes of an archive mean, and which inputs are refused: for every part of the format,
//! when it can be read, what is then read from which bytes, and why it cannot be read otherwise.
use vstd::prelude::*;
use vstd::string::*;
use vstd::utf8;

use crate::bytes;
use crate::container;
use crate::container::ContainerView;
use crate::entries;
use crate::entry;
use crate::entry::FileEntryView;
use crate::error::{ErrorKind, ParseErrorView, ParseResultView};
use crate::header;
use crate::header::{HeaderView, ThorMode};
use crate::table;
use crate::table::{MultipleFilesTableDesc, SingleFileTableDesc, ThorTable};
use crate::windows_1252;
use crate::zlib;

verus! {

/// Numbers are little-endian, and the highest bit of the last byte is the sign of a signed one.
pub proof fn law_numbers_are_little_endian(s: Seq<u8>, at: int)
    ensures
        bytes::u16_at(s, at) == s[at] + 0x100 * s[at + 1],
        bytes::u32_at(s, at) == bytes::u16_at(s, at) + 0x1_0000 * bytes::u16_at(s, at + 2),
        bytes::i16_at(s, at) == bytes::u16_at(s, at) - (if s[at + 1] >= 0x80 {
            0x1_0000int
        } else {
            0
        }),
        bytes::i32_at(s, at) == bytes::u32_at(s, at) - (if s[at + 3] >= 0x80 {
            0x1_0000_0000int
        } else {
            0
        }),
{
}

/// A number whose sign is extended keeps its value modulo the size of the wider type.
pub proof fn law_sign_is_extended(v: int)
    ensures
        bytes::extended_to_usize(v) - v == (if v < 0 {
            usize::MAX + 1
        } else {
            0
        }),
        bytes::extended_to_u64(v) - v == (if v < 0 {
            u64::MAX + 1
        } else {
            0
        }),
{
}

/// An input agrees with a signature if one of them begins with the other.
pub proof fn law_agreement_is_a_common_beginning(input: Seq<u8>, signature: Seq<u8>)
    ensures
        bytes::agrees_with(input, signature) <==> input.is_prefix_of(signature)
            || signature.is_prefix_of(input),
{
    if input.len() <= signature.len() {
        assert(bytes::agrees_with(input, signature) ==> input =~= signature.subrange(
            0,
            input.len() as int,
        ));
        if input.is_prefix_of(signature) {
            assert forall|i: int| 0 <= i < input.len() && i < signature.len() implies input[i]
                == signature[i] by {
                assert(signature.subrange(0, input.len() as int)[i] == signature[i]);
            }
        }
    }
    if signature.len() <= input.len() {
        assert(bytes::agrees_with(input, signature) ==> signature =~= input.subrange(
            0,
            signature.len() as int,
        ));
        if signature.is_prefix_of(input) {
            assert forall|i: int| 0 <= i < input.len() && i < signature.len() implies input[i]
                == signature[i] by {
                assert(input.subrange(0, signature.len() as int)[i] == input[i]);
            }
        }
    }
}

/// The signature, letter by letter.
pub proof fn law_signature()
    ensures
        header::HEADER_MAGIC@ == "ASSF (C) 2007 Aeomin DEV"@,
        header::HEADER_MAGIC.spec_bytes().len() == 24,
        forall|i: int|
            0 <= i < 24 ==> header::HEADER_MAGIC.spec_bytes()[i] as char
                == #[trigger] header::HEADER_MAGIC@[i],
{
    header::lemma_header_magic_len();
    reveal_strlit("ASSF (C) 2007 Aeomin DEV");
    assert(is_ascii(header::HEADER_MAGIC));
    is_ascii_spec_bytes(header::HEADER_MAGIC);
}

/// Two numbers stand for a mode each, and no other number does.
pub proof fn law_modes(i: int)
    ensures
        header::thor_mode(i) == ThorMode::SingleFile <==> i == 33,
        header::thor_mode(i) == ThorMode::MultipleFiles <==> i == 48,
        header::thor_mode(i) == ThorMode::Invalid <==> i != 33 && i != 48,
{
}

/// The lowest bit of the flags marks a removal, whatever the other bits are.
pub proof fn law_lowest_bit_marks_removal(flags: u8)
    ensures
        entry::marks_removal(flags) <==> flags & 1 == 1,
{
    assert((flags & 1 == 1) == (flags % 2 == 1)) by (bit_vector);
}

/// A header can be read exactly where the signature, the numbers and the whole name are there and
/// the name is UTF-8.
pub proof fn law_when_a_header_can_be_read(input: Seq<u8>)
    ensures
        header::thor_header(input) is Ok <==> {
            &&& header::HEADER_MAGIC.spec_bytes().is_prefix_of(input)
            &&& 32 <= input.len()
            &&& 32 + input[31] <= input.len()
            &&& utf8::valid_utf8(input.subrange(32, 32 + input[31]))
        },
{
    header::lemma_header_magic_len();
    law_agreement_is_a_common_beginning(input, header::HEADER_MAGIC.spec_bytes());
    if input.is_prefix_of(header::HEADER_MAGIC.spec_bytes()) && input.len() >= 24 {
        assert(input =~= header::HEADER_MAGIC.spec_bytes());
        assert(header::HEADER_MAGIC.spec_bytes().subrange(0, 24)
            =~= header::HEADER_MAGIC.spec_bytes());
    }
}

/// The fields of a header, each at its place. What is left is what follows the name.
pub proof fn law_fields_of_a_header(input: Seq<u8>)
    requires
        header::thor_header(input) is Ok,
    ensures
        ({
            let (rest, header) = header::thor_header(input)->Ok_0;
            let name = utf8::encode_utf8(header.target_grf_name);
            &&& header.use_grf_merging <==> input[24] == 1
            &&& header.file_count + 1 == bytes::u32_at(input, 25)
            &&& header.mode == header::thor_mode(bytes::i16_at(input, 29))
            &&& name.len() == input[31]
            &&& name == input.subrange(32, 32 + name.len() as int)
            &&& rest == input.skip(32 + name.len() as int)
        }),
{
    header::lemma_header_magic_len();
    utf8::decode_utf8_encode_utf8(input.subrange(32, 32 + input[31]));
}

/// Why a header cannot be read: the signature is another one, or the input ends inside the
/// signature, inside the number between `from` and `to`, or inside the name, or the name is not
/// UTF-8.
pub proof fn law_refused_headers(input: Seq<u8>, from: int, to: int)
    requires
        (from, to) == (24int, 25int) || (from, to) == (25int, 29int) || (from, to) == (29int, 31int)
            || (from, to) == (31int, 32int),
    ensures
        ({
            let magic = header::HEADER_MAGIC.spec_bytes();
            let refused = header::thor_header(input);
            &&& !input.is_prefix_of(magic) && !magic.is_prefix_of(input) ==> refused == ParseResultView::<HeaderView>::Err(ParseErrorView::Error(input, ErrorKind::Tag))
            &&& input.is_prefix_of(magic) && input.len() < 24 ==> refused == ParseResultView::<HeaderView>::Err(ParseErrorView::Incomplete(24))
            &&& magic.is_prefix_of(input) && from <= input.len() < to ==> refused == ParseResultView::<HeaderView>::Err(ParseErrorView::Error(input.skip(from), ErrorKind::Eof))
            &&& magic.is_prefix_of(input) && 32 <= input.len() < 32 + input[31] ==> refused
                == ParseResultView::<HeaderView>::Err(ParseErrorView::Incomplete(input[31] as int))
            &&& magic.is_prefix_of(input) && 32 <= input.len() && 32 + input[31] <= input.len()
                && !utf8::valid_utf8(input.subrange(32, 32 + input[31])) ==> refused == ParseResultView::<HeaderView>::Err(ParseErrorView::Error(input.skip(32), ErrorKind::MapRes))
        }),
{
    header::lemma_header_magic_len();
    law_agreement_is_a_common_beginning(input, header::HEADER_MAGIC.spec_bytes());
}

/// The table description of an archive of one file is one byte, which says nothing.
pub proof fn law_table_of_one_file(input: Seq<u8>)
    ensures
        input.len() == 0 ==> table::single_file_table(input) == ParseResultView::<SingleFileTableDesc>::Err(
            ParseErrorView::Incomplete(1),
        ),
        input.len() > 0 ==> (table::single_file_table(input) matches Ok((rest, table)) && rest
            == input.skip(1) && table.file_table_offset == 0),
{
}

/// The table description of an archive of several files is two signed numbers.
pub proof fn law_table_of_several_files(input: Seq<u8>)
    ensures
        input.len() >= 8 ==> (table::multiple_files_table(input) matches Ok((rest, table)) && rest
            == input.skip(8) && table.file_table_compressed_size == bytes::extended_to_usize(
            bytes::i32_at(input, 0),
        ) && table.file_table_offset == bytes::extended_to_u64(bytes::i32_at(input, 4))),
        input.len() < 4 ==> table::multiple_files_table(input) == ParseResultView::<MultipleFilesTableDesc>::Err(
            ParseErrorView::Error(input, ErrorKind::Eof),
        ),
        4 <= input.len() < 8 ==> table::multiple_files_table(input) == ParseResultView::<MultipleFilesTableDesc>::Err(
            ParseErrorView::Error(input.skip(4), ErrorKind::Eof),
        ),
{
}

/// The entry of an archive of one file: two signed sizes and the path. It can be read exactly
/// where all of it is there, and is never a removal.
pub proof fn law_entry_of_one_file(input: Seq<u8>)
    ensures
        entry::single_file_entry(input) is Ok <==> input.len() >= 9 && input.len() >= 9 + input[8],
        entry::single_file_entry(input) matches Ok((rest, entry)) ==> {
            &&& entry.size_compressed == bytes::extended_to_usize(bytes::i32_at(input, 0))
            &&& entry.size == bytes::extended_to_usize(bytes::i32_at(input, 4))
            &&& entry.relative_path == windows_1252::windows_1252(input.subrange(9, 9 + input[8]))
            &&& !entry.is_removed
            &&& entry.offset == 0
            &&& rest == input.skip(9 + entry.relative_path.len() as int)
        },
        input.len() < 4 ==> entry::single_file_entry(input) == ParseResultView::<FileEntryView>::Err(
            ParseErrorView::Error(input, ErrorKind::Eof),
        ),
        4 <= input.len() < 8 ==> entry::single_file_entry(input) == ParseResultView::<FileEntryView>::Err(
            ParseErrorView::Error(input.skip(4), ErrorKind::Eof),
        ),
        input.len() == 8 ==> entry::single_file_entry(input) == ParseResultView::<FileEntryView>::Err(
            ParseErrorView::Error(input.skip(8), ErrorKind::Eof),
        ),
        9 <= input.len() < 9 + input[8] ==> entry::single_file_entry(input) == ParseResultView::<FileEntryView>::Err(ParseErrorView::Incomplete(input[8] as int)),
{
}

/// An entry in the table of several files can be read exactly where its path and its flags are
/// there and, unless they mark a removal, its three numbers. A removal says nothing but the path.
pub proof fn law_entry_of_several_files(input: Seq<u8>)
    ensures
        ({
            let n = input[0] as int;
            let removal = input[n + 1] & 1 == 1;
            &&& entry::multiple_files_entry(input) is Ok <==> 1 <= input.len() && n + 2
                <= input.len() && (removal || n + 14 <= input.len())
            &&& entry::multiple_files_entry(input) matches Ok((rest, entry)) ==> {
                &&& entry.relative_path == windows_1252::windows_1252(input.subrange(1, n + 1))
                &&& entry.is_removed <==> removal
                &&& removal ==> entry.offset == 0 && entry.size_compressed == 0 && entry.size == 0
                    && rest == input.skip(n + 2)
                &&& !removal ==> {
                    &&& entry.offset == bytes::u32_at(input, n + 2)
                    &&& entry.size_compressed == bytes::extended_to_usize(
                        bytes::i32_at(input, n + 6),
                    )
                    &&& entry.size == bytes::extended_to_usize(bytes::i32_at(input, n + 10))
                    &&& rest == input.skip(n + 14)
                }
            }
        }),
{
    if input.len() > 0 && input[0] + 2 <= input.len() {
        law_lowest_bit_marks_removal(input[input[0] + 1]);
    }
}

/// Why an entry in the table of several files cannot be read: the table ends before it, inside
/// its path, before its flags, or inside the number that begins `from` bytes after its path.
pub proof fn law_refused_entries(input: Seq<u8>, from: int)
    requires
        from == 1 || from == 5 || from == 9,
    ensures
        ({
            let n = input[0] as int;
            let refused = entry::multiple_files_entry(input);
            &&& input.len() == 0 ==> refused == ParseResultView::<FileEntryView>::Err(
                ParseErrorView::Error(input, ErrorKind::Eof),
            )
            &&& 1 <= input.len() < n + 1 ==> refused == ParseResultView::<FileEntryView>::Err(
                ParseErrorView::Incomplete(n),
            )
            &&& 1 <= input.len() == n + 1 ==> refused == ParseResultView::<FileEntryView>::Err(
                ParseErrorView::Error(input.skip(n + 1), ErrorKind::Eof),
            )
            &&& n + 1 + from <= input.len() < n + 5 + from && input[n + 1] & 1 == 0 ==> refused
                == ParseResultView::<FileEntryView>::Err(
                ParseErrorView::Error(input.skip(n + 1 + from), ErrorKind::Eof),
            )
        }),
{
    if input.len() > 0 && input[0] + 2 <= input.len() {
        let flags = input[input[0] + 1];
        assert(flags & 1 == 0 ==> flags % 2 == 0) by (bit_vector);
    }
}

proof fn lemma_entry_map_front(first: FileEntryView, more: Seq<FileEntryView>)
    ensures
        ({
            let rest = entries::entry_map(more);
            entries::entry_map(seq![first] + more) == (if rest.contains_key(first.relative_path) {
                rest
            } else {
                rest.insert(first.relative_path, first)
            })
        }),
    decreases more.len(),
{
    let all = seq![first] + more;
    if more.len() == 0 {
        assert(all =~= seq![first]);
        assert(all.drop_last() =~= seq![]);
        assert(entries::entry_map(all.drop_last()) =~= Map::empty());
    } else {
        let init = more.drop_last();
        assert(all.drop_last() =~= seq![first] + init);
        assert(all.last() == more.last());
        lemma_entry_map_front(first, init);
        assert(entries::entry_map(all) =~= (if entries::entry_map(more).contains_key(
            first.relative_path,
        ) {
            entries::entry_map(more)
        } else {
            entries::entry_map(more).insert(first.relative_path, first)
        }));
    }
}

/// A table begins with an entry, and what follows it is a table of its own or is left over. An
/// entry stays out where a later one has its path. A table that ends inside a path cannot be
/// read.
pub proof fn law_table_entry_by_entry(input: Seq<u8>)
    ensures
        entry::multiple_files_entry(input) matches Err(ParseErrorView::Error(..))
            ==> entries::multiple_files_entries(input) == ParseResultView::<Map<Seq<char>, FileEntryView>>::Err(
            ParseErrorView::Error(input, ErrorKind::Many1),
        ),
        entry::multiple_files_entry(input) matches Err(ParseErrorView::Incomplete(n))
            ==> entries::multiple_files_entries(input) == ParseResultView::<Map<Seq<char>, FileEntryView>>::Err(
            ParseErrorView::Incomplete(n),
        ),
        entry::multiple_files_entry(input) matches Ok((after, first)) ==> {
            &&& entry::multiple_files_entry(after) matches Err(ParseErrorView::Error(..))
                ==> entries::multiple_files_entries(input) == ParseResultView::<Map<Seq<char>, FileEntryView>>::Ok(
                (after, Map::<Seq<char>, FileEntryView>::empty().insert(first.relative_path, first)),
            )
            &&& entry::multiple_files_entry(after) matches Err(ParseErrorView::Incomplete(n))
                ==> entries::multiple_files_entries(input) == ParseResultView::<Map<Seq<char>, FileEntryView>>::Err(
                ParseErrorView::Incomplete(n),
            )
            &&& entry::multiple_files_entry(after) is Ok ==> (
            match entries::multiple_files_entries(after) {
                Err(error) => entries::multiple_files_entries(input) == ParseResultView::<Map<Seq<char>, FileEntryView>>::Err(
                    error,
                ),
                Ok((rest, later)) => entries::multiple_files_entries(input) == ParseResultView::<Map<Seq<char>, FileEntryView>>::Ok(
                    (
                        rest,
                        if later.contains_key(first.relative_path) {
                            later
                        } else {
                            later.insert(first.relative_path, first)
                        },
                    ),
                ),
            })
        },
{
    match entry::multiple_files_entry(input) {
        Ok((after, first)) => {
            match entries::leading_entries(after) {
                Ok((_, more)) => lemma_entry_map_front(first, more),
                Err(_) => {},
            }
            if entry::multiple_files_entry(after) matches Err(ParseErrorView::Error(..)) {
                assert(entries::leading_entries(after)->Ok_0.1 =~= seq![]);
                assert(entries::entry_map(seq![]) =~= Map::empty());
            }
        },
        Err(_) => {},
    }
}

/// An archive whose header cannot be read is refused for the same reason, and one whose mode is
/// not known is refused.
pub proof fn law_refused_by_the_header(input: Seq<u8>)
    ensures
        header::thor_header(input) matches Err(error) ==> container::thor_patch(input) == ParseResultView::<ContainerView>::Err(error),
        header::thor_header(input) matches Ok((_, header)) && header.mode == ThorMode::Invalid
            ==> container::thor_patch(input) == ParseResultView::<ContainerView>::Err(
            ParseErrorView::Failure(input, ErrorKind::Switch),
        ),
{
}

/// An archive of one file holds the entry that follows its table description, and no other. It is
/// refused where that entry cannot be read.
pub proof fn law_archive_of_one_file(input: Seq<u8>)
    requires
        header::thor_header(input) matches Ok((_, header)) && header.mode == ThorMode::SingleFile,
    ensures
        ({
            let (after, header) = header::thor_header(input)->Ok_0;
            if after.len() == 0 {
                container::thor_patch(input) == ParseResultView::<ContainerView>::Err(
                    ParseErrorView::Incomplete(1),
                )
            } else {
                match entry::single_file_entry(after.skip(1)) {
                    Err(error) => container::thor_patch(input) == ParseResultView::<ContainerView>::Err(error),
                    Ok((rest, entry)) => {
                        &&& container::thor_patch(input) matches Ok((left, patch))
                        &&& left == rest
                        &&& patch.header == header
                        &&& patch.table matches ThorTable::SingleFile(table)
                            && table.file_table_offset == 0
                        &&& forall|path: Seq<char>| #[trigger]
                            patch.entries.contains_key(path) <==> path == entry.relative_path
                        &&& patch.entries[entry.relative_path] == entry
                    },
                }
            }
        }),
{
}

/// The archive of several files that can be read has a table that can be decompressed: its entries
/// are those of the decompressed bytes at the place that the description of the table gives. This
/// is said of inputs that fit in memory.
pub proof fn law_entries_come_from_the_table(input: Seq<u8>)
    requires
        input.len() <= isize::MAX,
        container::within_bounds(input),
        header::thor_header(input) matches Ok((_, header)) && header.mode
            == ThorMode::MultipleFiles,
        container::thor_patch(input) is Ok,
    ensures
        ({
            let (left, patch) = container::thor_patch(input)->Ok_0;
            let (after, header) = header::thor_header(input)->Ok_0;
            let place = bytes::i32_at(after, 4);
            let data_at = input.len() - after.len() + 8;
            &&& left.len() == 0
            &&& patch.header == header
            &&& after.len() >= 8
            &&& data_at <= place <= input.len()
            &&& patch.table matches ThorTable::MultipleFiles(table) && table.file_table_offset
                == place - data_at && table.file_table_compressed_size == bytes::extended_to_usize(
                bytes::i32_at(after, 0),
            )
            &&& zlib::zlib_decoded(input.skip(place)) matches Ok(decoded)
            &&& entries::multiple_files_entries(decoded) matches Ok((_, listed))
            &&& patch.entries == listed
        }),
{
    let after = header::thor_header(input)->Ok_0.0;
    assert(after.skip(8).len() == after.len() - 8);
}

/// An archive of several files whose table lies inside of it, after its description, can be read
/// if the table can be decompressed and holds an entry. It is refused if the table cannot be
/// decompressed, if the table cannot be read, if the table lies before the end of its own
/// description, and if that description is not whole.
pub proof fn law_archive_of_several_files(input: Seq<u8>)
    requires
        header::thor_header(input) matches Ok((_, header)) && header.mode
            == ThorMode::MultipleFiles,
    ensures
        ({
            let after = header::thor_header(input)->Ok_0.0;
            let read = container::thor_patch(input);
            let place = bytes::i32_at(after, 4);
            let data_at = input.len() - after.len() + 8;
            &&& after.len() < 4 ==> read == ParseResultView::<ContainerView>::Err(
                ParseErrorView::Error(after, ErrorKind::Eof),
            )
            &&& 4 <= after.len() < 8 ==> read == ParseResultView::<ContainerView>::Err(
                ParseErrorView::Error(after.skip(4), ErrorKind::Eof),
            )
            &&& 8 <= after.len() && 0 <= place < data_at ==> read == ParseResultView::<ContainerView>::Err(
                ParseErrorView::Failure(input, ErrorKind::Switch),
            )
            &&& 8 <= after.len() && data_at <= place <= input.len() ==> (match zlib::zlib_decoded(
                input.skip(place),
            ) {
                Err(_) => read == ParseResultView::<ContainerView>::Err(
                    ParseErrorView::Failure(input, ErrorKind::Switch),
                ),
                Ok(decoded) => if entries::multiple_files_entries(decoded) is Ok {
                    read is Ok
                } else {
                    read == ParseResultView::<ContainerView>::Err(
                        ParseErrorView::Failure(input, ErrorKind::Many1),
                    )
                },
            })
        }),
{
    let after = header::thor_header(input)->Ok_0.0;
    if after.len() >= 8 {
        assert(after.skip(8).len() == after.len() - 8);
    }
}

/// An archive of several files whose table is damaged, so that it cannot be decompressed, is
/// refused, whatever its header says.
pub proof fn law_damaged_table_is_refused(input: Seq<u8>, place: int)
    requires
        header::thor_header(input) matches Ok((after, header)) && header.mode
            == ThorMode::MultipleFiles && after.len() >= 8 && place == bytes::i32_at(after, 4),
        0 <= place <= input.len(),
        zlib::zlib_decoded(input.skip(place)) is Err,
    ensures
        container::thor_patch(input) == ParseResultView::<ContainerView>::Err(
            ParseErrorView::Failure(input, ErrorKind::Switch),
        ),
{
    law_archive_of_several_files(input);
}

/// An input can be handed to the parser unless its header can be read and the file count field is
/// 0, or the table of several files is said to lie past the end. A negative place, too, lies past
/// the end of an input that fits in memory.
pub proof fn law_inputs_within_bounds(input: Seq<u8>)
    requires
        input.len() <= isize::MAX,
    ensures
        header::thor_header(input) is Err ==> container::within_bounds(input),
        header::thor_header(input) matches Ok((after, header)) ==> (container::within_bounds(input)
            <==> {
            &&& bytes::u32_at(input, 25) != 0
            &&& header.mode == ThorMode::MultipleFiles && after.len() >= 8 ==> 0 <= bytes::i32_at(
                after,
                4,
            ) <= input.len()
        }),
{
}

/// Text in `windows-1252` has one character for each byte, which depends on that byte alone. Outside
/// of 0x80 to 0x9f it is the character of the byte's number.
pub proof fn law_windows_1252_goes_byte_by_byte(text: Seq<u8>, i: int)
    requires
        0 <= i < text.len(),
    ensures
        windows_1252::windows_1252(text).len() == text.len(),
        windows_1252::windows_1252(text)[i] == windows_1252::windows_1252_char(text[i]),
        text[i] < 0x80 || text[i] >= 0xa0 ==> windows_1252::windows_1252(text)[i] as int == text[i],
{
}

} // verus!
