//! What holds of the format as a whole: what is written is what is read, what follows does not
//! matter, and what every archive that can be read has in common.
use vstd::prelude::*;
use vstd::string::*;
use vstd::utf8;

use crate::archive;
use crate::bytes;
use crate::container;
use crate::container::ContainerView;
use crate::entries;
use crate::entry;
use crate::entry::{FileEntryView, ThorFileEntry};
use crate::error::ParseErrorView;
use crate::header;
use crate::header::{HeaderView, ThorMode};
use crate::table::{MultipleFilesTableDesc, SingleFileTableDesc, ThorTable};
use crate::windows_1252;
use crate::zlib;

verus! {

/// A 32-bit number in little-endian order.
#[verifier::opaque]
pub open spec fn u32_bytes(v: u32) -> Seq<u8> {
    seq![
        (v % 0x100) as u8,
        (v / 0x100 % 0x100) as u8,
        (v / 0x1_0000 % 0x100) as u8,
        (v / 0x100_0000) as u8,
    ]
}

/// A 32-bit two's complement number in little-endian order.
#[verifier::opaque]
pub open spec fn i32_bytes(v: i32) -> Seq<u8> {
    u32_bytes(
        if v >= 0 {
            v as u32
        } else {
            (v + 0x1_0000_0000) as u32
        },
    )
}

/// A 16-bit two's complement number in little-endian order.
#[verifier::opaque]
pub open spec fn i16_bytes(v: i16) -> Seq<u8> {
    let u = if v >= 0 {
        v as int
    } else {
        v + 0x1_0000
    };
    seq![(u % 0x100) as u8, (u / 0x100) as u8]
}

/// A 32-bit number is read as it was written.
pub proof fn law_u32_reads_back(before: Seq<u8>, v: u32, after: Seq<u8>)
    ensures
        u32_bytes(v).len() == 4,
        bytes::u32_at(before + u32_bytes(v) + after, before.len() as int) == v,
{
    reveal(u32_bytes);
    let n = before.len() as int;
    let s = before + u32_bytes(v) + after;
    assert(s[n] == u32_bytes(v)[0] && s[n + 1] == u32_bytes(v)[1] && s[n + 2] == u32_bytes(v)[2]
        && s[n + 3] == u32_bytes(v)[3]);
}

/// A 32-bit two's complement number is read as it was written.
pub proof fn law_i32_reads_back(before: Seq<u8>, v: i32, after: Seq<u8>)
    ensures
        i32_bytes(v).len() == 4,
        bytes::i32_at(before + i32_bytes(v) + after, before.len() as int) == v,
{
    reveal(i32_bytes);
    law_u32_reads_back(
        before,
        if v >= 0 {
            v as u32
        } else {
            (v + 0x1_0000_0000) as u32
        },
        after,
    );
}

/// A 16-bit two's complement number is read as it was written.
pub proof fn law_i16_reads_back(before: Seq<u8>, v: i16, after: Seq<u8>)
    ensures
        i16_bytes(v).len() == 2,
        bytes::i16_at(before + i16_bytes(v) + after, before.len() as int) == v,
{
    reveal(i16_bytes);
    let n = before.len() as int;
    let s = before + i16_bytes(v) + after;
    assert(s[n] == i16_bytes(v)[0] && s[n + 1] == i16_bytes(v)[1]);
}

/// A header with the given fields.
pub open spec fn header_bytes(
    use_grf_merging: u8,
    file_count_and_one: u32,
    mode: i16,
    target_grf_name: Seq<char>,
) -> Seq<u8> {
    let name = utf8::encode_utf8(target_grf_name);
    header::HEADER_MAGIC.spec_bytes() + seq![use_grf_merging] + u32_bytes(file_count_and_one)
        + i16_bytes(mode) + seq![name.len() as u8] + name
}

/// A header is read as it was written.
pub proof fn law_header_reads_back(
    use_grf_merging: u8,
    file_count_and_one: u32,
    mode: i16,
    target_grf_name: Seq<char>,
    rest: Seq<u8>,
)
    requires
        utf8::encode_utf8(target_grf_name).len() <= 255,
    ensures
        header::thor_header(
            header_bytes(use_grf_merging, file_count_and_one, mode, target_grf_name) + rest,
        ) == Ok::<(Seq<u8>, HeaderView), ParseErrorView>(
            (
                rest,
                HeaderView {
                    use_grf_merging: use_grf_merging == 1,
                    file_count: file_count_and_one - 1,
                    mode: header::thor_mode(mode as int),
                    target_grf_name,
                },
            ),
        ),
{
    let magic = header::HEADER_MAGIC.spec_bytes();
    let name = utf8::encode_utf8(target_grf_name);
    let input = header_bytes(use_grf_merging, file_count_and_one, mode, target_grf_name) + rest;
    header::lemma_header_magic_len();
    utf8::encode_utf8_valid_utf8(target_grf_name);
    utf8::encode_utf8_decode_utf8(target_grf_name);
    let at_count = magic + seq![use_grf_merging];
    let at_mode = at_count + u32_bytes(file_count_and_one);
    let after_mode = seq![name.len() as u8] + name + rest;
    law_u32_reads_back(at_count, file_count_and_one, i16_bytes(mode) + after_mode);
    law_i16_reads_back(at_mode, mode, after_mode);
    assert(input =~= at_count + u32_bytes(file_count_and_one) + (i16_bytes(mode) + after_mode));
    assert(input =~= at_mode + i16_bytes(mode) + after_mode);
    assert(input[31] == name.len());
    assert(input.subrange(32, 32 + input[31]) =~= name);
    assert(input.skip(32 + input[31]) =~= rest);
}

/// An entry as it is stored in the table of an archive of several files.
pub struct StoredEntry {
    pub path: Seq<u8>,
    pub flags: u8,
    pub offset: u32,
    pub size_compressed: i32,
    pub size: i32,
}

impl StoredEntry {
    /// Whether the length of the path can be stored.
    pub open spec fn fits(self) -> bool {
        self.path.len() <= 255
    }

    /// The bytes of the entry.
    pub open spec fn bytes(self) -> Seq<u8> {
        let start = seq![self.path.len() as u8] + self.path + seq![self.flags];
        if entry::marks_removal(self.flags) {
            start
        } else {
            start + u32_bytes(self.offset) + i32_bytes(self.size_compressed) + i32_bytes(self.size)
        }
    }

    /// What the entry says of the file.
    pub open spec fn meaning(self) -> FileEntryView {
        let removed = entry::marks_removal(self.flags);
        FileEntryView {
            size_compressed: if removed {
                0
            } else {
                bytes::extended_to_usize(self.size_compressed as int)
            },
            size: if removed {
                0
            } else {
                bytes::extended_to_usize(self.size as int)
            },
            relative_path: windows_1252::windows_1252(self.path),
            is_removed: removed,
            offset: if removed {
                0
            } else {
                self.offset as int
            },
        }
    }
}

/// An entry of a table is read as it was written.
pub proof fn law_entry_reads_back(stored: StoredEntry, rest: Seq<u8>)
    requires
        stored.fits(),
    ensures
        entry::multiple_files_entry(stored.bytes() + rest) == Ok::<
            (Seq<u8>, FileEntryView),
            ParseErrorView,
        >((rest, stored.meaning())),
{
    let input = stored.bytes() + rest;
    let n = stored.path.len() as int;
    let start = seq![stored.path.len() as u8] + stored.path + seq![stored.flags];
    assert(input[0] == n);
    assert(input.subrange(1, n + 1) =~= stored.path);
    assert(input[n + 1] == stored.flags);
    if entry::marks_removal(stored.flags) {
        assert(input.skip(n + 2) =~= rest);
    } else {
        let offset = u32_bytes(stored.offset);
        let size_compressed = i32_bytes(stored.size_compressed);
        let size = i32_bytes(stored.size);
        law_u32_reads_back(start, stored.offset, size_compressed + size + rest);
        law_i32_reads_back(start + offset, stored.size_compressed, size + rest);
        law_i32_reads_back(start + offset + size_compressed, stored.size, rest);
        assert(input =~= start + offset + (size_compressed + size + rest));
        assert(input =~= start + offset + size_compressed + (size + rest));
        assert(input =~= start + offset + size_compressed + size + rest);
        assert(input.skip(n + 14) =~= rest);
    }
}

/// The bytes of several entries, one after the other.
pub open spec fn entries_bytes(stored: Seq<StoredEntry>) -> Seq<u8>
    decreases stored.len(),
{
    if stored.len() == 0 {
        seq![]
    } else {
        stored[0].bytes() + entries_bytes(stored.skip(1))
    }
}

/// What several entries say of the files.
pub open spec fn entries_meaning(stored: Seq<StoredEntry>) -> Seq<FileEntryView> {
    stored.map_values(|e: StoredEntry| e.meaning())
}

#[verifier::rlimit(30)]
proof fn lemma_leading_entries_read_back(stored: Seq<StoredEntry>, rest: Seq<u8>)
    requires
        forall|i: int| 0 <= i < stored.len() ==> #[trigger] stored[i].fits(),
        entry::multiple_files_entry(rest) matches Err(ParseErrorView::Error(..)),
    ensures
        entries::leading_entries(entries_bytes(stored) + rest) == Ok::<
            (Seq<u8>, Seq<FileEntryView>),
            ParseErrorView,
        >((rest, entries_meaning(stored))),
    decreases stored.len(),
{
    let input = entries_bytes(stored) + rest;
    if stored.len() == 0 {
        assert(input =~= rest);
        assert(entries_meaning(stored) =~= seq![]);
    } else {
        let tail = stored.skip(1);
        assert forall|i: int| 0 <= i < tail.len() implies #[trigger] tail[i].fits() by {
            assert(stored[i + 1].fits());
        }
        lemma_leading_entries_read_back(tail, rest);
        assert(stored[0].fits());
        law_entry_reads_back(stored[0], entries_bytes(tail) + rest);
        assert(input =~= stored[0].bytes() + (entries_bytes(tail) + rest));
        assert(entries_meaning(stored) =~= seq![stored[0].meaning()] + entries_meaning(tail));
    }
}

/// The table of several files is read as it was written, and of entries with one path the last
/// one counts. What follows the entries does not matter as long as it is no part of an entry that
/// ends inside its path.
pub proof fn law_table_reads_back(stored: Seq<StoredEntry>, rest: Seq<u8>)
    requires
        stored.len() > 0,
        forall|i: int| 0 <= i < stored.len() ==> #[trigger] stored[i].fits(),
        entry::multiple_files_entry(rest) matches Err(ParseErrorView::Error(..)),
    ensures
        entries::multiple_files_entries(entries_bytes(stored) + rest) == Ok::<
            (Seq<u8>, Map<Seq<char>, FileEntryView>),
            ParseErrorView,
        >((rest, entries::entry_map(entries_meaning(stored)))),
{
    lemma_leading_entries_read_back(stored, rest);
}

/// The entry of an archive of one file with the given fields.
pub open spec fn single_file_entry_bytes(size_compressed: i32, size: i32, path: Seq<u8>) -> Seq<
    u8,
> {
    i32_bytes(size_compressed) + i32_bytes(size) + seq![path.len() as u8] + path
}

/// What the entry of an archive of one file says of the file.
pub open spec fn single_file_entry_meaning(
    size_compressed: i32,
    size: i32,
    path: Seq<u8>,
) -> FileEntryView {
    FileEntryView {
        size_compressed: bytes::extended_to_usize(size_compressed as int),
        size: bytes::extended_to_usize(size as int),
        relative_path: windows_1252::windows_1252(path),
        is_removed: false,
        offset: 0,
    }
}

/// The entry of an archive of one file is read as it was written.
pub proof fn law_single_file_entry_reads_back(
    size_compressed: i32,
    size: i32,
    path: Seq<u8>,
    rest: Seq<u8>,
)
    requires
        path.len() <= 255,
    ensures
        entry::single_file_entry(single_file_entry_bytes(size_compressed, size, path) + rest)
            == Ok::<(Seq<u8>, FileEntryView), ParseErrorView>(
            (rest, single_file_entry_meaning(size_compressed, size, path)),
        ),
{
    let c = i32_bytes(size_compressed);
    let s = i32_bytes(size);
    let end = seq![path.len() as u8] + path + rest;
    let input = single_file_entry_bytes(size_compressed, size, path) + rest;
    law_i32_reads_back(seq![], size_compressed, s + end);
    law_i32_reads_back(c, size, end);
    assert(input =~= Seq::<u8>::empty() + c + (s + end));
    assert(input =~= c + s + end);
    assert(input[8] == path.len());
    assert(input.subrange(9, 9 + input[8]) =~= path);
    assert(input.skip(9 + input[8]) =~= rest);
}

/// An archive of one file is read as it was written.
pub proof fn law_single_file_patch_reads_back(
    use_grf_merging: u8,
    file_count_and_one: u32,
    target_grf_name: Seq<char>,
    unused: u8,
    size_compressed: i32,
    size: i32,
    path: Seq<u8>,
    rest: Seq<u8>,
)
    requires
        utf8::encode_utf8(target_grf_name).len() <= 255,
        path.len() <= 255,
    ensures
        ({
            let input = header_bytes(use_grf_merging, file_count_and_one, 33, target_grf_name) + (
            seq![unused] + (single_file_entry_bytes(size_compressed, size, path) + rest));
            let entry = single_file_entry_meaning(size_compressed, size, path);
            &&& file_count_and_one > 0 ==> container::within_bounds(input)
            &&& container::thor_patch(input) == Ok::<(Seq<u8>, ContainerView), ParseErrorView>(
                (
                    rest,
                    ContainerView {
                        header: HeaderView {
                            use_grf_merging: use_grf_merging == 1,
                            file_count: file_count_and_one - 1,
                            mode: ThorMode::SingleFile,
                            target_grf_name,
                        },
                        table: ThorTable::SingleFile(SingleFileTableDesc { file_table_offset: 0 }),
                        entries: Map::empty().insert(entry.relative_path, entry),
                    },
                ),
            )
        }),
{
    let stored = single_file_entry_bytes(size_compressed, size, path) + rest;
    let after_header = seq![unused] + stored;
    law_header_reads_back(
        use_grf_merging,
        file_count_and_one,
        33,
        target_grf_name,
        after_header,
    );
    law_single_file_entry_reads_back(size_compressed, size, path, rest);
    assert(after_header.skip(1) =~= stored);
}

/// An archive of several files with the given fields. The data that follows the description of
/// the table holds the compressed files and the compressed table.
pub open spec fn multiple_files_patch_bytes(
    use_grf_merging: u8,
    file_count_and_one: u32,
    target_grf_name: Seq<char>,
    file_table_compressed_size: i32,
    file_table_offset: i32,
    data: Seq<u8>,
) -> Seq<u8> {
    header_bytes(use_grf_merging, file_count_and_one, 48, target_grf_name) + (i32_bytes(
        file_table_compressed_size,
    ) + i32_bytes(file_table_offset) + data)
}

/// What an archive of several files with the given fields says of itself and of its files.
pub open spec fn multiple_files_patch_meaning(
    use_grf_merging: u8,
    file_count_and_one: u32,
    target_grf_name: Seq<char>,
    file_table_compressed_size: i32,
    file_table_offset: i32,
    stored: Seq<StoredEntry>,
) -> ContainerView {
    let data_at = header_bytes(use_grf_merging, file_count_and_one, 48, target_grf_name).len() + 8;
    ContainerView {
        header: HeaderView {
            use_grf_merging: use_grf_merging == 1,
            file_count: file_count_and_one - 1,
            mode: ThorMode::MultipleFiles,
            target_grf_name,
        },
        table: ThorTable::MultipleFiles(
            MultipleFilesTableDesc {
                file_table_compressed_size: bytes::extended_to_usize(
                    file_table_compressed_size as int,
                ) as usize,
                file_table_offset: (file_table_offset - data_at) as u64,
            },
        ),
        entries: entries::entry_map(entries_meaning(stored)),
    }
}

/// Whether the data of an archive decompresses, at the place of the table, to the given entries.
/// More may follow them, as long as it is no part of an entry that ends inside its path.
pub open spec fn holds_table(
    input: Seq<u8>,
    data: Seq<u8>,
    file_table_offset: i32,
    stored: Seq<StoredEntry>,
    leftover: Seq<u8>,
) -> bool {
    &&& input.len() - data.len() <= file_table_offset <= input.len()
    &&& zlib::zlib_decoded(input.skip(file_table_offset as int)) == Ok::<Seq<u8>, std::io::Error>(
        entries_bytes(stored) + leftover,
    )
    &&& stored.len() > 0
    &&& forall|i: int| 0 <= i < stored.len() ==> #[trigger] stored[i].fits()
    &&& entry::multiple_files_entry(leftover) matches Err(ParseErrorView::Error(..))
}

/// An archive of several files is read as it was written, if the data at the place of the table
/// decompresses to the table.
pub proof fn law_multiple_files_patch_reads_back(
    use_grf_merging: u8,
    file_count_and_one: u32,
    target_grf_name: Seq<char>,
    file_table_compressed_size: i32,
    file_table_offset: i32,
    data: Seq<u8>,
    stored: Seq<StoredEntry>,
    leftover: Seq<u8>,
)
    requires
        utf8::encode_utf8(target_grf_name).len() <= 255,
        holds_table(
            multiple_files_patch_bytes(
                use_grf_merging,
                file_count_and_one,
                target_grf_name,
                file_table_compressed_size,
                file_table_offset,
                data,
            ),
            data,
            file_table_offset,
            stored,
            leftover,
        ),
    ensures
        ({
            let input = multiple_files_patch_bytes(
                use_grf_merging,
                file_count_and_one,
                target_grf_name,
                file_table_compressed_size,
                file_table_offset,
                data,
            );
            &&& file_count_and_one > 0 ==> container::within_bounds(input)
            &&& container::thor_patch(input) == Ok::<(Seq<u8>, ContainerView), ParseErrorView>(
                (
                    seq![],
                    multiple_files_patch_meaning(
                        use_grf_merging,
                        file_count_and_one,
                        target_grf_name,
                        file_table_compressed_size,
                        file_table_offset,
                        stored,
                    ),
                ),
            )
        }),
{
    let c = i32_bytes(file_table_compressed_size);
    let o = i32_bytes(file_table_offset);
    let after_header = c + o + data;
    law_header_reads_back(
        use_grf_merging,
        file_count_and_one,
        48,
        target_grf_name,
        after_header,
    );
    law_i32_reads_back(seq![], file_table_compressed_size, o + data);
    law_i32_reads_back(c, file_table_offset, data);
    assert(after_header =~= Seq::<u8>::empty() + c + (o + data));
    assert(after_header.skip(8) =~= data);
    law_table_reads_back(stored, leftover);
}

/// Different paths stay different: bytes can be told from the text that they stand for.
pub proof fn law_windows_1252_is_injective(a: Seq<u8>, b: Seq<u8>)
    requires
        windows_1252::windows_1252(a) == windows_1252::windows_1252(b),
    ensures
        a == b,
{
    let text_a = windows_1252::windows_1252(a);
    let text_b = windows_1252::windows_1252(b);
    assert(a.len() == text_a.len() && b.len() == text_b.len());
    assert forall|i: int| 0 <= i < a.len() implies a[i] == b[i] by {
        assert(text_a[i] == windows_1252::windows_1252_char(a[i]));
        assert(text_b[i] == windows_1252::windows_1252_char(b[i]));
    }
    assert(a =~= b);
}

/// Of several entries with one path the last one counts.
pub proof fn law_last_entry_counts(entries: Seq<FileEntryView>, i: int)
    requires
        0 <= i < entries.len(),
        forall|j: int|
            i < j < entries.len() ==> #[trigger] entries[j].relative_path
                != entries[i].relative_path,
    ensures
        entries::entry_map(entries).contains_pair(entries[i].relative_path, entries[i]),
    decreases entries.len(),
{
    let init = entries.drop_last();
    if i < entries.len() - 1 {
        assert(entries[entries.len() - 1].relative_path != entries[i].relative_path);
        assert forall|j: int| i < j < init.len() implies #[trigger] init[j].relative_path
            != init[i].relative_path by {
            assert(entries[j].relative_path != entries[i].relative_path);
        }
        law_last_entry_counts(init, i);
    }
}

/// Every entry stands under its own path.
pub proof fn law_entries_stand_under_their_paths(entries: Seq<FileEntryView>, path: Seq<char>)
    requires
        entries::entry_map(entries).contains_key(path),
    ensures
        entries::entry_map(entries)[path].relative_path == path,
        entries.contains(entries::entry_map(entries)[path]),
    decreases entries.len(),
{
    if entries.len() > 0 {
        let last = entries.last();
        if path == last.relative_path {
            assert(entries[entries.len() - 1] == last);
        } else {
            let init = entries.drop_last();
            law_entries_stand_under_their_paths(init, path);
            let found = entries::entry_map(init)[path];
            let i = choose|i: int| 0 <= i < init.len() && init[i] == found;
            assert(entries[i] == found);
        }
    }
}

/// An entry that is found by its path is one of the listed entries, and every listed entry is
/// found by its path.
pub proof fn law_found_entries_are_the_listed_ones(
    listed: Seq<FileEntryView>,
    map: Map<Seq<char>, FileEntryView>,
    path: Seq<char>,
    entry: FileEntryView,
)
    requires
        entries::lists_entries(listed, map),
    ensures
        map.contains_pair(path, entry) <==> listed.contains(entry) && entry.relative_path == path,
{
    if map.contains_pair(path, entry) {
        assert(map.contains_key(path));
        let i = choose|i: int| 0 <= i < listed.len() && #[trigger] listed[i].relative_path == path;
        assert(map.contains_pair(listed[i].relative_path, listed[i]));
        assert(listed[i] == entry);
    }
    if listed.contains(entry) && entry.relative_path == path {
        let i = choose|i: int| 0 <= i < listed.len() && listed[i] == entry;
        assert(map.contains_pair(listed[i].relative_path, listed[i]));
    }
}

/// Whether an entry is one that an archive can hold.
pub open spec fn is_plausible(entry: FileEntryView) -> bool {
    &&& 0 <= entry.size_compressed <= usize::MAX
    &&& 0 <= entry.size <= usize::MAX
    &&& 0 <= entry.offset <= u32::MAX
    &&& entry.relative_path.len() <= 255
    &&& entry.is_removed ==> entry.size_compressed == 0 && entry.size == 0 && entry.offset == 0
}

proof fn lemma_number_bounds(s: Seq<u8>, at: int)
    ensures
        0 <= bytes::u32_at(s, at) <= u32::MAX,
        i32::MIN <= bytes::i32_at(s, at) <= i32::MAX,
{
}

proof fn lemma_leading_entries_plausible(input: Seq<u8>)
    ensures
        entries::leading_entries(input) matches Ok((_, es)) ==> forall|i: int|
            0 <= i < es.len() ==> is_plausible(#[trigger] es[i]),
    decreases input.len(),
{
    match entry::multiple_files_entry(input) {
        Ok((rest, first)) => {
            let n = input[0] as int;
            lemma_number_bounds(input, n + 2);
            lemma_number_bounds(input, n + 6);
            lemma_number_bounds(input, n + 10);
            assert(is_plausible(first));
            lemma_leading_entries_plausible(rest);
            match entries::leading_entries(rest) {
                Ok((_, more)) => {
                    let all = seq![first] + more;
                    assert forall|i: int| 0 <= i < all.len() implies is_plausible(
                        #[trigger] all[i],
                    ) by {
                        if i > 0 {
                            assert(all[i] == more[i - 1]);
                        }
                    }
                },
                Err(_) => {},
            }
        },
        Err(_) => {},
    }
}

/// What every archive that can be read has in common: it begins with the signature, its mode is a
/// known one and its table is of that mode, it has a file, and each of its files stands under its
/// own path. A file marked for removal has no content. An archive of one file does not remove it.
pub proof fn law_patch_is_consistent(input: Seq<u8>)
    requires
        container::thor_patch(input) is Ok,
    ensures
        ({
            let patch = container::thor_patch(input)->Ok_0.1;
            &&& header::HEADER_MAGIC.spec_bytes().is_prefix_of(input)
            &&& patch.header.mode != ThorMode::Invalid
            &&& patch.header.mode == ThorMode::SingleFile <==> patch.table is SingleFile
            &&& patch.header.mode == ThorMode::MultipleFiles <==> patch.table is MultipleFiles
            &&& exists|path: Seq<char>| patch.entries.contains_key(path)
            &&& forall|path: Seq<char>| #[trigger]
                patch.entries.contains_key(path) ==> {
                    let entry = patch.entries[path];
                    &&& entry.relative_path == path
                    &&& is_plausible(entry)
                    &&& patch.table is SingleFile ==> !entry.is_removed && entry.offset == 0
                }
            &&& patch.table is SingleFile ==> forall|a: Seq<char>, b: Seq<char>|
                patch.entries.contains_key(a) && patch.entries.contains_key(b) ==> a == b
        }),
{
    let patch = container::thor_patch(input)->Ok_0.1;
    header::lemma_header_magic_len();
    assert(header::HEADER_MAGIC.spec_bytes().is_prefix_of(input)) by {
        assert(header::HEADER_MAGIC.spec_bytes() =~= input.subrange(0, 24));
    }
    let after_header = header::thor_header(input)->Ok_0.0;
    match patch.table {
        ThorTable::SingleFile(_) => {
            let stored = after_header.skip(1);
            let entry = entry::single_file_entry(stored)->Ok_0.1;
            lemma_number_bounds(stored, 0);
            lemma_number_bounds(stored, 4);
            assert(is_plausible(entry));
            assert(patch.entries.contains_key(entry.relative_path));
        },
        ThorTable::MultipleFiles(_) => {
            let offset = crate::table::multiple_files_table(after_header)->Ok_0.1.file_table_offset;
            let decoded = zlib::zlib_decoded(input.skip(offset as int))->Ok_0;
            let es = entries::leading_entries(decoded)->Ok_0.1;
            lemma_leading_entries_plausible(decoded);
            assert(patch.entries == entries::entry_map(es));
            assert(patch.entries.contains_key(es.last().relative_path));
            assert forall|path: Seq<char>| #[trigger] patch.entries.contains_key(path) implies ({
                let entry = patch.entries[path];
                &&& entry.relative_path == path
                &&& is_plausible(entry)
            }) by {
                law_entries_stand_under_their_paths(es, path);
                let i = choose|i: int| 0 <= i < es.len() && es[i] == patch.entries[path];
                assert(is_plausible(es[i]));
            }
        },
    }
}

/// What follows a header does not matter to it.
pub proof fn law_header_ignores_what_follows(input: Seq<u8>, more: Seq<u8>)
    requires
        header::thor_header(input) is Ok,
    ensures
        header::thor_header(input + more) == Ok::<(Seq<u8>, HeaderView), ParseErrorView>(
            (
                header::thor_header(input)->Ok_0.0 + more,
                header::thor_header(input)->Ok_0.1,
            ),
        ),
{
    let longer = input + more;
    header::lemma_header_magic_len();
    let n = input[31] as int;
    assert(longer[31] == input[31] && longer[24] == input[24]);
    assert(longer.subrange(32, 32 + n) =~= input.subrange(32, 32 + n));
    assert(longer.skip(32 + n) =~= input.skip(32 + n) + more);
}

/// What follows the entry of an archive of one file does not matter to it.
pub proof fn law_single_file_patch_ignores_what_follows(input: Seq<u8>, more: Seq<u8>)
    requires
        container::thor_patch(input) matches Ok((_, patch)) && patch.table is SingleFile,
    ensures
        container::thor_patch(input + more) == Ok::<(Seq<u8>, ContainerView), ParseErrorView>(
            (
                container::thor_patch(input)->Ok_0.0 + more,
                container::thor_patch(input)->Ok_0.1,
            ),
        ),
{
    law_header_ignores_what_follows(input, more);
    let after_header = header::thor_header(input)->Ok_0.0;
    let stored = after_header.skip(1);
    assert((after_header + more).skip(1) =~= stored + more);
    let longer = stored + more;
    let n = stored[8] as int;
    assert(longer[8] == stored[8]);
    assert(longer.subrange(9, 9 + n) =~= stored.subrange(9, 9 + n));
    assert(longer.skip(9 + n) =~= stored.skip(9 + n) + more);
}

/// What follows an entry of a table does not matter to it.
pub proof fn law_entry_ignores_what_follows(input: Seq<u8>, more: Seq<u8>)
    requires
        entry::multiple_files_entry(input) is Ok,
    ensures
        entry::multiple_files_entry(input + more) == Ok::<
            (Seq<u8>, FileEntryView),
            ParseErrorView,
        >(
            (
                entry::multiple_files_entry(input)->Ok_0.0 + more,
                entry::multiple_files_entry(input)->Ok_0.1,
            ),
        ),
{
    let longer = input + more;
    let n = input[0] as int;
    assert(longer.subrange(1, n + 1) =~= input.subrange(1, n + 1));
    assert(longer.skip(n + 2) =~= input.skip(n + 2) + more);
    if !entry::marks_removal(input[n + 1]) {
        assert(longer.skip(n + 14) =~= input.skip(n + 14) + more);
    }
}

/// What a parser leaves of its input is the end of that input.
pub proof fn law_rest_is_a_suffix(input: Seq<u8>)
    ensures
        container::thor_patch(input) matches Ok((rest, _)) ==> rest.is_suffix_of(input),
{
    match container::thor_patch(input) {
        Ok((rest, patch)) => {
            let after_header = header::thor_header(input)->Ok_0.0;
            match patch.table {
                ThorTable::SingleFile(_) => {
                    let stored = after_header.skip(1);
                    let used = 32 + input[31] + 1 + 9 + stored[8];
                    assert(rest =~= input.skip(used));
                    assert(rest.is_suffix_of(input));
                },
                ThorTable::MultipleFiles(_) => {
                    assert(rest =~= input.skip(input.len() as int));
                    assert(rest.is_suffix_of(input));
                },
            }
        },
        Err(_) => {},
    }
}

/// A file that is read is as long as its entry says.
pub proof fn law_file_content_has_the_announced_size(
    patch: ContainerView,
    content: Seq<u8>,
    path: Seq<char>,
)
    ensures
        archive::file_content(patch, content, path) matches Ok(file) ==> {
            &&& patch.entries.contains_key(path)
            &&& file.len() == patch.entries[path].size
        },
{
}

/// A file is read as it was stored: if the bytes at the offset of its entry decompress to data as
/// long as the entry says, that data is the file.
pub proof fn law_file_reads_back(
    patch: ContainerView,
    before: Seq<u8>,
    stored: Seq<u8>,
    after: Seq<u8>,
    path: Seq<char>,
    file: Seq<u8>,
)
    requires
        patch.entries.contains_key(path),
        patch.entries[path].offset == before.len(),
        patch.entries[path].size_compressed == stored.len(),
        patch.entries[path].size == file.len(),
        zlib::zlib_decoded(stored) == Ok::<Seq<u8>, std::io::Error>(file),
    ensures
        archive::file_content(patch, before + stored + after, path) == Ok::<
            Seq<u8>,
            archive::ArchiveErrorView,
        >(file),
{
    let content = before + stored + after;
    let at = before.len() as int;
    assert(content.subrange(at, at + stored.len()) =~= stored);
    if stored.len() == 0 {
        assert(stored =~= seq![]);
    }
}

/// A file that cannot be decompressed is answered with the error that the decompression of its
/// stored bytes gives.
pub proof fn law_decompression_errors_are_passed_on(
    patch: ContainerView,
    before: Seq<u8>,
    stored: Seq<u8>,
    after: Seq<u8>,
    path: Seq<char>,
)
    requires
        patch.entries.contains_key(path),
        patch.entries[path].offset == before.len(),
        patch.entries[path].size_compressed == stored.len(),
        zlib::zlib_decoded(stored) is Err,
    ensures
        archive::file_content(patch, before + stored + after, path) == Err::<
            Seq<u8>,
            archive::ArchiveErrorView,
        >(archive::ArchiveErrorView::Decompression(zlib::zlib_decoded(stored)->Err_0)),
{
    let content = before + stored + after;
    let at = before.len() as int;
    assert(content.subrange(at, at + stored.len()) =~= stored);
    if stored.len() == 0 {
        assert(stored =~= seq![]);
    }
}

/// Reading a path of an archive again gives the same, whatever was read in between: the same
/// bytes, or the same error, down to the error of the decompression.
pub proof fn law_reading_again_gives_the_same(
    patch: ContainerView,
    content: Seq<u8>,
    path: Seq<char>,
    first: Result<Vec<u8>, archive::ArchiveError>,
    again: Result<Vec<u8>, archive::ArchiveError>,
)
    requires
        archive::outcome(first) == archive::file_content(patch, content, path),
        archive::outcome(again) == archive::file_content(patch, content, path),
    ensures
        match (first, again) {
            (Ok(first), Ok(again)) => first@ == again@,
            (Err(first), Err(again)) => first == again,
            _ => false,
        },
{
}

/// An archive of several files gives back what was stored in it. Take a file that the table does
/// not mark for removal and whose path no later entry has. If the bytes that its entry points at
/// decompress to data as long as the entry says, reading the archive and then that path gives
/// this data.
pub proof fn law_archive_gives_back_its_files(
    use_grf_merging: u8,
    file_count_and_one: u32,
    target_grf_name: Seq<char>,
    file_table_compressed_size: i32,
    file_table_offset: i32,
    data: Seq<u8>,
    stored: Seq<StoredEntry>,
    leftover: Seq<u8>,
    i: int,
    file: Seq<u8>,
)
    requires
        utf8::encode_utf8(target_grf_name).len() <= 255,
        ({
            let input = multiple_files_patch_bytes(
                use_grf_merging,
                file_count_and_one,
                target_grf_name,
                file_table_compressed_size,
                file_table_offset,
                data,
            );
            let at = stored[i].offset as int;
            let size_compressed = stored[i].size_compressed as int;
            &&& holds_table(input, data, file_table_offset, stored, leftover)
            &&& 0 <= size_compressed && at + size_compressed <= input.len()
            &&& zlib::zlib_decoded(input.subrange(at, at + size_compressed)) == Ok::<
                Seq<u8>,
                std::io::Error,
            >(file)
        }),
        0 <= i < stored.len(),
        forall|j: int| i < j < stored.len() ==> (#[trigger] stored[j]).path != stored[i].path,
        !entry::marks_removal(stored[i].flags),
        stored[i].size == file.len(),
    ensures
        ({
            let input = multiple_files_patch_bytes(
                use_grf_merging,
                file_count_and_one,
                target_grf_name,
                file_table_compressed_size,
                file_table_offset,
                data,
            );
            container::thor_patch(input) matches Ok((_, patch)) && archive::file_content(
                patch,
                input,
                windows_1252::windows_1252(stored[i].path),
            ) == Ok::<Seq<u8>, archive::ArchiveErrorView>(file)
        }),
{
    law_multiple_files_patch_reads_back(
        use_grf_merging,
        file_count_and_one,
        target_grf_name,
        file_table_compressed_size,
        file_table_offset,
        data,
        stored,
        leftover,
    );
    let input = multiple_files_patch_bytes(
        use_grf_merging,
        file_count_and_one,
        target_grf_name,
        file_table_compressed_size,
        file_table_offset,
        data,
    );
    let patch = multiple_files_patch_meaning(
        use_grf_merging,
        file_count_and_one,
        target_grf_name,
        file_table_compressed_size,
        file_table_offset,
        stored,
    );
    let meaning = entries_meaning(stored);
    let path = windows_1252::windows_1252(stored[i].path);
    assert(meaning[i] == stored[i].meaning());
    assert forall|j: int| i < j < meaning.len() implies #[trigger] meaning[j].relative_path
        != meaning[i].relative_path by {
        assert(stored[j].path != stored[i].path);
        if windows_1252::windows_1252(stored[j].path) == path {
            law_windows_1252_is_injective(stored[j].path, stored[i].path);
        }
    }
    law_last_entry_counts(meaning, i);
    let at = stored[i].offset as int;
    let end = at + stored[i].size_compressed;
    assert(input =~= input.take(at) + input.subrange(at, end) + input.skip(end));
    law_file_reads_back(
        patch,
        input.take(at),
        input.subrange(at, end),
        input.skip(end),
        path,
        file,
    );
}

/// Entries are hashed by their paths: what hashing an entry can make of a hasher, hashing any
/// other entry of the same path can make of it too. So equal entries are hashed alike.
pub proof fn law_entries_are_hashed_by_their_paths<H: std::hash::Hasher>(
    a: ThorFileEntry,
    b: ThorFileEntry,
    before: H,
    after: H,
)
    requires
        a@.relative_path == b@.relative_path,
    ensures
        (exists|text: &String, s: &mut H| #[trigger]
            call_ensures(entry::feed_text::<H>, (text, s), ()) && text@ == a@.relative_path && *s
                == before && *final(s) == after) <==> (exists|text: &String, s: &mut H| #[trigger]
            call_ensures(entry::feed_text::<H>, (text, s), ()) && text@ == b@.relative_path && *s
                == before && *final(s) == after),
{
}

} // verus!
