use std::collections::hash_map::DefaultHasher;
use std::hash::{Hash, Hasher};
use std::io::Write;

use flate2::write::ZlibEncoder;
use flate2::Compression;

use thor::archive::{check_file_content, unpack_file_content};
use thor::container::build_multiple_files_patch;
use thor::entry::{feed_text, is_file_removed};
use thor::header::{i16_to_thor_mode, HEADER_MAGIC};
use thor::{
    is_within_bounds, parse_thor_patch, ArchiveError, ErrorKind, FileEntries,
    MultipleFilesTableDesc, ParseError, SingleFileTableDesc, ThorArchive, ThorFileEntry,
    ThorHeader, ThorMode, ThorTable,
};

fn zlib(data: &[u8]) -> Vec<u8> {
    let mut encoder = ZlibEncoder::new(Vec::new(), Compression::default());
    encoder.write_all(data).unwrap();
    encoder.finish().unwrap()
}

fn header(merging: u8, count: u32, mode: i16, name: &str) -> Vec<u8> {
    let mut bytes = HEADER_MAGIC.as_bytes().to_vec();
    bytes.push(merging);
    bytes.extend_from_slice(&count.to_le_bytes());
    bytes.extend_from_slice(&mode.to_le_bytes());
    bytes.push(name.len() as u8);
    bytes.extend_from_slice(name.as_bytes());
    bytes
}

fn table_entry(path: &[u8], offset: u32, size_compressed: i32, size: i32) -> Vec<u8> {
    let mut bytes = vec![path.len() as u8];
    bytes.extend_from_slice(path);
    bytes.push(0);
    bytes.extend_from_slice(&offset.to_le_bytes());
    bytes.extend_from_slice(&size_compressed.to_le_bytes());
    bytes.extend_from_slice(&size.to_le_bytes());
    bytes
}

fn removal(path: &[u8]) -> Vec<u8> {
    let mut bytes = vec![path.len() as u8];
    bytes.extend_from_slice(path);
    bytes.push(1);
    bytes
}

/// An archive of several files, with the files right after the table description and the table
/// at the end.
fn archive_of(merging: u8, count: u32, name: &str, files: &[(&[u8], Vec<u8>)]) -> Vec<u8> {
    let start = header(merging, count, 48, name);
    let mut data = Vec::new();
    let mut table = Vec::new();
    for (path, content) in files {
        let stored = zlib(content);
        let at = (start.len() + 8 + data.len()) as u32;
        table.extend(table_entry(path, at, stored.len() as i32, content.len() as i32));
        data.extend(stored);
    }
    let table = zlib(&table);
    with_table(start, &data, &table)
}

fn with_table(start: Vec<u8>, data: &[u8], table: &[u8]) -> Vec<u8> {
    let mut bytes = start;
    let offset = (bytes.len() + 8 + data.len()) as i32;
    bytes.extend_from_slice(&(table.len() as i32).to_le_bytes());
    bytes.extend_from_slice(&offset.to_le_bytes());
    bytes.extend_from_slice(data);
    bytes.extend_from_slice(table);
    bytes
}

fn single_file_archive(path: &[u8], size_compressed: i32, size: i32) -> Vec<u8> {
    let mut bytes = header(0, 2, 33, "");
    bytes.push(0);
    bytes.extend_from_slice(&size_compressed.to_le_bytes());
    bytes.extend_from_slice(&size.to_le_bytes());
    bytes.push(path.len() as u8);
    bytes.extend_from_slice(path);
    bytes
}

const ICON: &[u8] = b"data\\texture\\\xc0\xaf\xc0\xfa\xc0\xce\xc5\xcd\xc6\xe4\xc0\xcc\xbd\xba\\inventory\\icon_num.bmp";

#[test]
fn archive_of_two_files() {
    let icon: Vec<u8> = (0..560).map(|i| (i % 251) as u8).collect();
    let content = archive_of(
        1,
        3,
        "",
        &[(b"data.integrity", vec![7; 63]), (ICON, icon.clone())],
    );
    assert!(is_within_bounds(&content));
    let archive = ThorArchive::new(&content).unwrap();
    let icon_path = "data\\texture\\\u{c0}\u{af}\u{c0}\u{fa}\u{c0}\u{ce}\u{c5}\u{cd}\u{c6}\u{e4}\u{c0}\u{cc}\u{bd}\u{ba}\\inventory\\icon_num.bmp";
    assert_eq!(archive.file_count(), 2);
    assert_eq!(archive.target_grf_name(), "");
    assert_eq!(archive.use_grf_merging(), true);
    assert_eq!(archive.get_entries().len(), 2);
    for entry in archive.get_entries() {
        let found = archive.get_file_entry(&entry.relative_path).unwrap();
        assert_eq!(found, entry);
        assert!(!entry.is_removed);
    }
    assert_eq!(archive.get_file_entry("data.integrity").unwrap().size, 63);
    assert_eq!(archive.get_file_entry(icon_path).unwrap().size, 560);
    assert_eq!(archive.locate_file(icon_path).unwrap().size, 560);
    assert_eq!(archive.read_file_content(&content, "data.integrity").unwrap(), vec![7; 63]);
    assert_eq!(archive.read_file_content(&content, icon_path).unwrap(), icon);
}

#[test]
fn archive_with_a_target() {
    let files: Vec<(Vec<u8>, Vec<u8>)> =
        (0..16u8).map(|i| (vec![b'f', b'0' + i], vec![i; i as usize])).collect();
    let files: Vec<(&[u8], Vec<u8>)> =
        files.iter().map(|(path, content)| (&path[..], content.clone())).collect();
    let content = archive_of(1, 17, "data.grf", &files);
    assert!(is_within_bounds(&content));
    let archive = ThorArchive::new(&content).unwrap();
    assert_eq!(archive.file_count(), 16);
    assert_eq!(archive.target_grf_name(), "data.grf");
    assert_eq!(archive.use_grf_merging(), true);
    assert_eq!(archive.get_entries().len(), 16);
    for (path, file) in files {
        let path = String::from_utf8(path.to_vec()).unwrap();
        assert_eq!(archive.read_file_content(&content, &path).unwrap(), file);
    }
}

#[test]
fn the_table_lies_where_the_description_says() {
    let start = header(2, 5, 48, "x");
    let data_at = start.len() as u64 + 8;
    let table = zlib(&removal(b"old"));
    let content = with_table(start, &[9; 20], &table);
    assert!(is_within_bounds(&content));
    let (rest, patch) = parse_thor_patch(&content).unwrap();
    assert!(rest.is_empty());
    assert_eq!(
        patch.table,
        ThorTable::MultipleFiles(MultipleFilesTableDesc {
            file_table_compressed_size: table.len(),
            file_table_offset: 20,
        })
    );
    assert_eq!(patch.header.use_grf_merging, false);
    assert_eq!(patch.header.file_count, 4);
    assert_eq!(data_at + 20, content.len() as u64 - table.len() as u64);
}

#[test]
fn later_entries_replace_earlier_ones() {
    let mut table = table_entry(b"a", 1, 2, 3);
    table.extend(table_entry(b"b", 4, 5, 6));
    table.extend(table_entry(b"a", 7, 8, 9));
    table.extend(removal(b"b"));
    let content = with_table(header(1, 9, 48, ""), &[], &zlib(&table));
    assert!(is_within_bounds(&content));
    let (_, patch) = parse_thor_patch(&content).unwrap();
    assert_eq!(patch.entries.values().len(), 2);
    let a = patch.entries.get("a").unwrap();
    assert_eq!((a.offset, a.size_compressed, a.size, a.is_removed), (7, 8, 9, false));
    let b = patch.entries.get("b").unwrap();
    assert_eq!((b.offset, b.size_compressed, b.size, b.is_removed), (0, 0, 0, true));
    assert_eq!(patch.entries.get("c"), None);
}

#[test]
fn what_follows_the_entries_of_a_table() {
    let entry = table_entry(b"abc", 1, 2, 3);
    // A rest that is no entry is left alone ...
    let mut table = entry.clone();
    table.extend_from_slice(&entry[..entry.len() - 1]);
    let content = with_table(header(1, 2, 48, ""), &[], &zlib(&table));
    assert!(is_within_bounds(&content));
    assert_eq!(parse_thor_patch(&content).unwrap().1.entries.values().len(), 1);
    // ... but the table cannot end inside a path.
    let mut table = entry.clone();
    table.extend_from_slice(&entry[..3]);
    let content = with_table(header(1, 2, 48, ""), &[], &zlib(&table));
    assert!(is_within_bounds(&content));
    assert_eq!(
        parse_thor_patch(&content).unwrap_err(),
        ParseError::Failure(&content, ErrorKind::Many1)
    );
}

#[test]
fn archive_of_one_file() {
    let mut content = single_file_archive(b"a\x80.txt", 11, 22);
    let used = content.len();
    content.extend_from_slice(&[1, 2, 3]);
    assert!(is_within_bounds(&content));
    let (rest, patch) = parse_thor_patch(&content).unwrap();
    assert_eq!(rest, &content[used..]);
    assert_eq!(patch.header.mode, ThorMode::SingleFile);
    assert_eq!(
        patch.table,
        ThorTable::SingleFile(SingleFileTableDesc { file_table_offset: 0 })
    );
    let entry = ThorFileEntry {
        size_compressed: 11,
        size: 22,
        relative_path: "a\u{20ac}.txt".to_string(),
        is_removed: false,
        offset: 0,
    };
    assert_eq!(patch.entries.values(), &[entry]);
    // What follows makes no difference.
    let (rest, shorter) = parse_thor_patch(&content[..used]).unwrap();
    assert!(rest.is_empty());
    assert_eq!(shorter, patch);
}

#[test]
fn sizes_are_signed() {
    let content = single_file_archive(b"a", -1, i32::MIN);
    assert!(is_within_bounds(&content));
    let (_, patch) = parse_thor_patch(&content).unwrap();
    let entry = patch.entries.get("a").unwrap();
    assert_eq!(entry.size_compressed, usize::MAX);
    assert_eq!(entry.size, usize::MAX - 0x7fff_ffff);
}

#[test]
fn inputs_that_are_no_archives() {
    let good = single_file_archive(b"ab", 1, 2);
    // The signature.
    assert_eq!(parse_thor_patch(&good[..10]).unwrap_err(), ParseError::Incomplete(24));
    let mut bad = good.clone();
    bad[3] = b'X';
    assert_eq!(parse_thor_patch(&bad).unwrap_err(), ParseError::Error(&bad, ErrorKind::Tag));
    // The numbers of the header.
    assert_eq!(
        parse_thor_patch(&good[..28]).unwrap_err(),
        ParseError::Error(&good[25..28], ErrorKind::Eof)
    );
    // The name of the target.
    let named = header(1, 2, 33, "long name");
    assert_eq!(
        parse_thor_patch(&named[..named.len() - 1]).unwrap_err(),
        ParseError::Incomplete(9)
    );
    let mut bad = named.clone();
    bad[34] = 0xff;
    assert_eq!(
        parse_thor_patch(&bad).unwrap_err(),
        ParseError::Error(&bad[32..], ErrorKind::MapRes)
    );
    // The mode.
    let bad = header(1, 2, 34, "");
    assert_eq!(parse_thor_patch(&bad).unwrap_err(), ParseError::Failure(&bad, ErrorKind::Switch));
    // The table description and the entry of one file.
    assert_eq!(parse_thor_patch(&good[..32]).unwrap_err(), ParseError::Incomplete(1));
    assert_eq!(
        parse_thor_patch(&good[..39]).unwrap_err(),
        ParseError::Error(&good[37..39], ErrorKind::Eof)
    );
    assert_eq!(parse_thor_patch(&good[..43]).unwrap_err(), ParseError::Incomplete(2));
    // The archive as a whole.
    assert!(matches!(ThorArchive::new(&bad), Err(ArchiveError::Malformed)));
}

#[test]
fn tables_that_cannot_be_read() {
    // The table lies before the end of its description.
    let mut bad = header(1, 2, 48, "");
    bad.extend_from_slice(&[0, 0, 0, 0, 39, 0, 0, 0]);
    assert!(is_within_bounds(&bad));
    assert_eq!(parse_thor_patch(&bad).unwrap_err(), ParseError::Failure(&bad, ErrorKind::Switch));
    // The table is not compressed.
    let bad = with_table(header(1, 2, 48, ""), &[], b"no compressed data");
    assert!(is_within_bounds(&bad));
    assert_eq!(parse_thor_patch(&bad).unwrap_err(), ParseError::Failure(&bad, ErrorKind::Switch));
    // The table has no entries.
    let bad = with_table(header(1, 2, 48, ""), &[], &zlib(&[]));
    assert!(is_within_bounds(&bad));
    assert_eq!(parse_thor_patch(&bad).unwrap_err(), ParseError::Failure(&bad, ErrorKind::Many1));
}

#[test]
fn numbers_that_cannot_be_followed() {
    assert!(!is_within_bounds(&header(1, 0, 33, "")));
    assert!(!is_within_bounds(&header(1, 0, 7, "")));
    assert!(is_within_bounds(&header(1, 1, 33, "")));
    assert!(is_within_bounds(&header(1, 0, 33, "")[..31]));
    for offset in [41i32, 1000, -1, i32::MIN].iter() {
        let mut bad = header(1, 2, 48, "");
        bad.extend_from_slice(&[0, 0, 0, 0]);
        bad.extend_from_slice(&offset.to_le_bytes());
        assert!(!is_within_bounds(&bad));
        assert!(is_within_bounds(&bad[..39]));
    }
    let mut good = header(1, 2, 48, "");
    good.extend_from_slice(&[0, 0, 0, 0, 40, 0, 0, 0]);
    assert!(is_within_bounds(&good));
}

#[test]
fn tables_from_their_decompressed_bytes() {
    let description = || MultipleFilesTableDesc {
        file_table_compressed_size: 5,
        file_table_offset: 6,
    };
    let head = || ThorHeader {
        use_grf_merging: true,
        file_count: 1,
        mode: ThorMode::MultipleFiles,
        target_grf_name: "t".to_string(),
    };
    let input = [1u8, 2, 3];
    let (rest, patch) =
        build_multiple_files_patch(&input, head(), description(), Ok(removal(b"z"))).unwrap();
    assert!(rest.is_empty());
    assert_eq!(patch.header, head());
    assert_eq!(patch.table, ThorTable::MultipleFiles(description()));
    assert!(patch.entries.get("z").unwrap().is_removed);
    let error = std::io::Error::new(std::io::ErrorKind::Other, "why");
    assert_eq!(
        build_multiple_files_patch(&input, head(), description(), Err(error)).unwrap_err(),
        ParseError::Failure(&input, ErrorKind::Switch)
    );
    assert_eq!(
        build_multiple_files_patch(&input, head(), description(), Ok(vec![4, 1])).unwrap_err(),
        ParseError::Failure(&input, ErrorKind::Many1)
    );
}

fn stored_entry(path: &str, offset: u64, size_compressed: usize, size: usize) -> ThorFileEntry {
    ThorFileEntry {
        size_compressed,
        size,
        relative_path: path.to_string(),
        is_removed: false,
        offset,
    }
}

#[test]
fn files_that_cannot_be_read() {
    let stored = zlib(b"hello");
    let n = stored.len() as i32;
    let start = header(1, 6, 48, "");
    let at = start.len() as u32 + 8;
    let mut table = table_entry(b"good", at, n, 5);
    table.extend(table_entry(b"wrong size", at, n, 6));
    table.extend(table_entry(b"broken", at + 1, n - 1, 5));
    table.extend(table_entry(b"far", 100_000, 4, 5));
    table.extend(table_entry(b"long", at, 100_000, 5));
    table.extend(removal(b"gone"));
    let content = with_table(start, &stored, &zlib(&table));
    assert!(is_within_bounds(&content));
    let archive = ThorArchive::new(&content).unwrap();
    let read = |path: &str| archive.read_file_content(&content, path);
    assert_eq!(read("good").unwrap(), b"hello");
    assert!(matches!(read("none"), Err(ArchiveError::NotFound)));
    assert!(matches!(archive.locate_file("none"), Err(ArchiveError::NotFound)));
    assert!(matches!(read("wrong size"), Err(ArchiveError::UnexpectedSize)));
    assert!(matches!(read("broken"), Err(ArchiveError::Decompression(_))));
    assert!(matches!(read("far"), Err(ArchiveError::UnexpectedEnd)));
    assert!(matches!(read("long"), Err(ArchiveError::UnexpectedEnd)));
    assert!(archive.locate_file("gone").unwrap().is_removed);
}

#[test]
fn files_from_their_stored_bytes() {
    let stored = zlib(b"hello");
    let entry = stored_entry("p", 0, stored.len(), 5);
    assert_eq!(unpack_file_content(&entry, &stored).unwrap(), b"hello");
    assert!(matches!(
        unpack_file_content(&entry, b"hello"),
        Err(ArchiveError::Decompression(_))
    ));
    assert_eq!(check_file_content(&entry, Ok(b"world".to_vec())).unwrap(), b"world");
    assert!(matches!(
        check_file_content(&entry, Ok(b"worlds".to_vec())),
        Err(ArchiveError::UnexpectedSize)
    ));
    let error = std::io::Error::new(std::io::ErrorKind::Other, "why");
    match check_file_content(&entry, Err(error)) {
        Err(ArchiveError::Decompression(error)) => assert_eq!(error.to_string(), "why"),
        other => panic!("{:?}", other),
    }
}

/// The error of the decompression of some bytes.
fn decompression_error(stored: &[u8]) -> (std::io::ErrorKind, String) {
    match unpack_file_content(&stored_entry("p", 0, stored.len(), 5), stored) {
        Err(ArchiveError::Decompression(error)) => (error.kind(), error.to_string()),
        other => panic!("{:?}", other),
    }
}

#[test]
fn errors_of_the_decompression_are_passed_on() {
    let stored = zlib(b"hello");
    let truncated =
        (std::io::ErrorKind::UnexpectedEof, "incomplete deflate stream".to_string());
    let corrupt = (std::io::ErrorKind::InvalidInput, "corrupt deflate stream".to_string());
    assert_eq!(decompression_error(&stored[..stored.len() - 1]), truncated);
    assert_eq!(decompression_error(&stored[..5]), truncated);
    assert_eq!(decompression_error(&stored[1..]), corrupt);
    assert_eq!(decompression_error(b"no compressed data"), corrupt);

    let start = header(1, 3, 48, "");
    let at = start.len() as u32 + 8;
    let n = stored.len() as i32;
    let mut table = table_entry(b"truncated", at, n - 1, 5);
    table.extend(table_entry(b"corrupt", at + 1, n - 1, 5));
    let content = with_table(start, &stored, &zlib(&table));
    assert!(is_within_bounds(&content));
    let archive = ThorArchive::new(&content).unwrap();
    for (path, expected) in [("truncated", truncated), ("corrupt", corrupt)].iter() {
        match archive.read_file_content(&content, path) {
            Err(ArchiveError::Decompression(error)) => {
                assert_eq!((error.kind(), error.to_string()), *expected)
            }
            other => panic!("{:?}", other),
        }
    }
}

#[test]
fn reading_again_gives_the_same() {
    let stored = zlib(b"hello");
    let start = header(1, 6, 48, "");
    let at = start.len() as u32 + 8;
    let n = stored.len() as i32;
    let mut table = table_entry(b"good", at, n, 5);
    table.extend(table_entry(b"truncated", at, n - 1, 5));
    table.extend(table_entry(b"corrupt", at + 1, n - 1, 5));
    table.extend(table_entry(b"wrong size", at, n, 6));
    table.extend(table_entry(b"far", 100_000, 4, 5));
    let content = with_table(start, &stored, &zlib(&table));
    assert!(is_within_bounds(&content));
    let archive = ThorArchive::new(&content).unwrap();
    let read = |path: &str| format!("{:?}", archive.read_file_content(&content, path));
    let paths = ["good", "truncated", "corrupt", "wrong size", "far", "none"];
    let first: Vec<String> = paths.iter().map(|path| read(path)).collect();
    for other in paths.iter() {
        for (path, expected) in paths.iter().zip(first.iter()).rev() {
            read(other);
            assert_eq!(&read(path), expected);
        }
    }
}

#[test]
fn entries_are_equal_in_any_order() {
    let a = stored_entry("a", 1, 2, 3);
    let b = stored_entry("b", 4, 5, 6);
    let ab = FileEntries::new().insert(a.clone()).insert(b.clone());
    let ba = FileEntries::new().insert(b.clone()).insert(a.clone());
    assert_eq!(ab, ba);
    assert_ne!(ab, FileEntries::new().insert(a.clone()));
    assert_ne!(FileEntries::new().insert(a.clone()), ab);
    assert_ne!(ab, FileEntries::new().insert(a.clone()).insert(stored_entry("b", 4, 5, 7)));
    assert_eq!(FileEntries::new(), FileEntries::new());
    assert_eq!(a.clone(), a);
    assert_ne!(a, b);
    assert_ne!(a, stored_entry("a", 1, 2, 4));
    assert_ne!(a, stored_entry("a", 0, 2, 3));
}

#[test]
fn entries_are_hashed_by_their_paths() {
    let hash = |entry: &ThorFileEntry| {
        let mut hasher = DefaultHasher::new();
        entry.hash(&mut hasher);
        hasher.finish()
    };
    let mut hasher = DefaultHasher::new();
    "a".to_string().hash(&mut hasher);
    assert_eq!(hash(&stored_entry("a", 1, 2, 3)), hasher.finish());
    assert_eq!(hash(&stored_entry("a", 1, 2, 3)), hash(&stored_entry("a", 4, 5, 6)));
    assert_ne!(hash(&stored_entry("a", 1, 2, 3)), hash(&stored_entry("b", 1, 2, 3)));
}

/// A hasher that keeps what it is fed.
struct Recorder(Vec<Vec<u8>>);

impl Hasher for Recorder {
    fn finish(&self) -> u64 {
        self.0.len() as u64
    }

    fn write(&mut self, bytes: &[u8]) {
        self.0.push(bytes.to_vec());
    }
}

#[test]
fn a_hasher_is_fed_the_path_alone() {
    let path = "data\\\u{c0}\u{af}.bmp".to_string();
    let mut expected = Recorder(vec![vec![1, 2, 3]]);
    path.hash(&mut expected);
    assert_ne!(expected.0.len(), 1);
    let mut fed = Recorder(vec![vec![1, 2, 3]]);
    feed_text(&path, &mut fed);
    assert_eq!(fed.0, expected.0);
    let mut removed = stored_entry(&path, 0, 0, 0);
    removed.is_removed = true;
    for entry in [stored_entry(&path, 1, 2, 3), stored_entry(&path, 4, 5, 6), removed].iter() {
        let mut recorder = Recorder(vec![vec![1, 2, 3]]);
        entry.hash(&mut recorder);
        assert_eq!(recorder.0, expected.0);
    }
}

#[test]
fn modes_and_flags() {
    assert_eq!(i16_to_thor_mode(33), ThorMode::SingleFile);
    assert_eq!(i16_to_thor_mode(48), ThorMode::MultipleFiles);
    assert_eq!(i16_to_thor_mode(0), ThorMode::Invalid);
    assert_eq!(i16_to_thor_mode(-33), ThorMode::Invalid);
    for flags in 0..=255u8 {
        assert_eq!(is_file_removed(flags), flags & 1 == 1);
    }
}
