//! The parsers, held against the same grammar in `nom`.

use encoding::all::WINDOWS_1252;
use encoding::{DecoderTrap, Encoding};
use nom::bytes::streaming;
use nom::combinator::map_res;
use nom::multi::fold_many1;
use nom::number::complete::{le_i16, le_i32, le_u32, le_u8};
use nom::IResult;

use thor::bytes;
use thor::entries::parse_multiple_files_entries;
use thor::entry::{parse_multiple_files_entry, parse_single_file_entry};
use thor::header::{parse_thor_header, HEADER_MAGIC};
use thor::table::{parse_multiple_files_table, parse_single_file_table};
use thor::{ErrorKind, ParseError, ParseResult, ThorMode};

type Fields = (usize, usize, String, bool, u64);

fn kind(kind: nom::error::ErrorKind) -> ErrorKind {
    match kind {
        nom::error::ErrorKind::Tag => ErrorKind::Tag,
        nom::error::ErrorKind::MapRes => ErrorKind::MapRes,
        nom::error::ErrorKind::Eof => ErrorKind::Eof,
        nom::error::ErrorKind::Switch => ErrorKind::Switch,
        nom::error::ErrorKind::Many1 => ErrorKind::Many1,
        other => panic!("{:?}", other),
    }
}

fn converted<'a, T>(result: IResult<&'a [u8], T>) -> ParseResult<'a, T> {
    match result {
        Ok(ok) => Ok(ok),
        Err(nom::Err::Incomplete(nom::Needed::Size(n))) => Err(ParseError::Incomplete(n)),
        Err(nom::Err::Error((at, k))) => Err(ParseError::Error(at, kind(k))),
        Err(nom::Err::Failure((at, k))) => Err(ParseError::Failure(at, kind(k))),
        Err(other) => panic!("{:?}", other),
    }
}

fn ansi(bytes: &[u8]) -> Result<String, ()> {
    WINDOWS_1252.decode(bytes, DecoderTrap::Strict).map_err(|_| ())
}

fn header(i: &[u8]) -> IResult<&[u8], (bool, usize, i16, String)> {
    let (i, _) = streaming::tag(HEADER_MAGIC)(i)?;
    let (i, merging) = le_u8(i)?;
    let (i, count) = le_u32(i)?;
    let (i, mode) = le_i16(i)?;
    let (i, size) = le_u8(i)?;
    let (i, name) = map_res(streaming::take(size as usize), std::str::from_utf8)(i)?;
    Ok((i, (merging == 1, (count - 1) as usize, mode, name.to_string())))
}

fn single_entry(i: &[u8]) -> IResult<&[u8], Fields> {
    let (i, size_compressed) = le_i32(i)?;
    let (i, size) = le_i32(i)?;
    let (i, n) = le_u8(i)?;
    let (i, path) = map_res(streaming::take(n as usize), ansi)(i)?;
    Ok((i, (size_compressed as usize, size as usize, path, false, 0)))
}

fn entry(i: &[u8]) -> IResult<&[u8], Fields> {
    let (i, n) = le_u8(i)?;
    let (i, path) = map_res(streaming::take(n as usize), ansi)(i)?;
    let (i, flags) = le_u8(i)?;
    if flags & 1 == 1 {
        return Ok((i, (0, 0, path, true, 0)));
    }
    let (i, offset) = le_u32(i)?;
    let (i, size_compressed) = le_i32(i)?;
    let (i, size) = le_i32(i)?;
    Ok((i, (size_compressed as usize, size as usize, path, false, offset as u64)))
}

fn table(i: &[u8]) -> IResult<&[u8], Vec<Fields>> {
    fold_many1(entry, Vec::new(), |mut acc: Vec<Fields>, e| {
        acc.retain(|f| f.2 != e.2);
        acc.push(e);
        acc
    })(i)
}

fn fields(e: &thor::ThorFileEntry) -> Fields {
    (e.size_compressed, e.size, e.relative_path.clone(), e.is_removed, e.offset)
}

/// Calls `check` on every beginning of `sample` and on those with one byte changed.
fn for_each_variant(sample: &[u8], check: impl Fn(&[u8])) {
    for end in 0..sample.len() + 1 {
        check(&sample[..end]);
    }
    for at in 0..sample.len() {
        for value in [0u8, 1, 2, 0x21, 0x30, 0x7f, 0x80, 0x81, 0xc3, 0xff].iter() {
            let mut changed = sample.to_vec();
            changed[at] = *value;
            check(&changed);
        }
    }
}

fn sample_header() -> Vec<u8> {
    let mut sample = HEADER_MAGIC.as_bytes().to_vec();
    sample.extend_from_slice(&[1, 17, 0, 0, 0, 0x30, 0, 5]);
    sample.extend_from_slice("d\u{e9}.g".as_bytes());
    sample.extend_from_slice(&[1, 2, 3]);
    sample
}

fn sample_table() -> Vec<u8> {
    let mut sample = vec![3, b'a', 0x80, 0xe9, 0, 1, 2, 3, 4, 5, 6, 7, 8, 9, 10, 11, 12];
    sample.extend_from_slice(&[2, b'b', b'c', 3]);
    sample.extend_from_slice(&[3, b'a', 0x80, 0xe9, 4, 0xff, 0xff, 0xff, 0xff]);
    sample.extend_from_slice(&[0xff, 0xff, 0xff, 0xff, 0, 0, 0, 0x80]);
    sample.extend_from_slice(&[0, 1, 0, 2, 9, 9, 9]);
    sample
}

#[test]
fn numbers() {
    for_each_variant(&[0x12, 0x34, 0x56, 0x78, 0x9a], |i| {
        assert_eq!(bytes::le_u8(i), converted(le_u8(i)));
        assert_eq!(bytes::le_u16(i), converted(nom::number::complete::le_u16(i)));
        assert_eq!(bytes::le_u32(i), converted(le_u32(i)));
        assert_eq!(bytes::le_i16(i), converted(le_i16(i)));
        assert_eq!(bytes::le_i32(i), converted(le_i32(i)));
        assert_eq!(bytes::take(3, i), converted(streaming::take(3usize)(i)));
        assert_eq!(
            bytes::tag(&[0x12, 0x34, 0x56], i),
            converted(streaming::tag(&[0x12u8, 0x34, 0x56][..])(i))
        );
    });
}

#[test]
fn extended_numbers() {
    for v in [0, 1, 77, i32::MAX, i32::MIN, -1, -2, -1000].iter() {
        assert_eq!(bytes::extend_to_usize(*v), *v as usize);
        assert_eq!(bytes::extend_to_u64(*v), *v as u64);
    }
}

#[test]
fn headers() {
    for_each_variant(&sample_header(), |i| {
        if i.len() >= 29 && i[25..29] == [0, 0, 0, 0] {
            return;
        }
        let parsed = parse_thor_header(i).map(|(rest, h)| {
            (rest, (h.use_grf_merging, h.file_count, h.mode, h.target_grf_name))
        });
        let expected = converted(header(i)).map(|(rest, (merging, count, mode, name))| {
            let mode = match mode {
                33 => ThorMode::SingleFile,
                48 => ThorMode::MultipleFiles,
                _ => ThorMode::Invalid,
            };
            (rest, (merging, count, mode, name))
        });
        assert_eq!(parsed, expected);
    });
}

#[test]
fn table_descriptions() {
    for_each_variant(&[1, 2, 3, 4, 5, 6, 7, 8, 9], |i| {
        let parsed = parse_single_file_table(i).map(|(rest, t)| (rest, t.file_table_offset));
        let expected = converted(streaming::take(1usize)(i)).map(|(rest, _): (_, &[u8])| (rest, 0));
        assert_eq!(parsed, expected);
        let parsed = parse_multiple_files_table(i)
            .map(|(rest, t)| (rest, (t.file_table_compressed_size, t.file_table_offset)));
        let expected = converted(le_i32(i)).and_then(|(rest, size)| {
            converted(le_i32(rest))
                .map(|(rest, offset): (_, i32)| (rest, (size as usize, offset as u64)))
        });
        assert_eq!(parsed, expected);
    });
}

#[test]
fn single_file_entries() {
    let sample = [1, 2, 3, 4, 5, 6, 7, 8, 3, b'a', 0x99, 0xfc, 9, 9];
    for_each_variant(&sample, |i| {
        let parsed = parse_single_file_entry(i).map(|(rest, e)| (rest, fields(&e)));
        assert_eq!(parsed, converted(single_entry(i)));
    });
}

#[test]
fn multiple_files_entry() {
    for_each_variant(&sample_table(), |i| {
        let parsed = parse_multiple_files_entry(i).map(|(rest, e)| (rest, fields(&e)));
        assert_eq!(parsed, converted(entry(i)));
    });
}

#[test]
fn tables() {
    for_each_variant(&sample_table(), |i| {
        let parsed = parse_multiple_files_entries(i).map(|(rest, entries)| {
            let mut all: Vec<Fields> = entries.values().iter().map(fields).collect();
            all.sort();
            (rest, all)
        });
        let expected = converted(table(i)).map(|(rest, mut all)| {
            all.sort();
            (rest, all)
        });
        assert_eq!(parsed, expected);
    });
}

/// Every byte has a character.
#[test]
fn windows_1252_characters() {
    let punctuation: Vec<char> = "\u{20ac}\u{81}\u{201a}\u{192}\u{201e}\u{2026}\u{2020}\u{2021}\
        \u{2c6}\u{2030}\u{160}\u{2039}\u{152}\u{8d}\u{17d}\u{8f}\
        \u{90}\u{2018}\u{2019}\u{201c}\u{201d}\u{2022}\u{2013}\u{2014}\
        \u{2dc}\u{2122}\u{161}\u{203a}\u{153}\u{9d}\u{17e}\u{178}"
        .chars()
        .collect();
    let all: Vec<u8> = (0..=255u8).collect();
    let text = thor::windows_1252::string_from_win_1252(&all).unwrap();
    let text: Vec<char> = text.chars().collect();
    assert_eq!(text.len(), 256);
    for b in 0..256usize {
        let expected = if b >= 0x80 && b < 0xa0 {
            punctuation[b - 0x80]
        } else {
            b as u8 as char
        };
        assert_eq!(text[b], expected);
    }
}
