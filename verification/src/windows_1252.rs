//! Text in the encoding `windows-1252`.
use vstd::prelude::*;

use encoding::label::encoding_from_whatwg_label;
use encoding::DecoderTrap;

verus! {

/// The character that a byte stands for in `windows-1252`: the one of that number, but for the
/// punctuation and letters that the encoding puts between 0x80 and 0x9f.
pub open spec fn windows_1252_char(b: u8) -> char {
    match b {
        0x80 => '\u{20ac}',
        0x82 => '\u{201a}',
        0x83 => '\u{192}',
        0x84 => '\u{201e}',
        0x85 => '\u{2026}',
        0x86 => '\u{2020}',
        0x87 => '\u{2021}',
        0x88 => '\u{2c6}',
        0x89 => '\u{2030}',
        0x8a => '\u{160}',
        0x8b => '\u{2039}',
        0x8c => '\u{152}',
        0x8e => '\u{17d}',
        0x91 => '\u{2018}',
        0x92 => '\u{2019}',
        0x93 => '\u{201c}',
        0x94 => '\u{201d}',
        0x95 => '\u{2022}',
        0x96 => '\u{2013}',
        0x97 => '\u{2014}',
        0x98 => '\u{2dc}',
        0x99 => '\u{2122}',
        0x9a => '\u{161}',
        0x9b => '\u{203a}',
        0x9c => '\u{153}',
        0x9e => '\u{17e}',
        0x9f => '\u{178}',
        _ => b as char,
    }
}

/// The text that bytes stand for in `windows-1252`.
pub open spec fn windows_1252(bytes: Seq<u8>) -> Seq<char> {
    bytes.map_values(|b: u8| windows_1252_char(b))
}

/// Looks up an encoding with `encoding::label::encoding_from_whatwg_label` and decodes bytes with
/// its `decode`, which stops at the first byte without meaning. `None` stands for an encoding
/// that is not known. The label `windows-1252` is known, and in that encoding every byte has a
/// meaning, so decoding gives one character for each byte.
#[verifier::external_body]
fn decode_strictly(label: &str, bytes: &[u8]) -> (res: Option<Result<String, String>>)
    requires
        label@ == "windows-1252"@,
    ensures
        res is Some,
        res.unwrap() is Ok,
        res.unwrap().unwrap()@ == windows_1252(bytes@),
{
    match encoding_from_whatwg_label(label) {
        Some(encoding) => Some(
            encoding.decode(bytes, DecoderTrap::Strict).map_err(|cause| cause.into_owned()),
        ),
        None => None,
    }
}

/// Decodes text in `windows-1252`.
pub fn string_from_win_1252(v: &[u8]) -> (res: Result<String, String>)
    ensures
        res matches Ok(text) && text@ == windows_1252(v@),
{
    match decode_strictly("windows-1252", v) {
        Some(decoded) => decoded,
        None => Err("Decoder unavailable".to_string()),
    }
}

} // verus!
