use std::collections::HashMap;

use thor::text::{split_lines, split_words};
use thor::{patch_list_from_string, ThorPatchInfo};

#[test]
fn test_patch_list_from_string() {
    let plist_content = "//869 iteminfo_20170423.thor
870 iteminfo_20170423_.thor
871 sprites_20170427.thor
872 sprites_20170429.thor
//873 rodex_20170501.thor
//874 strings_20170501.thor
875 rodex_20170501_.thor";
    let expected_content: HashMap<usize, &str> = [
        (870, "iteminfo_20170423_.thor"),
        (871, "sprites_20170427.thor"),
        (872, "sprites_20170429.thor"),
        (875, "rodex_20170501_.thor"),
    ]
    .iter()
    .cloned()
    .collect();
    //Empty patch list
    let empty_thor_patch_list = patch_list_from_string("");
    assert_eq!(empty_thor_patch_list.len(), 0);
    // Regular patch list
    let thor_patch_list = patch_list_from_string(plist_content);
    assert_eq!(thor_patch_list.len(), expected_content.len());
    for patch_info in thor_patch_list {
        assert!(expected_content.contains_key(&patch_info.index));
        assert_eq!(patch_info.file_name, expected_content[&patch_info.index]);
    }
}

fn pairs(content: &str) -> Vec<(usize, String)> {
    patch_list_from_string(content).into_iter().map(|p| (p.index, p.file_name)).collect()
}

fn pair(line: &str) -> Option<(usize, String)> {
    ThorPatchInfo::from_string(line).map(|p| (p.index, p.file_name))
}

fn named(index: usize, name: &str) -> Option<(usize, String)> {
    Some((index, name.to_string()))
}

#[test]
fn patches_keep_the_order_of_their_lines() {
    assert_eq!(
        pairs("3 c.thor\n1 a.thor\n\n2 b.thor\n1 a.thor\n"),
        vec![
            (3, "c.thor".to_string()),
            (1, "a.thor".to_string()),
            (2, "b.thor".to_string()),
            (1, "a.thor".to_string()),
        ]
    );
}

#[test]
fn two_lists_one_after_the_other() {
    for a in ["", "1 a", "1 a\n", "1 a\r", "// 5 x\n2 b\r\n3 c", "\n\n"].iter() {
        for b in ["", "7 g", "\n8 h\n", "x"].iter() {
            let mut expected = pairs(a);
            expected.extend(pairs(b));
            assert_eq!(pairs(&format!("{}\n{}", a, b)), expected);
        }
    }
}

#[test]
fn white_space_around_a_line_is_ignored() {
    assert_eq!(pair("\t 12\u{3000}name.thor \u{85}\r"), named(12, "name.thor"));
    assert_eq!(pair("\u{a0}12\u{2003}\u{2003}name.thor"), named(12, "name.thor"));
    // A zero width space and a Mongolian vowel separator are no white space.
    assert_eq!(pair("12 a\u{200b}b"), named(12, "a\u{200b}b"));
    assert_eq!(pair("12\u{180e}a"), None);
}

#[test]
fn further_words_are_ignored() {
    assert_eq!(pair("12 name.thor and more"), named(12, "name.thor"));
}

#[test]
fn lines_without_a_patch_are_ignored() {
    assert_eq!(pair(""), None);
    assert_eq!(pair("   "), None);
    assert_eq!(pair("12"), None);
    assert_eq!(pair("12 "), None);
    assert_eq!(pair("name.thor 12"), None);
    assert_eq!(pair("//12 name.thor"), None);
    assert_eq!(pair("// 12 name.thor"), None);
    assert_eq!(pair("-1 name.thor"), None);
    assert_eq!(pair("1_000 name.thor"), None);
    assert_eq!(pair("0x10 name.thor"), None);
    assert_eq!(pair("\u{661} name.thor"), None);
}

#[test]
fn numbers_in_decimal_notation() {
    assert_eq!(pair("0 a"), named(0, "a"));
    assert_eq!(pair("007 a"), named(7, "a"));
    assert_eq!(pair("+7 a"), named(7, "a"));
    assert_eq!(pair("+ a"), None);
    assert_eq!(pair("++7 a"), None);
    assert_eq!(pair(&format!("{} a", usize::MAX)), named(usize::MAX, "a"));
    assert_eq!(pair(&format!("00000{} a", usize::MAX)), named(usize::MAX, "a"));
    assert_eq!(pair(&format!("{}0 a", usize::MAX)), None);
    assert_eq!(pair("18446744073709551616 a"), None);
}

#[test]
fn text_is_split_as_the_standard_library_does() {
    for text in [
        "",
        "\n",
        "\r\n",
        "a",
        "a\n",
        "a\r\n",
        "a\r\r\n",
        "a\rb\nc",
        "a\r",
        "\r",
        "\r\r",
        "a\n\nb\n",
        " a  b ",
        "\u{1680}a\u{2028}b\u{202f}c\u{205f}",
        "\u{e9}\u{4e2d}\r\n\u{1f600}",
    ]
    .iter()
    {
        let lines: Vec<&str> = text.lines().collect();
        assert_eq!(split_lines(text), lines);
        let words: Vec<&str> = text.trim().split_whitespace().collect();
        assert_eq!(split_words(text), words);
    }
}

/// The characters that count as white space, and no others, separate words.
#[test]
fn white_space_characters() {
    let white_space: Vec<u32> = [
        0x9, 0xa, 0xb, 0xc, 0xd, 0x20, 0x85, 0xa0, 0x1680, 0x2000, 0x2001, 0x2002, 0x2003, 0x2004,
        0x2005, 0x2006, 0x2007, 0x2008, 0x2009, 0x200a, 0x2028, 0x2029, 0x202f, 0x205f, 0x3000,
    ]
    .to_vec();
    for code in 0..0x110000u32 {
        if let Some(c) = std::char::from_u32(code) {
            let text = format!("a{}b", c);
            let expected = if white_space.contains(&code) { 2 } else { 1 };
            assert_eq!(split_words(&text).len(), expected, "{:x}", code);
        }
    }
}
