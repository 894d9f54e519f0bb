//! Lines, words and decimal numbers in a text.
use vstd::prelude::*;

use std::str::FromStr;

verus! {

/// The views of the given strings.
pub open spec fn views(strings: Seq<String>) -> Seq<Seq<char>> {
    strings.map_values(|s: String| s@)
}

/// Whether a character has the Unicode property `White_Space`.
pub open spec fn is_white_space(c: char) -> bool {
    ||| '\u{9}' <= c <= '\u{d}'
    ||| c == ' '
    ||| c == '\u{85}'
    ||| c == '\u{a0}'
    ||| c == '\u{1680}'
    ||| '\u{2000}' <= c <= '\u{200a}'
    ||| c == '\u{2028}'
    ||| c == '\u{2029}'
    ||| c == '\u{202f}'
    ||| c == '\u{205f}'
    ||| c == '\u{3000}'
}

/// `char::is_whitespace` tells whether a character has the property `White_Space` of the Unicode
/// Character Database. The contract lists the characters that have it.
pub assume_specification[ char::is_whitespace ](c: char) -> (res: bool)
    ensures
        res == is_white_space(c),
;

/// `String::push` appends one character.
pub assume_specification[ String::push ](s: &mut String, c: char)
    ensures
        final(s)@ == old(s)@.push(c),
;

#[verifier::external_type_specification]
#[verifier::external_body]
pub struct ExParseIntError(core::num::ParseIntError);

/// Whether a character is one of the ten decimal digits.
pub open spec fn is_digit(c: char) -> bool {
    '0' <= c <= '9'
}

/// Whether a text holds nothing but decimal digits.
pub open spec fn all_digits(s: Seq<char>) -> bool {
    forall|i: int| 0 <= i < s.len() ==> is_digit(s[i])
}

/// The number that a run of decimal digits denotes.
pub open spec fn digits_value(digits: Seq<char>) -> nat
    decreases digits.len(),
{
    if digits.len() == 0 {
        0
    } else {
        10 * digits_value(digits.drop_last()) + (digits.last() as nat - '0' as nat) as nat
    }
}

/// The number that a text denotes in decimal notation: digits only, at least one of them, with an
/// optional plus sign before them.
pub open spec fn decimal(s: Seq<char>) -> Option<nat> {
    let digits = if s.len() > 0 && s[0] == '+' {
        s.skip(1)
    } else {
        s
    };
    if digits.len() > 0 && all_digits(digits) {
        Some(digits_value(digits))
    } else {
        None
    }
}

/// `usize::from_str` reads a text in decimal notation. It fails if the text is not in that
/// notation or if the number does not fit.
pub assume_specification[ <usize as core::str::FromStr>::from_str ](s: &str) -> (res: Result<
    usize,
    core::num::ParseIntError,
>)
    ensures
        match decimal(s@) {
            Some(n) if n <= usize::MAX => res == Ok::<usize, core::num::ParseIntError>(n as usize),
            _ => res is Err,
        },
;

/// Reads a number in decimal notation.
pub fn parse_index(s: &str) -> (res: Option<usize>)
    ensures
        res == (match decimal(s@) {
            Some(n) if n <= usize::MAX => Some(n as usize),
            _ => None,
        }),
{
    match usize::from_str(s) {
        Ok(n) => Some(n),
        Err(_) => None,
    }
}

/// How many characters of a text come before its first line feed.
pub open spec fn line_len(s: Seq<char>) -> nat
    decreases s.len(),
{
    if s.len() == 0 || s[0] == '\n' {
        0
    } else {
        1 + line_len(s.skip(1))
    }
}

/// A line without the carriage return that may stand at its end.
pub open spec fn without_cr(line: Seq<char>) -> Seq<char> {
    if line.len() > 0 && line.last() == '\r' {
        line.drop_last()
    } else {
        line
    }
}

/// The lines of a text. A line ends with a line feed, before which a carriage return may stand;
/// neither belongs to the line. The last line may lack its line feed, and is then taken as it is.
pub open spec fn lines(s: Seq<char>) -> Seq<Seq<char>>
    decreases s.len(),
{
    let n = line_len(s) as int;
    if s.len() == 0 {
        seq![]
    } else if n < s.len() {
        seq![without_cr(s.take(n))] + lines(s.skip(n + 1))
    } else {
        seq![s]
    }
}

/// How many characters of a text come before its first white space.
pub open spec fn word_len(s: Seq<char>) -> nat
    decreases s.len(),
{
    if s.len() == 0 || is_white_space(s[0]) {
        0
    } else {
        1 + word_len(s.skip(1))
    }
}

/// The words of a text: what white space separates.
pub open spec fn words(s: Seq<char>) -> Seq<Seq<char>>
    decreases s.len(),
{
    if s.len() == 0 {
        seq![]
    } else if is_white_space(s[0]) {
        words(s.skip(1))
    } else {
        proof {
            lemma_word_len_bound(s);
        }
        let n = word_len(s) as int;
        seq![s.take(n)] + words(s.skip(n))
    }
}

/// A word lies inside of its text, and is not empty where the text begins with one.
pub proof fn lemma_word_len_bound(s: Seq<char>)
    ensures
        word_len(s) <= s.len(),
        s.len() > 0 && !is_white_space(s[0]) ==> word_len(s) > 0,
    decreases s.len(),
{
    if s.len() > 0 && !is_white_space(s[0]) {
        lemma_word_len_bound(s.skip(1));
    }
}

proof fn lemma_line_len(line: Seq<char>, rest: Seq<char>)
    requires
        !line.contains('\n'),
    ensures
        line_len(line) == line.len(),
        line_len(line + seq!['\n'] + rest) == line.len(),
    decreases line.len(),
{
    let whole = line + seq!['\n'] + rest;
    if line.len() > 0 {
        assert(line[0] != '\n');
        assert forall|i: int| 0 <= i < line.skip(1).len() implies line.skip(1)[i] != '\n' by {
            assert(line.skip(1)[i] == line[i + 1]);
        }
        lemma_line_len(line.skip(1), rest);
        assert(whole.skip(1) =~= line.skip(1) + seq!['\n'] + rest);
    }
}

/// What stands before the first line feed is the first line.
pub proof fn lemma_first_line(line: Seq<char>, rest: Seq<char>)
    requires
        !line.contains('\n'),
    ensures
        lines(line + seq!['\n'] + rest) == seq![without_cr(line)] + lines(rest),
        lines(line) == (if line.len() == 0 {
            seq![]
        } else {
            seq![line]
        }),
{
    let whole = line + seq!['\n'] + rest;
    lemma_line_len(line, rest);
    assert(whole.take(line.len() as int) =~= line);
    assert(whole.skip(line.len() as int + 1) =~= rest);
}

/// Splits a text into its lines.
pub fn split_lines(content: &str) -> (res: Vec<String>)
    ensures
        views(res@) == lines(content@),
        res@.len() == lines(content@).len(),
        forall|i: int| 0 <= i < res@.len() ==> (#[trigger] res@[i])@ == lines(content@)[i],
{
    let mut done: Vec<String> = Vec::new();
    let mut line = String::new();
    // Whether a carriage return comes next whose place in the line is not known yet.
    let mut cr = false;
    let ghost mut pending = line@;
    assert(content@ =~= pending + content@.skip(0));
    for c in chars: content.chars()
        invariant
            chars.seq() == content@,
            pending == (if cr {
                line@.push('\r')
            } else {
                line@
            }),
            !cr ==> without_cr(line@) == line@,
            !pending.contains('\n'),
            lines(content@) == views(done@) + lines(
                pending + content@.skip(chars.index() as int),
            ),
    {
        let ghost rest = content@.skip(chars.index() + 1);
        proof {
            assert(content@.skip(chars.index() as int) =~= seq![c] + rest);
            assert(pending + (seq![c] + rest) =~= pending + seq![c] + rest);
            assert(pending.push(c) + rest =~= pending + seq![c] + rest);
        }
        if c == '\n' {
            proof {
                lemma_first_line(pending, rest);
                assert(cr ==> without_cr(pending) =~= line@);
                assert(views(done@.push(line)) =~= views(done@).push(line@));
                assert(views(done@).push(line@) + lines(rest) =~= views(done@) + (seq![line@]
                    + lines(rest)));
            }
            done.push(line);
            line = String::new();
            cr = false;
            proof {
                pending = line@;
                assert(pending + rest =~= rest);
            }
        } else {
            let ghost before = pending;
            if cr {
                line.push('\r');
            }
            cr = c == '\r';
            if !cr {
                line.push(c);
            }
            proof {
                pending = pending.push(c);
                assert forall|i: int| 0 <= i < pending.len() implies pending[i] != '\n' by {
                    if i < before.len() {
                        assert(pending[i] == before[i]);
                    }
                }
            }
        }
    }
    proof {
        assert(pending + content@.skip(content@.len() as int) =~= pending);
        lemma_first_line(pending, seq![]);
    }
    if cr {
        line.push('\r');
    }
    if !line.as_str().is_empty() {
        assert(views(done@.push(line)) =~= views(done@) + seq![line@]);
        done.push(line);
    } else {
        assert(views(done@) + seq![] =~= views(done@));
    }
    assert(forall|i: int| 0 <= i < done@.len() ==> views(done@)[i] == (#[trigger] done@[i])@);
    done
}

proof fn lemma_word_len(word: Seq<char>, c: char, rest: Seq<char>)
    requires
        is_word(word),
        is_white_space(c),
    ensures
        word_len(word) == word.len(),
        word_len(word + seq![c] + rest) == word.len(),
    decreases word.len(),
{
    let whole = word + seq![c] + rest;
    if word.len() > 0 {
        assert(is_word(word.skip(1)));
        lemma_word_len(word.skip(1), c, rest);
        assert(whole.skip(1) =~= word.skip(1) + seq![c] + rest);
    }
}

/// Whether a text holds no white space.
pub open spec fn is_word(s: Seq<char>) -> bool {
    forall|i: int| 0 <= i < s.len() ==> !is_white_space(s[i])
}

/// What stands before the first white space is the first word.
pub proof fn lemma_first_word(word: Seq<char>, c: char, rest: Seq<char>)
    requires
        is_word(word),
        is_white_space(c),
    ensures
        words(word + seq![c] + rest) == (if word.len() == 0 {
            words(rest)
        } else {
            seq![word] + words(rest)
        }),
        words(word) == (if word.len() == 0 {
            seq![]
        } else {
            seq![word]
        }),
{
    let whole = word + seq![c] + rest;
    let n = word.len() as int;
    lemma_word_len(word, c, rest);
    assert((seq![c] + rest).skip(1) =~= rest);
    assert(whole.take(n) =~= word);
    assert(whole.skip(n) =~= seq![c] + rest);
    assert(word.take(n) =~= word);
    assert(word.skip(n) =~= seq![]);
    assert(words(seq![c] + rest) == words(rest));
    if n > 0 {
        assert(words(word.skip(n)).len() == 0);
        assert(words(word) =~= seq![word]);
    }
}

/// Splits a text into its words.
pub fn split_words(line: &str) -> (res: Vec<String>)
    ensures
        views(res@) == words(line@),
        res@.len() == words(line@).len(),
        forall|i: int| 0 <= i < res@.len() ==> (#[trigger] res@[i])@ == words(line@)[i],
{
    let mut done: Vec<String> = Vec::new();
    let mut word = String::new();
    assert(line@ =~= word@ + line@.skip(0));
    for c in chars: line.chars()
        invariant
            chars.seq() == line@,
            is_word(word@),
            words(line@) == views(done@) + words(word@ + line@.skip(chars.index() as int)),
    {
        let ghost rest = line@.skip(chars.index() + 1);
        proof {
            assert(line@.skip(chars.index() as int) =~= seq![c] + rest);
            assert(word@ + (seq![c] + rest) =~= word@ + seq![c] + rest);
            assert(word@.push(c) + rest =~= word@ + seq![c] + rest);
        }
        if c.is_whitespace() {
            proof {
                lemma_first_word(word@, c, rest);
                assert(Seq::<char>::empty() + rest =~= rest);
            }
            if !word.as_str().is_empty() {
                proof {
                    assert(views(done@.push(word)) =~= views(done@).push(word@));
                    assert(views(done@).push(word@) + words(rest) =~= views(done@) + (seq![word@]
                        + words(rest)));
                }
                done.push(word);
                word = String::new();
            }
        } else {
            word.push(c);
        }
    }
    proof {
        assert(word@ + line@.skip(line@.len() as int) =~= word@);
        lemma_first_word(word@, ' ', seq![]);
    }
    if !word.as_str().is_empty() {
        assert(views(done@.push(word)) =~= views(done@) + seq![word@]);
        done.push(word);
    } else {
        assert(views(done@) + seq![] =~= views(done@));
    }
    assert(forall|i: int| 0 <= i < done@.len() ==> views(done@)[i] == (#[trigger] done@[i])@);
    done
}

/// Every text begins with a line, and a line feed follows unless the text ends there.
pub proof fn lemma_line_prefix(s: Seq<char>)
    ensures
        line_len(s) <= s.len(),
        !s.take(line_len(s) as int).contains('\n'),
        line_len(s) < s.len() ==> s[line_len(s) as int] == '\n',
    decreases s.len(),
{
    let n = line_len(s) as int;
    if s.len() > 0 && s[0] != '\n' {
        let tail = s.skip(1);
        lemma_line_prefix(tail);
        assert forall|i: int| 0 <= i < n implies s.take(n)[i] != '\n' by {
            if i > 0 {
                assert(tail.take(n - 1)[i - 1] == s[i]);
                assert(tail.take(n - 1).contains(tail.take(n - 1)[i - 1]));
            }
        }
    }
}

/// Every text begins with a word, which may be empty, and white space follows unless the text
/// ends there.
pub proof fn lemma_word_prefix(s: Seq<char>)
    ensures
        word_len(s) <= s.len(),
        is_word(s.take(word_len(s) as int)),
        word_len(s) < s.len() ==> is_white_space(s[word_len(s) as int]),
    decreases s.len(),
{
    let n = word_len(s) as int;
    if s.len() > 0 && !is_white_space(s[0]) {
        let tail = s.skip(1);
        lemma_word_prefix(tail);
        assert forall|i: int| 0 <= i < n implies !is_white_space(s.take(n)[i]) by {
            if i > 0 {
                assert(tail.take(n - 1)[i - 1] == s[i]);
            }
        }
    }
}

/// White space separates words: the words of two texts with white space between them are the
/// words of the one followed by the words of the other.
pub proof fn law_words_across_white_space(a: Seq<char>, c: char, b: Seq<char>)
    requires
        is_white_space(c),
    ensures
        words(a + seq![c] + b) == words(a) + words(b),
    decreases a.len(),
{
    let n = word_len(a) as int;
    lemma_word_prefix(a);
    let word = a.take(n);
    if n < a.len() {
        let tail = a.skip(n + 1);
        assert(a =~= word + seq![a[n]] + tail);
        assert(a + seq![c] + b =~= word + seq![a[n]] + (tail + seq![c] + b));
        lemma_first_word(word, a[n], tail);
        lemma_first_word(word, a[n], tail + seq![c] + b);
        law_words_across_white_space(tail, c, b);
        assert(seq![word] + (words(tail) + words(b)) =~= seq![word] + words(tail) + words(b));
    } else {
        assert(word =~= a);
        lemma_first_word(a, c, b);
        assert(Seq::<Seq<char>>::empty() + words(b) =~= words(b));
    }
}

/// Whether a text is nothing but white space.
pub open spec fn is_blank(s: Seq<char>) -> bool {
    forall|i: int| 0 <= i < s.len() ==> is_white_space(s[i])
}

/// White space around a text changes nothing about its words.
pub proof fn law_words_ignore_surrounding_white_space(
    before: Seq<char>,
    s: Seq<char>,
    after: Seq<char>,
)
    requires
        is_blank(before),
        is_blank(after),
    ensures
        words(before + s + after) == words(s),
    decreases before.len() + after.len(),
{
    if before.len() > 0 {
        let c = before[0];
        let tail = before.skip(1);
        assert(before + s + after =~= Seq::<char>::empty() + seq![c] + (tail + s + after));
        law_words_across_white_space(Seq::<char>::empty(), c, tail + s + after);
        law_words_ignore_surrounding_white_space(tail, s, after);
        assert(Seq::<Seq<char>>::empty() + words(s) =~= words(s));
    } else if after.len() > 0 {
        let c = after.last();
        let init = after.drop_last();
        assert(before + s + after =~= (before + s + init) + seq![c] + Seq::<char>::empty());
        law_words_across_white_space(before + s + init, c, Seq::<char>::empty());
        law_words_ignore_surrounding_white_space(before, s, init);
        assert(words(s) + Seq::<Seq<char>>::empty() =~= words(s));
    } else {
        assert(before + s + after =~= s);
    }
}

/// A text without white space is a single word, and an empty text holds none. With
/// [`law_words_across_white_space`] this settles the words of every text.
pub proof fn law_text_without_white_space_is_one_word(s: Seq<char>)
    requires
        forall|i: int| 0 <= i < s.len() ==> !is_white_space(s[i]),
    ensures
        s.len() > 0 ==> words(s) == seq![s],
        s.len() == 0 ==> words(s).len() == 0,
{
    assert(is_word(s));
    lemma_first_word(s, ' ', seq![]);
}

/// A line feed ends a line, and so does a carriage return with a line feed. What follows is split
/// on its own.
pub proof fn law_line_ends(line: Seq<char>, rest: Seq<char>)
    requires
        forall|i: int| 0 <= i < line.len() ==> line[i] != '\n',
    ensures
        lines(line + seq!['\r', '\n'] + rest) == seq![line] + lines(rest),
        line.len() == 0 || line.last() != '\r' ==> lines(line + seq!['\n'] + rest) == seq![line]
            + lines(rest),
{
    assert(!line.contains('\n'));
    lemma_first_line(line, rest);
    let with_cr = line.push('\r');
    assert forall|i: int| 0 <= i < with_cr.len() implies with_cr[i] != '\n' by {
        if i < line.len() {
            assert(with_cr[i] == line[i]);
        }
    }
    assert(!with_cr.contains('\n'));
    lemma_first_line(with_cr, rest);
    assert(with_cr + seq!['\n'] + rest =~= line + seq!['\r', '\n'] + rest);
    assert(without_cr(with_cr) =~= line);
}

/// A text without a line feed is a single line as it stands, and an empty text holds none. With
/// [`law_line_ends`] this settles the lines of every text.
pub proof fn law_text_without_line_feed_is_one_line(s: Seq<char>)
    requires
        forall|i: int| 0 <= i < s.len() ==> s[i] != '\n',
    ensures
        s.len() > 0 ==> lines(s) == seq![s],
        s.len() == 0 ==> lines(s).len() == 0,
{
    assert(!s.contains('\n'));
    lemma_first_line(s, seq![]);
}

/// Splitting off the first word: where a text holds a word, white space may come before the first
/// one, and white space or nothing comes after it.
pub proof fn lemma_split_first_word(s: Seq<char>) -> (parts: (Seq<char>, Seq<char>, Seq<char>))
    requires
        words(s).len() > 0,
    ensures
        s == parts.0 + parts.1 + parts.2,
        is_blank(parts.0),
        is_word(parts.1),
        parts.1.len() > 0,
        parts.2.len() > 0 ==> is_white_space(parts.2[0]),
        words(s) == seq![parts.1] + words(parts.2),
    decreases s.len(),
{
    if is_white_space(s[0]) {
        let (before, word, rest) = lemma_split_first_word(s.skip(1));
        let blank = seq![s[0]] + before;
        assert(s =~= seq![s[0]] + s.skip(1));
        assert(s =~= blank + word + rest);
        (blank, word, rest)
    } else {
        let n = word_len(s) as int;
        lemma_word_prefix(s);
        assert(s =~= Seq::<char>::empty() + s.take(n) + s.skip(n));
        (seq![], s.take(n), s.skip(n))
    }
}

/// A word that nothing or white space follows is the first word, whatever white space comes
/// before it.
pub proof fn lemma_first_of_words(before: Seq<char>, word: Seq<char>, rest: Seq<char>)
    requires
        is_blank(before),
        is_word(word),
        word.len() > 0,
        rest.len() > 0 ==> is_white_space(rest[0]),
    ensures
        words(before + word + rest) == seq![word] + words(rest),
{
    let s = word + rest;
    law_words_ignore_surrounding_white_space(before, s, seq![]);
    assert(before + word + rest =~= before + s + Seq::<char>::empty());
    if rest.len() > 0 {
        let tail = rest.skip(1);
        assert(s =~= word + seq![rest[0]] + tail);
        lemma_first_word(word, rest[0], tail);
        assert(words(rest) == words(tail));
    } else {
        assert(s =~= word);
        lemma_first_word(word, ' ', rest);
        assert(seq![word] + words(rest) =~= seq![word]);
    }
}

/// The characters that are white space, by their numbers.
pub proof fn law_white_space_characters(c: char)
    ensures
        is_white_space(c) <==> {
            let n = c as u32;
            ||| 0x9 <= n <= 0xd
            ||| n == 0x20
            ||| n == 0x85
            ||| n == 0xa0
            ||| n == 0x1680
            ||| 0x2000 <= n <= 0x200a
            ||| 0x2028 <= n <= 0x2029
            ||| n == 0x202f
            ||| n == 0x205f
            ||| n == 0x3000
        },
{
}

/// A digit denotes its number, a further digit counts ten times what comes before it and itself,
/// and a plus sign before a digit changes nothing.
pub proof fn law_decimal_notation(s: Seq<char>, c: char)
    requires
        '0' <= c <= '9',
    ensures
        decimal(seq![c]) == Some((c as nat - '0' as nat) as nat),
        decimal(s) matches Some(n) ==> decimal(s.push(c)) == Some(
            10 * n + (c as nat - '0' as nat) as nat,
        ),
        s.len() > 0 && s[0] != '+' ==> decimal(seq!['+'] + s) == decimal(s),
{
    let one = seq![c];
    assert(one.drop_last() =~= seq![]);
    assert(digits_value(one.drop_last()) == 0);
    assert(all_digits(one));
    if decimal(s) is Some {
        let digits = if s[0] == '+' {
            s.skip(1)
        } else {
            s
        };
        let longer = digits.push(c);
        assert(longer.drop_last() =~= digits);
        assert(all_digits(longer)) by {
            assert forall|i: int| 0 <= i < longer.len() implies is_digit(longer[i]) by {
                if i < digits.len() {
                    assert(longer[i] == digits[i]);
                }
            }
        }
        assert(s.push(c)[0] == s[0]);
        if s[0] == '+' {
            assert(s.push(c).skip(1) =~= longer);
        }
    }
    if s.len() > 0 {
        assert((seq!['+'] + s).skip(1) =~= s);
    }
}

/// A text in decimal notation holds a digit, and digits only but for a plus sign at its start.
pub proof fn law_decimal_notation_is_digits(s: Seq<char>)
    requires
        decimal(s) is Some,
    ensures
        s.len() > 0,
        '0' <= s.last() <= '9',
        forall|i: int| 0 < i < s.len() ==> '0' <= #[trigger] s[i] <= '9',
        '0' <= s[0] <= '9' || s[0] == '+',
{
    if s[0] == '+' {
        let digits = s.skip(1);
        assert forall|i: int| 0 < i < s.len() implies '0' <= #[trigger] s[i] <= '9' by {
            assert(is_digit(digits[i - 1]));
        }
    } else {
        assert forall|i: int| 0 <= i < s.len() implies '0' <= #[trigger] s[i] <= '9' by {
            assert(is_digit(s[i]));
        }
    }
}

} // verus!
