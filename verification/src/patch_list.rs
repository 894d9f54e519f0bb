//! The list of patches that a server offers: one line per patch, with the patch's number and the
//! name of its file.
use vstd::prelude::*;

use crate::text;
use crate::text::{parse_index, split_lines, split_words};

verus! {

/// One patch of a patch list.
#[derive(Debug)]
pub struct ThorPatchInfo {
    pub index: usize,
    pub file_name: String,
}

/// The mathematical counterpart of [`ThorPatchInfo`].
pub struct PatchInfoView {
    pub index: int,
    pub file_name: Seq<char>,
}

impl View for ThorPatchInfo {
    type V = PatchInfoView;

    open spec fn view(&self) -> PatchInfoView {
        PatchInfoView { index: self.index as int, file_name: self.file_name@ }
    }
}

/// The patches of a patch list, in the order of their lines.
pub type ThorPatchList = Vec<ThorPatchInfo>;

/// The views of the given patches.
pub open spec fn patch_views(patches: Seq<ThorPatchInfo>) -> Seq<PatchInfoView> {
    patches.map_values(|p: ThorPatchInfo| p@)
}

/// The patch that a line names: its first word is the patch's number in decimal notation, its
/// second word the name of the file. Any further words are ignored.
pub open spec fn patch_info(line: Seq<char>) -> Option<PatchInfoView> {
    let words = text::words(line);
    if words.len() < 2 {
        None
    } else {
        match text::decimal(words[0]) {
            Some(n) if n <= usize::MAX => Some(
                PatchInfoView { index: n as int, file_name: words[1] },
            ),
            _ => None,
        }
    }
}

/// The patches that the given lines name, in order. Lines that name none are left out.
pub open spec fn patches_of(lines: Seq<Seq<char>>) -> Seq<PatchInfoView>
    decreases lines.len(),
{
    if lines.len() == 0 {
        seq![]
    } else {
        match patch_info(lines.last()) {
            Some(patch) => patches_of(lines.drop_last()).push(patch),
            None => patches_of(lines.drop_last()),
        }
    }
}

/// The patches that a patch list names.
pub open spec fn patch_list(content: Seq<char>) -> Seq<PatchInfoView> {
    patches_of(text::lines(content))
}

impl ThorPatchInfo {
    /// Parses a line to extract patch index and patch file name.
    /// Returns `None` if the line does not hold them.
    pub fn from_string(line: &str) -> (res: Option<ThorPatchInfo>)
        ensures
            match res {
                Some(patch) => patch_info(line@) == Some(patch@),
                None => patch_info(line@) is None,
            },
            res matches Some(patch) ==> patch_info(line@) == Some(
                PatchInfoView { index: patch.index as int, file_name: patch.file_name@ },
            ),
    {
        let words = split_words(line);
        let ghost views = text::views(words@);
        if words.len() < 1 {
            return None;
        }
        assert(views[0] == words@[0]@);
        let index: usize = match parse_index(words[0].as_str()) {
            Some(index) => index,
            None => return None,
        };
        if words.len() < 2 {
            return None;
        }
        assert(views[1] == words@[1]@);
        Some(ThorPatchInfo { index, file_name: words[1].clone() })
    }
}

/// Parses a patch list. Lines that name no patch are ignored.
pub fn patch_list_from_string(content: &str) -> (res: ThorPatchList)
    ensures
        patch_views(res@) == patch_list(content@),
        res@.len() == patch_list(content@).len(),
        forall|i: int|
            0 <= i < res@.len() ==> (#[trigger] res@[i]).index == patch_list(content@)[i].index
                && res@[i].file_name@ == patch_list(content@)[i].file_name,
{
    let lines = split_lines(content);
    let ghost views = text::views(lines@);
    let mut patches: ThorPatchList = Vec::new();
    for i in 0..lines.len()
        invariant
            views == text::views(lines@),
            patch_views(patches@) == patches_of(views.take(i as int)),
    {
        proof {
            assert(views.take(i + 1).drop_last() =~= views.take(i as int));
            assert(views.take(i + 1).last() == lines@[i as int]@);
        }
        if let Some(patch) = ThorPatchInfo::from_string(lines[i].as_str()) {
            assert(patch_views(patches@.push(patch)) =~= patch_views(patches@).push(patch@));
            patches.push(patch);
        }
    }
    assert(views.take(views.len() as int) =~= views);
    assert(forall|i: int|
        0 <= i < patches@.len() ==> patch_views(patches@)[i] == (#[trigger] patches@[i])@);
    patches
}

proof fn lemma_patches_of_concat(a: Seq<Seq<char>>, b: Seq<Seq<char>>)
    ensures
        patches_of(a + b) == patches_of(a) + patches_of(b),
    decreases b.len(),
{
    if b.len() == 0 {
        assert(a + b =~= a);
        assert(patches_of(a) + seq![] =~= patches_of(a));
    } else {
        lemma_patches_of_concat(a, b.drop_last());
        assert((a + b).drop_last() =~= a + b.drop_last());
        assert((a + b).last() == b.last());
        match patch_info(b.last()) {
            Some(patch) => {
                assert((patches_of(a) + patches_of(b.drop_last())).push(patch) =~= patches_of(a)
                    + patches_of(b.drop_last()).push(patch));
            },
            None => {},
        }
    }
}

/// The patch of a single line.
proof fn lemma_patches_of_one(line: Seq<char>)
    ensures
        patches_of(seq![line]) == (match patch_info(line) {
            Some(patch) => seq![patch],
            None => seq![],
        }),
{
    assert(seq![line].drop_last() =~= seq![]);
    assert(patches_of(seq![line].drop_last()) =~= seq![]);
    match patch_info(line) {
        Some(patch) => assert(patches_of(seq![line]) =~= seq![patch]),
        None => {},
    }
}

/// White space around a line changes nothing about the patch that it names.
pub proof fn law_patch_info_ignores_surrounding_white_space(
    before: Seq<char>,
    line: Seq<char>,
    after: Seq<char>,
)
    requires
        text::is_blank(before),
        text::is_blank(after),
    ensures
        patch_info(before + line + after) == patch_info(line),
{
    text::law_words_ignore_surrounding_white_space(before, line, after);
}

/// A line with a number, white space and a name, and perhaps more after further white space,
/// names the patch of that number and that name.
pub proof fn law_patch_info_reads_what_is_written(
    number: Seq<char>,
    space: char,
    name: Seq<char>,
    more: Seq<char>,
)
    requires
        text::is_word(number),
        text::decimal(number) matches Some(n) && n <= usize::MAX,
        text::is_white_space(space),
        text::is_word(name),
        name.len() > 0,
        more.len() > 0 ==> text::is_white_space(more[0]),
    ensures
        patch_info(number + seq![space] + name + more) == Some(
            PatchInfoView { index: text::decimal(number).unwrap() as int, file_name: name },
        ),
{
    let line = number + seq![space] + name + more;
    text::lemma_first_word(number, space, name + more);
    assert(line =~= number + seq![space] + (name + more));
    assert(number.len() > 0);
    if more.len() > 0 {
        let tail = more.skip(1);
        assert(name + more =~= name + seq![more[0]] + tail);
        text::lemma_first_word(name, more[0], tail);
    } else {
        assert(name + more =~= name);
        text::lemma_first_word(name, space, more);
    }
    assert(text::words(line)[0] == number);
    assert(text::words(line)[1] == name);
}

/// A line whose first character that is not white space is neither a digit nor a plus sign names
/// no patch: a comment that begins with `//` is ignored.
pub proof fn law_comment_names_no_patch(before: Seq<char>, c: char, rest: Seq<char>)
    requires
        text::is_blank(before),
        !text::is_white_space(c),
        !text::is_digit(c),
        c != '+',
    ensures
        patch_info(before + seq![c] + rest) is None,
{
    let line = seq![c] + rest;
    assert(before + seq![c] + rest =~= before + line + Seq::<char>::empty());
    law_patch_info_ignores_surrounding_white_space(before, line, Seq::<char>::empty());
    text::lemma_word_len_bound(line);
    let first = text::words(line)[0];
    assert(first == line.take(text::word_len(line) as int));
    assert(first[0] == c);
    assert(!text::is_digit(first[0]));
}

/// A list made of two lists, one after the other on lines of their own, names the patches of the
/// first and then the patches of the second.
pub proof fn law_patch_list_concatenation(a: Seq<char>, b: Seq<char>)
    ensures
        patch_list(a + seq!['\n'] + b) == patch_list(a) + patch_list(b),
    decreases a.len(),
{
    let n = text::line_len(a) as int;
    text::lemma_line_prefix(a);
    let line = a.take(n);
    if n < a.len() {
        let tail = a.skip(n + 1);
        assert(a =~= line + seq!['\n'] + tail);
        assert(a + seq!['\n'] + b =~= line + seq!['\n'] + (tail + seq!['\n'] + b));
        text::lemma_first_line(line, tail);
        text::lemma_first_line(line, tail + seq!['\n'] + b);
        let first = seq![text::without_cr(line)];
        lemma_patches_of_concat(first, text::lines(tail));
        lemma_patches_of_concat(first, text::lines(tail + seq!['\n'] + b));
        law_patch_list_concatenation(tail, b);
        assert(patches_of(first) + (patch_list(tail) + patch_list(b)) =~= patches_of(first)
            + patch_list(tail) + patch_list(b));
    } else {
        assert(line =~= a);
        text::lemma_first_line(a, b);
        let first = text::without_cr(a);
        lemma_patches_of_concat(seq![first], text::lines(b));
        lemma_patches_of_one(first);
        lemma_patches_of_one(a);
        let cr = if a.len() > 0 && a.last() == '\r' {
            seq!['\r']
        } else {
            seq![]
        };
        assert(a =~= Seq::<char>::empty() + first + cr);
        law_patch_info_ignores_surrounding_white_space(Seq::<char>::empty(), first, cr);
    }
}

/// A line with a number, a run of white space and a name names the patch of that number and that
/// name. White space may come before the number, and anything may follow the name after further
/// white space.
pub proof fn law_number_and_name_make_a_patch(
    before: Seq<char>,
    number: Seq<char>,
    gap: Seq<char>,
    name: Seq<char>,
    more: Seq<char>,
)
    requires
        forall|i: int| 0 <= i < before.len() ==> text::is_white_space(before[i]),
        text::decimal(number) matches Some(n) && n <= usize::MAX,
        gap.len() > 0,
        forall|i: int| 0 <= i < gap.len() ==> text::is_white_space(gap[i]),
        name.len() > 0,
        forall|i: int| 0 <= i < name.len() ==> !text::is_white_space(name[i]),
        more.len() > 0 ==> text::is_white_space(more[0]),
    ensures
        patch_info(before + number + gap + name + more) == Some(
            PatchInfoView { index: text::decimal(number).unwrap() as int, file_name: name },
        ),
{
    let line = before + number + gap + name + more;
    let rest = gap + name + more;
    lemma_number_is_word(number);
    assert(line =~= before + number + rest);
    assert(rest[0] == gap[0]);
    text::lemma_first_of_words(before, number, rest);
    text::lemma_first_of_words(gap, name, more);
    assert(text::words(line)[0] == number);
    assert(text::words(line)[1] == text::words(rest)[0]);
}

/// A line that names a patch holds its number in decimal notation and then its name, each set off
/// by white space: no line without them names one. Returned are the parts of the line.
pub proof fn law_patch_is_number_and_name(line: Seq<char>) -> (parts: (
    Seq<char>,
    Seq<char>,
    Seq<char>,
    Seq<char>,
    Seq<char>,
))
    requires
        patch_info(line) is Some,
    ensures
        ({
            let (before, number, gap, name, more) = parts;
            let patch = patch_info(line).unwrap();
            &&& line == before + number + gap + name + more
            &&& forall|i: int| 0 <= i < before.len() ==> text::is_white_space(before[i])
            &&& text::decimal(number) == Some(patch.index as nat)
            &&& 0 <= patch.index <= usize::MAX
            &&& gap.len() > 0
            &&& forall|i: int| 0 <= i < gap.len() ==> text::is_white_space(gap[i])
            &&& name.len() > 0
            &&& forall|i: int| 0 <= i < name.len() ==> !text::is_white_space(name[i])
            &&& name == patch.file_name
            &&& more.len() > 0 ==> text::is_white_space(more[0])
        }),
{
    let (before, number, rest) = text::lemma_split_first_word(line);
    assert(text::words(line)[1] == text::words(rest)[0]);
    let (gap, name, more) = text::lemma_split_first_word(rest);
    assert(gap.len() > 0) by {
        if gap.len() == 0 {
            assert(rest[0] == name[0]);
        }
    }
    assert(line =~= before + number + gap + name + more);
    (before, number, gap, name, more)
}

/// A line whose first word is no number in decimal notation, or a number that is too large, names
/// no patch.
pub proof fn law_line_without_number_names_no_patch(
    before: Seq<char>,
    word: Seq<char>,
    more: Seq<char>,
)
    requires
        forall|i: int| 0 <= i < before.len() ==> text::is_white_space(before[i]),
        word.len() > 0,
        forall|i: int| 0 <= i < word.len() ==> !text::is_white_space(word[i]),
        more.len() > 0 ==> text::is_white_space(more[0]),
        text::decimal(word) matches Some(n) ==> n > usize::MAX,
    ensures
        patch_info(before + word + more) is None,
{
    text::lemma_first_of_words(before, word, more);
    assert(text::words(before + word + more)[0] == word);
}

/// A line with less than two words names no patch.
pub proof fn law_line_without_name_names_no_patch(
    before: Seq<char>,
    word: Seq<char>,
    after: Seq<char>,
)
    requires
        forall|i: int| 0 <= i < before.len() ==> text::is_white_space(before[i]),
        forall|i: int| 0 <= i < word.len() ==> !text::is_white_space(word[i]),
        forall|i: int| 0 <= i < after.len() ==> text::is_white_space(after[i]),
    ensures
        patch_info(before + word + after) is None,
{
    text::law_words_ignore_surrounding_white_space(before, word, after);
    text::law_text_without_white_space_is_one_word(word);
}

/// A patch list without a line feed names the patch of its only line, if that line names one, and
/// no other. With [`law_patch_list_concatenation`] this settles every patch list, line by line.
pub proof fn law_patch_list_of_one_line(line: Seq<char>)
    requires
        forall|i: int| 0 <= i < line.len() ==> line[i] != '\n',
    ensures
        patch_info(line) matches Some(patch) ==> patch_list(line) == seq![patch],
        patch_info(line) is None ==> patch_list(line).len() == 0,
{
    text::law_text_without_line_feed_is_one_line(line);
    if line.len() > 0 {
        lemma_patches_of_one(line);
    }
}

/// A number in decimal notation holds no white space.
proof fn lemma_number_is_word(number: Seq<char>)
    requires
        text::decimal(number) is Some,
    ensures
        number.len() > 0,
        text::is_word(number),
{
    assert forall|i: int| 0 <= i < number.len() implies !text::is_white_space(number[i]) by {
        if number[0] == '+' {
            let digits = number.skip(1);
            if i > 0 {
                assert(digits[i - 1] == number[i]);
                assert(text::is_digit(digits[i - 1]));
            }
        } else {
            assert(text::is_digit(number[i]));
        }
    }
}

} // verus!
