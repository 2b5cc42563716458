//! The grammar of single questionnaire lines.

use vstd::prelude::*;
use vstd::slice::slice_subrange;

use crate::text::{
    ascii_lower, ascii_lower_char, chars_of, contains_part, contains_text, copied, extend, find,
    find_from, is_ascii_digit, is_ascii_upper, is_whitespace, is_word, lemma_find_from, run_end,
    run_start, seek_char, skip_run, skip_run_back, starts_with, starts_with_text, trim, trim_end_of,
    trim_of, trim_start_of, trimmed, trimmed_end_of, trimmed_of, trimmed_start_of, word_char,
    CharClass,
};

verus! {

/// A line from index `from` on without its comments. A comment is over at the
/// first `-->` behind its `<!--`; one that is not over on the line stays.
pub open spec fn without_comments_from(line: Seq<char>, from: int) -> Seq<char>
    decreases line.len() - from,
    when 0 <= from <= line.len()
    via without_comments_decreases
{
    match find_from(line, from, "<!--"@) {
        Some(open) => match find_from(line, open + 4, "-->"@) {
            Some(close) => line.subrange(from, open) + without_comments_from(line, close + 3),
            None => line.skip(from),
        },
        None => line.skip(from),
    }
}

#[via_fn]
proof fn without_comments_decreases(line: Seq<char>, from: int) {
    reveal_strlit("<!--");
    reveal_strlit("-->");
    lemma_find_from(line, from, "<!--"@);
    match find_from(line, from, "<!--"@) {
        Some(open) => lemma_find_from(line, open + 4, "-->"@),
        None => {},
    }
}

/// A line without its comments.
pub open spec fn without_comments(line: Seq<char>) -> Seq<char> {
    without_comments_from(line, 0)
}

pub fn strip_comments(line: &[char]) -> (kept: Vec<char>)
    ensures
        kept@ == without_comments(line@),
{
    let opening = chars_of("<!--");
    let closing = chars_of("-->");
    proof {
        reveal_strlit("<!--");
        reveal_strlit("-->");
    }
    let mut kept: Vec<char> = Vec::new();
    let mut from: usize = 0;
    let length = line.len();
    loop
        invariant
            from <= line@.len(),
            length == line@.len(),
            opening@ == "<!--"@,
            opening@.len() == 4,
            closing@ == "-->"@,
            closing@.len() == 3,
            kept@ + without_comments_from(line@, from as int) =~= without_comments(line@),
        decreases line@.len() - from,
    {
        proof {
            lemma_find_from(line@, from as int, "<!--"@);
        }
        if let Some(open) = find(line, from, opening.as_slice()) {
            proof {
                lemma_find_from(line@, open + 4, "-->"@);
            }
            if let Some(close) = find(line, open + 4, closing.as_slice()) {
                extend(&mut kept, slice_subrange(line, from, open));
                from = close + 3;
                continue;
            }
        }
        extend(&mut kept, slice_subrange(line, from, line.len()));
        assert(line@.subrange(from as int, line@.len() as int) =~= line@.skip(from as int));
        return kept;
    }
}

/// What the lines before a row leave open.
#[derive(Clone, Copy, Debug, PartialEq, Eq, Structural)]
pub enum Region {
    /// Neither a code fence nor a comment.
    Open,
    /// A code fence, with its marker and its length.
    Fence(char, usize),
    /// A comment that spans lines.
    Comment,
}

/// The code fence that a line opens: up to three spaces, then three or more
/// backticks or tildes. No backtick may follow a row of backticks.
pub open spec fn fence_opened(line: Seq<char>) -> Option<(char, usize)> {
    let at = run_end(line, 0, CharClass::Exactly(' '));
    if at > 3 || at >= line.len() || (line[at] != '`' && line[at] != '~') {
        None
    } else {
        let marker = line[at];
        let end = run_end(line, at, CharClass::Exactly(marker));
        if end - at >= 3 && (marker == '~' || !line.skip(end).contains('`')) {
            Some((marker, (end - at) as usize))
        } else {
            None
        }
    }
}

/// Whether a line ends a code fence: the marker at least as often, and nothing
/// but white space around it.
pub open spec fn fence_closed(line: Seq<char>, marker: char, length: usize) -> bool {
    let rest = trim_start_of(line, CharClass::Whitespace);
    let run = run_end(rest, 0, CharClass::Exactly(marker));
    run >= length && trim(rest.skip(run)).len() == 0
}

/// What a line leaves open, given what stood open before it.
pub open spec fn region_after(region: Region, line: Seq<char>) -> Region {
    match region {
        Region::Fence(marker, length) => if fence_closed(line, marker, length) {
            Region::Open
        } else {
            region
        },
        Region::Comment => if contains_part(line, "-->"@) {
            Region::Open
        } else {
            Region::Comment
        },
        Region::Open => match fence_opened(line) {
            Some((marker, length)) => Region::Fence(marker, length),
            None => if contains_part(line, "<!--"@) {
                Region::Comment
            } else {
                Region::Open
            },
        },
    }
}

/// What the lines before `row` leave open.
pub open spec fn region_before(lines: Seq<Seq<char>>, row: int) -> Region
    decreases row,
{
    if row <= 0 {
        Region::Open
    } else {
        region_after(region_before(lines, row - 1), lines[row - 1])
    }
}

/// Whether a row belongs to a code fence or to a comment that spans lines. The
/// rows that open and close it belong to it.
pub open spec fn is_inactive(lines: Seq<Seq<char>>, row: int) -> bool {
    region_before(lines, row) != Region::Open || region_after(Region::Open, lines[row])
        != Region::Open
}

fn opens_fence(line: &[char]) -> (fence: Option<(char, usize)>)
    ensures
        fence == fence_opened(line@),
{
    let at = skip_run(line, 0, CharClass::Exactly(' '));
    if at > 3 || at >= line.len() || (line[at] != '`' && line[at] != '~') {
        return None;
    }
    let marker: char = line[at];
    let end = skip_run(line, at, CharClass::Exactly(marker));
    if end - at < 3 {
        return None;
    }
    if marker != '~' {
        let tick = seek_char(line, end, '`');
        proof {
            crate::text::lemma_next_char(line@, end as int, '`');
            if tick < line@.len() {
                assert(line@.skip(end as int)[tick - end] == '`');
                assert(line@.skip(end as int).contains('`'));
            } else {
                assert forall|k: int| 0 <= k < line@.skip(end as int).len() implies line@.skip(
                    end as int,
                )[k] != '`' by {
                    assert(line@.skip(end as int)[k] == line@[end + k]);
                }
            }
        }
        if tick < line.len() {
            return None;
        }
    }
    Some((marker, end - at))
}

fn closes_fence(line: &[char], marker: char, length: usize) -> (closes: bool)
    ensures
        closes == fence_closed(line@, marker, length),
{
    let rest = trimmed_start_of(line, CharClass::Whitespace);
    let run = skip_run(rest, 0, CharClass::Exactly(marker));
    let behind = slice_subrange(rest, run, rest.len());
    assert(behind@ =~= rest@.skip(run as int));
    run >= length && trimmed(behind).len() == 0
}

fn step_region(region: Region, line: &[char]) -> (next: Region)
    ensures
        next == region_after(region, line@),
{
    match region {
        Region::Fence(marker, length) => if closes_fence(line, marker, length) {
            Region::Open
        } else {
            region
        },
        Region::Comment => if contains_text(line, "-->") {
            Region::Open
        } else {
            Region::Comment
        },
        Region::Open => match opens_fence(line) {
            Some((marker, length)) => Region::Fence(marker, length),
            None => if contains_text(line, "<!--") {
                Region::Comment
            } else {
                Region::Open
            },
        },
    }
}

/// Marks the rows that belong to a code fence or to a comment that spans
/// lines. They hide headings, options and answers.
pub fn inactive_rows(lines: &Vec<Vec<char>>) -> (inactive: Vec<bool>)
    ensures
        inactive@.len() == lines@.len(),
        forall|row: int|
            0 <= row < lines@.len() ==> #[trigger] inactive@[row] == is_inactive(
                crate::text::spelled(lines@),
                row,
            ),
{
    let ghost rows = crate::text::spelled(lines@);
    let mut inactive: Vec<bool> = Vec::new();
    let mut region = Region::Open;
    let mut row: usize = 0;
    while row < lines.len()
        invariant
            row <= lines@.len(),
            rows == crate::text::spelled(lines@),
            region == region_before(rows, row as int),
            inactive@.len() == row,
            forall|k: int| 0 <= k < row ==> #[trigger] inactive@[k] == is_inactive(rows, k),
        decreases lines@.len() - row,
    {
        let line = lines[row].as_slice();
        let next = step_region(region, line);
        match region {
            Region::Open => match next {
                Region::Open => inactive.push(false),
                _ => inactive.push(true),
            },
            _ => inactive.push(true),
        }
        region = next;
        row += 1;
    }
    inactive
}

/// What stands behind the hashes of a heading line: up to three spaces, one to
/// six hashes, then a blank or the end of the line.
pub open spec fn heading_content(line: Seq<char>) -> Option<Seq<char>> {
    let hashes = run_end(line, 0, CharClass::Exactly(' '));
    let end = run_end(line, hashes, CharClass::Exactly('#'));
    if hashes > 3 || end == hashes || end - hashes > 6 {
        None
    } else {
        let start = run_end(line, end, CharClass::Blank);
        if end < line.len() && start == end {
            None
        } else {
            Some(line.skip(start))
        }
    }
}

/// A heading's content without a closing row of hashes that white space sets
/// apart.
pub open spec fn without_closing_hashes(content: Seq<char>) -> Seq<char> {
    let content = trim_end_of(content, CharClass::Whitespace);
    let hashes = run_start(content, content.len() as int, CharClass::Exactly('#'));
    if hashes < content.len() && hashes > 0 && is_whitespace(content[hashes - 1]) {
        content.take(hashes - 1)
    } else {
        content
    }
}

/// The title of a heading line; `None` for every other line.
pub open spec fn heading_title_of(line: Seq<char>) -> Option<Seq<char>> {
    match heading_content(line) {
        Some(content) => Some(trim(without_closing_hashes(content))),
        None => None,
    }
}

pub fn heading_title(line: &[char]) -> (title: Option<Vec<char>>)
    ensures
        match title {
            Some(chars) => heading_title_of(line@) == Some(chars@),
            None => heading_title_of(line@) is None,
        },
{
    let hashes = skip_run(line, 0, CharClass::Exactly(' '));
    let end = skip_run(line, hashes, CharClass::Exactly('#'));
    if hashes > 3 || end == hashes || end - hashes > 6 {
        return None;
    }
    let start = skip_run(line, end, CharClass::Blank);
    if end < line.len() && start == end {
        return None;
    }
    let content = slice_subrange(line, start, line.len());
    assert(content@ =~= line@.skip(start as int));
    let content = trimmed_end_of(content, CharClass::Whitespace);
    let closing = skip_run_back(content, content.len(), CharClass::Exactly('#'));
    let kept = if closing < content.len() && closing > 0 && CharClass::Whitespace.contains(
        content[closing - 1],
    ) {
        slice_subrange(content, 0, closing - 1)
    } else {
        content
    };
    let title = trimmed(kept);
    Some(copied_all(title))
}

/// A copy of a text.
pub fn copied_all(chars: &[char]) -> (copy: Vec<char>)
    ensures
        copy@ == chars@,
{
    let copy = copied(chars, 0, chars.len());
    assert(copy@ =~= chars@);
    copy
}

/// Whether a character stands for the lower-case letter `letter` where case
/// does not count. The long s counts as an s.
pub open spec fn folds_to(c: char, letter: char) -> bool {
    ascii_lower(c) == letter || (letter == 's' && c == '\u{17F}')
}

/// Whether the letters of `word` stand in `s` at index `at`, in either case.
pub open spec fn folds_at(s: Seq<char>, at: int, word: Seq<char>) -> bool {
    at + word.len() <= s.len() && forall|k: int|
        0 <= k < word.len() ==> folds_to(s[at + k], #[trigger] word[k])
}

fn word_at(chars: &[char], at: usize, word: &str) -> (b: bool)
    requires
        at <= chars@.len(),
    ensures
        b == folds_at(chars@, at as int, word@),
{
    let letters = chars_of(word);
    if chars.len() - at < letters.len() {
        return false;
    }
    let mut i: usize = 0;
    while i < letters.len()
        invariant
            letters@ == word@,
            i <= word@.len(),
            at + word@.len() <= chars.len(),
            forall|k: int| 0 <= k < i ==> folds_to(chars@[at + k], #[trigger] word@[k]),
        decreases word@.len() - i,
    {
        let c: char = chars[at + i];
        let letter: char = letters[i];
        if ascii_lower_char(c) != letter && !(letter == 's' && c == '\u{17F}') {
            assert(!folds_to(chars@[at + i], word@[i as int]));
            return false;
        }
        i += 1;
    }
    true
}

/// Where the number of a heading may begin: behind `q` or `question` and
/// blanks, in either case, or at the start.
pub open spec fn number_start(heading: Seq<char>) -> int {
    if heading.len() > 0 && ascii_lower(heading[0]) == 'q' {
        run_end(
            heading,
            if folds_at(heading, 1, "uestion"@) {
                8
            } else {
                1
            },
            CharClass::Blank,
        )
    } else {
        0
    }
}

/// Where the mark behind a heading's number would stand; `None` without a
/// number.
pub open spec fn number_mark(heading: Seq<char>) -> Option<int> {
    let start = number_start(heading);
    let end = run_end(heading, start, CharClass::Digit);
    if end == start {
        None
    } else {
        Some(run_end(heading, end, CharClass::Blank))
    }
}

pub open spec fn is_number_mark(c: char) -> bool {
    c == '.' || c == ':' || c == ')' || c == '-'
}

/// Whether a heading is a question number and nothing else, such as `Q3:`,
/// `Question 3` or `3.`.
pub open spec fn is_bare_number(heading: Seq<char>) -> bool {
    match number_mark(heading) {
        Some(mark) => {
            let rest = if mark < heading.len() && is_number_mark(heading[mark]) {
                run_end(heading, mark + 1, CharClass::Blank)
            } else {
                mark
            };
            rest >= heading.len()
        },
        None => false,
    }
}

/// Where the text behind a heading's question number begins, such as behind
/// `Q3: ` or `3. `; `None` where there is no number with a mark.
pub open spec fn question_prefix(heading: Seq<char>) -> Option<int> {
    match number_mark(heading) {
        Some(mark) => if mark < heading.len() && is_number_mark(heading[mark]) {
            Some(run_end(heading, mark + 1, CharClass::Blank))
        } else {
            None
        },
        None => None,
    }
}

/// Whether a heading begins with a capital `Q`, digits and the end of the word.
pub open spec fn has_question_id(heading: Seq<char>) -> bool {
    let end = run_end(heading, 1, CharClass::Digit);
    heading.len() > 1 && heading[0] == 'Q' && end > 1 && (end >= heading.len() || !is_word(
        heading[end],
    ))
}

fn find_number_mark(heading: &[char]) -> (mark: Option<usize>)
    ensures
        match mark {
            Some(at) => number_mark(heading@) == Some(at as int) && at <= heading@.len(),
            None => number_mark(heading@) is None,
        },
{
    proof {
        reveal_strlit("uestion");
    }
    let start: usize = if heading.len() > 0 && ascii_lower_char(heading[0]) == 'q' {
        let word: usize = if word_at(heading, 1, "uestion") {
            8
        } else {
            1
        };
        skip_run(heading, word, CharClass::Blank)
    } else {
        0
    };
    let end = skip_run(heading, start, CharClass::Digit);
    if end == start {
        None
    } else {
        Some(skip_run(heading, end, CharClass::Blank))
    }
}

fn number_mark_char(c: char) -> (b: bool)
    ensures
        b == is_number_mark(c),
{
    c == '.' || c == ':' || c == ')' || c == '-'
}

pub fn bare_number(heading: &[char]) -> (b: bool)
    ensures
        b == is_bare_number(heading@),
{
    match find_number_mark(heading) {
        Some(mark) => {
            let rest: usize = if mark < heading.len() && number_mark_char(heading[mark]) {
                skip_run(heading, mark + 1, CharClass::Blank)
            } else {
                mark
            };
            rest >= heading.len()
        },
        None => false,
    }
}

pub fn prefix_end(heading: &[char]) -> (end: Option<usize>)
    ensures
        match end {
            Some(at) => question_prefix(heading@) == Some(at as int) && at <= heading@.len(),
            None => question_prefix(heading@) is None,
        },
{
    match find_number_mark(heading) {
        Some(mark) => if mark < heading.len() && number_mark_char(heading[mark]) {
            Some(skip_run(heading, mark + 1, CharClass::Blank))
        } else {
            None
        },
        None => None,
    }
}

pub fn question_id(heading: &[char]) -> (b: bool)
    ensures
        b == has_question_id(heading@),
{
    if heading.len() <= 1 || heading[0] != 'Q' {
        return false;
    }
    let end = skip_run(heading, 1, CharClass::Digit);
    end > 1 && (end >= heading.len() || !word_char(heading[end]))
}

/// The text of an option, which at least one blank sets apart from what stands
/// before `from`. Of blanks alone the last one is the text.
pub open spec fn option_text(line: Seq<char>, from: int) -> Option<Seq<char>> {
    let start = run_end(line, from, CharClass::Blank);
    if start == from {
        None
    } else if start < line.len() {
        Some(line.skip(start))
    } else if line.len() - from >= 2 {
        Some(line.skip(line.len() - 1))
    } else {
        None
    }
}

/// An option with a letter, such as `A. text` or `B) text`.
pub open spec fn lettered_option(line: Seq<char>) -> Option<(char, Seq<char>)> {
    if line.len() < 2 || !is_ascii_upper(line[0]) || (line[1] != '.' && line[1] != ')') {
        None
    } else {
        match option_text(line, 2) {
            Some(text) => Some((line[0], text)),
            None => None,
        }
    }
}

/// The text of an option in a bullet list.
pub open spec fn bullet_option(line: Seq<char>) -> Option<Seq<char>> {
    let at = run_end(line, 0, CharClass::Blank);
    if at >= line.len() || (line[at] != '-' && line[at] != '*' && line[at] != '+') {
        None
    } else {
        option_text(line, at + 1)
    }
}

fn find_option_text(line: &[char], from: usize) -> (text: Option<&[char]>)
    requires
        from <= line@.len(),
    ensures
        match text {
            Some(chars) => option_text(line@, from as int) == Some(chars@),
            None => option_text(line@, from as int) is None,
        },
{
    let start = skip_run(line, from, CharClass::Blank);
    if start == from {
        None
    } else if start < line.len() {
        let text = slice_subrange(line, start, line.len());
        assert(text@ =~= line@.skip(start as int));
        Some(text)
    } else if line.len() - from >= 2 {
        let text = slice_subrange(line, line.len() - 1, line.len());
        assert(text@ =~= line@.skip(line@.len() - 1));
        Some(text)
    } else {
        None
    }
}

pub fn parse_lettered_option(line: &[char]) -> (option: Option<(char, &[char])>)
    ensures
        match option {
            Some((letter, text)) => lettered_option(line@) == Some((letter, text@)),
            None => lettered_option(line@) is None,
        },
{
    if line.len() < 2 || !('A' <= line[0] && line[0] <= 'Z') || (line[1] != '.' && line[1] != ')') {
        return None;
    }
    match find_option_text(line, 2) {
        Some(text) => Some((line[0], text)),
        None => None,
    }
}

pub fn parse_bullet_option(line: &[char]) -> (option: Option<&[char]>)
    ensures
        match option {
            Some(text) => bullet_option(line@) == Some(text@),
            None => bullet_option(line@) is None,
        },
{
    let at = skip_run(line, 0, CharClass::Blank);
    if at >= line.len() || (line[at] != '-' && line[at] != '*' && line[at] != '+') {
        return None;
    }
    find_option_text(line, at + 1)
}

/// What an answer line holds behind `[Answer]:`.
pub open spec fn answer_text(line: Seq<char>) -> Option<Seq<char>> {
    if starts_with(line, "[Answer]:"@) {
        Some(trim(line.skip("[Answer]:"@.len() as int)))
    } else {
        None
    }
}

pub fn parse_answer_line(line: &[char]) -> (raw: Option<&[char]>)
    ensures
        match raw {
            Some(chars) => answer_text(line@) == Some(chars@),
            None => answer_text(line@) is None,
        },
{
    proof {
        reveal_strlit("[Answer]:");
    }
    if starts_with_text(line, "[Answer]:") {
        let rest = slice_subrange(line, 9, line.len());
        assert(rest@ =~= line@.skip(9));
        Some(trimmed(rest))
    } else {
        None
    }
}

pub open spec fn is_hex_lower(c: char) -> bool {
    is_ascii_digit(c) || 'a' <= c <= 'f'
}

/// A SHA-256 digest as `sha256:` and 64 lower-case hexadecimal digits.
pub open spec fn is_digest(s: Seq<char>) -> bool {
    s.len() == 71 && starts_with(s, "sha256:"@) && forall|k: int|
        7 <= k < 71 ==> is_hex_lower(#[trigger] s[k])
}

/// What an approval fingerprint line holds: a digest or nothing.
pub open spec fn fingerprint_value(line: Seq<char>) -> Option<Option<Seq<char>>> {
    if starts_with(line, "[Approval Fingerprint]:"@) {
        let value = trim_of(
            line.skip("[Approval Fingerprint]:"@.len() as int),
            CharClass::Blank,
        );
        if value.len() == 0 {
            Some(None)
        } else if is_digest(value) {
            Some(Some(value))
        } else {
            None
        }
    } else {
        None
    }
}

fn digest(chars: &[char]) -> (b: bool)
    ensures
        b == is_digest(chars@),
{
    if chars.len() != 71 || !starts_with_text(chars, "sha256:") {
        return false;
    }
    let mut i: usize = 7;
    while i < 71
        invariant
            7 <= i <= 71,
            chars@.len() == 71,
            forall|k: int| 7 <= k < i ==> is_hex_lower(#[trigger] chars@[k]),
        decreases 71 - i,
    {
        let c: char = chars[i];
        if !(('0' <= c && c <= '9') || ('a' <= c && c <= 'f')) {
            assert(!is_hex_lower(chars@[i as int]));
            return false;
        }
        i += 1;
    }
    true
}

pub fn parse_fingerprint(line: &[char]) -> (value: Option<Option<&[char]>>)
    ensures
        match value {
            Some(Some(chars)) => fingerprint_value(line@) == Some(Some(chars@)),
            Some(None) => fingerprint_value(line@) == Some(None::<Seq<char>>),
            None => fingerprint_value(line@) is None,
        },
{
    proof {
        reveal_strlit("[Approval Fingerprint]:");
    }
    if !starts_with_text(line, "[Approval Fingerprint]:") {
        return None;
    }
    let rest = slice_subrange(line, 23, line.len());
    assert(rest@ =~= line@.skip(23));
    let value = trimmed_of(rest, CharClass::Blank);
    if value.len() == 0 {
        Some(None)
    } else if digest(value) {
        Some(Some(value))
    } else {
        None
    }
}

/// A text without the marks of emphasis around it.
pub open spec fn without_emphasis(s: Seq<char>) -> Seq<char> {
    trim(trim_of(s, CharClass::Either('*', '_')))
}

/// A text without the quotes around it.
pub open spec fn without_quotes(s: Seq<char>) -> Seq<char> {
    trim(trim_of(s, CharClass::Either('"', '\'')))
}

pub fn strip_emphasis(chars: &[char]) -> (rest: &[char])
    ensures
        rest@ == without_emphasis(chars@),
{
    trimmed(trimmed_of(chars, CharClass::Either('*', '_')))
}

pub fn strip_quotes(chars: &[char]) -> (rest: &[char])
    ensures
        rest@ == without_quotes(chars@),
{
    trimmed(trimmed_of(chars, CharClass::Either('"', '\'')))
}

/// The capital letter that a token begins with, where the word ends there.
pub open spec fn letter_prefix(token: Seq<char>) -> Option<char> {
    if token.len() > 0 && is_ascii_upper(token[0]) && (token.len() == 1 || !is_word(token[1])) {
        Some(token[0])
    } else {
        None
    }
}

pub fn parse_letter_prefix(token: &[char]) -> (letter: Option<char>)
    ensures
        letter == letter_prefix(token@),
{
    if token.len() > 0 && 'A' <= token[0] && token[0] <= 'Z' && (token.len() == 1 || !word_char(
        token[1],
    )) {
        Some(token[0])
    } else {
        None
    }
}

} // verus!
