//! Text as sequences of characters: scanning, trimming, searching, splitting
//! and building.
//!
//! Parsers in this crate work on character slices. [`chars_of`] takes a string
//! apart once and [`text_of`] builds one again.

use vstd::prelude::*;
use vstd::slice::slice_subrange;

verus! {

/// The characters of a text, where there is one.
pub open spec fn text_model(text: Option<String>) -> Option<Seq<char>> {
    match text {
        Some(text) => Some(text@),
        None => None,
    }
}

/// The characters of each of some texts.
pub open spec fn string_models(texts: Seq<String>) -> Seq<Seq<char>> {
    Seq::new(texts.len(), |i: int| texts[i]@)
}

/// An index as a mathematical one.
pub open spec fn int_index(index: Option<usize>) -> Option<int> {
    match index {
        Some(index) => Some(index as int),
        None => None,
    }
}

/// `String::push` appends one character.
pub assume_specification[ String::push ](s: &mut String, ch: char)
    ensures
        final(s)@ == old(s)@.push(ch),
;

/// The characters of a string, in order.
pub fn chars_of(text: &str) -> (chars: Vec<char>)
    ensures
        chars@ == text@,
{
    let mut chars: Vec<char> = Vec::new();
    for c in it: text.chars()
        invariant
            chars@ == text@.take(it.index()),
            it.seq() == text@,
    {
        chars.push(c);
        assert(text@.take(it.index() + 1) =~= text@.take(it.index()).push(c));
    }
    assert(text@.take(text@.len() as int) =~= text@);
    chars
}

/// The string made of the given characters.
pub fn text_of(chars: &[char]) -> (text: String)
    ensures
        text@ == chars@,
{
    let mut text = String::new();
    let mut i: usize = 0;
    while i < chars.len()
        invariant
            i <= chars.len(),
            text@ == chars@.take(i as int),
        decreases chars.len() - i,
    {
        text.push(chars[i]);
        assert(chars@.take(i + 1) =~= chars@.take(i as int).push(chars@[i as int]));
        i += 1;
    }
    assert(chars@.take(chars@.len() as int) =~= chars@);
    text
}

/// A set of characters that a scanner can skip or trim.
#[derive(Clone, Copy, Debug, PartialEq, Eq, Structural)]
pub enum CharClass {
    /// A space or a tab.
    Blank,
    /// Every character with Unicode's `White_Space` property.
    Whitespace,
    /// A decimal digit of any script.
    Digit,
    /// A decimal digit `0` to `9`.
    AsciiDigit,
    /// The given character.
    Exactly(char),
    /// Either of the two given characters.
    Either(char, char),
}

/// What `regex::Regex::is_match` answers for a pattern and a text; `None` where
/// the pattern does not compile.
pub uninterp spec fn regex_match(pattern: Seq<char>, text: Seq<char>) -> Option<bool>;

/// `regex::Regex::new` and `regex::Regex::is_match`: the answer depends on the
/// pattern and the text alone. What it is for a given pattern is left unsaid.
#[verifier::external_body]
fn regex_is_match(pattern: &str, text: &str) -> (answer: Option<bool>)
    ensures
        answer == regex_match(pattern@, text@),
{
    match regex::Regex::new(pattern) {
        Ok(compiled) => Some(compiled.is_match(text)),
        Err(_) => None,
    }
}

/// What `regex::Regex::captures` finds first for a pattern in a text: what stands
/// before the match, and what the first group of the pattern holds; `None` where
/// the pattern does not compile or matches nowhere.
pub uninterp spec fn regex_first(pattern: Seq<char>, text: Seq<char>) -> Option<
    (Seq<char>, Option<Seq<char>>),
>;

/// `regex::Regex::new` and `regex::Regex::captures`: the result depends on the
/// pattern and the text alone, and the text goes on behind what stands before the
/// match. What is found for a given pattern is left unsaid.
#[verifier::external_body]
pub(crate) fn regex_captures(pattern: &str, text: &str) -> (found: Option<(String, Option<String>)>)
    ensures
        match found {
            Some((before, group)) => regex_first(pattern@, text@) == Some(
                (before@, text_model(group)),
            ) && before@.is_prefix_of(text@),
            None => regex_first(pattern@, text@) is None,
        },
{
    let found = regex::Regex::new(pattern).ok()?.captures(text)?;
    let whole = found.get(0)?;
    let group = found.get(1).map(|group| group.as_str().to_string());
    Some((text[..whole.start()].to_string(), group))
}

/// What `str::to_lowercase` makes of a text.
pub uninterp spec fn unicode_lowercase(text: Seq<char>) -> Seq<char>;

/// `str::to_lowercase`: the result depends on the text alone.
pub assume_specification[ str::to_lowercase ](text: &str) -> (lower: String)
    ensures
        lower@ == unicode_lowercase(text@),
;

pub open spec fn is_ascii_char(c: char) -> bool {
    (c as u32) < 128
}

pub open spec fn is_ascii_digit(c: char) -> bool {
    '0' <= c <= '9'
}

pub open spec fn is_ascii_upper(c: char) -> bool {
    'A' <= c <= 'Z'
}

pub open spec fn is_ascii_lower(c: char) -> bool {
    'a' <= c <= 'z'
}

pub open spec fn is_blank(c: char) -> bool {
    c == ' ' || c == '\t'
}

/// The characters with Unicode's `White_Space` property.
pub open spec fn is_whitespace(c: char) -> bool {
    let n = c as u32;
    ||| 0x9 <= n <= 0xD
    ||| n == 0x20
    ||| n == 0x85
    ||| n == 0xA0
    ||| n == 0x1680
    ||| 0x2000 <= n <= 0x200A
    ||| n == 0x2028
    ||| n == 0x2029
    ||| n == 0x202F
    ||| n == 0x205F
    ||| n == 0x3000
}

/// A decimal digit: `0` to `9` in ASCII, the class `\d` of `regex` elsewhere.
pub open spec fn is_digit(c: char) -> bool {
    if is_ascii_char(c) {
        is_ascii_digit(c)
    } else {
        regex_match("^\\d$"@, seq![c]) == Some(true)
    }
}

/// A word character: a letter, a digit or `_` in ASCII, the class `\w` of
/// `regex` elsewhere.
pub open spec fn is_word(c: char) -> bool {
    if is_ascii_char(c) {
        is_ascii_digit(c) || is_ascii_upper(c) || is_ascii_lower(c) || c == '_'
    } else {
        regex_match("^\\w$"@, seq![c]) == Some(true)
    }
}

impl CharClass {
    pub open spec fn has(self, c: char) -> bool {
        match self {
            CharClass::Blank => is_blank(c),
            CharClass::Whitespace => is_whitespace(c),
            CharClass::Digit => is_digit(c),
            CharClass::AsciiDigit => is_ascii_digit(c),
            CharClass::Exactly(a) => c == a,
            CharClass::Either(a, b) => c == a || c == b,
        }
    }

    pub fn contains(&self, c: char) -> (b: bool)
        ensures
            b == self.has(c),
    {
        match *self {
            CharClass::Blank => c == ' ' || c == '\t',
            CharClass::Whitespace => whitespace_char(c),
            CharClass::Digit => digit_char(c),
            CharClass::AsciiDigit => '0' <= c && c <= '9',
            CharClass::Exactly(a) => c == a,
            CharClass::Either(a, b) => c == a || c == b,
        }
    }
}

pub fn whitespace_char(c: char) -> (b: bool)
    ensures
        b == is_whitespace(c),
{
    let n: u32 = c as u32;
    (0x9 <= n && n <= 0xD) || n == 0x20 || n == 0x85 || n == 0xA0 || n == 0x1680 || (0x2000 <= n
        && n <= 0x200A) || n == 0x2028 || n == 0x2029 || n == 0x202F || n == 0x205F || n == 0x3000
}

pub fn digit_char(c: char) -> (b: bool)
    ensures
        b == is_digit(c),
{
    if (c as u32) < 128 {
        '0' <= c && c <= '9'
    } else {
        matches_class("^\\d$", c)
    }
}

pub fn word_char(c: char) -> (b: bool)
    ensures
        b == is_word(c),
{
    if (c as u32) < 128 {
        ('0' <= c && c <= '9') || ('A' <= c && c <= 'Z') || ('a' <= c && c <= 'z') || c == '_'
    } else {
        matches_class("^\\w$", c)
    }
}

fn matches_class(pattern: &str, c: char) -> (b: bool)
    ensures
        b == (regex_match(pattern@, seq![c]) == Some(true)),
{
    let mut text = String::new();
    text.push(c);
    assert(text@ =~= seq![c]);
    match regex_is_match(pattern, text.as_str()) {
        Some(answer) => answer,
        None => false,
    }
}

/// The lower-case form of an ASCII letter; every other character is itself.
pub open spec fn ascii_lower(c: char) -> char {
    if is_ascii_upper(c) {
        ((c as u32) + 32) as char
    } else {
        c
    }
}

pub open spec fn all_ascii(s: Seq<char>) -> bool {
    forall|i: int| 0 <= i < s.len() ==> is_ascii_char(#[trigger] s[i])
}

/// The lower-case form of a text.
pub open spec fn lowercase(s: Seq<char>) -> Seq<char> {
    if all_ascii(s) {
        s.map_values(|c: char| ascii_lower(c))
    } else {
        unicode_lowercase(s)
    }
}

pub fn ascii_lower_char(c: char) -> (lower: char)
    ensures
        lower == ascii_lower(c),
{
    if 'A' <= c && c <= 'Z' {
        ((c as u8) + 32) as char
    } else {
        c
    }
}

/// A copy of the text in lower case.
pub fn lowercased(chars: &[char]) -> (lower: Vec<char>)
    ensures
        lower@ == lowercase(chars@),
{
    let mut lower: Vec<char> = Vec::new();
    let mut i: usize = 0;
    while i < chars.len()
        invariant
            i <= chars.len(),
            lower@.len() == i,
            forall|k: int| 0 <= k < i ==> is_ascii_char(#[trigger] chars@[k]),
            forall|k: int| 0 <= k < i ==> #[trigger] lower@[k] == ascii_lower(chars@[k]),
        decreases chars.len() - i,
    {
        let c: char = chars[i];
        if (c as u32) >= 128 {
            assert(!is_ascii_char(chars@[i as int]));
            let text = text_of(chars);
            let full = text.as_str().to_lowercase();
            return chars_of(full.as_str());
        }
        lower.push(ascii_lower_char(c));
        i += 1;
    }
    assert(lower@ =~= chars@.map_values(|c: char| ascii_lower(c)));
    lower
}

/// The first index from `from` on at which the run of characters of a class
/// that starts at `from` is over.
pub open spec fn run_end(s: Seq<char>, from: int, class: CharClass) -> int
    decreases s.len() - from,
{
    if 0 <= from < s.len() && class.has(s[from]) {
        run_end(s, from + 1, class)
    } else {
        from
    }
}

/// Where the run of characters of a class that ends before `to` begins.
pub open spec fn run_start(s: Seq<char>, to: int, class: CharClass) -> int
    decreases to,
{
    if 0 < to <= s.len() && class.has(s[to - 1]) {
        run_start(s, to - 1, class)
    } else {
        to
    }
}

pub proof fn lemma_run_end(s: Seq<char>, from: int, class: CharClass)
    requires
        0 <= from <= s.len(),
    ensures
        from <= run_end(s, from, class) <= s.len(),
        forall|k: int| from <= k < run_end(s, from, class) ==> class.has(#[trigger] s[k]),
        run_end(s, from, class) < s.len() ==> !class.has(s[run_end(s, from, class)]),
    decreases s.len() - from,
{
    if from < s.len() && class.has(s[from]) {
        lemma_run_end(s, from + 1, class);
    }
}

/// A run is known by its bounds.
pub proof fn lemma_run_end_is(s: Seq<char>, from: int, class: CharClass, end: int)
    requires
        0 <= from <= end <= s.len(),
        forall|k: int| from <= k < end ==> class.has(#[trigger] s[k]),
        end < s.len() ==> !class.has(s[end]),
    ensures
        run_end(s, from, class) == end,
    decreases end - from,
{
    if from < end {
        assert(class.has(s[from]));
        lemma_run_end_is(s, from + 1, class, end);
    }
}

pub proof fn lemma_run_start(s: Seq<char>, to: int, class: CharClass)
    requires
        0 <= to <= s.len(),
    ensures
        0 <= run_start(s, to, class) <= to,
        forall|k: int| run_start(s, to, class) <= k < to ==> class.has(#[trigger] s[k]),
        run_start(s, to, class) > 0 ==> !class.has(s[run_start(s, to, class) - 1]),
    decreases to,
{
    if 0 < to && class.has(s[to - 1]) {
        lemma_run_start(s, to - 1, class);
    }
}

pub fn skip_run(chars: &[char], from: usize, class: CharClass) -> (end: usize)
    requires
        from <= chars@.len(),
    ensures
        end == run_end(chars@, from as int, class),
        from <= end <= chars@.len(),
{
    let mut end: usize = from;
    while end < chars.len() && class.contains(chars[end])
        invariant
            from <= end <= chars@.len(),
            run_end(chars@, from as int, class) == run_end(chars@, end as int, class),
        decreases chars@.len() - end,
    {
        end += 1;
    }
    end
}

pub fn skip_run_back(chars: &[char], to: usize, class: CharClass) -> (start: usize)
    requires
        to <= chars@.len(),
    ensures
        start == run_start(chars@, to as int, class),
        start <= to,
{
    let mut start: usize = to;
    while start > 0 && class.contains(chars[start - 1])
        invariant
            start <= to <= chars@.len(),
            run_start(chars@, to as int, class) == run_start(chars@, start as int, class),
        decreases start,
    {
        start -= 1;
    }
    start
}

/// A text without the characters of a class at its beginning.
pub open spec fn trim_start_of(s: Seq<char>, class: CharClass) -> Seq<char> {
    s.skip(run_end(s, 0, class))
}

/// A text without the characters of a class at its end.
pub open spec fn trim_end_of(s: Seq<char>, class: CharClass) -> Seq<char> {
    s.take(run_start(s, s.len() as int, class))
}

/// A text without the characters of a class at either end.
pub open spec fn trim_of(s: Seq<char>, class: CharClass) -> Seq<char> {
    trim_start_of(trim_end_of(s, class), class)
}

/// A text without white space at either end.
pub open spec fn trim(s: Seq<char>) -> Seq<char> {
    trim_of(s, CharClass::Whitespace)
}

pub fn trimmed_start_of(chars: &[char], class: CharClass) -> (rest: &[char])
    ensures
        rest@ == trim_start_of(chars@, class),
{
    let start = skip_run(chars, 0, class);
    slice_subrange(chars, start, chars.len())
}

pub fn trimmed_end_of(chars: &[char], class: CharClass) -> (rest: &[char])
    ensures
        rest@ == trim_end_of(chars@, class),
{
    let end = skip_run_back(chars, chars.len(), class);
    slice_subrange(chars, 0, end)
}

pub fn trimmed_of(chars: &[char], class: CharClass) -> (rest: &[char])
    ensures
        rest@ == trim_of(chars@, class),
{
    trimmed_start_of(trimmed_end_of(chars, class), class)
}

pub fn trimmed(chars: &[char]) -> (rest: &[char])
    ensures
        rest@ == trim(chars@),
{
    trimmed_of(chars, CharClass::Whitespace)
}

/// Whether `part` stands in `s` at index `at`.
pub open spec fn occurs_at(s: Seq<char>, at: int, part: Seq<char>) -> bool {
    0 <= at && at + part.len() <= s.len() && s.subrange(at, at + part.len()) == part
}

pub open spec fn starts_with(s: Seq<char>, part: Seq<char>) -> bool {
    occurs_at(s, 0, part)
}

pub open spec fn ends_with(s: Seq<char>, part: Seq<char>) -> bool {
    occurs_at(s, s.len() - part.len(), part)
}

/// The first index from `from` on at which `part` stands in `s`.
pub open spec fn find_from(s: Seq<char>, from: int, part: Seq<char>) -> Option<int>
    decreases s.len() + 1 - from,
{
    if from < 0 || from + part.len() > s.len() {
        None
    } else if occurs_at(s, from, part) {
        Some(from)
    } else {
        find_from(s, from + 1, part)
    }
}

pub open spec fn contains_part(s: Seq<char>, part: Seq<char>) -> bool {
    find_from(s, 0, part) is Some
}

pub proof fn lemma_find_from(s: Seq<char>, from: int, part: Seq<char>)
    requires
        0 <= from,
    ensures
        match find_from(s, from, part) {
            Some(at) => from <= at && occurs_at(s, at, part) && forall|k: int|
                from <= k < at ==> !#[trigger] occurs_at(s, k, part),
            None => forall|k: int| from <= k ==> !#[trigger] occurs_at(s, k, part),
        },
    decreases s.len() + 1 - from,
{
    if from + part.len() <= s.len() && !occurs_at(s, from, part) {
        lemma_find_from(s, from + 1, part);
    }
}

pub fn matches_at(chars: &[char], at: usize, part: &[char]) -> (b: bool)
    requires
        at <= chars@.len(),
    ensures
        b == occurs_at(chars@, at as int, part@),
{
    if chars.len() - at < part.len() {
        return false;
    }
    let mut i: usize = 0;
    while i < part.len()
        invariant
            i <= part@.len(),
            at + part@.len() <= chars.len(),
            forall|k: int| 0 <= k < i ==> chars@[at + k] == #[trigger] part@[k],
        decreases part@.len() - i,
    {
        if chars[at + i] != part[i] {
            assert(chars@.subrange(at as int, at + part@.len())[i as int] == chars@[at + i]);
            return false;
        }
        i += 1;
    }
    assert(chars@.subrange(at as int, at + part@.len()) =~= part@);
    true
}

pub fn find(chars: &[char], from: usize, part: &[char]) -> (found: Option<usize>)
    requires
        from <= chars@.len(),
    ensures
        match found {
            Some(at) => find_from(chars@, from as int, part@) == Some(at as int) && at
                + part@.len() <= chars@.len(),
            None => find_from(chars@, from as int, part@) is None,
        },
{
    let mut at: usize = from;
    while at <= chars.len() && chars.len() - at >= part.len()
        invariant
            from <= at <= chars@.len() + 1,
            find_from(chars@, from as int, part@) == find_from(chars@, at as int, part@),
        decreases chars@.len() + 1 - at,
    {
        if matches_at(chars, at, part) {
            return Some(at);
        }
        if at == chars.len() {
            assert(find_from(chars@, at + 1, part@) is None);
            return None;
        }
        at += 1;
    }
    None
}

/// Whether the characters spell the given text.
pub fn is_text(chars: &[char], text: &str) -> (b: bool)
    ensures
        b == (chars@ == text@),
{
    let expected = chars_of(text);
    if chars.len() != expected.len() {
        return false;
    }
    let b = matches_at(chars, 0, expected.as_slice());
    assert(chars@.subrange(0, chars@.len() as int) =~= chars@);
    b
}

pub fn starts_with_text(chars: &[char], text: &str) -> (b: bool)
    ensures
        b == starts_with(chars@, text@),
{
    let part = chars_of(text);
    matches_at(chars, 0, part.as_slice())
}

pub fn ends_with_text(chars: &[char], text: &str) -> (b: bool)
    ensures
        b == ends_with(chars@, text@),
{
    let part = chars_of(text);
    if part.len() > chars.len() {
        return false;
    }
    matches_at(chars, chars.len() - part.len(), part.as_slice())
}

pub fn contains_text(chars: &[char], text: &str) -> (b: bool)
    ensures
        b == contains_part(chars@, text@),
{
    let part = chars_of(text);
    find(chars, 0, part.as_slice()).is_some()
}

/// Whether two strings spell the same.
pub fn same_text(a: &str, b: &str) -> (same: bool)
    ensures
        same == (a@ == b@),
{
    let chars = chars_of(a);
    is_text(chars.as_slice(), b)
}

/// The first index from `from` on that holds `c`, or the end of the text.
pub open spec fn next_char(s: Seq<char>, from: int, c: char) -> int
    decreases s.len() - from,
{
    if 0 <= from < s.len() && s[from] != c {
        next_char(s, from + 1, c)
    } else {
        from
    }
}

pub proof fn lemma_next_char(s: Seq<char>, from: int, c: char)
    requires
        0 <= from <= s.len(),
    ensures
        from <= next_char(s, from, c) <= s.len(),
        forall|k: int| from <= k < next_char(s, from, c) ==> #[trigger] s[k] != c,
        next_char(s, from, c) < s.len() ==> s[next_char(s, from, c)] == c,
    decreases s.len() - from,
{
    if from < s.len() && s[from] != c {
        lemma_next_char(s, from + 1, c);
    }
}

pub proof fn lemma_next_char_is(s: Seq<char>, from: int, c: char, at: int)
    requires
        0 <= from <= at <= s.len(),
        forall|k: int| from <= k < at ==> #[trigger] s[k] != c,
        at < s.len() ==> s[at] == c,
    ensures
        next_char(s, from, c) == at,
    decreases at - from,
{
    if from < at {
        assert(s[from] != c);
        lemma_next_char_is(s, from + 1, c, at);
    }
}

pub fn seek_char(chars: &[char], from: usize, c: char) -> (at: usize)
    requires
        from <= chars@.len(),
    ensures
        at == next_char(chars@, from as int, c),
        from <= at <= chars@.len(),
        at < chars@.len() ==> chars@[at as int] == c,
{
    let mut at: usize = from;
    while at < chars.len() && chars[at] != c
        invariant
            from <= at <= chars@.len(),
            next_char(chars@, from as int, c) == next_char(chars@, at as int, c),
        decreases chars@.len() - at,
    {
        at += 1;
    }
    at
}

/// A line without the carriage return before its line feed.
pub open spec fn without_return(line: Seq<char>) -> Seq<char> {
    if line.len() > 0 && line.last() == '\r' {
        line.drop_last()
    } else {
        line
    }
}

/// The lines of a text from index `from` on. A line ends in `\n` or `\r\n`;
/// the last one may end without either.
pub open spec fn lines_from(s: Seq<char>, from: int) -> Seq<Seq<char>>
    decreases s.len() - from,
    when 0 <= from
    via lines_from_decreases
{
    let end = next_char(s, from, '\n');
    if from >= s.len() {
        seq![]
    } else if end >= s.len() {
        seq![s.skip(from)]
    } else {
        seq![without_return(s.subrange(from, end))] + lines_from(s, end + 1)
    }
}

#[via_fn]
proof fn lines_from_decreases(s: Seq<char>, from: int) {
    if from < s.len() {
        lemma_next_char(s, from, '\n');
    }
}

/// The lines of a text.
pub open spec fn lines_of(s: Seq<char>) -> Seq<Seq<char>> {
    lines_from(s, 0)
}

/// What the elements of a list of texts spell.
pub open spec fn spelled(texts: Seq<Vec<char>>) -> Seq<Seq<char>> {
    Seq::new(texts.len(), |i: int| texts[i]@)
}

/// A copy of part of a text.
pub fn copied(chars: &[char], from: usize, to: usize) -> (part: Vec<char>)
    requires
        from <= to <= chars@.len(),
    ensures
        part@ == chars@.subrange(from as int, to as int),
{
    let mut part: Vec<char> = Vec::new();
    let mut i: usize = from;
    while i < to
        invariant
            from <= i <= to <= chars@.len(),
            part@ == chars@.subrange(from as int, i as int),
        decreases to - i,
    {
        part.push(chars[i]);
        assert(chars@.subrange(from as int, i + 1) =~= chars@.subrange(
            from as int,
            i as int,
        ).push(chars@[i as int]));
        i += 1;
    }
    part
}

pub fn lines(chars: &[char]) -> (lines: Vec<Vec<char>>)
    ensures
        spelled(lines@) == lines_of(chars@),
{
    let mut lines: Vec<Vec<char>> = Vec::new();
    let mut from: usize = 0;
    while from < chars.len()
        invariant
            from <= chars@.len(),
            spelled(lines@) + lines_from(chars@, from as int) =~= lines_of(chars@),
        decreases chars@.len() - from,
    {
        let ghost before = spelled(lines@);
        let end = seek_char(chars, from, '\n');
        let ghost line;
        if end == chars.len() {
            proof {
                line = chars@.skip(from as int);
            }
            lines.push(copied(chars, from, end));
            from = end;
        } else {
            proof {
                line = without_return(chars@.subrange(from as int, end as int));
            }
            if end > from && chars[end - 1] == '\r' {
                assert(line =~= chars@.subrange(from as int, end - 1));
                lines.push(copied(chars, from, end - 1));
            } else {
                lines.push(copied(chars, from, end));
            }
            from = end + 1;
        }
        assert(spelled(lines@) =~= before.push(line));
    }
    assert(lines_from(chars@, from as int) =~= seq![]);
    lines
}

/// The pieces of a text from index `from` on, as `separator` parts them.
pub open spec fn pieces_from(s: Seq<char>, from: int, separator: char) -> Seq<Seq<char>>
    decreases s.len() - from,
    when 0 <= from <= s.len()
    via pieces_from_decreases
{
    let end = next_char(s, from, separator);
    if end >= s.len() {
        seq![s.skip(from)]
    } else {
        seq![s.subrange(from, end)] + pieces_from(s, end + 1, separator)
    }
}

#[via_fn]
proof fn pieces_from_decreases(s: Seq<char>, from: int, separator: char) {
    lemma_next_char(s, from, separator);
}

/// The pieces of a text that `separator` parts. There is always at least one.
pub open spec fn pieces_of(s: Seq<char>, separator: char) -> Seq<Seq<char>> {
    pieces_from(s, 0, separator)
}

pub fn pieces(chars: &[char], separator: char) -> (pieces: Vec<Vec<char>>)
    ensures
        spelled(pieces@) == pieces_of(chars@, separator),
{
    let mut pieces: Vec<Vec<char>> = Vec::new();
    let mut from: usize = 0;
    loop
        invariant
            from <= chars@.len(),
            spelled(pieces@) + pieces_from(chars@, from as int, separator) =~= pieces_of(
                chars@,
                separator,
            ),
        decreases chars@.len() - from,
    {
        let ghost before = spelled(pieces@);
        let end = seek_char(chars, from, separator);
        let piece = copied(chars, from, end);
        let ghost view = piece@;
        pieces.push(piece);
        assert(spelled(pieces@) =~= before.push(view));
        if end == chars.len() {
            assert(chars@.subrange(from as int, end as int) =~= chars@.skip(from as int));
            return pieces;
        }
        from = end + 1;
    }
}

/// Texts put together with a separator between each two of them.
pub open spec fn joined(texts: Seq<Seq<char>>, separator: Seq<char>) -> Seq<char>
    decreases texts.len(),
{
    if texts.len() == 0 {
        seq![]
    } else if texts.len() == 1 {
        texts[0]
    } else {
        joined(texts.drop_last(), separator) + separator + texts.last()
    }
}

pub fn extend(chars: &mut Vec<char>, part: &[char])
    ensures
        final(chars)@ == old(chars)@ + part@,
{
    let mut i: usize = 0;
    while i < part.len()
        invariant
            i <= part@.len(),
            chars@ == old(chars)@ + part@.take(i as int),
        decreases part@.len() - i,
    {
        chars.push(part[i]);
        assert(part@.take(i + 1) =~= part@.take(i as int).push(part@[i as int]));
        i += 1;
    }
    assert(part@.take(part@.len() as int) =~= part@);
}

pub fn extend_text(chars: &mut Vec<char>, part: &str)
    ensures
        final(chars)@ == old(chars)@ + part@,
{
    let part = chars_of(part);
    extend(chars, part.as_slice());
}

pub fn join(texts: &Vec<Vec<char>>, separator: &str) -> (chars: Vec<char>)
    ensures
        chars@ == joined(spelled(texts@), separator@),
{
    let mut chars: Vec<char> = Vec::new();
    let mut i: usize = 0;
    while i < texts.len()
        invariant
            i <= texts@.len(),
            chars@ == joined(spelled(texts@).take(i as int), separator@),
        decreases texts@.len() - i,
    {
        let ghost all = spelled(texts@);
        assert(all.take(i + 1).drop_last() =~= all.take(i as int));
        if i > 0 {
            extend_text(&mut chars, separator);
        }
        extend(&mut chars, texts[i].as_slice());
        assert(chars@ =~= joined(all.take(i + 1), separator@));
        i += 1;
    }
    assert(spelled(texts@).take(texts@.len() as int) =~= spelled(texts@));
    chars
}

/// The decimal numeral of a number.
pub open spec fn decimal(n: nat) -> Seq<char>
    decreases n,
{
    if n < 10 {
        seq![digit_of(n)]
    } else {
        decimal(n / 10).push(digit_of(n % 10))
    }
}

/// The digit for a number below ten.
pub open spec fn digit_of(n: nat) -> char {
    (n + 48) as char
}

/// The number below ten that a digit stands for.
pub open spec fn digit_value(c: char) -> int {
    (c as u32) - 48
}

pub open spec fn all_digits(s: Seq<char>) -> bool {
    forall|i: int| 0 <= i < s.len() ==> is_ascii_digit(#[trigger] s[i])
}

/// The number that a row of decimal digits stands for.
pub open spec fn numeral_value(s: Seq<char>) -> int
    decreases s.len(),
{
    if s.len() == 0 {
        0
    } else {
        numeral_value(s.drop_last()) * 10 + digit_value(s.last())
    }
}

/// The number in a text that holds decimal digits, with an optional `+` before
/// them, and that fits in 64 bits.
pub open spec fn parse_number(s: Seq<char>) -> Option<u64> {
    let digits = if s.len() > 0 && s[0] == '+' {
        s.skip(1)
    } else {
        s
    };
    if digits.len() > 0 && all_digits(digits) && numeral_value(digits) <= u64::MAX {
        Some(numeral_value(digits) as u64)
    } else {
        None
    }
}

pub proof fn lemma_numeral_prefix(s: Seq<char>, n: int)
    requires
        0 <= n <= s.len(),
        all_digits(s),
    ensures
        0 <= numeral_value(s.take(n)) <= numeral_value(s),
    decreases s.len(),
{
    if n == s.len() {
        assert(s.take(n) =~= s);
        if n > 0 {
            assert(all_digits(s.drop_last()));
            assert(is_ascii_digit(s[n - 1]));
            lemma_numeral_prefix(s.drop_last(), n - 1);
        }
    } else {
        assert(s.drop_last().take(n) =~= s.take(n));
        assert(all_digits(s.drop_last()));
        assert(is_ascii_digit(s[s.len() - 1]));
        lemma_numeral_prefix(s.drop_last(), n);
    }
}

/// A number read back from its numeral is the number.
pub proof fn lemma_decimal_value(n: nat)
    ensures
        decimal(n).len() > 0,
        all_digits(decimal(n)),
        numeral_value(decimal(n)) == n,
    decreases n,
{
    reveal_with_fuel(numeral_value, 2);
    if n < 10 {
        assert(decimal(n).drop_last() =~= seq![]);
        assert(digit_value(digit_of(n)) == n);
    } else {
        lemma_decimal_value(n / 10);
        assert(decimal(n).drop_last() =~= decimal(n / 10));
        assert(digit_value(digit_of(n % 10)) == n % 10);
    }
}

#[verifier::loop_isolation(false)]
pub fn number_in(chars: &[char]) -> (n: Option<u64>)
    ensures
        n == parse_number(chars@),
{
    let start: usize = if chars.len() > 0 && chars[0] == '+' {
        1
    } else {
        0
    };
    let digits = slice_subrange(chars, start, chars.len());
    assert(start == 1 ==> digits@ =~= chars@.skip(1));
    assert(start == 0 ==> digits@ =~= chars@);
    if digits.len() == 0 {
        return None;
    }
    let mut i: usize = 0;
    while i < digits.len()
        invariant
            i <= digits@.len(),
            forall|k: int| 0 <= k < i ==> is_ascii_digit(#[trigger] digits@[k]),
        decreases digits@.len() - i,
    {
        if !('0' <= digits[i] && digits[i] <= '9') {
            assert(!is_ascii_digit(digits@[i as int]));
            return None;
        }
        i += 1;
    }
    let mut n: u64 = 0;
    i = 0;
    assert(digits@.take(0) =~= seq![]);
    while i < digits.len()
        invariant
            i <= digits@.len(),
            all_digits(digits@),
            n == numeral_value(digits@.take(i as int)),
        decreases digits@.len() - i,
    {
        let c: char = digits[i];
        proof {
            assert(is_ascii_digit(digits@[i as int]));
            assert(digits@.take(i + 1).drop_last() =~= digits@.take(i as int));
            lemma_numeral_prefix(digits@, i + 1);
        }
        let d: u64 = (c as u64) - 48;
        match n.checked_mul(10) {
            Some(tens) => match tens.checked_add(d) {
                Some(next) => {
                    n = next;
                },
                None => {
                    return None;
                },
            },
            None => {
                return None;
            },
        }
        i += 1;
    }
    assert(digits@.take(digits@.len() as int) =~= digits@);
    Some(n)
}

pub fn decimal_chars(n: u64) -> (chars: Vec<char>)
    ensures
        chars@ == decimal(n as nat),
    decreases n,
{
    let mut chars = if n < 10 {
        Vec::new()
    } else {
        decimal_chars(n / 10)
    };
    let digit: u8 = (n % 10) as u8;
    chars.push((digit + 48) as char);
    assert(chars@ =~= decimal(n as nat));
    chars
}

/// Blanks, tabs and line breaks are white space; letters, digits and marks of ASCII
/// are not.
pub proof fn law_white_space(c: char)
    ensures
        is_ascii_char(c) ==> (is_whitespace(c) <==> c == ' ' || c == '\t' || c == '\n' || c == '\r'
            || c == '\u{B}' || c == '\u{C}'),
        is_whitespace('\u{A0}') && is_whitespace('\u{3000}') && is_whitespace('\u{2003}'),
        !is_whitespace('\u{200B}'),
{
}

/// The letters of ASCII in lower case.
pub proof fn law_lower_case(s: Seq<char>, i: int)
    requires
        all_ascii(s),
        0 <= i < s.len(),
    ensures
        lowercase(s).len() == s.len(),
        'A' <= s[i] <= 'Z' ==> lowercase(s)[i] as u32 == s[i] as u32 + ('a' as u32 - 'A' as u32),
        !('A' <= s[i] <= 'Z') ==> lowercase(s)[i] == s[i],
{
}

/// A line break parts a text: the line before it, without a carriage return, comes
/// first, and then the lines behind it. A break at the end begins no line.
pub proof fn law_lines(line: Seq<char>, rest: Seq<char>)
    requires
        forall|k: int| 0 <= k < line.len() ==> #[trigger] line[k] != '\n',
        line.len() > 0 ==> line.last() != '\r',
    ensures
        lines_of(line + seq!['\n'] + rest) == seq![line] + lines_of(rest),
        lines_of(line + seq!['\r', '\n'] + rest) == seq![line] + lines_of(rest),
        line.len() > 0 ==> lines_of(line) == seq![line],
        lines_of(Seq::<char>::empty()) == Seq::<Seq<char>>::empty(),
{
    let n = line.len() as int;
    let whole = line + seq!['\n'] + rest;
    assert forall|k: int| 0 <= k < n implies #[trigger] whole[k] != '\n' by {
        assert(whole[k] == line[k]);
    }
    assert(whole[n] == '\n');
    lemma_next_char_is(whole, 0, '\n', n);
    assert(whole.subrange(0, n) =~= line);
    lemma_lines_behind(line + seq!['\n'], rest, 0);
    let returned = line + seq!['\r', '\n'] + rest;
    assert forall|k: int| 0 <= k < n + 1 implies #[trigger] returned[k] != '\n' by {
        if k < n {
            assert(returned[k] == line[k]);
        }
    }
    assert(returned[n + 1] == '\n');
    lemma_next_char_is(returned, 0, '\n', n + 1);
    assert(returned.subrange(0, n + 1) =~= line.push('\r'));
    assert(line.push('\r').drop_last() =~= line);
    lemma_lines_behind(line + seq!['\r', '\n'], rest, 0);
    assert(lines_of(whole) =~= seq![line] + lines_of(rest));
    assert(lines_of(returned) =~= seq![line] + lines_of(rest));
    if n > 0 {
        lemma_next_char_is(line, 0, '\n', n);
        assert(line.skip(0) =~= line);
    }
}

proof fn lemma_next_behind(front: Seq<char>, rest: Seq<char>, from: int, c: char)
    requires
        0 <= from <= rest.len(),
    ensures
        next_char(front + rest, front.len() + from, c) == front.len() + next_char(rest, from, c),
    decreases rest.len() - from,
{
    if from < rest.len() {
        assert((front + rest)[front.len() + from] == rest[from]);
        if rest[from] != c {
            lemma_next_behind(front, rest, from + 1, c);
        }
    }
}

proof fn lemma_lines_behind(front: Seq<char>, rest: Seq<char>, from: int)
    requires
        0 <= from,
    ensures
        lines_from(front + rest, front.len() + from) == lines_from(rest, from),
    decreases rest.len() - from,
{
    let whole = front + rest;
    let n = front.len() as int;
    if from < rest.len() {
        lemma_next_behind(front, rest, from, '\n');
        lemma_next_char(rest, from, '\n');
        let end = next_char(rest, from, '\n');
        if end >= rest.len() {
            assert(whole.skip(n + from) =~= rest.skip(from));
        } else {
            assert(whole.subrange(n + from, n + end) =~= rest.subrange(from, end));
            lemma_lines_behind(front, rest, end + 1);
        }
    }
}

proof fn lemma_pieces_join(s: Seq<char>, from: int, separator: char)
    requires
        0 <= from <= s.len(),
    ensures
        pieces_from(s, from, separator).len() > 0,
        joined(pieces_from(s, from, separator), seq![separator]) == s.skip(from),
        forall|i: int|
            0 <= i < pieces_from(s, from, separator).len() ==> !(#[trigger] pieces_from(
                s,
                from,
                separator,
            )[i]).contains(separator),
    decreases s.len() - from,
{
    lemma_next_char(s, from, separator);
    let end = next_char(s, from, separator);
    let pieces = pieces_from(s, from, separator);
    if end >= s.len() {
        assert forall|i: int| 0 <= i < pieces.len() implies !(#[trigger] pieces[i]).contains(
            separator,
        ) by {
            let piece = pieces[i];
            if piece.contains(separator) {
                let k = choose|k: int| 0 <= k < piece.len() && piece[k] == separator;
                assert(s[from + k] == separator);
            }
        }
    } else {
        let first = s.subrange(from, end);
        let rest = pieces_from(s, end + 1, separator);
        lemma_pieces_join(s, end + 1, separator);
        lemma_join_first(first, rest, seq![separator]);
        assert(first + seq![separator] + s.skip(end + 1) =~= s.skip(from));
        assert forall|i: int| 0 <= i < pieces.len() implies !(#[trigger] pieces[i]).contains(
            separator,
        ) by {
            if i == 0 {
                if first.contains(separator) {
                    let k = choose|k: int| 0 <= k < first.len() && first[k] == separator;
                    assert(s[from + k] == separator);
                }
            } else {
                assert(pieces[i] == rest[i - 1]);
            }
        }
    }
}

proof fn lemma_join_first(first: Seq<char>, rest: Seq<Seq<char>>, separator: Seq<char>)
    requires
        rest.len() > 0,
    ensures
        joined(seq![first] + rest, separator) == first + separator + joined(rest, separator),
    decreases rest.len(),
{
    let all = seq![first] + rest;
    assert(all.drop_last() =~= seq![first] + rest.drop_last());
    assert(all.last() == rest.last());
    if rest.len() == 1 {
        assert(all.drop_last() =~= seq![first]);
        assert(joined(seq![first], separator) == first);
        assert(joined(rest, separator) == rest.last());
    } else {
        lemma_join_first(first, rest.drop_last(), separator);
        assert(joined(all, separator) == joined(all.drop_last(), separator) + separator
            + all.last());
    }
    assert(joined(all, separator) =~= first + separator + joined(rest, separator));
}

/// The pieces of a text, with what parts them put between them again, are the text,
/// and no piece holds it.
pub proof fn law_pieces(s: Seq<char>, separator: char)
    ensures
        joined(pieces_of(s, separator), seq![separator]) == s,
        forall|i: int|
            0 <= i < pieces_of(s, separator).len() ==> !(#[trigger] pieces_of(
                s,
                separator,
            )[i]).contains(separator),
{
    lemma_pieces_join(s, 0, separator);
    assert(s.skip(0) =~= s);
}

/// Numerals: ten digits, the last of which is the lowest place; no other character
/// stands in one, but for one plus sign before it.
pub proof fn law_numerals(n: nat, d: nat, s: Seq<char>, k: int)
    requires
        d < 10,
        n > 0,
    ensures
        decimal(10 * n + d) == decimal(n).push(digit_of(d)),
        decimal(d) == seq![digit_of(d)],
        digit_of(0) == '0' && digit_of(9) == '9',
        n <= u64::MAX ==> parse_number(decimal(n)) == Some(n as u64) && parse_number(
            seq!['+'] + decimal(n),
        ) == Some(n as u64),
        n > u64::MAX ==> parse_number(decimal(n)) is None,
        0 <= k < s.len() && !('0' <= s[k] <= '9') && !(k == 0 && s[0] == '+') ==> parse_number(
            s,
        ) is None,
        parse_number(seq![]) is None,
        parse_number(seq!['+']) is None,
{
    assert((10 * n + d) / 10 == n && (10 * n + d) % 10 == d);
    lemma_decimal_value(n);
    let digits = decimal(n);
    assert(is_ascii_digit(digits[0]));
    let signed = seq!['+'] + digits;
    assert(signed.skip(1) =~= digits);
    if 0 <= k < s.len() && !('0' <= s[k] <= '9') && !(k == 0 && s[0] == '+') {
        if s[0] == '+' {
            assert(s.skip(1)[k - 1] == s[k]);
        }
    }
}

} // verus!
