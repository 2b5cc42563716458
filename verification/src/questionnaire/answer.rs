//! Answers: read from an answer line, written to one, and changed by a choice.
//!
//! Ordinary questions store letters (`A`, `A, C, X: text`). Special sections
//! keep the literal formats that their guards match on.

use vstd::prelude::*;
use vstd::slice::slice_subrange;

use crate::questionnaire::document::{QuestionBlock, QuestionKind, QuestionModel};
use crate::questionnaire::grammar::{
    copied_all, letter_prefix, parse_letter_prefix, strip_quotes, without_quotes,
};
use crate::text::{
    chars_of, extend, extend_text, is_blank, is_text, join, joined, lowercase,
    lowercased, next_char, pieces, pieces_of, regex_captures, regex_first, run_end, seek_char,
    skip_run, spelled, text_model, text_of, trim, trimmed, CharClass,
};

verus! {

/// The options that an answer chooses, and free text beside them.
#[derive(Debug, Clone, PartialEq, Eq)]
pub struct Answer {
    pub choices: Vec<usize>,
    pub other: Option<String>,
}

/// What an [`Answer`] stands for.
pub struct AnswerModel {
    pub choices: Seq<usize>,
    pub other: Option<Seq<char>>,
}

impl View for Answer {
    type V = AnswerModel;

    open spec fn view(&self) -> AnswerModel {
        AnswerModel { choices: self.choices@, other: text_model(self.other) }
    }
}

pub open spec fn no_answer() -> AnswerModel {
    AnswerModel { choices: seq![], other: None }
}

impl AnswerModel {
    pub open spec fn is_empty(self) -> bool {
        self.choices.len() == 0 && self.other is None
    }
}

impl Default for Answer {
    fn default() -> (answer: Self)
        ensures
            answer@ == no_answer(),
    {
        Answer { choices: Vec::new(), other: None }
    }
}

impl Answer {
    pub fn is_empty(&self) -> (b: bool)
        ensures
            b == self@.is_empty(),
    {
        self.choices.len() == 0 && self.other.is_none()
    }
}

/// A sorted list with `x` put in behind everything that is not greater.
pub open spec fn insert_ordered(s: Seq<usize>, x: usize) -> Seq<usize>
    decreases s.len(),
{
    if s.len() == 0 || s.last() <= x {
        s.push(x)
    } else {
        insert_ordered(s.drop_last(), x).push(s.last())
    }
}

/// The indices in ascending order.
pub open spec fn ordered(s: Seq<usize>) -> Seq<usize>
    decreases s.len(),
{
    if s.len() == 0 {
        s
    } else {
        insert_ordered(ordered(s.drop_last()), s.last())
    }
}

/// A sorted list of distinct indices with `x` among them.
pub open spec fn insert_index(s: Seq<usize>, x: usize) -> Seq<usize>
    decreases s.len(),
{
    if s.len() == 0 || s.last() < x {
        s.push(x)
    } else if s.last() == x {
        s
    } else {
        insert_index(s.drop_last(), x).push(s.last())
    }
}

/// A sorted list of characters with `c` put in behind everything that is not
/// greater.
pub open spec fn insert_letter(s: Seq<char>, c: char) -> Seq<char>
    decreases s.len(),
{
    if s.len() == 0 || s.last() <= c {
        s.push(c)
    } else {
        insert_letter(s.drop_last(), c).push(s.last())
    }
}

fn put_ordered(list: &mut Vec<usize>, x: usize)
    ensures
        final(list)@ == insert_ordered(old(list)@, x),
{
    let mut at: usize = list.len();
    assert(list@.take(at as int) =~= list@);
    assert(list@.skip(at as int) =~= seq![]);
    while at > 0 && list[at - 1] > x
        invariant
            at <= list@.len(),
            list@ == old(list)@,
            insert_ordered(list@, x) =~= insert_ordered(list@.take(at as int), x) + list@.skip(
                at as int,
            ),
        decreases at,
    {
        assert(list@.take(at as int).drop_last() =~= list@.take(at - 1));
        at -= 1;
    }
    assert(insert_ordered(list@.take(at as int), x) == list@.take(at as int).push(x));
    list.insert(at, x);
    assert(list@ =~= insert_ordered(old(list)@, x));
}

fn put_index(list: &mut Vec<usize>, x: usize)
    ensures
        final(list)@ == insert_index(old(list)@, x),
{
    let mut at: usize = list.len();
    assert(list@.take(at as int) =~= list@);
    assert(list@.skip(at as int) =~= seq![]);
    while at > 0 && list[at - 1] > x
        invariant
            at <= list@.len(),
            list@ == old(list)@,
            insert_index(list@, x) =~= insert_index(list@.take(at as int), x) + list@.skip(
                at as int,
            ),
        decreases at,
    {
        assert(list@.take(at as int).drop_last() =~= list@.take(at - 1));
        at -= 1;
    }
    if at > 0 && list[at - 1] == x {
        assert(list@ =~= list@.take(at as int) + list@.skip(at as int));
        return ;
    }
    assert(insert_index(list@.take(at as int), x) == list@.take(at as int).push(x));
    list.insert(at, x);
    assert(list@ =~= insert_index(old(list)@, x));
}

fn put_letter(list: &mut Vec<char>, c: char)
    ensures
        final(list)@ == insert_letter(old(list)@, c),
{
    let mut at: usize = list.len();
    assert(list@.take(at as int) =~= list@);
    assert(list@.skip(at as int) =~= seq![]);
    while at > 0 && list[at - 1] > c
        invariant
            at <= list@.len(),
            list@ == old(list)@,
            insert_letter(list@, c) =~= insert_letter(list@.take(at as int), c) + list@.skip(
                at as int,
            ),
        decreases at,
    {
        assert(list@.take(at as int).drop_last() =~= list@.take(at - 1));
        at -= 1;
    }
    assert(insert_letter(list@.take(at as int), c) == list@.take(at as int).push(c));
    list.insert(at, c);
    assert(list@ =~= insert_letter(old(list)@, c));
}

impl QuestionModel {
    /// Whether answers are stored as letters.
    pub open spec fn uses_letters(self) -> bool {
        (self.kind == QuestionKind::Single || self.kind == QuestionKind::Multi) && exists|i: int|
            0 <= i < self.options.len() && (#[trigger] self.options[i]).letter is Some
    }

    /// The first option from `from` on that asks for free text.
    pub open spec fn other_from(self, from: int) -> Option<int>
        decreases self.options.len() - from,
    {
        if from < 0 || from >= self.options.len() {
            None
        } else if self.options[from].is_other {
            Some(from)
        } else {
            self.other_from(from + 1)
        }
    }

    /// The option that asks for free text, and its letter.
    pub open spec fn other_option(self) -> Option<(int, char)> {
        match self.other_from(0) {
            Some(index) => Some(
                (
                    index,
                    match self.options[index].letter {
                        Some(letter) => letter,
                        None => 'X',
                    },
                ),
            ),
            None => None,
        }
    }

    /// The first option from `from` on with the letter. An option that asks for
    /// free text counts only where `with_other` says so.
    pub open spec fn lettered_from(self, from: int, letter: char, with_other: bool) -> Option<int>
        decreases self.options.len() - from,
    {
        if from < 0 || from >= self.options.len() {
            None
        } else if self.options[from].letter == Some(letter) && (with_other
            || !self.options[from].is_other) {
            Some(from)
        } else {
            self.lettered_from(from + 1, letter, with_other)
        }
    }

    /// The first option from `from` on whose text in lower case is `text`.
    pub open spec fn texted_from(self, from: int, text: Seq<char>) -> Option<int>
        decreases self.options.len() - from,
    {
        if from < 0 || from >= self.options.len() {
            None
        } else if lowercase(self.options[from].text) == text {
            Some(from)
        } else {
            self.texted_from(from + 1, text)
        }
    }

    /// The option that a whole answer names, by its letter or its text.
    pub open spec fn named_option(self, token: Seq<char>) -> Option<int> {
        let by_letter = match letter_prefix(token) {
            Some(letter) => self.lettered_from(0, letter, true),
            None => None,
        };
        match by_letter {
            Some(index) => Some(index),
            None => self.texted_from(0, lowercase(without_quotes(token))),
        }
    }

    /// The options that the first `n` tokens choose by letter; `None` where a
    /// token chooses none. Empty tokens count for nothing.
    pub open spec fn chosen(self, tokens: Seq<Seq<char>>, n: int) -> Option<Seq<usize>>
        decreases n,
    {
        if n <= 0 {
            Some(seq![])
        } else {
            match self.chosen(tokens, n - 1) {
                Some(before) => {
                    let token = trim(tokens[n - 1]);
                    if token.len() == 0 {
                        Some(before)
                    } else {
                        match letter_prefix(token) {
                            Some(letter) => match self.lettered_from(0, letter, false) {
                                Some(index) => Some(insert_index(before, index as usize)),
                                None => None,
                            },
                            None => None,
                        }
                    }
                },
                None => None,
            }
        }
    }

    /// Where an answer in letters turns into free text, and the text. The text
    /// of the option itself stands for no text.
    pub open spec fn other_part(self, raw: Seq<char>) -> Option<(int, Seq<char>)> {
        match self.other_option() {
            Some((index, letter)) => match other_token(raw, letter) {
                Some((start, text)) => Some(
                    (
                        start,
                        if text == self.options[index].text {
                            seq![]
                        } else {
                            text
                        },
                    ),
                ),
                None => None,
            },
            None => None,
        }
    }

    /// What an answer in letters says; `None` where it is none.
    pub open spec fn letter_answer(self, raw: Seq<char>) -> Option<AnswerModel> {
        let letters = match self.other_part(raw) {
            Some((start, _)) => raw.take(start),
            None => raw,
        };
        let other = match self.other_part(raw) {
            Some((_, text)) => Some(text),
            None => None,
        };
        let tokens = pieces_of(letters, ',');
        match self.chosen(tokens, tokens.len() as int) {
            Some(choices) => if choices.len() == 0 && other is None {
                None
            } else {
                Some(AnswerModel { choices, other })
            },
            None => None,
        }
    }

    /// What the answer line of the question says.
    pub open spec fn answer_given(self) -> AnswerModel {
        let raw = match self.answer {
            Some((_, raw)) => trim(raw),
            None => seq![],
        };
        let parsed = if self.uses_letters() {
            self.letter_answer(raw)
        } else if self.kind == QuestionKind::Feedback {
            None
        } else {
            match self.named_option(raw) {
                Some(index) => Some(AnswerModel { choices: seq![index as usize], other: None }),
                None => None,
            }
        };
        if is_unanswered(raw) {
            no_answer()
        } else {
            match parsed {
                Some(answer) => answer,
                None => AnswerModel { choices: seq![], other: Some(raw) },
            }
        }
    }

    /// The letter of the option that asks for free text is neither a blank, nor
    /// a line feed, nor a character with a meaning of its own in a pattern.
    /// Options that were read from a questionnaire have capital letters.
    pub open spec fn has_plain_other(self) -> bool {
        self.other_option() matches Some((_, letter)) ==> is_plain_letter(letter)
    }
}

pub open spec fn is_plain_letter(c: char) -> bool {
    !is_blank(c) && c != '\n' && c != '\\' && c != '.' && c != '+' && c != '*' && c != '?' && c
        != '(' && c != ')' && c != '|' && c != '[' && c != ']' && c != '{' && c != '}' && c != '^'
        && c != '$'
}

/// Whether an answer is blank: nothing, or underscores to be filled in.
pub open spec fn is_unanswered(raw: Seq<char>) -> bool {
    forall|i: int| 0 <= i < raw.len() ==> #[trigger] raw[i] == '_'
}

/// The free text behind `letter`, where the letter stands at `from` but for
/// blanks, and `.`, `:`, a blank or the end of the answer follows it. The text
/// holds no line feed.
pub open spec fn other_text_at(raw: Seq<char>, from: int, letter: char) -> Option<Seq<char>> {
    let at = run_end(raw, from, CharClass::Blank);
    if at >= raw.len() || raw[at] != letter {
        None
    } else if at + 1 < raw.len() && raw[at + 1] != '.' && raw[at + 1] != ':' && !is_blank(
        raw[at + 1],
    ) {
        None
    } else {
        let start = if at + 1 < raw.len() {
            at + 2
        } else {
            at + 1
        };
        if next_char(raw, start, '\n') < raw.len() {
            None
        } else {
            Some(trim(raw.skip(start)))
        }
    }
}

/// The free text whose token starts at `at`: the answer itself, or a comma.
pub open spec fn other_token_at(raw: Seq<char>, at: int, letter: char) -> Option<Seq<char>> {
    if at == 0 && other_text_at(raw, 0, letter) is Some {
        other_text_at(raw, 0, letter)
    } else if raw[at] == ',' {
        other_text_at(raw, at + 1, letter)
    } else {
        None
    }
}

/// The first token from `from` on that holds free text: where it starts, and
/// the text.
pub open spec fn other_token_from(raw: Seq<char>, from: int, letter: char) -> Option<
    (int, Seq<char>),
>
    decreases raw.len() - from,
{
    if from < 0 || from >= raw.len() {
        None
    } else {
        match other_token_at(raw, from, letter) {
            Some(text) => Some((from, text)),
            None => other_token_from(raw, from + 1, letter),
        }
    }
}

/// The pattern of a token that holds free text behind `letter`.
pub open spec fn other_pattern(letter: char) -> Seq<char> {
    "(?:^|,)[ \\t]*"@ + seq![letter] + "(?:[.:]|[ \\t]|$)[ \\t]*(.*)$"@
}

/// The first token of an answer that holds free text: where it starts, and the
/// text. A letter with a meaning of its own in a pattern means that.
pub open spec fn other_token(raw: Seq<char>, letter: char) -> Option<(int, Seq<char>)> {
    if is_plain_letter(letter) {
        other_token_from(raw, 0, letter)
    } else {
        match regex_first(other_pattern(letter), raw) {
            Some((before, group)) => Some(
                (
                    before.len() as int,
                    match group {
                        Some(text) => trim(text),
                        None => seq![],
                    },
                ),
            ),
            None => None,
        }
    }
}

fn find_other_text(raw: &[char], from: usize, letter: char) -> (text: Option<&[char]>)
    requires
        from <= raw@.len(),
    ensures
        match text {
            Some(chars) => other_text_at(raw@, from as int, letter) == Some(chars@),
            None => other_text_at(raw@, from as int, letter) is None,
        },
{
    let at = skip_run(raw, from, CharClass::Blank);
    if at >= raw.len() || raw[at] != letter {
        return None;
    }
    let mut start: usize = at + 1;
    if start < raw.len() {
        let c: char = raw[start];
        if c != '.' && c != ':' && c != ' ' && c != '\t' {
            return None;
        }
        start += 1;
    }
    if seek_char(raw, start, '\n') < raw.len() {
        return None;
    }
    let rest = slice_subrange(raw, start, raw.len());
    assert(rest@ =~= raw@.skip(start as int));
    Some(trimmed(rest))
}

fn plain_letter(c: char) -> (b: bool)
    ensures
        b == is_plain_letter(c),
{
    c != ' ' && c != '\t' && c != '\n' && c != '\\' && c != '.' && c != '+' && c != '*' && c != '?'
        && c != '(' && c != ')' && c != '|' && c != '[' && c != ']' && c != '{' && c != '}' && c
        != '^' && c != '$'
}

fn find_other_pattern(raw: &[char], letter: char) -> (found: Option<(usize, Vec<char>)>)
    requires
        !is_plain_letter(letter),
    ensures
        match found {
            Some((start, text)) => other_token(raw@, letter) == Some((start as int, text@)) && start
                <= raw@.len(),
            None => other_token(raw@, letter) is None,
        },
{
    let mut pattern = chars_of("(?:^|,)[ \\t]*");
    pattern.push(letter);
    extend_text(&mut pattern, "(?:[.:]|[ \\t]|$)[ \\t]*(.*)$");
    assert(pattern@ =~= other_pattern(letter));
    let pattern = text_of(pattern.as_slice());
    let whole = text_of(raw);
    match regex_captures(pattern.as_str(), whole.as_str()) {
        Some((before, group)) => {
            let start = chars_of(before.as_str()).len();
            let text = match group {
                Some(text) => {
                    let chars = chars_of(text.as_str());
                    copied_all(trimmed(chars.as_slice()))
                },
                None => Vec::new(),
            };
            Some((start, text))
        },
        None => None,
    }
}

fn find_other_token(raw: &[char], letter: char) -> (found: Option<(usize, &[char])>)
    ensures
        match found {
            Some((start, text)) => other_token_from(raw@, 0, letter) == Some((start as int, text@))
                && start < raw@.len(),
            None => other_token_from(raw@, 0, letter) is None,
        },
{
    let mut at: usize = 0;
    while at < raw.len()
        invariant
            at <= raw@.len(),
            other_token_from(raw@, 0, letter) == other_token_from(raw@, at as int, letter),
        decreases raw@.len() - at,
    {
        if at == 0 {
            if let Some(text) = find_other_text(raw, 0, letter) {
                return Some((0, text));
            }
        }
        if raw[at] == ',' {
            if let Some(text) = find_other_text(raw, at + 1, letter) {
                return Some((at, text));
            }
        }
        at += 1;
    }
    None
}

fn uses_letter_tokens(block: &QuestionBlock) -> (b: bool)
    ensures
        b == block@.uses_letters(),
{
    if block.kind != QuestionKind::Single && block.kind != QuestionKind::Multi {
        return false;
    }
    let mut i: usize = 0;
    while i < block.options.len()
        invariant
            i <= block.options@.len(),
            forall|k: int| 0 <= k < i ==> (#[trigger] block@.options[k]).letter is None,
            block.kind == QuestionKind::Single || block.kind == QuestionKind::Multi,
        decreases block.options@.len() - i,
    {
        if block.options[i].letter.is_some() {
            assert(block@.options[i as int].letter is Some);
            return true;
        }
        i += 1;
    }
    false
}

fn other_option(block: &QuestionBlock) -> (found: Option<(usize, char)>)
    ensures
        match found {
            Some((index, letter)) => block@.other_option() == Some((index as int, letter)) && index
                < block.options@.len(),
            None => block@.other_option() is None,
        },
{
    let mut i: usize = 0;
    while i < block.options.len()
        invariant
            i <= block.options@.len(),
            block@.other_from(0) == block@.other_from(i as int),
        decreases block.options@.len() - i,
    {
        let option = &block.options[i];
        assert(block@.options[i as int] == option@);
        if option.is_other {
            let letter: char = match option.letter {
                Some(letter) => letter,
                None => 'X',
            };
            return Some((i, letter));
        }
        i += 1;
    }
    None
}

fn find_lettered(block: &QuestionBlock, letter: char, with_other: bool) -> (found: Option<usize>)
    ensures
        match found {
            Some(index) => block@.lettered_from(0, letter, with_other) == Some(index as int)
                && index < block.options@.len(),
            None => block@.lettered_from(0, letter, with_other) is None,
        },
{
    let mut i: usize = 0;
    while i < block.options.len()
        invariant
            i <= block.options@.len(),
            block@.lettered_from(0, letter, with_other) == block@.lettered_from(
                i as int,
                letter,
                with_other,
            ),
        decreases block.options@.len() - i,
    {
        let option = &block.options[i];
        assert(block@.options[i as int] == option@);
        let same = match option.letter {
            Some(own) => own == letter,
            None => false,
        };
        if same && (with_other || !option.is_other) {
            return Some(i);
        }
        i += 1;
    }
    None
}

fn find_texted(block: &QuestionBlock, text: &Vec<char>) -> (found: Option<usize>)
    ensures
        match found {
            Some(index) => block@.texted_from(0, text@) == Some(index as int) && index
                < block.options@.len(),
            None => block@.texted_from(0, text@) is None,
        },
{
    let mut i: usize = 0;
    while i < block.options.len()
        invariant
            i <= block.options@.len(),
            block@.texted_from(0, text@) == block@.texted_from(i as int, text@),
        decreases block.options@.len() - i,
    {
        assert(block@.options[i as int] == block.options@[i as int]@);
        let own = chars_of(block.options[i].text.as_str());
        let lower = text_of(lowercased(own.as_slice()).as_slice());
        if is_text(text.as_slice(), lower.as_str()) {
            return Some(i);
        }
        i += 1;
    }
    None
}

fn option_index(block: &QuestionBlock, token: &[char]) -> (found: Option<usize>)
    ensures
        match found {
            Some(index) => block@.named_option(token@) == Some(index as int) && index
                < block.options@.len(),
            None => block@.named_option(token@) is None,
        },
{
    if let Some(letter) = parse_letter_prefix(token) {
        if let Some(index) = find_lettered(block, letter, true) {
            return Some(index);
        }
    }
    let text = lowercased(strip_quotes(token));
    find_texted(block, &text)
}

fn parse_letter_tokens(block: &QuestionBlock, raw: &[char]) -> (answer: Option<Answer>)
    ensures
        match answer {
            Some(answer) => block@.letter_answer(raw@) == Some(answer@),
            None => block@.letter_answer(raw@) is None,
        },
{
    let mut letters_end: usize = raw.len();
    let mut other: Option<String> = None;
    if let Some((index, letter)) = other_option(block) {
        let found = if plain_letter(letter) {
            match find_other_token(raw, letter) {
                Some((start, text)) => Some((start, copied_all(text))),
                None => None,
            }
        } else {
            find_other_pattern(raw, letter)
        };
        if let Some((start, text)) = found {
            assert(block@.options[index as int] == block.options@[index as int]@);
            letters_end = start;
            other =
            if is_text(text.as_slice(), block.options[index].text.as_str()) {
                Some(String::new())
            } else {
                Some(text_of(text.as_slice()))
            };
        }
    }
    assert(raw@.take(raw@.len() as int) =~= raw@);
    let letters = slice_subrange(raw, 0, letters_end);
    assert(text_model(other) == match block@.other_part(raw@) {
        Some((_, text)) => Some(text),
        None => None,
    });
    let tokens = pieces(letters, ',');
    let ghost views = pieces_of(letters@, ',');
    let mut choices: Vec<usize> = Vec::new();
    let mut i: usize = 0;
    while i < tokens.len()
        invariant
            i <= tokens@.len(),
            views == spelled(tokens@),
            views == pieces_of(letters@, ','),
            letters@ == (match block@.other_part(raw@) {
                Some((start, _)) => raw@.take(start),
                None => raw@,
            }),
            block@.chosen(views, i as int) == Some(choices@),
        decreases tokens@.len() - i,
    {
        assert(views[i as int] == tokens@[i as int]@);
        let token = trimmed(tokens[i].as_slice());
        if token.len() > 0 {
            let found = match parse_letter_prefix(token) {
                Some(letter) => find_lettered(block, letter, false),
                None => None,
            };
            match found {
                Some(index) => put_index(&mut choices, index),
                None => {
                    proof {
                        lemma_chosen_none(block@, views, i + 1, views.len() as int);
                    }
                    return None;
                },
            }
        }
        i += 1;
    }
    if choices.len() == 0 && other.is_none() {
        return None;
    }
    Some(Answer { choices, other })
}

/// A token that chooses nothing spoils every longer list of tokens.
proof fn lemma_chosen_none(block: QuestionModel, tokens: Seq<Seq<char>>, n: int, m: int)
    requires
        0 <= n <= m,
        block.chosen(tokens, n) is None,
    ensures
        block.chosen(tokens, m) is None,
    decreases m - n,
{
    if n < m {
        lemma_chosen_none(block, tokens, n, m - 1);
    }
}

fn unanswered(raw: &[char]) -> (b: bool)
    ensures
        b == is_unanswered(raw@),
{
    let mut i: usize = 0;
    while i < raw.len()
        invariant
            i <= raw@.len(),
            forall|k: int| 0 <= k < i ==> #[trigger] raw@[k] == '_',
        decreases raw@.len() - i,
    {
        if raw[i] != '_' {
            return false;
        }
        i += 1;
    }
    true
}

/// What the answer line of a question says.
pub fn parse_answer(block: &QuestionBlock) -> (answer: Answer)
    ensures
        answer@ == block@.answer_given(),
{
    let line: Vec<char> = match &block.answer {
        Some(line) => chars_of(line.raw.as_str()),
        None => Vec::new(),
    };
    let raw = trimmed(line.as_slice());
    proof {
        if block.answer is None {
            assert(raw@ =~= seq![]);
        }
    }
    if unanswered(raw) {
        return Answer::default();
    }
    let parsed = if uses_letter_tokens(block) {
        parse_letter_tokens(block, raw)
    } else if block.kind == QuestionKind::Feedback {
        None
    } else {
        match option_index(block, raw) {
            Some(index) => {
                let choices: Vec<usize> = vec![index];
                assert(choices@ =~= seq![index]);
                Some(Answer { choices, other: None })
            },
            None => None,
        }
    };
    match parsed {
        Some(answer) => answer,
        None => {
            let answer = Answer { choices: Vec::new(), other: Some(text_of(raw)) };
            assert(answer@.choices =~= seq![]);
            answer
        },
    }
}

impl QuestionModel {
    /// The letters of the first `n` chosen options, in ascending order. Choices
    /// without an option or without a letter count for nothing.
    pub open spec fn chosen_letters(self, choices: Seq<usize>, n: int) -> Seq<char>
        decreases n,
    {
        if n <= 0 {
            seq![]
        } else {
            let before = self.chosen_letters(choices, n - 1);
            let index = choices[n - 1] as int;
            if index < self.options.len() && self.options[index].letter is Some {
                insert_letter(before, self.options[index].letter->0)
            } else {
                before
            }
        }
    }

    /// The token for free text.
    pub open spec fn other_token(self, text: Seq<char>) -> Seq<char> {
        match self.other_option() {
            Some((_, letter)) => if text.len() == 0 {
                seq![letter]
            } else {
                seq![letter] + ": "@ + text
            },
            None => text,
        }
    }

    /// The tokens of an answer in letters: the letters, then free text.
    pub open spec fn answer_tokens(self, answer: AnswerModel) -> Seq<Seq<char>> {
        let letters = self.chosen_letters(answer.choices, answer.choices.len() as int);
        let tokens = Seq::new(letters.len(), |i: int| seq![letters[i]]);
        match answer.other {
            Some(text) => tokens.push(self.other_token(text)),
            None => tokens,
        }
    }

    /// How an answer is written.
    pub open spec fn answer_written(self, answer: AnswerModel) -> Seq<char> {
        if answer.is_empty() {
            seq![]
        } else if self.uses_letters() {
            joined(self.answer_tokens(answer), ", "@)
        } else if answer.choices.len() > 0 && answer.choices[0] < self.options.len() {
            let option = self.options[answer.choices[0] as int];
            match option.letter {
                Some(letter) => seq![letter] + ". "@ + option.text,
                None => option.text,
            }
        } else {
            match answer.other {
                Some(text) => trim(text),
                None => seq![],
            }
        }
    }

    /// The answer after a click on an option. Where several may be chosen the
    /// click turns the option on or off; else it is the only choice, or none
    /// if it was already.
    pub open spec fn toggled(self, current: AnswerModel, index: usize) -> AnswerModel {
        if self.kind == QuestionKind::Multi {
            AnswerModel {
                choices: ordered(
                    if current.choices.contains(index) {
                        current.choices.remove(first_index(current.choices, 0, index))
                    } else {
                        current.choices.push(index)
                    },
                ),
                other: current.other,
            }
        } else if current.choices == seq![index] {
            no_answer()
        } else {
            AnswerModel { choices: seq![index], other: None }
        }
    }

    /// The answer with free text, or without where the text is blank. Where one
    /// option may be chosen, free text takes its place.
    pub open spec fn given_other(self, current: AnswerModel, text: Seq<char>) -> AnswerModel {
        AnswerModel {
            choices: if self.kind == QuestionKind::Multi {
                current.choices
            } else {
                seq![]
            },
            other: if trim(text).len() > 0 {
                Some(trim(text))
            } else {
                None
            },
        }
    }
}

/// The first index from `from` on that holds `x`, or the end of the list.
pub open spec fn first_index(s: Seq<usize>, from: int, x: usize) -> int
    decreases s.len() - from,
{
    if 0 <= from < s.len() && s[from] != x {
        first_index(s, from + 1, x)
    } else {
        from
    }
}

/// The line that holds an answer.
pub open spec fn answer_line_of(raw: Seq<char>) -> Seq<char> {
    if trim(raw).len() == 0 {
        "[Answer]:"@
    } else {
        "[Answer]: "@ + trim(raw)
    }
}

/// Writes an answer as it stands on an answer line.
pub fn render_answer(block: &QuestionBlock, answer: &Answer) -> (raw: String)
    ensures
        raw@ == block@.answer_written(answer@),
{
    if answer.is_empty() {
        return String::new();
    }
    if uses_letter_tokens(block) {
        let mut letters: Vec<char> = Vec::new();
        let mut i: usize = 0;
        while i < answer.choices.len()
            invariant
                i <= answer.choices@.len(),
                letters@ == block@.chosen_letters(answer.choices@, i as int),
            decreases answer.choices@.len() - i,
        {
            let index = answer.choices[i];
            if index < block.options.len() {
                assert(block@.options[index as int] == block.options@[index as int]@);
                if let Some(letter) = block.options[index].letter {
                    put_letter(&mut letters, letter);
                }
            }
            i += 1;
        }
        let mut tokens: Vec<Vec<char>> = Vec::new();
        let mut k: usize = 0;
        let ghost wanted = Seq::new(letters@.len(), |i: int| seq![letters@[i]]);
        while k < letters.len()
            invariant
                k <= letters@.len(),
                wanted == Seq::new(letters@.len(), |i: int| seq![letters@[i]]),
                spelled(tokens@) =~= wanted.take(k as int),
            decreases letters@.len() - k,
        {
            let ghost before = spelled(tokens@);
            let token: Vec<char> = vec![letters[k]];
            assert(token@ =~= seq![letters@[k as int]]);
            let ghost view = token@;
            tokens.push(token);
            assert(spelled(tokens@) =~= before.push(view));
            k += 1;
        }
        assert(spelled(tokens@) =~= wanted);
        if let Some(text) = &answer.other {
            let mut token: Vec<char> = Vec::new();
            let content = chars_of(text.as_str());
            match other_option(block) {
                Some((_, letter)) => {
                    token.push(letter);
                    assert(token@ =~= seq![letter]);
                    if content.len() > 0 {
                        extend_text(&mut token, ": ");
                        extend(&mut token, content.as_slice());
                    }
                },
                None => {
                    extend(&mut token, content.as_slice());
                    assert(token@ =~= text@);
                },
            }
            let ghost view = token@;
            tokens.push(token);
            assert(spelled(tokens@) =~= wanted.push(view));
        }
        assert(spelled(tokens@) == block@.answer_tokens(answer@));
        let chars = join(&tokens, ", ");
        return text_of(chars.as_slice());
    }
    if answer.choices.len() > 0 && answer.choices[0] < block.options.len() {
        let option = &block.options[answer.choices[0]];
        assert(block@.options[answer.choices@[0] as int] == option@);
        let mut chars: Vec<char> = Vec::new();
        if let Some(letter) = option.letter {
            chars.push(letter);
            extend_text(&mut chars, ". ");
            assert(chars@ =~= seq![letter] + ". "@);
        }
        let content = chars_of(option.text.as_str());
        let ghost before = chars@;
        extend(&mut chars, content.as_slice());
        assert(option.letter is None ==> chars@ =~= option.text@);
        return text_of(chars.as_slice());
    }
    match &answer.other {
        Some(text) => {
            let content = chars_of(text.as_str());
            text_of(trimmed(content.as_slice()))
        },
        None => String::new(),
    }
}

/// The line that holds an answer. A blank one has no trailing space.
pub fn answer_line(raw: &str) -> (line: String)
    ensures
        line@ == answer_line_of(raw@),
{
    let chars = chars_of(raw);
    let raw = trimmed(chars.as_slice());
    if raw.len() == 0 {
        "[Answer]:".to_string()
    } else {
        let mut line = chars_of("[Answer]: ");
        extend(&mut line, raw);
        text_of(line.as_slice())
    }
}

fn copied_choices(choices: &Vec<usize>) -> (copy: Vec<usize>)
    ensures
        copy@ == choices@,
{
    let mut copy: Vec<usize> = Vec::new();
    let mut i: usize = 0;
    while i < choices.len()
        invariant
            i <= choices@.len(),
            copy@ =~= choices@.take(i as int),
        decreases choices@.len() - i,
    {
        copy.push(choices[i]);
        i += 1;
    }
    assert(copy@ =~= choices@);
    copy
}

/// The answer after a click on an option.
pub fn toggle_option(block: &QuestionBlock, current: &Answer, index: usize) -> (answer: Answer)
    ensures
        answer@ == block@.toggled(current@, index),
{
    if block.kind == QuestionKind::Multi {
        let mut choices = copied_choices(&current.choices);
        let mut at: usize = 0;
        while at < choices.len() && choices[at] != index
            invariant
                at <= choices@.len(),
                forall|k: int| 0 <= k < at ==> choices@[k] != index,
                first_index(choices@, 0, index) == first_index(choices@, at as int, index),
            decreases choices@.len() - at,
        {
            at += 1;
        }
        if at < choices.len() {
            choices.remove(at);
        } else {
            choices.push(index);
        }
        let mut sorted: Vec<usize> = Vec::new();
        let mut i: usize = 0;
        assert(choices@.take(0) =~= seq![]);
        while i < choices.len()
            invariant
                i <= choices@.len(),
                sorted@ == ordered(choices@.take(i as int)),
            decreases choices@.len() - i,
        {
            assert(choices@.take(i + 1).drop_last() =~= choices@.take(i as int));
            put_ordered(&mut sorted, choices[i]);
            i += 1;
        }
        assert(choices@.take(choices@.len() as int) =~= choices@);
        Answer { choices: sorted, other: current.other.clone() }
    } else if current.choices.len() == 1 && current.choices[0] == index {
        assert(current.choices@ =~= seq![index]);
        Answer::default()
    } else {
        let choices: Vec<usize> = vec![index];
        assert(choices@ =~= seq![index]);
        assert(current.choices@ =~= seq![index] ==> current.choices@.len() == 1
            && current.choices@[0] == index);
        Answer { choices, other: None }
    }
}

/// The answer with free text, or without where the text is blank.
pub fn with_other(block: &QuestionBlock, current: &Answer, text: &str) -> (answer: Answer)
    ensures
        answer@ == block@.given_other(current@, text@),
{
    let chars = chars_of(text);
    let text = trimmed(chars.as_slice());
    let other = if text.len() > 0 {
        Some(text_of(text))
    } else {
        None
    };
    let choices = if block.kind == QuestionKind::Multi {
        copied_choices(&current.choices)
    } else {
        Vec::new()
    };
    Answer { choices, other }
}

} // verus!
