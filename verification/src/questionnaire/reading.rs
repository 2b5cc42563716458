//! What is read from a questionnaire, in terms of the characters of its lines:
//! which headings ask, and where their options and answers stand.

use vstd::prelude::*;

use crate::questionnaire::document::{
    hidden_rows, is_heading, lemma_next_heading, next_heading, question_at, question_kind,
    question_label, question_text, question_title, sections_from, sections_of_rows, special_kind,
    with_markdown, BodyModel, LineRole, OptionModel, QuestionKind, QuestionModel, SectionModel,
};
use crate::questionnaire::grammar::{
    answer_text, folds_at, folds_to, heading_title_of, is_bare_number, is_inactive, lettered_option,
    number_mark, number_start, question_prefix, region_after, region_before, without_emphasis,
    without_quotes, Region,
};
use crate::questionnaire::laws::{fits_rows, lemma_answer_from, lemma_sections_stay};
use crate::questionnaire::round_trip::lemma_trim_keeps;
use crate::text::{
    contains_part, is_whitespace, lemma_find_from, lemma_run_end_is, lowercase, occurs_at, run_end,
    run_start, trim, CharClass,
};

verus! {

pub open spec fn are_blanks(s: Seq<char>) -> bool {
    forall|i: int| 0 <= i < s.len() ==> #[trigger] s[i] == ' ' || s[i] == '\t'
}

/// Whether a word is `q` or `question` in either case, or none.
pub open spec fn is_question_word(word: Seq<char>) -> bool {
    ||| word.len() == 0
    ||| word.len() == 1 && (word[0] == 'q' || word[0] == 'Q')
    ||| {
        &&& word.len() == 8
        &&& word[0] == 'q' || word[0] == 'Q'
        &&& word[1] == 'u' || word[1] == 'U'
        &&& word[2] == 'e' || word[2] == 'E'
        &&& word[3] == 's' || word[3] == 'S'
        &&& word[4] == 't' || word[4] == 'T'
        &&& word[5] == 'i' || word[5] == 'I'
        &&& word[6] == 'o' || word[6] == 'O'
        &&& word[7] == 'n' || word[7] == 'N'
    }
}

/// A heading with a number: a word, a number, a mark and a text, with blanks
/// between them.
pub struct NumberedHeading {
    pub word: Seq<char>,
    pub gap: Seq<char>,
    pub number: Seq<char>,
    pub space: Seq<char>,
    pub mark: char,
    pub behind: Seq<char>,
    pub text: Seq<char>,
}

impl NumberedHeading {
    pub open spec fn is_valid(self) -> bool {
        &&& is_question_word(self.word)
        &&& are_blanks(self.gap)
        &&& self.word.len() == 0 ==> self.gap.len() == 0
        &&& self.number.len() > 0
        &&& forall|i: int| 0 <= i < self.number.len() ==> '0' <= #[trigger] self.number[i] <= '9'
        &&& are_blanks(self.space)
        &&& self.mark == '.' || self.mark == ':' || self.mark == ')' || self.mark == '-'
        &&& are_blanks(self.behind)
        &&& self.text.len() > 0
        &&& !is_whitespace(self.text[0])
        &&& !is_whitespace(self.text.last())
    }

    pub open spec fn line(self) -> Seq<char> {
        self.word + self.gap + self.number + self.space + seq![self.mark] + self.behind + self.text
    }
}

proof fn lemma_word(heading: NumberedHeading)
    requires
        heading.is_valid(),
    ensures
        number_start(heading.line()) == heading.word.len() + heading.gap.len(),
{
    let line = heading.line();
    let word = heading.word.len() as int;
    let start = word + heading.gap.len();
    reveal_strlit("uestion");
    assert("uestion"@.len() == 7);
    assert(line[start] == heading.number[0]);
    assert forall|k: int| word <= k < start implies CharClass::Blank.has(#[trigger] line[k]) by {
        assert(line[k] == heading.gap[k - word]);
    }
    if word == 0 {
        assert('0' <= heading.number[0] <= '9');
        assert(line[0] == heading.number[0]);
    } else {
        assert(line[0] == heading.word[0]);
        if word == 1 {
            if folds_at(line, 1, "uestion"@) {
                assert(folds_to(line[1], "uestion"@[0]));
                if heading.gap.len() > 0 {
                    assert(line[1] == heading.gap[0]);
                } else {
                    assert(line[1] == heading.number[0]);
                    assert('0' <= heading.number[0] <= '9');
                }
            }
        } else {
            assert forall|k: int| 0 <= k < 7 implies folds_to(line[1 + k], #[trigger] "uestion"@[k]) by {
                assert(line[1 + k] == heading.word[1 + k]);
            }
            assert(folds_at(line, 1, "uestion"@));
        }
        assert('0' <= heading.number[0] <= '9');
        lemma_run_end_is(line, word, CharClass::Blank, start);
    }
}

proof fn lemma_number(heading: NumberedHeading)
    requires
        heading.is_valid(),
    ensures
        question_prefix(heading.line()) == Some(
            (heading.line().len() - heading.text.len()) as int,
        ),
        !is_bare_number(heading.line()),
{
    let line = heading.line();
    lemma_word(heading);
    let start = number_start(line);
    let end = start + heading.number.len();
    let mark = end + heading.space.len();
    let text = mark + 1 + heading.behind.len();
    assert forall|k: int| start <= k < end implies CharClass::Digit.has(#[trigger] line[k]) by {
        assert(line[k] == heading.number[k - start]);
    }
    assert forall|k: int| end <= k < mark implies CharClass::Blank.has(#[trigger] line[k]) by {
        assert(line[k] == heading.space[k - end]);
    }
    assert forall|k: int| mark + 1 <= k < text implies CharClass::Blank.has(#[trigger] line[k]) by {
        assert(line[k] == heading.behind[k - mark - 1]);
    }
    assert(line[mark] == heading.mark);
    assert(line[text] == heading.text[0]);
    if heading.space.len() > 0 {
        assert(line[end] == heading.space[0]);
    }
    assert(!CharClass::Digit.has(line[end]));
    lemma_run_end_is(line, start, CharClass::Digit, end);
    lemma_run_end_is(line, end, CharClass::Blank, mark);
    assert(number_mark(line) == Some(mark));
    lemma_run_end_is(line, mark + 1, CharClass::Blank, text);
}

/// A heading with a number asks a question, whatever stands below it: one of
/// several choices where it says so in either case, and of a single one where it
/// has none of the special labels. What it asks is the text behind its number.
pub proof fn law_numbered_headings_ask(
    heading: NumberedHeading,
    body: Seq<Seq<char>>,
    hidden: Seq<bool>,
)
    requires
        heading.is_valid(),
    ensures
        question_kind(heading.line(), body, hidden) is Some,
        question_text(heading.line(), body, hidden) == heading.text,
        question_title(heading.line(), body, hidden) == heading.line(),
        special_kind(question_label(heading.text)) is None ==> question_kind(
            heading.line(),
            body,
            hidden,
        ) == Some(
            if exists|i: int|
                0 <= i && i + 23 <= lowercase(heading.text).len() && #[trigger] lowercase(
                    heading.text,
                ).subrange(i, i + 23) == "(select all that apply)"@ {
                QuestionKind::Multi
            } else {
                QuestionKind::Single
            },
        ),
{
    let line = heading.line();
    let lower = lowercase(heading.text);
    lemma_number(heading);
    assert(line.skip(line.len() - heading.text.len()) =~= heading.text);
    lemma_trim_keeps(heading.text);
    reveal_strlit("(select all that apply)");
    assert("(select all that apply)"@.len() == 23);
    lemma_find_from(lower, 0, "(select all that apply)"@);
    if contains_part(lower, "(select all that apply)"@) {
        let at = crate::text::find_from(lower, 0, "(select all that apply)"@)->0;
        assert(occurs_at(lower, at, "(select all that apply)"@));
        assert(lower.subrange(at, at + 23) == "(select all that apply)"@);
    } else {
        assert forall|i: int|
            0 <= i && i + 23 <= lower.len() implies #[trigger] lower.subrange(i, i + 23)
            != "(select all that apply)"@ by {
            assert(!occurs_at(lower, i, "(select all that apply)"@));
        }
    }
}

/// The special labels are four, each with its own kind.
pub proof fn law_special_labels(label: Seq<char>)
    ensures
        special_kind(label) == Some(QuestionKind::SummaryConfirmation) <==> label
            == "consolidated summary confirmation"@,
        special_kind(label) == Some(QuestionKind::Feedback) <==> label
            == "requested changes feedback"@,
        special_kind(label) == Some(QuestionKind::AssumptionConfirmation) <==> label
            == "assumption confirmation"@,
        special_kind(label) == Some(QuestionKind::PlanApproval) <==> label == "plan approval"@,
        special_kind(label) != Some(QuestionKind::Single) && special_kind(label) != Some(
            QuestionKind::Multi,
        ),
{
    reveal_strlit("consolidated summary confirmation");
    reveal_strlit("requested changes feedback");
    reveal_strlit("assumption confirmation");
    reveal_strlit("plan approval");
    assert("consolidated summary confirmation"@.len() == 33);
    assert("requested changes feedback"@.len() == 26);
    assert("assumption confirmation"@.len() == 23);
    assert("plan approval"@.len() == 13);
}

/// The label of a question is its text in lower case. A mark behind it and
/// emphasis around it are no part of it.
pub proof fn law_label_of_a_question(text: Seq<char>, marks: Seq<char>)
    requires
        text.len() > 0,
        !is_whitespace(text[0]) && !is_whitespace(text.last()),
        text[0] != '*' && text[0] != '_',
        text.last() != '*' && text.last() != '_' && text.last() != '?' && text.last() != ':',
        forall|i: int| 0 <= i < marks.len() ==> #[trigger] marks[i] == '?' || marks[i] == ':',
    ensures
        question_label(text + marks) == lowercase(text),
        question_label("**"@ + text + "**"@) == lowercase(text),
{
    let all = text + marks;
    let either = CharClass::Either('?', ':');
    assert forall|k: int| text.len() <= k < all.len() implies either.has(#[trigger] all[k]) by {
        assert(all[k] == marks[k - text.len()]);
    }
    assert(all[text.len() - 1] == text.last());
    lemma_run_start_is(all, all.len() as int, either, text.len() as int);
    assert(all.take(text.len() as int) =~= text);
    lemma_trim_keeps(text);
    let stars = CharClass::Either('*', '_');
    lemma_run_start_is(text, text.len() as int, stars, text.len() as int);
    assert(text.take(text.len() as int) =~= text);
    lemma_run_end_is(text, 0, stars, 0);
    assert(text.skip(0) =~= text);
    assert(without_emphasis(text) == text);
    reveal_strlit("**");
    let bold = "**"@ + text + "**"@;
    let n = text.len() as int;
    assert(bold.len() == n + 4);
    assert(bold[n + 3] == '*' && bold[n + 2] == '*' && bold[0] == '*' && bold[1] == '*');
    assert(bold[n + 1] == text.last() && bold[2] == text[0]);
    lemma_run_start_is(bold, n + 4, either, n + 4);
    assert(bold.take(n + 4) =~= bold);
    lemma_trim_keeps(bold);
    lemma_run_start_is(bold, n + 4, stars, n + 2);
    let front = bold.take(n + 2);
    assert(front[0] == '*' && front[1] == '*' && front[2] == text[0]);
    lemma_run_end_is(front, 0, stars, 2);
    assert(front.skip(2) =~= text);
}

proof fn lemma_run_start_is(s: Seq<char>, to: int, class: CharClass, start: int)
    requires
        0 <= start <= to <= s.len(),
        forall|k: int| start <= k < to ==> class.has(#[trigger] s[k]),
        start > 0 ==> !class.has(s[start - 1]),
    ensures
        run_start(s, to, class) == start,
    decreases to - start,
{
    if start < to {
        assert(class.has(s[to - 1]));
        lemma_run_start_is(s, to - 1, class, start);
    }
}

pub open spec fn hashes(level: nat) -> Seq<char> {
    Seq::new(level, |i: int| '#')
}

/// One to six hashes and a blank make a heading of what follows.
pub proof fn law_heading_lines(level: nat, title: Seq<char>)
    requires
        1 <= level <= 6,
        title.len() > 0,
        !is_whitespace(title[0]) && !is_whitespace(title.last()),
        title.last() != '#',
    ensures
        heading_title_of(hashes(level) + seq![' '] + title) == Some(title),
{
    let line = hashes(level) + seq![' '] + title;
    let n = level as int;
    assert forall|k: int| 0 <= k < n implies CharClass::Exactly('#').has(#[trigger] line[k]) by {
        assert(line[k] == '#');
    }
    assert(line[0] == '#' && line[n] == ' ' && line[n + 1] == title[0]);
    lemma_run_end_is(line, 0, CharClass::Exactly(' '), 0);
    lemma_run_end_is(line, 0, CharClass::Exactly('#'), n);
    lemma_run_end_is(line, n, CharClass::Blank, n + 1);
    assert(line.skip(n + 1) =~= title);
    let len = title.len() as int;
    lemma_run_start_is(title, len, CharClass::Whitespace, len);
    assert(title.take(len) =~= title);
    lemma_run_start_is(title, len, CharClass::Exactly('#'), len);
    lemma_trim_keeps(title);
}

/// A line without backticks, tildes and angle brackets neither opens a fence nor a
/// comment, so nothing hides the lines of a file that holds none of them.
pub proof fn law_plain_rows_are_active(rows: Seq<Seq<char>>, row: int)
    requires
        0 <= row < rows.len(),
        forall|r: int, k: int|
            0 <= r <= row && 0 <= k < rows[r].len() ==> (#[trigger] rows[r][k]) != '`' && rows[r][k]
                != '~' && rows[r][k] != '<',
    ensures
        region_before(rows, row) == Region::Open,
        !is_inactive(rows, row),
    decreases row,
{
    if row > 0 {
        law_plain_rows_are_active(rows, row - 1);
    }
    let line = rows[row];
    reveal_strlit("<!--");
    lemma_find_from(line, 0, "<!--"@);
    assert forall|k: int| 0 <= k implies !#[trigger] occurs_at(line, k, "<!--"@) by {
        if occurs_at(line, k, "<!--"@) {
            assert(line.subrange(k, k + 4)[0] == '<');
            assert(rows[row][k] == '<');
        }
    }
    assert(!contains_part(line, "<!--"@));
    let at = run_end(line, 0, CharClass::Exactly(' '));
    crate::text::lemma_run_end(line, 0, CharClass::Exactly(' '));
    if at < line.len() {
        assert(rows[row][at] != '`' && rows[row][at] != '~');
    }
    assert(region_after(Region::Open, line) == Region::Open);
}

/// A heading that asks has its section.
proof fn lemma_asking_section(rows: Seq<Seq<char>>, row: int, sections: Seq<SectionModel>, at: int)
    requires
        0 <= row <= at < rows.len(),
        is_heading(rows, at),
        question_at(rows, at, next_heading(rows, at + 1)) is Some,
    ensures
        has_question(
            sections_from(rows, row, sections),
            question_at(rows, at, next_heading(rows, at + 1))->0,
        ),
    decreases rows.len() - row,
{
    lemma_next_heading(rows, row + 1);
    let end = next_heading(rows, row + 1);
    let more = match question_at(rows, row, end) {
        Some(question) => sections.push(SectionModel::Question(question)),
        None => with_markdown(sections, rows.subrange(row, end)),
    };
    if row == at {
        let question = question_at(rows, at, end)->0;
        lemma_sections_stay(rows, end, more);
        let j = sections.len() as int;
        assert(more[j] == SectionModel::Question(question));
        assert(sections_from(rows, end, more)[j] == more[j]);
    } else {
        lemma_asking_section(rows, end, more, at);
    }
}

pub open spec fn has_question(sections: Seq<SectionModel>, question: QuestionModel) -> bool {
    exists|j: int|
        0 <= j < sections.len() && #[trigger] sections[j] == SectionModel::Question(question)
}

/// Whether an active row begins with `[Answer]:`.
pub open spec fn is_answer_row(rows: Seq<Seq<char>>, row: int) -> bool {
    !is_inactive(rows, row) && rows[row].len() >= 9 && rows[row].take(9) == "[Answer]:"@
}

pub open spec fn no_answer_before(rows: Seq<Seq<char>>, from: int, to: int) -> bool {
    forall|k: int| from <= k < to ==> !#[trigger] is_answer_row(rows, k)
}

/// Whether an active row is a capital letter, a mark, a blank and a text.
pub open spec fn is_option_row(rows: Seq<Seq<char>>, row: int, letter: char, text: Seq<char>) -> bool {
    &&& !is_inactive(rows, row)
    &&& 'A' <= letter <= 'Z'
    &&& rows[row] == seq![letter, '.', ' '] + text || rows[row] == seq![letter, ')', ' '] + text
    &&& text.len() > 0
    &&& !is_whitespace(text[0]) && !is_whitespace(text.last())
    &&& text[0] != '"' && text[0] != '\'' && text.last() != '"' && text.last() != '\''
}

pub open spec fn has_option(
    question: QuestionModel,
    row: int,
    letter: char,
    text: Seq<char>,
) -> bool {
    exists|i: int|
        0 <= i < question.options.len() && (#[trigger] question.options[i]).row == row
            && question.options[i].letter == Some(letter) && question.options[i].text == text
}

/// Whether the answer of a question is what the first answer line of its section
/// holds.
pub open spec fn reads_answer(
    rows: Seq<Seq<char>>,
    row: int,
    end: int,
    question: QuestionModel,
) -> bool {
    &&& forall|k: int|
        row < k < end && #[trigger] is_answer_row(rows, k) && no_answer_before(rows, row + 1, k)
            ==> question.answer == Some((k as u32, trim(rows[k].skip(9))))
    &&& no_answer_before(rows, row + 1, end) ==> question.answer is None
}

/// Whether a question has every option that stands in its section before the
/// answer.
pub open spec fn reads_options(
    rows: Seq<Seq<char>>,
    row: int,
    end: int,
    question: QuestionModel,
) -> bool {
    forall|k: int, letter: char, text: Seq<char>|
        row < k < end && #[trigger] is_option_row(rows, k, letter, text) && no_answer_before(
            rows,
            row + 1,
            k,
        ) ==> has_option(question, k, letter, text)
}

/// Whether an option stands at its row in the section, before the answer.
pub open spec fn stands_at(rows: Seq<Seq<char>>, row: int, end: int, option: OptionModel) -> bool {
    let k = option.row as int;
    &&& row < k < end
    &&& !is_inactive(rows, k)
    &&& no_answer_before(rows, row + 1, k)
    &&& rows[k].len() > 2
    &&& option.letter == Some(rows[k][0])
    &&& 'A' <= rows[k][0] <= 'Z'
    &&& rows[k][1] == '.' || rows[k][1] == ')'
}

/// Whether a question has the options and the answer that stand in its section,
/// which is over at `end`, and no others.
pub open spec fn reads_section(
    rows: Seq<Seq<char>>,
    row: int,
    end: int,
    question: QuestionModel,
) -> bool {
    &&& reads_answer(rows, row, end, question)
    &&& reads_options(rows, row, end, question)
    &&& forall|i: int|
        0 <= i < question.options.len() ==> stands_at(
            rows,
            row,
            end,
            #[trigger] question.options[i],
        )
    &&& forall|i: int, j: int|
        0 <= i < j < question.options.len() ==> (#[trigger] question.options[i]).row < (
        #[trigger] question.options[j]).row
}

/// What each option among the first `n` lines of a body was read from.
proof fn lemma_options_before(body: BodyModel, n: int)
    requires
        0 <= n <= body.lines.len(),
        body.heading_row + 1 + body.lines.len() <= u32::MAX,
        body.heading_row >= 0,
    ensures
        forall|i: int|
            0 <= i < body.options_before(n).len() ==> {
                let option = #[trigger] body.options_before(n)[i];
                let o = option.row - body.heading_row - 1;
                0 <= o < n && body.role(o) == LineRole::Choice(option.letter, option.text)
            },
        forall|i: int, j: int|
            0 <= i < j < body.options_before(n).len() ==> (#[trigger] body.options_before(n)[i]).row
                < (#[trigger] body.options_before(n)[j]).row,
        forall|o: int|
            0 <= o < n && #[trigger] body.role(o) is Choice ==> exists|i: int|
                0 <= i < body.options_before(n).len() && (
                #[trigger] body.options_before(n)[i]).row == body.heading_row + 1 + o
                    && body.options_before(n)[i].letter == body.role(o)->Choice_0
                    && body.options_before(n)[i].text == body.role(o)->Choice_1,
    decreases n,
{
    if n > 0 {
        lemma_options_before(body, n - 1);
        let before = body.options_before(n - 1);
        let after = body.options_before(n);
        assert forall|i: int| 0 <= i < before.len() implies #[trigger] after[i] == before[i] by {}
        assert forall|o: int| 0 <= o < n && #[trigger] body.role(o) is Choice implies exists|i: int|
            0 <= i < after.len() && (#[trigger] after[i]).row == body.heading_row + 1 + o
                && after[i].letter == body.role(o)->Choice_0 && after[i].text
                == body.role(o)->Choice_1 by {
            if o < n - 1 {
                let i = choose|i: int|
                    0 <= i < before.len() && (#[trigger] before[i]).row == body.heading_row + 1 + o
                        && before[i].letter == body.role(o)->Choice_0 && before[i].text
                        == body.role(o)->Choice_1;
                assert(after[i] == before[i]);
            } else {
                assert(after[before.len() as int].row == body.heading_row + 1 + o);
            }
        }
    }
}

/// A text that neither quotes nor white space surround stays when they are taken
/// away.
proof fn lemma_unquoted(text: Seq<char>)
    requires
        text.len() > 0,
        !is_whitespace(text[0]) && !is_whitespace(text.last()),
        text[0] != '"' && text[0] != '\'' && text.last() != '"' && text.last() != '\'',
    ensures
        without_quotes(text) == text,
{
    let quotes = CharClass::Either('"', '\'');
    let n = text.len() as int;
    lemma_run_start_is(text, n, quotes, n);
    assert(text.take(n) =~= text);
    lemma_run_end_is(text, 0, quotes, 0);
    assert(text.skip(0) =~= text);
    lemma_trim_keeps(text);
}

proof fn lemma_option_line(line: Seq<char>, letter: char, mark: char, text: Seq<char>)
    requires
        'A' <= letter <= 'Z',
        mark == '.' || mark == ')',
        line == seq![letter, mark, ' '] + text,
        text.len() > 0,
        !is_whitespace(text[0]),
    ensures
        lettered_option(line) == Some((letter, text)),
        answer_text(line) is None,
{
    assert(line[0] == letter && line[1] == mark && line[2] == ' ' && line[3] == text[0]);
    lemma_run_end_is(line, 2, CharClass::Blank, 3);
    assert(line.skip(3) =~= text);
    reveal_strlit("[Answer]:");
    if occurs_at(line, 0, "[Answer]:"@) {
        assert(line.subrange(0, 9)[0] == '[');
    }
}

/// Whether a body is that of the section of a question with a number.
spec fn is_body(rows: Seq<Seq<char>>, row: int, end: int, body: BodyModel) -> bool {
    &&& fits_rows(rows)
    &&& 0 <= row < end <= rows.len()
    &&& body.heading_row == row
    &&& body.kind == QuestionKind::Single || body.kind == QuestionKind::Multi
    &&& body.label_line is None
    &&& body.lines == rows.subrange(row + 1, end)
    &&& body.hidden == hidden_rows(rows).subrange(row + 1, end)
}

proof fn lemma_answer_role(rows: Seq<Seq<char>>, row: int, end: int, body: BodyModel, o: int)
    requires
        is_body(rows, row, end, body),
        0 <= o < body.lines.len(),
    ensures
        (body.role(o) is Answer) == is_answer_row(rows, row + 1 + o),
        body.role(o) is Answer ==> body.role(o)->Answer_0 == trim(rows[row + 1 + o].skip(9)),
{
    reveal_strlit("[Answer]:");
    assert("[Answer]:"@.len() == 9);
    let line = body.lines[o];
    assert(line == rows[row + 1 + o]);
    if line.len() >= 9 {
        assert(line.subrange(0, 9) =~= line.take(9));
    }
}

/// No answer line stands before the answer.
proof fn lemma_answer_is_first(rows: Seq<Seq<char>>, row: int, end: int, body: BodyModel)
    requires
        is_body(rows, row, end, body),
    ensures
        0 <= body.answer_offset() <= body.lines.len(),
        no_answer_before(rows, row + 1, row + 1 + body.answer_offset()),
        body.answer_offset() < body.lines.len() ==> is_answer_row(
            rows,
            row + 1 + body.answer_offset(),
        ),
{
    lemma_answer_from(body, 0);
    let at = body.answer_offset();
    assert forall|k: int| row + 1 <= k < row + 1 + at implies !#[trigger] is_answer_row(
        rows,
        k,
    ) by {
        lemma_answer_role(rows, row, end, body, k - row - 1);
        assert(!(body.role(k - row - 1) is Answer));
    }
    if at < body.lines.len() {
        lemma_answer_role(rows, row, end, body, at);
    }
}

proof fn lemma_reads_answer(
    rows: Seq<Seq<char>>,
    row: int,
    end: int,
    body: BodyModel,
    title: Seq<char>,
)
    requires
        is_body(rows, row, end, body),
    ensures
        reads_answer(rows, row, end, body.question(title)),
{
    let question = body.question(title);
    let at = body.answer_offset();
    lemma_answer_is_first(rows, row, end, body);
    assert forall|k: int|
        row < k < end && #[trigger] is_answer_row(rows, k) && no_answer_before(
            rows,
            row + 1,
            k,
        ) implies question.answer == Some((k as u32, trim(rows[k].skip(9)))) by {
        if at < k - row - 1 {
            assert(is_answer_row(rows, row + 1 + at));
        }
        assert(at == k - row - 1);
        lemma_answer_role(rows, row, end, body, at);
    }
    if no_answer_before(rows, row + 1, end) && at < body.lines.len() {
        assert(is_answer_row(rows, row + 1 + at));
    }
}

proof fn lemma_reads_option(
    rows: Seq<Seq<char>>,
    row: int,
    end: int,
    body: BodyModel,
    title: Seq<char>,
    k: int,
    letter: char,
    text: Seq<char>,
)
    requires
        is_body(rows, row, end, body),
        row < k < end,
        is_option_row(rows, k, letter, text),
        no_answer_before(rows, row + 1, k),
    ensures
        has_option(body.question(title), k, letter, text),
{
    let at = body.answer_offset();
    let o = k - row - 1;
    lemma_answer_is_first(rows, row, end, body);
    lemma_options_before(body, at);
    assert(body.lines[o] == rows[k]);
    let mark = if rows[k] == seq![letter, '.', ' '] + text {
        '.'
    } else {
        ')'
    };
    lemma_option_line(rows[k], letter, mark, text);
    lemma_unquoted(text);
    assert(body.role(o) == LineRole::Choice(Some(letter), text));
    lemma_answer_role(rows, row, end, body, o);
    if at <= o {
        assert(is_answer_row(rows, row + 1 + at));
    }
    let i = choose|i: int|
        0 <= i < body.options_before(at).len() && (#[trigger] body.options_before(at)[i]).row
            == body.heading_row + 1 + o && body.options_before(at)[i].letter == body.role(
            o,
        )->Choice_0 && body.options_before(at)[i].text == body.role(o)->Choice_1;
    assert(body.question(title).options[i].row == k);
}

proof fn lemma_option_stands(
    rows: Seq<Seq<char>>,
    row: int,
    end: int,
    body: BodyModel,
    title: Seq<char>,
    i: int,
)
    requires
        is_body(rows, row, end, body),
        0 <= i < body.question(title).options.len(),
    ensures
        stands_at(rows, row, end, body.question(title).options[i]),
{
    let at = body.answer_offset();
    lemma_answer_is_first(rows, row, end, body);
    lemma_options_before(body, at);
    let option = body.options_before(at)[i];
    let o = option.row - row - 1;
    let line = rows[option.row as int];
    assert(body.role(o) == LineRole::Choice(option.letter, option.text));
    assert(body.lines[o] == line);
    assert(lettered_option(line) is Some);
    crate::text::lemma_run_end(line, 2, CharClass::Blank);
    assert(no_answer_before(rows, row + 1, option.row as int));
}

proof fn lemma_reads_section(
    rows: Seq<Seq<char>>,
    row: int,
    end: int,
    body: BodyModel,
    title: Seq<char>,
)
    requires
        is_body(rows, row, end, body),
    ensures
        reads_section(rows, row, end, body.question(title)),
{
    let question = body.question(title);
    lemma_reads_answer(rows, row, end, body, title);
    assert forall|k: int, letter: char, text: Seq<char>|
        row < k < end && #[trigger] is_option_row(rows, k, letter, text) && no_answer_before(
            rows,
            row + 1,
            k,
        ) implies has_option(question, k, letter, text) by {
        lemma_reads_option(rows, row, end, body, title, k, letter, text);
    }
    assert forall|i: int| 0 <= i < question.options.len() implies stands_at(
        rows,
        row,
        end,
        #[trigger] question.options[i],
    ) by {
        lemma_option_stands(rows, row, end, body, title, i);
    }
    lemma_answer_is_first(rows, row, end, body);
    lemma_options_before(body, body.answer_offset());
}

/// A heading with a number that nothing hides has a section of its own: a question
/// with the heading as its title, the options that stand below it before the first
/// answer line, in their order, and what that line holds.
pub proof fn law_questions_are_read(
    rows: Seq<Seq<char>>,
    row: int,
    level: nat,
    heading: NumberedHeading,
)
    requires
        fits_rows(rows),
        0 <= row < rows.len(),
        !is_inactive(rows, row),
        1 <= level <= 6,
        heading.is_valid(),
        heading.text.last() != '#',
        rows[row] == hashes(level) + seq![' '] + heading.line(),
    ensures
        exists|j: int|
            0 <= j < sections_of_rows(rows).len() && is_question_of(
                rows,
                row,
                heading,
                #[trigger] sections_of_rows(rows)[j],
            ),
{
    let line = heading.line();
    let end = next_heading(rows, row + 1);
    lemma_word(heading);
    assert(line.last() == heading.text.last());
    assert(!is_whitespace(line[0])) by {
        if heading.word.len() > 0 {
            assert(line[0] == heading.word[0]);
        } else {
            assert(line[0] == heading.number[0]);
            assert('0' <= heading.number[0] <= '9');
        }
    }
    law_heading_lines(level, line);
    lemma_next_heading(rows, row + 1);
    lemma_next_heading(rows, 0);
    let first = next_heading(rows, 0);
    let lines = rows.subrange(row + 1, end);
    let hidden = hidden_rows(rows).subrange(row + 1, end);
    law_numbered_headings_ask(heading, lines, hidden);
    lemma_number(heading);
    assert(is_heading(rows, row));
    lemma_asking_section(rows, first, with_markdown(seq![], rows.take(first)), row);
    let question = question_at(rows, row, end)->0;
    let j = choose|j: int|
        0 <= j < sections_of_rows(rows).len() && #[trigger] sections_of_rows(rows)[j]
            == SectionModel::Question(question);
    let body = BodyModel {
        heading_row: row,
        kind: question_kind(line, lines, hidden)->0,
        label_line: None,
        lines,
        hidden,
    };
    if body.kind == QuestionKind::Single || body.kind == QuestionKind::Multi {
        lemma_reads_section(rows, row, end, body, line);
    }
    assert(is_question_of(rows, row, heading, sections_of_rows(rows)[j]));
}

/// Whether a section is the question that a heading with a number asks.
pub open spec fn is_question_of(
    rows: Seq<Seq<char>>,
    row: int,
    heading: NumberedHeading,
    section: SectionModel,
) -> bool {
    &&& section is Question
    &&& section->Question_0.heading_row == row
    &&& section->Question_0.title == heading.line()
    &&& special_kind(question_label(heading.text)) is None ==> {
        &&& section->Question_0.kind == QuestionKind::Single || section->Question_0.kind
            == QuestionKind::Multi
        &&& reads_section(rows, row, next_heading(rows, row + 1), section->Question_0)
        &&& (forall|i: int|
            0 <= i && i + 23 <= lowercase(heading.text).len() ==> #[trigger] lowercase(
                heading.text,
            ).subrange(i, i + 23) != "(select all that apply)"@) ==> section->Question_0.kind
            == QuestionKind::Single
    }
}

} // verus!
