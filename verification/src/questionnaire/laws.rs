//! What holds of every questionnaire that is read, and of one that is read
//! again after an answer was written into it.

use vstd::prelude::*;

use crate::questionnaire::answer::answer_line_of;
use crate::questionnaire::document::{
    first_text, hidden_rows, is_heading, label_line_of, lemma_next_heading, next_heading,
    question_at, question_kind, question_text, sections_from, sections_of, sections_of_rows,
    source_lines, with_markdown, BodyModel, LineRole, QuestionModel, SectionModel,
};
use crate::questionnaire::grammar::{
    answer_text, fence_opened, heading_title_of, is_inactive, region_after, region_before, Region,
};
use crate::questionnaire::round_trip::{law_answer_line_round_trip, lemma_trim};
use crate::text::{contains_part, is_ascii_upper, is_whitespace, joined, run_end, trim, CharClass};

verus! {

/// The sections that stand stay: questions as they are, and markdown as
/// markdown, though more may join it.
pub proof fn lemma_sections_stay(rows: Seq<Seq<char>>, row: int, sections: Seq<SectionModel>)
    requires
        0 <= row <= rows.len(),
    ensures
        sections_from(rows, row, sections).len() >= sections.len(),
        forall|j: int|
            0 <= j < sections.len() ==> {
                let after = #[trigger] sections_from(rows, row, sections)[j];
                &&& sections[j] is Question ==> after == sections[j]
                &&& sections[j] is Markdown ==> after is Markdown
            },
    decreases rows.len() - row,
{
    if row < rows.len() {
        lemma_next_heading(rows, row + 1);
        let end = next_heading(rows, row + 1);
        let more = match question_at(rows, row, end) {
            Some(question) => sections.push(SectionModel::Question(question)),
            None => with_markdown(sections, rows.subrange(row, end)),
        };
        lemma_sections_stay(rows, end, more);
        assert forall|j: int| 0 <= j < sections.len() implies {
            let after = #[trigger] sections_from(rows, row, sections)[j];
            &&& sections[j] is Question ==> after == sections[j]
            &&& sections[j] is Markdown ==> after is Markdown
        } by {
            let after = sections_from(rows, end, more)[j];
            assert(sections[j] is Question ==> more[j] == sections[j]);
            assert(sections[j] is Markdown ==> more[j] is Markdown);
        }
    }
}

/// Whether two lists of sections agree on where markdown stands, hold no empty
/// markdown and keep markdown apart.
pub open spec fn is_tidy(sections: Seq<SectionModel>) -> bool {
    &&& forall|j: int|
        0 <= j < sections.len() && (#[trigger] sections[j]) is Markdown
            ==> sections[j]->Markdown_0.len() > 0
    &&& forall|j: int, k: int|
        0 <= j && k == j + 1 && k < sections.len() ==> !((#[trigger] sections[j]) is Markdown && (
        #[trigger] sections[k]) is Markdown)
}

proof fn lemma_markdown_tidy(sections: Seq<SectionModel>, lines: Seq<Seq<char>>)
    requires
        is_tidy(sections),
    ensures
        is_tidy(with_markdown(sections, lines)),
{
    let after = with_markdown(sections, lines);
    let text = trim(joined(lines, "\n"@));
    if text.len() > 0 {
        assert forall|j: int|
            0 <= j < after.len() && (#[trigger] after[j]) is Markdown implies after[j]->Markdown_0.len()
            > 0 by {
            if j < after.len() - 1 {
                assert(after[j] == sections[j]);
            }
        }
        assert forall|j: int, k: int|
            0 <= j && k == j + 1 && k < after.len() implies !((#[trigger] after[j]) is Markdown && (
        #[trigger] after[k]) is Markdown) by {
            assert(after[j] == sections[j]);
            if k < sections.len() {
                assert(after[k] is Markdown ==> sections[k] is Markdown);
            }
        }
    }
}

proof fn lemma_sections_tidy(rows: Seq<Seq<char>>, row: int, sections: Seq<SectionModel>)
    requires
        0 <= row <= rows.len(),
        is_tidy(sections),
    ensures
        is_tidy(sections_from(rows, row, sections)),
    decreases rows.len() - row,
{
    if row < rows.len() {
        lemma_next_heading(rows, row + 1);
        let end = next_heading(rows, row + 1);
        match question_at(rows, row, end) {
            Some(question) => {
                let more = sections.push(SectionModel::Question(question));
                assert(is_tidy(more)) by {
                    assert forall|j: int, k: int|
                        0 <= j && k == j + 1 && k < more.len() implies !((
                    #[trigger] more[j]) is Markdown && (#[trigger] more[k]) is Markdown) by {
                        if k < sections.len() {
                            assert(more[j] == sections[j]);
                            assert(more[k] == sections[k]);
                        }
                    }
                }
                lemma_sections_tidy(rows, end, more);
            },
            None => {
                lemma_markdown_tidy(sections, rows.subrange(row, end));
                lemma_sections_tidy(rows, end, with_markdown(sections, rows.subrange(row, end)));
            },
        }
    }
}

/// Markdown that is not interrupted by a question is one chunk, and no chunk
/// is empty.
pub proof fn law_markdown_is_joined(text: Seq<char>)
    ensures
        is_tidy(sections_of(text)),
{
    let rows = source_lines(text);
    lemma_next_heading(rows, 0);
    let first = next_heading(rows, 0);
    let none = Seq::<SectionModel>::empty();
    lemma_markdown_tidy(none, rows.take(first));
    lemma_sections_tidy(rows, first, with_markdown(none, rows.take(first)));
}

/// Every option that is read has a capital letter or none.
proof fn lemma_option_letters(body: BodyModel, n: int)
    requires
        0 <= n <= body.lines.len(),
    ensures
        forall|j: int|
            0 <= j < body.options_before(n).len() ==> ((
            #[trigger] body.options_before(n)[j]).letter matches Some(letter) ==> is_ascii_upper(
                letter,
            )),
    decreases n,
{
    if n > 0 {
        lemma_option_letters(body, n - 1);
    }
}

/// Where the option that asks for free text stands among the options.
proof fn lemma_other_from(block: QuestionModel, from: int)
    requires
        0 <= from,
    ensures
        block.other_from(from) matches Some(index) ==> from <= index < block.options.len(),
    decreases block.options.len() - from,
{
    if from < block.options.len() && !block.options[from].is_other {
        lemma_other_from(block, from + 1);
    }
}

pub proof fn lemma_answer_from(body: BodyModel, from: int)
    requires
        0 <= from <= body.lines.len(),
    ensures
        from <= body.answer_from(from) <= body.lines.len(),
        body.answer_from(from) < body.lines.len() ==> body.role(body.answer_from(from)) is Answer,
        forall|k: int| from <= k < body.answer_from(from) ==> !(#[trigger] body.role(k) is Answer),
    decreases body.lines.len() - from,
{
    if from < body.lines.len() && !(body.role(from) is Answer) {
        lemma_answer_from(body, from + 1);
    }
}

pub open spec fn has_plain_options(sections: Seq<SectionModel>) -> bool {
    forall|j: int|
        0 <= j < sections.len() && (#[trigger] sections[j]) is Question
            ==> sections[j]->Question_0.has_plain_other()
}

proof fn lemma_sections_plain(rows: Seq<Seq<char>>, row: int, sections: Seq<SectionModel>)
    requires
        0 <= row <= rows.len(),
        has_plain_options(sections),
    ensures
        has_plain_options(sections_from(rows, row, sections)),
    decreases rows.len() - row,
{
    if row < rows.len() {
        lemma_next_heading(rows, row + 1);
        let end = next_heading(rows, row + 1);
        let more = match question_at(rows, row, end) {
            Some(question) => sections.push(SectionModel::Question(question)),
            None => with_markdown(sections, rows.subrange(row, end)),
        };
        match question_at(rows, row, end) {
            Some(question) => {
                let heading = heading_title_of(rows[row])->0;
                let lines = rows.subrange(row + 1, end);
                let hidden = hidden_rows(rows).subrange(row + 1, end);
                let body = BodyModel {
                    heading_row: row,
                    kind: question_kind(heading, lines, hidden)->0,
                    label_line: label_line_of(heading, lines, hidden),
                    lines,
                    hidden,
                };
                lemma_answer_from(body, 0);
                lemma_option_letters(body, body.answer_offset());
                lemma_other_from(question, 0);
            },
            None => {},
        }
        assert forall|j: int| 0 <= j < more.len() && (
        #[trigger] more[j]) is Question implies more[j]->Question_0.has_plain_other() by {
            if j < sections.len() {
                assert(more[j] is Question ==> more[j] == sections[j]);
            }
        }
        lemma_sections_plain(rows, end, more);
    }
}

/// The letter for free text of every question that is read is plain.
pub proof fn law_letters_are_plain(text: Seq<char>)
    ensures
        has_plain_options(sections_of(text)),
{
    let rows = source_lines(text);
    lemma_next_heading(rows, 0);
    let first = next_heading(rows, 0);
    lemma_sections_plain(rows, first, with_markdown(seq![], rows.take(first)));
}

/// Whether the rows that a question was read from lie behind `after`, and
/// neither a fence nor a comment hides them.
pub open spec fn stands_in(rows: Seq<Seq<char>>, question: QuestionModel, after: int) -> bool {
    &&& exists|row: int|
        #![trigger is_heading(rows, row)]
        after <= row < rows.len() && question.heading_row == row as u32 && is_heading(rows, row)
    &&& question.answer matches Some((answer_row, _)) ==> exists|row: int|
        #![trigger is_inactive(rows, row)]
        after < row < rows.len() && answer_row == row as u32 && !is_inactive(rows, row)
    &&& forall|j: int|
        0 <= j < question.options.len() ==> option_stands(
            rows,
            (#[trigger] question.options[j]).row,
            after,
        )
}

pub open spec fn option_stands(rows: Seq<Seq<char>>, option_row: u32, after: int) -> bool {
    exists|row: int|
        #![trigger is_inactive(rows, row)]
        after < row < rows.len() && option_row == row as u32 && !is_inactive(rows, row)
}

/// The body of the section below the heading at `row`.
pub open spec fn body_at(rows: Seq<Seq<char>>, row: int, end: int) -> BodyModel {
    let heading = heading_title_of(rows[row])->0;
    let lines = rows.subrange(row + 1, end);
    let hidden = hidden_rows(rows).subrange(row + 1, end);
    BodyModel {
        heading_row: row,
        kind: question_kind(heading, lines, hidden)->0,
        label_line: label_line_of(heading, lines, hidden),
        lines,
        hidden,
    }
}

proof fn lemma_options_stand(rows: Seq<Seq<char>>, row: int, end: int, n: int)
    requires
        0 <= row < end <= rows.len(),
        0 <= n <= end - row - 1,
    ensures
        forall|j: int|
            0 <= j < body_at(rows, row, end).options_before(n).len() ==> option_stands(
                rows,
                (#[trigger] body_at(rows, row, end).options_before(n)[j]).row,
                row,
            ),
    decreases n,
{
    if n > 0 {
        let body = body_at(rows, row, end);
        lemma_options_stand(rows, row, end, n - 1);
        if body.role(n - 1) is Choice {
            assert(!is_inactive(rows, row + n));
            assert(body.row(n - 1) == (row + n) as u32);
            assert(option_stands(rows, body.row(n - 1), row));
        }
    }
}

proof fn lemma_question_stands(rows: Seq<Seq<char>>, row: int, end: int)
    requires
        0 <= row < end <= rows.len(),
        is_heading(rows, row),
    ensures
        question_at(rows, row, end) matches Some(question) ==> stands_in(rows, question, row),
{
    if let Some(question) = question_at(rows, row, end) {
        let body = body_at(rows, row, end);
        lemma_answer_from(body, 0);
        let at = body.answer_offset();
        lemma_options_stand(rows, row, end, at);
        assert(is_heading(rows, row));
        if at < body.lines.len() {
            assert(body.role(at) is Answer);
            assert(!is_inactive(rows, row + 1 + at));
        }
    }
}

/// Every question behind the sections that stand was read at or below `row`.
proof fn lemma_sections_stand(
    rows: Seq<Seq<char>>,
    row: int,
    sections: Seq<SectionModel>,
    j: int,
)
    requires
        0 <= row <= rows.len(),
        row < rows.len() ==> is_heading(rows, row),
        sections.len() <= j < sections_from(rows, row, sections).len(),
        sections_from(rows, row, sections)[j] is Question,
    ensures
        stands_in(rows, sections_from(rows, row, sections)[j]->Question_0, row),
    decreases rows.len() - row,
{
    if row < rows.len() {
        lemma_next_heading(rows, row + 1);
        let end = next_heading(rows, row + 1);
        let more = match question_at(rows, row, end) {
            Some(question) => sections.push(SectionModel::Question(question)),
            None => with_markdown(sections, rows.subrange(row, end)),
        };
        lemma_sections_stay(rows, end, more);
        lemma_question_stands(rows, row, end);
        if j < more.len() {
            assert(more[j] is Question);
        } else {
            lemma_sections_stand(rows, end, more, j);
            let question = sections_from(rows, end, more)[j]->Question_0;
            assert(stands_in(rows, question, end));
            assert forall|k: int| 0 <= k < question.options.len() implies option_stands(
                rows,
                (#[trigger] question.options[k]).row,
                row,
            ) by {
                assert(option_stands(rows, question.options[k].row, end));
            }
        }
    }
}

/// Code fences and comments hide headings, options and answers: what a question
/// was read from is active, its heading before its options and its answer.
pub proof fn law_questions_are_active(text: Seq<char>, j: int)
    requires
        0 <= j < sections_of(text).len(),
        sections_of(text)[j] is Question,
    ensures
        stands_in(source_lines(text), sections_of(text)[j]->Question_0, 0),
{
    let rows = source_lines(text);
    lemma_next_heading(rows, 0);
    let first = next_heading(rows, 0);
    let sections = with_markdown(seq![], rows.take(first));
    lemma_sections_stay(rows, first, sections);
    if j < sections.len() {
        assert(sections[j] is Markdown);
    } else {
        lemma_sections_stand(rows, first, sections, j);
        let question = sections_of(text)[j]->Question_0;
        assert(stands_in(rows, question, first));
        assert forall|k: int| 0 <= k < question.options.len() implies option_stands(
            rows,
            (#[trigger] question.options[k]).row,
            0,
        ) by {
            assert(option_stands(rows, question.options[k].row, first));
        }
    }
}

/// A line that begins with `[` neither opens a fence nor is a heading.
proof fn lemma_bracket_line(line: Seq<char>)
    requires
        line.len() > 0,
        line[0] == '[',
    ensures
        fence_opened(line) is None,
        heading_title_of(line) is None,
        trim(line).len() > 0,
{
    assert(run_end(line, 0, CharClass::Exactly(' ')) == 0);
    assert(run_end(line, 0, CharClass::Exactly('#')) == 0);
    lemma_trim(line);
    if trim(line).len() == 0 {
        let (from, to) = choose|from: int, to: int|
            0 <= from <= to <= line.len() && trim(line) == #[trigger] line.subrange(from, to) && (
            forall|k: int| 0 <= k < from ==> is_whitespace(#[trigger] line[k])) && (forall|k: int|
                to <= k < line.len() ==> is_whitespace(#[trigger] line[k]));
        assert(is_whitespace(line[0]));
    }
}

/// Replacing an active line that opens nothing by one that opens nothing
/// leaves every row as active as it was.
proof fn lemma_same_regions(rows: Seq<Seq<char>>, at: int, line: Seq<char>, row: int)
    requires
        0 <= at < rows.len(),
        0 <= row <= rows.len(),
        !is_inactive(rows, at),
        region_after(Region::Open, line) == Region::Open,
    ensures
        region_before(rows.update(at, line), row) == region_before(rows, row),
    decreases row,
{
    if row > 0 {
        lemma_same_regions(rows, at, line, row - 1);
    }
}

pub proof fn lemma_same_headings(rows: Seq<Seq<char>>, at: int, line: Seq<char>, from: int)
    requires
        0 <= at < rows.len(),
        0 <= from <= rows.len(),
        !is_inactive(rows, at),
        region_after(Region::Open, line) == Region::Open,
        heading_title_of(rows[at]) is Some == heading_title_of(line) is Some,
    ensures
        next_heading(rows.update(at, line), from) == next_heading(rows, from),
    decreases rows.len() - from,
{
    if from < rows.len() {
        lemma_same_regions(rows, at, line, from);
        lemma_same_headings(rows, at, line, from + 1);
    }
}

pub proof fn lemma_same_hidden(rows: Seq<Seq<char>>, at: int, line: Seq<char>)
    requires
        0 <= at < rows.len(),
        !is_inactive(rows, at),
        region_after(Region::Open, line) == Region::Open,
    ensures
        hidden_rows(rows.update(at, line)) == hidden_rows(rows),
{
    assert forall|row: int| 0 <= row < rows.len() implies is_inactive(rows.update(at, line), row)
        == is_inactive(rows, row) by {
        lemma_same_regions(rows, at, line, row);
    }
    assert(hidden_rows(rows.update(at, line)) =~= hidden_rows(rows));
}

/// The line that asks is found where it was.
proof fn lemma_same_first_text(
    lines: Seq<Seq<char>>,
    hidden: Seq<bool>,
    at: int,
    line: Seq<char>,
    from: int,
)
    requires
        0 <= at < lines.len(),
        0 <= from,
        trim(lines[at]).len() > 0,
        trim(line).len() > 0,
    ensures
        first_text(lines.update(at, line), hidden, from) == first_text(lines, hidden, from),
        first_text(lines, hidden, from) matches Some(index) ==> from <= index < lines.len(),
    decreases lines.len() - from,
{
    if from < lines.len() {
        lemma_same_first_text(lines, hidden, at, line, from + 1);
    }
}

/// Two bodies that agree on the roles of the first lines have the same options,
/// fingerprint and text there.
proof fn lemma_same_before(a: BodyModel, b: BodyModel, n: int)
    requires
        0 <= n <= a.lines.len(),
        a.lines.len() == b.lines.len(),
        a.heading_row == b.heading_row,
        forall|k: int| 0 <= k < n ==> #[trigger] a.role(k) == b.role(k),
        forall|k: int| 0 <= k < n ==> #[trigger] a.lines[k] == b.lines[k],
    ensures
        a.options_before(n) == b.options_before(n),
        a.fingerprint_before(n) == b.fingerprint_before(n),
        a.body_before(n) == b.body_before(n),
    decreases n,
{
    if n > 0 {
        lemma_same_before(a, b, n - 1);
        assert(a.role(n - 1) == b.role(n - 1));
        assert(a.lines[n - 1] == b.lines[n - 1]);
    }
}

proof fn lemma_same_answer_from(a: BodyModel, b: BodyModel, from: int)
    requires
        0 <= from,
        a.lines.len() == b.lines.len(),
        forall|k: int|
            from <= k < a.lines.len() ==> (#[trigger] a.role(k) is Answer) == (b.role(k) is Answer),
    ensures
        a.answer_from(from) == b.answer_from(from),
    decreases a.lines.len() - from,
{
    if from < a.lines.len() {
        assert((a.role(from) is Answer) == (b.role(from) is Answer));
        lemma_same_answer_from(a, b, from + 1);
    }
}

proof fn lemma_same_tail(a: BodyModel, b: BodyModel, from: int, n: int)
    requires
        0 <= from,
        n <= a.lines.len(),
        a.lines.len() == b.lines.len(),
        forall|k: int| from <= k < n ==> #[trigger] a.role(k) == b.role(k),
        forall|k: int| from <= k < n ==> #[trigger] a.lines[k] == b.lines[k],
    ensures
        a.tail_between(from, n) == b.tail_between(from, n),
    decreases n,
{
    if n > from && n > 0 {
        lemma_same_tail(a, b, from, n - 1);
        assert(a.role(n - 1) == b.role(n - 1));
        assert(a.lines[n - 1] == b.lines[n - 1]);
    }
}

/// Writing an answer over the answer of a question changes the answer of that
/// question and nothing else of it.
proof fn lemma_question_written(
    rows: Seq<Seq<char>>,
    row: int,
    end: int,
    at: int,
    raw: Seq<char>,
)
    requires
        0 <= row < at < end <= rows.len(),
        question_at(rows, row, end) is Some,
        (question_at(rows, row, end)->0).answer is Some,
        body_at(rows, row, end).answer_offset() == at - row - 1,
        !is_inactive(rows, at),
        region_after(Region::Open, answer_line_of(raw)) == Region::Open,
    ensures
        question_at(rows.update(at, answer_line_of(raw)), row, end) == Some(
            (question_at(rows, row, end)->0).answered(at as u32, trim(raw)),
        ),
{
    let line = answer_line_of(raw);
    let written = rows.update(at, line);
    let offset = at - row - 1;
    let a = body_at(rows, row, end);
    let b = body_at(written, row, end);
    reveal_strlit("[Answer]:");
    reveal_strlit("[Answer]: ");
    law_answer_line_round_trip(raw);
    assert(line[0] == '[');
    lemma_bracket_line(line);
    lemma_answer_from(a, 0);
    assert(a.role(offset) is Answer);
    assert(a.lines[offset] == rows[at]);
    assert(rows[at].subrange(0, 9) == "[Answer]:"@);
    assert(rows[at].subrange(0, 9)[0] == '[');
    lemma_bracket_line(rows[at]);
    lemma_same_hidden(rows, at, line);
    assert(b.lines =~= a.lines.update(offset, line));
    assert(b.hidden == a.hidden);
    lemma_same_first_text(a.lines, a.hidden, offset, line, 0);
    assert(b.label_line == a.label_line);
    let heading = heading_title_of(rows[row])->0;
    match a.label_line {
        Some(index) => {
            assert(index != offset);
            assert(b.lines[index] == a.lines[index]);
        },
        None => {},
    }
    assert(question_text(heading, b.lines, b.hidden) == question_text(heading, a.lines, a.hidden));
    assert(b.kind == a.kind);
    assert forall|k: int| 0 <= k < a.lines.len() && k != offset implies #[trigger] a.role(k)
        == b.role(k) by {
        assert(b.lines[k] == a.lines[k]);
    }
    assert(b.role(offset) == LineRole::Answer(trim(raw)));
    lemma_same_before(a, b, offset);
    lemma_same_answer_from(a, b, 0);
    lemma_same_answer_from(a, b, offset + 1);
    lemma_same_tail(a, b, offset + 1, a.lines.len() as int);
    assert(a.row(offset) == at as u32);
}

/// Lines outside a section do not change it.
pub proof fn lemma_question_untouched(
    rows: Seq<Seq<char>>,
    row: int,
    end: int,
    at: int,
    line: Seq<char>,
)
    requires
        0 <= row < end <= rows.len(),
        0 <= at < rows.len(),
        at < row || end <= at,
        !is_inactive(rows, at),
        region_after(Region::Open, line) == Region::Open,
    ensures
        question_at(rows.update(at, line), row, end) == question_at(rows, row, end),
        rows.update(at, line).subrange(row, end) == rows.subrange(row, end),
{
    let written = rows.update(at, line);
    lemma_same_hidden(rows, at, line);
    assert(written.subrange(row + 1, end) =~= rows.subrange(row + 1, end));
    assert(written.subrange(row, end) =~= rows.subrange(row, end));
}

pub proof fn lemma_sections_untouched(
    rows: Seq<Seq<char>>,
    row: int,
    sections: Seq<SectionModel>,
    at: int,
    line: Seq<char>,
)
    requires
        0 <= at < row <= rows.len(),
        !is_inactive(rows, at),
        region_after(Region::Open, line) == Region::Open,
        heading_title_of(rows[at]) is Some == heading_title_of(line) is Some,
    ensures
        sections_from(rows.update(at, line), row, sections) == sections_from(rows, row, sections),
    decreases rows.len() - row,
{
    if row < rows.len() {
        lemma_next_heading(rows, row + 1);
        lemma_same_headings(rows, at, line, row + 1);
        let end = next_heading(rows, row + 1);
        lemma_question_untouched(rows, row, end, at, line);
        let more = match question_at(rows, row, end) {
            Some(question) => sections.push(SectionModel::Question(question)),
            None => with_markdown(sections, rows.subrange(row, end)),
        };
        lemma_sections_untouched(rows, end, more, at, line);
    }
}

/// A question that stands can be exchanged for another before or after the
/// rest is read.
proof fn lemma_sections_exchange(
    rows: Seq<Seq<char>>,
    row: int,
    sections: Seq<SectionModel>,
    j: int,
    question: QuestionModel,
)
    requires
        0 <= row <= rows.len(),
        0 <= j < sections.len(),
        sections[j] is Question,
    ensures
        sections_from(rows, row, sections.update(j, SectionModel::Question(question)))
            == sections_from(rows, row, sections).update(j, SectionModel::Question(question)),
    decreases rows.len() - row,
{
    if row < rows.len() {
        lemma_next_heading(rows, row + 1);
        let end = next_heading(rows, row + 1);
        let exchanged = sections.update(j, SectionModel::Question(question));
        match question_at(rows, row, end) {
            Some(next) => {
                let more = sections.push(SectionModel::Question(next));
                lemma_sections_exchange(rows, end, more, j, question);
                assert(exchanged.push(SectionModel::Question(next)) =~= more.update(
                    j,
                    SectionModel::Question(question),
                ));
            },
            None => {
                let lines = rows.subrange(row, end);
                let more = with_markdown(sections, lines);
                assert(more[j] is Question);
                lemma_sections_exchange(rows, end, more, j, question);
                assert(with_markdown(exchanged, lines) =~= more.update(
                    j,
                    SectionModel::Question(question),
                ));
            },
        }
    }
}

/// Whether rows can be counted in 32 bits.
pub open spec fn fits_rows(rows: Seq<Seq<char>>) -> bool {
    rows.len() <= u32::MAX
}

proof fn lemma_sections_written(
    rows: Seq<Seq<char>>,
    row: int,
    sections: Seq<SectionModel>,
    j: int,
    at: int,
    raw: Seq<char>,
)
    requires
        fits_rows(rows),
        0 <= row <= rows.len(),
        row < rows.len() ==> is_heading(rows, row),
        sections.len() <= j < sections_from(rows, row, sections).len(),
        sections_from(rows, row, sections)[j] matches SectionModel::Question(question)
            && question.answer matches Some((answer_row, _)) && answer_row == at,
        region_after(Region::Open, answer_line_of(raw)) == Region::Open,
    ensures
        row < at < rows.len(),
        !is_inactive(rows, at),
        answer_text(rows[at]) is Some,
        sections_from(rows.update(at, answer_line_of(raw)), row, sections) == sections_from(
            rows,
            row,
            sections,
        ).update(
            j,
            SectionModel::Question(
                sections_from(rows, row, sections)[j]->Question_0.answered(at as u32, trim(raw)),
            ),
        ),
    decreases rows.len() - row,
{
    assert(row < rows.len());
    let line = answer_line_of(raw);
    reveal_strlit("[Answer]:");
    reveal_strlit("[Answer]: ");
    assert(line[0] == '[');
    lemma_bracket_line(line);
    lemma_next_heading(rows, row + 1);
    let end = next_heading(rows, row + 1);
    let more = match question_at(rows, row, end) {
        Some(question) => sections.push(SectionModel::Question(question)),
        None => with_markdown(sections, rows.subrange(row, end)),
    };
    lemma_sections_stay(rows, end, more);
    lemma_sections_stand(rows, row, sections, j);
    let question = sections_from(rows, row, sections)[j]->Question_0;
    let answer_row = (question.answer->0).0;
    let found = choose|r: int|
        #![trigger is_inactive(rows, r)]
        row < r < rows.len() && answer_row == r as u32 && !is_inactive(rows, r);
    assert(found == at);
    if j < more.len() {
        assert(more[j] is Question);
        assert(j == sections.len());
        assert(more[j] == sections_from(rows, end, more)[j]);
        assert(question_at(rows, row, end) == Some(question));
        let body = body_at(rows, row, end);
        lemma_answer_from(body, 0);
        let offset = body.answer_offset();
        assert(answer_row == (row + 1 + offset) as u32);
        assert(offset == at - row - 1);
        assert(body.lines[offset] == rows[at]);
        assert(rows[at].subrange(0, 9)[0] == '[');
        lemma_bracket_line(rows[at]);
        lemma_question_written(rows, row, end, at, raw);
        lemma_same_headings(rows, at, line, row + 1);
        let written = question.answered(at as u32, trim(raw));
        let exchanged = sections.push(SectionModel::Question(written));
        lemma_sections_untouched(rows, end, exchanged, at, line);
        lemma_sections_exchange(rows, end, more, j, written);
        assert(exchanged =~= more.update(j, SectionModel::Question(written)));
    } else {
        lemma_sections_written(rows, end, more, j, at, raw);
        assert(rows[at].subrange(0, 9)[0] == '[');
        lemma_bracket_line(rows[at]);
        lemma_same_headings(rows, at, line, row + 1);
        lemma_question_untouched(rows, row, end, at, line);
    }
}

/// Rows read again after an answer was written over the answer of a question:
/// that question has the answer, and everything else is as it was.
pub proof fn law_rows_write_then_read(rows: Seq<Seq<char>>, j: int, raw: Seq<char>)
    requires
        fits_rows(rows),
        0 <= j < sections_of_rows(rows).len(),
        sections_of_rows(rows)[j] matches SectionModel::Question(question)
            && question.answer is Some,
        !contains_part(answer_line_of(raw), "<!--"@),
    ensures
        ({
            let question = sections_of_rows(rows)[j]->Question_0;
            let row = (question.answer->0).0;
            sections_of_rows(rows.update(row as int, answer_line_of(raw))) == sections_of_rows(
                rows,
            ).update(j, SectionModel::Question(question.answered(row, trim(raw))))
        }),
{
    let question = sections_of_rows(rows)[j]->Question_0;
    let at = (question.answer->0).0 as int;
    let line = answer_line_of(raw);
    reveal_strlit("[Answer]:");
    reveal_strlit("[Answer]: ");
    assert(line[0] == '[');
    lemma_bracket_line(line);
    assert(region_after(Region::Open, line) == Region::Open);
    lemma_next_heading(rows, 0);
    let first = next_heading(rows, 0);
    let sections = with_markdown(seq![], rows.take(first));
    lemma_sections_stay(rows, first, sections);
    if j < sections.len() {
        assert(sections[j] is Markdown);
    }
    lemma_sections_written(rows, first, sections, j, at, raw);
    assert(rows[at].subrange(0, 9)[0] == '[');
    lemma_bracket_line(rows[at]);
    lemma_same_headings(rows, at, line, 0);
    assert(rows.update(at, line).take(first) =~= rows.take(first));
}

} // verus!
