//! A questionnaire as a list of sections: markdown to read and questions to
//! answer.

use vstd::prelude::*;
use vstd::slice::slice_subrange;

use crate::questionnaire::grammar::{
    answer_text, bare_number, bullet_option, copied_all, fingerprint_value, has_question_id,
    heading_title, heading_title_of, inactive_rows, is_bare_number, is_inactive, lettered_option,
    parse_answer_line, parse_bullet_option, parse_fingerprint, parse_lettered_option, prefix_end,
    question_id, question_prefix, strip_comments, strip_emphasis, strip_quotes, without_comments,
    without_emphasis, without_quotes,
};
use crate::text::{
    chars_of, contains_part, contains_text, extend, extend_text, is_text, join, joined, lines,
    lines_of, lowercase, lowercased, spelled, starts_with, starts_with_text, text_of, trim,
    trim_end_of, trimmed, trimmed_end_of, CharClass,
};

verus! {

#[derive(Debug, PartialEq)]
pub struct QuestionnaireDocument {
    pub sections: Vec<Section>,
}

#[derive(Debug, PartialEq)]
pub enum Section {
    Markdown(MarkdownChunk),
    Question(QuestionBlock),
}

#[derive(Debug, PartialEq)]
pub struct MarkdownChunk {
    pub text: String,
}

#[derive(Debug, PartialEq)]
pub struct QuestionBlock {
    pub heading_row: u32,
    pub title: String,
    pub kind: QuestionKind,
    pub options: Vec<ChoiceOption>,
    pub answer: Option<AnswerLine>,
    pub read_only: Option<ReadOnlyReason>,
    pub fingerprint: Option<Fingerprint>,
    pub body: String,
    pub answer_tail: String,
}

#[derive(Debug, PartialEq)]
pub struct Fingerprint {
    pub row: u32,
    pub value: Option<String>,
}

#[derive(Debug, Clone, Copy, PartialEq, Eq, Structural)]
pub enum QuestionKind {
    Single,
    Multi,
    SummaryConfirmation,
    Feedback,
    AssumptionConfirmation,
    PlanApproval,
}

#[derive(Debug, PartialEq)]
pub struct ChoiceOption {
    pub row: u32,
    pub letter: Option<char>,
    pub text: String,
    pub is_other: bool,
}

#[derive(Debug, PartialEq)]
pub struct AnswerLine {
    pub row: u32,
    pub raw: String,
}

/// Why a question cannot be answered here.
#[derive(Debug, Clone, Copy, PartialEq, Eq, Structural)]
pub enum ReadOnlyReason {
    DuplicateAnswer,
    MultiLineAnswer,
}

/// What a [`ChoiceOption`] stands for.
pub struct OptionModel {
    pub row: u32,
    pub letter: Option<char>,
    pub text: Seq<char>,
    pub is_other: bool,
}

/// What a [`QuestionBlock`] stands for. An answer and a fingerprint are a row
/// and what stands there.
pub struct QuestionModel {
    pub heading_row: u32,
    pub title: Seq<char>,
    pub kind: QuestionKind,
    pub options: Seq<OptionModel>,
    pub answer: Option<(u32, Seq<char>)>,
    pub read_only: Option<ReadOnlyReason>,
    pub fingerprint: Option<(u32, Option<Seq<char>>)>,
    pub body: Seq<char>,
    pub answer_tail: Seq<char>,
}

/// What a [`Section`] stands for.
pub enum SectionModel {
    Markdown(Seq<char>),
    Question(QuestionModel),
}

impl View for ChoiceOption {
    type V = OptionModel;

    open spec fn view(&self) -> OptionModel {
        OptionModel {
            row: self.row,
            letter: self.letter,
            text: self.text@,
            is_other: self.is_other,
        }
    }
}

pub open spec fn option_models(options: Seq<ChoiceOption>) -> Seq<OptionModel> {
    Seq::new(options.len(), |i: int| options[i]@)
}

pub open spec fn answer_model(answer: Option<AnswerLine>) -> Option<(u32, Seq<char>)> {
    match answer {
        Some(line) => Some((line.row, line.raw@)),
        None => None,
    }
}

pub open spec fn fingerprint_model(fingerprint: Option<Fingerprint>) -> Option<
    (u32, Option<Seq<char>>),
> {
    match fingerprint {
        Some(fingerprint) => Some(
            (
                fingerprint.row,
                match fingerprint.value {
                    Some(value) => Some(value@),
                    None => None,
                },
            ),
        ),
        None => None,
    }
}

impl View for QuestionBlock {
    type V = QuestionModel;

    open spec fn view(&self) -> QuestionModel {
        QuestionModel {
            heading_row: self.heading_row,
            title: self.title@,
            kind: self.kind,
            options: option_models(self.options@),
            answer: answer_model(self.answer),
            read_only: self.read_only,
            fingerprint: fingerprint_model(self.fingerprint),
            body: self.body@,
            answer_tail: self.answer_tail@,
        }
    }
}

impl View for Section {
    type V = SectionModel;

    open spec fn view(&self) -> SectionModel {
        match self {
            Section::Markdown(chunk) => SectionModel::Markdown(chunk.text@),
            Section::Question(block) => SectionModel::Question(block@),
        }
    }
}

pub open spec fn section_models(sections: Seq<Section>) -> Seq<SectionModel> {
    Seq::new(sections.len(), |i: int| sections[i]@)
}

impl View for QuestionnaireDocument {
    type V = Seq<SectionModel>;

    open spec fn view(&self) -> Seq<SectionModel> {
        section_models(self.sections@)
    }
}

impl Default for QuestionnaireDocument {
    fn default() -> (document: Self)
        ensures
            document@ == Seq::<SectionModel>::empty(),
    {
        let document = QuestionnaireDocument { sections: Vec::new() };
        assert(document@ =~= Seq::<SectionModel>::empty());
        document
    }
}

/// The first offset from `from` on whose line is marked active and holds more
/// than white space.
pub open spec fn first_text(body: Seq<Seq<char>>, hidden: Seq<bool>, from: int) -> Option<int>
    decreases body.len() - from,
{
    if from < 0 || from >= body.len() || from >= hidden.len() {
        None
    } else if !hidden[from] && trim(body[from]).len() > 0 {
        Some(from)
    } else {
        first_text(body, hidden, from + 1)
    }
}

/// The line of the body that holds the question, where the heading is a number
/// and nothing else.
pub open spec fn label_line_of(heading: Seq<char>, body: Seq<Seq<char>>, hidden: Seq<bool>) -> Option<
    int,
> {
    if is_bare_number(heading) {
        first_text(body, hidden, 0)
    } else {
        None
    }
}

/// What a heading asks, without its number and its emphasis.
pub open spec fn question_text(heading: Seq<char>, body: Seq<Seq<char>>, hidden: Seq<bool>) -> Seq<
    char,
> {
    match label_line_of(heading, body, hidden) {
        Some(index) => without_emphasis(trim(body[index])),
        None => match question_prefix(heading) {
            Some(end) => trim(heading.skip(end)),
            None => trim(heading),
        },
    }
}

pub open spec fn question_title(heading: Seq<char>, body: Seq<Seq<char>>, hidden: Seq<bool>) -> Seq<
    char,
> {
    match label_line_of(heading, body, hidden) {
        Some(_) => heading + " "@ + question_text(heading, body, hidden),
        None => heading,
    }
}

/// The kind of a section that the guards know by its label.
pub open spec fn special_kind(label: Seq<char>) -> Option<QuestionKind> {
    if label == "consolidated summary confirmation"@ {
        Some(QuestionKind::SummaryConfirmation)
    } else if label == "requested changes feedback"@ {
        Some(QuestionKind::Feedback)
    } else if label == "assumption confirmation"@ {
        Some(QuestionKind::AssumptionConfirmation)
    } else if label == "plan approval"@ {
        Some(QuestionKind::PlanApproval)
    } else {
        None
    }
}

/// The label of a question: its text in lower case without closing marks and
/// emphasis.
pub open spec fn question_label(text: Seq<char>) -> Seq<char> {
    lowercase(without_emphasis(trim(trim_end_of(text, CharClass::Either('?', ':')))))
}

pub open spec fn is_numbered(heading: Seq<char>) -> bool {
    is_bare_number(heading) || has_question_id(heading) || question_prefix(heading) is Some
}

/// The kind of question that a heading asks; `None` where it asks none.
pub open spec fn question_kind(heading: Seq<char>, body: Seq<Seq<char>>, hidden: Seq<bool>) -> Option<
    QuestionKind,
> {
    let text = question_text(heading, body, hidden);
    match special_kind(question_label(text)) {
        Some(kind) => Some(kind),
        None => if !is_numbered(heading) {
            None
        } else if contains_part(lowercase(text), "(select all that apply)"@) {
            Some(QuestionKind::Multi)
        } else {
            Some(QuestionKind::Single)
        },
    }
}

/// A heading that asks: its title, its kind, and the line of the body that
/// holds the question where the heading does not.
pub struct ClassifiedHeading {
    pub title: String,
    pub kind: QuestionKind,
    pub label_line: Option<usize>,
}

pub open spec fn optional_index(index: Option<usize>) -> Option<int> {
    match index {
        Some(index) => Some(index as int),
        None => None,
    }
}

fn find_first_text(body: &[Vec<char>], hidden: &[bool]) -> (found: Option<usize>)
    ensures
        optional_index(found) == first_text(spelled(body@), hidden@, 0),
        found matches Some(index) ==> index < body@.len(),
{
    let ghost rows = spelled(body@);
    let mut i: usize = 0;
    while i < body.len() && i < hidden.len()
        invariant
            i <= body@.len(),
            rows == spelled(body@),
            first_text(rows, hidden@, 0) == first_text(rows, hidden@, i as int),
        decreases body@.len() - i,
    {
        if !hidden[i] && trimmed(body[i].as_slice()).len() > 0 {
            return Some(i);
        }
        i += 1;
    }
    None
}

fn find_special_kind(label: &[char]) -> (kind: Option<QuestionKind>)
    ensures
        kind == special_kind(label@),
{
    if is_text(label, "consolidated summary confirmation") {
        Some(QuestionKind::SummaryConfirmation)
    } else if is_text(label, "requested changes feedback") {
        Some(QuestionKind::Feedback)
    } else if is_text(label, "assumption confirmation") {
        Some(QuestionKind::AssumptionConfirmation)
    } else if is_text(label, "plan approval") {
        Some(QuestionKind::PlanApproval)
    } else {
        None
    }
}

/// Decides whether a heading asks a question, and which kind. A line that
/// `inactive` says nothing of holds no question.
pub fn classify_heading(heading: &[char], body: &[Vec<char>], inactive: &[bool]) -> (classified: Option<
    ClassifiedHeading,
>)
    ensures
        match classified {
            Some(found) => {
                &&& question_kind(heading@, spelled(body@), inactive@) == Some(found.kind)
                &&& found.title@ == question_title(heading@, spelled(body@), inactive@)
                &&& optional_index(found.label_line) == label_line_of(
                    heading@,
                    spelled(body@),
                    inactive@,
                )
            },
            None => question_kind(heading@, spelled(body@), inactive@) is None,
        },
{
    let numbered_only = bare_number(heading);
    let label_line = if numbered_only {
        find_first_text(body, inactive)
    } else {
        None
    };
    let text: Vec<char> = match label_line {
        Some(index) => copied_all(strip_emphasis(trimmed(body[index].as_slice()))),
        None => match prefix_end(heading) {
            Some(end) => {
                let rest = slice_subrange(heading, end, heading.len());
                assert(rest@ =~= heading@.skip(end as int));
                copied_all(trimmed(rest))
            },
            None => copied_all(trimmed(heading)),
        },
    };
    assert(text@ == question_text(heading@, spelled(body@), inactive@));
    let label = lowercased(
        strip_emphasis(trimmed(trimmed_end_of(text.as_slice(), CharClass::Either('?', ':')))),
    );
    let numbered = numbered_only || question_id(heading) || prefix_end(heading).is_some();
    let kind = match find_special_kind(label.as_slice()) {
        Some(kind) => kind,
        None => {
            if !numbered {
                return None;
            }
            let lower = lowercased(text.as_slice());
            if contains_text(lower.as_slice(), "(select all that apply)") {
                QuestionKind::Multi
            } else {
                QuestionKind::Single
            }
        },
    };
    let mut title = copied_all(heading);
    if label_line.is_some() {
        extend_text(&mut title, " ");
        extend(&mut title, text.as_slice());
    }
    Some(ClassifiedHeading { title: text_of(title.as_slice()), kind, label_line })
}

/// What a line of a question's body is, taken by itself.
pub enum LineRole {
    /// It holds the question and was read with the heading.
    Label,
    Answer(Seq<char>),
    Fingerprint(Option<Seq<char>>),
    Choice(Option<char>, Seq<char>),
    Body,
}

/// Whether a kind of question takes its options from a bullet list.
pub open spec fn takes_bullets(kind: QuestionKind) -> bool {
    kind == QuestionKind::SummaryConfirmation || kind == QuestionKind::PlanApproval
}

/// The body of a question, with what decides how its lines are read.
pub struct BodyModel {
    pub heading_row: int,
    pub kind: QuestionKind,
    pub label_line: Option<int>,
    pub lines: Seq<Seq<char>>,
    pub hidden: Seq<bool>,
}

impl BodyModel {
    /// Whether a line is hidden. One that nothing is said of is not.
    pub open spec fn is_hidden(self, offset: int) -> bool {
        0 <= offset < self.hidden.len() && self.hidden[offset]
    }

    pub open spec fn role(self, offset: int) -> LineRole {
        let line = self.lines[offset];
        if self.label_line == Some(offset) {
            LineRole::Label
        } else if self.is_hidden(offset) {
            LineRole::Body
        } else if answer_text(line) is Some {
            LineRole::Answer(answer_text(line)->0)
        } else if self.kind == QuestionKind::PlanApproval && fingerprint_value(line) is Some {
            LineRole::Fingerprint(fingerprint_value(line)->0)
        } else if self.kind != QuestionKind::Feedback && lettered_option(line) is Some {
            LineRole::Choice(
                Some((lettered_option(line)->0).0),
                without_quotes((lettered_option(line)->0).1),
            )
        } else if takes_bullets(self.kind) && bullet_option(line) is Some {
            LineRole::Choice(None, without_quotes(bullet_option(line)->0))
        } else {
            LineRole::Body
        }
    }

    pub open spec fn row(self, offset: int) -> u32 {
        (self.heading_row + 1 + offset) as u32
    }

    /// The first answer line from `from` on, or the end of the body.
    pub open spec fn answer_from(self, from: int) -> int
        decreases self.lines.len() - from,
    {
        if 0 <= from < self.lines.len() && !(self.role(from) is Answer) {
            self.answer_from(from + 1)
        } else {
            from
        }
    }

    /// Where the answer stands, or the end of the body.
    pub open spec fn answer_offset(self) -> int {
        self.answer_from(0)
    }

    /// The options among the first `n` lines.
    pub open spec fn options_before(self, n: int) -> Seq<OptionModel>
        decreases n,
    {
        if n <= 0 {
            seq![]
        } else {
            let before = self.options_before(n - 1);
            match self.role(n - 1) {
                LineRole::Choice(letter, text) => before.push(
                    OptionModel {
                        row: self.row(n - 1),
                        letter,
                        text,
                        is_other: letter == Some('X') || starts_with(
                            text,
                            "Other (please specify)"@,
                        ),
                    },
                ),
                _ => before,
            }
        }
    }

    /// The last fingerprint among the first `n` lines.
    pub open spec fn fingerprint_before(self, n: int) -> Option<(u32, Option<Seq<char>>)>
        decreases n,
    {
        if n <= 0 {
            None
        } else {
            match self.role(n - 1) {
                LineRole::Fingerprint(value) => Some((self.row(n - 1), value)),
                _ => self.fingerprint_before(n - 1),
            }
        }
    }

    /// The lines among the first `n` that are text to read.
    pub open spec fn body_before(self, n: int) -> Seq<Seq<char>>
        decreases n,
    {
        if n <= 0 {
            seq![]
        } else {
            match self.role(n - 1) {
                LineRole::Body => self.body_before(n - 1).push(self.lines[n - 1]),
                _ => self.body_before(n - 1),
            }
        }
    }

    /// Whether a line behind the answer belongs to the answer's tail.
    pub open spec fn in_tail(self, offset: int) -> bool {
        !(self.role(offset) is Answer) && !(self.role(offset) is Label) && trim(
            self.lines[offset],
        ).len() > 0
    }

    /// The lines of the tail between `from` and `n`.
    pub open spec fn tail_between(self, from: int, n: int) -> Seq<Seq<char>>
        decreases n,
    {
        if n <= from || n <= 0 {
            seq![]
        } else if self.in_tail(n - 1) {
            self.tail_between(from, n - 1).push(self.lines[n - 1])
        } else {
            self.tail_between(from, n - 1)
        }
    }

    /// The question that the body, below a heading with the given title, asks.
    pub open spec fn question(self, title: Seq<char>) -> QuestionModel {
        let end = self.answer_offset();
        let count = self.lines.len() as int;
        let tail = self.tail_between(end + 1, count);
        QuestionModel {
            heading_row: self.heading_row as u32,
            title,
            kind: self.kind,
            options: self.options_before(end),
            answer: if end < count {
                Some((self.row(end), self.role(end)->Answer_0))
            } else {
                None
            },
            read_only: if end < count && self.answer_from(end + 1) < count {
                Some(ReadOnlyReason::DuplicateAnswer)
            } else if end < count && tail.len() > 0 {
                Some(ReadOnlyReason::MultiLineAnswer)
            } else {
                None
            },
            fingerprint: self.fingerprint_before(end),
            body: trim(joined(self.body_before(end), "\n"@)),
            answer_tail: trim(joined(tail, "\n"@)),
        }
    }
}

/// Reads a question below its heading: the options, the answer and the text up
/// to the answer, and what stands behind it.
pub fn parse_question(
    heading_row: usize,
    heading: ClassifiedHeading,
    lines: &[Vec<char>],
    inactive: &[bool],
) -> (block: QuestionBlock)
    requires
        heading_row + lines@.len() < usize::MAX,
    ensures
        block@ == (BodyModel {
            heading_row: heading_row as int,
            kind: heading.kind,
            label_line: optional_index(heading.label_line),
            lines: spelled(lines@),
            hidden: inactive@,
        }).question(heading.title@),
{
    let kind = heading.kind;
    let ghost body = BodyModel {
        heading_row: heading_row as int,
        kind,
        label_line: optional_index(heading.label_line),
        lines: spelled(lines@),
        hidden: inactive@,
    };
    let lettered_options = kind != QuestionKind::Feedback;
    let bullet_options = kind == QuestionKind::SummaryConfirmation || kind
        == QuestionKind::PlanApproval;

    let mut options: Vec<ChoiceOption> = Vec::new();
    let mut fingerprint: Option<Fingerprint> = None;
    let mut body_lines: Vec<Vec<char>> = Vec::new();
    let mut answer: Option<AnswerLine> = None;
    let mut read_only: Option<ReadOnlyReason> = None;
    let mut tail_lines: Vec<Vec<char>> = Vec::new();

    let mut offset: usize = 0;
    while offset < lines.len() && answer.is_none()
        invariant
            offset <= lines@.len(),
            heading_row + lines@.len() < usize::MAX,
            body.heading_row == heading_row,
            body.kind == kind,
            body.label_line == optional_index(heading.label_line),
            body.lines == spelled(lines@),
            body.hidden == inactive@,
            lettered_options == (kind != QuestionKind::Feedback),
            bullet_options == takes_bullets(kind),
            answer is None ==> {
                &&& body.answer_offset() == body.answer_from(offset as int)
                &&& option_models(options@) == body.options_before(offset as int)
                &&& fingerprint_model(fingerprint) == body.fingerprint_before(offset as int)
                &&& spelled(body_lines@) == body.body_before(offset as int)
            },
            answer is Some ==> {
                &&& 0 < offset
                &&& body.answer_offset() == offset - 1
                &&& answer_model(answer) == Some(
                    (body.row(offset - 1), body.role(offset - 1)->Answer_0),
                )
                &&& option_models(options@) == body.options_before(offset - 1)
                &&& fingerprint_model(fingerprint) == body.fingerprint_before(offset - 1)
                &&& spelled(body_lines@) == body.body_before(offset - 1)
            },
        decreases lines@.len() - offset,
    {
        let line = lines[offset].as_slice();
        let row: u32 = #[verifier::truncate] ((heading_row + 1 + offset) as u32);
        let ghost before = option_models(options@);
        let ghost kept = spelled(body_lines@);
        assert(body.lines[offset as int] == line@);
        let is_label = match heading.label_line {
            Some(label) => label == offset,
            None => false,
        };
        let is_hidden = offset < inactive.len() && inactive[offset];
        if is_label {
            // The heading has taken it.
        } else if is_hidden {
            body_lines.push(copied_all(line));
            assert(spelled(body_lines@) =~= kept.push(line@));
        } else if let Some(raw) = parse_answer_line(line) {
            answer = Some(AnswerLine { row, raw: text_of(raw) });
        } else {
            let mut taken = false;
            if kind == QuestionKind::PlanApproval {
                if let Some(value) = parse_fingerprint(line) {
                    fingerprint = Some(
                        Fingerprint {
                            row,
                            value: match value {
                                Some(chars) => Some(text_of(chars)),
                                None => None,
                            },
                        },
                    );
                    taken = true;
                }
            }
            if !taken && lettered_options {
                if let Some((letter, text)) = parse_lettered_option(line) {
                    let text = strip_quotes(text);
                    options.push(
                        ChoiceOption {
                            row,
                            letter: Some(letter),
                            text: text_of(text),
                            is_other: letter == 'X' || starts_with_text(
                                text,
                                "Other (please specify)",
                            ),
                        },
                    );
                    taken = true;
                    assert(option_models(options@) =~= before.push(options@.last()@));
                }
            }
            if !taken && bullet_options {
                if let Some(text) = parse_bullet_option(line) {
                    let text = strip_quotes(text);
                    options.push(
                        ChoiceOption {
                            row,
                            letter: None,
                            text: text_of(text),
                            is_other: starts_with_text(text, "Other (please specify)"),
                        },
                    );
                    taken = true;
                    assert(option_models(options@) =~= before.push(options@.last()@));
                }
            }
            if !taken {
                body_lines.push(copied_all(line));
                assert(spelled(body_lines@) =~= kept.push(line@));
            }
        }
        offset += 1;
    }
    let ghost end = body.answer_offset();
    let ghost count = lines@.len() as int;
    if answer.is_some() {
        while offset < lines.len()
            invariant
                end + 1 <= offset <= lines@.len(),
                0 <= end,
                count == lines@.len(),
                body.kind == kind,
                body.label_line == optional_index(heading.label_line),
                body.lines == spelled(lines@),
                body.hidden == inactive@,
                spelled(tail_lines@) == body.tail_between(end + 1, offset as int),
                read_only == Some(ReadOnlyReason::DuplicateAnswer) ==> body.answer_from(end + 1)
                    < count,
                read_only != Some(ReadOnlyReason::DuplicateAnswer) ==> {
                    &&& body.answer_from(end + 1) == body.answer_from(offset as int)
                    &&& read_only == (if tail_lines@.len() > 0 {
                        Some(ReadOnlyReason::MultiLineAnswer)
                    } else {
                        None
                    })
                },
            decreases lines@.len() - offset,
        {
            let line = lines[offset].as_slice();
            assert(body.lines[offset as int] == line@);
            let ghost kept = spelled(tail_lines@);
            let is_label = match heading.label_line {
                Some(label) => label == offset,
                None => false,
            };
            if !is_label {
                let is_hidden = offset < inactive.len() && inactive[offset];
                let is_answer = !is_hidden && parse_answer_line(line).is_some();
                if is_answer {
                    assert(body.answer_from(offset as int) == offset);
                    read_only = Some(ReadOnlyReason::DuplicateAnswer);
                } else if trimmed(line).len() > 0 {
                    tail_lines.push(copied_all(line));
                    assert(spelled(tail_lines@) =~= kept.push(line@));
                    if read_only.is_none() {
                        read_only = Some(ReadOnlyReason::MultiLineAnswer);
                    }
                }
            }
            offset += 1;
        }
    }
    let body_text = join(&body_lines, "\n");
    let tail_text = join(&tail_lines, "\n");
    QuestionBlock {
        heading_row: #[verifier::truncate] (heading_row as u32),
        title: heading.title,
        kind,
        options,
        answer,
        read_only,
        fingerprint,
        body: text_of(trimmed(body_text.as_slice())),
        answer_tail: text_of(trimmed(tail_text.as_slice())),
    }
}

/// The lines of a questionnaire without the comments within them.
pub open spec fn source_lines(text: Seq<char>) -> Seq<Seq<char>> {
    let all = lines_of(text);
    Seq::new(all.len(), |i: int| without_comments(all[i]))
}

/// Whether a row is a heading that neither a fence nor a comment hides.
pub open spec fn is_heading(rows: Seq<Seq<char>>, row: int) -> bool {
    !is_inactive(rows, row) && heading_title_of(rows[row]) is Some
}

/// The first heading from row `from` on, or the end.
pub open spec fn next_heading(rows: Seq<Seq<char>>, from: int) -> int
    decreases rows.len() - from,
{
    if 0 <= from < rows.len() && !is_heading(rows, from) {
        next_heading(rows, from + 1)
    } else {
        from
    }
}

pub proof fn lemma_next_heading(rows: Seq<Seq<char>>, from: int)
    requires
        0 <= from <= rows.len(),
    ensures
        from <= next_heading(rows, from) <= rows.len(),
        next_heading(rows, from) < rows.len() ==> is_heading(rows, next_heading(rows, from)),
        forall|row: int|
            from <= row < next_heading(rows, from) ==> !#[trigger] is_heading(rows, row),
    decreases rows.len() - from,
{
    if from < rows.len() && !is_heading(rows, from) {
        lemma_next_heading(rows, from + 1);
    }
}

/// Sections with lines of markdown behind them. Markdown joins the markdown
/// before it, and blank lines add nothing.
pub open spec fn with_markdown(sections: Seq<SectionModel>, lines: Seq<Seq<char>>) -> Seq<
    SectionModel,
> {
    let text = trim(joined(lines, "\n"@));
    if text.len() == 0 {
        sections
    } else if sections.len() > 0 && sections.last() is Markdown {
        sections.drop_last().push(
            SectionModel::Markdown(sections.last()->Markdown_0 + "\n\n"@ + text),
        )
    } else {
        sections.push(SectionModel::Markdown(text))
    }
}

/// Which rows are hidden.
pub open spec fn hidden_rows(rows: Seq<Seq<char>>) -> Seq<bool> {
    Seq::new(rows.len(), |row: int| is_inactive(rows, row))
}

/// The question that the heading at `row` asks, where its section is over at
/// `end`.
pub open spec fn question_at(rows: Seq<Seq<char>>, row: int, end: int) -> Option<QuestionModel> {
    let heading = heading_title_of(rows[row])->0;
    let lines = rows.subrange(row + 1, end);
    let hidden = hidden_rows(rows).subrange(row + 1, end);
    match question_kind(heading, lines, hidden) {
        Some(kind) => Some(
            BodyModel {
                heading_row: row,
                kind,
                label_line: label_line_of(heading, lines, hidden),
                lines,
                hidden,
            }.question(question_title(heading, lines, hidden)),
        ),
        None => None,
    }
}

/// `sections` with those behind them that begin at the heading `row` and later.
pub open spec fn sections_from(
    rows: Seq<Seq<char>>,
    row: int,
    sections: Seq<SectionModel>,
) -> Seq<SectionModel>
    decreases rows.len() - row,
    when 0 <= row
    via sections_from_decreases
{
    if row >= rows.len() {
        sections
    } else {
        let end = next_heading(rows, row + 1);
        sections_from(
            rows,
            end,
            match question_at(rows, row, end) {
                Some(question) => sections.push(SectionModel::Question(question)),
                None => with_markdown(sections, rows.subrange(row, end)),
            },
        )
    }
}

#[via_fn]
proof fn sections_from_decreases(
    rows: Seq<Seq<char>>,
    row: int,
    sections: Seq<SectionModel>,
) {
    if row < rows.len() {
        lemma_next_heading(rows, row + 1);
    }
}

/// The sections of a questionnaire: what stands before the first heading, then
/// one section for each heading, with markdown joined.
pub open spec fn sections_of(text: Seq<char>) -> Seq<SectionModel> {
    sections_of_rows(source_lines(text))
}

pub open spec fn sections_of_rows(rows: Seq<Seq<char>>) -> Seq<SectionModel> {
    let first = next_heading(rows, 0);
    sections_from(rows, first, with_markdown(seq![], rows.take(first)))
}

fn push_markdown(sections: &mut Vec<Section>, lines: &[Vec<char>])
    ensures
        section_models(final(sections)@) == with_markdown(
            section_models(old(sections)@),
            spelled(lines@),
        ),
{
    let whole = join_slice(lines);
    let text = trimmed(whole.as_slice());
    if text.len() == 0 {
        return ;
    }
    let ghost before = section_models(sections@);
    if let Some(last) = sections.pop() {
        assert(section_models(sections@) =~= before.drop_last());
        match last {
            Section::Markdown(previous) => {
                let mut chars = chars_of(previous.text.as_str());
                extend_text(&mut chars, "\n\n");
                extend(&mut chars, text);
                let section = Section::Markdown(
                    MarkdownChunk { text: text_of(chars.as_slice()) },
                );
                let ghost model = section@;
                sections.push(section);
                assert(section_models(sections@) =~= before.drop_last().push(model));
            },
            Section::Question(block) => {
                sections.push(Section::Question(block));
                sections.push(Section::Markdown(MarkdownChunk { text: text_of(text) }));
                assert(section_models(sections@) =~= before.push(SectionModel::Markdown(text@)));
            },
        }
    } else {
        sections.push(Section::Markdown(MarkdownChunk { text: text_of(text) }));
        assert(section_models(sections@) =~= before.push(SectionModel::Markdown(text@)));
    }
}

fn join_slice(lines: &[Vec<char>]) -> (chars: Vec<char>)
    ensures
        chars@ == joined(spelled(lines@), "\n"@),
{
    let mut copies: Vec<Vec<char>> = Vec::new();
    let mut i: usize = 0;
    while i < lines.len()
        invariant
            i <= lines@.len(),
            spelled(copies@) =~= spelled(lines@).take(i as int),
        decreases lines@.len() - i,
    {
        let ghost before = spelled(copies@);
        let copy = copied_all(lines[i].as_slice());
        copies.push(copy);
        assert(spelled(copies@) =~= before.push(lines@[i as int]@));
        i += 1;
    }
    assert(spelled(copies@) =~= spelled(lines@));
    join(&copies, "\n")
}

fn find_heading(rows: &Vec<Vec<char>>, inactive: &Vec<bool>, from: usize) -> (row: usize)
    requires
        from <= rows@.len(),
        inactive@ == hidden_rows(spelled(rows@)),
    ensures
        row == next_heading(spelled(rows@), from as int),
        from <= row <= rows@.len(),
        row < rows@.len() ==> is_heading(spelled(rows@), row as int),
{
    let mut row: usize = from;
    while row < rows.len() && (inactive[row] || heading_title(rows[row].as_slice()).is_none())
        invariant
            from <= row <= rows@.len(),
            inactive@ == hidden_rows(spelled(rows@)),
            next_heading(spelled(rows@), from as int) == next_heading(spelled(rows@), row as int),
        decreases rows@.len() - row,
    {
        row += 1;
    }
    row
}

/// Reads a questionnaire.
pub fn parse_questionnaire(text: &str) -> (document: QuestionnaireDocument)
    ensures
        document@ == sections_of(text@),
{
    let chars = chars_of(text);
    let source = lines(chars.as_slice());
    let mut rows: Vec<Vec<char>> = Vec::new();
    let mut i: usize = 0;
    while i < source.len()
        invariant
            i <= source@.len(),
            spelled(source@) == lines_of(text@),
            spelled(rows@) =~= source_lines(text@).take(i as int),
        decreases source@.len() - i,
    {
        assert(source@[i as int]@ == spelled(source@)[i as int]);
        let ghost before = spelled(rows@);
        let row = strip_comments(source[i].as_slice());
        let ghost view = row@;
        rows.push(row);
        assert(spelled(rows@) =~= before.push(view));
        i += 1;
    }
    let ghost all = source_lines(text@);
    assert(spelled(rows@) =~= all) by {
        assert(spelled(source@).len() == lines_of(text@).len());
    }
    let inactive = inactive_rows(&rows);
    assert(inactive@ =~= hidden_rows(all));
    let mut sections: Vec<Section> = Vec::new();
    let mut row = find_heading(&rows, &inactive, 0);
    assert(section_models(sections@) =~= seq![]);
    let preamble = slice_subrange(rows.as_slice(), 0, row);
    assert(spelled(preamble@) =~= all.take(row as int));
    push_markdown(&mut sections, preamble);
    while row < rows.len()
        invariant
            row <= rows@.len(),
            all == source_lines(text@),
            spelled(rows@) == all,
            inactive@ == hidden_rows(all),
            row < rows@.len() ==> is_heading(all, row as int),
            sections_from(all, row as int, section_models(sections@)) == sections_of(text@),
        decreases rows@.len() - row,
    {
        let end = find_heading(&rows, &inactive, row + 1);
        let heading = match heading_title(rows[row].as_slice()) {
            Some(title) => title,
            None => Vec::new(),
        };
        let body = slice_subrange(rows.as_slice(), row + 1, end);
        let body_inactive = slice_subrange(inactive.as_slice(), row + 1, end);
        let ghost before = section_models(sections@);
        assert(spelled(body@) =~= all.subrange(row + 1, end as int));
        assert(rows@[row as int]@ == all[row as int]);
        match classify_heading(heading.as_slice(), body, body_inactive) {
            Some(classified) => {
                let block = parse_question(row, classified, body, body_inactive);
                let ghost model = block@;
                sections.push(Section::Question(block));
                assert(section_models(sections@) =~= before.push(SectionModel::Question(model)));
                assert(question_at(all, row as int, end as int) == Some(model));
            },
            None => {
                let section = slice_subrange(rows.as_slice(), row, end);
                assert(spelled(section@) =~= all.subrange(row as int, end as int));
                push_markdown(&mut sections, section);
            },
        }
        row = end;
    }
    QuestionnaireDocument { sections }
}

} // verus!
