//! The questionnaire on screen: what each question shows, and what a click or
//! a typed text writes.

use vstd::prelude::*;

use crate::questionnaire::answer::{
    answer_line, answer_line_of, parse_answer, render_answer, toggle_option, with_other, Answer,
    AnswerModel,
};
use crate::questionnaire::document::{
    parse_questionnaire, sections_of, source_lines, QuestionBlock, QuestionKind, QuestionModel,
    QuestionnaireDocument, ReadOnlyReason, Section, SectionModel,
};
use crate::questionnaire::grammar::{is_inactive, without_comments};
use crate::questionnaire::laws::{fits_rows, law_questions_are_active, law_rows_write_then_read};
use crate::questionnaire::round_trip::{lemma_one_piece, lemma_pieces_push, lemma_trim};
use crate::text::{
    chars_of, contains_part, decimal, decimal_chars, ends_with, ends_with_text, extend, extend_text,
    is_whitespace, join, joined, lemma_find_from, lemma_next_char, lines_from, lines_of, next_char,
    pieces, pieces_from, pieces_of, same_text, spelled, text_of, trim, without_return,
};

verus! {

/// The question whose free text is being typed. It is found again by its kind,
/// its place among those of its kind, and its title.
#[derive(Debug, PartialEq)]
pub struct EditingTarget {
    pub kind: QuestionKind,
    pub ordinal: usize,
    pub title: String,
}

/// What an [`EditingTarget`] stands for.
pub struct TargetModel {
    pub kind: QuestionKind,
    pub ordinal: int,
    pub title: Seq<char>,
}

pub open spec fn target_model(target: Option<EditingTarget>) -> Option<TargetModel> {
    match target {
        Some(target) => Some(
            TargetModel { kind: target.kind, ordinal: target.ordinal as int, title: target.title@ },
        ),
        None => None,
    }
}

/// An answer line to be written over a row of the file.
#[derive(Debug, PartialEq)]
pub struct AnswerEdit {
    pub row: u32,
    pub line: String,
}

pub open spec fn edit_model(edit: Option<AnswerEdit>) -> Option<(u32, Seq<char>)> {
    match edit {
        Some(edit) => Some((edit.row, edit.line@)),
        None => None,
    }
}

/// What a click on an option leads to.
#[derive(Debug, PartialEq)]
pub enum ClickAction {
    Nothing,
    /// An answer is written.
    Write(AnswerEdit),
    /// Free text is typed, beginning with this one.
    Type(String),
}

/// What a click on an option leads to, in terms of what is written.
pub enum ClickModel {
    Nothing,
    Write(u32, Seq<char>),
    Type(Seq<char>),
}

impl View for ClickAction {
    type V = ClickModel;

    open spec fn view(&self) -> ClickModel {
        match self {
            ClickAction::Nothing => ClickModel::Nothing,
            ClickAction::Write(edit) => ClickModel::Write(edit.row, edit.line@),
            ClickAction::Type(text) => ClickModel::Type(text@),
        }
    }
}

/// A questionnaire on screen.
pub struct QuestionnaireView {
    pub document: QuestionnaireDocument,
    pub editing: Option<EditingTarget>,
}

/// The question in a section.
pub open spec fn question_in(sections: Seq<SectionModel>, index: int) -> Option<QuestionModel> {
    if 0 <= index < sections.len() && sections[index] is Question {
        Some(sections[index]->Question_0)
    } else {
        None
    }
}

pub open spec fn is_of_kind(section: SectionModel, kind: QuestionKind) -> bool {
    section matches SectionModel::Question(question) && question.kind == kind
}

/// How many of the first `n` sections are questions of a kind.
pub open spec fn kind_count(sections: Seq<SectionModel>, n: int, kind: QuestionKind) -> int
    decreases n,
{
    if n <= 0 {
        0
    } else {
        kind_count(sections, n - 1, kind) + if is_of_kind(sections[n - 1], kind) {
            1int
        } else {
            0
        }
    }
}

/// How many of the first `n` sections are questions.
pub open spec fn question_count(sections: Seq<SectionModel>, n: int) -> int
    decreases n,
{
    if n <= 0 {
        0
    } else {
        question_count(sections, n - 1) + if sections[n - 1] is Question {
            1int
        } else {
            0
        }
    }
}

/// How many of the first `n` sections are questions with an answer.
pub open spec fn answered_count(sections: Seq<SectionModel>, n: int) -> int
    decreases n,
{
    if n <= 0 {
        0
    } else {
        answered_count(sections, n - 1) + if sections[n - 1] is Question
            && !sections[n - 1]->Question_0.answer_given().is_empty() {
            1int
        } else {
            0
        }
    }
}

/// Whether the section at `index` is the question that a target means.
pub open spec fn is_target(sections: Seq<SectionModel>, index: int, target: TargetModel) -> bool {
    &&& 0 <= index < sections.len()
    &&& is_of_kind(sections[index], target.kind)
    &&& kind_count(sections, index, target.kind) == target.ordinal
    &&& sections[index]->Question_0.title == target.title
}

/// Where the question that a target means stands.
pub open spec fn located(sections: Seq<SectionModel>, found: Option<int>, target: TargetModel) -> bool {
    match found {
        Some(index) => is_target(sections, index, target),
        None => forall|index: int| !#[trigger] is_target(sections, index, target),
    }
}

/// The edit that writes an answer to a question.
pub open spec fn edit_of(question: QuestionModel, answer: AnswerModel) -> Option<(u32, Seq<char>)> {
    match question.answer {
        Some((row, _)) => Some((row, answer_line_of(question.answer_written(answer)))),
        None => None,
    }
}

/// The edit that typed text makes on the question that a target means.
pub open spec fn commits(
    sections: Seq<SectionModel>,
    editing: Option<TargetModel>,
    text: Seq<char>,
    edit: Option<(u32, Seq<char>)>,
) -> bool {
    match editing {
        Some(target) => exists|found: Option<int>| #[trigger]
            located(sections, found, target) && edit == match found {
                Some(index) => {
                    let question = sections[index]->Question_0;
                    edit_of(question, question.given_other(question.answer_given(), text))
                },
                None => None,
            },
        None => edit is None,
    }
}

/// What a click on an option of a question leads to.
pub open spec fn click_of(question: QuestionModel, option_index: int) -> ClickModel {
    let answer = question.answer_given();
    if question.answer is None || question.read_only is Some || option_index
        >= question.options.len() {
        ClickModel::Nothing
    } else if question.options[option_index].is_other && answer.other is None {
        ClickModel::Type(seq![])
    } else {
        let next = if question.options[option_index].is_other {
            question.given_other(answer, seq![])
        } else {
            question.toggled(answer, option_index as usize)
        };
        let edit = edit_of(question, next)->0;
        ClickModel::Write(edit.0, edit.1)
    }
}

/// Whether a file of this name is a questionnaire.
pub fn is_questionnaire(file_name: &str) -> (b: bool)
    ensures
        b == ends_with(file_name@, "-questions.md"@),
{
    let chars = chars_of(file_name);
    ends_with_text(chars.as_slice(), "-questions.md")
}

fn write_answer(block: &QuestionBlock, answer: &Answer) -> (edit: Option<AnswerEdit>)
    ensures
        edit_model(edit) == edit_of(block@, answer@),
{
    match &block.answer {
        Some(line) => {
            let raw = render_answer(block, answer);
            Some(AnswerEdit { row: line.row, line: answer_line(raw.as_str()) })
        },
        None => None,
    }
}

impl QuestionnaireView {
    pub open spec fn sections(self) -> Seq<SectionModel> {
        self.document@
    }

    /// Shows a file.
    pub fn new(text: &str) -> (view: Self)
        ensures
            view.sections() == sections_of(text@),
            view.editing is None,
    {
        QuestionnaireView { document: parse_questionnaire(text), editing: None }
    }

    /// Follows the file.
    pub fn reparse(&mut self, text: &str)
        ensures
            final(self).sections() == sections_of(text@),
            final(self).editing == old(self).editing,
    {
        self.document = parse_questionnaire(text);
    }

    pub fn question(&self, section_index: usize) -> (block: Option<&QuestionBlock>)
        ensures
            match block {
                Some(block) => question_in(self.sections(), section_index as int) == Some(block@),
                None => question_in(self.sections(), section_index as int) is None,
            },
    {
        if section_index >= self.document.sections.len() {
            return None;
        }
        assert(self.sections()[section_index as int]
            == self.document.sections@[section_index as int]@);
        match &self.document.sections[section_index] {
            Section::Question(block) => Some(block),
            Section::Markdown(_) => None,
        }
    }

    /// How many questions have an answer, and how many there are.
    pub fn progress(&self) -> (progress: (usize, usize))
        ensures
            progress.0 == answered_count(self.sections(), self.sections().len() as int),
            progress.1 == question_count(self.sections(), self.sections().len() as int),
            progress.0 <= progress.1,
    {
        let mut answered: usize = 0;
        let mut total: usize = 0;
        let mut i: usize = 0;
        while i < self.document.sections.len()
            invariant
                i <= self.document.sections@.len(),
                answered <= total <= i,
                answered == answered_count(self.sections(), i as int),
                total == question_count(self.sections(), i as int),
            decreases self.document.sections@.len() - i,
        {
            assert(self.sections()[i as int] == self.document.sections@[i as int]@);
            if let Section::Question(block) = &self.document.sections[i] {
                assert(self.sections()[i as int] is Question);
                total += 1;
                if !parse_answer(block).is_empty() {
                    answered += 1;
                }
            }
            i += 1;
        }
        (answered, total)
    }

    /// The line above the questions.
    pub fn progress_text(&self) -> (text: String)
        ensures
            text@ == decimal(
                answered_count(self.sections(), self.sections().len() as int) as nat,
            ) + "/"@ + decimal(
                question_count(self.sections(), self.sections().len() as int) as nat,
            ) + " answered"@,
    {
        let (answered, total) = self.progress();
        let mut chars = decimal_chars(answered as u64);
        extend_text(&mut chars, "/");
        let count = decimal_chars(total as u64);
        extend(&mut chars, count.as_slice());
        extend_text(&mut chars, " answered");
        text_of(chars.as_slice())
    }

    /// How many questions of the same kind stand before a question; 0 for a
    /// section that is none.
    pub fn ordinal_of(&self, section_index: usize) -> (ordinal: usize)
        ensures
            ordinal == match question_in(self.sections(), section_index as int) {
                Some(question) => kind_count(
                    self.sections(),
                    section_index as int,
                    question.kind,
                ),
                None => 0,
            },
    {
        let kind = match self.question(section_index) {
            Some(block) => block.kind,
            None => {
                return 0;
            },
        };
        let mut count: usize = 0;
        let mut i: usize = 0;
        while i < section_index
            invariant
                i <= section_index < self.document.sections@.len(),
                count <= i,
                count == kind_count(self.sections(), i as int, kind),
            decreases section_index - i,
        {
            assert(self.sections()[i as int] == self.document.sections@[i as int]@);
            if let Section::Question(other) = &self.document.sections[i] {
                if other.kind == kind {
                    count += 1;
                }
            }
            i += 1;
        }
        count
    }

    /// Finds the question that a target means.
    pub fn locate(&self, target: &EditingTarget) -> (found: Option<usize>)
        ensures
            located(
                self.sections(),
                match found {
                    Some(index) => Some(index as int),
                    None => None,
                },
                target_model(Some(*target))->0,
            ),
    {
        let ghost model = target_model(Some(*target))->0;
        let mut count: usize = 0;
        let mut i: usize = 0;
        while i < self.document.sections.len()
            invariant
                i <= self.document.sections@.len(),
                count <= i,
                model == target_model(Some(*target))->0,
                count == kind_count(self.sections(), i as int, target.kind),
                forall|k: int| 0 <= k < i ==> !#[trigger] is_target(self.sections(), k, model),
            decreases self.document.sections@.len() - i,
        {
            assert(self.sections()[i as int] == self.document.sections@[i as int]@);
            if let Section::Question(block) = &self.document.sections[i] {
                if block.kind == target.kind {
                    if count == target.ordinal {
                        if same_text(block.title.as_str(), target.title.as_str()) {
                            return Some(i);
                        }
                    }
                    count += 1;
                }
            }
            i += 1;
        }
        None
    }

    /// Whether the free text of a section's question is being typed.
    pub fn is_editing(&self, section_index: usize) -> (b: bool)
        ensures
            b == (target_model(self.editing) matches Some(target) && is_target(
                self.sections(),
                section_index as int,
                target,
            )),
    {
        match &self.editing {
            Some(target) => match self.locate(target) {
                Some(index) => {
                    proof {
                        lemma_one_target(
                            self.sections(),
                            index as int,
                            section_index as int,
                            target_model(self.editing)->0,
                        );
                    }
                    index == section_index
                },
                None => false,
            },
            None => false,
        }
    }

    /// Stops typing and writes the typed text to the question it was typed for,
    /// where that question is still there.
    pub fn commit_editing(&mut self, text: &str) -> (edit: Option<AnswerEdit>)
        ensures
            final(self).document == old(self).document,
            final(self).editing is None,
            commits(
                old(self).sections(),
                target_model(old(self).editing),
                text@,
                edit_model(edit),
            ),
    {
        let target = match self.editing.take() {
            Some(target) => target,
            None => {
                return None;
            },
        };
        let ghost model = target_model(Some(target))->0;
        match self.locate(&target) {
            Some(section_index) => {
                assert(located(self.sections(), Some(section_index as int), model));
                match self.question(section_index) {
                    Some(block) => {
                        let answer = with_other(block, &parse_answer(block), text);
                        write_answer(block, &answer)
                    },
                    None => None,
                }
            },
            None => {
                assert(located(self.sections(), None::<int>, model));
                None
            },
        }
    }

    /// Stops typing and writes nothing.
    pub fn cancel_editing(&mut self)
        ensures
            final(self).document == old(self).document,
            final(self).editing is None,
    {
        self.editing = None;
    }

    /// Commits what was being typed and begins to type the free text of a
    /// question: what it says already is what is there to begin with.
    pub fn start_editing(&mut self, section_index: usize, text: &str) -> (started: (
        Option<AnswerEdit>,
        Option<String>,
    ))
        ensures
            final(self).document == old(self).document,
            commits(
                old(self).sections(),
                target_model(old(self).editing),
                text@,
                edit_model(started.0),
            ),
            match question_in(old(self).sections(), section_index as int) {
                Some(question) => {
                    &&& target_model(final(self).editing) == Some(
                        TargetModel {
                            kind: question.kind,
                            ordinal: kind_count(
                                old(self).sections(),
                                section_index as int,
                                question.kind,
                            ),
                            title: question.title,
                        },
                    )
                    &&& started.1 matches Some(initial) && initial@ == match question.answer_given().other {
                        Some(text) => text,
                        None => seq![],
                    }
                },
                None => final(self).editing is None && started.1 is None,
            },
    {
        let edit = self.commit_editing(text);
        let (target, initial) = match self.question(section_index) {
            Some(block) => {
                let initial = match parse_answer(block).other {
                    Some(text) => text,
                    None => String::new(),
                };
                let target = EditingTarget {
                    kind: block.kind,
                    ordinal: self.ordinal_of(section_index),
                    title: block.title.clone(),
                };
                (target, initial)
            },
            None => {
                return (edit, None);
            },
        };
        self.editing = Some(target);
        (edit, Some(initial))
    }

    /// Commits what was being typed, then acts on a click on an option.
    pub fn on_option_clicked(
        &mut self,
        section_index: usize,
        option_index: usize,
        text: &str,
    ) -> (clicked: (Option<AnswerEdit>, ClickAction))
        ensures
            final(self).document == old(self).document,
            commits(
                old(self).sections(),
                target_model(old(self).editing),
                text@,
                edit_model(clicked.0),
            ),
            match question_in(old(self).sections(), section_index as int) {
                Some(question) => clicked.1@ == click_of(question, option_index as int),
                None => clicked.1 is Nothing,
            },
            match clicked.1 {
                ClickAction::Type(_) => target_model(final(self).editing) == Some(
                    TargetModel {
                        kind: (question_in(old(self).sections(), section_index as int)->0).kind,
                        ordinal: kind_count(
                            old(self).sections(),
                            section_index as int,
                            (question_in(old(self).sections(), section_index as int)->0).kind,
                        ),
                        title: (question_in(old(self).sections(), section_index as int)->0).title,
                    },
                ),
                _ => final(self).editing is None,
            },
    {
        let edit = self.commit_editing(text);
        let mut begin = false;
        let action = match self.question(section_index) {
            Some(block) => {
                if block.answer.is_none() || block.read_only.is_some() || option_index
                    >= block.options.len() {
                    ClickAction::Nothing
                } else {
                    assert(block@.options[option_index as int]
                        == block.options@[option_index as int]@);
                    let answer = parse_answer(block);
                    if block.options[option_index].is_other && answer.other.is_none() {
                        begin = true;
                        ClickAction::Nothing
                    } else {
                        let next = if block.options[option_index].is_other {
                            proof {
                                reveal_strlit("");
                                assert(""@ =~= seq![]);
                            }
                            with_other(block, &answer, "")
                        } else {
                            toggle_option(block, &answer, option_index)
                        };
                        match write_answer(block, &next) {
                            Some(edit) => ClickAction::Write(edit),
                            None => ClickAction::Nothing,
                        }
                    }
                }
            },
            None => ClickAction::Nothing,
        };
        if begin {
            let (_, initial) = self.start_editing(section_index, text);
            let action = match initial {
                Some(initial) => ClickAction::Type(initial),
                None => ClickAction::Nothing,
            };
            return (edit, action);
        }
        (edit, action)
    }
}

/// One option of a question as it is shown.
#[derive(Debug, PartialEq)]
pub struct OptionRow {
    pub label: String,
    pub checked: bool,
}

/// What stands where free text goes.
#[derive(Debug, PartialEq)]
pub enum FreeText {
    Hidden,
    /// A field to type in.
    Input,
    /// A text to click on.
    Shown(String),
}

/// A question as it is shown.
#[derive(Debug, PartialEq)]
pub struct QuestionCard {
    pub title: String,
    pub answered: bool,
    pub status: String,
    pub fingerprint: Option<String>,
    pub options: Vec<OptionRow>,
    pub disabled: bool,
    pub free_text: FreeText,
    pub notice: Option<String>,
}

/// What a question's free text shows.
pub enum FreeTextModel {
    Hidden,
    Input,
    Shown(Seq<char>),
}

impl View for FreeText {
    type V = FreeTextModel;

    open spec fn view(&self) -> FreeTextModel {
        match self {
            FreeText::Hidden => FreeTextModel::Hidden,
            FreeText::Input => FreeTextModel::Input,
            FreeText::Shown(text) => FreeTextModel::Shown(text@),
        }
    }
}

impl QuestionModel {
    /// Whether nothing can be written to the question.
    pub open spec fn is_disabled(self) -> bool {
        self.answer is None || self.read_only is Some
    }

    /// Why nothing can be written to the question.
    pub open spec fn notice(self) -> Option<Seq<char>> {
        if self.answer is None {
            Some("No [Answer]: line. Edit as text."@)
        } else {
            match self.read_only {
                Some(ReadOnlyReason::DuplicateAnswer) => Some(
                    "Duplicate [Answer]: line. Edit as text."@,
                ),
                Some(ReadOnlyReason::MultiLineAnswer) => Some("Multi-line answer. Edit as text."@),
                None => None,
            }
        }
    }

    pub open spec fn status(self) -> Seq<char> {
        match self.answer {
            Some((_, raw)) => if raw.len() == 0 {
                "unanswered"@
            } else {
                raw
            },
            None => "unanswered"@,
        }
    }

    pub open spec fn option_label(self, index: int) -> Seq<char> {
        match self.options[index].letter {
            Some(letter) => seq![letter] + ". "@ + self.options[index].text,
            None => self.options[index].text,
        }
    }

    pub open spec fn option_checked(self, index: int) -> bool {
        self.answer_given().choices.contains(index as usize) || (self.options[index].is_other
            && self.answer_given().other is Some)
    }

    pub open spec fn free_text(self, editing: bool) -> FreeTextModel {
        let other = self.answer_given().other;
        if self.is_disabled() {
            FreeTextModel::Hidden
        } else if editing {
            FreeTextModel::Input
        } else if self.kind == QuestionKind::Feedback || other is Some {
            FreeTextModel::Shown(
                if other is Some && (other->0).len() > 0 {
                    other->0
                } else {
                    "Click to type an answer"@
                },
            )
        } else {
            FreeTextModel::Hidden
        }
    }

    pub open spec fn fingerprint_text(self) -> Option<Seq<char>> {
        match self.fingerprint {
            Some((_, Some(value))) => Some("Fingerprint: "@ + value),
            Some((_, None)) => Some("Fingerprint: not computed"@),
            None => None,
        }
    }

    /// Whether a card shows the question.
    pub open spec fn is_shown_by(self, card: QuestionCard, editing: bool) -> bool {
        &&& card.title@ == self.title
        &&& card.answered == !self.answer_given().is_empty()
        &&& card.status@ == self.status()
        &&& match card.fingerprint {
            Some(text) => self.fingerprint_text() == Some(text@),
            None => self.fingerprint_text() is None,
        }
        &&& card.options@.len() == self.options.len()
        &&& forall|i: int|
            0 <= i < self.options.len() ==> (#[trigger] card.options@[i]).label@
                == self.option_label(i) && card.options@[i].checked == self.option_checked(i)
        &&& card.disabled == self.is_disabled()
        &&& card.free_text@ == self.free_text(editing)
        &&& match card.notice {
            Some(text) => self.notice() == Some(text@),
            None => self.notice() is None,
        }
    }
}

fn has_choice(choices: &Vec<usize>, index: usize) -> (b: bool)
    ensures
        b == choices@.contains(index),
{
    let mut i: usize = 0;
    while i < choices.len()
        invariant
            i <= choices@.len(),
            forall|k: int| 0 <= k < i ==> choices@[k] != index,
        decreases choices@.len() - i,
    {
        if choices[i] == index {
            return true;
        }
        i += 1;
    }
    false
}

/// What a question shows.
pub fn question_card(block: &QuestionBlock, editing: bool) -> (card: QuestionCard)
    ensures
        block@.is_shown_by(card, editing),
{
    let answer = parse_answer(block);
    let disabled = block.answer.is_none() || block.read_only.is_some();
    let status = match &block.answer {
        Some(line) => if line.raw.as_str().is_empty() {
            "unanswered".to_string()
        } else {
            line.raw.clone()
        },
        None => "unanswered".to_string(),
    };
    let notice = if block.answer.is_none() {
        Some("No [Answer]: line. Edit as text.".to_string())
    } else {
        match block.read_only {
            Some(ReadOnlyReason::DuplicateAnswer) => Some(
                "Duplicate [Answer]: line. Edit as text.".to_string(),
            ),
            Some(ReadOnlyReason::MultiLineAnswer) => Some(
                "Multi-line answer. Edit as text.".to_string(),
            ),
            None => None,
        }
    };
    let fingerprint = match &block.fingerprint {
        Some(fingerprint) => match &fingerprint.value {
            Some(value) => {
                let mut chars = chars_of("Fingerprint: ");
                extend_text(&mut chars, value.as_str());
                Some(text_of(chars.as_slice()))
            },
            None => Some("Fingerprint: not computed".to_string()),
        },
        None => None,
    };
    let mut options: Vec<OptionRow> = Vec::new();
    let mut i: usize = 0;
    while i < block.options.len()
        invariant
            i <= block.options@.len(),
            answer@ == block@.answer_given(),
            options@.len() == i,
            forall|k: int|
                0 <= k < i ==> (#[trigger] options@[k]).label@ == block@.option_label(k)
                    && options@[k].checked == block@.option_checked(k),
        decreases block.options@.len() - i,
    {
        let option = &block.options[i];
        assert(block@.options[i as int] == option@);
        let mut label: Vec<char> = Vec::new();
        if let Some(letter) = option.letter {
            label.push(letter);
            extend_text(&mut label, ". ");
            assert(label@ =~= seq![letter] + ". "@);
        }
        extend_text(&mut label, option.text.as_str());
        assert(option.letter is None ==> label@ =~= option.text@);
        let checked = has_choice(&answer.choices, i) || (option.is_other && answer.other.is_some());
        options.push(OptionRow { label: text_of(label.as_slice()), checked });
        i += 1;
    }
    let free_text = if disabled {
        FreeText::Hidden
    } else if editing {
        FreeText::Input
    } else {
        match &answer.other {
            Some(text) => if text.as_str().is_empty() {
                FreeText::Shown("Click to type an answer".to_string())
            } else {
                FreeText::Shown(text.clone())
            },
            None => if block.kind == QuestionKind::Feedback {
                FreeText::Shown("Click to type an answer".to_string())
            } else {
                FreeText::Hidden
            },
        }
    };
    QuestionCard {
        title: block.title.clone(),
        answered: !answer.is_empty(),
        status,
        fingerprint,
        options,
        disabled,
        free_text,
        notice,
    }
}

/// The title of a questionnaire's tab.
pub fn tab_content_text(file_name: Option<&str>) -> (title: String)
    ensures
        title@ == match file_name {
            Some(name) => name@,
            None => "questions"@,
        },
{
    match file_name {
        Some(name) => name.to_string(),
        None => "questions".to_string(),
    }
}

/// A text with one of its rows exchanged. Rows are what line feeds part.
pub open spec fn with_row(text: Seq<char>, row: int, line: Seq<char>) -> Seq<char> {
    joined(pieces_of(text, '\n').update(row, line), "\n"@)
}

/// Writes a line over a row of a text; `None` where the text has no such row.
pub fn replace_row(text: &str, row: u32, line: &str) -> (edited: Option<String>)
    ensures
        match edited {
            Some(edited) => row < pieces_of(text@, '\n').len() && edited@ == with_row(
                text@,
                row as int,
                line@,
            ),
            None => row >= pieces_of(text@, '\n').len(),
        },
{
    let chars = chars_of(text);
    let mut rows = pieces(chars.as_slice(), '\n');
    assert(spelled(rows@).len() == rows@.len());
    let row = row as usize;
    if row >= rows.len() {
        return None;
    }
    let ghost before = spelled(rows@);
    rows.set(row, chars_of(line));
    assert(spelled(rows@) =~= before.update(row as int, line@));
    let edited = join(&rows, "\n");
    Some(text_of(edited.as_slice()))
}

/// Rows without a last one that is empty.
pub open spec fn without_last_empty(rows: Seq<Seq<char>>) -> Seq<Seq<char>> {
    if rows.len() > 0 && rows.last().len() == 0 {
        rows.drop_last()
    } else {
        rows
    }
}

/// The lines of a text with these rows: each row but the last without a carriage
/// return at its end. A last row that is empty is no line.
pub open spec fn lines_of_rows(rows: Seq<Seq<char>>) -> Seq<Seq<char>> {
    without_last_empty(
        Seq::new(
            rows.len(),
            |i: int|
                if i + 1 < rows.len() {
                    without_return(rows[i])
                } else {
                    rows[i]
                },
        ),
    )
}

pub open spec fn has_no(s: Seq<char>, c: char) -> bool {
    forall|k: int| 0 <= k < s.len() ==> #[trigger] s[k] != c
}

proof fn lemma_lines_are_rows(s: Seq<char>, from: int)
    requires
        0 <= from <= s.len(),
    ensures
        lines_from(s, from) == lines_of_rows(pieces_from(s, from, '\n')),
        pieces_from(s, from, '\n').len() > 0,
        forall|i: int|
            0 <= i < pieces_from(s, from, '\n').len() ==> has_no(
                #[trigger] pieces_from(s, from, '\n')[i],
                '\n',
            ),
    decreases s.len() - from,
{
    lemma_next_char(s, from, '\n');
    let end = next_char(s, from, '\n');
    let rows = pieces_from(s, from, '\n');
    let line = s.subrange(from, end);
    assert(has_no(line, '\n'));
    if end >= s.len() {
        assert(line =~= s.skip(from));
        assert(lines_of_rows(rows) =~= lines_from(s, from));
    } else {
        lemma_lines_are_rows(s, end + 1);
        let rest = pieces_from(s, end + 1, '\n');
        assert(rows == seq![line] + rest);
        assert(rows.last() == rest.last());
        assert(lines_of_rows(rows) =~= seq![without_return(line)] + lines_of_rows(rest));
        assert forall|i: int| 0 <= i < rows.len() implies has_no(#[trigger] rows[i], '\n') by {
            if i > 0 {
                assert(rows[i] == rest[i - 1]);
            }
        }
    }
}

/// Rows put together are parted into the same rows.
proof fn lemma_rows_of_joined(rows: Seq<Seq<char>>)
    requires
        rows.len() > 0,
        forall|i: int| 0 <= i < rows.len() ==> has_no(#[trigger] rows[i], '\n'),
    ensures
        pieces_of(joined(rows, "\n"@), '\n') == rows,
    decreases rows.len(),
{
    reveal_strlit("\n");
    if rows.len() == 1 {
        assert(has_no(rows[0], '\n'));
        lemma_one_piece(rows[0], '\n');
        assert(rows =~= seq![rows[0]]);
    } else {
        let before = rows.drop_last();
        let last = rows.last();
        assert forall|i: int| 0 <= i < before.len() implies has_no(#[trigger] before[i], '\n') by {
            assert(before[i] == rows[i]);
        }
        lemma_rows_of_joined(before);
        assert(has_no(rows[rows.len() - 1], '\n'));
        lemma_pieces_push(joined(before, "\n"@), last, '\n', 0);
        assert("\n"@ =~= seq!['\n']);
        assert(before.push(last) =~= rows);
    }
}

/// A line is its row; a row before others has no carriage return at its end.
pub proof fn lemma_line_of_row(text: Seq<char>, row: int)
    requires
        0 <= row < lines_of(text).len(),
    ensures
        row < pieces_of(text, '\n').len(),
        has_no(pieces_of(text, '\n')[row], '\n'),
        lines_of(text)[row] == if row + 1 < pieces_of(text, '\n').len() {
            without_return(pieces_of(text, '\n')[row])
        } else {
            pieces_of(text, '\n')[row]
        },
{
    lemma_lines_are_rows(text, 0);
}

/// What the lines of a text are once a row was exchanged.
pub proof fn lemma_lines_with_row(text: Seq<char>, row: int, line: Seq<char>)
    requires
        0 <= row < lines_of(text).len(),
        has_no(line, '\n'),
        line.len() > 0,
    ensures
        row < pieces_of(text, '\n').len(),
        lines_of(with_row(text, row, line)) == lines_of(text).update(
            row,
            if row + 1 < pieces_of(text, '\n').len() {
                without_return(line)
            } else {
                line
            },
        ),
{
    let rows = pieces_of(text, '\n');
    lemma_lines_are_rows(text, 0);
    let written = rows.update(row, line);
    assert forall|i: int| 0 <= i < written.len() implies has_no(#[trigger] written[i], '\n') by {
        if i != row {
            assert(written[i] == rows[i]);
        }
    }
    lemma_rows_of_joined(written);
    lemma_lines_are_rows(with_row(text, row, line), 0);
    assert(lines_of_rows(written) =~= lines_of_rows(rows).update(
        row,
        if row + 1 < rows.len() {
            without_return(line)
        } else {
            line
        },
    ));
}

/// A file read again after an answer was written over the answer of a question:
/// that question has the answer, and everything else is as it was. The answer
/// is on one line and opens no comment.
pub proof fn law_write_then_read(text: Seq<char>, j: int, raw: Seq<char>)
    requires
        fits_rows(lines_of(text)),
        0 <= j < sections_of(text).len(),
        sections_of(text)[j] matches SectionModel::Question(question) && question.answer is Some,
        has_no(raw, '\n'),
        !contains_part(answer_line_of(raw), "<!--"@),
    ensures
        ({
            let question = sections_of(text)[j]->Question_0;
            let row = (question.answer->0).0;
            &&& row < pieces_of(text, '\n').len()
            &&& sections_of(with_row(text, row as int, answer_line_of(raw))) == sections_of(
                text,
            ).update(j, SectionModel::Question(question.answered(row, trim(raw))))
        }),
{
    let question = sections_of(text)[j]->Question_0;
    let row = (question.answer->0).0;
    let at = row as int;
    let line = answer_line_of(raw);
    law_questions_are_active(text, j);
    let found = choose|r: int|
        #![trigger is_inactive(source_lines(text), r)]
        0 < r < source_lines(text).len() && row == r as u32 && !is_inactive(source_lines(text), r);
    assert(found == at);
    reveal_strlit("[Answer]:");
    reveal_strlit("[Answer]: ");
    lemma_trim(raw);
    assert(has_no(line, '\n')) by {
        let (from, to) = choose|from: int, to: int|
            0 <= from <= to <= raw.len() && trim(raw) == #[trigger] raw.subrange(from, to) && (
            forall|k: int| 0 <= k < from ==> is_whitespace(#[trigger] raw[k])) && (forall|k: int|
                to <= k < raw.len() ==> is_whitespace(#[trigger] raw[k]));
        assert forall|k: int| 0 <= k < line.len() implies #[trigger] line[k] != '\n' by {
            if k >= 10 {
                assert(line[k] == trim(raw)[k - 10]);
                assert(trim(raw)[k - 10] == raw[from + k - 10]);
            }
        }
    }
    assert(without_return(line) == line) by {
        if trim(raw).len() > 0 {
            assert(line.last() == trim(raw).last());
        }
    }
    lemma_lines_with_row(text, at, line);
    let edited = with_row(text, at, line);
    lemma_find_from(line, 0, "<!--"@);
    assert(line.skip(0) =~= line);
    assert(without_comments(line) == line);
    assert(source_lines(edited) =~= source_lines(text).update(at, line));
    law_rows_write_then_read(source_lines(text), j, raw);
}

/// A target means at most one question.
pub proof fn lemma_one_target(sections: Seq<SectionModel>, a: int, b: int, target: TargetModel)
    requires
        is_target(sections, a, target),
    ensures
        is_target(sections, b, target) ==> a == b,
{
    if is_target(sections, b, target) {
        if a < b {
            lemma_kind_count(sections, a + 1, b, target.kind);
        } else if b < a {
            lemma_kind_count(sections, b + 1, a, target.kind);
        }
    }
}

proof fn lemma_kind_count(sections: Seq<SectionModel>, n: int, m: int, kind: QuestionKind)
    requires
        0 <= n <= m,
    ensures
        kind_count(sections, n, kind) <= kind_count(sections, m, kind),
    decreases m - n,
{
    if n < m {
        lemma_kind_count(sections, n, m - 1, kind);
    }
}

/// Each question counts once, and as answered where it has an answer; what only
/// stands between questions does not count.
pub proof fn law_progress(sections: Seq<SectionModel>, n: int)
    requires
        0 <= n < sections.len(),
    ensures
        question_count(sections, 0) == 0 && answered_count(sections, 0) == 0,
        sections[n] is Markdown ==> question_count(sections, n + 1) == question_count(sections, n)
            && answered_count(sections, n + 1) == answered_count(sections, n),
        sections[n] matches SectionModel::Question(question) ==> {
            &&& question_count(sections, n + 1) == question_count(sections, n) + 1
            &&& question.answer_given().is_empty() ==> answered_count(sections, n + 1)
                == answered_count(sections, n)
            &&& !question.answer_given().is_empty() ==> answered_count(sections, n + 1)
                == answered_count(sections, n) + 1
        },
{
}

proof fn lemma_counted(sections: Seq<SectionModel>, i: int, j: int, kind: QuestionKind)
    requires
        0 <= i <= j <= sections.len(),
    ensures
        kind_count(sections, i, kind) <= kind_count(sections, j, kind),
    decreases j - i,
{
    if i < j {
        lemma_counted(sections, i, j - 1, kind);
    }
}

/// The question that is being typed into is one: no two questions are found by the
/// same kind, place and title, and the one it was begun at is found.
pub proof fn law_one_question_is_typed_into(
    sections: Seq<SectionModel>,
    i: int,
    j: int,
    target: TargetModel,
)
    ensures
        is_target(sections, i, target) && is_target(sections, j, target) ==> i == j,
        0 <= i < sections.len() && (sections[i] matches SectionModel::Question(question)
            && target.kind == question.kind && target.title == question.title && target.ordinal
            == kind_count(sections, i, question.kind)) ==> is_target(sections, i, target),
{
    if is_target(sections, i, target) && is_target(sections, j, target) {
        if i < j {
            lemma_counted(sections, i + 1, j, target.kind);
        } else if j < i {
            lemma_counted(sections, j + 1, i, target.kind);
        }
    }
}

/// A click on an option: nothing where the question cannot be answered here; on
/// the option for free text, typing begins or the text goes; on any other, the
/// option is chosen or taken back. What is written goes to the line of the answer.
pub proof fn law_clicks(question: QuestionModel, index: int)
    requires
        0 <= index <= usize::MAX,
    ensures
        question.answer is None || question.read_only is Some || index >= question.options.len()
            <==> click_of(question, index) is Nothing,
        question.answer is Some && question.read_only is None && index < question.options.len()
            ==> {
            let row = (question.answer->0).0;
            let other = question.options[index].is_other;
            let answer = question.answer_given();
            &&& other && answer.other is None ==> click_of(question, index) == ClickModel::Type(
                seq![],
            )
            &&& other && answer.other is Some ==> click_of(question, index) == ClickModel::Write(
                row,
                answer_line_of(question.answer_written(question.given_other(answer, seq![]))),
            )
            &&& !other ==> click_of(question, index) == ClickModel::Write(
                row,
                answer_line_of(question.answer_written(question.toggled(answer, index as usize))),
            )
        },
{
}

/// What a card shows of a question: it is open exactly where there is one line for
/// the answer, and else says why it is not.
pub proof fn law_cards(question: QuestionModel, index: int, editing: bool)
    requires
        0 <= index < question.options.len(),
        index <= usize::MAX,
    ensures
        question.is_disabled() <==> question.notice() is Some,
        question.answer is None ==> question.notice() == Some(
            "No [Answer]: line. Edit as text."@,
        ) && question.status() == "unanswered"@,
        question.answer is Some && question.read_only == Some(ReadOnlyReason::DuplicateAnswer)
            ==> question.notice() == Some("Duplicate [Answer]: line. Edit as text."@),
        question.answer is Some && question.read_only == Some(ReadOnlyReason::MultiLineAnswer)
            ==> question.notice() == Some("Multi-line answer. Edit as text."@),
        question.answer matches Some((_, raw)) ==> question.status() == if raw.len() > 0 {
            raw
        } else {
            "unanswered"@
        },
        question.options[index].letter is None ==> question.option_label(index)
            == question.options[index].text,
        question.options[index].letter matches Some(letter) ==> question.option_label(index)
            == seq![letter, '.', ' '] + question.options[index].text,
        question.is_disabled() ==> question.free_text(editing) is Hidden,
        !question.is_disabled() && editing ==> question.free_text(editing) is Input,
        !question.is_disabled() && !editing && question.answer_given().other is None && !(
        question.kind is Feedback) ==> question.free_text(editing) is Hidden,
        !question.is_disabled() && !editing && question.answer_given().other is Some && (
        question.answer_given().other->0).len() > 0 ==> question.free_text(editing) == FreeTextModel::Shown(
            question.answer_given().other->0,
        ),
        !question.options[index].is_other ==> (question.option_checked(index)
            <==> question.answer_given().choices.contains(index as usize)),
        question.options[index].is_other && question.answer_given().other is Some
            ==> question.option_checked(index),
{
    reveal_strlit(". ");
    if let Some(letter) = question.options[index].letter {
        assert(seq![letter] + ". "@ + question.options[index].text =~= seq![letter, '.', ' ']
            + question.options[index].text);
    }
}

/// The fingerprint of a plan is shown where the plan has a place for one, whether
/// or not it was computed.
pub proof fn law_shown_fingerprints(question: QuestionModel)
    ensures
        question.fingerprint is None <==> question.fingerprint_text() is None,
        question.fingerprint matches Some((_, value)) ==> question.fingerprint_text() == Some(
            match value {
                Some(digest) => "Fingerprint: "@ + digest,
                None => "Fingerprint: not computed"@,
            },
        ),
{
}

} // verus!
