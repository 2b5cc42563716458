//! The grammar of questionnaires, answers to them, and the view of them.

use agentium::questionnaire::answer::{
    answer_line, parse_answer, render_answer, toggle_option, with_other, Answer,
};
use agentium::questionnaire::document::{
    classify_heading, parse_question, parse_questionnaire, AnswerLine, ChoiceOption, Fingerprint, MarkdownChunk, QuestionBlock,
    QuestionKind, QuestionnaireDocument, ReadOnlyReason, Section,
};
use agentium::questionnaire::view::{
    is_questionnaire, question_card, replace_row, tab_content_text, ClickAction, FreeText,
    QuestionnaireView,
};
use regex::Regex;

fn question(section: &Section) -> &QuestionBlock {
    match section {
        Section::Question(block) => block,
        other => panic!("expected question, got {other:?}"),
    }
}

#[test]
fn empty_text_has_no_sections() {
    assert!(parse_questionnaire("").sections.is_empty());
}

#[test]
fn plain_markdown_is_one_chunk() {
    let document = parse_questionnaire("# Title\n\nsome text\n");
    assert_eq!(
        document.sections,
        vec![Section::Markdown(MarkdownChunk {
            text: "# Title\n\nsome text".to_string(),
        })]
    );
}

#[test]
fn q_heading_with_options_and_blank_answer() {
    let document =
        parse_questionnaire("## Q1. What?\n\nA. Foo\nX. Other (please specify)\n\n[Answer]:\n");
    assert_eq!(document.sections.len(), 1);
    let block = question(&document.sections[0]);
    assert_eq!(block.heading_row, 0);
    assert_eq!(block.title, "Q1. What?");
    assert_eq!(block.kind, QuestionKind::Single);
    assert_eq!(
        block.options,
        vec![
            ChoiceOption {
                row: 2,
                letter: Some('A'),
                text: "Foo".to_string(),
                is_other: false,
            },
            ChoiceOption {
                row: 3,
                letter: Some('X'),
                text: "Other (please specify)".to_string(),
                is_other: true,
            },
        ]
    );
    assert_eq!(
        block.answer,
        Some(AnswerLine {
            row: 5,
            raw: String::new(),
        })
    );
    assert_eq!(block.read_only, None);
    assert_eq!(block.body, "");
}

#[test]
fn h3_questions_under_h2_topics() {
    let document = parse_questionnaire(
        "# Title\n\n## Way of Working\n\n### Q1. Merge?\n\nHow?\n\nA. a\nB. b\nX. Other (please specify)\n\n[Answer]:\n\n### Q2. Next?\n\nA. a\n\n[Answer]: A. a\n\n## Other topic\n\ntext\n",
    );
    assert_eq!(document.sections.len(), 4);
    assert_eq!(
        document.sections[0],
        Section::Markdown(MarkdownChunk {
            text: "# Title\n\n## Way of Working".to_string(),
        })
    );
    let first = question(&document.sections[1]);
    assert_eq!(first.title, "Q1. Merge?");
    assert_eq!(first.body, "How?");
    assert_eq!(first.options.len(), 3);
    assert_eq!(question(&document.sections[2]).title, "Q2. Next?");
    assert_eq!(
        document.sections[3],
        Section::Markdown(MarkdownChunk {
            text: "## Other topic\n\ntext".to_string(),
        })
    );
}

#[test]
fn heading_level_is_not_a_signal() {
    let document = parse_questionnaire(
        "### Q1. A?\n\nA. a\n\n[Answer]:\n\n#### Q2. B?\n\nA. a\n\n[Answer]:\n\n# Q3. C?\n\nA. a\n\n[Answer]:\n",
    );
    assert_eq!(question_count(&document), 3);
    assert_eq!(question(&document.sections[2]).title, "Q3. C?");
}

#[test]
fn non_question_h2_is_markdown() {
    let document = parse_questionnaire(
        "## Sources\n\n- [desc] x\n\n## Q1. A?\n\nA. a\n\n[Answer]: A. a\n",
    );
    assert_eq!(document.sections.len(), 2);
    assert_eq!(
        document.sections[0],
        Section::Markdown(MarkdownChunk {
            text: "## Sources\n\n- [desc] x".to_string(),
        })
    );
    assert_eq!(question(&document.sections[1]).heading_row, 4);
}

const FIXTURE: &str = "# Intent Capture Questions\n\n## Sources\n\n- [desc] Initial description: \"Build a local CLI that echoes supplied text.\"\n- [scope] Workflow-selected scope: `poc`.\n- [memory:M1] `aidlc/spaces/default/memory/project.md#Forbidden`: \"Do not add network access.\"\n\n## Q1. What business problem are we solving?\n\nA. Echo supplied text locally.\nX. Other (please specify)\n\n[Answer]: A. Echo supplied text locally.\n\n## Q2. Who is the customer?\n\nA. The requester.\nX. Other (please specify)\n\n[Answer]: A. The requester.\n\n## Q3. What does success look like?\n\nA. The output exactly matches the supplied text.\nX. Other (please specify)\n\n[Answer]: A. The output exactly matches the supplied text.\n\n## Q4. What triggered the initiative?\n\nA. A small workflow exercise.\nX. Other (please specify)\n\n[Answer]: A. A small workflow exercise.\n\n## Q5. Who are the key stakeholders?\n\nA. The requester only.\nB. Not identified.\nX. Other (please specify)\n\n[Answer]: A. The requester only.\n\n## Q6. Who decides and who influences?\n\nA. The requester decides; no other influencers are identified.\nX. Other (please specify)\n\n[Answer]: A. The requester decides; no other influencers are identified.\n\n## Q7. What communication is required?\n\nA. None.\nX. Other (please specify)\n\n[Answer]: A. None.\n\n## Q8. Does the workflow-selected scope match the product boundary?\n\nA. Yes, keep the product boundary to a proof of concept.\nX. Other (please specify)\n\n[Answer]: A. Yes, keep the product boundary to a proof of concept.\n";

#[test]
fn fixture_has_eight_answered_questions() {
    let document = parse_questionnaire(FIXTURE);
    let questions: Vec<_> = document
        .sections
        .iter()
        .filter_map(|section| match section {
            Section::Question(block) => Some(block),
            Section::Markdown(_) => None,
        })
        .collect();
    assert_eq!(questions.len(), 8);
    assert_eq!(
        document.sections.len(),
        9,
        "title and Sources merge into one chunk"
    );
    for block in &questions {
        assert_eq!(block.kind, QuestionKind::Single);
        assert!(block.options.last().is_some_and(|option| option.is_other));
        assert!(
            block
                .answer
                .as_ref()
                .is_some_and(|answer| answer.raw.starts_with("A. "))
        );
        assert_eq!(block.read_only, None);
    }
    assert_eq!(questions[4].options.len(), 3);
}

#[test]
fn select_all_that_apply_is_multi() {
    let document = parse_questionnaire(
        "## Q2. Which? (select all that apply)\n\nA. a\nB. b\n\n[Answer]: A, B\n",
    );
    assert_eq!(question(&document.sections[0]).kind, QuestionKind::Multi);
}

#[test]
fn bullets_in_ordinary_question_are_body() {
    let document =
        parse_questionnaire("## Q1. Why?\n\n- note one\n- note two\n\nA. a\n\n[Answer]:\n");
    let block = question(&document.sections[0]);
    assert_eq!(block.options.len(), 1);
    assert_eq!(block.body, "- note one\n- note two");
}

#[test]
fn lines_after_answer_make_it_read_only() {
    let document =
        parse_questionnaire("## Q1. Why?\n\nA. a\n\n[Answer]: A. a\n**Mode:** chat\n");
    let block = question(&document.sections[0]);
    assert_eq!(
        block.read_only,
        Some(ReadOnlyReason::MultiLineAnswer)
    );
    assert_eq!(block.answer_tail, "**Mode:** chat");
    assert_eq!(block.body, "");
}

fn option_texts(block: &QuestionBlock) -> Vec<(Option<char>, &str)> {
    block
        .options
        .iter()
        .map(|option| (option.letter, option.text.as_str()))
        .collect()
}

#[test]
fn consolidated_summary_confirmation_uses_bullets() {
    let document = parse_questionnaire(
        "## Consolidated Summary Confirmation\n\nDoes this all look correct?\n\n- Looks correct\n- Request changes\n\n[Answer]: Looks correct\n",
    );
    let block = question(&document.sections[0]);
    assert_eq!(block.kind, QuestionKind::SummaryConfirmation);
    assert_eq!(
        option_texts(block),
        vec![(None, "Looks correct"), (None, "Request changes")]
    );
    assert_eq!(block.body, "Does this all look correct?");
    assert_eq!(
        block.answer.as_ref().map(|answer| answer.raw.as_str()),
        Some("Looks correct")
    );
}

#[test]
fn requested_changes_feedback_is_free_text() {
    let document = parse_questionnaire(
        "## Requested Changes Feedback\n\nWhat should change?\n\n[Answer]: Tighten Q3\n",
    );
    let block = question(&document.sections[0]);
    assert_eq!(block.kind, QuestionKind::Feedback);
    assert!(block.options.is_empty());
    assert_eq!(block.body, "What should change?");
}

#[test]
fn assumption_confirmation_bullets_are_body() {
    let document = parse_questionnaire(
        "## Assumption Confirmation\n\n- [assumption] Local only.\n- [assumption] No auth.\n\nA. Accept assumptions\nB. Convert to follow-up questions\n\n[Answer]:\n",
    );
    let block = question(&document.sections[0]);
    assert_eq!(block.kind, QuestionKind::AssumptionConfirmation);
    assert_eq!(
        option_texts(block),
        vec![
            (Some('A'), "Accept assumptions"),
            (Some('B'), "Convert to follow-up questions"),
        ]
    );
    assert_eq!(
        block.body,
        "- [assumption] Local only.\n- [assumption] No auth."
    );
}

const SHA: &str = "sha256:aaaaaaaaaaaaaaaaaaaaaaaaaaaaaaaaaaaaaaaaaaaaaaaaaaaaaaaaaaaaaaaa";

#[test]
fn plan_approval_with_fingerprint() {
    let text = format!(
        "## Plan Approval\n[Approval Fingerprint]: {SHA}\nA. Approve Plan\nB. Request Changes\n[Answer]: A. Approve Plan\n"
    );
    let document = parse_questionnaire(&text);
    let block = question(&document.sections[0]);
    assert_eq!(block.kind, QuestionKind::PlanApproval);
    assert_eq!(
        block.fingerprint,
        Some(Fingerprint {
            row: 1,
            value: Some(SHA.to_string()),
        })
    );
    assert_eq!(
        option_texts(block),
        vec![(Some('A'), "Approve Plan"), (Some('B'), "Request Changes")]
    );
    assert_eq!(block.body, "");
}

#[test]
fn plan_approval_bullet_options_and_empty_fingerprint() {
    let document = parse_questionnaire(
        "## Plan Approval\n[Approval Fingerprint]:\n- \"Approve Plan\"\n- \"Request Changes\"\n[Answer]:\n",
    );
    let block = question(&document.sections[0]);
    assert_eq!(block.kind, QuestionKind::PlanApproval);
    assert_eq!(
        block.fingerprint,
        Some(Fingerprint {
            row: 1,
            value: None,
        })
    );
    assert_eq!(
        option_texts(block),
        vec![(None, "Approve Plan"), (None, "Request Changes")]
    );
}

#[test]
fn plan_approval_heading_variants() {
    for text in [
        "## Q1: Plan Approval\n[Answer]: A. Approve Plan\n",
        "## Question 1 - Plan Approval\n[Answer]: A. Approve Plan\n",
        "## Q1\n\nPlan Approval\n\nA. Approve Plan\nB. Request Changes\n[Answer]: A. Approve Plan\n",
        "## Question 1\n\n**Plan Approval**\n[Answer]: A. Approve Plan\n",
        "## Plan <!-- heading -->Approval\n[Answer]: A. Approve <!-- answer -->Plan\n",
    ] {
        let document = parse_questionnaire(text);
        let block = question(&document.sections[0]);
        assert_eq!(block.kind, QuestionKind::PlanApproval, "{text:?}");
        assert_eq!(
            block.answer.as_ref().map(|answer| answer.raw.as_str()),
            Some("A. Approve Plan"),
            "{text:?}"
        );
        assert!(!block.body.contains("Plan Approval"), "{text:?}");
    }
}

#[test]
fn numbered_heading_takes_question_text_from_body() {
    let document = parse_questionnaire(
        "## Q1\n\nWhich checkpoint applies?\n\nA. Plan Approval\n[Answer]: A. Approve Plan\n",
    );
    let block = question(&document.sections[0]);
    assert_eq!(block.kind, QuestionKind::Single);
    assert_eq!(block.title, "Q1 Which checkpoint applies?");
    assert_eq!(block.body, "");
    assert_eq!(option_texts(block), vec![(Some('A'), "Plan Approval")]);
}

fn question_count(document: &QuestionnaireDocument) -> usize {
    document
        .sections
        .iter()
        .filter(|section| matches!(section, Section::Question(_)))
        .count()
}

#[test]
fn fenced_headings_are_inactive() {
    for text in [
        "```markdown\n## Plan Approval\n[Answer]: A. Approve Plan\n```\n",
        "~~~markdown\n## Q1\nPlan Approval\n[Answer]: A. Approve Plan\n~~~\n",
    ] {
        let document = parse_questionnaire(text);
        assert_eq!(question_count(&document), 0, "{text:?}");
        assert_eq!(document.sections.len(), 1, "{text:?}");
    }
}

#[test]
fn multi_line_comment_is_inactive() {
    let document = parse_questionnaire(
        "<!--\n## Plan Approval\n[Answer]: A. Approve Plan\n-->\n## Plan Approval\n[Answer]:\n",
    );
    assert_eq!(question_count(&document), 1);
    let block = question(&document.sections[1]);
    assert_eq!(block.kind, QuestionKind::PlanApproval);
    assert_eq!(
        block.answer.as_ref().map(|answer| answer.raw.as_str()),
        Some("")
    );
}

#[test]
fn longer_fence_is_not_closed_by_shorter() {
    let document = parse_questionnaire(
        "````\n```\n## Q1. Hidden?\n```\n````\n## Q2. Real?\n\nA. a\n\n[Answer]:\n",
    );
    assert_eq!(question_count(&document), 1);
    assert_eq!(question(&document.sections[1]).title, "Q2. Real?");
}

#[test]
fn fence_inside_question_is_body() {
    let document = parse_questionnaire(
        "## Q1. How?\n\n```\nA. not an option\n[Answer]: not an answer\n```\n\nA. real\n\n[Answer]:\n",
    );
    let block = question(&document.sections[0]);
    assert_eq!(option_texts(block), vec![(Some('A'), "real")]);
    assert_eq!(
        block.answer.as_ref().map(|answer| answer.raw.as_str()),
        Some("")
    );
    assert_eq!(
        block.body,
        "```\nA. not an option\n[Answer]: not an answer\n```"
    );
    assert_eq!(block.read_only, None);
}

fn block_with_answer(kind_text: &str, raw: &str) -> QuestionBlock {
    let mut document = parse_questionnaire(&format!("{kind_text}[Answer]: {raw}\n"));
    match document.sections.pop() {
        Some(Section::Question(block)) => block,
        other => panic!("expected question, got {other:?}"),
    }
}

const SINGLE: &str =
    "## Q1. What?\n\nA. Echo text.\nB. Something else.\nX. Other (please specify)\n\n";
const MULTI: &str =
    "## Q2. Which? (select all that apply)\n\nA. a\nB. b\nC. c\nX. Other (please specify)\n\n";
const SUMMARY: &str =
    "## Consolidated Summary Confirmation\n\n- Looks correct\n- Request changes\n\n";
const PLAN: &str = "## Plan Approval\nA. Approve Plan\nB. Request Changes\n";
const FEEDBACK: &str = "## Requested Changes Feedback\n\n";

fn choices(indices: &[usize]) -> Answer {
    Answer {
        choices: indices.to_vec(),
        other: None,
    }
}

fn other(text: &str) -> Answer {
    Answer {
        choices: Vec::new(),
        other: Some(text.to_string()),
    }
}

fn mixed(indices: &[usize], text: &str) -> Answer {
    Answer {
        choices: indices.to_vec(),
        other: Some(text.to_string()),
    }
}

#[test]
fn blank_or_underscores_is_unanswered() {
    for raw in ["", "___", " _ "] {
        assert_eq!(
            parse_answer(&block_with_answer(SINGLE, raw)),
            Answer::default(),
            "{raw:?}"
        );
    }
}

#[test]
fn lettered_answer_selects_by_letter() {
    assert_eq!(
        parse_answer(&block_with_answer(SINGLE, "A. Echo text.")),
        choices(&[0])
    );
    assert_eq!(parse_answer(&block_with_answer(SINGLE, "B")), choices(&[1]));
    assert_eq!(
        parse_answer(&block_with_answer(SINGLE, "B) whatever")),
        choices(&[1])
    );
}

#[test]
fn multi_answer_splits_on_commas() {
    assert_eq!(
        parse_answer(&block_with_answer(MULTI, "A, C")),
        choices(&[0, 2])
    );
    assert_eq!(
        parse_answer(&block_with_answer(MULTI, "C,A")),
        choices(&[0, 2])
    );
    assert_eq!(parse_answer(&block_with_answer(MULTI, "B")), choices(&[1]));
}

#[test]
fn other_token_carries_free_text() {
    assert_eq!(
        parse_answer(&block_with_answer(SINGLE, "X: foobar")),
        other("foobar")
    );
    assert_eq!(parse_answer(&block_with_answer(SINGLE, "X")), other(""));
    assert_eq!(
        parse_answer(&block_with_answer(SINGLE, "X. Other (please specify)")),
        other("")
    );
    assert_eq!(
        parse_answer(&block_with_answer(MULTI, "A, C, X: foo, bar")),
        mixed(&[0, 2], "foo, bar")
    );
}

#[test]
fn unmatched_text_is_treated_as_other() {
    assert_eq!(
        parse_answer(&block_with_answer(SINGLE, "custom wording")),
        other("custom wording")
    );
    assert_eq!(
        parse_answer(&block_with_answer(MULTI, "A, Z")),
        other("A, Z")
    );
    assert_eq!(
        parse_answer(&block_with_answer(FEEDBACK, "Tighten Q3")),
        other("Tighten Q3")
    );
}

#[test]
fn unlettered_answer_matches_by_text() {
    assert_eq!(
        parse_answer(&block_with_answer(SUMMARY, "Looks correct")),
        choices(&[0])
    );
    assert_eq!(
        parse_answer(&block_with_answer(SUMMARY, "request changes")),
        choices(&[1])
    );
    assert_eq!(
        parse_answer(&block_with_answer(PLAN, "Approve Plan")),
        choices(&[0])
    );
}

#[test]
fn render_writes_letters_for_ordinary_questions() {
    let single = block_with_answer(SINGLE, "");
    let multi = block_with_answer(MULTI, "");
    assert_eq!(render_answer(&single, &choices(&[0])), "A");
    assert_eq!(render_answer(&multi, &choices(&[2, 0])), "A, C");
    assert_eq!(
        render_answer(&multi, &mixed(&[0, 2], "foo")),
        "A, C, X: foo"
    );
    assert_eq!(render_answer(&single, &other("free text")), "X: free text");
    assert_eq!(render_answer(&single, &other("")), "X");
    assert_eq!(render_answer(&single, &Answer::default()), "");
}

// AI-DLC guards match these literally, so letters alone would break them.
#[test]
fn render_keeps_special_section_formats() {
    assert_eq!(
        render_answer(&block_with_answer(PLAN, ""), &choices(&[1])),
        "B. Request Changes"
    );
    assert_eq!(
        render_answer(&block_with_answer(SUMMARY, ""), &choices(&[0])),
        "Looks correct"
    );
    assert_eq!(
        render_answer(&block_with_answer(FEEDBACK, ""), &other("Tighten Q3")),
        "Tighten Q3"
    );
}

#[test]
fn answer_line_has_no_trailing_space_when_blank() {
    assert_eq!(answer_line(""), "[Answer]:");
    assert_eq!(answer_line("A"), "[Answer]: A");
}

#[test]
fn rendered_answers_satisfy_aidlc_unanswered_regex() {
    let unanswered = Regex::new(r"^\[Answer\]:[ \t]*_*[ \t]*$").unwrap();
    let block = block_with_answer(SINGLE, "");
    assert!(unanswered.is_match(&answer_line(&render_answer(&block, &Answer::default()))));
    assert!(!unanswered.is_match(&answer_line(&render_answer(&block, &choices(&[0])))));
    assert!(!unanswered.is_match(&answer_line(&render_answer(&block, &other("x")))));
}

#[test]
fn toggle_single_replaces_or_clears() {
    let block = block_with_answer(SINGLE, "");
    assert_eq!(toggle_option(&block, &Answer::default(), 1), choices(&[1]));
    assert_eq!(toggle_option(&block, &choices(&[0]), 1), choices(&[1]));
    assert_eq!(toggle_option(&block, &choices(&[1]), 1), Answer::default());
    assert_eq!(toggle_option(&block, &other("x"), 0), choices(&[0]));
}

#[test]
fn toggle_multi_adds_and_removes_keeping_other() {
    let block = block_with_answer(MULTI, "");
    assert_eq!(toggle_option(&block, &Answer::default(), 2), choices(&[2]));
    assert_eq!(toggle_option(&block, &choices(&[2]), 0), choices(&[0, 2]));
    assert_eq!(toggle_option(&block, &choices(&[0, 2]), 2), choices(&[0]));
    assert_eq!(toggle_option(&block, &choices(&[0]), 0), Answer::default());
    assert_eq!(
        toggle_option(&block, &mixed(&[0], "t"), 2),
        mixed(&[0, 2], "t")
    );
}

#[test]
fn with_other_sets_free_text() {
    let single = block_with_answer(SINGLE, "");
    let multi = block_with_answer(MULTI, "");
    assert_eq!(with_other(&single, &choices(&[0]), "foo"), other("foo"));
    assert_eq!(with_other(&single, &other("x"), ""), Answer::default());
    assert_eq!(
        with_other(&multi, &choices(&[0]), " foo "),
        mixed(&[0], "foo")
    );
    assert_eq!(with_other(&multi, &mixed(&[0], "foo"), ""), choices(&[0]));
}

#[test]
fn duplicate_answer_is_read_only() {
    let document = parse_questionnaire("## Q1. Why?\n\nA. a\n\n[Answer]: A. a\n\n[Answer]:\n");
    let block = question(&document.sections[0]);
    assert_eq!(
        block.read_only,
        Some(ReadOnlyReason::DuplicateAnswer)
    );
    assert_eq!(
        block.answer.as_ref().map(|answer| answer.raw.as_str()),
        Some("A. a")
    );
}

const ON_DISK: &str = "## Q1. What?\n\nA. Foo\nB. Bar\nX. Other (please specify)\n\n[Answer]:\n";

#[test]
fn view_writes_answers_and_follows_disk() {
    assert!(
        !is_questionnaire("README.md"),
        "plain markdown must fall through to the editor"
    );
    assert!(
        is_questionnaire("intent-questions.md"),
        "questionnaire files are claimed"
    );
    let mut view = QuestionnaireView::new(ON_DISK);
    assert_eq!(view.progress(), (0, 1));

    let (committed, action) = view.on_option_clicked(0, 1, "");
    assert!(committed.is_none());
    let edit = match action {
        ClickAction::Write(edit) => edit,
        other => panic!("expected an edit, got {other:?}"),
    };
    let saved = replace_row(ON_DISK, edit.row, &edit.line).expect("row is in the file");
    assert_eq!(saved, ON_DISK.replace("[Answer]:", "[Answer]: B"));
    view.reparse(&saved);
    assert_eq!(view.progress(), (1, 1));

    view.reparse(&ON_DISK.replace("[Answer]:", "[Answer]: A. Foo"));
    let block = view.question(0).expect("question survives reload");
    assert_eq!(parse_answer(block), choices(&[0]));
}

#[test]
fn other_option_takes_free_text() {
    let mut view = QuestionnaireView::new(ON_DISK);
    let (committed, action) = view.on_option_clicked(0, 2, "");
    assert!(
        committed.is_none(),
        "picking Other writes nothing until confirmed"
    );
    assert!(matches!(action, ClickAction::Type(_)));
    assert!(view.is_editing(0), "Other opens the text input");

    let edit = view
        .commit_editing("  something else  ")
        .expect("the answer is written");
    let saved = replace_row(ON_DISK, edit.row, &edit.line).expect("row is in the file");
    assert_eq!(
        saved,
        ON_DISK.replace("[Answer]:", "[Answer]: X: something else")
    );
    view.reparse(&saved);
    assert!(!view.is_editing(0));
    let block = view.question(0).expect("question");
    assert_eq!(parse_answer(block), other("something else"));
}

#[test]
fn answers_are_read_back_as_written() {
    for (text, answer) in [
        (SINGLE, choices(&[1])),
        (SINGLE, other("free text")),
        (MULTI, choices(&[0, 2])),
        (MULTI, mixed(&[0, 1, 2], "foo, bar")),
        (SUMMARY, choices(&[1])),
        (PLAN, choices(&[0])),
        (FEEDBACK, other("Tighten Q3")),
    ] {
        let raw = render_answer(&block_with_answer(text, ""), &answer);
        assert_eq!(parse_answer(&block_with_answer(text, &raw)), answer, "{raw:?}");
    }
}

#[test]
fn toggling_twice_changes_nothing() {
    let multi = block_with_answer(MULTI, "");
    let start = mixed(&[0, 2], "foo");
    for index in 0..3 {
        let twice = toggle_option(&multi, &toggle_option(&multi, &start, index), index);
        assert_eq!(twice, start);
    }
}

#[test]
fn writing_a_row_keeps_the_other_rows() {
    let text = "one\ntwo\nthree";
    assert_eq!(replace_row(text, 1, "2"), Some("one\n2\nthree".to_string()));
    assert_eq!(replace_row(text, 3, "4"), None);
}

#[test]
fn heading_levels_read_alike() {
    let text = "intro\r\n  ## Q1. What? ##\r\nA. Foo\n[Answer]: A\n# Notes\n### 2 <!-- c -->\nWhy?";
    let document = parse_questionnaire(text);
    assert_eq!(question_count(&document), 2);
    for level in 1..=6 {
        let hashes = "#".repeat(level);
        let first = replace_row(text, 1, &format!("  {hashes} Q1. What? ##\r")).unwrap();
        assert_eq!(parse_questionnaire(&first), document);
        let second = replace_row(text, 5, &format!("{hashes} 2 <!-- c -->")).unwrap();
        assert_eq!(parse_questionnaire(&second), document);
    }
    let none = replace_row(text, 1, "  ####### Q1. What? ##\r").unwrap();
    assert_ne!(parse_questionnaire(&none), document);
    let heading = |row: &str| parse_questionnaire(&format!("{row}\nA. Foo\n[Answer]: A\n"));
    let commented = heading("#<!--c--># Q1. X?");
    assert_eq!(question_count(&commented), 1);
    for row in [
        "<!--c--># Q1. X?",
        "## Q1. X?",
        "#####<!--c--># Q1. X?",
        "<!--c-->###<!----># Q1. X?",
    ] {
        assert_eq!(heading(row), commented, "{row}");
    }
    assert_ne!(heading("######<!--c--># Q1. X?"), commented);
    assert_ne!(heading("#<!--c--> # Q1. X?"), commented);
}

#[test]
fn answers_are_written_between_carriage_returns() {
    let text = "## Q1. What?\r\nA. Foo\r\nB. Bar\r\n[Answer]: A\r\n## Q2. Why?\r\n[Answer]: x\r\n";
    let before = parse_questionnaire(text);
    let row = question(&before.sections[0]).answer.as_ref().unwrap().row;
    let after = parse_questionnaire(&replace_row(text, row, &answer_line(" B\r")).unwrap());
    assert_eq!(after.sections[1], before.sections[1]);
    assert_eq!(parse_answer(question(&after.sections[0])), choices(&[1]));
    assert_eq!(question(&after.sections[0]).options, question(&before.sections[0]).options);
}

#[test]
fn letter_with_a_meaning_in_patterns() {
    let block = |letter: char, raw: &str| {
        let mut block = block_with_answer(MULTI, raw);
        for option in &mut block.options {
            if option.is_other {
                option.letter = Some(letter);
            }
        }
        block
    };
    assert_eq!(parse_answer(&block('.', "A, Z: text")), mixed(&[0], "text"));
    assert_eq!(parse_answer(&block('(', "A, (: text")), other("A, (: text"));
    assert_eq!(parse_answer(&block('-', "A, -: text")), mixed(&[0], "text"));
    assert!(question_card(&block('.', "A, Z: text"), false).options[0].checked);
}

#[test]
fn lines_that_nothing_is_said_of() {
    let chars = |text: &str| text.chars().collect::<Vec<char>>();
    let lines = vec![chars("What?"), chars("A. Foo"), chars("[Answer]: A")];
    let heading = classify_heading(&chars("1"), &lines, &[]).unwrap();
    assert_eq!((heading.title.as_str(), heading.label_line), ("1", None));
    let heading = classify_heading(&chars("1"), &lines, &[true]).unwrap();
    assert_eq!(heading.label_line, None);
    let heading = classify_heading(&chars("1"), &lines, &[false]).unwrap();
    assert_eq!((heading.title.as_str(), heading.label_line), ("1 What?", Some(0)));
    let block = parse_question(4, heading, &lines, &[false]);
    assert_eq!(option_texts(&block), vec![(Some('A'), "Foo")]);
    assert_eq!(block.answer.map(|answer| answer.row), Some(7));
    assert_eq!(QuestionnaireDocument::default(), parse_questionnaire(""));
}

#[test]
fn card_of_an_answered_question() {
    let card = question_card(&block_with_answer(SINGLE, "X: foo"), false);
    assert_eq!(card.title, "Q1. What?");
    assert!(card.answered);
    assert_eq!(card.options.len(), 3);
    assert!(card.options[2].checked);
    assert!(!card.disabled);
    assert!(matches!(card.free_text, FreeText::Shown(text) if text == "foo"));
}

#[test]
fn tab_is_called_as_its_file() {
    assert_eq!(tab_content_text(Some("a-questions.md")), "a-questions.md");
    assert_eq!(tab_content_text(None), "questions");
}

#[test]
fn progress_is_shown_as_a_fraction() {
    let view = QuestionnaireView::new(FIXTURE);
    assert_eq!(view.progress(), (8, 8));
    assert!(view.progress_text().starts_with("8/8"));
}

#[test]
fn typing_that_is_cancelled_writes_nothing() {
    let mut view = QuestionnaireView::new(ON_DISK);
    let (committed, initial) = view.start_editing(0, "");
    assert!(committed.is_none());
    assert_eq!(initial.as_deref(), Some(""));
    assert!(view.is_editing(0));
    view.cancel_editing();
    assert!(!view.is_editing(0));
    assert!(view.commit_editing("something").is_none());
}
