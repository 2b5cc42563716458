//! What is read below a heading, in terms of the characters of its lines, and
//! which lines count.

use vstd::prelude::*;

use crate::questionnaire::document::{
    first_text, question_kind, question_label, question_text, question_title, special_kind,
    BodyModel, LineRole, ReadOnlyReason,
};
use crate::questionnaire::grammar::{
    bullet_option, fence_opened, fingerprint_value, folds_at, folds_to, has_question_id,
    is_bare_number, is_digest, lettered_option, number_mark, number_start, region_after,
    without_comments, without_comments_from, without_emphasis, without_quotes, Region,
};
use crate::questionnaire::laws::lemma_answer_from;
use crate::questionnaire::round_trip::{lemma_trim, lemma_trim_keeps};
use crate::text::{
    find_from, is_whitespace, joined, lemma_find_from, lemma_run_end_is, occurs_at, run_start,
    starts_with, trim, trim_of, CharClass,
};

verus! {

/// A heading that begins with `Q` and a number asks a question, whatever stands
/// below it, unless the number goes on as a word.
pub proof fn law_question_ids(
    number: Seq<char>,
    rest: Seq<char>,
    body: Seq<Seq<char>>,
    hidden: Seq<bool>,
)
    requires
        number.len() > 0,
        forall|k: int| 0 <= k < number.len() ==> '0' <= #[trigger] number[k] <= '9',
        rest.len() > 0 ==> rest[0] == ' ' || rest[0] == '.' || rest[0] == ':' || rest[0] == ')'
            || rest[0] == '-',
    ensures
        question_kind(seq!['Q'] + number + rest, body, hidden) is Some,
{
    let heading = seq!['Q'] + number + rest;
    let end = 1 + number.len();
    assert forall|k: int| 1 <= k < end implies CharClass::Digit.has(#[trigger] heading[k]) by {
        assert(heading[k] == number[k - 1]);
    }
    if rest.len() > 0 {
        assert(heading[end as int] == rest[0]);
    }
    lemma_run_end_is(heading, 1, CharClass::Digit, end as int);
    assert(has_question_id(heading));
}

/// A heading that begins with neither a number nor a `q` asks nothing, whatever
/// stands below it, unless it is one of the special labels.
pub proof fn law_other_headings(heading: Seq<char>, body: Seq<Seq<char>>, hidden: Seq<bool>)
    requires
        heading.len() > 0,
        'A' <= heading[0] <= 'Z' || 'a' <= heading[0] <= 'z',
        heading[0] != 'q' && heading[0] != 'Q',
    ensures
        question_kind(heading, body, hidden) == special_kind(question_label(trim(heading))),
        question_title(heading, body, hidden) == heading,
{
    lemma_run_end_is(heading, 0, CharClass::Digit, 0);
    assert(number_mark(heading) is None);
}

proof fn lemma_first_text(body: Seq<Seq<char>>, hidden: Seq<bool>, from: int, at: int)
    requires
        body.len() == hidden.len(),
        0 <= from <= at < body.len(),
        !hidden[at],
        trim(body[at]).len() > 0,
        forall|k: int| 0 <= k < at ==> hidden[k] || trim(#[trigger] body[k]).len() == 0,
    ensures
        first_text(body, hidden, from) == Some(at),
    decreases at - from,
{
    if from < at {
        assert(hidden[from] || trim(body[from]).len() == 0);
        lemma_first_text(body, hidden, from + 1, at);
    }
}

/// A heading that is a number and nothing else asks what the first line below it
/// says, and its title is both.
pub proof fn law_bare_numbers(
    word: bool,
    number: Seq<char>,
    body: Seq<Seq<char>>,
    hidden: Seq<bool>,
    at: int,
)
    requires
        number.len() > 0,
        forall|k: int| 0 <= k < number.len() ==> '0' <= #[trigger] number[k] <= '9',
        body.len() == hidden.len(),
        0 <= at < body.len(),
        !hidden[at],
        forall|k: int| 0 <= k < at ==> hidden[k] || trim(#[trigger] body[k]).len() == 0,
        body[at].len() > 0,
        !is_whitespace(body[at][0]) && !is_whitespace(body[at].last()),
        body[at][0] != '*' && body[at][0] != '_',
        body[at].last() != '*' && body[at].last() != '_',
    ensures
        ({
            let heading = if word {
                "Question "@ + number
            } else {
                number
            };
            &&& question_kind(heading, body, hidden) is Some
            &&& question_text(heading, body, hidden) == body[at]
            &&& question_title(heading, body, hidden) == heading + " "@ + body[at]
        }),
{
    reveal_strlit("Question ");
    reveal_strlit("uestion");
    let heading = if word {
        "Question "@ + number
    } else {
        number
    };
    let start: int = if word {
        9
    } else {
        0
    };
    let n = heading.len() as int;
    if word {
        assert(heading[0] == 'Q' && heading[8] == ' ');
        assert forall|k: int| 0 <= k < 7 implies folds_to(heading[1 + k], #[trigger] "uestion"@[k]) by {
            assert(heading[1 + k] == "Question "@[1 + k]);
        }
        assert(folds_at(heading, 1, "uestion"@));
        assert(heading[9] == number[0]);
        assert('0' <= number[0] <= '9');
        lemma_run_end_is(heading, 8, CharClass::Blank, 9);
    } else {
        assert('0' <= number[0] <= '9');
        assert(heading[0] == number[0]);
    }
    assert(number_start(heading) == start);
    assert forall|k: int| start <= k < n implies CharClass::Digit.has(#[trigger] heading[k]) by {
        assert(heading[k] == number[k - start]);
    }
    lemma_run_end_is(heading, start, CharClass::Digit, n);
    lemma_run_end_is(heading, n, CharClass::Blank, n);
    assert(is_bare_number(heading));
    let line = body[at];
    lemma_trim_keeps(line);
    lemma_first_text(body, hidden, 0, at);
    let stars = CharClass::Either('*', '_');
    let len = line.len() as int;
    assert(run_start(line, len, stars) == len);
    assert(line.take(len) =~= line);
    lemma_run_end_is(line, 0, stars, 0);
    assert(line.skip(0) =~= line);
    assert(without_emphasis(line) == line);
}

/// Whether a line below a heading is an active one that begins with `[Answer]:`.
pub open spec fn answers(body: BodyModel, k: int) -> bool {
    &&& 0 <= k < body.lines.len()
    &&& body.label_line != Some(k)
    &&& !(k < body.hidden.len() && body.hidden[k])
    &&& body.lines[k].len() >= 9
    &&& body.lines[k].take(9) == "[Answer]:"@
}

/// Whether a line holds anything but white space.
pub open spec fn says_something(line: Seq<char>) -> bool {
    exists|k: int| 0 <= k < line.len() && !is_whitespace(#[trigger] line[k])
}

proof fn lemma_answers(body: BodyModel, k: int)
    requires
        0 <= k < body.lines.len(),
    ensures
        body.role(k) is Answer <==> answers(body, k),
        answers(body, k) ==> body.role(k) == LineRole::Answer(trim(body.lines[k].skip(9))),
{
    reveal_strlit("[Answer]:");
    let line = body.lines[k];
    if line.len() >= 9 {
        assert(line.subrange(0, 9) =~= line.take(9));
    }
}

proof fn lemma_says(line: Seq<char>)
    ensures
        says_something(line) <==> trim(line).len() > 0,
{
    lemma_trim(line);
    let (from, to) = choose|from: int, to: int|
        0 <= from <= to <= line.len() && trim(line) == #[trigger] line.subrange(from, to) && (
        forall|k: int| 0 <= k < from ==> is_whitespace(#[trigger] line[k])) && (forall|k: int|
            to <= k < line.len() ==> is_whitespace(#[trigger] line[k]));
    if trim(line).len() > 0 {
        assert(trim(line)[0] == line[from]);
    }
}

proof fn lemma_tail(body: BodyModel, from: int, n: int)
    requires
        0 <= from,
        n <= body.lines.len(),
    ensures
        body.tail_between(from, n).len() > 0 <==> exists|k: int|
            from <= k < n && #[trigger] body.in_tail(k),
    decreases n,
{
    if n > from {
        lemma_tail(body, from, n - 1);
        if body.in_tail(n - 1) {
            assert(from <= n - 1 < n);
        }
    }
}

/// The answer of a question is what stands behind the first mark for it. With a
/// second mark, or with text below the first, it can be read only; with blank
/// lines alone below it, it can be written.
pub proof fn law_where_the_answer_stands(body: BodyModel, title: Seq<char>, a: int)
    requires
        answers(body, a),
        forall|k: int| 0 <= k < a ==> !#[trigger] answers(body, k),
        body.label_line is None,
    ensures
        body.question(title).answer == Some(
            ((body.heading_row + 1 + a) as u32, trim(body.lines[a].skip(9))),
        ),
        (exists|b: int| a < b && #[trigger] answers(body, b)) ==> body.question(title).read_only
            == Some(ReadOnlyReason::DuplicateAnswer),
        (forall|b: int| a < b ==> !#[trigger] answers(body, b)) && (exists|k: int|
            a < k < body.lines.len() && says_something(#[trigger] body.lines[k]))
            ==> body.question(title).read_only == Some(ReadOnlyReason::MultiLineAnswer),
        (forall|k: int| a < k < body.lines.len() ==> !says_something(#[trigger] body.lines[k]))
            ==> body.question(title).read_only is None,
{
    let n = body.lines.len() as int;
    let end = body.answer_offset();
    lemma_answer_from(body, 0);
    lemma_answers(body, a);
    if end < a {
        lemma_answers(body, end);
    }
    assert(end == a);
    lemma_answer_from(body, end + 1);
    let second = body.answer_from(end + 1);
    if second < n {
        lemma_answers(body, second);
        lemma_says_answer(body, second);
    } else {
        assert forall|b: int| a < b implies !#[trigger] answers(body, b) by {
            if b < n {
                lemma_answers(body, b);
            }
        }
    }
    lemma_tail(body, end + 1, n);
    assert forall|k: int| a < k < n implies (#[trigger] body.in_tail(k) <==> says_something(
        body.lines[k],
    ) && !answers(body, k)) by {
        lemma_answers(body, k);
        lemma_says(body.lines[k]);
        assert(!(body.role(k) is Label));
    }
    if exists|k: int| a < k < n && says_something(#[trigger] body.lines[k]) {
        let k = choose|k: int| a < k < n && says_something(#[trigger] body.lines[k]);
        if forall|b: int| a < b ==> !#[trigger] answers(body, b) {
            assert(!answers(body, k));
            assert(body.in_tail(k));
        }
    }
}

proof fn lemma_says_answer(body: BodyModel, k: int)
    requires
        answers(body, k),
    ensures
        says_something(body.lines[k]),
{
    reveal_strlit("[Answer]:");
    assert(body.lines[k].take(9)[0] == '[');
    assert(!is_whitespace(body.lines[k][0]));
}

/// A question without a mark for its answer has none.
pub proof fn law_no_mark_no_answer(body: BodyModel, title: Seq<char>)
    requires
        forall|k: int| 0 <= k < body.lines.len() ==> !#[trigger] answers(body, k),
    ensures
        body.question(title).answer is None,
        body.question(title).read_only is None,
{
    lemma_answer_from(body, 0);
    let end = body.answer_offset();
    if end < body.lines.len() {
        lemma_answers(body, end);
    }
}

/// A bullet is an option of a summary or of a plan to be approved, and of no other
/// question.
pub proof fn law_bullets(body: BodyModel, k: int, mark: char, text: Seq<char>)
    requires
        0 <= k < body.lines.len(),
        body.label_line != Some(k),
        !body.is_hidden(k),
        mark == '-' || mark == '*' || mark == '+',
        body.lines[k] == seq![mark, ' '] + text,
        text.len() > 0,
        !is_whitespace(text[0]) && !is_whitespace(text.last()),
        text[0] != '"' && text[0] != '\'' && text.last() != '"' && text.last() != '\'',
    ensures
        body.kind is SummaryConfirmation || body.kind is PlanApproval ==> body.role(k)
            == LineRole::Choice(None, text),
        !(body.kind is SummaryConfirmation) && !(body.kind is PlanApproval) ==> body.role(k)
            is Body,
{
    reveal_strlit("[Answer]:");
    reveal_strlit("[Approval Fingerprint]:");
    let line = body.lines[k];
    assert(line[0] == mark && line[1] == ' ' && line[2] == text[0]);
    if starts_with(line, "[Answer]:"@) {
        assert(line.subrange(0, 9)[0] == '[');
    }
    if starts_with(line, "[Approval Fingerprint]:"@) {
        assert(line.subrange(0, 23)[0] == '[');
    }
    assert(lettered_option(line) is None);
    lemma_run_end_is(line, 0, CharClass::Blank, 0);
    lemma_run_end_is(line, 1, CharClass::Blank, 2);
    assert(line.skip(2) =~= text);
    assert(bullet_option(line) == Some(text));
    let quotes = CharClass::Either('"', '\'');
    let n = text.len() as int;
    assert(run_start(text, n, quotes) == n);
    assert(text.take(n) =~= text);
    lemma_run_end_is(text, 0, quotes, 0);
    assert(text.skip(0) =~= text);
    lemma_trim_keeps(text);
    assert(without_quotes(text) == text);
}

/// The option for free text is the one with the letter `X`, or the one that asks to
/// specify.
pub proof fn law_options_for_free_text(body: BodyModel, n: int, i: int)
    requires
        0 <= n <= body.lines.len(),
        0 <= i < body.options_before(n).len(),
    ensures
        ({
            let option = body.options_before(n)[i];
            option.is_other <==> option.letter == Some('X') || (option.text.len() >= 22
                && option.text.take(22) == "Other (please specify)"@)
        }),
    decreases n,
{
    reveal_strlit("Other (please specify)");
    assert("Other (please specify)"@.len() == 22);
    if n > 0 {
        let before = body.options_before(n - 1);
        if i < before.len() {
            law_options_for_free_text(body, n - 1, i);
            assert(body.options_before(n)[i] == before[i]);
        } else {
            let option = body.options_before(n)[i];
            if option.text.len() >= 22 {
                assert(option.text.subrange(0, 22) =~= option.text.take(22));
            }
        }
    }
}

/// The fingerprint of a plan is the digest behind its mark; without one it is not
/// computed yet, and anything else there is no fingerprint.
pub proof fn law_fingerprints(digest: Seq<char>, other: Seq<char>)
    requires
        digest.len() == 64,
        forall|k: int|
            0 <= k < 64 ==> '0' <= #[trigger] digest[k] <= '9' || 'a' <= digest[k] <= 'f',
        0 < other.len() < 71,
        other[0] != ' ' && other[0] != '\t' && other.last() != ' ' && other.last() != '\t',
    ensures
        fingerprint_value("[Approval Fingerprint]: "@ + "sha256:"@ + digest) == Some(
            Some("sha256:"@ + digest),
        ),
        fingerprint_value("[Approval Fingerprint]:"@) == Some(None::<Seq<char>>),
        fingerprint_value("[Approval Fingerprint]: "@ + other) is None,
{
    reveal_strlit("[Approval Fingerprint]:");
    reveal_strlit("[Approval Fingerprint]: ");
    reveal_strlit("sha256:");
    let mark = "[Approval Fingerprint]:"@;
    let spaced = "[Approval Fingerprint]: "@;
    let blank = CharClass::Blank;
    assert(mark.len() == 23 && spaced.len() == 24);
    assert(spaced =~= mark + seq![' ']);
    let value = "sha256:"@ + digest;
    lemma_behind_mark(value);
    let line = spaced + "sha256:"@ + digest;
    assert(line =~= mark + (seq![' '] + value));
    assert(line.subrange(0, 23) =~= mark);
    assert(line.skip(23) =~= seq![' '] + value);
    assert(value.subrange(0, 7) =~= "sha256:"@);
    assert forall|k: int| 7 <= k < 71 implies crate::questionnaire::grammar::is_hex_lower(
        #[trigger] value[k],
    ) by {
        assert(value[k] == digest[k - 7]);
    }
    assert(is_digest(value));
    assert(mark.subrange(0, 23) =~= mark);
    assert(mark.skip(23) =~= Seq::<char>::empty());
    assert(trim_of(Seq::<char>::empty(), blank).len() == 0);
    lemma_behind_mark(other);
    let third = spaced + other;
    assert(third.subrange(0, 23) =~= mark);
    assert(third.skip(23) =~= seq![' '] + other);
}

proof fn lemma_behind_mark(value: Seq<char>)
    requires
        value.len() > 0,
        value[0] != ' ' && value[0] != '\t' && value.last() != ' ' && value.last() != '\t',
    ensures
        trim_of(seq![' '] + value, CharClass::Blank) == value,
{
    let s = seq![' '] + value;
    let n = s.len() as int;
    assert(s[n - 1] == value.last());
    assert(run_start(s, n, CharClass::Blank) == n);
    assert(s.take(n) =~= s);
    assert(s[1] == value[0]);
    lemma_run_end_is(s, 0, CharClass::Blank, 1);
    assert(s.skip(1) =~= value);
}

/// So many of one character.
pub open spec fn marks(mark: char, count: nat) -> Seq<char> {
    Seq::new(count, |i: int| mark)
}

/// Three or more backticks or tildes, no further in than three blanks, open a code
/// block. It is closed by a line of as many of the same or more, and by no other.
pub proof fn law_fences(indent: nat, mark: char, count: nat, info: Seq<char>, closing: nat)
    requires
        mark == '`' || mark == '~',
        count >= 3,
        count <= usize::MAX,
        closing > 0,
        info.len() > 0 ==> info[0] != mark,
        !info.contains('`'),
    ensures
        indent <= 3 ==> region_after(
            Region::Open,
            marks(' ', indent) + marks(mark, count) + info,
        ) == Region::Fence(mark, count as usize),
        indent > 3 ==> fence_opened(marks(' ', indent) + marks(mark, count) + info) is None,
        region_after(Region::Fence(mark, count as usize), marks(mark, closing)) == if closing
            >= count {
            Region::Open
        } else {
            Region::Fence(mark, count as usize)
        },
        fence_opened(marks(mark, 2)) is None,
{
    let line = marks(' ', indent) + marks(mark, count) + info;
    let at = indent as int;
    let end = at + count;
    assert forall|k: int| 0 <= k < at implies CharClass::Exactly(' ').has(#[trigger] line[k]) by {
        assert(line[k] == ' ');
    }
    assert(line[at] == mark);
    lemma_run_end_is(line, 0, CharClass::Exactly(' '), at);
    assert forall|k: int| at <= k < end implies CharClass::Exactly(mark).has(#[trigger] line[k]) by {
        assert(line[k] == mark);
    }
    if info.len() > 0 {
        assert(line[end] == info[0]);
    }
    lemma_run_end_is(line, at, CharClass::Exactly(mark), end);
    assert(line.skip(end) =~= info);
    let close = marks(mark, closing);
    lemma_run_end_is(close, 0, CharClass::Whitespace, 0);
    assert(close.skip(0) =~= close);
    assert forall|k: int| 0 <= k < closing implies CharClass::Exactly(mark).has(
        #[trigger] close[k],
    ) by {
        assert(close[k] == mark);
    }
    lemma_run_end_is(close, 0, CharClass::Exactly(mark), closing as int);
    assert(close.skip(closing as int) =~= Seq::<char>::empty());
    lemma_trim_keeps(Seq::<char>::empty());
    let two = marks(mark, 2);
    lemma_run_end_is(two, 0, CharClass::Exactly(' '), 0);
    assert forall|k: int| 0 <= k < 2 implies CharClass::Exactly(mark).has(#[trigger] two[k]) by {
        assert(two[k] == mark);
    }
    lemma_run_end_is(two, 0, CharClass::Exactly(mark), 2);
}

/// A comment on one line is no part of it.
#[verifier::spinoff_prover]
#[verifier::rlimit(40)]
pub proof fn law_comments_on_a_line(before: Seq<char>, comment: Seq<char>, behind: Seq<char>)
    requires
        !before.contains('<'),
        !comment.contains('-'),
        !behind.contains('<'),
    ensures
        without_comments(before + "<!--"@ + comment + "-->"@ + behind) == before + behind,
        without_comments(before) == before,
{
    reveal_strlit("<!--");
    reveal_strlit("-->");
    let line = before + "<!--"@ + comment + "-->"@ + behind;
    let open = before.len() as int;
    let inner = open + 4;
    let close = inner + comment.len();
    assert forall|k: int| 0 <= k < before.len() implies #[trigger] before[k] != '<' by {
        assert(before.contains(before[k]));
    }
    assert forall|k: int| 0 <= k < comment.len() implies #[trigger] comment[k] != '-' by {
        assert(comment.contains(comment[k]));
    }
    assert forall|k: int| 0 <= k < behind.len() implies #[trigger] behind[k] != '<' by {
        assert(behind.contains(behind[k]));
    }
    lemma_find_from(line, 0, "<!--"@);
    assert(line.subrange(open, open + 4) =~= "<!--"@);
    assert(occurs_at(line, open, "<!--"@));
    let found = find_from(line, 0, "<!--"@)->0;
    if found < open {
        assert(line.subrange(found, found + 4)[0] == '<');
        assert(line[found] == before[found]);
    }
    lemma_find_from(line, inner, "-->"@);
    assert(line.subrange(close, close + 3) =~= "-->"@);
    assert(occurs_at(line, close, "-->"@));
    let shut = find_from(line, inner, "-->"@)->0;
    if shut < close {
        assert(line.subrange(shut, shut + 3)[0] == '-');
        assert(line[shut] == comment[shut - inner]);
    }
    lemma_find_from(line, close + 3, "<!--"@);
    if let Some(again) = find_from(line, close + 3, "<!--"@) {
        assert(line.subrange(again, again + 4)[0] == '<');
        assert(line[again] == behind[again - close - 3]);
    }
    assert(line.skip(close + 3) =~= behind);
    assert(without_comments_from(line, close + 3) == behind);
    assert(line.subrange(0, open) =~= before);
    lemma_find_from(before, 0, "<!--"@);
    if let Some(at) = find_from(before, 0, "<!--"@) {
        assert(before.subrange(at, at + 4)[0] == '<');
    }
    assert(before.skip(0) =~= before);
}

/// A comment that is not closed on its line hides the lines up to the one that
/// closes it.
pub proof fn law_comments_over_lines(before: Seq<char>, behind: Seq<char>, line: Seq<char>)
    requires
        before.len() > 0,
        before[0] != ' ' && before[0] != '`' && before[0] != '~',
    ensures
        region_after(Region::Open, before + "<!--"@ + behind) == Region::Comment,
        region_after(Region::Comment, before + "-->"@ + behind) == Region::Open,
        !line.contains('>') ==> region_after(Region::Comment, line) == Region::Comment,
        !line.contains('<') && line.len() > 0 && line[0] != ' ' && line[0] != '`' && line[0]
            != '~' ==> region_after(Region::Open, line) == Region::Open,
{
    reveal_strlit("<!--");
    reveal_strlit("-->");
    let opening = before + "<!--"@ + behind;
    let at = before.len() as int;
    assert(opening[0] == before[0]);
    lemma_run_end_is(opening, 0, CharClass::Exactly(' '), 0);
    assert(fence_opened(opening) is None);
    lemma_find_from(opening, 0, "<!--"@);
    assert(opening.subrange(at, at + 4) =~= "<!--"@);
    assert(occurs_at(opening, at, "<!--"@));
    let closing = before + "-->"@ + behind;
    lemma_find_from(closing, 0, "-->"@);
    assert(closing.subrange(at, at + 3) =~= "-->"@);
    assert(occurs_at(closing, at, "-->"@));
    if !line.contains('>') {
        lemma_find_from(line, 0, "-->"@);
        if let Some(k) = find_from(line, 0, "-->"@) {
            assert(line.subrange(k, k + 3)[2] == '>');
            assert(line.contains(line[k + 2]));
        }
    }
    if !line.contains('<') && line.len() > 0 {
        lemma_find_from(line, 0, "<!--"@);
        if let Some(k) = find_from(line, 0, "<!--"@) {
            assert(line.subrange(k, k + 4)[0] == '<');
            assert(line.contains(line[k]));
        }
        if line[0] != ' ' {
            lemma_run_end_is(line, 0, CharClass::Exactly(' '), 0);
        }
    }
}

proof fn lemma_body_lines(body: BodyModel, n: int)
    requires
        0 <= n <= body.lines.len(),
        forall|k: int| 0 <= k < n ==> #[trigger] body.role(k) is Body,
    ensures
        body.body_before(n) == body.lines.take(n),
    decreases n,
{
    if n > 0 {
        lemma_body_lines(body, n - 1);
        assert(body.role(n - 1) is Body);
        assert(body.lines.take(n) =~= body.lines.take(n - 1).push(body.lines[n - 1]));
    } else {
        assert(body.lines.take(0) =~= seq![]);
    }
}

proof fn lemma_tail_lines(body: BodyModel, from: int, n: int)
    requires
        0 <= from <= n <= body.lines.len(),
        forall|k: int| from <= k < n ==> #[trigger] body.in_tail(k),
    ensures
        body.tail_between(from, n) == body.lines.subrange(from, n),
    decreases n - from,
{
    if from < n {
        lemma_tail_lines(body, from, n - 1);
        assert(body.in_tail(n - 1));
        assert(body.lines.subrange(from, n) =~= body.lines.subrange(from, n - 1).push(
            body.lines[n - 1],
        ));
    } else {
        assert(body.lines.subrange(from, n) =~= seq![]);
    }
}

/// The text of a question is the lines above its answer, and what stands below the
/// answer is kept beside it.
pub proof fn law_text_around_the_answer(body: BodyModel, title: Seq<char>, a: int)
    requires
        answers(body, a),
        body.label_line is None,
        forall|k: int| 0 <= k < a ==> #[trigger] body.role(k) is Body,
        forall|k: int|
            a < k < body.lines.len() ==> says_something(#[trigger] body.lines[k]) && !answers(
                body,
                k,
            ),
    ensures
        body.question(title).body == trim(joined(body.lines.take(a), "\n"@)),
        body.question(title).answer_tail == trim(
            joined(body.lines.skip(a + 1), "\n"@),
        ),
        body.question(title).title == title,
        body.question(title).heading_row == body.heading_row as u32,
{
    let n = body.lines.len() as int;
    lemma_answer_from(body, 0);
    lemma_answers(body, a);
    let end = body.answer_offset();
    if end < a {
        assert(body.role(end) is Body);
    }
    lemma_body_lines(body, a);
    assert forall|k: int| a + 1 <= k < n implies #[trigger] body.in_tail(k) by {
        lemma_answers(body, k);
        lemma_says(body.lines[k]);
        assert(says_something(body.lines[k]));
    }
    lemma_tail_lines(body, a + 1, n);
    assert(body.lines.subrange(a + 1, n) =~= body.lines.skip(a + 1));
}

proof fn lemma_last_fingerprint(body: BodyModel, k: int, n: int)
    requires
        0 <= k < n <= body.lines.len(),
        body.role(k) is Fingerprint,
        forall|j: int| k < j < n ==> !(#[trigger] body.role(j) is Fingerprint),
    ensures
        body.fingerprint_before(n) == Some((body.row(k), body.role(k)->Fingerprint_0)),
    decreases n,
{
    if k < n - 1 {
        assert(!(body.role(n - 1) is Fingerprint));
        lemma_last_fingerprint(body, k, n - 1);
    }
}

/// The fingerprint of a plan is the last one above its answer.
pub proof fn law_fingerprint_of_a_plan(body: BodyModel, title: Seq<char>, k: int)
    requires
        0 <= k < body.answer_offset() <= body.lines.len(),
        body.role(k) is Fingerprint,
        forall|j: int| k < j < body.answer_offset() ==> !(#[trigger] body.role(j) is Fingerprint),
    ensures
        body.question(title).fingerprint == Some((body.row(k), body.role(k)->Fingerprint_0)),
{
    lemma_last_fingerprint(body, k, body.answer_offset());
}

} // verus!
