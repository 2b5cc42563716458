//! What an answer says, in terms of the characters that are written: letters that
//! choose, free text, and what a click makes of either.

use vstd::prelude::*;

use crate::questionnaire::answer::{
    answer_line_of, insert_index, insert_letter, is_plain_letter, other_text_at, other_token,
    other_token_from, AnswerModel,
};
use crate::questionnaire::document::QuestionModel;
use crate::questionnaire::round_trip::{lemma_one_piece, lemma_pieces_push, lemma_trim_keeps};
use crate::text::{is_ascii_upper, joined, pieces_of, run_end, run_start, trim};

verus! {

/// Whether an option is the first with a letter, and not the one for free text.
pub open spec fn has_letter(block: QuestionModel, i: int, letter: char) -> bool {
    &&& 0 <= i < block.options.len()
    &&& block.options[i].letter == Some(letter)
    &&& !block.options[i].is_other
    &&& forall|k: int| 0 <= k < i ==> (#[trigger] block.options[k]).letter != Some(letter)
}

/// Whether a letter is not the one under which free text is given.
pub open spec fn is_no_other_letter(block: QuestionModel, letter: char) -> bool {
    forall|k: int|
        0 <= k < block.options.len() && (#[trigger] block.options[k]).is_other
            ==> block.options[k].letter is Some && block.options[k].letter != Some(letter)
            && is_ascii_upper(block.options[k].letter->0)
}

proof fn lemma_lettered(block: QuestionModel, from: int, i: int, letter: char)
    requires
        has_letter(block, i, letter),
        0 <= from <= i,
    ensures
        block.lettered_from(from, letter, false) == Some(i),
    decreases i - from,
{
    if from < i {
        assert(block.options[from].letter != Some(letter));
        lemma_lettered(block, from + 1, i, letter);
    }
}

proof fn lemma_other(block: QuestionModel, from: int)
    requires
        0 <= from,
    ensures
        block.other_from(from) matches Some(i) ==> from <= i < block.options.len()
            && block.options[i].is_other,
    decreases block.options.len() - from,
{
    if from < block.options.len() && !block.options[from].is_other {
        lemma_other(block, from + 1);
    }
}

/// No token for free text stands in one letter, nor in two with a comma between.
proof fn lemma_no_other_token(block: QuestionModel, raw: Seq<char>)
    requires
        raw.len() == 1 || (raw.len() == 4 && raw[1] == ',' && raw[2] == ' '),
        is_ascii_upper(raw[0]) && is_ascii_upper(raw.last()),
        is_no_other_letter(block, raw[0]),
        is_no_other_letter(block, raw.last()),
    ensures
        block.other_part(raw) is None,
{
    lemma_other(block, 0);
    if let Some((index, letter)) = block.other_option() {
        assert(block.options[index].letter == Some(letter));
        assert(is_plain_letter(letter));
        reveal_with_fuel(run_end, 3);
        assert(other_text_at(raw, 0, letter) is None);
        if raw.len() == 4 {
            assert(other_text_at(raw, 2, letter) is None);
        }
        reveal_with_fuel(other_token_from, 6);
        assert(other_token_from(raw, 0, letter) is None);
    }
}

proof fn lemma_letter(block: QuestionModel, before: Seq<Seq<char>>, token: Seq<char>, i: int)
    requires
        block.chosen(before.push(token), before.len() as int) is Some,
        trim(token).len() == 1,
        is_ascii_upper(trim(token)[0]),
        has_letter(block, i, trim(token)[0]),
    ensures
        block.chosen(before.push(token), (before.len() + 1) as int) == Some(
            insert_index(block.chosen(before.push(token), before.len() as int)->0, i as usize),
        ),
{
    lemma_lettered(block, 0, i, trim(token)[0]);
    assert(before.push(token)[before.len() as int] == token);
}

/// A letter alone chooses the option that has it.
pub proof fn law_letter_chooses(block: QuestionModel, row: u32, i: int, letter: char)
    requires
        block.uses_letters(),
        is_ascii_upper(letter),
        has_letter(block, i, letter),
        is_no_other_letter(block, letter),
        block.options.len() <= usize::MAX,
    ensures
        block.answered(row, seq![letter]).answer_given() == (AnswerModel {
            choices: seq![i as usize],
            other: None,
        }),
{
    let raw = seq![letter];
    let asked = block.answered(row, raw);
    assert(asked.options == block.options);
    assert(exists|k: int| 0 <= k < asked.options.len() && (#[trigger] asked.options[k]).letter is Some)
        by {
        assert(asked.options[i].letter is Some);
    }
    lemma_trim_keeps(raw);
    lemma_no_other_token(asked, raw);
    lemma_one_piece(raw, ',');
    let tokens = pieces_of(raw, ',');
    assert(asked.chosen(tokens, 0) == Some(Seq::<usize>::empty()));
    assert(tokens =~= Seq::<Seq<char>>::empty().push(raw));
    lemma_letter(asked, Seq::empty(), raw, i);
    assert(insert_index(Seq::empty(), i as usize) =~= seq![i as usize]);
    assert(raw[0] != '_');
}

/// Two letters with a comma between choose both options, which stand in the order
/// of the question whatever that of the letters is.
pub proof fn law_two_letters_choose(
    block: QuestionModel,
    row: u32,
    i: int,
    first: char,
    j: int,
    second: char,
)
    requires
        block.uses_letters(),
        is_ascii_upper(first),
        is_ascii_upper(second),
        has_letter(block, i, first),
        has_letter(block, j, second),
        is_no_other_letter(block, first),
        is_no_other_letter(block, second),
        block.options.len() <= usize::MAX,
    ensures
        block.answered(row, seq![first, ',', ' ', second]).answer_given() == (AnswerModel {
            choices: if i < j {
                seq![i as usize, j as usize]
            } else if i == j {
                seq![i as usize]
            } else {
                seq![j as usize, i as usize]
            },
            other: None,
        }),
{
    let raw = seq![first, ',', ' ', second];
    let asked = block.answered(row, raw);
    assert(asked.options == block.options);
    assert(exists|k: int| 0 <= k < asked.options.len() && (#[trigger] asked.options[k]).letter is Some)
        by {
        assert(asked.options[i].letter is Some);
    }
    assert(raw.last() == second);
    lemma_trim_keeps(raw);
    lemma_no_other_token(asked, raw);
    let a = seq![first];
    let b = seq![' ', second];
    assert(raw =~= a + seq![','] + b);
    lemma_one_piece(a, ',');
    lemma_pieces_push(a, b, ',', 0);
    let tokens = pieces_of(raw, ',');
    assert(tokens =~= Seq::<Seq<char>>::empty().push(a).push(b));
    lemma_trim_keeps(a);
    reveal_with_fuel(run_end, 3);
    reveal_with_fuel(run_start, 3);
    assert(b.take(2) =~= b);
    assert(b.skip(1) =~= seq![second]);
    assert(trim(b) == seq![second]);
    assert(asked.chosen(tokens, 0) == Some(Seq::<usize>::empty()));
    lemma_lettered(asked, 0, i, first);
    assert(tokens[0] == a);
    assert(asked.chosen(tokens, 1) == Some(insert_index(Seq::empty(), i as usize)));
    assert(insert_index(Seq::empty(), i as usize) =~= seq![i as usize]);
    lemma_letter(asked, seq![a], b, j);
    assert(tokens =~= seq![a].push(b));
    let one = seq![i as usize];
    assert(one.drop_last() =~= Seq::<usize>::empty());
    reveal_with_fuel(insert_index, 3);
    assert(insert_index(one, j as usize) =~= if i < j {
        seq![i as usize, j as usize]
    } else if i == j {
        seq![i as usize]
    } else {
        seq![j as usize, i as usize]
    });
    assert(raw[0] != '_');
}

/// A question is unanswered where nothing but white space or lines to write on
/// stands behind the mark, whatever its kind.
pub proof fn law_unanswered(block: QuestionModel, row: u32, raw: Seq<char>)
    requires
        forall|k: int| 0 <= k < trim(raw).len() ==> #[trigger] trim(raw)[k] == '_',
    ensures
        block.answered(row, raw).answer_given().is_empty(),
{
}

/// What is written for feedback is the answer as it stands, and so is what names no
/// option of a question without letters.
pub proof fn law_free_answers(block: QuestionModel, row: u32, raw: Seq<char>, k: int)
    requires
        0 <= k < trim(raw).len(),
        trim(raw)[k] != '_',
        block.kind is Feedback || (!block.uses_letters() && block.named_option(trim(raw)) is None),
    ensures
        block.answered(row, raw).answer_given() == (AnswerModel {
            choices: seq![],
            other: Some(trim(raw)),
        }),
{
    let asked = block.answered(row, raw);
    assert(asked.uses_letters() ==> block.uses_letters());
    if !(block.kind is Feedback) {
        lemma_same_name(block, asked, trim(raw));
    }
}

proof fn lemma_same_name(a: QuestionModel, b: QuestionModel, token: Seq<char>)
    requires
        a.options == b.options,
    ensures
        a.named_option(token) == b.named_option(token),
{
    assert forall|letter: char| a.lettered_from(0, letter, true) == #[trigger] b.lettered_from(
        0,
        letter,
        true,
    ) by {
        lemma_same_letters(a, b, 0, letter);
    }
    lemma_same_texts(
        a,
        b,
        0,
        crate::text::lowercase(crate::questionnaire::grammar::without_quotes(token)),
    );
}

proof fn lemma_same_letters(a: QuestionModel, b: QuestionModel, from: int, letter: char)
    requires
        a.options == b.options,
        0 <= from,
    ensures
        a.lettered_from(from, letter, true) == b.lettered_from(from, letter, true),
    decreases a.options.len() - from,
{
    if from < a.options.len() {
        lemma_same_letters(a, b, from + 1, letter);
    }
}

proof fn lemma_same_texts(a: QuestionModel, b: QuestionModel, from: int, text: Seq<char>)
    requires
        a.options == b.options,
        0 <= from,
    ensures
        a.texted_from(from, text) == b.texted_from(from, text),
    decreases a.options.len() - from,
{
    if from < a.options.len() {
        lemma_same_texts(a, b, from + 1, text);
    }
}

/// What is written for one option is its letter, and for two their letters in the
/// order of the alphabet, with a comma and a blank between.
pub proof fn law_written_letters(
    block: QuestionModel,
    i: usize,
    first: char,
    j: usize,
    second: char,
)
    requires
        block.uses_letters(),
        i < block.options.len(),
        j < block.options.len(),
        block.options[i as int].letter == Some(first),
        block.options[j as int].letter == Some(second),
    ensures
        block.answer_written(AnswerModel { choices: seq![i], other: None }) == seq![first],
        block.answer_written(AnswerModel { choices: seq![i, j], other: None }) == if first
            <= second {
            seq![first, ',', ' ', second]
        } else {
            seq![second, ',', ' ', first]
        },
{
    reveal_strlit(", ");
    let one = AnswerModel { choices: seq![i], other: None };
    let two = AnswerModel { choices: seq![i, j], other: None };
    assert(block.chosen_letters(one.choices, 0) =~= seq![]);
    assert(insert_letter(Seq::empty(), first) =~= seq![first]);
    assert(block.chosen_letters(one.choices, 1) =~= seq![first]);
    assert(block.answer_tokens(one) =~= seq![seq![first]]);
    assert(block.chosen_letters(two.choices, 0) =~= seq![]);
    assert(block.chosen_letters(two.choices, 1) =~= seq![first]);
    let sole = seq![first];
    assert(sole.drop_last() =~= Seq::<char>::empty());
    assert(insert_letter(Seq::empty(), second) =~= seq![second]);
    let (a, b) = if first <= second {
        (first, second)
    } else {
        (second, first)
    };
    assert(insert_letter(sole, second) =~= seq![a, b]);
    assert(block.chosen_letters(two.choices, 2) =~= seq![a, b]);
    let tokens = block.answer_tokens(two);
    assert(tokens =~= seq![seq![a], seq![b]]);
    assert(tokens.drop_last() =~= seq![seq![a]]);
    reveal_with_fuel(joined, 3);
    assert(joined(tokens, ", "@) =~= seq![a, ',', ' ', b]);
}

/// What is written for free text among letters is the letter of the option for it,
/// a colon and the text; the letter alone where there is no text.
pub proof fn law_written_free_text(block: QuestionModel, at: int, letter: char, text: Seq<char>)
    requires
        block.uses_letters(),
        0 <= at < block.options.len(),
        block.options[at].is_other,
        block.options[at].letter == Some(letter),
        forall|k: int| 0 <= k < at ==> !(#[trigger] block.options[k]).is_other,
    ensures
        block.answer_written(AnswerModel { choices: seq![], other: Some(text) }) == if text.len()
            == 0 {
            seq![letter]
        } else {
            seq![letter, ':', ' '] + text
        },
{
    reveal_strlit(": ");
    lemma_first_other(block, 0, at);
    let answer = AnswerModel { choices: seq![], other: Some(text) };
    assert(block.chosen_letters(answer.choices, 0) =~= seq![]);
    let tokens = block.answer_tokens(answer);
    assert(tokens =~= seq![block.other_token(text)]);
    assert(seq![letter] + ": "@ + text =~= seq![letter, ':', ' '] + text);
}

proof fn lemma_first_other(block: QuestionModel, from: int, at: int)
    requires
        0 <= from <= at < block.options.len(),
        block.options[at].is_other,
        forall|k: int| 0 <= k < at ==> !(#[trigger] block.options[k]).is_other,
    ensures
        block.other_from(from) == Some(at),
    decreases at - from,
{
    if from < at {
        assert(!block.options[from].is_other);
        lemma_first_other(block, from + 1, at);
    }
}

/// What is written where options have no letters is the text of the option, and
/// free text as it was typed.
pub proof fn law_written_texts(block: QuestionModel, i: usize, text: Seq<char>)
    requires
        !block.uses_letters(),
        i < block.options.len(),
        block.options[i as int].letter is None,
    ensures
        block.answer_written(AnswerModel { choices: seq![i], other: None })
            == block.options[i as int].text,
        block.answer_written(AnswerModel { choices: seq![], other: Some(text) }) == trim(text),
        block.answer_written(AnswerModel { choices: seq![], other: None }).len() == 0,
{
}

/// Where one option is asked for, a click chooses the option in place of whatever
/// was chosen or typed, and a second click takes it back.
pub proof fn law_choose_one(block: QuestionModel, current: AnswerModel, index: usize)
    requires
        !(block.kind is Multi),
    ensures
        current.choices != seq![index] ==> block.toggled(current, index) == (AnswerModel {
            choices: seq![index],
            other: None,
        }),
        block.toggled(
            AnswerModel { choices: seq![index], other: None },
            index,
        ).is_empty(),
{
}

/// Text that is typed is the free text of the answer, without white space around
/// it; it stands beside what was chosen only where more than one may be.
pub proof fn law_typed_text(block: QuestionModel, current: AnswerModel, text: Seq<char>)
    ensures
        block.kind is Multi ==> block.given_other(current, text).choices == current.choices,
        !(block.kind is Multi) ==> block.given_other(current, text).choices.len() == 0,
        trim(text).len() > 0 ==> block.given_other(current, text).other == Some(trim(text)),
        trim(text).len() == 0 ==> block.given_other(current, text).other is None,
{
}

/// The line of an answer: the mark, and behind a blank what was answered.
pub proof fn law_line_of_an_answer(raw: Seq<char>)
    ensures
        trim(raw).len() == 0 ==> answer_line_of(raw) == seq![
            '[',
            'A',
            'n',
            's',
            'w',
            'e',
            'r',
            ']',
            ':',
        ],
        trim(raw).len() > 0 ==> answer_line_of(raw) == seq![
            '[',
            'A',
            'n',
            's',
            'w',
            'e',
            'r',
            ']',
            ':',
            ' ',
        ] + trim(raw),
{
    reveal_strlit("[Answer]:");
    reveal_strlit("[Answer]: ");
    assert("[Answer]:"@ =~= seq!['[', 'A', 'n', 's', 'w', 'e', 'r', ']', ':']);
    assert("[Answer]: "@ =~= seq!['[', 'A', 'n', 's', 'w', 'e', 'r', ']', ':', ' ']);
}

} // verus!
