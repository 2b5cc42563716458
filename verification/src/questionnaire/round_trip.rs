//! What is read back of an answer that was written.

use vstd::prelude::*;

use crate::questionnaire::answer::{
    answer_line_of, first_index, insert_index, insert_letter, insert_ordered, is_unanswered,
    no_answer, ordered, other_text_at, other_token_at, other_token_from, AnswerModel,
};
use crate::questionnaire::document::{QuestionKind, QuestionModel};
use crate::questionnaire::grammar::{answer_text, letter_prefix, without_quotes};
use crate::text::{
    is_ascii_upper, is_whitespace, joined, lemma_next_char, lemma_next_char_is, lemma_run_end,
    lemma_run_end_is, lemma_run_start, lowercase, next_char, pieces_from, pieces_of, run_end,
    run_start, starts_with, trim, CharClass,
};

verus! {

/// A text that neither begins nor ends with white space is its own trim.
pub proof fn lemma_trim_keeps(s: Seq<char>)
    requires
        s.len() > 0 ==> !is_whitespace(s[0]) && !is_whitespace(s.last()),
    ensures
        trim(s) == s,
{
    let n = s.len() as int;
    assert(run_start(s, n, CharClass::Whitespace) == n);
    assert(s.take(n) =~= s);
    assert(run_end(s, 0, CharClass::Whitespace) == 0);
    assert(s.skip(0) =~= s);
}

/// What a trim leaves neither begins nor ends with white space, and it leaves
/// it as it stood.
pub proof fn lemma_trim(s: Seq<char>)
    ensures
        trim(s).len() > 0 ==> !is_whitespace(trim(s)[0]) && !is_whitespace(trim(s).last()),
        trim(trim(s)) == trim(s),
        exists|from: int, to: int|
            0 <= from <= to <= s.len() && trim(s) == #[trigger] s.subrange(from, to) && (forall|
                k: int,
            |
                0 <= k < from ==> is_whitespace(#[trigger] s[k])) && (forall|k: int|
                to <= k < s.len() ==> is_whitespace(#[trigger] s[k])),
{
    let n = s.len() as int;
    lemma_run_start(s, n, CharClass::Whitespace);
    let to = run_start(s, n, CharClass::Whitespace);
    let head = s.take(to);
    lemma_run_end(head, 0, CharClass::Whitespace);
    let from = run_end(head, 0, CharClass::Whitespace);
    assert(trim(s) =~= s.subrange(from, to));
    assert forall|k: int| 0 <= k < from implies is_whitespace(#[trigger] s[k]) by {
        assert(CharClass::Whitespace.has(head[k]));
    }
    assert forall|k: int| to <= k < s.len() implies is_whitespace(#[trigger] s[k]) by {
        assert(CharClass::Whitespace.has(s[k]));
    }
    if trim(s).len() > 0 {
        assert(!CharClass::Whitespace.has(head[from]));
        assert(trim(s)[0] == s[from]);
        assert(trim(s).last() == s[to - 1]);
    }
    lemma_trim_keeps(trim(s));
}

/// One blank before a text that is trimmed goes.
proof fn lemma_trim_blank(s: Seq<char>)
    requires
        trim(s) == s,
        s.len() > 0,
    ensures
        trim(seq![' '] + s) == s,
{
    lemma_trim(s);
    let t = seq![' '] + s;
    let n = t.len() as int;
    assert(t.last() == s.last());
    assert(run_start(t, n, CharClass::Whitespace) == n);
    assert(t.take(n) =~= t);
    assert(t[1] == s[0]);
    assert(run_end(t, 1, CharClass::Whitespace) == 1);
    assert(run_end(t, 0, CharClass::Whitespace) == 1);
    assert(t.skip(1) =~= s);
}

pub open spec fn strictly_increasing(s: Seq<usize>) -> bool {
    forall|i: int, j: int| 0 <= i < j < s.len() ==> s[i] < s[j]
}

/// Two ascending lists of the same indices are the same list.
pub proof fn lemma_same_indices(a: Seq<usize>, b: Seq<usize>)
    requires
        strictly_increasing(a),
        strictly_increasing(b),
        forall|x: usize| a.contains(x) <==> b.contains(x),
    ensures
        a == b,
    decreases a.len(),
{
    if a.len() == 0 {
        if b.len() > 0 {
            assert(b.contains(b[0]));
        }
        assert(a =~= b);
    } else if b.len() == 0 {
        assert(a.contains(a[0]));
    } else {
        let x = a.last();
        let y = b.last();
        assert(a.contains(x));
        assert(b.contains(y));
        let i = choose|i: int| 0 <= i < b.len() && b[i] == x;
        let j = choose|j: int| 0 <= j < a.len() && a[j] == y;
        assert(x == y) by {
            if i < b.len() - 1 {
                assert(b[i] < b[b.len() - 1]);
            }
            if j < a.len() - 1 {
                assert(a[j] < a[a.len() - 1]);
            }
        }
        let a0 = a.drop_last();
        let b0 = b.drop_last();
        assert forall|z: usize| a0.contains(z) <==> b0.contains(z) by {
            if a0.contains(z) {
                let k = choose|k: int| 0 <= k < a0.len() && a0[k] == z;
                assert(a[k] == z && a[k] < a[a.len() - 1]);
                assert(a.contains(z));
                let m = choose|m: int| 0 <= m < b.len() && b[m] == z;
                assert(b0[m] == z);
            }
            if b0.contains(z) {
                let k = choose|k: int| 0 <= k < b0.len() && b0[k] == z;
                assert(b[k] == z && b[k] < b[b.len() - 1]);
                assert(b.contains(z));
                let m = choose|m: int| 0 <= m < a.len() && a[m] == z;
                assert(a0[m] == z);
            }
        }
        lemma_same_indices(a0, b0);
        assert(a =~= a0.push(x));
        assert(b =~= b0.push(y));
    }
}

/// Putting an index in keeps a list ascending and adds just that index.
pub proof fn lemma_insert_index(s: Seq<usize>, x: usize)
    requires
        strictly_increasing(s),
    ensures
        strictly_increasing(insert_index(s, x)),
        forall|y: usize|
            #![trigger insert_index(s, x).contains(y)]
            #![trigger s.contains(y)]
            insert_index(s, x).contains(y) <==> s.contains(y) || y == x,
    decreases s.len(),
{
    let r = insert_index(s, x);
    if s.len() == 0 || s.last() < x {
        assert forall|y: usize| r.contains(y) <==> s.contains(y) || y == x by {
            if s.contains(y) {
                let k = choose|k: int| 0 <= k < s.len() && s[k] == y;
                assert(r[k] == y);
            }
            assert(r[s.len() as int] == x);
        }
        assert forall|i: int, j: int| 0 <= i < j < r.len() implies r[i] < r[j] by {
            if j == s.len() && i < s.len() - 1 {
                assert(s[i] < s[s.len() - 1]);
            }
        }
    } else if s.last() == x {
        assert(s.contains(x)) by {
            assert(s[s.len() - 1] == x);
        }
    } else {
        let s0 = s.drop_last();
        lemma_insert_index(s0, x);
        let r0 = insert_index(s0, x);
        assert(r == r0.push(s.last()));
        assert forall|y: usize| r.contains(y) <==> s.contains(y) || y == x by {
            if r.contains(y) {
                let k = choose|k: int| 0 <= k < r.len() && r[k] == y;
                if k < r0.len() {
                    assert(r0.contains(y)) by {
                        assert(r0[k] == y);
                    }
                    if y != x {
                        let m = choose|m: int| 0 <= m < s0.len() && s0[m] == y;
                        assert(s[m] == y);
                    }
                } else {
                    assert(s[s.len() - 1] == y);
                }
            }
            if s.contains(y) {
                let k = choose|k: int| 0 <= k < s.len() && s[k] == y;
                if k < s0.len() {
                    assert(s0[k] == y);
                    assert(r0.contains(y));
                    let m = choose|m: int| 0 <= m < r0.len() && r0[m] == y;
                    assert(r[m] == y);
                } else {
                    assert(r[r0.len() as int] == y);
                }
            }
            if y == x {
                assert(r0.contains(x));
                let m = choose|m: int| 0 <= m < r0.len() && r0[m] == x;
                assert(r[m] == x);
            }
        }
        assert forall|i: int, j: int| 0 <= i < j < r.len() implies r[i] < r[j] by {
            if j == r0.len() {
                assert(r0.contains(r0[i]));
                if r0[i] != x {
                    let m = choose|m: int| 0 <= m < s0.len() && s0[m] == r0[i];
                    assert(s[m] < s[s.len() - 1]);
                }
            }
        }
    }
}

proof fn lemma_insert_letter(s: Seq<char>, c: char)
    ensures
        insert_letter(s, c).len() == s.len() + 1,
        forall|d: char|
            #![trigger insert_letter(s, c).contains(d)]
            #![trigger s.contains(d)]
            insert_letter(s, c).contains(d) <==> s.contains(d) || d == c,
    decreases s.len(),
{
    let r = insert_letter(s, c);
    if s.len() == 0 || s.last() <= c {
        assert forall|d: char| r.contains(d) <==> s.contains(d) || d == c by {
            if s.contains(d) {
                let k = choose|k: int| 0 <= k < s.len() && s[k] == d;
                assert(r[k] == d);
            }
            assert(r[s.len() as int] == c);
        }
    } else {
        let s0 = s.drop_last();
        lemma_insert_letter(s0, c);
        let r0 = insert_letter(s0, c);
        assert forall|d: char| r.contains(d) <==> s.contains(d) || d == c by {
            if r.contains(d) {
                let k = choose|k: int| 0 <= k < r.len() && r[k] == d;
                if k < r0.len() {
                    assert(r0[k] == d);
                    assert(r0.contains(d));
                    if d != c {
                        let m = choose|m: int| 0 <= m < s0.len() && s0[m] == d;
                        assert(s[m] == d);
                    }
                } else {
                    assert(s[s.len() - 1] == d);
                }
            }
            if s.contains(d) {
                let k = choose|k: int| 0 <= k < s.len() && s[k] == d;
                if k < s0.len() {
                    assert(s0[k] == d);
                    assert(r0.contains(d));
                    let m = choose|m: int| 0 <= m < r0.len() && r0[m] == d;
                    assert(r[m] == d);
                } else {
                    assert(r[r0.len() as int] == d);
                }
            }
            if d == c {
                assert(r0.contains(c));
                let m = choose|m: int| 0 <= m < r0.len() && r0[m] == c;
                assert(r[m] == c);
            }
        }
    }
}

/// One token for each letter.
pub open spec fn letter_tokens(letters: Seq<char>) -> Seq<Seq<char>> {
    Seq::new(letters.len(), |i: int| seq![letters[i]])
}

/// Letters as an answer holds them: `A, B, C`.
pub open spec fn letters_text(letters: Seq<char>) -> Seq<char> {
    joined(letter_tokens(letters), ", "@)
}

/// Whether the letter at `k`, with the comma and the space behind it, stands
/// where it should.
pub open spec fn letter_stands(text: Seq<char>, letters: Seq<char>, k: int) -> bool {
    text[3 * k] == letters[k] && (k < letters.len() - 1 ==> text[3 * k + 1] == ',' && text[3 * k
        + 2] == ' ')
}

proof fn lemma_letters_text(letters: Seq<char>)
    ensures
        letters.len() == 0 ==> letters_text(letters).len() == 0,
        letters.len() > 0 ==> letters_text(letters).len() == 3 * letters.len() - 2,
        forall|k: int|
            0 <= k < letters.len() ==> #[trigger] letter_stands(letters_text(letters), letters, k),
        letters.len() > 1 ==> letters_text(letters) == letters_text(letters.drop_last()) + ", "@
            + seq![letters.last()],
    decreases letters.len(),
{
    reveal_strlit(", ");
    let n = letters.len() as int;
    if n == 1 {
        assert(letter_tokens(letters)[0] == seq![letters[0]]);
    } else if n > 1 {
        let before = letters.drop_last();
        lemma_letters_text(before);
        let tokens = letter_tokens(letters);
        assert(tokens.drop_last() =~= letter_tokens(before));
        assert(tokens.last() == seq![letters.last()]);
        let text = letters_text(letters);
        let head = letters_text(before);
        assert(text == head + ", "@ + seq![letters.last()]);
        assert forall|k: int| 0 <= k < n implies #[trigger] letter_stands(text, letters, k) by {
            if k < n - 1 {
                assert(letter_stands(head, before, k));
                assert(before[k] == letters[k]);
                if k == n - 2 {
                    assert(3 * k + 1 == head.len());
                }
            }
        }
    }
}

/// A piece without a separator, set apart by one, is one more piece.
pub proof fn lemma_pieces_push(a: Seq<char>, b: Seq<char>, separator: char, from: int)
    requires
        0 <= from <= a.len(),
        forall|k: int| 0 <= k < b.len() ==> #[trigger] b[k] != separator,
    ensures
        pieces_from(a + seq![separator] + b, from, separator) == pieces_from(
            a,
            from,
            separator,
        ).push(b),
    decreases a.len() - from,
{
    let whole = a + seq![separator] + b;
    lemma_next_char(a, from, separator);
    let end = next_char(a, from, separator);
    if end < a.len() {
        assert(whole[end] == a[end]);
        assert forall|k: int| from <= k < end implies #[trigger] whole[k] != separator by {
            assert(whole[k] == a[k]);
        }
        lemma_next_char_is(whole, from, separator, end);
        lemma_pieces_push(a, b, separator, end + 1);
        assert(whole.subrange(from, end) =~= a.subrange(from, end));
        assert(pieces_from(whole, from, separator) =~= pieces_from(a, from, separator).push(b));
    } else {
        assert forall|k: int| from <= k < a.len() implies #[trigger] whole[k] != separator by {
            assert(whole[k] == a[k]);
        }
        assert(whole[a.len() as int] == separator);
        lemma_next_char_is(whole, from, separator, a.len() as int);
        let next = a.len() as int + 1;
        assert forall|k: int| next <= k < whole.len() implies #[trigger] whole[k] != separator by {
            assert(whole[k] == b[k - next]);
        }
        lemma_next_char_is(whole, next, separator, whole.len() as int);
        assert(whole.skip(next) =~= b);
        assert(pieces_from(whole, next, separator) =~= seq![b]);
        assert(whole.subrange(from, a.len() as int) =~= a.skip(from));
        assert(pieces_from(whole, from, separator) =~= pieces_from(a, from, separator).push(b));
    }
}

/// The pieces of a text without a separator are the text.
pub proof fn lemma_one_piece(a: Seq<char>, separator: char)
    requires
        forall|k: int| 0 <= k < a.len() ==> #[trigger] a[k] != separator,
    ensures
        pieces_of(a, separator) == seq![a],
{
    lemma_next_char_is(a, 0, separator, a.len() as int);
    assert(a.skip(0) =~= a);
}

/// What tokens choose depends on those tokens alone.
proof fn lemma_chosen_prefix(block: QuestionModel, s: Seq<Seq<char>>, t: Seq<Seq<char>>, n: int)
    requires
        0 <= n <= s.len(),
        n <= t.len(),
        forall|k: int| 0 <= k < n ==> #[trigger] s[k] == t[k],
    ensures
        block.chosen(s, n) == block.chosen(t, n),
    decreases n,
{
    if n > 0 {
        lemma_chosen_prefix(block, s, t, n - 1);
        assert(s[n - 1] == t[n - 1]);
    }
}

/// The options that letters choose.
pub open spec fn chosen_by(block: QuestionModel, letters: Seq<char>) -> Seq<usize>
    decreases letters.len(),
{
    if letters.len() == 0 {
        seq![]
    } else {
        insert_index(
            chosen_by(block, letters.drop_last()),
            block.lettered_from(0, letters.last(), false)->0 as usize,
        )
    }
}

/// Every letter chooses an option.
pub open spec fn all_choose(block: QuestionModel, letters: Seq<char>) -> bool {
    forall|k: int|
        0 <= k < letters.len() ==> is_ascii_upper(#[trigger] letters[k]) && block.lettered_from(
            0,
            letters[k],
            false,
        ) is Some
}

proof fn lemma_trim_letter(c: char)
    requires
        is_ascii_upper(c),
    ensures
        trim(seq![c]) == seq![c],
        trim(" "@ + seq![c]) == seq![c],
        letter_prefix(seq![c]) == Some(c),
{
    reveal_strlit(" ");
    lemma_trim_keeps(seq![c]);
    lemma_trim_blank(seq![c]);
    assert(" "@ =~= seq![' ']);
}

/// Letters that were written choose, when they are read, what they stand for.
proof fn lemma_letters_choose(block: QuestionModel, letters: Seq<char>)
    requires
        all_choose(block, letters),
        letters.len() > 0,
    ensures
        pieces_of(letters_text(letters), ',').len() == letters.len(),
        block.chosen(pieces_of(letters_text(letters), ','), letters.len() as int) == Some(
            chosen_by(block, letters),
        ),
    decreases letters.len(),
{
    reveal_strlit(", ");
    reveal_strlit(" ");
    lemma_letters_text(letters);
    let n = letters.len() as int;
    let last = letters.last();
    assert(is_ascii_upper(letters[n - 1]));
    lemma_trim_letter(last);
    if n == 1 {
        assert(letters_text(letters) =~= seq![last]);
        lemma_one_piece(seq![last], ',');
        assert(letters.drop_last() =~= seq![]);
        reveal_with_fuel(QuestionModel::chosen, 2);
        reveal_with_fuel(chosen_by, 2);
    } else {
        let before = letters.drop_last();
        assert forall|k: int| 0 <= k < before.len() implies is_ascii_upper(#[trigger] before[k])
            && block.lettered_from(0, before[k], false) is Some by {
            assert(before[k] == letters[k]);
        }
        lemma_letters_choose(block, before);
        let head = letters_text(before);
        let piece = " "@ + seq![last];
        assert(letters_text(letters) =~= head + seq![','] + piece);
        lemma_pieces_push(head, piece, ',', 0);
        let pieces = pieces_of(letters_text(letters), ',');
        assert(pieces == pieces_of(head, ',').push(piece));
        lemma_chosen_prefix(block, pieces, pieces_of(head, ','), n - 1);
    }
}

/// What letters choose is ascending, and is what each of them chooses.
proof fn lemma_chosen_by(block: QuestionModel, letters: Seq<char>)
    ensures
        strictly_increasing(chosen_by(block, letters)),
        forall|x: usize| #[trigger]
            chosen_by(block, letters).contains(x) <==> exists|k: int|
                0 <= k < letters.len() && block.lettered_from(0, #[trigger] letters[k], false)->0
                    as usize == x,
    decreases letters.len(),
{
    if letters.len() > 0 {
        let n = letters.len() as int;
        let before = letters.drop_last();
        lemma_chosen_by(block, before);
        let index = block.lettered_from(0, letters.last(), false)->0 as usize;
        lemma_insert_index(chosen_by(block, before), index);
        assert forall|x: usize| #[trigger]
            chosen_by(block, letters).contains(x) <==> exists|k: int|
                0 <= k < letters.len() && block.lettered_from(0, #[trigger] letters[k], false)->0
                    as usize == x by {
            if chosen_by(block, letters).contains(x) {
                if x == index {
                    assert(block.lettered_from(0, letters[n - 1], false)->0 as usize == x);
                } else {
                    let k = choose|k: int|
                        0 <= k < before.len() && block.lettered_from(
                            0,
                            #[trigger] before[k],
                            false,
                        )->0 as usize == x;
                    assert(before[k] == letters[k]);
                }
            }
            if exists|k: int|
                0 <= k < letters.len() && block.lettered_from(0, #[trigger] letters[k], false)->0
                    as usize == x {
                let k = choose|k: int|
                    0 <= k < letters.len() && block.lettered_from(
                        0,
                        #[trigger] letters[k],
                        false,
                    )->0 as usize == x;
                if k < n - 1 {
                    assert(before[k] == letters[k]);
                    assert(chosen_by(block, before).contains(x));
                }
            }
        }
    } else {
        assert forall|x: usize| !chosen_by(block, letters).contains(x) by {}
    }
}

proof fn lemma_chosen_letters(block: QuestionModel, choices: Seq<usize>, n: int)
    requires
        0 <= n <= choices.len(),
        forall|k: int|
            0 <= k < n ==> (#[trigger] choices[k]) < block.options.len()
                && block.options[choices[k] as int].letter is Some,
    ensures
        block.chosen_letters(choices, n).len() == n,
        forall|d: char| #[trigger]
            block.chosen_letters(choices, n).contains(d) <==> exists|k: int|
                0 <= k < n && block.options[(#[trigger] choices[k]) as int].letter == Some(d),
    decreases n,
{
    let letters = block.chosen_letters(choices, n);
    if n > 0 {
        lemma_chosen_letters(block, choices, n - 1);
        let before = block.chosen_letters(choices, n - 1);
        let own = block.options[choices[n - 1] as int].letter->0;
        lemma_insert_letter(before, own);
        assert forall|d: char| #[trigger]
            letters.contains(d) <==> exists|k: int|
                0 <= k < n && block.options[(#[trigger] choices[k]) as int].letter == Some(d) by {
            if letters.contains(d) {
                if d == own {
                    assert(block.options[choices[n - 1] as int].letter == Some(d));
                } else {
                    assert(before.contains(d));
                }
            }
            if exists|k: int|
                0 <= k < n && block.options[(#[trigger] choices[k]) as int].letter == Some(d) {
                let k = choose|k: int|
                    0 <= k < n && block.options[(#[trigger] choices[k]) as int].letter == Some(d);
                if k < n - 1 {
                    assert(before.contains(d));
                }
            }
        }
    }
}

/// Letters other than `letter` hold no free text, whatever follows them behind
/// a comma.
proof fn lemma_letters_hold_no_text(raw: Seq<char>, letters: Seq<char>, letter: char, from: int)
    requires
        letters.len() > 0,
        0 <= from <= letters_text(letters).len() <= raw.len(),
        raw.take(letters_text(letters).len() as int) == letters_text(letters),
        forall|k: int|
            0 <= k < letters.len() ==> is_ascii_upper(#[trigger] letters[k]) && letters[k] != letter,
    ensures
        other_token_from(raw, from, letter) == other_token_from(
            raw,
            letters_text(letters).len() as int,
            letter,
        ),
    decreases letters_text(letters).len() - from,
{
    let text = letters_text(letters);
    lemma_letters_text(letters);
    if from < text.len() {
        lemma_letters_hold_no_text(raw, letters, letter, from + 1);
        let k = from / 3;
        assert(letter_stands(text, letters, k));
        assert(is_ascii_upper(letters[k]) && letters[k] != letter);
        assert(raw[from] == text[from]);
        if from % 3 == 0 {
            assert(raw[from] == letters[k]);
            if from == 0 {
                assert(run_end(raw, 0, CharClass::Blank) == 0);
            }
        } else if from % 3 == 1 {
            assert(letter_stands(text, letters, k + 1));
            assert(is_ascii_upper(letters[k + 1]) && letters[k + 1] != letter);
            assert(raw[from + 1] == text[from + 1]);
            assert(raw[from + 2] == text[from + 2]);
            assert(run_end(raw, from + 2, CharClass::Blank) == from + 2);
            assert(run_end(raw, from + 1, CharClass::Blank) == from + 2);
            assert(other_text_at(raw, from + 1, letter) is None);
        } else {
            assert(raw[from] == ' ');
        }
        assert(other_token_at(raw, from, letter) is None);
    }
}

/// A token of free text is read as the text.
proof fn lemma_other_text(raw: Seq<char>, from: int, at: int, letter: char, text: Seq<char>)
    requires
        0 <= from <= at < raw.len(),
        forall|k: int| from <= k < at ==> #[trigger] raw[k] == ' ',
        is_ascii_upper(letter),
        raw[at] == letter,
        text.len() == 0 ==> at + 1 == raw.len(),
        text.len() > 0 ==> at + 1 < raw.len() && raw[at + 1] == ':' && raw.skip(at + 2) == seq![' ']
            + text,
        trim(text) == text,
        forall|k: int| 0 <= k < text.len() ==> #[trigger] text[k] != '\n',
    ensures
        other_text_at(raw, from, letter) == Some(text),
{
    lemma_run_end_is(raw, from, CharClass::Blank, at);
    if text.len() == 0 {
        assert(raw.skip(at + 1) =~= seq![]);
        lemma_trim_keeps(raw.skip(at + 1));
        assert(text =~= seq![]);
    } else {
        let rest = raw.skip(at + 2);
        let spaced = seq![' '] + text;
        assert(rest == spaced);
        assert(rest.len() == raw.len() - (at + 2));
        assert(spaced.len() == text.len() + 1);
        assert forall|k: int| at + 2 <= k < raw.len() implies #[trigger] raw[k] != '\n' by {
            let i = k - (at + 2);
            assert(0 <= i < spaced.len());
            assert(raw[k] == rest[i]);
            assert(rest[i] == spaced[i]);
            if i > 0 {
                assert(spaced[i] == text[i - 1]);
            } else {
                assert(spaced[i] == ' ');
            }
        }
        lemma_next_char_is(raw, at + 2, '\n', raw.len() as int);
        lemma_trim_blank(text);
    }
}

impl QuestionModel {
    /// Whether an answer can be written in letters so that it is read back: the
    /// choices are in ascending order, each is the first of its capital letter
    /// and not the letter for free text, and free text is trimmed, on one line,
    /// has an option to stand for it and is not that option's own text.
    pub open spec fn can_write(self, answer: AnswerModel) -> bool {
        &&& strictly_increasing(answer.choices)
        &&& forall|k: int|
            0 <= k < answer.choices.len() ==> self.can_choose((#[trigger] answer.choices[k]) as int)
        &&& self.other_option() matches Some((_, letter)) ==> is_ascii_upper(letter)
        &&& answer.other matches Some(text) ==> {
            &&& self.other_option() is Some
            &&& trim(text) == text
            &&& forall|k: int| 0 <= k < text.len() ==> #[trigger] text[k] != '\n'
            &&& text.len() > 0 ==> text != self.options[(self.other_option()->0).0].text
        }
    }

    /// Whether a letter chooses the option with the given index.
    pub open spec fn can_choose(self, index: int) -> bool {
        &&& 0 <= index < self.options.len()
        &&& self.options[index].letter matches Some(letter) && is_ascii_upper(letter)
            && self.lettered_from(0, letter, false) == Some(index) && (self.other_option() matches Some(
            (_, other),
        ) ==> letter != other)
    }

    /// The question with an answer in place of its own.
    pub open spec fn answered(self, row: u32, raw: Seq<char>) -> QuestionModel {
        QuestionModel { answer: Some((row, raw)), ..self }
    }
}

/// Whether `raw` is the letters, and behind them the token for free text.
pub open spec fn is_written(
    block: QuestionModel,
    answer: AnswerModel,
    letters: Seq<char>,
    raw: Seq<char>,
) -> bool {
    match answer.other {
        Some(text) => raw == (if letters.len() > 0 {
            letters_text(letters) + ", "@ + block.other_token(text)
        } else {
            block.other_token(text)
        }),
        None => raw == letters_text(letters),
    }
}

/// Whether letters are capitals other than the one for free text, and each
/// chooses an option.
pub open spec fn are_choices(block: QuestionModel, letters: Seq<char>) -> bool {
    &&& all_choose(block, letters)
    &&& forall|k: int|
        0 <= k < letters.len() ==> (block.other_option() matches Some((_, other)) ==> (
        #[trigger] letters[k]) != other)
}

proof fn lemma_answer_is_written(block: QuestionModel, answer: AnswerModel)
    requires
        block.uses_letters(),
        block.can_write(answer),
        !answer.is_empty(),
    ensures
        ({
            let letters = block.chosen_letters(answer.choices, answer.choices.len() as int);
            &&& letters.len() == answer.choices.len()
            &&& are_choices(block, letters)
            &&& chosen_by(block, letters) == answer.choices
            &&& is_written(block, answer, letters, block.answer_written(answer))
        }),
{
    let n = answer.choices.len() as int;
    assert forall|k: int| 0 <= k < n implies (#[trigger] answer.choices[k]) < block.options.len()
        && block.options[answer.choices[k] as int].letter is Some by {
        assert(block.can_choose(answer.choices[k] as int));
    }
    lemma_chosen_letters(block, answer.choices, n);
    let letters = block.chosen_letters(answer.choices, n);
    assert forall|k: int| 0 <= k < letters.len() implies is_ascii_upper(#[trigger] letters[k])
        && block.lettered_from(0, letters[k], false) is Some && (
    block.other_option() matches Some((_, other)) ==> letters[k] != other) by {
        assert(letters.contains(letters[k]));
        let m = choose|m: int|
            0 <= m < n && block.options[(#[trigger] answer.choices[m]) as int].letter == Some(
                letters[k],
            );
        assert(block.can_choose(answer.choices[m] as int));
    }
    lemma_written_choices(block, answer, letters);
    let tokens = letter_tokens(letters);
    assert(tokens =~= Seq::new(letters.len(), |i: int| seq![letters[i]]));
    match answer.other {
        Some(text) => {
            let all = tokens.push(block.other_token(text));
            assert(all.drop_last() =~= tokens);
            assert(all == block.answer_tokens(answer));
        },
        None => {},
    }
}

/// Letters begin and end with capitals.
proof fn lemma_letters_ends(letters: Seq<char>)
    requires
        letters.len() > 0,
        is_ascii_upper(letters.first()),
        is_ascii_upper(letters.last()),
    ensures
        letters_text(letters).len() > 0,
        is_ascii_upper(letters_text(letters).first()),
        is_ascii_upper(letters_text(letters).last()),
{
    lemma_letters_text(letters);
    let n = letters.len() as int;
    assert(letter_stands(letters_text(letters), letters, 0));
    assert(letter_stands(letters_text(letters), letters, n - 1));
}

/// The token for free text begins with a capital and ends without white space.
proof fn lemma_token_ends(letter: char, text: Seq<char>, token: Seq<char>)
    requires
        is_ascii_upper(letter),
        trim(text) == text,
        token == if text.len() == 0 {
            seq![letter]
        } else {
            seq![letter] + ": "@ + text
        },
    ensures
        token.len() > 0,
        is_ascii_upper(token.first()),
        !is_whitespace(token.last()),
{
    lemma_trim(text);
    if text.len() > 0 {
        lemma_ends_of_three(seq![letter], ": "@, text);
    }
}

/// What is written in letters begins with a capital and ends without white
/// space.
proof fn lemma_written_ends(
    block: QuestionModel,
    answer: AnswerModel,
    letters: Seq<char>,
    raw: Seq<char>,
)
    requires
        block.can_write(answer),
        letters.len() > 0 || answer.other is Some,
        are_choices(block, letters),
        is_written(block, answer, letters, raw),
    ensures
        raw.len() > 0,
        is_ascii_upper(raw[0]),
        !is_whitespace(raw.last()),
{
    let n = letters.len() as int;
    if n > 0 {
        assert(is_ascii_upper(letters[0]));
        assert(is_ascii_upper(letters[n - 1]));
        lemma_letters_ends(letters);
    }
    if let Some(text) = answer.other {
        let token = block.other_token(text);
        lemma_token_ends((block.other_option()->0).1, text, token);
        if n > 0 {
            lemma_ends_of_three(letters_text(letters), ", "@, token);
        }
    }
}

proof fn lemma_ends_of_three(a: Seq<char>, b: Seq<char>, c: Seq<char>)
    requires
        a.len() > 0,
        c.len() > 0,
    ensures
        (a + b + c).first() == a.first(),
        (a + b + c).last() == c.last(),
{
}

/// What is written in letters says the answer.
proof fn lemma_written_says(
    block: QuestionModel,
    answer: AnswerModel,
    letters: Seq<char>,
    raw: Seq<char>,
)
    requires
        block.can_write(answer),
        !answer.is_empty(),
        letters.len() == answer.choices.len(),
        are_choices(block, letters),
        chosen_by(block, letters) == answer.choices,
        is_written(block, answer, letters, raw),
    ensures
        block.letter_answer(raw) == Some(answer),
{
    lemma_written_other(block, answer, letters, raw);
    lemma_letters_text(letters);
    let head = letters_text(letters);
    let start = head.len() as int;
    assert(raw.take(start) =~= head);
    if letters.len() == 0 {
        assert(head =~= seq![]);
        lemma_one_piece(head, ',');
        lemma_trim_keeps(head);
        reveal_with_fuel(QuestionModel::chosen, 2);
        assert(block.chosen(pieces_of(head, ','), 1) == Some(Seq::<usize>::empty()));
        assert(answer.choices =~= seq![]);
    } else {
        lemma_letters_choose(block, letters);
    }
}

/// An answer in letters that was written is read back as it was.
pub proof fn law_letters_round_trip(block: QuestionModel, answer: AnswerModel, row: u32)
    requires
        block.uses_letters(),
        block.can_write(answer),
    ensures
        block.answered(row, block.answer_written(answer)).answer_given() == answer,
{
    let raw = block.answer_written(answer);
    let read = block.answered(row, raw);
    lemma_same_uses(block, read);
    lemma_same_options(block, read);
    if answer.is_empty() {
        lemma_trim_keeps(raw);
        assert(answer.choices =~= seq![]);
    } else {
        let letters = block.chosen_letters(answer.choices, answer.choices.len() as int);
        lemma_answer_is_written(block, answer);
        lemma_written_ends(block, answer, letters, raw);
        lemma_written_says(block, answer, letters, raw);
        lemma_same_letter_answer(block, read, raw);
        lemma_trim_keeps(raw);
        assert(!is_unanswered(raw)) by {
            assert(raw[0] != '_');
        }
    }
}

/// The free text of a written answer is found behind its letters.
proof fn lemma_written_other(
    block: QuestionModel,
    answer: AnswerModel,
    letters: Seq<char>,
    raw: Seq<char>,
)
    requires
        block.can_write(answer),
        letters.len() > 0 || answer.other is Some,
        are_choices(block, letters),
        is_written(block, answer, letters, raw),
    ensures
        match answer.other {
            Some(text) => block.other_part(raw) == Some(
                (letters_text(letters).len() as int, text),
            ),
            None => block.other_part(raw) is None,
        },
{
    reveal_strlit(", ");
    reveal_strlit(": ");
    let head = letters_text(letters);
    let start = head.len() as int;
    lemma_letters_text(letters);
    match block.other_option() {
        Some((index, letter)) => {
            if letters.len() > 0 {
                assert(raw.take(start) =~= head);
                lemma_letters_hold_no_text(raw, letters, letter, 0);
            }
            match answer.other {
                Some(text) => {
                    let other = block.other_token(text);
                    assert(other[0] == letter);
                    if text.len() > 0 {
                        assert(other[1] == ':');
                        assert(other.skip(2) =~= seq![' '] + text);
                    }
                    if letters.len() > 0 {
                        assert(raw[start] == ',');
                        assert(raw[start + 1] == ' ');
                        assert(raw[start + 2] == letter);
                        if text.len() > 0 {
                            assert(raw[start + 3] == ':');
                            assert(raw.skip(start + 4) =~= seq![' '] + text);
                        }
                        lemma_other_text(raw, start + 1, start + 2, letter, text);
                        assert(other_token_at(raw, start, letter) == Some(text));
                    } else {
                        lemma_other_text(raw, 0, 0, letter, text);
                    }
                    assert(other_token_from(raw, 0, letter) == Some((start, text)));
                    if text == block.options[index].text {
                        assert(text =~= seq![]);
                    }
                },
                None => {
                    assert(other_token_from(raw, start, letter) is None);
                },
            }
        },
        None => {},
    }
}

/// What the letters of an answer choose are the choices of the answer.
proof fn lemma_written_choices(block: QuestionModel, answer: AnswerModel, letters: Seq<char>)
    requires
        block.can_write(answer),
        forall|d: char| #[trigger]
            letters.contains(d) <==> exists|k: int|
                0 <= k < answer.choices.len() && block.options[(
                #[trigger] answer.choices[k]) as int].letter == Some(d),
    ensures
        chosen_by(block, letters) == answer.choices,
{
    lemma_chosen_by(block, letters);
    assert forall|x: usize| chosen_by(block, letters).contains(x) <==> answer.choices.contains(
        x,
    ) by {
        if chosen_by(block, letters).contains(x) {
            let k = choose|k: int|
                0 <= k < letters.len() && block.lettered_from(0, #[trigger] letters[k], false)->0
                    as usize == x;
            assert(letters.contains(letters[k]));
            let m = choose|m: int|
                0 <= m < answer.choices.len() && block.options[(
                #[trigger] answer.choices[m]) as int].letter == Some(letters[k]);
            assert(block.can_choose(answer.choices[m] as int));
        }
        if answer.choices.contains(x) {
            let m = choose|m: int| 0 <= m < answer.choices.len() && answer.choices[m] == x;
            assert(block.can_choose(answer.choices[m] as int));
            let d = block.options[x as int].letter->0;
            assert(letters.contains(d));
            let k = choose|k: int| 0 <= k < letters.len() && letters[k] == d;
            assert(block.lettered_from(0, letters[k], false)->0 as usize == x);
        }
    }
    lemma_same_indices(chosen_by(block, letters), answer.choices);
}

/// Where options are found depends on the options alone.
proof fn lemma_same_options(a: QuestionModel, b: QuestionModel)
    requires
        a.options == b.options,
    ensures
        a.other_option() == b.other_option(),
{
    lemma_same_other(a, b, 0);
}

proof fn lemma_same_other(a: QuestionModel, b: QuestionModel, from: int)
    requires
        a.options == b.options,
    ensures
        a.other_from(from) == b.other_from(from),
    decreases a.options.len() - from,
{
    if 0 <= from < a.options.len() {
        lemma_same_other(a, b, from + 1);
    }
}

proof fn lemma_same_lettered(
    a: QuestionModel,
    b: QuestionModel,
    from: int,
    letter: char,
    with_other: bool,
)
    requires
        a.options == b.options,
    ensures
        a.lettered_from(from, letter, with_other) == b.lettered_from(from, letter, with_other),
    decreases a.options.len() - from,
{
    if 0 <= from < a.options.len() {
        lemma_same_lettered(a, b, from + 1, letter, with_other);
    }
}

proof fn lemma_same_chosen(a: QuestionModel, b: QuestionModel, tokens: Seq<Seq<char>>, n: int)
    requires
        a.options == b.options,
    ensures
        a.chosen(tokens, n) == b.chosen(tokens, n),
    decreases n,
{
    if n > 0 {
        lemma_same_chosen(a, b, tokens, n - 1);
        match letter_prefix(trim(tokens[n - 1])) {
            Some(letter) => lemma_same_lettered(a, b, 0, letter, false),
            None => {},
        }
    }
}

proof fn lemma_same_letter_answer(a: QuestionModel, b: QuestionModel, raw: Seq<char>)
    requires
        a.options == b.options,
    ensures
        a.letter_answer(raw) == b.letter_answer(raw),
{
    lemma_same_options(a, b);
    let letters = match a.other_part(raw) {
        Some((start, _)) => raw.take(start),
        None => raw,
    };
    let tokens = pieces_of(letters, ',');
    lemma_same_chosen(a, b, tokens, tokens.len() as int);
}

/// An answer line gives back what was written on it.
pub proof fn law_answer_line_round_trip(raw: Seq<char>)
    ensures
        answer_text(answer_line_of(raw)) == Some(trim(raw)),
{
    reveal_strlit("[Answer]:");
    reveal_strlit("[Answer]: ");
    let line = answer_line_of(raw);
    assert(line.subrange(0, 9) =~= "[Answer]:"@);
    assert(starts_with(line, "[Answer]:"@));
    let rest = line.skip(9);
    if trim(raw).len() == 0 {
        assert(rest =~= seq![]);
        lemma_trim_keeps(rest);
        assert(trim(raw) =~= seq![]);
    } else {
        assert(rest =~= seq![' '] + trim(raw));
        lemma_trim(raw);
        lemma_trim_blank(trim(raw));
    }
}

/// Whether a whole answer names the option with the given index: by a capital
/// letter that is first of its kind, or by a text that is neither quoted nor
/// blank, is first of its kind, and begins with no option's letter.
pub open spec fn can_name(block: QuestionModel, index: int) -> bool {
    &&& 0 <= index < block.options.len()
    &&& match block.options[index].letter {
        Some(letter) => is_ascii_upper(letter) && block.lettered_from(0, letter, true) == Some(
            index,
        ),
        None => {
            let text = block.options[index].text;
            &&& trim(text) == text
            &&& without_quotes(text) == text
            &&& !is_unanswered(text)
            &&& letter_prefix(text) matches Some(letter) ==> block.lettered_from(0, letter, true) is None
            &&& block.texted_from(0, lowercase(text)) == Some(index)
        },
    }
}

/// A choice in a special section that was written is read back as it was.
pub proof fn law_option_round_trip(block: QuestionModel, index: usize, row: u32)
    requires
        !block.uses_letters(),
        block.kind != QuestionKind::Feedback,
        can_name(block, index as int),
    ensures
        ({
            let answer = AnswerModel { choices: seq![index], other: None };
            block.answered(row, block.answer_written(answer)).answer_given() == answer
        }),
{
    reveal_strlit(". ");
    let answer = AnswerModel { choices: seq![index], other: None };
    let raw = block.answer_written(answer);
    let read = block.answered(row, raw);
    lemma_same_uses(block, read);
    let option = block.options[index as int];
    match option.letter {
        Some(letter) => {
            assert(raw == seq![letter] + ". "@ + option.text);
            assert(raw[0] == letter);
            assert(raw[1] == '.');
            lemma_trim(raw);
            let (from, to) = choose|from: int, to: int|
                0 <= from <= to <= raw.len() && trim(raw) == #[trigger] raw.subrange(from, to) && (
                forall|k: int| 0 <= k < from ==> is_whitespace(#[trigger] raw[k])) && (forall|
                    k: int,
                |
                    to <= k < raw.len() ==> is_whitespace(#[trigger] raw[k]));
            assert(from == 0);
            assert(to >= 2);
            let token = trim(raw);
            assert(token[0] == letter && token[1] == '.');
            assert(letter_prefix(token) == Some(letter));
            lemma_same_lettered(block, read, 0, letter, true);
            assert(read.named_option(token) == Some(index as int));
            assert(!is_unanswered(token)) by {
                assert(token[0] != '_');
            }
        },
        None => {
            assert(raw == option.text);
            match letter_prefix(raw) {
                Some(letter) => lemma_same_lettered(block, read, 0, letter, true),
                None => {},
            }
            lemma_same_texted(block, read, 0, lowercase(raw));
            assert(read.named_option(raw) == Some(index as int));
        },
    }
}

/// Free text where no letters are used is read back as it was written, unless
/// it is blank or names an option.
pub proof fn law_free_text_round_trip(block: QuestionModel, text: Seq<char>, row: u32)
    requires
        !block.uses_letters(),
        trim(text) == text,
        !is_unanswered(text),
        block.kind != QuestionKind::Feedback ==> block.named_option(text) is None,
    ensures
        ({
            let answer = AnswerModel { choices: seq![], other: Some(text) };
            block.answered(row, block.answer_written(answer)).answer_given() == answer
        }),
{
    let answer = AnswerModel { choices: seq![], other: Some(text) };
    let raw = block.answer_written(answer);
    assert(raw == text);
    let read = block.answered(row, raw);
    lemma_same_uses(block, read);
    match letter_prefix(text) {
        Some(letter) => lemma_same_lettered(block, read, 0, letter, true),
        None => {},
    }
    lemma_same_texted(block, read, 0, lowercase(without_quotes(text)));
}

/// A question whose answer line is blank, or holds underscores alone, has no
/// answer.
pub proof fn law_blank_is_unanswered(block: QuestionModel, row: u32, raw: Seq<char>)
    requires
        is_unanswered(trim(raw)),
    ensures
        block.answered(row, raw).answer_given() == no_answer(),
{
}

/// No answer leaves a line that counts as unanswered, and is read back as none.
pub proof fn law_no_answer_round_trip(block: QuestionModel, row: u32)
    ensures
        answer_line_of(block.answer_written(no_answer())) == "[Answer]:"@,
        block.answered(row, block.answer_written(no_answer())).answer_given() == no_answer(),
{
    lemma_trim_keeps(Seq::<char>::empty());
    assert(block.answer_written(no_answer()) =~= seq![]);
}

proof fn lemma_same_uses(a: QuestionModel, b: QuestionModel)
    requires
        a.options == b.options,
        a.kind == b.kind,
    ensures
        a.uses_letters() == b.uses_letters(),
{
    if a.uses_letters() {
        let i = choose|i: int|
            0 <= i < a.options.len() && (#[trigger] a.options[i]).letter is Some;
        assert(b.options[i].letter is Some);
    }
    if b.uses_letters() {
        let i = choose|i: int|
            0 <= i < b.options.len() && (#[trigger] b.options[i]).letter is Some;
        assert(a.options[i].letter is Some);
    }
}

proof fn lemma_same_texted(a: QuestionModel, b: QuestionModel, from: int, text: Seq<char>)
    requires
        a.options == b.options,
    ensures
        a.texted_from(from, text) == b.texted_from(from, text),
    decreases a.options.len() - from,
{
    if 0 <= from < a.options.len() {
        lemma_same_texted(a, b, from + 1, text);
    }
}

/// Putting an index that is not there into an ascending list keeps it
/// ascending and adds just that index.
proof fn lemma_insert_ordered(s: Seq<usize>, x: usize)
    requires
        strictly_increasing(s),
        !s.contains(x),
    ensures
        insert_ordered(s, x) == insert_index(s, x),
    decreases s.len(),
{
    if s.len() > 0 {
        assert(s.contains(s.last()));
        if s.last() > x {
            let s0 = s.drop_last();
            assert(!s0.contains(x)) by {
                if s0.contains(x) {
                    let k = choose|k: int| 0 <= k < s0.len() && s0[k] == x;
                    assert(s[k] == x);
                }
            }
            lemma_insert_ordered(s0, x);
        }
    }
}

/// An ascending list is in order already.
proof fn lemma_ordered_keeps(s: Seq<usize>)
    requires
        strictly_increasing(s),
    ensures
        ordered(s) == s,
    decreases s.len(),
{
    if s.len() > 0 {
        lemma_ordered_keeps(s.drop_last());
        if s.len() > 1 {
            assert(s[s.len() - 2] < s[s.len() - 1]);
        }
        assert(s.drop_last().push(s.last()) =~= s);
    }
}

proof fn lemma_first_index(s: Seq<usize>, from: int, x: usize)
    requires
        0 <= from <= s.len(),
        exists|k: int| from <= k < s.len() && s[k] == x,
    ensures
        from <= first_index(s, from, x) < s.len(),
        s[first_index(s, from, x)] == x,
    decreases s.len() - from,
{
    if s[from] != x {
        lemma_first_index(s, from + 1, x);
    }
}

/// One click on an option where several may be chosen: the choices stay in
/// ascending order, the option changes sides and the others stay where they
/// are.
pub proof fn law_toggle_one(block: QuestionModel, current: AnswerModel, index: usize)
    requires
        block.kind == QuestionKind::Multi,
        strictly_increasing(current.choices),
    ensures
        strictly_increasing(block.toggled(current, index).choices),
        forall|x: usize| #[trigger]
            block.toggled(current, index).choices.contains(x) <==> (if x == index {
                !current.choices.contains(x)
            } else {
                current.choices.contains(x)
            }),
        block.toggled(current, index).other == current.other,
{
    let s = current.choices;
    let r = block.toggled(current, index).choices;
    if s.contains(index) {
        lemma_first_index(s, 0, index);
        let at = first_index(s, 0, index);
        let t = s.remove(at);
        assert forall|i: int, j: int| 0 <= i < j < t.len() implies t[i] < t[j] by {
            let i0 = if i < at { i } else { i + 1 };
            let j0 = if j < at { j } else { j + 1 };
            assert(t[i] == s[i0] && t[j] == s[j0]);
        }
        lemma_ordered_keeps(t);
        assert forall|x: usize| #[trigger] r.contains(x) <==> (if x == index {
            !s.contains(x)
        } else {
            s.contains(x)
        }) by {
            if r.contains(x) {
                let k = choose|k: int| 0 <= k < t.len() && t[k] == x;
                let k0 = if k < at { k } else { k + 1 };
                assert(s[k0] == x);
                assert(x != index);
            }
            if s.contains(x) && x != index {
                let k = choose|k: int| 0 <= k < s.len() && s[k] == x;
                let k0 = if k < at { k } else { k - 1 };
                assert(t[k0] == x);
            }
        }
    } else {
        let t = s.push(index);
        assert(t.drop_last() =~= s);
        lemma_ordered_keeps(s);
        lemma_insert_ordered(s, index);
        lemma_insert_index(s, index);
    }
}

/// A second click on an option where several may be chosen undoes the first.
pub proof fn law_toggle_twice(block: QuestionModel, current: AnswerModel, index: usize)
    requires
        block.kind == QuestionKind::Multi,
        strictly_increasing(current.choices),
    ensures
        block.toggled(block.toggled(current, index), index) == current,
{
    let once = block.toggled(current, index);
    let twice = block.toggled(once, index);
    law_toggle_one(block, current, index);
    law_toggle_one(block, once, index);
    lemma_same_indices(twice.choices, current.choices);
}

} // verus!
