//! The level of a heading says nothing: a question asks the same under one hash
//! as under six.

use vstd::prelude::*;

use crate::questionnaire::document::{
    is_heading, lemma_next_heading, next_heading, question_at, sections_from,
    sections_of, sections_of_rows, source_lines, with_markdown, SectionModel,
};
use crate::questionnaire::grammar::{
    fence_opened, heading_title_of, is_inactive, region_after, without_comments,
    without_comments_from, Region,
};
use crate::questionnaire::laws::{
    lemma_question_untouched, lemma_same_headings, lemma_same_hidden, lemma_sections_untouched,
};
use crate::questionnaire::view::{has_no, lemma_line_of_row, lemma_lines_with_row, with_row};
use crate::text::{
    contains_part, find_from, lemma_find_from, lemma_run_end, lemma_run_end_is, lines_of, occurs_at,
    pieces_of, run_end, without_return, CharClass,
};

verus! {

/// Where the hashes that a line begins with begin: behind its spaces.
pub open spec fn hashes_start(line: Seq<char>) -> int {
    run_end(line, 0, CharClass::Exactly(' '))
}

/// Where the hashes that a line begins with end.
pub open spec fn hashes_end(line: Seq<char>) -> int {
    run_end(line, hashes_start(line), CharClass::Exactly('#'))
}

/// A line with a number of hashes in place of those that it begins with.
pub open spec fn with_level(line: Seq<char>, level: nat) -> Seq<char> {
    line.take(hashes_start(line)) + Seq::new(level, |i: int| '#') + line.skip(hashes_end(line))
}

/// Whether the heading at a row asks a question.
pub open spec fn asks_at(rows: Seq<Seq<char>>, row: int) -> bool {
    is_heading(rows, row) && question_at(rows, row, next_heading(rows, row + 1)) is Some
}

/// A line that begins with hashes begins with hashes at every other level, and
/// goes on in the same way.
proof fn lemma_with_level(line: Seq<char>, level: nat)
    requires
        hashes_start(line) < hashes_end(line),
        level > 0,
    ensures
        0 <= hashes_start(line) < hashes_end(line) <= line.len(),
        hashes_start(with_level(line, level)) == hashes_start(line),
        hashes_end(with_level(line, level)) == hashes_start(line) + level,
        with_level(line, level).skip(hashes_start(line) + level) == line.skip(hashes_end(line)),
        line[hashes_start(line)] == '#',
        with_level(line, level)[hashes_start(line)] == '#',
        forall|k: int| 0 <= k < hashes_end(line) ==> #[trigger] line[k] == ' ' || line[k] == '#',
        forall|k: int|
            0 <= k < hashes_start(line) + level ==> #[trigger] with_level(line, level)[k] == ' '
                || with_level(line, level)[k] == '#',
{
    lemma_run_end(line, 0, CharClass::Exactly(' '));
    let start = hashes_start(line);
    lemma_run_end(line, start, CharClass::Exactly('#'));
    let end = hashes_end(line);
    let other = with_level(line, level);
    assert(CharClass::Exactly('#').has(line[start]));
    assert forall|k: int| 0 <= k < start implies CharClass::Exactly(' ').has(
        #[trigger] other[k],
    ) by {
        assert(CharClass::Exactly(' ').has(line[k]));
        assert(other[k] == line[k]);
    }
    assert forall|k: int| start <= k < start + level implies CharClass::Exactly('#').has(
        #[trigger] other[k],
    ) by {
        assert(other[k] == '#');
    }
    lemma_run_end_is(other, 0, CharClass::Exactly(' '), start);
    if start + level < other.len() {
        assert(other[(start + level) as int] == line[end]);
    }
    lemma_run_end_is(other, start, CharClass::Exactly('#'), start + level);
    assert(other.skip(start + level) =~= line.skip(end));
    assert forall|k: int| 0 <= k < end implies #[trigger] line[k] == ' ' || line[k] == '#' by {
        if k < start {
            assert(CharClass::Exactly(' ').has(line[k]));
        } else {
            assert(CharClass::Exactly('#').has(line[k]));
        }
    }
    assert forall|k: int| 0 <= k < start + level implies #[trigger] other[k] == ' ' || other[k]
        == '#' by {
        if k < start {
            assert(CharClass::Exactly(' ').has(other[k]));
        } else {
            assert(CharClass::Exactly('#').has(other[k]));
        }
    }
}

/// A run in one text is the run in another that goes on in the same way.
proof fn lemma_same_run(a: Seq<char>, i: int, b: Seq<char>, j: int, class: CharClass)
    requires
        0 <= i <= a.len(),
        0 <= j <= b.len(),
        a.skip(i) == b.skip(j),
    ensures
        run_end(b, j, class) - j == run_end(a, i, class) - i,
{
    lemma_run_end(a, i, class);
    let end = run_end(a, i, class) - i + j;
    assert(a.skip(i).len() == a.len() - i);
    assert(b.skip(j).len() == b.len() - j);
    assert forall|k: int| j <= k < end implies class.has(#[trigger] b[k]) by {
        assert(b[k] == b.skip(j)[k - j]);
        assert(a[k - j + i] == a.skip(i)[k - j]);
    }
    if end < b.len() {
        assert(b[end] == b.skip(j)[end - j]);
        assert(a[end - j + i] == a.skip(i)[end - j]);
    }
    lemma_run_end_is(b, j, class, end);
}

/// The level of a heading is no part of its title.
proof fn lemma_same_title(line: Seq<char>, level: nat)
    requires
        heading_title_of(line) is Some,
        1 <= level <= 6,
    ensures
        hashes_start(line) < hashes_end(line),
        heading_title_of(with_level(line, level)) == heading_title_of(line),
{
    lemma_run_end(line, 0, CharClass::Exactly(' '));
    lemma_run_end(line, hashes_start(line), CharClass::Exactly('#'));
    lemma_with_level(line, level);
    let end = hashes_end(line);
    let other = with_level(line, level);
    let other_end = hashes_start(line) + level;
    lemma_same_run(line, end, other, other_end, CharClass::Blank);
    lemma_run_end(line, end, CharClass::Blank);
    let start = run_end(line, end, CharClass::Blank);
    let other_start = run_end(other, other_end, CharClass::Blank);
    assert(other.skip(other_start) =~= other.skip(other_end).skip(other_start - other_end));
    assert(line.skip(start) =~= line.skip(end).skip(start - end));
}

/// A part that begins with another character than those before stands in a text
/// where it stands in its rest.
proof fn lemma_occurs_behind(s: Seq<char>, from: int, at: int, part: Seq<char>)
    requires
        0 <= from <= s.len(),
        part.len() > 0,
        forall|k: int| 0 <= k < from ==> #[trigger] s[k] != part[0],
    ensures
        occurs_at(s, at, part) == (at >= from && occurs_at(s.skip(from), at - from, part)),
{
    if occurs_at(s, at, part) {
        assert(s.subrange(at, at + part.len())[0] == part[0]);
        assert(at >= from);
    }
    if at >= from && at + part.len() <= s.len() {
        assert(s.skip(from).subrange(at - from, at - from + part.len()) =~= s.subrange(
            at,
            at + part.len(),
        ));
    }
}

/// The first place of a part behind characters that it does not begin with.
proof fn lemma_find_behind(s: Seq<char>, from: int, part: Seq<char>)
    requires
        0 <= from <= s.len(),
        part.len() > 0,
        forall|k: int| 0 <= k < from ==> #[trigger] s[k] != part[0],
    ensures
        find_from(s, 0, part) == match find_from(s.skip(from), 0, part) {
            Some(at) => Some(at + from),
            None => None,
        },
{
    let rest = s.skip(from);
    lemma_find_from(s, 0, part);
    lemma_find_from(rest, 0, part);
    match find_from(rest, 0, part) {
        Some(at) => {
            lemma_occurs_behind(s, from, at + from, part);
            let found = find_from(s, 0, part)->0;
            lemma_occurs_behind(s, from, found, part);
            assert(occurs_at(s, at + from, part));
            assert(occurs_at(rest, found - from, part));
        },
        None => {
            if let Some(found) = find_from(s, 0, part) {
                lemma_occurs_behind(s, from, found, part);
                assert(occurs_at(rest, found - from, part));
            }
        },
    }
}

/// Where a part is found depends on what comes from there on alone.
proof fn lemma_find_shifted(s: Seq<char>, from: int, shift: int, part: Seq<char>)
    requires
        0 <= shift <= s.len(),
        0 <= from,
    ensures
        find_from(s, from + shift, part) == match find_from(s.skip(shift), from, part) {
            Some(at) => Some(at + shift),
            None => None,
        },
    decreases s.len() + 1 - from,
{
    let rest = s.skip(shift);
    if from + part.len() <= rest.len() {
        assert(rest.subrange(from, from + part.len()) =~= s.subrange(
            from + shift,
            from + shift + part.len(),
        ));
        if !occurs_at(rest, from, part) {
            lemma_find_shifted(s, from + 1, shift, part);
        }
    }
}

/// Which comments go depends on what comes from there on alone.
proof fn lemma_comments_shifted(line: Seq<char>, from: int, shift: int)
    requires
        0 <= shift <= line.len(),
        0 <= from <= line.len() - shift,
    ensures
        without_comments_from(line, from + shift) == without_comments_from(line.skip(shift), from),
    decreases line.len() - from,
{
    let rest = line.skip(shift);
    reveal_strlit("<!--");
    reveal_strlit("-->");
    lemma_find_shifted(line, from, shift, "<!--"@);
    lemma_find_from(rest, from, "<!--"@);
    assert(line.skip(from + shift) =~= rest.skip(from));
    if let Some(open) = find_from(rest, from, "<!--"@) {
        lemma_find_shifted(line, open + 4, shift, "-->"@);
        lemma_find_from(rest, open + 4, "-->"@);
        assert(line.subrange(from + shift, open + shift) =~= rest.subrange(from, open));
        if let Some(close) = find_from(rest, open + 4, "-->"@) {
            lemma_comments_shifted(line, close + 3, shift);
        }
    }
}

/// What stands before the first `<` stays, and the rest loses its comments.
proof fn lemma_comments_behind(line: Seq<char>, from: int)
    requires
        0 <= from <= line.len(),
        forall|k: int| 0 <= k < from ==> #[trigger] line[k] != '<',
    ensures
        without_comments(line) == line.take(from) + without_comments(line.skip(from)),
{
    let rest = line.skip(from);
    reveal_strlit("<!--");
    reveal_strlit("-->");
    lemma_find_behind(line, from, "<!--"@);
    lemma_find_from(rest, 0, "<!--"@);
    assert(rest.skip(0) =~= rest);
    assert(line.skip(0) =~= line.take(from) + rest);
    if let Some(open) = find_from(rest, 0, "<!--"@) {
        lemma_find_shifted(line, open + 4, from, "-->"@);
        lemma_find_from(rest, open + 4, "-->"@);
        assert(line.subrange(0, open + from) =~= line.take(from) + rest.subrange(0, open));
        if let Some(close) = find_from(rest, open + 4, "-->"@) {
            lemma_comments_shifted(line, close + 3, from);
            assert(without_comments(line) =~= line.take(from) + without_comments(rest));
        }
    }
}

/// A heading that opens neither a fence nor a comment opens none at another
/// level.
proof fn lemma_same_region(line: Seq<char>, level: nat)
    requires
        heading_title_of(line) is Some,
        region_after(Region::Open, line) == Region::Open,
        1 <= level <= 6,
    ensures
        region_after(Region::Open, with_level(line, level)) == Region::Open,
{
    lemma_same_title(line, level);
    lemma_with_level(line, level);
    let other = with_level(line, level);
    reveal_strlit("<!--");
    assert(fence_opened(other) is None);
    assert("<!--"@[0] == '<');
    lemma_find_behind(line, hashes_end(line), "<!--"@);
    lemma_find_behind(other, hashes_start(line) + level, "<!--"@);
    assert(!contains_part(line, "<!--"@));
}

/// The heading of a question keeps its question when its line is exchanged for a
/// heading with the same title.
proof fn lemma_question_kept(rows: Seq<Seq<char>>, at: int, line: Seq<char>)
    requires
        0 <= at < rows.len(),
        !is_inactive(rows, at),
        heading_title_of(line) == heading_title_of(rows[at]),
        region_after(Region::Open, line) == Region::Open,
    ensures
        question_at(rows.update(at, line), at, next_heading(rows, at + 1)) == question_at(
            rows,
            at,
            next_heading(rows, at + 1),
        ),
{
    lemma_next_heading(rows, at + 1);
    let end = next_heading(rows, at + 1);
    lemma_same_hidden(rows, at, line);
    assert(rows.update(at, line).subrange(at + 1, end) =~= rows.subrange(at + 1, end));
}

proof fn lemma_sections_kept(
    rows: Seq<Seq<char>>,
    row: int,
    sections: Seq<SectionModel>,
    at: int,
    line: Seq<char>,
)
    requires
        0 <= row <= at < rows.len(),
        asks_at(rows, at),
        heading_title_of(line) == heading_title_of(rows[at]),
        region_after(Region::Open, line) == Region::Open,
    ensures
        sections_from(rows.update(at, line), row, sections) == sections_from(rows, row, sections),
    decreases rows.len() - row,
{
    lemma_next_heading(rows, row + 1);
    lemma_same_headings(rows, at, line, row + 1);
    let end = next_heading(rows, row + 1);
    if row == at {
        lemma_question_kept(rows, at, line);
        let more = sections.push(SectionModel::Question(question_at(rows, row, end)->0));
        lemma_sections_untouched(rows, end, more, at, line);
    } else {
        assert(is_heading(rows, at));
        assert(end <= at);
        lemma_question_untouched(rows, row, end, at, line);
        let more = match question_at(rows, row, end) {
            Some(question) => sections.push(SectionModel::Question(question)),
            None => with_markdown(sections, rows.subrange(row, end)),
        };
        lemma_sections_kept(rows, end, more, at, line);
    }
}

/// Rows read again after the heading of a question got another level: every
/// section is as it was.
pub proof fn law_rows_heading_level_is_no_signal(rows: Seq<Seq<char>>, row: int, level: nat)
    requires
        0 <= row < rows.len(),
        asks_at(rows, row),
        1 <= level <= 6,
    ensures
        sections_of_rows(rows.update(row, with_level(rows[row], level))) == sections_of_rows(rows),
{
    let line = with_level(rows[row], level);
    lemma_same_title(rows[row], level);
    lemma_same_region(rows[row], level);
    lemma_next_heading(rows, 0);
    lemma_same_headings(rows, row, line, 0);
    let first = next_heading(rows, 0);
    assert(is_heading(rows, row));
    assert(first <= row);
    assert(rows.update(row, line).take(first) =~= rows.take(first));
    lemma_sections_kept(rows, first, with_markdown(seq![], rows.take(first)), row, line);
}

/// How many hashes of a heading come behind its first comments.
pub open spec fn hashes_behind(line: Seq<char>) -> int {
    hashes_end(without_comments(line)) - hashes_end(line)
}

/// Whether a line begins, behind its spaces, with hashes, or with a comment that
/// hashes follow.
pub open spec fn opens_with_hashes(line: Seq<char>) -> bool {
    hashes_start(line) < hashes_end(line) || hashes_start(without_comments(line)) == hashes_start(
        line,
    )
}

proof fn lemma_hashes(line: Seq<char>)
    ensures
        0 <= hashes_start(line) <= hashes_end(line) <= line.len(),
        forall|k: int| 0 <= k < hashes_start(line) ==> #[trigger] line[k] == ' ',
        forall|k: int| hashes_start(line) <= k < hashes_end(line) ==> #[trigger] line[k] == '#',
        hashes_end(line) < line.len() ==> line[hashes_end(line)] != '#',
        hashes_start(line) < line.len() ==> line[hashes_start(line)] != ' ',
{
    lemma_run_end(line, 0, CharClass::Exactly(' '));
    let start = hashes_start(line);
    lemma_run_end(line, start, CharClass::Exactly('#'));
    assert forall|k: int| 0 <= k < start implies #[trigger] line[k] == ' ' by {
        assert(CharClass::Exactly(' ').has(line[k]));
    }
    assert forall|k: int| start <= k < hashes_end(line) implies #[trigger] line[k] == '#' by {
        assert(CharClass::Exactly('#').has(line[k]));
    }
}

/// Where the hashes of a line stand is known by what stands around them.
proof fn lemma_hashes_are(line: Seq<char>, start: int, end: int)
    requires
        0 <= start <= end <= line.len(),
        forall|k: int| 0 <= k < start ==> #[trigger] line[k] == ' ',
        forall|k: int| start <= k < end ==> #[trigger] line[k] == '#',
        start < line.len() ==> line[start] != ' ',
        end < line.len() ==> line[end] != '#',
    ensures
        hashes_start(line) == start,
        hashes_end(line) == end,
{
    assert forall|k: int| 0 <= k < start implies CharClass::Exactly(' ').has(#[trigger] line[k]) by {
        assert(line[k] == ' ');
    }
    assert forall|k: int| start <= k < end implies CharClass::Exactly('#').has(
        #[trigger] line[k],
    ) by {
        assert(line[k] == '#');
    }
    lemma_run_end_is(line, 0, CharClass::Exactly(' '), start);
    lemma_run_end_is(line, start, CharClass::Exactly('#'), end);
}

/// The hashes that a line begins with are the first of those that it begins with
/// once its comments are gone.
proof fn lemma_hashes_of_source(line: Seq<char>)
    requires
        hashes_start(without_comments(line)) < hashes_end(without_comments(line)),
        opens_with_hashes(line),
    ensures
        hashes_start(without_comments(line)) == hashes_start(line),
        hashes_behind(line) >= 0,
        without_comments(line) == line.take(hashes_end(line)) + without_comments(
            line.skip(hashes_end(line)),
        ),
{
    let source = without_comments(line);
    let start = hashes_start(line);
    let end = hashes_end(line);
    lemma_hashes(line);
    lemma_hashes(source);
    lemma_comments_behind(line, end);
    assert(source.take(end) =~= line.take(end));
    assert forall|k: int| 0 <= k < end implies #[trigger] source[k] == line[k] by {
        assert(source[k] == source.take(end)[k]);
    }
    if start < end {
        assert(line[start] == '#');
        assert(source[start] == line[start]);
        if hashes_start(source) < start {
            assert(source[hashes_start(source)] == line[hashes_start(source)]);
        }
        assert(hashes_start(source) == start);
        if hashes_end(source) < end {
            assert(source[hashes_end(source)] == line[hashes_end(source)]);
        }
    }
}

/// A line gets another level whether its comments are left out before or after.
proof fn lemma_level_of_source(line: Seq<char>, level: nat)
    requires
        hashes_start(without_comments(line)) < hashes_end(without_comments(line)),
        opens_with_hashes(line),
    ensures
        without_comments(with_level(line, level)) == with_level(
            without_comments(line),
            (level + hashes_behind(line)) as nat,
        ),
{
    let source = without_comments(line);
    let start = hashes_start(line);
    let end = hashes_end(line);
    let behind = hashes_behind(line);
    let other = with_level(line, level);
    let hashes = Seq::new(level, |i: int| '#');
    lemma_hashes(line);
    lemma_hashes(source);
    lemma_hashes_of_source(line);
    let rest = without_comments(line.skip(end));
    assert(other.take(start + level) =~= line.take(start) + hashes);
    assert(other.skip(start + level) =~= line.skip(end));
    assert forall|k: int| 0 <= k < start + level implies #[trigger] other[k] != '<' by {
        assert(other[k] == other.take(start + level)[k]);
        if k < start {
            assert(line[k] == ' ');
        }
    }
    lemma_comments_behind(other, start + level);
    assert(source.take(start) =~= line.take(start));
    assert(source.skip(hashes_end(source)) =~= rest.skip(behind));
    assert forall|k: int| 0 <= k < behind implies #[trigger] rest[k] == '#' by {
        assert(rest[k] == source[end + k]);
    }
    assert(hashes + rest =~= Seq::new((level + behind) as nat, |i: int| '#') + rest.skip(behind));
    assert(without_comments(other) =~= with_level(source, (level + behind) as nat));
}

/// A line gets another level whether a carriage return at its end is left out
/// before or after.
proof fn lemma_level_of_line(row: Seq<char>, level: nat)
    ensures
        hashes_start(row) == hashes_start(without_return(row)),
        hashes_end(row) == hashes_end(without_return(row)),
        without_return(with_level(row, level)) == with_level(without_return(row), level),
{
    let line = without_return(row);
    let start = hashes_start(line);
    let end = hashes_end(line);
    lemma_hashes(line);
    assert forall|k: int| 0 <= k < line.len() implies #[trigger] row[k] == line[k] by {}
    if line != row {
        assert(row[line.len() as int] == '\r');
    }
    lemma_hashes_are(row, start, end);
    let other = with_level(row, level);
    if line != row {
        assert(other.last() == '\r');
    } else if other.len() > 0 {
        if row.len() > end {
            assert(other.last() == row.last());
        } else if level > 0 {
            assert(other.last() == '#');
        } else {
            assert(other.last() == row[start - 1]);
        }
    }
    assert(without_return(other) =~= with_level(line, level));
}

/// The line that a row of a text is once it was written.
pub open spec fn line_written(text: Seq<char>, row: int, written: Seq<char>) -> Seq<char> {
    if row + 1 < pieces_of(text, '\n').len() {
        without_return(written)
    } else {
        written
    }
}

/// The level of a heading is no signal: a file read again after the row of a
/// question's heading was written anew has every section as it was, where the new
/// row is, but for comments, the same heading with one to six hashes.
pub proof fn law_heading_written_at_any_level(
    text: Seq<char>,
    row: int,
    written: Seq<char>,
    level: nat,
)
    requires
        0 <= row < source_lines(text).len(),
        asks_at(source_lines(text), row),
        1 <= level <= 6,
        has_no(written, '\n'),
        without_comments(line_written(text, row, written)) == with_level(
            source_lines(text)[row],
            level,
        ),
    ensures
        row < pieces_of(text, '\n').len(),
        sections_of(with_row(text, row, written)) == sections_of(text),
{
    let source = source_lines(text)[row];
    lemma_hashes(source);
    lemma_line_of_row(text, row);
    assert(written.len() > 0) by {
        if written.len() == 0 {
            let line = line_written(text, row, written);
            reveal_strlit("<!--");
            lemma_find_from(line, 0, "<!--"@);
            assert(without_comments(line) =~= line);
        }
    }
    lemma_lines_with_row(text, row, written);
    assert(source_lines(with_row(text, row, written)) =~= source_lines(text).update(
        row,
        with_level(source, level),
    ));
    law_rows_heading_level_is_no_signal(source_lines(text), row, level);
}

/// The level of a heading is no signal: a file read again after the hashes that
/// the row of a question's heading begins with were exchanged for others has every
/// section as it was, where those and the hashes behind a comment are one to six.
pub proof fn law_heading_level_is_no_signal(text: Seq<char>, row: int, level: nat)
    requires
        0 <= row < source_lines(text).len(),
        asks_at(source_lines(text), row),
        opens_with_hashes(lines_of(text)[row]),
        1 <= level + hashes_behind(lines_of(text)[row]) <= 6,
    ensures
        row < pieces_of(text, '\n').len(),
        sections_of(with_row(text, row, with_level(pieces_of(text, '\n')[row], level)))
            == sections_of(text),
{
    let line = lines_of(text)[row];
    let source = source_lines(text)[row];
    let whole = (level + hashes_behind(line)) as nat;
    lemma_same_title(source, whole);
    lemma_level_of_source(line, level);
    lemma_line_of_row(text, row);
    let piece = pieces_of(text, '\n')[row];
    let written = with_level(piece, level);
    if row + 1 < pieces_of(text, '\n').len() {
        lemma_level_of_line(piece, level);
    }
    lemma_hashes(piece);
    assert(has_no(written, '\n')) by {
        assert(has_no(piece, '\n'));
        assert forall|k: int| 0 <= k < written.len() implies #[trigger] written[k] != '\n' by {
            if k < hashes_start(piece) {
                assert(written[k] == piece[k]);
            } else if k >= hashes_start(piece) + level {
                assert(written[k] == piece[k - hashes_start(piece) - level + hashes_end(piece)]);
            }
        }
    }
    law_heading_written_at_any_level(text, row, written, whole);
}

} // verus!
