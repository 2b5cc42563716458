//! Which rows of the files of a group are shown.

use vstd::prelude::*;

use crate::order::{
    comes_before, is_order, key_views, law_order_exists, less_from, order_of, sorted_by_keys,
};
use crate::text::same_text;

verus! {

/// How many lines around a hunk are shown unless a reading plan narrows it.
pub const READING_CONTEXT_LINES: u32 = 3;

/// Lines of the new side of a file.
#[derive(Debug, PartialEq, Eq)]
pub struct ReviewHunk {
    pub path: String,
    pub new_start: u32,
    pub new_lines: u32,
}

/// What a reading plan says of a hunk.
#[derive(Debug)]
pub struct OverrideHunk {
    pub path: String,
    pub new_start: u32,
    pub new_lines: u32,
    pub hide: bool,
    pub show: Vec<ShowBlock>,
}

/// Lines that are shown, and those among them that are not. Line numbers are
/// absolute, count from one on the new side, and include both ends.
#[derive(Debug)]
pub struct ShowBlock {
    pub lines: [u32; 2],
    pub omit: Vec<[u32; 2]>,
}

/// Rows of a file, which count from zero.
#[derive(Clone, Copy, Debug, PartialEq, Eq, Structural)]
pub struct RowRange {
    pub start: u32,
    pub end: u32,
}

/// The rows of each file, in the order in which the files first appear.
pub type PathRanges = Vec<(String, Vec<RowRange>)>;

/// What [`PathRanges`] stand for.
pub open spec fn range_models(ranges: Seq<(String, Vec<RowRange>)>) -> Seq<
    (Seq<char>, Seq<RowRange>),
> {
    Seq::new(ranges.len(), |i: int| (ranges[i].0@, ranges[i].1@))
}

/// The first place from `from` on where a file stands.
pub open spec fn path_from(
    ranges: Seq<(Seq<char>, Seq<RowRange>)>,
    from: int,
    path: Seq<char>,
) -> Option<int>
    decreases ranges.len() - from,
{
    if from < 0 || from >= ranges.len() {
        None
    } else if ranges[from].0 == path {
        Some(from)
    } else {
        path_from(ranges, from + 1, path)
    }
}

/// The rows with one more range of a file.
pub open spec fn pushed(
    ranges: Seq<(Seq<char>, Seq<RowRange>)>,
    path: Seq<char>,
    range: RowRange,
) -> Seq<(Seq<char>, Seq<RowRange>)> {
    match path_from(ranges, 0, path) {
        Some(index) => ranges.update(index, (ranges[index].0, ranges[index].1.push(range))),
        None => ranges.push((path, seq![range])),
    }
}

pub fn push_range(path_to_ranges: &mut PathRanges, path: &str, range: RowRange)
    ensures
        range_models(final(path_to_ranges)@) == pushed(
            range_models(old(path_to_ranges)@),
            path@,
            range,
        ),
{
    let ghost before = range_models(path_to_ranges@);
    let mut i: usize = 0;
    while i < path_to_ranges.len()
        invariant
            *path_to_ranges == *old(path_to_ranges),
            before == range_models(path_to_ranges@),
            i <= path_to_ranges@.len(),
            path_from(before, 0, path@) == path_from(before, i as int, path@),
        decreases path_to_ranges@.len() - i,
    {
        assert(before[i as int].0 == path_to_ranges@[i as int].0@);
        if same_text(path_to_ranges[i].0.as_str(), path) {
            path_to_ranges[i].1.push(range);
            assert(range_models(path_to_ranges@) =~= pushed(before, path@, range));
            return;
        }
        i += 1;
    }
    let mut ranges: Vec<RowRange> = Vec::new();
    ranges.push(range);
    assert(ranges@ =~= seq![range]);
    path_to_ranges.push((path.to_string(), ranges));
    assert(range_models(path_to_ranges@) =~= pushed(before, path@, range));
}

pub open spec fn lesser(a: u32, b: u32) -> u32 {
    if a < b {
        a
    } else {
        b
    }
}

pub open spec fn greater(a: u32, b: u32) -> u32 {
    if a < b {
        b
    } else {
        a
    }
}

/// The sum of two numbers, or the greatest number.
pub open spec fn sum_up_to_max(a: u32, b: u32) -> u32 {
    if a + b <= u32::MAX {
        (a + b) as u32
    } else {
        u32::MAX
    }
}

/// The difference of two numbers, or zero.
pub open spec fn difference_from_zero(a: u32, b: u32) -> u32 {
    if a >= b {
        (a - b) as u32
    } else {
        0
    }
}

fn least(a: u32, b: u32) -> (c: u32)
    ensures
        c == lesser(a, b),
{
    if a < b {
        a
    } else {
        b
    }
}

fn greatest(a: u32, b: u32) -> (c: u32)
    ensures
        c == greater(a, b),
{
    if a < b {
        b
    } else {
        a
    }
}

/// The rows of a hunk.
pub open spec fn hunk_rows(hunk: ReviewHunk) -> RowRange {
    let start = difference_from_zero(hunk.new_start, 1);
    RowRange { start, end: sum_up_to_max(start, hunk.new_lines) }
}

/// The rows of the first `n` hunks.
pub open spec fn raw_before(hunks: Seq<ReviewHunk>, n: int) -> Seq<(Seq<char>, Seq<RowRange>)>
    decreases n,
{
    if n <= 0 {
        seq![]
    } else {
        pushed(raw_before(hunks, n - 1), hunks[n - 1].path@, hunk_rows(hunks[n - 1]))
    }
}

/// The rows of hunks as they are.
pub fn raw_ranges(hunks: &[ReviewHunk]) -> (ranges: PathRanges)
    ensures
        range_models(ranges@) == raw_before(hunks@, hunks@.len() as int),
{
    let mut path_to_ranges: PathRanges = Vec::new();
    assert(range_models(path_to_ranges@) =~= seq![]);
    let mut i: usize = 0;
    let length = hunks.len();
    while i < length
        invariant
            length == hunks@.len(),
            i <= length,
            range_models(path_to_ranges@) == raw_before(hunks@, i as int),
        decreases length - i,
    {
        let hunk = &hunks[i];
        let start = hunk.new_start.saturating_sub(1);
        let end = start.saturating_add(hunk.new_lines);
        push_range(&mut path_to_ranges, hunk.path.as_str(), RowRange { start, end });
        i += 1;
    }
    path_to_ranges
}

/// The rows of lines from the first to the last.
pub open spec fn line_rows(first_line: u32, last_line: u32) -> Option<RowRange> {
    if first_line == 0 || last_line < first_line {
        None
    } else {
        Some(RowRange { start: (first_line - 1) as u32, end: (last_line - 1) as u32 })
    }
}

pub fn line_span(first_line: u32, last_line: u32) -> (range: Option<RowRange>)
    ensures
        range == line_rows(first_line, last_line),
{
    if first_line == 0 || last_line < first_line {
        return None;
    }
    Some(RowRange { start: first_line - 1, end: last_line - 1 })
}

/// A range, or none, as a list.
pub open spec fn at_most_one(range: Option<RowRange>) -> Seq<RowRange> {
    match range {
        Some(range) => seq![range],
        None => seq![],
    }
}

/// The rows with more ranges of a file.
pub open spec fn all_pushed(
    ranges: Seq<(Seq<char>, Seq<RowRange>)>,
    path: Seq<char>,
    more: Seq<RowRange>,
) -> Seq<(Seq<char>, Seq<RowRange>)>
    decreases more.len(),
{
    if more.len() == 0 {
        ranges
    } else {
        all_pushed(pushed(ranges, path, more[0]), path, more.skip(1))
    }
}

proof fn lemma_pushed_in_turn(
    ranges: Seq<(Seq<char>, Seq<RowRange>)>,
    path: Seq<char>,
    a: Seq<RowRange>,
    b: Seq<RowRange>,
)
    ensures
        all_pushed(ranges, path, a + b) == all_pushed(all_pushed(ranges, path, a), path, b),
    decreases a.len(),
{
    if a.len() == 0 {
        assert(a + b =~= b);
    } else {
        assert((a + b).skip(1) =~= a.skip(1) + b);
        lemma_pushed_in_turn(pushed(ranges, path, a[0]), path, a.skip(1), b);
    }
}

/// The first lines of what is left out.
pub open spec fn omit_keys(omits: Seq<[u32; 2]>) -> Seq<Seq<u32>> {
    Seq::new(omits.len(), |i: int| seq![omits[i]@[0]])
}

/// What is left out, sorted by the first lines.
pub open spec fn sorted_omits(omits: Seq<[u32; 2]>) -> Seq<[u32; 2]> {
    Seq::new(omits.len(), |i: int| omits[order_of(omit_keys(omits))[i] as int])
}

/// The rows of the lines from `cursor` to `last` that are shown, where what is
/// left out from index `from` on is still to be taken off.
pub open spec fn shown_from(omits: Seq<[u32; 2]>, from: int, cursor: u32, last: u32) -> Seq<
    RowRange,
>
    decreases omits.len() - from,
{
    if from < 0 || from >= omits.len() {
        at_most_one(line_rows(cursor, last))
    } else {
        let omit_first = omits[from]@[0];
        let omit_last = omits[from]@[1];
        let before = if omit_first > cursor {
            at_most_one(line_rows(cursor, lesser(difference_from_zero(omit_first, 1), last)))
        } else {
            seq![]
        };
        before + shown_from(
            omits,
            from + 1,
            greater(cursor, sum_up_to_max(omit_last, 1)),
            last,
        )
    }
}

/// The rows that a block shows.
pub open spec fn block_rows(block: ShowBlock) -> Seq<RowRange> {
    shown_from(sorted_omits(block.omit@), 0, block.lines@[0], block.lines@[1])
}

/// The rows that the blocks from `from` on show.
pub open spec fn blocks_rows(blocks: Seq<ShowBlock>, from: int) -> Seq<RowRange>
    decreases blocks.len() - from,
{
    if from < 0 || from >= blocks.len() {
        seq![]
    } else {
        block_rows(blocks[from]) + blocks_rows(blocks, from + 1)
    }
}

/// Whether what a reading plan says is about a hunk.
pub open spec fn is_about(entry: OverrideHunk, hunk: ReviewHunk) -> bool {
    &&& entry.path@ == hunk.path@
    &&& entry.new_start == hunk.new_start
    &&& entry.new_lines == hunk.new_lines
}

/// The first from `from` on that a reading plan says about a hunk.
pub open spec fn policy_from(overrides: Seq<OverrideHunk>, from: int, hunk: ReviewHunk) -> Option<
    OverrideHunk,
>
    decreases overrides.len() - from,
{
    if from < 0 || from >= overrides.len() {
        None
    } else if is_about(overrides[from], hunk) {
        Some(overrides[from])
    } else {
        policy_from(overrides, from + 1, hunk)
    }
}

/// The rows of a hunk with lines around it.
pub open spec fn window_rows(hunk: ReviewHunk) -> Seq<RowRange> {
    at_most_one(
        line_rows(
            greater(difference_from_zero(hunk.new_start, READING_CONTEXT_LINES), 1),
            sum_up_to_max(sum_up_to_max(hunk.new_start, hunk.new_lines), READING_CONTEXT_LINES),
        ),
    )
}

/// The rows that a reading plan shows of a hunk: none where it is hidden, the
/// blocks where it names any, and the hunk with lines around it otherwise.
pub open spec fn reading_rows(hunk: ReviewHunk, overrides: Seq<OverrideHunk>) -> Seq<RowRange> {
    match policy_from(overrides, 0, hunk) {
        Some(entry) => if entry.hide {
            seq![]
        } else if entry.show@.len() > 0 {
            blocks_rows(entry.show@, 0)
        } else {
            window_rows(hunk)
        },
        None => window_rows(hunk),
    }
}

/// The rows that a reading plan shows of the first `n` hunks.
pub open spec fn reading_before(
    hunks: Seq<ReviewHunk>,
    overrides: Seq<OverrideHunk>,
    n: int,
) -> Seq<(Seq<char>, Seq<RowRange>)>
    decreases n,
{
    if n <= 0 {
        seq![]
    } else {
        all_pushed(
            reading_before(hunks, overrides, n - 1),
            hunks[n - 1].path@,
            reading_rows(hunks[n - 1], overrides),
        )
    }
}

/// Adds a range, where there is one.
fn push_some(path_to_ranges: &mut PathRanges, path: &str, range: Option<RowRange>)
    ensures
        range_models(final(path_to_ranges)@) == all_pushed(
            range_models(old(path_to_ranges)@),
            path@,
            at_most_one(range),
        ),
{
    reveal_with_fuel(all_pushed, 2);
    if let Some(range) = range {
        push_range(path_to_ranges, path, range);
    }
}

/// The order of what is left out.
fn omit_order(omits: &Vec<[u32; 2]>) -> (order: Vec<usize>)
    ensures
        order@ == order_of(omit_keys(omits@)),
        is_order(omit_keys(omits@), order@),
{
    let mut keys: Vec<Vec<u32>> = Vec::new();
    let mut i: usize = 0;
    while i < omits.len()
        invariant
            i <= omits@.len(),
            key_views(keys@) =~= omit_keys(omits@).take(i as int),
        decreases omits@.len() - i,
    {
        let ghost before = key_views(keys@);
        let key: Vec<u32> = vec![omits[i][0]];
        assert(key@ =~= seq![omits@[i as int]@[0]]);
        let ghost view = key@;
        keys.push(key);
        assert(key_views(keys@) =~= before.push(view));
        i += 1;
    }
    assert(key_views(keys@) =~= omit_keys(omits@));
    sorted_by_keys(&keys)
}

/// Adds the rows that a block shows.
fn push_block(path_to_ranges: &mut PathRanges, path: &str, block: &ShowBlock)
    ensures
        range_models(final(path_to_ranges)@) == all_pushed(
            range_models(old(path_to_ranges)@),
            path@,
            block_rows(*block),
        ),
{
    let ghost goal = all_pushed(range_models(path_to_ranges@), path@, block_rows(*block));
    let last = block.lines[1];
    let order = omit_order(&block.omit);
    let ghost omits = sorted_omits(block.omit@);
    let mut cursor: u32 = block.lines[0];
    let mut i: usize = 0;
    while i < order.len()
        invariant
            i <= order@.len(),
            order@.len() == block.omit@.len(),
            is_order(omit_keys(block.omit@), order@),
            order@ == order_of(omit_keys(block.omit@)),
            omits == sorted_omits(block.omit@),
            goal == all_pushed(
                range_models(path_to_ranges@),
                path@,
                shown_from(omits, i as int, cursor, last),
            ),
        decreases order@.len() - i,
    {
        let ghost before = range_models(path_to_ranges@);
        let omit_first = block.omit[order[i]][0];
        let omit_last = block.omit[order[i]][1];
        assert(omits[i as int] == block.omit@[order@[i as int] as int]);
        let visible: Option<RowRange> = if omit_first > cursor {
            line_span(cursor, least(omit_first.saturating_sub(1), last))
        } else {
            None
        };
        push_some(path_to_ranges, path, visible);
        let next = greatest(cursor, omit_last.saturating_add(1));
        proof {
            lemma_pushed_in_turn(
                before,
                path@,
                at_most_one(visible),
                shown_from(omits, i + 1, next, last),
            );
        }
        cursor = next;
        i += 1;
    }
    push_some(path_to_ranges, path, line_span(cursor, last));
}

/// The first thing that a reading plan says about a hunk.
fn policy<'a>(overrides: &'a [OverrideHunk], hunk: &ReviewHunk) -> (entry: Option<&'a OverrideHunk>)
    ensures
        match entry {
            Some(entry) => policy_from(overrides@, 0, *hunk) == Some(*entry),
            None => policy_from(overrides@, 0, *hunk) is None,
        },
{
    let length = overrides.len();
    let mut i: usize = 0;
    while i < length
        invariant
            length == overrides@.len(),
            i <= length,
            policy_from(overrides@, 0, *hunk) == policy_from(overrides@, i as int, *hunk),
        decreases length - i,
    {
        let entry = &overrides[i];
        if same_text(entry.path.as_str(), hunk.path.as_str()) && entry.new_start == hunk.new_start
            && entry.new_lines == hunk.new_lines {
            return Some(entry);
        }
        i += 1;
    }
    None
}

/// The rows that a reading plan shows. They are to be shown without lines around
/// them, which would close the gaps that are left out.
pub fn reading_ranges(hunks: &[ReviewHunk], overrides: &[OverrideHunk]) -> (ranges: PathRanges)
    ensures
        range_models(ranges@) == reading_before(hunks@, overrides@, hunks@.len() as int),
{
    let mut path_to_ranges: PathRanges = Vec::new();
    assert(range_models(path_to_ranges@) =~= seq![]);
    let length = hunks.len();
    let mut i: usize = 0;
    while i < length
        invariant
            length == hunks@.len(),
            i <= length,
            range_models(path_to_ranges@) == reading_before(hunks@, overrides@, i as int),
        decreases length - i,
    {
        let hunk = &hunks[i];
        let ghost goal = reading_before(hunks@, overrides@, i + 1);
        let mut windowed = true;
        if let Some(entry) = policy(overrides, hunk) {
            if entry.hide {
                windowed = false;
            } else if entry.show.len() > 0 {
                windowed = false;
                let mut k: usize = 0;
                while k < entry.show.len()
                    invariant
                        k <= entry.show@.len(),
                        goal == all_pushed(
                            range_models(path_to_ranges@),
                            hunk.path@,
                            blocks_rows(entry.show@, k as int),
                        ),
                    decreases entry.show@.len() - k,
                {
                    let ghost before = range_models(path_to_ranges@);
                    push_block(&mut path_to_ranges, hunk.path.as_str(), &entry.show[k]);
                    proof {
                        lemma_pushed_in_turn(
                            before,
                            hunk.path@,
                            block_rows(entry.show@[k as int]),
                            blocks_rows(entry.show@, k + 1),
                        );
                    }
                    k += 1;
                }
            }
        }
        if windowed {
            let first = greatest(hunk.new_start.saturating_sub(READING_CONTEXT_LINES), 1);
            let last = hunk.new_start.saturating_add(hunk.new_lines).saturating_add(
                READING_CONTEXT_LINES,
            );
            push_some(&mut path_to_ranges, hunk.path.as_str(), line_span(first, last));
        }
        i += 1;
    }
    path_to_ranges
}

/// Whether rows hold a line.
pub open spec fn shows_line(rows: Seq<RowRange>, line: u32) -> bool {
    exists|i: int| 0 <= i < rows.len() && holds_line(#[trigger] rows[i], line)
}

pub open spec fn holds_line(range: RowRange, line: u32) -> bool {
    range.start + 1 <= line <= range.end + 1
}

/// Whether a line is left out by one of those from `from` on.
pub open spec fn omits_line(omits: Seq<[u32; 2]>, from: int, line: u32) -> bool {
    exists|i: int| from <= i < omits.len() && leaves_out(#[trigger] omits[i], line)
}

pub open spec fn leaves_out(omit: [u32; 2], line: u32) -> bool {
    omit@[0] <= line <= omit@[1]
}

proof fn lemma_shows_either(a: Seq<RowRange>, b: Seq<RowRange>, line: u32)
    ensures
        shows_line(a + b, line) == (shows_line(a, line) || shows_line(b, line)),
{
    if shows_line(a, line) {
        let i = choose|i: int| 0 <= i < a.len() && holds_line(#[trigger] a[i], line);
        assert((a + b)[i] == a[i]);
    }
    if shows_line(b, line) {
        let i = choose|i: int| 0 <= i < b.len() && holds_line(#[trigger] b[i], line);
        assert((a + b)[a.len() + i] == b[i]);
    }
    if shows_line(a + b, line) {
        let i = choose|i: int| 0 <= i < (a + b).len() && holds_line(#[trigger] (a + b)[i], line);
        if i < a.len() {
            assert(holds_line(a[i], line));
        } else {
            assert(holds_line(b[i - a.len()], line));
        }
    }
}

proof fn lemma_shows_one(range: Option<RowRange>, line: u32)
    ensures
        shows_line(at_most_one(range), line) == (range is Some && holds_line(range->0, line)),
{
    if let Some(range) = range {
        if holds_line(range, line) {
            assert(holds_line(at_most_one(Some(range))[0], line));
        }
    }
}

proof fn lemma_shown_from(omits: Seq<[u32; 2]>, from: int, cursor: u32, last: u32, line: u32)
    requires
        0 <= from <= omits.len(),
        forall|i: int, j: int|
            0 <= i <= j < omits.len() ==> (#[trigger] omits[i])@[0] <= (#[trigger] omits[j])@[0],
        cursor > 0,
        line < u32::MAX,
    ensures
        shows_line(shown_from(omits, from, cursor, last), line) == (cursor <= line <= last
            && !omits_line(omits, from, line)),
    decreases omits.len() - from,
{
    if from == omits.len() {
        lemma_shows_one(line_rows(cursor, last), line);
    } else {
        let omit_first = omits[from]@[0];
        let omit_last = omits[from]@[1];
        let visible = if omit_first > cursor {
            line_rows(cursor, lesser(difference_from_zero(omit_first, 1), last))
        } else {
            None
        };
        let next = greater(cursor, sum_up_to_max(omit_last, 1));
        let rest = shown_from(omits, from + 1, next, last);
        lemma_shown_from(omits, from + 1, next, last, line);
        lemma_shows_one(visible, line);
        lemma_shows_either(at_most_one(visible), rest, line);
        assert(omits_line(omits, from, line) == (leaves_out(omits[from], line) || omits_line(
            omits,
            from + 1,
            line,
        )));
        if omits_line(omits, from + 1, line) {
            let i = choose|i: int|
                from + 1 <= i < omits.len() && leaves_out(#[trigger] omits[i], line);
            assert(omits[from]@[0] <= omits[i]@[0]);
        }
    }
}

/// A block shows exactly those of its lines that it does not leave out.
pub proof fn law_block_shows_what_is_not_left_out(block: ShowBlock, line: u32)
    requires
        block.lines@[0] > 0,
        line < u32::MAX,
    ensures
        shows_line(block_rows(block), line) == (block.lines@[0] <= line <= block.lines@[1]
            && !omits_line(block.omit@, 0, line)),
{
    let keys = omit_keys(block.omit@);
    let omits = sorted_omits(block.omit@);
    let order = order_of(keys);
    assert(keys.len() == block.omit.len());
    law_order_exists(keys);
    assert forall|i: int, j: int| 0 <= i <= j < omits.len() implies (#[trigger] omits[i])@[0] <= (
    #[trigger] omits[j])@[0] by {
        if i < j {
            reveal_with_fuel(less_from, 2);
            assert(comes_before(keys, order[i] as int, order[j] as int));
            assert(keys[order[i] as int] == seq![block.omit@[order[i] as int]@[0]]);
            assert(keys[order[j] as int] == seq![block.omit@[order[j] as int]@[0]]);
            assert(keys[order[i] as int][0] == block.omit@[order[i] as int]@[0]);
            assert(keys[order[j] as int][0] == block.omit@[order[j] as int]@[0]);
        }
    }
    lemma_shown_from(omits, 0, block.lines@[0], block.lines@[1], line);
    if omits_line(block.omit@, 0, line) {
        let k = choose|k: int|
            0 <= k < block.omit@.len() && leaves_out(#[trigger] block.omit@[k], line);
        assert(order.contains(k as usize));
        let i = choose|i: int| 0 <= i < order.len() && order[i] == k as usize;
        assert(omits[i] == block.omit@[k]);
    }
    if omits_line(omits, 0, line) {
        let i = choose|i: int| 0 <= i < omits.len() && leaves_out(#[trigger] omits[i], line);
        assert(omits[i] == block.omit@[order[i] as int]);
    }
}

/// The rows of a file.
pub open spec fn rows_of(ranges: Seq<(Seq<char>, Seq<RowRange>)>, path: Seq<char>) -> Seq<
    RowRange,
> {
    match path_from(ranges, 0, path) {
        Some(index) => ranges[index].1,
        None => seq![],
    }
}

proof fn lemma_path_from(ranges: Seq<(Seq<char>, Seq<RowRange>)>, from: int, path: Seq<char>)
    requires
        0 <= from,
    ensures
        match path_from(ranges, from, path) {
            Some(index) => from <= index < ranges.len() && ranges[index].0 == path
                && forall|i: int| from <= i < index ==> (#[trigger] ranges[i]).0 != path,
            None => forall|i: int| from <= i < ranges.len() ==> (#[trigger] ranges[i]).0 != path,
        },
    decreases ranges.len() - from,
{
    if from < ranges.len() && ranges[from].0 != path {
        lemma_path_from(ranges, from + 1, path);
    }
}

proof fn lemma_path_from_is(
    ranges: Seq<(Seq<char>, Seq<RowRange>)>,
    from: int,
    path: Seq<char>,
    index: int,
)
    requires
        0 <= from <= index < ranges.len(),
        ranges[index].0 == path,
        forall|i: int| from <= i < index ==> (#[trigger] ranges[i]).0 != path,
    ensures
        path_from(ranges, from, path) == Some(index),
    decreases index - from,
{
    if from < index {
        lemma_path_from_is(ranges, from + 1, path, index);
    }
}

proof fn lemma_pushed(
    ranges: Seq<(Seq<char>, Seq<RowRange>)>,
    path: Seq<char>,
    range: RowRange,
    other: Seq<char>,
)
    ensures
        rows_of(pushed(ranges, path, range), other) == if other == path {
            rows_of(ranges, other).push(range)
        } else {
            rows_of(ranges, other)
        },
{
    let after = pushed(ranges, path, range);
    lemma_path_from(ranges, 0, path);
    lemma_path_from(ranges, 0, other);
    lemma_path_from(after, 0, other);
    match path_from(ranges, 0, path) {
        Some(index) => {
            assert forall|i: int| 0 <= i < ranges.len() implies (#[trigger] after[i]).0
                == ranges[i].0 by {}
            if let Some(at) = path_from(ranges, 0, other) {
                assert forall|i: int| 0 <= i < at implies (#[trigger] after[i]).0 != other by {
                    assert(ranges[i].0 != other);
                }
                lemma_path_from_is(after, 0, other, at);
            } else if let Some(at) = path_from(after, 0, other) {
                assert(ranges[at].0 != other);
            }
        },
        None => {
            if let Some(at) = path_from(ranges, 0, other) {
                assert forall|i: int| 0 <= i < at implies (#[trigger] after[i]).0 != other by {
                    assert(ranges[i].0 != other);
                }
                lemma_path_from_is(after, 0, other, at);
            } else if other == path {
                assert forall|i: int| 0 <= i < ranges.len() implies (#[trigger] after[i]).0
                    != other by {
                    assert(ranges[i].0 != other);
                }
                lemma_path_from_is(after, 0, other, ranges.len() as int);
                assert(seq![range] =~= Seq::<RowRange>::empty().push(range));
            } else if let Some(at) = path_from(after, 0, other) {
                if at < ranges.len() {
                    assert(ranges[at].0 != other);
                }
            }
        },
    }
}

proof fn lemma_all_pushed(
    ranges: Seq<(Seq<char>, Seq<RowRange>)>,
    path: Seq<char>,
    more: Seq<RowRange>,
    other: Seq<char>,
)
    ensures
        rows_of(all_pushed(ranges, path, more), other) == if other == path {
            rows_of(ranges, other) + more
        } else {
            rows_of(ranges, other)
        },
    decreases more.len(),
{
    if more.len() == 0 {
        assert(rows_of(ranges, other) + more =~= rows_of(ranges, other));
    } else {
        lemma_pushed(ranges, path, more[0], other);
        lemma_all_pushed(pushed(ranges, path, more[0]), path, more.skip(1), other);
        assert(rows_of(ranges, other) + more =~= rows_of(ranges, other).push(more[0]) + more.skip(
            1,
        ));
    }
}

/// The rows of a file in the first `n` hunks.
pub open spec fn raw_rows_of(hunks: Seq<ReviewHunk>, path: Seq<char>, n: int) -> Seq<RowRange>
    decreases n,
{
    if n <= 0 {
        seq![]
    } else if hunks[n - 1].path@ == path {
        raw_rows_of(hunks, path, n - 1).push(hunk_rows(hunks[n - 1]))
    } else {
        raw_rows_of(hunks, path, n - 1)
    }
}

/// The rows of each file are those of its hunks, one after another, and of no
/// others.
pub proof fn law_raw_rows_are_those_of_the_hunks(hunks: Seq<ReviewHunk>, path: Seq<char>, n: int)
    requires
        0 <= n <= hunks.len(),
    ensures
        rows_of(raw_before(hunks, n), path) == raw_rows_of(hunks, path, n),
    decreases n,
{
    if n > 0 {
        law_raw_rows_are_those_of_the_hunks(hunks, path, n - 1);
        lemma_pushed(
            raw_before(hunks, n - 1),
            hunks[n - 1].path@,
            hunk_rows(hunks[n - 1]),
            path,
        );
    }
}

/// The rows of a file that a reading plan shows of the first `n` hunks.
pub open spec fn reading_rows_of(
    hunks: Seq<ReviewHunk>,
    overrides: Seq<OverrideHunk>,
    path: Seq<char>,
    n: int,
) -> Seq<RowRange>
    decreases n,
{
    if n <= 0 {
        seq![]
    } else if hunks[n - 1].path@ == path {
        reading_rows_of(hunks, overrides, path, n - 1) + reading_rows(hunks[n - 1], overrides)
    } else {
        reading_rows_of(hunks, overrides, path, n - 1)
    }
}

/// A reading plan shows of each file what it shows of its hunks, one after
/// another, and nothing of others.
pub proof fn law_reading_rows_are_those_of_the_hunks(
    hunks: Seq<ReviewHunk>,
    overrides: Seq<OverrideHunk>,
    path: Seq<char>,
    n: int,
)
    requires
        0 <= n <= hunks.len(),
    ensures
        rows_of(reading_before(hunks, overrides, n), path) == reading_rows_of(
            hunks,
            overrides,
            path,
            n,
        ),
    decreases n,
{
    if n > 0 {
        law_reading_rows_are_those_of_the_hunks(hunks, overrides, path, n - 1);
        lemma_all_pushed(
            reading_before(hunks, overrides, n - 1),
            hunks[n - 1].path@,
            reading_rows(hunks[n - 1], overrides),
            path,
        );
    }
}

/// Without a reading plan for it, a hunk is shown with all its lines.
pub proof fn law_window_holds_the_hunk(hunk: ReviewHunk, line: u32)
    requires
        hunk.new_start > 0,
        hunk.new_start <= line < hunk.new_start + hunk.new_lines,
    ensures
        shows_line(window_rows(hunk), line),
{
    let first = greater(difference_from_zero(hunk.new_start, READING_CONTEXT_LINES), 1);
    let last = sum_up_to_max(
        sum_up_to_max(hunk.new_start, hunk.new_lines),
        READING_CONTEXT_LINES,
    );
    lemma_shows_one(line_rows(first, last), line);
}

/// The rows of a hunk: as many as it has lines, from the row of its first line on.
pub proof fn law_rows_of_a_hunk(hunk: ReviewHunk)
    requires
        hunk.new_start > 0,
        hunk.new_start + hunk.new_lines <= u32::MAX,
    ensures
        hunk_rows(hunk).start + 1 == hunk.new_start,
        hunk_rows(hunk).end - hunk_rows(hunk).start == hunk.new_lines,
{
}

/// Without a reading plan for it, a hunk is shown with three lines around it, and
/// no more than the file has above it.
pub proof fn law_window(hunk: ReviewHunk, line: u32)
    requires
        hunk.new_start > 0,
        hunk.new_start + hunk.new_lines + 3 <= u32::MAX,
    ensures
        shows_line(window_rows(hunk), line) <==> line > 0 && hunk.new_start - 3 <= line
            <= hunk.new_start + hunk.new_lines + 3,
{
    let first = greater(difference_from_zero(hunk.new_start, READING_CONTEXT_LINES), 1);
    let last = sum_up_to_max(
        sum_up_to_max(hunk.new_start, hunk.new_lines),
        READING_CONTEXT_LINES,
    );
    lemma_shows_one(line_rows(first, last), line);
}

/// The rows between two lines, both of which are shown.
pub proof fn law_rows_of_lines(first: u32, last: u32, line: u32)
    ensures
        line_rows(first, last) is Some <==> 0 < first <= last,
        0 < first <= last ==> (holds_line(line_rows(first, last)->0, line) <==> first <= line
            <= last),
{
}

/// Whether an entry of a reading plan stands for the hunk in a file at a line with
/// a number of lines.
pub open spec fn stands_for(entry: OverrideHunk, path: Seq<char>, start: u32, lines: u32) -> bool {
    entry.path@ == path && entry.new_start == start && entry.new_lines == lines
}

proof fn lemma_policy_from(overrides: Seq<OverrideHunk>, from: int, at: int, hunk: ReviewHunk)
    requires
        0 <= from <= at <= overrides.len(),
        forall|k: int|
            from <= k < at ==> !stands_for(
                #[trigger] overrides[k],
                hunk.path@,
                hunk.new_start,
                hunk.new_lines,
            ),
        at < overrides.len() ==> stands_for(
            overrides[at],
            hunk.path@,
            hunk.new_start,
            hunk.new_lines,
        ),
    ensures
        policy_from(overrides, from, hunk) == if at < overrides.len() {
            Some(overrides[at])
        } else {
            None
        },
    decreases at - from,
{
    if from < at {
        assert(!stands_for(overrides[from], hunk.path@, hunk.new_start, hunk.new_lines));
        lemma_policy_from(overrides, from + 1, at, hunk);
    }
}

/// The first entry of a reading plan that names the file, the first line and the
/// number of lines of a hunk says how it is read: one that hides it shows nothing;
/// one with blocks shows these, one behind the other; any other shows the hunk as
/// if there were no plan, and so does a plan that does not name it.
pub proof fn law_reading_plan(hunk: ReviewHunk, overrides: Seq<OverrideHunk>, at: int)
    requires
        0 <= at <= overrides.len(),
        forall|k: int|
            0 <= k < at ==> !stands_for(
                #[trigger] overrides[k],
                hunk.path@,
                hunk.new_start,
                hunk.new_lines,
            ),
        at < overrides.len() ==> stands_for(
            overrides[at],
            hunk.path@,
            hunk.new_start,
            hunk.new_lines,
        ),
    ensures
        at == overrides.len() ==> reading_rows(hunk, overrides) == window_rows(hunk),
        at < overrides.len() && overrides[at].hide ==> reading_rows(hunk, overrides).len() == 0,
        at < overrides.len() && !overrides[at].hide && overrides[at].show@.len() == 0
            ==> reading_rows(hunk, overrides) == window_rows(hunk),
        at < overrides.len() && !overrides[at].hide && overrides[at].show@.len() == 1
            ==> reading_rows(hunk, overrides) == block_rows(overrides[at].show@[0]),
        at < overrides.len() && !overrides[at].hide && overrides[at].show@.len() > 0
            ==> forall|line: u32| #[trigger]
            shows_line(reading_rows(hunk, overrides), line) <==> exists|b: int|
                0 <= b < overrides[at].show@.len() && shows_line(
                    #[trigger] block_rows(overrides[at].show@[b]),
                    line,
                ),
{
    lemma_policy_from(overrides, 0, at, hunk);
    if at < overrides.len() && !overrides[at].hide && overrides[at].show@.len() > 0 {
        let blocks = overrides[at].show@;
        if blocks.len() == 1 {
            reveal_with_fuel(blocks_rows, 2);
            assert(blocks_rows(blocks, 0) =~= block_rows(blocks[0]));
        }
        assert forall|line: u32| #[trigger]
            shows_line(reading_rows(hunk, overrides), line) <==> exists|b: int|
                0 <= b < blocks.len() && shows_line(#[trigger] block_rows(blocks[b]), line) by {
            lemma_blocks_show(blocks, 0, line);
        }
    }
}

proof fn lemma_blocks_show(blocks: Seq<ShowBlock>, from: int, line: u32)
    requires
        0 <= from <= blocks.len(),
    ensures
        shows_line(blocks_rows(blocks, from), line) <==> exists|b: int|
            from <= b < blocks.len() && shows_line(#[trigger] block_rows(blocks[b]), line),
    decreases blocks.len() - from,
{
    if from < blocks.len() {
        lemma_blocks_show(blocks, from + 1, line);
        lemma_shows_either(block_rows(blocks[from]), blocks_rows(blocks, from + 1), line);
        if shows_line(block_rows(blocks[from]), line) {
            assert(from <= from < blocks.len());
        }
    }
}

} // verus!
