//! The view of a review: which group it shows, and what it shows of it.

use vstd::prelude::*;

use crate::review::document::{
    body_of, estimate_block_height, finding_body, height_of, parse_verdict, verdict_in, Finding,
    GroupData, ReviewItem, Verdict,
};
use crate::review::ranges::{
    difference_from_zero, lesser, range_models, raw_before, raw_ranges, reading_before,
    reading_ranges, PathRanges, RowRange,
};
use crate::text::{
    chars_of, decimal, decimal_chars, extend, extend_text, int_index, same_text, string_models,
    text_model, text_of,
};

verus! {

/// The comment that a menu is open for.
#[derive(Debug, PartialEq, Eq)]
pub struct CommentTarget {
    pub path: String,
    pub line: u32,
    pub body: String,
}

/// A review that is shown: the group that is shown of it, and whether by its
/// reading plan.
#[derive(Debug)]
pub struct ReviewView {
    pub item: ReviewItem,
    pub active_group: usize,
    pub show_reading: bool,
    pub context_menu_target: Option<CommentTarget>,
}

/// What is shown above a group.
#[derive(Debug)]
pub struct GroupHeader {
    pub title: String,
    pub summary: Option<String>,
    pub review_focus: Vec<String>,
}

/// The tabs of the groups, and the button for the reading plan.
#[derive(Debug)]
pub struct TabStrip {
    pub labels: Vec<String>,
    pub active: usize,
    pub level: Option<String>,
    pub reading_active: bool,
    pub has_reading: bool,
    pub tooltip: String,
}

impl ReviewView {
    /// A group of the review is shown.
    pub open spec fn well_formed(self) -> bool {
        self.active_group < self.item.groups@.len()
    }

    pub open spec fn group(self) -> GroupData {
        self.item.groups@[self.active_group as int]
    }

    /// Whether the group is shown by its reading plan.
    pub open spec fn reads(self) -> bool {
        self.show_reading && self.group().reading is Some
    }

    /// Shows the first group of a review.
    pub fn for_project_item(item: ReviewItem) -> (view: Self)
        requires
            item.groups@.len() > 0,
        ensures
            view.item == item,
            view.active_group == 0,
            !view.show_reading,
            view.context_menu_target is None,
            view.well_formed(),
    {
        ReviewView { item, active_group: 0, show_reading: false, context_menu_target: None }
    }

    /// Shows another group, and says whether what is shown has changed.
    pub fn set_active_group(&mut self, index: usize) -> (changed: bool)
        requires
            old(self).well_formed(),
        ensures
            changed == (index != old(self).active_group && index < old(self).item.groups@.len()),
            final(self).active_group == if changed {
                index
            } else {
                old(self).active_group
            },
            final(self).item == old(self).item,
            final(self).show_reading == old(self).show_reading,
            final(self).context_menu_target == old(self).context_menu_target,
            final(self).well_formed(),
    {
        if index == self.active_group || index >= self.item.groups.len() {
            return false;
        }
        self.active_group = index;
        true
    }

    /// Shows the group by its reading plan or as it is, and says whether what is
    /// shown has changed. It stays where the group has no reading plan.
    pub fn toggle_reading(&mut self) -> (changed: bool)
        requires
            old(self).well_formed(),
        ensures
            changed == (old(self).group().reading is Some),
            final(self).show_reading == (old(self).show_reading != changed),
            final(self).item == old(self).item,
            final(self).active_group == old(self).active_group,
            final(self).context_menu_target == old(self).context_menu_target,
            final(self).well_formed(),
    {
        if self.item.groups[self.active_group].reading.is_none() {
            return false;
        }
        self.show_reading = !self.show_reading;
        true
    }

    /// The rows of the files of the group, and how many lines around them are
    /// shown: none where a reading plan says which lines are.
    pub fn ranges(&self, context_lines: u32) -> (shown: (PathRanges, u32))
        requires
            self.well_formed(),
        ensures
            range_models(shown.0@) == if self.reads() {
                reading_before(
                    self.group().hunks@,
                    self.group().reading->0@,
                    self.group().hunks@.len() as int,
                )
            } else {
                raw_before(self.group().hunks@, self.group().hunks@.len() as int)
            },
            shown.1 == if self.reads() {
                0
            } else {
                context_lines
            },
    {
        let group = &self.item.groups[self.active_group];
        if self.show_reading {
            if let Some(overrides) = &group.reading {
                return (reading_ranges(group.hunks.as_slice(), overrides.as_slice()), 0);
            }
        }
        (raw_ranges(group.hunks.as_slice()), context_lines)
    }

    /// What is shown above the group: the summary of the reading plan stands in
    /// for that of the group while it is shown.
    pub fn group_header(&self) -> (header: GroupHeader)
        requires
            self.well_formed(),
        ensures
            header.title@ == self.group().title@,
            text_model(header.summary) == if self.reads() && self.group().reading_summary is Some {
                text_model(self.group().reading_summary)
            } else {
                text_model(self.group().summary)
            },
            string_models(header.review_focus@) == string_models(self.group().review_focus@),
    {
        let group = &self.item.groups[self.active_group];
        let reading_active = self.show_reading && group.reading.is_some();
        let summary = if reading_active && group.reading_summary.is_some() {
            group.reading_summary.clone()
        } else {
            group.summary.clone()
        };
        GroupHeader {
            title: group.title.clone(),
            summary,
            review_focus: copied_texts(&group.review_focus),
        }
    }

    /// The tabs of the groups, and the button for the reading plan.
    pub fn tab_strip(&self) -> (strip: TabStrip)
        requires
            self.well_formed(),
        ensures
            string_models(strip.labels@) == Seq::new(
                self.item.groups@.len(),
                |i: int| self.item.groups@[i].tab_label@,
            ),
            strip.active == self.active_group,
            text_model(strip.level) == match self.item.review_level {
                Some(level) => Some("review: "@ + level@),
                None => None,
            },
            strip.has_reading == (self.group().reading is Some),
            strip.reading_active == self.reads(),
            strip.tooltip@ == if strip.has_reading {
                "Toggle prism reading plan vs. raw diff"@
            } else {
                "This group has no reading plan"@
            },
    {
        let ghost wanted = Seq::new(
            self.item.groups@.len(),
            |i: int| self.item.groups@[i].tab_label@,
        );
        let mut labels: Vec<String> = Vec::new();
        let mut i: usize = 0;
        while i < self.item.groups.len()
            invariant
                i <= self.item.groups@.len(),
                wanted == Seq::new(
                    self.item.groups@.len(),
                    |i: int| self.item.groups@[i].tab_label@,
                ),
                string_models(labels@) =~= wanted.take(i as int),
            decreases self.item.groups@.len() - i,
        {
            let ghost before = string_models(labels@);
            labels.push(self.item.groups[i].tab_label.clone());
            assert(string_models(labels@) =~= before.push(wanted[i as int]));
            i += 1;
        }
        assert(string_models(labels@) =~= wanted);
        let level = match &self.item.review_level {
            Some(level) => {
                let mut chars = chars_of("review: ");
                extend_text(&mut chars, level.as_str());
                Some(text_of(chars.as_slice()))
            },
            None => None,
        };
        let has_reading = self.item.groups[self.active_group].reading.is_some();
        let tooltip = if has_reading {
            "Toggle prism reading plan vs. raw diff".to_string()
        } else {
            "This group has no reading plan".to_string()
        };
        TabStrip {
            labels,
            active: self.active_group,
            level,
            reading_active: self.show_reading && has_reading,
            has_reading,
            tooltip,
        }
    }

    /// Opens the menu of a comment.
    pub fn deploy_comment_menu(&mut self, target: CommentTarget)
        ensures
            *final(self) == (ReviewView { context_menu_target: Some(target), ..*old(self) }),
    {
        self.context_menu_target = Some(target);
    }

    /// Closes the menu of a comment.
    pub fn dismiss_comment_menu(&mut self)
        ensures
            *final(self) == (ReviewView { context_menu_target: None, ..*old(self) }),
    {
        self.context_menu_target = None;
    }

    /// What is copied of the comment that a menu is open for: where it stands,
    /// and what it says.
    pub fn copy_comment(&self) -> (text: Option<String>)
        ensures
            text_model(text) == match self.context_menu_target {
                Some(target) => Some(
                    "At "@ + target.path@ + ": "@ + decimal(target.line as nat) + "\n"@
                        + target.body@,
                ),
                None => None,
            },
    {
        match &self.context_menu_target {
            Some(target) => {
                let mut chars = chars_of("At ");
                extend_text(&mut chars, target.path.as_str());
                extend_text(&mut chars, ": ");
                let line = decimal_chars(target.line as u64);
                extend(&mut chars, line.as_slice());
                extend_text(&mut chars, "\n");
                extend_text(&mut chars, target.body.as_str());
                Some(text_of(chars.as_slice()))
            },
            None => None,
        }
    }

    /// The row that is shown of the comment that a menu is open for, and the place
    /// of its file among those that are loaded.
    pub fn reveal_comment(&self, loaded: &Vec<LoadedPath>) -> (place: Option<(usize, u32)>)
        ensures
            match self.context_menu_target {
                Some(target) => match loaded_from(loaded@, 0, target.path@) {
                    Some(index) => place matches Some(place) && place.0 == index && place.1
                        == difference_from_zero(target.line, 1),
                    None => place is None,
                },
                None => place is None,
            },
    {
        match &self.context_menu_target {
            Some(target) => match find_loaded(loaded, target.path.as_str()) {
                Some(index) => Some((index, target.line.saturating_sub(1))),
                None => None,
            },
            None => None,
        }
    }
}

fn copied_texts(texts: &Vec<String>) -> (copies: Vec<String>)
    ensures
        string_models(copies@) == string_models(texts@),
{
    let mut copies: Vec<String> = Vec::new();
    let mut i: usize = 0;
    while i < texts.len()
        invariant
            i <= texts@.len(),
            string_models(copies@) =~= string_models(texts@).take(i as int),
        decreases texts@.len() - i,
    {
        let ghost before = string_models(copies@);
        copies.push(texts[i].clone());
        assert(string_models(copies@) =~= before.push(string_models(texts@)[i as int]));
        i += 1;
    }
    assert(string_models(copies@) =~= string_models(texts@));
    copies
}

/// What a tab is called: as its file, or by what it shows.
pub fn tab_content_text(file_name: Option<&str>) -> (text: String)
    ensures
        text@ == match file_name {
            Some(name) => name@,
            None => "review"@,
        },
{
    match file_name {
        Some(name) => name.to_string(),
        None => "review".to_string(),
    }
}

/// A file that is loaded, with its last row.
#[derive(Debug)]
pub struct LoadedPath {
    pub path: String,
    pub max_row: u32,
}

/// The first from `from` on that is a file.
pub open spec fn loaded_from(loaded: Seq<LoadedPath>, from: int, path: Seq<char>) -> Option<int>
    decreases loaded.len() - from,
{
    if from < 0 || from >= loaded.len() {
        None
    } else if loaded[from].path@ == path {
        Some(from)
    } else {
        loaded_from(loaded, from + 1, path)
    }
}

fn find_loaded(loaded: &Vec<LoadedPath>, path: &str) -> (found: Option<usize>)
    ensures
        int_index(found) == loaded_from(loaded@, 0, path@),
        found is Some ==> found->0 < loaded@.len(),
{
    let mut i: usize = 0;
    while i < loaded.len()
        invariant
            i <= loaded@.len(),
            loaded_from(loaded@, 0, path@) == loaded_from(loaded@, i as int, path@),
        decreases loaded@.len() - i,
    {
        if same_text(loaded[i].path.as_str(), path) {
            return Some(i);
        }
        i += 1;
    }
    None
}

/// A file that is shown: where it stands among the files of the group, and the
/// rows of it.
#[derive(Debug)]
pub struct Excerpt {
    pub sort_prefix: u64,
    pub path: String,
    pub ranges: Vec<RowRange>,
}

/// What an [`Excerpt`] stands for.
#[verifier::ext_equal]
pub struct ExcerptModel {
    pub sort_prefix: int,
    pub path: Seq<char>,
    pub ranges: Seq<RowRange>,
}

impl View for Excerpt {
    type V = ExcerptModel;

    open spec fn view(&self) -> ExcerptModel {
        ExcerptModel {
            sort_prefix: self.sort_prefix as int,
            path: self.path@,
            ranges: self.ranges@,
        }
    }
}

pub open spec fn excerpt_models(excerpts: Seq<Excerpt>) -> Seq<ExcerptModel> {
    Seq::new(excerpts.len(), |i: int| excerpts[i]@)
}

/// Rows within a file that ends with a row.
pub open spec fn clamped(range: RowRange, max_row: u32) -> RowRange {
    RowRange { start: lesser(range.start, max_row), end: lesser(range.end, max_row) }
}

pub open spec fn all_clamped(ranges: Seq<RowRange>, max_row: u32) -> Seq<RowRange> {
    Seq::new(ranges.len(), |i: int| clamped(ranges[i], max_row))
}

/// What is shown of the first `n` files: those that are loaded.
pub open spec fn excerpts_before(
    ranges: Seq<(Seq<char>, Seq<RowRange>)>,
    loaded: Seq<LoadedPath>,
    n: int,
) -> Seq<ExcerptModel>
    decreases n,
{
    if n <= 0 {
        seq![]
    } else {
        let before = excerpts_before(ranges, loaded, n - 1);
        match loaded_from(loaded, 0, ranges[n - 1].0) {
            Some(index) => before.push(
                ExcerptModel {
                    sort_prefix: n - 1,
                    path: ranges[n - 1].0,
                    ranges: all_clamped(ranges[n - 1].1, loaded[index].max_row),
                },
            ),
            None => before,
        }
    }
}

/// What is shown of the files of a group, in their order there.
pub fn excerpts(ranges: &PathRanges, loaded: &Vec<LoadedPath>) -> (excerpts: Vec<Excerpt>)
    ensures
        excerpt_models(excerpts@) == excerpts_before(
            range_models(ranges@),
            loaded@,
            ranges@.len() as int,
        ),
{
    let ghost models = range_models(ranges@);
    let mut excerpts: Vec<Excerpt> = Vec::new();
    assert(excerpt_models(excerpts@) =~= seq![]);
    let mut i: usize = 0;
    while i < ranges.len()
        invariant
            i <= ranges@.len(),
            models == range_models(ranges@),
            excerpt_models(excerpts@) == excerpts_before(models, loaded@, i as int),
        decreases ranges@.len() - i,
    {
        let ghost before = excerpt_models(excerpts@);
        let rows = &ranges[i].1;
        assert(models[i as int] == (ranges@[i as int].0@, rows@));
        if let Some(index) = find_loaded(loaded, ranges[i].0.as_str()) {
            let max_row = loaded[index].max_row;
            let mut within: Vec<RowRange> = Vec::new();
            let mut k: usize = 0;
            while k < rows.len()
                invariant
                    k <= rows@.len(),
                    within@ =~= all_clamped(rows@, max_row).take(k as int),
                decreases rows@.len() - k,
            {
                let range = rows[k];
                let start: u32 = if range.start < max_row {
                    range.start
                } else {
                    max_row
                };
                let end: u32 = if range.end < max_row {
                    range.end
                } else {
                    max_row
                };
                let ghost earlier = within@;
                within.push(RowRange { start, end });
                assert(within@ =~= earlier.push(all_clamped(rows@, max_row)[k as int]));
                k += 1;
            }
            assert(within@ =~= all_clamped(rows@, max_row));
            let excerpt = Excerpt {
                sort_prefix: i as u64,
                path: ranges[i].0.clone(),
                ranges: within,
            };
            let ghost view = excerpt@;
            excerpts.push(excerpt);
            assert(excerpt_models(excerpts@) =~= before.push(view));
        }
        i += 1;
    }
    excerpts
}

/// The row below which a finding is shown: none where its file is not loaded,
/// its line does not count from one, or the file ends before it.
pub open spec fn row_of(finding: Finding, loaded: Seq<LoadedPath>) -> Option<u32> {
    match loaded_from(loaded, 0, finding.file@) {
        Some(index) => if finding.line == 0 || finding.line - 1 > loaded[index].max_row {
            None
        } else {
            Some((finding.line - 1) as u32)
        },
        None => None,
    }
}

pub fn finding_row(finding: &Finding, loaded: &Vec<LoadedPath>) -> (row: Option<u32>)
    ensures
        row == row_of(*finding, loaded@),
{
    match find_loaded(loaded, finding.file.as_str()) {
        Some(index) => if finding.line == 0 || finding.line - 1 > loaded[index].max_row {
            None
        } else {
            Some(finding.line - 1)
        },
        None => None,
    }
}

/// A finding as it is shown.
#[derive(Debug)]
pub struct ReviewBlock {
    pub row: u32,
    pub height: u32,
    pub verdict: Verdict,
    pub category: Option<String>,
    pub target: CommentTarget,
}

/// Whether a block shows a finding below a row.
pub open spec fn is_block(block: ReviewBlock, row: u32, finding: Finding) -> bool {
    &&& block.row == row
    &&& block.height == height_of(body_of(finding))
    &&& block.verdict == verdict_in(text_model(finding.verdict))
    &&& text_model(block.category) == text_model(finding.category)
    &&& block.target.path@ == finding.file@
    &&& block.target.line == finding.line
    &&& block.target.body@ == body_of(finding)
}

fn review_block(row: u32, finding: &Finding) -> (block: ReviewBlock)
    ensures
        is_block(block, row, *finding),
{
    let body = finding_body(finding);
    ReviewBlock {
        row,
        height: estimate_block_height(body.as_str()),
        verdict: parse_verdict(&finding.verdict),
        category: finding.category.clone(),
        target: CommentTarget { path: finding.file.clone(), line: finding.line, body },
    }
}

/// The findings among the first `n` that are shown: those that have a row, in
/// rows that are shown.
pub open spec fn shown_findings(
    findings: Seq<Finding>,
    loaded: Seq<LoadedPath>,
    in_excerpt: Seq<bool>,
    n: int,
) -> Seq<int>
    decreases n,
{
    if n <= 0 {
        seq![]
    } else {
        let before = shown_findings(findings, loaded, in_excerpt, n - 1);
        if row_of(findings[n - 1], loaded) is Some && in_excerpt[n - 1] {
            before.push(n - 1)
        } else {
            before
        }
    }
}

/// The findings as they are shown. Whether the row of each is in one of the rows
/// that are shown comes with them.
pub fn review_blocks(
    findings: &Vec<Finding>,
    loaded: &Vec<LoadedPath>,
    in_excerpt: &Vec<bool>,
) -> (blocks: Vec<ReviewBlock>)
    requires
        in_excerpt@.len() == findings@.len(),
    ensures
        ({
            let shown = shown_findings(
                findings@,
                loaded@,
                in_excerpt@,
                findings@.len() as int,
            );
            &&& blocks@.len() == shown.len()
            &&& forall|i: int|
                0 <= i < shown.len() ==> is_block(
                    #[trigger] blocks@[i],
                    row_of(findings@[shown[i]], loaded@)->0,
                    findings@[shown[i]],
                )
        }),
{
    let mut blocks: Vec<ReviewBlock> = Vec::new();
    let ghost mut shown: Seq<int> = seq![];
    let mut i: usize = 0;
    while i < findings.len()
        invariant
            i <= findings@.len(),
            in_excerpt@.len() == findings@.len(),
            shown == shown_findings(findings@, loaded@, in_excerpt@, i as int),
            blocks@.len() == shown.len(),
            forall|k: int|
                0 <= k < shown.len() ==> is_block(
                    #[trigger] blocks@[k],
                    row_of(findings@[shown[k]], loaded@)->0,
                    findings@[shown[k]],
                ),
        decreases findings@.len() - i,
    {
        if let Some(row) = finding_row(&findings[i], loaded) {
            if in_excerpt[i] {
                blocks.push(review_block(row, &findings[i]));
                proof {
                    shown = shown.push(i as int);
                }
            }
        }
        i += 1;
    }
    blocks
}

/// When the findings are put in: at once where both sides are shown in one
/// column, else once, as soon as the left side is there.
pub fn should_insert_blocks(unified: bool, inserted: bool, has_left_side: bool) -> (insert: bool)
    ensures
        insert == (!inserted && (unified || has_left_side)),
{
    !inserted && (unified || has_left_side)
}

/// Toggling the reading plan twice shows what was shown.
pub proof fn law_toggle_reading_twice(view: ReviewView, once: ReviewView, twice: ReviewView)
    requires
        view.well_formed(),
        once.item == view.item,
        once.active_group == view.active_group,
        once.show_reading == (view.show_reading != (view.group().reading is Some)),
        twice.item == once.item,
        twice.active_group == once.active_group,
        twice.show_reading == (once.show_reading != (once.group().reading is Some)),
    ensures
        twice.show_reading == view.show_reading,
        twice.reads() == view.reads(),
        view.group().reading is Some ==> once.reads() != view.reads(),
{
}

/// What is shown of a loaded file lies within it.
pub proof fn law_excerpts_lie_within_the_file(ranges: Seq<RowRange>, max_row: u32, i: int)
    requires
        0 <= i < ranges.len(),
        ranges[i].start <= ranges[i].end,
    ensures
        all_clamped(ranges, max_row)[i].start <= all_clamped(ranges, max_row)[i].end <= max_row,
{
}

proof fn lemma_loaded(loaded: Seq<LoadedPath>, from: int, path: Seq<char>)
    requires
        0 <= from <= loaded.len(),
    ensures
        match loaded_from(loaded, from, path) {
            Some(index) => from <= index < loaded.len() && loaded[index].path@ == path,
            None => forall|k: int| from <= k < loaded.len() ==> (#[trigger] loaded[k]).path@ != path,
        },
    decreases loaded.len() - from,
{
    if from < loaded.len() && loaded[from].path@ != path {
        lemma_loaded(loaded, from + 1, path);
    }
}

/// Whether a file is among those that were loaded.
pub open spec fn is_loaded(loaded: Seq<LoadedPath>, path: Seq<char>) -> bool {
    exists|k: int| 0 <= k < loaded.len() && (#[trigger] loaded[k]).path@ == path
}

/// A finding stands at the row of its line, counted from zero, in a file that was
/// loaded and has that line; any other stands nowhere.
pub proof fn law_row_of_a_finding(finding: Finding, loaded: Seq<LoadedPath>)
    requires
        forall|i: int, j: int|
            0 <= i < j < loaded.len() ==> (#[trigger] loaded[i]).path@ != (
            #[trigger] loaded[j]).path@,
    ensures
        row_of(finding, loaded) is Some ==> row_of(finding, loaded)->0 + 1 == finding.line,
        !is_loaded(loaded, finding.file@) ==> row_of(finding, loaded) is None,
        forall|k: int|
            0 <= k < loaded.len() && (#[trigger] loaded[k]).path@ == finding.file@ ==> (row_of(
                finding,
                loaded,
            ) is Some <==> 1 <= finding.line <= loaded[k].max_row + 1),
{
    lemma_loaded(loaded, 0, finding.file@);
    assert forall|k: int| 0 <= k < loaded.len() && (#[trigger] loaded[k]).path@
        == finding.file@ implies (row_of(finding, loaded) is Some <==> 1 <= finding.line
        <= loaded[k].max_row + 1) by {
        let index = loaded_from(loaded, 0, finding.file@)->0;
        if index < k {
            assert(loaded[index].path@ != loaded[k].path@);
        } else if k < index {
            assert(loaded[k].path@ != loaded[index].path@);
        }
    }
}

/// The findings that get a block: those that stand at a row that is shown, each
/// once and in their order.
pub proof fn law_shown_findings(
    findings: Seq<Finding>,
    loaded: Seq<LoadedPath>,
    in_excerpt: Seq<bool>,
    n: int,
)
    requires
        0 <= n <= findings.len(),
        in_excerpt.len() == findings.len(),
    ensures
        ({
            let shown = shown_findings(findings, loaded, in_excerpt, n);
            &&& forall|i: int| #[trigger]
                shown.contains(i) <==> 0 <= i < n && in_excerpt[i] && row_of(
                    findings[i],
                    loaded,
                ) is Some
            &&& forall|k: int| 0 <= k < shown.len() ==> 0 <= #[trigger] shown[k] < n
            &&& forall|k: int, l: int|
                0 <= k < l < shown.len() ==> #[trigger] shown[k] < #[trigger] shown[l]
        }),
    decreases n,
{
    if n > 0 {
        law_shown_findings(findings, loaded, in_excerpt, n - 1);
        let shorter = shown_findings(findings, loaded, in_excerpt, n - 1);
        let longer = shorter.push(n - 1);
        if row_of(findings[n - 1], loaded) is Some && in_excerpt[n - 1] {
            assert forall|i: int| #[trigger] longer.contains(i) <==> 0 <= i < n && in_excerpt[i]
                && row_of(findings[i], loaded) is Some by {
                if shorter.contains(i) {
                    let k = choose|k: int| 0 <= k < shorter.len() && shorter[k] == i;
                    assert(longer[k] == i);
                }
                assert(longer[shorter.len() as int] == n - 1);
                if longer.contains(i) && i != n - 1 {
                    let k = choose|k: int| 0 <= k < longer.len() && longer[k] == i;
                    assert(shorter[k] == i);
                }
            }
        }
    }
}

/// The excerpts: one for each file with ranges that was loaded, in the order of
/// the ranges, and none of any other file.
pub proof fn law_excerpts(
    ranges: Seq<(Seq<char>, Seq<RowRange>)>,
    loaded: Seq<LoadedPath>,
    n: int,
)
    requires
        0 <= n <= ranges.len(),
    ensures
        ({
            let excerpts = excerpts_before(ranges, loaded, n);
            &&& forall|k: int|
                0 <= k < excerpts.len() ==> 0 <= (#[trigger] excerpts[k]).sort_prefix < n
                    && excerpts[k].path == ranges[excerpts[k].sort_prefix].0 && is_loaded(
                    loaded,
                    excerpts[k].path,
                ) && excerpts[k].ranges.len() == ranges[excerpts[k].sort_prefix].1.len()
            &&& forall|k: int, l: int|
                0 <= k < l < excerpts.len() ==> (#[trigger] excerpts[k]).sort_prefix < (
                #[trigger] excerpts[l]).sort_prefix
            &&& forall|i: int|
                0 <= i < n && is_loaded(loaded, (#[trigger] ranges[i]).0) ==> exists|k: int|
                    0 <= k < excerpts.len() && (#[trigger] excerpts[k]).sort_prefix == i
        }),
    decreases n,
{
    if n > 0 {
        law_excerpts(ranges, loaded, n - 1);
        lemma_loaded(loaded, 0, ranges[n - 1].0);
        let shorter = excerpts_before(ranges, loaded, n - 1);
        let longer = excerpts_before(ranges, loaded, n);
        assert forall|i: int| 0 <= i < n && is_loaded(loaded, (#[trigger] ranges[i]).0) implies exists|
            k: int,
        |
            0 <= k < longer.len() && (#[trigger] longer[k]).sort_prefix == i by {
            if i < n - 1 {
                let k = choose|k: int|
                    0 <= k < shorter.len() && (#[trigger] shorter[k]).sort_prefix == i;
                assert(longer[k].sort_prefix == i);
            } else {
                assert(longer[shorter.len() as int].sort_prefix == i);
            }
        }
        if let Some(index) = loaded_from(loaded, 0, ranges[n - 1].0) {
            assert(loaded[index].path@ == ranges[n - 1].0);
            assert(is_loaded(loaded, ranges[n - 1].0));
        }
    }
}

/// A range that lies in the file stays as it is, and one that reaches beyond its
/// end ends there.
pub proof fn law_clamped(range: RowRange, max_row: u32)
    ensures
        range.start <= max_row && range.end <= max_row ==> clamped(range, max_row) == range,
        range.start <= max_row < range.end ==> clamped(range, max_row) == (RowRange {
            start: range.start,
            end: max_row,
        }),
{
}

/// What is shown of a finding, and what is copied from it, are its own: its file,
/// its line as it was counted, and its text.
pub proof fn law_blocks(block: ReviewBlock, row: u32, finding: Finding)
    requires
        is_block(block, row, finding),
    ensures
        block.row == row,
        block.target.path@ == finding.file@ && block.target.line == finding.line,
        block.target.body@ == body_of(finding),
        finding.verdict is None ==> block.verdict is Unlabeled,
        block.category is Some <==> finding.category is Some,
        block.category is Some ==> block.category->0@ == finding.category->0@,
        3 <= block.height <= 24,
{
}

} // verus!
