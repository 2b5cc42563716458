//! What a review file holds, and what is made of it.

use vstd::prelude::*;

use crate::questionnaire::round_trip::lemma_trim;
use crate::review::ranges::{
    difference_from_zero, greater, OverrideHunk, READING_CONTEXT_LINES, ReviewHunk,
};
use crate::text::{
    chars_of, decimal, decimal_chars, ends_with, ends_with_text, extend, extend_text, is_whitespace,
    lemma_next_char_is, lines, lines_of, same_text, spelled, string_models, text_model, text_of,
    trim, trimmed,
};

verus! {

/// A review: the commits that it compares, its groups, and what a code review
/// said beside them.
#[derive(Debug)]
pub struct ReviewDocument {
    pub base: String,
    pub target: String,
    pub groups: Vec<ReviewGroup>,
    pub code_review: Option<CodeReview>,
}

#[derive(Debug)]
pub struct ReviewGroup {
    pub title: String,
    pub summary: Option<String>,
    pub phase: Option<String>,
    pub hunks: Vec<ReviewHunk>,
    pub review_focus: Vec<String>,
    pub findings: Vec<Finding>,
    pub reading: Option<Reading>,
}

/// Something that was found at a line of a file.
#[derive(Debug)]
pub struct Finding {
    pub file: String,
    pub line: u32,
    pub summary: String,
    pub failure_scenario: Option<String>,
    pub verdict: Option<String>,
    pub category: Option<String>,
}

#[derive(Debug)]
pub struct CodeReview {
    pub level: Option<String>,
    pub unassigned: Vec<Finding>,
}

/// A reading plan.
#[derive(Debug)]
pub struct Reading {
    pub summary: Option<String>,
    pub override_hunks: Vec<OverrideHunk>,
}

#[derive(Clone, Copy, Debug, PartialEq, Eq, Structural)]
pub enum Verdict {
    Confirmed,
    Plausible,
    Unlabeled,
}

/// A group as it is shown.
#[derive(Debug)]
pub struct GroupData {
    pub tab_label: String,
    pub title: String,
    pub summary: Option<String>,
    pub reading_summary: Option<String>,
    pub review_focus: Vec<String>,
    pub hunks: Vec<ReviewHunk>,
    pub reading: Option<Vec<OverrideHunk>>,
    pub findings: Vec<Finding>,
}

/// Whether a file is a review: by the end of its name.
pub fn is_review_json(file_name: Option<&str>) -> (is_review: bool)
    ensures
        is_review == match file_name {
            Some(name) => ends_with(name@, ".review.json"@),
            None => false,
        },
{
    match file_name {
        Some(name) => {
            let chars = chars_of(name);
            ends_with_text(chars.as_slice(), ".review.json")
        },
        None => false,
    }
}

pub open spec fn verdict_in(verdict: Option<Seq<char>>) -> Verdict {
    if verdict == Some("CONFIRMED"@) {
        Verdict::Confirmed
    } else if verdict == Some("PLAUSIBLE"@) {
        Verdict::Plausible
    } else {
        Verdict::Unlabeled
    }
}

pub fn parse_verdict(verdict: &Option<String>) -> (parsed: Verdict)
    ensures
        parsed == verdict_in(text_model(*verdict)),
{
    match verdict {
        Some(verdict) => if same_text(verdict.as_str(), "CONFIRMED") {
            Verdict::Confirmed
        } else if same_text(verdict.as_str(), "PLAUSIBLE") {
            Verdict::Plausible
        } else {
            Verdict::Unlabeled
        },
        None => Verdict::Unlabeled,
    }
}

pub fn verdict_label(verdict: Verdict) -> (label: String)
    ensures
        label@ == match verdict {
            Verdict::Confirmed => "CONFIRMED"@,
            Verdict::Plausible => "PLAUSIBLE"@,
            Verdict::Unlabeled => "FINDING"@,
        },
{
    match verdict {
        Verdict::Confirmed => "CONFIRMED".to_string(),
        Verdict::Plausible => "PLAUSIBLE".to_string(),
        Verdict::Unlabeled => "FINDING".to_string(),
    }
}

/// What is shown of a finding.
pub open spec fn body_of(finding: Finding) -> Seq<char> {
    match finding.failure_scenario {
        Some(scenario) => if trim(scenario@).len() > 0 {
            finding.summary@ + "\n\n**Failure scenario:** "@ + scenario@
        } else {
            finding.summary@
        },
        None => finding.summary@,
    }
}

/// What is shown of a finding: its summary, and how it fails where that is said.
pub fn finding_body(finding: &Finding) -> (body: String)
    ensures
        body@ == body_of(*finding),
{
    if let Some(scenario) = &finding.failure_scenario {
        let chars = chars_of(scenario.as_str());
        if trimmed(chars.as_slice()).len() > 0 {
            let mut body = chars_of(finding.summary.as_str());
            extend_text(&mut body, "\n\n**Failure scenario:** ");
            extend(&mut body, chars.as_slice());
            return text_of(body.as_slice());
        }
    }
    finding.summary.clone()
}

/// How many rows the first `n` lines of a text take, a hundred and ten
/// characters to a row.
pub open spec fn rows_before(text: Seq<Seq<char>>, n: int) -> nat
    decreases n,
{
    if n <= 0 {
        0
    } else {
        rows_before(text, n - 1) + text[n - 1].len() / 110 + 1
    }
}

/// The height of a text with two rows around it, between three and twenty-four.
/// The rows are counted in thirty-two bits.
pub open spec fn height_of(body: Seq<char>) -> u32 {
    let rows = rows_before(lines_of(body), lines_of(body).len() as int) as u32;
    if rows < 1 {
        3
    } else if rows > 22 {
        24
    } else {
        (rows + 2) as u32
    }
}

pub fn estimate_block_height(body: &str) -> (height: u32)
    ensures
        height == height_of(body@),
{
    let chars = chars_of(body);
    let rows_of_text = lines(chars.as_slice());
    let ghost views = lines_of(body@);
    assert(spelled(rows_of_text@) == views);
    let mut total: u128 = 0;
    let mut i: usize = 0;
    while i < rows_of_text.len()
        invariant
            i <= rows_of_text@.len(),
            views == spelled(rows_of_text@),
            total == rows_before(views, i as int),
            total <= i * 0x1_0000_0000_0000_0000,
        decreases rows_of_text@.len() - i,
    {
        let line = &rows_of_text[i];
        assert(views[i as int] == line@);
        let length = line.len();
        assert(length / 110 + 1 <= 0x1_0000_0000_0000_0000);
        assert((i + 1) * 0x1_0000_0000_0000_0000 == i * 0x1_0000_0000_0000_0000
            + 0x1_0000_0000_0000_0000);
        assert(i * 0x1_0000_0000_0000_0000 <= 0xFFFF_FFFF_FFFF_FFFF * 0x1_0000_0000_0000_0000);
        total = total + (length / 110) as u128 + 1;
        i += 1;
    }
    let rows: u32 = #[verifier::truncate] (total as u32);
    let height = rows.saturating_add(2);
    if height < 3 {
        3
    } else if height > 24 {
        24
    } else {
        height
    }
}

/// Why a review cannot be shown.
#[derive(Debug, PartialEq, Eq)]
pub enum ReviewError {
    NoGroups,
    NoRepository,
    NoHeadCommit,
    TargetMismatch { target: String, head: String },
}

impl ReviewError {
    pub open spec fn text(self, file: Seq<char>) -> Seq<char> {
        match self {
            ReviewError::NoGroups => "review.json "@ + file + " has no groups"@,
            ReviewError::NoRepository => "no active git repository"@,
            ReviewError::NoHeadCommit => "repository has no HEAD commit"@,
            ReviewError::TargetMismatch { target, head } => "target "@ + target@
                + " does not match HEAD "@ + head@ + "; checkout target first"@,
        }
    }

    /// The error in words, for a review in a file.
    pub fn message(&self, file: &str) -> (message: String)
        ensures
            message@ == self.text(file@),
    {
        match self {
            ReviewError::NoGroups => {
                let mut chars = chars_of("review.json ");
                extend_text(&mut chars, file);
                extend_text(&mut chars, " has no groups");
                text_of(chars.as_slice())
            },
            ReviewError::NoRepository => "no active git repository".to_string(),
            ReviewError::NoHeadCommit => "repository has no HEAD commit".to_string(),
            ReviewError::TargetMismatch { target, head } => {
                let mut chars = chars_of("target ");
                extend_text(&mut chars, target.as_str());
                extend_text(&mut chars, " does not match HEAD ");
                extend_text(&mut chars, head.as_str());
                extend_text(&mut chars, "; checkout target first");
                text_of(chars.as_slice())
            },
        }
    }
}

/// The active repository, with its current commit where it has one.
#[derive(Debug)]
pub struct ActiveRepo {
    pub head_sha: Option<String>,
}

/// Whether a review can be shown: it has groups, and the commit that it is about
/// is checked out.
pub fn check_document(document: &ReviewDocument, repo: &Option<ActiveRepo>) -> (checked: Result<
    (),
    ReviewError,
>)
    ensures
        match checked {
            Ok(()) => document.groups@.len() > 0 && repo is Some && text_model(repo->0.head_sha)
                == Some(document.target@),
            Err(ReviewError::NoGroups) => document.groups@.len() == 0,
            Err(ReviewError::NoRepository) => document.groups@.len() > 0 && repo is None,
            Err(ReviewError::NoHeadCommit) => document.groups@.len() > 0 && repo is Some
                && repo->0.head_sha is None,
            Err(ReviewError::TargetMismatch { target, head }) => document.groups@.len() > 0
                && repo is Some && text_model(repo->0.head_sha) == Some(head@) && target@
                == document.target@ && head@ != target@,
        },
{
    if document.groups.len() == 0 {
        return Err(ReviewError::NoGroups);
    }
    match repo {
        None => Err(ReviewError::NoRepository),
        Some(repo) => match &repo.head_sha {
            None => Err(ReviewError::NoHeadCommit),
            Some(head) => if same_text(head.as_str(), document.target.as_str()) {
                Ok(())
            } else {
                Err(
                    ReviewError::TargetMismatch {
                        target: document.target.clone(),
                        head: head.clone(),
                    },
                )
            },
        },
    }
}

/// The files of hunks.
pub open spec fn hunk_paths(hunks: Seq<ReviewHunk>) -> Seq<Seq<char>> {
    Seq::new(hunks.len(), |i: int| hunks[i].path@)
}

/// The files of the hunks of the first `n` groups.
pub open spec fn group_paths(groups: Seq<ReviewGroup>, n: int) -> Seq<Seq<char>>
    decreases n,
{
    if n <= 0 {
        seq![]
    } else {
        group_paths(groups, n - 1) + hunk_paths(groups[n - 1].hunks@)
    }
}

pub open spec fn finding_paths(findings: Seq<Finding>) -> Seq<Seq<char>> {
    Seq::new(findings.len(), |i: int| findings[i].file@)
}

/// The findings that belong to no group.
pub open spec fn unassigned_of(document: ReviewDocument) -> Seq<Finding> {
    match document.code_review {
        Some(review) => review.unassigned@,
        None => seq![],
    }
}

/// The files that a review is about, as often as it names them: those of its
/// hunks, then those of findings that belong to no group.
pub open spec fn named_paths(document: ReviewDocument) -> Seq<Seq<char>> {
    group_paths(document.groups@, document.groups@.len() as int) + finding_paths(
        unassigned_of(document),
    )
}

/// A list with a text, where it is not there yet.
pub open spec fn with_text(texts: Seq<Seq<char>>, text: Seq<char>) -> Seq<Seq<char>> {
    if texts.contains(text) {
        texts
    } else {
        texts.push(text)
    }
}

/// The texts of a list, each once, where it first stands.
pub open spec fn distinct_of(texts: Seq<Seq<char>>) -> Seq<Seq<char>>
    decreases texts.len(),
{
    if texts.len() == 0 {
        seq![]
    } else {
        with_text(distinct_of(texts.drop_last()), texts.last())
    }
}

fn push_unique(paths: &mut Vec<String>, path: &str)
    ensures
        string_models(final(paths)@) == with_text(string_models(old(paths)@), path@),
{
    let ghost views = string_models(paths@);
    let mut i: usize = 0;
    while i < paths.len()
        invariant
            *paths == *old(paths),
            views == string_models(paths@),
            i <= paths@.len(),
            forall|k: int| 0 <= k < i ==> #[trigger] views[k] != path@,
        decreases paths@.len() - i,
    {
        assert(views[i as int] == paths@[i as int]@);
        if same_text(paths[i].as_str(), path) {
            assert(views.contains(path@));
            return;
        }
        i += 1;
    }
    assert(!views.contains(path@));
    paths.push(path.to_string());
    assert(string_models(paths@) =~= views.push(path@));
}

proof fn lemma_distinct_push(texts: Seq<Seq<char>>, text: Seq<char>)
    ensures
        distinct_of(texts.push(text)) == with_text(distinct_of(texts), text),
{
    assert(texts.push(text).drop_last() =~= texts);
}

/// The files that a review is about, each once, in the order in which they are
/// first named.
pub fn unique_paths(document: &ReviewDocument) -> (paths: Vec<String>)
    ensures
        string_models(paths@) == distinct_of(named_paths(*document)),
{
    let mut paths: Vec<String> = Vec::new();
    assert(string_models(paths@) =~= seq![]);
    let mut g: usize = 0;
    while g < document.groups.len()
        invariant
            g <= document.groups@.len(),
            string_models(paths@) == distinct_of(group_paths(document.groups@, g as int)),
        decreases document.groups@.len() - g,
    {
        let hunks = &document.groups[g].hunks;
        let ghost before = group_paths(document.groups@, g as int);
        let ghost own = hunk_paths(hunks@);
        let mut h: usize = 0;
        assert(before + own.take(0) =~= before);
        while h < hunks.len()
            invariant
                h <= hunks@.len(),
                own == hunk_paths(hunks@),
                string_models(paths@) == distinct_of(before + own.take(h as int)),
            decreases hunks@.len() - h,
        {
            push_unique(&mut paths, hunks[h].path.as_str());
            proof {
                lemma_distinct_push(before + own.take(h as int), own[h as int]);
                assert(before + own.take(h + 1) =~= (before + own.take(h as int)).push(
                    own[h as int],
                ));
            }
            h += 1;
        }
        assert(own.take(hunks@.len() as int) =~= own);
        g += 1;
    }
    let ghost before = group_paths(document.groups@, document.groups@.len() as int);
    if let Some(review) = &document.code_review {
        let ghost own = finding_paths(review.unassigned@);
        let mut f: usize = 0;
        assert(before + own.take(0) =~= before);
        while f < review.unassigned.len()
            invariant
                f <= review.unassigned@.len(),
                own == finding_paths(review.unassigned@),
                string_models(paths@) == distinct_of(before + own.take(f as int)),
            decreases review.unassigned@.len() - f,
        {
            push_unique(&mut paths, review.unassigned[f].file.as_str());
            proof {
                lemma_distinct_push(before + own.take(f as int), own[f as int]);
                assert(before + own.take(f + 1) =~= (before + own.take(f as int)).push(
                    own[f as int],
                ));
            }
            f += 1;
        }
        assert(own.take(review.unassigned@.len() as int) =~= own);
    } else {
        assert(named_paths(*document) =~= before);
    }
    paths
}

/// The files of a review stand once each, and are exactly those that it names.
pub proof fn law_unique_paths(texts: Seq<Seq<char>>)
    ensures
        forall|text: Seq<char>| #[trigger]
            distinct_of(texts).contains(text) == texts.contains(text),
        forall|i: int, j: int|
            0 <= i < j < distinct_of(texts).len() ==> #[trigger] distinct_of(texts)[i]
                != #[trigger] distinct_of(texts)[j],
    decreases texts.len(),
{
    if texts.len() > 0 {
        let rest = texts.drop_last();
        law_unique_paths(rest);
        assert forall|text: Seq<char>| #[trigger]
            distinct_of(texts).contains(text) == texts.contains(text) by {
            assert(distinct_of(rest).contains(text) == rest.contains(text));
            if texts.contains(text) {
                let k = choose|k: int| 0 <= k < texts.len() && texts[k] == text;
                if k < rest.len() {
                    assert(rest[k] == text);
                    assert(rest.contains(text));
                    let m = choose|m: int|
                        0 <= m < distinct_of(rest).len() && distinct_of(rest)[m] == text;
                    assert(distinct_of(texts)[m] == text);
                } else if !distinct_of(rest).contains(text) {
                    assert(distinct_of(texts)[distinct_of(rest).len() as int] == text);
                }
            }
            if distinct_of(texts).contains(text) {
                let m = choose|m: int|
                    0 <= m < distinct_of(texts).len() && distinct_of(texts)[m] == text;
                if m < distinct_of(rest).len() {
                    assert(distinct_of(rest)[m] == text);
                    assert(rest.contains(text));
                    let k = choose|k: int| 0 <= k < rest.len() && rest[k] == text;
                    assert(texts[k] == text);
                } else {
                    assert(texts[texts.len() - 1] == text);
                }
            }
        }
        assert forall|i: int, j: int| 0 <= i < j < distinct_of(texts).len() implies #[trigger]
        distinct_of(texts)[i] != #[trigger] distinct_of(texts)[j] by {
            if j < distinct_of(rest).len() {
                assert(distinct_of(rest)[i] != distinct_of(rest)[j]);
            } else {
                assert(distinct_of(rest).contains(distinct_of(rest)[i]));
            }
        }
    }
}

/// What is known of a file that a review is about.
#[derive(Debug)]
pub enum PathStatus {
    /// It is no path in a repository.
    Invalid,
    /// The active repository does not have it.
    NotInRepo,
    Deleted,
    /// With the version before.
    Modified(String),
    /// It is new, or was not changed.
    NoOldVersion,
}

/// A file that is loaded, with the version before that it is compared with.
#[derive(Debug)]
pub struct PathPlan {
    pub path: String,
    pub old_oid: Option<String>,
}

/// Whether a file is loaded, and what it is compared with.
pub open spec fn plan_of(status: PathStatus) -> Option<Option<Seq<char>>> {
    match status {
        PathStatus::Invalid => None,
        PathStatus::NotInRepo => None,
        PathStatus::Deleted => None,
        PathStatus::Modified(old) => Some(Some(old@)),
        PathStatus::NoOldVersion => Some(None),
    }
}

pub open spec fn plan_models(plans: Seq<PathPlan>) -> Seq<(Seq<char>, Option<Seq<char>>)> {
    Seq::new(plans.len(), |i: int| (plans[i].path@, text_model(plans[i].old_oid)))
}

/// The files among the first `n` that are loaded.
pub open spec fn plans_before(paths: Seq<(String, PathStatus)>, n: int) -> Seq<
    (Seq<char>, Option<Seq<char>>),
>
    decreases n,
{
    if n <= 0 {
        seq![]
    } else {
        match plan_of(paths[n - 1].1) {
            Some(old_oid) => plans_before(paths, n - 1).push((paths[n - 1].0@, old_oid)),
            None => plans_before(paths, n - 1),
        }
    }
}

/// The files that are loaded: not those that are deleted or not there.
pub fn plan_paths(paths: &Vec<(String, PathStatus)>) -> (plans: Vec<PathPlan>)
    ensures
        plan_models(plans@) == plans_before(paths@, paths@.len() as int),
{
    let mut plans: Vec<PathPlan> = Vec::new();
    assert(plan_models(plans@) =~= seq![]);
    let mut i: usize = 0;
    while i < paths.len()
        invariant
            i <= paths@.len(),
            plan_models(plans@) == plans_before(paths@, i as int),
        decreases paths@.len() - i,
    {
        let ghost before = plan_models(plans@);
        match &paths[i].1 {
            PathStatus::Modified(old) => {
                plans.push(PathPlan { path: paths[i].0.clone(), old_oid: Some(old.clone()) });
                assert(plan_models(plans@) =~= before.push(
                    (paths@[i as int].0@, Some(old@)),
                ));
            },
            PathStatus::NoOldVersion => {
                plans.push(PathPlan { path: paths[i].0.clone(), old_oid: None });
                assert(plan_models(plans@) =~= before.push((paths@[i as int].0@, None)));
            },
            PathStatus::Invalid => {},
            PathStatus::NotInRepo => {},
            PathStatus::Deleted => {},
        }
        i += 1;
    }
    plans
}

/// The title of a group: its number, the phase that it belongs to, and its own.
pub open spec fn group_title(number: nat, phase: Option<Seq<char>>, title: Seq<char>) -> Seq<char> {
    match phase {
        Some(phase) => decimal(number) + ". ["@ + phase + "] "@ + title,
        None => decimal(number) + ". "@ + title,
    }
}

/// Whether a group is shown as it should be.
pub open spec fn is_group(data: GroupData, number: nat, group: ReviewGroup) -> bool {
    &&& data.tab_label@ == decimal(number)
    &&& data.title@ == group_title(number, text_model(group.phase), group.title@)
    &&& data.summary == group.summary
    &&& data.review_focus == group.review_focus
    &&& data.hunks == group.hunks
    &&& data.findings == group.findings
    &&& match group.reading {
        Some(reading) => data.reading == Some(reading.override_hunks) && data.reading_summary
            == reading.summary,
        None => data.reading is None && data.reading_summary is None,
    }
}

fn group_data(number: u64, group: ReviewGroup) -> (data: GroupData)
    ensures
        is_group(data, number as nat, group),
{
    let label = decimal_chars(number);
    let mut title: Vec<char> = Vec::new();
    extend(&mut title, label.as_slice());
    match &group.phase {
        Some(phase) => {
            extend_text(&mut title, ". [");
            extend_text(&mut title, phase.as_str());
            extend_text(&mut title, "] ");
        },
        None => {
            extend_text(&mut title, ". ");
        },
    }
    extend_text(&mut title, group.title.as_str());
    assert(title@ =~= group_title(number as nat, text_model(group.phase), group.title@));
    let (reading, reading_summary) = match group.reading {
        Some(reading) => (Some(reading.override_hunks), reading.summary),
        None => (None, None),
    };
    GroupData {
        tab_label: text_of(label.as_slice()),
        title: text_of(title.as_slice()),
        summary: group.summary,
        reading_summary,
        review_focus: group.review_focus,
        hunks: group.hunks,
        reading,
        findings: group.findings,
    }
}

/// Whether a hunk is the lines around a finding.
pub open spec fn is_window(hunk: ReviewHunk, finding: Finding) -> bool {
    &&& hunk.path@ == finding.file@
    &&& hunk.new_start == greater(difference_from_zero(finding.line, READING_CONTEXT_LINES), 1)
    &&& hunk.new_lines == READING_CONTEXT_LINES * 2 + 1
}

/// Whether a group is the one of the findings that belong to no other.
pub open spec fn is_unassigned(data: GroupData, findings: Vec<Finding>) -> bool {
    &&& data.tab_label@ == "U"@
    &&& data.title@ == "Unassigned findings"@
    &&& text_model(data.summary) == Some("Findings prism could not map to any group."@)
    &&& data.reading_summary is None
    &&& data.review_focus@.len() == 0
    &&& data.reading is None
    &&& data.findings == findings
    &&& data.hunks@.len() == findings@.len()
    &&& forall|i: int| 0 <= i < findings@.len() ==> is_window(#[trigger] data.hunks@[i], findings@[i])
}

/// A group for findings that belong to no other, with the lines around each.
pub fn unassigned_group(findings: Vec<Finding>) -> (data: GroupData)
    ensures
        is_unassigned(data, findings),
{
    let mut hunks: Vec<ReviewHunk> = Vec::new();
    let mut i: usize = 0;
    while i < findings.len()
        invariant
            i <= findings@.len(),
            hunks@.len() == i,
            forall|k: int| 0 <= k < i ==> is_window(#[trigger] hunks@[k], findings@[k]),
        decreases findings@.len() - i,
    {
        let above = findings[i].line.saturating_sub(READING_CONTEXT_LINES);
        let new_start: u32 = if above < 1 {
            1
        } else {
            above
        };
        hunks.push(
            ReviewHunk {
                path: findings[i].file.clone(),
                new_start,
                new_lines: READING_CONTEXT_LINES * 2 + 1,
            },
        );
        i += 1;
    }
    GroupData {
        tab_label: "U".to_string(),
        title: "Unassigned findings".to_string(),
        summary: Some("Findings prism could not map to any group.".to_string()),
        reading_summary: None,
        review_focus: Vec::new(),
        hunks,
        reading: None,
        findings,
    }
}

/// What is shown of a review: its groups, and how thorough the review was.
#[derive(Debug)]
pub struct ReviewItem {
    pub groups: Vec<GroupData>,
    pub review_level: Option<String>,
}

/// The groups of a review, and one more for the findings that belong to none.
pub fn review_item(document: ReviewDocument) -> (item: ReviewItem)
    ensures
        item.groups@.len() == document.groups@.len() + if unassigned_of(document).len() > 0 {
            1int
        } else {
            0
        },
        forall|i: int|
            0 <= i < document.groups@.len() ==> is_group(
                #[trigger] item.groups@[i],
                (i + 1) as nat,
                document.groups@[i],
            ),
        unassigned_of(document).len() > 0 ==> is_unassigned(
            item.groups@.last(),
            document.code_review->0.unassigned,
        ),
        item.review_level == match document.code_review {
            Some(review) => review.level,
            None => None,
        },
{
    let mut groups: Vec<GroupData> = Vec::new();
    let ghost all = document.groups@;
    let count = document.groups.len();
    let mut left = document.groups;
    let mut number: u64 = 0;
    while left.len() > 0
        invariant
            number <= all.len(),
            all.len() == count,
            left@ == all.skip(number as int),
            groups@.len() == number,
            forall|i: int|
                0 <= i < number ==> is_group(#[trigger] groups@[i], (i + 1) as nat, all[i]),
        decreases left@.len(),
    {
        let group = left.remove(0);
        assert(group == all[number as int]);
        number += 1;
        groups.push(group_data(number, group));
        assert(left@ =~= all.skip(number as int));
    }
    let review_level = match document.code_review {
        Some(review) => {
            if review.unassigned.len() > 0 {
                groups.push(unassigned_group(review.unassigned));
            }
            review.level
        },
        None => None,
    };
    ReviewItem { groups, review_level }
}

/// Whether a file is that of a hunk.
pub open spec fn is_in_hunk(groups: Seq<ReviewGroup>, path: Seq<char>) -> bool {
    exists|g: int, h: int|
        0 <= g < groups.len() && 0 <= h < groups[g].hunks@.len() && (
        #[trigger] groups[g].hunks@[h]).path@ == path
}

/// Whether a file is that of a finding.
pub open spec fn is_in_finding(findings: Seq<Finding>, path: Seq<char>) -> bool {
    exists|f: int| 0 <= f < findings.len() && (#[trigger] findings[f]).file@ == path
}

proof fn lemma_group_paths(groups: Seq<ReviewGroup>, n: int)
    requires
        0 <= n <= groups.len(),
    ensures
        forall|g: int, h: int|
            0 <= g < n && 0 <= h < groups[g].hunks@.len() ==> group_paths(groups, n).contains(
                (#[trigger] groups[g].hunks@[h]).path@,
            ),
        forall|i: int|
            0 <= i < group_paths(groups, n).len() ==> is_in_hunk(
                groups.take(n),
                #[trigger] group_paths(groups, n)[i],
            ),
    decreases n,
{
    if n > 0 {
        lemma_group_paths(groups, n - 1);
        let before = group_paths(groups, n - 1);
        let own = hunk_paths(groups[n - 1].hunks@);
        let all = group_paths(groups, n);
        assert(all == before + own);
        assert forall|g: int, h: int|
            0 <= g < n && 0 <= h < groups[g].hunks@.len() implies all.contains(
            (#[trigger] groups[g].hunks@[h]).path@,
        ) by {
            let path = groups[g].hunks@[h].path@;
            if g < n - 1 {
                assert(before.contains(path));
                let k = choose|k: int| 0 <= k < before.len() && before[k] == path;
                assert(all[k] == path);
            } else {
                assert(own[h] == path);
                assert(all[before.len() + h] == path);
            }
        }
        assert forall|i: int| 0 <= i < all.len() implies is_in_hunk(
            groups.take(n),
            #[trigger] all[i],
        ) by {
            if i < before.len() {
                assert(before[i] == all[i]);
                assert(is_in_hunk(groups.take(n - 1), before[i]));
                let (g, h) = choose|g: int, h: int|
                    0 <= g < n - 1 && 0 <= h < groups.take(n - 1)[g].hunks@.len() && (
                    #[trigger] groups.take(n - 1)[g].hunks@[h]).path@ == all[i];
                assert(groups.take(n)[g].hunks@[h].path@ == all[i]);
            } else {
                let h = i - before.len();
                assert(groups.take(n)[n - 1].hunks@[h].path@ == all[i]);
            }
        }
    }
}

/// The files of a review are those of its hunks and of the findings that belong to
/// no group: each of them is among the files, and each file is that of one.
pub proof fn law_files_of_a_review(document: ReviewDocument)
    ensures
        ({
            let paths = distinct_of(named_paths(document));
            let groups = document.groups@;
            &&& forall|g: int, h: int|
                0 <= g < groups.len() && 0 <= h < groups[g].hunks@.len() ==> paths.contains(
                    (#[trigger] groups[g].hunks@[h]).path@,
                )
            &&& document.code_review matches Some(review) ==> forall|f: int|
                0 <= f < review.unassigned@.len() ==> paths.contains(
                    (#[trigger] review.unassigned@[f]).file@,
                )
            &&& forall|i: int|
                0 <= i < paths.len() ==> is_in_hunk(groups, #[trigger] paths[i]) || (
                document.code_review matches Some(review) && is_in_finding(
                    review.unassigned@,
                    paths[i],
                ))
            &&& forall|i: int, j: int|
                0 <= i < j < paths.len() ==> #[trigger] paths[i] != #[trigger] paths[j]
        }),
{
    let groups = document.groups@;
    let all = named_paths(document);
    let paths = distinct_of(all);
    let first = group_paths(groups, groups.len() as int);
    let findings = unassigned_of(document);
    let rest = finding_paths(findings);
    law_unique_paths(all);
    lemma_group_paths(groups, groups.len() as int);
    assert forall|g: int, h: int|
        0 <= g < groups.len() && 0 <= h < groups[g].hunks@.len() implies paths.contains(
        (#[trigger] groups[g].hunks@[h]).path@,
    ) by {
        let path = groups[g].hunks@[h].path@;
        assert(first.contains(path));
        let k = choose|k: int| 0 <= k < first.len() && first[k] == path;
        assert(all[k] == path);
    }
    assert forall|f: int| 0 <= f < findings.len() implies paths.contains(
        (#[trigger] findings[f]).file@,
    ) by {
        assert(all[first.len() + f] == findings[f].file@);
    }
    assert(groups.take(groups.len() as int) =~= groups);
    assert forall|i: int| 0 <= i < paths.len() implies is_in_hunk(groups, #[trigger] paths[i]) || (
    document.code_review matches Some(review) && is_in_finding(
        review.unassigned@,
        paths[i],
    )) by {
        assert(paths.contains(paths[i]));
        let k = choose|k: int| 0 <= k < all.len() && all[k] == paths[i];
        if k < first.len() {
            assert(first[k] == paths[i]);
        } else {
            let f = k - first.len();
            assert(document.code_review->0.unassigned@[f].file@ == paths[i]);
        }
    }
}

/// Files come in the order in which they are first named: naming more behind them
/// changes nothing of what stands before.
pub proof fn law_order_of_files(texts: Seq<Seq<char>>, more: Seq<Seq<char>>)
    ensures
        distinct_of(texts).len() <= distinct_of(texts + more).len(),
        distinct_of(texts + more).take(distinct_of(texts).len() as int) == distinct_of(texts),
    decreases more.len(),
{
    if more.len() == 0 {
        assert(texts + more =~= texts);
        assert(distinct_of(texts).take(distinct_of(texts).len() as int) =~= distinct_of(texts));
    } else {
        law_order_of_files(texts, more.drop_last());
        let before = texts + more.drop_last();
        assert((texts + more).drop_last() =~= before);
        let first = distinct_of(texts);
        let shorter = distinct_of(before);
        let longer = distinct_of(texts + more);
        assert(longer.take(first.len() as int) =~= shorter.take(first.len() as int));
    }
}

/// The files of a review come in the order of its groups and of their hunks: those
/// of the first groups are the first ones.
pub proof fn law_files_in_order_of_groups(document: ReviewDocument, n: int)
    requires
        0 <= n <= document.groups@.len(),
    ensures
        ({
            let paths = distinct_of(named_paths(document));
            let first = distinct_of(group_paths(document.groups@, n));
            first.len() <= paths.len() && paths.take(first.len() as int) == first
        }),
{
    let whole = group_paths(document.groups@, document.groups@.len() as int);
    lemma_group_prefix(document.groups@, n, document.groups@.len() as int);
    let rest = whole.skip(group_paths(document.groups@, n).len() as int);
    let more = rest + finding_paths(unassigned_of(document));
    assert(named_paths(document) =~= group_paths(document.groups@, n) + more);
    law_order_of_files(group_paths(document.groups@, n), more);
}

proof fn lemma_group_prefix(groups: Seq<ReviewGroup>, n: int, m: int)
    requires
        0 <= n <= m <= groups.len(),
    ensures
        group_paths(groups, n).len() <= group_paths(groups, m).len(),
        group_paths(groups, m).take(group_paths(groups, n).len() as int) == group_paths(groups, n),
    decreases m - n,
{
    if n < m {
        lemma_group_prefix(groups, n, m - 1);
        let first = group_paths(groups, n);
        assert(group_paths(groups, m).take(first.len() as int) =~= group_paths(
            groups,
            m - 1,
        ).take(first.len() as int));
    } else {
        assert(group_paths(groups, m).take(group_paths(groups, n).len() as int) =~= group_paths(
            groups,
            n,
        ));
    }
}

/// A verdict is what it says, in large letters; any other text and none are no
/// verdict.
pub proof fn law_verdicts(verdict: Option<Seq<char>>)
    ensures
        verdict_in(Some("CONFIRMED"@)) is Confirmed,
        verdict_in(Some("PLAUSIBLE"@)) is Plausible,
        verdict is None ==> verdict_in(verdict) is Unlabeled,
        verdict_in(verdict) is Unlabeled <==> verdict != Some("CONFIRMED"@) && verdict != Some(
            "PLAUSIBLE"@,
        ),
{
    reveal_strlit("CONFIRMED");
    reveal_strlit("PLAUSIBLE");
    assert("CONFIRMED"@[0] == 'C');
    assert("PLAUSIBLE"@[0] == 'P');
}

/// What a finding says begins with its summary. How it fails is told behind it, as
/// it was written, where anything but white space was.
pub proof fn law_text_of_a_finding(finding: Finding)
    ensures
        finding.failure_scenario is None ==> body_of(finding) == finding.summary@,
        finding.failure_scenario matches Some(scenario) ==> {
            &&& (forall|k: int| 0 <= k < scenario@.len() ==> is_whitespace(#[trigger] scenario@[k]))
                ==> body_of(finding) == finding.summary@
            &&& (exists|k: int| 0 <= k < scenario@.len() && !is_whitespace(#[trigger] scenario@[k]))
                ==> body_of(finding) == finding.summary@ + "\n\n**Failure scenario:** "@ + scenario@
        },
{
    if let Some(scenario) = finding.failure_scenario {
        let s = scenario@;
        lemma_trim(s);
        let (from, to) = choose|from: int, to: int|
            0 <= from <= to <= s.len() && trim(s) == #[trigger] s.subrange(from, to) && (forall|
                k: int,
            |
                0 <= k < from ==> is_whitespace(#[trigger] s[k])) && (forall|k: int|
                to <= k < s.len() ==> is_whitespace(#[trigger] s[k]));
        if trim(s).len() > 0 {
            assert(trim(s)[0] == s[from]);
        }
    }
}

/// The place that a finding takes is its lines, of 110 characters each, and two
/// more; never more than 24 in all.
pub proof fn law_height_of_a_line(line: Seq<char>)
    requires
        line.len() > 0,
        forall|k: int| 0 <= k < line.len() ==> #[trigger] line[k] != '\n',
        line.len() < u32::MAX,
    ensures
        height_of(line) == if line.len() / 110 + 3 <= 24 {
            line.len() / 110 + 3
        } else {
            24
        },
{
    lemma_next_char_is(line, 0, '\n', line.len() as int);
    assert(line.skip(0) =~= line);
    assert(lines_of(line) =~= seq![line]);
    reveal_with_fuel(rows_before, 2);
}

/// Each line of a finding takes the place of its own characters, and an empty one
/// that of a line.
pub proof fn law_rows_of_lines(text: Seq<Seq<char>>, n: int)
    requires
        0 <= n < text.len(),
    ensures
        text[n].len() < 110 ==> rows_before(text, n + 1) == rows_before(text, n) + 1,
        rows_before(text, n + 1) > rows_before(text, n),
        110 * (rows_before(text, n + 1) - rows_before(text, n)) > text[n].len(),
        110 * (rows_before(text, n + 1) - rows_before(text, n) - 1) <= text[n].len(),
        rows_before(text, 0) == 0,
{
}

/// The height of any text lies between that of a line and 24.
pub proof fn law_heights(body: Seq<char>)
    ensures
        3 <= height_of(body) <= 24,
        height_of(seq![]) == 3,
{
}

proof fn lemma_plans(paths: Seq<(String, PathStatus)>, n: int)
    requires
        0 <= n <= paths.len(),
    ensures
        forall|plan: (Seq<char>, Option<Seq<char>>)| #[trigger]
            plans_before(paths, n).contains(plan) <==> exists|i: int|
                0 <= i < n && is_planned(#[trigger] paths[i], plan),
    decreases n,
{
    if n > 0 {
        lemma_plans(paths, n - 1);
        let before = plans_before(paths, n - 1);
        let last = paths[n - 1];
        assert forall|plan: (Seq<char>, Option<Seq<char>>)| #[trigger]
            plans_before(paths, n).contains(plan) <==> exists|i: int|
                0 <= i < n && is_planned(#[trigger] paths[i], plan) by {
            let after = plans_before(paths, n);
            if before.contains(plan) {
                let k = choose|k: int| 0 <= k < before.len() && before[k] == plan;
                assert(after[k] == plan);
                let i = choose|i: int| 0 <= i < n - 1 && is_planned(#[trigger] paths[i], plan);
                assert(is_planned(paths[i], plan));
            }
            if is_planned(last, plan) {
                assert(after[before.len() as int] == plan);
                assert(is_planned(paths[n - 1], plan));
            }
            if after.contains(plan) && !is_planned(last, plan) {
                let k = choose|k: int| 0 <= k < after.len() && after[k] == plan;
                assert(before[k] == plan);
            }
            if exists|i: int| 0 <= i < n && is_planned(#[trigger] paths[i], plan) {
                let i = choose|i: int| 0 <= i < n && is_planned(#[trigger] paths[i], plan);
                if i < n - 1 {
                    assert(before.contains(plan));
                }
            }
        }
    }
}

/// Whether a file is shown, and against what: it is where it was changed, against
/// the version before, and where it is new, against nothing.
pub open spec fn is_planned(
    path: (String, PathStatus),
    plan: (Seq<char>, Option<Seq<char>>),
) -> bool {
    &&& path.0@ == plan.0
    &&& match path.1 {
        PathStatus::Modified(old) => plan.1 == Some(old@),
        PathStatus::NoOldVersion => plan.1 is None,
        _ => false,
    }
}

/// The files that are shown are those that the repository has.
pub proof fn law_files_that_are_shown(
    paths: Seq<(String, PathStatus)>,
    plan: (Seq<char>, Option<Seq<char>>),
)
    ensures
        plans_before(paths, paths.len() as int).contains(plan) <==> exists|i: int|
            0 <= i < paths.len() && is_planned(#[trigger] paths[i], plan),
{
    lemma_plans(paths, paths.len() as int);
}

/// A finding that belongs to no group is shown with three lines on either side,
/// in its own file.
pub proof fn law_window_of_a_finding(hunk: ReviewHunk, finding: Finding)
    requires
        is_window(hunk, finding),
    ensures
        hunk.path@ == finding.file@,
        hunk.new_lines == 3 + 1 + 3,
        finding.line > 3 ==> hunk.new_start + 3 == finding.line,
        finding.line <= 3 ==> hunk.new_start == 1,
{
}

/// The tab of a group has its number, and its title the number, the phase in
/// brackets where it has one, and what it is called. All else of the group is kept.
pub proof fn law_groups(data: GroupData, number: nat, group: ReviewGroup)
    requires
        is_group(data, number, group),
    ensures
        data.tab_label@ == decimal(number),
        group.phase is None ==> data.title@ == decimal(number) + ". "@ + group.title@,
        group.phase is Some ==> data.title@ == decimal(number) + ". ["@ + group.phase->0@ + "] "@
            + group.title@,
        data.hunks == group.hunks && data.findings == group.findings,
        data.summary == group.summary && data.review_focus == group.review_focus,
        data.reading is Some <==> group.reading is Some,
        group.reading is Some ==> data.reading->0 == group.reading->0.override_hunks
            && data.reading_summary == group.reading->0.summary,
{
}

/// The findings that belong to no group make one of their own, each with its hunk.
pub proof fn law_unassigned_findings(data: GroupData, findings: Vec<Finding>, i: int)
    requires
        is_unassigned(data, findings),
        0 <= i < findings@.len(),
    ensures
        data.tab_label@ == "U"@,
        data.findings == findings && data.hunks@.len() == findings@.len(),
        data.hunks@[i].path@ == findings@[i].file@,
        data.reading is None,
{
    assert(is_window(data.hunks@[i], findings@[i]));
}

} // verus!
