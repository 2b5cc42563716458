//! What the list of arenas shows: a row for each arena, what its badges tell, and
//! the rate limits below.

use vstd::prelude::*;

use crate::app::RateLimits;
use crate::arenas::ArenaInfo;
use crate::clock::{
    age_at, ago_text, format_relative_time, format_resets_at_day_with, format_resets_in_at,
    is_expired, rate_limit_expired_at, rate_limits_stale, resets_at_day_text, resets_in_text,
    rfc3339_time,
};
use crate::github::{
    check_keys, review_keys, sorted_checks, sorted_reviews, CiCheckEntry, CiInfo, CiStatus, PrInfo,
    PrStatus, ReviewDecision, ReviewEntry, ReviewState,
};
use crate::labels::{menu_text, truncate_for_menu};
use crate::order::is_order;
use crate::paths::{file_name, file_name_of};
use crate::polling::{holds, innermost, innermost_repo, RepoInfo};
use crate::sessions::{
    count_before, ReadyTerminalInfo, SharedSessionState, TerminalCount, TerminalRef,
};
use crate::text::{
    chars_of, decimal, decimal_chars, extend, extend_text, int_index, same_text, text_model,
    text_of,
};
use crate::urls::{browser_url, remote_url_to_browser_url};

verus! {

#[derive(Clone, Copy, Debug, PartialEq, Eq, Structural)]
pub enum BadgeIcon {
    PullRequest,
    PullRequestClosed,
    GitGraph,
    MergeConflict,
    Check,
    Circle,
    FilledCross,
    Slash,
    Eye,
}

#[derive(Clone, Copy, Debug, PartialEq, Eq, Structural)]
pub enum Tone {
    Text,
    Muted,
    Success,
    Warning,
    Error,
    Info,
    Merged,
}

pub open spec fn pr_icon_of(status: PrStatus) -> BadgeIcon {
    match status {
        PrStatus::Draft | PrStatus::Open => BadgeIcon::PullRequest,
        PrStatus::Merged => BadgeIcon::GitGraph,
        PrStatus::Closed => BadgeIcon::PullRequestClosed,
        PrStatus::Conflicted => BadgeIcon::MergeConflict,
    }
}

pub open spec fn pr_tone_of(status: PrStatus) -> Tone {
    match status {
        PrStatus::Draft => Tone::Muted,
        PrStatus::Open => Tone::Success,
        PrStatus::Merged => Tone::Merged,
        PrStatus::Closed => Tone::Error,
        PrStatus::Conflicted => Tone::Warning,
    }
}

pub open spec fn pr_label_of(status: PrStatus) -> Seq<char> {
    match status {
        PrStatus::Draft => "Draft"@,
        PrStatus::Open => "Open"@,
        PrStatus::Merged => "Merged"@,
        PrStatus::Closed => "Closed"@,
        PrStatus::Conflicted => "Conflicted"@,
    }
}

pub fn pr_icon(status: PrStatus) -> (icon: BadgeIcon)
    ensures
        icon == pr_icon_of(status),
{
    match status {
        PrStatus::Draft | PrStatus::Open => BadgeIcon::PullRequest,
        PrStatus::Merged => BadgeIcon::GitGraph,
        PrStatus::Closed => BadgeIcon::PullRequestClosed,
        PrStatus::Conflicted => BadgeIcon::MergeConflict,
    }
}

pub fn pr_tone(status: PrStatus) -> (tone: Tone)
    ensures
        tone == pr_tone_of(status),
{
    match status {
        PrStatus::Draft => Tone::Muted,
        PrStatus::Open => Tone::Success,
        PrStatus::Merged => Tone::Merged,
        PrStatus::Closed => Tone::Error,
        PrStatus::Conflicted => Tone::Warning,
    }
}

fn pr_label(status: PrStatus) -> (label: String)
    ensures
        label@ == pr_label_of(status),
{
    match status {
        PrStatus::Draft => "Draft".to_string(),
        PrStatus::Open => "Open".to_string(),
        PrStatus::Merged => "Merged".to_string(),
        PrStatus::Closed => "Closed".to_string(),
        PrStatus::Conflicted => "Conflicted".to_string(),
    }
}

pub open spec fn ci_badge_of(status: CiStatus) -> (BadgeIcon, Tone) {
    match status {
        CiStatus::AllPassed => (BadgeIcon::Check, Tone::Success),
        CiStatus::Failed => (BadgeIcon::FilledCross, Tone::Error),
        CiStatus::PendingWithFailure => (BadgeIcon::Circle, Tone::Error),
        CiStatus::PendingClean => (BadgeIcon::Circle, Tone::Warning),
    }
}

pub fn ci_badge(status: CiStatus) -> (badge: (BadgeIcon, Tone))
    ensures
        badge == ci_badge_of(status),
{
    match status {
        CiStatus::AllPassed => (BadgeIcon::Check, Tone::Success),
        CiStatus::Failed => (BadgeIcon::FilledCross, Tone::Error),
        CiStatus::PendingWithFailure => (BadgeIcon::Circle, Tone::Error),
        CiStatus::PendingClean => (BadgeIcon::Circle, Tone::Warning),
    }
}

/// The badge of a pull request.
#[derive(Debug, PartialEq)]
pub struct PrBadge {
    pub icon: BadgeIcon,
    pub tone: Tone,
    pub label: String,
    pub ci: Option<(BadgeIcon, Tone)>,
    pub url: String,
}

/// The badge of the reviews of a pull request.
#[derive(Debug, PartialEq)]
pub struct ReviewBadge {
    pub icon: BadgeIcon,
    pub tone: Tone,
    pub label: Option<String>,
}

/// Whether a badge tells of a pull request. The checks of a merged one are of
/// no interest.
pub open spec fn is_pr_badge(pr: PrInfo, ci: Option<CiStatus>, badge: PrBadge) -> bool {
    &&& badge.icon == pr_icon_of(pr.status)
    &&& badge.tone == pr_tone_of(pr.status)
    &&& badge.label@ == "#"@ + decimal(pr.number as nat)
    &&& badge.url@ == pr.html_url@
    &&& badge.ci == (match ci {
        Some(status) if pr.status != PrStatus::Merged => Some(ci_badge_of(status)),
        _ => None,
    })
}

/// Whether a badge tells of the reviews of a pull request: of the decision, or
/// where there is none of how many there are.
pub open spec fn is_review_badge(pr: PrInfo, badge: Option<ReviewBadge>) -> bool {
    if pr.status == PrStatus::Merged {
        badge is None
    } else {
        match pr.review_decision {
            Some(decision) => badge matches Some(badge) && badge.label is None && (
            badge.icon, badge.tone) == (match decision {
                ReviewDecision::Approved => (BadgeIcon::Check, Tone::Success),
                ReviewDecision::ChangesRequested => (BadgeIcon::Circle, Tone::Error),
                ReviewDecision::ReviewRequired => (BadgeIcon::Circle, Tone::Warning),
            }),
            None => if pr.review_count > 0 {
                badge matches Some(badge) && badge.icon == BadgeIcon::Eye && badge.tone
                    == Tone::Muted && text_model(badge.label) == Some(
                    decimal(pr.review_count as nat),
                )
            } else {
                badge is None
            },
        }
    }
}

pub fn pr_badge(pr: &PrInfo, ci: Option<CiStatus>) -> (badge: PrBadge)
    ensures
        is_pr_badge(*pr, ci, badge),
{
    let mut label = chars_of("#");
    let number = decimal_chars(pr.number as u64);
    extend(&mut label, number.as_slice());
    let ci = match ci {
        Some(status) => if pr.status != PrStatus::Merged {
            Some(ci_badge(status))
        } else {
            None
        },
        None => None,
    };
    PrBadge {
        icon: pr_icon(pr.status),
        tone: pr_tone(pr.status),
        label: text_of(label.as_slice()),
        ci,
        url: pr.html_url.clone(),
    }
}

pub fn review_badge(pr: &PrInfo) -> (badge: Option<ReviewBadge>)
    ensures
        is_review_badge(*pr, badge),
{
    if pr.status == PrStatus::Merged {
        return None;
    }
    match pr.review_decision {
        Some(decision) => {
            let (icon, tone) = match decision {
                ReviewDecision::Approved => (BadgeIcon::Check, Tone::Success),
                ReviewDecision::ChangesRequested => (BadgeIcon::Circle, Tone::Error),
                ReviewDecision::ReviewRequired => (BadgeIcon::Circle, Tone::Warning),
            };
            Some(ReviewBadge { icon, tone, label: None })
        },
        None => if pr.review_count > 0 {
            let count = decimal_chars(pr.review_count as u64);
            Some(
                ReviewBadge {
                    icon: BadgeIcon::Eye,
                    tone: Tone::Muted,
                    label: Some(text_of(count.as_slice())),
                },
            )
        } else {
            None
        },
    }
}

/// How many lines the first `n` files add and delete.
pub open spec fn lines_before(stats: Seq<Option<(u32, u32)>>, n: int) -> (int, int)
    decreases n,
{
    if n <= 0 {
        (0, 0)
    } else {
        let before = lines_before(stats, n - 1);
        match stats[n - 1] {
            Some((added, deleted)) => (before.0 + added, before.1 + deleted),
            None => before,
        }
    }
}

/// How many lines all files add and delete.
pub open spec fn lines_changed(stats: Seq<Option<(u32, u32)>>) -> (int, int) {
    lines_before(stats, stats.len() as int)
}

/// The lines that a repository adds and deletes can be counted in 32 bits.
pub open spec fn has_countable_lines(repo: RepoInfo) -> bool {
    lines_changed(repo.diff_stats@).0 <= u32::MAX && lines_changed(repo.diff_stats@).1 <= u32::MAX
}

proof fn lemma_lines_grow(stats: Seq<Option<(u32, u32)>>, n: int, m: int)
    requires
        0 <= n <= m,
    ensures
        0 <= lines_before(stats, n).0 <= lines_before(stats, m).0,
        0 <= lines_before(stats, n).1 <= lines_before(stats, m).1,
    decreases m,
{
    if n < m {
        lemma_lines_grow(stats, n, m - 1);
    } else if m > 0 {
        lemma_lines_grow(stats, m - 1, m - 1);
    }
}

fn count_lines(repo: &RepoInfo) -> (lines: (u32, u32))
    requires
        has_countable_lines(*repo),
    ensures
        lines.0 == lines_changed(repo.diff_stats@).0,
        lines.1 == lines_changed(repo.diff_stats@).1,
{
    let mut added: u32 = 0;
    let mut deleted: u32 = 0;
    let mut i: usize = 0;
    while i < repo.diff_stats.len()
        invariant
            has_countable_lines(*repo),
            i <= repo.diff_stats@.len(),
            added == lines_before(repo.diff_stats@, i as int).0,
            deleted == lines_before(repo.diff_stats@, i as int).1,
        decreases repo.diff_stats@.len() - i,
    {
        proof {
            lemma_lines_grow(repo.diff_stats@, i + 1, repo.diff_stats@.len() as int);
        }
        if let Some((more, fewer)) = repo.diff_stats[i] {
            added = added + more;
            deleted = deleted + fewer;
        }
        i += 1;
    }
    (added, deleted)
}

/// What the repository of an arena tells.
#[derive(Debug, PartialEq)]
pub struct GitInfo {
    pub branch: Option<String>,
    pub browser_url: Option<String>,
    pub lines_added: u32,
    pub lines_deleted: u32,
}

/// Whether an info tells of a repository.
pub open spec fn is_git_info(repo: RepoInfo, info: GitInfo) -> bool {
    &&& text_model(info.branch) == text_model(repo.branch)
    &&& text_model(info.browser_url) == (match repo.remote_origin_url {
        Some(url) => browser_url(url@),
        None => None,
    })
    &&& info.lines_added == lines_changed(repo.diff_stats@).0
    &&& info.lines_deleted == lines_changed(repo.diff_stats@).1
}

/// Whether the changed lines of every repository that holds a directory can be
/// counted.
pub open spec fn has_countable_repos(repos: Seq<RepoInfo>, directory: Seq<char>) -> bool {
    forall|i: int| #[trigger] holds(repos, i, directory) ==> has_countable_lines(repos[i])
}

/// Whether an info tells of the innermost repository that holds a directory;
/// where none does, there is no info.
pub open spec fn tells_of(repos: Seq<RepoInfo>, directory: Seq<char>, info: Option<GitInfo>) -> bool {
    exists|found: Option<int>| #[trigger]
        innermost(repos, found, directory, false) && (found is Some) == (info is Some) && (
        info is Some ==> is_git_info(repos[found->0], info->0))
}

/// What the innermost repository that holds a directory tells.
pub fn git_info(repos: &Vec<RepoInfo>, directory: &str) -> (info: Option<GitInfo>)
    requires
        has_countable_repos(repos@, directory@),
    ensures
        tells_of(repos@, directory@, info),
{
    let found = innermost_repo(repos, directory, false);
    assert(innermost(repos@, int_index(found), directory@, false));
    match found {
        Some(index) => {
            let repo = &repos[index];
            let (lines_added, lines_deleted) = count_lines(repo);
            let browser_url = match &repo.remote_origin_url {
                Some(url) => remote_url_to_browser_url(url.as_str()),
                None => None,
            };
            let info = GitInfo {
                branch: repo.branch.clone(),
                browser_url,
                lines_added,
                lines_deleted,
            };
            assert(is_git_info(repos@[index as int], info));
            Some(info)
        },
        None => None,
    }
}

/// The row of an arena.
#[derive(Debug, PartialEq)]
pub struct ArenaRow {
    pub is_active: bool,
    pub is_renaming: bool,
    pub name: String,
    /// What a click on the name opens.
    pub name_url: Option<String>,
    pub waiting: usize,
    pub running: usize,
    pub ready: usize,
    pub branch: String,
    pub added: Option<String>,
    pub deleted: Option<String>,
    pub directory: Option<String>,
    pub pr: Option<PrBadge>,
    pub review: Option<ReviewBadge>,
}

/// A count of lines with its sign; nothing where there are none.
pub open spec fn lines_label(sign: Seq<char>, count: u32) -> Option<Seq<char>> {
    if count > 0 {
        Some(sign + decimal(count as nat))
    } else {
        None
    }
}

fn label_lines(sign: &str, count: u32) -> (label: Option<String>)
    ensures
        text_model(label) == lines_label(sign@, count),
{
    if count > 0 {
        let mut chars = chars_of(sign);
        let digits = decimal_chars(count as u64);
        extend(&mut chars, digits.as_slice());
        Some(text_of(chars.as_slice()))
    } else {
        None
    }
}

/// The directory that a row shows: the last name of the path, where it is not
/// the name of the arena.
pub open spec fn shown_directory(path: Option<Seq<char>>, name: Seq<char>) -> Option<Seq<char>> {
    match path {
        Some(path) => match file_name_of(path) {
            Some(last) if last != name => Some(last),
            _ => None,
        },
        None => None,
    }
}

/// Whether a row shows an arena, given what is known of its repository.
pub open spec fn is_row(
    arena: ArenaInfo,
    is_active: bool,
    is_renaming: bool,
    path: Option<Seq<char>>,
    git: Option<GitInfo>,
    shared: SharedSessionState,
    terminals: Seq<TerminalRef>,
    pr: Option<PrInfo>,
    ci: Option<CiStatus>,
    row: ArenaRow,
) -> bool {
    let count = terminals.len() as int;
    &&& row.is_active == is_active
    &&& row.is_renaming == is_renaming
    &&& row.name@ == arena.name@
    &&& text_model(row.name_url) == (match git {
        Some(git) if is_active && !is_renaming => text_model(git.browser_url),
        _ => None,
    })
    &&& row.waiting == count_before(shared, terminals, TerminalCount::Waiting, count)
    &&& row.running == count_before(shared, terminals, TerminalCount::Running, count)
    &&& row.ready == count_before(shared, terminals, TerminalCount::Ready, count)
    &&& row.branch@ == (match git {
        Some(GitInfo { branch: Some(branch), .. }) => branch@,
        _ => Seq::empty(),
    })
    &&& text_model(row.added) == (match git {
        Some(git) => lines_label("+"@, git.lines_added),
        None => None,
    })
    &&& text_model(row.deleted) == (match git {
        Some(git) => lines_label("-"@, git.lines_deleted),
        None => None,
    })
    &&& text_model(row.directory) == shown_directory(path, arena.name@)
    &&& match pr {
        Some(pr) => row.pr matches Some(badge) && is_pr_badge(pr, ci, badge) && is_review_badge(
            pr,
            row.review,
        ),
        None => row.pr is None && row.review is None,
    }
}

/// The value that a reference refers to.
pub open spec fn referent<T>(value: Option<&T>) -> Option<T> {
    match value {
        Some(value) => Some(*value),
        None => None,
    }
}

/// The row of an arena. `git` is what its repository tells, where `path` is
/// where the arena is taken to work.
pub fn arena_row(
    arena: &ArenaInfo,
    is_active: bool,
    is_renaming: bool,
    path: Option<String>,
    git: Option<GitInfo>,
    shared: &SharedSessionState,
    terminals: &Vec<TerminalRef>,
    pr: Option<&PrInfo>,
    ci: Option<CiStatus>,
) -> (row: ArenaRow)
    ensures
        is_row(
            *arena,
            is_active,
            is_renaming,
            text_model(path),
            git,
            *shared,
            terminals@,
            referent(pr),
            ci,
            row,
        ),
{
    let directory = match &path {
        Some(path) => match file_name(path.as_str()) {
            Some(last) => if same_text(last.as_str(), arena.name.as_str()) {
                None
            } else {
                Some(last)
            },
            None => None,
        },
        None => None,
    };
    let (name_url, branch, added, deleted) = match &git {
        Some(git) => (
            if is_active && !is_renaming {
                git.browser_url.clone()
            } else {
                None
            },
            match &git.branch {
                Some(branch) => branch.clone(),
                None => String::new(),
            },
            label_lines("+", git.lines_added),
            label_lines("-", git.lines_deleted),
        ),
        None => (None, String::new(), None, None),
    };
    let (pr_element, review_element) = match pr {
        Some(pr) => (Some(pr_badge(pr, ci)), review_badge(pr)),
        None => (None, None),
    };
    ArenaRow {
        is_active,
        is_renaming,
        name: arena.name.clone(),
        name_url,
        waiting: shared.count_waiting_claudes_in_arena(terminals),
        running: shared.count_running_claudes_in_arena(terminals),
        ready: shared.count_ready_terminals_in_arena(terminals),
        branch,
        added,
        deleted,
        directory,
        pr: pr_element,
        review: review_element,
    }
}

/// One check in a tooltip.
#[derive(Debug, PartialEq)]
pub struct CheckRow {
    pub icon: BadgeIcon,
    pub tone: Tone,
    pub text_tone: Tone,
    pub name: String,
}

/// What the tooltip of a pull request tells.
#[derive(Debug, PartialEq)]
pub struct PrTooltip {
    pub title: Option<String>,
    pub status: Option<(String, BadgeIcon, Tone)>,
    pub branch: Option<String>,
    pub checks: Vec<CheckRow>,
}

pub open spec fn check_icon_of(bucket: Seq<char>) -> (BadgeIcon, Tone) {
    if bucket == "pass"@ {
        (BadgeIcon::Check, Tone::Success)
    } else if bucket == "fail"@ {
        (BadgeIcon::Circle, Tone::Error)
    } else if bucket == "pending"@ {
        (BadgeIcon::Circle, Tone::Warning)
    } else if bucket == "skipping"@ {
        (BadgeIcon::Slash, Tone::Muted)
    } else {
        (BadgeIcon::Circle, Tone::Muted)
    }
}

/// Whether a row shows a check.
pub open spec fn is_check_row(check: CiCheckEntry, row: CheckRow) -> bool {
    &&& (row.icon, row.tone) == check_icon_of(check.bucket@)
    &&& row.text_tone == (if check.bucket@ == "pass"@ || check.bucket@ == "fail"@ {
        Tone::Text
    } else {
        Tone::Muted
    })
    &&& row.name@ == check.name@
}

/// Whether rows list checks in the order of their buckets and names.
pub open spec fn are_check_rows(checks: Seq<CiCheckEntry>, rows: Seq<CheckRow>) -> bool {
    exists|order: Seq<usize>| #[trigger]
        is_order(check_keys(checks), order) && rows.len() == order.len() && forall|i: int|
            0 <= i < order.len() ==> is_check_row(checks[order[i] as int], #[trigger] rows[i])
}

fn check_row(check: &CiCheckEntry) -> (row: CheckRow)
    ensures
        is_check_row(*check, row),
{
    let bucket = check.bucket.as_str();
    let pass = same_text(bucket, "pass");
    let fail = same_text(bucket, "fail");
    let (icon, tone) = if pass {
        (BadgeIcon::Check, Tone::Success)
    } else if fail {
        (BadgeIcon::Circle, Tone::Error)
    } else if same_text(bucket, "pending") {
        (BadgeIcon::Circle, Tone::Warning)
    } else if same_text(bucket, "skipping") {
        (BadgeIcon::Slash, Tone::Muted)
    } else {
        (BadgeIcon::Circle, Tone::Muted)
    };
    CheckRow {
        icon,
        tone,
        text_tone: if pass || fail {
            Tone::Text
        } else {
            Tone::Muted
        },
        name: check.name.clone(),
    }
}

/// Whether a tooltip tells of a pull request and its checks.
pub open spec fn is_pr_tooltip(
    pr: Option<PrInfo>,
    ci: Option<CiInfo>,
    branch: Option<Seq<char>>,
    tooltip: PrTooltip,
) -> bool {
    &&& match pr {
        Some(pr) => {
            &&& tooltip.title matches Some(title) && title@ == pr.title@ + " #"@ + decimal(
                pr.number as nat,
            )
            &&& tooltip.status matches Some((label, icon, tone)) && label@ == pr_label_of(pr.status)
                && icon == pr_icon_of(pr.status) && tone == pr_tone_of(pr.status)
            &&& text_model(tooltip.branch) == branch
        },
        None => tooltip.title is None && tooltip.status is None && tooltip.branch is None,
    }
    &&& match ci {
        Some(ci) => are_check_rows(ci.checks@, tooltip.checks@),
        None => tooltip.checks@.len() == 0,
    }
}

pub fn pr_tooltip(pr: Option<&PrInfo>, ci: Option<&CiInfo>, branch: Option<String>) -> (tooltip:
    PrTooltip)
    ensures
        is_pr_tooltip(referent(pr), referent(ci), text_model(branch), tooltip),
{
    let mut checks: Vec<CheckRow> = Vec::new();
    if let Some(ci) = ci {
        let order = sorted_checks(&ci.checks);
        assert(check_keys(ci.checks@).len() == ci.checks@.len());
        let mut i: usize = 0;
        while i < order.len()
            invariant
                i <= order@.len(),
                is_order(check_keys(ci.checks@), order@),
                check_keys(ci.checks@).len() == ci.checks@.len(),
                checks@.len() == i,
                forall|k: int|
                    0 <= k < i ==> is_check_row(
                        ci.checks@[order@[k] as int],
                        #[trigger] checks@[k],
                    ),
            decreases order@.len() - i,
        {
            checks.push(check_row(&ci.checks[order[i]]));
            i += 1;
        }
        assert(are_check_rows(ci.checks@, checks@));
    }
    match pr {
        Some(pr) => {
            let mut title = chars_of(pr.title.as_str());
            extend_text(&mut title, " #");
            let number = decimal_chars(pr.number as u64);
            extend(&mut title, number.as_slice());
            PrTooltip {
                title: Some(text_of(title.as_slice())),
                status: Some((pr_label(pr.status), pr_icon(pr.status), pr_tone(pr.status))),
                branch,
                checks,
            }
        },
        None => PrTooltip { title: None, status: None, branch: None, checks },
    }
}

/// One review in a tooltip.
#[derive(Debug, PartialEq)]
pub struct ReviewRow {
    /// What the review says; nothing for one of an older commit.
    pub icon: Option<(BadgeIcon, Tone)>,
    pub name_tone: Tone,
    pub user: String,
    pub avatar_url: String,
    pub submitted_at: String,
}

pub open spec fn review_icon_of(state: ReviewState) -> (BadgeIcon, Tone) {
    match state {
        ReviewState::Approved => (BadgeIcon::Check, Tone::Success),
        ReviewState::ChangesRequested => (BadgeIcon::FilledCross, Tone::Error),
        ReviewState::Commented => (BadgeIcon::Circle, Tone::Info),
        ReviewState::Dismissed => (BadgeIcon::Circle, Tone::Muted),
        ReviewState::Pending => (BadgeIcon::Circle, Tone::Warning),
    }
}

/// Whether a row shows a review.
pub open spec fn is_review_row(review: ReviewEntry, head: Seq<char>, row: ReviewRow) -> bool {
    let current = review.commit_oid@ == head;
    &&& row.icon == (if current {
        Some(review_icon_of(review.state))
    } else {
        None
    })
    &&& row.name_tone == (if current {
        Tone::Text
    } else {
        Tone::Muted
    })
    &&& row.user@ == review.user@
    &&& row.avatar_url@ == review.avatar_url@
    &&& row.submitted_at@ == review.submitted_at@
}

/// Whether rows list reviews: those of the current commit first, then by their
/// states, then by their authors.
pub open spec fn are_review_rows(
    reviews: Seq<ReviewEntry>,
    head: Seq<char>,
    rows: Seq<ReviewRow>,
) -> bool {
    exists|order: Seq<usize>| #[trigger]
        is_order(review_keys(reviews, head), order) && rows.len() == order.len() && forall|i: int|
            0 <= i < order.len() ==> is_review_row(
                reviews[order[i] as int],
                head,
                #[trigger] rows[i],
            )
}

fn review_row(review: &ReviewEntry, head_sha: &str) -> (row: ReviewRow)
    ensures
        is_review_row(*review, head_sha@, row),
{
    let current = same_text(review.commit_oid.as_str(), head_sha);
    let icon = match review.state {
        ReviewState::Approved => (BadgeIcon::Check, Tone::Success),
        ReviewState::ChangesRequested => (BadgeIcon::FilledCross, Tone::Error),
        ReviewState::Commented => (BadgeIcon::Circle, Tone::Info),
        ReviewState::Dismissed => (BadgeIcon::Circle, Tone::Muted),
        ReviewState::Pending => (BadgeIcon::Circle, Tone::Warning),
    };
    ReviewRow {
        icon: if current {
            Some(icon)
        } else {
            None
        },
        name_tone: if current {
            Tone::Text
        } else {
            Tone::Muted
        },
        user: review.user.clone(),
        avatar_url: review.avatar_url.clone(),
        submitted_at: review.submitted_at.clone(),
    }
}

/// What the tooltip of the reviews of a pull request tells.
pub fn review_tooltip(reviews: &Vec<ReviewEntry>, head_sha: &str) -> (rows: Vec<ReviewRow>)
    ensures
        are_review_rows(reviews@, head_sha@, rows@),
{
    let order = sorted_reviews(reviews, head_sha);
    assert(review_keys(reviews@, head_sha@).len() == reviews@.len());
    let mut rows: Vec<ReviewRow> = Vec::new();
    let mut i: usize = 0;
    while i < order.len()
        invariant
            i <= order@.len(),
            is_order(review_keys(reviews@, head_sha@), order@),
            review_keys(reviews@, head_sha@).len() == reviews@.len(),
            rows@.len() == i,
            forall|k: int|
                0 <= k < i ==> is_review_row(
                    reviews@[order@[k] as int],
                    head_sha@,
                    #[trigger] rows@[k],
                ),
        decreases order@.len() - i,
    {
        rows.push(review_row(&reviews[order[i]], head_sha));
        i += 1;
    }
    rows
}

/// How long ago a review was submitted, as its row says.
pub fn review_age(row: &ReviewRow) -> (text: String)
    ensures
        exists|seconds: i64, nanos: u32|
            seconds >= 0 && nanos < 1_000_000_000 && text@ == ago_text(
                row.submitted_at@,
                #[trigger] age_at(rfc3339_time(row.submitted_at@), seconds, nanos),
            ),
{
    format_relative_time(row.submitted_at.as_str())
}

/// The two lines of an entry in the menu of a badge.
pub open spec fn menu_lines(prompt: Seq<char>, status: Seq<char>) -> (Seq<char>, Seq<char>) {
    (
        if prompt.len() == 0 {
            "(no prompt)"@
        } else {
            menu_text(prompt)
        },
        menu_text(status),
    )
}

pub fn badge_menu_entry(info: &ReadyTerminalInfo) -> (entry: (String, String))
    ensures
        (entry.0@, entry.1@) == menu_lines(info.user_prompt@, info.status_message@),
{
    let prompt = if info.user_prompt.as_str().is_empty() {
        "(no prompt)".to_string()
    } else {
        truncate_for_menu(info.user_prompt.as_str())
    };
    (prompt, truncate_for_menu(info.status_message.as_str()))
}

/// A row of the rate limits: its name, when it is reset, and whether a bar shows
/// how much is used.
#[derive(Debug, PartialEq)]
pub struct RateLimitRow {
    pub label: String,
    pub reset_text: String,
    pub has_bar: bool,
}

/// The rate limits below the arenas. A mark tells where they are stale.
#[derive(Debug, PartialEq)]
pub struct RateLimitPanel {
    pub is_stale: bool,
    pub session: RateLimitRow,
    pub week: RateLimitRow,
}

/// The row of a limit, at a point in time in seconds. The bar goes when the
/// limit was reset.
pub fn rate_limit_row(label: &str, resets_at: i64, reset_text: String, now: i64) -> (row:
    RateLimitRow)
    ensures
        row.label@ == label@,
        row.reset_text@ == reset_text@,
        row.has_bar == !is_expired(resets_at, now),
{
    RateLimitRow {
        label: label.to_string(),
        reset_text,
        has_bar: !rate_limit_expired_at(resets_at, now),
    }
}

/// What is shown of the rate limits. The clock that they were received by shows
/// `clock`, the time is `now` in seconds, and `local` is how the machine writes
/// the time at which the weekly limit is reset.
pub fn rate_limit_panel(limits: &RateLimits, clock: u64, now: i64, local: Option<String>) -> (panel:
    RateLimitPanel)
    ensures
        panel.is_stale == (clock - limits.received_at > 3_600_000_000_000),
        panel.session.label@ == "session"@,
        panel.session.reset_text@ == resets_in_text(limits.five_hour_resets_at, now),
        panel.session.has_bar == !is_expired(limits.five_hour_resets_at, now),
        panel.week.label@ == "week"@,
        panel.week.reset_text@ == resets_at_day_text(
            limits.seven_day_resets_at,
            now,
            text_model(local),
        ),
        panel.week.has_bar == !is_expired(limits.seven_day_resets_at, now),
{
    let elapsed: u64 = if clock > limits.received_at {
        clock - limits.received_at
    } else {
        0
    };
    let session_text = format_resets_in_at(limits.five_hour_resets_at, now);
    let week_text = format_resets_at_day_with(limits.seven_day_resets_at, now, local);
    RateLimitPanel {
        is_stale: rate_limits_stale(elapsed),
        session: rate_limit_row("session", limits.five_hour_resets_at, session_text, now),
        week: rate_limit_row("week", limits.seven_day_resets_at, week_text, now),
    }
}

/// How a pull request looks tells its status apart: green where it is open, muted
/// where it is a draft, and each of the others in a colour of its own.
pub proof fn law_looks_of_pull_requests(pr: PrInfo, ci: Option<CiStatus>, badge: PrBadge)
    requires
        is_pr_badge(pr, ci, badge),
    ensures
        pr.status is Open ==> badge.tone is Success && badge.icon is PullRequest,
        pr.status is Draft ==> badge.tone is Muted && badge.icon is PullRequest,
        pr.status is Merged ==> badge.tone is Merged && badge.icon is GitGraph,
        pr.status is Closed ==> badge.tone is Error && badge.icon is PullRequestClosed,
        pr.status is Conflicted ==> badge.tone is Warning && badge.icon is MergeConflict,
        badge.url@ == pr.html_url@,
        badge.label@ == "#"@ + decimal(pr.number as nat),
        pr.status is Merged || ci is None ==> badge.ci is None,
        !(pr.status is Merged) && ci is Some ==> {
            &&& ci->0 is AllPassed ==> badge.ci == Some((BadgeIcon::Check, Tone::Success))
            &&& ci->0 is Failed ==> badge.ci == Some((BadgeIcon::FilledCross, Tone::Error))
            &&& ci->0 is PendingWithFailure ==> badge.ci == Some((BadgeIcon::Circle, Tone::Error))
            &&& ci->0 is PendingClean ==> badge.ci == Some((BadgeIcon::Circle, Tone::Warning))
        },
{
}

/// What the reviews of a pull request come to shows while it is not merged: the
/// decision, or how many reviews there are.
pub proof fn law_looks_of_reviews(pr: PrInfo, badge: Option<ReviewBadge>)
    requires
        is_review_badge(pr, badge),
    ensures
        pr.status is Merged ==> badge is None,
        !(pr.status is Merged) && pr.review_decision is Some ==> badge is Some && (badge->0).label
            is None && {
            &&& pr.review_decision->0 is Approved ==> (badge->0).tone is Success && (badge->0).icon
                is Check
            &&& pr.review_decision->0 is ChangesRequested ==> (badge->0).tone is Error
            &&& pr.review_decision->0 is ReviewRequired ==> (badge->0).tone is Warning
        },
        !(pr.status is Merged) && pr.review_decision is None ==> (badge is Some) == (pr.review_count
            > 0),
        !(pr.status is Merged) && pr.review_decision is None && badge is Some ==> (badge->0).icon
            is Eye && text_model((badge->0).label) == Some(decimal(pr.review_count as nat)),
{
}

/// The lines of a repository are those of its files together: one more file adds
/// its own.
pub proof fn law_changed_lines(stats: Seq<Option<(u32, u32)>>, added: u32, deleted: u32)
    ensures
        lines_changed(Seq::<Option<(u32, u32)>>::empty()) == (0int, 0int),
        lines_changed(stats.push(Some((added, deleted)))).0 == lines_changed(stats).0 + added,
        lines_changed(stats.push(Some((added, deleted)))).1 == lines_changed(stats).1 + deleted,
        lines_changed(stats.push(None)) == lines_changed(stats),
{
    lemma_lines_of_prefix(stats, stats.push(Some((added, deleted))), stats.len() as int);
    lemma_lines_of_prefix(stats, stats.push(None), stats.len() as int);
}

proof fn lemma_lines_of_prefix(a: Seq<Option<(u32, u32)>>, b: Seq<Option<(u32, u32)>>, n: int)
    requires
        0 <= n <= a.len(),
        n <= b.len(),
        forall|i: int| 0 <= i < n ==> #[trigger] a[i] == b[i],
    ensures
        lines_before(a, n) == lines_before(b, n),
    decreases n,
{
    if n > 0 {
        lemma_lines_of_prefix(a, b, n - 1);
        assert(a[n - 1] == b[n - 1]);
    }
}

/// The row of an arena: its name is a link only while it is shown and not renamed,
/// counts of lines show where there are any, and the last name of its directory
/// where the arena is called otherwise.
pub proof fn law_rows_of_arenas(
    arena: ArenaInfo,
    is_active: bool,
    is_renaming: bool,
    path: Option<Seq<char>>,
    git: Option<GitInfo>,
    shared: SharedSessionState,
    terminals: Seq<TerminalRef>,
    pr: Option<PrInfo>,
    ci: Option<CiStatus>,
    row: ArenaRow,
)
    requires
        is_row(arena, is_active, is_renaming, path, git, shared, terminals, pr, ci, row),
    ensures
        row.is_active == is_active && row.is_renaming == is_renaming,
        row.name@ == arena.name@,
        row.name_url is Some ==> is_active && !is_renaming && git is Some,
        is_active && !is_renaming && git is Some ==> text_model(row.name_url) == text_model(
            (git->0).browser_url,
        ),
        git is None ==> row.branch@.len() == 0 && row.added is None && row.deleted is None,
        git is Some && (git->0).branch is Some ==> row.branch@ == (git->0).branch->0@,
        git is Some ==> (row.added is Some) == ((git->0).lines_added > 0) && (row.deleted is Some)
            == ((git->0).lines_deleted > 0),
        git is Some && row.added is Some ==> row.added->0@ == "+"@ + decimal(
            (git->0).lines_added as nat,
        ),
        git is Some && row.deleted is Some ==> row.deleted->0@ == "-"@ + decimal(
            (git->0).lines_deleted as nat,
        ),
        row.directory is Some ==> path is Some && file_name_of(path->0) == Some(row.directory->0@)
            && row.directory->0@ != arena.name@,
        path is Some && (file_name_of(path->0) matches Some(last) && last != arena.name@)
            ==> text_model(row.directory) == file_name_of(path->0),
        (row.pr is Some) == (pr is Some),
        pr is Some ==> (row.pr->0).url@ == (pr->0).html_url@,
        pr is None ==> row.review is None,
        row.waiting == count_before(
            shared,
            terminals,
            TerminalCount::Waiting,
            terminals.len() as int,
        ),
        row.running == count_before(
            shared,
            terminals,
            TerminalCount::Running,
            terminals.len() as int,
        ),
        row.ready == count_before(shared, terminals, TerminalCount::Ready, terminals.len() as int),
{
}

/// How a check looks tells its bucket.
pub proof fn law_looks_of_checks(check: CiCheckEntry, row: CheckRow)
    requires
        is_check_row(check, row),
    ensures
        row.name@ == check.name@,
        check.bucket@ == "pass"@ ==> row.icon is Check && row.tone is Success && row.text_tone
            is Text,
        check.bucket@ == "fail"@ ==> row.icon is Circle && row.tone is Error && row.text_tone
            is Text,
        check.bucket@ == "pending"@ ==> row.icon is Circle && row.tone is Warning && row.text_tone
            is Muted,
        check.bucket@ == "skipping"@ ==> row.icon is Slash && row.tone is Muted && row.text_tone
            is Muted,
{
    reveal_strlit("pass");
    reveal_strlit("skipping");
    reveal_strlit("fail");
    reveal_strlit("pending");
    assert("pass"@.len() == 4 && "skipping"@.len() == 8 && "fail"@.len() == 4 && "pending"@.len()
        == 7);
    assert("pass"@[0] == 'p' && "fail"@[0] == 'f');
}

/// Every check of a pull request has its row in the tooltip.
pub proof fn law_every_check_has_a_row(checks: Seq<CiCheckEntry>, rows: Seq<CheckRow>, k: int)
    requires
        are_check_rows(checks, rows),
        0 <= k < checks.len(),
        checks.len() <= usize::MAX,
    ensures
        rows.len() == checks.len(),
        exists|i: int|
            0 <= i < rows.len() && (#[trigger] rows[i]).name@ == checks[k].name@ && is_check_row(
                checks[k],
                rows[i],
            ),
{
    let order = choose|order: Seq<usize>| #[trigger]
        is_order(check_keys(checks), order) && rows.len() == order.len() && forall|i: int|
            0 <= i < order.len() ==> is_check_row(checks[order[i] as int], #[trigger] rows[i]);
    assert(check_keys(checks).len() == checks.len());
    assert(order.contains(k as usize));
    let i = choose|i: int| 0 <= i < order.len() && order[i] == k as usize;
    assert(is_check_row(checks[order[i] as int], rows[i]));
}

/// A review shows what it says while it is of the current commit, and that it is
/// old else.
pub proof fn law_rows_of_reviews(review: ReviewEntry, head: Seq<char>, row: ReviewRow)
    requires
        is_review_row(review, head, row),
    ensures
        row.user@ == review.user@ && row.submitted_at@ == review.submitted_at@,
        row.avatar_url@ == review.avatar_url@,
        review.commit_oid@ != head ==> row.icon is None && row.name_tone is Muted,
        review.commit_oid@ == head ==> row.icon is Some && row.name_tone is Text && {
            &&& review.state is Approved ==> row.icon == Some((BadgeIcon::Check, Tone::Success))
            &&& review.state is ChangesRequested ==> row.icon == Some(
                (BadgeIcon::FilledCross, Tone::Error),
            )
            &&& review.state is Commented ==> row.icon == Some((BadgeIcon::Circle, Tone::Info))
            &&& review.state is Dismissed ==> row.icon == Some((BadgeIcon::Circle, Tone::Muted))
            &&& review.state is Pending ==> row.icon == Some((BadgeIcon::Circle, Tone::Warning))
        },
{
}

/// The tooltip of a pull request tells its title with its number, its status and
/// the branch.
pub proof fn law_tooltips(
    pr: PrInfo,
    ci: Option<CiInfo>,
    branch: Option<Seq<char>>,
    tooltip: PrTooltip,
)
    requires
        is_pr_tooltip(Some(pr), ci, branch, tooltip),
    ensures
        tooltip.title is Some && tooltip.title->0@ == pr.title@ + " #"@ + decimal(
            pr.number as nat,
        ),
        text_model(tooltip.branch) == branch,
        tooltip.status is Some,
        pr.status is Open ==> (tooltip.status->0).0@ == "Open"@,
        pr.status is Draft ==> (tooltip.status->0).0@ == "Draft"@,
        pr.status is Merged ==> (tooltip.status->0).0@ == "Merged"@,
        pr.status is Closed ==> (tooltip.status->0).0@ == "Closed"@,
        pr.status is Conflicted ==> (tooltip.status->0).0@ == "Conflicted"@,
        ci is None ==> tooltip.checks@.len() == 0,
{
}

/// An entry in the menu of a badge shows the prompt, or that there is none.
pub proof fn law_menu_entries(prompt: Seq<char>, status: Seq<char>)
    ensures
        prompt.len() == 0 ==> menu_lines(prompt, status).0 == "(no prompt)"@,
        prompt.len() > 0 ==> menu_lines(prompt, status).0 == menu_text(prompt),
        menu_lines(prompt, status).1 == menu_text(status),
{
}

/// What is told of a repository is told of that one: its branch, and the lines that
/// were added and deleted in all its files.
pub proof fn law_what_is_told_of_a_repository(repo: RepoInfo, info: GitInfo)
    requires
        is_git_info(repo, info),
    ensures
        repo.branch is Some <==> info.branch is Some,
        repo.branch is Some ==> info.branch->0@ == repo.branch->0@,
        repo.remote_origin_url is None ==> info.browser_url is None,
        repo.diff_stats@.len() == 0 ==> info.lines_added == 0 && info.lines_deleted == 0,
        repo.diff_stats@.len() == 1 && repo.diff_stats@[0] is Some ==> info.lines_added == (
        repo.diff_stats@[0]->0).0 && info.lines_deleted == (repo.diff_stats@[0]->0).1,
{
    reveal_with_fuel(lines_before, 2);
}

} // verus!
