//! Pull requests, their reviews and their checks.

use vstd::prelude::*;
use vstd::slice::slice_subrange;

use crate::order::{code_points, extend_key, is_order, key_views, sorted_by_keys};
use crate::text::{
    chars_of, extend, extend_text, next_char, same_text, seek_char, starts_with, starts_with_text,
    text_of,
};

verus! {

#[derive(Clone, Copy, Debug, PartialEq, Eq, Structural)]
pub enum PrStatus {
    Draft,
    Open,
    Merged,
    Closed,
    Conflicted,
}

#[derive(Clone, Copy, Debug, PartialEq, Eq, Structural)]
pub enum ReviewDecision {
    Approved,
    ChangesRequested,
    ReviewRequired,
}

#[derive(Clone, Copy, Debug, PartialEq, Eq, Structural)]
pub enum ReviewState {
    Approved,
    ChangesRequested,
    Commented,
    Dismissed,
    Pending,
}

/// The latest review of one user.
#[derive(Debug, PartialEq)]
pub struct ReviewEntry {
    pub user: String,
    pub state: ReviewState,
    pub commit_oid: String,
    pub avatar_url: String,
    pub submitted_at: String,
}

#[derive(Debug, PartialEq)]
pub struct PrInfo {
    pub number: u32,
    pub title: String,
    pub status: PrStatus,
    pub html_url: String,
    pub review_decision: Option<ReviewDecision>,
    pub review_count: usize,
    pub head_sha: String,
    pub reviews: Vec<ReviewEntry>,
}

#[derive(Clone, Copy, Debug, PartialEq, Eq, Structural)]
pub enum CiStatus {
    AllPassed,
    Failed,
    PendingWithFailure,
    PendingClean,
}

#[derive(Debug, PartialEq)]
pub struct CiCheckEntry {
    pub name: String,
    pub bucket: String,
}

#[derive(Debug, PartialEq)]
pub struct CiInfo {
    pub status: CiStatus,
    pub checks: Vec<CiCheckEntry>,
}

/// A pull request as `gh pr view` gives it.
#[derive(Debug)]
pub struct GhPrView {
    pub number: u32,
    pub title: String,
    pub state: String,
    pub mergeable: String,
    pub is_draft: bool,
    pub url: String,
    pub review_decision: String,
    pub head_ref_oid: String,
}

/// A review as the REST API gives it.
#[derive(Debug)]
pub struct RestReview {
    pub login: String,
    pub avatar_url: String,
    pub state: String,
    pub commit_id: String,
    pub submitted_at: String,
}

/// What a [`ReviewEntry`] stands for.
pub struct ReviewModel {
    pub user: Seq<char>,
    pub state: ReviewState,
    pub commit_oid: Seq<char>,
    pub avatar_url: Seq<char>,
    pub submitted_at: Seq<char>,
}

impl View for ReviewEntry {
    type V = ReviewModel;

    open spec fn view(&self) -> ReviewModel {
        ReviewModel {
            user: self.user@,
            state: self.state,
            commit_oid: self.commit_oid@,
            avatar_url: self.avatar_url@,
            submitted_at: self.submitted_at@,
        }
    }
}

pub open spec fn pr_status_of(mergeable: Seq<char>, is_draft: bool, state: Seq<char>) -> PrStatus {
    if mergeable == "CONFLICTING"@ {
        PrStatus::Conflicted
    } else if is_draft {
        PrStatus::Draft
    } else if state == "MERGED"@ {
        PrStatus::Merged
    } else if state == "CLOSED"@ {
        PrStatus::Closed
    } else {
        PrStatus::Open
    }
}

pub open spec fn review_decision_of(text: Seq<char>) -> Option<ReviewDecision> {
    if text == "APPROVED"@ {
        Some(ReviewDecision::Approved)
    } else if text == "CHANGES_REQUESTED"@ {
        Some(ReviewDecision::ChangesRequested)
    } else if text == "REVIEW_REQUIRED"@ {
        Some(ReviewDecision::ReviewRequired)
    } else {
        None
    }
}

pub open spec fn review_state_of(text: Seq<char>) -> ReviewState {
    if text == "APPROVED"@ {
        ReviewState::Approved
    } else if text == "CHANGES_REQUESTED"@ {
        ReviewState::ChangesRequested
    } else if text == "COMMENTED"@ {
        ReviewState::Commented
    } else if text == "DISMISSED"@ {
        ReviewState::Dismissed
    } else {
        ReviewState::Pending
    }
}

pub fn pr_status(mergeable: &str, is_draft: bool, state: &str) -> (status: PrStatus)
    ensures
        status == pr_status_of(mergeable@, is_draft, state@),
{
    if same_text(mergeable, "CONFLICTING") {
        PrStatus::Conflicted
    } else if is_draft {
        PrStatus::Draft
    } else if same_text(state, "MERGED") {
        PrStatus::Merged
    } else if same_text(state, "CLOSED") {
        PrStatus::Closed
    } else {
        PrStatus::Open
    }
}

pub fn review_decision(text: &str) -> (decision: Option<ReviewDecision>)
    ensures
        decision == review_decision_of(text@),
{
    if same_text(text, "APPROVED") {
        Some(ReviewDecision::Approved)
    } else if same_text(text, "CHANGES_REQUESTED") {
        Some(ReviewDecision::ChangesRequested)
    } else if same_text(text, "REVIEW_REQUIRED") {
        Some(ReviewDecision::ReviewRequired)
    } else {
        None
    }
}

pub fn review_state(text: &str) -> (state: ReviewState)
    ensures
        state == review_state_of(text@),
{
    if same_text(text, "APPROVED") {
        ReviewState::Approved
    } else if same_text(text, "CHANGES_REQUESTED") {
        ReviewState::ChangesRequested
    } else if same_text(text, "COMMENTED") {
        ReviewState::Commented
    } else if same_text(text, "DISMISSED") {
        ReviewState::Dismissed
    } else {
        ReviewState::Pending
    }
}

/// How many entries from `from` on, up to `to`, are reviews of a commit.
pub open spec fn reviews_of_commit(reviews: Seq<ReviewEntry>, head: Seq<char>, n: int) -> int
    decreases n,
{
    if n <= 0 {
        0
    } else {
        reviews_of_commit(reviews, head, n - 1) + if reviews[n - 1].commit_oid@ == head {
            1int
        } else {
            0
        }
    }
}

/// Whether an info tells of a pull request, given its reviews.
pub open spec fn is_pr_info(view: GhPrView, reviews: Seq<ReviewEntry>, info: PrInfo) -> bool {
    &&& info.number == view.number
    &&& info.title@ == view.title@
    &&& info.status == pr_status_of(view.mergeable@, view.is_draft, view.state@)
    &&& info.html_url@ == view.url@
    &&& info.review_decision == review_decision_of(view.review_decision@)
    &&& info.head_sha@ == view.head_ref_oid@
    &&& info.reviews@ == reviews
    &&& info.review_count == reviews_of_commit(reviews, view.head_ref_oid@, reviews.len() as int)
}

/// What is known of a pull request. Where the reviews could not be had there
/// are none.
pub fn pr_info(view: GhPrView, reviews: Option<Vec<ReviewEntry>>) -> (info: PrInfo)
    ensures
        is_pr_info(
            view,
            match reviews {
                Some(reviews) => reviews@,
                None => Seq::empty(),
            },
            info,
        ),
{
    let reviews = match reviews {
        Some(reviews) => reviews,
        None => Vec::new(),
    };
    let status = pr_status(view.mergeable.as_str(), view.is_draft, view.state.as_str());
    let decision = review_decision(view.review_decision.as_str());
    let mut count: usize = 0;
    let mut i: usize = 0;
    while i < reviews.len()
        invariant
            i <= reviews@.len(),
            count <= i,
            count == reviews_of_commit(reviews@, view.head_ref_oid@, i as int),
        decreases reviews@.len() - i,
    {
        if same_text(reviews[i].commit_oid.as_str(), view.head_ref_oid.as_str()) {
            count += 1;
        }
        i += 1;
    }
    PrInfo {
        number: view.number,
        title: view.title,
        status,
        html_url: view.url,
        review_decision: decision,
        review_count: count,
        head_sha: view.head_ref_oid,
        reviews,
    }
}

/// The path of the REST API for the reviews of the pull request at a URL such
/// as `https://github.com/{owner}/{repo}/pull/{number}`.
pub open spec fn reviews_path(url: Seq<char>) -> Option<Seq<char>> {
    if !starts_with(url, "https://github.com/"@) {
        None
    } else {
        let path = url.skip("https://github.com/"@.len() as int);
        let first = next_char(path, 0, '/');
        let second = next_char(path, first + 1, '/');
        let third = next_char(path, second + 1, '/');
        if first < path.len() && second < path.len() && third < path.len() {
            Some(
                "repos/"@ + path.take(first) + "/"@ + path.subrange(first + 1, second) + "/pulls/"@
                    + path.skip(third + 1) + "/reviews"@,
            )
        } else {
            None
        }
    }
}

pub fn reviews_api_path(pr_url: &str) -> (path: Option<String>)
    ensures
        match path {
            Some(path) => reviews_path(pr_url@) == Some(path@),
            None => reviews_path(pr_url@) is None,
        },
{
    proof {
        reveal_strlit("https://github.com/");
    }
    let chars = chars_of(pr_url);
    let url = chars.as_slice();
    if !starts_with_text(url, "https://github.com/") {
        return None;
    }
    let path = slice_subrange(url, 19, url.len());
    assert(path@ =~= pr_url@.skip(19));
    let first = seek_char(path, 0, '/');
    if first >= path.len() {
        return None;
    }
    let second = seek_char(path, first + 1, '/');
    if second >= path.len() {
        return None;
    }
    let third = seek_char(path, second + 1, '/');
    if third >= path.len() {
        return None;
    }
    let mut out = chars_of("repos/");
    extend(&mut out, slice_subrange(path, 0, first));
    extend_text(&mut out, "/");
    extend(&mut out, slice_subrange(path, first + 1, second));
    extend_text(&mut out, "/pulls/");
    extend(&mut out, slice_subrange(path, third + 1, path.len()));
    extend_text(&mut out, "/reviews");
    assert(path@.subrange(0, first as int) =~= path@.take(first as int));
    assert(path@.subrange(third + 1, path@.len() as int) =~= path@.skip(third + 1));
    Some(text_of(out.as_slice()))
}

/// What a review from the REST API tells.
pub open spec fn review_model(review: RestReview) -> ReviewModel {
    ReviewModel {
        user: review.login@,
        state: review_state_of(review.state@),
        commit_oid: review.commit_id@,
        avatar_url: review.avatar_url@,
        submitted_at: review.submitted_at@,
    }
}

/// Whether the review at `index` is the last one of its author among the first
/// `n`.
pub open spec fn is_last_of_author(reviews: Seq<RestReview>, index: int, n: int) -> bool {
    0 <= index < n && forall|k: int|
        index < k < n ==> (#[trigger] reviews[k]).login@ != reviews[index].login@
}

/// Whether entries hold the last review of each author among the first `n`, and
/// of no author twice. Reviews come in the order in which they were made.
pub open spec fn are_latest(entries: Seq<ReviewEntry>, reviews: Seq<RestReview>, n: int) -> bool {
    &&& forall|i: int, j: int|
        0 <= i < j < entries.len() ==> (#[trigger] entries[i]).user@ != (
        #[trigger] entries[j]).user@
    &&& forall|i: int|
        0 <= i < entries.len() ==> is_entry_of(#[trigger] entries[i], reviews, n)
    &&& forall|k: int|
        0 <= k < n ==> has_entry_for(entries, (#[trigger] reviews[k]).login@)
}

pub open spec fn is_entry_of(entry: ReviewEntry, reviews: Seq<RestReview>, n: int) -> bool {
    exists|k: int| #[trigger]
        is_last_of_author(reviews, k, n) && entry@ == review_model(reviews[k])
}

pub open spec fn has_entry_for(entries: Seq<ReviewEntry>, user: Seq<char>) -> bool {
    exists|i: int| 0 <= i < entries.len() && (#[trigger] entries[i]).user@ == user
}

/// The latest review of each author. In which order they come is left open.
pub fn latest_reviews(reviews: &Vec<RestReview>) -> (entries: Vec<ReviewEntry>)
    ensures
        are_latest(entries@, reviews@, reviews@.len() as int),
{
    let mut entries: Vec<ReviewEntry> = Vec::new();
    let mut n: usize = 0;
    while n < reviews.len()
        invariant
            n <= reviews@.len(),
            are_latest(entries@, reviews@, n as int),
        decreases reviews@.len() - n,
    {
        let review = &reviews[n];
        let entry = ReviewEntry {
            user: review.login.clone(),
            state: review_state(review.state.as_str()),
            commit_oid: review.commit_id.clone(),
            avatar_url: review.avatar_url.clone(),
            submitted_at: review.submitted_at.clone(),
        };
        let ghost before = entries@;
        let ghost own = entry;
        let mut at: usize = 0;
        while at < entries.len() && !same_text(entries[at].user.as_str(), review.login.as_str())
            invariant
                at <= entries@.len(),
                entries@ == before,
                forall|k: int|
                    0 <= k < at ==> (#[trigger] entries@[k]).user@ != review.login@,
            decreases entries@.len() - at,
        {
            at += 1;
        }
        if at < entries.len() {
            entries.set(at, entry);
        } else {
            entries.push(entry);
        }
        proof {
            lemma_latest_step(before, entries@, reviews@, n as int, at as int, own);
        }
        n += 1;
    }
    entries
}

proof fn lemma_latest_step(
    before: Seq<ReviewEntry>,
    after: Seq<ReviewEntry>,
    reviews: Seq<RestReview>,
    n: int,
    at: int,
    entry: ReviewEntry,
)
    requires
        0 <= n < reviews.len(),
        0 <= at <= before.len(),
        are_latest(before, reviews, n),
        entry@ == review_model(reviews[n]),
        at < before.len() ==> before[at].user@ == reviews[n].login@ && after == before.update(
            at,
            entry,
        ),
        at == before.len() ==> after == before.push(entry),
        forall|k: int| 0 <= k < at ==> (#[trigger] before[k]).user@ != reviews[n].login@,
    ensures
        are_latest(after, reviews, n + 1),
{
    assert forall|i: int, j: int| 0 <= i < j < after.len() implies (#[trigger] after[i]).user@ != (
    #[trigger] after[j]).user@ by {
        if j < before.len() {
            assert(before[i].user@ != before[j].user@);
        }
    }
    assert forall|i: int| 0 <= i < after.len() implies is_entry_of(
        #[trigger] after[i],
        reviews,
        n + 1,
    ) by {
        if i == at {
            assert(is_last_of_author(reviews, n, n + 1));
        } else {
            assert(after[i] == before[i]);
            assert(is_entry_of(before[i], reviews, n));
            let k = choose|k: int| #[trigger]
                is_last_of_author(reviews, k, n) && before[i]@ == review_model(reviews[k]);
            if at < before.len() {
                if i < at {
                    assert(before[i].user@ != before[at].user@);
                } else {
                    assert(before[at].user@ != before[i].user@);
                }
            }
            assert(before[i].user@ == reviews[k].login@);
            assert(is_last_of_author(reviews, k, n + 1));
        }
    }
    assert forall|k: int| 0 <= k < n + 1 implies has_entry_for(
        after,
        (#[trigger] reviews[k]).login@,
    ) by {
        assert(after[at] == entry);
        if k < n {
            assert(has_entry_for(before, reviews[k].login@));
            let i = choose|i: int|
                0 <= i < before.len() && (#[trigger] before[i]).user@ == reviews[k].login@;
            assert(after[i].user@ == before[i].user@);
        }
    }
}

/// Whether any of the checks is in a bucket.
pub open spec fn any_in(checks: Seq<CiCheckEntry>, bucket: Seq<char>) -> bool {
    exists|i: int| 0 <= i < checks.len() && (#[trigger] checks[i]).bucket@ == bucket
}

/// What checks come to: pending ones first, then whether all have passed or
/// were skipped.
pub open spec fn ci_status_of(checks: Seq<CiCheckEntry>) -> CiStatus {
    if any_in(checks, "pending"@) {
        if any_in(checks, "fail"@) {
            CiStatus::PendingWithFailure
        } else {
            CiStatus::PendingClean
        }
    } else if forall|i: int|
        0 <= i < checks.len() ==> (#[trigger] checks[i]).bucket@ == "pass"@ || checks[i].bucket@
            == "skipping"@ {
        CiStatus::AllPassed
    } else {
        CiStatus::Failed
    }
}

/// What is known of the checks; nothing where there are none.
pub fn ci_info(checks: Vec<CiCheckEntry>) -> (info: Option<CiInfo>)
    ensures
        match info {
            Some(info) => checks@.len() > 0 && info.checks == checks && info.status == ci_status_of(
                checks@,
            ),
            None => checks@.len() == 0,
        },
{
    if checks.len() == 0 {
        return None;
    }
    let mut has_pending = false;
    let mut has_fail = false;
    let mut all_passed = true;
    let mut i: usize = 0;
    while i < checks.len()
        invariant
            i <= checks@.len(),
            has_pending == exists|k: int|
                0 <= k < i && (#[trigger] checks@[k]).bucket@ == "pending"@,
            has_fail == exists|k: int| 0 <= k < i && (#[trigger] checks@[k]).bucket@ == "fail"@,
            all_passed == forall|k: int|
                0 <= k < i ==> (#[trigger] checks@[k]).bucket@ == "pass"@ || checks@[k].bucket@
                    == "skipping"@,
        decreases checks@.len() - i,
    {
        let bucket = checks[i].bucket.as_str();
        assert(checks@[i as int].bucket@ == bucket@);
        if same_text(bucket, "pending") {
            has_pending = true;
        }
        if same_text(bucket, "fail") {
            has_fail = true;
        }
        if !same_text(bucket, "pass") && !same_text(bucket, "skipping") {
            all_passed = false;
        }
        i += 1;
    }
    let status = if has_pending {
        if has_fail {
            CiStatus::PendingWithFailure
        } else {
            CiStatus::PendingClean
        }
    } else if all_passed {
        CiStatus::AllPassed
    } else {
        CiStatus::Failed
    };
    Some(CiInfo { status, checks })
}

pub open spec fn review_rank(state: ReviewState) -> u8 {
    match state {
        ReviewState::Pending => 0,
        ReviewState::Commented => 1,
        ReviewState::Approved => 2,
        ReviewState::Dismissed => 3,
        ReviewState::ChangesRequested => 4,
    }
}

pub fn review_state_order(state: &ReviewState) -> (rank: u8)
    ensures
        rank == review_rank(*state),
{
    match state {
        ReviewState::Pending => 0,
        ReviewState::Commented => 1,
        ReviewState::Approved => 2,
        ReviewState::Dismissed => 3,
        ReviewState::ChangesRequested => 4,
    }
}

/// The place of a bucket in a list of checks: what has failed comes first, then
/// what is pending, what has passed, and what was skipped.
pub open spec fn bucket_rank(bucket: Seq<char>) -> u8 {
    if bucket == "fail"@ {
        0
    } else if bucket == "pending"@ {
        1
    } else if bucket == "pass"@ {
        2
    } else if bucket == "skipping"@ {
        3
    } else {
        4
    }
}

pub fn ci_bucket_order(bucket: &str) -> (rank: u8)
    ensures
        rank == bucket_rank(bucket@),
{
    if same_text(bucket, "fail") {
        0
    } else if same_text(bucket, "pending") {
        1
    } else if same_text(bucket, "pass") {
        2
    } else if same_text(bucket, "skipping") {
        3
    } else {
        4
    }
}

/// How checks are sorted: by their buckets, then by their names.
pub open spec fn check_keys(checks: Seq<CiCheckEntry>) -> Seq<Seq<u32>> {
    Seq::new(
        checks.len(),
        |i: int| seq![bucket_rank(checks[i].bucket@) as u32] + code_points(checks[i].name@),
    )
}

/// The order in which checks are listed.
pub fn sorted_checks(checks: &Vec<CiCheckEntry>) -> (order: Vec<usize>)
    ensures
        is_order(check_keys(checks@), order@),
{
    let mut keys: Vec<Vec<u32>> = Vec::new();
    let mut i: usize = 0;
    while i < checks.len()
        invariant
            i <= checks@.len(),
            key_views(keys@) =~= check_keys(checks@).take(i as int),
        decreases checks@.len() - i,
    {
        let ghost before = key_views(keys@);
        let mut key: Vec<u32> = vec![ci_bucket_order(checks[i].bucket.as_str()) as u32];
        assert(key@ =~= seq![bucket_rank(checks@[i as int].bucket@) as u32]);
        let name = chars_of(checks[i].name.as_str());
        extend_key(&mut key, name.as_slice());
        let ghost view = key@;
        keys.push(key);
        assert(key_views(keys@) =~= before.push(view));
        i += 1;
    }
    assert(key_views(keys@) =~= check_keys(checks@));
    sorted_by_keys(&keys)
}

/// How reviews are sorted: those of the current commit first, then by their
/// states, then by their authors.
pub open spec fn review_keys(reviews: Seq<ReviewEntry>, head: Seq<char>) -> Seq<Seq<u32>> {
    Seq::new(
        reviews.len(),
        |i: int|
            seq![
                if reviews[i].commit_oid@ == head {
                    0u32
                } else {
                    1u32
                },
                review_rank(reviews[i].state) as u32,
            ] + code_points(reviews[i].user@),
    )
}

/// The order in which reviews are listed.
pub fn sorted_reviews(reviews: &Vec<ReviewEntry>, head_sha: &str) -> (order: Vec<usize>)
    ensures
        is_order(review_keys(reviews@, head_sha@), order@),
{
    let mut keys: Vec<Vec<u32>> = Vec::new();
    let mut i: usize = 0;
    while i < reviews.len()
        invariant
            i <= reviews@.len(),
            key_views(keys@) =~= review_keys(reviews@, head_sha@).take(i as int),
        decreases reviews@.len() - i,
    {
        let ghost before = key_views(keys@);
        let first: u32 = if same_text(reviews[i].commit_oid.as_str(), head_sha) {
            0
        } else {
            1
        };
        let second: u32 = review_state_order(&reviews[i].state) as u32;
        let mut key: Vec<u32> = vec![first, second];
        assert(key@ =~= seq![first, second]);
        let user = chars_of(reviews[i].user.as_str());
        extend_key(&mut key, user.as_slice());
        let ghost view = key@;
        keys.push(key);
        assert(key_views(keys@) =~= before.push(view));
        i += 1;
    }
    assert(key_views(keys@) =~= review_keys(reviews@, head_sha@));
    sorted_by_keys(&keys)
}

/// The checks of a branch have all passed exactly where each of them passed or
/// was skipped, and one that failed rules that out wherever it stands. Something
/// is pending exactly where a check is, and then a failure shows.
pub proof fn law_status_of_checks(checks: Seq<CiCheckEntry>)
    ensures
        ci_status_of(checks) == CiStatus::AllPassed <==> forall|i: int|
            0 <= i < checks.len() ==> (#[trigger] checks[i]).bucket@ == "pass"@ || checks[i].bucket@
                == "skipping"@,
        forall|i: int|
            0 <= i < checks.len() && (#[trigger] checks[i]).bucket@ == "fail"@ ==> ci_status_of(checks)
                == CiStatus::Failed || ci_status_of(checks) == CiStatus::PendingWithFailure,
        forall|i: int|
            0 <= i < checks.len() && (#[trigger] checks[i]).bucket@ == "pending"@ ==> ci_status_of(
                checks,
            ) == CiStatus::PendingClean || ci_status_of(checks) == CiStatus::PendingWithFailure,
        ci_status_of(checks) == CiStatus::PendingClean ==> (exists|i: int|
            0 <= i < checks.len() && (#[trigger] checks[i]).bucket@ == "pending"@) && forall|i: int|
            0 <= i < checks.len() ==> (#[trigger] checks[i]).bucket@ != "fail"@,
        ci_status_of(checks) == CiStatus::PendingWithFailure ==> (exists|i: int|
            0 <= i < checks.len() && (#[trigger] checks[i]).bucket@ == "pending"@) && (exists|i: int|
            0 <= i < checks.len() && (#[trigger] checks[i]).bucket@ == "fail"@),
        ci_status_of(checks) == CiStatus::Failed ==> (forall|i: int|
            0 <= i < checks.len() ==> (#[trigger] checks[i]).bucket@ != "pending"@) && (exists|i: int|
            0 <= i < checks.len() && (#[trigger] checks[i]).bucket@ != "pass"@ && checks[i].bucket@
                != "skipping"@),
{
    reveal_strlit("pass");
    reveal_strlit("skipping");
    reveal_strlit("fail");
    reveal_strlit("pending");
    assert("pass"@.len() == 4 && "skipping"@.len() == 8 && "fail"@.len() == 4 && "pending"@.len()
        == 7);
    assert("pass"@[0] == 'p' && "fail"@[0] == 'f');
    if any_in(checks, "pending"@) {
        let i = choose|i: int|
            0 <= i < checks.len() && (#[trigger] checks[i]).bucket@ == "pending"@;
        assert(checks[i].bucket@ != "pass"@ && checks[i].bucket@ != "skipping"@);
    }
}

/// What the checks of a branch come to does not change when they are reordered.
pub proof fn law_status_ignores_order(a: Seq<CiCheckEntry>, b: Seq<CiCheckEntry>)
    requires
        a.to_multiset() == b.to_multiset(),
    ensures
        ci_status_of(a) == ci_status_of(b),
{
    law_status_of_checks(a);
    law_status_of_checks(b);
    broadcast use vstd::seq_lib::group_to_multiset_ensures;

    assert forall|i: int| 0 <= i < a.len() implies exists|j: int|
        0 <= j < b.len() && #[trigger] b[j] == #[trigger] a[i] by {
        assert(a.contains(a[i]));
        assert(b.to_multiset().count(a[i]) > 0);
        assert(b.contains(a[i]));
    }
    assert forall|j: int| 0 <= j < b.len() implies exists|i: int|
        0 <= i < a.len() && #[trigger] a[i] == #[trigger] b[j] by {
        assert(b.contains(b[j]));
        assert(a.to_multiset().count(b[j]) > 0);
        assert(a.contains(b[j]));
    }
    assert forall|bucket: Seq<char>| #[trigger] any_in(a, bucket) == any_in(b, bucket) by {
        if any_in(a, bucket) {
            let i = choose|i: int| 0 <= i < a.len() && (#[trigger] a[i]).bucket@ == bucket;
            let j = choose|j: int| 0 <= j < b.len() && #[trigger] b[j] == a[i];
            assert(b[j].bucket@ == bucket);
        }
        if any_in(b, bucket) {
            let j = choose|j: int| 0 <= j < b.len() && (#[trigger] b[j]).bucket@ == bucket;
            let i = choose|i: int| 0 <= i < a.len() && #[trigger] a[i] == b[j];
            assert(a[i].bucket@ == bucket);
        }
    }
}

/// A pull request that cannot be merged shows that first, then that it is a draft.
/// Of every other one its state shows.
pub proof fn law_status_of_a_pull_request(mergeable: Seq<char>, is_draft: bool, state: Seq<char>)
    ensures
        ({
            let status = pr_status_of(mergeable, is_draft, state);
            let conflicts = mergeable == "CONFLICTING"@;
            &&& (status == PrStatus::Conflicted) == conflicts
            &&& (status == PrStatus::Draft) == (!conflicts && is_draft)
            &&& (status == PrStatus::Merged) == (!conflicts && !is_draft && state == "MERGED"@)
            &&& (status == PrStatus::Closed) == (!conflicts && !is_draft && state == "CLOSED"@)
            &&& (status == PrStatus::Open) == (!conflicts && !is_draft && state != "MERGED"@
                && state != "CLOSED"@)
        }),
{
    reveal_strlit("MERGED");
    reveal_strlit("CLOSED");
    assert("MERGED"@[0] == 'M' && "CLOSED"@[0] == 'C');
}

/// Each word that a review or a decision can be has its own meaning.
pub proof fn law_words_of_reviews(text: Seq<char>)
    ensures
        review_decision_of(text) == Some(ReviewDecision::Approved) <==> text == "APPROVED"@,
        review_decision_of(text) == Some(ReviewDecision::ChangesRequested) <==> text
            == "CHANGES_REQUESTED"@,
        review_decision_of(text) == Some(ReviewDecision::ReviewRequired) <==> text
            == "REVIEW_REQUIRED"@,
        review_state_of(text) == ReviewState::Approved <==> text == "APPROVED"@,
        review_state_of(text) == ReviewState::ChangesRequested <==> text == "CHANGES_REQUESTED"@,
        review_state_of(text) == ReviewState::Commented <==> text == "COMMENTED"@,
        review_state_of(text) == ReviewState::Dismissed <==> text == "DISMISSED"@,
        review_state_of(text) == ReviewState::Pending <==> text != "APPROVED"@ && text
            != "CHANGES_REQUESTED"@ && text != "COMMENTED"@ && text != "DISMISSED"@,
{
    reveal_strlit("APPROVED");
    reveal_strlit("CHANGES_REQUESTED");
    reveal_strlit("REVIEW_REQUIRED");
    reveal_strlit("COMMENTED");
    reveal_strlit("DISMISSED");
    assert("APPROVED"@.len() == 8 && "CHANGES_REQUESTED"@.len() == 17 && "REVIEW_REQUIRED"@.len()
        == 15 && "COMMENTED"@.len() == 9 && "DISMISSED"@.len() == 9);
    assert("COMMENTED"@[0] == 'C' && "DISMISSED"@[0] == 'D');
}

/// The count of reviews is that of the reviews of the current commit: one more
/// review counts exactly where it is of that commit.
pub proof fn law_review_count(reviews: Seq<ReviewEntry>, review: ReviewEntry, head: Seq<char>)
    ensures
        reviews_of_commit(Seq::<ReviewEntry>::empty(), head, 0) == 0,
        review.commit_oid@ == head ==> reviews_of_commit(
            reviews.push(review),
            head,
            (reviews.len() + 1) as int,
        ) == reviews_of_commit(reviews, head, reviews.len() as int) + 1,
        review.commit_oid@ != head ==> reviews_of_commit(
            reviews.push(review),
            head,
            (reviews.len() + 1) as int,
        ) == reviews_of_commit(reviews, head, reviews.len() as int),
        0 <= reviews_of_commit(reviews, head, reviews.len() as int) <= reviews.len(),
        (forall|i: int| 0 <= i < reviews.len() ==> (#[trigger] reviews[i]).commit_oid@ == head)
            ==> reviews_of_commit(reviews, head, reviews.len() as int) == reviews.len(),
{
    lemma_count_of_prefix(reviews, reviews.push(review), head, reviews.len() as int);
    lemma_count_bounds(reviews, head, reviews.len() as int);
}

proof fn lemma_count_of_prefix(a: Seq<ReviewEntry>, b: Seq<ReviewEntry>, head: Seq<char>, n: int)
    requires
        0 <= n <= a.len(),
        n <= b.len(),
        forall|i: int| 0 <= i < n ==> #[trigger] a[i] == b[i],
    ensures
        reviews_of_commit(a, head, n) == reviews_of_commit(b, head, n),
    decreases n,
{
    if n > 0 {
        lemma_count_of_prefix(a, b, head, n - 1);
        assert(a[n - 1] == b[n - 1]);
    }
}

proof fn lemma_count_bounds(reviews: Seq<ReviewEntry>, head: Seq<char>, n: int)
    requires
        0 <= n <= reviews.len(),
    ensures
        0 <= reviews_of_commit(reviews, head, n) <= n,
        (forall|i: int| 0 <= i < n ==> (#[trigger] reviews[i]).commit_oid@ == head)
            ==> reviews_of_commit(reviews, head, n) == n,
    decreases n,
{
    if n > 0 {
        lemma_count_bounds(reviews, head, n - 1);
    }
}

/// The reviews of the pull request of an owner and a repository are asked for under
/// both names and its number.
pub proof fn law_path_of_reviews(
    owner: Seq<char>,
    repo: Seq<char>,
    word: Seq<char>,
    number: Seq<char>,
)
    requires
        !owner.contains('/') && !repo.contains('/') && !word.contains('/'),
    ensures
        reviews_path(
            "https://github.com/"@ + owner + seq!['/'] + repo + seq!['/'] + word + seq!['/']
                + number,
        ) == Some("repos/"@ + owner + "/"@ + repo + "/pulls/"@ + number + "/reviews"@),
{
    reveal_strlit("https://github.com/");
    let path = owner + seq!['/'] + repo + seq!['/'] + word + seq!['/'] + number;
    let url = "https://github.com/"@ + owner + seq!['/'] + repo + seq!['/'] + word + seq!['/']
        + number;
    assert("https://github.com/"@.len() == 19);
    assert(url.subrange(0, 19) =~= "https://github.com/"@);
    assert(url.skip(19) =~= path);
    let first = owner.len() as int;
    let second = first + 1 + repo.len();
    let third = second + 1 + word.len();
    assert(path[first] == '/' && path[second] == '/' && path[third] == '/');
    assert forall|k: int| 0 <= k < first implies #[trigger] path[k] != '/' by {
        assert(path[k] == owner[k]);
        assert(owner.contains(owner[k]));
    }
    assert forall|k: int| first + 1 <= k < second implies #[trigger] path[k] != '/' by {
        assert(path[k] == repo[k - first - 1]);
        assert(repo.contains(repo[k - first - 1]));
    }
    assert forall|k: int| second + 1 <= k < third implies #[trigger] path[k] != '/' by {
        assert(path[k] == word[k - second - 1]);
        assert(word.contains(word[k - second - 1]));
    }
    crate::text::lemma_next_char_is(path, 0, '/', first);
    crate::text::lemma_next_char_is(path, first + 1, '/', second);
    crate::text::lemma_next_char_is(path, second + 1, '/', third);
    assert(path.take(first) =~= owner);
    assert(path.subrange(first + 1, second) =~= repo);
    assert(path.skip(third + 1) =~= number);
}

/// The latest reviews hold, for every author, the review that comes last, and no
/// author twice.
pub proof fn law_latest_reviews(entries: Seq<ReviewEntry>, reviews: Seq<RestReview>, k: int)
    requires
        are_latest(entries, reviews, reviews.len() as int),
        0 <= k < reviews.len(),
        forall|later: int|
            k < later < reviews.len() ==> (#[trigger] reviews[later]).login@ != reviews[k].login@,
    ensures
        exists|i: int|
            0 <= i < entries.len() && (#[trigger] entries[i]).user@ == reviews[k].login@
                && entries[i].commit_oid@ == reviews[k].commit_id@ && entries[i].avatar_url@
                == reviews[k].avatar_url@ && entries[i].submitted_at@ == reviews[k].submitted_at@
                && (reviews[k].state@ == "APPROVED"@ ==> entries[i].state == ReviewState::Approved),
        forall|i: int, j: int|
            0 <= i < j < entries.len() ==> (#[trigger] entries[i]).user@ != (
            #[trigger] entries[j]).user@,
{
    assert(has_entry_for(entries, reviews[k].login@));
    let i = choose|i: int| 0 <= i < entries.len() && (#[trigger] entries[i]).user@ == reviews[k].login@;
    assert(is_entry_of(entries[i], reviews, reviews.len() as int));
    let m = choose|m: int| #[trigger]
        is_last_of_author(reviews, m, reviews.len() as int) && entries[i]@ == review_model(
            reviews[m],
        );
    assert(entries[i]@.user == reviews[m].login@);
    if m < k {
        assert(reviews[k].login@ != reviews[m].login@);
    } else if k < m {
        assert(reviews[m].login@ != reviews[k].login@);
    }
    assert(entries[i]@.commit_oid == reviews[k].commit_id@);
    law_words_of_reviews(reviews[k].state@);
}

/// Checks are listed by their buckets: what has failed before what is pending, that
/// before what has passed, and that before what was skipped. Unknown ones come
/// last.
pub proof fn law_order_of_buckets(bucket: Seq<char>)
    ensures
        bucket_rank("fail"@) < bucket_rank("pending"@),
        bucket_rank("pending"@) < bucket_rank("pass"@),
        bucket_rank("pass"@) < bucket_rank("skipping"@),
        bucket != "fail"@ && bucket != "pending"@ && bucket != "pass"@ && bucket != "skipping"@
            ==> bucket_rank("skipping"@) < bucket_rank(bucket),
{
    reveal_strlit("pass");
    reveal_strlit("skipping");
    reveal_strlit("fail");
    reveal_strlit("pending");
    assert("pass"@.len() == 4 && "skipping"@.len() == 8 && "fail"@.len() == 4 && "pending"@.len()
        == 7);
    assert("pass"@[0] == 'p' && "fail"@[0] == 'f');
}

/// A failed check comes before every other in the list, and checks of one bucket
/// by their names.
pub proof fn law_failed_checks_come_first(checks: Seq<CiCheckEntry>, order: Seq<usize>, i: int, j: int)
    requires
        is_order(check_keys(checks), order),
        0 <= i < order.len(),
        0 <= j < order.len(),
        checks[order[i] as int].bucket@ == "fail"@,
        checks[order[j] as int].bucket@ != "fail"@,
    ensures
        i < j,
        order.len() == checks.len(),
{
    law_order_of_buckets(checks[order[j] as int].bucket@);
    let keys = check_keys(checks);
    assert(keys[order[i] as int][0] == 0);
    assert(keys[order[j] as int][0] > 0);
}

/// Reviews of the current commit come before every other in the list.
pub proof fn law_current_reviews_come_first(
    reviews: Seq<ReviewEntry>,
    head: Seq<char>,
    order: Seq<usize>,
    i: int,
    j: int,
)
    requires
        is_order(review_keys(reviews, head), order),
        0 <= i < order.len(),
        0 <= j < order.len(),
        reviews[order[i] as int].commit_oid@ == head,
        reviews[order[j] as int].commit_oid@ != head,
    ensures
        i < j,
        order.len() == reviews.len(),
{
    let keys = review_keys(reviews, head);
    assert(keys[order[i] as int][0] == 0);
    assert(keys[order[j] as int][0] == 1);
}

proof fn lemma_reviews_counted(reviews: Seq<ReviewEntry>, head: Seq<char>, n: int)
    requires
        0 <= n <= reviews.len(),
    ensures
        0 <= reviews_of_commit(reviews, head, n) <= n,
        reviews_of_commit(reviews, head, n) == n <==> forall|k: int|
            0 <= k < n ==> (#[trigger] reviews[k]).commit_oid@ == head,
        reviews_of_commit(reviews, head, n) == 0 <==> forall|k: int|
            0 <= k < n ==> (#[trigger] reviews[k]).commit_oid@ != head,
    decreases n,
{
    if n > 0 {
        lemma_reviews_counted(reviews, head, n - 1);
        if reviews_of_commit(reviews, head, n) == n {
            assert(reviews[n - 1].commit_oid@ == head);
        }
        if reviews_of_commit(reviews, head, n) == 0 {
            assert(reviews[n - 1].commit_oid@ != head);
        }
        if forall|k: int| 0 <= k < n ==> (#[trigger] reviews[k]).commit_oid@ == head {
            assert(reviews[n - 1].commit_oid@ == head);
        }
        if forall|k: int| 0 <= k < n ==> (#[trigger] reviews[k]).commit_oid@ != head {
            assert(reviews[n - 1].commit_oid@ != head);
        }
    }
}

/// What is told of a pull request is what GitHub says of it, field by field; the
/// reviews that count are those of the commit at its head.
pub proof fn law_what_is_told_of_a_pull_request(
    view: GhPrView,
    reviews: Seq<ReviewEntry>,
    info: PrInfo,
)
    requires
        is_pr_info(view, reviews, info),
    ensures
        info.number == view.number && info.title@ == view.title@ && info.html_url@ == view.url@,
        info.head_sha@ == view.head_ref_oid@ && info.reviews@ == reviews,
        view.mergeable@ == "CONFLICTING"@ <==> info.status is Conflicted,
        view.mergeable@ != "CONFLICTING"@ && view.is_draft <==> info.status is Draft,
        view.review_decision@ == "APPROVED"@ <==> info.review_decision == Some(
            ReviewDecision::Approved,
        ),
        info.review_count <= reviews.len(),
        info.review_count == reviews.len() <==> forall|k: int|
            0 <= k < reviews.len() ==> (#[trigger] reviews[k]).commit_oid@ == view.head_ref_oid@,
        info.review_count == 0 <==> forall|k: int|
            0 <= k < reviews.len() ==> (#[trigger] reviews[k]).commit_oid@ != view.head_ref_oid@,
{
    lemma_reviews_counted(reviews, view.head_ref_oid@, reviews.len() as int);
}

/// Reviews that ask for more come last: those that are pending, then those that
/// only comment, approve, were dismissed and ask for changes.
pub proof fn law_ranks_of_reviews()
    ensures
        review_rank(ReviewState::Pending) < review_rank(ReviewState::Commented) < review_rank(
            ReviewState::Approved,
        ) < review_rank(ReviewState::Dismissed) < review_rank(ReviewState::ChangesRequested) <= 4,
{
}

} // verus!
