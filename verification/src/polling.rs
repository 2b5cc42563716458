//! When pull requests and their checks are asked for, and what comes of the
//! answers. Arenas are known by numbers, and times are nanoseconds of a clock
//! that never goes back.

use std::collections::HashMap;

use vstd::prelude::*;

use crate::clock::{ci_poll_interval_at, poll_interval};
use crate::github::{CiInfo, PrInfo, PrStatus};
use crate::paths::{components, components_of, is_under, starts_with_path};
use crate::text::{int_index, spelled, text_model};

verus! {

broadcast use vstd::std_specs::hash::group_hash_axioms;

pub const SECOND: u64 = 1_000_000_000;

/// Answers that take longer than this end the polling.
pub const POLL_TIMEOUT: u64 = 5_000_000_000;

/// What is older than this is asked for again when its arena is shown.
pub const STALE_AFTER: u64 = 60_000_000_000;

/// How often a pull request is asked for.
pub const PR_POLL_INTERVAL: u64 = 60_000_000_000;

/// What is known of the pull requests and checks of arenas, and when it was
/// asked for.
pub struct Polling {
    pub gh_available: bool,
    pub pr_info: HashMap<u64, PrInfo>,
    pub pr_last_checked: HashMap<u64, u64>,
    pub pr_polling_timed_out: bool,
    pub pr_polling: bool,
    pub ci_status: HashMap<u64, CiInfo>,
    pub ci_last_checked: HashMap<u64, u64>,
    pub ci_polling_timed_out: bool,
    pub ci_polling: bool,
}

/// A question about a pull request or its checks.
#[derive(Clone, Copy, Debug, PartialEq, Eq, Structural)]
pub struct Fetches {
    /// Whether the pull request is asked for.
    pub pr: bool,
    /// The pull request whose checks are asked for.
    pub ci: Option<u32>,
}

/// Which of the two pollings are to be started.
#[derive(Clone, Copy, Debug, PartialEq, Eq, Structural)]
pub struct Starts {
    pub pr: bool,
    pub ci: bool,
}

/// The time since `then`, as a clock that never goes back shows it.
pub open spec fn elapsed(then: u64, now: u64) -> int {
    if now >= then {
        now - then
    } else {
        0
    }
}

/// Whether something was asked for longer than so long ago, or never.
pub open spec fn is_stale(last: Map<u64, u64>, entity: u64, now: u64) -> bool {
    !last.contains_key(entity) || elapsed(last[entity], now) > STALE_AFTER
}

fn time_since(then: u64, now: u64) -> (time: u64)
    ensures
        time == elapsed(then, now),
{
    if now >= then {
        now - then
    } else {
        0
    }
}

/// A repository: where it is, its branch, where it comes from, when its last
/// commit was made, and how many lines each changed file adds and deletes.
#[derive(Debug)]
pub struct RepoInfo {
    pub work_directory: String,
    pub branch: Option<String>,
    pub remote_origin_url: Option<String>,
    pub commit_timestamp: Option<i64>,
    pub diff_stats: Vec<Option<(u32, u32)>>,
}

/// Whether the repository at `index` holds a directory.
pub open spec fn holds(repos: Seq<RepoInfo>, index: int, directory: Seq<char>) -> bool {
    0 <= index < repos.len() && is_under(directory, repos[index].work_directory@)
}

/// How deep a repository lies.
pub open spec fn depth(repo: RepoInfo) -> nat {
    components_of(repo.work_directory@).len()
}

/// Whether the repository at `index` is the innermost one that holds a
/// directory, among those with a commit where `committed` says so.
pub open spec fn is_innermost(
    repos: Seq<RepoInfo>,
    index: int,
    directory: Seq<char>,
    committed: bool,
) -> bool {
    &&& holds(repos, index, directory)
    &&& committed ==> repos[index].commit_timestamp is Some
    &&& forall|k: int| #[trigger]
        holds(repos, k, directory) && (committed ==> repos[k].commit_timestamp is Some) ==> depth(
            repos[k],
        ) <= depth(repos[index])
}

/// The innermost repository that holds a directory. Where two lie in the same
/// place it is one of them.
pub open spec fn innermost(
    repos: Seq<RepoInfo>,
    found: Option<int>,
    directory: Seq<char>,
    committed: bool,
) -> bool {
    match found {
        Some(index) => is_innermost(repos, index, directory, committed),
        None => forall|k: int| #[trigger]
            holds(repos, k, directory) ==> committed && repos[k].commit_timestamp is None,
    }
}

/// The innermost repository with a commit that holds a directory.
pub open spec fn innermost_committed(
    repos: Seq<RepoInfo>,
    found: Option<int>,
    directory: Seq<char>,
) -> bool {
    innermost(repos, found, directory, true)
}

pub fn innermost_repo(repos: &Vec<RepoInfo>, directory: &str, committed: bool) -> (found: Option<
    usize,
>)
    ensures
        innermost(repos@, int_index(found), directory@, committed),
{
    let mut found: Option<usize> = None;
    let mut best: usize = 0;
    let mut i: usize = 0;
    while i < repos.len()
        invariant
            i <= repos@.len(),
            match found {
                Some(index) => {
                    &&& index < i
                    &&& holds(repos@, index as int, directory@)
                    &&& committed ==> repos@[index as int].commit_timestamp is Some
                    &&& best == depth(repos@[index as int])
                    &&& forall|k: int|
                        #![trigger holds(repos@, k, directory@)]
                        k < i && holds(repos@, k, directory@) && (committed
                            ==> repos@[k].commit_timestamp is Some) ==> depth(repos@[k]) <= best
                },
                None => forall|k: int|
                    #![trigger holds(repos@, k, directory@)]
                    k < i && holds(repos@, k, directory@) ==> committed
                        && repos@[k].commit_timestamp is None,
            },
        decreases repos@.len() - i,
    {
        let path = repos[i].work_directory.as_str();
        if starts_with_path(directory, path) && (!committed
            || repos[i].commit_timestamp.is_some()) {
            let parts = components(path);
            assert(spelled(parts@).len() == parts@.len());
            assert(holds(repos@, i as int, directory@));
            let deeper = match found {
                Some(_) => parts.len() >= best,
                None => true,
            };
            if deeper {
                best = parts.len();
                found = Some(i);
            }
        }
        i += 1;
    }
    found
}

/// How often the checks of an arena are asked for, given the repository that
/// its directory belongs to.
pub open spec fn arena_interval(repos: Seq<RepoInfo>, found: Option<int>, now_seconds: i64) -> u64 {
    match found {
        Some(index) => poll_interval(repos[index].commit_timestamp, now_seconds),
        None => poll_interval(None, now_seconds),
    }
}

/// How often the checks of an arena with a working directory are asked for.
pub open spec fn is_interval(
    repos: Seq<RepoInfo>,
    directory: Option<Seq<char>>,
    now_seconds: i64,
    interval: u64,
) -> bool {
    if directory is Some {
        exists|found: Option<int>| #[trigger]
            innermost_committed(repos, found, directory->0) && interval == arena_interval(
                repos,
                found,
                now_seconds,
            )
    } else {
        interval == poll_interval(None, now_seconds)
    }
}

/// The repository that is found decides the interval.
proof fn lemma_interval(
    repos: Seq<RepoInfo>,
    found: Option<int>,
    directory: Seq<char>,
    now_seconds: i64,
    interval: u64,
)
    requires
        innermost_committed(repos, found, directory),
        interval == arena_interval(repos, found, now_seconds),
    ensures
        is_interval(repos, Some(directory), now_seconds, interval),
{
    assert(Some(directory)->0 == directory);
}

pub fn compute_ci_poll_interval(
    repos: &Vec<RepoInfo>,
    working_directory: &Option<String>,
    now_seconds: i64,
) -> (interval: u64)
    ensures
        is_interval(repos@, text_model(*working_directory), now_seconds, interval),
        60 * SECOND <= interval <= 300 * SECOND,
{
    match working_directory {
        Some(directory) => {
            let found = innermost_repo(repos, directory.as_str(), true);
            let commit: Option<i64> = match found {
                Some(index) => repos[index].commit_timestamp,
                None => None,
            };
            let interval = ci_poll_interval_at(commit, now_seconds);
            proof {
                lemma_interval(repos@, int_index(found), directory@, now_seconds, interval);
            }
            interval
        },
        None => ci_poll_interval_at(None, now_seconds),
    }
}

/// An arena as the polling sees it, with how often its checks are asked for.
pub struct PolledArena {
    pub entity: u64,
    pub working_directory: Option<String>,
    pub interval: u64,
}

/// Checks to be asked for.
#[derive(Debug, PartialEq)]
pub struct CiTarget {
    pub entity: u64,
    pub working_directory: String,
    pub pr_number: u32,
}

/// Whether the pull request of an arena is open to checks.
pub open spec fn is_checked(polling: Polling, arena: PolledArena) -> bool {
    polling.pr_info@.contains_key(arena.entity) && polling.pr_info@[arena.entity].status
        != PrStatus::Merged
}

/// Whether the checks of an arena are due.
pub open spec fn is_due(polling: Polling, arena: PolledArena, now: u64) -> bool {
    &&& is_checked(polling, arena)
    &&& !polling.ci_last_checked@.contains_key(arena.entity) || elapsed(
        polling.ci_last_checked@[arena.entity],
        now,
    ) >= arena.interval
    &&& arena.working_directory is Some
}

/// The arenas among the first `n` whose checks are due.
pub open spec fn due_before(polling: Polling, arenas: Seq<PolledArena>, now: u64, n: int) -> Seq<
    PolledArena,
>
    decreases n,
{
    if n <= 0 {
        seq![]
    } else if is_due(polling, arenas[n - 1], now) {
        due_before(polling, arenas, now, n - 1).push(arenas[n - 1])
    } else {
        due_before(polling, arenas, now, n - 1)
    }
}

/// Whether a target asks for the checks of an arena.
pub open spec fn is_target_of(polling: Polling, arena: PolledArena, target: CiTarget) -> bool {
    &&& target.entity == arena.entity
    &&& arena.working_directory matches Some(directory) && target.working_directory@ == directory@
    &&& target.pr_number == polling.pr_info@[arena.entity].number
}

/// How long it is until the checks of an arena are due.
pub open spec fn remaining_of(polling: Polling, arena: PolledArena, now: u64) -> int {
    let since = if polling.ci_last_checked@.contains_key(arena.entity) {
        elapsed(polling.ci_last_checked@[arena.entity], now)
    } else {
        0
    };
    if arena.interval >= since {
        arena.interval - since
    } else {
        0
    }
}

/// The shortest time until checks are due among the first `n` arenas, and no
/// more than a minute.
pub open spec fn shortest_before(polling: Polling, arenas: Seq<PolledArena>, now: u64, n: int) -> int
    decreases n,
{
    if n <= 0 {
        60 * SECOND
    } else {
        let before = shortest_before(polling, arenas, now, n - 1);
        let own = remaining_of(polling, arenas[n - 1], now);
        if is_checked(polling, arenas[n - 1]) && own < before {
            own
        } else {
            before
        }
    }
}

/// How long the polling of checks sleeps: until the next are due, but ten
/// seconds at least and a minute at most.
pub open spec fn sleep_of(polling: Polling, arenas: Seq<PolledArena>, now: u64) -> int {
    let shortest = shortest_before(polling, arenas, now, arenas.len() as int);
    if shortest < 10 * SECOND {
        10 * SECOND
    } else {
        shortest
    }
}

/// Which pollings start when the window comes to the front or goes away.
pub open spec fn starts_of(polling: Polling, active: bool) -> Starts {
    Starts {
        pr: active && polling.gh_available && !polling.pr_polling && !polling.pr_polling_timed_out,
        ci: active && polling.gh_available && !polling.ci_polling && !polling.ci_polling_timed_out,
    }
}

/// Whether a pull request is asked for at once, where something has changed.
pub open spec fn asks_at_once(polling: Polling) -> bool {
    polling.gh_available && !polling.pr_polling_timed_out
}

/// What is asked for when an arena is shown.
pub open spec fn fetches_of(polling: Polling, entity: u64, now: u64) -> Fetches {
    Fetches {
        pr: asks_at_once(polling) && is_stale(polling.pr_last_checked@, entity, now),
        ci: if polling.gh_available && !polling.ci_polling_timed_out
            && polling.pr_info@.contains_key(entity) && is_stale(
            polling.ci_last_checked@,
            entity,
            now,
        ) {
            Some(polling.pr_info@[entity].number)
        } else {
            None
        },
    }
}

impl Polling {
    pub fn new() -> (polling: Self)
        ensures
            polling.is_new(),
    {
        Polling {
            gh_available: false,
            pr_info: HashMap::new(),
            pr_last_checked: HashMap::new(),
            pr_polling_timed_out: false,
            pr_polling: false,
            ci_status: HashMap::new(),
            ci_last_checked: HashMap::new(),
            ci_polling_timed_out: false,
            ci_polling: false,
        }
    }

    /// Everything but what is known of pull requests is as it was.
    pub open spec fn same_but_prs(self, other: Self) -> bool {
        &&& self.gh_available == other.gh_available
        &&& self.pr_polling_timed_out == other.pr_polling_timed_out
        &&& self.pr_polling == other.pr_polling
        &&& self.ci_status == other.ci_status
        &&& self.ci_last_checked == other.ci_last_checked
        &&& self.ci_polling_timed_out == other.ci_polling_timed_out
        &&& self.ci_polling == other.ci_polling
    }

    /// Everything but what is known of checks is as it was.
    pub open spec fn same_but_checks(self, other: Self) -> bool {
        &&& self.gh_available == other.gh_available
        &&& self.pr_info == other.pr_info
        &&& self.pr_last_checked == other.pr_last_checked
        &&& self.pr_polling_timed_out == other.pr_polling_timed_out
        &&& self.pr_polling == other.pr_polling
        &&& self.ci_polling_timed_out == other.ci_polling_timed_out
        &&& self.ci_polling == other.ci_polling
    }

    /// Which polling runs, has timed out or is possible is as it was.
    pub open spec fn same_controls(self, other: Self) -> bool {
        &&& self.gh_available == other.gh_available
        &&& self.pr_polling == other.pr_polling
        &&& self.pr_polling_timed_out == other.pr_polling_timed_out
        &&& self.ci_polling == other.ci_polling
        &&& self.ci_polling_timed_out == other.ci_polling_timed_out
    }

    /// Nothing is known, and nothing runs.
    pub open spec fn is_new(self) -> bool {
        &&& !self.gh_available
        &&& !self.pr_polling && !self.ci_polling
        &&& !self.pr_polling_timed_out && !self.ci_polling_timed_out
        &&& self.pr_info@ == Map::<u64, PrInfo>::empty()
        &&& self.pr_last_checked@ == Map::<u64, u64>::empty()
        &&& self.ci_status@ == Map::<u64, CiInfo>::empty()
        &&& self.ci_last_checked@ == Map::<u64, u64>::empty()
    }

    /// What was known before but for one arena.
    pub open spec fn has_forgotten(self, before: Self, entity: u64) -> bool {
        &&& self.same_controls(before)
        &&& self.pr_info@ == before.pr_info@.remove(entity)
        &&& self.pr_last_checked@ == before.pr_last_checked@.remove(entity)
        &&& self.ci_status@ == before.ci_status@.remove(entity)
        &&& self.ci_last_checked@ == before.ci_last_checked@.remove(entity)
    }

    /// What was known before but for the pull request of the arena that is shown
    /// and its checks, where one is.
    pub open spec fn has_new_head(self, before: Self, active: Option<u64>) -> bool {
        &&& self.same_controls(before)
        &&& self.pr_last_checked == before.pr_last_checked
        &&& self.ci_last_checked == before.ci_last_checked
        &&& match active {
            Some(entity) => self.pr_info@ == before.pr_info@.remove(entity) && self.ci_status@
                == before.ci_status@.remove(entity),
            None => self.pr_info == before.pr_info && self.ci_status == before.ci_status,
        }
    }

    /// Everything but which polling runs is as it was.
    pub open spec fn same_knowledge(self, other: Self) -> bool {
        &&& self.pr_info == other.pr_info
        &&& self.pr_last_checked == other.pr_last_checked
        &&& self.pr_polling_timed_out == other.pr_polling_timed_out
        &&& self.ci_status == other.ci_status
        &&& self.ci_last_checked == other.ci_last_checked
        &&& self.ci_polling_timed_out == other.ci_polling_timed_out
    }

    /// It is known whether `gh` can be run; if so, both pollings start.
    pub fn gh_checked(&mut self, available: bool) -> (starts: Starts)
        ensures
            final(self).same_knowledge(*old(self)),
            final(self).gh_available == available,
            final(self).pr_polling == (available || old(self).pr_polling),
            final(self).ci_polling == (available || old(self).ci_polling),
            starts == (Starts { pr: available, ci: available }),
    {
        self.gh_available = available;
        if available {
            self.pr_polling = true;
            self.ci_polling = true;
        }
        Starts { pr: available, ci: available }
    }

    /// The window came to the front or went away. In front both pollings run,
    /// unless they have timed out; else none does.
    pub fn window_activation_changed(&mut self, active: bool) -> (starts: Starts)
        ensures
            final(self).same_knowledge(*old(self)),
            final(self).gh_available == old(self).gh_available,
            starts == starts_of(*old(self), active),
            final(self).pr_polling == (active && (old(self).pr_polling || starts.pr)),
            final(self).ci_polling == (active && (old(self).ci_polling || starts.ci)),
    {
        if active {
            let pr = self.gh_available && !self.pr_polling && !self.pr_polling_timed_out;
            let ci = self.gh_available && !self.ci_polling && !self.ci_polling_timed_out;
            if pr {
                self.pr_polling = true;
            }
            if ci {
                self.ci_polling = true;
            }
            Starts { pr, ci }
        } else {
            self.pr_polling = false;
            self.ci_polling = false;
            Starts { pr: false, ci: false }
        }
    }

    /// The head of the repository has changed, so nothing is known any more of
    /// the arena that is shown, and its pull request is asked for.
    pub fn head_changed(&mut self, active: Option<u64>) -> (fetch: Option<u64>)
        ensures
            final(self).has_new_head(*old(self), active),
            fetch == (if asks_at_once(*old(self)) {
                active
            } else {
                None
            }),
    {
        match active {
            Some(entity) => {
                self.pr_info.remove(&entity);
                self.ci_status.remove(&entity);
                if self.gh_available && !self.pr_polling_timed_out {
                    Some(entity)
                } else {
                    None
                }
            },
            None => None,
        }
    }

    /// Whether the pull request of an arena that was added is asked for.
    pub fn arena_added(&self) -> (fetch: bool)
        ensures
            fetch == asks_at_once(*self),
    {
        self.gh_available && !self.pr_polling_timed_out
    }

    /// What is asked for when an arena is shown: what is stale, and the checks
    /// only of a pull request that is known.
    pub fn arena_shown(&self, entity: u64, now: u64) -> (fetches: Fetches)
        ensures
            fetches == fetches_of(*self, entity, now),
    {
        let mut fetches = Fetches { pr: false, ci: None };
        if self.gh_available {
            if !self.pr_polling_timed_out {
                fetches.pr =
                match self.pr_last_checked.get(&entity) {
                    Some(then) => time_since(*then, now) > STALE_AFTER,
                    None => true,
                };
            }
            if !self.ci_polling_timed_out {
                if let Some(pr) = self.pr_info.get(&entity) {
                    let stale = match self.ci_last_checked.get(&entity) {
                        Some(then) => time_since(*then, now) > STALE_AFTER,
                        None => true,
                    };
                    if stale {
                        fetches.ci = Some(pr.number);
                    }
                }
            }
        }
        fetches
    }

    /// An answer about a pull request has come. The checks of one that was not
    /// known before are asked for.
    pub fn pr_fetched(&mut self, entity: u64, result: Option<PrInfo>, now: u64) -> (fetch_ci: Option<
        u32,
    >)
        ensures
            final(self).same_but_prs(*old(self)),
            final(self).pr_last_checked@ == old(self).pr_last_checked@.insert(entity, now),
            match result {
                Some(info) => {
                    &&& final(self).pr_info@ == old(self).pr_info@.insert(entity, info)
                    &&& fetch_ci == (if !old(self).pr_info@.contains_key(entity) && !old(
                        self,
                    ).ci_polling_timed_out {
                        Some(info.number)
                    } else {
                        None
                    })
                },
                None => final(self).pr_info@ == old(self).pr_info@.remove(entity)
                    && fetch_ci is None,
            },
    {
        self.pr_last_checked.insert(entity, now);
        match result {
            Some(info) => {
                let number: u32 = info.number;
                let known = self.pr_info.contains_key(&entity);
                self.pr_info.insert(entity, info);
                if !known && !self.ci_polling_timed_out {
                    Some(number)
                } else {
                    None
                }
            },
            None => {
                self.pr_info.remove(&entity);
                None
            },
        }
    }

    /// An answer to the polling of pull requests has come. Where it took too
    /// long it is left aside and the polling stops.
    pub fn pr_polled(
        &mut self,
        entity: u64,
        result: Option<PrInfo>,
        took: u64,
        now: u64,
    ) -> (outcome: (bool, Option<u32>))
        ensures
            outcome.0 == (took > POLL_TIMEOUT),
            took > POLL_TIMEOUT ==> {
                &&& outcome.1 is None
                &&& final(self).pr_polling_timed_out
                &&& !final(self).pr_polling
                &&& final(self).pr_info == old(self).pr_info
                &&& final(self).pr_last_checked == old(self).pr_last_checked
                &&& final(self).gh_available == old(self).gh_available
                &&& final(self).ci_status == old(self).ci_status
                &&& final(self).ci_last_checked == old(self).ci_last_checked
                &&& final(self).ci_polling_timed_out == old(self).ci_polling_timed_out
                &&& final(self).ci_polling == old(self).ci_polling
            },
            took <= POLL_TIMEOUT ==> {
                &&& final(self).same_but_prs(*old(self))
                &&& final(self).pr_last_checked@ == old(self).pr_last_checked@.insert(entity, now)
                &&& match result {
                    Some(info) => {
                        &&& final(self).pr_info@ == old(self).pr_info@.insert(entity, info)
                        &&& outcome.1 == (if !old(self).pr_info@.contains_key(entity) && !old(
                            self,
                        ).ci_polling_timed_out {
                            Some(info.number)
                        } else {
                            None
                        })
                    },
                    None => final(self).pr_info@ == old(self).pr_info@.remove(entity)
                        && outcome.1 is None,
                }
            },
    {
        if took > POLL_TIMEOUT {
            self.pr_polling_timed_out = true;
            self.pr_polling = false;
            return (true, None);
        }
        let fetch_ci = self.pr_fetched(entity, result, now);
        (false, fetch_ci)
    }

    /// An answer about checks has come.
    pub fn ci_fetched(&mut self, entity: u64, result: Option<CiInfo>, now: u64)
        ensures
            final(self).same_but_checks(*old(self)),
            final(self).ci_last_checked@ == old(self).ci_last_checked@.insert(entity, now),
            final(self).ci_status@ == match result {
                Some(info) => old(self).ci_status@.insert(entity, info),
                None => old(self).ci_status@.remove(entity),
            },
    {
        self.ci_last_checked.insert(entity, now);
        match result {
            Some(info) => {
                self.ci_status.insert(entity, info);
            },
            None => {
                self.ci_status.remove(&entity);
            },
        }
    }

    /// An answer to the polling of checks has come. Where it took too long it
    /// is left aside and the polling stops.
    pub fn ci_polled(
        &mut self,
        entity: u64,
        result: Option<CiInfo>,
        took: u64,
        now: u64,
    ) -> (stop: bool)
        ensures
            stop == (took > POLL_TIMEOUT),
            stop ==> {
                &&& final(self).ci_polling_timed_out
                &&& !final(self).ci_polling
                &&& final(self).ci_status == old(self).ci_status
                &&& final(self).ci_last_checked == old(self).ci_last_checked
                &&& final(self).gh_available == old(self).gh_available
                &&& final(self).pr_info == old(self).pr_info
                &&& final(self).pr_last_checked == old(self).pr_last_checked
                &&& final(self).pr_polling_timed_out == old(self).pr_polling_timed_out
                &&& final(self).pr_polling == old(self).pr_polling
            },
            !stop ==> {
                &&& final(self).same_but_checks(*old(self))
                &&& final(self).ci_last_checked@ == old(self).ci_last_checked@.insert(entity, now)
                &&& final(self).ci_status@ == match result {
                    Some(info) => old(self).ci_status@.insert(entity, info),
                    None => old(self).ci_status@.remove(entity),
                }
            },
    {
        if took > POLL_TIMEOUT {
            self.ci_polling_timed_out = true;
            self.ci_polling = false;
            return true;
        }
        self.ci_fetched(entity, result, now);
        false
    }

    /// The checks that are due.
    pub fn ci_targets(&self, arenas: &Vec<PolledArena>, now: u64) -> (targets: Vec<CiTarget>)
        ensures
            ({
                let due = due_before(*self, arenas@, now, arenas@.len() as int);
                &&& targets@.len() == due.len()
                &&& forall|k: int|
                    0 <= k < due.len() ==> is_target_of(*self, due[k], #[trigger] targets@[k])
            }),
    {
        let mut targets: Vec<CiTarget> = Vec::new();
        let mut i: usize = 0;
        while i < arenas.len()
            invariant
                i <= arenas@.len(),
                targets@.len() == due_before(*self, arenas@, now, i as int).len(),
                forall|k: int|
                    0 <= k < targets@.len() ==> is_target_of(
                        *self,
                        due_before(*self, arenas@, now, i as int)[k],
                        #[trigger] targets@[k],
                    ),
            decreases arenas@.len() - i,
        {
            let arena = &arenas[i];
            if let Some(pr) = self.pr_info.get(&arena.entity) {
                if pr.status != PrStatus::Merged {
                    let due = match self.ci_last_checked.get(&arena.entity) {
                        Some(then) => time_since(*then, now) >= arena.interval,
                        None => true,
                    };
                    if due {
                        if let Some(directory) = &arena.working_directory {
                            targets.push(
                                CiTarget {
                                    entity: arena.entity,
                                    working_directory: directory.clone(),
                                    pr_number: pr.number,
                                },
                            );
                        }
                    }
                }
            }
            i += 1;
        }
        targets
    }

    /// How long the polling of checks sleeps.
    pub fn ci_sleep(&self, arenas: &Vec<PolledArena>, now: u64) -> (sleep: u64)
        ensures
            sleep == sleep_of(*self, arenas@, now),
            10 * SECOND <= sleep <= 60 * SECOND,
    {
        let mut shortest: u64 = 60 * SECOND;
        let mut i: usize = 0;
        while i < arenas.len()
            invariant
                i <= arenas@.len(),
                shortest <= 60 * SECOND,
                shortest == shortest_before(*self, arenas@, now, i as int),
            decreases arenas@.len() - i,
        {
            let arena = &arenas[i];
            let checked = match self.pr_info.get(&arena.entity) {
                Some(pr) => pr.status != PrStatus::Merged,
                None => false,
            };
            if checked {
                let since: u64 = match self.ci_last_checked.get(&arena.entity) {
                    Some(then) => time_since(*then, now),
                    None => 0,
                };
                let own: u64 = if arena.interval >= since {
                    arena.interval - since
                } else {
                    0
                };
                if own < shortest {
                    shortest = own;
                }
            }
            i += 1;
        }
        if shortest < 10 * SECOND {
            10 * SECOND
        } else {
            shortest
        }
    }

    /// An arena is gone, and with it everything that was known of it.
    pub fn forget(&mut self, entity: u64)
        ensures
            final(self).has_forgotten(*old(self), entity),
    {
        self.pr_info.remove(&entity);
        self.pr_last_checked.remove(&entity);
        self.ci_status.remove(&entity);
        self.ci_last_checked.remove(&entity);
    }
}

proof fn lemma_shortest(polling: Polling, arenas: Seq<PolledArena>, now: u64, n: int, i: int)
    requires
        0 <= i < n <= arenas.len(),
        is_checked(polling, arenas[i]),
    ensures
        shortest_before(polling, arenas, now, n) <= remaining_of(polling, arenas[i], now),
    decreases n,
{
    if i < n - 1 {
        lemma_shortest(polling, arenas, now, n - 1, i);
    }
}

/// The polling of checks sleeps no longer than until the checks of any arena are
/// due, or for ten seconds.
pub proof fn law_sleep_ends_when_checks_are_due(
    polling: Polling,
    arenas: Seq<PolledArena>,
    now: u64,
    i: int,
)
    requires
        0 <= i < arenas.len(),
        is_checked(polling, arenas[i]),
    ensures
        sleep_of(polling, arenas, now) <= remaining_of(polling, arenas[i], now) || sleep_of(
            polling,
            arenas,
            now,
        ) == 10 * SECOND,
{
    lemma_shortest(polling, arenas, now, arenas.len() as int, i);
}

proof fn lemma_due(polling: Polling, arenas: Seq<PolledArena>, now: u64, n: int)
    requires
        0 <= n <= arenas.len(),
    ensures
        forall|k: int|
            0 <= k < due_before(polling, arenas, now, n).len() ==> is_due(
                polling,
                #[trigger] due_before(polling, arenas, now, n)[k],
                now,
            ),
    decreases n,
{
    if n > 0 {
        lemma_due(polling, arenas, now, n - 1);
        let before = due_before(polling, arenas, now, n - 1);
        let due = due_before(polling, arenas, now, n);
        assert forall|k: int| 0 <= k < due.len() implies is_due(polling, #[trigger] due[k], now) by {
            if k < before.len() {
                assert(due[k] == before[k]);
            }
        }
    }
}

/// The checks of a pull request that is merged, or of none, are not asked for.
pub proof fn law_merged_are_left_alone(
    polling: Polling,
    arenas: Seq<PolledArena>,
    now: u64,
    k: int,
)
    requires
        0 <= k < due_before(polling, arenas, now, arenas.len() as int).len(),
    ensures
        is_checked(polling, due_before(polling, arenas, now, arenas.len() as int)[k]),
{
    lemma_due(polling, arenas, now, arenas.len() as int);
}

/// Once a polling has timed out, neither the window nor an arena that is shown
/// or added nor a new head sets it going again.
pub proof fn law_timed_out_polling_stays_stopped(
    polling: Polling,
    active: bool,
    entity: u64,
    now: u64,
)
    ensures
        polling.pr_polling_timed_out ==> !starts_of(polling, active).pr && !asks_at_once(polling)
            && !fetches_of(polling, entity, now).pr,
        polling.ci_polling_timed_out ==> !starts_of(polling, active).ci && fetches_of(
            polling,
            entity,
            now,
        ).ci is None,
{
}

/// An arena that is shown has its pull request asked for where the GitHub command
/// is there, polling did not time out, and it was not asked for within the last
/// thirty seconds; its checks likewise, where it has a pull request.
pub proof fn law_shown_arenas_are_asked_for(polling: Polling, entity: u64, now: u64)
    ensures
        ({
            let fetches = fetches_of(polling, entity, now);
            let prs = polling.pr_last_checked@;
            let checks = polling.ci_last_checked@;
            &&& fetches.pr == (polling.gh_available && !polling.pr_polling_timed_out && (
            !prs.contains_key(entity) || now - prs[entity] > STALE_AFTER))
            &&& fetches.ci is Some == (polling.gh_available && !polling.ci_polling_timed_out
                && polling.pr_info@.contains_key(entity) && (!checks.contains_key(entity) || now
                - checks[entity] > STALE_AFTER))
            &&& fetches.ci matches Some(number) ==> number == polling.pr_info@[entity].number
        }),
{
}

/// Polling starts where the window is in front, the GitHub command is there, and it
/// neither runs nor has timed out.
pub proof fn law_polling_starts(polling: Polling, active: bool)
    ensures
        !active ==> !starts_of(polling, active).pr && !starts_of(polling, active).ci,
        !polling.gh_available ==> !starts_of(polling, active).pr && !starts_of(polling, active).ci,
        active && polling.gh_available && !polling.pr_polling && !polling.pr_polling_timed_out
            ==> starts_of(polling, active).pr,
        active && polling.gh_available && !polling.ci_polling && !polling.ci_polling_timed_out
            ==> starts_of(polling, active).ci,
        polling.pr_polling ==> !starts_of(polling, active).pr,
        polling.ci_polling ==> !starts_of(polling, active).ci,
{
}

pub open spec fn is_due_for_checks(polling: Polling, arena: PolledArena, now: u64) -> bool {
    &&& arena.working_directory is Some
    &&& polling.pr_info@.contains_key(arena.entity)
    &&& !(polling.pr_info@[arena.entity].status is Merged)
    &&& polling.ci_last_checked@.contains_key(arena.entity) ==> {
        let last = polling.ci_last_checked@[arena.entity];
        now - last >= arena.interval || arena.interval == 0
    }
}

proof fn lemma_due_before(polling: Polling, arenas: Seq<PolledArena>, now: u64, n: int)
    requires
        0 <= n <= arenas.len(),
    ensures
        forall|i: int|
            0 <= i < n && is_due_for_checks(polling, #[trigger] arenas[i], now) ==> due_before(
                polling,
                arenas,
                now,
                n,
            ).contains(arenas[i]),
        forall|k: int|
            0 <= k < due_before(polling, arenas, now, n).len() ==> is_due_for_checks(
                polling,
                #[trigger] due_before(polling, arenas, now, n)[k],
                now,
            ) && arenas.take(n).contains(due_before(polling, arenas, now, n)[k]),
    decreases n,
{
    if n > 0 {
        lemma_due_before(polling, arenas, now, n - 1);
        let before = due_before(polling, arenas, now, n - 1);
        let after = due_before(polling, arenas, now, n);
        assert forall|i: int|
            0 <= i < n && is_due_for_checks(polling, #[trigger] arenas[i], now) implies after.contains(
            arenas[i],
        ) by {
            if i < n - 1 {
                let k = choose|k: int| 0 <= k < before.len() && before[k] == arenas[i];
                assert(after[k] == arenas[i]);
            } else {
                assert(after[after.len() - 1] == arenas[i]);
            }
        }
        assert forall|k: int| 0 <= k < after.len() implies is_due_for_checks(
            polling,
            #[trigger] after[k],
            now,
        ) && arenas.take(n).contains(after[k]) by {
            if k < before.len() {
                assert(before[k] == after[k]);
                let earlier = arenas.take(n - 1);
                let i = choose|i: int| 0 <= i < earlier.len() && earlier[i] == before[k];
                assert(arenas.take(n)[i] == after[k]);
            } else {
                assert(arenas.take(n)[n - 1] == after[k]);
            }
        }
    }
}

/// The checks are asked for of every arena with a pull request that is not merged
/// and was not asked about for as long as its interval, and of no other.
pub proof fn law_due_checks_are_asked_for(polling: Polling, arenas: Seq<PolledArena>, now: u64)
    ensures
        forall|i: int|
            0 <= i < arenas.len() && is_due_for_checks(polling, #[trigger] arenas[i], now)
                ==> due_before(polling, arenas, now, arenas.len() as int).contains(arenas[i]),
        forall|k: int|
            0 <= k < due_before(polling, arenas, now, arenas.len() as int).len()
                ==> is_due_for_checks(
                polling,
                #[trigger] due_before(polling, arenas, now, arenas.len() as int)[k],
                now,
            ) && arenas.contains(due_before(polling, arenas, now, arenas.len() as int)[k]),
{
    lemma_due_before(polling, arenas, now, arenas.len() as int);
    assert(arenas.take(arenas.len() as int) =~= arenas);
}

/// What is known of an arena that was removed is forgotten, and of no other.
pub proof fn law_forgetting(after: Polling, before: Polling, entity: u64, other: u64)
    requires
        after.has_forgotten(before, entity),
        other != entity,
    ensures
        !after.pr_info@.contains_key(entity) && !after.ci_status@.contains_key(entity),
        !after.pr_last_checked@.contains_key(entity) && !after.ci_last_checked@.contains_key(
            entity,
        ),
        after.pr_info@.contains_key(other) == before.pr_info@.contains_key(other),
        after.ci_status@.contains_key(other) == before.ci_status@.contains_key(other),
        before.pr_info@.contains_key(other) ==> after.pr_info@[other] == before.pr_info@[other],
        before.ci_status@.contains_key(other) ==> after.ci_status@[other]
            == before.ci_status@[other],
        after.pr_polling == before.pr_polling && after.ci_polling == before.ci_polling,
        after.gh_available == before.gh_available,
{
}

/// A new head forgets the pull request and the checks of the arena that is shown,
/// and nothing of any other.
pub proof fn law_new_head(after: Polling, before: Polling, active: u64, other: u64)
    requires
        after.has_new_head(before, Some(active)),
        other != active,
    ensures
        !after.pr_info@.contains_key(active) && !after.ci_status@.contains_key(active),
        after.pr_info@.contains_key(other) == before.pr_info@.contains_key(other),
        before.pr_info@.contains_key(other) ==> after.pr_info@[other] == before.pr_info@[other],
        after.ci_status@.contains_key(other) == before.ci_status@.contains_key(other),
        after.pr_last_checked == before.pr_last_checked,
        after.ci_last_checked == before.ci_last_checked,
{
}

/// The innermost repository of a directory holds it, and no other that holds it
/// lies deeper.
pub proof fn law_innermost(repos: Seq<RepoInfo>, found: Option<int>, directory: Seq<char>, k: int)
    requires
        innermost(repos, found, directory, false),
        0 <= k < repos.len(),
        is_under(directory, repos[k].work_directory@),
    ensures
        found matches Some(index) && 0 <= index < repos.len() && is_under(
            directory,
            repos[index].work_directory@,
        ) && components_of(repos[k].work_directory@).len() <= components_of(
            repos[index].work_directory@,
        ).len(),
{
    assert(holds(repos, k, directory));
}

/// What is asked for of an arena: the checks of its own pull request, in its own
/// directory.
pub proof fn law_what_is_asked_for(polling: Polling, arena: PolledArena, target: CiTarget)
    requires
        is_target_of(polling, arena, target),
        polling.pr_info@.contains_key(arena.entity),
    ensures
        target.entity == arena.entity,
        arena.working_directory is Some && target.working_directory@
            == arena.working_directory->0@,
        target.pr_number == polling.pr_info@[arena.entity].number,
{
}

/// The sleep between two rounds: a minute where no arena has checks to ask for,
/// and for one arena what is left of its interval, which begins anew where nothing
/// was asked yet; never under ten seconds and never over a minute.
pub proof fn law_sleep(polling: Polling, arena: PolledArena, now: u64, left: int)
    requires
        polling.pr_info@.contains_key(arena.entity),
        !(polling.pr_info@[arena.entity].status is Merged),
        !polling.ci_last_checked@.contains_key(arena.entity) ==> left == arena.interval,
        polling.ci_last_checked@.contains_key(arena.entity) ==> polling.ci_last_checked@[arena.entity]
            <= now && left == arena.interval - (now - polling.ci_last_checked@[arena.entity]),
    ensures
        sleep_of(polling, seq![], now) == 60 * SECOND,
        sleep_of(polling, seq![arena], now) == if left < 10 * SECOND {
            10 * SECOND
        } else if left > 60 * SECOND {
            60 * SECOND
        } else {
            left
        },
{
    reveal_with_fuel(shortest_before, 2);
}

} // verus!
