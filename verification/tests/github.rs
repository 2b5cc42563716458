//! Pull requests and checks: what is made of them, and when they are asked for.

use std::collections::HashSet;

use agentium::app::{AgentiumApp, RateLimits};
use agentium::arenas::{effective_path, resolve_arena_name, Arenas, WorktreeInfo};
use agentium::github::{
    ci_bucket_order, ci_info, latest_reviews, pr_info, pr_status, review_decision, review_state,
    review_state_order, reviews_api_path, sorted_checks, sorted_reviews, CiCheckEntry, CiStatus,
    GhPrView, PrInfo, PrStatus, RestReview, ReviewDecision, ReviewEntry, ReviewState,
};
use agentium::ipc::{PaneContentType, SplitDirection};
use agentium::panes::PaneItem;
use agentium::polling::{
    compute_ci_poll_interval, innermost_repo, CiTarget, Fetches, PolledArena, Polling, RepoInfo,
    Starts, SECOND,
};
use agentium::sessions::{ClaudeSessions, ReadyTerminalInfo, TerminalRef};
use agentium::sidebar::{
    arena_row, badge_menu_entry, git_info, pr_badge, pr_tooltip, rate_limit_panel, rate_limit_row,
    review_age, review_badge, review_tooltip, BadgeIcon, GitInfo, Tone,
};

fn pr_view() -> GhPrView {
    GhPrView {
        number: 12,
        title: "A change".to_string(),
        state: "OPEN".to_string(),
        mergeable: "MERGEABLE".to_string(),
        is_draft: false,
        url: "https://github.com/safx/zed/pull/12".to_string(),
        review_decision: String::new(),
        head_ref_oid: "head".to_string(),
    }
}

fn review(user: &str, state: ReviewState, commit_oid: &str) -> ReviewEntry {
    ReviewEntry {
        user: user.to_string(),
        state,
        commit_oid: commit_oid.to_string(),
        avatar_url: format!("https://avatars/{user}"),
        submitted_at: "then".to_string(),
    }
}

fn check(name: &str, bucket: &str) -> CiCheckEntry {
    CiCheckEntry {
        name: name.to_string(),
        bucket: bucket.to_string(),
    }
}

fn open_pr() -> PrInfo {
    pr_info(pr_view(), Some(Vec::new()))
}

fn repo(work_directory: &str, commit_timestamp: Option<i64>) -> RepoInfo {
    RepoInfo {
        work_directory: work_directory.to_string(),
        branch: Some("main".to_string()),
        remote_origin_url: Some("git@github.com:safx/zed.git".to_string()),
        commit_timestamp,
        diff_stats: vec![Some((3, 1)), None, Some((4, 0))],
    }
}

#[test]
fn states_of_a_pull_request() {
    assert_eq!(pr_status("CONFLICTING", true, "MERGED"), PrStatus::Conflicted);
    assert_eq!(pr_status("MERGEABLE", true, "MERGED"), PrStatus::Draft);
    assert_eq!(pr_status("UNKNOWN", false, "MERGED"), PrStatus::Merged);
    assert_eq!(pr_status("UNKNOWN", false, "CLOSED"), PrStatus::Closed);
    assert_eq!(pr_status("UNKNOWN", false, "OPEN"), PrStatus::Open);
    assert_eq!(review_decision("APPROVED"), Some(ReviewDecision::Approved));
    assert_eq!(
        review_decision("CHANGES_REQUESTED"),
        Some(ReviewDecision::ChangesRequested)
    );
    assert_eq!(
        review_decision("REVIEW_REQUIRED"),
        Some(ReviewDecision::ReviewRequired)
    );
    assert_eq!(review_decision(""), None);
    assert_eq!(review_state("APPROVED"), ReviewState::Approved);
    assert_eq!(review_state("CHANGES_REQUESTED"), ReviewState::ChangesRequested);
    assert_eq!(review_state("COMMENTED"), ReviewState::Commented);
    assert_eq!(review_state("DISMISSED"), ReviewState::Dismissed);
    assert_eq!(review_state("PENDING"), ReviewState::Pending);
}

#[test]
fn reviews_of_the_head_are_counted() {
    let reviews = vec![
        review("a", ReviewState::Approved, "head"),
        review("b", ReviewState::Commented, "older"),
        review("c", ReviewState::Commented, "head"),
    ];
    let info = pr_info(pr_view(), Some(reviews));
    assert_eq!(info.review_count, 2);
    assert_eq!(info.reviews.len(), 3);
    assert_eq!(info.number, 12);
    assert_eq!(info.title, "A change");
    assert_eq!(info.head_sha, "head");
    let info = pr_info(pr_view(), None);
    assert_eq!((info.review_count, info.reviews.len()), (0, 0));
}

#[test]
fn where_reviews_are_asked_for() {
    assert_eq!(
        reviews_api_path("https://github.com/safx/zed/pull/12").as_deref(),
        Some("repos/safx/zed/pulls/12/reviews")
    );
    assert_eq!(
        reviews_api_path("https://github.com/safx/zed/pull/12/files").as_deref(),
        Some("repos/safx/zed/pulls/12/files/reviews")
    );
    assert_eq!(reviews_api_path("https://github.com/safx/zed/pull"), None);
    assert_eq!(reviews_api_path("https://example.com/safx/zed/pull/12"), None);
}

#[test]
fn the_latest_review_of_each_user_stays() {
    let rest = |login: &str, state: &str, commit_id: &str| RestReview {
        login: login.to_string(),
        avatar_url: String::new(),
        state: state.to_string(),
        commit_id: commit_id.to_string(),
        submitted_at: String::new(),
    };
    let entries = latest_reviews(&vec![
        rest("a", "COMMENTED", "1"),
        rest("b", "APPROVED", "1"),
        rest("a", "CHANGES_REQUESTED", "2"),
    ]);
    assert_eq!(entries.len(), 2);
    let of = |user: &str| entries.iter().find(|entry| entry.user == user).unwrap();
    assert_eq!(of("a").state, ReviewState::ChangesRequested);
    assert_eq!(of("a").commit_oid, "2");
    assert_eq!(of("b").state, ReviewState::Approved);
}

#[test]
fn status_of_checks() {
    assert_eq!(ci_info(Vec::new()), None);
    for (buckets, status) in [
        (vec!["pass", "skipping"], CiStatus::AllPassed),
        (vec!["pass", "fail"], CiStatus::Failed),
        (vec!["pass", "cancel"], CiStatus::Failed),
        (vec!["pending", "pass"], CiStatus::PendingClean),
        (vec!["pending", "fail"], CiStatus::PendingWithFailure),
    ] {
        let checks = buckets.iter().map(|bucket| check("c", bucket)).collect();
        assert_eq!(ci_info(checks).unwrap().status, status, "{buckets:?}");
    }
}

#[test]
fn checks_and_reviews_are_ordered() {
    let checks = vec![
        check("b", "fail"),
        check("a", "fail"),
        check("z", "pending"),
        check("y", "skipping"),
        check("x", "other"),
        check("w", "pass"),
    ];
    assert_eq!(sorted_checks(&checks), vec![1, 0, 2, 5, 3, 4]);
    let reviews = vec![
        review("d", ReviewState::Pending, "older"),
        review("c", ReviewState::ChangesRequested, "head"),
        review("b", ReviewState::Approved, "head"),
        review("a", ReviewState::Approved, "head"),
    ];
    assert_eq!(sorted_reviews(&reviews, "head"), vec![3, 2, 1, 0]);
    let ranks: Vec<u8> = ["fail", "pending", "pass", "skipping", ""]
        .iter()
        .map(|bucket| ci_bucket_order(bucket))
        .collect();
    assert_eq!(ranks, vec![0, 1, 2, 3, 4]);
    assert_eq!(review_state_order(&ReviewState::Dismissed), 3);
}

#[test]
fn badges_of_a_pull_request() {
    let mut pr = open_pr();
    let badge = pr_badge(&pr, Some(CiStatus::Failed));
    assert_eq!(badge.icon, BadgeIcon::PullRequest);
    assert_eq!(badge.tone, Tone::Success);
    assert_eq!(badge.label, "#12");
    assert_eq!(badge.ci, Some((BadgeIcon::FilledCross, Tone::Error)));
    assert_eq!(badge.url, "https://github.com/safx/zed/pull/12");
    assert_eq!(review_badge(&pr), None);
    pr.review_count = 2;
    let badge = review_badge(&pr).unwrap();
    assert_eq!((badge.icon, badge.label.as_deref()), (BadgeIcon::Eye, Some("2")));
    pr.review_decision = Some(ReviewDecision::ReviewRequired);
    let badge = review_badge(&pr).unwrap();
    assert_eq!((badge.icon, badge.tone, badge.label), (BadgeIcon::Circle, Tone::Warning, None));
    pr.status = PrStatus::Merged;
    assert_eq!(review_badge(&pr), None);
    assert_eq!(pr_badge(&pr, Some(CiStatus::Failed)).ci, None);
}

#[test]
fn tooltips_of_a_pull_request() {
    let pr = open_pr();
    let ci = ci_info(vec![check("b", "fail"), check("a", "pass"), check("c", "skipping")]);
    let tooltip = pr_tooltip(Some(&pr), ci.as_ref(), Some("main".to_string()));
    assert_eq!(tooltip.title.as_deref(), Some("A change #12"));
    assert_eq!(
        tooltip.status,
        Some(("Open".to_string(), BadgeIcon::PullRequest, Tone::Success))
    );
    assert_eq!(tooltip.branch.as_deref(), Some("main"));
    let rows: Vec<_> = tooltip
        .checks
        .iter()
        .map(|row| (row.name.as_str(), row.icon, row.tone, row.text_tone))
        .collect();
    assert_eq!(
        rows,
        vec![
            ("b", BadgeIcon::Circle, Tone::Error, Tone::Text),
            ("a", BadgeIcon::Check, Tone::Success, Tone::Text),
            ("c", BadgeIcon::Slash, Tone::Muted, Tone::Muted),
        ]
    );
    let rows = review_tooltip(
        &vec![
            review("b", ReviewState::Approved, "older"),
            review("a", ReviewState::Commented, "head"),
        ],
        "head",
    );
    assert_eq!(rows[0].user, "a");
    assert_eq!(rows[0].icon, Some((BadgeIcon::Circle, Tone::Info)));
    assert_eq!(rows[0].name_tone, Tone::Text);
    assert_eq!(rows[0].submitted_at, "then");
    assert_eq!(review_age(&rows[0]), "then");
    assert_eq!(rows[1].icon, None);
    assert_eq!(rows[1].name_tone, Tone::Muted);
    let mut old = review("c", ReviewState::Approved, "head");
    old.submitted_at = "2001-02-03T04:05:06Z".to_string();
    let age = review_age(&review_tooltip(&vec![old], "head")[0]);
    assert!(age.ends_with("y ago"), "{age}");
}

#[test]
fn rows_of_the_arenas() {
    let mut app = AgentiumApp::new();
    let repos = vec![repo("/w", None), repo("/w/zed", None)];
    let none = Vec::new();
    assert_eq!(app.sidebar_row(0, &Vec::new(), &repos, &none), None);
    app.add_arena_with_path(1, "/w/zed/src".to_string(), &Vec::new(), &repos);
    app.add_arena_with_path(2, "/elsewhere".to_string(), &Vec::new(), &repos);
    app.polling.pr_fetched(2, Some(open_pr()), 0);
    app.polling.ci_fetched(2, ci_info(vec![check("a", "fail")]), 0);
    app.arenas.start_rename_arena(2);
    app.set_claude_session_prompt("s", vec![5], String::new());
    let terminals = vec![TerminalRef {
        pane: 1,
        terminal: 2,
        shell_pid: Some(5),
    }];
    let row = app.sidebar_row(0, &Vec::new(), &repos, &terminals).unwrap();
    assert!(!row.is_active && !row.is_renaming);
    assert_eq!(row.branch, "main");
    assert_eq!(row.added.as_deref(), Some("+7"));
    assert_eq!(row.name_url, None);
    assert_eq!(row.running, 1);
    assert_eq!(row.directory.as_deref(), Some("src"));
    assert_eq!(row.pr, None);
    let row = app.sidebar_row(1, &Vec::new(), &repos, &none).unwrap();
    assert!(row.is_active && row.is_renaming);
    assert_eq!(row.branch, "");
    assert_eq!(row.added, None);
    assert_eq!(row.running, 0);
    assert_eq!(row.pr, Some(pr_badge(&open_pr(), Some(CiStatus::Failed))));
    assert_eq!(app.sidebar_row(2, &Vec::new(), &repos, &none), None);
}

#[test]
fn rows_of_the_sidebar() {
    let info = git_info(&vec![repo("/w", None), repo("/w/zed", None)], "/w/zed/src").unwrap();
    assert_eq!(
        info,
        GitInfo {
            branch: Some("main".to_string()),
            browser_url: Some("https://github.com/safx/zed".to_string()),
            lines_added: 7,
            lines_deleted: 1,
        }
    );
    assert_eq!(git_info(&vec![repo("/w/zed", None)], "/w/zed2"), None);

    let mut arenas = Arenas::new();
    arenas.add_arena_inner(1, "zed".to_string(), Some("/w/zed/src".to_string()));
    let mut sessions = ClaudeSessions::new();
    sessions.set_claude_session_prompt("s", vec![5], String::new());
    let terminals = vec![TerminalRef {
        pane: 1,
        terminal: 2,
        shell_pid: Some(5),
    }];
    let pr = open_pr();
    let row = arena_row(
        &arenas.list[0],
        true,
        false,
        Some("/w/zed/src".to_string()),
        Some(info),
        &sessions.shared,
        &terminals,
        Some(&pr),
        None,
    );
    assert_eq!(row.name, "zed");
    assert_eq!(row.name_url.as_deref(), Some("https://github.com/safx/zed"));
    assert_eq!((row.waiting, row.running, row.ready), (0, 1, 0));
    assert_eq!(row.branch, "main");
    assert_eq!(row.added.as_deref(), Some("+7"));
    assert_eq!(row.deleted.as_deref(), Some("-1"));
    assert_eq!(row.directory.as_deref(), Some("src"));
    assert_eq!(row.pr, Some(pr_badge(&pr, None)));
    assert_eq!(row.review, None);
}

#[test]
fn entries_of_the_badge_menu() {
    let info = |user_prompt: &str| ReadyTerminalInfo {
        pane: 1,
        terminal: 2,
        user_prompt: user_prompt.to_string(),
        status_message: "Ready\nnow".to_string(),
    };
    assert_eq!(
        badge_menu_entry(&info("")),
        ("(no prompt)".to_string(), "Ready …".to_string())
    );
    assert_eq!(badge_menu_entry(&info("fix it")).0, "fix it");
}

#[test]
fn the_innermost_repository_counts() {
    let repos = vec![
        repo("/w", Some(100)),
        repo("/w/zed", Some(50)),
        repo("/w/zed/new", None),
        repo("/w/zebra", Some(1)),
    ];
    assert_eq!(innermost_repo(&repos, "/w/zed/new/src", false), Some(2));
    assert_eq!(innermost_repo(&repos, "/w/zed/new/src", true), Some(1));
    assert_eq!(innermost_repo(&repos, "/v", false), None);
    let interval = |directory: Option<&str>, now| {
        compute_ci_poll_interval(&repos, &directory.map(str::to_string), now)
    };
    assert_eq!(interval(Some("/w/zed/new"), 50 + 3601), 180 * SECOND);
    assert_eq!(interval(Some("/w"), 50 + 3601), 60 * SECOND);
    assert_eq!(interval(Some("/w/zed"), 50 + 86401), 300 * SECOND);
    assert_eq!(interval(Some("/v"), 1_000_000), 60 * SECOND);
    assert_eq!(interval(None, 1_000_000), 60 * SECOND);
}

#[test]
fn polling_starts_and_stops_with_the_window() {
    let mut polling = Polling::new();
    assert_eq!(polling.gh_checked(false), Starts { pr: false, ci: false });
    assert!(!polling.arena_added());
    assert_eq!(polling.gh_checked(true), Starts { pr: true, ci: true });
    assert!(polling.arena_added());
    assert_eq!(
        polling.window_activation_changed(true),
        Starts { pr: false, ci: false }
    );
    polling.window_activation_changed(false);
    assert_eq!(polling.window_activation_changed(true), Starts { pr: true, ci: true });
    let late = 5 * SECOND + 1;
    assert_eq!(polling.pr_polled(1, Some(open_pr()), late, 0), (true, None));
    assert!(polling.pr_info.is_empty());
    assert!(!polling.arena_added());
    polling.window_activation_changed(false);
    assert_eq!(
        polling.window_activation_changed(true),
        Starts { pr: false, ci: true }
    );
    assert!(polling.ci_polled(1, None, late, 0));
    polling.window_activation_changed(false);
    assert_eq!(
        polling.window_activation_changed(true),
        Starts { pr: false, ci: false }
    );
}

#[test]
fn what_is_fetched_for_an_arena() {
    let mut polling = Polling::new();
    polling.gh_checked(true);
    assert_eq!(polling.arena_shown(1, 0), Fetches { pr: true, ci: None });
    assert_eq!(polling.pr_fetched(1, Some(open_pr()), 0), Some(12));
    assert_eq!(polling.pr_fetched(1, Some(open_pr()), 0), None);
    assert_eq!(
        polling.pr_polled(1, Some(open_pr()), 5 * SECOND, 0),
        (false, None)
    );
    assert_eq!(
        polling.arena_shown(1, 60 * SECOND),
        Fetches { pr: false, ci: Some(12) }
    );
    polling.ci_fetched(1, ci_info(vec![check("a", "pass")]), 0);
    assert_eq!(
        polling.arena_shown(1, 60 * SECOND),
        Fetches { pr: false, ci: None }
    );
    assert_eq!(
        polling.arena_shown(1, 60 * SECOND + 1),
        Fetches { pr: true, ci: Some(12) }
    );
    assert_eq!(polling.head_changed(Some(1)), Some(1));
    assert!(polling.pr_info.is_empty() && polling.ci_status.is_empty());
    assert_eq!(polling.head_changed(None), None);
    polling.forget(1);
    assert!(polling.pr_last_checked.is_empty() && polling.ci_last_checked.is_empty());
}

#[test]
fn checks_that_are_due() {
    let arena = |entity, working_directory: Option<&str>, interval| PolledArena {
        entity,
        working_directory: working_directory.map(str::to_string),
        interval,
    };
    let mut polling = Polling::new();
    polling.gh_checked(true);
    for entity in [1, 2, 3] {
        polling.pr_fetched(entity, Some(open_pr()), 0);
    }
    let merged = PrInfo {
        status: PrStatus::Merged,
        ..open_pr()
    };
    polling.pr_fetched(4, Some(merged), 0);
    polling.ci_fetched(2, None, 100 * SECOND);
    let arenas = vec![
        arena(1, Some("/a"), 60 * SECOND),
        arena(2, Some("/b"), 60 * SECOND),
        arena(3, None, 60 * SECOND),
        arena(4, Some("/d"), 60 * SECOND),
        arena(5, Some("/e"), 60 * SECOND),
    ];
    let target = |entity, working_directory: &str| CiTarget {
        entity,
        working_directory: working_directory.to_string(),
        pr_number: 12,
    };
    assert_eq!(
        polling.ci_targets(&arenas, 159 * SECOND),
        vec![target(1, "/a")]
    );
    assert_eq!(
        polling.ci_targets(&arenas, 160 * SECOND),
        vec![target(1, "/a"), target(2, "/b")]
    );
    polling.ci_fetched(1, None, 100 * SECOND);
    polling.ci_fetched(3, None, 100 * SECOND);
    assert_eq!(polling.ci_sleep(&arenas, 130 * SECOND), 30 * SECOND);
    assert_eq!(polling.ci_sleep(&arenas, 159 * SECOND), 10 * SECOND);
    assert!(!polling.ci_targets(&arenas, 900 * SECOND).contains(&target(4, "/d")));
    assert_eq!(polling.ci_sleep(&Vec::new(), 0), 60 * SECOND);
}

#[test]
fn arenas_are_added_switched_renamed_and_removed() {
    let mut arenas = Arenas::new();
    for (entity, name) in [(10, "a"), (20, "b"), (30, "c")] {
        arenas.add_arena_inner(entity, name.to_string(), None);
    }
    assert_eq!(arenas.active_arena().unwrap().entity, 30);
    assert_eq!(arenas.list[2].id, 2);
    assert!(!arenas.switch_arena(3));
    assert!(arenas.switch_arena(1));
    assert_eq!(arenas.start_rename_arena(20).as_deref(), Some("b"));
    assert!(arenas.finish_rename_arena(true, " \t".to_string()));
    assert_eq!(arenas.list[1].name, "b");
    assert!(!arenas.finish_rename_arena(true, "x".to_string()));
    arenas.start_rename_arena(20);
    assert!(arenas.finish_rename_arena(false, "x".to_string()));
    assert_eq!(arenas.list[1].name, "b");
    arenas.start_rename_arena(20);
    assert!(arenas.finish_rename_arena(true, " x".to_string()));
    assert_eq!(arenas.list[1].name, " x");
    assert_eq!(arenas.remove_arena(10), Some(0));
    assert_eq!(arenas.active_arena().unwrap().entity, 20);
    arenas.start_rename_arena(30);
    arenas.switch_arena(1);
    assert_eq!(arenas.remove_arena(30), Some(1));
    assert_eq!(arenas.renaming_arena, None);
    assert_eq!(arenas.active_arena().unwrap().entity, 20);
    assert_eq!(arenas.remove_arena(30), None);
    arenas.remove_arena(20);
    assert!(arenas.active_arena().is_none());
    arenas.add_arena_inner(40, "d".to_string(), None);
    assert_eq!(arenas.list[0].id, 3);
}

#[test]
fn names_of_arenas() {
    let worktrees = vec![WorktreeInfo {
        abs_path: "/w/tree".to_string(),
        root_name: "tree".to_string(),
    }];
    let nameless = RepoInfo {
        remote_origin_url: None,
        ..repo("/r/checkout", None)
    };
    let name = |directory: Option<&str>, worktrees: &Vec<WorktreeInfo>, repos: &Vec<RepoInfo>| {
        resolve_arena_name(&directory.map(str::to_string), worktrees, repos, 4)
    };
    let none = Vec::new();
    assert_eq!(name(None, &none, &Vec::new()), "Arena 5");
    assert_eq!(name(Some("/w/tree/a"), &worktrees, &vec![repo("/w", None)]), "zed");
    assert_eq!(name(Some("/w/tree/a"), &worktrees, &Vec::new()), "tree");
    assert_eq!(name(None, &worktrees, &Vec::new()), "tree");
    assert_eq!(name(Some("/r/checkout/src"), &worktrees, &vec![nameless]), "checkout");
    assert_eq!(name(Some("/x/y"), &none, &Vec::new()), "y");
    assert_eq!(name(Some("/"), &none, &Vec::new()), "Arena 5");
    assert_eq!(effective_path(&None, &worktrees).as_deref(), Some("/w/tree"));
    assert_eq!(effective_path(&None, &none), None);
}

#[test]
fn arenas_of_the_program() {
    let mut app = AgentiumApp::new();
    let none = Vec::new();
    assert!(app
        .handle_tab_new(PaneContentType::Diff, &none, 1)
        .is_none());
    assert!(!app.add_arena_with_path(1, "/a".to_string(), &Vec::new(), &Vec::new()));
    app.polling.gh_checked(true);
    assert!(app.add_arena_with_path(2, "/b".to_string(), &Vec::new(), &Vec::new()));
    assert_eq!(app.switch_arena(0, 0), Some(Fetches { pr: true, ci: None }));
    assert_eq!(app.switch_arena(2, 0), None);
    app.polling.pr_fetched(1, Some(open_pr()), 0);
    assert_eq!(app.head_changed(), Some(1));
    assert!(app.polling.pr_info.is_empty());
    let plan = app
        .handle_pane_split(
            SplitDirection::Left,
            PaneContentType::ProjectSearch,
            true,
            &none,
            2,
        )
        .unwrap();
    assert!(!plan.focus_new_pane);
    assert!(matches!(
        plan.item,
        PaneItem::ProjectSearch { filter: Some(filter) } if filter == "a/**"
    ));
    app.mark_claude_session_ready("s", vec![5], None);
    let done = app.navigate_to_terminal(1, 7, Some(8), Some(5), 0);
    assert_eq!(done.zoom_out, Some(8));
    assert!(done.changed);
    assert_eq!(app.arenas.active_arena().unwrap().entity, 2);
    assert_eq!(app.claude_sessions.shared.ready_shell_pids, HashSet::new());
    assert!(app.remove_arena(2));
    assert!(!app.remove_arena(2));
    assert_eq!(app.arenas.list.len(), 1);
    assert_eq!(
        app.window_activation_changed(true),
        (Starts { pr: false, ci: false }, false)
    );
}

#[test]
fn rows_of_the_rate_limits() {
    let limits = RateLimits {
        five_hour_resets_at: 1000,
        seven_day_resets_at: 9000,
        received_at: 5 * SECOND,
    };
    let local = Some("Resets Mon 9:05".to_string());
    let panel = rate_limit_panel(&limits, 3605 * SECOND, 400, local.clone());
    assert!(!panel.is_stale);
    assert_eq!(
        panel.session,
        rate_limit_row("session", 1000, "Resets in 10m".to_string(), 400)
    );
    assert!(panel.session.has_bar);
    assert_eq!(panel.week.label, "week");
    assert_eq!(panel.week.reset_text, "Resets Mon 9:05");
    let panel = rate_limit_panel(&limits, 3605 * SECOND + 1, 1000, local);
    assert!(panel.is_stale);
    assert!(!panel.session.has_bar);
    assert_eq!(panel.session.reset_text, "Session reset");
    assert!(!rate_limit_panel(&limits, 0, 0, None).is_stale);
}
