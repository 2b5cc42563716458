//! The board of tasks, and references to issues.

use agentium::board::{Board, BoardError, BoardTask, IssueLink, IssueRef, TaskCommand};
use agentium::issue_ref::{is_backlog_issue_key, parse_issue_ref, IssueError};
use uuid::Uuid;

/// A new id. One whose first eight digits are all decimal is passed over: they would be read as
/// an index.
fn new_id() -> u128 {
    loop {
        let id = Uuid::new_v4();
        if id.to_string()[..8].parse::<usize>().is_err() {
            return id.as_u128();
        }
    }
}

fn sample_board() -> Board {
    Board {
        version: 1,
        tasks: vec![BoardTask {
            id: new_id(),
            title: "XXXをYYYする".to_string(),
            issues: vec![
                IssueLink {
                    reference: IssueRef::GitHub {
                        repo: "safx/zed".to_string(),
                        number: 12,
                    },
                    title: Some("A bug".to_string()),
                    state: Some("open".to_string()),
                    url: Some("https://github.com/safx/zed/issues/12".to_string()),
                },
                IssueLink::from_reference(IssueRef::Backlog {
                    issue_key: "PROJ-198".to_string(),
                }),
            ],
            worktrees: vec!["/tmp/example".to_string()],
            archived: false,
        }],
    }
}

#[test]
fn parse_issue_ref_accepts_documented_forms() {
    assert_eq!(
        parse_issue_ref("https://github.com/safx/zed/issues/12")
            .unwrap()
            .reference,
        IssueRef::GitHub {
            repo: "safx/zed".to_string(),
            number: 12
        }
    );
    assert_eq!(
        parse_issue_ref("safx/zed#12").unwrap().reference,
        IssueRef::GitHub {
            repo: "safx/zed".to_string(),
            number: 12
        }
    );
    let backlog = parse_issue_ref("https://example.backlog.jp/view/PROJ-198").unwrap();
    assert_eq!(
        backlog.reference,
        IssueRef::Backlog {
            issue_key: "PROJ-198".to_string()
        }
    );
    assert_eq!(
        backlog.url.as_deref(),
        Some("https://example.backlog.jp/view/PROJ-198")
    );
    assert_eq!(
        parse_issue_ref("PROJ-198").unwrap().reference,
        IssueRef::Backlog {
            issue_key: "PROJ-198".to_string()
        }
    );
    assert!(parse_issue_ref("not an issue").is_err());
    assert!(parse_issue_ref("lowercase-198").is_err());
}

#[test]
fn resolve_task_by_index_uuid_prefix_and_title() {
    let mut board = sample_board();
    board.tasks.push(BoardTask {
        id: new_id(),
        title: "archived one".to_string(),
        issues: Vec::new(),
        worktrees: Vec::new(),
        archived: true,
    });
    let id = board.tasks[0].id;
    assert_eq!(board.resolve_task("1").unwrap(), id);
    assert_eq!(
        board
            .resolve_task(&Uuid::from_u128(id).to_string()[..8])
            .unwrap(),
        id
    );
    assert_eq!(board.resolve_task("yyy").unwrap(), id);
    assert!(board.resolve_task("2").is_err());
    assert!(board.resolve_task("archived").is_err());
}

fn task(id: u128, title: &str) -> BoardTask {
    BoardTask {
        id,
        title: title.to_string(),
        issues: Vec::new(),
        worktrees: Vec::new(),
        archived: false,
    }
}

#[test]
fn selectors_that_fit_no_task_or_several() {
    let board = Board {
        version: 1,
        tasks: vec![task(1, "fix the parser"), task(2, "fix the printer")],
    };
    assert!(matches!(
        board.resolve_task("3"),
        Err(BoardError::IndexOutOfRange(3, 2))
    ));
    assert!(matches!(
        board.resolve_task("nothing"),
        Err(BoardError::NoMatch(_, _))
    ));
    let ambiguous = board.resolve_task("fix").unwrap_err();
    assert!(matches!(ambiguous, BoardError::Ambiguous(_, _)));
    let message = ambiguous.message();
    assert!(message.contains("\"fix\""), "{message}");
    assert!(message.contains("fix the parser"), "{message}");
    assert!(message.contains("fix the printer"), "{message}");
    assert_eq!(board.resolve_task("printer").unwrap(), 2);
    assert_eq!(
        board.resolve_task("00000000-0000-0000-0000-000000000002").unwrap(),
        2
    );
}

#[test]
fn commands_change_the_board_once() {
    let mut board = Board {
        version: 1,
        tasks: Vec::new(),
    };
    let link = parse_issue_ref("safx/zed#12").unwrap();
    let new = TaskCommand::New {
        id: 7,
        title: "a task".to_string(),
        issues: Vec::new(),
        worktrees: Vec::new(),
    };
    assert!(board.apply(new.clone()).is_ok());
    assert!(board.apply(new).is_ok());
    assert_eq!(board.tasks.len(), 1);
    let issue = TaskCommand::AddIssue {
        task_id: 7,
        issue: link.clone(),
    };
    assert!(board.apply(issue.clone()).is_ok());
    assert!(board.apply(issue).is_ok());
    assert_eq!(board.tasks[0].issues, vec![link]);
    let arena = TaskCommand::AddArena {
        task_id: 7,
        path: "/tmp/example".to_string(),
    };
    assert!(board.apply(arena.clone()).is_ok());
    assert!(board.apply(arena).is_ok());
    assert_eq!(board.tasks[0].worktrees, vec!["/tmp/example".to_string()]);
    assert_eq!(board.tasks_containing_worktree("/tmp/example").len(), 1);
    assert_eq!(board.active_tasks().len(), 1);
    assert!(board.apply(TaskCommand::Archive { task_id: 7 }).is_ok());
    assert!(board.active_tasks().is_empty());
    assert!(board.tasks_containing_worktree("/tmp/example").is_empty());
    assert!(matches!(
        board.apply(TaskCommand::Archive { task_id: 8 }),
        Err(BoardError::UnknownTask(8))
    ));
    assert!(board.task_mut(8).is_err());
    board.task_mut(7).unwrap().archived = false;
    assert_eq!(board.active_tasks().len(), 1);
}

#[test]
fn commands_leave_other_tasks_alone() {
    let mut board = Board {
        version: 1,
        tasks: vec![task(1, "first"), task(2, "second"), task(3, "third")],
    };
    let path = "/tmp/example".to_string();
    assert!(board.apply(TaskCommand::AddArena { task_id: 2, path }).is_ok());
    assert!(board.apply(TaskCommand::Archive { task_id: 3 }).is_ok());
    let ids: Vec<u128> = board.tasks.iter().map(|task| task.id).collect();
    assert_eq!(ids, vec![1, 2, 3]);
    assert!(board.tasks[0].worktrees.is_empty() && !board.tasks[0].archived);
    assert!(!board.tasks[1].archived);
    assert!(board.tasks[2].worktrees.is_empty());
    assert_eq!(board.version, 1);
}

#[test]
fn labels_are_read_back() {
    for reference in [
        IssueRef::GitHub {
            repo: "safx/zed".to_string(),
            number: 12,
        },
        IssueRef::Backlog {
            issue_key: "PROJ_2-198".to_string(),
        },
    ] {
        let label = reference.short_label();
        assert_eq!(parse_issue_ref(&label).unwrap().reference, reference, "{label}");
    }
    assert_eq!(
        IssueRef::GitHub {
            repo: "safx/zed".to_string(),
            number: 12
        }
        .short_label(),
        "safx/zed#12"
    );
}

#[test]
fn references_that_are_refused() {
    let error = parse_issue_ref("https://github.com/safx/zed/pull/12").unwrap_err();
    assert!(matches!(error, IssueError::UnsupportedGitHubUrl(_)));
    let error = parse_issue_ref("https://example.com/12").unwrap_err();
    assert!(matches!(error, IssueError::UnsupportedUrl(_)));
    let error = parse_issue_ref("https://github.com/safx/zed/issues/twelve").unwrap_err();
    assert!(matches!(error, IssueError::InvalidNumber(_)));
    let error = parse_issue_ref("not an issue").unwrap_err();
    assert!(matches!(error, IssueError::Unknown(_)));
    assert_eq!(
        error.message(),
        "cannot parse issue reference \"not an issue\" (expected an issue URL, owner/repo#123, or a Backlog key like PROJ-198)"
    );
}

#[test]
fn backlog_keys() {
    for key in ["PROJ-198", "A_1-0"] {
        assert!(is_backlog_issue_key(key), "{key}");
    }
    for key in ["", "-1", "1A-1", "PROJ-", "PROJ", "proj-1", "PROJ-1x"] {
        assert!(!is_backlog_issue_key(key), "{key}");
    }
}
