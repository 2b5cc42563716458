//! Messages between the command line and the running program.

use agentium::app::{AgentiumApp, AppAction};
use agentium::ipc::{
    change_theme_message, decode_message, hook_message, pane_split_message, parse_message,
    probe_step, ready_step, split_direction, statusline_message, tab_new_message, AncestorWalk,
    ClaudeHookEvent, IpcMessage, PaneContentType, ProbeOutcome, ProbeStep, ReadyStep,
    SplitDirection,
};
use agentium::sessions::ClaudeSessionState;

#[test]
fn hooks_are_read_back_as_sent() {
    let input = br#"{"session_id": "s", "title": "t", "prompt": "p"}"#;
    let sent = |event| hook_message(event, input, &vec![7, 8]);
    let session_id = || "s".to_string();
    let read = |event| decode_message(sent(event).as_bytes()).unwrap();
    assert_eq!(
        read(ClaudeHookEvent::SessionStart),
        IpcMessage::ClaudeSessionStart {
            session_id: session_id(),
            ancestor_pids: vec![7, 8]
        }
    );
    assert_eq!(
        read(ClaudeHookEvent::Stop),
        IpcMessage::ClaudeStop {
            session_id: session_id(),
            ancestor_pids: vec![7, 8],
            title: "t".to_string()
        }
    );
    assert_eq!(
        read(ClaudeHookEvent::Notification),
        IpcMessage::ClaudeNotification {
            session_id: session_id(),
            ancestor_pids: vec![7, 8],
            title: "t".to_string()
        }
    );
    assert_eq!(
        read(ClaudeHookEvent::UserPromptSubmit),
        IpcMessage::ClaudeUserPromptSubmit {
            session_id: session_id(),
            ancestor_pids: vec![7, 8],
            prompt: "p".to_string()
        }
    );
    assert_eq!(
        read(ClaudeHookEvent::PermissionRequest),
        IpcMessage::ClaudePermissionRequest {
            session_id: session_id(),
            ancestor_pids: vec![7, 8]
        }
    );
    for event in [ClaudeHookEvent::PostToolUse, ClaudeHookEvent::PostToolUseFailure] {
        assert_eq!(
            read(event),
            IpcMessage::ClaudePostToolUse {
                session_id: session_id(),
                ancestor_pids: vec![7, 8]
            }
        );
    }
}

#[test]
fn hook_texts_are_cut() {
    let long = "あ".repeat(600);
    let input = format!(r#"{{"message": "{long}", "prompt": "{long}"}}"#);
    let text = hook_message(ClaudeHookEvent::Stop, input.as_bytes(), &Vec::new());
    let value: serde_json::Value = serde_json::from_str(&text).unwrap();
    assert_eq!(value["title"].as_str().unwrap(), "あ".repeat(500));
    assert_eq!(value["prompt"].as_str().unwrap(), "あ".repeat(500));
    assert_eq!(value["session_id"].as_str().unwrap(), "");
}

#[test]
fn a_hook_that_says_nothing_is_still_sent() {
    let text = hook_message(ClaudeHookEvent::Stop, b"not json", &vec![1]);
    let value: serde_json::Value = serde_json::from_str(&text).unwrap();
    assert_eq!(value["type"].as_str(), Some("claude_stop"));
    assert!(value.get("title").is_none());
    assert_eq!(
        decode_message(text.as_bytes()),
        Some(IpcMessage::ClaudeStop {
            session_id: String::new(),
            ancestor_pids: vec![1],
            title: String::new()
        })
    );
}

#[test]
fn pane_commands_are_read_back_as_sent() {
    let command = vec!["ls".to_string(), "a b".to_string()];
    for direction in [
        SplitDirection::Up,
        SplitDirection::Down,
        SplitDirection::Left,
        SplitDirection::Right,
    ] {
        for content_type in [
            PaneContentType::Terminal,
            PaneContentType::Diff,
            PaneContentType::BranchDiff,
            PaneContentType::GitStatus,
            PaneContentType::ProjectSearch,
            PaneContentType::GitGraph,
        ] {
            let text = pane_split_message(direction, content_type, true, &command).unwrap();
            assert_eq!(
                decode_message(text.as_bytes()),
                Some(IpcMessage::PaneSplit {
                    direction,
                    content_type,
                    keep_focus: true,
                    command: command.clone()
                })
            );
            let text = tab_new_message(content_type, &command).unwrap();
            assert_eq!(
                decode_message(text.as_bytes()),
                Some(IpcMessage::TabNew {
                    content_type,
                    command: command.clone()
                })
            );
        }
    }
    let none = Vec::new();
    assert_eq!(
        pane_split_message(SplitDirection::Up, PaneContentType::FileBrowser, false, &none),
        None
    );
    assert_eq!(tab_new_message(PaneContentType::FileBrowser, &none), None);
}

#[test]
fn the_text_of_a_message() {
    assert_eq!(
        change_theme_message("One \"Dark\""),
        r#"{"name":"One \"Dark\"","type":"change_theme"}"#
    );
}

#[test]
fn datagrams_that_are_not_json() {
    assert_eq!(
        decode_message("/tmp/作業".as_bytes()),
        Some(IpcMessage::WorkspacePath("/tmp/作業".to_string()))
    );
    assert_eq!(decode_message(&[]), Some(IpcMessage::WorkspacePath(String::new())));
    assert_eq!(decode_message(&[0xff, 0xfe]), None);
    assert_eq!(decode_message(b"{"), None);
    for ignored in [
        r#"{}"#,
        r#"{"type":"unheard_of"}"#,
        r#"{"type":"change_theme","name":""}"#,
        r#"{"type":"pane_split","direction":"sideways","content_type":"terminal"}"#,
        r#"{"type":"pane_split","direction":"up","content_type":"file-browser"}"#,
        r#"{"type":"tab_new"}"#,
    ] {
        assert_eq!(decode_message(ignored.as_bytes()), None, "{ignored}");
    }
}

#[test]
fn what_does_not_fit_is_left_out() {
    let value: serde_json::Value = serde_json::from_str(
        r#"{"type":"claude_session_start","session_id":3,
            "ancestor_pids":[1,"2",-3,4294967301,5.5]}"#,
    )
    .unwrap();
    assert_eq!(
        parse_message(&value),
        Some(IpcMessage::ClaudeSessionStart {
            session_id: String::new(),
            ancestor_pids: vec![1, 5]
        })
    );
    let value: serde_json::Value = serde_json::from_str(
        r#"{"type":"tab_new","content_type":"diff","command":["a",1,"b"]}"#,
    )
    .unwrap();
    assert_eq!(
        parse_message(&value),
        Some(IpcMessage::TabNew {
            content_type: PaneContentType::Diff,
            command: vec!["a".to_string(), "b".to_string()]
        })
    );
}

#[test]
fn rate_limits_are_passed_on() {
    let input = r#"{"model":"m","rate_limits":{"five_hour":{"used_percentage":12.5,"resets_at":100},
        "seven_day":{"resets_at":-7}}}"#;
    let text = statusline_message(input).unwrap().unwrap();
    assert_eq!(
        decode_message(text.as_bytes()),
        Some(IpcMessage::ClaudeStatusline {
            five_hour_resets_at: 100,
            seven_day_resets_at: -7
        })
    );
    assert_eq!(statusline_message(r#"{"model":"m"}"#), Ok(None));
    assert_eq!(statusline_message("not json"), Err(()));
}

#[test]
fn directions_of_a_split() {
    assert_eq!(split_direction(true, true), SplitDirection::Left);
    assert_eq!(split_direction(true, false), SplitDirection::Right);
    assert_eq!(split_direction(false, true), SplitDirection::Up);
    assert_eq!(split_direction(false, false), SplitDirection::Down);
}

#[test]
fn ancestors_are_walked_up_to_the_first_process() {
    let mut walk = AncestorWalk::new(40);
    assert_eq!(walk.current(), Some(40));
    walk.parent_printed(&Some("  30\n".to_string()));
    assert_eq!(walk.current(), Some(30));
    walk.parent_printed(&Some("1\n".to_string()));
    assert_eq!(walk.current(), None);
    assert_eq!(walk.pids, vec![40, 30]);

    let mut walk = AncestorWalk::new(40);
    walk.parent_printed(&Some("?".to_string()));
    assert_eq!((walk.current(), walk.pids), (None, vec![40]));
    let mut walk = AncestorWalk::new(40);
    walk.parent_printed(&None);
    assert_eq!((walk.current(), walk.pids), (None, vec![40]));
    assert_eq!(AncestorWalk::new(1).current(), None);

    let mut walk = AncestorWalk::new(100);
    while let Some(pid) = walk.current() {
        walk.parent_printed(&Some((pid + 1).to_string()));
    }
    assert_eq!(walk.pids, (100..110).collect::<Vec<u32>>());
}

#[test]
fn waiting_for_the_program() {
    assert_eq!(ready_step(true, 9, 5), ReadyStep::Ready);
    assert_eq!(ready_step(false, 5, 5), ReadyStep::TimedOut);
    assert_eq!(ready_step(false, 4, 5), ReadyStep::Sleep(200));
}

#[test]
fn messages_drive_the_program() {
    let mut app = AgentiumApp::new();
    let action = app.handle_message(
        IpcMessage::ClaudeUserPromptSubmit {
            session_id: "s".to_string(),
            ancestor_pids: vec![5],
            prompt: "p".to_string(),
        },
        0,
    );
    assert!(matches!(action, AppAction::Refresh(_)));
    assert_eq!(app.claude_sessions.sessions[0].state, ClaudeSessionState::Running);
    app.handle_message(
        IpcMessage::ClaudeStop {
            session_id: "s".to_string(),
            ancestor_pids: vec![5],
            title: String::new(),
        },
        0,
    );
    assert_eq!(app.claude_sessions.sessions[0].state, ClaudeSessionState::Completed);
    assert_eq!(app.claude_sessions.sessions[0].status_message, "Ready");
    assert!(matches!(
        app.handle_message(IpcMessage::WorkspacePath("/w".to_string()), 0),
        AppAction::AddArena(path) if path == "/w"
    ));
    assert!(matches!(
        app.handle_message(IpcMessage::ChangeTheme { name: "n".to_string() }, 0),
        AppAction::ChangeTheme(name) if name == "n"
    ));
    app.handle_message(
        IpcMessage::ClaudeStatusline {
            five_hour_resets_at: 1,
            seven_day_resets_at: 2,
        },
        33,
    );
    let limits = app.rate_limits.unwrap();
    assert_eq!(
        (limits.five_hour_resets_at, limits.seven_day_resets_at, limits.received_at),
        (1, 2, 33)
    );
}

#[test]
fn resets_are_received_beside_floats() {
    let input = r#"{"rate_limits":{"five_hour":{"used_percentage":12.345678901234567,"resets_at":5},
        "seven_day":{"used_percentage":1e308,"resets_at":-6},"other":[0.1,{"x":1e-320}]}}"#;
    let text = statusline_message(input).unwrap().unwrap();
    assert_eq!(
        decode_message(text.as_bytes()),
        Some(IpcMessage::ClaudeStatusline {
            five_hour_resets_at: 5,
            seven_day_resets_at: -6
        })
    );
    let deep = |levels: usize| {
        format!(
            r#"{{"rate_limits":{}{}}}"#,
            "[".repeat(levels),
            "]".repeat(levels)
        )
    };
    let text = statusline_message(&deep(126)).unwrap().unwrap();
    assert_eq!(
        decode_message(text.as_bytes()),
        Some(IpcMessage::ClaudeStatusline {
            five_hour_resets_at: 0,
            seven_day_resets_at: 0
        })
    );
    assert!(statusline_message(&deep(127)).is_err());
}

#[test]
fn socket_of_another_instance_is_left_alone() {
    assert_eq!(probe_step(ProbeOutcome::Absent), ProbeStep::Bind);
    assert_eq!(probe_step(ProbeOutcome::Answered), ProbeStep::Yield);
    assert_eq!(probe_step(ProbeOutcome::Refused), ProbeStep::RemoveAndBind);
    assert_eq!(probe_step(ProbeOutcome::Failed), ProbeStep::Fail);
}
