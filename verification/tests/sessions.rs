//! Sessions: what the hooks make of them, and what is shown of them.

use agentium::sessions::{ClaudeSessionState, ClaudeSessions, TerminalRef};

fn state(sessions: &ClaudeSessions, id: &str) -> ClaudeSessionState {
    sessions
        .sessions
        .iter()
        .find(|session| session.session_id == id)
        .unwrap()
        .state
}

fn terminal(terminal: u64, shell_pid: Option<u32>) -> TerminalRef {
    TerminalRef {
        pane: 1,
        terminal,
        shell_pid,
    }
}

#[test]
fn hooks_drive_a_session() {
    let mut sessions = ClaudeSessions::new();
    sessions.register_claude_session("a".to_string(), vec![10, 20]);
    assert_eq!(state(&sessions, "a"), ClaudeSessionState::Idle);
    sessions.set_claude_session_prompt("a", vec![10, 20], "do it".to_string());
    assert_eq!(state(&sessions, "a"), ClaudeSessionState::Running);
    sessions.handle_claude_permission_request("a", vec![10, 21]);
    assert_eq!(state(&sessions, "a"), ClaudeSessionState::WaitingPermission);
    assert_eq!(sessions.sessions[0].ancestor_pids, vec![10, 21]);
    assert!(sessions.handle_claude_post_tool_use("a", vec![10]));
    assert_eq!(state(&sessions, "a"), ClaudeSessionState::Running);
    assert!(!sessions.handle_claude_post_tool_use("a", vec![11]));
    assert_eq!(sessions.sessions[0].ancestor_pids, vec![10]);
    sessions.handle_claude_notification("a", vec![10], "look here".to_string());
    assert_eq!(state(&sessions, "a"), ClaudeSessionState::Running);
    assert_eq!(sessions.sessions[0].status_message, "look here");
    sessions.mark_claude_session_ready("a", vec![10], None);
    assert_eq!(state(&sessions, "a"), ClaudeSessionState::Completed);
    assert_eq!(sessions.sessions[0].status_message, "Ready");
    assert_eq!(sessions.sessions[0].user_prompt, "do it");
    assert!(sessions.clear_session_for_shell_pid(10));
    assert!(!sessions.clear_session_for_shell_pid(10));
    assert_eq!(state(&sessions, "a"), ClaudeSessionState::Idle);
    sessions.handle_claude_notification("a", vec![10], "again".to_string());
    assert_eq!(state(&sessions, "a"), ClaudeSessionState::Completed);
}

#[test]
fn a_prompt_may_come_before_the_start() {
    let mut sessions = ClaudeSessions::new();
    sessions.set_claude_session_prompt("a", vec![10], "do it".to_string());
    sessions.register_claude_session("a".to_string(), vec![11]);
    assert_eq!(sessions.sessions.len(), 1);
    assert_eq!(state(&sessions, "a"), ClaudeSessionState::Running);
    assert_eq!(sessions.sessions[0].user_prompt, "do it");
    assert_eq!(sessions.sessions[0].ancestor_pids, vec![11]);
}

#[test]
fn a_permission_request_leaves_a_finished_session() {
    let mut sessions = ClaudeSessions::new();
    sessions.mark_claude_session_ready("a", vec![10], Some("done".to_string()));
    sessions.handle_claude_permission_request("a", vec![11]);
    assert_eq!(state(&sessions, "a"), ClaudeSessionState::Completed);
    assert_eq!(sessions.sessions[0].ancestor_pids, vec![10]);
    assert!(!sessions.handle_claude_post_tool_use("unheard of", vec![11]));
    assert_eq!(sessions.sessions.len(), 1);
}

#[test]
fn pids_are_sorted_by_state() {
    let mut sessions = ClaudeSessions::new();
    sessions.mark_claude_session_ready("ready", vec![1, 2], None);
    sessions.set_claude_session_prompt("running", vec![3], String::new());
    sessions.handle_claude_permission_request("waiting", vec![4]);
    sessions.register_claude_session("idle".to_string(), vec![5]);
    let shared = &sessions.shared;
    let sorted = |set: &std::collections::HashSet<u32>| {
        let mut pids: Vec<u32> = set.iter().copied().collect();
        pids.sort();
        pids
    };
    assert_eq!(sorted(&shared.ready_shell_pids), vec![1, 2]);
    assert_eq!(sorted(&shared.running_shell_pids), vec![3]);
    assert_eq!(sorted(&shared.permission_shell_pids), vec![4]);
    assert_eq!(shared.pid_to_session_id.len(), 5);
    assert_eq!(shared.pid_to_session_id[&5], "idle");
}

#[test]
fn terminals_are_counted_once() {
    let mut sessions = ClaudeSessions::new();
    sessions.mark_claude_session_ready("ready", vec![1, 2, 3], Some("done".to_string()));
    sessions.set_claude_session_prompt("running", vec![2, 3], "go".to_string());
    sessions.handle_claude_permission_request("waiting", vec![3]);
    let terminals = vec![
        terminal(11, Some(1)),
        terminal(12, Some(2)),
        terminal(13, Some(3)),
        terminal(14, Some(9)),
        terminal(15, None),
    ];
    let shared = &sessions.shared;
    assert_eq!(shared.count_ready_terminals_in_arena(&terminals), 1);
    assert_eq!(shared.count_running_claudes_in_arena(&terminals), 1);
    assert_eq!(shared.count_waiting_claudes_in_arena(&terminals), 1);
    let ready = sessions.collect_ready_terminal_infos(&terminals);
    let shown: Vec<_> = ready.iter().map(|info| info.terminal).collect();
    assert_eq!(shown, vec![11, 12, 13]);
    assert_eq!(ready[0].status_message, "done");
    assert_eq!(ready[0].user_prompt, "");
    let waiting = sessions.collect_permission_terminal_infos(&terminals);
    assert_eq!(waiting.len(), 1);
    assert_eq!(waiting[0].terminal, 13);
}
