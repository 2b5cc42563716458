//! Panes: which is active, and what they are filled with.

use std::collections::{HashMap, HashSet};

use agentium::active_terminals::{
    broadcast_sigterm_and_wait, register, Broadcast, BroadcastAction, BroadcastEvent,
    BroadcastStep, Registry,
};
use agentium::arenas::WorktreeInfo;
use agentium::ipc::{PaneContentType, SplitDirection};
use agentium::panes::{
    add_paths_to_terminal, add_tab, can_split, drop_action, fork_session, is_ready, next_pane,
    open_markdown_preview, pane_at, pasted_text, position, preview_target, previous_pane,
    search_filter, split_active_pane, split_working_directory, terminal_for_command,
    terminal_for_fork, terminal_for_session, toggle_file_finder, worktree_id, zoom_tooltip,
    DraggedTab, DropAction, Dropped, FinderAction, PaneAction, PaneEvent, PaneFocus, PaneItem,
    PreviewAction, PreviewTarget, SplitMode,
};

fn focus(active_pane: u64) -> PaneFocus {
    PaneFocus {
        active_pane,
        zoomed_pane: None,
    }
}

#[test]
fn panes_are_walked_in_a_circle() {
    let panes = vec![5, 7, 9];
    assert_eq!(position(&panes, 7), Some(1));
    assert_eq!(next_pane(&panes, 9), Some(0));
    assert_eq!(previous_pane(&panes, 5), Some(2));
    for (i, pane) in panes.iter().enumerate() {
        let next = next_pane(&panes, *pane).unwrap();
        assert_eq!(previous_pane(&panes, panes[next]), Some(i));
    }
    assert_eq!(next_pane(&panes, 6), None);
    assert_eq!(pane_at(&panes, 2), Some(9));
    assert_eq!(pane_at(&panes, 3), None);
}

#[test]
fn a_removed_pane_gives_the_focus_away() {
    let mut panes = focus(5);
    let remove = |focus_on_pane, count_before, panes_after: &[u64]| PaneEvent::Remove {
        focus_on_pane,
        count_before,
        panes_after: panes_after.to_vec(),
    };
    assert_eq!(
        panes.handle_pane_event(7, &remove(Some(5), 3, &[5, 9])),
        PaneAction::FocusPane(5)
    );
    assert_eq!(
        panes.handle_pane_event(7, &remove(None, 3, &[5, 9])),
        PaneAction::FocusPane(9)
    );
    assert_eq!(
        panes.handle_pane_event(5, &remove(Some(9), 1, &[5])),
        PaneAction::Nothing
    );
}

#[test]
fn events_of_a_pane() {
    let mut panes = focus(5);
    assert_eq!(
        panes.handle_pane_event(7, &PaneEvent::ZoomIn { has_focus: true }),
        PaneAction::Nothing
    );
    assert_eq!(
        panes.handle_pane_event(5, &PaneEvent::ZoomIn { has_focus: false }),
        PaneAction::SetZoomed(true)
    );
    assert_eq!(panes.zoomed_pane, None);
    panes.handle_pane_event(5, &PaneEvent::ZoomIn { has_focus: true });
    assert_eq!(panes.zoomed_pane, Some(5));
    assert_eq!(
        panes.handle_pane_event(5, &PaneEvent::ZoomOut),
        PaneAction::SetZoomed(false)
    );
    assert_eq!(panes.zoomed_pane, None);
    assert_eq!(
        panes.handle_pane_event(7, &PaneEvent::Focus),
        PaneAction::RememberActivePane
    );
    assert_eq!(panes.active_pane, 7);
    let direction = SplitDirection::Up;
    let mut split = |mode| panes.handle_pane_event(7, &PaneEvent::Split { direction, mode });
    assert_eq!(
        split(SplitMode::ClonePane),
        PaneAction::SplitWithTerminal { direction, clone: true }
    );
    assert_eq!(
        split(SplitMode::EmptyPane),
        PaneAction::SplitWithTerminal { direction, clone: false }
    );
    assert_eq!(
        split(SplitMode::MovePane),
        PaneAction::SplitWithActiveItem { direction }
    );
    assert_eq!(
        panes.handle_pane_event(7, &PaneEvent::ActivateItem { shell_pid: Some(3) }),
        PaneAction::TerminalActivated { shell_pid: 3 }
    );
    assert_eq!(
        panes.handle_pane_event(7, &PaneEvent::ActivateItem { shell_pid: None }),
        PaneAction::Nothing
    );
    assert_eq!(panes.handle_pane_event(7, &PaneEvent::AddItem), PaneAction::AnnounceItem);
    assert_eq!(panes.handle_pane_event(7, &PaneEvent::Other), PaneAction::Nothing);
}

#[test]
fn terminals_run_what_they_are_told() {
    let words = |words: &[&str]| words.iter().map(|word| word.to_string()).collect::<Vec<_>>();
    let plan = terminal_for_command(&words(&["ls", "-l", "a"]));
    assert_eq!(plan.program.as_deref(), Some("ls"));
    assert_eq!(plan.args, words(&["-l", "a"]));
    assert_eq!(plan.title, None);
    assert_eq!(terminal_for_command(&Vec::new()).program, None);
    let plan = terminal_for_session("agent", "Agent");
    assert_eq!(
        (plan.program.as_deref(), plan.args.len(), plan.title.as_deref()),
        (Some("agent"), 0, Some("Agent"))
    );
    let plan = terminal_for_fork("agent", "s");
    assert_eq!(plan.program.as_deref(), Some("agent"));
    assert_eq!(plan.args, words(&["--resume", "s", "--fork-session"]));
}

#[test]
fn contents_of_a_new_tab() {
    let directory = Some("/w/zed".to_string());
    let none = Vec::new();
    let tab = |content, worktrees| add_tab(content, &none, &directory, worktrees);
    assert!(matches!(tab(PaneContentType::Terminal, 1), PaneItem::Terminal(_)));
    assert!(matches!(tab(PaneContentType::Diff, 1), PaneItem::Diff));
    assert!(matches!(tab(PaneContentType::BranchDiff, 1), PaneItem::BranchDiff));
    assert!(matches!(tab(PaneContentType::GitStatus, 1), PaneItem::GitStatus));
    assert!(matches!(tab(PaneContentType::FileBrowser, 1), PaneItem::FileBrowser));
    assert!(matches!(tab(PaneContentType::GitGraph, 1), PaneItem::GitGraph));
    assert!(matches!(
        tab(PaneContentType::ProjectSearch, 1),
        PaneItem::ProjectSearch { filter: None }
    ));
    assert!(matches!(
        tab(PaneContentType::ProjectSearch, 2),
        PaneItem::ProjectSearch { filter: Some(filter) } if filter == "zed/**"
    ));
    assert_eq!(search_filter(&None, 2), None);
    let plan = split_active_pane(
        SplitDirection::Down,
        PaneContentType::Diff,
        false,
        &none,
        &directory,
        1,
    );
    assert!(plan.focus_new_pane);
    assert_eq!(plan.direction, SplitDirection::Down);
    assert_eq!(
        split_working_directory(true, Some("/a".to_string())).as_deref(),
        Some("/a")
    );
    assert_eq!(split_working_directory(false, Some("/a".to_string())), None);
}

#[test]
fn the_file_finder_stays_in_the_worktree() {
    let worktree = |abs_path: &str| WorktreeInfo {
        abs_path: abs_path.to_string(),
        root_name: String::new(),
    };
    let worktrees = vec![worktree("/a"), worktree("/b")];
    let found = worktree_id(&Some("/b".to_string()), &worktrees);
    assert_eq!(found, Some(1));
    assert_eq!(worktree_id(&None, &worktrees), None);
    assert_eq!(toggle_file_finder(true, found), FinderAction::Hide);
    assert_eq!(toggle_file_finder(false, found), FinderAction::OpenIn(1));
    assert_eq!(toggle_file_finder(false, None), FinderAction::Open);
}

#[test]
fn where_a_preview_is_shown() {
    assert_eq!(preview_target(5, false, true, Some(7)), None);
    assert_eq!(preview_target(5, true, false, Some(7)), Some(PreviewTarget::Pane(5)));
    assert_eq!(preview_target(5, true, true, Some(7)), Some(PreviewTarget::Pane(7)));
    assert_eq!(
        preview_target(5, true, true, None),
        Some(PreviewTarget::NewPaneOnTheRight)
    );
    assert_eq!(open_markdown_preview(true, Some(2)), PreviewAction::Show(2));
    assert_eq!(
        open_markdown_preview(true, None),
        PreviewAction::Add { focus_preview: false, focus_editor: true }
    );
    assert_eq!(
        open_markdown_preview(false, None),
        PreviewAction::Add { focus_preview: true, focus_editor: false }
    );
    assert_eq!(zoom_tooltip(true), "Zoom Out");
    assert_eq!(zoom_tooltip(false), "Zoom In");
}

#[test]
fn sessions_of_a_terminal() {
    let ready = HashSet::from([3]);
    assert!(is_ready(Some(3), &ready));
    assert!(!is_ready(Some(4), &ready));
    assert!(!is_ready(None, &ready));
    assert!(focus(5).decorate(5, Some(3), &ready));
    assert!(!focus(5).decorate(7, Some(3), &ready));
    assert!(!focus(5).decorate(5, Some(4), &ready));
    let sessions = HashMap::from([(3, "s".to_string())]);
    assert_eq!(fork_session(Some(3), &sessions).as_deref(), Some("s"));
    assert_eq!(fork_session(Some(4), &sessions), None);
    assert_eq!(fork_session(None, &sessions), None);
}

#[test]
fn tabs_are_dragged_where_something_is_left() {
    let tab = |pane, ix, items_len| DraggedTab { pane, ix, items_len };
    assert!(!can_split(&vec![5], 5, tab(5, 0, 1)));
    assert!(can_split(&vec![5], 5, tab(5, 0, 2)));
    assert!(can_split(&vec![5, 7], 5, tab(5, 0, 1)));
    assert!(can_split(&vec![5], 5, tab(9, 0, 1)));
    assert!(!can_split(&vec![5, 7], 5, tab(5, 1, 1)));
    let dropped = Dropped::Tab(tab(5, 0, 1));
    let direction = SplitDirection::Left;
    assert_eq!(
        drop_action(true, dropped, Some(direction)),
        DropAction::SplitWithTab(direction)
    );
    assert_eq!(drop_action(true, dropped, None), DropAction::Continue);
    assert_eq!(
        drop_action(true, Dropped::Tab(tab(5, 1, 1)), None),
        DropAction::Ignore
    );
    assert_eq!(drop_action(false, dropped, Some(direction)), DropAction::Ignore);
    assert_eq!(drop_action(true, Dropped::Paths, None), DropAction::PastePaths);
    assert_eq!(drop_action(true, Dropped::Other, None), DropAction::Continue);
}

#[test]
fn dropped_paths_are_quoted() {
    let paths = vec!["/a b".to_string(), "/c\"\n".to_string()];
    assert_eq!(add_paths_to_terminal(&paths), " \"/a b\" \"/c\\\"\\n\" ");
    assert_eq!(pasted_text(&vec!["x".to_string()]), " x ");
}

fn step(broadcast: &mut Broadcast, event: BroadcastEvent) -> (Option<i32>, BroadcastAction) {
    let BroadcastStep { terminate, next } = broadcast_sigterm_and_wait(broadcast, event);
    (terminate, next)
}

#[test]
fn terminals_are_registered_and_forgotten() {
    let mut registry = Registry::new();
    let first = register(&mut registry, 3, 100);
    let second = register(&mut registry, 4, 200);
    assert_ne!(first, second);
    registry.unregister(first);
    assert_eq!(registry.entries.len(), 1);
    assert_eq!(registry.entries[0].pty_fd, 4);
    let third = register(&mut registry, 5, 300);
    assert_ne!(second, third);
}

#[test]
fn every_terminal_is_told_to_end() {
    let mut registry = Registry::new();
    register(&mut registry, 3, 100);
    register(&mut registry, 4, 200);
    register(&mut registry, 5, u32::MAX);
    let mut broadcast = Broadcast::new(&registry, 1000);
    assert_eq!(
        step(&mut broadcast, BroadcastEvent::Begin),
        (None, BroadcastAction::AskForegroundGroup(3))
    );
    assert_eq!(
        step(&mut broadcast, BroadcastEvent::ForegroundGroup(150)),
        (Some(150), BroadcastAction::AskForegroundGroup(4))
    );
    assert_eq!(
        step(&mut broadcast, BroadcastEvent::ForegroundGroup(-1)),
        (Some(200), BroadcastAction::AskForegroundGroup(5))
    );
    assert_eq!(
        step(&mut broadcast, BroadcastEvent::ForegroundGroup(-1)),
        (None, BroadcastAction::ReadClock)
    );
    assert_eq!(broadcast.pgids, vec![150, 200]);
    assert_eq!(
        step(&mut broadcast, BroadcastEvent::Time(50)),
        (None, BroadcastAction::ReadClock)
    );
    assert_eq!(
        step(&mut broadcast, BroadcastEvent::Time(60)),
        (None, BroadcastAction::ProbeGroups)
    );
    assert_eq!(
        step(&mut broadcast, BroadcastEvent::Probed(true)),
        (None, BroadcastAction::Sleep(200))
    );
    assert_eq!(
        step(&mut broadcast, BroadcastEvent::Slept),
        (None, BroadcastAction::ReadClock)
    );
    assert_eq!(
        step(&mut broadcast, BroadcastEvent::Time(1050)),
        (None, BroadcastAction::Finish)
    );
}

#[test]
fn the_wait_ends_when_all_have_ended() {
    let mut broadcast = Broadcast::new(&Registry::new(), 1000);
    assert_eq!(
        step(&mut broadcast, BroadcastEvent::Begin),
        (None, BroadcastAction::Finish)
    );
    let mut registry = Registry::new();
    register(&mut registry, 3, 100);
    let mut broadcast = Broadcast::new(&registry, 1000);
    step(&mut broadcast, BroadcastEvent::Begin);
    step(&mut broadcast, BroadcastEvent::ForegroundGroup(0));
    step(&mut broadcast, BroadcastEvent::Time(0));
    step(&mut broadcast, BroadcastEvent::Time(1));
    assert_eq!(
        step(&mut broadcast, BroadcastEvent::Probed(false)),
        (None, BroadcastAction::Finish)
    );
}
