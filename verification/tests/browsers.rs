//! The file browser, the list of changes and the list of recent projects.

use agentium::file_browser::paste::compute_paste_path;
use agentium::file_browser::tree::{entry_name, entry_parent, WorktreeEntry, WorktreeSnapshot};
use agentium::file_browser::view::{
    ActivePane, ContextMenuTarget, FileBrowserView, RowLook,
};
use agentium::git_status::{
    GitStatusListEntry, GitStatusSection, GitStatusView, StageStatus, StatusEntry, StatusRow,
    ToggleState,
};
use agentium::json::merge_settings_with_defaults;
use agentium::order::sorted_by_keys;
use agentium::recent::{
    search_text, smart_case, AgentiumRecentProjectsDelegate, ProjectMatch, RecentWorkspace,
};

fn entry(id: u64, path: &str, is_dir: bool) -> WorktreeEntry {
    WorktreeEntry {
        id,
        path: path.to_string(),
        is_dir,
        is_unloaded: false,
    }
}

fn worktree() -> Option<WorktreeSnapshot> {
    Some(WorktreeSnapshot {
        root: Some(entry(1, "", true)),
        root_name: "zed".to_string(),
        entries: vec![
            entry(1, "", true),
            entry(2, "README.md", false),
            entry(3, "Src", true),
            entry(4, "Src/b.rs", false),
            entry(5, "Src/A.rs", false),
            entry(6, "Src/inner", true),
            entry(7, "Src/inner/deep", true),
            WorktreeEntry {
                is_unloaded: true,
                ..entry(8, "docs", true)
            },
        ],
    })
}

fn tree(view: &FileBrowserView) -> Vec<(&str, usize, bool)> {
    view.dir_tree_entries
        .iter()
        .map(|entry| (entry.path.as_str(), entry.depth, entry.is_expanded))
        .collect()
}

fn list(view: &FileBrowserView) -> Vec<&str> {
    view.file_list_entries
        .iter()
        .map(|entry| entry.name.as_str())
        .collect()
}

fn target(entry_id: u64, path: &str, is_dir: bool) -> ContextMenuTarget {
    ContextMenuTarget {
        entry_id,
        path: path.to_string(),
        is_dir,
    }
}

#[test]
fn names_and_parents_of_entries() {
    assert_eq!((entry_name("a/b.rs"), entry_parent("a/b.rs")), ("b.rs".into(), "a".into()));
    assert_eq!((entry_name("b.rs"), entry_parent("b.rs")), ("b.rs".into(), "".into()));
}

#[test]
fn the_root_is_shown_first() {
    let view = FileBrowserView::new(Some(9), &worktree());
    assert_eq!(tree(&view), vec![("docs", 0, false), ("Src", 0, false)]);
    assert_eq!(list(&view), vec!["docs", "Src", "README.md"]);
    assert_eq!(view.selected_dir_id, Some(1));
    assert!(view.is_root_selected(&worktree()));
    assert_eq!(view.root_dir_name(&worktree()), "zed");
    assert_eq!(view.file_list_header(&worktree()), "zed");
    let nowhere = FileBrowserView::new(None, &None);
    assert!(tree(&nowhere).is_empty());
    assert_eq!(nowhere.root_dir_name(&None), "/");
    assert_eq!(nowhere.file_list_header(&None), "Files");
}

#[test]
fn folders_open_and_close() {
    let mut view = FileBrowserView::new(Some(9), &worktree());
    assert_eq!(view.toggle_dir(0, &worktree()), Some(8));
    assert_eq!(view.toggle_dir(1, &worktree()), None);
    assert_eq!(
        tree(&view),
        vec![("docs", 0, true), ("Src", 0, true), ("Src/inner", 1, false)]
    );
    view.toggle_dir(1, &worktree());
    assert_eq!(tree(&view), vec![("docs", 0, true), ("Src", 0, false)]);
    view.select_next();
    view.select_next();
    assert_eq!(view.dir_tree_selected_index, Some(1));
    assert_eq!(view.expand_selected_entry(&worktree()), None);
    assert_eq!(tree(&view).len(), 3);
    view.collapse_selected_entry(&worktree());
    assert_eq!(tree(&view).len(), 2);
    assert_eq!(view.dir_tree_look(1), Some(RowLook::Cursor));
    assert_eq!(view.dir_tree_look(2), None);
}

#[test]
fn files_are_chosen_and_opened() {
    let mut view = FileBrowserView::new(Some(9), &worktree());
    view.switch_pane();
    assert_eq!(view.active_pane, ActivePane::FileList);
    view.select_previous();
    assert_eq!(view.file_list_selected_index, Some(0));
    let effects = view.on_file_list_entry_click(1, 2, &worktree());
    assert_eq!((effects.load, effects.open), (None, None));
    assert_eq!(view.file_list_header(&worktree()), "Src");
    assert_eq!(list(&view), vec!["inner", "A.rs", "b.rs"]);
    assert_eq!(view.file_list_selected_index, None);
    assert!(view.expanded_dirs.contains(&3));
    view.on_file_list_pane_click();
    assert_eq!(view.file_list_selected_index, Some(0));
    let effects = view.on_file_list_entry_click(2, 1, &worktree());
    assert_eq!(effects.open, None);
    let effects = view.confirm_entry(&worktree());
    assert_eq!(effects.open.as_deref(), Some("Src/b.rs"));
    assert_eq!(view.file_list_look(2), Some(RowLook::Cursor));
    assert_eq!(view.file_list_look(0), Some(RowLook::Plain));
    view.switch_pane();
    assert_eq!(view.file_list_look(2), Some(RowLook::Selected));
    view.select_root_dir(&worktree());
    assert_eq!(list(&view), vec!["docs", "Src", "README.md"]);
    view.on_dir_tree_click(1, &worktree());
    assert_eq!(view.selected_dir_id, Some(3));
    assert!(!view.expanded_dirs.contains(&3));
}

#[test]
fn rows_stay_in_range_when_files_go() {
    let mut view = FileBrowserView::new(Some(9), &worktree());
    view.select_next();
    view.select_next();
    let mut fewer = worktree();
    fewer.as_mut().unwrap().entries.retain(|entry| entry.path != "docs");
    view.on_worktree_event(Some(4), &fewer);
    assert_eq!(tree(&view).len(), 2);
    view.on_worktree_event(Some(9), &fewer);
    assert_eq!(tree(&view).len(), 1);
    assert_eq!(view.dir_tree_selected_index, Some(0));
    view.on_worktree_event(None, &None);
    assert!(tree(&view).is_empty());
}

#[test]
fn entries_are_cut_copied_and_pasted() {
    let mut view = FileBrowserView::new(Some(9), &worktree());
    assert_eq!(view.cut(), None);
    assert_eq!(view.deploy_context_menu(target(4, "Src/b.rs", false), false), (false, true));
    assert_eq!(view.copy().as_deref(), Some("Src/b.rs"));
    assert_eq!(view.context_menu_path().as_deref(), Some("Src/b.rs"));
    assert_eq!(
        view.trash(),
        Some((4, "Do you want to trash b.rs?".to_string()))
    );
    let action = view.paste(&worktree()).unwrap();
    assert_eq!(
        (action.source, action.destination.as_str(), action.is_cut),
        (4, "Src/b copy.rs", false)
    );
    assert!(view.clipboard.is_some());
    assert_eq!(view.deploy_context_menu(target(1, "", true), true), (true, false));
    view.cut();
    view.deploy_context_menu(target(4, "Src/b.rs", false), false);
    view.cut();
    view.deploy_context_menu(target(1, "", true), true);
    let action = view.paste(&worktree()).unwrap();
    assert_eq!((action.destination.as_str(), action.is_cut), ("b.rs", true));
    assert!(view.clipboard.is_none());
    view.deploy_context_menu(target(3, "Src", true), false);
    let (path, action) = view.duplicate(&worktree());
    assert_eq!(path.as_deref(), Some("Src"));
    assert_eq!(action.unwrap().destination, "Src/Src");
    view.dismiss_context_menu();
    assert_eq!(view.trash(), None);
}

#[test]
fn menus_open_where_they_are_asked_for() {
    let mut view = FileBrowserView::new(Some(9), &worktree());
    assert_eq!(view.on_file_list_right_click(3), None);
    assert_eq!(view.on_file_list_right_click(2), Some((false, true)));
    assert_eq!(view.active_pane, ActivePane::FileList);
    assert_eq!(view.file_list_selected_index, Some(2));
    assert_eq!(view.context_menu_path().as_deref(), Some("README.md"));
    assert_eq!(view.on_dir_tree_right_click(2), None);
    assert_eq!(view.on_dir_tree_right_click(1), Some((false, true)));
    assert_eq!(view.active_pane, ActivePane::DirTree);
    assert_eq!(view.context_menu_path().as_deref(), Some("Src"));
    view.copy();
    assert_eq!(view.on_root_right_click(&worktree()), Some((true, false)));
    assert_eq!(view.context_menu_path().as_deref(), Some(""));
    assert_eq!(view.on_root_right_click(&None), None);
    view.switch_pane();
    view.on_dir_tree_pane_click();
    assert_eq!(view.active_pane, ActivePane::DirTree);
    assert_eq!(view.placeholder(), None);
    assert_eq!(view.file_list_placeholder(), None);
    let nowhere = FileBrowserView::new(None, &None);
    assert_eq!(nowhere.placeholder().as_deref(), Some("No directory"));
    assert_eq!(nowhere.file_list_placeholder().as_deref(), Some("Empty directory"));
}

#[test]
fn copies_get_new_names() {
    let entries = vec![
        entry(1, "a.tar.gz", false),
        entry(2, "a.tar copy.gz", false),
        entry(3, "a.tar copy 1.gz", false),
        entry(4, ".env", false),
        entry(5, "v1.0", true),
        entry(6, "d", true),
        entry(7, "d/a.tar.gz", false),
    ];
    assert_eq!(compute_paste_path(&entries, "", "a.tar.gz", true), "a.tar copy 2.gz");
    assert_eq!(compute_paste_path(&entries, "d", "a.tar.gz", true), "d/a.tar copy.gz");
    assert_eq!(compute_paste_path(&entries, "", ".env", true), ".env copy");
    assert_eq!(compute_paste_path(&entries, "", "v1.0", false), "v1.0 copy");
    assert_eq!(compute_paste_path(&entries, "d", "new", true), "d/new");
}

fn change(repo_path: &str, staging: StageStatus) -> StatusEntry {
    StatusEntry {
        repo_path: repo_path.to_string(),
        staging,
        is_created: false,
        is_deleted: false,
        had_conflict: false,
    }
}

fn changes() -> Option<Vec<StatusEntry>> {
    Some(vec![
        StatusEntry {
            is_created: true,
            ..change("new", StageStatus::Unstaged)
        },
        change("edited", StageStatus::PartiallyStaged),
        StatusEntry {
            is_created: true,
            had_conflict: true,
            ..change("both", StageStatus::Unstaged)
        },
        StatusEntry {
            is_deleted: true,
            ..change("gone", StageStatus::Staged)
        },
    ])
}

#[test]
fn changes_are_listed_by_section() {
    let mut view = GitStatusView::new(&changes());
    let rows: Vec<String> = view
        .entries
        .iter()
        .map(|entry| match entry {
            GitStatusListEntry::Header(section) => section.title(),
            GitStatusListEntry::Entry(entry) => entry.repo_path.clone(),
        })
        .collect();
    assert_eq!(
        rows,
        vec!["Conflicts", "both", "Tracked", "edited", "gone", "Untracked", "new"]
    );
    assert!(matches!(view.row(0), StatusRow::Title(title) if title == "Conflicts"));
    assert!(matches!(
        view.row(3),
        StatusRow::File { toggle: ToggleState::Indeterminate, path } if path == "edited"
    ));
    assert_eq!(view.placeholder(), None);
    view.update_entries(&None);
    assert_eq!(view.placeholder().as_deref(), Some("No changes"));
    assert_eq!(GitStatusSection::Untracked.title(), "Untracked");
}

#[test]
fn changes_are_staged_and_opened() {
    let view = GitStatusView::new(&changes());
    let toggled = |ix, statuses: &Option<Vec<StatusEntry>>| {
        view.toggle_staged(ix, statuses)
            .map(|action| (action.repo_path, action.stage))
    };
    assert_eq!(toggled(0, &changes()), None);
    assert_eq!(toggled(3, &changes()), Some(("edited".to_string(), true)));
    assert_eq!(toggled(4, &changes()), Some(("gone".to_string(), false)));
    assert_eq!(toggled(3, &None), None);
    let later = Some(vec![change("edited", StageStatus::Staged)]);
    assert_eq!(toggled(3, &later), Some(("edited".to_string(), false)));
    assert_eq!(toggled(4, &later), Some(("gone".to_string(), false)));
    assert_eq!(view.open_entry(3, true).as_deref(), Some("edited"));
    assert_eq!(view.open_entry(3, false), None);
    assert_eq!(view.open_entry(4, true), None);
    assert_eq!(view.open_entry(9, true), None);
}

fn workspace(workspace_id: i64, is_local: bool, paths: &[&str]) -> RecentWorkspace {
    let owned = || paths.iter().map(|path| path.to_string()).collect::<Vec<_>>();
    RecentWorkspace {
        workspace_id,
        is_local,
        paths: owned(),
        ordered_paths: owned(),
        compact_paths: paths.iter().map(|path| path.replace("/home/me", "~")).collect(),
    }
}

#[test]
fn recent_projects_are_searched() {
    let mut delegate = AgentiumRecentProjectsDelegate::new();
    assert_eq!(
        delegate.no_matches_text(),
        "Recently opened projects will show up here"
    );
    delegate.set_workspaces(vec![
        workspace(100, true, &["/home/me/a", "/home/me/b"]),
        workspace(200, false, &["/far"]),
        workspace(300, true, &["/home/me/c"]),
        workspace(400, true, &[]),
    ]);
    assert_eq!(delegate.no_matches_text(), "No matches");
    let candidates: Vec<_> = delegate
        .candidates()
        .into_iter()
        .map(|candidate| (candidate.id, candidate.text))
        .collect();
    assert_eq!(
        candidates,
        vec![
            (0, "~/a~/b".to_string()),
            (2, "~/c".to_string()),
            (3, String::new())
        ]
    );
    delegate.update_matches("  ", &Vec::new());
    assert_eq!(delegate.filtered_workspaces, vec![0, 2, 3]);
    delegate.set_selected_index(1);
    assert_eq!(delegate.confirm().as_deref(), Some("/home/me/c"));
    delegate.set_selected_index(2);
    assert_eq!(delegate.confirm(), None);
    let found = |candidate_id, score: f64| ProjectMatch {
        candidate_id,
        score: score.to_bits(),
    };
    delegate.update_matches("x", &vec![found(2, 0.5), found(3, 0.75), found(0, 0.5)]);
    assert_eq!(delegate.filtered_workspaces, vec![3, 0, 2]);
    assert_eq!(delegate.selected_index, 0);
    assert_eq!(delegate.match_count(), 3);
    assert_eq!(delegate.delete_recent_project(2), Some(300));
    assert_eq!(delegate.delete_recent_project(3), None);
    assert_eq!(
        delegate.render_match(1),
        Some(("a".to_string(), "~/a\n~/b".to_string()))
    );
    assert_eq!(delegate.render_match(3), None);
}

#[test]
fn capital_letters_are_those_of_unicode() {
    assert!(smart_case("aÉ"));
    assert!(smart_case("x Y"));
    assert!(!smart_case("aé漢1"));
    assert_eq!(search_text(" \u{3000}x "), "x ");
}

#[test]
fn settings_of_the_user_come_first() {
    let defaults: serde_json::Value =
        serde_json::from_str(r#"{"a":{"b":0.65},"theme":"One Dark"}"#).unwrap();
    assert_eq!(
        merge_settings_with_defaults(r#"{"theme":"Ayu","x":[1]}"#, &defaults),
        r#"{"a":{"b":0.65},"theme":"Ayu","x":[1]}"#
    );
    assert_eq!(
        merge_settings_with_defaults("// no json", &defaults),
        r#"{"a":{"b":0.65},"theme":"One Dark"}"#
    );
    assert_eq!(
        merge_settings_with_defaults("[1]", &defaults),
        r#"{"a":{"b":0.65},"theme":"One Dark"}"#
    );
    assert_eq!(
        merge_settings_with_defaults(r#"{"a":1}"#, &serde_json::Value::Null),
        "null"
    );
    let merged = merge_settings_with_defaults(r#"{"theme":"A\"yu","x":[1]}"#, &defaults);
    let read: serde_json::Value = serde_json::from_str(&merged).unwrap();
    assert_eq!(read["theme"], "A\"yu");
    assert_eq!(read["x"][0], 1);
    assert!(read["a"]["b"].is_f64());
    let largest = serde_json::Value::from(f64::MAX);
    let mut defaults = serde_json::Map::new();
    defaults.insert("b".to_string(), serde_json::Value::Array(vec![largest, 0.0.into()]));
    let merged = merge_settings_with_defaults("{}", &serde_json::Value::Object(defaults));
    let read: serde_json::Value = serde_json::from_str(&merged).unwrap();
    assert!(read["b"][0].is_f64() && read["b"][1].is_f64());
}

#[test]
fn equal_keys_keep_their_order() {
    let keys = vec![vec![2], vec![1, 5], vec![2], vec![1]];
    assert_eq!(sorted_by_keys(&keys), vec![3, 1, 0, 2]);
}
