//! What the file browser shows, and what its user does with it.

use std::collections::HashSet;

use vstd::prelude::*;

use crate::file_browser::paste::{compute_paste_path, is_paste_path};
use crate::file_browser::tree::{
    as_places, build_dir_tree_recursive, children, dir_models, entry_name, entry_parent,
    law_children, name_of, parent_of, sorted_children, tree_from, DirModel, DirTreeEntry, WorktreeEntry, WorktreeSnapshot,
};
use crate::text::{chars_of, extend_text, text_model, text_of};

verus! {

broadcast use vstd::std_specs::hash::group_hash_axioms;

#[derive(Clone, Copy, Debug, PartialEq, Eq, Structural)]
pub enum ActivePane {
    DirTree,
    FileList,
}

/// An entry in the list of files.
#[derive(Debug)]
pub struct FileListEntry {
    pub entry_id: u64,
    pub path: String,
    pub name: String,
    pub is_dir: bool,
}

/// What a [`FileListEntry`] stands for.
#[verifier::ext_equal]
pub struct FileModel {
    pub entry_id: u64,
    pub path: Seq<char>,
    pub name: Seq<char>,
    pub is_dir: bool,
}

impl View for FileListEntry {
    type V = FileModel;

    open spec fn view(&self) -> FileModel {
        FileModel {
            entry_id: self.entry_id,
            path: self.path@,
            name: self.name@,
            is_dir: self.is_dir,
        }
    }
}

/// What is to be pasted.
#[derive(Clone, Copy, Debug, PartialEq, Eq, Structural)]
pub enum ClipboardEntry {
    Copied { entry_id: u64 },
    Cut { entry_id: u64 },
}

/// The entry that a menu is open for.
#[derive(Debug)]
pub struct ContextMenuTarget {
    pub entry_id: u64,
    pub path: String,
    pub is_dir: bool,
}

/// What a [`ContextMenuTarget`] stands for.
pub struct TargetModel {
    pub entry_id: u64,
    pub path: Seq<char>,
    pub is_dir: bool,
}

impl View for ContextMenuTarget {
    type V = TargetModel;

    open spec fn view(&self) -> TargetModel {
        TargetModel { entry_id: self.entry_id, path: self.path@, is_dir: self.is_dir }
    }
}

#[derive(Debug)]
pub struct FileBrowserView {
    pub worktree_id: Option<u64>,
    pub dir_tree_entries: Vec<DirTreeEntry>,
    pub expanded_dirs: HashSet<u64>,
    pub selected_dir_id: Option<u64>,
    pub selected_dir_path: Option<String>,
    pub dir_tree_selected_index: Option<usize>,
    pub file_list_entries: Vec<FileListEntry>,
    pub file_list_selected_index: Option<usize>,
    pub active_pane: ActivePane,
    pub clipboard: Option<ClipboardEntry>,
    pub context_menu_entry: Option<ContextMenuTarget>,
}

/// What a [`FileBrowserView`] stands for.
#[verifier::ext_equal]
pub struct BrowserModel {
    pub worktree_id: Option<u64>,
    pub dirs: Seq<DirModel>,
    pub expanded: Set<u64>,
    pub selected_id: Option<u64>,
    pub selected_path: Option<Seq<char>>,
    pub dir_index: Option<usize>,
    pub files: Seq<FileModel>,
    pub file_index: Option<usize>,
    pub active_pane: ActivePane,
    pub clipboard: Option<ClipboardEntry>,
    pub menu_target: Option<TargetModel>,
}

pub open spec fn file_models(entries: Seq<FileListEntry>) -> Seq<FileModel> {
    Seq::new(entries.len(), |i: int| entries[i]@)
}

impl View for FileBrowserView {
    type V = BrowserModel;

    open spec fn view(&self) -> BrowserModel {
        BrowserModel {
            worktree_id: self.worktree_id,
            dirs: dir_models(self.dir_tree_entries@),
            expanded: self.expanded_dirs@,
            selected_id: self.selected_dir_id,
            selected_path: text_model(self.selected_dir_path),
            dir_index: self.dir_tree_selected_index,
            files: file_models(self.file_list_entries@),
            file_index: self.file_list_selected_index,
            active_pane: self.active_pane,
            clipboard: self.clipboard,
            menu_target: match self.context_menu_entry {
                Some(target) => Some(target@),
                None => None,
            },
        }
    }
}

/// A place in a list, or the last one where the list ends before it.
pub open spec fn within(index: Option<usize>, count: nat) -> Option<usize> {
    match index {
        Some(ix) if ix >= count => if count > 0 {
            Some((count - 1) as usize)
        } else {
            None
        },
        _ => index,
    }
}

/// The state with the tree of a worktree.
pub open spec fn with_dirs(
    browser: BrowserModel,
    worktree: Option<WorktreeSnapshot>,
) -> BrowserModel {
    match worktree {
        Some(worktree) if browser.worktree_id is Some => {
            let dirs = tree_from(worktree.entries@, browser.expanded, seq![], 0, 0);
            BrowserModel { dirs, dir_index: within(browser.dir_index, dirs.len()), ..browser }
        },
        _ => BrowserModel { dirs: seq![], ..browser },
    }
}

pub open spec fn file_row(entry: WorktreeEntry, is_dir: bool) -> FileModel {
    FileModel { entry_id: entry.id, path: entry.path@, name: name_of(entry.path@), is_dir }
}

/// The rows of the entries at places.
pub open spec fn file_rows(
    entries: Seq<WorktreeEntry>,
    places: Seq<int>,
    is_dir: bool,
) -> Seq<FileModel> {
    Seq::new(places.len(), |i: int| file_row(entries[places[i]], is_dir))
}

/// The files of a directory: the directories in it, then what is none.
pub open spec fn listed(entries: Seq<WorktreeEntry>, path: Seq<char>) -> Seq<FileModel> {
    file_rows(entries, sorted_children(entries, path, true), true) + file_rows(
        entries,
        sorted_children(entries, path, false),
        false,
    )
}

/// The state with the files of the selected directory.
pub open spec fn with_files(
    browser: BrowserModel,
    worktree: Option<WorktreeSnapshot>,
) -> BrowserModel {
    match (worktree, browser.selected_path) {
        (Some(worktree), Some(path)) if browser.worktree_id is Some => {
            let files = listed(worktree.entries@, path);
            BrowserModel { files, file_index: within(browser.file_index, files.len()), ..browser }
        },
        _ => BrowserModel { files: seq![], ..browser },
    }
}

/// The first entry from `from` on with a number.
pub open spec fn entry_from(entries: Seq<WorktreeEntry>, from: int, id: u64) -> Option<int>
    decreases entries.len() - from,
{
    if from < 0 || from >= entries.len() {
        None
    } else if entries[from].id == id {
        Some(from)
    } else {
        entry_from(entries, from + 1, id)
    }
}

/// The entry to be read, where a directory that is expanded was not read yet.
pub open spec fn to_load(
    browser: BrowserModel,
    worktree: Option<WorktreeSnapshot>,
    id: u64,
) -> Option<u64> {
    match worktree {
        Some(worktree) if browser.worktree_id is Some => match entry_from(
            worktree.entries@,
            0,
            id,
        ) {
            Some(index) if worktree.entries@[index].is_unloaded => Some(id),
            _ => None,
        },
        _ => None,
    }
}

/// The state with another directory selected.
pub open spec fn with_selected(
    browser: BrowserModel,
    worktree: Option<WorktreeSnapshot>,
    id: u64,
    path: Seq<char>,
) -> BrowserModel {
    with_files(
        BrowserModel {
            selected_id: Some(id),
            selected_path: Some(path),
            file_index: None,
            ..browser
        },
        worktree,
    )
}

fn find_entry(entries: &Vec<WorktreeEntry>, id: u64) -> (found: Option<usize>)
    ensures
        match found {
            Some(index) => index < entries@.len() && entry_from(entries@, 0, id) == Some(
                index as int,
            ),
            None => entry_from(entries@, 0, id) is None,
        },
{
    let mut i: usize = 0;
    while i < entries.len()
        invariant
            i <= entries@.len(),
            entry_from(entries@, 0, id) == entry_from(entries@, i as int, id),
        decreases entries@.len() - i,
    {
        if entries[i].id == id {
            return Some(i);
        }
        i += 1;
    }
    None
}

fn push_files(
    rows: &mut Vec<FileListEntry>,
    entries: &Vec<WorktreeEntry>,
    places: &Vec<usize>,
    is_dir: bool,
)
    requires
        forall|i: int| 0 <= i < places@.len() ==> (#[trigger] places@[i]) < entries@.len(),
    ensures
        file_models(final(rows)@) == file_models(old(rows)@) + file_rows(
            entries@,
            as_places(places@),
            is_dir,
        ),
{
    let ghost start = file_models(rows@);
    let ghost wanted = file_rows(entries@, as_places(places@), is_dir);
    let mut i: usize = 0;
    assert(start + wanted.take(0) =~= start);
    while i < places.len()
        invariant
            i <= places@.len(),
            forall|i: int| 0 <= i < places@.len() ==> (#[trigger] places@[i]) < entries@.len(),
            wanted == file_rows(entries@, as_places(places@), is_dir),
            file_models(rows@) == start + wanted.take(i as int),
        decreases places@.len() - i,
    {
        let ghost before = file_models(rows@);
        let entry = &entries[places[i]];
        let row = FileListEntry {
            entry_id: entry.id,
            path: entry.path.clone(),
            name: entry_name(entry.path.as_str()),
            is_dir,
        };
        let ghost view = row@;
        rows.push(row);
        assert(file_models(rows@) =~= before.push(view));
        assert(view == wanted[i as int]);
        assert(start + wanted.take(i + 1) =~= (start + wanted.take(i as int)).push(view));
        i += 1;
    }
    assert(wanted.take(places@.len() as int) =~= wanted);
}

/// What the user moves to, down in a list.
pub open spec fn next_index(index: Option<usize>, count: nat) -> Option<usize> {
    if count == 0 {
        index
    } else {
        match index {
            Some(ix) => if ix + 1 < count {
                Some((ix + 1) as usize)
            } else {
                Some((count - 1) as usize)
            },
            None => Some(0),
        }
    }
}

/// What the user moves to, up in a list.
pub open spec fn previous_index(index: Option<usize>, count: nat) -> Option<usize> {
    if count == 0 {
        index
    } else {
        match index {
            Some(ix) => if ix > 0 {
                Some((ix - 1) as usize)
            } else {
                Some(0)
            },
            None => Some(0),
        }
    }
}

fn index_after(index: Option<usize>, count: usize) -> (next: Option<usize>)
    ensures
        next == next_index(index, count as nat),
{
    if count == 0 {
        return index;
    }
    match index {
        Some(ix) => if ix < count - 1 {
            Some(ix + 1)
        } else {
            Some(count - 1)
        },
        None => Some(0),
    }
}

fn index_before(index: Option<usize>, count: usize) -> (previous: Option<usize>)
    ensures
        previous == previous_index(index, count as nat),
{
    if count == 0 {
        return index;
    }
    match index {
        Some(ix) => if ix > 0 {
            Some(ix - 1)
        } else {
            Some(0)
        },
        None => Some(0),
    }
}

/// What is to be done outside: a directory to be read, and a file to be opened.
#[derive(Debug)]
pub struct BrowserEffects {
    pub load: Option<u64>,
    pub open: Option<String>,
}

/// What is to be done with an entry that is pasted.
#[derive(Debug)]
pub struct PasteAction {
    pub source: u64,
    pub destination: String,
    pub is_cut: bool,
}

/// The state after a directory of the tree is opened or closed.
pub open spec fn toggled(
    browser: BrowserModel,
    worktree: Option<WorktreeSnapshot>,
    ix: int,
) -> BrowserModel {
    if ix < browser.dirs.len() {
        let id = browser.dirs[ix].entry_id;
        let expanded = if browser.expanded.contains(id) {
            browser.expanded.remove(id)
        } else {
            browser.expanded.insert(id)
        };
        with_dirs(BrowserModel { expanded, ..browser }, worktree)
    } else {
        browser
    }
}

/// What is to be read when a directory of the tree is opened or closed.
pub open spec fn toggle_loads(
    browser: BrowserModel,
    worktree: Option<WorktreeSnapshot>,
    ix: int,
) -> Option<u64> {
    if ix < browser.dirs.len() && !browser.expanded.contains(browser.dirs[ix].entry_id) {
        to_load(browser, worktree, browser.dirs[ix].entry_id)
    } else {
        None
    }
}

/// The state after a directory of the tree is selected.
pub open spec fn dir_selected(
    browser: BrowserModel,
    worktree: Option<WorktreeSnapshot>,
    ix: int,
) -> BrowserModel {
    if ix < browser.dirs.len() {
        with_selected(browser, worktree, browser.dirs[ix].entry_id, browser.dirs[ix].path)
    } else {
        browser
    }
}

/// The state after an entry in the list of files is entered: a directory is
/// selected and opened, and a file leaves everything as it is.
pub open spec fn entered(
    browser: BrowserModel,
    worktree: Option<WorktreeSnapshot>,
    ix: int,
) -> BrowserModel {
    if ix < browser.files.len() && browser.files[ix].is_dir {
        let entry = browser.files[ix];
        with_files(
            with_dirs(
                BrowserModel {
                    selected_id: Some(entry.entry_id),
                    selected_path: Some(entry.path),
                    expanded: browser.expanded.insert(entry.entry_id),
                    file_index: None,
                    ..browser
                },
                worktree,
            ),
            worktree,
        )
    } else {
        browser
    }
}

/// The directory that is to be read when an entry is entered.
pub open spec fn enter_loads(
    browser: BrowserModel,
    worktree: Option<WorktreeSnapshot>,
    ix: int,
) -> Option<u64> {
    if ix < browser.files.len() && browser.files[ix].is_dir && !browser.expanded.contains(
        browser.files[ix].entry_id,
    ) {
        to_load(browser, worktree, browser.files[ix].entry_id)
    } else {
        None
    }
}

/// The file that is opened when an entry is entered.
pub open spec fn enter_opens(browser: BrowserModel, ix: int) -> Option<Seq<char>> {
    if ix < browser.files.len() && !browser.files[ix].is_dir && browser.worktree_id is Some {
        Some(browser.files[ix].path)
    } else {
        None
    }
}

/// Where something is pasted: in a directory, or beside what is none.
pub open spec fn paste_directory(target: TargetModel) -> Seq<char> {
    if target.is_dir {
        target.path
    } else {
        parent_of(target.path)
    }
}

pub open spec fn clipboard_source(clipboard: ClipboardEntry) -> u64 {
    match clipboard {
        ClipboardEntry::Copied { entry_id } => entry_id,
        ClipboardEntry::Cut { entry_id } => entry_id,
    }
}

/// Whether something can be pasted: a menu is open, and what is to be pasted is
/// still there and has a name.
pub open spec fn can_paste(browser: BrowserModel, worktree: Option<WorktreeSnapshot>) -> bool {
    &&& browser.menu_target is Some
    &&& browser.clipboard is Some
    &&& browser.worktree_id is Some
    &&& worktree is Some
    &&& match entry_from(worktree->0.entries@, 0, clipboard_source(browser.clipboard->0)) {
        Some(index) => worktree->0.entries@[index].path@.len() > 0,
        None => false,
    }
}

/// What is left to be pasted after a paste: a copy where it went well, and
/// nothing otherwise. Without a menu nothing is taken.
pub open spec fn clipboard_after_paste(
    browser: BrowserModel,
    worktree: Option<WorktreeSnapshot>,
) -> Option<ClipboardEntry> {
    if browser.menu_target is None {
        browser.clipboard
    } else if can_paste(browser, worktree) && browser.clipboard->0 is Copied {
        browser.clipboard
    } else {
        None
    }
}

impl FileBrowserView {
    /// Whether a directory that is to be expanded was not read yet.
    fn try_expand_pending_dir(&self, worktree: &Option<WorktreeSnapshot>, id: u64) -> (load: Option<
        u64,
    >)
        ensures
            load == to_load(self@, *worktree, id),
    {
        if self.worktree_id.is_none() {
            return None;
        }
        match worktree {
            Some(worktree) => match find_entry(&worktree.entries, id) {
                Some(index) => if worktree.entries[index].is_unloaded {
                    Some(id)
                } else {
                    None
                },
                None => None,
            },
            None => None,
        }
    }

    /// Shows the tree as it is now.
    pub fn update_dir_tree(&mut self, worktree: &Option<WorktreeSnapshot>)
        ensures
            final(self)@ == with_dirs(old(self)@, *worktree),
    {
        let mut rows: Vec<DirTreeEntry> = Vec::new();
        assert(dir_models(rows@) =~= seq![]);
        if self.worktree_id.is_some() {
            if let Some(worktree) = worktree {
                proof {
                    reveal_strlit("");
                    assert(""@ =~= seq![]);
                }
                build_dir_tree_recursive(
                    &mut rows,
                    &worktree.entries,
                    &self.expanded_dirs,
                    "",
                    0,
                );
                let ghost dirs = tree_from(worktree.entries@, self.expanded_dirs@, seq![], 0, 0);
                assert(dir_models(rows@) =~= dirs);
                if let Some(ix) = self.dir_tree_selected_index {
                    if ix >= rows.len() {
                        if rows.len() > 0 {
                            self.dir_tree_selected_index = Some(rows.len() - 1);
                        } else {
                            self.dir_tree_selected_index = None;
                        }
                    }
                }
            }
        }
        self.dir_tree_entries = rows;
        assert(self@ =~= with_dirs(old(self)@, *worktree));
    }

    /// Shows the files of the selected directory as they are now.
    pub fn update_file_list(&mut self, worktree: &Option<WorktreeSnapshot>)
        ensures
            final(self)@ == with_files(old(self)@, *worktree),
    {
        let mut rows: Vec<FileListEntry> = Vec::new();
        assert(file_models(rows@) =~= seq![]);
        if self.worktree_id.is_some() {
            if let (Some(worktree), Some(path)) = (worktree, &self.selected_dir_path) {
                let dirs = children(&worktree.entries, path.as_str(), true);
                let files = children(&worktree.entries, path.as_str(), false);
                push_files(&mut rows, &worktree.entries, &dirs, true);
                push_files(&mut rows, &worktree.entries, &files, false);
                let ghost wanted = listed(worktree.entries@, path@);
                assert(file_models(rows@) =~= wanted);
                if let Some(ix) = self.file_list_selected_index {
                    if ix >= rows.len() {
                        if rows.len() > 0 {
                            self.file_list_selected_index = Some(rows.len() - 1);
                        } else {
                            self.file_list_selected_index = None;
                        }
                    }
                }
            }
        }
        self.file_list_entries = rows;
        assert(self@ =~= with_files(old(self)@, *worktree));
    }

    /// Shows the root of a worktree.
    pub fn new(worktree_id: Option<u64>, worktree: &Option<WorktreeSnapshot>) -> (view: Self)
        ensures
            ({
                let root = match worktree {
                    Some(worktree) if worktree_id is Some => worktree.root,
                    _ => None,
                };
                let empty = BrowserModel {
                    worktree_id,
                    dirs: seq![],
                    expanded: Set::empty(),
                    selected_id: match root {
                        Some(root) => Some(root.id),
                        None => None,
                    },
                    selected_path: match root {
                        Some(root) => Some(root.path@),
                        None => None,
                    },
                    dir_index: None,
                    files: seq![],
                    file_index: None,
                    active_pane: ActivePane::DirTree,
                    clipboard: None,
                    menu_target: None,
                };
                view@ == with_files(with_dirs(empty, *worktree), *worktree)
            }),
    {
        let mut view = FileBrowserView {
            worktree_id,
            dir_tree_entries: Vec::new(),
            expanded_dirs: HashSet::new(),
            selected_dir_id: None,
            selected_dir_path: None,
            dir_tree_selected_index: None,
            file_list_entries: Vec::new(),
            file_list_selected_index: None,
            active_pane: ActivePane::DirTree,
            clipboard: None,
            context_menu_entry: None,
        };
        if worktree_id.is_some() {
            if let Some(worktree) = worktree {
                if let Some(root) = &worktree.root {
                    view.selected_dir_id = Some(root.id);
                    view.selected_dir_path = Some(root.path.clone());
                }
            }
        }
        assert(view@.dirs =~= seq![]);
        assert(view@.files =~= seq![]);
        view.update_dir_tree(worktree);
        view.update_file_list(worktree);
        view
    }

    pub fn select_next(&mut self)
        ensures
            final(self)@ == (match old(self)@.active_pane {
                ActivePane::DirTree => BrowserModel {
                    dir_index: next_index(old(self)@.dir_index, old(self)@.dirs.len()),
                    ..old(self)@
                },
                ActivePane::FileList => BrowserModel {
                    file_index: next_index(old(self)@.file_index, old(self)@.files.len()),
                    ..old(self)@
                },
            }),
    {
        match self.active_pane {
            ActivePane::DirTree => {
                let count = self.dir_tree_entries.len();
                self.dir_tree_selected_index = index_after(self.dir_tree_selected_index, count);
            },
            ActivePane::FileList => {
                let count = self.file_list_entries.len();
                self.file_list_selected_index = index_after(self.file_list_selected_index, count);
            },
        }
    }

    pub fn select_previous(&mut self)
        ensures
            final(self)@ == (match old(self)@.active_pane {
                ActivePane::DirTree => BrowserModel {
                    dir_index: previous_index(old(self)@.dir_index, old(self)@.dirs.len()),
                    ..old(self)@
                },
                ActivePane::FileList => BrowserModel {
                    file_index: previous_index(old(self)@.file_index, old(self)@.files.len()),
                    ..old(self)@
                },
            }),
    {
        match self.active_pane {
            ActivePane::DirTree => {
                let count = self.dir_tree_entries.len();
                self.dir_tree_selected_index = index_before(self.dir_tree_selected_index, count);
            },
            ActivePane::FileList => {
                let count = self.file_list_entries.len();
                self.file_list_selected_index = index_before(self.file_list_selected_index, count);
            },
        }
    }

    /// Opens the directory that the user is at in the tree, and says whether it
    /// has to be read.
    pub fn expand_selected_entry(&mut self, worktree: &Option<WorktreeSnapshot>) -> (load: Option<
        u64,
    >)
        ensures
            ({
                let before = old(self)@;
                let ix = before.dir_index;
                if before.active_pane is DirTree && ix is Some && ix->0 < before.dirs.len()
                    && !before.dirs[ix->0 as int].is_expanded {
                    let id = before.dirs[ix->0 as int].entry_id;
                    &&& load == to_load(before, *worktree, id)
                    &&& final(self)@ == with_dirs(
                        BrowserModel { expanded: before.expanded.insert(id), ..before },
                        *worktree,
                    )
                } else {
                    load is None && final(self)@ == before
                }
            }),
    {
        match self.active_pane {
            ActivePane::FileList => {
                return None;
            },
            ActivePane::DirTree => {},
        }
        let ix = match self.dir_tree_selected_index {
            Some(ix) => ix,
            None => {
                return None;
            },
        };
        if ix >= self.dir_tree_entries.len() || self.dir_tree_entries[ix].is_expanded {
            return None;
        }
        let entry_id = self.dir_tree_entries[ix].entry_id;
        let load = self.try_expand_pending_dir(worktree, entry_id);
        self.expanded_dirs.insert(entry_id);
        self.update_dir_tree(worktree);
        load
    }

    /// Closes the directory that the user is at in the tree.
    pub fn collapse_selected_entry(&mut self, worktree: &Option<WorktreeSnapshot>)
        ensures
            ({
                let before = old(self)@;
                let ix = before.dir_index;
                if before.active_pane is DirTree && ix is Some && ix->0 < before.dirs.len()
                    && before.dirs[ix->0 as int].is_expanded {
                    let id = before.dirs[ix->0 as int].entry_id;
                    final(self)@ == with_dirs(
                        BrowserModel { expanded: before.expanded.remove(id), ..before },
                        *worktree,
                    )
                } else {
                    final(self)@ == before
                }
            }),
    {
        match self.active_pane {
            ActivePane::FileList => {
                return ;
            },
            ActivePane::DirTree => {},
        }
        let ix = match self.dir_tree_selected_index {
            Some(ix) => ix,
            None => {
                return ;
            },
        };
        if ix >= self.dir_tree_entries.len() || !self.dir_tree_entries[ix].is_expanded {
            return ;
        }
        let entry_id = self.dir_tree_entries[ix].entry_id;
        self.expanded_dirs.remove(&entry_id);
        self.update_dir_tree(worktree);
    }

    pub fn switch_pane(&mut self)
        ensures
            final(self)@ == (BrowserModel {
                active_pane: match old(self)@.active_pane {
                    ActivePane::DirTree => ActivePane::FileList,
                    ActivePane::FileList => ActivePane::DirTree,
                },
                ..old(self)@
            }),
    {
        self.active_pane = match self.active_pane {
            ActivePane::DirTree => ActivePane::FileList,
            ActivePane::FileList => ActivePane::DirTree,
        };
    }

    /// Opens or closes a directory of the tree, and says whether it has to be
    /// read.
    pub fn toggle_dir(&mut self, ix: usize, worktree: &Option<WorktreeSnapshot>) -> (load: Option<
        u64,
    >)
        ensures
            final(self)@ == toggled(old(self)@, *worktree, ix as int),
            load == toggle_loads(old(self)@, *worktree, ix as int),
    {
        if ix >= self.dir_tree_entries.len() {
            return None;
        }
        let entry_id = self.dir_tree_entries[ix].entry_id;
        let load = if self.expanded_dirs.contains(&entry_id) {
            self.expanded_dirs.remove(&entry_id);
            None
        } else {
            let load = self.try_expand_pending_dir(worktree, entry_id);
            self.expanded_dirs.insert(entry_id);
            load
        };
        self.update_dir_tree(worktree);
        load
    }

    /// Selects a directory of the tree.
    pub fn select_dir(&mut self, ix: usize, worktree: &Option<WorktreeSnapshot>)
        ensures
            final(self)@ == dir_selected(old(self)@, *worktree, ix as int),
    {
        if ix >= self.dir_tree_entries.len() {
            return ;
        }
        self.selected_dir_id = Some(self.dir_tree_entries[ix].entry_id);
        self.selected_dir_path = Some(self.dir_tree_entries[ix].path.clone());
        self.file_list_selected_index = None;
        self.update_file_list(worktree);
    }

    /// Selects the root of the worktree.
    pub fn select_root_dir(&mut self, worktree: &Option<WorktreeSnapshot>)
        ensures
            final(self)@ == (match worktree {
                Some(snapshot) if old(self)@.worktree_id is Some && snapshot.root is Some => {
                    with_selected(
                        old(self)@,
                        *worktree,
                        snapshot.root->0.id,
                        snapshot.root->0.path@,
                    )
                },
                _ => old(self)@,
            }),
    {
        if self.worktree_id.is_none() {
            return ;
        }
        if let Some(snapshot) = worktree {
            if let Some(root) = &snapshot.root {
                self.selected_dir_id = Some(root.id);
                self.selected_dir_path = Some(root.path.clone());
                self.file_list_selected_index = None;
                self.update_file_list(worktree);
            }
        }
    }

    /// The file in the list that is to be opened.
    pub fn open_file(&self, ix: usize) -> (path: Option<String>)
        ensures
            text_model(path) == enter_opens(self@, ix as int),
    {
        if ix >= self.file_list_entries.len() || self.file_list_entries[ix].is_dir {
            return None;
        }
        if self.worktree_id.is_none() {
            return None;
        }
        Some(self.file_list_entries[ix].path.clone())
    }

    /// Enters a directory in the list, or opens a file.
    pub fn on_file_list_click(&mut self, ix: usize, worktree: &Option<WorktreeSnapshot>) -> (
    effects: BrowserEffects)
        ensures
            final(self)@ == entered(old(self)@, *worktree, ix as int),
            effects.load == enter_loads(old(self)@, *worktree, ix as int),
            text_model(effects.open) == enter_opens(old(self)@, ix as int),
    {
        if ix >= self.file_list_entries.len() {
            return BrowserEffects { load: None, open: None };
        }
        if !self.file_list_entries[ix].is_dir {
            return BrowserEffects { load: None, open: self.open_file(ix) };
        }
        let entry_id = self.file_list_entries[ix].entry_id;
        let path = self.file_list_entries[ix].path.clone();
        let load = if self.expanded_dirs.contains(&entry_id) {
            None
        } else {
            self.try_expand_pending_dir(worktree, entry_id)
        };
        self.selected_dir_id = Some(entry_id);
        self.selected_dir_path = Some(path);
        self.expanded_dirs.insert(entry_id);
        self.file_list_selected_index = None;
        self.update_dir_tree(worktree);
        self.update_file_list(worktree);
        BrowserEffects { load, open: None }
    }

    /// Enters what the user is at.
    pub fn confirm_entry(&mut self, worktree: &Option<WorktreeSnapshot>) -> (effects:
        BrowserEffects)
        ensures
            ({
                let before = old(self)@;
                match before.active_pane {
                    ActivePane::DirTree => {
                        &&& effects.load is None
                        &&& effects.open is None
                        &&& final(self)@ == match before.dir_index {
                            Some(ix) => dir_selected(before, *worktree, ix as int),
                            None => before,
                        }
                    },
                    ActivePane::FileList => match before.file_index {
                        Some(ix) => final(self)@ == entered(before, *worktree, ix as int)
                            && effects.load == enter_loads(before, *worktree, ix as int)
                            && text_model(effects.open) == enter_opens(before, ix as int),
                        None => effects.load is None && effects.open is None && final(self)@
                            == before,
                    },
                }
            }),
    {
        match self.active_pane {
            ActivePane::DirTree => {
                if let Some(ix) = self.dir_tree_selected_index {
                    self.select_dir(ix, worktree);
                }
                BrowserEffects { load: None, open: None }
            },
            ActivePane::FileList => {
                if let Some(ix) = self.file_list_selected_index {
                    return self.on_file_list_click(ix, worktree);
                }
                BrowserEffects { load: None, open: None }
            },
        }
    }

    /// A click on a directory of the tree selects it, and opens or closes it.
    pub fn on_dir_tree_click(&mut self, ix: usize, worktree: &Option<WorktreeSnapshot>) -> (load:
        Option<u64>)
        ensures
            ({
                let at = BrowserModel {
                    active_pane: ActivePane::DirTree,
                    dir_index: Some(ix),
                    ..old(self)@
                };
                let selected = dir_selected(at, *worktree, ix as int);
                &&& final(self)@ == toggled(selected, *worktree, ix as int)
                &&& load == toggle_loads(selected, *worktree, ix as int)
            }),
    {
        self.active_pane = ActivePane::DirTree;
        self.dir_tree_selected_index = Some(ix);
        self.select_dir(ix, worktree);
        self.toggle_dir(ix, worktree)
    }

    /// A click on an entry of the list moves there, and a second one enters it.
    pub fn on_file_list_entry_click(
        &mut self,
        ix: usize,
        click_count: usize,
        worktree: &Option<WorktreeSnapshot>,
    ) -> (effects: BrowserEffects)
        ensures
            ({
                let at = BrowserModel {
                    active_pane: ActivePane::FileList,
                    file_index: Some(ix),
                    ..old(self)@
                };
                if click_count >= 2 {
                    &&& final(self)@ == entered(at, *worktree, ix as int)
                    &&& effects.load == enter_loads(at, *worktree, ix as int)
                    &&& text_model(effects.open) == enter_opens(at, ix as int)
                } else {
                    final(self)@ == at && effects.load is None && effects.open is None
                }
            }),
    {
        self.active_pane = ActivePane::FileList;
        self.file_list_selected_index = Some(ix);
        if click_count >= 2 {
            return self.on_file_list_click(ix, worktree);
        }
        BrowserEffects { load: None, open: None }
    }

    /// A click in the tree beside its rows.
    pub fn on_dir_tree_pane_click(&mut self)
        ensures
            final(self)@ == (BrowserModel { active_pane: ActivePane::DirTree, ..old(self)@ }),
    {
        self.active_pane = ActivePane::DirTree;
    }

    /// A click beside the entries moves to the list, and to its first entry where
    /// the user was at none.
    pub fn on_file_list_pane_click(&mut self)
        ensures
            final(self)@ == (BrowserModel {
                active_pane: ActivePane::FileList,
                file_index: if old(self)@.file_index is None && old(self)@.files.len() > 0 {
                    Some(0)
                } else {
                    old(self)@.file_index
                },
                ..old(self)@
            }),
    {
        self.active_pane = ActivePane::FileList;
        if self.file_list_selected_index.is_none() && self.file_list_entries.len() > 0 {
            self.file_list_selected_index = Some(0);
        }
    }

    /// A change of the entries of a worktree, or of the worktrees, shows
    /// everything as it is now.
    pub fn on_worktree_event(
        &mut self,
        updated_worktree: Option<u64>,
        worktree: &Option<WorktreeSnapshot>,
    )
        ensures
            final(self)@ == if updated_worktree is None || updated_worktree
                == old(self)@.worktree_id {
                with_files(with_dirs(old(self)@, *worktree), *worktree)
            } else {
                old(self)@
            },
    {
        let own = match (updated_worktree, self.worktree_id) {
            (Some(updated), Some(own)) => updated == own,
            (Some(_), None) => false,
            (None, _) => true,
        };
        if own {
            self.update_dir_tree(worktree);
            self.update_file_list(worktree);
        }
    }

    /// Opens a menu, and says whether it offers to paste and to trash.
    pub fn deploy_context_menu(&mut self, target: ContextMenuTarget, is_root: bool) -> (offers: (
        bool,
        bool,
    ))
        ensures
            final(self)@ == (BrowserModel { menu_target: Some(target@), ..old(self)@ }),
            offers.0 == (old(self)@.clipboard is Some),
            offers.1 == !is_root,
    {
        self.context_menu_entry = Some(target);
        (self.clipboard.is_some(), !is_root)
    }

    /// A click with the right button on a row of the tree opens the menu for it.
    pub fn on_dir_tree_right_click(&mut self, ix: usize) -> (offers: Option<(bool, bool)>)
        ensures
            ix >= old(self)@.dirs.len() ==> offers is None && final(self)@ == old(self)@,
            ix < old(self)@.dirs.len() ==> offers == Some((old(self)@.clipboard is Some, true))
                && final(self)@ == (BrowserModel {
                active_pane: ActivePane::DirTree,
                dir_index: Some(ix),
                menu_target: Some(
                    TargetModel {
                        entry_id: old(self)@.dirs[ix as int].entry_id,
                        path: old(self)@.dirs[ix as int].path,
                        is_dir: true,
                    },
                ),
                ..old(self)@
            }),
    {
        if ix >= self.dir_tree_entries.len() {
            return None;
        }
        let entry = &self.dir_tree_entries[ix];
        let target = ContextMenuTarget {
            entry_id: entry.entry_id,
            path: entry.path.clone(),
            is_dir: true,
        };
        self.active_pane = ActivePane::DirTree;
        self.dir_tree_selected_index = Some(ix);
        Some(self.deploy_context_menu(target, false))
    }

    /// A click with the right button on a row of the list opens the menu for it.
    pub fn on_file_list_right_click(&mut self, ix: usize) -> (offers: Option<(bool, bool)>)
        ensures
            ix >= old(self)@.files.len() ==> offers is None && final(self)@ == old(self)@,
            ix < old(self)@.files.len() ==> offers == Some((old(self)@.clipboard is Some, true))
                && final(self)@ == (BrowserModel {
                active_pane: ActivePane::FileList,
                file_index: Some(ix),
                menu_target: Some(
                    TargetModel {
                        entry_id: old(self)@.files[ix as int].entry_id,
                        path: old(self)@.files[ix as int].path,
                        is_dir: old(self)@.files[ix as int].is_dir,
                    },
                ),
                ..old(self)@
            }),
    {
        if ix >= self.file_list_entries.len() {
            return None;
        }
        let entry = &self.file_list_entries[ix];
        let target = ContextMenuTarget {
            entry_id: entry.entry_id,
            path: entry.path.clone(),
            is_dir: entry.is_dir,
        };
        self.active_pane = ActivePane::FileList;
        self.file_list_selected_index = Some(ix);
        Some(self.deploy_context_menu(target, false))
    }

    /// A click with the right button on the root opens the menu for it, where
    /// the worktree has one.
    pub fn on_root_right_click(&mut self, worktree: &Option<WorktreeSnapshot>) -> (offers: Option<
        (bool, bool),
    >)
        ensures
            match root_entry_of(old(self)@, *worktree) {
                Some(root) => offers == Some((old(self)@.clipboard is Some, false))
                    && final(self)@ == (BrowserModel {
                    active_pane: ActivePane::DirTree,
                    menu_target: Some(
                        TargetModel { entry_id: root.id, path: Seq::empty(), is_dir: true },
                    ),
                    ..old(self)@
                }),
                None => offers is None && final(self)@ == old(self)@,
            },
    {
        if self.worktree_id.is_none() {
            return None;
        }
        match worktree {
            Some(snapshot) => match &snapshot.root {
                Some(root) => {
                    let target = ContextMenuTarget {
                        entry_id: root.id,
                        path: String::new(),
                        is_dir: true,
                    };
                    self.active_pane = ActivePane::DirTree;
                    Some(self.deploy_context_menu(target, true))
                },
                None => None,
            },
            None => None,
        }
    }

    /// Closes the menu.
    pub fn dismiss_context_menu(&mut self)
        ensures
            final(self)@ == (BrowserModel { menu_target: None, ..old(self)@ }),
    {
        self.context_menu_entry = None;
    }

    /// The path of the entry that the menu is open for.
    pub fn context_menu_path(&self) -> (path: Option<String>)
        ensures
            text_model(path) == match self@.menu_target {
                Some(target) => Some(target.path),
                None => None,
            },
    {
        match &self.context_menu_entry {
            Some(target) => Some(target.path.clone()),
            None => None,
        }
    }

    /// Marks an entry to be moved. Its path goes to the clipboard of the system.
    pub fn cut(&mut self) -> (path: Option<String>)
        ensures
            text_model(path) == match old(self)@.menu_target {
                Some(target) => Some(target.path),
                None => None,
            },
            final(self)@ == (BrowserModel {
                clipboard: match old(self)@.menu_target {
                    Some(target) => Some(ClipboardEntry::Cut { entry_id: target.entry_id }),
                    None => old(self)@.clipboard,
                },
                ..old(self)@
            }),
    {
        let path = self.context_menu_path();
        if let Some(target) = &self.context_menu_entry {
            self.clipboard = Some(ClipboardEntry::Cut { entry_id: target.entry_id });
        }
        path
    }

    /// Marks an entry to be copied. Its path goes to the clipboard of the system.
    pub fn copy(&mut self) -> (path: Option<String>)
        ensures
            text_model(path) == match old(self)@.menu_target {
                Some(target) => Some(target.path),
                None => None,
            },
            final(self)@ == (BrowserModel {
                clipboard: match old(self)@.menu_target {
                    Some(target) => Some(ClipboardEntry::Copied { entry_id: target.entry_id }),
                    None => old(self)@.clipboard,
                },
                ..old(self)@
            }),
    {
        let path = self.context_menu_path();
        if let Some(target) = &self.context_menu_entry {
            self.clipboard = Some(ClipboardEntry::Copied { entry_id: target.entry_id });
        }
        path
    }

    /// Pastes what was marked where the menu is open. What was cut is pasted once,
    /// and what cannot be pasted is forgotten.
    pub fn paste(&mut self, worktree: &Option<WorktreeSnapshot>) -> (action: Option<PasteAction>)
        ensures
            final(self)@ == (BrowserModel {
                clipboard: clipboard_after_paste(old(self)@, *worktree),
                ..old(self)@
            }),
            match action {
                Some(action) => {
                    let before = old(self)@;
                    let entries = worktree->0.entries@;
                    let source = entries[entry_from(entries, 0, action.source)->0];
                    &&& can_paste(before, *worktree)
                    &&& action.source == clipboard_source(before.clipboard->0)
                    &&& action.is_cut == (before.clipboard->0 is Cut)
                    &&& is_paste_path(
                        entries,
                        paste_directory(before.menu_target->0),
                        name_of(source.path@),
                        !source.is_dir,
                        action.destination@,
                    )
                },
                None => !can_paste(old(self)@, *worktree),
            },
    {
        let target = match &self.context_menu_entry {
            Some(target) => target,
            None => {
                return None;
            },
        };
        let dest_dir = if target.is_dir {
            target.path.clone()
        } else {
            entry_parent(target.path.as_str())
        };
        let clipboard = match self.clipboard {
            Some(clipboard) => clipboard,
            None => {
                return None;
            },
        };
        self.clipboard = None;
        let (source, is_cut) = match clipboard {
            ClipboardEntry::Cut { entry_id } => (entry_id, true),
            ClipboardEntry::Copied { entry_id } => (entry_id, false),
        };
        if self.worktree_id.is_none() {
            return None;
        }
        let snapshot = match worktree {
            Some(snapshot) => snapshot,
            None => {
                return None;
            },
        };
        let index = match find_entry(&snapshot.entries, source) {
            Some(index) => index,
            None => {
                return None;
            },
        };
        let entry = &snapshot.entries[index];
        if entry.path.as_str().is_empty() {
            return None;
        }
        let name = entry_name(entry.path.as_str());
        let destination = compute_paste_path(
            &snapshot.entries,
            dest_dir.as_str(),
            name.as_str(),
            !entry.is_dir,
        );
        if !is_cut {
            self.clipboard = Some(clipboard);
        }
        Some(PasteAction { source, destination, is_cut })
    }

    /// Copies the entry that the menu is open for beside itself, or into itself
    /// where it is a directory.
    pub fn duplicate(&mut self, worktree: &Option<WorktreeSnapshot>) -> (done: (
        Option<String>,
        Option<PasteAction>,
    ))
        ensures
            ({
                let before = old(self)@;
                let marked = BrowserModel {
                    clipboard: match before.menu_target {
                        Some(target) => Some(ClipboardEntry::Copied { entry_id: target.entry_id }),
                        None => before.clipboard,
                    },
                    ..before
                };
                &&& text_model(done.0) == match before.menu_target {
                    Some(target) => Some(target.path),
                    None => None,
                }
                &&& final(self)@ == (BrowserModel {
                    clipboard: clipboard_after_paste(marked, *worktree),
                    ..marked
                })
                &&& match done.1 {
                    Some(action) => {
                        let entries = worktree->0.entries@;
                        let source = entries[entry_from(entries, 0, action.source)->0];
                        &&& can_paste(marked, *worktree)
                        &&& action.source == clipboard_source(marked.clipboard->0)
                        &&& !action.is_cut
                        &&& is_paste_path(
                            entries,
                            paste_directory(before.menu_target->0),
                            name_of(source.path@),
                            !source.is_dir,
                            action.destination@,
                        )
                    },
                    None => !can_paste(marked, *worktree),
                }
            }),
    {
        let path = self.copy();
        let action = self.paste(worktree);
        (path, action)
    }

    /// The entry that the menu is open for, and the question whether to trash it.
    pub fn trash(&self) -> (question: Option<(u64, String)>)
        ensures
            match self@.menu_target {
                Some(target) => question matches Some(question) && question.0 == target.entry_id
                    && question.1@ == "Do you want to trash "@ + (if target.path.len() > 0 {
                    name_of(target.path)
                } else {
                    "this item"@
                }) + "?"@,
                None => question is None,
            },
    {
        match &self.context_menu_entry {
            Some(target) => {
                let mut chars = chars_of("Do you want to trash ");
                if target.path.as_str().is_empty() {
                    extend_text(&mut chars, "this item");
                } else {
                    let name = entry_name(target.path.as_str());
                    extend_text(&mut chars, name.as_str());
                }
                extend_text(&mut chars, "?");
                Some((target.entry_id, text_of(chars.as_slice())))
            },
            None => None,
        }
    }

    /// What the root of the worktree is called.
    pub fn root_dir_name(&self, worktree: &Option<WorktreeSnapshot>) -> (name: String)
        ensures
            name@ == root_name_of(self@, *worktree),
    {
        if self.worktree_id.is_some() {
            if let Some(snapshot) = worktree {
                if !snapshot.root_name.as_str().is_empty() {
                    return snapshot.root_name.clone();
                }
            }
        }
        "/".to_string()
    }

    /// Whether the root of the worktree is selected.
    pub fn is_root_selected(&self, worktree: &Option<WorktreeSnapshot>) -> (selected: bool)
        ensures
            selected == match root_entry_of(self@, *worktree) {
                Some(root) => self@.selected_id == Some(root.id),
                None => false,
            },
    {
        if self.worktree_id.is_none() {
            return false;
        }
        if let Some(snapshot) = worktree {
            if let Some(root) = &snapshot.root {
                return match self.selected_dir_id {
                    Some(id) => id == root.id,
                    None => false,
                };
            }
        }
        false
    }

    /// What stands above the list of files.
    pub fn file_list_header(&self, worktree: &Option<WorktreeSnapshot>) -> (header: String)
        ensures
            header@ == match self@.selected_path {
                Some(path) => if path.len() == 0 {
                    root_name_of(self@, *worktree)
                } else {
                    name_of(path)
                },
                None => "Files"@,
            },
    {
        match &self.selected_dir_path {
            Some(path) => if path.as_str().is_empty() {
                self.root_dir_name(worktree)
            } else {
                entry_name(path.as_str())
            },
            None => "Files".to_string(),
        }
    }

    /// What stands in place of the tree and the list where there is no folder.
    pub fn placeholder(&self) -> (text: Option<String>)
        ensures
            text_model(text) == if self@.worktree_id is None {
                Some("No directory"@)
            } else {
                None
            },
    {
        if self.worktree_id.is_none() {
            Some("No directory".to_string())
        } else {
            None
        }
    }

    /// What stands in place of the list where the folder is empty.
    pub fn file_list_placeholder(&self) -> (text: Option<String>)
        ensures
            text_model(text) == if self@.files.len() == 0 {
                Some("Empty directory"@)
            } else {
                None
            },
    {
        if self.file_list_entries.len() == 0 {
            Some("Empty directory".to_string())
        } else {
            None
        }
    }

    /// How a directory of the tree looks.
    pub fn dir_tree_look(&self, ix: usize) -> (look: Option<RowLook>)
        ensures
            look == if ix < self@.dirs.len() {
                let is_cursor = self@.dir_index == Some(ix) && self@.active_pane is DirTree;
                Some(
                    if is_cursor {
                        RowLook::Cursor
                    } else if self@.selected_id == Some(self@.dirs[ix as int].entry_id) {
                        RowLook::Selected
                    } else {
                        RowLook::Plain
                    },
                )
            } else {
                None
            },
    {
        if ix >= self.dir_tree_entries.len() {
            return None;
        }
        let at = match self.dir_tree_selected_index {
            Some(index) => index == ix,
            None => false,
        };
        let in_tree = match self.active_pane {
            ActivePane::DirTree => true,
            ActivePane::FileList => false,
        };
        let is_selected = match self.selected_dir_id {
            Some(id) => id == self.dir_tree_entries[ix].entry_id,
            None => false,
        };
        if at && in_tree {
            Some(RowLook::Cursor)
        } else if is_selected {
            Some(RowLook::Selected)
        } else {
            Some(RowLook::Plain)
        }
    }

    /// How an entry of the list looks.
    pub fn file_list_look(&self, ix: usize) -> (look: Option<RowLook>)
        ensures
            look == if ix < self@.files.len() {
                Some(
                    if self@.file_index != Some(ix) {
                        RowLook::Plain
                    } else if self@.active_pane is FileList {
                        RowLook::Cursor
                    } else {
                        RowLook::Selected
                    },
                )
            } else {
                None
            },
    {
        if ix >= self.file_list_entries.len() {
            return None;
        }
        let at = match self.file_list_selected_index {
            Some(index) => index == ix,
            None => false,
        };
        if !at {
            return Some(RowLook::Plain);
        }
        match self.active_pane {
            ActivePane::FileList => Some(RowLook::Cursor),
            ActivePane::DirTree => Some(RowLook::Selected),
        }
    }
}

/// How a row looks.
#[derive(Clone, Copy, Debug, PartialEq, Eq, Structural)]
pub enum RowLook {
    Cursor,
    Selected,
    Plain,
}

/// The root of the worktree that is shown.
pub open spec fn root_entry_of(
    browser: BrowserModel,
    worktree: Option<WorktreeSnapshot>,
) -> Option<WorktreeEntry> {
    match worktree {
        Some(snapshot) if browser.worktree_id is Some => snapshot.root,
        _ => None,
    }
}

/// What the root of a worktree is called: by its name, or as the root.
pub open spec fn root_name_of(
    browser: BrowserModel,
    worktree: Option<WorktreeSnapshot>,
) -> Seq<char> {
    match worktree {
        Some(snapshot) if browser.worktree_id is Some && snapshot.root_name@.len() > 0 => {
            snapshot.root_name@
        },
        _ => "/"@,
    }
}

/// Opening and closing a directory at the same row leaves the tree as it was,
/// where the row is still that of the directory.
pub proof fn law_toggle_twice(
    browser: BrowserModel,
    worktree: Option<WorktreeSnapshot>,
    ix: int,
)
    requires
        0 <= ix < browser.dirs.len(),
        ix < toggled(browser, worktree, ix).dirs.len(),
        toggled(browser, worktree, ix).dirs[ix].entry_id == browser.dirs[ix].entry_id,
    ensures
        toggled(toggled(browser, worktree, ix), worktree, ix).expanded == browser.expanded,
        toggled(toggled(browser, worktree, ix), worktree, ix).dirs == with_dirs(
            browser,
            worktree,
        ).dirs,
{
    let id = browser.dirs[ix].entry_id;
    if browser.expanded.contains(id) {
        assert(browser.expanded.remove(id).insert(id) =~= browser.expanded);
    } else {
        assert(browser.expanded.insert(id).remove(id) =~= browser.expanded);
    }
}

/// What is shown never leaves the user at a row that is not there.
pub proof fn law_refresh_keeps_rows_in_range(
    browser: BrowserModel,
    worktree: Option<WorktreeSnapshot>,
)
    requires
        worktree is Some,
        browser.worktree_id is Some,
        browser.selected_path is Some,
    ensures
        ({
            let shown = with_files(with_dirs(browser, worktree), worktree);
            &&& shown.dir_index matches Some(ix) ==> ix < shown.dirs.len()
            &&& shown.file_index matches Some(ix) ==> ix < shown.files.len()
        }),
{
}

/// The cursor goes down or up by one row and stays among them; where there was
/// none it begins at the first row.
pub proof fn law_cursor(index: usize, count: nat)
    requires
        0 < count <= usize::MAX,
    ensures
        index + 1 < count ==> next_index(Some(index), count) == Some((index + 1) as usize),
        index + 1 >= count ==> next_index(Some(index), count) == Some((count - 1) as usize),
        index > 0 ==> previous_index(Some(index), count) == Some((index - 1) as usize),
        previous_index(Some(0), count) == Some(0usize),
        next_index(None, count) == Some(0usize),
        previous_index(None, count) == Some(0usize),
        next_index(None, 0) is None,
        index < count ==> within(Some(index), count) == Some(index),
        index >= count ==> within(Some(index), count) == Some((count - 1) as usize),
        within(Some(index), 0) is None,
        within(None, count) is None,
{
}

/// A directory is listed with everything right in it: first its directories, then
/// its files, and under each its own name and path.
pub proof fn law_listed(entries: Seq<WorktreeEntry>, path: Seq<char>)
    requires
        entries.len() <= usize::MAX,
    ensures
        ({
            let rows = listed(entries, path);
            &&& forall|k: int|
                0 <= k < entries.len() && (#[trigger] entries[k]).path@.len() > 0 && parent_of(
                    entries[k].path@,
                ) == path ==> rows.contains(
                    FileModel {
                        entry_id: entries[k].id,
                        path: entries[k].path@,
                        name: name_of(entries[k].path@),
                        is_dir: entries[k].is_dir,
                    },
                )
            &&& forall|i: int|
                0 <= i < rows.len() ==> parent_of((#[trigger] rows[i]).path) == path
                    && rows[i].name == name_of(rows[i].path) && rows[i].path.len() > 0
            &&& forall|i: int, j: int|
                0 <= i < j < rows.len() && (#[trigger] rows[j]).is_dir ==> (
                #[trigger] rows[i]).is_dir
        }),
{
    let dirs = sorted_children(entries, path, true);
    let files = sorted_children(entries, path, false);
    law_children(entries, path, true);
    law_children(entries, path, false);
    let rows = listed(entries, path);
    assert forall|k: int|
        0 <= k < entries.len() && (#[trigger] entries[k]).path@.len() > 0 && parent_of(
            entries[k].path@,
        ) == path implies rows.contains(
        FileModel {
            entry_id: entries[k].id,
            path: entries[k].path@,
            name: name_of(entries[k].path@),
            is_dir: entries[k].is_dir,
        },
    ) by {
        if entries[k].is_dir {
            assert(dirs.contains(k));
            let i = choose|i: int| 0 <= i < dirs.len() && dirs[i] == k;
            assert(rows[i] == file_row(entries[k], true));
        } else {
            assert(files.contains(k));
            let i = choose|i: int| 0 <= i < files.len() && files[i] == k;
            assert(rows[dirs.len() + i] == file_row(entries[k], false));
        }
    }
    assert forall|i: int| 0 <= i < rows.len() implies parent_of((#[trigger] rows[i]).path) == path
        && rows[i].name == name_of(rows[i].path) && rows[i].path.len() > 0 by {
        if i < dirs.len() {
            assert(dirs.contains(dirs[i]));
        } else {
            assert(files.contains(files[i - dirs.len()]));
        }
    }
}

/// A directory is open after a click on its arrow exactly where it was closed
/// before; every other stays as it was, and what is selected stays selected.
pub proof fn law_arrows(
    browser: BrowserModel,
    worktree: Option<WorktreeSnapshot>,
    ix: int,
    other: u64,
)
    requires
        0 <= ix < browser.dirs.len(),
    ensures
        ({
            let after = toggled(browser, worktree, ix);
            let id = browser.dirs[ix].entry_id;
            &&& after.expanded.contains(id) <==> !browser.expanded.contains(id)
            &&& other != id ==> (after.expanded.contains(other) <==> browser.expanded.contains(
                other,
            ))
            &&& after.selected_id == browser.selected_id && after.selected_path
                == browser.selected_path
            &&& after.files == browser.files && after.clipboard == browser.clipboard
        }),
        browser.expanded.contains(browser.dirs[ix].entry_id) ==> toggle_loads(
            browser,
            worktree,
            ix,
        ) is None,
{
}

/// To go into a directory of the list selects and opens it and lists what is in
/// it, with no row chosen; a file is opened instead, and nothing else changes.
pub proof fn law_entering(browser: BrowserModel, worktree: WorktreeSnapshot, ix: int)
    requires
        0 <= ix < browser.files.len(),
        browser.worktree_id is Some,
    ensures
        ({
            let row = browser.files[ix];
            let after = entered(browser, Some(worktree), ix);
            &&& row.is_dir ==> {
                &&& after.selected_id == Some(row.entry_id) && after.selected_path == Some(row.path)
                &&& after.expanded == browser.expanded.insert(row.entry_id)
                &&& after.files == listed(worktree.entries@, row.path)
                &&& after.file_index is None
                &&& after.dirs == tree_from(worktree.entries@, after.expanded, seq![], 0, 0)
                &&& enter_opens(browser, ix) is None
            }
            &&& !row.is_dir ==> after == browser && enter_opens(browser, ix) == Some(row.path)
                && enter_loads(browser, Some(worktree), ix) is None
        }),
{
}

/// A directory that is opened is read first where it has not been.
pub proof fn law_directories_are_read(
    browser: BrowserModel,
    worktree: WorktreeSnapshot,
    ix: int,
    k: int,
)
    requires
        0 <= ix < browser.dirs.len(),
        browser.worktree_id is Some,
        !browser.expanded.contains(browser.dirs[ix].entry_id),
        0 <= k < worktree.entries@.len(),
        worktree.entries@[k].id == browser.dirs[ix].entry_id,
        forall|i: int|
            0 <= i < k ==> (#[trigger] worktree.entries@[i]).id != browser.dirs[ix].entry_id,
    ensures
        toggle_loads(browser, Some(worktree), ix) == if worktree.entries@[k].is_unloaded {
            Some(browser.dirs[ix].entry_id)
        } else {
            None
        },
{
    lemma_entry_is(worktree.entries@, 0, k, browser.dirs[ix].entry_id);
}

proof fn lemma_entry_is(entries: Seq<WorktreeEntry>, from: int, k: int, id: u64)
    requires
        0 <= from <= k < entries.len(),
        entries[k].id == id,
        forall|i: int| 0 <= i < k ==> (#[trigger] entries[i]).id != id,
    ensures
        entry_from(entries, from, id) == Some(k),
    decreases k - from,
{
    if from < k {
        assert(entries[from].id != id);
        lemma_entry_is(entries, from + 1, k, id);
    }
}

/// Where something is pasted: in the directory that was clicked, or beside the file
/// that was. What was cut can be pasted once, what was copied again and again.
pub proof fn law_pasting(
    browser: BrowserModel,
    worktree: Option<WorktreeSnapshot>,
    target: TargetModel,
    id: u64,
)
    ensures
        target.is_dir ==> paste_directory(target) == target.path,
        !target.is_dir ==> paste_directory(target) == parent_of(target.path),
        clipboard_source(ClipboardEntry::Copied { entry_id: id }) == id,
        clipboard_source(ClipboardEntry::Cut { entry_id: id }) == id,
        browser.menu_target is Some && browser.clipboard == Some(
            ClipboardEntry::Cut { entry_id: id },
        ) ==> clipboard_after_paste(browser, worktree) is None,
        can_paste(browser, worktree) && browser.clipboard == Some(
            ClipboardEntry::Copied { entry_id: id },
        ) ==> clipboard_after_paste(browser, worktree) == browser.clipboard,
        browser.menu_target is None ==> clipboard_after_paste(browser, worktree)
            == browser.clipboard,
        browser.clipboard is None ==> !can_paste(browser, worktree),
{
}

/// A directory that is selected in the tree is listed, with no row chosen; the tree
/// and what is open in it stay.
pub proof fn law_selecting(browser: BrowserModel, worktree: WorktreeSnapshot, ix: int)
    requires
        0 <= ix < browser.dirs.len(),
        browser.worktree_id is Some,
    ensures
        ({
            let after = dir_selected(browser, Some(worktree), ix);
            &&& after.selected_id == Some(browser.dirs[ix].entry_id)
            &&& after.selected_path == Some(browser.dirs[ix].path)
            &&& after.files == listed(worktree.entries@, browser.dirs[ix].path)
            &&& after.file_index is None
            &&& after.dirs == browser.dirs && after.expanded == browser.expanded
        }),
{
}

} // verus!
