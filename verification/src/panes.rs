//! The panes of an arena: which of them has the focus, what is put in them, and
//! what is done with what is dragged onto them.

use std::collections::{HashMap, HashSet};

use vstd::prelude::*;

use crate::arenas::WorktreeInfo;
use crate::ipc::{PaneContentType, SplitDirection};
use crate::paths::{components_of, file_name, file_name_of, same_path};
use crate::text::{chars_of, extend_text, int_index, string_models, text_model, text_of};

verus! {

broadcast use vstd::std_specs::hash::group_hash_axioms;

/// The first place from `from` on where a pane stands.
pub open spec fn pane_from(panes: Seq<u64>, from: int, pane: u64) -> Option<int>
    decreases panes.len() - from,
{
    if from < 0 || from >= panes.len() {
        None
    } else if panes[from] == pane {
        Some(from)
    } else {
        pane_from(panes, from + 1, pane)
    }
}

/// The place of a pane among the panes of an arena.
pub fn position(panes: &Vec<u64>, pane: u64) -> (found: Option<usize>)
    ensures
        int_index(found) == pane_from(panes@, 0, pane),
        match found {
            Some(index) => index < panes@.len() && panes@[index as int] == pane,
            None => !panes@.contains(pane),
        },
{
    let mut i: usize = 0;
    while i < panes.len()
        invariant
            i <= panes@.len(),
            pane_from(panes@, 0, pane) == pane_from(panes@, i as int, pane),
            forall|j: int| 0 <= j < i ==> panes@[j] != pane,
        decreases panes@.len() - i,
    {
        if panes[i] == pane {
            return Some(i);
        }
        i += 1;
    }
    None
}

/// The pane after a place, and round to the first.
pub open spec fn next_of(index: int, count: int) -> int {
    if index + 1 < count {
        index + 1
    } else {
        0
    }
}

/// The pane before a place, and round to the last.
pub open spec fn previous_of(index: int, count: int) -> int {
    if index > 0 {
        index - 1
    } else {
        count - 1
    }
}

/// The place of the pane that gets the focus after the active one.
pub fn next_pane(panes: &Vec<u64>, active: u64) -> (next: Option<usize>)
    ensures
        int_index(next) == match pane_from(panes@, 0, active) {
            Some(index) => Some(next_of(index, panes@.len() as int)),
            None => None,
        },
        next is Some ==> next->0 < panes@.len(),
{
    match position(panes, active) {
        Some(index) => if index < panes.len() - 1 {
            Some(index + 1)
        } else {
            Some(0)
        },
        None => None,
    }
}

/// The place of the pane that gets the focus before the active one.
pub fn previous_pane(panes: &Vec<u64>, active: u64) -> (previous: Option<usize>)
    ensures
        int_index(previous) == match pane_from(panes@, 0, active) {
            Some(index) => Some(previous_of(index, panes@.len() as int)),
            None => None,
        },
        previous is Some ==> previous->0 < panes@.len(),
{
    match position(panes, active) {
        Some(index) => if index > 0 {
            Some(index - 1)
        } else {
            Some(panes.len() - 1)
        },
        None => None,
    }
}

/// The pane with a number in the order of the panes.
pub fn pane_at(panes: &Vec<u64>, index: usize) -> (pane: Option<u64>)
    ensures
        pane == if index < panes@.len() {
            Some(panes@[index as int])
        } else {
            None
        },
{
    if index < panes.len() {
        Some(panes[index])
    } else {
        None
    }
}

/// Going on and back again, or back and on, ends where it began.
pub proof fn law_next_and_previous_are_inverse(index: int, count: int)
    requires
        0 <= index < count,
    ensures
        previous_of(next_of(index, count), count) == index,
        next_of(previous_of(index, count), count) == index,
{
}

/// Where going on leads after so many steps.
pub open spec fn after_steps(index: int, count: int, steps: nat) -> int
    decreases steps,
{
    if steps == 0 {
        index
    } else {
        next_of(after_steps(index, count, (steps - 1) as nat), count)
    }
}

/// Going on reaches every pane within one round.
pub proof fn law_next_reaches_every_pane(from: int, to: int, count: int)
    requires
        0 <= from < count,
        0 <= to < count,
    ensures
        exists|steps: nat| steps < count && #[trigger] after_steps(from, count, steps) == to,
{
    let steps: nat = if to >= from {
        (to - from) as nat
    } else {
        (count - from + to) as nat
    };
    lemma_after_steps(from, count, steps);
    assert(after_steps(from, count, steps) == to);
}

proof fn lemma_after_steps(from: int, count: int, steps: nat)
    requires
        0 <= from < count,
        steps < count,
    ensures
        after_steps(from, count, steps) == if from + steps < count {
            from + steps
        } else {
            from + steps - count
        },
    decreases steps,
{
    if steps > 0 {
        lemma_after_steps(from, count, (steps - 1) as nat);
    }
}

/// The panes' state of an arena: which pane is the active one, and which one is
/// shown alone.
#[derive(Clone, Copy, Debug, PartialEq, Eq, Structural)]
pub struct PaneFocus {
    pub active_pane: u64,
    pub zoomed_pane: Option<u64>,
}

/// How a pane is split: with a new terminal where the old one is, with a new
/// terminal, or with what it shows.
#[derive(Clone, Copy, Debug, PartialEq, Eq, Structural)]
pub enum SplitMode {
    ClonePane,
    EmptyPane,
    MovePane,
}

/// What happened to a pane.
#[derive(Debug)]
pub enum PaneEvent {
    /// The pane is taken out; with what should get the focus, the number of
    /// panes before, and the panes after.
    Remove { focus_on_pane: Option<u64>, count_before: usize, panes_after: Vec<u64> },
    ZoomIn { has_focus: bool },
    ZoomOut,
    AddItem,
    Split { direction: SplitDirection, mode: SplitMode },
    /// An item is shown; with the process of its shell, where it is a terminal.
    ActivateItem { shell_pid: Option<u32> },
    Focus,
    Other,
}

/// What is to be done about what happened to a pane.
#[derive(Clone, Copy, Debug, PartialEq, Eq, Structural)]
pub enum PaneAction {
    Nothing,
    FocusPane(u64),
    SetZoomed(bool),
    AnnounceItem,
    SplitWithTerminal { direction: SplitDirection, clone: bool },
    SplitWithActiveItem { direction: SplitDirection },
    TerminalActivated { shell_pid: u32 },
    RememberActivePane,
}

/// Which pane gets the focus after one was taken out.
pub open spec fn focus_after_removal(
    focus_on_pane: Option<u64>,
    count_before: int,
    panes_after: Seq<u64>,
) -> Option<u64> {
    if count_before <= 1 {
        None
    } else if focus_on_pane is Some {
        focus_on_pane
    } else if panes_after.len() > 0 {
        Some(panes_after.last())
    } else {
        None
    }
}

/// What is done about what happened to a pane.
pub open spec fn pane_action(focus: PaneFocus, pane: u64, event: PaneEvent) -> PaneAction {
    match event {
        PaneEvent::Remove { focus_on_pane, count_before, panes_after } => {
            match focus_after_removal(focus_on_pane, count_before as int, panes_after@) {
                Some(pane) => PaneAction::FocusPane(pane),
                None => PaneAction::Nothing,
            }
        },
        PaneEvent::ZoomIn { has_focus } => if pane == focus.active_pane {
            PaneAction::SetZoomed(true)
        } else {
            PaneAction::Nothing
        },
        PaneEvent::ZoomOut => PaneAction::SetZoomed(false),
        PaneEvent::AddItem => PaneAction::AnnounceItem,
        PaneEvent::Split { direction, mode } => match mode {
            SplitMode::ClonePane => PaneAction::SplitWithTerminal { direction, clone: true },
            SplitMode::EmptyPane => PaneAction::SplitWithTerminal { direction, clone: false },
            SplitMode::MovePane => PaneAction::SplitWithActiveItem { direction },
        },
        PaneEvent::ActivateItem { shell_pid } => match shell_pid {
            Some(shell_pid) => PaneAction::TerminalActivated { shell_pid },
            None => PaneAction::Nothing,
        },
        PaneEvent::Focus => PaneAction::RememberActivePane,
        PaneEvent::Other => PaneAction::Nothing,
    }
}

/// The panes' state after something happened to a pane.
pub open spec fn focus_after(focus: PaneFocus, pane: u64, event: PaneEvent) -> PaneFocus {
    match event {
        PaneEvent::ZoomIn { has_focus } if pane == focus.active_pane && has_focus => PaneFocus {
            active_pane: focus.active_pane,
            zoomed_pane: Some(pane),
        },
        PaneEvent::ZoomOut => PaneFocus { active_pane: focus.active_pane, zoomed_pane: None },
        PaneEvent::Focus => PaneFocus { active_pane: pane, zoomed_pane: focus.zoomed_pane },
        _ => focus,
    }
}

impl PaneFocus {
    /// Takes note of what happened to a pane, and says what is to be done.
    pub fn handle_pane_event(&mut self, pane: u64, event: &PaneEvent) -> (action: PaneAction)
        ensures
            *final(self) == focus_after(*old(self), pane, *event),
            action == pane_action(*old(self), pane, *event),
    {
        match event {
            PaneEvent::Remove { focus_on_pane, count_before, panes_after } => {
                if *count_before <= 1 {
                    PaneAction::Nothing
                } else if let Some(focus_pane) = focus_on_pane {
                    PaneAction::FocusPane(*focus_pane)
                } else if panes_after.len() > 0 {
                    PaneAction::FocusPane(panes_after[panes_after.len() - 1])
                } else {
                    PaneAction::Nothing
                }
            },
            PaneEvent::ZoomIn { has_focus } => {
                if pane == self.active_pane {
                    if *has_focus {
                        self.zoomed_pane = Some(pane);
                    }
                    PaneAction::SetZoomed(true)
                } else {
                    PaneAction::Nothing
                }
            },
            PaneEvent::ZoomOut => {
                self.zoomed_pane = None;
                PaneAction::SetZoomed(false)
            },
            PaneEvent::AddItem => PaneAction::AnnounceItem,
            PaneEvent::Split { direction, mode } => match mode {
                SplitMode::ClonePane => PaneAction::SplitWithTerminal {
                    direction: *direction,
                    clone: true,
                },
                SplitMode::EmptyPane => PaneAction::SplitWithTerminal {
                    direction: *direction,
                    clone: false,
                },
                SplitMode::MovePane => PaneAction::SplitWithActiveItem { direction: *direction },
            },
            PaneEvent::ActivateItem { shell_pid } => match shell_pid {
                Some(shell_pid) => PaneAction::TerminalActivated { shell_pid: *shell_pid },
                None => PaneAction::Nothing,
            },
            PaneEvent::Focus => {
                self.active_pane = pane;
                PaneAction::RememberActivePane
            },
            PaneEvent::Other => PaneAction::Nothing,
        }
    }
}

/// Only the focus moves the active pane, and the pane shown alone is one that
/// was active when it was zoomed.
pub proof fn law_only_focus_moves_the_active_pane(focus: PaneFocus, pane: u64, event: PaneEvent)
    ensures
        event is Focus ==> focus_after(focus, pane, event).active_pane == pane,
        !(event is Focus) ==> focus_after(focus, pane, event).active_pane == focus.active_pane,
        focus_after(focus, pane, event).zoomed_pane != focus.zoomed_pane ==> focus_after(
            focus,
            pane,
            event,
        ).zoomed_pane is None || focus_after(focus, pane, event).zoomed_pane == Some(
            focus.active_pane,
        ),
{
}

/// Where a terminal runs, and what runs in it: a program with its arguments, or
/// the shell.
#[derive(Debug)]
pub struct TerminalPlan {
    pub program: Option<String>,
    pub args: Vec<String>,
    pub title: Option<String>,
}

/// What a [`TerminalPlan`] stands for.
#[verifier::ext_equal]
pub struct TerminalModel {
    pub program: Option<Seq<char>>,
    pub args: Seq<Seq<char>>,
    pub title: Option<Seq<char>>,
}

impl View for TerminalPlan {
    type V = TerminalModel;

    open spec fn view(&self) -> TerminalModel {
        TerminalModel {
            program: text_model(self.program),
            args: string_models(self.args@),
            title: text_model(self.title),
        }
    }
}

/// What is put in a pane.
#[derive(Debug)]
pub enum PaneItem {
    Terminal(TerminalPlan),
    Diff,
    BranchDiff,
    GitStatus,
    ProjectSearch { filter: Option<String> },
    FileBrowser,
    GitGraph,
}

/// What a [`PaneItem`] stands for.
pub enum PaneItemModel {
    Terminal(TerminalModel),
    Diff,
    BranchDiff,
    GitStatus,
    ProjectSearch { filter: Option<Seq<char>> },
    FileBrowser,
    GitGraph,
}

impl View for PaneItem {
    type V = PaneItemModel;

    open spec fn view(&self) -> PaneItemModel {
        match self {
            PaneItem::Terminal(plan) => PaneItemModel::Terminal(plan@),
            PaneItem::Diff => PaneItemModel::Diff,
            PaneItem::BranchDiff => PaneItemModel::BranchDiff,
            PaneItem::GitStatus => PaneItemModel::GitStatus,
            PaneItem::ProjectSearch { filter } => PaneItemModel::ProjectSearch {
                filter: text_model(*filter),
            },
            PaneItem::FileBrowser => PaneItemModel::FileBrowser,
            PaneItem::GitGraph => PaneItemModel::GitGraph,
        }
    }
}

/// The terminal for a command line: its first word is the program. Without a
/// command it is the shell's.
pub open spec fn command_terminal(command: Seq<Seq<char>>) -> TerminalModel {
    if command.len() == 0 {
        TerminalModel { program: None, args: seq![], title: None }
    } else {
        TerminalModel { program: Some(command[0]), args: command.skip(1), title: None }
    }
}

pub fn terminal_for_command(command: &Vec<String>) -> (plan: TerminalPlan)
    ensures
        plan@ == command_terminal(string_models(command@)),
{
    let mut args: Vec<String> = Vec::new();
    let ghost words = string_models(command@);
    if command.len() == 0 {
        assert(string_models(args@) =~= seq![]);
        return TerminalPlan { program: None, args, title: None };
    }
    let mut i: usize = 1;
    while i < command.len()
        invariant
            1 <= i <= command@.len(),
            words == string_models(command@),
            string_models(args@) =~= words.subrange(1, i as int),
        decreases command@.len() - i,
    {
        let ghost before = string_models(args@);
        args.push(command[i].clone());
        assert(string_models(args@) =~= before.push(words[i as int]));
        i += 1;
    }
    assert(string_models(args@) =~= words.skip(1));
    TerminalPlan { program: Some(command[0].clone()), args, title: None }
}

/// The terminal of a new session of an agent.
pub open spec fn session_terminal(program: Seq<char>, title: Seq<char>) -> TerminalModel {
    TerminalModel { program: Some(program), args: seq![], title: Some(title) }
}

pub fn terminal_for_session(program: &str, title: &str) -> (plan: TerminalPlan)
    ensures
        plan@ == session_terminal(program@, title@),
{
    let plan = TerminalPlan {
        program: Some(program.to_string()),
        args: Vec::new(),
        title: Some(title.to_string()),
    };
    assert(plan@.args =~= seq![]);
    plan
}

/// The terminal of a session of an agent that goes on from another one.
pub open spec fn fork_terminal(program: Seq<char>, session_id: Seq<char>) -> TerminalModel {
    TerminalModel {
        program: Some(program),
        args: seq!["--resume"@, session_id, "--fork-session"@],
        title: None,
    }
}

pub fn terminal_for_fork(program: &str, session_id: &str) -> (plan: TerminalPlan)
    ensures
        plan@ == fork_terminal(program@, session_id@),
{
    let mut args: Vec<String> = Vec::new();
    args.push("--resume".to_string());
    args.push(session_id.to_string());
    args.push("--fork-session".to_string());
    let plan = TerminalPlan { program: Some(program.to_string()), args, title: None };
    assert(plan@.args =~= seq!["--resume"@, session_id@, "--fork-session"@]);
    plan
}

/// Where a terminal that a pane is split with starts: where the active one is,
/// where that is to be copied.
pub fn split_working_directory(clone: bool, active: Option<String>) -> (directory: Option<String>)
    ensures
        text_model(directory) == if clone {
            text_model(active)
        } else {
            None
        },
{
    if clone {
        active
    } else {
        None
    }
}

/// What a search in the project is restricted to: the directory of the arena,
/// where the project has others.
pub open spec fn search_filter_of(
    working_directory: Option<Seq<char>>,
    visible_worktrees: nat,
) -> Option<Seq<char>> {
    if visible_worktrees <= 1 {
        None
    } else {
        match working_directory {
            Some(directory) => match file_name_of(directory) {
                Some(name) => Some(name + "/**"@),
                None => None,
            },
            None => None,
        }
    }
}

pub fn search_filter(working_directory: &Option<String>, visible_worktrees: usize) -> (filter:
    Option<String>)
    ensures
        text_model(filter) == search_filter_of(
            text_model(*working_directory),
            visible_worktrees as nat,
        ),
{
    if visible_worktrees <= 1 {
        return None;
    }
    match working_directory {
        Some(directory) => match file_name(directory.as_str()) {
            Some(name) => {
                let mut chars = chars_of(name.as_str());
                extend_text(&mut chars, "/**");
                Some(text_of(chars.as_slice()))
            },
            None => None,
        },
        None => None,
    }
}

/// What is put in a pane for a kind of content.
pub open spec fn item_of(
    content: PaneContentType,
    command: Seq<Seq<char>>,
    working_directory: Option<Seq<char>>,
    visible_worktrees: nat,
) -> PaneItemModel {
    match content {
        PaneContentType::Terminal => PaneItemModel::Terminal(command_terminal(command)),
        PaneContentType::Diff => PaneItemModel::Diff,
        PaneContentType::BranchDiff => PaneItemModel::BranchDiff,
        PaneContentType::GitStatus => PaneItemModel::GitStatus,
        PaneContentType::ProjectSearch => PaneItemModel::ProjectSearch {
            filter: search_filter_of(working_directory, visible_worktrees),
        },
        PaneContentType::FileBrowser => PaneItemModel::FileBrowser,
        PaneContentType::GitGraph => PaneItemModel::GitGraph,
    }
}

/// What a new tab shows.
pub fn add_tab(
    content: PaneContentType,
    command: &Vec<String>,
    working_directory: &Option<String>,
    visible_worktrees: usize,
) -> (item: PaneItem)
    ensures
        item@ == item_of(
            content,
            string_models(command@),
            text_model(*working_directory),
            visible_worktrees as nat,
        ),
{
    match content {
        PaneContentType::Terminal => PaneItem::Terminal(terminal_for_command(command)),
        PaneContentType::Diff => PaneItem::Diff,
        PaneContentType::BranchDiff => PaneItem::BranchDiff,
        PaneContentType::GitStatus => PaneItem::GitStatus,
        PaneContentType::ProjectSearch => PaneItem::ProjectSearch {
            filter: search_filter(working_directory, visible_worktrees),
        },
        PaneContentType::FileBrowser => PaneItem::FileBrowser,
        PaneContentType::GitGraph => PaneItem::GitGraph,
    }
}

/// What a new pane beside the active one shows, on which side it is put, and
/// whether it gets the focus.
#[derive(Debug)]
pub struct SplitPlan {
    pub item: PaneItem,
    pub direction: SplitDirection,
    pub focus_new_pane: bool,
}

/// How the active pane is split.
pub fn split_active_pane(
    direction: SplitDirection,
    content: PaneContentType,
    keep_focus: bool,
    command: &Vec<String>,
    working_directory: &Option<String>,
    visible_worktrees: usize,
) -> (plan: SplitPlan)
    ensures
        plan.item@ == item_of(
            content,
            string_models(command@),
            text_model(*working_directory),
            visible_worktrees as nat,
        ),
        plan.direction == direction,
        plan.focus_new_pane == !keep_focus,
{
    let item = add_tab(content, command, working_directory, visible_worktrees);
    SplitPlan { item, direction, focus_new_pane: !keep_focus }
}

/// The first worktree from `from` on that an arena works in.
pub open spec fn worktree_at(worktrees: Seq<WorktreeInfo>, path: Seq<char>, from: int) -> Option<int>
    decreases worktrees.len() - from,
{
    if from < 0 || from >= worktrees.len() {
        None
    } else if components_of(worktrees[from].abs_path@) == components_of(path) {
        Some(from)
    } else {
        worktree_at(worktrees, path, from + 1)
    }
}

/// The worktree that an arena works in.
pub fn worktree_id(working_directory: &Option<String>, worktrees: &Vec<WorktreeInfo>) -> (found:
    Option<usize>)
    ensures
        int_index(found) == match *working_directory {
            Some(directory) => worktree_at(worktrees@, directory@, 0),
            None => None,
        },
{
    let directory = match working_directory {
        Some(directory) => directory,
        None => {
            return None;
        },
    };
    let mut i: usize = 0;
    while i < worktrees.len()
        invariant
            i <= worktrees@.len(),
            *working_directory == Some(*directory),
            worktree_at(worktrees@, directory@, 0) == worktree_at(
                worktrees@,
                directory@,
                i as int,
            ),
        decreases worktrees@.len() - i,
    {
        if same_path(worktrees[i].abs_path.as_str(), directory.as_str()) {
            return Some(i);
        }
        i += 1;
    }
    None
}

/// What toggling the file finder does.
#[derive(Clone, Copy, Debug, PartialEq, Eq, Structural)]
pub enum FinderAction {
    Hide,
    OpenIn(usize),
    Open,
}

pub fn toggle_file_finder(is_open: bool, worktree: Option<usize>) -> (action: FinderAction)
    ensures
        action == if is_open {
            FinderAction::Hide
        } else {
            match worktree {
                Some(worktree) => FinderAction::OpenIn(worktree),
                None => FinderAction::Open,
            }
        },
{
    if is_open {
        FinderAction::Hide
    } else {
        match worktree {
            Some(worktree) => FinderAction::OpenIn(worktree),
            None => FinderAction::Open,
        }
    }
}

/// Where a preview is opened.
#[derive(Clone, Copy, Debug, PartialEq, Eq, Structural)]
pub enum PreviewTarget {
    Pane(u64),
    NewPaneOnTheRight,
}

/// Where the preview of what the active pane edits is opened, if it is Markdown:
/// there, or in the pane to the right of it.
pub fn preview_target(
    active_pane: u64,
    edits_markdown: bool,
    side: bool,
    right_pane: Option<u64>,
) -> (target: Option<PreviewTarget>)
    ensures
        target == if !edits_markdown {
            None
        } else if !side {
            Some(PreviewTarget::Pane(active_pane))
        } else {
            match right_pane {
                Some(pane) => Some(PreviewTarget::Pane(pane)),
                None => Some(PreviewTarget::NewPaneOnTheRight),
            }
        },
{
    if !edits_markdown {
        None
    } else if !side {
        Some(PreviewTarget::Pane(active_pane))
    } else {
        match right_pane {
            Some(pane) => Some(PreviewTarget::Pane(pane)),
            None => Some(PreviewTarget::NewPaneOnTheRight),
        }
    }
}

/// How a preview is opened: one that is there is shown again.
#[derive(Clone, Copy, Debug, PartialEq, Eq, Structural)]
pub enum PreviewAction {
    Show(usize),
    Add { focus_preview: bool, focus_editor: bool },
}

pub fn open_markdown_preview(side: bool, existing: Option<usize>) -> (action: PreviewAction)
    ensures
        action == match existing {
            Some(index) => PreviewAction::Show(index),
            None => PreviewAction::Add { focus_preview: !side, focus_editor: side },
        },
{
    match existing {
        Some(index) => PreviewAction::Show(index),
        None => PreviewAction::Add { focus_preview: !side, focus_editor: side },
    }
}

/// Whether the shell of a terminal waits for its user.
pub open spec fn is_ready_of(shell_pid: Option<u32>, ready: Set<u32>) -> bool {
    match shell_pid {
        Some(pid) => ready.contains(pid),
        None => false,
    }
}

/// Whether a tab is marked as ready, which stands before other marks.
pub fn is_ready(shell_pid: Option<u32>, ready_shell_pids: &HashSet<u32>) -> (ready: bool)
    ensures
        ready == is_ready_of(shell_pid, ready_shell_pids@),
{
    match shell_pid {
        Some(pid) => ready_shell_pids.contains(&pid),
        None => false,
    }
}

impl PaneFocus {
    /// Whether a pane gets a border: the active one, where its shell is ready.
    pub fn decorate(&self, pane: u64, shell_pid: Option<u32>, ready_shell_pids: &HashSet<u32>) -> (
    bordered: bool)
        ensures
            bordered == (pane == self.active_pane && is_ready_of(shell_pid, ready_shell_pids@)),
    {
        pane == self.active_pane && is_ready(shell_pid, ready_shell_pids)
    }
}

/// The session that can be forked from a tab: that of its shell.
pub fn fork_session(shell_pid: Option<u32>, pid_to_session_id: &HashMap<u32, String>) -> (session:
    Option<String>)
    ensures
        text_model(session) == match shell_pid {
            Some(pid) => if pid_to_session_id@.contains_key(pid) {
                Some(pid_to_session_id@[pid]@)
            } else {
                None
            },
            None => None,
        },
{
    match shell_pid {
        Some(pid) => match pid_to_session_id.get(&pid) {
            Some(session_id) => Some(session_id.clone()),
            None => None,
        },
        None => None,
    }
}

/// A tab that is dragged: its pane, its place there, and how many tabs that pane
/// has.
#[derive(Clone, Copy, Debug, PartialEq, Eq, Structural)]
pub struct DraggedTab {
    pub pane: u64,
    pub ix: usize,
    pub items_len: usize,
}

/// Whether a tab may be dragged onto the edge of a pane: not the only tab of the
/// only pane.
pub open spec fn can_split_of(panes: Seq<u64>, pane: u64, tab: DraggedTab) -> bool {
    &&& tab.ix < tab.items_len
    &&& !panes.contains(tab.pane) || panes.len() > 1 || tab.pane != pane || tab.items_len > 1
}

pub fn can_split(panes: &Vec<u64>, pane: u64, tab: DraggedTab) -> (splits: bool)
    ensures
        splits == can_split_of(panes@, pane, tab),
{
    if tab.ix >= tab.items_len {
        return false;
    }
    panes.len() > 1 || tab.pane != pane || tab.items_len > 1 || position(panes, tab.pane).is_none()
}

/// A tab dragged within its own pane can split it where something stays behind,
/// in that pane or in another.
pub proof fn law_split_leaves_something(panes: Seq<u64>, tab: DraggedTab)
    requires
        panes.contains(tab.pane),
        can_split_of(panes, tab.pane, tab),
    ensures
        tab.items_len > 1 || panes.len() > 1,
{
}

/// What was dropped on a pane.
#[derive(Clone, Copy, Debug, PartialEq, Eq, Structural)]
pub enum Dropped {
    Tab(DraggedTab),
    Paths,
    Other,
}

/// What is done with what was dropped on a pane.
#[derive(Clone, Copy, Debug, PartialEq, Eq, Structural)]
pub enum DropAction {
    /// The pane goes on as it does by itself.
    Continue,
    Ignore,
    SplitWithTab(SplitDirection),
    PastePaths,
}

/// What is done with what was dropped on a pane, where the project is still
/// there. A tab is put in a new pane where it was dropped on an edge.
pub fn drop_action(
    has_project: bool,
    dropped: Dropped,
    split_direction: Option<SplitDirection>,
) -> (action: DropAction)
    ensures
        action == if !has_project {
            DropAction::Ignore
        } else {
            match dropped {
                Dropped::Tab(tab) => if tab.ix >= tab.items_len {
                    DropAction::Ignore
                } else {
                    match split_direction {
                        Some(direction) => DropAction::SplitWithTab(direction),
                        None => DropAction::Continue,
                    }
                },
                Dropped::Paths => DropAction::PastePaths,
                Dropped::Other => DropAction::Continue,
            }
        },
{
    if !has_project {
        return DropAction::Ignore;
    }
    match dropped {
        Dropped::Tab(tab) => {
            if tab.ix >= tab.items_len {
                DropAction::Ignore
            } else {
                match split_direction {
                    Some(direction) => DropAction::SplitWithTab(direction),
                    None => DropAction::Continue,
                }
            }
        },
        Dropped::Paths => DropAction::PastePaths,
        Dropped::Other => DropAction::Continue,
    }
}

/// How `Debug` writes a path: in quotes, with escapes.
pub uninterp spec fn quoted_path(path: Seq<char>) -> Seq<char>;

/// `Debug` of `std::path::Path`, through `format!`. The result depends on the
/// path alone; which characters it escapes is left unsaid.
#[verifier::external_body]
fn path_debug(path: &str) -> (debug: String)
    ensures
        debug@ == quoted_path(path@),
{
    format!("{:?}", std::path::Path::new(path))
}

/// The first `n` paths as they are pasted, each after a space.
pub open spec fn pasted_before(paths: Seq<Seq<char>>, n: int) -> Seq<char>
    decreases n,
{
    if n <= 0 {
        seq![]
    } else {
        pasted_before(paths, n - 1) + seq![' '] + paths[n - 1]
    }
}

/// What is pasted for paths as they are written: each after a space, and a space
/// at the end.
pub open spec fn pasted(paths: Seq<Seq<char>>) -> Seq<char> {
    pasted_before(paths, paths.len() as int) + seq![' ']
}

pub fn pasted_text(written: &Vec<String>) -> (text: String)
    ensures
        text@ == pasted(string_models(written@)),
{
    let mut chars: Vec<char> = Vec::new();
    let ghost paths = string_models(written@);
    assert(chars@ =~= seq![]);
    let mut i: usize = 0;
    while i < written.len()
        invariant
            i <= written@.len(),
            paths == string_models(written@),
            chars@ == pasted_before(paths, i as int),
        decreases written@.len() - i,
    {
        let ghost before = chars@;
        chars.push(' ');
        extend_text(&mut chars, written[i].as_str());
        assert(chars@ =~= before + seq![' '] + paths[i as int]);
        i += 1;
    }
    chars.push(' ');
    assert(chars@ =~= pasted(paths));
    text_of(chars.as_slice())
}

/// The paths as `Debug` writes them.
pub open spec fn quoted_paths(paths: Seq<String>) -> Seq<Seq<char>> {
    Seq::new(paths.len(), |i: int| quoted_path(paths[i]@))
}

/// What is pasted into a terminal when paths are dropped on it.
pub fn add_paths_to_terminal(paths: &Vec<String>) -> (text: String)
    ensures
        text@ == pasted(quoted_paths(paths@)),
{
    let mut written: Vec<String> = Vec::new();
    let ghost wanted = quoted_paths(paths@);
    let mut i: usize = 0;
    while i < paths.len()
        invariant
            i <= paths@.len(),
            wanted == quoted_paths(paths@),
            string_models(written@) =~= wanted.take(i as int),
        decreases paths@.len() - i,
    {
        let ghost before = string_models(written@);
        let debug = path_debug(paths[i].as_str());
        let ghost view = debug@;
        written.push(debug);
        assert(string_models(written@) =~= before.push(view));
        i += 1;
    }
    assert(string_models(written@) =~= wanted);
    pasted_text(&written)
}

/// What the button for zooming a pane does.
pub fn zoom_tooltip(zoomed: bool) -> (text: String)
    ensures
        text@ == if zoomed {
            "Zoom Out"@
        } else {
            "Zoom In"@
        },
{
    if zoomed {
        "Zoom Out".to_string()
    } else {
        "Zoom In".to_string()
    }
}

/// The next pane is the one behind, and behind the last comes the first; the
/// previous one is the one before, and before the first comes the last.
pub proof fn law_order_of_panes(index: int, count: int)
    requires
        0 <= index < count,
    ensures
        index + 1 < count ==> next_of(index, count) == index + 1,
        index + 1 == count ==> next_of(index, count) == 0,
        index > 0 ==> previous_of(index, count) == index - 1,
        index == 0 ==> previous_of(index, count) == count - 1,
{
}

/// A pane is found where it first stands.
pub proof fn law_panes_are_found(panes: Seq<u64>, index: int, from: int)
    requires
        0 <= from <= index < panes.len(),
        forall|k: int| from <= k < index ==> #[trigger] panes[k] != panes[index],
    ensures
        pane_from(panes, from, panes[index]) == Some(index),
    decreases index - from,
{
    if from < index {
        assert(panes[from] != panes[index]);
        law_panes_are_found(panes, index, from + 1);
    }
}

/// After a pane was taken out the focus goes where it should, else to the last pane
/// that is left. Where there was one pane only, it goes nowhere.
pub proof fn law_focus_after_removal(
    focus: PaneFocus,
    pane: u64,
    focus_on_pane: Option<u64>,
    count_before: usize,
    panes_after: Vec<u64>,
)
    ensures
        ({
            let event = PaneEvent::Remove { focus_on_pane, count_before, panes_after };
            let action = pane_action(focus, pane, event);
            &&& focus_after(focus, pane, event) == focus
            &&& count_before <= 1 ==> action is Nothing
            &&& count_before > 1 && focus_on_pane is Some ==> action == PaneAction::FocusPane(
                focus_on_pane->0,
            )
            &&& count_before > 1 && focus_on_pane is None && panes_after@.len() > 0 ==> action
                == PaneAction::FocusPane(panes_after@[panes_after@.len() - 1])
            &&& count_before > 1 && focus_on_pane is None && panes_after@.len() == 0 ==> action
                is Nothing
        }),
{
}

/// The active pane is shown alone when it zooms in with the focus, and no pane once
/// one zooms out. Another pane cannot zoom in.
pub proof fn law_zoom(focus: PaneFocus, pane: u64, has_focus: bool)
    ensures
        ({
            let zoom = PaneEvent::ZoomIn { has_focus };
            let after = focus_after(focus, pane, zoom);
            &&& pane == focus.active_pane ==> pane_action(focus, pane, zoom)
                == PaneAction::SetZoomed(true)
            &&& pane != focus.active_pane ==> pane_action(focus, pane, zoom) is Nothing && after
                == focus
            &&& pane == focus.active_pane && has_focus ==> after.zoomed_pane == Some(pane)
            &&& pane == focus.active_pane && !has_focus ==> after.zoomed_pane == focus.zoomed_pane
            &&& focus_after(focus, pane, PaneEvent::ZoomOut).zoomed_pane is None
            &&& pane_action(focus, pane, PaneEvent::ZoomOut) == PaneAction::SetZoomed(false)
            &&& focus_after(focus, pane, PaneEvent::Focus).active_pane == pane
            &&& focus_after(focus, pane, PaneEvent::Focus).zoomed_pane == focus.zoomed_pane
            &&& pane_action(focus, pane, PaneEvent::Focus) is RememberActivePane
        }),
{
}

/// A pane that is split goes on with a terminal, one like the active one where it is
/// cloned, or with the item that is moved. The side stays.
pub proof fn law_splits(focus: PaneFocus, pane: u64, direction: SplitDirection, pid: u32)
    ensures
        pane_action(
            focus,
            pane,
            PaneEvent::Split { direction, mode: SplitMode::ClonePane },
        ) == (PaneAction::SplitWithTerminal { direction, clone: true }),
        pane_action(
            focus,
            pane,
            PaneEvent::Split { direction, mode: SplitMode::EmptyPane },
        ) == (PaneAction::SplitWithTerminal { direction, clone: false }),
        pane_action(
            focus,
            pane,
            PaneEvent::Split { direction, mode: SplitMode::MovePane },
        ) == (PaneAction::SplitWithActiveItem { direction }),
        pane_action(focus, pane, PaneEvent::ActivateItem { shell_pid: Some(pid) }) == (
        PaneAction::TerminalActivated { shell_pid: pid }),
        pane_action(focus, pane, PaneEvent::ActivateItem { shell_pid: None }) is Nothing,
        pane_action(focus, pane, PaneEvent::AddItem) is AnnounceItem,
{
}

/// A terminal for a command runs its first word with the others as arguments; one
/// for no command runs nothing of its own.
pub proof fn law_terminal_runs_its_command(command: Seq<Seq<char>>)
    ensures
        ({
            let terminal = command_terminal(command);
            &&& command.len() > 0 ==> terminal.program is Some && seq![terminal.program->0]
                + terminal.args == command
            &&& command.len() == 0 ==> terminal.program is None && terminal.args.len() == 0
            &&& terminal.title is None
        }),
{
    if command.len() > 0 {
        assert(seq![command[0]] + command.skip(1) =~= command);
    }
}

/// A session goes on from another one under its identifier, as a fork.
pub proof fn law_forks(program: Seq<char>, session_id: Seq<char>)
    ensures
        fork_terminal(program, session_id).program == Some(program),
        fork_terminal(program, session_id).args.len() == 3,
        fork_terminal(program, session_id).args[0] == "--resume"@,
        fork_terminal(program, session_id).args[1] == session_id,
        fork_terminal(program, session_id).args[2] == "--fork-session"@,
{
}

/// A search is restricted to the directory of the arena exactly where the project
/// has other worktrees.
pub proof fn law_search_is_restricted(directory: Seq<char>, visible_worktrees: nat)
    requires
        file_name_of(directory) is Some,
    ensures
        visible_worktrees <= 1 ==> search_filter_of(Some(directory), visible_worktrees) is None,
        visible_worktrees > 1 ==> search_filter_of(Some(directory), visible_worktrees) == Some(
            file_name_of(directory)->0 + "/**"@,
        ),
        search_filter_of(None, visible_worktrees) is None,
{
}

/// Each kind of content has an item of its own.
pub proof fn law_items(command: Seq<Seq<char>>, directory: Option<Seq<char>>, worktrees: nat)
    ensures
        item_of(PaneContentType::Terminal, command, directory, worktrees) matches PaneItemModel::Terminal(
            terminal,
        ) && (command.len() > 0 ==> terminal.program == Some(command[0])),
        item_of(PaneContentType::Diff, command, directory, worktrees) is Diff,
        item_of(PaneContentType::BranchDiff, command, directory, worktrees) is BranchDiff,
        item_of(PaneContentType::GitStatus, command, directory, worktrees) is GitStatus,
        item_of(PaneContentType::ProjectSearch, command, directory, worktrees) is ProjectSearch,
        item_of(PaneContentType::FileBrowser, command, directory, worktrees) is FileBrowser,
        item_of(PaneContentType::GitGraph, command, directory, worktrees) is GitGraph,
{
}

/// An arena works in the first worktree with its path.
pub proof fn law_worktree_of_an_arena(
    worktrees: Seq<WorktreeInfo>,
    path: Seq<char>,
    index: int,
    from: int,
)
    requires
        0 <= from <= index < worktrees.len(),
        components_of(worktrees[index].abs_path@) == components_of(path),
        forall|k: int|
            from <= k < index ==> components_of((#[trigger] worktrees[k]).abs_path@)
                != components_of(path),
    ensures
        worktree_at(worktrees, path, from) == Some(index),
    decreases index - from,
{
    if from < index {
        assert(components_of(worktrees[from].abs_path@) != components_of(path));
        law_worktree_of_an_arena(worktrees, path, index, from + 1);
    }
}

/// A tab can be dragged into a new pane unless it is the only one of the only pane.
pub proof fn law_dragged_tabs(panes: Seq<u64>, pane: u64, tab: DraggedTab)
    requires
        tab.ix < tab.items_len,
    ensures
        tab.items_len > 1 ==> can_split_of(panes, pane, tab),
        panes.len() > 1 ==> can_split_of(panes, pane, tab),
        tab.pane != pane ==> can_split_of(panes, pane, tab),
        panes == seq![pane] && tab.pane == pane && tab.items_len == 1 ==> !can_split_of(
            panes,
            pane,
            tab,
        ),
{
    if panes == seq![pane] {
        assert(panes[0] == pane);
        assert(panes.contains(pane));
    }
}

/// Paths are pasted one behind the other, with a blank before and behind each.
pub proof fn law_pasted_paths(paths: Seq<Seq<char>>, path: Seq<char>)
    ensures
        pasted(Seq::<Seq<char>>::empty()) == seq![' '],
        pasted(paths.push(path)) == pasted(paths) + path + seq![' '],
{
    lemma_pasted_prefix(paths, paths.push(path), paths.len() as int);
    assert(pasted_before(paths.push(path), (paths.len() + 1) as int) =~= pasted_before(
        paths,
        paths.len() as int,
    ) + seq![' '] + path);
    assert(pasted(Seq::<Seq<char>>::empty()) =~= seq![' ']);
}

proof fn lemma_pasted_prefix(a: Seq<Seq<char>>, b: Seq<Seq<char>>, n: int)
    requires
        0 <= n <= a.len(),
        n <= b.len(),
        forall|i: int| 0 <= i < n ==> #[trigger] a[i] == b[i],
    ensures
        pasted_before(a, n) == pasted_before(b, n),
    decreases n,
{
    if n > 0 {
        lemma_pasted_prefix(a, b, n - 1);
        assert(a[n - 1] == b[n - 1]);
    }
}

} // verus!
