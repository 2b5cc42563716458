//! The application: its arenas, its sessions, and what is known of the pull
//! requests of the arenas. Times are nanoseconds of a clock that never goes
//! back.

use vstd::prelude::*;

use crate::arenas::{
    arena_name, effective_path, effective_path_of, is_arena, resolve_arena_name, Arenas,
    WorktreeInfo,
};
use crate::ipc::{
    hook_sent, ClaudeHookEvent, IpcMessage, MessageModel, PaneContentType, SplitDirection,
};
use crate::json::Json;
use crate::panes::{add_tab, item_of, split_active_pane, PaneItem, SplitPlan};
use crate::polling::{asks_at_once, fetches_of, starts_of, Fetches, Polling, RepoInfo, Starts};
use crate::sessions::{
    after_key_input, after_tool_use, session_after, ClaudeSessionState, ClaudeSessions,
    SessionEvent, SessionModel, TerminalRef,
};
use crate::sidebar::{
    arena_row, git_info, has_countable_repos, is_row, tells_of, ArenaRow, GitInfo,
};
use crate::text::{string_models, text_model};

verus! {

broadcast use vstd::std_specs::hash::group_hash_axioms;

/// When the rate limits are reset, in seconds, and when that was heard.
#[derive(Clone, Copy, Debug, PartialEq, Eq, Structural)]
pub struct RateLimits {
    pub five_hour_resets_at: i64,
    pub seven_day_resets_at: i64,
    pub received_at: u64,
}

pub struct AgentiumApp {
    pub claude_sessions: ClaudeSessions,
    pub arenas: Arenas,
    pub polling: Polling,
    pub rate_limits: Option<RateLimits>,
}

/// What a message asks of the rest of the application.
#[derive(Debug)]
pub enum AppAction {
    /// What is shown is to be drawn anew, if anything has changed.
    Refresh(bool),
    /// An arena is to be added for a directory, and the window brought to the
    /// front.
    AddArena(String),
    SplitPane {
        direction: SplitDirection,
        content_type: PaneContentType,
        keep_focus: bool,
        command: Vec<String>,
    },
    NewTab { content_type: PaneContentType, command: Vec<String> },
    ChangeTheme(String),
}

/// What happens to a session when a message comes.
pub open spec fn session_event(message: MessageModel) -> Option<
    (Seq<char>, Seq<u32>, SessionEvent),
> {
    match message {
        MessageModel::ClaudeSessionStart { session_id, ancestor_pids } => Some(
            (session_id, ancestor_pids, SessionEvent::Start),
        ),
        MessageModel::ClaudeStop { session_id, ancestor_pids, title } => Some(
            (
                session_id,
                ancestor_pids,
                SessionEvent::Stop {
                    title: if title.len() == 0 {
                        None
                    } else {
                        Some(title)
                    },
                },
            ),
        ),
        MessageModel::ClaudeNotification { session_id, ancestor_pids, title } => Some(
            (session_id, ancestor_pids, SessionEvent::Notification { message: title }),
        ),
        MessageModel::ClaudeUserPromptSubmit { session_id, ancestor_pids, prompt } => Some(
            (session_id, ancestor_pids, SessionEvent::Prompt { prompt }),
        ),
        MessageModel::ClaudePermissionRequest { session_id, ancestor_pids } => Some(
            (session_id, ancestor_pids, SessionEvent::PermissionRequest),
        ),
        _ => None,
    }
}

/// The sessions after a message.
pub open spec fn sessions_after(
    sessions: Map<Seq<char>, SessionModel>,
    message: MessageModel,
) -> Map<Seq<char>, SessionModel> {
    match message {
        MessageModel::ClaudePostToolUse { session_id, ancestor_pids } => after_tool_use(
            sessions,
            session_id,
            ancestor_pids,
        ),
        _ => match session_event(message) {
            Some((id, pids, event)) => sessions.insert(
                id,
                session_after(sessions, id, pids, event),
            ),
            None => sessions,
        },
    }
}

/// Whether an action is the one that a message asks for.
pub open spec fn is_action_for(
    sessions: Map<Seq<char>, SessionModel>,
    message: MessageModel,
    action: AppAction,
) -> bool {
    match message {
        MessageModel::WorkspacePath(path) => action matches AppAction::AddArena(wanted)
            && wanted@ == path,
        MessageModel::PaneSplit {
            direction,
            content_type,
            keep_focus,
            command,
        } => action matches AppAction::SplitPane {
            direction: wanted_direction,
            content_type: wanted_content,
            keep_focus: wanted_focus,
            command: wanted_command,
        } && wanted_direction == direction && wanted_content == content_type && wanted_focus
            == keep_focus && string_models(wanted_command@) == command,
        MessageModel::TabNew { content_type, command } => action matches AppAction::NewTab {
            content_type: wanted_content,
            command: wanted_command,
        } && wanted_content == content_type && string_models(wanted_command@) == command,
        MessageModel::ChangeTheme { name } => action matches AppAction::ChangeTheme(wanted)
            && wanted@ == name,
        MessageModel::ClaudePostToolUse { session_id, ancestor_pids } => action
            matches AppAction::Refresh(changed) && changed == (sessions.contains_key(session_id)
            && sessions[session_id].state == ClaudeSessionState::WaitingPermission),
        _ => action matches AppAction::Refresh(changed) && changed,
    }
}

/// Whether an info tells of the repository at a path; without a path there is
/// none.
pub open spec fn tells_of_path(
    repos: Seq<RepoInfo>,
    path: Option<Seq<char>>,
    info: Option<GitInfo>,
) -> bool {
    match path {
        Some(directory) => tells_of(repos, directory, info),
        None => info is None,
    }
}

impl AgentiumApp {
    pub open spec fn well_formed(self) -> bool {
        self.claude_sessions.well_formed() && self.arenas.well_formed()
    }

    /// Whether a row shows the arena at an index: what its repository tells, the
    /// sessions in its terminals, and what is known of its pull request and its
    /// checks.
    pub open spec fn shows_row(
        self,
        index: int,
        worktrees: Seq<WorktreeInfo>,
        repos: Seq<RepoInfo>,
        terminals: Seq<TerminalRef>,
        row: ArenaRow,
    ) -> bool {
        let arena = self.arenas.list@[index];
        let path = effective_path_of(text_model(arena.working_directory), worktrees);
        let prs = self.polling.pr_info@;
        let checks = self.polling.ci_status@;
        exists|git: Option<GitInfo>| #[trigger]
            tells_of_path(repos, path, git) && is_row(
                arena,
                self.arenas.active_arena_index == Some(index as usize),
                self.arenas.renaming_arena == Some(arena.entity),
                path,
                git,
                self.claude_sessions.shared,
                terminals,
                if prs.contains_key(arena.entity) {
                    Some(prs[arena.entity])
                } else {
                    None
                },
                if checks.contains_key(arena.entity) {
                    Some(checks[arena.entity].status)
                } else {
                    None
                },
                row,
            )
    }

    pub fn new() -> (app: Self)
        ensures
            app.well_formed(),
            app.claude_sessions.map() == Map::<Seq<char>, SessionModel>::empty(),
            app.arenas.list@.len() == 0,
            app.arenas.next_arena_id == 0,
            app.arenas.renaming_arena is None,
            app.polling.is_new(),
            app.rate_limits is None,
    {
        AgentiumApp {
            claude_sessions: ClaudeSessions::new(),
            arenas: Arenas::new(),
            polling: Polling::new(),
            rate_limits: None,
        }
    }

    /// Adds an arena for a directory, shows it, and says whether its pull request
    /// is asked for. The arena gets a number that no other one has.
    pub fn add_arena_with_path(
        &mut self,
        entity: u64,
        path: String,
        worktrees: &Vec<WorktreeInfo>,
        repos: &Vec<RepoInfo>,
    ) -> (fetch_pr: bool)
        requires
            old(self).well_formed(),
            old(self).arenas.next_arena_id < usize::MAX,
            forall|k: int| !#[trigger] is_arena(old(self).arenas.list@, k, entity),
        ensures
            final(self).well_formed(),
            final(self).claude_sessions == old(self).claude_sessions,
            final(self).polling == old(self).polling,
            final(self).rate_limits == old(self).rate_limits,
            final(self).arenas.next_arena_id == old(self).arenas.next_arena_id + 1,
            final(self).arenas.renaming_arena == old(self).arenas.renaming_arena,
            final(self).arenas.active_arena_index == Some(old(self).arenas.list@.len() as usize),
            final(self).arenas.list@.len() == old(self).arenas.list@.len() + 1,
            final(self).arenas.list@.drop_last() == old(self).arenas.list@,
            ({
                let arena = final(self).arenas.list@.last();
                let id = old(self).arenas.next_arena_id;
                &&& arena.entity == entity
                &&& arena.id == id
                &&& arena.name@ == arena_name(Some(path@), worktrees@, repos@, id as int)
                &&& text_model(arena.working_directory) == Some(path@)
            }),
            fetch_pr == asks_at_once(old(self).polling),
    {
        let directory = Some(path);
        let name = resolve_arena_name(&directory, worktrees, repos, self.arenas.next_arena_id);
        self.arenas.add_arena_inner(entity, name, directory);
        assert(self.arenas.list@.drop_last() =~= old(self).arenas.list@);
        self.polling.arena_added()
    }

    /// Shows the arena at an index, if there is one, and says what is asked for
    /// then.
    pub fn switch_arena(&mut self, index: usize, now: u64) -> (fetches: Option<Fetches>)
        requires
            old(self).well_formed(),
        ensures
            final(self).well_formed(),
            final(self).claude_sessions == old(self).claude_sessions,
            final(self).polling == old(self).polling,
            final(self).rate_limits == old(self).rate_limits,
            final(self).arenas.list == old(self).arenas.list,
            final(self).arenas.next_arena_id == old(self).arenas.next_arena_id,
            final(self).arenas.renaming_arena == old(self).arenas.renaming_arena,
            if index < old(self).arenas.list@.len() {
                &&& final(self).arenas.active_arena_index == Some(index)
                &&& fetches == Some(
                    fetches_of(
                        old(self).polling,
                        old(self).arenas.list@[index as int].entity,
                        now,
                    ),
                )
            } else {
                final(self).arenas.active_arena_index == old(self).arenas.active_arena_index
                    && fetches is None
            },
    {
        if self.arenas.switch_arena(index) {
            let entity = self.arenas.list[index].entity;
            Some(self.polling.arena_shown(entity, now))
        } else {
            None
        }
    }

    /// What the list of arenas shows of the arena at an index, if there is one.
    pub fn sidebar_row(
        &self,
        index: usize,
        worktrees: &Vec<WorktreeInfo>,
        repos: &Vec<RepoInfo>,
        terminals: &Vec<TerminalRef>,
    ) -> (row: Option<ArenaRow>)
        requires
            index < self.arenas.list@.len() ==> (effective_path_of(
                text_model(self.arenas.list@[index as int].working_directory),
                worktrees@,
            ) matches Some(directory) ==> has_countable_repos(repos@, directory)),
        ensures
            row is Some == (index < self.arenas.list@.len()),
            row matches Some(row) ==> self.shows_row(
                index as int,
                worktrees@,
                repos@,
                terminals@,
                row,
            ),
    {
        if index >= self.arenas.list.len() {
            return None;
        }
        let arena = &self.arenas.list[index];
        let path = effective_path(&arena.working_directory, worktrees);
        let git = match &path {
            Some(directory) => git_info(repos, directory.as_str()),
            None => None,
        };
        let is_active = match self.arenas.active_arena_index {
            Some(active) => active == index,
            None => false,
        };
        let is_renaming = match self.arenas.renaming_arena {
            Some(entity) => entity == arena.entity,
            None => false,
        };
        let pr = self.polling.pr_info.get(&arena.entity);
        let ci = match self.polling.ci_status.get(&arena.entity) {
            Some(ci) => Some(ci.status),
            None => None,
        };
        let ghost told = git;
        let row = arena_row(
            arena,
            is_active,
            is_renaming,
            path,
            git,
            &self.claude_sessions.shared,
            terminals,
            pr,
            ci,
        );
        assert(tells_of_path(
            repos@,
            effective_path_of(text_model(arena.working_directory), worktrees@),
            told,
        ));
        Some(row)
    }

    /// Removes an arena and all that is known of it, and says whether there was
    /// one.
    pub fn remove_arena(&mut self, entity: u64) -> (removed: bool)
        requires
            old(self).well_formed(),
        ensures
            final(self).well_formed(),
            final(self).claude_sessions == old(self).claude_sessions,
            final(self).rate_limits == old(self).rate_limits,
            removed == exists|k: int| is_arena(old(self).arenas.list@, k, entity),
            !removed ==> final(self).arenas == old(self).arenas && final(self).polling == old(
                self
            ).polling,
            removed ==> {
                &&& final(self).polling.has_forgotten(old(self).polling, entity)
                &&& forall|k: int| !#[trigger] is_arena(final(self).arenas.list@, k, entity)
                &&& exists|index: int| #[trigger]
                    is_arena(old(self).arenas.list@, index, entity) && final(self).arenas.is_removal(
                        old(self).arenas,
                        index,
                    )
            },
    {
        let ghost before = self.arenas.list@;
        match self.arenas.remove_arena(entity) {
            Some(index) => {
                self.polling.forget(entity);
                proof {
                    assert(is_arena(before, index as int, entity));
                    let after = self.arenas.list@;
                    assert forall|k: int| !#[trigger] is_arena(after, k, entity) by {
                        if is_arena(after, k, entity) {
                            let k0 = if k < index { k } else { k + 1 };
                            assert(after[k] == before[k0]);
                            if k0 < index {
                                assert(before[k0].entity != before[index as int].entity);
                            } else {
                                assert(before[index as int].entity != before[k0].entity);
                            }
                        }
                    }
                }
                true
            },
            None => false,
        }
    }

    /// The head of a repository has changed: the pull request of the arena that is
    /// shown is forgotten, and asked for again.
    pub fn head_changed(&mut self) -> (fetch_pr: Option<u64>)
        requires
            old(self).well_formed(),
        ensures
            final(self).well_formed(),
            final(self).claude_sessions == old(self).claude_sessions,
            final(self).arenas == old(self).arenas,
            final(self).rate_limits == old(self).rate_limits,
            final(self).polling.has_new_head(
                old(self).polling,
                old(self).arenas.active_entity(),
            ),
            fetch_pr == (if asks_at_once(old(self).polling) {
                old(self).arenas.active_entity()
            } else {
                None
            }),
    {
        let active = match self.arenas.active_arena() {
            Some(arena) => Some(arena.entity),
            None => None,
        };
        self.polling.head_changed(active)
    }

    /// The window came to the front or went away. What is shown is drawn anew in
    /// front, where there are rate limits that may have been reset.
    pub fn window_activation_changed(&mut self, active: bool) -> (done: (Starts, bool))
        ensures
            final(self).claude_sessions == old(self).claude_sessions,
            final(self).arenas == old(self).arenas,
            final(self).rate_limits == old(self).rate_limits,
            final(self).polling.same_knowledge(old(self).polling),
            final(self).polling.gh_available == old(self).polling.gh_available,
            done.0 == starts_of(old(self).polling, active),
            final(self).polling.pr_polling == (active && (old(self).polling.pr_polling
                || done.0.pr)),
            final(self).polling.ci_polling == (active && (old(self).polling.ci_polling
                || done.0.ci)),
            done.1 == (active && old(self).rate_limits is Some),
    {
        let starts = self.polling.window_activation_changed(active);
        (starts, active && self.rate_limits.is_some())
    }

    pub fn register_claude_session(&mut self, session_id: String, ancestor_pids: Vec<u32>)
        requires
            old(self).well_formed(),
        ensures
            final(self).well_formed(),
            final(self).same_but_sessions(*old(self)),
            final(self).claude_sessions.map() == sessions_after(
                old(self).claude_sessions.map(),
                MessageModel::ClaudeSessionStart {
                    session_id: session_id@,
                    ancestor_pids: ancestor_pids@,
                },
            ),
    {
        self.claude_sessions.register_claude_session(session_id, ancestor_pids);
    }

    pub fn mark_claude_session_ready(
        &mut self,
        session_id: &str,
        ancestor_pids: Vec<u32>,
        title: Option<String>,
    )
        requires
            old(self).well_formed(),
        ensures
            final(self).well_formed(),
            final(self).same_but_sessions(*old(self)),
            final(self).claude_sessions.map() == old(self).claude_sessions.map().insert(
                session_id@,
                session_after(
                    old(self).claude_sessions.map(),
                    session_id@,
                    ancestor_pids@,
                    SessionEvent::Stop { title: text_model(title) },
                ),
            ),
    {
        self.claude_sessions.mark_claude_session_ready(session_id, ancestor_pids, title);
    }

    pub fn handle_claude_notification(
        &mut self,
        session_id: &str,
        ancestor_pids: Vec<u32>,
        title: String,
    )
        requires
            old(self).well_formed(),
        ensures
            final(self).well_formed(),
            final(self).same_but_sessions(*old(self)),
            final(self).claude_sessions.map() == sessions_after(
                old(self).claude_sessions.map(),
                MessageModel::ClaudeNotification {
                    session_id: session_id@,
                    ancestor_pids: ancestor_pids@,
                    title: title@,
                },
            ),
    {
        self.claude_sessions.handle_claude_notification(session_id, ancestor_pids, title);
    }

    pub fn set_claude_session_prompt(
        &mut self,
        session_id: &str,
        ancestor_pids: Vec<u32>,
        prompt: String,
    )
        requires
            old(self).well_formed(),
        ensures
            final(self).well_formed(),
            final(self).same_but_sessions(*old(self)),
            final(self).claude_sessions.map() == sessions_after(
                old(self).claude_sessions.map(),
                MessageModel::ClaudeUserPromptSubmit {
                    session_id: session_id@,
                    ancestor_pids: ancestor_pids@,
                    prompt: prompt@,
                },
            ),
    {
        self.claude_sessions.set_claude_session_prompt(session_id, ancestor_pids, prompt);
    }

    pub fn handle_claude_permission_request(&mut self, session_id: &str, ancestor_pids: Vec<u32>)
        requires
            old(self).well_formed(),
        ensures
            final(self).well_formed(),
            final(self).same_but_sessions(*old(self)),
            final(self).claude_sessions.map() == sessions_after(
                old(self).claude_sessions.map(),
                MessageModel::ClaudePermissionRequest {
                    session_id: session_id@,
                    ancestor_pids: ancestor_pids@,
                },
            ),
    {
        self.claude_sessions.handle_claude_permission_request(session_id, ancestor_pids);
    }

    pub fn handle_claude_post_tool_use(&mut self, session_id: &str, ancestor_pids: Vec<u32>) -> (
    changed: bool)
        requires
            old(self).well_formed(),
        ensures
            final(self).well_formed(),
            final(self).same_but_sessions(*old(self)),
            final(self).claude_sessions.map() == sessions_after(
                old(self).claude_sessions.map(),
                MessageModel::ClaudePostToolUse {
                    session_id: session_id@,
                    ancestor_pids: ancestor_pids@,
                },
            ),
            changed == (old(self).claude_sessions.map().contains_key(session_id@) && old(
                self
            ).claude_sessions.map()[session_id@].state == ClaudeSessionState::WaitingPermission),
    {
        self.claude_sessions.handle_claude_post_tool_use(session_id, ancestor_pids)
    }

    /// Takes note of when the rate limits are reset.
    pub fn update_rate_limits(&mut self, five_hour_resets_at: i64, seven_day_resets_at: i64, now: u64)
        ensures
            final(self).claude_sessions == old(self).claude_sessions,
            final(self).arenas == old(self).arenas,
            final(self).polling == old(self).polling,
            final(self).rate_limits == Some(
                RateLimits { five_hour_resets_at, seven_day_resets_at, received_at: now },
            ),
    {
        self.rate_limits =
        Some(RateLimits { five_hour_resets_at, seven_day_resets_at, received_at: now });
    }

    /// How the active pane of the arena that is shown is split.
    pub fn handle_pane_split(
        &self,
        direction: SplitDirection,
        content_type: PaneContentType,
        keep_focus: bool,
        command: &Vec<String>,
        visible_worktrees: usize,
    ) -> (plan: Option<SplitPlan>)
        requires
            self.well_formed(),
        ensures
            match self.arenas.active_arena_index {
                Some(index) => {
                    let wanted = item_of(
                        content_type,
                        string_models(command@),
                        text_model(self.arenas.list@[index as int].working_directory),
                        visible_worktrees as nat,
                    );
                    plan matches Some(plan) && plan.item@ == wanted && plan.direction == direction
                        && plan.focus_new_pane == !keep_focus
                },
                None => plan is None,
            },
    {
        match self.arenas.active_arena() {
            Some(arena) => Some(
                split_active_pane(
                    direction,
                    content_type,
                    keep_focus,
                    command,
                    &arena.working_directory,
                    visible_worktrees,
                ),
            ),
            None => None,
        }
    }

    /// What a new tab in the arena that is shown holds.
    pub fn handle_tab_new(
        &self,
        content_type: PaneContentType,
        command: &Vec<String>,
        visible_worktrees: usize,
    ) -> (item: Option<PaneItem>)
        requires
            self.well_formed(),
        ensures
            match self.arenas.active_arena_index {
                Some(index) => {
                    let wanted = item_of(
                        content_type,
                        string_models(command@),
                        text_model(self.arenas.list@[index as int].working_directory),
                        visible_worktrees as nat,
                    );
                    item matches Some(item) && item@ == wanted
                },
                None => item is None,
            },
    {
        match self.arenas.active_arena() {
            Some(arena) => Some(
                add_tab(content_type, command, &arena.working_directory, visible_worktrees),
            ),
            None => None,
        }
    }

    /// A key was pressed in a shell. The result tells whether anything changed.
    pub fn clear_session_for_shell_pid(&mut self, shell_pid: u32) -> (changed: bool)
        requires
            old(self).well_formed(),
        ensures
            final(self).well_formed(),
            final(self).same_but_sessions(*old(self)),
            final(self).claude_sessions.map() == after_key_input(
                old(self).claude_sessions.map(),
                shell_pid,
            ),
            changed == old(self).claude_sessions.shared.ready_shell_pids@.contains(shell_pid),
    {
        self.claude_sessions.clear_session_for_shell_pid(shell_pid)
    }

    /// Shows a terminal: its arena, and its pane, which another one that is shown
    /// alone makes room for. The sessions that have completed there are idle then.
    pub fn navigate_to_terminal(
        &mut self,
        arena_index: usize,
        target_pane: u64,
        zoomed_pane: Option<u64>,
        shell_pid: Option<u32>,
        now: u64,
    ) -> (done: Navigation)
        requires
            old(self).well_formed(),
        ensures
            final(self).well_formed(),
            final(self).polling == old(self).polling,
            final(self).rate_limits == old(self).rate_limits,
            final(self).arenas.list == old(self).arenas.list,
            final(self).arenas.next_arena_id == old(self).arenas.next_arena_id,
            final(self).arenas.renaming_arena == old(self).arenas.renaming_arena,
            final(self).claude_sessions.map() == match shell_pid {
                Some(pid) => after_key_input(old(self).claude_sessions.map(), pid),
                None => old(self).claude_sessions.map(),
            },
            done.changed == match shell_pid {
                Some(pid) => old(self).claude_sessions.shared.ready_shell_pids@.contains(pid),
                None => false,
            },
            if arena_index < old(self).arenas.list@.len() {
                &&& final(self).arenas.active_arena_index == Some(arena_index)
                &&& done.fetches == Some(
                    fetches_of(
                        old(self).polling,
                        old(self).arenas.list@[arena_index as int].entity,
                        now,
                    ),
                )
                &&& done.zoom_out == match zoomed_pane {
                    Some(zoomed) if zoomed != target_pane => Some(zoomed),
                    _ => None,
                }
            } else {
                &&& final(self).arenas.active_arena_index == old(self).arenas.active_arena_index
                &&& done.fetches is None
                &&& done.zoom_out is None
            },
    {
        let fetches = self.switch_arena(arena_index, now);
        let zoom_out = if arena_index < self.arenas.list.len() {
            match zoomed_pane {
                Some(zoomed) => if zoomed != target_pane {
                    Some(zoomed)
                } else {
                    None
                },
                None => None,
            }
        } else {
            None
        };
        let changed = match shell_pid {
            Some(pid) => self.clear_session_for_shell_pid(pid),
            None => false,
        };
        Navigation { fetches, zoom_out, changed }
    }

    pub open spec fn same_but_sessions(self, other: Self) -> bool {
        &&& self.arenas == other.arenas
        &&& self.polling == other.polling
        &&& self.rate_limits == other.rate_limits
    }

    /// Does what a message says, as far as it is done here, and says what else it
    /// asks for.
    pub fn handle_message(&mut self, message: IpcMessage, now: u64) -> (action: AppAction)
        requires
            old(self).well_formed(),
        ensures
            final(self).well_formed(),
            final(self).arenas == old(self).arenas,
            final(self).polling == old(self).polling,
            final(self).claude_sessions.map() == sessions_after(
                old(self).claude_sessions.map(),
                message@,
            ),
            final(self).rate_limits == match message@ {
                MessageModel::ClaudeStatusline {
                    five_hour_resets_at,
                    seven_day_resets_at,
                } => Some(
                    RateLimits { five_hour_resets_at, seven_day_resets_at, received_at: now },
                ),
                _ => old(self).rate_limits,
            },
            is_action_for(old(self).claude_sessions.map(), message@, action),
    {
        match message {
            IpcMessage::WorkspacePath(path) => AppAction::AddArena(path),
            IpcMessage::ClaudeSessionStart { session_id, ancestor_pids } => {
                self.register_claude_session(session_id, ancestor_pids);
                AppAction::Refresh(true)
            },
            IpcMessage::ClaudeStop { session_id, ancestor_pids, title } => {
                let title = if title.as_str().is_empty() {
                    None
                } else {
                    Some(title)
                };
                self.mark_claude_session_ready(session_id.as_str(), ancestor_pids, title);
                AppAction::Refresh(true)
            },
            IpcMessage::ClaudeNotification { session_id, ancestor_pids, title } => {
                self.handle_claude_notification(session_id.as_str(), ancestor_pids, title);
                AppAction::Refresh(true)
            },
            IpcMessage::ClaudeUserPromptSubmit { session_id, ancestor_pids, prompt } => {
                self.set_claude_session_prompt(session_id.as_str(), ancestor_pids, prompt);
                AppAction::Refresh(true)
            },
            IpcMessage::ClaudePermissionRequest { session_id, ancestor_pids } => {
                self.handle_claude_permission_request(session_id.as_str(), ancestor_pids);
                AppAction::Refresh(true)
            },
            IpcMessage::ClaudePostToolUse { session_id, ancestor_pids } => {
                let changed = self.handle_claude_post_tool_use(
                    session_id.as_str(),
                    ancestor_pids,
                );
                AppAction::Refresh(changed)
            },
            IpcMessage::PaneSplit { direction, content_type, keep_focus, command } => {
                AppAction::SplitPane { direction, content_type, keep_focus, command }
            },
            IpcMessage::TabNew { content_type, command } => {
                AppAction::NewTab { content_type, command }
            },
            IpcMessage::ChangeTheme { name } => AppAction::ChangeTheme(name),
            IpcMessage::ClaudeStatusline { five_hour_resets_at, seven_day_resets_at } => {
                self.update_rate_limits(five_hour_resets_at, seven_day_resets_at, now);
                AppAction::Refresh(true)
            },
        }
    }
}

/// What is to be done when a terminal is shown.
#[derive(Clone, Copy, Debug, PartialEq, Eq, Structural)]
pub struct Navigation {
    pub fetches: Option<Fetches>,
    pub zoom_out: Option<u64>,
    pub changed: bool,
}

/// What a hook tells reaches the session that it is about: the processes above
/// the hook are those of the session, and the session is in the state that the
/// hook tells of.
pub proof fn law_hooks_drive_sessions(
    sessions: Map<Seq<char>, SessionModel>,
    event: ClaudeHookEvent,
    input: Json,
    pids: Seq<u32>,
    id: Seq<char>,
)
    requires
        id == crate::ipc::text_or_empty(input, "session_id"@),
        event is Stop || event is UserPromptSubmit || event is SessionStart,
    ensures
        ({
            let after = sessions_after(sessions, hook_sent(event, input, pids));
            &&& after.contains_key(id)
            &&& after[id].ancestor_pids == pids
            &&& event is Stop ==> after[id].state == ClaudeSessionState::Completed
            &&& event is UserPromptSubmit ==> after[id].state == ClaudeSessionState::Running
            &&& event is SessionStart ==> after[id].state == if sessions.contains_key(id) {
                sessions[id].state
            } else {
                ClaudeSessionState::Idle
            }
            &&& forall|other: Seq<char>|
                other != id && sessions.contains_key(other) ==> #[trigger] after[other]
                    == sessions[other]
        }),
{
}

/// A request for a permission and then the use of a tool leave a session running.
pub proof fn law_permission_and_tool_use(
    sessions: Map<Seq<char>, SessionModel>,
    input: Json,
    pids: Seq<u32>,
    id: Seq<char>,
)
    requires
        id == crate::ipc::text_or_empty(input, "session_id"@),
        !sessions.contains_key(id) || sessions[id].state != ClaudeSessionState::Completed,
    ensures
        ({
            let asked = sessions_after(
                sessions,
                hook_sent(ClaudeHookEvent::PermissionRequest, input, pids),
            );
            let used = sessions_after(
                asked,
                hook_sent(ClaudeHookEvent::PostToolUse, input, pids),
            );
            &&& asked[id].state == ClaudeSessionState::WaitingPermission
            &&& used[id].state == ClaudeSessionState::Running
            &&& used == sessions_after(
                asked,
                hook_sent(ClaudeHookEvent::PostToolUseFailure, input, pids),
            )
        }),
{
}

/// What reaches a session from a message: only a message of a hook changes
/// sessions, it changes the one it names and no other, and a title that is empty
/// counts as none.
pub proof fn law_messages_reach_their_session(
    sessions: Map<Seq<char>, SessionModel>,
    message: MessageModel,
    id: Seq<char>,
    pids: Seq<u32>,
    text: Seq<char>,
)
    ensures
        message is WorkspacePath || message is PaneSplit || message is TabNew
            || message is ChangeTheme || message is ClaudeStatusline ==> sessions_after(
            sessions,
            message,
        ) == sessions,
        ({
            let after = sessions_after(
                sessions,
                MessageModel::ClaudeNotification { session_id: id, ancestor_pids: pids, title: text },
            );
            &&& after.contains_key(id) && after[id].status_message == text
            &&& after[id].ancestor_pids == pids
            &&& sessions.contains_key(id) ==> after[id].user_prompt == sessions[id].user_prompt
            &&& after.dom() == sessions.dom().insert(id)
            &&& forall|other: Seq<char>|
                other != id && sessions.contains_key(other) ==> #[trigger] after[other]
                    == sessions[other]
        }),
        ({
            let after = sessions_after(
                sessions,
                MessageModel::ClaudeStop { session_id: id, ancestor_pids: pids, title: text },
            );
            &&& after.contains_key(id) && after[id].state is Completed
            &&& after[id].status_message == if text.len() == 0 {
                "Ready"@
            } else {
                text
            }
            &&& after.dom() == sessions.dom().insert(id)
        }),
        ({
            let after = sessions_after(
                sessions,
                MessageModel::ClaudeUserPromptSubmit {
                    session_id: id,
                    ancestor_pids: pids,
                    prompt: text,
                },
            );
            &&& after.contains_key(id) && after[id].state is Running
            &&& after[id].user_prompt == text && after[id].status_message.len() == 0
            &&& after.dom() == sessions.dom().insert(id)
        }),
{
}

/// What a message asks the window to do: a path opens an arena for it, a split, a
/// tab or a theme is handed on as it was wanted, and everything that is told of a
/// session or of a limit has the window drawn anew, save for a tool that was used
/// while no permission was waited for.
pub proof fn law_what_messages_ask_for(
    sessions: Map<Seq<char>, SessionModel>,
    message: MessageModel,
    action: AppAction,
)
    requires
        is_action_for(sessions, message, action),
    ensures
        message is WorkspacePath <==> action is AddArena,
        message is PaneSplit <==> action is SplitPane,
        message is TabNew <==> action is NewTab,
        message is ChangeTheme <==> action is ChangeTheme,
        message is WorkspacePath ==> action->AddArena_0@ == message->WorkspacePath_0,
        message is ChangeTheme ==> action->ChangeTheme_0@ == message->name,
        message is PaneSplit ==> action->SplitPane_keep_focus == message->keep_focus
            && action->direction == message->direction && action->SplitPane_content_type
            == message->PaneSplit_content_type && string_models(action->SplitPane_command@)
            == message->PaneSplit_command,
        message is TabNew ==> action->NewTab_content_type == message->TabNew_content_type
            && string_models(action->NewTab_command@) == message->TabNew_command,
        action == AppAction::Refresh(false) ==> message is ClaudePostToolUse,
        message is ClaudePostToolUse ==> (action == AppAction::Refresh(true) <==> sessions_after(
            sessions,
            message,
        ) != sessions),
{
    if let MessageModel::ClaudePostToolUse { session_id, ancestor_pids } = message {
        let after = sessions_after(sessions, message);
        if sessions.contains_key(session_id) && sessions[session_id].state
            == ClaudeSessionState::WaitingPermission {
            assert(after[session_id].state is Running);
        }
    }
}

} // verus!
