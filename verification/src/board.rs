//! The task board: tasks with the issues and the worktrees that belong to
//! them.
//!
//! The board has one writer at a time. It applies commands that were resolved
//! against a snapshot, so a command that arrives twice must do no more than one
//! that arrives once.

use vstd::arithmetic::power::pow;
use vstd::prelude::*;

use crate::paths::{components_of, same_path};
use crate::text::{
    chars_of, contains_part, contains_text, decimal, decimal_chars, extend, extend_text,
    is_ascii_digit, lemma_decimal_value, lemma_find_from, lowercase, lowercased, number_in,
    occurs_at, parse_number, spelled, starts_with, starts_with_text, string_models, text_model, text_of,
};

verus! {

pub const BOARD_FORMAT_VERSION: u32 = 1;

/// The tasks, the most important one first.
#[derive(Debug, Clone)]
pub struct Board {
    pub version: u32,
    pub tasks: Vec<BoardTask>,
}

#[derive(Debug, Clone)]
pub struct BoardTask {
    pub id: u128,
    pub title: String,
    pub issues: Vec<IssueLink>,
    pub worktrees: Vec<String>,
    pub archived: bool,
}

/// An issue, with what was last known of it.
#[derive(Debug, Clone, PartialEq, Eq)]
pub struct IssueLink {
    pub reference: IssueRef,
    pub title: Option<String>,
    pub state: Option<String>,
    pub url: Option<String>,
}

#[derive(Debug, Clone, PartialEq, Eq)]
pub enum IssueRef {
    GitHub { repo: String, number: u64 },
    Backlog { issue_key: String },
}

/// A change of the board. Selectors and paths in it are resolved already.
#[derive(Debug, Clone, PartialEq, Eq)]
pub enum TaskCommand {
    New { id: u128, title: String, issues: Vec<IssueLink>, worktrees: Vec<String> },
    AddIssue { task_id: u128, issue: IssueLink },
    AddArena { task_id: u128, path: String },
    Archive { task_id: u128 },
}

/// What an [`IssueRef`] stands for.
pub enum RefModel {
    GitHub { repo: Seq<char>, number: u64 },
    Backlog { issue_key: Seq<char> },
}

/// What an [`IssueLink`] stands for.
pub struct LinkModel {
    pub reference: RefModel,
    pub title: Option<Seq<char>>,
    pub state: Option<Seq<char>>,
    pub url: Option<Seq<char>>,
}

/// What a [`BoardTask`] stands for.
pub struct TaskModel {
    pub id: u128,
    pub title: Seq<char>,
    pub issues: Seq<LinkModel>,
    pub worktrees: Seq<Seq<char>>,
    pub archived: bool,
}

/// What a [`TaskCommand`] stands for.
pub enum CommandModel {
    New { id: u128, title: Seq<char>, issues: Seq<LinkModel>, worktrees: Seq<Seq<char>> },
    AddIssue { task_id: u128, issue: LinkModel },
    AddArena { task_id: u128, path: Seq<char> },
    Archive { task_id: u128 },
}

impl View for IssueRef {
    type V = RefModel;

    open spec fn view(&self) -> RefModel {
        match self {
            IssueRef::GitHub { repo, number } => RefModel::GitHub { repo: repo@, number: *number },
            IssueRef::Backlog { issue_key } => RefModel::Backlog { issue_key: issue_key@ },
        }
    }
}

impl View for IssueLink {
    type V = LinkModel;

    open spec fn view(&self) -> LinkModel {
        LinkModel {
            reference: self.reference@,
            title: text_model(self.title),
            state: text_model(self.state),
            url: text_model(self.url),
        }
    }
}

pub open spec fn link_models(links: Seq<IssueLink>) -> Seq<LinkModel> {
    Seq::new(links.len(), |i: int| links[i]@)
}

impl View for BoardTask {
    type V = TaskModel;

    open spec fn view(&self) -> TaskModel {
        TaskModel {
            id: self.id,
            title: self.title@,
            issues: link_models(self.issues@),
            worktrees: string_models(self.worktrees@),
            archived: self.archived,
        }
    }
}

pub open spec fn task_models(tasks: Seq<BoardTask>) -> Seq<TaskModel> {
    Seq::new(tasks.len(), |i: int| tasks[i]@)
}

impl View for Board {
    type V = Seq<TaskModel>;

    open spec fn view(&self) -> Seq<TaskModel> {
        task_models(self.tasks@)
    }
}

impl View for TaskCommand {
    type V = CommandModel;

    open spec fn view(&self) -> CommandModel {
        match self {
            TaskCommand::New { id, title, issues, worktrees } => CommandModel::New {
                id: *id,
                title: title@,
                issues: link_models(issues@),
                worktrees: string_models(worktrees@),
            },
            TaskCommand::AddIssue { task_id, issue } => CommandModel::AddIssue {
                task_id: *task_id,
                issue: issue@,
            },
            TaskCommand::AddArena { task_id, path } => CommandModel::AddArena {
                task_id: *task_id,
                path: path@,
            },
            TaskCommand::Archive { task_id } => CommandModel::Archive { task_id: *task_id },
        }
    }
}

impl Default for Board {
    fn default() -> (board: Self)
        ensures
            board.version == BOARD_FORMAT_VERSION,
            board@ == Seq::<TaskModel>::empty(),
    {
        let board = Board { version: BOARD_FORMAT_VERSION, tasks: Vec::new() };
        assert(board@ =~= Seq::<TaskModel>::empty());
        board
    }
}

/// The lower-case hexadecimal digit for a number below sixteen.
pub open spec fn hex_digit(n: int) -> char {
    if n < 10 {
        (n + 48) as char
    } else {
        (n + 87) as char
    }
}

/// Where the character at `i` of a hyphenated UUID stands among the digits.
pub open spec fn digit_index(i: int) -> int {
    if i < 8 {
        i
    } else if i < 13 {
        i - 1
    } else if i < 18 {
        i - 2
    } else if i < 23 {
        i - 3
    } else {
        i - 4
    }
}

/// A UUID as 32 hexadecimal digits in groups of 8, 4, 4, 4 and 12.
pub open spec fn hyphenated(id: u128) -> Seq<char> {
    Seq::new(
        36,
        |i: int|
            if i == 8 || i == 13 || i == 18 || i == 23 {
                '-'
            } else {
                hex_digit((id as int / pow(16, (31 - digit_index(i)) as nat)) % 16)
            },
    )
}

/// `uuid::Uuid::from_u128` and its `Display`: the number in hexadecimal, most
/// significant digit first, in lower case and hyphenated.
#[verifier::external_body]
fn uuid_text(id: u128) -> (text: String)
    ensures
        text@ == hyphenated(id),
{
    uuid::Uuid::from_u128(id).to_string()
}

/// How `Debug` writes a text: in quotes, with escapes.
pub uninterp spec fn quoted(text: Seq<char>) -> Seq<char>;

/// `Debug` of `str`, through `format!`. The result depends on the text alone;
/// which characters it escapes is left unsaid.
#[verifier::external_body]
pub(crate) fn debug_text(text: &str) -> (debug: String)
    ensures
        debug@ == quoted(text@),
{
    format!("{:?}", text)
}

impl RefModel {
    pub open spec fn short_label(self) -> Seq<char> {
        match self {
            RefModel::GitHub { repo, number } => repo + "#"@ + decimal(number as nat),
            RefModel::Backlog { issue_key } => issue_key,
        }
    }

    pub open spec fn default_url(self) -> Option<Seq<char>> {
        match self {
            RefModel::GitHub { repo, number } => Some(
                "https://github.com/"@ + repo + "/issues/"@ + decimal(number as nat),
            ),
            RefModel::Backlog { .. } => None,
        }
    }

    /// A link of which nothing more is known.
    pub open spec fn link(self) -> LinkModel {
        LinkModel { reference: self, title: None, state: None, url: self.default_url() }
    }
}

impl IssueRef {
    pub fn short_label(&self) -> (label: String)
        ensures
            label@ == self@.short_label(),
    {
        match self {
            IssueRef::GitHub { repo, number } => {
                let mut chars = chars_of(repo.as_str());
                extend_text(&mut chars, "#");
                let digits = decimal_chars(*number);
                extend(&mut chars, digits.as_slice());
                text_of(chars.as_slice())
            },
            IssueRef::Backlog { issue_key } => issue_key.clone(),
        }
    }

    fn same_reference(&self, other: &IssueRef) -> (same: bool)
        ensures
            same == (self@ == other@),
    {
        match (self, other) {
            (
                IssueRef::GitHub { repo: a, number: n },
                IssueRef::GitHub { repo: b, number: m },
            ) => *n == *m && *a == *b,
            (IssueRef::Backlog { issue_key: a }, IssueRef::Backlog { issue_key: b }) => *a == *b,
            _ => false,
        }
    }
}

impl IssueLink {
    pub fn from_reference(reference: IssueRef) -> (link: Self)
        ensures
            link@ == reference@.link(),
    {
        let url = match &reference {
            IssueRef::GitHub { repo, number } => {
                let mut chars = chars_of("https://github.com/");
                extend_text(&mut chars, repo.as_str());
                extend_text(&mut chars, "/issues/");
                let digits = decimal_chars(*number);
                extend(&mut chars, digits.as_slice());
                Some(text_of(chars.as_slice()))
            },
            IssueRef::Backlog { .. } => None,
        };
        IssueLink { reference, title: None, state: None, url }
    }
}

/// The tasks among the first `n` that are not archived.
pub open spec fn active_before(tasks: Seq<TaskModel>, n: int) -> Seq<TaskModel>
    decreases n,
{
    if n <= 0 {
        seq![]
    } else if tasks[n - 1].archived {
        active_before(tasks, n - 1)
    } else {
        active_before(tasks, n - 1).push(tasks[n - 1])
    }
}

/// The tasks that are not archived, in the order of the board.
pub open spec fn active_of(tasks: Seq<TaskModel>) -> Seq<TaskModel> {
    active_before(tasks, tasks.len() as int)
}

/// How a task answers to a selector that is no index.
pub enum Selection {
    ById,
    ByTitle,
    ByWorktree,
}

/// Whether a task is selected. Identifiers and titles are compared with a
/// selector in lower case, worktrees by their components.
pub open spec fn is_selected(task: TaskModel, selection: Selection, key: Seq<char>) -> bool {
    match selection {
        Selection::ById => starts_with(hyphenated(task.id), key),
        Selection::ByTitle => contains_part(lowercase(task.title), key),
        Selection::ByWorktree => exists|i: int|
            0 <= i < task.worktrees.len() && components_of(#[trigger] task.worktrees[i])
                == components_of(key),
    }
}

/// The tasks among the first `n` that are selected.
pub open spec fn selected_before(
    tasks: Seq<TaskModel>,
    selection: Selection,
    key: Seq<char>,
    n: int,
) -> Seq<TaskModel>
    decreases n,
{
    if n <= 0 {
        seq![]
    } else if is_selected(tasks[n - 1], selection, key) {
        selected_before(tasks, selection, key, n - 1).push(tasks[n - 1])
    } else {
        selected_before(tasks, selection, key, n - 1)
    }
}

pub open spec fn selected_of(tasks: Seq<TaskModel>, selection: Selection, key: Seq<char>) -> Seq<
    TaskModel,
> {
    selected_before(tasks, selection, key, tasks.len() as int)
}

/// The tasks that references refer to.
pub open spec fn referred(tasks: Seq<&BoardTask>) -> Seq<TaskModel> {
    Seq::new(tasks.len(), |i: int| tasks[i]@)
}

/// Why a command or a selector was refused.
#[derive(Debug, PartialEq)]
pub enum BoardError {
    /// There is no task with this identifier.
    UnknownTask(u128),
    /// The index is not that of one of so many tasks.
    IndexOutOfRange(usize, usize),
    /// No task matches; the candidates are all there are.
    NoMatch(String, String),
    /// Several tasks match; the candidates are those.
    Ambiguous(String, String),
}

/// What resolving a selector comes to.
pub enum Resolved {
    Task(u128),
    IndexOutOfRange(usize, usize),
    NoMatch(Seq<char>),
    Ambiguous(Seq<char>),
}

/// How tasks are listed in a message.
pub open spec fn candidates_text(tasks: Seq<TaskModel>) -> Seq<char> {
    if tasks.len() == 0 {
        "  (no tasks)"@
    } else {
        crate::text::joined(
            Seq::new(
                tasks.len(),
                |i: int| "  "@ + hyphenated(tasks[i].id) + "  "@ + tasks[i].title,
            ),
            "\n"@,
        )
    }
}

/// The task that a selector means: a position among the active tasks counted
/// from one, the beginning of an identifier, or part of a title in either case.
pub open spec fn resolve_of(tasks: Seq<TaskModel>, selector: Seq<char>) -> Resolved {
    let active = active_of(tasks);
    let key = lowercase(selector);
    let by_id = selected_of(active, Selection::ById, key);
    let by_title = selected_of(active, Selection::ByTitle, key);
    match parse_number(selector) {
        Some(index) if index <= usize::MAX => if 1 <= index <= active.len() {
            Resolved::Task(active[index - 1].id)
        } else {
            Resolved::IndexOutOfRange(index as usize, active.len() as usize)
        },
        _ => if by_id.len() == 1 {
            Resolved::Task(by_id[0].id)
        } else if by_title.len() == 1 {
            Resolved::Task(by_title[0].id)
        } else if by_title.len() == 0 {
            Resolved::NoMatch(candidates_text(active))
        } else {
            Resolved::Ambiguous(candidates_text(by_title))
        },
    }
}

/// The first task from `from` on with an identifier.
pub open spec fn task_from(tasks: Seq<TaskModel>, from: int, id: u128) -> Option<int>
    decreases tasks.len() - from,
{
    if from < 0 || from >= tasks.len() {
        None
    } else if tasks[from].id == id {
        Some(from)
    } else {
        task_from(tasks, from + 1, id)
    }
}

pub open spec fn has_issue(task: TaskModel, reference: RefModel) -> bool {
    exists|i: int| 0 <= i < task.issues.len() && (#[trigger] task.issues[i]).reference == reference
}

pub open spec fn has_worktree(task: TaskModel, path: Seq<char>) -> bool {
    is_selected(task, Selection::ByWorktree, path)
}

/// A task after a command that is meant for it.
pub open spec fn task_after(task: TaskModel, command: CommandModel) -> TaskModel {
    match command {
        CommandModel::New { .. } => task,
        CommandModel::AddIssue { issue, .. } => if has_issue(task, issue.reference) {
            task
        } else {
            TaskModel { issues: task.issues.push(issue), ..task }
        },
        CommandModel::AddArena { path, .. } => if has_worktree(task, path) {
            task
        } else {
            TaskModel { worktrees: task.worktrees.push(path), ..task }
        },
        CommandModel::Archive { .. } => TaskModel { archived: true, ..task },
    }
}

/// The identifier that a command is about.
pub open spec fn command_task(command: CommandModel) -> u128 {
    match command {
        CommandModel::New { id, .. } => id,
        CommandModel::AddIssue { task_id, .. } => task_id,
        CommandModel::AddArena { task_id, .. } => task_id,
        CommandModel::Archive { task_id } => task_id,
    }
}

/// The tasks after a command; `None` where the command is refused because the
/// task that it is about does not exist.
pub open spec fn applied(tasks: Seq<TaskModel>, command: CommandModel) -> Option<Seq<TaskModel>> {
    match task_from(tasks, 0, command_task(command)) {
        Some(index) => Some(tasks.update(index, task_after(tasks[index], command))),
        None => match command {
            CommandModel::New { id, title, issues, worktrees } => Some(
                tasks.push(TaskModel { id, title, issues, worktrees, archived: false }),
            ),
            _ => None,
        },
    }
}

fn worktree_in(task: &BoardTask, path: &str) -> (found: bool)
    ensures
        found == has_worktree(task@, path@),
{
    let mut i: usize = 0;
    while i < task.worktrees.len()
        invariant
            i <= task.worktrees@.len(),
            forall|k: int|
                0 <= k < i ==> components_of(#[trigger] task@.worktrees[k]) != components_of(path@),
        decreases task.worktrees@.len() - i,
    {
        assert(task@.worktrees[i as int] == task.worktrees@[i as int]@);
        if same_path(task.worktrees[i].as_str(), path) {
            return true;
        }
        i += 1;
    }
    false
}

fn issue_in_task(task: &BoardTask, reference: &IssueRef) -> (found: bool)
    ensures
        found == has_issue(task@, reference@),
{
    let mut i: usize = 0;
    while i < task.issues.len()
        invariant
            i <= task.issues@.len(),
            forall|k: int| 0 <= k < i ==> (#[trigger] task@.issues[k]).reference != reference@,
        decreases task.issues@.len() - i,
    {
        assert(task@.issues[i as int] == task.issues@[i as int]@);
        if task.issues[i].reference.same_reference(reference) {
            return true;
        }
        i += 1;
    }
    false
}

fn format_candidates(tasks: &Vec<&BoardTask>) -> (text: String)
    ensures
        text@ == candidates_text(referred(tasks@)),
{
    if tasks.len() == 0 {
        return "  (no tasks)".to_string();
    }
    let ghost wanted = Seq::new(
        tasks@.len(),
        |i: int| "  "@ + hyphenated(referred(tasks@)[i].id) + "  "@ + referred(tasks@)[i].title,
    );
    let mut lines: Vec<Vec<char>> = Vec::new();
    let mut i: usize = 0;
    while i < tasks.len()
        invariant
            i <= tasks@.len(),
            wanted == Seq::new(
                tasks@.len(),
                |i: int|
                    "  "@ + hyphenated(referred(tasks@)[i].id) + "  "@ + referred(tasks@)[i].title,
            ),
            spelled(lines@) =~= wanted.take(i as int),
        decreases tasks@.len() - i,
    {
        let ghost before = spelled(lines@);
        let mut line = chars_of("  ");
        extend_text(&mut line, uuid_text(tasks[i].id).as_str());
        extend_text(&mut line, "  ");
        extend_text(&mut line, tasks[i].title.as_str());
        let ghost view = line@;
        assert(referred(tasks@)[i as int] == tasks@[i as int]@);
        lines.push(line);
        assert(spelled(lines@) =~= before.push(view));
        i += 1;
    }
    assert(spelled(lines@) =~= wanted);
    let text = crate::text::join(&lines, "\n");
    text_of(text.as_slice())
}

fn select_tasks<'a>(tasks: &Vec<&'a BoardTask>, by_title: bool, key: &Vec<char>) -> (selected: Vec<
    &'a BoardTask,
>)
    ensures
        referred(selected@) == selected_of(
            referred(tasks@),
            if by_title {
                Selection::ByTitle
            } else {
                Selection::ById
            },
            key@,
        ),
{
    let ghost selection = if by_title {
        Selection::ByTitle
    } else {
        Selection::ById
    };
    let text = text_of(key.as_slice());
    let mut selected: Vec<&'a BoardTask> = Vec::new();
    let mut i: usize = 0;
    while i < tasks.len()
        invariant
            i <= tasks@.len(),
            text@ == key@,
            selection == (if by_title {
                Selection::ByTitle
            } else {
                Selection::ById
            }),
            referred(selected@) == selected_before(referred(tasks@), selection, key@, i as int),
        decreases tasks@.len() - i,
    {
        let task = tasks[i];
        assert(referred(tasks@)[i as int] == task@);
        let ghost before = referred(selected@);
        let taken = if by_title {
            let title = chars_of(task.title.as_str());
            let lower = lowercased(title.as_slice());
            contains_text(lower.as_slice(), text.as_str())
        } else {
            let id = chars_of(uuid_text(task.id).as_str());
            starts_with_text(id.as_slice(), text.as_str())
        };
        if taken {
            selected.push(task);
            assert(referred(selected@) =~= before.push(task@));
        }
        i += 1;
    }
    selected
}

impl Board {
    /// The tasks that are not archived, in the order of the board.
    pub fn active_tasks(&self) -> (active: Vec<&BoardTask>)
        ensures
            referred(active@) == active_of(self@),
    {
        let mut active: Vec<&BoardTask> = Vec::new();
        let mut i: usize = 0;
        assert(referred(active@) =~= seq![]);
        while i < self.tasks.len()
            invariant
                i <= self.tasks@.len(),
                referred(active@) == active_before(self@, i as int),
            decreases self.tasks@.len() - i,
        {
            let task = &self.tasks[i];
            assert(self@[i as int] == task@);
            let ghost before = referred(active@);
            if !task.archived {
                active.push(task);
                assert(referred(active@) =~= before.push(task@));
            }
            i += 1;
        }
        active
    }

    /// Resolves a selector: a position in the list of active tasks counted from
    /// one, the beginning of an identifier, or part of one title only.
    pub fn resolve_task(&self, selector: &str) -> (resolved: Result<u128, BoardError>)
        ensures
            match resolved {
                Ok(id) => resolve_of(self@, selector@) == Resolved::Task(id),
                Err(BoardError::IndexOutOfRange(index, count)) => resolve_of(self@, selector@)
                    == Resolved::IndexOutOfRange(index, count),
                Err(BoardError::NoMatch(key, candidates)) => key@ == selector@ && resolve_of(
                    self@,
                    selector@,
                ) == Resolved::NoMatch(candidates@),
                Err(BoardError::Ambiguous(key, candidates)) => key@ == selector@ && resolve_of(
                    self@,
                    selector@,
                ) == Resolved::Ambiguous(candidates@),
                Err(BoardError::UnknownTask(_)) => false,
            },
    {
        let active = self.active_tasks();
        assert(referred(active@).len() == active@.len());
        let chars = chars_of(selector);
        if let Some(index) = number_in(chars.as_slice()) {
            if index <= usize::MAX as u64 {
                let index = index as usize;
                if 1 <= index && index <= active.len() {
                    assert(referred(active@)[index - 1] == active@[index - 1]@);
                    return Ok(active[index - 1].id);
                }
                return Err(BoardError::IndexOutOfRange(index, active.len()));
            }
        }
        let key = lowercased(chars.as_slice());
        let by_id = select_tasks(&active, false, &key);
        assert(referred(by_id@).len() == by_id@.len());
        if by_id.len() == 1 {
            assert(referred(by_id@)[0] == by_id@[0]@);
            return Ok(by_id[0].id);
        }
        let by_title = select_tasks(&active, true, &key);
        assert(referred(by_title@).len() == by_title@.len());
        if by_title.len() == 1 {
            assert(referred(by_title@)[0] == by_title@[0]@);
            Ok(by_title[0].id)
        } else if by_title.len() == 0 {
            Err(BoardError::NoMatch(selector.to_string(), format_candidates(&active)))
        } else {
            Err(BoardError::Ambiguous(selector.to_string(), format_candidates(&by_title)))
        }
    }

    /// The active tasks that a worktree belongs to.
    pub fn tasks_containing_worktree(&self, path: &str) -> (tasks: Vec<&BoardTask>)
        ensures
            referred(tasks@) == selected_of(active_of(self@), Selection::ByWorktree, path@),
    {
        let active = self.active_tasks();
        let mut tasks: Vec<&BoardTask> = Vec::new();
        let mut i: usize = 0;
        assert(referred(tasks@) =~= seq![]);
        while i < active.len()
            invariant
                i <= active@.len(),
                referred(active@) == active_of(self@),
                referred(tasks@) == selected_before(
                    active_of(self@),
                    Selection::ByWorktree,
                    path@,
                    i as int,
                ),
            decreases active@.len() - i,
        {
            let task = active[i];
            assert(referred(active@)[i as int] == task@);
            let ghost before = referred(tasks@);
            if worktree_in(task, path) {
                tasks.push(task);
                assert(referred(tasks@) =~= before.push(task@));
            }
            i += 1;
        }
        assert(referred(active@).len() == active@.len());
        tasks
    }

    /// Finds a task to change.
    pub fn task_mut(&mut self, task_id: u128) -> (task: Result<&mut BoardTask, BoardError>)
        ensures
            match task {
                Ok(task) => {
                    let index = task_from(old(self)@, 0, task_id)->0;
                    &&& task_from(old(self)@, 0, task_id) is Some
                    &&& 0 <= index < old(self).tasks@.len()
                    &&& *task == old(self).tasks@[index]
                    &&& final(self).tasks@ == old(self).tasks@.update(index, *final(task))
                    &&& final(self).version == old(self).version
                },
                Err(error) => {
                    &&& task_from(old(self)@, 0, task_id) is None
                    &&& error == BoardError::UnknownTask(task_id)
                    &&& *final(self) == *old(self)
                },
            },
    {
        let mut i: usize = 0;
        while i < self.tasks.len()
            invariant
                i <= self.tasks@.len(),
                *self == *old(self),
                task_from(self@, 0, task_id) == task_from(self@, i as int, task_id),
            decreases self.tasks@.len() - i,
        {
            assert(self@[i as int] == self.tasks@[i as int]@);
            if self.tasks[i].id == task_id {
                return Ok(&mut self.tasks[i]);
            }
            i += 1;
        }
        Err(BoardError::UnknownTask(task_id))
    }
}

impl Board {
    /// Carries out a command. One about a task that does not exist is refused,
    /// except that a new task is added.
    pub fn apply(&mut self, command: TaskCommand) -> (result: Result<(), BoardError>)
        ensures
            final(self).version == old(self).version,
            match result {
                Ok(_) => applied(old(self)@, command@) == Some(final(self)@),
                Err(error) => {
                    &&& applied(old(self)@, command@) is None
                    &&& error == BoardError::UnknownTask(command_task(command@))
                    &&& *final(self) == *old(self)
                },
            },
    {
        let ghost before = self@;
        proof {
            lemma_task_from(before, 0, command_task(command@));
        }
        match command {
            TaskCommand::New { id, title, issues, worktrees } => {
                let known = match self.task_mut(id) {
                    Ok(_) => true,
                    Err(_) => false,
                };
                assert(self@ =~= before);
                if !known {
                    let task = BoardTask { id, title, issues, worktrees, archived: false };
                    let ghost model = task@;
                    self.tasks.push(task);
                    assert(self@ =~= before.push(model));
                } else {
                    let ghost index = task_from(before, 0, id)->0;
                    assert(before.update(index, before[index]) =~= before);
                }
            },
            TaskCommand::AddIssue { task_id, issue } => {
                let ghost index = task_from(before, 0, task_id)->0;
                let task = match self.task_mut(task_id) {
                    Ok(task) => task,
                    Err(error) => {
                        return Err(error);
                    },
                };
                let ghost own = task@;
                let ghost model = issue@;
                if !issue_in_task(task, &issue.reference) {
                    task.issues.push(issue);
                    assert(task@.issues =~= own.issues.push(model));
                }
                let ghost after = task@;
                assert(self@ =~= before.update(index, after));
            },
            TaskCommand::AddArena { task_id, path } => {
                let ghost index = task_from(before, 0, task_id)->0;
                let task = match self.task_mut(task_id) {
                    Ok(task) => task,
                    Err(error) => {
                        return Err(error);
                    },
                };
                let ghost own = task@;
                let ghost view = path@;
                if !worktree_in(task, path.as_str()) {
                    task.worktrees.push(path);
                    assert(task@.worktrees =~= own.worktrees.push(view));
                }
                let ghost after = task@;
                assert(self@ =~= before.update(index, after));
            },
            TaskCommand::Archive { task_id } => {
                let ghost index = task_from(before, 0, task_id)->0;
                let task = match self.task_mut(task_id) {
                    Ok(task) => task,
                    Err(error) => {
                        return Err(error);
                    },
                };
                let ghost own = task@;
                task.archived = true;
                let ghost after = task@;
                assert(after == TaskModel { archived: true, ..own });
                assert(self@ =~= before.update(index, after));
            },
        }
        Ok(())
    }
}

impl BoardError {
    pub open spec fn text(self) -> Seq<char> {
        match self {
            BoardError::UnknownTask(id) => "no task with id "@ + hyphenated(id),
            BoardError::IndexOutOfRange(index, count) => "task index "@ + decimal(index as nat)
                + " is out of range (1..="@ + decimal(count as nat) + ")"@,
            BoardError::NoMatch(key, candidates) => "no task matches "@ + quoted(key@)
                + "; available:\n"@ + candidates@,
            BoardError::Ambiguous(key, candidates) => quoted(key@)
                + " is ambiguous; candidates:\n"@ + candidates@,
        }
    }

    /// What to tell the user.
    pub fn message(&self) -> (message: String)
        ensures
            message@ == self.text(),
    {
        let mut chars: Vec<char> = Vec::new();
        match self {
            BoardError::UnknownTask(id) => {
                extend_text(&mut chars, "no task with id ");
                extend_text(&mut chars, uuid_text(*id).as_str());
            },
            BoardError::IndexOutOfRange(index, count) => {
                extend_text(&mut chars, "task index ");
                extend(&mut chars, decimal_chars(*index as u64).as_slice());
                extend_text(&mut chars, " is out of range (1..=");
                extend(&mut chars, decimal_chars(*count as u64).as_slice());
                extend_text(&mut chars, ")");
            },
            BoardError::NoMatch(key, candidates) => {
                extend_text(&mut chars, "no task matches ");
                extend_text(&mut chars, debug_text(key.as_str()).as_str());
                extend_text(&mut chars, "; available:\n");
                extend_text(&mut chars, candidates.as_str());
            },
            BoardError::Ambiguous(key, candidates) => {
                extend_text(&mut chars, debug_text(key.as_str()).as_str());
                extend_text(&mut chars, " is ambiguous; candidates:\n");
                extend_text(&mut chars, candidates.as_str());
            },
        }
        assert(chars@ =~= self.text());
        text_of(chars.as_slice())
    }
}

pub proof fn lemma_task_from(tasks: Seq<TaskModel>, from: int, id: u128)
    requires
        0 <= from,
    ensures
        match task_from(tasks, from, id) {
            Some(index) => from <= index < tasks.len() && tasks[index].id == id && forall|k: int|
                from <= k < index ==> (#[trigger] tasks[k]).id != id,
            None => forall|k: int| from <= k < tasks.len() ==> (#[trigger] tasks[k]).id != id,
        },
    decreases tasks.len() - from,
{
    if from < tasks.len() && tasks[from].id != id {
        lemma_task_from(tasks, from + 1, id);
    }
}

/// A lookup is known by what it finds.
proof fn lemma_task_from_is(tasks: Seq<TaskModel>, from: int, id: u128, index: int)
    requires
        0 <= from <= index < tasks.len(),
        tasks[index].id == id,
        forall|k: int| from <= k < index ==> (#[trigger] tasks[k]).id != id,
    ensures
        task_from(tasks, from, id) == Some(index),
    decreases index - from,
{
    if from < index {
        assert(tasks[from].id != id);
        lemma_task_from_is(tasks, from + 1, id, index);
    }
}

/// No two tasks have the same identifier.
pub open spec fn has_distinct_ids(tasks: Seq<TaskModel>) -> bool {
    forall|i: int, j: int|
        0 <= i < j < tasks.len() ==> (#[trigger] tasks[i]).id != (#[trigger] tasks[j]).id
}

/// A command that arrives twice does no more than one that arrives once.
pub proof fn law_apply_is_idempotent(tasks: Seq<TaskModel>, command: CommandModel)
    requires
        applied(tasks, command) is Some,
    ensures
        applied(applied(tasks, command)->0, command) == applied(tasks, command),
{
    let id = command_task(command);
    let after = applied(tasks, command)->0;
    lemma_task_from(tasks, 0, id);
    match task_from(tasks, 0, id) {
        Some(index) => {
            let task = tasks[index];
            let changed = task_after(task, command);
            assert(after[index] == changed);
            lemma_task_from_is(after, 0, id, index);
            match command {
                CommandModel::AddIssue { issue, .. } => {
                    if !has_issue(task, issue.reference) {
                        assert(changed.issues[task.issues.len() as int].reference
                            == issue.reference);
                        assert(has_issue(changed, issue.reference));
                    }
                },
                CommandModel::AddArena { path, .. } => {
                    if !has_worktree(task, path) {
                        assert(components_of(changed.worktrees[task.worktrees.len() as int])
                            == components_of(path));
                        assert(has_worktree(changed, path));
                    }
                },
                _ => {},
            }
            assert(task_after(changed, command) == changed);
            assert(after.update(index, changed) =~= after);
        },
        None => {
            let index = tasks.len() as int;
            assert(after[index].id == id);
            assert forall|k: int| 0 <= k < index implies (#[trigger] after[k]).id != id by {
                assert(after[k] == tasks[k]);
            }
            lemma_task_from_is(after, 0, id, index);
            assert(after.update(index, after[index]) =~= after);
        },
    }
}

/// A command leaves the tasks that it is not about as they are, in their
/// order, and no identifier comes twice.
pub proof fn law_apply_keeps_other_tasks(tasks: Seq<TaskModel>, command: CommandModel)
    requires
        applied(tasks, command) is Some,
    ensures
        ({
            let after = applied(tasks, command)->0;
            &&& tasks.len() <= after.len() <= tasks.len() + 1
            &&& forall|k: int|
                0 <= k < tasks.len() ==> (#[trigger] after[k]).id == tasks[k].id && (tasks[k].id
                    != command_task(command) ==> after[k] == tasks[k])
            &&& has_distinct_ids(tasks) ==> has_distinct_ids(after)
        }),
{
    let id = command_task(command);
    let after = applied(tasks, command)->0;
    lemma_task_from(tasks, 0, id);
    assert forall|k: int| 0 <= k < tasks.len() implies (#[trigger] after[k]).id == tasks[k].id && (
    tasks[k].id != id ==> after[k] == tasks[k]) by {}
    if has_distinct_ids(tasks) {
        assert forall|i: int, j: int| 0 <= i < j < after.len() implies (#[trigger] after[i]).id != (
        #[trigger] after[j]).id by {
            assert(after[i].id == tasks[i].id);
            if j < tasks.len() {
                assert(after[j].id == tasks[j].id);
            }
        }
    }
}

proof fn lemma_none_active(tasks: Seq<TaskModel>, id: u128, n: int)
    requires
        0 <= n <= tasks.len(),
        forall|k: int| 0 <= k < n ==> (#[trigger] tasks[k]).id != id || tasks[k].archived,
    ensures
        forall|i: int|
            0 <= i < active_before(tasks, n).len() ==> (#[trigger] active_before(tasks, n)[i]).id
                != id,
    decreases n,
{
    if n > 0 {
        lemma_none_active(tasks, id, n - 1);
        let before = active_before(tasks, n - 1);
        let active = active_before(tasks, n);
        assert forall|i: int| 0 <= i < active.len() implies (#[trigger] active[i]).id != id by {
            assert(tasks[n - 1].id != id || tasks[n - 1].archived);
            if i < before.len() {
                assert(active[i] == before[i]);
            }
        }
    }
}

/// An archived task is no longer among the active ones.
pub proof fn law_archived_is_not_active(tasks: Seq<TaskModel>, id: u128)
    requires
        has_distinct_ids(tasks),
        applied(tasks, CommandModel::Archive { task_id: id }) is Some,
    ensures
        ({
            let active = active_of(applied(tasks, CommandModel::Archive { task_id: id })->0);
            forall|i: int| 0 <= i < active.len() ==> (#[trigger] active[i]).id != id
        }),
{
    let after = applied(tasks, CommandModel::Archive { task_id: id })->0;
    lemma_task_from(tasks, 0, id);
    let index = task_from(tasks, 0, id)->0;
    assert forall|k: int| 0 <= k < after.len() implies (#[trigger] after[k]).id != id
        || after[k].archived by {
        if k != index {
            assert(after[k] == tasks[k]);
            if index < k {
                assert(tasks[index].id != tasks[k].id);
            }
        }
    }
    lemma_none_active(after, id, after.len() as int);
}

/// How many of the first `n` tasks are not archived.
pub open spec fn active_count(tasks: Seq<TaskModel>, n: int) -> nat
    decreases n,
{
    if n <= 0 {
        0
    } else {
        active_count(tasks, n - 1) + if tasks[n - 1].archived {
            0nat
        } else {
            1nat
        }
    }
}

proof fn lemma_active_place(tasks: Seq<TaskModel>, k: int, n: int)
    requires
        0 <= k < n <= tasks.len(),
        !tasks[k].archived,
    ensures
        active_before(tasks, n).len() == active_count(tasks, n),
        active_count(tasks, k) < active_count(tasks, n),
        active_before(tasks, n)[active_count(tasks, k) as int] == tasks[k],
    decreases n,
{
    if n - 1 == k {
        lemma_active_length(tasks, k);
    } else {
        lemma_active_place(tasks, k, n - 1);
    }
}

proof fn lemma_active_length(tasks: Seq<TaskModel>, n: int)
    requires
        0 <= n <= tasks.len(),
    ensures
        active_before(tasks, n).len() == active_count(tasks, n),
    decreases n,
{
    if n > 0 {
        lemma_active_length(tasks, n - 1);
    }
}

/// The number of a task in the list of those that are not archived resolves to
/// that task: one more than there are such tasks before it.
pub proof fn law_number_resolves(tasks: Seq<TaskModel>, k: int)
    requires
        0 <= k < tasks.len(),
        !tasks[k].archived,
        tasks.len() < usize::MAX,
    ensures
        resolve_of(tasks, decimal(active_count(tasks, k) + 1)) == Resolved::Task(tasks[k].id),
{
    let number = active_count(tasks, k) + 1;
    lemma_active_place(tasks, k, tasks.len() as int);
    lemma_active_at_most(tasks, k);
    lemma_decimal_value(number);
    assert(is_ascii_digit(decimal(number)[0]));
}

proof fn lemma_active_at_most(tasks: Seq<TaskModel>, n: int)
    requires
        0 <= n,
    ensures
        active_count(tasks, n) <= n,
    decreases n,
{
    if n > 0 {
        lemma_active_at_most(tasks, n - 1);
    }
}

/// A number that is not that of a task resolves to none.
pub proof fn law_other_numbers_do_not_resolve(tasks: Seq<TaskModel>, number: nat)
    requires
        tasks.len() < usize::MAX,
        number == 0 || number > active_count(tasks, tasks.len() as int),
        number <= u64::MAX,
        number <= usize::MAX,
    ensures
        resolve_of(tasks, decimal(number)) == Resolved::IndexOutOfRange(
            number as usize,
            active_count(tasks, tasks.len() as int) as usize,
        ),
{
    lemma_active_length(tasks, tasks.len() as int);
    lemma_decimal_value(number);
    assert(is_ascii_digit(decimal(number)[0]));
}

/// Whether the task at an index is active and has a property.
pub open spec fn picks(tasks: Seq<TaskModel>, k: int, selection: Selection, key: Seq<char>) -> bool {
    0 <= k < tasks.len() && !tasks[k].archived && is_selected(tasks[k], selection, key)
}

proof fn lemma_selected_prefix(
    tasks: Seq<TaskModel>,
    last: TaskModel,
    selection: Selection,
    key: Seq<char>,
    n: int,
)
    requires
        0 <= n <= tasks.len(),
    ensures
        selected_before(tasks.push(last), selection, key, n) == selected_before(
            tasks,
            selection,
            key,
            n,
        ),
    decreases n,
{
    if n > 0 {
        lemma_selected_prefix(tasks, last, selection, key, n - 1);
    }
}

proof fn lemma_picked(tasks: Seq<TaskModel>, selection: Selection, key: Seq<char>, n: int)
    requires
        0 < n <= tasks.len(),
    ensures
        ({
            let before = selected_of(active_before(tasks, n - 1), selection, key);
            selected_of(active_before(tasks, n), selection, key) == if picks(
                tasks,
                n - 1,
                selection,
                key,
            ) {
                before.push(tasks[n - 1])
            } else {
                before
            }
        }),
{
    let active = active_before(tasks, n - 1);
    if !tasks[n - 1].archived {
        lemma_selected_prefix(active, tasks[n - 1], selection, key, active.len() as int);
        assert(active.push(tasks[n - 1])[active.len() as int] == tasks[n - 1]);
    }
}

proof fn lemma_none_picked(tasks: Seq<TaskModel>, selection: Selection, key: Seq<char>, n: int)
    requires
        0 <= n <= tasks.len(),
        forall|k: int| 0 <= k < n ==> !#[trigger] picks(tasks, k, selection, key),
    ensures
        selected_of(active_before(tasks, n), selection, key).len() == 0,
    decreases n,
{
    if n > 0 {
        lemma_none_picked(tasks, selection, key, n - 1);
        lemma_picked(tasks, selection, key, n);
        assert(!picks(tasks, n - 1, selection, key));
    }
}

proof fn lemma_one_picked(
    tasks: Seq<TaskModel>,
    selection: Selection,
    key: Seq<char>,
    at: int,
    n: int,
)
    requires
        0 <= at < n <= tasks.len(),
        picks(tasks, at, selection, key),
        forall|k: int| 0 <= k < n && k != at ==> !#[trigger] picks(tasks, k, selection, key),
    ensures
        selected_of(active_before(tasks, n), selection, key) == seq![tasks[at]],
    decreases n,
{
    lemma_picked(tasks, selection, key, n);
    if at == n - 1 {
        lemma_none_picked(tasks, selection, key, n - 1);
        assert(selected_of(active_before(tasks, n - 1), selection, key) =~= seq![]);
        assert(selected_of(active_before(tasks, n), selection, key) =~= seq![tasks[at]]);
    } else {
        assert(!picks(tasks, n - 1, selection, key));
        lemma_one_picked(tasks, selection, key, at, n - 1);
    }
}

proof fn lemma_two_picked(
    tasks: Seq<TaskModel>,
    selection: Selection,
    key: Seq<char>,
    a: int,
    b: int,
    n: int,
)
    requires
        0 <= n <= tasks.len(),
        0 <= a < b,
        picks(tasks, a, selection, key),
        picks(tasks, b, selection, key),
    ensures
        b < n ==> selected_of(active_before(tasks, n), selection, key).len() >= 2,
        a < n ==> selected_of(active_before(tasks, n), selection, key).len() >= 1,
    decreases n,
{
    if n > 0 {
        lemma_two_picked(tasks, selection, key, a, b, n - 1);
        lemma_picked(tasks, selection, key, n);
    }
}

/// A selector that is no number picks the one active task whose identifier begins
/// with it, in small letters.
pub proof fn law_identifier_resolves(tasks: Seq<TaskModel>, selector: Seq<char>, at: int)
    requires
        parse_number(selector) is None,
        0 <= at < tasks.len(),
        !tasks[at].archived,
        starts_with(hyphenated(tasks[at].id), lowercase(selector)),
        forall|k: int|
            0 <= k < tasks.len() && k != at && !(#[trigger] tasks[k]).archived ==> !starts_with(
                hyphenated(tasks[k].id),
                lowercase(selector),
            ),
    ensures
        resolve_of(tasks, selector) == Resolved::Task(tasks[at].id),
{
    let key = lowercase(selector);
    assert forall|k: int| 0 <= k < tasks.len() && k != at implies !#[trigger] picks(
        tasks,
        k,
        Selection::ById,
        key,
    ) by {
        assert(tasks[k].archived || !starts_with(hyphenated(tasks[k].id), key));
    }
    assert(picks(tasks, at, Selection::ById, key));
    lemma_one_picked(tasks, Selection::ById, key, at, tasks.len() as int);
}

/// A selector with which the identifier of no active task begins picks the one
/// active task in whose title it stands, whatever the case of the letters.
pub proof fn law_title_resolves(
    tasks: Seq<TaskModel>,
    selector: Seq<char>,
    at: int,
    front: Seq<char>,
    back: Seq<char>,
)
    requires
        parse_number(selector) is None,
        0 <= at < tasks.len(),
        !tasks[at].archived,
        lowercase(tasks[at].title) == front + lowercase(selector) + back,
        forall|k: int|
            0 <= k < tasks.len() && !(#[trigger] tasks[k]).archived ==> !starts_with(
                hyphenated(tasks[k].id),
                lowercase(selector),
            ),
        forall|k: int|
            0 <= k < tasks.len() && k != at && !(#[trigger] tasks[k]).archived ==> !contains_part(
                lowercase(tasks[k].title),
                lowercase(selector),
            ),
    ensures
        resolve_of(tasks, selector) == Resolved::Task(tasks[at].id),
{
    let key = lowercase(selector);
    let title = lowercase(tasks[at].title);
    assert forall|k: int| 0 <= k < tasks.len() implies !#[trigger] picks(
        tasks,
        k,
        Selection::ById,
        key,
    ) by {
        assert(tasks[k].archived || !starts_with(hyphenated(tasks[k].id), key));
    }
    lemma_none_picked(tasks, Selection::ById, key, tasks.len() as int);
    assert(title.subrange(front.len() as int, (front.len() + key.len()) as int) =~= key);
    lemma_find_from(title, 0, key);
    if !contains_part(title, key) {
        assert(!occurs_at(title, front.len() as int, key));
    }
    assert forall|k: int| 0 <= k < tasks.len() && k != at implies !#[trigger] picks(
        tasks,
        k,
        Selection::ByTitle,
        key,
    ) by {
        assert(tasks[k].archived || !contains_part(lowercase(tasks[k].title), key));
    }
    assert(picks(tasks, at, Selection::ByTitle, key));
    lemma_one_picked(tasks, Selection::ByTitle, key, at, tasks.len() as int);
}

/// A selector that is no number, with which no identifier begins, is refused where
/// it stands in no title of an active task, and where it stands in two of them.
pub proof fn law_selector_is_refused(tasks: Seq<TaskModel>, selector: Seq<char>, a: int, b: int)
    requires
        parse_number(selector) is None,
        forall|k: int|
            0 <= k < tasks.len() && !(#[trigger] tasks[k]).archived ==> !starts_with(
                hyphenated(tasks[k].id),
                lowercase(selector),
            ),
    ensures
        (forall|k: int|
            0 <= k < tasks.len() && !(#[trigger] tasks[k]).archived ==> !contains_part(
                lowercase(tasks[k].title),
                lowercase(selector),
            )) ==> resolve_of(tasks, selector) is NoMatch,
        0 <= a < b < tasks.len() && !tasks[a].archived && !tasks[b].archived && contains_part(
            lowercase(tasks[a].title),
            lowercase(selector),
        ) && contains_part(lowercase(tasks[b].title), lowercase(selector)) ==> resolve_of(
            tasks,
            selector,
        ) is Ambiguous,
{
    let key = lowercase(selector);
    let n = tasks.len() as int;
    assert forall|k: int| 0 <= k < tasks.len() implies !#[trigger] picks(
        tasks,
        k,
        Selection::ById,
        key,
    ) by {
        assert(tasks[k].archived || !starts_with(hyphenated(tasks[k].id), key));
    }
    lemma_none_picked(tasks, Selection::ById, key, n);
    if forall|k: int|
        0 <= k < tasks.len() && !(#[trigger] tasks[k]).archived ==> !contains_part(
            lowercase(tasks[k].title),
            key,
        ) {
        assert forall|k: int| 0 <= k < tasks.len() implies !#[trigger] picks(
            tasks,
            k,
            Selection::ByTitle,
            key,
        ) by {
            assert(tasks[k].archived || !contains_part(lowercase(tasks[k].title), key));
        }
        lemma_none_picked(tasks, Selection::ByTitle, key, n);
    }
    if 0 <= a < b < n && picks(tasks, a, Selection::ByTitle, key) && picks(
        tasks,
        b,
        Selection::ByTitle,
        key,
    ) {
        lemma_two_picked(tasks, Selection::ByTitle, key, a, b, n);
    }
}

proof fn lemma_picked_is_listed(
    tasks: Seq<TaskModel>,
    selection: Selection,
    key: Seq<char>,
    n: int,
    task: TaskModel,
)
    requires
        0 <= n <= tasks.len(),
    ensures
        selected_of(active_before(tasks, n), selection, key).contains(task) <==> tasks.take(
            n,
        ).contains(task) && !task.archived && is_selected(task, selection, key),
    decreases n,
{
    if n > 0 {
        lemma_picked_is_listed(tasks, selection, key, n - 1, task);
        lemma_picked(tasks, selection, key, n);
        let last = tasks[n - 1];
        let before = selected_of(active_before(tasks, n - 1), selection, key);
        assert(tasks.take(n) =~= tasks.take(n - 1).push(last));
        lemma_push_holds(tasks.take(n - 1), last, task);
        lemma_push_holds(before, last, task);
    }
}

proof fn lemma_push_holds(tasks: Seq<TaskModel>, last: TaskModel, task: TaskModel)
    ensures
        tasks.push(last).contains(task) <==> tasks.contains(task) || task == last,
{
    let longer = tasks.push(last);
    if tasks.contains(task) {
        let i = choose|i: int| 0 <= i < tasks.len() && tasks[i] == task;
        assert(longer[i] == task);
    }
    assert(longer[tasks.len() as int] == last);
    if longer.contains(task) && task != last {
        let i = choose|i: int| 0 <= i < longer.len() && longer[i] == task;
        assert(tasks[i] == task);
    }
}

/// The tasks that work in a directory are the active ones of which one worktree is
/// that directory, however its path is written.
pub proof fn law_tasks_of_a_worktree(tasks: Seq<TaskModel>, path: Seq<char>, task: TaskModel)
    ensures
        selected_of(active_of(tasks), Selection::ByWorktree, path).contains(task)
            <==> tasks.contains(task) && !task.archived && exists|i: int|
            0 <= i < task.worktrees.len() && components_of(#[trigger] task.worktrees[i])
                == components_of(path),
{
    lemma_picked_is_listed(tasks, Selection::ByWorktree, path, tasks.len() as int, task);
    assert(tasks.take(tasks.len() as int) =~= tasks);
}

/// A new task stands behind the others, as it was made and active; where its
/// identifier is known already, nothing changes.
pub proof fn law_new_task(
    tasks: Seq<TaskModel>,
    id: u128,
    title: Seq<char>,
    issues: Seq<LinkModel>,
    worktrees: Seq<Seq<char>>,
)
    ensures
        ({
            let after = applied(tasks, CommandModel::New { id, title, issues, worktrees });
            &&& after is Some
            &&& (forall|k: int| 0 <= k < tasks.len() ==> (#[trigger] tasks[k]).id != id) ==> {
                &&& after->0.len() == tasks.len() + 1
                &&& after->0.drop_last() == tasks
                &&& after->0.last().id == id && after->0.last().title == title
                &&& after->0.last().issues == issues && after->0.last().worktrees == worktrees
                &&& !after->0.last().archived
            }
            &&& (exists|k: int| 0 <= k < tasks.len() && (#[trigger] tasks[k]).id == id)
                ==> after->0 == tasks
        }),
{
    lemma_task_from(tasks, 0, id);
    let after = applied(tasks, CommandModel::New { id, title, issues, worktrees });
    if task_from(tasks, 0, id) is None {
        assert(after->0.drop_last() =~= tasks);
    } else {
        assert(after->0 =~= tasks);
    }
}

/// What a command makes of the task that it names: an issue comes in behind the
/// others unless the task has one with that reference, a worktree likewise unless
/// it has that directory; nothing else of it changes, and archiving changes only
/// that. A task that is not there cannot be changed.
pub proof fn law_commands(
    tasks: Seq<TaskModel>,
    id: u128,
    at: int,
    issue: LinkModel,
    path: Seq<char>,
)
    requires
        0 <= at < tasks.len(),
        tasks[at].id == id,
        forall|k: int| 0 <= k < at ==> (#[trigger] tasks[k]).id != id,
    ensures
        ({
            let task = tasks[at];
            let with_issue = applied(tasks, CommandModel::AddIssue { task_id: id, issue });
            let with_path = applied(tasks, CommandModel::AddArena { task_id: id, path });
            let archived = applied(tasks, CommandModel::Archive { task_id: id });
            &&& with_issue is Some && with_path is Some && archived is Some
            &&& (forall|i: int|
                0 <= i < task.issues.len() ==> (#[trigger] task.issues[i]).reference
                    != issue.reference) ==> with_issue->0[at] == (TaskModel {
                issues: task.issues.push(issue),
                ..task
            })
            &&& (exists|i: int|
                0 <= i < task.issues.len() && (#[trigger] task.issues[i]).reference
                    == issue.reference) ==> with_issue->0[at] == task
            &&& (forall|i: int|
                0 <= i < task.worktrees.len() ==> components_of(#[trigger] task.worktrees[i])
                    != components_of(path)) ==> with_path->0[at] == (TaskModel {
                worktrees: task.worktrees.push(path),
                ..task
            })
            &&& (exists|i: int|
                0 <= i < task.worktrees.len() && components_of(#[trigger] task.worktrees[i])
                    == components_of(path)) ==> with_path->0[at] == task
            &&& archived->0[at] == (TaskModel { archived: true, ..task })
        }),
{
    lemma_task_from(tasks, 0, id);
    let found = task_from(tasks, 0, id)->0;
    if found < at {
        assert(tasks[found].id != id);
    }
}

/// A command on a task that is not there is refused.
pub proof fn law_unknown_task(tasks: Seq<TaskModel>, id: u128, issue: LinkModel, path: Seq<char>)
    requires
        forall|k: int| 0 <= k < tasks.len() ==> (#[trigger] tasks[k]).id != id,
    ensures
        applied(tasks, CommandModel::AddIssue { task_id: id, issue }) is None,
        applied(tasks, CommandModel::AddArena { task_id: id, path }) is None,
        applied(tasks, CommandModel::Archive { task_id: id }) is None,
{
    lemma_task_from(tasks, 0, id);
}

/// The written form of an identifier: 36 characters, four of them hyphens that part
/// it into groups of 8, 4, 4, 4 and 12 digits; the last digit is the lowest.
pub proof fn law_written_identifier(id: u128)
    ensures
        hyphenated(id).len() == 8 + 1 + 4 + 1 + 4 + 1 + 4 + 1 + 12,
        hyphenated(id)[8] == '-' && hyphenated(id)[13] == '-' && hyphenated(id)[18] == '-'
            && hyphenated(id)[23] == '-',
        hyphenated(id)[35] == hex_digit(id as int % 16),
        hyphenated(id)[34] == hex_digit((id as int / 16) % 16),
        hex_digit(0) == '0' && hex_digit(9) == '9' && hex_digit(10) == 'a' && hex_digit(15) == 'f',
{
    assert(pow(16, 0) == 1) by {
        reveal(pow);
    }
    assert(pow(16, 1) == 16) by {
        reveal(pow);
        assert(pow(16, 0) == 1);
        reveal_with_fuel(pow, 2);
    }
}

/// Each digit of an identifier but the last is that of a sixteenth of it, one digit
/// further on.
pub proof fn law_digits_of_an_identifier(id: u128, i: int, j: int)
    requires
        0 <= i < j < 36,
        i != 8 && i != 13 && i != 18 && i != 23,
        j == i + 1 || (j == i + 2 && (j == 9 || j == 14 || j == 19 || j == 24)),
        j != 8 && j != 13 && j != 18 && j != 23,
    ensures
        hyphenated(id)[i] == hyphenated((id / 16) as u128)[j],
{
    let e = (31 - digit_index(j)) as nat;
    assert(31 - digit_index(i) == e + 1);
    assert(pow(16, e + 1) == 16 * pow(16, e)) by {
        reveal(pow);
    }
    vstd::arithmetic::power::lemma_pow_positive(16, e);
    vstd::arithmetic::div_mod::lemma_div_denominator(id as int, 16, pow(16, e));
    assert((id / 16) as u128 as int == id as int / 16);
}

/// The list of candidates: one line for each task, with its whole identifier and
/// its title, and a line that says so where there is none.
pub proof fn law_candidates(tasks: Seq<TaskModel>, task: TaskModel)
    ensures
        candidates_text(seq![]) == "  (no tasks)"@,
        candidates_text(seq![task]) == "  "@ + hyphenated(task.id) + "  "@ + task.title,
        tasks.len() > 0 ==> candidates_text(tasks.push(task)) == candidates_text(tasks) + "\n"@
            + candidates_text(seq![task]),
{
    let line = |task: TaskModel| "  "@ + hyphenated(task.id) + "  "@ + task.title;
    let one = Seq::new(1, |i: int| "  "@ + hyphenated(seq![task][i].id) + "  "@ + seq![task][i].title);
    assert(one =~= seq![line(task)]);
    let before = Seq::new(
        tasks.len(),
        |i: int| "  "@ + hyphenated(tasks[i].id) + "  "@ + tasks[i].title,
    );
    let after = Seq::new(
        tasks.push(task).len(),
        |i: int| "  "@ + hyphenated(tasks.push(task)[i].id) + "  "@ + tasks.push(task)[i].title,
    );
    assert(after =~= before.push(line(task)));
    assert(before.push(line(task)).drop_last() =~= before);
}

/// What is said of a command that was refused names what was asked for.
pub proof fn law_refusals(id: u128, index: usize, count: usize)
    ensures
        BoardError::UnknownTask(id).text() == "no task with id "@ + hyphenated(id),
        BoardError::IndexOutOfRange(index, count).text() == "task index "@ + decimal(index as nat)
            + " is out of range (1..="@ + decimal(count as nat) + ")"@,
{
}

} // verus!
