//! The list of arenas, which of them is shown, and what they are called.

use vstd::prelude::*;

use crate::paths::{file_name, file_name_of, is_under, starts_with_path};
use crate::polling::RepoInfo;
use crate::text::{
    chars_of, decimal, decimal_chars, extend, int_index, text_model, text_of, trim, trimmed,
};
use crate::urls::{repo_name, repo_name_from_url};

verus! {

/// An arena: the number by which it is found, its own number, its name, and
/// where it works.
#[derive(Debug)]
pub struct ArenaInfo {
    pub entity: u64,
    pub id: usize,
    pub name: String,
    pub working_directory: Option<String>,
}

/// The arenas in the order in which they are listed.
#[derive(Debug)]
pub struct Arenas {
    pub list: Vec<ArenaInfo>,
    pub active_arena_index: Option<usize>,
    pub next_arena_id: usize,
    pub renaming_arena: Option<u64>,
}

/// A worktree of the project: where it is, and the name of its root.
#[derive(Debug)]
pub struct WorktreeInfo {
    pub abs_path: String,
    pub root_name: String,
}

/// Whether the arena at `index` is the one with a number.
pub open spec fn is_arena(list: Seq<ArenaInfo>, index: int, entity: u64) -> bool {
    0 <= index < list.len() && list[index].entity == entity
}

/// No number stands for two arenas.
pub open spec fn are_distinct_arenas(list: Seq<ArenaInfo>) -> bool {
    forall|i: int, j: int|
        0 <= i < j < list.len() ==> (#[trigger] list[i]).entity != (#[trigger] list[j]).entity
}

/// Which arena is shown after the one at `removed` is gone, where `count` are
/// left: the next one, or the last.
pub open spec fn active_after_removal(active: int, removed: int, count: int) -> int {
    if active == removed {
        if active < count {
            active
        } else {
            count - 1
        }
    } else if active > removed {
        active - 1
    } else {
        active
    }
}

impl Arenas {
    /// One arena is shown if there are any, and no two are the same.
    pub open spec fn well_formed(self) -> bool {
        &&& are_distinct_arenas(self.list@)
        &&& match self.active_arena_index {
            Some(index) => index < self.list@.len(),
            None => self.list@.len() == 0,
        }
    }

    /// The number of the arena that is shown.
    pub open spec fn active_entity(self) -> Option<u64> {
        match self.active_arena_index {
            Some(index) => Some(self.list@[index as int].entity),
            None => None,
        }
    }

    /// These arenas are those before without the one at `index`. Where that was
    /// shown, the one behind it is, or the last.
    pub open spec fn is_removal(self, before: Self, index: int) -> bool {
        &&& self.list@ == before.list@.remove(index)
        &&& self.next_arena_id == before.next_arena_id
        &&& self.renaming_arena == (if before.renaming_arena == Some(before.list@[index].entity) {
            None
        } else {
            before.renaming_arena
        })
        &&& self.active_arena_index == (if self.list@.len() == 0 {
            None
        } else {
            Some(
                active_after_removal(
                    before.active_arena_index->0 as int,
                    index,
                    self.list@.len() as int,
                ) as usize,
            )
        })
    }

    pub fn new() -> (arenas: Self)
        ensures
            arenas.well_formed(),
            arenas.list@.len() == 0,
            arenas.active_arena_index is None,
            arenas.next_arena_id == 0,
            arenas.renaming_arena is None,
    {
        Arenas {
            list: Vec::new(),
            active_arena_index: None,
            next_arena_id: 0,
            renaming_arena: None,
        }
    }

    pub fn find(&self, entity: u64) -> (found: Option<usize>)
        ensures
            match found {
                Some(index) => is_arena(self.list@, index as int, entity) && forall|k: int|
                    0 <= k < index ==> !#[trigger] is_arena(self.list@, k, entity),
                None => forall|k: int| !#[trigger] is_arena(self.list@, k, entity),
            },
    {
        let mut i: usize = 0;
        while i < self.list.len()
            invariant
                i <= self.list@.len(),
                forall|k: int| 0 <= k < i ==> !#[trigger] is_arena(self.list@, k, entity),
            decreases self.list@.len() - i,
        {
            if self.list[i].entity == entity {
                return Some(i);
            }
            i += 1;
        }
        None
    }

    /// The arena that is shown.
    pub fn active_arena(&self) -> (active: Option<&ArenaInfo>)
        requires
            self.well_formed(),
        ensures
            match active {
                Some(arena) => self.active_arena_index matches Some(index) && *arena
                    == self.list@[index as int],
                None => self.active_arena_index is None,
            },
    {
        match self.active_arena_index {
            Some(index) => Some(&self.list[index]),
            None => None,
        }
    }

    /// Adds an arena behind the others and shows it.
    pub fn add_arena_inner(&mut self, entity: u64, name: String, working_directory: Option<String>)
        requires
            old(self).well_formed(),
            old(self).next_arena_id < usize::MAX,
            forall|k: int| !#[trigger] is_arena(old(self).list@, k, entity),
        ensures
            final(self).well_formed(),
            final(self).list@ == old(self).list@.push(
                (ArenaInfo { entity, id: old(self).next_arena_id, name, working_directory }),
            ),
            final(self).active_arena_index == Some((final(self).list@.len() - 1) as usize),
            final(self).next_arena_id == old(self).next_arena_id + 1,
            final(self).renaming_arena == old(self).renaming_arena,
    {
        let ghost before = self.list@;
        let id = self.next_arena_id;
        self.next_arena_id = id + 1;
        self.list.push(ArenaInfo { entity, id, name, working_directory });
        self.active_arena_index = Some(self.list.len() - 1);
        assert(are_distinct_arenas(self.list@)) by {
            assert forall|i: int, j: int| 0 <= i < j < self.list@.len() implies (
            #[trigger] self.list@[i]).entity != (#[trigger] self.list@[j]).entity by {
                if j == before.len() {
                    assert(!is_arena(before, i, entity));
                } else {
                    assert(before[i].entity != before[j].entity);
                }
            }
        }
    }

    /// Shows the arena at an index, if there is one.
    pub fn switch_arena(&mut self, index: usize) -> (switched: bool)
        requires
            old(self).well_formed(),
        ensures
            final(self).well_formed(),
            switched == (index < old(self).list@.len()),
            final(self).list == old(self).list,
            final(self).next_arena_id == old(self).next_arena_id,
            final(self).renaming_arena == old(self).renaming_arena,
            final(self).active_arena_index == (if switched {
                Some(index)
            } else {
                old(self).active_arena_index
            }),
    {
        if index < self.list.len() {
            self.active_arena_index = Some(index);
            true
        } else {
            false
        }
    }

    /// Begins to rename an arena. Its name is where to begin from.
    pub fn start_rename_arena(&mut self, entity: u64) -> (name: Option<String>)
        requires
            old(self).well_formed(),
        ensures
            final(self).well_formed(),
            final(self).list == old(self).list,
            final(self).active_arena_index == old(self).active_arena_index,
            final(self).next_arena_id == old(self).next_arena_id,
            match name {
                Some(name) => final(self).renaming_arena == Some(entity) && exists|k: int|
                    is_arena(old(self).list@, k, entity) && (#[trigger] old(self).list@[k]).name@
                        == name@,
                None => final(self).renaming_arena == old(self).renaming_arena && forall|k: int|
                    !#[trigger] is_arena(old(self).list@, k, entity),
            },
    {
        match self.find(entity) {
            Some(index) => {
                self.renaming_arena = Some(entity);
                assert(is_arena(self.list@, index as int, entity));
                Some(self.list[index].name.clone())
            },
            None => None,
        }
    }

    /// Ends renaming. An arena takes a name that was accepted and is not blank.
    pub fn finish_rename_arena(&mut self, accept: bool, text: String) -> (finished: bool)
        requires
            old(self).well_formed(),
        ensures
            final(self).well_formed(),
            finished == (old(self).renaming_arena is Some),
            final(self).renaming_arena is None,
            final(self).active_arena_index == old(self).active_arena_index,
            final(self).next_arena_id == old(self).next_arena_id,
            final(self).list@.len() == old(self).list@.len(),
            forall|k: int|
                0 <= k < old(self).list@.len() ==> {
                    let before = old(self).list@[k];
                    let after = #[trigger] final(self).list@[k];
                    &&& after.entity == before.entity
                    &&& after.id == before.id
                    &&& after.working_directory == before.working_directory
                    &&& after.name == (if accept && trim(text@).len() > 0 && old(
                        self,
                    ).renaming_arena == Some(before.entity) {
                        text
                    } else {
                        before.name
                    })
                },
    {
        let ghost before = self.list@;
        let entity = match self.renaming_arena.take() {
            Some(entity) => entity,
            None => {
                return false;
            },
        };
        if accept {
            let chars = chars_of(text.as_str());
            if trimmed(chars.as_slice()).len() > 0 {
                if let Some(index) = self.find(entity) {
                    assert forall|k: int| 0 <= k < before.len() && k != index implies (
                    #[trigger] before[k]).entity != entity by {
                        if k < index {
                            assert(!is_arena(before, k, entity));
                        } else {
                            assert(before[index as int].entity != before[k].entity);
                        }
                    }
                    self.list[index].name = text;
                    assert(are_distinct_arenas(self.list@)) by {
                        assert forall|i: int, j: int| 0 <= i < j < self.list@.len() implies (
                        #[trigger] self.list@[i]).entity != (#[trigger] self.list@[j]).entity by {
                            assert(before[i].entity != before[j].entity);
                        }
                    }
                } else {
                    assert forall|k: int| 0 <= k < before.len() implies (
                    #[trigger] before[k]).entity != entity by {
                        assert(!is_arena(before, k, entity));
                    }
                }
            }
        }
        true
    }

    /// Removes an arena. Where it was shown, the one behind it is, or the last.
    pub fn remove_arena(&mut self, entity: u64) -> (removed: Option<usize>)
        requires
            old(self).well_formed(),
        ensures
            final(self).well_formed(),
            match removed {
                Some(index) => is_arena(old(self).list@, index as int, entity) && final(
                    self
                ).is_removal(*old(self), index as int),
                None => *final(self) == *old(self) && forall|k: int|
                    !#[trigger] is_arena(old(self).list@, k, entity),
            },
    {
        let ghost before = self.list@;
        let index = match self.find(entity) {
            Some(index) => index,
            None => {
                return None;
            },
        };
        self.list.remove(index);
        if self.list.len() == 0 {
            self.active_arena_index = None;
        } else if let Some(active) = self.active_arena_index {
            if active == index {
                let last = self.list.len() - 1;
                self.active_arena_index = Some(if active < last { active } else { last });
            } else if active > index {
                self.active_arena_index = Some(active - 1);
            }
        }
        if self.renaming_arena == Some(entity) {
            self.renaming_arena = None;
        }
        assert(are_distinct_arenas(self.list@)) by {
            assert forall|i: int, j: int| 0 <= i < j < self.list@.len() implies (
            #[trigger] self.list@[i]).entity != (#[trigger] self.list@[j]).entity by {
                let i0 = if i < index { i } else { i + 1 };
                let j0 = if j < index { j } else { j + 1 };
                assert(before[i0].entity != before[j0].entity);
            }
        }
        Some(index)
    }
}

/// An arena that is shown stays the one shown when another is removed.
pub proof fn law_removal_keeps_shown_arena(arenas: Seq<ArenaInfo>, active: int, removed: int)
    requires
        0 <= active < arenas.len(),
        0 <= removed < arenas.len(),
        active != removed,
    ensures
        ({
            let left = arenas.remove(removed);
            let shown = active_after_removal(active, removed, left.len() as int);
            0 <= shown < left.len() && left[shown] == arenas[active]
        }),
{
}

/// The first worktree from `from` on that holds a path and has a name.
pub open spec fn worktree_name(worktrees: Seq<WorktreeInfo>, path: Seq<char>, from: int) -> Option<
    Seq<char>,
>
    decreases worktrees.len() - from,
{
    if from < 0 || from >= worktrees.len() {
        None
    } else if is_under(path, worktrees[from].abs_path@) && worktrees[from].root_name@.len() > 0 {
        Some(worktrees[from].root_name@)
    } else {
        worktree_name(worktrees, path, from + 1)
    }
}

/// The first repository from `from` on that holds a path.
pub open spec fn repo_from(repos: Seq<RepoInfo>, path: Seq<char>, from: int) -> Option<int>
    decreases repos.len() - from,
{
    if from < 0 || from >= repos.len() {
        None
    } else if is_under(path, repos[from].work_directory@) {
        Some(from)
    } else {
        repo_from(repos, path, from + 1)
    }
}

/// Where an arena is taken to work: in its own directory, or in the first
/// worktree.
pub open spec fn effective_path_of(
    working_directory: Option<Seq<char>>,
    worktrees: Seq<WorktreeInfo>,
) -> Option<Seq<char>> {
    if working_directory is Some {
        working_directory
    } else if worktrees.len() > 0 {
        Some(worktrees[0].abs_path@)
    } else {
        None
    }
}

pub open spec fn fallback_name(id: int) -> Seq<char> {
    "Arena "@ + decimal((id + 1) as nat)
}

/// What an arena is called: after the remote of its repository, else after its
/// worktree, else after the directory of the repository, else after its own.
pub open spec fn arena_name(
    working_directory: Option<Seq<char>>,
    worktrees: Seq<WorktreeInfo>,
    repos: Seq<RepoInfo>,
    id: int,
) -> Seq<char> {
    match effective_path_of(working_directory, worktrees) {
        None => fallback_name(id),
        Some(path) => {
            let repo = repo_from(repos, path, 0);
            let remote = match repo {
                Some(index) => match repos[index].remote_origin_url {
                    Some(url) => repo_name(url@),
                    None => None,
                },
                None => None,
            };
            let directory = match repo {
                Some(index) => file_name_of(repos[index].work_directory@),
                None => None,
            };
            if remote is Some {
                remote->0
            } else if worktree_name(worktrees, path, 0) is Some {
                worktree_name(worktrees, path, 0)->0
            } else if directory is Some {
                directory->0
            } else if file_name_of(path) is Some && (file_name_of(path)->0).len() > 0 {
                file_name_of(path)->0
            } else {
                fallback_name(id)
            }
        },
    }
}

fn find_worktree_name(worktrees: &Vec<WorktreeInfo>, path: &str) -> (name: Option<String>)
    ensures
        text_model(name) == worktree_name(worktrees@, path@, 0),
{
    let mut i: usize = 0;
    while i < worktrees.len()
        invariant
            i <= worktrees@.len(),
            worktree_name(worktrees@, path@, 0) == worktree_name(worktrees@, path@, i as int),
        decreases worktrees@.len() - i,
    {
        if starts_with_path(path, worktrees[i].abs_path.as_str())
            && !worktrees[i].root_name.as_str().is_empty() {
            return Some(worktrees[i].root_name.clone());
        }
        i += 1;
    }
    None
}

fn find_repo(repos: &Vec<RepoInfo>, path: &str) -> (found: Option<usize>)
    ensures
        int_index(found) == repo_from(repos@, path@, 0),
        found matches Some(index) ==> index < repos@.len(),
{
    let mut i: usize = 0;
    while i < repos.len()
        invariant
            i <= repos@.len(),
            repo_from(repos@, path@, 0) == repo_from(repos@, path@, i as int),
        decreases repos@.len() - i,
    {
        if starts_with_path(path, repos[i].work_directory.as_str()) {
            return Some(i);
        }
        i += 1;
    }
    None
}

fn fallback(id: usize) -> (name: String)
    requires
        id < usize::MAX,
    ensures
        name@ == fallback_name(id as int),
{
    let mut chars = chars_of("Arena ");
    let number = decimal_chars((id + 1) as u64);
    extend(&mut chars, number.as_slice());
    text_of(chars.as_slice())
}

/// Where an arena is taken to work.
pub fn effective_path(working_directory: &Option<String>, worktrees: &Vec<WorktreeInfo>) -> (path: Option<
    String,
>)
    ensures
        text_model(path) == effective_path_of(text_model(*working_directory), worktrees@),
{
    match working_directory {
        Some(directory) => Some(directory.clone()),
        None => if worktrees.len() > 0 {
            Some(worktrees[0].abs_path.clone())
        } else {
            None
        },
    }
}

/// What an arena is called. The repositories and the worktrees are looked
/// through in the order given.
pub fn resolve_arena_name(
    working_directory: &Option<String>,
    worktrees: &Vec<WorktreeInfo>,
    repos: &Vec<RepoInfo>,
    fallback_id: usize,
) -> (name: String)
    requires
        fallback_id < usize::MAX,
    ensures
        name@ == arena_name(
            text_model(*working_directory),
            worktrees@,
            repos@,
            fallback_id as int,
        ),
{
    let path = match effective_path(working_directory, worktrees) {
        Some(path) => path,
        None => {
            return fallback(fallback_id);
        },
    };
    let repo = find_repo(repos, path.as_str());
    if let Some(index) = repo {
        if let Some(url) = &repos[index].remote_origin_url {
            if let Some(name) = repo_name_from_url(url.as_str()) {
                return name;
            }
        }
    }
    if let Some(name) = find_worktree_name(worktrees, path.as_str()) {
        return name;
    }
    if let Some(index) = repo {
        if let Some(name) = file_name(repos[index].work_directory.as_str()) {
            return name;
        }
    }
    if let Some(name) = file_name(path.as_str()) {
        if !name.as_str().is_empty() {
            return name;
        }
    }
    fallback(fallback_id)
}

/// When the arena that is shown is removed, the next one is shown, or the last
/// where there is no next.
pub proof fn law_removing_the_shown_arena(arenas: Seq<ArenaInfo>, active: int)
    requires
        0 <= active < arenas.len(),
        arenas.len() > 1,
    ensures
        ({
            let left = arenas.remove(active);
            let shown = active_after_removal(active, active, left.len() as int);
            &&& 0 <= shown < left.len()
            &&& active + 1 < arenas.len() ==> left[shown] == arenas[active + 1]
            &&& active + 1 == arenas.len() ==> left[shown] == arenas[active - 1]
        }),
{
}

/// What an arena that was removed leaves: every other one, in the same order, and
/// none of them renamed.
pub proof fn law_removal(after: Arenas, before: Arenas, index: int, other: int)
    requires
        before.well_formed(),
        after.is_removal(before, index),
        0 <= index < before.list@.len(),
        0 <= other < before.list@.len(),
    ensures
        after.list@.len() == before.list@.len() - 1,
        other < index ==> after.list@[other] == before.list@[other],
        other > index ==> after.list@[other - 1] == before.list@[other],
        before.renaming_arena == Some(before.list@[index].entity) ==> after.renaming_arena is None,
        before.renaming_arena != Some(before.list@[index].entity) ==> after.renaming_arena
            == before.renaming_arena,
        after.next_arena_id == before.next_arena_id,
{
}

/// An arena works in its own directory where it has one, else in the first
/// worktree.
pub proof fn law_where_an_arena_works(
    directory: Seq<char>,
    worktrees: Seq<WorktreeInfo>,
)
    ensures
        effective_path_of(Some(directory), worktrees) == Some(directory),
        worktrees.len() > 0 ==> effective_path_of(None, worktrees) == Some(
            worktrees[0].abs_path@,
        ),
        worktrees.len() == 0 ==> effective_path_of(None, worktrees) is None,
{
}

/// The first repository that holds the directory of an arena.
pub open spec fn is_first_repo(repos: Seq<RepoInfo>, path: Seq<char>, index: int) -> bool {
    &&& 0 <= index < repos.len()
    &&& is_under(path, repos[index].work_directory@)
    &&& forall|k: int|
        0 <= k < index ==> !is_under(path, (#[trigger] repos[k]).work_directory@)
}

proof fn lemma_repo_from(repos: Seq<RepoInfo>, path: Seq<char>, from: int, index: int)
    requires
        is_first_repo(repos, path, index),
        0 <= from <= index,
    ensures
        repo_from(repos, path, from) == Some(index),
    decreases index - from,
{
    if from < index {
        assert(!is_under(path, repos[from].work_directory@));
        lemma_repo_from(repos, path, from + 1, index);
    }
}

/// An arena is called after the remote of the first repository that holds its
/// directory, where that names one.
pub proof fn law_arena_is_called_after_its_remote(
    directory: Seq<char>,
    worktrees: Seq<WorktreeInfo>,
    repos: Seq<RepoInfo>,
    id: int,
    index: int,
)
    requires
        is_first_repo(repos, directory, index),
        repos[index].remote_origin_url matches Some(url) && repo_name(url@) is Some,
    ensures
        Some(arena_name(Some(directory), worktrees, repos, id)) == repo_name(
            repos[index].remote_origin_url->0@,
        ),
{
    lemma_repo_from(repos, directory, 0, index);
}

/// An arena in no repository is called after the first worktree around it, else
/// after its directory, else by its number.
pub proof fn law_arena_without_a_repository(
    directory: Seq<char>,
    worktrees: Seq<WorktreeInfo>,
    repos: Seq<RepoInfo>,
    id: int,
)
    requires
        forall|k: int|
            0 <= k < repos.len() ==> !is_under(directory, (#[trigger] repos[k]).work_directory@),
    ensures
        worktrees.len() > 0 && is_under(directory, worktrees[0].abs_path@)
            && worktrees[0].root_name@.len() > 0 ==> arena_name(
            Some(directory),
            worktrees,
            repos,
            id,
        ) == worktrees[0].root_name@,
        worktrees.len() == 0 && (file_name_of(directory) matches Some(name) && name.len() > 0)
            ==> Some(arena_name(Some(directory), worktrees, repos, id)) == file_name_of(directory),
        worktrees.len() == 0 ==> arena_name(None, worktrees, repos, id) == "Arena "@ + decimal(
            (id + 1) as nat,
        ),
{
    lemma_no_repo(repos, directory, 0);
}

proof fn lemma_no_repo(repos: Seq<RepoInfo>, path: Seq<char>, from: int)
    requires
        0 <= from,
        forall|k: int|
            0 <= k < repos.len() ==> !is_under(path, (#[trigger] repos[k]).work_directory@),
    ensures
        repo_from(repos, path, from) is None,
    decreases repos.len() - from,
{
    if from < repos.len() {
        assert(!is_under(path, repos[from].work_directory@));
        lemma_no_repo(repos, path, from + 1);
    }
}

} // verus!
