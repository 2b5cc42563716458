//! The list of recent projects, and the search in it.

use vstd::prelude::*;

use crate::order::{
    comes_before, is_order, key_views, law_order_exists, less_from, order_of, sorted_by_keys,
};
use crate::paths::{file_name, file_name_of, law_names_in_directories};
use crate::text::{
    chars_of, extend_text, join, joined, spelled, string_models, text_model, text_of, trim_start_of,
    trimmed_start_of, CharClass,
};

verus! {

/// A project that was opened: whether it is on this machine, its directories,
/// and the same directories in the order in which they are shown, as they are
/// and abbreviated.
#[derive(Debug)]
pub struct RecentWorkspace {
    pub workspace_id: i64,
    pub is_local: bool,
    pub paths: Vec<String>,
    pub ordered_paths: Vec<String>,
    pub compact_paths: Vec<String>,
}

/// What a search found: the place of a project, and how well it fits. A greater
/// number fits better.
#[derive(Clone, Copy, Debug, PartialEq, Eq, Structural)]
pub struct ProjectMatch {
    pub candidate_id: usize,
    pub score: u64,
}

#[derive(Debug)]
pub struct AgentiumRecentProjectsDelegate {
    pub workspaces: Vec<RecentWorkspace>,
    pub filtered_workspaces: Vec<usize>,
    pub selected_index: usize,
}

/// A project that is searched for: its place, and the text that is searched.
#[derive(Debug)]
pub struct Candidate {
    pub id: usize,
    pub text: String,
}

/// Whether a character has the Unicode property `Uppercase`.
pub uninterp spec fn is_uppercase_char(c: char) -> bool;

/// `char::is_uppercase`: depends on the character alone.
pub assume_specification[ char::is_uppercase ](c: char) -> (b: bool)
    ensures
        b == is_uppercase_char(c),
;

/// Whether a search tells capital letters from small ones: where it holds any.
pub fn smart_case(query: &str) -> (smart: bool)
    ensures
        smart == exists|i: int| 0 <= i < query@.len() && is_uppercase_char(#[trigger] query@[i]),
{
    let chars = chars_of(query);
    let mut i: usize = 0;
    while i < chars.len()
        invariant
            chars@ == query@,
            i <= chars@.len(),
            forall|k: int| 0 <= k < i ==> !is_uppercase_char(#[trigger] chars@[k]),
        decreases chars@.len() - i,
    {
        let c: char = chars[i];
        if c.is_uppercase() {
            assert(is_uppercase_char(query@[i as int]));
            return true;
        }
        i += 1;
    }
    false
}

/// What is searched for: without blanks at its beginning.
pub fn search_text(query: &str) -> (text: String)
    ensures
        text@ == trim_start_of(query@, CharClass::Whitespace),
{
    let chars = chars_of(query);
    text_of(trimmed_start_of(chars.as_slice(), CharClass::Whitespace))
}

/// The texts one behind another.
pub open spec fn chained(texts: Seq<Seq<char>>, n: int) -> Seq<char>
    decreases n,
{
    if n <= 0 {
        seq![]
    } else {
        chained(texts, n - 1) + texts[n - 1]
    }
}

fn chain(texts: &Vec<String>) -> (text: String)
    ensures
        text@ == chained(string_models(texts@), texts@.len() as int),
{
    let ghost models = string_models(texts@);
    let mut chars: Vec<char> = Vec::new();
    assert(chars@ =~= seq![]);
    let mut i: usize = 0;
    while i < texts.len()
        invariant
            i <= texts@.len(),
            models == string_models(texts@),
            chars@ == chained(models, i as int),
        decreases texts@.len() - i,
    {
        extend_text(&mut chars, texts[i].as_str());
        i += 1;
    }
    text_of(chars.as_slice())
}

/// The places of the projects among the first `n` that are on this machine.
pub open spec fn local_before(workspaces: Seq<RecentWorkspace>, n: int) -> Seq<int>
    decreases n,
{
    if n <= 0 {
        seq![]
    } else if workspaces[n - 1].is_local {
        local_before(workspaces, n - 1).push(n - 1)
    } else {
        local_before(workspaces, n - 1)
    }
}

pub open spec fn places(indices: Seq<usize>) -> Seq<int> {
    Seq::new(indices.len(), |i: int| indices[i] as int)
}

/// How matches are sorted: the better ones first, then by their places.
pub open spec fn match_key(found: ProjectMatch) -> Seq<u32> {
    let worse = (u64::MAX - found.score) as u64;
    let place = found.candidate_id as u64;
    seq![
        (worse / 0x1_0000_0000) as u32,
        (worse % 0x1_0000_0000) as u32,
        (place / 0x1_0000_0000) as u32,
        (place % 0x1_0000_0000) as u32,
    ]
}

pub open spec fn match_keys(found: Seq<ProjectMatch>) -> Seq<Seq<u32>> {
    Seq::new(found.len(), |i: int| match_key(found[i]))
}

/// The places of what was found, the better ones first.
pub open spec fn ranked(found: Seq<ProjectMatch>) -> Seq<int> {
    Seq::new(found.len(), |i: int| found[order_of(match_keys(found))[i] as int].candidate_id as int)
}

fn key_of(found: ProjectMatch) -> (key: Vec<u32>)
    ensures
        key@ == match_key(found),
{
    let worse: u64 = 0xFFFF_FFFF_FFFF_FFFF - found.score;
    let place: u64 = found.candidate_id as u64;
    let key: Vec<u32> = vec![
        (worse / 0x1_0000_0000) as u32,
        (worse % 0x1_0000_0000) as u32,
        (place / 0x1_0000_0000) as u32,
        (place % 0x1_0000_0000) as u32,
    ];
    assert(key@ =~= match_key(found));
    key
}

fn rank(found: &Vec<ProjectMatch>) -> (order: Vec<usize>)
    ensures
        places(order@) == ranked(found@),
{
    let mut keys: Vec<Vec<u32>> = Vec::new();
    let mut i: usize = 0;
    while i < found.len()
        invariant
            i <= found@.len(),
            key_views(keys@) =~= match_keys(found@).take(i as int),
        decreases found@.len() - i,
    {
        let ghost before = key_views(keys@);
        let key = key_of(found[i]);
        let ghost view = key@;
        keys.push(key);
        assert(key_views(keys@) =~= before.push(view));
        i += 1;
    }
    assert(key_views(keys@) =~= match_keys(found@));
    let order = sorted_by_keys(&keys);
    let mut ids: Vec<usize> = Vec::new();
    let mut k: usize = 0;
    while k < order.len()
        invariant
            k <= order@.len(),
            order@.len() == found@.len(),
            is_order(match_keys(found@), order@),
            order@ == order_of(match_keys(found@)),
            places(ids@) =~= ranked(found@).take(k as int),
        decreases order@.len() - k,
    {
        let ghost before = places(ids@);
        ids.push(found[order[k]].candidate_id);
        assert(places(ids@) =~= before.push(ranked(found@)[k as int]));
        k += 1;
    }
    assert(places(ids@) =~= ranked(found@));
    ids
}

impl AgentiumRecentProjectsDelegate {
    pub fn new() -> (delegate: Self)
        ensures
            delegate.workspaces@.len() == 0,
            delegate.filtered_workspaces@.len() == 0,
            delegate.selected_index == 0,
    {
        AgentiumRecentProjectsDelegate {
            workspaces: Vec::new(),
            filtered_workspaces: Vec::new(),
            selected_index: 0,
        }
    }

    pub fn set_workspaces(&mut self, workspaces: Vec<RecentWorkspace>)
        ensures
            final(self).workspaces == workspaces,
            final(self).filtered_workspaces == old(self).filtered_workspaces,
            final(self).selected_index == old(self).selected_index,
    {
        self.workspaces = workspaces;
    }

    pub fn match_count(&self) -> (count: usize)
        ensures
            count == self.filtered_workspaces@.len(),
    {
        self.filtered_workspaces.len()
    }

    pub fn set_selected_index(&mut self, ix: usize)
        ensures
            final(self).workspaces == old(self).workspaces,
            final(self).filtered_workspaces == old(self).filtered_workspaces,
            final(self).selected_index == ix,
    {
        self.selected_index = ix;
    }

    /// The projects that are searched: those on this machine, by their
    /// abbreviated directories.
    pub fn candidates(&self) -> (candidates: Vec<Candidate>)
        ensures
            ({
                let local = local_before(self.workspaces@, self.workspaces@.len() as int);
                &&& candidates@.len() == local.len()
                &&& forall|i: int|
                    0 <= i < local.len() ==> (#[trigger] candidates@[i]).id == local[i]
                        && candidates@[i].text@ == chained(
                        string_models(self.workspaces@[local[i]].compact_paths@),
                        self.workspaces@[local[i]].compact_paths@.len() as int,
                    )
            }),
    {
        let mut candidates: Vec<Candidate> = Vec::new();
        let mut i: usize = 0;
        while i < self.workspaces.len()
            invariant
                i <= self.workspaces@.len(),
                candidates@.len() == local_before(self.workspaces@, i as int).len(),
                forall|k: int|
                    0 <= k < candidates@.len() ==> (#[trigger] candidates@[k]).id == local_before(
                        self.workspaces@,
                        i as int,
                    )[k] && candidates@[k].text@ == chained(
                        string_models(
                            self.workspaces@[local_before(
                                self.workspaces@,
                                i as int,
                            )[k]].compact_paths@,
                        ),
                        self.workspaces@[local_before(
                            self.workspaces@,
                            i as int,
                        )[k]].compact_paths@.len() as int,
                    ),
            decreases self.workspaces@.len() - i,
        {
            if self.workspaces[i].is_local {
                let text = chain(&self.workspaces[i].compact_paths);
                candidates.push(Candidate { id: i, text });
            }
            i += 1;
        }
        candidates
    }

    /// Shows all projects on this machine, where nothing is searched for, else
    /// what was found, the better ones first. The first one is selected.
    pub fn update_matches(&mut self, query: &str, found: &Vec<ProjectMatch>)
        ensures
            final(self).workspaces == old(self).workspaces,
            final(self).selected_index == 0,
            places(final(self).filtered_workspaces@) == if trim_start_of(
                query@,
                CharClass::Whitespace,
            ).len() == 0 {
                local_before(old(self).workspaces@, old(self).workspaces@.len() as int)
            } else {
                ranked(found@)
            },
    {
        let text = search_text(query);
        if text.as_str().is_empty() {
            let mut local: Vec<usize> = Vec::new();
            assert(places(local@) =~= seq![]);
            let mut i: usize = 0;
            while i < self.workspaces.len()
                invariant
                    *self == *old(self),
                    i <= self.workspaces@.len(),
                    places(local@) == local_before(self.workspaces@, i as int),
                decreases self.workspaces@.len() - i,
            {
                if self.workspaces[i].is_local {
                    let ghost before = places(local@);
                    local.push(i);
                    assert(places(local@) =~= before.push(i as int));
                }
                i += 1;
            }
            self.filtered_workspaces = local;
        } else {
            self.filtered_workspaces = rank(found);
        }
        self.selected_index = 0;
    }

    /// The project that is shown at a place.
    pub open spec fn shown(self, ix: int) -> Option<RecentWorkspace> {
        if ix < self.filtered_workspaces@.len() && self.filtered_workspaces@[ix]
            < self.workspaces@.len() {
            Some(self.workspaces@[self.filtered_workspaces@[ix] as int])
        } else {
            None
        }
    }

    fn project_at(&self, ix: usize) -> (project: Option<&RecentWorkspace>)
        ensures
            match project {
                Some(project) => self.shown(ix as int) == Some(*project),
                None => self.shown(ix as int) is None,
            },
    {
        if ix < self.filtered_workspaces.len() {
            let place = self.filtered_workspaces[ix];
            if place < self.workspaces.len() {
                return Some(&self.workspaces[place]);
            }
        }
        None
    }

    /// The directory that is opened: the first one of the selected project.
    pub fn confirm(&self) -> (path: Option<String>)
        ensures
            text_model(path) == match self.shown(self.selected_index as int) {
                Some(project) => if project.is_local && project.paths@.len() > 0 {
                    Some(project.paths@[0]@)
                } else {
                    None
                },
                None => None,
            },
    {
        match self.project_at(self.selected_index) {
            Some(project) => if project.is_local && project.paths.len() > 0 {
                Some(project.paths[0].clone())
            } else {
                None
            },
            None => None,
        }
    }

    /// The project that is deleted from the list.
    pub fn delete_recent_project(&self, ix: usize) -> (workspace_id: Option<i64>)
        ensures
            workspace_id == match self.shown(ix as int) {
                Some(project) => Some(project.workspace_id),
                None => None,
            },
    {
        match self.project_at(ix) {
            Some(project) => Some(project.workspace_id),
            None => None,
        }
    }

    /// What is shown where no project is.
    pub fn no_matches_text(&self) -> (text: String)
        ensures
            text@ == if self.workspaces@.len() == 0 {
                "Recently opened projects will show up here"@
            } else {
                "No matches"@
            },
    {
        if self.workspaces.len() == 0 {
            "Recently opened projects will show up here".to_string()
        } else {
            "No matches".to_string()
        }
    }

    /// What is shown of a project: the name of its first directory, and below it
    /// all its directories, one to a line.
    pub fn render_match(&self, ix: usize) -> (row: Option<(String, String)>)
        ensures
            match self.shown(ix as int) {
                Some(project) => row matches Some(row) && row.0@ == project_name(project)
                    && row.1@ == joined(string_models(project.compact_paths@), "\n"@),
                None => row is None,
            },
    {
        match self.project_at(ix) {
            Some(project) => {
                let name = if project.ordered_paths.len() > 0 {
                    file_name(project.ordered_paths[0].as_str())
                } else {
                    None
                };
                let name = match name {
                    Some(name) => name,
                    None => if project.compact_paths.len() > 0 {
                        project.compact_paths[0].clone()
                    } else {
                        String::new()
                    },
                };
                Some((name, join_lines(&project.compact_paths)))
            },
            None => None,
        }
    }
}

/// The name of a project: that of its first directory.
pub open spec fn project_name(project: RecentWorkspace) -> Seq<char> {
    let first = if project.ordered_paths@.len() > 0 {
        file_name_of(project.ordered_paths@[0]@)
    } else {
        None
    };
    match first {
        Some(name) => name,
        None => if project.compact_paths@.len() > 0 {
            project.compact_paths@[0]@
        } else {
            seq![]
        },
    }
}

fn join_lines(texts: &Vec<String>) -> (text: String)
    ensures
        text@ == joined(string_models(texts@), "\n"@),
{
    let ghost models = string_models(texts@);
    let mut spelled_texts: Vec<Vec<char>> = Vec::new();
    let mut i: usize = 0;
    while i < texts.len()
        invariant
            i <= texts@.len(),
            models == string_models(texts@),
            spelled(spelled_texts@) =~= models.take(i as int),
        decreases texts@.len() - i,
    {
        let ghost before = spelled(spelled_texts@);
        let chars = chars_of(texts[i].as_str());
        let ghost view = chars@;
        spelled_texts.push(chars);
        assert(spelled(spelled_texts@) =~= before.push(view));
        i += 1;
    }
    assert(spelled(spelled_texts@) =~= models);
    let chars = join(&spelled_texts, "\n");
    text_of(chars.as_slice())
}

/// A project that fits better is shown before one that fits less, and of two
/// that fit alike the earlier one is.
pub proof fn law_better_matches_come_first(found: Seq<ProjectMatch>, i: int, j: int)
    requires
        found.len() <= usize::MAX,
        0 <= i < j < found.len(),
    ensures
        ({
            let order = order_of(match_keys(found));
            let a = found[order[i] as int];
            let b = found[order[j] as int];
            a.score > b.score || (a.score == b.score && a.candidate_id <= b.candidate_id)
        }),
{
    let keys = match_keys(found);
    law_order_exists(keys);
    let order = order_of(keys);
    let a = found[order[i] as int];
    let b = found[order[j] as int];
    assert(comes_before(keys, order[i] as int, order[j] as int));
    reveal_with_fuel(less_from, 5);
    let ka = match_key(a);
    let kb = match_key(b);
    assert(keys[order[i] as int] == ka && keys[order[j] as int] == kb);
    assert(ka[0] == kb[0] && ka[1] == kb[1] ==> a.score == b.score);
    assert(ka[2] == kb[2] && ka[3] == kb[3] ==> a.candidate_id == b.candidate_id);
}

proof fn lemma_local(workspaces: Seq<RecentWorkspace>, n: int)
    requires
        0 <= n <= workspaces.len(),
    ensures
        forall|i: int|
            #[trigger] local_before(workspaces, n).contains(i) <==> 0 <= i < n
                && workspaces[i].is_local,
        forall|k: int|
            0 <= k < local_before(workspaces, n).len() ==> 0 <= #[trigger] local_before(
                workspaces,
                n,
            )[k] < n,
        forall|k: int, l: int|
            0 <= k < l < local_before(workspaces, n).len() ==> #[trigger] local_before(
                workspaces,
                n,
            )[k] < #[trigger] local_before(workspaces, n)[l],
    decreases n,
{
    if n > 0 {
        lemma_local(workspaces, n - 1);
        let shorter = local_before(workspaces, n - 1);
        if workspaces[n - 1].is_local {
            assert forall|i: int| #[trigger] shorter.push(n - 1).contains(i) <==> 0 <= i < n
                && workspaces[i].is_local by {
                if shorter.contains(i) {
                    let k = choose|k: int| 0 <= k < shorter.len() && shorter[k] == i;
                    assert(shorter.push(n - 1)[k] == i);
                }
                assert(shorter.push(n - 1)[shorter.len() as int] == n - 1);
                let longer = shorter.push(n - 1);
                if longer.contains(i) && i != n - 1 {
                    let k = choose|k: int| 0 <= k < longer.len() && longer[k] == i;
                    assert(shorter[k] == i);
                }
            }
        }
    }
}

/// The projects that are offered are those on this machine, each once and in the
/// order in which they were last opened.
pub proof fn law_local_projects(workspaces: Seq<RecentWorkspace>)
    ensures
        forall|i: int|
            #[trigger] local_before(workspaces, workspaces.len() as int).contains(i) <==> 0 <= i
                < workspaces.len() && workspaces[i].is_local,
        forall|k: int, l: int|
            0 <= k < l < local_before(workspaces, workspaces.len() as int).len()
                ==> #[trigger] local_before(workspaces, workspaces.len() as int)[k]
                < #[trigger] local_before(workspaces, workspaces.len() as int)[l],
{
    lemma_local(workspaces, workspaces.len() as int);
}

proof fn lemma_chained(texts: Seq<Seq<char>>, more: Seq<Seq<char>>, n: int)
    requires
        0 <= n <= texts.len() <= more.len(),
        more.take(texts.len() as int) == texts,
    ensures
        chained(more, n) == chained(texts, n),
    decreases n,
{
    if n > 0 {
        lemma_chained(texts, more, n - 1);
        assert(more.take(texts.len() as int)[n - 1] == texts[n - 1]);
    }
}

/// A project is searched by its paths, one behind the other.
pub proof fn law_searched_text(texts: Seq<Seq<char>>, last: Seq<char>)
    ensures
        chained(seq![last], 1) == last,
        chained(texts.push(last), (texts.len() + 1) as int) == chained(texts, texts.len() as int)
            + last,
{
    reveal_with_fuel(chained, 2);
    assert(chained(seq![last], 1) =~= last);
    assert(texts.push(last).take(texts.len() as int) =~= texts);
    lemma_chained(texts, texts.push(last), texts.len() as int);
}

/// A project is called after the last part of its first path.
pub proof fn law_names_of_projects(project: RecentWorkspace, directory: Seq<char>, name: Seq<char>)
    requires
        directory.len() > 0,
        name.len() > 0,
        !name.contains('/'),
        name != "."@,
        name != ".."@,
        project.ordered_paths@.len() > 0,
        project.ordered_paths@[0]@ == directory + seq!['/'] + name,
    ensures
        project_name(project) == name,
{
    law_names_in_directories(directory, name);
}

/// The row that is shown at a place is the project that was found there; beyond
/// the last one nothing is.
pub proof fn law_shown_projects(delegate: AgentiumRecentProjectsDelegate, ix: int)
    requires
        0 <= ix,
        forall|k: int|
            0 <= k < delegate.filtered_workspaces@.len() ==> (
            #[trigger] delegate.filtered_workspaces@[k]) < delegate.workspaces@.len(),
    ensures
        ix < delegate.filtered_workspaces@.len() ==> delegate.shown(ix) == Some(
            delegate.workspaces@[delegate.filtered_workspaces@[ix] as int],
        ),
        ix >= delegate.filtered_workspaces@.len() ==> delegate.shown(ix) is None,
{
}

} // verus!
