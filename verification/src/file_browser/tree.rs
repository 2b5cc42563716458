//! The entries of a worktree, and the tree of its directories.

use std::collections::HashSet;

use vstd::prelude::*;

use crate::order::{
    code_points, comes_before, extend_key, is_less, is_order, key_views, law_order_exists,
    less_from, order_of, sorted_by_keys,
};
use crate::text::{chars_of, copied, is_text, lowercase, lowercased, text_of};

verus! {

broadcast use vstd::std_specs::hash::group_hash_axioms;

/// An entry of a worktree. Its path is relative to the root, with slashes
/// between its parts; that of the root is empty.
#[derive(Debug)]
pub struct WorktreeEntry {
    pub id: u64,
    pub path: String,
    pub is_dir: bool,
    /// Whether it is a directory that has not been read yet.
    pub is_unloaded: bool,
}

/// What is known of a worktree.
#[derive(Debug)]
pub struct WorktreeSnapshot {
    pub root: Option<WorktreeEntry>,
    pub root_name: String,
    pub entries: Vec<WorktreeEntry>,
}

/// Where the last part of the first `n` characters of a path begins.
pub open spec fn name_start(path: Seq<char>, n: int) -> int
    decreases n,
{
    if n <= 0 {
        0
    } else if path[n - 1] == '/' {
        n
    } else {
        name_start(path, n - 1)
    }
}

/// The last part of a path.
pub open spec fn name_of(path: Seq<char>) -> Seq<char> {
    path.skip(name_start(path, path.len() as int))
}

/// The path without its last part.
pub open spec fn parent_of(path: Seq<char>) -> Seq<char> {
    let start = name_start(path, path.len() as int);
    if start == 0 {
        seq![]
    } else {
        path.take(start - 1)
    }
}

/// Whether a path lies right below another one.
pub open spec fn is_child(parent: Seq<char>, path: Seq<char>) -> bool {
    path.len() > 0 && parent_of(path) == parent
}

pub proof fn lemma_name_start(path: Seq<char>, n: int)
    requires
        0 <= n <= path.len(),
    ensures
        0 <= name_start(path, n) <= n,
        name_start(path, n) > 0 ==> path[name_start(path, n) - 1] == '/',
        forall|i: int| name_start(path, n) <= i < n ==> path[i] != '/',
    decreases n,
{
    if n > 0 && path[n - 1] != '/' {
        lemma_name_start(path, n - 1);
    }
}

/// Where the last part of a path begins.
pub fn find_name(path: &Vec<char>) -> (start: usize)
    ensures
        start == name_start(path@, path@.len() as int),
        start <= path@.len(),
{
    let mut n: usize = path.len();
    while n > 0 && path[n - 1] != '/'
        invariant
            n <= path@.len(),
            name_start(path@, path@.len() as int) == name_start(path@, n as int),
        decreases n,
    {
        n -= 1;
    }
    n
}

/// The last part of a path.
pub fn entry_name(path: &str) -> (name: String)
    ensures
        name@ == name_of(path@),
{
    let chars = chars_of(path);
    let start = find_name(&chars);
    let part = copied(chars.as_slice(), start, chars.len());
    assert(part@ =~= name_of(path@));
    text_of(part.as_slice())
}

/// The path without its last part.
pub fn entry_parent(path: &str) -> (parent: String)
    ensures
        parent@ == parent_of(path@),
{
    let chars = chars_of(path);
    let start = find_name(&chars);
    if start == 0 {
        let empty: Vec<char> = Vec::new();
        assert(empty@ =~= seq![]);
        return text_of(empty.as_slice());
    }
    let part = copied(chars.as_slice(), 0, start - 1);
    assert(part@ =~= parent_of(path@));
    text_of(part.as_slice())
}

/// The places of the directories, or of what is none, right below a path among
/// the first `n` entries.
pub open spec fn picked_before(
    entries: Seq<WorktreeEntry>,
    parent: Seq<char>,
    dirs: bool,
    n: int,
) -> Seq<int>
    decreases n,
{
    if n <= 0 {
        seq![]
    } else {
        let before = picked_before(entries, parent, dirs, n - 1);
        if is_child(parent, entries[n - 1].path@) && entries[n - 1].is_dir == dirs {
            before.push(n - 1)
        } else {
            before
        }
    }
}

/// How entries are sorted: by their names in lower case.
pub open spec fn name_keys(entries: Seq<WorktreeEntry>, picked: Seq<int>) -> Seq<Seq<u32>> {
    Seq::new(picked.len(), |i: int| code_points(lowercase(name_of(entries[picked[i]].path@))))
}

/// The places of the directories, or of what is none, right below a path, sorted
/// by their names in lower case.
pub open spec fn sorted_children(entries: Seq<WorktreeEntry>, parent: Seq<char>, dirs: bool) -> Seq<
    int,
> {
    let picked = picked_before(entries, parent, dirs, entries.len() as int);
    let order = order_of(name_keys(entries, picked));
    Seq::new(picked.len(), |i: int| picked[order[i] as int])
}

pub open spec fn as_places(places: Seq<usize>) -> Seq<int> {
    Seq::new(places.len(), |i: int| places[i] as int)
}

proof fn lemma_picked(entries: Seq<WorktreeEntry>, parent: Seq<char>, dirs: bool, n: int)
    requires
        0 <= n <= entries.len(),
    ensures
        forall|i: int|
            #![trigger picked_before(entries, parent, dirs, n)[i]]
            0 <= i < picked_before(entries, parent, dirs, n).len() ==> {
                let k = picked_before(entries, parent, dirs, n)[i];
                0 <= k < n && is_child(parent, entries[k].path@) && entries[k].is_dir == dirs
            },
    decreases n,
{
    if n > 0 {
        lemma_picked(entries, parent, dirs, n - 1);
        let before = picked_before(entries, parent, dirs, n - 1);
        let now = picked_before(entries, parent, dirs, n);
        assert forall|i: int| #![trigger now[i]] 0 <= i < now.len() implies 0 <= now[i] < n
            && is_child(parent, entries[now[i]].path@) && entries[now[i]].is_dir == dirs by {
            if i < before.len() {
                assert(now[i] == before[i]);
            }
        }
    }
}

fn is_below(path: &str, parent: &str) -> (b: bool)
    ensures
        b == is_child(parent@, path@),
{
    if path.is_empty() {
        assert(path@.len() == 0);
        return false;
    }
    let own = entry_parent(path);
    let chars = chars_of(own.as_str());
    is_text(chars.as_slice(), parent)
}

/// The directories, or what is none, right below a path, sorted by their names
/// in lower case.
pub fn children(entries: &Vec<WorktreeEntry>, parent: &str, dirs: bool) -> (places: Vec<usize>)
    ensures
        as_places(places@) == sorted_children(entries@, parent@, dirs),
        forall|i: int|
            0 <= i < places@.len() ==> (#[trigger] places@[i]) < entries@.len() && is_child(
                parent@,
                entries@[places@[i] as int].path@,
            ) && entries@[places@[i] as int].is_dir == dirs,
{
    let ghost all = picked_before(entries@, parent@, dirs, entries@.len() as int);
    let mut picked: Vec<usize> = Vec::new();
    let mut keys: Vec<Vec<u32>> = Vec::new();
    assert(as_places(picked@) =~= seq![]);
    assert(key_views(keys@) =~= name_keys(entries@, as_places(picked@)));
    let mut i: usize = 0;
    while i < entries.len()
        invariant
            i <= entries@.len(),
            as_places(picked@) == picked_before(entries@, parent@, dirs, i as int),
            keys@.len() == picked@.len(),
            key_views(keys@) == name_keys(entries@, as_places(picked@)),
        decreases entries@.len() - i,
    {
        if entries[i].is_dir == dirs && is_below(entries[i].path.as_str(), parent) {
            let ghost before = as_places(picked@);
            let ghost earlier = key_views(keys@);
            picked.push(i);
            assert(as_places(picked@) =~= before.push(i as int));
            let name = entry_name(entries[i].path.as_str());
            let chars = chars_of(name.as_str());
            let lower = lowercased(chars.as_slice());
            let mut key: Vec<u32> = Vec::new();
            extend_key(&mut key, lower.as_slice());
            assert(key@ =~= code_points(lowercase(name_of(entries@[i as int].path@))));
            let ghost view = key@;
            keys.push(key);
            assert(key_views(keys@) =~= earlier.push(view));
            assert(key_views(keys@) =~= name_keys(entries@, as_places(picked@)));
        }
        i += 1;
    }
    let order = sorted_by_keys(&keys);
    let mut places: Vec<usize> = Vec::new();
    let ghost wanted = sorted_children(entries@, parent@, dirs);
    proof {
        lemma_picked(entries@, parent@, dirs, entries@.len() as int);
        assert(as_places(picked@) == all);
        assert(is_order(name_keys(entries@, all), order@));
        assert(order@ == order_of(name_keys(entries@, all)));
    }
    let mut k: usize = 0;
    while k < order.len()
        invariant
            k <= order@.len(),
            order@.len() == picked@.len(),
            picked@.len() == all.len(),
            all == as_places(picked@),
            is_order(name_keys(entries@, all), order@),
            order@ == order_of(name_keys(entries@, all)),
            all == picked_before(entries@, parent@, dirs, entries@.len() as int),
            wanted == sorted_children(entries@, parent@, dirs),
            as_places(places@) =~= wanted.take(k as int),
            forall|i: int|
                #![trigger all[i]]
                0 <= i < all.len() ==> 0 <= all[i] < entries@.len() && is_child(
                    parent@,
                    entries@[all[i]].path@,
                ) && entries@[all[i]].is_dir == dirs,
            forall|i: int|
                0 <= i < places@.len() ==> (#[trigger] places@[i]) < entries@.len() && is_child(
                    parent@,
                    entries@[places@[i] as int].path@,
                ) && entries@[places@[i] as int].is_dir == dirs,
        decreases order@.len() - k,
    {
        let ghost before = as_places(places@);
        let at = order[k];
        assert(all[at as int] == picked@[at as int] as int);
        assert(wanted[k as int] == all[at as int]);
        places.push(picked[at]);
        assert(as_places(places@) =~= before.push(wanted[k as int]));
        k += 1;
    }
    assert(as_places(places@) =~= wanted);
    places
}

/// A directory in the tree.
#[derive(Debug)]
pub struct DirTreeEntry {
    pub entry_id: u64,
    pub path: String,
    pub name: String,
    pub depth: usize,
    pub is_expanded: bool,
}

/// What a [`DirTreeEntry`] stands for.
#[verifier::ext_equal]
pub struct DirModel {
    pub entry_id: u64,
    pub path: Seq<char>,
    pub name: Seq<char>,
    pub depth: int,
    pub is_expanded: bool,
}

impl View for DirTreeEntry {
    type V = DirModel;

    open spec fn view(&self) -> DirModel {
        DirModel {
            entry_id: self.entry_id,
            path: self.path@,
            name: self.name@,
            depth: self.depth as int,
            is_expanded: self.is_expanded,
        }
    }
}

pub open spec fn dir_models(entries: Seq<DirTreeEntry>) -> Seq<DirModel> {
    Seq::new(entries.len(), |i: int| entries[i]@)
}

/// The length of the longest path among the first `n` entries.
pub open spec fn longest_before(entries: Seq<WorktreeEntry>, n: int) -> nat
    decreases n,
{
    if n <= 0 {
        0
    } else {
        let before = longest_before(entries, n - 1);
        if entries[n - 1].path@.len() > before {
            entries[n - 1].path@.len()
        } else {
            before
        }
    }
}

/// How much longer than a path the paths below it can be.
pub open spec fn room_below(entries: Seq<WorktreeEntry>, path: Seq<char>) -> nat {
    let longest = longest_before(entries, entries.len() as int);
    if longest > path.len() {
        (longest - path.len()) as nat
    } else {
        0
    }
}

proof fn lemma_longest(entries: Seq<WorktreeEntry>, n: int, i: int)
    requires
        0 <= i < n <= entries.len(),
    ensures
        entries[i].path@.len() <= longest_before(entries, n),
    decreases n,
{
    if i < n - 1 {
        lemma_longest(entries, n - 1, i);
    }
}

proof fn lemma_child_is_deeper(entries: Seq<WorktreeEntry>, parent: Seq<char>, i: int)
    requires
        0 <= i < entries.len(),
        is_child(parent, entries[i].path@),
    ensures
        parent.len() < entries[i].path@.len(),
        room_below(entries, entries[i].path@) < room_below(entries, parent),
{
    let path = entries[i].path@;
    lemma_name_start(path, path.len() as int);
    lemma_longest(entries, entries.len() as int, i);
}

/// The rows of the tree for the directories right below a path, from the `i`-th
/// on: each of them, and what is below it where it is expanded.
pub open spec fn tree_from(
    entries: Seq<WorktreeEntry>,
    expanded: Set<u64>,
    parent: Seq<char>,
    depth: int,
    i: int,
) -> Seq<DirModel>
    decreases
            room_below(entries, parent),
            sorted_children(entries, parent, true).len() - i,
{
    let dirs = sorted_children(entries, parent, true);
    if i < 0 || i >= dirs.len() {
        seq![]
    } else {
        let entry = entries[dirs[i]];
        let is_expanded = expanded.contains(entry.id);
        let row = DirModel {
            entry_id: entry.id,
            path: entry.path@,
            name: name_of(entry.path@),
            depth,
            is_expanded,
        };
        let below = if is_expanded && room_below(entries, entry.path@) < room_below(
            entries,
            parent,
        ) {
            tree_from(entries, expanded, entry.path@, depth + 1, 0)
        } else {
            seq![]
        };
        seq![row] + below + tree_from(entries, expanded, parent, depth, i + 1)
    }
}

/// Adds the rows of the tree for the directories right below a path.
pub fn build_dir_tree_recursive(
    rows: &mut Vec<DirTreeEntry>,
    entries: &Vec<WorktreeEntry>,
    expanded: &HashSet<u64>,
    parent: &str,
    depth: usize,
)
    requires
        depth <= parent@.len(),
    ensures
        dir_models(final(rows)@) == dir_models(old(rows)@) + tree_from(
            entries@,
            expanded@,
            parent@,
            depth as int,
            0,
        ),
    decreases room_below(entries@, parent@),
{
    let ghost start = dir_models(rows@);
    let ghost goal = start + tree_from(entries@, expanded@, parent@, depth as int, 0);
    let dirs = children(entries, parent, true);
    assert(as_places(dirs@).len() == dirs@.len());
    let mut i: usize = 0;
    while i < dirs.len()
        invariant
            i <= dirs@.len(),
            depth <= parent@.len(),
            as_places(dirs@) == sorted_children(entries@, parent@, true),
            dirs@.len() == as_places(dirs@).len(),
            forall|i: int|
                0 <= i < dirs@.len() ==> (#[trigger] dirs@[i]) < entries@.len() && is_child(
                    parent@,
                    entries@[dirs@[i] as int].path@,
                ) && entries@[dirs@[i] as int].is_dir,
            goal == dir_models(rows@) + tree_from(
                entries@,
                expanded@,
                parent@,
                depth as int,
                i as int,
            ),
        decreases dirs@.len() - i,
    {
        let ghost before = dir_models(rows@);
        let place = dirs[i];
        let entry = &entries[place];
        assert(as_places(dirs@)[i as int] == place);
        proof {
            lemma_child_is_deeper(entries@, parent@, place as int);
        }
        let is_expanded = expanded.contains(&entry.id);
        let row = DirTreeEntry {
            entry_id: entry.id,
            path: entry.path.clone(),
            name: entry_name(entry.path.as_str()),
            depth,
            is_expanded,
        };
        let ghost view = row@;
        rows.push(row);
        assert(dir_models(rows@) =~= before + seq![view]);
        let ghost below = if is_expanded {
            tree_from(entries@, expanded@, entry.path@, depth + 1, 0)
        } else {
            seq![]
        };
        if is_expanded {
            let chars = chars_of(entry.path.as_str());
            assert(depth < chars.len());
            build_dir_tree_recursive(rows, entries, expanded, entry.path.as_str(), depth + 1);
        }
        assert(dir_models(rows@) =~= before + seq![view] + below);
        let ghost rest = tree_from(entries@, expanded@, parent@, depth as int, i + 1);
        assert(before + (seq![view] + below + rest) =~= before + seq![view] + below + rest);
        i += 1;
    }
    assert(dir_models(rows@) + seq![] =~= dir_models(rows@));
}

/// Whether a row is that of an entry.
pub open spec fn is_row_of(row: DirModel, entry: WorktreeEntry) -> bool {
    row.entry_id == entry.id && row.path == entry.path@
}

/// Whether rows hold one of an entry.
pub open spec fn has_row(rows: Seq<DirModel>, entry: WorktreeEntry) -> bool {
    exists|j: int| 0 <= j < rows.len() && is_row_of(#[trigger] rows[j], entry)
}

/// Whether a row is that of a directory right below a path, or right below a
/// directory that is expanded.
pub open spec fn is_reached(
    entries: Seq<WorktreeEntry>,
    expanded: Set<u64>,
    base: Seq<char>,
    row: DirModel,
) -> bool {
    &&& exists|k: int|
        0 <= k < entries.len() && entries[k].is_dir && is_row_of(row, #[trigger] entries[k])
    &&& row.is_expanded == expanded.contains(row.entry_id)
    &&& parent_of(row.path) == base || is_open(entries, expanded, parent_of(row.path))
}

/// Whether a path is that of a directory that is expanded.
pub open spec fn is_open(
    entries: Seq<WorktreeEntry>,
    expanded: Set<u64>,
    path: Seq<char>,
) -> bool {
    exists|k: int|
        0 <= k < entries.len() && (#[trigger] entries[k]).path@ == path && expanded.contains(
            entries[k].id,
        )
}

proof fn lemma_picked_len(entries: Seq<WorktreeEntry>, parent: Seq<char>, dirs: bool, n: int)
    requires
        0 <= n <= entries.len(),
    ensures
        picked_before(entries, parent, dirs, n).len() <= n,
    decreases n,
{
    if n > 0 {
        lemma_picked_len(entries, parent, dirs, n - 1);
    }
}

/// What stands right below a path, each at one of the places.
proof fn lemma_sorted_children(entries: Seq<WorktreeEntry>, parent: Seq<char>, dirs: bool)
    requires
        entries.len() <= usize::MAX,
    ensures
        forall|i: int|
            #![trigger sorted_children(entries, parent, dirs)[i]]
            0 <= i < sorted_children(entries, parent, dirs).len() ==> {
                let k = sorted_children(entries, parent, dirs)[i];
                0 <= k < entries.len() && is_child(parent, entries[k].path@) && entries[k].is_dir
                    == dirs
            },
{
    let picked = picked_before(entries, parent, dirs, entries.len() as int);
    lemma_picked(entries, parent, dirs, entries.len() as int);
    lemma_picked_len(entries, parent, dirs, entries.len() as int);
    let keys = name_keys(entries, picked);
    law_order_exists(keys);
    let sorted = sorted_children(entries, parent, dirs);
    assert forall|i: int| #![trigger sorted[i]] 0 <= i < sorted.len() implies 0 <= sorted[i]
        < entries.len() && is_child(parent, entries[sorted[i]].path@) && entries[sorted[i]].is_dir
        == dirs by {
        assert(sorted[i] == picked[order_of(keys)[i] as int]);
    }
}

proof fn lemma_picked_has(
    entries: Seq<WorktreeEntry>,
    parent: Seq<char>,
    dirs: bool,
    n: int,
    k: int,
)
    requires
        0 <= k < n <= entries.len(),
        is_child(parent, entries[k].path@),
        entries[k].is_dir == dirs,
    ensures
        picked_before(entries, parent, dirs, n).contains(k),
    decreases n,
{
    let before = picked_before(entries, parent, dirs, n - 1);
    let now = picked_before(entries, parent, dirs, n);
    if k == n - 1 {
        assert(now[before.len() as int] == k);
    } else {
        lemma_picked_has(entries, parent, dirs, n - 1, k);
        let j = choose|j: int| 0 <= j < before.len() && before[j] == k;
        assert(now[j] == k);
    }
}

/// The place of what stands right below a path.
proof fn lemma_sorted_has(
    entries: Seq<WorktreeEntry>,
    parent: Seq<char>,
    dirs: bool,
    k: int,
) -> (place: int)
    requires
        entries.len() <= usize::MAX,
        0 <= k < entries.len(),
        is_child(parent, entries[k].path@),
        entries[k].is_dir == dirs,
    ensures
        0 <= place < sorted_children(entries, parent, dirs).len(),
        sorted_children(entries, parent, dirs)[place] == k,
{
    let picked = picked_before(entries, parent, dirs, entries.len() as int);
    lemma_picked_len(entries, parent, dirs, entries.len() as int);
    lemma_picked_has(entries, parent, dirs, entries.len() as int, k);
    let keys = name_keys(entries, picked);
    law_order_exists(keys);
    let order = order_of(keys);
    let j = choose|j: int| 0 <= j < picked.len() && picked[j] == k;
    assert(order.contains(j as usize));
    let place = choose|place: int| 0 <= place < order.len() && order[place] == j as usize;
    assert(sorted_children(entries, parent, dirs)[place] == k);
    place
}

/// The three parts of the rows from a directory on.
spec fn row_at(
    entries: Seq<WorktreeEntry>,
    expanded: Set<u64>,
    parent: Seq<char>,
    depth: int,
    i: int,
) -> DirModel {
    let entry = entries[sorted_children(entries, parent, true)[i]];
    DirModel {
        entry_id: entry.id,
        path: entry.path@,
        name: name_of(entry.path@),
        depth,
        is_expanded: expanded.contains(entry.id),
    }
}

spec fn below_at(
    entries: Seq<WorktreeEntry>,
    expanded: Set<u64>,
    parent: Seq<char>,
    depth: int,
    i: int,
) -> Seq<DirModel> {
    let entry = entries[sorted_children(entries, parent, true)[i]];
    if expanded.contains(entry.id) {
        tree_from(entries, expanded, entry.path@, depth + 1, 0)
    } else {
        seq![]
    }
}

proof fn lemma_tree_parts(
    entries: Seq<WorktreeEntry>,
    expanded: Set<u64>,
    parent: Seq<char>,
    depth: int,
    i: int,
)
    requires
        entries.len() <= usize::MAX,
        0 <= i < sorted_children(entries, parent, true).len(),
    ensures
        ({
            let k = sorted_children(entries, parent, true)[i];
            &&& 0 <= k < entries.len()
            &&& entries[k].is_dir
            &&& is_child(parent, entries[k].path@)
            &&& room_below(entries, entries[k].path@) < room_below(entries, parent)
        }),
        tree_from(entries, expanded, parent, depth, i) == seq![
            row_at(entries, expanded, parent, depth, i),
        ] + below_at(entries, expanded, parent, depth, i) + tree_from(
            entries,
            expanded,
            parent,
            depth,
            i + 1,
        ),
{
    lemma_sorted_children(entries, parent, true);
    let k = sorted_children(entries, parent, true)[i];
    lemma_child_is_deeper(entries, parent, k);
}

proof fn lemma_has_row(
    row: DirModel,
    below: Seq<DirModel>,
    rest: Seq<DirModel>,
    entry: WorktreeEntry,
)
    ensures
        has_row(seq![row] + below + rest, entry) == (is_row_of(row, entry) || has_row(below, entry)
            || has_row(rest, entry)),
{
    let all = seq![row] + below + rest;
    if is_row_of(row, entry) {
        assert(is_row_of(all[0], entry));
    }
    if has_row(below, entry) {
        let j = choose|j: int| 0 <= j < below.len() && is_row_of(#[trigger] below[j], entry);
        assert(all[j + 1] == below[j]);
    }
    if has_row(rest, entry) {
        let j = choose|j: int| 0 <= j < rest.len() && is_row_of(#[trigger] rest[j], entry);
        assert(all[j + 1 + below.len()] == rest[j]);
    }
    if has_row(all, entry) {
        let j = choose|j: int| 0 <= j < all.len() && is_row_of(#[trigger] all[j], entry);
        if j >= 1 && j < 1 + below.len() {
            assert(all[j] == below[j - 1]);
        } else if j >= 1 {
            assert(all[j] == rest[j - 1 - below.len()]);
        }
    }
}

proof fn lemma_shows_from(
    entries: Seq<WorktreeEntry>,
    expanded: Set<u64>,
    parent: Seq<char>,
    depth: int,
    i: int,
    place: int,
)
    requires
        entries.len() <= usize::MAX,
        0 <= i <= place < sorted_children(entries, parent, true).len(),
    ensures
        has_row(
            tree_from(entries, expanded, parent, depth, i),
            entries[sorted_children(entries, parent, true)[place]],
        ),
    decreases place - i,
{
    let entry = entries[sorted_children(entries, parent, true)[place]];
    lemma_tree_parts(entries, expanded, parent, depth, i);
    lemma_has_row(
        row_at(entries, expanded, parent, depth, i),
        below_at(entries, expanded, parent, depth, i),
        tree_from(entries, expanded, parent, depth, i + 1),
        entry,
    );
    if i < place {
        lemma_shows_from(entries, expanded, parent, depth, i + 1, place);
    }
}

/// Every directory right below a path is in the tree of that path.
pub proof fn law_top_dirs_are_shown(
    entries: Seq<WorktreeEntry>,
    expanded: Set<u64>,
    base: Seq<char>,
    depth: int,
    k: int,
)
    requires
        entries.len() <= usize::MAX,
        0 <= k < entries.len(),
        entries[k].is_dir,
        is_child(base, entries[k].path@),
    ensures
        has_row(tree_from(entries, expanded, base, depth, 0), entries[k]),
{
    let place = lemma_sorted_has(entries, base, true, k);
    lemma_shows_from(entries, expanded, base, depth, 0, place);
}

proof fn lemma_shows_below(
    entries: Seq<WorktreeEntry>,
    expanded: Set<u64>,
    parent: Seq<char>,
    depth: int,
    i: int,
    m: int,
    k: int,
)
    requires
        entries.len() <= usize::MAX,
        0 <= i <= sorted_children(entries, parent, true).len(),
        0 <= m < entries.len(),
        0 <= k < entries.len(),
        has_row(tree_from(entries, expanded, parent, depth, i), entries[m]),
        expanded.contains(entries[m].id),
        entries[k].is_dir,
        is_child(entries[m].path@, entries[k].path@),
    ensures
        has_row(tree_from(entries, expanded, parent, depth, i), entries[k]),
    decreases
            room_below(entries, parent),
            sorted_children(entries, parent, true).len() - i,
{
    if i < sorted_children(entries, parent, true).len() {
        lemma_tree_parts(entries, expanded, parent, depth, i);
        let own = entries[sorted_children(entries, parent, true)[i]];
        let row = row_at(entries, expanded, parent, depth, i);
        let below = below_at(entries, expanded, parent, depth, i);
        let rest = tree_from(entries, expanded, parent, depth, i + 1);
        lemma_has_row(row, below, rest, entries[m]);
        lemma_has_row(row, below, rest, entries[k]);
        if is_row_of(row, entries[m]) {
            law_top_dirs_are_shown(entries, expanded, own.path@, depth + 1, k);
        } else if has_row(below, entries[m]) {
            lemma_shows_below(entries, expanded, own.path@, depth + 1, 0, m, k);
        } else {
            lemma_shows_below(entries, expanded, parent, depth, i + 1, m, k);
        }
    }
}

/// Every directory right below one that is in the tree and is expanded is in the
/// tree too.
pub proof fn law_expanded_dirs_show_what_is_below(
    entries: Seq<WorktreeEntry>,
    expanded: Set<u64>,
    m: int,
    k: int,
)
    requires
        entries.len() <= usize::MAX,
        0 <= m < entries.len(),
        0 <= k < entries.len(),
        has_row(tree_from(entries, expanded, seq![], 0, 0), entries[m]),
        expanded.contains(entries[m].id),
        entries[k].is_dir,
        is_child(entries[m].path@, entries[k].path@),
    ensures
        has_row(tree_from(entries, expanded, seq![], 0, 0), entries[k]),
{
    lemma_shows_below(entries, expanded, seq![], 0, 0, m, k);
}

proof fn lemma_rows_are_reached(
    entries: Seq<WorktreeEntry>,
    expanded: Set<u64>,
    base: Seq<char>,
    parent: Seq<char>,
    depth: int,
    i: int,
)
    requires
        entries.len() <= usize::MAX,
        0 <= i <= sorted_children(entries, parent, true).len(),
        parent == base || is_open(entries, expanded, parent),
    ensures
        forall|j: int|
            #![trigger tree_from(entries, expanded, parent, depth, i)[j]]
            0 <= j < tree_from(entries, expanded, parent, depth, i).len() ==> is_reached(
                entries,
                expanded,
                base,
                tree_from(entries, expanded, parent, depth, i)[j],
            ),
    decreases
            room_below(entries, parent),
            sorted_children(entries, parent, true).len() - i,
{
    if i < sorted_children(entries, parent, true).len() {
        lemma_tree_parts(entries, expanded, parent, depth, i);
        let k = sorted_children(entries, parent, true)[i];
        let own = entries[k];
        let row = row_at(entries, expanded, parent, depth, i);
        let below = below_at(entries, expanded, parent, depth, i);
        let rest = tree_from(entries, expanded, parent, depth, i + 1);
        let all = tree_from(entries, expanded, parent, depth, i);
        assert(is_row_of(row, entries[k]));
        assert(is_reached(entries, expanded, base, row));
        if expanded.contains(own.id) {
            assert(is_open(entries, expanded, own.path@));
            lemma_rows_are_reached(entries, expanded, base, own.path@, depth + 1, 0);
        }
        lemma_rows_are_reached(entries, expanded, base, parent, depth, i + 1);
        assert forall|j: int| #![trigger all[j]] 0 <= j < all.len() implies is_reached(
            entries,
            expanded,
            base,
            all[j],
        ) by {
            if j == 0 {
                assert(all[j] == row);
            } else if j < 1 + below.len() {
                assert(all[j] == below[j - 1]);
            } else {
                assert(all[j] == rest[j - 1 - below.len()]);
            }
        }
    }
}

/// Every row of the tree is that of a directory right below the root, or right
/// below a directory that is expanded, and is marked as expanded where it is.
pub proof fn law_rows_are_reached(entries: Seq<WorktreeEntry>, expanded: Set<u64>, j: int)
    requires
        entries.len() <= usize::MAX,
        0 <= j < tree_from(entries, expanded, seq![], 0, 0).len(),
    ensures
        is_reached(
            entries,
            expanded,
            seq![],
            tree_from(entries, expanded, seq![], 0, 0)[j],
        ),
{
    lemma_rows_are_reached(entries, expanded, seq![], seq![], 0, 0);
}

proof fn lemma_name_start_is(path: Seq<char>, start: int, n: int)
    requires
        0 <= start <= n <= path.len(),
        start > 0 ==> path[start - 1] == '/',
        forall|i: int| start <= i < n ==> #[trigger] path[i] != '/',
    ensures
        name_start(path, n) == start,
    decreases n - start,
{
    if start < n {
        assert(path[n - 1] != '/');
        lemma_name_start_is(path, start, n - 1);
    }
}

/// A path is the directory in which something lies, a slash and its name; without
/// a slash it is the name of something at the top.
pub proof fn law_names_and_parents(directory: Seq<char>, name: Seq<char>)
    requires
        !name.contains('/'),
    ensures
        name_of(directory + seq!['/'] + name) == name,
        parent_of(directory + seq!['/'] + name) == directory,
        is_child(directory, directory + seq!['/'] + name),
        name_of(name) == name,
        parent_of(name).len() == 0,
{
    assert forall|i: int| 0 <= i < name.len() implies #[trigger] name[i] != '/' by {
        assert(name.contains(name[i]));
    }
    let path = directory + seq!['/'] + name;
    assert forall|i: int| directory.len() + 1 <= i < path.len() implies #[trigger] path[i]
        != '/' by {
        assert(path[i] == name[i - directory.len() - 1]);
    }
    lemma_name_start_is(path, directory.len() as int + 1, path.len() as int);
    lemma_name_start_is(name, 0, name.len() as int);
    assert(path.skip(directory.len() as int + 1) =~= name);
    assert(path.take(directory.len() as int) =~= directory);
    assert(name.skip(0) =~= name);
}

proof fn lemma_picked_ascend(entries: Seq<WorktreeEntry>, parent: Seq<char>, dirs: bool, n: int)
    requires
        0 <= n <= entries.len(),
    ensures
        ({
            let picked = picked_before(entries, parent, dirs, n);
            &&& forall|i: int| 0 <= i < picked.len() ==> 0 <= #[trigger] picked[i] < n
            &&& forall|i: int, j: int|
                0 <= i < j < picked.len() ==> #[trigger] picked[i] < #[trigger] picked[j]
        }),
    decreases n,
{
    if n > 0 {
        lemma_picked_ascend(entries, parent, dirs, n - 1);
        let before = picked_before(entries, parent, dirs, n - 1);
        let now = picked_before(entries, parent, dirs, n);
        assert forall|i: int| 0 <= i < now.len() implies 0 <= #[trigger] now[i] < n by {
            if i < before.len() {
                assert(now[i] == before[i]);
            }
        }
        assert forall|i: int, j: int| 0 <= i < j < now.len() implies #[trigger] now[i]
            < #[trigger] now[j] by {
            assert(now[i] == before[i]);
            if j < before.len() {
                assert(now[j] == before[j]);
            }
        }
    }
}

/// What is listed of a directory: the directories in it, or the files, each once,
/// and none that is not right in it; by their names, the case of letters apart.
pub proof fn law_children(entries: Seq<WorktreeEntry>, parent: Seq<char>, dirs: bool)
    requires
        entries.len() <= usize::MAX,
    ensures
        ({
            let listed = sorted_children(entries, parent, dirs);
            &&& forall|k: int| #[trigger]
                listed.contains(k) <==> 0 <= k < entries.len() && entries[k].is_dir == dirs
                    && entries[k].path@.len() > 0 && parent_of(entries[k].path@) == parent
            &&& forall|i: int, j: int|
                0 <= i < j < listed.len() ==> #[trigger] listed[i] != #[trigger] listed[j]
            &&& forall|i: int, j: int|
                0 <= i < j < listed.len() ==> is_less(
                    code_points(lowercase(name_of(entries[#[trigger] listed[i]].path@))),
                    code_points(lowercase(name_of(entries[#[trigger] listed[j]].path@))),
                ) || code_points(lowercase(name_of(entries[listed[i]].path@))) == code_points(
                    lowercase(name_of(entries[listed[j]].path@)),
                ) && listed[i] < listed[j]
        }),
{
    let listed = sorted_children(entries, parent, dirs);
    let picked = picked_before(entries, parent, dirs, entries.len() as int);
    lemma_picked_len(entries, parent, dirs, entries.len() as int);
    lemma_picked_ascend(entries, parent, dirs, entries.len() as int);
    let keys = name_keys(entries, picked);
    law_order_exists(keys);
    let order = order_of(keys);
    lemma_sorted_children(entries, parent, dirs);
    assert forall|k: int| #[trigger]
        listed.contains(k) <==> 0 <= k < entries.len() && entries[k].is_dir == dirs
            && entries[k].path@.len() > 0 && parent_of(entries[k].path@) == parent by {
        if 0 <= k < entries.len() && entries[k].is_dir == dirs && entries[k].path@.len() > 0
            && parent_of(entries[k].path@) == parent {
            let place = lemma_sorted_has(entries, parent, dirs, k);
            assert(listed[place] == k);
        }
        if listed.contains(k) {
            let i = choose|i: int| 0 <= i < listed.len() && listed[i] == k;
            assert(is_child(parent, entries[listed[i]].path@));
        }
    }
    assert forall|i: int, j: int| 0 <= i < j < listed.len() implies #[trigger] listed[i]
        != #[trigger] listed[j] && (is_less(
        code_points(lowercase(name_of(entries[listed[i]].path@))),
        code_points(lowercase(name_of(entries[listed[j]].path@))),
    ) || code_points(lowercase(name_of(entries[listed[i]].path@))) == code_points(
        lowercase(name_of(entries[listed[j]].path@)),
    ) && listed[i] < listed[j]) by {
        let x = order[i] as int;
        let y = order[j] as int;
        assert(comes_before(keys, x, y));
        assert(x != y) by {
            if x == y {
                lemma_not_less(keys[x], 0);
            }
        }
        assert(listed[i] == picked[x] && listed[j] == picked[y]);
        if x < y {
            assert(picked[x] < picked[y]);
        } else {
            assert(picked[y] < picked[x]);
        }
        assert(keys[x] == code_points(lowercase(name_of(entries[listed[i]].path@))));
        assert(keys[y] == code_points(lowercase(name_of(entries[listed[j]].path@))));
    }
}

proof fn lemma_not_less(a: Seq<u32>, i: int)
    requires
        0 <= i,
    ensures
        !less_from(a, a, i),
    decreases a.len() - i,
{
    if i < a.len() {
        lemma_not_less(a, i + 1);
    }
}

/// How many slashes stand in a path.
pub open spec fn slashes(path: Seq<char>) -> nat
    decreases path.len(),
{
    if path.len() == 0 {
        0
    } else {
        slashes(path.drop_last()) + if path.last() == '/' {
            1nat
        } else {
            0nat
        }
    }
}

proof fn lemma_slashes(path: Seq<char>, start: int)
    requires
        0 <= start <= path.len(),
        forall|i: int| start <= i < path.len() ==> #[trigger] path[i] != '/',
    ensures
        slashes(path) == slashes(path.take(start)),
    decreases path.len() - start,
{
    if start == path.len() {
        assert(path.take(start) =~= path);
    } else {
        let shorter = path.drop_last();
        assert forall|i: int| start <= i < shorter.len() implies #[trigger] shorter[i] != '/' by {
            assert(shorter[i] == path[i]);
        }
        assert(path.last() == path[path.len() - 1]);
        lemma_slashes(shorter, start);
        assert(shorter.take(start) =~= path.take(start));
    }
}

/// The number of slashes in the paths of what lies right in a directory.
spec fn slashes_in(parent: Seq<char>) -> nat {
    if parent.len() == 0 {
        0
    } else {
        slashes(parent) + 1
    }
}

proof fn lemma_child_slashes(parent: Seq<char>, path: Seq<char>)
    requires
        is_child(parent, path),
        path[0] != '/',
    ensures
        slashes(path) == slashes_in(parent),
{
    let n = path.len() as int;
    lemma_name_start(path, n);
    let start = name_start(path, n);
    lemma_slashes(path, start);
    if start == 0 {
        assert(path.take(0) =~= seq![]);
    } else {
        let head = path.take(start);
        assert(start >= 2);
        assert(head.drop_last() =~= path.take(start - 1));
        assert(head.last() == '/');
    }
}

proof fn lemma_depths(
    entries: Seq<WorktreeEntry>,
    expanded: Set<u64>,
    parent: Seq<char>,
    depth: int,
    i: int,
)
    requires
        entries.len() <= usize::MAX,
        0 <= i <= sorted_children(entries, parent, true).len(),
        forall|k: int|
            0 <= k < entries.len() && (#[trigger] entries[k]).path@.len() > 0
                ==> entries[k].path@[0] != '/',
    ensures
        forall|j: int|
            #![trigger tree_from(entries, expanded, parent, depth, i)[j]]
            0 <= j < tree_from(entries, expanded, parent, depth, i).len() ==> {
                let row = tree_from(entries, expanded, parent, depth, i)[j];
                row.depth - depth == slashes(row.path) - slashes_in(parent) && row.name == name_of(
                    row.path,
                )
            },
    decreases
            room_below(entries, parent),
            sorted_children(entries, parent, true).len() - i,
{
    if i < sorted_children(entries, parent, true).len() {
        lemma_tree_parts(entries, expanded, parent, depth, i);
        let k = sorted_children(entries, parent, true)[i];
        let own = entries[k];
        let row = row_at(entries, expanded, parent, depth, i);
        let below = below_at(entries, expanded, parent, depth, i);
        let rest = tree_from(entries, expanded, parent, depth, i + 1);
        let all = tree_from(entries, expanded, parent, depth, i);
        lemma_child_slashes(parent, own.path@);
        if expanded.contains(own.id) {
            lemma_depths(entries, expanded, own.path@, depth + 1, 0);
        }
        lemma_depths(entries, expanded, parent, depth, i + 1);
        assert forall|j: int| #![trigger all[j]] 0 <= j < all.len() implies all[j].depth - depth
            == slashes(all[j].path) - slashes_in(parent) && all[j].name == name_of(all[j].path) by {
            if j == 0 {
                assert(all[j] == row);
            } else if j < 1 + below.len() {
                assert(all[j] == below[j - 1]);
            } else {
                assert(all[j] == rest[j - 1 - below.len()]);
            }
        }
    }
}

/// A directory is indented by as many steps as there are slashes in its path, and
/// is shown under the last part of it.
pub proof fn law_depths(entries: Seq<WorktreeEntry>, expanded: Set<u64>, j: int)
    requires
        entries.len() <= usize::MAX,
        forall|k: int|
            0 <= k < entries.len() && (#[trigger] entries[k]).path@.len() > 0
                ==> entries[k].path@[0] != '/',
        0 <= j < tree_from(entries, expanded, seq![], 0, 0).len(),
    ensures
        ({
            let row = tree_from(entries, expanded, seq![], 0, 0)[j];
            row.depth == slashes(row.path) && row.name == name_of(row.path)
        }),
{
    lemma_depths(entries, expanded, seq![], 0, 0);
}

/// What lies in an open directory stands right below it: its first directory, and
/// one step further in.
pub proof fn law_open_directories(
    entries: Seq<WorktreeEntry>,
    expanded: Set<u64>,
    parent: Seq<char>,
    depth: int,
)
    requires
        entries.len() <= usize::MAX,
        sorted_children(entries, parent, true).len() > 0,
    ensures
        ({
            let rows = tree_from(entries, expanded, parent, depth, 0);
            let first = entries[sorted_children(entries, parent, true)[0]];
            &&& rows.len() > 0 && rows[0].path == first.path@ && rows[0].depth == depth
            &&& rows[0].is_expanded == expanded.contains(first.id)
            &&& expanded.contains(first.id) && sorted_children(entries, first.path@, true).len() > 0
                ==> {
                let inner = entries[sorted_children(entries, first.path@, true)[0]];
                rows.len() > 1 && rows[1].path == inner.path@ && rows[1].depth == depth + 1
            }
        }),
{
    lemma_tree_parts(entries, expanded, parent, depth, 0);
    let first = entries[sorted_children(entries, parent, true)[0]];
    if expanded.contains(first.id) && sorted_children(entries, first.path@, true).len() > 0 {
        lemma_tree_parts(entries, expanded, first.path@, depth + 1, 0);
        assert(below_at(entries, expanded, parent, depth, 0) == tree_from(
            entries,
            expanded,
            first.path@,
            depth + 1,
            0,
        ));
    }
}

} // verus!
