//! The view of the changes in a repository, by sections.

use vstd::multiset::Multiset;
use vstd::prelude::*;

use crate::text::{same_text, text_model};

verus! {

#[derive(Clone, Copy, Debug, PartialEq, Eq, Structural)]
pub enum GitStatusSection {
    Conflicts,
    Versioned,
    Untracked,
}

#[derive(Clone, Copy, Debug, PartialEq, Eq, Structural)]
pub enum StageStatus {
    Staged,
    Unstaged,
    PartiallyStaged,
}

/// How a box is ticked.
#[derive(Clone, Copy, Debug, PartialEq, Eq, Structural)]
pub enum ToggleState {
    Selected,
    Unselected,
    Indeterminate,
}

/// A file that has changed.
#[derive(Debug)]
pub struct StatusEntry {
    pub repo_path: String,
    pub staging: StageStatus,
    pub is_created: bool,
    pub is_deleted: bool,
    /// Whether it was in conflict when the last merge began.
    pub had_conflict: bool,
}

/// What a [`StatusEntry`] stands for.
pub struct StatusModel {
    pub repo_path: Seq<char>,
    pub staging: StageStatus,
    pub is_created: bool,
    pub is_deleted: bool,
    pub had_conflict: bool,
}

impl View for StatusEntry {
    type V = StatusModel;

    open spec fn view(&self) -> StatusModel {
        StatusModel {
            repo_path: self.repo_path@,
            staging: self.staging,
            is_created: self.is_created,
            is_deleted: self.is_deleted,
            had_conflict: self.had_conflict,
        }
    }
}

/// A row of the view.
#[derive(Debug)]
pub enum GitStatusListEntry {
    Header(GitStatusSection),
    Entry(StatusEntry),
}

/// What a [`GitStatusListEntry`] stands for.
pub enum RowModel {
    Header(GitStatusSection),
    Entry(StatusModel),
}

impl View for GitStatusListEntry {
    type V = RowModel;

    open spec fn view(&self) -> RowModel {
        match self {
            GitStatusListEntry::Header(section) => RowModel::Header(*section),
            GitStatusListEntry::Entry(entry) => RowModel::Entry(entry@),
        }
    }
}

#[derive(Debug)]
pub struct GitStatusView {
    pub entries: Vec<GitStatusListEntry>,
}

impl GitStatusSection {
    pub fn title(&self) -> (title: String)
        ensures
            title@ == match self {
                GitStatusSection::Conflicts => "Conflicts"@,
                GitStatusSection::Versioned => "Tracked"@,
                GitStatusSection::Untracked => "Untracked"@,
            },
    {
        match self {
            GitStatusSection::Conflicts => "Conflicts".to_string(),
            GitStatusSection::Versioned => "Tracked".to_string(),
            GitStatusSection::Untracked => "Untracked".to_string(),
        }
    }
}

/// The section that a change belongs to.
pub open spec fn section_of(entry: StatusModel) -> GitStatusSection {
    if entry.had_conflict {
        GitStatusSection::Conflicts
    } else if entry.is_created {
        GitStatusSection::Untracked
    } else {
        GitStatusSection::Versioned
    }
}

pub open spec fn status_models(entries: Seq<StatusEntry>) -> Seq<StatusModel> {
    Seq::new(entries.len(), |i: int| entries[i]@)
}

pub open spec fn row_models(rows: Seq<GitStatusListEntry>) -> Seq<RowModel> {
    Seq::new(rows.len(), |i: int| rows[i]@)
}

/// The changes of a section among the first `n`.
pub open spec fn in_section(
    entries: Seq<StatusModel>,
    section: GitStatusSection,
    n: int,
) -> Seq<StatusModel>
    decreases n,
{
    if n <= 0 {
        seq![]
    } else if section_of(entries[n - 1]) == section {
        in_section(entries, section, n - 1).push(entries[n - 1])
    } else {
        in_section(entries, section, n - 1)
    }
}

pub open spec fn entry_rows(entries: Seq<StatusModel>) -> Seq<RowModel> {
    Seq::new(entries.len(), |i: int| RowModel::Entry(entries[i]))
}

/// The rows of a section: none where it has no changes.
pub open spec fn section_rows(entries: Seq<StatusModel>, section: GitStatusSection) -> Seq<
    RowModel,
> {
    let own = in_section(entries, section, entries.len() as int);
    if own.len() == 0 {
        seq![]
    } else {
        seq![RowModel::Header(section)] + entry_rows(own)
    }
}

/// The rows of the changes in a repository.
pub open spec fn status_rows(entries: Seq<StatusModel>) -> Seq<RowModel> {
    section_rows(entries, GitStatusSection::Conflicts) + section_rows(
        entries,
        GitStatusSection::Versioned,
    ) + section_rows(entries, GitStatusSection::Untracked)
}

fn section(entry: &StatusEntry) -> (section: GitStatusSection)
    ensures
        section == section_of(entry@),
{
    if entry.had_conflict {
        GitStatusSection::Conflicts
    } else if entry.is_created {
        GitStatusSection::Untracked
    } else {
        GitStatusSection::Versioned
    }
}

fn copied_entry(entry: &StatusEntry) -> (copy: StatusEntry)
    ensures
        copy@ == entry@,
{
    StatusEntry {
        repo_path: entry.repo_path.clone(),
        staging: entry.staging,
        is_created: entry.is_created,
        is_deleted: entry.is_deleted,
        had_conflict: entry.had_conflict,
    }
}

fn push_section(
    rows: &mut Vec<GitStatusListEntry>,
    entries: &Vec<StatusEntry>,
    wanted: GitStatusSection,
)
    ensures
        row_models(final(rows)@) == row_models(old(rows)@) + section_rows(
            status_models(entries@),
            wanted,
        ),
{
    let ghost start = row_models(rows@);
    let ghost models = status_models(entries@);
    let ghost all = in_section(models, wanted, models.len() as int);
    let mut own: Vec<usize> = Vec::new();
    let mut i: usize = 0;
    while i < entries.len()
        invariant
            i <= entries@.len(),
            models == status_models(entries@),
            own@.len() == in_section(models, wanted, i as int).len(),
            forall|k: int|
                0 <= k < own@.len() ==> (#[trigger] own@[k]) < entries@.len()
                    && models[own@[k] as int] == in_section(models, wanted, i as int)[k],
        decreases entries@.len() - i,
    {
        assert(models[i as int] == entries@[i as int]@);
        if section(&entries[i]) == wanted {
            own.push(i);
        }
        i += 1;
    }
    if own.len() == 0 {
        assert(start + seq![] =~= start);
        return ;
    }
    rows.push(GitStatusListEntry::Header(wanted));
    assert(row_models(rows@) =~= start + (seq![RowModel::Header(wanted)] + entry_rows(
        all.take(0),
    )));
    let mut k: usize = 0;
    while k < own.len()
        invariant
            k <= own@.len(),
            models == status_models(entries@),
            own@.len() == all.len(),
            forall|k: int|
                0 <= k < own@.len() ==> (#[trigger] own@[k]) < entries@.len()
                    && models[own@[k] as int] == all[k],
            row_models(rows@) == start + (seq![RowModel::Header(wanted)] + entry_rows(
                all.take(k as int),
            )),
        decreases own@.len() - k,
    {
        let ghost before = row_models(rows@);
        assert(models[own@[k as int] as int] == entries@[own@[k as int] as int]@);
        rows.push(GitStatusListEntry::Entry(copied_entry(&entries[own[k]])));
        assert(row_models(rows@) =~= before.push(RowModel::Entry(all[k as int])));
        assert(entry_rows(all.take(k + 1)) =~= entry_rows(all.take(k as int)).push(
            RowModel::Entry(all[k as int]),
        ));
        assert(row_models(rows@) =~= start + (seq![RowModel::Header(wanted)] + entry_rows(
            all.take(k + 1),
        )));
        k += 1;
    }
    assert(all.take(all.len() as int) =~= all);
}

/// The first from `from` on with a path.
pub open spec fn status_from(entries: Seq<StatusEntry>, from: int, path: Seq<char>) -> Option<int>
    decreases entries.len() - from,
{
    if from < 0 || from >= entries.len() {
        None
    } else if entries[from].repo_path@ == path {
        Some(from)
    } else {
        status_from(entries, from + 1, path)
    }
}

fn staging_now(entries: &Vec<StatusEntry>, entry: &StatusEntry) -> (staging: StageStatus)
    ensures
        staging == match status_from(entries@, 0, entry.repo_path@) {
            Some(index) => entries@[index].staging,
            None => entry.staging,
        },
{
    let mut i: usize = 0;
    while i < entries.len()
        invariant
            i <= entries@.len(),
            status_from(entries@, 0, entry.repo_path@) == status_from(
                entries@,
                i as int,
                entry.repo_path@,
            ),
        decreases entries@.len() - i,
    {
        if same_text(entries[i].repo_path.as_str(), entry.repo_path.as_str()) {
            return entries[i].staging;
        }
        i += 1;
    }
    entry.staging
}

/// A file that is staged or unstaged.
#[derive(Debug)]
pub struct StageAction {
    pub repo_path: String,
    pub stage: bool,
}

/// A row as it looks: the title of a section, or a file with its box.
#[derive(Debug)]
pub enum StatusRow {
    Title(String),
    File { toggle: ToggleState, path: String },
}

pub open spec fn toggle_of(staging: StageStatus) -> ToggleState {
    match staging {
        StageStatus::Staged => ToggleState::Selected,
        StageStatus::Unstaged => ToggleState::Unselected,
        StageStatus::PartiallyStaged => ToggleState::Indeterminate,
    }
}

impl GitStatusView {
    pub open spec fn rows(self) -> Seq<RowModel> {
        row_models(self.entries@)
    }

    /// Shows the changes of the active repository, where there is one.
    pub fn new(statuses: &Option<Vec<StatusEntry>>) -> (view: Self)
        ensures
            view.rows() == match *statuses {
                Some(statuses) => status_rows(status_models(statuses@)),
                None => seq![],
            },
    {
        let mut view = GitStatusView { entries: Vec::new() };
        view.update_entries(statuses);
        view
    }

    /// Shows the changes of the active repository as they are now.
    pub fn update_entries(&mut self, statuses: &Option<Vec<StatusEntry>>)
        ensures
            final(self).rows() == match *statuses {
                Some(statuses) => status_rows(status_models(statuses@)),
                None => seq![],
            },
    {
        let mut rows: Vec<GitStatusListEntry> = Vec::new();
        assert(row_models(rows@) =~= seq![]);
        if let Some(statuses) = statuses {
            let ghost models = status_models(statuses@);
            push_section(&mut rows, statuses, GitStatusSection::Conflicts);
            push_section(&mut rows, statuses, GitStatusSection::Versioned);
            push_section(&mut rows, statuses, GitStatusSection::Untracked);
            assert(row_models(rows@) =~= status_rows(models));
        }
        self.entries = rows;
    }

    /// Whether the file in a row is staged or unstaged when its box is clicked. It
    /// goes by how the file is staged now: a file that is staged in part is staged
    /// whole.
    pub fn toggle_staged(&self, ix: usize, statuses: &Option<Vec<StatusEntry>>) -> (action: Option<
        StageAction,
    >)
        ensures
            match (*statuses, self.entries@[ix as int]) {
                (Some(statuses), GitStatusListEntry::Entry(entry)) if ix < self.entries@.len() => {
                    let staging = match status_from(statuses@, 0, entry.repo_path@) {
                        Some(index) => statuses@[index].staging,
                        None => entry.staging,
                    };
                    action matches Some(action) && action.repo_path@ == entry.repo_path@
                        && action.stage == (staging != StageStatus::Staged)
                },
                _ => action is None,
            },
    {
        if ix >= self.entries.len() {
            return None;
        }
        match (statuses, &self.entries[ix]) {
            (Some(statuses), GitStatusListEntry::Entry(entry)) => {
                let staging = staging_now(statuses, entry);
                Some(
                    StageAction {
                        repo_path: entry.repo_path.clone(),
                        stage: staging != StageStatus::Staged,
                    },
                )
            },
            _ => None,
        }
    }

    /// The file that is opened when a row is clicked: none that is deleted.
    pub fn open_entry(&self, ix: usize, has_repo: bool) -> (path: Option<String>)
        ensures
            text_model(path) == match self.entries@[ix as int] {
                GitStatusListEntry::Entry(entry) if ix < self.entries@.len() && has_repo
                    && !entry.is_deleted => Some(entry.repo_path@),
                _ => None,
            },
    {
        if ix >= self.entries.len() || !has_repo {
            return None;
        }
        match &self.entries[ix] {
            GitStatusListEntry::Entry(entry) => if entry.is_deleted {
                None
            } else {
                Some(entry.repo_path.clone())
            },
            GitStatusListEntry::Header(_) => None,
        }
    }

    /// How a row looks.
    pub fn row(&self, ix: usize) -> (row: StatusRow)
        requires
            ix < self.entries@.len(),
        ensures
            match (self.entries@[ix as int], row) {
                (GitStatusListEntry::Header(section), StatusRow::Title(title)) => title@
                    == match section {
                    GitStatusSection::Conflicts => "Conflicts"@,
                    GitStatusSection::Versioned => "Tracked"@,
                    GitStatusSection::Untracked => "Untracked"@,
                },
                (GitStatusListEntry::Entry(entry), StatusRow::File { toggle, path }) => toggle
                    == toggle_of(entry.staging) && path@ == entry.repo_path@,
                _ => false,
            },
    {
        match &self.entries[ix] {
            GitStatusListEntry::Header(section) => StatusRow::Title(section.title()),
            GitStatusListEntry::Entry(entry) => {
                let toggle = match entry.staging {
                    StageStatus::Staged => ToggleState::Selected,
                    StageStatus::Unstaged => ToggleState::Unselected,
                    StageStatus::PartiallyStaged => ToggleState::Indeterminate,
                };
                StatusRow::File { toggle, path: entry.repo_path.clone() }
            },
        }
    }

    /// What is shown in place of rows where there are none.
    pub fn placeholder(&self) -> (text: Option<String>)
        ensures
            text_model(text) == if self.entries@.len() == 0 {
                Some("No changes"@)
            } else {
                None
            },
    {
        if self.entries.len() == 0 {
            Some("No changes".to_string())
        } else {
            None
        }
    }
}

/// Every change stands in one section, as often as it is there.
pub proof fn law_every_change_is_in_one_section(entries: Seq<StatusModel>, n: int)
    requires
        0 <= n <= entries.len(),
    ensures
        in_section(entries, GitStatusSection::Conflicts, n).to_multiset().add(
            in_section(entries, GitStatusSection::Versioned, n).to_multiset(),
        ).add(in_section(entries, GitStatusSection::Untracked, n).to_multiset())
            == entries.take(n).to_multiset(),
    decreases n,
{
    broadcast use vstd::seq_lib::group_to_multiset_ensures;

    let conflicts = in_section(entries, GitStatusSection::Conflicts, n);
    let versioned = in_section(entries, GitStatusSection::Versioned, n);
    let untracked = in_section(entries, GitStatusSection::Untracked, n);
    let all = conflicts.to_multiset().add(versioned.to_multiset()).add(untracked.to_multiset());
    if n == 0 {
        assert(entries.take(0) =~= seq![]);
        assert(all =~= entries.take(0).to_multiset());
    } else {
        law_every_change_is_in_one_section(entries, n - 1);
        let entry = entries[n - 1];
        let before = in_section(entries, GitStatusSection::Conflicts, n - 1).to_multiset().add(
            in_section(entries, GitStatusSection::Versioned, n - 1).to_multiset(),
        ).add(in_section(entries, GitStatusSection::Untracked, n - 1).to_multiset());
        assert(entries.take(n) =~= entries.take(n - 1).push(entry));
        assert(all =~= before.add(Multiset::singleton(entry)));
        assert(entries.take(n).to_multiset() =~= entries.take(n - 1).to_multiset().add(
            Multiset::singleton(entry),
        ));
    }
}

proof fn lemma_in_section(
    entries: Seq<StatusModel>,
    section: GitStatusSection,
    n: int,
    entry: StatusModel,
)
    requires
        0 <= n <= entries.len(),
    ensures
        in_section(entries, section, n).contains(entry) <==> section_of(entry) == section
            && entries.take(n).contains(entry),
    decreases n,
{
    if n > 0 {
        lemma_in_section(entries, section, n - 1, entry);
        let shorter = in_section(entries, section, n - 1);
        let last = entries[n - 1];
        assert(entries.take(n) =~= entries.take(n - 1).push(last));
        assert(shorter.push(last).contains(entry) <==> shorter.contains(entry) || entry == last)
            by {
            if shorter.contains(entry) {
                let i = choose|i: int| 0 <= i < shorter.len() && shorter[i] == entry;
                assert(shorter.push(last)[i] == entry);
            }
            assert(shorter.push(last)[shorter.len() as int] == last);
        }
        let before = entries.take(n - 1);
        assert(before.push(last).contains(entry) <==> before.contains(entry) || entry == last)
            by {
            if before.contains(entry) {
                let i = choose|i: int| 0 <= i < before.len() && before[i] == entry;
                assert(before.push(last)[i] == entry);
            }
            assert(before.push(last)[before.len() as int] == last);
        }
    }
}

/// The rows of a section, each of which is its header or a change that belongs to it.
proof fn lemma_section_rows(entries: Seq<StatusModel>, section: GitStatusSection, i: int)
    requires
        0 <= i < section_rows(entries, section).len(),
    ensures
        section_rows(entries, section)[i] == RowModel::Header(section) && i == 0 || (i > 0
            && section_rows(entries, section)[i] is Entry && section_of(
            section_rows(entries, section)[i]->Entry_0,
        ) == section && entries.contains(section_rows(entries, section)[i]->Entry_0)),
{
    if i > 0 {
        let own = in_section(entries, section, entries.len() as int);
        lemma_in_section(entries, section, entries.len() as int, own[i - 1]);
        assert(own.contains(own[i - 1]));
        assert(entries.take(entries.len() as int) =~= entries);
    }
}

/// A change has a row exactly where git lists it.
pub proof fn law_every_change_has_a_row(entries: Seq<StatusModel>, entry: StatusModel)
    ensures
        status_rows(entries).contains(RowModel::Entry(entry)) <==> entries.contains(entry),
{
    let rows = status_rows(entries);
    let a = section_rows(entries, GitStatusSection::Conflicts);
    let b = section_rows(entries, GitStatusSection::Versioned);
    let c = section_rows(entries, GitStatusSection::Untracked);
    let n = entries.len() as int;
    assert(entries.take(n) =~= entries);
    if entries.contains(entry) {
        let section = section_of(entry);
        lemma_in_section(entries, section, n, entry);
        let own = in_section(entries, section, n);
        let i = choose|i: int| 0 <= i < own.len() && own[i] == entry;
        assert(section_rows(entries, section)[i + 1] == RowModel::Entry(entry));
        let at = i + 1 + match section {
            GitStatusSection::Conflicts => 0int,
            GitStatusSection::Versioned => a.len() as int,
            GitStatusSection::Untracked => (a.len() + b.len()) as int,
        };
        assert(rows[at] == RowModel::Entry(entry));
    }
    if rows.contains(RowModel::Entry(entry)) {
        let i = choose|i: int| 0 <= i < rows.len() && rows[i] == RowModel::Entry(entry);
        if i < a.len() {
            lemma_section_rows(entries, GitStatusSection::Conflicts, i);
        } else if i < a.len() + b.len() {
            lemma_section_rows(entries, GitStatusSection::Versioned, i - a.len());
        } else {
            lemma_section_rows(entries, GitStatusSection::Untracked, i - a.len() - b.len());
        }
    }
}

/// Conflicts stand above all other changes, and among those the files that git
/// did not know stand last.
pub proof fn law_order_of_changes(entries: Seq<StatusModel>, i: int, j: int)
    requires
        0 <= i < j < status_rows(entries).len(),
        status_rows(entries)[i] is Entry,
        status_rows(entries)[j] is Entry,
    ensures
        ({
            let above = status_rows(entries)[i]->Entry_0;
            let below = status_rows(entries)[j]->Entry_0;
            &&& below.had_conflict ==> above.had_conflict
            &&& !above.had_conflict && above.is_created ==> below.is_created
        }),
{
    let a = section_rows(entries, GitStatusSection::Conflicts);
    let b = section_rows(entries, GitStatusSection::Versioned);
    let c = section_rows(entries, GitStatusSection::Untracked);
    if i < a.len() {
        lemma_section_rows(entries, GitStatusSection::Conflicts, i);
    } else if i < a.len() + b.len() {
        lemma_section_rows(entries, GitStatusSection::Versioned, i - a.len());
    } else {
        lemma_section_rows(entries, GitStatusSection::Untracked, i - a.len() - b.len());
    }
    if j < a.len() {
        lemma_section_rows(entries, GitStatusSection::Conflicts, j);
    } else if j < a.len() + b.len() {
        lemma_section_rows(entries, GitStatusSection::Versioned, j - a.len());
    } else {
        lemma_section_rows(entries, GitStatusSection::Untracked, j - a.len() - b.len());
    }
}

/// Above the first row of a section stands its header: a row is a header exactly
/// where it is the first or the row above it belongs to another section.
pub proof fn law_headers_of_changes(entries: Seq<StatusModel>, i: int)
    requires
        0 <= i < status_rows(entries).len(),
    ensures
        ({
            let rows = status_rows(entries);
            match rows[i] {
                RowModel::Header(section) => i + 1 < rows.len() && rows[i + 1] is Entry
                    && section_of(rows[i + 1]->Entry_0) == section && (i > 0 ==> rows[i
                    - 1] is Entry && section_of(rows[i - 1]->Entry_0) != section),
                RowModel::Entry(entry) => i > 0 && match rows[i - 1] {
                    RowModel::Header(section) => section == section_of(entry),
                    RowModel::Entry(above) => section_of(above) == section_of(entry),
                },
            }
        }),
{
    let a = section_rows(entries, GitStatusSection::Conflicts);
    let b = section_rows(entries, GitStatusSection::Versioned);
    let c = section_rows(entries, GitStatusSection::Untracked);
    let rows = status_rows(entries);
    let (section, rows_of, at): (GitStatusSection, Seq<RowModel>, int) = if i < a.len() {
        (GitStatusSection::Conflicts, a, i)
    } else if i < a.len() + b.len() {
        (GitStatusSection::Versioned, b, i - a.len())
    } else {
        (GitStatusSection::Untracked, c, i - a.len() - b.len())
    };
    assert(rows_of.len() > 1) by {
        assert(in_section(entries, section, entries.len() as int).len() > 0);
    }
    assert(rows_of[at] == rows[i]);
    lemma_section_rows(entries, section, at);
    if at == 0 {
        assert(rows_of[1] == rows[i + 1]);
        lemma_section_rows(entries, section, 1);
        if 0 < i {
            if i <= a.len() {
                assert(i == a.len());
                lemma_section_rows(entries, GitStatusSection::Conflicts, i - 1);
                assert(a.len() > 1) by {
                    assert(in_section(
                        entries,
                        GitStatusSection::Conflicts,
                        entries.len() as int,
                    ).len() > 0);
                }
            } else {
                assert(i == a.len() + b.len());
                lemma_section_rows(entries, GitStatusSection::Versioned, i - a.len() - 1);
                assert(b.len() > 1) by {
                    assert(in_section(
                        entries,
                        GitStatusSection::Versioned,
                        entries.len() as int,
                    ).len() > 0);
                }
            }
        }
    } else {
        assert(rows_of[at - 1] == rows[i - 1]);
        lemma_section_rows(entries, section, at - 1);
    }
}

/// What a change counts as, from what git says of it alone: a conflict whatever
/// else it is; else untracked where it is new; else tracked.
pub proof fn law_sections_of_changes(entry: StatusModel)
    ensures
        section_of(entry) is Conflicts <==> entry.had_conflict,
        section_of(entry) is Untracked <==> entry.is_created && !entry.had_conflict,
        toggle_of(entry.staging) is Selected <==> entry.staging is Staged,
        toggle_of(entry.staging) is Unselected <==> entry.staging is Unstaged,
{
}

/// What git says now of a path is what it says of the first entry with it.
pub proof fn law_status_of_a_path(entries: Seq<StatusEntry>, from: int, at: int, path: Seq<char>)
    requires
        0 <= from <= at <= entries.len(),
        at < entries.len() ==> entries[at].repo_path@ == path,
        forall|k: int| from <= k < at ==> (#[trigger] entries[k]).repo_path@ != path,
    ensures
        status_from(entries, from, path) == if at < entries.len() {
            Some(at)
        } else {
            None
        },
    decreases at - from,
{
    if from < at {
        assert(entries[from].repo_path@ != path);
        law_status_of_a_path(entries, from + 1, at, path);
    }
}

} // verus!
