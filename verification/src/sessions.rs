//! Sessions of coding agents: what each of them is doing, and which shells they
//! run in.

use std::collections::{HashMap, HashSet};

use vstd::prelude::*;

use crate::text::{same_text, text_model};

verus! {

broadcast use vstd::std_specs::hash::group_hash_axioms;

#[derive(Clone, Copy, Debug, PartialEq, Eq, Structural)]
pub enum ClaudeSessionState {
    Idle,
    Running,
    WaitingPermission,
    Completed,
}

/// A session, and the processes that it runs below.
#[derive(Debug)]
pub struct ClaudeSession {
    pub session_id: String,
    pub ancestor_pids: Vec<u32>,
    pub state: ClaudeSessionState,
    pub user_prompt: String,
    pub status_message: String,
}

/// What is known of a session.
#[verifier::ext_equal]
pub struct SessionModel {
    pub ancestor_pids: Seq<u32>,
    pub state: ClaudeSessionState,
    pub user_prompt: Seq<char>,
    pub status_message: Seq<char>,
}

impl View for ClaudeSession {
    type V = SessionModel;

    open spec fn view(&self) -> SessionModel {
        SessionModel {
            ancestor_pids: self.ancestor_pids@,
            state: self.state,
            user_prompt: self.user_prompt@,
            status_message: self.status_message@,
        }
    }
}

/// What is derived from the sessions for the shells that they run in.
#[derive(Debug)]
pub struct SharedSessionState {
    pub ready_shell_pids: HashSet<u32>,
    pub running_shell_pids: HashSet<u32>,
    pub permission_shell_pids: HashSet<u32>,
    pub pid_to_session_id: HashMap<u32, String>,
}

/// The sessions, each known by its identifier.
#[derive(Debug)]
pub struct ClaudeSessions {
    pub sessions: Vec<ClaudeSession>,
    pub shared: SharedSessionState,
}

/// Where the session with an identifier stands.
pub open spec fn is_session(sessions: Seq<ClaudeSession>, index: int, id: Seq<char>) -> bool {
    0 <= index < sessions.len() && sessions[index].session_id@ == id
}

pub open spec fn has_session(sessions: Seq<ClaudeSession>, id: Seq<char>) -> bool {
    exists|index: int| is_session(sessions, index, id)
}

/// No identifier stands twice.
pub open spec fn are_distinct(sessions: Seq<ClaudeSession>) -> bool {
    forall|i: int, j: int|
        0 <= i < j < sessions.len() ==> (#[trigger] sessions[i]).session_id@ != (
        #[trigger] sessions[j]).session_id@
}

/// The sessions by their identifiers.
pub open spec fn session_map(sessions: Seq<ClaudeSession>) -> Map<Seq<char>, SessionModel> {
    Map::new(
        |id: Seq<char>| has_session(sessions, id),
        |id: Seq<char>| sessions[choose|index: int| is_session(sessions, index, id)]@,
    )
}

/// The processes of the sessions in a state.
pub open spec fn pids_in(
    sessions: Map<Seq<char>, SessionModel>,
    state: ClaudeSessionState,
) -> Set<u32> {
    Set::new(
        |pid: u32|
            exists|id: Seq<char>| #[trigger]
                sessions.contains_key(id) && sessions[id].state == state
                    && sessions[id].ancestor_pids.contains(pid),
    )
}

/// Whether a process belongs to a session.
pub open spec fn runs_below(
    sessions: Map<Seq<char>, SessionModel>,
    id: Seq<char>,
    pid: u32,
) -> bool {
    sessions.contains_key(id) && sessions[id].ancestor_pids.contains(pid)
}

/// Whether what is derived from sessions is up to date.
pub open spec fn is_synced(
    shared: SharedSessionState,
    sessions: Map<Seq<char>, SessionModel>,
) -> bool {
    &&& shared.ready_shell_pids@ == pids_in(sessions, ClaudeSessionState::Completed)
    &&& shared.running_shell_pids@ == pids_in(sessions, ClaudeSessionState::Running)
    &&& shared.permission_shell_pids@ == pids_in(sessions, ClaudeSessionState::WaitingPermission)
    &&& forall|pid: u32| #[trigger]
        shared.pid_to_session_id@.contains_key(pid) <==> exists|id: Seq<char>|
            runs_below(sessions, id, pid)
    &&& forall|pid: u32| #[trigger]
        shared.pid_to_session_id@.contains_key(pid) ==> runs_below(
            sessions,
            shared.pid_to_session_id@[pid]@,
            pid,
        )
}

proof fn lemma_session_at(sessions: Seq<ClaudeSession>, index: int)
    requires
        are_distinct(sessions),
        0 <= index < sessions.len(),
    ensures
        session_map(sessions).contains_key(sessions[index].session_id@),
        session_map(sessions)[sessions[index].session_id@] == sessions[index]@,
{
    let id = sessions[index].session_id@;
    assert(is_session(sessions, index, id));
    let found = choose|k: int| is_session(sessions, k, id);
    assert(is_session(sessions, found, id));
    if found < index {
        assert(sessions[found].session_id@ != sessions[index].session_id@);
    } else if index < found {
        assert(sessions[index].session_id@ != sessions[found].session_id@);
    }
}

/// Changing a session in place changes what its identifier stands for.
proof fn lemma_session_changed(
    before: Seq<ClaudeSession>,
    index: int,
    session: ClaudeSession,
)
    requires
        are_distinct(before),
        0 <= index < before.len(),
        session.session_id@ == before[index].session_id@,
    ensures
        are_distinct(before.update(index, session)),
        session_map(before.update(index, session)) == session_map(before).insert(
            session.session_id@,
            session@,
        ),
{
    let after = before.update(index, session);
    assert forall|i: int, j: int| 0 <= i < j < after.len() implies (
    #[trigger] after[i]).session_id@ != (#[trigger] after[j]).session_id@ by {
        assert(before[i].session_id@ != before[j].session_id@);
    }
    let map = session_map(before).insert(session.session_id@, session@);
    assert forall|id: Seq<char>| has_session(after, id) <==> map.contains_key(id) by {
        if has_session(after, id) {
            let k = choose|k: int| is_session(after, k, id);
            assert(is_session(before, k, id));
        }
        if has_session(before, id) {
            let k = choose|k: int| is_session(before, k, id);
            assert(is_session(after, k, id));
        }
        assert(is_session(after, index, session.session_id@));
    }
    assert forall|id: Seq<char>| map.contains_key(id) implies session_map(after)[id] == map[id] by {
        assert(has_session(after, id));
        let k = choose|k: int| is_session(after, k, id);
        assert(is_session(after, k, id));
        lemma_session_at(after, k);
        if k != index {
            lemma_session_at(before, k);
            if id == session.session_id@ {
                if k < index {
                    assert(before[k].session_id@ != before[index].session_id@);
                } else {
                    assert(before[index].session_id@ != before[k].session_id@);
                }
            }
        }
    }
    assert(session_map(after) =~= map);
}

/// A new session is added under its identifier.
proof fn lemma_session_added(before: Seq<ClaudeSession>, session: ClaudeSession)
    requires
        are_distinct(before),
        !has_session(before, session.session_id@),
    ensures
        are_distinct(before.push(session)),
        session_map(before.push(session)) == session_map(before).insert(
            session.session_id@,
            session@,
        ),
{
    let after = before.push(session);
    let last = before.len() as int;
    assert forall|i: int, j: int| 0 <= i < j < after.len() implies (
    #[trigger] after[i]).session_id@ != (#[trigger] after[j]).session_id@ by {
        if j == last {
            if after[i].session_id@ == session.session_id@ {
                assert(is_session(before, i, session.session_id@));
            }
        } else {
            assert(before[i].session_id@ != before[j].session_id@);
        }
    }
    let map = session_map(before).insert(session.session_id@, session@);
    assert forall|id: Seq<char>| has_session(after, id) <==> map.contains_key(id) by {
        if has_session(after, id) {
            let k = choose|k: int| is_session(after, k, id);
            if k < last {
                assert(is_session(before, k, id));
            }
        }
        if has_session(before, id) {
            let k = choose|k: int| is_session(before, k, id);
            assert(is_session(after, k, id));
        }
        assert(is_session(after, last, session.session_id@));
    }
    assert forall|id: Seq<char>| map.contains_key(id) implies session_map(after)[id] == map[id] by {
        assert(has_session(after, id));
        let k = choose|k: int| is_session(after, k, id);
        assert(is_session(after, k, id));
        lemma_session_at(after, k);
        if k < last {
            lemma_session_at(before, k);
            if id == session.session_id@ {
                assert(is_session(before, k, id));
            }
        }
    }
    assert(session_map(after) =~= map);
}

/// A session that nothing is known of.
pub open spec fn blank_session(ancestor_pids: Seq<u32>, state: ClaudeSessionState) -> SessionModel {
    SessionModel { ancestor_pids, state, user_prompt: seq![], status_message: seq![] }
}

/// The session under an identifier, or one that nothing is known of.
pub open spec fn session_or_blank(
    sessions: Map<Seq<char>, SessionModel>,
    id: Seq<char>,
    state: ClaudeSessionState,
) -> SessionModel {
    if sessions.contains_key(id) {
        sessions[id]
    } else {
        blank_session(seq![], state)
    }
}

/// What happens to a session.
pub enum SessionEvent {
    /// It starts. It may have been heard of before.
    Start,
    /// It has done what it was asked to do.
    Stop { title: Option<Seq<char>> },
    /// It says something.
    Notification { message: Seq<char> },
    /// It is asked to do something.
    Prompt { prompt: Seq<char> },
    /// It asks for a permission.
    PermissionRequest,
}

/// What a session is after an event.
pub open spec fn session_after(
    sessions: Map<Seq<char>, SessionModel>,
    id: Seq<char>,
    pids: Seq<u32>,
    event: SessionEvent,
) -> SessionModel {
    match event {
        SessionEvent::Start => SessionModel {
            ancestor_pids: pids,
            ..session_or_blank(sessions, id, ClaudeSessionState::Idle)
        },
        SessionEvent::Stop { title } => SessionModel {
            ancestor_pids: pids,
            state: ClaudeSessionState::Completed,
            status_message: match title {
                Some(title) => title,
                None => "Ready"@,
            },
            ..session_or_blank(sessions, id, ClaudeSessionState::Completed)
        },
        SessionEvent::Notification { message: title } => {
            let before = session_or_blank(sessions, id, ClaudeSessionState::Completed);
            SessionModel {
                ancestor_pids: pids,
                status_message: title,
                state: if before.state == ClaudeSessionState::Idle {
                    ClaudeSessionState::Completed
                } else {
                    before.state
                },
                ..before
            }
        },
        SessionEvent::Prompt { prompt } => SessionModel {
            ancestor_pids: pids,
            state: ClaudeSessionState::Running,
            user_prompt: prompt,
            status_message: seq![],
        },
        SessionEvent::PermissionRequest => if !sessions.contains_key(id) {
            blank_session(pids, ClaudeSessionState::WaitingPermission)
        } else if sessions[id].state == ClaudeSessionState::Running || sessions[id].state
            == ClaudeSessionState::Idle {
            SessionModel {
                ancestor_pids: pids,
                state: ClaudeSessionState::WaitingPermission,
                ..sessions[id]
            }
        } else {
            sessions[id]
        },
    }
}

/// The sessions after a tool was used: one that waited for a permission runs
/// again, and every other stays as it is.
pub open spec fn after_tool_use(
    sessions: Map<Seq<char>, SessionModel>,
    id: Seq<char>,
    pids: Seq<u32>,
) -> Map<Seq<char>, SessionModel> {
    if sessions.contains_key(id) && sessions[id].state == ClaudeSessionState::WaitingPermission {
        sessions.insert(
            id,
            SessionModel {
                ancestor_pids: pids,
                state: ClaudeSessionState::Running,
                ..sessions[id]
            },
        )
    } else {
        sessions
    }
}

/// The sessions after a key was pressed in a shell: those that have completed
/// there are idle.
pub open spec fn after_key_input(sessions: Map<Seq<char>, SessionModel>, pid: u32) -> Map<
    Seq<char>,
    SessionModel,
> {
    sessions.map_values(
        |session: SessionModel|
            if session.state == ClaudeSessionState::Completed && session.ancestor_pids.contains(
                pid,
            ) {
                SessionModel { state: ClaudeSessionState::Idle, ..session }
            } else {
                session
            },
    )
}

fn has_pid(pids: &Vec<u32>, pid: u32) -> (b: bool)
    ensures
        b == pids@.contains(pid),
{
    let mut i: usize = 0;
    while i < pids.len()
        invariant
            i <= pids@.len(),
            forall|k: int| 0 <= k < i ==> pids@[k] != pid,
        decreases pids@.len() - i,
    {
        if pids[i] == pid {
            return true;
        }
        i += 1;
    }
    false
}

fn add_pids(set: &mut HashSet<u32>, pids: &Vec<u32>)
    ensures
        final(set)@ == old(set)@.union(pids@.to_set()),
{
    let mut i: usize = 0;
    while i < pids.len()
        invariant
            i <= pids@.len(),
            set@ =~= old(set)@.union(pids@.take(i as int).to_set()),
        decreases pids@.len() - i,
    {
        let ghost before = pids@.take(i as int);
        let ghost after = pids@.take(i + 1);
        set.insert(pids[i]);
        proof {
            assert(after =~= before.push(pids@[i as int]));
            assert forall|p: u32| after.contains(p) <==> before.contains(p) || p == pids@[i as int] by {
                if before.contains(p) {
                    let k = choose|k: int| 0 <= k < before.len() && before[k] == p;
                    assert(after[k] == p);
                }
                assert(after[i as int] == pids@[i as int]);
            }
        }
        i += 1;
    }
    assert(pids@.take(pids@.len() as int) =~= pids@);
}

/// The processes of the first `n` sessions in a state.
pub open spec fn pids_before(sessions: Seq<ClaudeSession>, n: int, state: ClaudeSessionState) -> Set<
    u32,
>
    decreases n,
{
    if n <= 0 {
        Set::empty()
    } else if sessions[n - 1].state == state {
        pids_before(sessions, n - 1, state).union(sessions[n - 1].ancestor_pids@.to_set())
    } else {
        pids_before(sessions, n - 1, state)
    }
}

proof fn lemma_pids_before(sessions: Seq<ClaudeSession>, n: int, state: ClaudeSessionState, pid: u32)
    requires
        0 <= n <= sessions.len(),
    ensures
        pids_before(sessions, n, state).contains(pid) <==> exists|k: int|
            0 <= k < n && (#[trigger] sessions[k]).state == state
                && sessions[k].ancestor_pids@.contains(pid),
    decreases n,
{
    if n > 0 {
        lemma_pids_before(sessions, n - 1, state, pid);
        if pids_before(sessions, n, state).contains(pid) {
            if pids_before(sessions, n - 1, state).contains(pid) {
                let k = choose|k: int|
                    0 <= k < n - 1 && (#[trigger] sessions[k]).state == state
                        && sessions[k].ancestor_pids@.contains(pid);
                assert(sessions[k].state == state);
            } else {
                assert(sessions[n - 1].ancestor_pids@.contains(pid));
            }
        }
        if exists|k: int|
            0 <= k < n && (#[trigger] sessions[k]).state == state
                && sessions[k].ancestor_pids@.contains(pid) {
            let k = choose|k: int|
                0 <= k < n && (#[trigger] sessions[k]).state == state
                    && sessions[k].ancestor_pids@.contains(pid);
            if k < n - 1 {
                assert(pids_before(sessions, n - 1, state).contains(pid));
            }
        }
    }
}

proof fn lemma_pids_in(sessions: Seq<ClaudeSession>, state: ClaudeSessionState)
    requires
        are_distinct(sessions),
    ensures
        pids_before(sessions, sessions.len() as int, state) == pids_in(
            session_map(sessions),
            state,
        ),
{
    let map = session_map(sessions);
    let n = sessions.len() as int;
    assert forall|pid: u32| pids_before(sessions, n, state).contains(pid) <==> pids_in(
        map,
        state,
    ).contains(pid) by {
        lemma_pids_before(sessions, n, state, pid);
        if pids_before(sessions, n, state).contains(pid) {
            let k = choose|k: int|
                0 <= k < n && (#[trigger] sessions[k]).state == state
                    && sessions[k].ancestor_pids@.contains(pid);
            lemma_session_at(sessions, k);
            assert(map.contains_key(sessions[k].session_id@));
        }
        if pids_in(map, state).contains(pid) {
            let id = choose|id: Seq<char>| #[trigger]
                map.contains_key(id) && map[id].state == state && map[id].ancestor_pids.contains(
                    pid,
                );
            let k = choose|k: int| is_session(sessions, k, id);
            assert(is_session(sessions, k, id));
            lemma_session_at(sessions, k);
            assert(sessions[k].state == state);
        }
    }
    assert(pids_before(sessions, n, state) =~= pids_in(map, state));
}

impl ClaudeSessions {
    /// The sessions by their identifiers.
    pub open spec fn map(self) -> Map<Seq<char>, SessionModel> {
        session_map(self.sessions@)
    }

    /// No identifier stands twice, and what is derived is up to date.
    pub open spec fn well_formed(self) -> bool {
        are_distinct(self.sessions@) && is_synced(self.shared, self.map())
    }

    pub fn new() -> (sessions: Self)
        ensures
            sessions.well_formed(),
            sessions.map() == Map::<Seq<char>, SessionModel>::empty(),
    {
        let sessions = ClaudeSessions {
            sessions: Vec::new(),
            shared: SharedSessionState {
                ready_shell_pids: HashSet::new(),
                running_shell_pids: HashSet::new(),
                permission_shell_pids: HashSet::new(),
                pid_to_session_id: HashMap::new(),
            },
        };
        assert(sessions.map() =~= Map::<Seq<char>, SessionModel>::empty());
        assert(sessions.shared.ready_shell_pids@ =~= pids_in(
            sessions.map(),
            ClaudeSessionState::Completed,
        ));
        assert(sessions.shared.running_shell_pids@ =~= pids_in(
            sessions.map(),
            ClaudeSessionState::Running,
        ));
        assert(sessions.shared.permission_shell_pids@ =~= pids_in(
            sessions.map(),
            ClaudeSessionState::WaitingPermission,
        ));
        sessions
    }

    fn find(&self, id: &str) -> (found: Option<usize>)
        ensures
            match found {
                Some(index) => is_session(self.sessions@, index as int, id@),
                None => !has_session(self.sessions@, id@),
            },
    {
        let mut i: usize = 0;
        while i < self.sessions.len()
            invariant
                i <= self.sessions@.len(),
                forall|k: int| 0 <= k < i ==> !#[trigger] is_session(self.sessions@, k, id@),
            decreases self.sessions@.len() - i,
        {
            if same_text(self.sessions[i].session_id.as_str(), id) {
                return Some(i);
            }
            i += 1;
        }
        None
    }

    /// Brings what is derived from the sessions up to date.
    pub fn sync_session_derived_state(&mut self)
        requires
            are_distinct(old(self).sessions@),
        ensures
            final(self).well_formed(),
            final(self).sessions == old(self).sessions,
    {
        let ghost all = self.sessions@;
        let ghost map = self.map();
        let mut ready: HashSet<u32> = HashSet::new();
        let mut running: HashSet<u32> = HashSet::new();
        let mut permission: HashSet<u32> = HashSet::new();
        let mut pid_map: HashMap<u32, String> = HashMap::new();
        let mut i: usize = 0;
        while i < self.sessions.len()
            invariant
                i <= self.sessions@.len(),
                self.sessions == old(self).sessions,
                all == self.sessions@,
                are_distinct(all),
                map == session_map(all),
                ready@ =~= pids_before(all, i as int, ClaudeSessionState::Completed),
                running@ =~= pids_before(all, i as int, ClaudeSessionState::Running),
                permission@ =~= pids_before(
                    all,
                    i as int,
                    ClaudeSessionState::WaitingPermission,
                ),
                forall|pid: u32| #[trigger]
                    pid_map@.contains_key(pid) ==> runs_below(map, pid_map@[pid]@, pid),
                forall|k: int, pid: u32|
                    0 <= k < i && #[trigger] all[k].ancestor_pids@.contains(pid)
                        ==> pid_map@.contains_key(pid),
            decreases self.sessions@.len() - i,
        {
            let session = &self.sessions[i];
            match session.state {
                ClaudeSessionState::Completed => add_pids(&mut ready, &session.ancestor_pids),
                ClaudeSessionState::Running => add_pids(&mut running, &session.ancestor_pids),
                ClaudeSessionState::WaitingPermission => add_pids(
                    &mut permission,
                    &session.ancestor_pids,
                ),
                ClaudeSessionState::Idle => {},
            }
            proof {
                lemma_session_at(all, i as int);
            }
            let mut k: usize = 0;
            while k < session.ancestor_pids.len()
                invariant
                    k <= session.ancestor_pids@.len(),
                    session@ == all[i as int]@,
                    session.session_id@ == all[i as int].session_id@,
                    0 <= i < all.len(),
                    map.contains_key(session.session_id@),
                    map[session.session_id@] == session@,
                    forall|pid: u32| #[trigger]
                        pid_map@.contains_key(pid) ==> runs_below(map, pid_map@[pid]@, pid),
                    forall|m: int, pid: u32|
                        0 <= m < i && #[trigger] all[m].ancestor_pids@.contains(pid)
                            ==> pid_map@.contains_key(pid),
                    forall|m: int|
                        0 <= m < k ==> pid_map@.contains_key(
                            #[trigger] session.ancestor_pids@[m],
                        ),
                decreases session.ancestor_pids@.len() - k,
            {
                let pid = session.ancestor_pids[k];
                assert(session.ancestor_pids@.contains(pid));
                pid_map.insert(pid, session.session_id.clone());
                k += 1;
            }
            assert forall|m: int, pid: u32|
                0 <= m < i + 1 && #[trigger] all[m].ancestor_pids@.contains(pid) implies pid_map@.contains_key(
            pid) by {
                if m == i {
                    let n = choose|n: int|
                        0 <= n < all[m].ancestor_pids@.len() && all[m].ancestor_pids@[n] == pid;
                    assert(pid_map@.contains_key(session.ancestor_pids@[n]));
                }
            }
            i += 1;
        }
        proof {
            lemma_pids_in(all, ClaudeSessionState::Completed);
            lemma_pids_in(all, ClaudeSessionState::Running);
            lemma_pids_in(all, ClaudeSessionState::WaitingPermission);
            assert forall|pid: u32| #[trigger] pid_map@.contains_key(pid) <==> exists|
                id: Seq<char>,
            |
                runs_below(map, id, pid) by {
                if pid_map@.contains_key(pid) {
                    assert(runs_below(map, pid_map@[pid]@, pid));
                }
                if exists|id: Seq<char>| runs_below(map, id, pid) {
                    let id = choose|id: Seq<char>| runs_below(map, id, pid);
                    let k = choose|k: int| is_session(all, k, id);
                    assert(is_session(all, k, id));
                    lemma_session_at(all, k);
                    assert(all[k].ancestor_pids@.contains(pid));
                }
            }
        }
        self.shared = SharedSessionState {
            ready_shell_pids: ready,
            running_shell_pids: running,
            permission_shell_pids: permission,
            pid_to_session_id: pid_map,
        };
    }

    /// Puts a session in the place of the one with its identifier, or adds it.
    fn put(&mut self, session: ClaudeSession)
        requires
            are_distinct(old(self).sessions@),
        ensures
            final(self).well_formed(),
            final(self).map() == old(self).map().insert(session.session_id@, session@),
    {
        let ghost before = self.sessions@;
        let ghost id = session.session_id@;
        let ghost model = session@;
        match self.find(session.session_id.as_str()) {
            Some(index) => {
                proof {
                    lemma_session_changed(before, index as int, session);
                }
                self.sessions.set(index, session);
            },
            None => {
                proof {
                    lemma_session_added(before, session);
                }
                self.sessions.push(session);
            },
        }
        self.sync_session_derived_state();
    }

    /// What is known of a session, apart from its processes.
    fn known(&self, id: &str) -> (known: Option<(ClaudeSessionState, String, String)>)
        requires
            are_distinct(self.sessions@),
        ensures
            match known {
                Some((state, prompt, message)) => self.map().contains_key(id@)
                    && self.map()[id@].state == state && self.map()[id@].user_prompt == prompt@
                    && self.map()[id@].status_message == message@,
                None => !self.map().contains_key(id@),
            },
    {
        match self.find(id) {
            Some(index) => {
                proof {
                    lemma_session_at(self.sessions@, index as int);
                }
                let session = &self.sessions[index];
                Some(
                    (session.state, session.user_prompt.clone(), session.status_message.clone()),
                )
            },
            None => None,
        }
    }

    /// A session starts. One that was heard of before keeps what is known.
    pub fn register_claude_session(&mut self, session_id: String, ancestor_pids: Vec<u32>)
        requires
            old(self).well_formed(),
        ensures
            final(self).well_formed(),
            final(self).map() == old(self).map().insert(
                session_id@,
                session_after(
                    old(self).map(),
                    session_id@,
                    ancestor_pids@,
                    SessionEvent::Start,
                ),
            ),
    {
        let (state, user_prompt, status_message) = match self.known(session_id.as_str()) {
            Some(known) => known,
            None => (ClaudeSessionState::Idle, String::new(), String::new()),
        };
        self.put(
            ClaudeSession { session_id, ancestor_pids, state, user_prompt, status_message },
        );
    }

    /// A session has done what it was asked to do.
    pub fn mark_claude_session_ready(
        &mut self,
        session_id: &str,
        ancestor_pids: Vec<u32>,
        title: Option<String>,
    )
        requires
            old(self).well_formed(),
        ensures
            final(self).well_formed(),
            final(self).map() == old(self).map().insert(
                session_id@,
                session_after(
                    old(self).map(),
                    session_id@,
                    ancestor_pids@,
                    SessionEvent::Stop { title: text_model(title) },
                ),
            ),
    {
        let status_message = match title {
            Some(title) => title,
            None => "Ready".to_string(),
        };
        let user_prompt = match self.known(session_id) {
            Some((_, prompt, _)) => prompt,
            None => String::new(),
        };
        self.put(
            ClaudeSession {
                session_id: session_id.to_string(),
                ancestor_pids,
                state: ClaudeSessionState::Completed,
                user_prompt,
                status_message,
            },
        );
    }

    /// A session says something. One that is running goes on running; one that
    /// is idle has completed.
    pub fn handle_claude_notification(
        &mut self,
        session_id: &str,
        ancestor_pids: Vec<u32>,
        title: String,
    )
        requires
            old(self).well_formed(),
        ensures
            final(self).well_formed(),
            final(self).map() == old(self).map().insert(
                session_id@,
                session_after(
                    old(self).map(),
                    session_id@,
                    ancestor_pids@,
                    SessionEvent::Notification { message: title@ },
                ),
            ),
    {
        let (state, user_prompt) = match self.known(session_id) {
            Some((state, prompt, _)) => (
                if state == ClaudeSessionState::Idle {
                    ClaudeSessionState::Completed
                } else {
                    state
                },
                prompt,
            ),
            None => (ClaudeSessionState::Completed, String::new()),
        };
        self.put(
            ClaudeSession {
                session_id: session_id.to_string(),
                ancestor_pids,
                state,
                user_prompt,
                status_message: title,
            },
        );
    }

    /// A session is asked to do something.
    pub fn set_claude_session_prompt(
        &mut self,
        session_id: &str,
        ancestor_pids: Vec<u32>,
        prompt: String,
    )
        requires
            old(self).well_formed(),
        ensures
            final(self).well_formed(),
            final(self).map() == old(self).map().insert(
                session_id@,
                session_after(
                    old(self).map(),
                    session_id@,
                    ancestor_pids@,
                    SessionEvent::Prompt { prompt: prompt@ },
                ),
            ),
    {
        self.put(
            ClaudeSession {
                session_id: session_id.to_string(),
                ancestor_pids,
                state: ClaudeSessionState::Running,
                user_prompt: prompt,
                status_message: String::new(),
            },
        );
    }

    /// A session asks for a permission. One that has completed, or that waits
    /// already, stays as it is.
    pub fn handle_claude_permission_request(&mut self, session_id: &str, ancestor_pids: Vec<u32>)
        requires
            old(self).well_formed(),
        ensures
            final(self).well_formed(),
            final(self).map() == old(self).map().insert(
                session_id@,
                session_after(
                    old(self).map(),
                    session_id@,
                    ancestor_pids@,
                    SessionEvent::PermissionRequest,
                ),
            ),
    {
        let (user_prompt, status_message) = match self.known(session_id) {
            Some((state, prompt, message)) => {
                if state != ClaudeSessionState::Running && state != ClaudeSessionState::Idle {
                    assert(self.map().insert(session_id@, self.map()[session_id@])
                        =~= self.map());
                    return ;
                }
                (prompt, message)
            },
            None => (String::new(), String::new()),
        };
        self.put(
            ClaudeSession {
                session_id: session_id.to_string(),
                ancestor_pids,
                state: ClaudeSessionState::WaitingPermission,
                user_prompt,
                status_message,
            },
        );
    }

    /// A tool was used, so a session that waited for a permission runs again.
    /// The result tells whether anything changed.
    pub fn handle_claude_post_tool_use(&mut self, session_id: &str, ancestor_pids: Vec<u32>) -> (changed:
        bool)
        requires
            old(self).well_formed(),
        ensures
            final(self).well_formed(),
            final(self).map() == after_tool_use(old(self).map(), session_id@, ancestor_pids@),
            changed == (old(self).map().contains_key(session_id@)
                && old(self).map()[session_id@].state == ClaudeSessionState::WaitingPermission),
            !changed ==> *final(self) == *old(self),
    {
        match self.known(session_id) {
            Some((state, user_prompt, status_message)) => {
                if state != ClaudeSessionState::WaitingPermission {
                    return false;
                }
                self.put(
                    ClaudeSession {
                        session_id: session_id.to_string(),
                        ancestor_pids,
                        state: ClaudeSessionState::Running,
                        user_prompt,
                        status_message,
                    },
                );
                true
            },
            None => false,
        }
    }
}

/// A terminal on screen: where it is, and the process of its shell if that is
/// known.
#[derive(Clone, Copy, Debug, PartialEq, Eq, Structural)]
pub struct TerminalRef {
    pub pane: u64,
    pub terminal: u64,
    pub shell_pid: Option<u32>,
}

/// A terminal and what the session in it was asked and says.
#[derive(Debug, PartialEq)]
pub struct ReadyTerminalInfo {
    pub pane: u64,
    pub terminal: u64,
    pub user_prompt: String,
    pub status_message: String,
}

/// What is counted among terminals.
#[derive(Clone, Copy, Debug, PartialEq, Eq, Structural)]
pub enum TerminalCount {
    /// A session waits for a permission.
    Waiting,
    /// A session is running, and none waits.
    Running,
    /// A session has completed, and none is running or waits.
    Ready,
}

/// Whether a terminal counts.
pub open spec fn counts(shared: SharedSessionState, terminal: TerminalRef, what: TerminalCount) -> bool {
    terminal.shell_pid matches Some(pid) && match what {
        TerminalCount::Waiting => shared.permission_shell_pids@.contains(pid),
        TerminalCount::Running => shared.running_shell_pids@.contains(pid)
            && !shared.permission_shell_pids@.contains(pid),
        TerminalCount::Ready => shared.ready_shell_pids@.contains(pid)
            && !shared.running_shell_pids@.contains(pid)
            && !shared.permission_shell_pids@.contains(pid),
    }
}

/// How many of the first `n` terminals count.
pub open spec fn count_before(
    shared: SharedSessionState,
    terminals: Seq<TerminalRef>,
    what: TerminalCount,
    n: int,
) -> int
    decreases n,
{
    if n <= 0 {
        0
    } else {
        count_before(shared, terminals, what, n - 1) + if counts(shared, terminals[n - 1], what) {
            1int
        } else {
            0
        }
    }
}

impl SharedSessionState {
    fn count(&self, terminals: &Vec<TerminalRef>, what: TerminalCount) -> (count: usize)
        ensures
            count == count_before(*self, terminals@, what, terminals@.len() as int),
    {
        let mut count: usize = 0;
        let mut i: usize = 0;
        while i < terminals.len()
            invariant
                i <= terminals@.len(),
                count <= i,
                count == count_before(*self, terminals@, what, i as int),
            decreases terminals@.len() - i,
        {
            if let Some(pid) = terminals[i].shell_pid {
                let waiting = self.permission_shell_pids.contains(&pid);
                let running = self.running_shell_pids.contains(&pid);
                let ready = self.ready_shell_pids.contains(&pid);
                let counted = match what {
                    TerminalCount::Waiting => waiting,
                    TerminalCount::Running => running && !waiting,
                    TerminalCount::Ready => ready && !running && !waiting,
                };
                if counted {
                    count += 1;
                }
            }
            i += 1;
        }
        count
    }

    /// How many terminals hold a session that has completed and nothing else.
    pub fn count_ready_terminals_in_arena(&self, terminals: &Vec<TerminalRef>) -> (count: usize)
        ensures
            count == count_before(
                *self,
                terminals@,
                TerminalCount::Ready,
                terminals@.len() as int,
            ),
    {
        self.count(terminals, TerminalCount::Ready)
    }

    /// How many terminals hold a session that is running and none that waits.
    pub fn count_running_claudes_in_arena(&self, terminals: &Vec<TerminalRef>) -> (count: usize)
        ensures
            count == count_before(
                *self,
                terminals@,
                TerminalCount::Running,
                terminals@.len() as int,
            ),
    {
        self.count(terminals, TerminalCount::Running)
    }

    /// How many terminals hold a session that waits for a permission.
    pub fn count_waiting_claudes_in_arena(&self, terminals: &Vec<TerminalRef>) -> (count: usize)
        ensures
            count == count_before(
                *self,
                terminals@,
                TerminalCount::Waiting,
                terminals@.len() as int,
            ),
    {
        self.count(terminals, TerminalCount::Waiting)
    }
}

/// Where a terminal with a process among `pids` stands from `from` on.
pub open spec fn is_listed(terminal: TerminalRef, pids: Set<u32>) -> bool {
    terminal.shell_pid matches Some(pid) && pids.contains(pid)
}

/// The terminals among the first `n` whose processes are among `pids`.
pub open spec fn listed_before(terminals: Seq<TerminalRef>, pids: Set<u32>, n: int) -> Seq<
    TerminalRef,
>
    decreases n,
{
    if n <= 0 {
        seq![]
    } else if is_listed(terminals[n - 1], pids) {
        listed_before(terminals, pids, n - 1).push(terminals[n - 1])
    } else {
        listed_before(terminals, pids, n - 1)
    }
}

/// Whether a session in a state runs below a process.
pub open spec fn tells(
    sessions: Map<Seq<char>, SessionModel>,
    id: Seq<char>,
    state: ClaudeSessionState,
    pid: u32,
) -> bool {
    runs_below(sessions, id, pid) && sessions[id].state == state
}

/// Whether an info tells of a terminal what a session in a state says there.
/// Where several do, it is one of them; where none does, nothing is told.
pub open spec fn is_info(
    sessions: Map<Seq<char>, SessionModel>,
    state: ClaudeSessionState,
    terminal: TerminalRef,
    info: ReadyTerminalInfo,
) -> bool {
    let pid = terminal.shell_pid->0;
    &&& info.pane == terminal.pane
    &&& info.terminal == terminal.terminal
    &&& if exists|id: Seq<char>| tells(sessions, id, state, pid) {
        exists|id: Seq<char>| #[trigger]
            tells(sessions, id, state, pid) && sessions[id].user_prompt == info.user_prompt@
                && sessions[id].status_message == info.status_message@
    } else {
        info.user_prompt@ == Seq::<char>::empty() && info.status_message@ == Seq::<char>::empty()
    }
}

impl ClaudeSessions {
    /// A key was pressed in a shell, so the sessions that have completed there
    /// are idle. The result tells whether anything changed.
    pub fn clear_session_for_shell_pid(&mut self, shell_pid: u32) -> (changed: bool)
        requires
            old(self).well_formed(),
        ensures
            final(self).well_formed(),
            final(self).map() == after_key_input(old(self).map(), shell_pid),
            changed == old(self).shared.ready_shell_pids@.contains(shell_pid),
            !changed ==> *final(self) == *old(self),
    {
        let ghost before = self.sessions@;
        let mut changed = false;
        let mut i: usize = 0;
        while i < self.sessions.len()
            invariant
                i <= self.sessions@.len(),
                self.sessions@.len() == before.len(),
                self.shared == old(self).shared,
                before == old(self).sessions@,
                are_distinct(before),
                forall|k: int|
                    i <= k < before.len() ==> #[trigger] self.sessions@[k] == before[k],
                forall|k: int|
                    0 <= k < i ==> (#[trigger] self.sessions@[k]).session_id@
                        == before[k].session_id@ && self.sessions@[k]@ == cleared(
                        before[k]@,
                        shell_pid,
                    ),
                !changed ==> self.sessions == old(self).sessions,
                !changed ==> forall|k: int|
                    0 <= k < i ==> !is_ready_at(#[trigger] before[k]@, shell_pid),
                changed ==> exists|k: int|
                    0 <= k < i && is_ready_at(#[trigger] before[k]@, shell_pid),
            decreases self.sessions@.len() - i,
        {
            assert(self.sessions@[i as int] == before[i as int]);
            if self.sessions[i].state == ClaudeSessionState::Completed && has_pid(
                &self.sessions[i].ancestor_pids,
                shell_pid,
            ) {
                self.sessions[i].state = ClaudeSessionState::Idle;
                changed = true;
                assert(is_ready_at(before[i as int]@, shell_pid));
            }
            i += 1;
        }
        proof {
            lemma_cleared(before, self.sessions@, shell_pid);
            lemma_pids_in(before, ClaudeSessionState::Completed);
            lemma_pids_before(
                before,
                before.len() as int,
                ClaudeSessionState::Completed,
                shell_pid,
            );
        }
        if changed {
            self.sync_session_derived_state();
        }
        changed
    }

    /// The terminals whose processes are among `pids`, with what the sessions
    /// in a state say there.
    fn collect_terminal_infos_for_state(
        &self,
        terminals: &Vec<TerminalRef>,
        state: ClaudeSessionState,
        pids: &HashSet<u32>,
    ) -> (infos: Vec<ReadyTerminalInfo>)
        requires
            self.well_formed(),
        ensures
            ({
                let listed = listed_before(terminals@, pids@, terminals@.len() as int);
                &&& infos@.len() == listed.len()
                &&& forall|k: int|
                    0 <= k < listed.len() ==> is_info(
                        self.map(),
                        state,
                        listed[k],
                        #[trigger] infos@[k],
                    )
            }),
    {
        let mut infos: Vec<ReadyTerminalInfo> = Vec::new();
        let mut i: usize = 0;
        while i < terminals.len()
            invariant
                self.well_formed(),
                i <= terminals@.len(),
                infos@.len() == listed_before(terminals@, pids@, i as int).len(),
                forall|k: int|
                    0 <= k < infos@.len() ==> is_info(
                        self.map(),
                        state,
                        listed_before(terminals@, pids@, i as int)[k],
                        #[trigger] infos@[k],
                    ),
            decreases terminals@.len() - i,
        {
            let terminal = terminals[i];
            if let Some(pid) = terminal.shell_pid {
                if pids.contains(&pid) {
                    let (user_prompt, status_message) = self.told(state, pid);
                    let info = ReadyTerminalInfo {
                        pane: terminal.pane,
                        terminal: terminal.terminal,
                        user_prompt,
                        status_message,
                    };
                    assert(is_info(self.map(), state, terminal, info));
                    infos.push(info);
                }
            }
            i += 1;
        }
        infos
    }

    fn told(&self, state: ClaudeSessionState, pid: u32) -> (told: (String, String))
        requires
            self.well_formed(),
        ensures
            if exists|id: Seq<char>| tells(self.map(), id, state, pid) {
                exists|id: Seq<char>| #[trigger]
                    tells(self.map(), id, state, pid) && self.map()[id].user_prompt == told.0@
                        && self.map()[id].status_message == told.1@
            } else {
                told.0@ == Seq::<char>::empty() && told.1@ == Seq::<char>::empty()
            },
    {
        let mut i: usize = 0;
        while i < self.sessions.len()
            invariant
                self.well_formed(),
                i <= self.sessions@.len(),
                forall|k: int|
                    0 <= k < i ==> !((#[trigger] self.sessions@[k]).state == state
                        && self.sessions@[k].ancestor_pids@.contains(pid)),
            decreases self.sessions@.len() - i,
        {
            let session = &self.sessions[i];
            if session.state == state && has_pid(&session.ancestor_pids, pid) {
                proof {
                    lemma_session_at(self.sessions@, i as int);
                    assert(tells(self.map(), session.session_id@, state, pid));
                }
                return (session.user_prompt.clone(), session.status_message.clone());
            }
            i += 1;
        }
        proof {
            assert forall|id: Seq<char>| !tells(self.map(), id, state, pid) by {
                if tells(self.map(), id, state, pid) {
                    assert(has_session(self.sessions@, id));
                    let k = choose|k: int| is_session(self.sessions@, k, id);
                    lemma_session_at(self.sessions@, k);
                    assert(self.sessions@[k].state == state);
                }
            }
        }
        (String::new(), String::new())
    }

    /// The terminals of the sessions that have completed.
    pub fn collect_ready_terminal_infos(&self, terminals: &Vec<TerminalRef>) -> (infos: Vec<
        ReadyTerminalInfo,
    >)
        requires
            self.well_formed(),
        ensures
            ({
                let listed = listed_before(
                    terminals@,
                    pids_in(self.map(), ClaudeSessionState::Completed),
                    terminals@.len() as int,
                );
                &&& infos@.len() == listed.len()
                &&& forall|k: int|
                    0 <= k < listed.len() ==> is_info(
                        self.map(),
                        ClaudeSessionState::Completed,
                        listed[k],
                        #[trigger] infos@[k],
                    )
            }),
    {
        self.collect_terminal_infos_for_state(
            terminals,
            ClaudeSessionState::Completed,
            &self.shared.ready_shell_pids,
        )
    }

    /// The terminals of the sessions that wait for a permission.
    pub fn collect_permission_terminal_infos(&self, terminals: &Vec<TerminalRef>) -> (infos: Vec<
        ReadyTerminalInfo,
    >)
        requires
            self.well_formed(),
        ensures
            ({
                let listed = listed_before(
                    terminals@,
                    pids_in(self.map(), ClaudeSessionState::WaitingPermission),
                    terminals@.len() as int,
                );
                &&& infos@.len() == listed.len()
                &&& forall|k: int|
                    0 <= k < listed.len() ==> is_info(
                        self.map(),
                        ClaudeSessionState::WaitingPermission,
                        listed[k],
                        #[trigger] infos@[k],
                    )
            }),
    {
        self.collect_terminal_infos_for_state(
            terminals,
            ClaudeSessionState::WaitingPermission,
            &self.shared.permission_shell_pids,
        )
    }
}

/// Whether a session has completed below a process.
pub open spec fn is_ready_at(session: SessionModel, pid: u32) -> bool {
    session.state == ClaudeSessionState::Completed && session.ancestor_pids.contains(pid)
}

/// A session after a key was pressed in a shell.
pub open spec fn cleared(session: SessionModel, pid: u32) -> SessionModel {
    if is_ready_at(session, pid) {
        SessionModel { state: ClaudeSessionState::Idle, ..session }
    } else {
        session
    }
}

proof fn lemma_cleared(before: Seq<ClaudeSession>, after: Seq<ClaudeSession>, pid: u32)
    requires
        are_distinct(before),
        before.len() == after.len(),
        forall|k: int|
            0 <= k < before.len() ==> (#[trigger] after[k]).session_id@ == before[k].session_id@
                && after[k]@ == cleared(before[k]@, pid),
    ensures
        are_distinct(after),
        session_map(after) == after_key_input(session_map(before), pid),
{
    assert forall|i: int, j: int| 0 <= i < j < after.len() implies (
    #[trigger] after[i]).session_id@ != (#[trigger] after[j]).session_id@ by {
        assert(before[i].session_id@ != before[j].session_id@);
    }
    let map = after_key_input(session_map(before), pid);
    assert forall|id: Seq<char>| has_session(after, id) <==> map.contains_key(id) by {
        if has_session(after, id) {
            let k = choose|k: int| is_session(after, k, id);
            assert(is_session(before, k, id));
        }
        if has_session(before, id) {
            let k = choose|k: int| is_session(before, k, id);
            assert(is_session(after, k, id));
        }
    }
    assert forall|id: Seq<char>| map.contains_key(id) implies session_map(after)[id] == map[id] by {
        assert(has_session(after, id));
        let k = choose|k: int| is_session(after, k, id);
        assert(is_session(after, k, id));
        lemma_session_at(after, k);
        lemma_session_at(before, k);
    }
    assert(session_map(after) =~= map);
}

/// A session that starts and is asked to do something ends up the same whichever
/// of the two is heard of first.
pub proof fn law_start_and_prompt_commute(
    sessions: Map<Seq<char>, SessionModel>,
    id: Seq<char>,
    pids: Seq<u32>,
    prompt: Seq<char>,
)
    ensures
        ({
            let start = SessionEvent::Start;
            let ask = SessionEvent::Prompt { prompt };
            let started = sessions.insert(id, session_after(sessions, id, pids, start));
            let asked = sessions.insert(id, session_after(sessions, id, pids, ask));
            started.insert(id, session_after(started, id, pids, ask)) == asked.insert(
                id,
                session_after(asked, id, pids, start),
            )
        }),
{
    let start = SessionEvent::Start;
    let ask = SessionEvent::Prompt { prompt };
    let started = sessions.insert(id, session_after(sessions, id, pids, start));
    let asked = sessions.insert(id, session_after(sessions, id, pids, ask));
    assert(started.insert(id, session_after(started, id, pids, ask)) =~= asked.insert(
        id,
        session_after(asked, id, pids, start),
    ));
}

/// An event changes one session only.
pub proof fn law_events_touch_one_session(
    sessions: Map<Seq<char>, SessionModel>,
    id: Seq<char>,
    pids: Seq<u32>,
    event: SessionEvent,
    other: Seq<char>,
)
    requires
        other != id,
    ensures
        ({
            let after = sessions.insert(id, session_after(sessions, id, pids, event));
            &&& after.contains_key(other) == sessions.contains_key(other)
            &&& sessions.contains_key(other) ==> after[other] == sessions[other]
        }),
{
}

/// After a key was pressed in a shell no session is ready there, and pressing
/// it again changes nothing.
pub proof fn law_key_input_clears(sessions: Map<Seq<char>, SessionModel>, pid: u32)
    ensures
        !pids_in(after_key_input(sessions, pid), ClaudeSessionState::Completed).contains(pid),
        after_key_input(after_key_input(sessions, pid), pid) == after_key_input(sessions, pid),
{
    let once = after_key_input(sessions, pid);
    let twice = after_key_input(once, pid);
    assert forall|id: Seq<char>| #[trigger] once.contains_key(id) implies !is_ready_at(
        once[id],
        pid,
    ) by {
        assert(once[id] == cleared(sessions[id], pid));
    }
    assert forall|id: Seq<char>| once.contains_key(id) implies twice[id] == once[id] by {
        assert(!is_ready_at(once[id], pid));
    }
    assert(twice =~= once);
}

/// A terminal is counted under one heading at most.
pub proof fn law_counts_are_exclusive(
    shared: SharedSessionState,
    terminal: TerminalRef,
    a: TerminalCount,
    b: TerminalCount,
)
    requires
        counts(shared, terminal, a),
        counts(shared, terminal, b),
    ensures
        a == b,
{
}

/// A notification makes a session that was idle ready, and leaves one that runs,
/// waits for a permission or is ready as it is. What it was asked to do stays, and
/// what it says is what the notification says. One that was not known is ready.
pub proof fn law_notification(
    sessions: Map<Seq<char>, SessionModel>,
    id: Seq<char>,
    pids: Seq<u32>,
    message: Seq<char>,
)
    ensures
        ({
            let after = session_after(sessions, id, pids, SessionEvent::Notification { message });
            &&& after.status_message == message
            &&& after.ancestor_pids == pids
            &&& sessions.contains_key(id) ==> {
                &&& after.user_prompt == sessions[id].user_prompt
                &&& sessions[id].state is Idle ==> after.state is Completed
                &&& sessions[id].state is Running ==> after.state is Running
                &&& sessions[id].state is WaitingPermission ==> after.state is WaitingPermission
                &&& sessions[id].state is Completed ==> after.state is Completed
            }
            &&& !sessions.contains_key(id) ==> after.state is Completed && after.user_prompt.len()
                == 0
        }),
{
}

/// A session that starts was heard of or is idle: what is known of it stays.
pub proof fn law_start(sessions: Map<Seq<char>, SessionModel>, id: Seq<char>, pids: Seq<u32>)
    ensures
        ({
            let after = session_after(sessions, id, pids, SessionEvent::Start);
            &&& after.ancestor_pids == pids
            &&& sessions.contains_key(id) ==> after.state == sessions[id].state
                && after.user_prompt == sessions[id].user_prompt && after.status_message
                == sessions[id].status_message
            &&& !sessions.contains_key(id) ==> after.state is Idle && after.user_prompt.len() == 0
                && after.status_message.len() == 0
        }),
{
}

/// A session that has stopped is ready, whatever it was. It says its title, or
/// that it is ready.
pub proof fn law_stop(
    sessions: Map<Seq<char>, SessionModel>,
    id: Seq<char>,
    pids: Seq<u32>,
    title: Option<Seq<char>>,
)
    ensures
        ({
            let after = session_after(sessions, id, pids, SessionEvent::Stop { title });
            &&& after.state is Completed
            &&& after.ancestor_pids == pids
            &&& after.status_message == (if title is Some {
                title->0
            } else {
                "Ready"@
            })
            &&& sessions.contains_key(id) ==> after.user_prompt == sessions[id].user_prompt
            &&& !sessions.contains_key(id) ==> after.user_prompt.len() == 0
        }),
{
}

/// A session that is asked to do something runs, whatever it was, and says
/// nothing yet.
pub proof fn law_prompt(
    sessions: Map<Seq<char>, SessionModel>,
    id: Seq<char>,
    pids: Seq<u32>,
    prompt: Seq<char>,
)
    ensures
        ({
            let after = session_after(sessions, id, pids, SessionEvent::Prompt { prompt });
            &&& after.state is Running
            &&& after.ancestor_pids == pids
            &&& after.user_prompt == prompt
            &&& after.status_message.len() == 0
        }),
{
}

/// A session that runs, is idle or is not known waits once it asks for a
/// permission. One that is ready stays as it is, and so does one that waits.
pub proof fn law_permission_request(
    sessions: Map<Seq<char>, SessionModel>,
    id: Seq<char>,
    pids: Seq<u32>,
)
    ensures
        ({
            let after = session_after(sessions, id, pids, SessionEvent::PermissionRequest);
            &&& sessions.contains_key(id) ==> {
                &&& after.user_prompt == sessions[id].user_prompt
                &&& after.status_message == sessions[id].status_message
                &&& sessions[id].state is Running || sessions[id].state is Idle ==> after.state
                    is WaitingPermission && after.ancestor_pids == pids
                &&& sessions[id].state is Completed || sessions[id].state is WaitingPermission
                    ==> after == sessions[id]
            }
            &&& !sessions.contains_key(id) ==> after.state is WaitingPermission
                && after.ancestor_pids == pids && after.user_prompt.len() == 0
                && after.status_message.len() == 0
        }),
{
}

/// A session that waits for a permission runs once a tool was used. Every other
/// state stays, and so do the other sessions.
pub proof fn law_tool_use(
    sessions: Map<Seq<char>, SessionModel>,
    id: Seq<char>,
    pids: Seq<u32>,
    other: Seq<char>,
)
    ensures
        ({
            let after = after_tool_use(sessions, id, pids);
            &&& after.contains_key(other) == sessions.contains_key(other)
            &&& sessions.contains_key(other) && other != id ==> after[other] == sessions[other]
            &&& sessions.contains_key(id) && sessions[id].state is WaitingPermission ==> after[id].state
                is Running && after[id].ancestor_pids == pids && after[id].user_prompt
                == sessions[id].user_prompt && after[id].status_message
                == sessions[id].status_message
            &&& sessions.contains_key(id) && !(sessions[id].state is WaitingPermission)
                ==> after[id] == sessions[id]
        }),
{
}

/// A key pressed in a shell makes a session idle that is ready there, and leaves
/// every other as it is.
pub proof fn law_key_input(sessions: Map<Seq<char>, SessionModel>, pid: u32, id: Seq<char>)
    ensures
        ({
            let after = after_key_input(sessions, pid);
            &&& after.contains_key(id) == sessions.contains_key(id)
            &&& sessions.contains_key(id) ==> {
                let before = sessions[id];
                let is_seen = before.state is Completed && exists|i: int|
                    0 <= i < before.ancestor_pids.len() && before.ancestor_pids[i] == pid;
                &&& is_seen ==> after[id].state is Idle
                &&& !is_seen ==> after[id].state == before.state
                &&& after[id].user_prompt == before.user_prompt
                &&& after[id].status_message == before.status_message
                &&& after[id].ancestor_pids == before.ancestor_pids
            }
        }),
{
    if sessions.contains_key(id) {
        assert(after_key_input(sessions, pid).contains_key(id));
        assert(after_key_input(sessions, pid)[id] == cleared(sessions[id], pid));
    }
}

/// What the shells of a session show: that it runs, waits for a permission or is
/// ready, and which session is below them.
pub proof fn law_shells_show_their_session(sessions: ClaudeSessions, i: int, k: int)
    requires
        sessions.well_formed(),
        0 <= i < sessions.sessions@.len(),
        0 <= k < sessions.sessions@[i].ancestor_pids@.len(),
    ensures
        ({
            let session = sessions.sessions@[i];
            let pid = session.ancestor_pids@[k];
            let shared = sessions.shared;
            &&& session.state is Completed ==> shared.ready_shell_pids@.contains(pid)
            &&& session.state is Running ==> shared.running_shell_pids@.contains(pid)
            &&& session.state is WaitingPermission ==> shared.permission_shell_pids@.contains(pid)
            &&& shared.pid_to_session_id@.contains_key(pid)
        }),
{
    let session = sessions.sessions@[i];
    let pid = session.ancestor_pids@[k];
    lemma_session_at(sessions.sessions@, i);
    assert(session@.ancestor_pids.contains(pid));
    assert(runs_below(sessions.map(), session.session_id@, pid));
}

/// A shell shows something of a session only where there is one.
pub proof fn law_shells_show_nothing_else(sessions: ClaudeSessions, pid: u32)
    requires
        sessions.well_formed(),
        forall|i: int|
            0 <= i < sessions.sessions@.len() ==> !(
            #[trigger] sessions.sessions@[i]).ancestor_pids@.contains(pid),
    ensures
        !sessions.shared.ready_shell_pids@.contains(pid),
        !sessions.shared.running_shell_pids@.contains(pid),
        !sessions.shared.permission_shell_pids@.contains(pid),
        !sessions.shared.pid_to_session_id@.contains_key(pid),
{
    assert forall|id: Seq<char>| !runs_below(sessions.map(), id, pid) by {
        if sessions.map().contains_key(id) {
            let i = choose|i: int| is_session(sessions.sessions@, i, id);
            lemma_session_at(sessions.sessions@, i);
            assert(!sessions.sessions@[i].ancestor_pids@.contains(pid));
        }
    }
    assert forall|id: Seq<char>| #[trigger] sessions.map().contains_key(id) implies !sessions.map()[id].ancestor_pids.contains(
    pid) by {
        assert(!runs_below(sessions.map(), id, pid));
    }
}

/// A terminal counts as waiting where a session waits in its shell, else as
/// running where one runs, else as ready where one is ready.
pub proof fn law_what_a_terminal_counts_as(
    shared: SharedSessionState,
    pane: u64,
    terminal: u64,
    pid: u32,
)
    ensures
        ({
            let open = TerminalRef { pane, terminal, shell_pid: Some(pid) };
            let closed = TerminalRef { pane, terminal, shell_pid: None };
            let waits = shared.permission_shell_pids@.contains(pid);
            let runs = shared.running_shell_pids@.contains(pid);
            let ready = shared.ready_shell_pids@.contains(pid);
            &&& waits ==> counts(shared, open, TerminalCount::Waiting)
            &&& !waits && runs ==> counts(shared, open, TerminalCount::Running)
            &&& !waits && !runs && ready ==> counts(shared, open, TerminalCount::Ready)
            &&& !waits ==> !counts(shared, open, TerminalCount::Waiting)
            &&& !runs ==> !counts(shared, open, TerminalCount::Running)
            &&& !ready ==> !counts(shared, open, TerminalCount::Ready)
            &&& !counts(shared, closed, TerminalCount::Waiting)
            &&& !counts(shared, closed, TerminalCount::Running)
            &&& !counts(shared, closed, TerminalCount::Ready)
        }),
{
}

/// One more terminal adds one to the count where it counts, and nothing else.
pub proof fn law_terminals_are_counted(
    shared: SharedSessionState,
    terminals: Seq<TerminalRef>,
    terminal: TerminalRef,
    what: TerminalCount,
)
    ensures
        count_before(shared, Seq::<TerminalRef>::empty(), what, 0) == 0,
        count_before(shared, terminals.push(terminal), what, (terminals.len() + 1) as int)
            == count_before(shared, terminals, what, terminals.len() as int) + if counts(
            shared,
            terminal,
            what,
        ) {
            1int
        } else {
            0
        },
{
    lemma_count_of_prefix(
        shared,
        terminals,
        terminals.push(terminal),
        what,
        terminals.len() as int,
    );
}

proof fn lemma_count_of_prefix(
    shared: SharedSessionState,
    a: Seq<TerminalRef>,
    b: Seq<TerminalRef>,
    what: TerminalCount,
    n: int,
)
    requires
        0 <= n <= a.len(),
        n <= b.len(),
        forall|i: int| 0 <= i < n ==> #[trigger] a[i] == b[i],
    ensures
        count_before(shared, a, what, n) == count_before(shared, b, what, n),
    decreases n,
{
    if n > 0 {
        lemma_count_of_prefix(shared, a, b, what, n - 1);
        assert(a[n - 1] == b[n - 1]);
    }
}

/// The terminals that are listed are those with a shell among the given ones, each
/// of them and no other.
pub proof fn law_listed_terminals(terminals: Seq<TerminalRef>, pids: Set<u32>, n: int)
    requires
        0 <= n <= terminals.len(),
    ensures
        forall|i: int|
            0 <= i < n && (#[trigger] terminals[i]).shell_pid is Some && pids.contains(
                terminals[i].shell_pid->0,
            ) ==> listed_before(terminals, pids, n).contains(terminals[i]),
        forall|k: int|
            0 <= k < listed_before(terminals, pids, n).len() ==> ((
            #[trigger] listed_before(terminals, pids, n)[k]).shell_pid matches Some(pid)
                && pids.contains(pid)) && terminals.contains(listed_before(terminals, pids, n)[k]),
    decreases n,
{
    if n > 0 {
        law_listed_terminals(terminals, pids, n - 1);
        let before = listed_before(terminals, pids, n - 1);
        let after = listed_before(terminals, pids, n);
        assert forall|i: int|
            0 <= i < n && (#[trigger] terminals[i]).shell_pid is Some && pids.contains(
                terminals[i].shell_pid->0,
            ) implies after.contains(terminals[i]) by {
            if i < n - 1 {
                let k = choose|k: int| 0 <= k < before.len() && before[k] == terminals[i];
                assert(after[k] == terminals[i]);
            } else {
                assert(after[after.len() - 1] == terminals[i]);
            }
        }
        assert forall|k: int| 0 <= k < after.len() implies ((
        #[trigger] after[k]).shell_pid matches Some(pid) && pids.contains(pid))
            && terminals.contains(after[k]) by {
            if k < before.len() {
                assert(before[k] == after[k]);
            } else {
                assert(terminals[n - 1] == after[k]);
            }
        }
    }
}

/// What is told of a terminal: its own pane and itself, and the prompt and the
/// message of a session in that state which runs in its shell.
pub proof fn law_what_is_told_of_a_terminal(
    sessions: Map<Seq<char>, SessionModel>,
    state: ClaudeSessionState,
    terminal: TerminalRef,
    info: ReadyTerminalInfo,
    id: Seq<char>,
)
    requires
        is_info(sessions, state, terminal, info),
        terminal.shell_pid is Some,
        sessions.contains_key(id),
        sessions[id].state == state,
        sessions[id].ancestor_pids.contains(terminal.shell_pid->0),
        forall|other: Seq<char>|
            other != id && #[trigger] sessions.contains_key(other)
                ==> !sessions[other].ancestor_pids.contains(terminal.shell_pid->0),
    ensures
        info.pane == terminal.pane,
        info.terminal == terminal.terminal,
        info.user_prompt@ == sessions[id].user_prompt,
        info.status_message@ == sessions[id].status_message,
{
    let pid = terminal.shell_pid->0;
    assert(tells(sessions, id, state, pid));
    assert(exists|other: Seq<char>| tells(sessions, other, state, pid));
    let told = choose|other: Seq<char>| #[trigger]
        tells(sessions, other, state, pid) && sessions[other].user_prompt == info.user_prompt@
            && sessions[other].status_message == info.status_message@;
    if told != id {
        assert(sessions.contains_key(told));
    }
}

} // verus!
