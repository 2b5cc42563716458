//! Registry of active terminals, so that every foreground process group can be
//! asked to end when the process is about to abort.
//!
//! The decisions stand here. The signals and the clock belong to the caller,
//! which performs the actions and reports what came of them.

use vstd::prelude::*;

verus! {

/// A terminal: the number of its registration, its descriptor, and the process
/// that is taken where it has no foreground group.
#[derive(Clone, Copy, Debug, PartialEq, Eq, Structural)]
pub struct Entry {
    pub id: u64,
    pub pty_fd: i32,
    pub fallback_pid: i32,
}

/// The registered terminals, oldest first.
#[derive(Debug)]
pub struct Registry {
    pub entries: Vec<Entry>,
    pub next_id: u64,
}

/// Proof of a registration, given back when the terminal is gone.
#[derive(Debug, PartialEq, Eq)]
pub struct Registration(pub u64);

/// The entries that are not of a registration.
pub open spec fn without(entries: Seq<Entry>, id: u64) -> Seq<Entry>
    decreases entries.len(),
{
    if entries.len() == 0 {
        seq![]
    } else if entries.last().id == id {
        without(entries.drop_last(), id)
    } else {
        without(entries.drop_last(), id).push(entries.last())
    }
}

impl Registry {
    /// Every number was given once, and will not be given again.
    pub open spec fn well_formed(self) -> bool {
        &&& forall|i: int|
            0 <= i < self.entries@.len() ==> (#[trigger] self.entries@[i]).id < self.next_id
        &&& forall|i: int, j: int|
            0 <= i < j < self.entries@.len() ==> (#[trigger] self.entries@[i]).id != (
            #[trigger] self.entries@[j]).id
    }

    pub fn new() -> (registry: Self)
        ensures
            registry.entries@ == Seq::<Entry>::empty(),
            registry.next_id == 1,
            registry.well_formed(),
    {
        Registry { entries: Vec::new(), next_id: 1 }
    }

    /// Takes out the terminal of a registration.
    pub fn unregister(&mut self, registration: Registration)
        ensures
            final(self).entries@ == without(old(self).entries@, registration.0),
            final(self).next_id == old(self).next_id,
            old(self).well_formed() ==> final(self).well_formed(),
    {
        let mut kept: Vec<Entry> = Vec::new();
        let mut i: usize = 0;
        assert(self.entries@.take(0) =~= seq![]);
        while i < self.entries.len()
            invariant
                *self == *old(self),
                i <= self.entries@.len(),
                kept@ == without(self.entries@.take(i as int), registration.0),
            decreases self.entries@.len() - i,
        {
            let entry = self.entries[i];
            assert(self.entries@.take(i + 1).drop_last() =~= self.entries@.take(i as int));
            if entry.id != registration.0 {
                kept.push(entry);
            }
            i += 1;
        }
        assert(self.entries@.take(self.entries@.len() as int) =~= self.entries@);
        proof {
            lemma_without(self.entries@, registration.0);
        }
        self.entries = kept;
    }
}

/// What is left of the entries of a well-formed registry is well-formed.
proof fn lemma_without(entries: Seq<Entry>, id: u64)
    ensures
        forall|i: int|
            0 <= i < without(entries, id).len() ==> entries.contains(
                #[trigger] without(entries, id)[i],
            ),
        (forall|i: int, j: int|
            0 <= i < j < entries.len() ==> (#[trigger] entries[i]).id != (
            #[trigger] entries[j]).id) ==> forall|i: int, j: int|
            0 <= i < j < without(entries, id).len() ==> (#[trigger] without(entries, id)[i]).id
                != (#[trigger] without(entries, id)[j]).id,
    decreases entries.len(),
{
    if entries.len() > 0 {
        let rest = entries.drop_last();
        lemma_without(rest, id);
        assert forall|i: int| 0 <= i < without(entries, id).len() implies entries.contains(
            #[trigger] without(entries, id)[i],
        ) by {
            if i < without(rest, id).len() {
                assert(rest.contains(without(rest, id)[i]));
                let k = choose|k: int| 0 <= k < rest.len() && rest[k] == without(rest, id)[i];
                assert(entries[k] == without(entries, id)[i]);
            } else {
                assert(entries[entries.len() - 1] == entries.last());
            }
        }
        if forall|i: int, j: int|
            0 <= i < j < entries.len() ==> (#[trigger] entries[i]).id != (
            #[trigger] entries[j]).id {
            assert forall|i: int, j: int| 0 <= i < j < rest.len() implies (#[trigger] rest[i]).id
                != (#[trigger] rest[j]).id by {
                assert(entries[i].id != entries[j].id);
            }
            assert forall|i: int, j: int| 0 <= i < j < without(entries, id).len() implies (
            #[trigger] without(entries, id)[i]).id != (#[trigger] without(entries, id)[j]).id by {
                if j == without(rest, id).len() {
                    assert(rest.contains(without(rest, id)[i]));
                    let k = choose|k: int| 0 <= k < rest.len() && rest[k] == without(rest, id)[i];
                    assert(entries[k].id != entries[entries.len() - 1].id);
                } else {
                    assert(without(rest, id)[i].id != without(rest, id)[j].id);
                }
            }
        }
    }
}

/// Registers a terminal. The number of the registration is the next one.
pub fn register(registry: &mut Registry, pty_fd: i32, fallback_pid: u32) -> (registration:
    Registration)
    ensures
        registration.0 == old(registry).next_id,
        final(registry).entries@ == old(registry).entries@.push(
            Entry { id: old(registry).next_id, pty_fd, fallback_pid: fallback_pid as i32 },
        ),
        final(registry).next_id == if old(registry).next_id < u64::MAX {
            (old(registry).next_id + 1) as u64
        } else {
            0
        },
        old(registry).well_formed() && old(registry).next_id < u64::MAX
            ==> final(registry).well_formed(),
{
    let id = registry.next_id;
    registry.next_id = id.wrapping_add(1);
    registry.entries.push(
        Entry { id, pty_fd, fallback_pid: #[verifier::truncate] (fallback_pid as i32) },
    );
    Registration(id)
}

/// Giving a registration back takes out its terminal and no other.
pub proof fn law_registration_removes_its_entry(registry: Registry, entry: Entry)
    requires
        registry.well_formed(),
        entry.id == registry.next_id,
    ensures
        without(registry.entries@.push(entry), entry.id) == registry.entries@,
{
    let entries = registry.entries@;
    assert(entries.push(entry).drop_last() =~= entries);
    lemma_absent(entries, entry.id);
}

proof fn lemma_absent(entries: Seq<Entry>, id: u64)
    requires
        forall|i: int| 0 <= i < entries.len() ==> (#[trigger] entries[i]).id != id,
    ensures
        without(entries, id) == entries,
    decreases entries.len(),
{
    if entries.len() > 0 {
        lemma_absent(entries.drop_last(), id);
        assert(entries[entries.len() - 1].id != id);
        assert(entries.drop_last().push(entries.last()) =~= entries);
    }
}

/// What came of an action.
#[derive(Clone, Copy, Debug, PartialEq, Eq, Structural)]
pub enum BroadcastEvent {
    Begin,
    /// The foreground process group of the terminal that was asked.
    ForegroundGroup(i32),
    /// The time in nanoseconds.
    Time(u64),
    /// Whether any of the groups is still there.
    Probed(bool),
    Slept,
}

/// What is to be done next.
#[derive(Clone, Copy, Debug, PartialEq, Eq, Structural)]
pub enum BroadcastAction {
    AskForegroundGroup(i32),
    ReadClock,
    ProbeGroups,
    /// So many milliseconds.
    Sleep(u64),
    Finish,
}

/// The group to be asked to end, if any, before what is to be done next.
#[derive(Clone, Copy, Debug, PartialEq, Eq, Structural)]
pub struct BroadcastStep {
    pub terminate: Option<i32>,
    pub next: BroadcastAction,
}

/// How far the terminals have been asked: how many groups are known, the ones
/// that were asked to end, and until when to wait for them.
#[derive(Debug)]
pub struct Broadcast {
    pub entries: Vec<Entry>,
    pub asked: usize,
    pub pgids: Vec<i32>,
    pub max_wait: u64,
    pub deadline: Option<u128>,
}

/// What a [`Broadcast`] stands for.
#[verifier::ext_equal]
pub struct BroadcastModel {
    pub entries: Seq<Entry>,
    pub asked: int,
    pub pgids: Seq<i32>,
    pub max_wait: int,
    pub deadline: Option<u128>,
}

impl View for Broadcast {
    type V = BroadcastModel;

    open spec fn view(&self) -> BroadcastModel {
        BroadcastModel {
            entries: self.entries@,
            asked: self.asked as int,
            pgids: self.pgids@,
            max_wait: self.max_wait as int,
            deadline: self.deadline,
        }
    }
}

/// The process group of a terminal: its foreground group, else the process that
/// is taken in its place; none where that is no process either.
pub open spec fn target_of(entry: Entry, pgid: i32) -> Option<i32> {
    if pgid > 0 {
        Some(pgid)
    } else if entry.fallback_pid > 0 {
        Some(entry.fallback_pid)
    } else {
        None
    }
}

/// What comes after the groups that are known: the next terminal, or the wait
/// where there is anything to wait for.
pub open spec fn after_groups(broadcast: BroadcastModel) -> BroadcastAction {
    if broadcast.asked < broadcast.entries.len() {
        BroadcastAction::AskForegroundGroup(broadcast.entries[broadcast.asked].pty_fd)
    } else if broadcast.pgids.len() == 0 {
        BroadcastAction::Finish
    } else {
        BroadcastAction::ReadClock
    }
}

/// The state after an event.
pub open spec fn broadcast_after(
    broadcast: BroadcastModel,
    event: BroadcastEvent,
) -> BroadcastModel {
    match event {
        BroadcastEvent::ForegroundGroup(pgid) if broadcast.asked < broadcast.entries.len() => {
            BroadcastModel {
                asked: broadcast.asked + 1,
                pgids: match target_of(broadcast.entries[broadcast.asked], pgid) {
                    Some(target) => broadcast.pgids.push(target),
                    None => broadcast.pgids,
                },
                ..broadcast
            }
        },
        BroadcastEvent::Time(now) if broadcast.deadline is None => BroadcastModel {
            deadline: Some((now + broadcast.max_wait) as u128),
            ..broadcast
        },
        _ => broadcast,
    }
}

/// What an event asks for.
pub open spec fn broadcast_step(broadcast: BroadcastModel, event: BroadcastEvent) -> BroadcastStep {
    match event {
        BroadcastEvent::Begin => BroadcastStep { terminate: None, next: after_groups(broadcast) },
        BroadcastEvent::ForegroundGroup(pgid) => BroadcastStep {
            terminate: if broadcast.asked < broadcast.entries.len() {
                target_of(broadcast.entries[broadcast.asked], pgid)
            } else {
                None
            },
            next: after_groups(broadcast_after(broadcast, event)),
        },
        BroadcastEvent::Time(now) => BroadcastStep {
            terminate: None,
            next: match broadcast.deadline {
                None => BroadcastAction::ReadClock,
                Some(deadline) => if now < deadline {
                    BroadcastAction::ProbeGroups
                } else {
                    BroadcastAction::Finish
                },
            },
        },
        BroadcastEvent::Probed(any_alive) => BroadcastStep {
            terminate: None,
            next: if any_alive {
                BroadcastAction::Sleep(200)
            } else {
                BroadcastAction::Finish
            },
        },
        BroadcastEvent::Slept => BroadcastStep { terminate: None, next: BroadcastAction::ReadClock },
    }
}

impl Broadcast {
    /// A broadcast to the terminals that are registered now, which waits for at
    /// most so many nanoseconds.
    pub fn new(registry: &Registry, max_wait: u64) -> (broadcast: Self)
        ensures
            broadcast@ == (BroadcastModel {
                entries: registry.entries@,
                asked: 0,
                pgids: seq![],
                max_wait: max_wait as int,
                deadline: None,
            }),
    {
        let mut entries: Vec<Entry> = Vec::new();
        let mut i: usize = 0;
        while i < registry.entries.len()
            invariant
                i <= registry.entries@.len(),
                entries@ =~= registry.entries@.take(i as int),
            decreases registry.entries@.len() - i,
        {
            entries.push(registry.entries[i]);
            i += 1;
        }
        let broadcast = Broadcast { entries, asked: 0, pgids: Vec::new(), max_wait, deadline: None };
        assert(broadcast@.entries =~= registry.entries@);
        assert(broadcast@.pgids =~= seq![]);
        broadcast
    }

    fn next_action(&self) -> (action: BroadcastAction)
        ensures
            action == after_groups(self@),
    {
        if self.asked < self.entries.len() {
            BroadcastAction::AskForegroundGroup(self.entries[self.asked].pty_fd)
        } else if self.pgids.len() == 0 {
            BroadcastAction::Finish
        } else {
            BroadcastAction::ReadClock
        }
    }
}

/// Asks the foreground process group of every terminal to end, one after
/// another, then polls for them to drain until the time is up.
pub fn broadcast_sigterm_and_wait(broadcast: &mut Broadcast, event: BroadcastEvent) -> (step:
    BroadcastStep)
    ensures
        final(broadcast)@ == broadcast_after(old(broadcast)@, event),
        step == broadcast_step(old(broadcast)@, event),
{
    match event {
        BroadcastEvent::Begin => BroadcastStep {
            terminate: None,
            next: broadcast.next_action(),
        },
        BroadcastEvent::ForegroundGroup(pgid) => {
            if broadcast.asked >= broadcast.entries.len() {
                return BroadcastStep { terminate: None, next: broadcast.next_action() };
            }
            let entry = broadcast.entries[broadcast.asked];
            broadcast.asked = broadcast.asked + 1;
            let target: i32 = if pgid > 0 {
                pgid
            } else {
                entry.fallback_pid
            };
            if target > 0 {
                broadcast.pgids.push(target);
                BroadcastStep { terminate: Some(target), next: broadcast.next_action() }
            } else {
                BroadcastStep { terminate: None, next: broadcast.next_action() }
            }
        },
        BroadcastEvent::Time(now) => match broadcast.deadline {
            None => {
                broadcast.deadline = Some(now as u128 + broadcast.max_wait as u128);
                BroadcastStep { terminate: None, next: BroadcastAction::ReadClock }
            },
            Some(deadline) => {
                if (now as u128) < deadline {
                    BroadcastStep { terminate: None, next: BroadcastAction::ProbeGroups }
                } else {
                    BroadcastStep { terminate: None, next: BroadcastAction::Finish }
                }
            },
        },
        BroadcastEvent::Probed(any_alive) => {
            if any_alive {
                BroadcastStep { terminate: None, next: BroadcastAction::Sleep(200) }
            } else {
                BroadcastStep { terminate: None, next: BroadcastAction::Finish }
            }
        },
        BroadcastEvent::Slept => BroadcastStep {
            terminate: None,
            next: BroadcastAction::ReadClock,
        },
    }
}

/// The groups of the first `n` terminals, where their foreground groups are
/// those given.
pub open spec fn targets_before(entries: Seq<Entry>, groups: Seq<i32>, n: int) -> Seq<i32>
    decreases n,
{
    if n <= 0 {
        seq![]
    } else {
        match target_of(entries[n - 1], groups[n - 1]) {
            Some(target) => targets_before(entries, groups, n - 1).push(target),
            None => targets_before(entries, groups, n - 1),
        }
    }
}

/// The state after the first `n` terminals gave their foreground groups.
pub open spec fn after_replies(broadcast: BroadcastModel, groups: Seq<i32>, n: int) -> BroadcastModel
    decreases n,
{
    if n <= 0 {
        broadcast
    } else {
        broadcast_after(
            after_replies(broadcast, groups, n - 1),
            BroadcastEvent::ForegroundGroup(groups[n - 1]),
        )
    }
}

/// Every terminal is asked in turn, and its group is waited for exactly where it
/// has one; there is no wait where none has.
pub proof fn law_every_terminal_is_asked(
    entries: Seq<Entry>,
    groups: Seq<i32>,
    max_wait: int,
    n: int,
)
    requires
        groups.len() == entries.len(),
        0 <= n <= entries.len(),
    ensures
        ({
            let start = BroadcastModel {
                entries,
                asked: 0,
                pgids: seq![],
                max_wait,
                deadline: None,
            };
            let now = after_replies(start, groups, n);
            &&& now.entries == entries
            &&& now.asked == n
            &&& now.pgids == targets_before(entries, groups, n)
            &&& now.deadline is None
            &&& n < entries.len() ==> after_groups(now) == BroadcastAction::AskForegroundGroup(
                entries[n].pty_fd,
            )
            &&& n == entries.len() ==> after_groups(now) == if now.pgids.len() == 0 {
                BroadcastAction::Finish
            } else {
                BroadcastAction::ReadClock
            }
        }),
    decreases n,
{
    if n > 0 {
        law_every_terminal_is_asked(entries, groups, max_wait, n - 1);
    }
}

/// Once the time is up, the wait is over at the next look at the clock.
pub proof fn law_wait_ends_at_the_deadline(broadcast: BroadcastModel, start: u64, now: u64)
    requires
        broadcast.deadline is None,
        0 <= broadcast.max_wait <= u64::MAX,
        now >= start + broadcast.max_wait,
    ensures
        broadcast_step(
            broadcast_after(broadcast, BroadcastEvent::Time(start)),
            BroadcastEvent::Time(now),
        ).next is Finish,
{
}

/// A registration that ends leaves the other entries, in their order, and takes
/// its own away.
pub proof fn law_what_is_left(entries: Seq<Entry>, id: u64, last: Entry)
    ensures
        without(Seq::<Entry>::empty(), id) == Seq::<Entry>::empty(),
        last.id == id ==> without(entries.push(last), id) == without(entries, id),
        last.id != id ==> without(entries.push(last), id) == without(entries, id).push(last),
{
    assert(entries.push(last).drop_last() =~= entries);
}

/// The foreground group of a terminal is told to end; where there is none, the
/// process that runs in it. Nothing else is ever told: no group and no process has
/// a number that is not positive.
pub proof fn law_who_is_told_to_end(entry: Entry, group: i32)
    ensures
        group > 0 ==> target_of(entry, group) == Some(group),
        group <= 0 && entry.fallback_pid > 0 ==> target_of(entry, group) == Some(
            entry.fallback_pid,
        ),
        group <= 0 && entry.fallback_pid <= 0 ==> target_of(entry, group) is None,
        target_of(entry, group) is Some ==> target_of(entry, group)->0 > 0,
{
}

/// The terminal that is asked is told to end as soon as it has answered, and what
/// was told is what is waited for.
pub proof fn law_answer_of_a_terminal(broadcast: BroadcastModel, group: i32)
    requires
        0 <= broadcast.asked < broadcast.entries.len(),
        group > 0,
    ensures
        ({
            let event = BroadcastEvent::ForegroundGroup(group);
            let after = broadcast_after(broadcast, event);
            &&& broadcast_step(broadcast, event).terminate == Some(group)
            &&& after.pgids == broadcast.pgids.push(group)
            &&& after.asked == broadcast.asked + 1
            &&& after.entries == broadcast.entries
        }),
{
}

/// The wait: the clock is read once for the deadline; until it has come the groups
/// are probed again and again, a fifth of a second apart, and once none of them is
/// left it is over. Nothing is told to end any more, and the deadline stays.
pub proof fn law_wait(broadcast: BroadcastModel, start: u64, now: u64)
    requires
        broadcast.deadline is None,
        0 <= broadcast.max_wait <= u64::MAX,
        start <= now < start + broadcast.max_wait,
    ensures
        ({
            let waiting = broadcast_after(broadcast, BroadcastEvent::Time(start));
            &&& broadcast_step(broadcast, BroadcastEvent::Time(start)) == (BroadcastStep {
                terminate: None,
                next: BroadcastAction::ReadClock,
            })
            &&& broadcast_step(waiting, BroadcastEvent::Time(now)) == (BroadcastStep {
                terminate: None,
                next: BroadcastAction::ProbeGroups,
            })
            &&& broadcast_step(waiting, BroadcastEvent::Probed(true)) == (BroadcastStep {
                terminate: None,
                next: BroadcastAction::Sleep(200),
            })
            &&& broadcast_step(waiting, BroadcastEvent::Probed(false)) == (BroadcastStep {
                terminate: None,
                next: BroadcastAction::Finish,
            })
            &&& broadcast_step(waiting, BroadcastEvent::Slept) == (BroadcastStep {
                terminate: None,
                next: BroadcastAction::ReadClock,
            })
            &&& broadcast_after(waiting, BroadcastEvent::Time(now)) == waiting
            &&& broadcast_after(waiting, BroadcastEvent::Probed(true)) == waiting
            &&& broadcast_after(waiting, BroadcastEvent::Slept) == waiting
        }),
{
}

} // verus!
