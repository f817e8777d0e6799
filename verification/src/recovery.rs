//! Snapshots of the tasks, and the tasks that a snapshot gives back.

use crate::clock;
use crate::duration;
use crate::duration::{Duration, MILLION, TOLERANCE};
use crate::error::{Refusal, TaskError};
use crate::lifecycle;
use crate::names;
use crate::names::NameSet;
use crate::number::Amount;
use crate::registry;
use crate::registry::{Registry, Tasks};
use crate::rules;
use crate::schedule;
use crate::task;
use crate::task::{PersistedState, PersistedTask, Saved, State, Task, TaskStatus};
use crate::text;
use vstd::prelude::*;
use vstd::set_lib;
use vstd::string::StringExecFns;

verus! {

/// The version of the snapshots that are written and read.
pub const SNAPSHOT_VERSION: u32 = 2;

/// What a snapshot taken at `now` holds of a task.
pub open spec fn saved(id: Seq<char>, t: State, now: nat) -> Saved {
    Saved {
        id,
        parent: t.parent,
        budget: Amount::spec_of(t.budget),
        mode: t.mode,
        schedule: t.schedule,
        metadata: t.metadata,
        status: t.status,
        elapsed: Amount::spec_of(t.runtime(now)),
        ticks: t.ticks,
        checkpoints: t.checkpoints,
        last_checkpoint: t.last_checkpoint,
        progress: t.progress,
        plan_submitted: t.plan_submitted,
    }
}

/// The identifiers of a list of saved tasks.
pub open spec fn saved_ids(list: Seq<Saved>) -> Seq<Seq<char>> {
    Seq::new(list.len(), |i: int| list[i].id)
}

/// The list holds every task as it is at `now`, in ascending order of identifiers.
pub open spec fn lists(list: Seq<Saved>, tasks: Tasks, now: nat) -> bool {
    &&& text::ascending(saved_ids(list))
    &&& forall|id: Seq<char>| tasks.contains_key(id) == saved_ids(list).contains(id)
    &&& forall|i: int|
        0 <= i < list.len() ==> #[trigger] list[i] == saved(list[i].id, tasks[list[i].id], now)
}

impl Task {
    /// What a snapshot taken at `now` holds of the task.
    pub fn to_saved(&self, now: Duration) -> (r: PersistedTask)
        ensures
            r@ == saved(self.task_id@, self@, now@),
    {
        PersistedTask {
            task_id: self.task_id.clone(),
            parent_id: names::copy_text(&self.parent_id),
            budget_secs: Amount::of(self.budget),
            mode: self.mode,
            schedule: self.schedule.duplicate(),
            metadata: self.metadata.duplicate(),
            status: self.status,
            elapsed_secs: Amount::of(self.runtime_secs(now)),
            ticks: self.ticks,
            checkpoints: self.checkpoints,
            last_checkpoint: task::copy_record(&self.last_checkpoint),
            progress: self.progress,
            plan_submitted: self.plan_submitted,
        }
    }
}

/// Whether a snapshot holds the tasks as they are at `now`, under the time that the wall
/// clock told.
pub open spec fn holds(state: PersistedState, tasks: Tasks, now: nat) -> bool {
    &&& state.version == SNAPSHOT_VERSION
    &&& clock::wall_reads(state.saved_at_unix_ms)
    &&& lists(task::saved_tasks(state.tasks@), tasks, now)
}

impl Registry {
    /// All tasks as they are at `now`, marked as saved at a wall-clock time.
    pub fn snapshot(&self, now: Duration, saved_at_unix_ms: u64) -> (r: PersistedState)
        requires
            self.wf(),
        ensures
            r.version == SNAPSHOT_VERSION,
            r.saved_at_unix_ms == saved_at_unix_ms,
            lists(task::saved_tasks(r.tasks@), self@, now@),
    {
        let mut tasks: Vec<PersistedTask> = Vec::new();
        let mut i: usize = 0;
        while i < self.tasks.len()
            invariant
                i <= self.tasks.len(),
                tasks@.len() == i,
                forall|k: int|
                    0 <= k < i ==> (#[trigger] tasks@[k])@ == saved(
                        self.tasks@[k].task_id@,
                        self.tasks@[k]@,
                        now@,
                    ),
            decreases self.tasks.len() - i,
        {
            tasks.push(self.tasks[i].to_saved(now));
            i = i + 1;
        }
        proof {
            let list = task::saved_tasks(tasks@);
            assert(saved_ids(list) =~= registry::ids(self.tasks@));
            assert forall|k: int| 0 <= k < list.len() implies #[trigger] list[k] == saved(
                list[k].id,
                self@[list[k].id],
                now@,
            ) by {
                registry::lemma_entry(*self, k);
                assert(list[k] == tasks@[k]@);
            }
        }
        PersistedState { version: SNAPSHOT_VERSION, saved_at_unix_ms, tasks }
    }
}

// ---------------------------------------------------------------------------
// Recovering

/// The time since the snapshot was taken, in nanoseconds.
pub open spec fn downtime(saved_at: u64, now_ms: u64) -> nat {
    duration::less(now_ms as nat, saved_at as nat) * MILLION as nat
}

/// What makes a saved task unusable by itself.
pub open spec fn saved_fault(s: Saved) -> Option<Seq<char>> {
    if !rules::valid_id(s.id) {
        Some(rules::bad_id().line())
    } else if !s.budget.positive() {
        Some(rules::bad_budget().line())
    } else if !(s.elapsed matches Amount::Billionths(value) && value >= 0) {
        Some("elapsed_secs must be finite and >= 0"@)
    } else if s.schedule.fault() is Some {
        Some(Refusal::Invalid(s.schedule.fault()->Some_0).line())
    } else {
        None
    }
}

/// What is wrong with the first saved task, from number `i` on, that is unusable or
/// has the identifier of one before it.
pub open spec fn list_fault(list: Seq<Saved>, i: int) -> Option<Seq<char>>
    decreases list.len() - i,
{
    if i < 0 || i >= list.len() {
        None
    } else if saved_fault(list[i]) is Some {
        saved_fault(list[i])
    } else if saved_ids(list).take(i).contains(list[i].id) {
        Some("duplicate task "@ + list[i].id)
    } else {
        list_fault(list, i + 1)
    }
}

/// How long a task has run once the downtime is charged, which only active tasks are.
pub open spec fn recovered_elapsed(s: Saved, downtime: nat) -> nat {
    if s.status == TaskStatus::Active {
        duration::clip((s.elapsed.span() + downtime) as int)
    } else {
        s.elapsed.span()
    }
}

pub open spec fn recovered_status(s: Saved, downtime: nat) -> TaskStatus {
    if s.status == TaskStatus::Active && recovered_elapsed(s, downtime) + TOLERANCE
        >= s.budget.span() {
        TaskStatus::Exhausted
    } else {
        s.status
    }
}

/// The progress that a saved task has told: what its last checkpoint told, or, where that
/// told none, what was saved of those before it. A snapshot that saves none is read by the
/// last checkpoint alone.
pub open spec fn recovered_progress(s: Saved) -> Option<Amount> {
    match s.last_checkpoint {
        Some(last) => if last.progress is Some {
            last.progress
        } else {
            s.progress
        },
        None => s.progress,
    }
}

/// The task that a saved one becomes, before its children are known.
pub open spec fn restored(s: Saved, now: nat, downtime: nat) -> State {
    let elapsed = recovered_elapsed(s, downtime);
    State {
        parent: s.parent,
        budget: s.budget.span(),
        mode: s.mode,
        schedule: s.schedule,
        metadata: s.metadata,
        status: recovered_status(s, downtime),
        started_at: now,
        base_elapsed: elapsed,
        finished_elapsed: if s.status == TaskStatus::Finished {
            Some(elapsed)
        } else {
            None
        },
        last_phase: rules::phase_name(schedule::phase_at(s.schedule.phases, elapsed)),
        child_reserved: 0,
        forgone: 0,
        holds_reservation: s.parent is Some && recovered_status(s, downtime)
            == TaskStatus::Active,
        children: Set::empty(),
        ticks: s.ticks,
        checkpoints: s.checkpoints,
        last_checkpoint: s.last_checkpoint,
        progress: recovered_progress(s),
        plan_submitted: s.plan_submitted,
    }
}

/// The restored tasks by identifier.
pub open spec fn restored_tasks(list: Seq<Saved>, now: nat, downtime: nat) -> Tasks
    decreases list.len(),
{
    if list.len() == 0 {
        Map::empty()
    } else {
        restored_tasks(list.drop_last(), now, downtime).insert(
            list.last().id,
            restored(list.last(), now, downtime),
        )
    }
}

/// Whether `child` is an active task with that parent.
pub open spec fn reserves(tasks: Tasks, parent: Seq<char>, child: Seq<char>) -> bool {
    &&& tasks.contains_key(child)
    &&& tasks[child].parent == Some(parent)
    &&& tasks[child].status == TaskStatus::Active
}

/// The budgets of a parent's active children among `children`, taken together.
pub open spec fn reservations(tasks: Tasks, parent: Seq<char>, children: Seq<Seq<char>>) -> nat
    decreases children.len(),
{
    if children.len() == 0 {
        0
    } else {
        reservations(tasks, parent, children.drop_last()) + if reserves(
            tasks,
            parent,
            children.last(),
        ) {
            tasks[children.last()].budget
        } else {
            0
        }
    }
}

/// The tasks once those named have taken their places among their parents' children.
pub open spec fn linked(tasks: Tasks, children: Seq<Seq<char>>) -> Tasks {
    Map::new(
        |id: Seq<char>| tasks.contains_key(id),
        |id: Seq<char>|
            State {
                children: children.to_set().filter(
                    |child: Seq<char>| reserves(tasks, id, child),
                ),
                child_reserved: duration::clip(reservations(tasks, id, children) as int),
                ..tasks[id]
            },
    )
}

/// The tasks that a list of saved ones gives back.
pub open spec fn recovered(list: Seq<Saved>, now: nat, downtime: nat) -> Tasks {
    linked(restored_tasks(list, now, downtime), saved_ids(list))
}

pub open spec fn wrong_parent(list: Seq<Saved>, s: Saved) -> bool {
    s.parent matches Some(parent) && (parent == s.id || !saved_ids(list).contains(parent))
}

/// What is wrong with the first saved task, from number `i` on, whose parent is itself
/// or unknown.
pub open spec fn parent_fault(list: Seq<Saved>, i: int) -> Option<Seq<char>>
    decreases list.len() - i,
{
    if i < 0 || i >= list.len() {
        None
    } else if wrong_parent(list, list[i]) {
        Some("invalid parent for "@ + list[i].id + ": "@ + list[i].parent->Some_0)
    } else {
        parent_fault(list, i + 1)
    }
}

/// The ancestor of a task that many generations up, if it has so many.
pub open spec fn ancestor(tasks: Tasks, id: Seq<char>, generations: nat) -> Option<Seq<char>>
    decreases generations,
{
    if generations == 0 {
        Some(id)
    } else {
        match ancestor(tasks, id, (generations - 1) as nat) {
            Some(a) => if tasks.contains_key(a) {
                tasks[a].parent
            } else {
                None
            },
            None => None,
        }
    }
}

/// Whether going from parent to parent comes to an end.
pub open spec fn has_root(tasks: Tasks, id: Seq<char>) -> bool {
    exists|generations: nat| #[trigger] ancestor(tasks, id, generations) is None
}

/// What is wrong with the first saved task, from number `i` on, that has no root.
pub open spec fn cycle_fault(list: Seq<Saved>, tasks: Tasks, i: int) -> Option<Seq<char>>
    decreases list.len() - i,
{
    if i < 0 || i >= list.len() {
        None
    } else if !has_root(tasks, list[i].id) {
        Some("cycle involving task "@ + list[i].id)
    } else {
        cycle_fault(list, tasks, i + 1)
    }
}

/// Why a snapshot gives back no tasks, if it does not.
pub open spec fn recover_refusal(version: u32, list: Seq<Saved>, now: nat, downtime: nat) -> Option<
    Refusal,
> {
    if version != SNAPSHOT_VERSION {
        Some(Refusal::CorruptSnapshot("unsupported version "@ + text::decimal(version as nat)))
    } else if list_fault(list, 0) is Some {
        Some(Refusal::CorruptSnapshot(list_fault(list, 0)->Some_0))
    } else if parent_fault(list, 0) is Some {
        Some(Refusal::CorruptSnapshot(parent_fault(list, 0)->Some_0))
    } else {
        let fault = cycle_fault(list, restored_tasks(list, now, downtime), 0);
        if fault is Some {
            Some(Refusal::CorruptSnapshot(fault->Some_0))
        } else {
            None
        }
    }
}

/// The restored tasks are those of the list.
pub proof fn lemma_restored_ids(list: Seq<Saved>, now: nat, downtime: nat)
    ensures
        forall|id: Seq<char>|
            restored_tasks(list, now, downtime).contains_key(id) == saved_ids(list).contains(id),
    decreases list.len(),
{
    let ids = saved_ids(list);
    if list.len() > 0 {
        let shorter = list.drop_last();
        lemma_restored_ids(shorter, now, downtime);
        assert(saved_ids(shorter) =~= ids.drop_last());
        assert(ids.last() == list.last().id);
        assert forall|id: Seq<char>| ids.contains(id) implies ids.drop_last().contains(id) || id
            == ids.last() by {
            let k = choose|k: int| 0 <= k < ids.len() && ids[k] == id;
            if k < ids.len() - 1 {
                assert(ids.drop_last()[k] == id);
            }
        }
        assert forall|id: Seq<char>| ids.drop_last().contains(id) implies ids.contains(id) by {
            let k = choose|k: int| 0 <= k < ids.drop_last().len() && ids.drop_last()[k] == id;
            assert(ids[k] == id);
        }
    }
}

/// Ancestors depend on the tasks' parents alone.
pub proof fn lemma_same_parents(a: Tasks, b: Tasks, id: Seq<char>, generations: nat)
    requires
        a.dom() == b.dom(),
        forall|id: Seq<char>| a.contains_key(id) ==> (#[trigger] a[id]).parent == b[id].parent,
    ensures
        ancestor(a, id, generations) == ancestor(b, id, generations),
    decreases generations,
{
    if generations > 0 {
        lemma_same_parents(a, b, id, (generations - 1) as nat);
        assert(forall|id: Seq<char>| a.contains_key(id) == b.contains_key(id)) by {
            assert(forall|id: Seq<char>| a.contains_key(id) == a.dom().contains(id));
        }
    }
}

/// From an ancestor that occurs twice on, the ancestors repeat.
proof fn lemma_repeats(tasks: Tasks, id: Seq<char>, first: nat, second: nat, later: nat)
    requires
        first < second,
        ancestor(tasks, id, first) == ancestor(tasks, id, second),
    ensures
        ancestor(tasks, id, first + later) == ancestor(tasks, id, second + later),
    decreases later,
{
    if later > 0 {
        lemma_repeats(tasks, id, first, second, (later - 1) as nat);
    }
}

/// A task of whose ancestors one occurs twice has no root.
proof fn lemma_endless(tasks: Tasks, id: Seq<char>, first: nat, second: nat, generations: nat)
    requires
        first < second,
        ancestor(tasks, id, first) == ancestor(tasks, id, second),
        forall|k: nat| k <= second ==> #[trigger] ancestor(tasks, id, k) is Some,
    ensures
        ancestor(tasks, id, generations) is Some,
    decreases generations,
{
    if generations > second {
        let later = (generations - second) as nat;
        lemma_repeats(tasks, id, first, second, later);
        lemma_endless(tasks, id, first, second, first + later);
    }
}

impl Registry {
    /// Whether going from parent to parent comes to an end.
    pub fn reaches_root(&self, id: &str) -> (r: bool)
        requires
            self.wf(),
        ensures
            r == has_root(self@, id@),
    {
        let mut seen = NameSet::new();
        let mut current: String = id.to_owned();
        let ghost mut n: nat = 0;
        proof {
            registry::lemma_size(*self);
        }
        loop
            invariant
                self.wf(),
                seen.wf(),
                self@.dom().finite(),
                seen@.subset_of(self@.dom()),
                ancestor(self@, id@, n) == Some(current@),
                forall|k: nat| k <= n ==> #[trigger] ancestor(self@, id@, k) is Some,
                forall|name: Seq<char>| #[trigger] seen@.contains(name) ==> exists|k: nat|
                    k < n && #[trigger] ancestor(self@, id@, k) == Some(name),
            decreases self@.dom().len() - seen@.len(),
        {
            proof {
                set_lib::lemma_len_subset(seen@, self@.dom());
            }
            if seen.contains(current.as_str()) {
                proof {
                    let k = choose|k: nat| k < n && #[trigger] ancestor(self@, id@, k) == Some(
                        current@,
                    );
                    assert forall|generations: nat|
                        #[trigger] ancestor(self@, id@, generations) is Some by {
                        lemma_endless(self@, id@, k, n, generations);
                    }
                }
                return false;
            }
            match self.find(current.as_str()) {
                Some(i) => match &self.tasks[i].parent_id {
                    Some(parent) => {
                        let ghost child = current@;
                        seen.insert(current.as_str());
                        current = parent.clone();
                        proof {
                            n = n + 1;
                            assert(ancestor(self@, id@, (n - 1) as nat) == Some(child));
                            set_lib::lemma_len_subset(seen@, self@.dom());
                        }
                    },
                    None => {
                        assert(ancestor(self@, id@, n + 1) is None);
                        return true;
                    },
                },
                None => {
                    assert(ancestor(self@, id@, n + 1) is None);
                    return true;
                },
            }
        }
    }
}

fn check_saved(s: &PersistedTask) -> (r: Result<(), TaskError>)
    ensures
        match r {
            Ok(()) => saved_fault(s@) is None,
            Err(e) => saved_fault(s@) matches Some(text) && e@ == Refusal::CorruptSnapshot(text),
        },
{
    if let Err(e) = lifecycle::validate_id(s.task_id.as_str()) {
        return Err(TaskError::CorruptSnapshot(e.message()));
    }
    if let Err(e) = lifecycle::validate_budget(&s.budget_secs) {
        return Err(TaskError::CorruptSnapshot(e.message()));
    }
    let plausible: bool = match s.elapsed_secs {
        Amount::Billionths(value) => value >= 0,
        _ => false,
    };
    if !plausible {
        return Err(TaskError::corrupt("elapsed_secs must be finite and >= 0"));
    }
    if let Err(e) = s.schedule.validate() {
        return Err(TaskError::CorruptSnapshot(e.message()));
    }
    Ok(())
}

fn restore(s: &PersistedTask, now: Duration, downtime: Duration) -> (r: Task)
    ensures
        r@ == restored(s@, now@, downtime@),
        r.task_id@ == s@.id,
        r.wf(),
{
    let active: bool = s.status == TaskStatus::Active;
    let elapsed = if active {
        s.elapsed_secs.to_span().saturating_add(downtime)
    } else {
        s.elapsed_secs.to_span()
    };
    let budget = s.budget_secs.to_span();
    let status = if active && budget.saturating_sub(elapsed).nanos <= TOLERANCE {
        TaskStatus::Exhausted
    } else {
        s.status
    };
    let progress = match &s.last_checkpoint {
        Some(last) => if last.progress.is_some() {
            last.progress
        } else {
            s.progress
        },
        None => s.progress,
    };
    Task {
        task_id: s.task_id.clone(),
        parent_id: names::copy_text(&s.parent_id),
        budget,
        mode: s.mode,
        schedule: s.schedule.duplicate(),
        metadata: s.metadata.duplicate(),
        status,
        started_at: now,
        base_elapsed: elapsed,
        finished_elapsed: if s.status == TaskStatus::Finished {
            Some(elapsed)
        } else {
            None
        },
        last_phase: lifecycle::phase_name(s.schedule.phase_at(elapsed)),
        child_reserved: Duration::zero(),
        forgone: Ghost(0),
        holds_reservation: s.parent_id.is_some() && status == TaskStatus::Active,
        children: NameSet::new(),
        ticks: s.ticks,
        checkpoints: s.checkpoints,
        last_checkpoint: task::copy_record(&s.last_checkpoint),
        progress,
        plan_submitted: s.plan_submitted,
    }
}

/// Restores each of the saved tasks, without their relations.
fn restore_all(saved: &Vec<PersistedTask>, now: Duration, downtime: Duration) -> (r: Result<
    Registry,
    TaskError,
>)
    ensures
        ({
            let list = task::saved_tasks(saved@);
            match r {
                Ok(registry) => {
                    &&& registry.wf()
                    &&& registry@ == restored_tasks(list, now@, downtime@)
                    &&& list_fault(list, 0) is None
                },
                Err(e) => list_fault(list, 0) matches Some(text) && e@ == Refusal::CorruptSnapshot(
                    text,
                ),
            }
        }),
{
    let ghost list = task::saved_tasks(saved@);
    let mut registry = Registry::new();
    let mut i: usize = 0;
    assert(list.take(0) =~= Seq::<Saved>::empty());
    while i < saved.len()
        invariant
            list == task::saved_tasks(saved@),
            i <= saved.len(),
            registry.wf(),
            registry@ == restored_tasks(list.take(i as int), now@, downtime@),
            list_fault(list, 0) == list_fault(list, i as int),
        decreases saved.len() - i,
    {
        check_saved(&saved[i])?;
        proof {
            lemma_restored_ids(list.take(i as int), now@, downtime@);
            assert(saved_ids(list.take(i as int)) =~= saved_ids(list).take(i as int));
            assert(list.take(i + 1).drop_last() =~= list.take(i as int));
            assert(list[i as int] == saved@[i as int]@);
        }
        match registry.place(saved[i].task_id.as_str()) {
            Ok(_) => {
                return Err(
                    TaskError::CorruptSnapshot(
                        "duplicate task ".to_owned().concat(saved[i].task_id.as_str()),
                    ),
                );
            },
            Err(place) => {
                registry.add(place, restore(&saved[i], now, downtime));
            },
        }
        i = i + 1;
    }
    assert(list.take(i as int) =~= list);
    Ok(registry)
}

/// One more child takes its place.
proof fn lemma_link_one(tasks: Tasks, children: Seq<Seq<char>>, i: int)
    requires
        0 <= i < children.len(),
        tasks.contains_key(children[i]),
        ({
            let t = tasks[children[i]];
            t.parent is Some ==> tasks.contains_key(t.parent->Some_0)
        }),
    ensures
        ({
            let id = children[i];
            let t = tasks[id];
            let before = linked(tasks, children.take(i));
            linked(tasks, children.take(i + 1)) == if t.parent is Some && t.status
                == TaskStatus::Active {
                before.insert(
                    t.parent->Some_0,
                    rules::with_child(before[t.parent->Some_0], id, t.budget),
                )
            } else {
                before
            }
        }),
{
    let id = children[i];
    let t = tasks[id];
    let before = linked(tasks, children.take(i));
    let after = linked(tasks, children.take(i + 1));
    names::lemma_one_more(children, i);
    assert(children.take(i + 1).drop_last() =~= children.take(i));
    assert forall|p: Seq<char>| tasks.contains_key(p) implies after[p] == if reserves(tasks, p, id) {
        rules::with_child(before[p], id, t.budget)
    } else {
        before[p]
    } by {
        let f = |child: Seq<char>| reserves(tasks, p, child);
        let later = children.take(i + 1).to_set().filter(f);
        let earlier = children.take(i).to_set().filter(f);
        if reserves(tasks, p, id) {
            assert(later =~= earlier.insert(id));
        } else {
            assert(later =~= earlier);
        }
    }
    if t.parent is Some && t.status == TaskStatus::Active {
        assert(after =~= before.insert(
            t.parent->Some_0,
            rules::with_child(before[t.parent->Some_0], id, t.budget),
        ));
    } else {
        assert(after =~= before);
    }
}

/// Links the restored tasks to their parents.
fn link_all(registry: &mut Registry, saved: &Vec<PersistedTask>) -> (r: Result<(), TaskError>)
    requires
        old(registry).wf(),
        forall|id: Seq<char>|
            old(registry)@.contains_key(id) == saved_ids(task::saved_tasks(saved@)).contains(id),
        forall|i: int|
            0 <= i < saved@.len() ==> old(registry)@[(#[trigger] saved@[i])@.id].parent
                == saved@[i]@.parent,
        forall|id: Seq<char>|
            old(registry)@.contains_key(id) ==> (#[trigger] old(registry)@[id]).children
                == Set::<Seq<char>>::empty() && old(registry)@[id].child_reserved == 0,
    ensures
        final(registry).wf(),
        ({
            let list = task::saved_tasks(saved@);
            match r {
                Ok(()) => {
                    &&& parent_fault(list, 0) is None
                    &&& final(registry)@ == linked(old(registry)@, saved_ids(list))
                },
                Err(e) => parent_fault(list, 0) matches Some(text) && e@
                    == Refusal::CorruptSnapshot(text),
            }
        }),
{
    let ghost base = registry@;
    let ghost list = task::saved_tasks(saved@);
    let ghost ids = saved_ids(list);
    let mut i: usize = 0;
    proof {
        let none = ids.take(0);
        assert(none =~= Seq::<Seq<char>>::empty());
        assert forall|id: Seq<char>| base.contains_key(id) implies #[trigger] linked(base, none)[id]
            == base[id] by {
            let f = |child: Seq<char>| reserves(base, id, child);
            assert(none.to_set().filter(f) =~= Set::<Seq<char>>::empty());
        }
        assert(linked(base, none) =~= base);
    }
    while i < saved.len()
        invariant
            list == task::saved_tasks(saved@),
            ids == saved_ids(list),
            i <= saved.len(),
            registry.wf(),
            forall|id: Seq<char>| base.contains_key(id) == ids.contains(id),
            forall|i: int|
                0 <= i < saved@.len() ==> base[(#[trigger] saved@[i])@.id].parent
                    == saved@[i]@.parent,
            registry@ == linked(base, ids.take(i as int)),
            parent_fault(list, 0) == parent_fault(list, i as int),
        decreases saved.len() - i,
    {
        let id = saved[i].task_id.as_str();
        proof {
            assert(list[i as int] == saved@[i as int]@);
            assert(ids[i as int] == id@);
            assert(ids.contains(ids[i as int]));
        }
        if let Some(parent) = &saved[i].parent_id {
            if text::same_text(parent.as_str(), id) || registry.find(parent.as_str()).is_none() {
                return Err(
                    TaskError::CorruptSnapshot(
                        "invalid parent for ".to_owned().concat(id).concat(": ").concat(
                            parent.as_str(),
                        ),
                    ),
                );
            }
        }
        proof {
            lemma_link_one(base, ids, i as int);
        }
        if let Some(parent) = &saved[i].parent_id {
            if let Some(k) = registry.find(id) {
                if registry.tasks[k].status == TaskStatus::Active {
                    let budget = registry.tasks[k].budget;
                    registry.reserve_child(parent.as_str(), id, budget);
                }
            }
        }
        i = i + 1;
    }
    assert(ids.take(i as int) =~= ids);
    Ok(())
}

/// Gives back the tasks of a snapshot, with the time since it was taken charged to
/// those that were active. The tasks run on from `now`.
pub fn recover(snapshot: &PersistedState, now: Duration, now_unix_ms: u64) -> (r: Result<
    Registry,
    TaskError,
>)
    ensures
        ({
            let list = task::saved_tasks(snapshot.tasks@);
            let downtime = downtime(snapshot.saved_at_unix_ms, now_unix_ms);
            match r {
                Ok(registry) => {
                    &&& registry.wf()
                    &&& recover_refusal(snapshot.version, list, now@, downtime) is None
                    &&& registry@ == recovered(list, now@, downtime)
                },
                Err(e) => recover_refusal(snapshot.version, list, now@, downtime) == Some(e@),
            }
        }),
{
    if snapshot.version != SNAPSHOT_VERSION {
        return Err(
            TaskError::CorruptSnapshot(
                "unsupported version ".to_owned().concat(
                    text::decimal_text(snapshot.version as u128).as_str(),
                ),
            ),
        );
    }
    let passed: u64 = if now_unix_ms >= snapshot.saved_at_unix_ms {
        now_unix_ms - snapshot.saved_at_unix_ms
    } else {
        0
    };
    let lost = Duration::from_millis(passed);
    let ghost list = task::saved_tasks(snapshot.tasks@);
    let mut registry = restore_all(&snapshot.tasks, now, lost)?;
    let ghost base = registry@;
    proof {
        lemma_restored_ids(list, now@, lost@);
        lemma_restored(list, now@, lost@);
        assert forall|i: int| 0 <= i < snapshot.tasks@.len() implies base[(
        #[trigger] snapshot.tasks@[i])@.id].parent == snapshot.tasks@[i]@.parent by {
            assert(list[i] == snapshot.tasks@[i]@);
        }
    }
    link_all(&mut registry, &snapshot.tasks)?;
    let mut i: usize = 0;
    while i < snapshot.tasks.len()
        invariant
            list == task::saved_tasks(snapshot.tasks@),
            i <= snapshot.tasks.len(),
            snapshot.version == SNAPSHOT_VERSION,
            lost@ == downtime(snapshot.saved_at_unix_ms, now_unix_ms),
            list_fault(list, 0) is None,
            parent_fault(list, 0) is None,
            base == restored_tasks(list, now@, lost@),
            registry.wf(),
            registry@ == linked(base, saved_ids(list)),
            cycle_fault(list, base, 0) == cycle_fault(list, base, i as int),
        decreases snapshot.tasks.len() - i,
    {
        let id = snapshot.tasks[i].task_id.as_str();
        proof {
            assert(list[i as int].id == id@);
            lemma_linked_roots(base, saved_ids(list), id@);
        }
        if !registry.reaches_root(id) {
            return Err(
                TaskError::CorruptSnapshot("cycle involving task ".to_owned().concat(id)),
            );
        }
        i = i + 1;
    }
    Ok(registry)
}

/// A list without faults is restored task by task.
pub proof fn lemma_restored(list: Seq<Saved>, now: nat, downtime: nat)
    requires
        list_fault(list, 0) is None,
    ensures
        forall|i: int|
            0 <= i < list.len() ==> restored_tasks(list, now, downtime)[(#[trigger] list[i]).id]
                == restored(list[i], now, downtime),
        forall|id: Seq<char>|
            restored_tasks(list, now, downtime).contains_key(id) ==> (#[trigger] restored_tasks(
                list,
                now,
                downtime,
            )[id]).children == Set::<Seq<char>>::empty() && restored_tasks(
                list,
                now,
                downtime,
            )[id].child_reserved == 0,
    decreases list.len(),
{
    if list.len() > 0 {
        let shorter = list.drop_last();
        lemma_sound_list(list, 0, list.len() - 1);
        lemma_sound_list(list, 0, 0);
        lemma_shorter_list(list, 0);
        lemma_restored(shorter, now, downtime);
        assert forall|i: int| 0 <= i < list.len() implies restored_tasks(list, now, downtime)[(
        #[trigger] list[i]).id] == restored(list[i], now, downtime) by {
            if i < list.len() - 1 {
                assert(shorter[i] == list[i]);
                assert(saved_ids(list).take(list.len() - 1)[i] == list[i].id);
            }
        }
    }
}

/// Each task of a list without faults is usable and not a duplicate.
pub proof fn lemma_sound_list(list: Seq<Saved>, from: int, i: int)
    requires
        list_fault(list, from) is None,
        0 <= from <= i < list.len(),
    ensures
        saved_fault(list[i]) is None,
        !saved_ids(list).take(i).contains(list[i].id),
    decreases i - from,
{
    if from < i {
        lemma_sound_list(list, from + 1, i);
    }
}

/// A list without faults has none without its last task either.
proof fn lemma_shorter_list(list: Seq<Saved>, from: int)
    requires
        list.len() > 0,
        0 <= from,
        list_fault(list, from) is None,
    ensures
        list_fault(list.drop_last(), from) is None,
    decreases list.len() - from,
{
    let shorter = list.drop_last();
    if from < shorter.len() {
        lemma_shorter_list(list, from + 1);
        assert(saved_ids(shorter).take(from) =~= saved_ids(list).take(from));
    }
}

/// Linking children to their parents changes nobody's ancestors.
proof fn lemma_linked_roots(tasks: Tasks, children: Seq<Seq<char>>, id: Seq<char>)
    ensures
        has_root(linked(tasks, children), id) == has_root(tasks, id),
{
    let after = linked(tasks, children);
    assert(after.dom() =~= tasks.dom());
    assert forall|n: nat| #[trigger] ancestor(after, id, n) == ancestor(tasks, id, n) by {
        lemma_same_parents(after, tasks, id, n);
    }
    if has_root(tasks, id) {
        let n = choose|n: nat| #[trigger] ancestor(tasks, id, n) is None;
        assert(ancestor(after, id, n) is None);
    }
}

} // verus!
