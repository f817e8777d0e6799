//! What parents have reserved for their children, and why it is always exactly the sum of
//! the budgets of those that hold a reservation, and of those that a forced finish has let
//! go of.

use crate::duration;
use crate::duration::MAX_NANOS;
use crate::laws;
use crate::recovery;
use crate::registry::Tasks;
use crate::rules;
use crate::task::{Adjustment, Checkpoint, Saved, Start, State, TaskStatus};
use vstd::prelude::*;

verus! {

/// The tasks that hold a reservation of that parent's time.
pub open spec fn holders(tasks: Tasks, parent: Seq<char>) -> Set<Seq<char>> {
    Set::new(
        |child: Seq<char>|
            tasks.contains_key(child) && tasks[child].parent == Some(parent)
                && tasks[child].holds_reservation,
    )
}

/// Every task has reserved exactly the budgets of those that hold a reservation of its
/// time, and of those that it let go of when it was finished by force, which before that
/// are none. As long as it is not finished, the former are its children. A task that holds
/// a reservation has a parent and is not finished; and a parent's active tasks all hold
/// one.
pub open spec fn accounted(tasks: Tasks) -> bool {
    forall|id: Seq<char>| #[trigger] tasks.contains_key(id) ==> entry_accounted(tasks, id)
}

/// The part of [`accounted`] that is about one task.
pub open spec fn entry_accounted(tasks: Tasks, id: Seq<char>) -> bool {
    let t = tasks[id];
    &&& holders(tasks, id).finite()
    &&& t.child_reserved == rules::total(tasks, holders(tasks, id)) + t.forgone
    &&& t.children.subset_of(holders(tasks, id))
    &&& t.status != TaskStatus::Finished ==> t.forgone == 0 && t.children == holders(tasks, id)
    &&& t.holds_reservation ==> t.parent is Some && t.status != TaskStatus::Finished
    &&& t.parent is Some && t.status == TaskStatus::Active ==> t.holds_reservation
}

/// One task's budget taken out of the sum.
proof fn lemma_total_remove(tasks: Tasks, children: Set<Seq<char>>, child: Seq<char>)
    requires
        children.finite(),
        children.contains(child),
    ensures
        rules::total(tasks, children) == tasks[child].budget + rules::total(tasks, children.remove(child)),
    decreases children.len(),
{
    let first = children.choose();
    if first != child {
        let rest = children.remove(first);
        lemma_total_remove(tasks, rest, child);
        let others = children.remove(child);
        assert(others.contains(first));
        lemma_total_remove(tasks, others, first);
        assert(rest.remove(child) =~= others.remove(first));
    }
}

/// One task's budget added to the sum.
proof fn lemma_total_insert(tasks: Tasks, children: Set<Seq<char>>, child: Seq<char>)
    requires
        children.finite(),
        !children.contains(child),
    ensures
        rules::total(tasks, children.insert(child)) == tasks[child].budget + rules::total(tasks, children),
{
    lemma_total_remove(tasks, children.insert(child), child);
    assert(children.insert(child).remove(child) =~= children);
}

/// The sum depends on nothing but the budgets of those tasks.
proof fn lemma_total_same(tasks: Tasks, after: Tasks, children: Set<Seq<char>>)
    requires
        children.finite(),
        forall|child: Seq<char>| #[trigger]
            children.contains(child) ==> after[child].budget == tasks[child].budget,
    ensures
        rules::total(after, children) == rules::total(tasks, children),
    decreases children.len(),
{
    if children.len() > 0 {
        let child = children.choose();
        assert(children.contains(child));
        lemma_total_same(tasks, after, children.remove(child));
    }
}

/// Without tasks, every reservation is accounted for.
pub proof fn law_nothing_is_accounted()
    ensures
        accounted(Map::<Seq<char>, State>::empty()),
{
}

/// A started child reserves exactly its budget: starting a task keeps every reservation
/// accounted for.
pub proof fn law_start_keeps_accounted(tasks: Tasks, r: Start, now: nat, deadline: Option<nat>)
    requires
        laws::sound(tasks),
        accounted(tasks),
        rules::start_refusal(tasks, r, now, deadline) is None,
    ensures
        accounted(rules::started(tasks, r, now, deadline)),
{
    let after = rules::started(tasks, r, now, deadline);
    let budget = rules::granted(tasks, r, now, deadline);
    assert forall|id: Seq<char>| #[trigger] after.contains_key(id) implies entry_accounted(
        after,
        id,
    ) by {
        if id == r.id {
            assert forall|child: Seq<char>| #[trigger]
                after.contains_key(child) && after[child].parent == Some(id) implies false by {
                if child == r.id {
                    assert(tasks.contains_key(r.parent->Some_0));
                } else {
                    assert(tasks.contains_key(child));
                    assert(laws::entry_sound(tasks, child));
                }
            }
            assert(holders(after, id) =~= Set::empty());
        } else {
            assert(tasks.contains_key(id));
            assert(entry_accounted(tasks, id));
            let held = holders(tasks, id);
            assert(!held.contains(r.id));
            lemma_total_same(tasks, after, held);
            if r.parent == Some(id) {
                assert(holders(after, id) =~= held.insert(r.id));
                lemma_total_insert(after, held, r.id);
                assert(laws::entry_sound(tasks, id));
                assert(budget <= tasks[id].work(now));
                assert(tasks[id].child_reserved + budget <= MAX_NANOS);
            } else {
                assert(holders(after, id) =~= held);
            }
        }
    }
}

/// A tick keeps every reservation accounted for.
pub proof fn law_tick_keeps_accounted(tasks: Tasks, id: Seq<char>, now: nat)
    requires
        accounted(tasks),
        rules::tick_refusal(tasks, id) is None,
    ensures
        accounted(rules::ticked(tasks, id, now)),
{
    lemma_untouched(tasks, rules::ticked(tasks, id, now));
}

/// A checkpoint keeps every reservation accounted for.
pub proof fn law_checkpoint_keeps_accounted(tasks: Tasks, c: Checkpoint, now: nat)
    requires
        accounted(tasks),
        rules::checkpoint_refusal(tasks, c) is None,
    ensures
        accounted(rules::checkpointed(tasks, c, now)),
{
    lemma_untouched(tasks, rules::checkpointed(tasks, c, now));
}

/// Reservations stay accounted for where no parent, child, budget or reservation
/// changes, and no task becomes active or finished or is taken up again.
proof fn lemma_untouched(tasks: Tasks, after: Tasks)
    requires
        accounted(tasks),
        after.dom() =~= tasks.dom(),
        forall|id: Seq<char>| #[trigger] after.contains_key(id) ==> {
            &&& after[id].parent == tasks[id].parent
            &&& after[id].children == tasks[id].children
            &&& after[id].child_reserved == tasks[id].child_reserved
            &&& after[id].forgone == tasks[id].forgone
            &&& after[id].holds_reservation == tasks[id].holds_reservation
            &&& after[id].status == TaskStatus::Finished <==> tasks[id].status
                == TaskStatus::Finished
            &&& after[id].status == TaskStatus::Active ==> tasks[id].status
                == TaskStatus::Active
        },
        forall|id: Seq<char>| after[id].budget == (#[trigger] tasks[id]).budget,
    ensures
        accounted(after),
{
    assert forall|id: Seq<char>| #[trigger] after.contains_key(id) implies entry_accounted(
        after,
        id,
    ) by {
        assert(tasks.contains_key(id));
        assert(entry_accounted(tasks, id));
        lemma_same_holders(tasks, after, id);
        lemma_total_same(tasks, after, holders(tasks, id));
    }
}

/// The same tasks with the same parents and marks hold the same reservations.
proof fn lemma_same_holders(tasks: Tasks, after: Tasks, id: Seq<char>)
    requires
        after.dom() =~= tasks.dom(),
        forall|id: Seq<char>| #[trigger] after.contains_key(id) ==> {
            &&& after[id].parent == tasks[id].parent
            &&& after[id].holds_reservation == tasks[id].holds_reservation
        },
    ensures
        holders(after, id) == holders(tasks, id),
{
    assert forall|child: Seq<char>| after.contains_key(child) == tasks.contains_key(child) by {
        assert(after.dom().contains(child) == tasks.dom().contains(child));
    }
    assert(holders(after, id) =~= holders(tasks, id));
}

/// An adjusted child reserves exactly its new budget: an adjustment keeps every
/// reservation accounted for.
pub proof fn law_adjust_keeps_accounted(
    tasks: Tasks,
    a: Adjustment,
    now: nat,
    deadline: Option<nat>,
)
    requires
        laws::sound(tasks),
        accounted(tasks),
        rules::adjust_refusal(tasks, a, now, deadline) is None,
    ensures
        accounted(rules::adjusted(tasks, a, now, deadline)),
{
    let after = rules::adjusted(tasks, a, now, deadline);
    let t = tasks[a.id];
    assert(laws::entry_sound(tasks, a.id));
    if t.parent == Some(a.id) {
        laws::lemma_own_parent(tasks, a.id);
    }
    assert(after.dom() =~= tasks.dom());
    assert forall|id: Seq<char>| #[trigger] after.contains_key(id) implies entry_accounted(
        after,
        id,
    ) by {
        assert(tasks.contains_key(id));
        assert(entry_accounted(tasks, id));
        lemma_same_holders(tasks, after, id);
        let held = holders(tasks, id);
        if held.contains(a.id) {
            if a.budget is Some {
                law_adjustments_move_the_reservation(tasks, a, now, deadline);
            }
            lemma_total_remove(tasks, held, a.id);
            lemma_total_remove(after, held, a.id);
            lemma_total_same(tasks, after, held.remove(a.id));
        } else {
            lemma_total_same(tasks, after, held);
        }
    }
}

/// A granted budget moves the parent's reservation by as much as the budget itself is
/// moved, if the task holds one. Nothing is cut off by the longest span.
pub proof fn law_adjustments_move_the_reservation(
    tasks: Tasks,
    a: Adjustment,
    now: nat,
    deadline: Option<nat>,
)
    requires
        laws::sound(tasks),
        accounted(tasks),
        rules::adjust_refusal(tasks, a, now, deadline) is None,
        tasks[a.id].parent is Some,
    ensures
        ({
            let parent = tasks[a.id].parent->Some_0;
            let after = rules::adjusted(tasks, a, now, deadline);
            after[parent].child_reserved - tasks[parent].child_reserved
                == if tasks[a.id].holds_reservation {
                after[a.id].budget - tasks[a.id].budget
            } else {
                0
            }
        }),
{
    let t = tasks[a.id];
    let id = t.parent->Some_0;
    assert(laws::entry_sound(tasks, a.id));
    assert(laws::entry_sound(tasks, id));
    assert(entry_accounted(tasks, id));
    if id == a.id {
        laws::lemma_own_parent(tasks, a.id);
    }
    if a.budget is Some && t.holds_reservation {
        let held = holders(tasks, id);
        assert(held.contains(a.id));
        lemma_total_remove(tasks, held, a.id);
        let budget = rules::adjusted_budget(tasks, a, now, deadline);
        assert(budget <= rules::offer(tasks[id], t.budget, now));
        let runtime = tasks[id].runtime(now);
        let remaining = duration::less(tasks[id].budget, runtime);
        let work = duration::clip(remaining + t.budget - tasks[id].child_reserved);
        assert(budget <= work);
    }
}

/// A part of the tasks and the rest of them have the budgets of all.
proof fn lemma_total_parted(tasks: Tasks, part: Set<Seq<char>>, all: Set<Seq<char>>)
    requires
        all.finite(),
        part.finite(),
        part.subset_of(all),
    ensures
        rules::total(tasks, all) == rules::total(tasks, part) + rules::total(
            tasks,
            all.difference(part),
        ),
    decreases part.len(),
{
    if part.len() == 0 {
        assert(all.difference(part) =~= all);
    } else {
        let child = part.choose();
        assert(part.contains(child));
        lemma_total_remove(tasks, all, child);
        lemma_total_parted(tasks, part.remove(child), all.remove(child));
        assert(all.remove(child).difference(part.remove(child)) =~= all.difference(part));
    }
}

/// A finished child gives back exactly its budget: finishing a task keeps every
/// reservation accounted for.
pub proof fn law_finish_keeps_accounted(
    tasks: Tasks,
    id: Seq<char>,
    reason: Option<Seq<char>>,
    force: bool,
    now: nat,
)
    requires
        laws::sound(tasks),
        accounted(tasks),
        rules::finish_refusal(tasks, id, reason, force) is None,
    ensures
        accounted(rules::finished(tasks, id, force, now)),
{
    let free = rules::released(tasks, id, force);
    let after = rules::finished(tasks, id, force, now);
    let gone = rules::active_children(tasks, id);
    assert(laws::entry_sound(tasks, id));
    assert(entry_accounted(tasks, id));
    assert(free.dom() =~= tasks.dom());
    assert(after.dom() =~= tasks.dom());
    if tasks[id].parent == Some(id) {
        laws::lemma_own_parent(tasks, id);
    }
    assert(!gone.contains(id));
    assert(gone.subset_of(holders(tasks, id)));
    if !force {
        assert(gone =~= Set::empty());
    }
    assert forall|other: Seq<char>| #[trigger] after.contains_key(other) implies entry_accounted(
        after,
        other,
    ) by {
        assert(tasks.contains_key(other));
        assert(laws::entry_sound(tasks, other));
        assert(entry_accounted(tasks, other));
        let held = holders(tasks, other);
        if other == id {
            assert(holders(after, id) =~= held.difference(gone));
            lemma_total_parted(tasks, gone, held);
            lemma_total_same(tasks, after, held.difference(gone));
        } else if held.contains(id) {
            assert(holders(after, other) =~= held.remove(id));
            lemma_total_remove(tasks, held, id);
            lemma_total_same(tasks, after, held.remove(id));
        } else {
            assert(holders(after, other) =~= held);
            lemma_total_same(tasks, after, held);
            assert(tasks[other].children.remove(id) =~= tasks[other].children);
        }
    }
}

/// A child that finishes takes its budget out of its parent's reservation, if it holds
/// one, whether the parent is finished or not.
pub proof fn law_finish_releases_the_reservation(
    tasks: Tasks,
    id: Seq<char>,
    reason: Option<Seq<char>>,
    force: bool,
    now: nat,
)
    requires
        laws::sound(tasks),
        accounted(tasks),
        rules::finish_refusal(tasks, id, reason, force) is None,
        tasks[id].parent is Some,
    ensures
        ({
            let parent = tasks[id].parent->Some_0;
            let after = rules::finished(tasks, id, force, now);
            after[parent].child_reserved == tasks[parent].child_reserved
                - if tasks[id].holds_reservation {
                tasks[id].budget as int
            } else {
                0
            }
        }),
{
    let parent = tasks[id].parent->Some_0;
    assert(laws::entry_sound(tasks, id));
    assert(entry_accounted(tasks, parent));
    if parent == id {
        laws::lemma_own_parent(tasks, id);
    }
    assert(!rules::active_children(tasks, id).contains(id));
    if tasks[id].holds_reservation {
        assert(holders(tasks, parent).contains(id));
        lemma_total_remove(tasks, holders(tasks, parent), id);
    }
}

/// The tasks of a list that have reserved some of that parent's time.
spec fn reserving(tasks: Tasks, parent: Seq<char>, ids: Seq<Seq<char>>) -> Set<Seq<char>> {
    ids.to_set().filter(|child: Seq<char>| recovery::reserves(tasks, parent, child))
}

/// Reservations counted along a list are the sum over those who hold them.
proof fn lemma_counted(tasks: Tasks, parent: Seq<char>, ids: Seq<Seq<char>>)
    requires
        ids.no_duplicates(),
    ensures
        reserving(tasks, parent, ids).finite(),
        recovery::reservations(tasks, parent, ids) == rules::total(tasks, reserving(tasks, parent, ids)),
    decreases ids.len(),
{
    let set = reserving(tasks, parent, ids);
    if ids.len() == 0 {
        assert(set =~= Set::empty());
    } else {
        let shorter = ids.drop_last();
        let last = ids.last();
        let rest = reserving(tasks, parent, shorter);
        lemma_counted(tasks, parent, shorter);
        assert(!shorter.contains(last));
        assert forall|id: Seq<char>| ids.contains(id) == (shorter.contains(id) || id == last) by {
            if ids.contains(id) {
                let k = choose|k: int| 0 <= k < ids.len() && ids[k] == id;
                assert(k < shorter.len() ==> shorter[k] == id);
            }
            if shorter.contains(id) {
                let k = choose|k: int| 0 <= k < shorter.len() && shorter[k] == id;
                assert(ids[k] == id);
            }
            assert(ids[ids.len() - 1] == last);
        }
        if recovery::reserves(tasks, parent, last) {
            assert(set =~= rest.insert(last));
            lemma_total_insert(tasks, rest, last);
        } else {
            assert(set =~= rest);
        }
    }
}

/// A list without faults names no task twice.
proof fn lemma_distinct(list: Seq<Saved>)
    requires
        recovery::list_fault(list, 0) is None,
    ensures
        recovery::saved_ids(list).no_duplicates(),
{
    let ids = recovery::saved_ids(list);
    assert forall|i: int, j: int| 0 <= i < j < ids.len() implies ids[i] != ids[j] by {
        recovery::lemma_sound_list(list, 0, j);
        assert(ids.take(j)[i] == ids[i]);
    }
}

/// Whether what a parent's active children reserve is never longer than the longest span,
/// and so can be held.
pub open spec fn fit(list: Seq<Saved>, now: nat, downtime: nat) -> bool {
    forall|parent: Seq<char>| #[trigger]
        recovery::reservations(
            recovery::restored_tasks(list, now, downtime),
            parent,
            recovery::saved_ids(list),
        ) <= MAX_NANOS
}

/// Of the restored tasks those that are active and have a parent hold a reservation.
proof fn lemma_restored_mark(list: Seq<Saved>, now: nat, downtime: nat, id: Seq<char>)
    requires
        recovery::list_fault(list, 0) is None,
    ensures
        ({
            let base = recovery::restored_tasks(list, now, downtime);
            &&& base.contains_key(id) == recovery::saved_ids(list).contains(id)
            &&& base.contains_key(id) ==> base[id].forgone == 0 && (base[id].holds_reservation
                <==> base[id].parent is Some && base[id].status == TaskStatus::Active)
        }),
{
    let ids = recovery::saved_ids(list);
    recovery::lemma_restored_ids(list, now, downtime);
    recovery::lemma_restored(list, now, downtime);
    if ids.contains(id) {
        let k = choose|k: int| 0 <= k < ids.len() && ids[k] == id;
        assert(list[k].id == id);
    }
}

/// Recovered tasks have every reservation accounted for, provided that the sums can be
/// held.
pub proof fn law_recovery_gives_accounted(
    version: u32,
    list: Seq<Saved>,
    now: nat,
    downtime: nat,
)
    requires
        recovery::recover_refusal(version, list, now, downtime) is None,
        fit(list, now, downtime),
    ensures
        accounted(recovery::recovered(list, now, downtime)),
{
    let base = recovery::restored_tasks(list, now, downtime);
    let ids = recovery::saved_ids(list);
    let after = recovery::recovered(list, now, downtime);
    recovery::lemma_restored_ids(list, now, downtime);
    recovery::lemma_restored(list, now, downtime);
    lemma_distinct(list);
    assert forall|id: Seq<char>| #[trigger] after.contains_key(id) implies entry_accounted(
        after,
        id,
    ) by {
        let children = reserving(base, id, ids);
        lemma_counted(base, id, ids);
        assert(after[id].children =~= children);
        assert forall|child: Seq<char>| #[trigger] children.contains(child) implies
            after[child].budget == base[child].budget by {
            assert(recovery::reserves(base, id, child));
        }
        lemma_total_same(base, after, children);
        assert forall|child: Seq<char>|
            holders(after, id).contains(child) == children.contains(child) by {
            lemma_restored_mark(list, now, downtime, child);
        }
        assert(holders(after, id) =~= children);
        lemma_restored_mark(list, now, downtime, id);
    }
}

/// Where every reservation is accounted for, it is so again after a restart: what a
/// snapshot of such tasks gives back can always be held.
pub proof fn law_restart_keeps_accounted(
    list: Seq<Saved>,
    tasks: Tasks,
    saved_at: nat,
    now: nat,
    downtime: nat,
)
    requires
        laws::sound(tasks),
        accounted(tasks),
        recovery::lists(list, tasks, saved_at),
        recovery::recover_refusal(recovery::SNAPSHOT_VERSION, list, now, downtime) is None,
    ensures
        accounted(recovery::recovered(list, now, downtime)),
{
    let base = recovery::restored_tasks(list, now, downtime);
    let ids = recovery::saved_ids(list);
    recovery::lemma_restored_ids(list, now, downtime);
    recovery::lemma_restored(list, now, downtime);
    lemma_distinct(list);
    assert forall|parent: Seq<char>| #[trigger]
        recovery::reservations(base, parent, ids) <= MAX_NANOS by {
        let some = reserving(base, parent, ids);
        lemma_counted(base, parent, ids);
        assert forall|child: Seq<char>| #[trigger] some.contains(child) implies {
            &&& tasks.contains_key(parent)
            &&& holders(tasks, parent).contains(child)
            &&& base[child].budget == tasks[child].budget
        } by {
            assert(recovery::reserves(base, parent, child));
            assert(ids.contains(child));
            let k = choose|k: int| 0 <= k < ids.len() && ids[k] == child;
            assert(list[k].id == child);
            assert(list[k] == recovery::saved(child, tasks[child], saved_at));
            assert(tasks.contains_key(child));
            assert(laws::entry_sound(tasks, child));
            assert(tasks[child].parent == Some(parent));
            assert(entry_accounted(tasks, child));
        }
        if tasks.contains_key(parent) {
            assert(laws::entry_sound(tasks, parent));
            assert(entry_accounted(tasks, parent));
            lemma_total_same(tasks, base, some);
            lemma_total_parted(tasks, some, holders(tasks, parent));
        } else {
            assert(some =~= Set::empty());
        }
    }
    law_recovery_gives_accounted(recovery::SNAPSHOT_VERSION, list, now, downtime);
}

} // verus!
