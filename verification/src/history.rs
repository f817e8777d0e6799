//! What holds over any number of requests and restarts.

use crate::duration::TOLERANCE;
use crate::laws;
use crate::number::Amount;
use crate::recovery;
use crate::registry::Tasks;
use crate::reservations;
use crate::rules;
use crate::task::{Adjustment, Checkpoint, Saved, Start, State};
use vstd::prelude::*;

verus! {

/// What may happen to the tasks.
pub enum Step {
    Start { request: Start, deadline: Option<nat> },
    Tick { id: Seq<char> },
    Checkpoint { request: Checkpoint },
    Adjust { request: Adjustment, deadline: Option<nat> },
    Finish { id: Seq<char>, reason: Option<Seq<char>>, force: bool },
    /// The tasks are given back by a snapshot that was taken at `saved_at`.
    Restart { list: Seq<Saved>, saved_at: nat, downtime: nat },
}

/// A step and the time at which it is taken.
pub struct Event {
    pub step: Step,
    pub now: nat,
}

/// Whether the step is not refused.
pub open spec fn accepted(tasks: Tasks, event: Event) -> bool {
    match event.step {
        Step::Start { request, deadline } => rules::start_refusal(
            tasks,
            request,
            event.now,
            deadline,
        ) is None,
        Step::Tick { id } => rules::tick_refusal(tasks, id) is None,
        Step::Checkpoint { request } => rules::checkpoint_refusal(tasks, request) is None,
        Step::Adjust { request, deadline } => rules::adjust_refusal(
            tasks,
            request,
            event.now,
            deadline,
        ) is None,
        Step::Finish { id, reason, force } => rules::finish_refusal(tasks, id, reason, force)
            is None,
        Step::Restart { list, saved_at, downtime } => recovery::lists(list, tasks, saved_at)
            && recovery::recover_refusal(
            recovery::SNAPSHOT_VERSION,
            list,
            event.now,
            downtime,
        ) is None,
    }
}

/// The tasks after the step.
pub open spec fn taken(tasks: Tasks, event: Event) -> Tasks {
    match event.step {
        Step::Start { request, deadline } => rules::started(tasks, request, event.now, deadline),
        Step::Tick { id } => rules::ticked(tasks, id, event.now),
        Step::Checkpoint { request } => rules::checkpointed(tasks, request, event.now),
        Step::Adjust { request, deadline } => rules::adjusted(
            tasks,
            request,
            event.now,
            deadline,
        ),
        Step::Finish { id, reason, force } => rules::finished(tasks, id, force, event.now),
        Step::Restart { list, saved_at, downtime } => recovery::recovered(
            list,
            event.now,
            downtime,
        ),
    }
}

/// The tasks after all those steps.
pub open spec fn left(tasks: Tasks, events: Seq<Event>) -> Tasks
    decreases events.len(),
{
    if events.len() == 0 {
        tasks
    } else {
        taken(left(tasks, events.drop_last()), events.last())
    }
}

/// Whether none of the steps is refused.
pub open spec fn happens(tasks: Tasks, events: Seq<Event>) -> bool
    decreases events.len(),
{
    events.len() > 0 ==> happens(tasks, events.drop_last()) && accepted(
        left(tasks, events.drop_last()),
        events.last(),
    )
}

/// One step keeps all sound, and every reservation accounted for.
proof fn lemma_step(tasks: Tasks, event: Event)
    requires
        laws::sound(tasks),
        accepted(tasks, event),
    ensures
        laws::sound(taken(tasks, event)),
        reservations::accounted(tasks) ==> reservations::accounted(taken(tasks, event)),
{
    let now = event.now;
    let held = reservations::accounted(tasks);
    match event.step {
        Step::Start { request, deadline } => {
            laws::law_start_keeps_sound(tasks, request, now, deadline);
            if held {
                reservations::law_start_keeps_accounted(tasks, request, now, deadline);
            }
        },
        Step::Tick { id } => {
            laws::law_tick_keeps_sound(tasks, id, now);
            if held {
                reservations::law_tick_keeps_accounted(tasks, id, now);
            }
        },
        Step::Checkpoint { request } => {
            laws::law_checkpoint_keeps_sound(tasks, request, now);
            if held {
                reservations::law_checkpoint_keeps_accounted(tasks, request, now);
            }
        },
        Step::Adjust { request, deadline } => {
            laws::law_adjust_keeps_sound(tasks, request, now, deadline);
            if held {
                reservations::law_adjust_keeps_accounted(tasks, request, now, deadline);
            }
        },
        Step::Finish { id, reason, force } => {
            laws::law_finish_keeps_sound(tasks, id, reason, force, now);
            if held {
                reservations::law_finish_keeps_accounted(tasks, id, reason, force, now);
            }
        },
        Step::Restart { list, saved_at, downtime } => {
            laws::law_recovery_gives_sound_tasks(
                recovery::SNAPSHOT_VERSION,
                list,
                now,
                downtime,
            );
            if held {
                reservations::law_restart_keeps_accounted(list, tasks, saved_at, now, downtime);
            }
        },
    }
}

/// Whatever happens, all stays sound, and every reservation accounted for.
pub proof fn law_all_stays_sound(tasks: Tasks, events: Seq<Event>)
    requires
        laws::sound(tasks),
        happens(tasks, events),
    ensures
        laws::sound(left(tasks, events)),
        reservations::accounted(tasks) ==> reservations::accounted(left(tasks, events)),
    decreases events.len(),
{
    if events.len() > 0 {
        law_all_stays_sound(tasks, events.drop_last());
        lemma_step(left(tasks, events.drop_last()), events.last());
    }
}

/// What began without tasks is sound, and has every reservation accounted for.
pub proof fn law_all_that_is_reached_is_sound(events: Seq<Event>)
    requires
        happens(Map::<Seq<char>, State>::empty(), events),
    ensures
        laws::sound(left(Map::<Seq<char>, State>::empty(), events)),
        reservations::accounted(left(Map::<Seq<char>, State>::empty(), events)),
{
    laws::law_nothing_is_sound();
    reservations::law_nothing_is_accounted();
    law_all_stays_sound(Map::<Seq<char>, State>::empty(), events);
}

/// Whether the step is a checkpoint of that task that tells progress.
pub open spec fn tells_progress(event: Event, id: Seq<char>) -> bool {
    event.step matches Step::Checkpoint { request } && request.id == id && request.progress
        is Some
}

/// Whether the step is a checkpoint that replans that task.
pub open spec fn replans(event: Event, id: Seq<char>) -> bool {
    event.step matches Step::Checkpoint { request } && request.id == id && request.replan
}

/// How often the task was told progress of.
pub open spec fn times_told(events: Seq<Event>, id: Seq<char>) -> nat
    decreases events.len(),
{
    if events.len() == 0 {
        0
    } else {
        times_told(events.drop_last(), id) + if tells_progress(events.last(), id) {
            1nat
        } else {
            0
        }
    }
}

/// A request that tells no progress of a task leaves the task's progress as it is.
proof fn lemma_requests_keep_progress(tasks: Tasks, event: Event, id: Seq<char>)
    requires
        accepted(tasks, event),
        tasks.contains_key(id),
        !tells_progress(event, id),
        !(event.step is Restart),
    ensures
        taken(tasks, event).contains_key(id),
        taken(tasks, event)[id].progress == tasks[id].progress,
{
    let now = event.now;
    let after = taken(tasks, event);
    match event.step {
        Step::Start { request, deadline } => {
            assert(after == rules::started(tasks, request, now, deadline));
        },
        Step::Tick { id: other } => {
            assert(after == rules::ticked(tasks, other, now));
        },
        Step::Checkpoint { request } => {
            assert(after == rules::checkpointed(tasks, request, now));
        },
        Step::Adjust { request, deadline } => {
            assert(after == rules::adjusted(tasks, request, now, deadline));
        },
        Step::Finish { id: other, reason, force } => {
            assert(after == rules::finished(tasks, other, force, now));
        },
        _ => {},
    }
}

/// So does a restart.
proof fn lemma_restarts_keep_progress(tasks: Tasks, event: Event, id: Seq<char>)
    requires
        laws::sound(tasks),
        accepted(tasks, event),
        tasks.contains_key(id),
        event.step is Restart,
    ensures
        taken(tasks, event).contains_key(id),
        taken(tasks, event)[id].progress == tasks[id].progress,
{
    let list = event.step->list;
    let ids = recovery::saved_ids(list);
    assert(ids.contains(id));
    let i = choose|i: int| 0 <= i < ids.len() && ids[i] == id;
    assert(list[i].id == id);
    assert(laws::entry_sound(tasks, id));
    laws::law_recovery_keeps_what_was_saved(
        recovery::SNAPSHOT_VERSION,
        list,
        event.now,
        event.step->downtime,
        i,
    );
}

/// Progress does not go back, whatever happens between two checkpoints that tell it:
/// each of them that does not replan tells at least what was told before it, but for the
/// tolerance, though there be checkpoints without progress, other requests and restarts
/// in between. A checkpoint that tells less is refused.
pub proof fn law_progress_never_goes_back(tasks: Tasks, events: Seq<Event>, id: Seq<char>)
    requires
        laws::sound(tasks),
        happens(tasks, events),
        tasks.contains_key(id),
        tasks[id].progress matches Some(Amount::Billionths(_)),
        forall|i: int| 0 <= i < events.len() ==> !replans(#[trigger] events[i], id),
    ensures
        left(tasks, events).contains_key(id),
        ({
            let told = tasks[id].progress->Some_0->Billionths_0;
            let now_told = left(tasks, events)[id].progress;
            &&& now_told matches Some(Amount::Billionths(value)) && value + TOLERANCE * times_told(
                events,
                id,
            ) >= told
            &&& times_told(events, id) == 0 ==> now_told == tasks[id].progress
            &&& forall|c: Checkpoint|
                c.id == id && !c.replan && (c.progress matches Some(Amount::Billionths(value))
                    && value + TOLERANCE * (times_told(events, id) + 1) < told)
                    ==> #[trigger] rules::checkpoint_refusal(left(tasks, events), c) is Some
        }),
    decreases events.len(),
{
    if events.len() > 0 {
        let earlier = events.drop_last();
        let last = events.last();
        assert forall|i: int| 0 <= i < earlier.len() implies !replans(
            #[trigger] earlier[i],
            id,
        ) by {
            assert(earlier[i] == events[i]);
        }
        assert(events[events.len() - 1] == last);
        law_progress_never_goes_back(tasks, earlier, id);
        law_all_stays_sound(tasks, earlier);
        if last.step is Restart {
            lemma_restarts_keep_progress(left(tasks, earlier), last, id);
        } else if !tells_progress(last, id) {
            lemma_requests_keep_progress(left(tasks, earlier), last, id);
        }
    }
}

} // verus!
