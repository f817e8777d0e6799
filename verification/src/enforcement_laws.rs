//! When the ledger takes and spends a lease, in numbers of the lease and the request.

use crate::duration::MAX_NANOS;
use crate::enforcement;
use crate::enforcement::{Grant, Lease, Ledger, Rejection};
use crate::number::Number;
use crate::text;
use vstd::prelude::*;

verus! {

/// Whether a name can be a task's: something but white space, in at most 256 bytes.
pub open spec fn task_name(id: Seq<char>) -> bool {
    text::trimmed(id).len() > 0 && text::byte_len(id) <= 256
}

/// Whether a text can be an action: from 1 to 160 characters.
pub open spec fn action_text(action: Seq<char>) -> bool {
    1 <= action.len() <= 160
}

/// Whether a number of seconds is a span that an action can take: finite, positive, and no
/// longer than the longest span.
pub proof fn law_spans_of_actions(x: Number)
    ensures
        x.spec_duration() is Some <==> x.finite() && !x.negative() && x.units() > 0
            && x.billionths() <= MAX_NANOS,
        x.spec_duration() matches Some(span) ==> span == x.billionths(),
{
}

/// A grant is usable by itself exactly when its identifier has something but white space
/// in at most 320 bytes, its task and its action are names and texts without white space
/// around them, its times are spans, the action is over by the expiry, and it is counted
/// from the start of the tick request and good for one time. Otherwise the first of these
/// that fails is named.
pub proof fn law_grants_in_order(g: Grant)
    ensures
        ({
            let fault = enforcement::grant_fault(g);
            let identified = text::trimmed(g.id).len() > 0 && text::byte_len(g.id) <= 320;
            let acted = action_text(g.action) && text::trimmed(g.action) == g.action;
            let timed = g.duration_seconds.spec_duration() is Some;
            let ending = g.expires_in_seconds.spec_duration() is Some;
            let fitting = g.duration_seconds.units() <= g.expires_in_seconds.units();
            let anchored = g.expiry_anchor == "tick_request_started"@;
            &&& fault is None <==> identified && task_name(g.task) && acted && timed && ending
                && fitting && anchored && g.one_shot
            &&& !identified ==> fault == Some("lease_id"@)
            &&& identified && !task_name(g.task) ==> fault == Some("task_id"@)
            &&& identified && task_name(g.task) && !acted ==> fault == Some("action"@)
            &&& identified && task_name(g.task) && acted && !timed ==> fault == Some(
                "duration_seconds"@,
            )
            &&& identified && task_name(g.task) && acted && timed && !ending ==> fault == Some(
                "expires_in_seconds"@,
            )
            &&& identified && task_name(g.task) && acted && timed && ending && !fitting ==> fault
                == Some("duration_seconds"@)
            &&& identified && task_name(g.task) && acted && timed && ending && fitting && !anchored
                ==> fault == Some("expiry_anchor"@)
            &&& identified && task_name(g.task) && acted && timed && ending && fitting && anchored
                && !g.one_shot ==> fault == Some("one_shot"@)
        }),
{
}

/// A grant is registered exactly when it is in order, answers the proposal of that task,
/// action and estimate, ends at a time that there is, after the request started and before
/// the hard deadline is over, has a new identifier, and its task is not revoked.
pub proof fn law_what_is_registered(
    l: Ledger,
    started: nat,
    task: Seq<char>,
    action: Seq<char>,
    eta: Number,
    g: Grant,
)
    ensures
        ({
            let refusal = enforcement::register_refusal(l, started, task, action, eta, g);
            let expires = g.expires_in_seconds.spec_duration()->Some_0;
            let in_order = enforcement::grant_fault(g) is None;
            let proposed = action_text(text::trimmed(action));
            let same_task = task_name(task) && g.task == task;
            let same_action = g.action == text::trimmed(action);
            let same_time = eta.spec_duration() is Some && g.duration_seconds == eta;
            let bound = proposed && same_task && same_action && same_time;
            let possible = started + expires <= MAX_NANOS;
            let timely = expires > 0 && l.hard_deadline > started;
            &&& refusal is None <==> in_order && bound && possible && timely
                && !l.leases.contains_key(g.id) && !l.revoked.contains(g.task)
            &&& !in_order ==> refusal == Some(
                Rejection::InvalidLease(enforcement::grant_fault(g)->Some_0),
            )
            &&& in_order && !proposed ==> refusal == Some(Rejection::BindingMismatch("action"@))
            &&& in_order && proposed && !same_task ==> refusal == Some(
                Rejection::BindingMismatch("task_id"@),
            )
            &&& in_order && proposed && same_task && !same_action ==> refusal == Some(
                Rejection::BindingMismatch("action"@),
            )
            &&& in_order && proposed && same_task && same_action && !same_time ==> refusal == Some(
                Rejection::BindingMismatch("duration_seconds"@),
            )
            &&& in_order && bound && !possible ==> refusal == Some(
                Rejection::InvalidLease("expires_in_seconds"@),
            )
            &&& in_order && bound && possible && !timely ==> refusal == Some(Rejection::Expired)
            &&& in_order && bound && possible && timely && l.leases.contains_key(g.id) ==> refusal
                == Some(Rejection::DuplicateLease)
            &&& in_order && bound && possible && timely && !l.leases.contains_key(g.id)
                && l.revoked.contains(g.task) ==> refusal == Some(Rejection::Revoked)
        }),
{
}

/// A registered lease holds what was granted: its task, action and estimate, the span of
/// that, and its end, which is its own expiry or the hard deadline, whichever comes first.
/// It is neither spent nor superseded. Of the other leases those of the same task that are
/// not spent are superseded, and nothing else changes.
pub proof fn law_registered_leases(l: Ledger, started: nat, g: Grant, other: Seq<char>)
    requires
        g.duration_seconds.spec_duration() is Some,
        g.expires_in_seconds.spec_duration() is Some,
        other != g.id,
    ensures
        ({
            let after = enforcement::registered(l, started, g);
            let lease = after.leases[g.id];
            let own = started + g.expires_in_seconds.billionths();
            &&& after.hard_deadline == l.hard_deadline
            &&& after.revoked == l.revoked
            &&& after.leases.contains_key(g.id)
            &&& lease.task == g.task
            &&& lease.action == g.action
            &&& lease.duration_seconds == g.duration_seconds
            &&& lease.duration == g.duration_seconds.billionths()
            &&& lease.expires_at <= own
            &&& lease.expires_at <= l.hard_deadline
            &&& lease.expires_at == own || lease.expires_at == l.hard_deadline
            &&& !lease.consumed
            &&& !lease.superseded
            &&& after.leases.contains_key(other) <==> l.leases.contains_key(other)
            &&& l.leases.contains_key(other) ==> {
                let before = l.leases[other];
                &&& before.task == g.task && !before.consumed ==> after.leases[other].superseded
                &&& !(before.task == g.task && !before.consumed) ==> after.leases[other] == before
                &&& after.leases[other] == (Lease {
                    superseded: after.leases[other].superseded,
                    ..before
                })
            }
        }),
{
}

/// A lease is spent exactly when it is known, neither superseded nor spent nor revoked, is
/// for that task, action and estimate, has not ended, and its whole action ends by then.
pub proof fn law_what_is_spent(
    l: Ledger,
    id: Seq<char>,
    task: Seq<char>,
    action: Seq<char>,
    eta: Number,
    now: nat,
)
    ensures
        ({
            let refusal = enforcement::consume_refusal(l, id, task, action, eta, now);
            let lease = l.leases[id];
            let acted = action_text(text::trimmed(action));
            let timed = eta.spec_duration() is Some;
            let known = acted && timed && l.leases.contains_key(id);
            let good = known && !lease.superseded && !lease.consumed && !l.revoked.contains(
                lease.task,
            );
            let same_task = lease.task == task;
            let same_action = lease.action == text::trimmed(action);
            let same_time = lease.duration_seconds == eta;
            let bound = good && same_task && same_action && same_time;
            let running = now < lease.expires_at;
            let fits = now + lease.duration <= lease.expires_at && now + lease.duration
                <= MAX_NANOS;
            &&& refusal is None <==> bound && running && fits
            &&& !acted ==> refusal == Some(Rejection::BindingMismatch("action"@))
            &&& acted && !timed ==> refusal == Some(
                Rejection::BindingMismatch("duration_seconds"@),
            )
            &&& acted && timed && !l.leases.contains_key(id) ==> refusal == Some(
                Rejection::UnknownLease,
            )
            &&& known && lease.superseded ==> refusal == Some(Rejection::Superseded)
            &&& known && !lease.superseded && lease.consumed ==> refusal == Some(
                Rejection::AlreadyConsumed,
            )
            &&& known && !lease.superseded && !lease.consumed && !good ==> refusal == Some(
                Rejection::Revoked,
            )
            &&& good && !same_task ==> refusal == Some(Rejection::BindingMismatch("task_id"@))
            &&& good && same_task && !same_action ==> refusal == Some(
                Rejection::BindingMismatch("action"@),
            )
            &&& good && same_task && same_action && !same_time ==> refusal == Some(
                Rejection::BindingMismatch("duration_seconds"@),
            )
            &&& bound && !running ==> refusal == Some(Rejection::Expired)
            &&& bound && running && !fits ==> refusal == Some(Rejection::WouldExceedDeadline)
        }),
{
}

/// Spending a lease marks it, and changes nothing else; revoking a task marks the task, and
/// changes nothing else.
pub proof fn law_what_spending_and_revoking_change(
    l: Ledger,
    id: Seq<char>,
    task: Seq<char>,
    other: Seq<char>,
)
    requires
        l.leases.contains_key(id),
        other != id,
    ensures
        ({
            let after = enforcement::consumed(l, id);
            &&& after.leases[id] == (Lease { consumed: true, ..l.leases[id] })
            &&& after.leases.contains_key(other) <==> l.leases.contains_key(other)
            &&& after.leases.contains_key(id)
            &&& after.leases[other] == l.leases[other]
            &&& after.hard_deadline == l.hard_deadline
            &&& after.revoked == l.revoked
        }),
        enforcement::revoked(l, task).leases == l.leases,
        enforcement::revoked(l, task).hard_deadline == l.hard_deadline,
        enforcement::revoked(l, task).revoked.contains(other) <==> l.revoked.contains(other)
            || other == task,
{
}

/// What is a task's name and an action, for the ledger.
pub proof fn law_names_and_actions(id: Seq<char>, action: Seq<char>)
    ensures
        enforcement::valid_task(id) <==> text::trimmed(id).len() > 0 && text::byte_len(id) <= 256,
        enforcement::valid_action(action) <==> 1 <= action.len() <= 160,
{
}

/// Each rejection is told in one line.
pub proof fn law_rejections_are_told(field: Seq<char>)
    ensures
        Rejection::InvalidLease(field).line() == "invalid action lease field: "@ + field,
        Rejection::DuplicateLease.line() == "action lease identifier already registered"@,
        Rejection::UnknownLease.line() == "action lease is not registered"@,
        Rejection::Superseded.line() == "action lease was superseded"@,
        Rejection::AlreadyConsumed.line() == "action lease was already consumed"@,
        Rejection::Revoked.line() == "action lease authority was revoked"@,
        Rejection::BindingMismatch(field).line() == "action lease binding mismatch: "@ + field,
        Rejection::Expired.line() == "action lease expired"@,
        Rejection::WouldExceedDeadline.line() == "action would exceed its lease deadline"@,
        Rejection::Unavailable.line() == "action lease ledger is unavailable"@,
{
}

} // verus!
