//! What a tick advises: the policy's decision in the form that agents get it, with a
//! lease for the action that they propose.

use crate::decimal;
use crate::decimal::Thousandths;
use crate::duration;
use crate::duration::{Duration, MAX_NANOS, MILLION};
use crate::enforcement;
use crate::enforcement::{ActionLeaseGrant, Grant, MAX_ACTION_CHARS};
use crate::metadata::Metadata;
use crate::number;
use crate::number::{Amount, Number};
use crate::policy;
use crate::policy::{Decision, PolicyDecision, PolicyInput};
use crate::task::{Report, TaskTiming, TaskView, Timing};
use crate::text;
use vstd::arithmetic::power;
use vstd::arithmetic::power2;
use vstd::prelude::*;
use vstd::string::StringExecFns;
use vstd::utf8;

verus! {

/// The metadata entry that holds the validation reserve.
pub open spec fn validation_key() -> Seq<char> {
    "validation_reserve_percent"@
}

/// The metadata entry that holds the finalization reserve.
pub open spec fn finalization_key() -> Seq<char> {
    "finalization_reserve_percent"@
}

/// The percentage that a metadata entry holds, if it holds one.
pub open spec fn held_percent(metadata: Map<Seq<char>, Seq<char>>, key: Seq<char>) -> Option<
    Amount,
> {
    if metadata.contains_key(key) {
        decimal::parsed(metadata[key])
    } else {
        None
    }
}

/// The percentage that a metadata entry holds, if it holds one.
pub fn reserve_percent(metadata: &Metadata, key: &str) -> (r: Option<Amount>)
    ensures
        r == held_percent(metadata@, key@),
{
    match metadata.get(key) {
        Some(value) => Amount::parse(value.as_str()),
        None => None,
    }
}

/// What the policy is asked about a task. Progress and estimate that are not given are
/// those of the last checkpoint.
pub open spec fn question(view: Report, progress: Option<Amount>, eta: Option<Amount>) -> PolicyInput {
    let last = view.last_checkpoint;
    PolicyInput {
        total_secs: Amount::spec_of(view.budget),
        elapsed_secs: Amount::spec_of(view.elapsed),
        progress_percent: if progress is None && last is Some && last->Some_0.progress is Some {
            Some(last->Some_0.progress->Some_0.percent())
        } else {
            progress
        },
        estimated_remaining_work_secs: if eta is None && last is Some {
            last->Some_0.eta
        } else {
            eta
        },
        validation_reserve_percent: held_percent(view.metadata, validation_key()),
        finalization_reserve_percent: held_percent(view.metadata, finalization_key()),
    }
}

/// The policy's decision about a task.
pub fn policy(view: &TaskView, progress_percent: Option<Amount>, eta_seconds: Option<Amount>) -> (r:
    PolicyDecision)
    ensures
        r@ == question(view@, progress_percent, eta_seconds).decision(),
{
    let mut progress = progress_percent;
    let mut eta = eta_seconds;
    if let Some(checkpoint) = &view.last_checkpoint {
        if progress.is_none() {
            progress = match &checkpoint.progress {
                Some(progress) => Some(progress.to_percent()),
                None => None,
            };
        }
        if eta.is_none() {
            eta = checkpoint.estimated_remaining_work_secs;
        }
    }
    policy::evaluate_time_policy(
        PolicyInput {
            total_secs: Amount::of(view.budget_secs),
            elapsed_secs: Amount::of(view.elapsed_secs),
            progress_percent: progress,
            estimated_remaining_work_secs: eta,
            validation_reserve_percent: reserve_percent(
                &view.metadata,
                "validation_reserve_percent",
            ),
            finalization_reserve_percent: reserve_percent(
                &view.metadata,
                "finalization_reserve_percent",
            ),
        },
    )
}

/// The time to plan in: 5 percent of the total within 2 seconds and a minute, but no
/// more than 15 percent.
pub open spec fn planning_budget(total: nat) -> nat {
    duration::min_nat(
        policy::clamp(
            duration::portion_of(total, 5, 100) as int,
            2_000_000_000,
            60_000_000_000,
        ) as nat,
        duration::portion_of(total, 15, 100),
    )
}

pub fn planning_budget_secs(total: Duration) -> (r: Duration)
    ensures
        r@ == planning_budget(total@),
{
    total.portion(5, 100).longer(Duration { nanos: 2_000_000_000 }).shorter(
        Duration { nanos: 60_000_000_000 },
    ).shorter(total.portion(15, 100))
}

/// What is wrong with a proposed action or its estimate.
pub open spec fn proposal_fault(action: Option<Seq<char>>, estimate: Option<Number>) -> Option<
    Seq<char>,
> {
    if action is Some && text::trimmed(action->Some_0).len() == 0 {
        Some("current_action must not be empty"@)
    } else if action is Some && text::trimmed(action->Some_0).len() > MAX_ACTION_CHARS {
        Some("current_action must be at most 160 characters"@)
    } else if estimate matches Some(estimate) && !(estimate.finite() && !estimate.negative()
        && estimate.units() > 0) {
        Some("current_action_estimated_seconds must be finite and > 0"@)
    } else {
        None
    }
}

/// The text that an option of a string slice holds.
pub open spec fn slice_text(s: Option<&str>) -> Option<Seq<char>> {
    match s {
        Some(s) => Some(s@),
        None => None,
    }
}

pub fn validate_action_proposal(action: Option<&str>, estimated_seconds: Option<Number>) -> (r:
    Result<(), String>)
    ensures
        match r {
            Ok(()) => proposal_fault(slice_text(action), estimated_seconds) is None,
            Err(e) => proposal_fault(slice_text(action), estimated_seconds) == Some(e@),
        },
{
    if let Some(action) = action {
        let action = action.trim();
        if action.is_empty() {
            return Err("current_action must not be empty".to_owned());
        }
        if action.unicode_len() > MAX_ACTION_CHARS {
            return Err("current_action must be at most 160 characters".to_owned());
        }
    }
    if let Some(seconds) = estimated_seconds {
        if !seconds.is_positive() {
            return Err("current_action_estimated_seconds must be finite and > 0".to_owned());
        }
    }
    Ok(())
}

/// The seconds after which a lease expires: the ceiling, rounded down to a millisecond.
pub open spec fn lease_expiry(ceiling: nat) -> Number {
    Number::thousandths((ceiling as int / 1_000_000) as nat)
}

/// The lease for a proposed action that fits under the ceiling.
pub open spec fn lease(
    task: Seq<char>,
    tick: u64,
    action: Option<Seq<char>>,
    estimate: Option<Number>,
    ceiling: nat,
) -> Option<Grant> {
    if action is Some && estimate is Some && estimate->Some_0.spec_at_most(lease_expiry(ceiling)) {
        Some(
            Grant {
                id: task + ":"@ + text::decimal(tick as nat),
                task,
                action: text::trimmed(action->Some_0),
                duration_seconds: estimate->Some_0,
                expires_in_seconds: lease_expiry(ceiling),
                expiry_anchor: "tick_request_started"@,
                one_shot: true,
            },
        )
    } else {
        None
    }
}

/// The contents of an optional grant.
pub open spec fn grant_of(grant: Option<ActionLeaseGrant>) -> Option<Grant> {
    match grant {
        Some(grant) => Some(grant@),
        None => None,
    }
}

pub fn issue_action_lease(
    task_id: &str,
    tick: u64,
    action: Option<&str>,
    estimated_seconds: Option<Number>,
    lease_ceiling: Duration,
) -> (r: Option<ActionLeaseGrant>)
    ensures
        grant_of(r) == lease(
            task_id@,
            tick,
            slice_text(action),
            estimated_seconds,
            lease_ceiling@,
        ),
{
    let action = match action {
        Some(action) => action.trim(),
        None => {
            return None;
        },
    };
    let duration_seconds = match estimated_seconds {
        Some(seconds) => seconds,
        None => {
            return None;
        },
    };
    let expires_in_seconds = Number::from_thousandths(lease_ceiling.nanos / MILLION);
    if !duration_seconds.at_most(expires_in_seconds) {
        return None;
    }
    Some(
        ActionLeaseGrant {
            lease_id: task_id.to_owned().concat(":").concat(
                text::decimal_text(tick as u128).as_str(),
            ),
            task_id: task_id.to_owned(),
            action: action.to_owned(),
            duration_seconds,
            expires_in_seconds,
            expiry_anchor: "tick_request_started".to_owned(),
            one_shot: true,
        },
    )
}

/// What to do next.
pub open spec fn directive_text(plan_required: bool, decision: Decision, action_fits: Option<
    bool,
>) -> Seq<char> {
    if decision.must_stop {
        "stop"@
    } else if plan_required {
        "submit_plan"@
    } else if action_fits == Some(false) {
        "split_action"@
    } else if decision.must_finalize {
        "finalize"@
    } else if decision.must_validate {
        "validate"@
    } else if decision.must_converge {
        "converge_required_only"@
    } else {
        "execute"@
    }
}

pub fn directive(plan_required: bool, decision: &PolicyDecision, action_fits: Option<bool>) -> (r:
    &'static str)
    ensures
        r@ == directive_text(plan_required, decision@, action_fits),
{
    if decision.must_stop {
        return "stop";
    }
    if plan_required {
        return "submit_plan";
    }
    if let Some(fits) = action_fits {
        if !fits {
            return "split_action";
        }
    }
    if decision.must_finalize {
        "finalize"
    } else if decision.must_validate {
        "validate"
    } else if decision.must_converge {
        "converge_required_only"
    } else {
        "execute"
    }
}

/// The answer to a tick.
#[derive(Debug, Clone, PartialEq, Eq)]
pub struct TickOutput {
    pub remaining_seconds: Thousandths,
    pub actual_elapsed_seconds: Thousandths,
    pub accounted_elapsed_seconds: Thousandths,
    /// The same as `accounted_elapsed_seconds`.
    pub elapsed_seconds: Thousandths,
    pub overrun_seconds: Thousandths,
    pub deadline_met: bool,
    pub remaining_percent: Thousandths,
    pub mode: &'static str,
    pub schedule: &'static str,
    pub usable_work_seconds: Thousandths,
    pub reserved_seconds: Thousandths,
    pub max_new_action_seconds: Thousandths,
    pub next_check_seconds: Thousandths,
    pub must_converge: bool,
    pub must_validate: bool,
    pub must_finalize: bool,
    pub must_stop: bool,
    pub directive: &'static str,
    pub must_plan: bool,
    pub planning_seconds_remaining: Thousandths,
    pub action_lease_ceiling_seconds: Thousandths,
    pub action_fits: Option<bool>,
    pub action_lease: Option<ActionLeaseGrant>,
    pub reason: Option<&'static str>,
}

/// The contents of a [`TickOutput`], with times in thousandths of a second.
pub struct Advice {
    pub remaining: nat,
    pub actual_elapsed: nat,
    pub accounted_elapsed: nat,
    pub elapsed: nat,
    pub overrun: nat,
    pub deadline_met: bool,
    pub remaining_percent: nat,
    pub mode: Seq<char>,
    pub schedule: Seq<char>,
    pub usable_work: nat,
    pub reserved: nat,
    pub max_new_action: nat,
    pub next_check: nat,
    pub must_converge: bool,
    pub must_validate: bool,
    pub must_finalize: bool,
    pub must_stop: bool,
    pub directive: Seq<char>,
    pub must_plan: bool,
    pub planning_remaining: nat,
    pub lease_ceiling: nat,
    pub action_fits: Option<bool>,
    pub action_lease: Option<Grant>,
    pub reason: Option<Seq<char>>,
}

impl View for TickOutput {
    type V = Advice;

    open spec fn view(&self) -> Advice {
        Advice {
            remaining: self.remaining_seconds.count as nat,
            actual_elapsed: self.actual_elapsed_seconds.count as nat,
            accounted_elapsed: self.accounted_elapsed_seconds.count as nat,
            elapsed: self.elapsed_seconds.count as nat,
            overrun: self.overrun_seconds.count as nat,
            deadline_met: self.deadline_met,
            remaining_percent: self.remaining_percent.count as nat,
            mode: self.mode@,
            schedule: self.schedule@,
            usable_work: self.usable_work_seconds.count as nat,
            reserved: self.reserved_seconds.count as nat,
            max_new_action: self.max_new_action_seconds.count as nat,
            next_check: self.next_check_seconds.count as nat,
            must_converge: self.must_converge,
            must_validate: self.must_validate,
            must_finalize: self.must_finalize,
            must_stop: self.must_stop,
            directive: self.directive@,
            must_plan: self.must_plan,
            planning_remaining: self.planning_seconds_remaining.count as nat,
            lease_ceiling: self.action_lease_ceiling_seconds.count as nat,
            action_fits: self.action_fits,
            action_lease: grant_of(self.action_lease),
            reason: slice_text(self.reason),
        }
    }
}

/// The longest new action: none before a plan was submitted.
pub open spec fn effective_max_action(view: Report, decision: Decision) -> nat {
    if view.plan_submitted {
        decision.max_new_action
    } else {
        0
    }
}

/// The longest action that a lease is granted for: one that is over by the next check.
pub open spec fn ceiling(view: Report, decision: Decision) -> nat {
    duration::min_nat(effective_max_action(view, decision), decision.next_check)
}

/// Whether a proposed action fits. One that is named must get a lease.
pub open spec fn fits(
    view: Report,
    decision: Decision,
    tick: u64,
    action: Option<Seq<char>>,
    estimate: Option<Number>,
) -> Option<bool> {
    match estimate {
        Some(seconds) => Some(
            if action is Some {
                lease(view.id, tick, action, estimate, ceiling(view, decision)) is Some
            } else {
                match seconds.spec_amount() {
                    Amount::Billionths(value) => value <= effective_max_action(view, decision),
                    Amount::NegativeInfinity => true,
                    _ => false,
                }
            },
        ),
        None => None,
    }
}

/// What a tick advises.
pub open spec fn advice(
    view: Report,
    timing: Timing,
    decision: Decision,
    tick: u64,
    action: Option<Seq<char>>,
    estimate: Option<Number>,
    verbose: bool,
) -> Advice {
    let must_plan = !view.plan_submitted;
    let action_fits = fits(view, decision, tick, action, estimate);
    Advice {
        remaining: decimal::thousandths(decision.remaining),
        actual_elapsed: decimal::thousandths(timing.actual),
        accounted_elapsed: decimal::thousandths(timing.accounted),
        elapsed: decimal::thousandths(view.elapsed),
        overrun: decimal::thousandths(timing.overrun),
        deadline_met: timing.deadline_met,
        remaining_percent: decimal::thousandths(decision.remaining_percent),
        mode: if must_plan {
            "plan"@
        } else {
            decision.mode.name()
        },
        schedule: decision.schedule.name(),
        usable_work: decimal::thousandths(decision.usable_work),
        reserved: decimal::thousandths(decision.reserved),
        max_new_action: decimal::thousandths(effective_max_action(view, decision)),
        next_check: decimal::thousandths(decision.next_check),
        must_converge: decision.must_converge,
        must_validate: decision.must_validate,
        must_finalize: decision.must_finalize,
        must_stop: decision.must_stop,
        directive: directive_text(must_plan, decision, action_fits),
        must_plan,
        planning_remaining: decimal::thousandths(
            if must_plan {
                duration::less(planning_budget(view.budget), view.elapsed)
            } else {
                0
            },
        ),
        lease_ceiling: decimal::thousandths(ceiling(view, decision)),
        action_fits,
        action_lease: lease(view.id, tick, action, estimate, ceiling(view, decision)),
        reason: if verbose {
            Some(decision.reason)
        } else {
            None
        },
    }
}

pub fn tick_output(
    view: &TaskView,
    timing: &TaskTiming,
    decision: PolicyDecision,
    tick: u64,
    current_action: Option<&str>,
    action_seconds: Option<Number>,
    verbose: bool,
) -> (r: TickOutput)
    ensures
        r@ == advice(
            view@,
            timing@,
            decision@,
            tick,
            slice_text(current_action),
            action_seconds,
            verbose,
        ),
{
    let plan_required = !view.plan_submitted;
    let max_action = if plan_required {
        Duration::zero()
    } else {
        decision.max_new_action_secs
    };
    let lease_ceiling = max_action.shorter(decision.next_check_secs);
    let action_lease = issue_action_lease(
        view.task_id.as_str(),
        tick,
        current_action,
        action_seconds,
        lease_ceiling,
    );
    let action_fits = match action_seconds {
        Some(seconds) => Some(
            if current_action.is_some() {
                action_lease.is_some()
            } else {
                match seconds.amount() {
                    Amount::Billionths(value) => value < 0 || value as u128 <= max_action.nanos,
                    Amount::NegativeInfinity => true,
                    _ => false,
                }
            },
        ),
        None => None,
    };
    let planning_remaining = if plan_required {
        planning_budget_secs(view.budget_secs).saturating_sub(view.elapsed_secs)
    } else {
        Duration::zero()
    };
    TickOutput {
        remaining_seconds: decimal::round3(decision.remaining_secs.nanos),
        actual_elapsed_seconds: decimal::round3(timing.actual_elapsed_secs.nanos),
        accounted_elapsed_seconds: decimal::round3(timing.accounted_elapsed_secs.nanos),
        elapsed_seconds: decimal::round3(view.elapsed_secs.nanos),
        overrun_seconds: decimal::round3(timing.overrun_secs.nanos),
        deadline_met: timing.deadline_met,
        remaining_percent: decimal::round3(decision.remaining_percent),
        mode: if plan_required {
            "plan"
        } else {
            decision.mode.as_str()
        },
        schedule: decision.schedule.as_str(),
        usable_work_seconds: decimal::round3(decision.usable_work_secs.nanos),
        reserved_seconds: decimal::round3(decision.reserved_secs.nanos),
        max_new_action_seconds: decimal::round3(max_action.nanos),
        next_check_seconds: decimal::round3(decision.next_check_secs.nanos),
        must_converge: decision.must_converge,
        must_validate: decision.must_validate,
        must_finalize: decision.must_finalize,
        must_stop: decision.must_stop,
        directive: directive(plan_required, &decision, action_fits),
        must_plan: plan_required,
        planning_seconds_remaining: decimal::round3(planning_remaining.nanos),
        action_lease_ceiling_seconds: decimal::round3(lease_ceiling.nanos),
        action_fits,
        action_lease,
        reason: if verbose {
            Some(decision.reason)
        } else {
            None
        },
    }
}

// ---------------------------------------------------------------------------
// Laws

/// Before a plan was submitted no action is granted: no lease is issued, a proposed
/// action does not fit, and the agent is told to submit a plan or to stop.
pub proof fn law_no_action_before_a_plan(
    view: Report,
    timing: Timing,
    decision: Decision,
    tick: u64,
    action: Option<Seq<char>>,
    estimate: Option<Number>,
    verbose: bool,
)
    requires
        !view.plan_submitted,
        proposal_fault(action, estimate) is None,
    ensures
        ({
            let out = advice(view, timing, decision, tick, action, estimate, verbose);
            &&& out.action_lease is None
            &&& out.max_new_action == 0
            &&& out.must_plan
            &&& estimate is Some ==> out.action_fits == Some(false)
            &&& out.directive == "submit_plan"@ || out.directive == "stop"@
        }),
{
    number::lemma_no_thousandths();
    if estimate is Some {
        lemma_positive_amount(estimate->Some_0);
    }
}

/// A positive number is a positive amount.
proof fn lemma_positive_amount(x: Number)
    requires
        x.finite(),
        !x.negative(),
        x.units() > 0,
    ensures
        x.spec_amount() matches Amount::Billionths(value) && value > 0,
{
    if x.mantissa() == 0 {
        assert(x.units() == 0) by (nonlinear_arith)
            requires
                x.mantissa() == 0,
                x.units() == x.mantissa() * power2::pow2(
                    (x.scale() + 1074) as nat,
                ),
        ;
    }
}

/// The identifier of a lease tells its task and tick: no other tick of that task and no
/// tick of another task grants a lease of the same one.
pub proof fn law_lease_identifiers_are_unique(
    task: Seq<char>,
    tick: u64,
    other: Seq<char>,
    other_tick: u64,
    action: Option<Seq<char>>,
    other_action: Option<Seq<char>>,
    estimate: Option<Number>,
    other_estimate: Option<Number>,
    ceiling: nat,
    other_ceiling: nat,
)
    requires
        lease(task, tick, action, estimate, ceiling) is Some,
        lease(other, other_tick, other_action, other_estimate, other_ceiling) is Some,
        lease(task, tick, action, estimate, ceiling)->Some_0.id == lease(
            other,
            other_tick,
            other_action,
            other_estimate,
            other_ceiling,
        )->Some_0.id,
    ensures
        task == other,
        tick == other_tick,
{
    reveal_strlit(":");
    let a = text::decimal(tick as nat);
    let b = text::decimal(other_tick as nat);
    let id = task + ":"@ + a;
    decimal::lemma_decimal(tick as nat);
    decimal::lemma_decimal(other_tick as nat);
    assert(id == other + ":"@ + b);
    assert(id[task.len() as int] == ':');
    assert(id[other.len() as int] == ':');
    if task.len() < other.len() {
        let k = other.len() - task.len() - 1;
        assert(id[other.len() as int] == a[k]);
        assert(text::is_digit(a[k]));
    } else if other.len() < task.len() {
        let k = task.len() - other.len() - 1;
        assert(id[task.len() as int] == b[k]);
        assert(text::is_digit(b[k]));
    }
    assert(task =~= id.take(task.len() as int));
    assert(other =~= id.take(task.len() as int));
    assert(a =~= id.skip((task.len() + 1) as int));
    assert(b =~= id.skip((task.len() + 1) as int));
}

/// A lease ends by the policy's limit on new actions and by the next check: its expiry
/// is the smaller of the two, rounded down to a millisecond, and its action takes no
/// longer than that.
pub proof fn law_leases_end_by_the_next_check(
    view: Report,
    input: PolicyInput,
    tick: u64,
    action: Option<Seq<char>>,
    estimate: Option<Number>,
)
    requires
        proposal_fault(action, estimate) is None,
        lease(view.id, tick, action, estimate, ceiling(view, input.decision())) is Some,
    ensures
        ({
            let g = lease(
                view.id,
                tick,
                action,
                estimate,
                ceiling(view, input.decision()),
            )->Some_0;
            let expiry = g.expires_in_seconds.spec_duration();
            &&& expiry is Some
            &&& expiry->Some_0 <= input.max_new_action()
            &&& expiry->Some_0 <= input.next_check()
            &&& expiry->Some_0 <= input.remaining()
            &&& g.duration_seconds.spec_duration() is Some
            &&& g.duration_seconds.units() <= g.expires_in_seconds.units()
        }),
{
    let c = ceiling(view, input.decision());
    let n = (c as int / 1_000_000) as nat;
    policy::law_time_is_accounted_for(input);
    assert(input.max_new_action() <= 600_000_000_000) by {
        lemma_action_limit(input);
    }
    number::law_thousandths_are_exact_spans(n);
    number::lemma_billionths_order(estimate->Some_0, lease_expiry(c));
}

/// No new action is longer than ten minutes.
proof fn lemma_action_limit(input: PolicyInput)
    ensures
        input.max_new_action() <= 600_000_000_000,
{
    let a = duration::min_nat(input.remaining(), 30_000_000_000);
    let b = duration::min_nat(input.remaining(), 10_000_000_000);
    assert(duration::portion_of(a, 1, 2) <= a);
    assert(duration::portion_of(b, 1, 2) <= b);
}

/// A lease that a tick grants is one that the host's ledger takes: registered with the
/// proposal that it answers, it is not refused, unless the ledger knows the identifier,
/// the task was revoked, or there is no time left before the hard deadline.
pub proof fn law_granted_leases_register(
    view: Report,
    input: PolicyInput,
    tick: u64,
    action: Option<Seq<char>>,
    estimate: Option<Number>,
    l: enforcement::Ledger,
    request_started: nat,
)
    requires
        proposal_fault(action, estimate) is None,
        enforcement::valid_task(view.id),
        lease(view.id, tick, action, estimate, ceiling(view, input.decision())) is Some,
        ({
            let g = lease(
                view.id,
                tick,
                action,
                estimate,
                ceiling(view, input.decision()),
            )->Some_0;
            &&& !l.leases.contains_key(g.id)
            &&& !l.revoked.contains(g.task)
        }),
        request_started < l.hard_deadline,
        request_started + input.remaining() <= MAX_NANOS,
    ensures
        enforcement::register_refusal(
            l,
            request_started,
            view.id,
            action->Some_0,
            estimate->Some_0,
            lease(view.id, tick, action, estimate, ceiling(view, input.decision()))->Some_0,
        ) is None,
{
    let c = ceiling(view, input.decision());
    let g = lease(view.id, tick, action, estimate, c)->Some_0;
    law_leases_end_by_the_next_check(view, input, tick, action, estimate);
    text::lemma_trimmed_twice(action->Some_0);
    let mark = ":"@;
    reveal_strlit(":");
    let count = text::decimal(tick as nat);
    reveal_with_fuel(power::pow, 21);
    assert(power::pow(10, 20) == 100_000_000_000_000_000_000);
    text::lemma_decimal_length(tick as nat, 20);
    text::lemma_bytes_concat(view.id, mark);
    text::lemma_bytes_concat(view.id + mark, count);
    utf8::is_ascii_chars_encode_utf8(mark);
    assert(g.id[view.id.len() as int] == ':');
    text::lemma_trimmed_keeps(g.id, view.id.len() as int);
    let expiry = g.expires_in_seconds.spec_duration()->Some_0;
    assert(expiry > 0) by {
        let n = (c as int / 1_000_000) as nat;
        lemma_action_limit(input);
        number::law_thousandths_are_exact_spans(n);
        if n == 0 {
            number::lemma_no_thousandths();
        }
    }
}

} // verus!
