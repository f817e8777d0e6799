//! Host-side enforcement of the action leases that a tick grants.
//!
//! The ledger is independent of the tasks. A host registers the lease that a tick
//! returned and consumes it immediately before it executes the bound action. Hosts
//! that share a ledger between threads put it behind a lock.

use crate::duration;
use crate::duration::{Duration, MAX_NANOS};
use crate::names::NameSet;
use crate::number::Number;
use crate::text;
use vstd::prelude::*;
use vstd::string::StringExecFns;

verus! {

/// The longest action, in characters.
pub const MAX_ACTION_CHARS: usize = 160;

/// The longest task identifier, in bytes.
pub const MAX_TASK_ID_BYTES: usize = 256;

/// The longest lease identifier, in bytes.
pub const MAX_LEASE_ID_BYTES: usize = 320;

/// An action lease as a tick returns it.
#[derive(Debug, Clone, PartialEq, Eq)]
pub struct ActionLeaseGrant {
    pub lease_id: String,
    pub task_id: String,
    pub action: String,
    pub duration_seconds: Number,
    pub expires_in_seconds: Number,
    pub expiry_anchor: String,
    pub one_shot: bool,
}

/// The contents of an [`ActionLeaseGrant`].
pub struct Grant {
    pub id: Seq<char>,
    pub task: Seq<char>,
    pub action: Seq<char>,
    pub duration_seconds: Number,
    pub expires_in_seconds: Number,
    pub expiry_anchor: Seq<char>,
    pub one_shot: bool,
}

impl View for ActionLeaseGrant {
    type V = Grant;

    open spec fn view(&self) -> Grant {
        Grant {
            id: self.lease_id@,
            task: self.task_id@,
            action: self.action@,
            duration_seconds: self.duration_seconds,
            expires_in_seconds: self.expires_in_seconds,
            expiry_anchor: self.expiry_anchor@,
            one_shot: self.one_shot,
        }
    }
}

/// Deterministic rejection reasons produced by [`ActionLeaseLedger`].
#[derive(Debug, Clone, Copy, PartialEq, Eq)]
pub enum ActionLeaseError {
    InvalidLease(&'static str),
    DuplicateLease,
    UnknownLease,
    Superseded,
    AlreadyConsumed,
    Revoked,
    BindingMismatch(&'static str),
    Expired,
    WouldExceedDeadline,
    /// The ledger cannot be reached, for a host whose lock around it is poisoned.
    Unavailable,
}

/// What an [`ActionLeaseError`] says.
pub enum Rejection {
    InvalidLease(Seq<char>),
    DuplicateLease,
    UnknownLease,
    Superseded,
    AlreadyConsumed,
    Revoked,
    BindingMismatch(Seq<char>),
    Expired,
    WouldExceedDeadline,
    Unavailable,
}

impl View for ActionLeaseError {
    type V = Rejection;

    open spec fn view(&self) -> Rejection {
        match self {
            ActionLeaseError::InvalidLease(field) => Rejection::InvalidLease(field@),
            ActionLeaseError::DuplicateLease => Rejection::DuplicateLease,
            ActionLeaseError::UnknownLease => Rejection::UnknownLease,
            ActionLeaseError::Superseded => Rejection::Superseded,
            ActionLeaseError::AlreadyConsumed => Rejection::AlreadyConsumed,
            ActionLeaseError::Revoked => Rejection::Revoked,
            ActionLeaseError::BindingMismatch(field) => Rejection::BindingMismatch(field@),
            ActionLeaseError::Expired => Rejection::Expired,
            ActionLeaseError::WouldExceedDeadline => Rejection::WouldExceedDeadline,
            ActionLeaseError::Unavailable => Rejection::Unavailable,
        }
    }
}

impl Rejection {
    /// The rejection as one line of text.
    pub open spec fn line(self) -> Seq<char> {
        match self {
            Rejection::InvalidLease(field) => "invalid action lease field: "@ + field,
            Rejection::DuplicateLease => "action lease identifier already registered"@,
            Rejection::UnknownLease => "action lease is not registered"@,
            Rejection::Superseded => "action lease was superseded"@,
            Rejection::AlreadyConsumed => "action lease was already consumed"@,
            Rejection::Revoked => "action lease authority was revoked"@,
            Rejection::BindingMismatch(field) => "action lease binding mismatch: "@ + field,
            Rejection::Expired => "action lease expired"@,
            Rejection::WouldExceedDeadline => "action would exceed its lease deadline"@,
            Rejection::Unavailable => "action lease ledger is unavailable"@,
        }
    }
}

impl ActionLeaseError {
    /// The error as one line of text.
    pub fn message(&self) -> (r: String)
        ensures
            r@ == self@.line(),
    {
        match self {
            ActionLeaseError::InvalidLease(field) => "invalid action lease field: ".to_owned().concat(
                field,
            ),
            ActionLeaseError::DuplicateLease => "action lease identifier already registered".to_owned(),
            ActionLeaseError::UnknownLease => "action lease is not registered".to_owned(),
            ActionLeaseError::Superseded => "action lease was superseded".to_owned(),
            ActionLeaseError::AlreadyConsumed => "action lease was already consumed".to_owned(),
            ActionLeaseError::Revoked => "action lease authority was revoked".to_owned(),
            ActionLeaseError::BindingMismatch(field) => "action lease binding mismatch: ".to_owned().concat(
                field,
            ),
            ActionLeaseError::Expired => "action lease expired".to_owned(),
            ActionLeaseError::WouldExceedDeadline => "action would exceed its lease deadline".to_owned(),
            ActionLeaseError::Unavailable => "action lease ledger is unavailable".to_owned(),
        }
    }
}

// ---------------------------------------------------------------------------
// The rules

/// A registered lease.
pub struct Lease {
    pub task: Seq<char>,
    pub action: Seq<char>,
    pub duration_seconds: Number,
    pub duration: nat,
    pub expires_at: nat,
    pub consumed: bool,
    pub superseded: bool,
}

/// The contents of an [`ActionLeaseLedger`].
pub struct Ledger {
    pub hard_deadline: nat,
    /// Every lease ever registered, by identifier.
    pub leases: Map<Seq<char>, Lease>,
    /// The tasks whose authority was revoked.
    pub revoked: Set<Seq<char>>,
}

pub open spec fn valid_action(action: Seq<char>) -> bool {
    0 < action.len() <= MAX_ACTION_CHARS
}

pub open spec fn valid_task(id: Seq<char>) -> bool {
    text::trimmed(id).len() > 0 && text::byte_len(id) <= MAX_TASK_ID_BYTES
}

/// The first field of a grant that makes it unusable.
pub open spec fn grant_fault(g: Grant) -> Option<Seq<char>> {
    if text::trimmed(g.id).len() == 0 || text::byte_len(g.id) > MAX_LEASE_ID_BYTES {
        Some("lease_id"@)
    } else if !valid_task(g.task) {
        Some("task_id"@)
    } else if !valid_action(g.action) || text::trimmed(g.action) != g.action {
        Some("action"@)
    } else if g.duration_seconds.spec_duration() is None {
        Some("duration_seconds"@)
    } else if g.expires_in_seconds.spec_duration() is None {
        Some("expires_in_seconds"@)
    } else if g.duration_seconds.units() > g.expires_in_seconds.units() {
        Some("duration_seconds"@)
    } else if g.expiry_anchor != "tick_request_started"@ {
        Some("expiry_anchor"@)
    } else if !g.one_shot {
        Some("one_shot"@)
    } else {
        None
    }
}

/// How a grant differs from the proposal that it answers.
pub open spec fn binding_fault(g: Grant, task: Seq<char>, action: Seq<char>, eta: Number) -> Option<
    Seq<char>,
> {
    if !valid_action(text::trimmed(action)) {
        Some("action"@)
    } else if !valid_task(task) || g.task != task {
        Some("task_id"@)
    } else if g.action != text::trimmed(action) {
        Some("action"@)
    } else if eta.spec_duration() is None || g.duration_seconds != eta {
        Some("duration_seconds"@)
    } else {
        None
    }
}

/// When a grant expires by itself, counted from the start of the request.
pub open spec fn relative_expiry(g: Grant, request_started: nat) -> nat {
    request_started + g.expires_in_seconds.spec_duration()->Some_0
}

/// When a grant expires: by itself or at the hard deadline, whichever comes first.
pub open spec fn expiry(l: Ledger, g: Grant, request_started: nat) -> nat {
    duration::min_nat(relative_expiry(g, request_started), l.hard_deadline)
}

pub open spec fn register_refusal(
    l: Ledger,
    request_started: nat,
    task: Seq<char>,
    action: Seq<char>,
    eta: Number,
    g: Grant,
) -> Option<Rejection> {
    if grant_fault(g) is Some {
        Some(Rejection::InvalidLease(grant_fault(g)->Some_0))
    } else if binding_fault(g, task, action, eta) is Some {
        Some(Rejection::BindingMismatch(binding_fault(g, task, action, eta)->Some_0))
    } else if relative_expiry(g, request_started) > MAX_NANOS {
        Some(Rejection::InvalidLease("expires_in_seconds"@))
    } else if expiry(l, g, request_started) <= request_started {
        Some(Rejection::Expired)
    } else if l.leases.contains_key(g.id) {
        Some(Rejection::DuplicateLease)
    } else if l.revoked.contains(g.task) {
        Some(Rejection::Revoked)
    } else {
        None
    }
}

/// The lease that a grant becomes.
pub open spec fn fresh(l: Ledger, request_started: nat, g: Grant) -> Lease {
    Lease {
        task: g.task,
        action: g.action,
        duration_seconds: g.duration_seconds,
        duration: g.duration_seconds.spec_duration()->Some_0,
        expires_at: expiry(l, g, request_started),
        consumed: false,
        superseded: false,
    }
}

/// The lease after a newer one of `task` was registered.
pub open spec fn outdone(lease: Lease, task: Seq<char>) -> Lease {
    Lease { superseded: lease.superseded || (lease.task == task && !lease.consumed), ..lease }
}

/// The ledger after a grant was registered: the older leases of its task that were
/// not consumed are superseded.
pub open spec fn registered(l: Ledger, request_started: nat, g: Grant) -> Ledger {
    Ledger {
        leases: l.leases.map_values(|lease: Lease| outdone(lease, g.task)).insert(
            g.id,
            fresh(l, request_started, g),
        ),
        ..l
    }
}

pub open spec fn consume_refusal(
    l: Ledger,
    id: Seq<char>,
    task: Seq<char>,
    action: Seq<char>,
    eta: Number,
    now: nat,
) -> Option<Rejection> {
    if !valid_action(text::trimmed(action)) {
        Some(Rejection::BindingMismatch("action"@))
    } else if eta.spec_duration() is None {
        Some(Rejection::BindingMismatch("duration_seconds"@))
    } else if !l.leases.contains_key(id) {
        Some(Rejection::UnknownLease)
    } else {
        let lease = l.leases[id];
        if lease.superseded {
            Some(Rejection::Superseded)
        } else if lease.consumed {
            Some(Rejection::AlreadyConsumed)
        } else if l.revoked.contains(lease.task) {
            Some(Rejection::Revoked)
        } else if lease.task != task {
            Some(Rejection::BindingMismatch("task_id"@))
        } else if lease.action != text::trimmed(action) {
            Some(Rejection::BindingMismatch("action"@))
        } else if lease.duration_seconds != eta {
            Some(Rejection::BindingMismatch("duration_seconds"@))
        } else if now >= lease.expires_at {
            Some(Rejection::Expired)
        } else if now + lease.duration > lease.expires_at || now + lease.duration > MAX_NANOS {
            Some(Rejection::WouldExceedDeadline)
        } else {
            None
        }
    }
}

pub open spec fn consumed(l: Ledger, id: Seq<char>) -> Ledger {
    Ledger { leases: l.leases.insert(id, Lease { consumed: true, ..l.leases[id] }), ..l }
}

pub open spec fn revoked(l: Ledger, task: Seq<char>) -> Ledger {
    Ledger { revoked: l.revoked.insert(task), ..l }
}

// ---------------------------------------------------------------------------
// The ledger

#[derive(Debug)]
struct LeaseRecord {
    lease_id: String,
    task_id: String,
    action: String,
    duration_seconds: Number,
    duration: Duration,
    expires_at: Duration,
    consumed: bool,
    superseded: bool,
}

impl View for LeaseRecord {
    type V = Lease;

    closed spec fn view(&self) -> Lease {
        Lease {
            task: self.task_id@,
            action: self.action@,
            duration_seconds: self.duration_seconds,
            duration: self.duration@,
            expires_at: self.expires_at@,
            consumed: self.consumed,
            superseded: self.superseded,
        }
    }
}

spec fn lease_ids(list: Seq<LeaseRecord>) -> Seq<Seq<char>> {
    Seq::new(list.len(), |i: int| list[i].lease_id@)
}

/// The records by identifier.
spec fn by_id(list: Seq<LeaseRecord>) -> Map<Seq<char>, Lease> {
    Map::new(
        |id: Seq<char>| lease_ids(list).contains(id),
        |id: Seq<char>| list[lease_ids(list).index_of(id)]@,
    )
}

proof fn lemma_record(list: Seq<LeaseRecord>, i: int)
    requires
        lease_ids(list).no_duplicates(),
        0 <= i < list.len(),
    ensures
        by_id(list).contains_key(list[i].lease_id@),
        by_id(list)[list[i].lease_id@] == list[i]@,
{
    let ids = lease_ids(list);
    assert(ids[i] == list[i].lease_id@);
    assert(ids.contains(ids[i]));
    let k = ids.index_of(ids[i]);
    assert(ids[k] == ids[i]);
}

proof fn lemma_record_of(list: Seq<LeaseRecord>, id: Seq<char>) -> (i: int)
    requires
        lease_ids(list).no_duplicates(),
        by_id(list).contains_key(id),
    ensures
        0 <= i < list.len(),
        list[i].lease_id@ == id,
        by_id(list)[id] == list[i]@,
{
    let ids = lease_ids(list);
    let i = ids.index_of(id);
    assert(ids[i] == id);
    i
}

/// Monotonic ledger for one-shot host action authority.
#[derive(Debug)]
pub struct ActionLeaseLedger {
    hard_deadline: Duration,
    leases: Vec<LeaseRecord>,
    revoked: NameSet,
}

impl View for ActionLeaseLedger {
    type V = Ledger;

    closed spec fn view(&self) -> Ledger {
        Ledger {
            hard_deadline: self.hard_deadline@,
            leases: by_id(self.leases@),
            revoked: self.revoked@,
        }
    }
}

impl ActionLeaseLedger {
    pub closed spec fn wf(&self) -> bool {
        &&& lease_ids(self.leases@).no_duplicates()
        &&& self.revoked.wf()
    }

    /// Creates a ledger clamped to the host's absolute monotonic deadline.
    pub fn new(hard_deadline: Duration) -> (r: Self)
        ensures
            r.wf(),
            r@ == (Ledger {
                hard_deadline: hard_deadline@,
                leases: Map::<Seq<char>, Lease>::empty(),
                revoked: Set::<Seq<char>>::empty(),
            }),
    {
        let r = ActionLeaseLedger {
            hard_deadline,
            leases: Vec::new(),
            revoked: NameSet::new(),
        };
        assert(by_id(r.leases@) =~= Map::<Seq<char>, Lease>::empty());
        r
    }

    fn find(&self, id: &str) -> (r: Option<usize>)
        requires
            self.wf(),
        ensures
            match r {
                Some(i) => {
                    &&& i < self.leases@.len()
                    &&& self.leases@[i as int].lease_id@ == id@
                    &&& self@.leases.contains_key(id@)
                    &&& self@.leases[id@] == self.leases@[i as int]@
                },
                None => !self@.leases.contains_key(id@),
            },
    {
        let mut i: usize = 0;
        while i < self.leases.len()
            invariant
                self.wf(),
                i <= self.leases.len(),
                forall|k: int| 0 <= k < i ==> lease_ids(self.leases@)[k] != id@,
            decreases self.leases.len() - i,
        {
            if text::same_text(self.leases[i].lease_id.as_str(), id) {
                proof {
                    lemma_record(self.leases@, i as int);
                }
                return Some(i);
            }
            i = i + 1;
        }
        None
    }

    /// Marks the leases of a task that were not consumed as superseded.
    fn supersede(&mut self, task: &str)
        requires
            old(self).wf(),
        ensures
            final(self).wf(),
            final(self)@ == (Ledger {
                leases: old(self)@.leases.map_values(|lease: Lease| outdone(lease, task@)),
                ..old(self)@
            }),
    {
        let ghost before = self.leases@;
        let mut i: usize = 0;
        while i < self.leases.len()
            invariant
                self.leases@.len() == before.len(),
                i <= self.leases@.len(),
                self.hard_deadline == old(self).hard_deadline,
                self.revoked == old(self).revoked,
                lease_ids(self.leases@) == lease_ids(before),
                forall|k: int|
                    0 <= k < i ==> (#[trigger] self.leases@[k])@ == outdone(before[k]@, task@),
                forall|k: int| i <= k < before.len() ==> #[trigger] self.leases@[k] == before[k],
            decreases self.leases@.len() - i,
        {
            if !self.leases[i].consumed && text::same_text(self.leases[i].task_id.as_str(), task) {
                self.leases[i].superseded = true;
            }
            assert(lease_ids(self.leases@) =~= lease_ids(before));
            i = i + 1;
        }
        proof {
            let expected = by_id(before).map_values(|lease: Lease| outdone(lease, task@));
            assert forall|id: Seq<char>| expected.contains_key(id) implies by_id(self.leases@)[id]
                == expected[id] by {
                let k = lemma_record_of(before, id);
                assert(lease_ids(self.leases@)[k] == lease_ids(before)[k]);
                lemma_record(self.leases@, k);
            }
            assert(by_id(self.leases@) =~= expected);
        }
    }

    /// Registers a grant against the request that produced it.
    pub fn register(
        &mut self,
        request_started: Duration,
        expected_task_id: &str,
        expected_action: &str,
        expected_eta_seconds: Number,
        grant: &ActionLeaseGrant,
    ) -> (r: Result<(), ActionLeaseError>)
        requires
            old(self).wf(),
        ensures
            final(self).wf(),
            ({
                let refusal = register_refusal(
                    old(self)@,
                    request_started@,
                    expected_task_id@,
                    expected_action@,
                    expected_eta_seconds,
                    grant@,
                );
                match r {
                    Ok(()) => {
                        &&& refusal is None
                        &&& final(self)@ == registered(old(self)@, request_started@, grant@)
                    },
                    Err(e) => refusal == Some(e@) && final(self)@ == old(self)@,
                }
            }),
    {
        let (duration, expires_in) = validate_grant(grant)?;
        let expected_action = normalize_action(expected_action)?;
        if !valid_task_id(expected_task_id) || !text::same_text(
            grant.task_id.as_str(),
            expected_task_id,
        ) {
            return Err(ActionLeaseError::BindingMismatch("task_id"));
        }
        if !text::same_text(grant.action.as_str(), expected_action) {
            return Err(ActionLeaseError::BindingMismatch("action"));
        }
        if expected_eta_seconds.checked_duration().is_none() || grant.duration_seconds.bits
            != expected_eta_seconds.bits {
            return Err(ActionLeaseError::BindingMismatch("duration_seconds"));
        }
        let relative_expiry = match request_started.checked_add(expires_in) {
            Some(relative_expiry) => relative_expiry,
            None => {
                return Err(ActionLeaseError::InvalidLease("expires_in_seconds"));
            },
        };
        let expires_at = relative_expiry.shorter(self.hard_deadline);
        if expires_at.nanos <= request_started.nanos {
            return Err(ActionLeaseError::Expired);
        }
        if self.find(grant.lease_id.as_str()).is_some() {
            return Err(ActionLeaseError::DuplicateLease);
        }
        if self.revoked.contains(grant.task_id.as_str()) {
            return Err(ActionLeaseError::Revoked);
        }
        self.supersede(grant.task_id.as_str());
        let ghost before = self.leases@;
        let record = LeaseRecord {
            lease_id: grant.lease_id.clone(),
            task_id: grant.task_id.clone(),
            action: grant.action.clone(),
            duration_seconds: grant.duration_seconds,
            duration,
            expires_at,
            consumed: false,
            superseded: false,
        };
        self.leases.push(record);
        proof {
            lemma_push(before, record);
        }
        Ok(())
    }

    /// Consumes a lease immediately before its action is executed.
    pub fn consume(
        &mut self,
        lease_id: &str,
        task_id: &str,
        action: &str,
        eta_seconds: Number,
        now: Duration,
    ) -> (r: Result<(), ActionLeaseError>)
        requires
            old(self).wf(),
        ensures
            final(self).wf(),
            ({
                let refusal = consume_refusal(
                    old(self)@,
                    lease_id@,
                    task_id@,
                    action@,
                    eta_seconds,
                    now@,
                );
                match r {
                    Ok(()) => refusal is None && final(self)@ == consumed(old(self)@, lease_id@),
                    Err(e) => refusal == Some(e@) && final(self)@ == old(self)@,
                }
            }),
    {
        let action = normalize_action(action)?;
        if eta_seconds.checked_duration().is_none() {
            return Err(ActionLeaseError::BindingMismatch("duration_seconds"));
        }
        let i: usize = match self.find(lease_id) {
            Some(i) => i,
            None => {
                return Err(ActionLeaseError::UnknownLease);
            },
        };
        let lease = &self.leases[i];
        if lease.superseded {
            return Err(ActionLeaseError::Superseded);
        }
        if lease.consumed {
            return Err(ActionLeaseError::AlreadyConsumed);
        }
        if self.revoked.contains(lease.task_id.as_str()) {
            return Err(ActionLeaseError::Revoked);
        }
        if !text::same_text(lease.task_id.as_str(), task_id) {
            return Err(ActionLeaseError::BindingMismatch("task_id"));
        }
        if !text::same_text(lease.action.as_str(), action) {
            return Err(ActionLeaseError::BindingMismatch("action"));
        }
        if lease.duration_seconds.bits != eta_seconds.bits {
            return Err(ActionLeaseError::BindingMismatch("duration_seconds"));
        }
        if now.nanos >= lease.expires_at.nanos {
            return Err(ActionLeaseError::Expired);
        }
        match now.checked_add(lease.duration) {
            Some(finish) => if finish.nanos > lease.expires_at.nanos {
                return Err(ActionLeaseError::WouldExceedDeadline);
            },
            None => {
                return Err(ActionLeaseError::WouldExceedDeadline);
            },
        }
        let ghost before = self.leases@;
        self.leases[i].consumed = true;
        proof {
            let after = self.leases@;
            assert(lease_ids(after) =~= lease_ids(before));
            let expected = consumed(old(self)@, lease_id@).leases;
            lemma_record(before, i as int);
            assert forall|id: Seq<char>| expected.contains_key(id) implies by_id(after)[id]
                == expected[id] by {
                let k = lemma_record_of(before, id);
                assert(lease_ids(after)[k] == lease_ids(before)[k]);
                assert(lease_ids(after)[i as int] == lease_ids(before)[i as int]);
                lemma_record(after, k);
            }
            assert(by_id(after) =~= expected);
        }
        Ok(())
    }

    /// Revokes all authority of a task: none of its leases can be consumed any more,
    /// and no response that arrives later registers a new one. Revoking again changes
    /// nothing.
    pub fn revoke_task(&mut self, task_id: &str) -> (r: Result<(), ActionLeaseError>)
        requires
            old(self).wf(),
        ensures
            final(self).wf(),
            match r {
                Ok(()) => valid_task(task_id@) && final(self)@ == revoked(old(self)@, task_id@),
                Err(e) => {
                    &&& !valid_task(task_id@)
                    &&& e@ == Rejection::BindingMismatch("task_id"@)
                    &&& final(self)@ == old(self)@
                },
            },
    {
        if !valid_task_id(task_id) {
            return Err(ActionLeaseError::BindingMismatch("task_id"));
        }
        self.revoked.insert(task_id);
        Ok(())
    }
}

/// One more record adds one more lease.
proof fn lemma_push(list: Seq<LeaseRecord>, record: LeaseRecord)
    requires
        lease_ids(list).no_duplicates(),
        !by_id(list).contains_key(record.lease_id@),
    ensures
        lease_ids(list.push(record)).no_duplicates(),
        by_id(list.push(record)) == by_id(list).insert(record.lease_id@, record@),
{
    let longer = list.push(record);
    let ids = lease_ids(list);
    assert(lease_ids(longer) =~= ids.push(record.lease_id@));
    assert forall|i: int, j: int|
        0 <= i < longer.len() && 0 <= j < longer.len() && i != j implies lease_ids(longer)[i]
        != lease_ids(longer)[j] by {
        if i == list.len() {
            assert(ids.contains(ids[j]));
        }
        if j == list.len() {
            assert(ids.contains(ids[i]));
        }
    }
    let expected = by_id(list).insert(record.lease_id@, record@);
    assert(longer[list.len() as int] == record);
    lemma_record(longer, list.len() as int);
    assert forall|id: Seq<char>|
        #![trigger by_id(longer).contains_key(id)]
        #![trigger expected.contains_key(id)]
        by_id(longer).contains_key(id) == expected.contains_key(id) && (expected.contains_key(id)
            ==> by_id(longer)[id] == expected[id]) by {
        if expected.contains_key(id) && id != record.lease_id@ {
            let k = lemma_record_of(list, id);
            assert(longer[k] == list[k]);
            lemma_record(longer, k);
        }
        if by_id(longer).contains_key(id) {
            let k = lemma_record_of(longer, id);
            if k < list.len() {
                assert(longer[k] == list[k]);
                lemma_record(list, k);
            }
        }
    }
    assert(by_id(longer) =~= expected);
}

/// Checks a grant by itself, and gives its duration and the time until it expires.
fn validate_grant(grant: &ActionLeaseGrant) -> (r: Result<(Duration, Duration), ActionLeaseError>)
    ensures
        match r {
            Ok((duration, expires_in)) => {
                &&& grant_fault(grant@) is None
                &&& grant@.duration_seconds.spec_duration() == Some(duration@)
                &&& grant@.expires_in_seconds.spec_duration() == Some(expires_in@)
            },
            Err(e) => grant_fault(grant@) matches Some(field) && e@ == Rejection::InvalidLease(
                field,
            ),
        },
{
    if grant.lease_id.trim().is_empty() || text::bytes_in(grant.lease_id.as_str())
        > MAX_LEASE_ID_BYTES {
        return Err(ActionLeaseError::InvalidLease("lease_id"));
    }
    if !valid_task_id(grant.task_id.as_str()) {
        return Err(ActionLeaseError::InvalidLease("task_id"));
    }
    let normalized_action = grant.action.trim();
    if normalized_action.is_empty() || normalized_action.unicode_len() > MAX_ACTION_CHARS
        || !text::same_text(grant.action.as_str(), normalized_action) {
        return Err(ActionLeaseError::InvalidLease("action"));
    }
    let duration = match grant.duration_seconds.checked_duration() {
        Some(duration) => duration,
        None => {
            return Err(ActionLeaseError::InvalidLease("duration_seconds"));
        },
    };
    let expires_in = match grant.expires_in_seconds.checked_duration() {
        Some(expires_in) => expires_in,
        None => {
            return Err(ActionLeaseError::InvalidLease("expires_in_seconds"));
        },
    };
    if grant.duration_seconds.exceeds(grant.expires_in_seconds) {
        return Err(ActionLeaseError::InvalidLease("duration_seconds"));
    }
    if !text::same_text(grant.expiry_anchor.as_str(), "tick_request_started") {
        return Err(ActionLeaseError::InvalidLease("expiry_anchor"));
    }
    if !grant.one_shot {
        return Err(ActionLeaseError::InvalidLease("one_shot"));
    }
    Ok((duration, expires_in))
}

fn normalize_action(action: &str) -> (r: Result<&str, ActionLeaseError>)
    ensures
        match r {
            Ok(normalized) => normalized@ == text::trimmed(action@) && valid_action(normalized@),
            Err(e) => !valid_action(text::trimmed(action@)) && e@ == Rejection::BindingMismatch(
                "action"@,
            ),
        },
{
    let action = action.trim();
    if action.is_empty() || action.unicode_len() > MAX_ACTION_CHARS {
        return Err(ActionLeaseError::BindingMismatch("action"));
    }
    Ok(action)
}

fn valid_task_id(task_id: &str) -> (r: bool)
    ensures
        r == valid_task(task_id@),
{
    !task_id.trim().is_empty() && text::bytes_in(task_id) <= MAX_TASK_ID_BYTES
}

// ---------------------------------------------------------------------------
// Laws

/// A lease that could still be consumed.
pub open spec fn live(l: Ledger, id: Seq<char>) -> bool {
    l.leases.contains_key(id) && !l.leases[id].consumed && !l.leases[id].superseded
}

/// No lease outlasts the hard deadline, and no task has two live leases.
pub open spec fn sound(l: Ledger) -> bool {
    &&& forall|id: Seq<char>|
        l.leases.contains_key(id) ==> (#[trigger] l.leases[id]).expires_at <= l.hard_deadline
    &&& forall|a: Seq<char>, b: Seq<char>|
        live(l, a) && live(l, b) && l.leases[a].task == l.leases[b].task ==> a == b
}

/// A ledger starts sound.
pub proof fn law_ledgers_start_sound(hard_deadline: nat)
    ensures
        sound(
            (Ledger {
                hard_deadline,
                leases: Map::<Seq<char>, Lease>::empty(),
                revoked: Set::<Seq<char>>::empty(),
            }),
        ),
{
}

/// Registering a grant keeps the ledger sound.
pub proof fn law_register_keeps_sound(
    l: Ledger,
    request_started: nat,
    task: Seq<char>,
    action: Seq<char>,
    eta: Number,
    g: Grant,
)
    requires
        sound(l),
        register_refusal(l, request_started, task, action, eta, g) is None,
    ensures
        sound(registered(l, request_started, g)),
{
    let after = registered(l, request_started, g);
    assert forall|id: Seq<char>| after.leases.contains_key(id) && id != g.id implies
        l.leases.contains_key(id) && after.leases[id] == outdone(l.leases[id], g.task) by {}
    assert forall|id: Seq<char>| after.leases.contains_key(id) implies (
    #[trigger] after.leases[id]).expires_at <= after.hard_deadline by {
        if id != g.id {
            assert(after.leases[id].expires_at == l.leases[id].expires_at);
        }
    }
    assert forall|a: Seq<char>, b: Seq<char>|
        live(after, a) && live(after, b) && after.leases[a].task
            == after.leases[b].task implies a == b by {
        if a != g.id && b != g.id {
            assert(live(l, a) && live(l, b));
        }
    }
}

/// Consuming a lease keeps the ledger sound.
pub proof fn law_consume_keeps_sound(l: Ledger, id: Seq<char>)
    requires
        sound(l),
        l.leases.contains_key(id),
    ensures
        sound(consumed(l, id)),
{
    let after = consumed(l, id);
    assert forall|other: Seq<char>| after.leases.contains_key(other) implies (
    #[trigger] after.leases[other]).expires_at <= after.hard_deadline by {
        assert(after.leases[other].expires_at == l.leases[other].expires_at);
    }
    assert forall|a: Seq<char>, b: Seq<char>|
        live(after, a) && live(after, b) && after.leases[a].task
            == after.leases[b].task implies a == b by {
        assert(live(l, a) && live(l, b));
    }
}

/// Revoking a task keeps the ledger sound.
pub proof fn law_revoke_keeps_sound(l: Ledger, task: Seq<char>)
    requires
        sound(l),
    ensures
        sound(revoked(l, task)),
{
    let after = revoked(l, task);
    assert forall|a: Seq<char>, b: Seq<char>|
        live(after, a) && live(after, b) && after.leases[a].task
            == after.leases[b].task implies a == b by {
        assert(live(l, a) && live(l, b));
    }
}

/// A lease is consumed only if its whole action ends by its expiry and so by the hard
/// deadline.
pub proof fn law_work_ends_by_the_deadline(
    l: Ledger,
    id: Seq<char>,
    task: Seq<char>,
    action: Seq<char>,
    eta: Number,
    now: nat,
)
    requires
        sound(l),
        consume_refusal(l, id, task, action, eta, now) is None,
    ensures
        now + l.leases[id].duration <= l.leases[id].expires_at,
        now + l.leases[id].duration <= l.hard_deadline,
{
}

/// A lease is good for one consumption: after it, every other attempt is refused,
/// and one that is well-formed is told that the lease was consumed.
pub proof fn law_one_shot(
    l: Ledger,
    id: Seq<char>,
    task: Seq<char>,
    action: Seq<char>,
    eta: Number,
    now: nat,
    task2: Seq<char>,
    action2: Seq<char>,
    eta2: Number,
    now2: nat,
)
    requires
        consume_refusal(l, id, task, action, eta, now) is None,
    ensures
        consume_refusal(consumed(l, id), id, task2, action2, eta2, now2) is Some,
        valid_action(text::trimmed(action2)) && eta2.spec_duration() is Some ==> consume_refusal(
            consumed(l, id),
            id,
            task2,
            action2,
            eta2,
            now2,
        ) == Some(Rejection::AlreadyConsumed),
{
}

/// Nothing gives a consumed lease its authority back.
pub proof fn law_spent_authority_stays_spent(
    l: Ledger,
    id: Seq<char>,
    request_started: nat,
    task: Seq<char>,
    action: Seq<char>,
    eta: Number,
    g: Grant,
    other: Seq<char>,
    revoked_task: Seq<char>,
)
    requires
        l.leases.contains_key(id),
        l.leases[id].consumed,
        l.leases.contains_key(other),
    ensures
        register_refusal(l, request_started, task, action, eta, g) is None ==> {
            let after = registered(l, request_started, g);
            after.leases.contains_key(id) && after.leases[id] == l.leases[id]
        },
        consumed(l, other).leases.contains_key(id) && consumed(l, other).leases[id].consumed,
        revoked(l, revoked_task).leases == l.leases,
{
    if register_refusal(l, request_started, task, action, eta, g) is None {
        assert(id != g.id);
        assert(outdone(l.leases[id], g.task) == l.leases[id]);
    }
}

/// An identifier that was registered once is never registered again: every operation
/// keeps it, and a grant with it is refused.
pub proof fn law_identifiers_are_used_once(
    l: Ledger,
    request_started: nat,
    task: Seq<char>,
    action: Seq<char>,
    eta: Number,
    g: Grant,
    h: Grant,
    other: Seq<char>,
)
    requires
        l.leases.contains_key(g.id),
    ensures
        register_refusal(l, request_started, task, action, eta, g) is Some,
        registered(l, request_started, h).leases.contains_key(g.id),
        consumed(l, other).leases.contains_key(g.id),
        revoked(l, other).leases.contains_key(g.id),
{
}

/// A newer lease takes the authority of the task's older one that was not consumed.
pub proof fn law_newer_supersedes(
    l: Ledger,
    request_started: nat,
    g: Grant,
    old_id: Seq<char>,
    task: Seq<char>,
    action: Seq<char>,
    eta: Number,
    now: nat,
)
    requires
        live(l, old_id),
        l.leases[old_id].task == g.task,
        !l.leases.contains_key(g.id),
        valid_action(text::trimmed(action)),
        eta.spec_duration() is Some,
    ensures
        consume_refusal(registered(l, request_started, g), old_id, task, action, eta, now) == Some(
            Rejection::Superseded,
        ),
        live(registered(l, request_started, g), g.id),
{
}

/// Revoking a task twice is revoking it once.
pub proof fn law_revocation_is_idempotent(l: Ledger, task: Seq<char>)
    ensures
        revoked(revoked(l, task), task) == revoked(l, task),
{
    assert(l.revoked.insert(task).insert(task) =~= l.revoked.insert(task));
}

/// Once a task is revoked, none of its leases can be consumed and no grant for it can
/// be registered, whatever else happens.
pub proof fn law_revocation_is_final(
    l: Ledger,
    task: Seq<char>,
    id: Seq<char>,
    action: Seq<char>,
    eta: Number,
    now: nat,
    g: Grant,
    any_task: Seq<char>,
    other: Seq<char>,
    h: Grant,
)
    requires
        l.revoked.contains(task),
    ensures
        l.leases.contains_key(id) && l.leases[id].task == task ==> consume_refusal(
            l,
            id,
            any_task,
            action,
            eta,
            now,
        ) is Some,
        g.task == task ==> register_refusal(l, now, any_task, action, eta, g) is Some,
        registered(l, now, h).revoked.contains(task),
        consumed(l, other).revoked.contains(task),
        revoked(l, other).revoked.contains(task),
{
}

/// Revoking one task changes nothing for the leases and grants of the others.
pub proof fn law_revocation_is_isolated(
    l: Ledger,
    task: Seq<char>,
    id: Seq<char>,
    any_task: Seq<char>,
    action: Seq<char>,
    eta: Number,
    now: nat,
    g: Grant,
)
    requires
        l.leases.contains_key(id),
        l.leases[id].task != task,
        g.task != task,
    ensures
        consume_refusal(revoked(l, task), id, any_task, action, eta, now) == consume_refusal(
            l,
            id,
            any_task,
            action,
            eta,
            now,
        ),
        register_refusal(revoked(l, task), now, any_task, action, eta, g) == register_refusal(
            l,
            now,
            any_task,
            action,
            eta,
            g,
        ),
{
}

/// A grant that answers another task, action or estimate than was proposed is refused.
pub proof fn law_grants_are_bound(
    l: Ledger,
    request_started: nat,
    task: Seq<char>,
    action: Seq<char>,
    eta: Number,
    g: Grant,
)
    requires
        g.task != task || g.action != text::trimmed(action) || g.duration_seconds != eta,
    ensures
        register_refusal(l, request_started, task, action, eta, g) is Some,
{
}

/// A lease is consumed only for the task, action and estimate that it was granted for.
pub proof fn law_leases_are_bound(
    l: Ledger,
    id: Seq<char>,
    task: Seq<char>,
    action: Seq<char>,
    eta: Number,
    now: nat,
)
    requires
        consume_refusal(l, id, task, action, eta, now) is None,
    ensures
        l.leases.contains_key(id),
        l.leases[id].task == task,
        l.leases[id].action == text::trimmed(action),
        l.leases[id].duration_seconds == eta,
{
}

} // verus!
