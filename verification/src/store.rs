//! Where snapshots are kept.

use crate::task;
use crate::task::PersistedState;
use std::sync::{Arc, RwLock};
use vstd::prelude::*;

verus! {

/// Optional state backend. Implementations must make `save` atomic from the reader's
/// point of view; the manager itself remains useful without a store.
pub trait SnapshotStore: Send + Sync {
    /// Whether the store may give that answer when it is handed `state`: any, unless the
    /// implementation says more.
    open spec fn takes(&self, state: PersistedState, answer: Result<(), String>) -> bool {
        true
    }

    fn save(&self, state: &PersistedState) -> (r: Result<(), String>)
        ensures
            self.takes(*state, r),
    ;

    /// Whether the store may give that answer when it is asked for its snapshot: any,
    /// unless the implementation says more.
    open spec fn gives(&self, answer: Result<Option<PersistedState>, String>) -> bool {
        true
    }

    fn load(&self) -> (r: Result<Option<PersistedState>, String>)
        ensures
            self.gives(r),
    ;
}

/// The store of a manager, if it has one.
pub type Keeper = Option<Box<dyn SnapshotStore>>;

/// A snapshot that was handed to a store, and the store's answer.
pub struct Handed {
    pub state: PersistedState,
    pub answer: Result<(), String>,
}

/// The way to a store, if there is one, with a record of all snapshots that went that way:
/// nothing reaches the store past [`Archive::hand`].
pub struct Archive {
    store: Keeper,
    log: Ghost<Seq<Handed>>,
}

impl Archive {
    pub closed spec fn keeper(&self) -> Keeper {
        self.store
    }

    /// What the store was handed so far, in that order.
    pub closed spec fn log(&self) -> Seq<Handed> {
        self.log@
    }

    pub fn new(store: Keeper) -> (r: Self)
        ensures
            r.keeper() == store,
            r.log() == Seq::<Handed>::empty(),
    {
        Archive { store, log: Ghost(Seq::empty()) }
    }

    pub fn has_store(&self) -> (r: bool)
        ensures
            r == (self.keeper() is Some),
    {
        self.store.is_some()
    }

    /// Hands the store a snapshot; without a store nothing goes wrong.
    pub fn hand(&mut self, state: PersistedState) -> (r: Result<(), String>)
        ensures
            final(self).keeper() == old(self).keeper(),
            match old(self).keeper() {
                Some(store) => store.takes(state, r) && final(self).log() == old(self).log().push(
                    (Handed { state, answer: r }),
                ),
                None => r is Ok && final(self).log() == old(self).log(),
            },
    {
        match &self.store {
            Some(store) => {
                let answer = store.save(&state);
                self.log = Ghost(self.log@.push(Handed { state, answer }));
                answer
            },
            None => Ok(()),
        }
    }
}

impl<S: SnapshotStore> SnapshotStore for Arc<S> {
    open spec fn takes(&self, state: PersistedState, answer: Result<(), String>) -> bool {
        (**self).takes(state, answer)
    }

    fn save(&self, state: &PersistedState) -> Result<(), String> {
        (**self).save(state)
    }

    open spec fn gives(&self, answer: Result<Option<PersistedState>, String>) -> bool {
        (**self).gives(answer)
    }

    fn load(&self) -> Result<Option<PersistedState>, String> {
        (**self).load()
    }
}

/// `std::sync::RwLock`, of whose contents nothing is known: others may write them at any
/// time.
#[verifier::external_type_specification]
#[verifier::external_body]
#[verifier::reject_recursive_types(T)]
pub struct ExRwLock<T: ?Sized>(RwLock<T>);

/// `RwLock::new`, which makes a lock around a value. What a reader finds there later is
/// not claimed.
#[verifier::external_body]
fn guarded(state: Option<PersistedState>) -> RwLock<Option<PersistedState>> {
    RwLock::new(state)
}

/// `RwLock::read`, with a copy of what the lock holds; a poisoned lock still hands out
/// what it holds. Nothing is claimed of the value, which other writers decide.
#[verifier::external_body]
fn read_copy(lock: &RwLock<Option<PersistedState>>) -> Option<PersistedState> {
    match lock.read() {
        Ok(state) => state.clone(),
        Err(poisoned) => poisoned.into_inner().clone(),
    }
}

/// `RwLock::write`, with a new value put in the place of the old one. What a reader
/// finds there later is not claimed.
#[verifier::external_body]
fn overwrite(lock: &RwLock<Option<PersistedState>>, state: Option<PersistedState>) {
    match lock.write() {
        Ok(mut place) => *place = state,
        Err(poisoned) => *poisoned.into_inner() = state,
    }
}

/// An in-memory store useful for embedding and recovery tests.
pub struct MemoryStore {
    state: RwLock<Option<PersistedState>>,
}

impl Default for MemoryStore {
    fn default() -> (r: Self)
        ensures
            r.begins_empty(),
    {
        MemoryStore::new()
    }
}

/// Whether two snapshots hold the same tasks, saved at the same time.
pub open spec fn same_contents(a: PersistedState, b: PersistedState) -> bool {
    &&& a.version == b.version
    &&& a.saved_at_unix_ms == b.saved_at_unix_ms
    &&& task::saved_tasks(a.tasks@) == task::saved_tasks(b.tasks@)
}

impl PersistedState {
    pub fn duplicate(&self) -> (r: Self)
        ensures
            r.version == self.version,
            r.saved_at_unix_ms == self.saved_at_unix_ms,
            task::saved_tasks(r.tasks@) == task::saved_tasks(self.tasks@),
    {
        let mut tasks: Vec<task::PersistedTask> = Vec::new();
        let mut i: usize = 0;
        while i < self.tasks.len()
            invariant
                i <= self.tasks.len(),
                tasks@.len() == i,
                forall|k: int| 0 <= k < i ==> (#[trigger] tasks@[k])@ == self.tasks@[k]@,
            decreases self.tasks.len() - i,
        {
            tasks.push(self.tasks[i].duplicate());
            i = i + 1;
        }
        assert(task::saved_tasks(tasks@) =~= task::saved_tasks(self.tasks@));
        PersistedState { version: self.version, saved_at_unix_ms: self.saved_at_unix_ms, tasks }
    }
}

impl MemoryStore {
    /// The lock was made around no snapshot.
    pub closed spec fn begins_empty(&self) -> bool {
        call_ensures(guarded, (None::<PersistedState>,), self.state)
    }

    /// Whether that may be read from behind the lock.
    pub closed spec fn may_hold(&self, state: Option<PersistedState>) -> bool {
        call_ensures(read_copy, (&self.state,), state)
    }

    /// A snapshot with the same contents goes behind the lock.
    pub closed spec fn puts(&self, state: PersistedState) -> bool {
        exists|copy: PersistedState| #[trigger]
            same_contents(copy, state) && call_ensures(overwrite, (&self.state, Some(copy)), ())
    }

    pub fn new() -> (r: Self)
        ensures
            r.begins_empty(),
    {
        MemoryStore { state: guarded(None) }
    }

    /// A copy of the snapshot saved last.
    pub fn state(&self) -> (r: Option<PersistedState>)
        ensures
            self.may_hold(r),
    {
        read_copy(&self.state)
    }
}

impl SnapshotStore for MemoryStore {
    /// It takes everything.
    open spec fn takes(&self, state: PersistedState, answer: Result<(), String>) -> bool {
        answer is Ok && self.puts(state)
    }

    fn save(&self, state: &PersistedState) -> Result<(), String> {
        let copy = state.duplicate();
        let ghost put = copy;
        overwrite(&self.state, Some(copy));
        assert(same_contents(put, *state));
        Ok(())
    }

    /// It can always be read.
    open spec fn gives(&self, answer: Result<Option<PersistedState>, String>) -> bool {
        answer is Ok && self.may_hold(answer->Ok_0)
    }

    fn load(&self) -> Result<Option<PersistedState>, String> {
        Ok(read_copy(&self.state))
    }
}

} // verus!
