//! The tasks of one process, by identifier.

use crate::names;
use crate::task::{State, Task};
use crate::text;
use vstd::prelude::*;

verus! {

/// All tasks, by identifier.
pub type Tasks = Map<Seq<char>, State>;

/// The identifiers of a list of tasks.
pub open spec fn ids(tasks: Seq<Task>) -> Seq<Seq<char>> {
    Seq::new(tasks.len(), |i: int| tasks[i].task_id@)
}

/// Tasks in ascending order of their identifiers, which are all different.
pub struct Registry {
    pub tasks: Vec<Task>,
}

impl View for Registry {
    type V = Tasks;

    open spec fn view(&self) -> Tasks {
        Map::new(
            |id: Seq<char>| ids(self.tasks@).contains(id),
            |id: Seq<char>| self.tasks@[ids(self.tasks@).index_of(id)]@,
        )
    }
}

/// The task at an index is the one that the registry holds for its identifier.
pub proof fn lemma_entry(registry: Registry, i: int)
    requires
        registry.wf(),
        0 <= i < registry.tasks@.len(),
    ensures
        registry@.contains_key(registry.tasks@[i].task_id@),
        registry@[registry.tasks@[i].task_id@] == registry.tasks@[i]@,
{
    let list = ids(registry.tasks@);
    names::lemma_ascending_distinct(list);
    assert(list[i] == registry.tasks@[i].task_id@);
    assert(list.contains(list[i]));
    let k = list.index_of(list[i]);
    assert(list[k] == list[i]);
}

/// Every identifier that the registry knows belongs to a task in it.
pub proof fn lemma_holder(registry: Registry, id: Seq<char>) -> (i: int)
    requires
        registry.wf(),
        registry@.contains_key(id),
    ensures
        0 <= i < registry.tasks@.len(),
        registry.tasks@[i].task_id@ == id,
        registry@[id] == registry.tasks@[i]@,
{
    let list = ids(registry.tasks@);
    let i = list.index_of(id);
    assert(list[i] == id);
    i
}

/// Two registries with the same tasks at the same places hold the same.
pub proof fn lemma_same_entries(a: Registry, b: Registry)
    requires
        a.wf(),
        b.wf(),
        a.tasks@.len() == b.tasks@.len(),
        forall|i: int|
            0 <= i < a.tasks@.len() ==> (#[trigger] a.tasks@[i]).task_id@ == b.tasks@[i].task_id@
                && a.tasks@[i]@ == b.tasks@[i]@,
    ensures
        a@ == b@,
{
    assert(ids(a.tasks@) =~= ids(b.tasks@));
    assert forall|id: Seq<char>| a@.contains_key(id) implies a@[id] == b@[id] by {
        let i = lemma_holder(a, id);
        lemma_entry(b, i);
    }
    assert(a@ =~= b@);
}

/// The registry knows as many identifiers as it holds tasks.
pub proof fn lemma_size(registry: Registry)
    requires
        registry.wf(),
    ensures
        registry@.dom().finite(),
        registry@.dom().len() == registry.tasks@.len(),
{
    let list = ids(registry.tasks@);
    names::lemma_ascending_distinct(list);
    assert(registry@.dom() =~= list.to_set());
    list.unique_seq_to_set();
}

impl Registry {
    pub open spec fn wf(&self) -> bool {
        &&& text::ascending(ids(self.tasks@))
        &&& forall|i: int| 0 <= i < self.tasks@.len() ==> (#[trigger] self.tasks@[i]).wf()
    }

    pub fn new() -> (r: Self)
        ensures
            r.wf(),
            r@ == Map::<Seq<char>, State>::empty(),
    {
        let r = Registry { tasks: Vec::new() };
        assert(r@ =~= Map::<Seq<char>, State>::empty());
        r
    }

    pub fn len(&self) -> (r: usize)
        requires
            self.wf(),
        ensures
            self@.dom().finite(),
            r == self@.dom().len(),
    {
        proof {
            lemma_size(*self);
        }
        self.tasks.len()
    }

    /// Where the task of that identifier is, or where it would be.
    pub fn place(&self, id: &str) -> (r: Result<usize, usize>)
        requires
            self.wf(),
        ensures
            names::placed(ids(self.tasks@), id@, r),
            match r {
                Ok(i) => {
                    &&& i < self.tasks@.len()
                    &&& self.tasks@[i as int].task_id@ == id@
                    &&& self.tasks@[i as int].wf()
                    &&& self@.contains_key(id@)
                    &&& self@[id@] == self.tasks@[i as int]@
                },
                Err(_) => !self@.contains_key(id@),
            },
    {
        let ghost list = ids(self.tasks@);
        let mut i: usize = 0;
        while i < self.tasks.len()
            invariant
                self.wf(),
                i <= self.tasks.len(),
                list == ids(self.tasks@),
                forall|j: int| 0 <= j < i ==> text::before(#[trigger] list[j], id@),
            decreases self.tasks.len() - i,
        {
            if text::same_text(self.tasks[i].task_id.as_str(), id) {
                proof {
                    lemma_entry(*self, i as int);
                }
                return Ok(i);
            }
            if !text::text_before(self.tasks[i].task_id.as_str(), id) {
                proof {
                    names::lemma_place(list, id@, i as int);
                }
                return Err(i);
            }
            i = i + 1;
        }
        proof {
            names::lemma_place(list, id@, i as int);
        }
        Err(i)
    }

    pub fn find(&self, id: &str) -> (r: Option<usize>)
        requires
            self.wf(),
        ensures
            match r {
                Some(i) => {
                    &&& i < self.tasks@.len()
                    &&& self.tasks@[i as int].task_id@ == id@
                    &&& self.tasks@[i as int].wf()
                    &&& self@.contains_key(id@)
                    &&& self@[id@] == self.tasks@[i as int]@
                },
                None => !self@.contains_key(id@),
            },
    {
        match self.place(id) {
            Ok(i) => Some(i),
            Err(_) => None,
        }
    }

    /// Puts a task in the place of the one with the same identifier.
    pub fn replace(&mut self, i: usize, task: Task)
        requires
            old(self).wf(),
            i < old(self).tasks@.len(),
            task.wf(),
            task.task_id@ == old(self).tasks@[i as int].task_id@,
        ensures
            final(self).wf(),
            final(self)@ == old(self)@.insert(task.task_id@, task@),
            final(self).tasks@ == old(self).tasks@.update(i as int, task),
    {
        let ghost before = *self;
        self.tasks.set(i, task);
        proof {
            assert(ids(self.tasks@) =~= ids(before.tasks@));
            lemma_entry(before, i as int);
            lemma_entry(*self, i as int);
            assert forall|id: Seq<char>| self@.contains_key(id) implies self@[id] == before@.insert(
                task.task_id@,
                task@,
            )[id] by {
                let k = lemma_holder(*self, id);
                lemma_entry(before, k);
                if id == task.task_id@ {
                    names::lemma_ascending_distinct(ids(self.tasks@));
                    assert(ids(self.tasks@)[k] == ids(self.tasks@)[i as int]);
                }
            }
            assert(self@ =~= before@.insert(task.task_id@, task@));
        }
    }

    /// Adds a task with a new identifier.
    pub fn add(&mut self, place: usize, task: Task)
        requires
            old(self).wf(),
            names::placed(ids(old(self).tasks@), task.task_id@, Err(place)),
            task.wf(),
        ensures
            final(self).wf(),
            final(self)@ == old(self)@.insert(task.task_id@, task@),
    {
        let ghost before = *self;
        let ghost list = ids(self.tasks@);
        self.tasks.insert(place, task);
        proof {
            assert(ids(self.tasks@) =~= list.insert(place as int, task.task_id@));
            names::lemma_ascending_insert(list, place as int, task.task_id@);
            assert forall|i: int| 0 <= i < self.tasks@.len() implies (
            #[trigger] self.tasks@[i]).wf() by {
                if i < place {
                    assert(self.tasks@[i] == before.tasks@[i]);
                } else if i > place {
                    assert(self.tasks@[i] == before.tasks@[i - 1]);
                }
            }
            lemma_entry(*self, place as int);
            let after = before@.insert(task.task_id@, task@);
            assert forall|id: Seq<char>| self@.contains_key(id) implies after.contains_key(id)
                && self@[id] == after[id] by {
                let k = lemma_holder(*self, id);
                if k < place {
                    lemma_entry(before, k);
                } else if k > place {
                    assert(self.tasks@[k] == before.tasks@[k - 1]);
                    lemma_entry(before, k - 1);
                }
            }
            assert forall|id: Seq<char>| after.contains_key(id) implies self@.contains_key(id) by {
                if id != task.task_id@ {
                    let k = lemma_holder(before, id);
                    if k < place {
                        assert(self.tasks@[k] == before.tasks@[k]);
                        lemma_entry(*self, k);
                    } else {
                        assert(self.tasks@[k + 1] == before.tasks@[k]);
                        lemma_entry(*self, k + 1);
                    }
                }
            }
            assert(self@ =~= after);
        }
    }

    pub fn duplicate(&self) -> (r: Self)
        requires
            self.wf(),
        ensures
            r.wf(),
            r@ == self@,
    {
        let mut tasks: Vec<Task> = Vec::new();
        let mut i: usize = 0;
        while i < self.tasks.len()
            invariant
                self.wf(),
                i <= self.tasks.len(),
                tasks@.len() == i,
                forall|k: int|
                    0 <= k < i ==> (#[trigger] tasks@[k]).task_id@ == self.tasks@[k].task_id@
                        && tasks@[k]@ == self.tasks@[k]@ && tasks@[k].wf(),
            decreases self.tasks.len() - i,
        {
            tasks.push(self.tasks[i].duplicate());
            i = i + 1;
        }
        let r = Registry { tasks };
        proof {
            assert(ids(r.tasks@) =~= ids(self.tasks@));
            lemma_same_entries(r, *self);
        }
        r
    }
}

} // verus!
