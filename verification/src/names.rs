//! Sets of names, kept in ascending order.

use crate::text;
use vstd::prelude::*;

verus! {

/// The texts of a list of strings.
pub open spec fn texts(list: Seq<String>) -> Seq<Seq<char>> {
    Seq::new(list.len(), |i: int| list[i]@)
}

/// The text of an optional string.
pub open spec fn text_of(name: Option<String>) -> Option<Seq<char>> {
    match name {
        Some(s) => Some(s@),
        None => None,
    }
}

pub fn copy_text(name: &Option<String>) -> (r: Option<String>)
    ensures
        text_of(r) == text_of(*name),
{
    match name {
        Some(s) => Some(s.clone()),
        None => None,
    }
}

pub fn same_optional_text(a: &Option<String>, b: &Option<String>) -> (r: bool)
    ensures
        r == (text_of(*a) == text_of(*b)),
{
    match (a, b) {
        (Some(a), Some(b)) => text::same_text(a.as_str(), b.as_str()),
        (None, None) => true,
        _ => false,
    }
}

pub proof fn lemma_ascending_insert(list: Seq<Seq<char>>, at: int, name: Seq<char>)
    requires
        text::ascending(list),
        0 <= at <= list.len(),
        forall|i: int| 0 <= i < at ==> text::before(#[trigger] list[i], name),
        forall|i: int| at <= i < list.len() ==> text::before(name, #[trigger] list[i]),
    ensures
        text::ascending(list.insert(at, name)),
{
    let longer = list.insert(at, name);
    assert forall|i: int, j: int| 0 <= i < j < longer.len() implies text::before(
        #[trigger] longer[i],
        #[trigger] longer[j],
    ) by {
        let a = if i < at {
            list[i]
        } else if i == at {
            name
        } else {
            list[i - 1]
        };
        let b = if j < at {
            list[j]
        } else if j == at {
            name
        } else {
            list[j - 1]
        };
        assert(longer[i] == a && longer[j] == b);
    }
}

pub proof fn lemma_ascending_distinct(list: Seq<Seq<char>>)
    requires
        text::ascending(list),
    ensures
        list.no_duplicates(),
{
    assert forall|i: int, j: int| 0 <= i < list.len() && 0 <= j < list.len() && i != j implies list[i]
        != list[j] by {
        text::lemma_before_irreflexive(list[i]);
    }
}

/// Where `name` belongs in an ascending list of names: `Err` with its place if it is
/// not there, `Ok` with its index if it is.
pub open spec fn placed(list: Seq<Seq<char>>, name: Seq<char>, place: Result<usize, usize>) -> bool {
    match place {
        Ok(i) => i < list.len() && list[i as int] == name,
        Err(i) => {
            &&& i <= list.len()
            &&& !list.contains(name)
            &&& forall|j: int| 0 <= j < i ==> text::before(#[trigger] list[j], name)
            &&& forall|j: int| i <= j < list.len() ==> text::before(name, #[trigger] list[j])
        },
    }
}

/// The names after the first that is not before `name` are all after it.
pub proof fn lemma_place(list: Seq<Seq<char>>, name: Seq<char>, at: int)
    requires
        text::ascending(list),
        0 <= at <= list.len(),
        forall|i: int| 0 <= i < at ==> text::before(#[trigger] list[i], name),
        at < list.len() ==> !text::before(list[at], name) && list[at] != name,
    ensures
        at <= usize::MAX ==> placed(list, name, Err(at as usize)),
{
    text::lemma_before_irreflexive(name);
    if at < list.len() {
        text::lemma_before_total(list[at], name);
        assert forall|j: int| at <= j < list.len() implies text::before(name, #[trigger] list[j]) by {
            if j > at {
                text::lemma_before_transitive(name, list[at], list[j]);
            }
        }
    }
}

/// Reading one more name of a list adds that name to those read.
pub proof fn lemma_one_more(list: Seq<Seq<char>>, i: int)
    requires
        0 <= i < list.len(),
    ensures
        list.take(i + 1).to_set() == list.take(i).to_set().insert(list[i]),
{
    let longer = list.take(i + 1);
    let shorter = list.take(i);
    assert(longer =~= shorter.push(list[i]));
    assert forall|s: Seq<char>| longer.contains(s) implies shorter.contains(s) || s == list[i] by {}
    assert forall|s: Seq<char>| shorter.contains(s) implies longer.contains(s) by {
        let k = choose|k: int| 0 <= k < shorter.len() && shorter[k] == s;
        assert(longer[k] == s);
    }
    assert(longer[i] == list[i]);
    assert(longer.to_set() =~= shorter.to_set().insert(list[i]));
}

/// A set of names.
#[derive(Clone, Debug, PartialEq, Eq)]
pub struct NameSet {
    pub items: Vec<String>,
}

impl View for NameSet {
    type V = Set<Seq<char>>;

    open spec fn view(&self) -> Set<Seq<char>> {
        texts(self.items@).to_set()
    }
}

impl NameSet {
    pub open spec fn wf(&self) -> bool {
        text::ascending(texts(self.items@))
    }

    pub fn new() -> (r: Self)
        ensures
            r.wf(),
            r@ == Set::<Seq<char>>::empty(),
    {
        let r = NameSet { items: Vec::new() };
        assert(r@ =~= Set::<Seq<char>>::empty());
        r
    }

    pub fn is_empty(&self) -> (r: bool)
        ensures
            r == !(exists|name: Seq<char>| self@.contains(name)),
    {
        proof {
            let list = texts(self.items@);
            if list.len() > 0 {
                assert(list.contains(list[0]));
                assert(self@.contains(list[0]));
            }
        }
        self.items.is_empty()
    }

    fn place(&self, name: &str) -> (r: Result<usize, usize>)
        requires
            self.wf(),
        ensures
            placed(texts(self.items@), name@, r),
    {
        let ghost list = texts(self.items@);
        let mut i: usize = 0;
        while i < self.items.len()
            invariant
                i <= self.items.len(),
                list == texts(self.items@),
                text::ascending(list),
                forall|j: int| 0 <= j < i ==> text::before(#[trigger] list[j], name@),
            decreases self.items.len() - i,
        {
            if text::same_text(self.items[i].as_str(), name) {
                return Ok(i);
            }
            if !text::text_before(self.items[i].as_str(), name) {
                proof {
                    lemma_place(list, name@, i as int);
                }
                return Err(i);
            }
            i = i + 1;
        }
        proof {
            lemma_place(list, name@, i as int);
        }
        Err(i)
    }

    pub fn contains(&self, name: &str) -> (r: bool)
        requires
            self.wf(),
        ensures
            r == self@.contains(name@),
    {
        match self.place(name) {
            Ok(_) => true,
            Err(_) => false,
        }
    }

    pub fn insert(&mut self, name: &str)
        requires
            old(self).wf(),
        ensures
            final(self).wf(),
            final(self)@ == old(self)@.insert(name@),
    {
        let ghost list = texts(self.items@);
        match self.place(name) {
            Ok(_) => {
                assert(self@.insert(name@) =~= self@);
            },
            Err(i) => {
                self.items.insert(i, name.to_owned());
                proof {
                    lemma_ascending_insert(list, i as int, name@);
                    assert(texts(self.items@) =~= list.insert(i as int, name@));
                    let longer = list.insert(i as int, name@);
                    assert(longer[i as int] == name@);
                    assert forall|s: Seq<char>| list.contains(s) implies longer.contains(s) by {
                        let k = choose|k: int| 0 <= k < list.len() && list[k] == s;
                        if k < i {
                            assert(longer[k] == s);
                        } else {
                            assert(longer[k + 1] == s);
                        }
                    }
                    assert forall|s: Seq<char>| longer.contains(s) implies s == name@
                        || list.contains(s) by {
                        let k = choose|k: int| 0 <= k < longer.len() && longer[k] == s;
                        if k < i {
                            assert(list[k] == s);
                        } else if k > i {
                            assert(list[k - 1] == s);
                        }
                    }
                    assert(self@ =~= list.to_set().insert(name@));
                }
            },
        }
    }

    pub fn remove(&mut self, name: &str)
        requires
            old(self).wf(),
        ensures
            final(self).wf(),
            final(self)@ == old(self)@.remove(name@),
    {
        let ghost list = texts(self.items@);
        match self.place(name) {
            Ok(i) => {
                self.items.remove(i);
                proof {
                    let shorter = texts(self.items@);
                    assert(shorter =~= list.remove(i as int));
                    assert forall|a: int, b: int| 0 <= a < b < shorter.len() implies text::before(
                        #[trigger] shorter[a],
                        #[trigger] shorter[b],
                    ) by {
                        let x = if a < i {
                            a
                        } else {
                            a + 1
                        };
                        let y = if b < i {
                            b
                        } else {
                            b + 1
                        };
                        assert(shorter[a] == list[x] && shorter[b] == list[y]);
                    }
                    lemma_ascending_distinct(list);
                    assert forall|s: Seq<char>| shorter.contains(s) implies s != name@
                        && list.contains(s) by {
                        let k = choose|k: int| 0 <= k < shorter.len() && shorter[k] == s;
                        let x = if k < i {
                            k
                        } else {
                            k + 1
                        };
                        assert(list[x] == s);
                    }
                    assert forall|s: Seq<char>| list.contains(s) && s != name@ implies shorter.contains(
                        s,
                    ) by {
                        let k = choose|k: int| 0 <= k < list.len() && list[k] == s;
                        if k < i {
                            assert(shorter[k] == s);
                        } else {
                            assert(shorter[k - 1] == s);
                        }
                    }
                    assert(self@ =~= list.to_set().remove(name@));
                }
            },
            Err(_) => {
                assert(self@.remove(name@) =~= self@);
            },
        }
    }

    pub fn duplicate(&self) -> (r: Self)
        ensures
            r@ == self@,
            self.wf() ==> r.wf(),
    {
        let mut items: Vec<String> = Vec::new();
        let mut i: usize = 0;
        while i < self.items.len()
            invariant
                i <= self.items.len(),
                items@.len() == i,
                forall|k: int| 0 <= k < i ==> #[trigger] items@[k]@ == self.items@[k]@,
            decreases self.items.len() - i,
        {
            items.push(self.items[i].clone());
            i = i + 1;
        }
        assert(texts(items@) =~= texts(self.items@));
        NameSet { items }
    }
}

} // verus!
