//! Free-form text that a task carries.

use crate::names;
use crate::text;
use vstd::prelude::*;

verus! {

/// Texts by name, in ascending order of names. Two of them are equal as values exactly
/// when they hold the same texts: see [`law_same_texts_in_the_same_order`].
#[derive(Debug, PartialEq, Eq)]
pub struct Metadata {
    entries: Vec<(String, String)>,
}

/// The names of a list of entries.
pub open spec fn names_of(entries: Seq<(String, String)>) -> Seq<Seq<char>> {
    Seq::new(entries.len(), |i: int| entries[i].0@)
}

/// The entries of a list of names and values; a later entry replaces an earlier one
/// of the same name.
pub open spec fn entries_map(entries: Seq<(String, String)>) -> Map<Seq<char>, Seq<char>>
    decreases entries.len(),
{
    if entries.len() == 0 {
        Map::empty()
    } else {
        entries_map(entries.drop_last()).insert(entries.last().0@, entries.last().1@)
    }
}

/// An entry of a list of distinct names is an entry of its map, and there are no others.
proof fn lemma_entries(entries: Seq<(String, String)>)
    requires
        names_of(entries).no_duplicates(),
    ensures
        forall|i: int|
            0 <= i < entries.len() ==> entries_map(entries).contains_key(
                (#[trigger] entries[i]).0@,
            ) && entries_map(entries)[entries[i].0@] == entries[i].1@,
        forall|name: Seq<char>| #[trigger]
            entries_map(entries).contains_key(name) ==> names_of(entries).contains(name),
    decreases entries.len(),
{
    let all = names_of(entries);
    if entries.len() > 0 {
        let shorter = entries.drop_last();
        let fewer = names_of(shorter);
        assert(fewer =~= all.drop_last());
        lemma_entries(shorter);
        assert forall|i: int| 0 <= i < entries.len() implies entries_map(entries).contains_key(
            (#[trigger] entries[i]).0@,
        ) && entries_map(entries)[entries[i].0@] == entries[i].1@ by {
            if i < shorter.len() {
                assert(shorter[i] == entries[i]);
                assert(all[i] != all[entries.len() - 1]);
            }
        }
        assert forall|name: Seq<char>| #[trigger]
            entries_map(entries).contains_key(name) implies all.contains(name) by {
            if name == entries.last().0@ {
                assert(all[entries.len() - 1] == name);
            } else {
                assert(entries_map(shorter).contains_key(name));
                let k = choose|k: int| 0 <= k < fewer.len() && fewer[k] == name;
                assert(all[k] == name);
            }
        }
    }
}

/// Lists in ascending order of names that hold the same texts are the same, entry by
/// entry.
pub proof fn law_same_texts_in_the_same_order(
    a: Seq<(String, String)>,
    b: Seq<(String, String)>,
)
    requires
        text::ascending(names_of(a)),
        text::ascending(names_of(b)),
        entries_map(a) == entries_map(b),
    ensures
        a.len() == b.len(),
        forall|i: int| #![trigger a[i]]
            0 <= i < a.len() ==> a[i].0@ == b[i].0@ && a[i].1@ == b[i].1@,
    decreases a.len(),
{
    names::lemma_ascending_distinct(names_of(a));
    names::lemma_ascending_distinct(names_of(b));
    lemma_entries(a);
    lemma_entries(b);
    if a.len() == 0 {
        if b.len() > 0 {
            assert(entries_map(b).contains_key(b[0].0@));
        }
    } else {
        let (last_a, last_b) = (a.last().0@, b.last().0@);
        assert(entries_map(a).contains_key(a[a.len() - 1].0@));
        assert(names_of(b).contains(last_a));
        let k = choose|k: int| 0 <= k < b.len() && names_of(b)[k] == last_a;
        assert(entries_map(b).contains_key(b[b.len() - 1].0@));
        assert(names_of(a).contains(last_b));
        let m = choose|m: int| 0 <= m < a.len() && names_of(a)[m] == last_b;
        if last_a != last_b {
            assert(text::before(names_of(b)[k], names_of(b)[b.len() - 1]));
            assert(text::before(names_of(a)[m], names_of(a)[a.len() - 1]));
            text::lemma_before_transitive(last_a, last_b, last_a);
            text::lemma_before_irreflexive(last_a);
        }
        let (shorter_a, shorter_b) = (a.drop_last(), b.drop_last());
        assert(names_of(shorter_a) =~= names_of(a).drop_last());
        assert(names_of(shorter_b) =~= names_of(b).drop_last());
        assert(!entries_map(shorter_a).contains_key(last_a)) by {
            names::lemma_ascending_distinct(names_of(shorter_a));
            lemma_entries(shorter_a);
            assert(names_of(a)[a.len() - 1] == last_a);
        }
        assert(!entries_map(shorter_b).contains_key(last_b)) by {
            names::lemma_ascending_distinct(names_of(shorter_b));
            lemma_entries(shorter_b);
            assert(names_of(b)[b.len() - 1] == last_b);
        }
        assert(entries_map(shorter_a) =~= entries_map(a).remove(last_a));
        assert(entries_map(shorter_b) =~= entries_map(b).remove(last_b));
        law_same_texts_in_the_same_order(shorter_a, shorter_b);
        assert forall|i: int| #![trigger a[i]] 0 <= i < a.len() implies a[i].0@ == b[i].0@
            && a[i].1@ == b[i].1@ by {
            if i < shorter_a.len() {
                assert(shorter_a[i] == a[i]);
                assert(shorter_b[i] == b[i]);
            }
        }
    }
}

impl View for Metadata {
    type V = Map<Seq<char>, Seq<char>>;

    closed spec fn view(&self) -> Map<Seq<char>, Seq<char>> {
        entries_map(self.entries@)
    }
}

impl Clone for Metadata {
    fn clone(&self) -> (r: Self)
        ensures
            r@ == self@,
    {
        self.duplicate()
    }
}

/// The place of a name among entries in ascending order of names.
fn place(entries: &Vec<(String, String)>, name: &str) -> (r: Result<usize, usize>)
    requires
        text::ascending(names_of(entries@)),
    ensures
        names::placed(names_of(entries@), name@, r),
{
    let ghost list = names_of(entries@);
    let mut i: usize = 0;
    while i < entries.len()
        invariant
            i <= entries.len(),
            list == names_of(entries@),
            text::ascending(list),
            forall|j: int| 0 <= j < i ==> text::before(#[trigger] list[j], name@),
        decreases entries.len() - i,
    {
        if text::same_text(entries[i].0.as_str(), name) {
            return Ok(i);
        }
        if !text::text_before(entries[i].0.as_str(), name) {
            proof {
                names::lemma_place(list, name@, i as int);
            }
            return Err(i);
        }
        i = i + 1;
    }
    proof {
        names::lemma_place(list, name@, i as int);
    }
    Err(i)
}

/// Puts an entry among others in ascending order of names, in the place of one of the
/// same name if there is one.
fn put(entries: &mut Vec<(String, String)>, name: String, value: String)
    requires
        text::ascending(names_of(old(entries)@)),
    ensures
        text::ascending(names_of(final(entries)@)),
        entries_map(final(entries)@) == entries_map(old(entries)@).insert(name@, value@),
{
    let ghost before = entries@;
    let ghost list = names_of(before);
    let ghost entry = (name, value);
    match place(entries, name.as_str()) {
        Ok(i) => {
            entries.set(i, (name, value));
            proof {
                assert(names_of(entries@) =~= list);
                lemma_put(before, entries@, i as int, true, entry);
            }
        },
        Err(i) => {
            entries.insert(i, (name, value));
            proof {
                names::lemma_ascending_insert(list, i as int, entry.0@);
                assert(names_of(entries@) =~= list.insert(i as int, entry.0@));
                lemma_put(before, entries@, i as int, false, entry);
            }
        },
    }
}

/// What one more entry, or one in the place of another of the same name, makes of a map.
proof fn lemma_put(
    before: Seq<(String, String)>,
    after: Seq<(String, String)>,
    i: int,
    replaces: bool,
    entry: (String, String),
)
    requires
        text::ascending(names_of(before)),
        text::ascending(names_of(after)),
        replaces ==> 0 <= i < before.len() && before[i].0@ == entry.0@ && after
            == before.update(i, entry),
        !replaces ==> 0 <= i <= before.len() && after == before.insert(i, entry),
    ensures
        entries_map(after) == entries_map(before).insert(entry.0@, entry.1@),
{
    names::lemma_ascending_distinct(names_of(before));
    names::lemma_ascending_distinct(names_of(after));
    lemma_entries(before);
    lemma_entries(after);
    let goal = entries_map(before).insert(entry.0@, entry.1@);
    assert(after[i] == entry);
    assert forall|name: Seq<char>| #[trigger] entries_map(after).contains_key(name) implies {
        &&& goal.contains_key(name)
        &&& goal[name] == entries_map(after)[name]
    } by {
        let k = choose|k: int| 0 <= k < after.len() && names_of(after)[k] == name;
        assert(after[k].0@ == name);
        let from = if replaces || k < i {
            k
        } else {
            k - 1
        };
        if k != i {
            assert(before[from] == after[k]);
            assert(names_of(after)[k] != names_of(after)[i]);
        }
    }
    assert forall|name: Seq<char>| #[trigger] goal.contains_key(name) implies entries_map(
        after,
    ).contains_key(name) by {
        if name != entry.0@ {
            let k = choose|k: int| 0 <= k < before.len() && names_of(before)[k] == name;
            assert(before[k].0@ == name);
            let to = if replaces || k < i {
                k
            } else {
                k + 1
            };
            assert(after[to] == before[k]);
        }
    }
    assert(entries_map(after) =~= goal);
}

impl Metadata {
    #[verifier::type_invariant]
    spec fn ordered(&self) -> bool {
        text::ascending(names_of(self.entries@))
    }

    pub fn new() -> (r: Self)
        ensures
            r@ == Map::<Seq<char>, Seq<char>>::empty(),
    {
        Metadata { entries: Vec::new() }
    }

    /// Puts a list of names and values in order; a later entry replaces an earlier one of
    /// the same name.
    pub fn from_list(list: Vec<(String, String)>) -> (r: Self)
        ensures
            r@ == entries_map(list@),
    {
        let mut entries: Vec<(String, String)> = Vec::new();
        let mut i: usize = 0;
        assert(list@.take(0) =~= Seq::<(String, String)>::empty());
        while i < list.len()
            invariant
                i <= list.len(),
                text::ascending(names_of(entries@)),
                entries_map(entries@) == entries_map(list@.take(i as int)),
            decreases list.len() - i,
        {
            put(&mut entries, list[i].0.clone(), list[i].1.clone());
            assert(list@.take(i + 1).drop_last() =~= list@.take(i as int));
            i = i + 1;
        }
        assert(list@.take(i as int) =~= list@);
        Metadata { entries }
    }

    /// The names and values, in ascending order of names.
    pub fn entries(&self) -> (r: &Vec<(String, String)>)
        ensures
            entries_map(r@) == self@,
            text::ascending(names_of(r@)),
    {
        proof {
            use_type_invariant(self);
        }
        &self.entries
    }

    pub fn insert(&mut self, name: &str, value: &str)
        ensures
            final(self)@ == old(self)@.insert(name@, value@),
    {
        proof {
            use_type_invariant(&*self);
        }
        let mut entries: Vec<(String, String)> = Vec::new();
        std::mem::swap(&mut entries, &mut self.entries);
        put(&mut entries, name.to_owned(), value.to_owned());
        self.entries = entries;
    }

    pub fn get(&self, name: &str) -> (r: Option<&String>)
        ensures
            match r {
                Some(value) => self@.contains_key(name@) && self@[name@] == value@,
                None => !self@.contains_key(name@),
            },
    {
        proof {
            use_type_invariant(self);
            names::lemma_ascending_distinct(names_of(self.entries@));
            lemma_entries(self.entries@);
        }
        match place(&self.entries, name) {
            Ok(i) => {
                assert(self.entries@[i as int].0@ == name@);
                Some(&self.entries[i].1)
            },
            Err(_) => None,
        }
    }

    pub fn duplicate(&self) -> (r: Self)
        ensures
            r@ == self@,
    {
        proof {
            use_type_invariant(self);
        }
        let mut entries: Vec<(String, String)> = Vec::new();
        let mut i: usize = 0;
        while i < self.entries.len()
            invariant
                i <= self.entries.len(),
                entries@ == self.entries@.take(i as int),
            decreases self.entries.len() - i,
        {
            entries.push((self.entries[i].0.clone(), self.entries[i].1.clone()));
            i = i + 1;
        }
        assert(self.entries@.take(i as int) =~= self.entries@);
        Metadata { entries }
    }
}

} // verus!
