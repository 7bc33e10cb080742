//! An in-memory model of the storage tree that notes and nested lists live
//! in: a finite map from a logical name (a note's content hash, or the name of
//! a nested list) to the text stored under it. Whoever embeds the library
//! loads the tree into a `Storage`, lets the library work on it, and writes it
//! back.

use vstd::prelude::*;

verus! {

/// A finite map from names to stored text.
pub struct Storage {
    entries: Vec<(String, String)>,
}

impl View for Storage {
    type V = Map<Seq<char>, Seq<char>>;

    closed spec fn view(&self) -> Map<Seq<char>, Seq<char>> {
        Map::new(
            |name: Seq<char>| exists|i: int| self.holds(name, i),
            |name: Seq<char>| self.entries@[self.slot(name)].1@,
        )
    }
}

impl Storage {
    /// Whether entry `i` is the one stored under `name`.
    spec fn holds(&self, name: Seq<char>, i: int) -> bool {
        0 <= i < self.entries@.len() && self.entries@[i].0@ == name
    }

    /// The entry stored under `name`.
    spec fn slot(&self, name: Seq<char>) -> int {
        choose|i: int| self.holds(name, i)
    }

    /// The names of the first `n` entries.
    spec fn names_before(&self, n: int) -> Set<Seq<char>> {
        Set::new(|name: Seq<char>| exists|i: int| i < n && self.holds(name, i))
    }

    /// No name is stored twice.
    #[verifier::type_invariant]
    spec fn distinct_names(&self) -> bool {
        forall|i: int, j: int|
            0 <= i < j < self.entries@.len() ==> self.entries@[i].0@ != self.entries@[j].0@
    }

    /// The number of entries.
    spec fn count(&self) -> nat {
        self.entries@.len()
    }

    proof fn lemma_names_before(&self, n: int)
        requires
            self.distinct_names(),
            0 <= n <= self.entries@.len(),
        ensures
            self.names_before(n).finite(),
            self.names_before(n).len() == n,
        decreases n,
    {
        if n == 0 {
            assert(self.names_before(0) =~= Set::<Seq<char>>::empty());
        } else {
            self.lemma_names_before(n - 1);
            let last = self.entries@[n - 1].0@;
            assert(self.holds(last, n - 1));
            assert(self.names_before(n) =~= self.names_before(n - 1).insert(last));
            assert(!self.names_before(n - 1).contains(last));
        }
    }

    /// The store holds as many names as its map has keys.
    proof fn lemma_count(&self)
        requires
            self.distinct_names(),
        ensures
            self@.dom().finite(),
            self@.dom().len() == self.count(),
    {
        self.lemma_names_before(self.entries@.len() as int);
        assert(self@.dom() =~= self.names_before(self.entries@.len() as int));
    }

    /// An empty store.
    pub fn new() -> (store: Self)
        ensures
            store@ == Map::<Seq<char>, Seq<char>>::empty(),
    {
        let store = Storage { entries: Vec::new() };
        assert(store@ =~= Map::<Seq<char>, Seq<char>>::empty());
        store
    }

    /// The number of names stored.
    pub fn len(&self) -> (n: usize)
        ensures
            self@.dom().finite(),
            n == self@.dom().len(),
    {
        proof {
            use_type_invariant(&*self);
            self.lemma_count();
        }
        self.entries.len()
    }

    /// Moves the entries out, leaving the store empty until they are put back.
    fn take_entries(&mut self) -> (entries: Vec<(String, String)>)
        ensures
            entries == old(self).entries,
    {
        let mut taken = Storage { entries: Vec::new() };
        core::mem::swap(self, &mut taken);
        taken.entries
    }

    fn position(&self, name: &String) -> (r: Option<usize>)
        ensures
            match r {
                Some(i) => self.holds(name@, i as int),
                None => forall|i: int| !self.holds(name@, i),
            },
    {
        let mut i: usize = 0;
        while i < self.entries.len()
            invariant
                i <= self.entries.len(),
                forall|k: int| 0 <= k < i ==> !self.holds(name@, k),
            decreases self.entries.len() - i,
        {
            if self.entries[i].0 == *name {
                return Some(i);
            }
            i += 1;
        }
        None
    }

    /// The names stored, each once.
    pub fn names(&self) -> (names: Vec<String>)
        ensures
            names@.len() == self@.dom().len(),
            forall|i: int| 0 <= i < names@.len() ==> self@.contains_key(#[trigger] names@[i]@),
            forall|name: Seq<char>| #[trigger]
                self@.contains_key(name) ==> exists|i: int|
                    0 <= i < names@.len() && names@[i]@ == name,
            forall|i: int, j: int| 0 <= i < j < names@.len() ==> names@[i]@ != names@[j]@,
    {
        proof {
            use_type_invariant(&*self);
            self.lemma_count();
        }
        let mut names: Vec<String> = Vec::new();
        let mut i: usize = 0;
        while i < self.entries.len()
            invariant
                i <= self.entries.len(),
                names@.len() == i,
                forall|k: int| 0 <= k < i ==> (#[trigger] names@[k])@ == self.entries@[k].0@,
            decreases self.entries.len() - i,
        {
            names.push(self.entries[i].0.clone());
            i += 1;
        }
        proof {
            assert forall|k: int| 0 <= k < names@.len() implies self@.contains_key(
                #[trigger] names@[k]@,
            ) by {
                assert(self.holds(names@[k]@, k));
            }
            assert forall|name: Seq<char>| #[trigger] self@.contains_key(name) implies exists|
                k: int,
            |
                0 <= k < names@.len() && names@[k]@ == name by {
                let k = self.slot(name);
                assert(self.holds(name, k));
                assert(names@[k]@ == name);
            }
        }
        names
    }

    /// Whether anything is stored under `name`.
    pub fn contains(&self, name: &String) -> (b: bool)
        ensures
            b == self@.contains_key(name@),
    {
        self.position(name).is_some()
    }

    /// The text stored under `name`, if any.
    pub fn get(&self, name: &String) -> (r: Option<&String>)
        ensures
            match r {
                Some(content) => self@.contains_key(name@) && content@ == self@[name@],
                None => !self@.contains_key(name@),
            },
    {
        match self.position(name) {
            Some(i) => {
                proof {
                    use_type_invariant(&*self);
                    assert(self.holds(name@, self.slot(name@)));
                }
                Some(&self.entries[i].1)
            },
            None => None,
        }
    }

    /// Stores `content` under `name`, replacing what was stored there.
    pub fn put(&mut self, name: String, content: String)
        ensures
            final(self)@ == old(self)@.insert(name@, content@),
    {
        proof {
            use_type_invariant(&*self);
        }
        let found = self.position(&name);
        let mut entries = self.take_entries();
        match found {
            Some(i) => {
                entries[i] = (name, content);
                *self = Storage { entries };
                proof {
                    assert forall|k: Seq<char>, j: int| self.holds(k, j) == old(self).holds(
                        k,
                        j,
                    ) by {}
                    assert forall|k: Seq<char>| #[trigger]
                        self@.contains_key(k) && k != name@ implies self@[k] == old(self)@[k] by {
                        assert(old(self).holds(k, self.slot(k)));
                        assert(self.holds(k, old(self).slot(k)));
                    }
                    assert(self.holds(name@, self.slot(name@)));
                    assert(self@ =~= old(self)@.insert(name@, content@));
                }
            },
            None => {
                entries.push((name, content));
                proof {
                    assert forall|i: int, j: int| 0 <= i < j < entries@.len() implies entries@[i].0@
                        != entries@[j].0@ by {
                        if j == entries@.len() - 1 {
                            assert(!old(self).holds(name@, i));
                        }
                    }
                }
                *self = Storage { entries };
                proof {
                    let n = old(self).entries@.len() as int;
                    assert(self.holds(name@, n));
                    assert forall|k: Seq<char>, j: int| old(self).holds(k, j) implies self.holds(
                        k,
                        j,
                    ) by {}
                    assert forall|k: Seq<char>| #[trigger]
                        self@.contains_key(k) && k != name@ implies old(self)@.contains_key(k)
                        && self@[k] == old(self)@[k] by {
                        assert(old(self).holds(k, self.slot(k)));
                        assert(self.holds(k, old(self).slot(k)));
                    }
                    assert(self.holds(name@, self.slot(name@)));
                    assert(self@ =~= old(self)@.insert(name@, content@));
                }
            },
        }
    }

    /// Removes what is stored under `name`; says whether anything was.
    pub fn remove(&mut self, name: &String) -> (removed: bool)
        ensures
            removed == old(self)@.contains_key(name@),
            final(self)@ == old(self)@.remove(name@),
    {
        proof {
            use_type_invariant(&*self);
        }
        match self.position(name) {
            Some(i) => {
                let mut entries = self.take_entries();
                entries.remove(i);
                *self = Storage { entries };
                proof {
                    assert forall|k: Seq<char>, j: int| self.holds(k, j) implies old(self).holds(
                        k,
                        if j < i { j } else { j + 1 },
                    ) by {}
                    assert forall|k: Seq<char>, j: int|
                        old(self).holds(k, j) && j != i implies self.holds(
                        k,
                        if j < i { j } else { j - 1 },
                    ) by {}
                    assert forall|k: Seq<char>| #[trigger]
                        old(self)@.contains_key(k) && k != name@ implies self@.contains_key(k)
                        && self@[k] == old(self)@[k] by {
                        let j = old(self).slot(k);
                        assert(old(self).holds(k, j));
                        assert(self.holds(k, if j < i { j } else { j - 1 }));
                        let m = self.slot(k);
                        assert(self.holds(k, m));
                        assert(old(self).holds(k, if m < i { m } else { m + 1 }));
                    }
                    assert forall|k: Seq<char>| #[trigger]
                        self@.contains_key(k) implies old(self)@.contains_key(k) && k != name@ by {
                        let m = self.slot(k);
                        assert(self.holds(k, m));
                        assert(old(self).holds(k, if m < i { m } else { m + 1 }));
                    }
                    assert(self@ =~= old(self)@.remove(name@));
                }
                true
            },
            None => {
                assert(self@ =~= old(self)@.remove(name@));
                false
            },
        }
    }
}

} // verus!
