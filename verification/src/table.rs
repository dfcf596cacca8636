//! A table from a name to a set of names, kept as a list of entries in which
//! no key and no member of an entry stands twice. A key that was filed once
//! stays in the table, even when nothing is left under it.

use vstd::prelude::*;
use crate::names::{names, position, copy_names, lemma_names_push, lemma_names_remove, lemma_push_set, lemma_remove_set};
use crate::relation::{SetMap, members_of, with_member, without_member};

verus! {

/// One key with what is filed under it.
struct SetEntry {
    key: String,
    members: Vec<String>,
}

/// The table: its view is the mapping from each key to its set of members.
pub struct SetTable {
    entries: Vec<SetEntry>,
}

impl SetEntry {
    /// The members of the entry, as a set.
    spec fn set(&self) -> Set<Seq<char>> {
        names(self.members@).to_set()
    }

    /// No member stands in the entry twice.
    spec fn wf(&self) -> bool {
        names(self.members@).no_duplicates()
    }
}

impl View for SetTable {
    type V = SetMap;

    closed spec fn view(&self) -> SetMap {
        Map::new(
            |k: Seq<char>| self.keys().contains(k),
            |k: Seq<char>| self.entries[self.keys().index_of(k)].set(),
        )
    }
}

impl SetTable {
    /// The keys of the entries, in the order of the list.
    spec fn keys(&self) -> Seq<Seq<char>> {
        self.entries@.map_values(|e: SetEntry| e.key@)
    }

    /// No key stands in the table twice, and no member twice in an entry.
    pub closed spec fn wf(&self) -> bool {
        &&& self.keys().no_duplicates()
        &&& forall|i: int| 0 <= i < self.entries.len() ==> (#[trigger] self.entries[i]).wf()
    }

    /// The entry at `i` is what the view holds for its key.
    proof fn lemma_entry(&self, i: int)
        requires
            self.wf(),
            0 <= i < self.entries.len(),
        ensures
            self@.dom().contains(self.entries[i].key@),
            self@[self.entries[i].key@] == self.entries[i].set(),
            self.keys().index_of(self.entries[i].key@) == i,
    {
        let k = self.entries[i].key@;
        assert(self.keys()[i] == k);
        let j = self.keys().index_of(k);
        assert(0 <= j < self.keys().len() && self.keys()[j] == k);
    }

    /// A table that differs from `self` in the members of entry `i` alone
    /// differs from it in the set under that key alone.
    proof fn lemma_replaced(&self, after: &SetTable, i: int)
        requires
            self.wf(),
            0 <= i < self.entries.len(),
            after.entries.len() == self.entries.len(),
            after.entries[i].key@ == self.entries[i].key@,
            after.entries[i].wf(),
            forall|j: int| 0 <= j < self.entries.len() && j != i ==> after.entries[j] == self.entries[j],
        ensures
            after.wf(),
            after@ == self@.insert(self.entries[i].key@, after.entries[i].set()),
    {
        assert(after.keys() =~= self.keys());
        assert forall|j: int| 0 <= j < after.entries.len() implies (#[trigger] after.entries[j]).wf() by {
            if j != i {
                assert(self.entries[j].wf());
            }
        }
        let k = self.entries[i].key@;
        let goal = self@.insert(k, after.entries[i].set());
        self.lemma_entry(i);
        after.lemma_entry(i);
        assert forall|x: Seq<char>| after@.dom().contains(x) implies #[trigger] after@[x] == goal[x] by {
            let j = self.keys().index_of(x);
            assert(0 <= j < self.keys().len() && self.keys()[j] == x);
            if j != i {
                assert(x != k);
            }
        }
        assert(after@ =~= goal);
    }

    /// A table that has one more entry than `self`, under a new key, has one
    /// more key in its view.
    proof fn lemma_appended(&self, after: &SetTable, e: SetEntry)
        requires
            self.wf(),
            e.wf(),
            !self.keys().contains(e.key@),
            after.entries@ == self.entries@.push(e),
        ensures
            after.wf(),
            after@ == self@.insert(e.key@, e.set()),
    {
        assert(after.keys() =~= self.keys().push(e.key@));
        lemma_push_set(self.keys(), e.key@);
        assert forall|j: int| 0 <= j < after.entries.len() implies (#[trigger] after.entries[j]).wf() by {
            if j < self.entries.len() {
                assert(self.entries[j].wf());
            }
        }
        let goal = self@.insert(e.key@, e.set());
        let n = self.entries.len() as int;
        after.lemma_entry(n);
        assert forall|x: Seq<char>| goal.dom().contains(x) implies after@.dom().contains(x) by {
            if x != e.key@ {
                let j = self.keys().index_of(x);
                assert(0 <= j < self.keys().len() && self.keys()[j] == x);
                assert(after.keys()[j] == x);
            }
        }
        assert forall|x: Seq<char>| after@.dom().contains(x) implies goal.dom().contains(x) && #[trigger] after@[x] == goal[x] by {
            let j = after.keys().index_of(x);
            assert(0 <= j < after.keys().len() && after.keys()[j] == x);
            if j < n {
                assert(self.keys()[j] == x);
                self.lemma_entry(j);
                after.lemma_entry(j);
            }
        }
        assert(after@ =~= goal);
    }

    /// The table without entries.
    pub fn new() -> (r: SetTable)
        ensures
            r.wf(),
            r@ == Map::<Seq<char>, Set<Seq<char>>>::empty(),
    {
        let r = SetTable { entries: Vec::new() };
        assert(r.keys() =~= Seq::empty());
        assert(r@ =~= Map::<Seq<char>, Set<Seq<char>>>::empty());
        r
    }

    /// Where the entry of `key` stands in the list, if the key is known.
    fn find(&self, key: &String) -> (r: Option<usize>)
        requires
            self.wf(),
        ensures
            match r {
                Some(i) => i < self.entries.len() && self.entries[i as int].key@ == key@,
                None => !self.keys().contains(key@),
            },
            r.is_some() == self@.dom().contains(key@),
    {
        let mut i: usize = 0;
        while i < self.entries.len()
            invariant
                i <= self.entries.len(),
                forall|j: int| 0 <= j < i ==> self.entries[j].key@ != key@,
            decreases self.entries.len() - i,
        {
            if self.entries[i].key == *key {
                assert(self.keys()[i as int] == key@);
                return Some(i);
            }
            i += 1;
        }
        None
    }

    /// Whether `key` is known, with or without members.
    pub fn contains_key(&self, key: &str) -> (r: bool)
        requires
            self.wf(),
        ensures
            r == self@.dom().contains(key@),
    {
        let k = key.to_owned();
        self.find(&k).is_some()
    }

    /// Files `member` under `key`. The key becomes known if it was not.
    pub fn add(&mut self, key: &str, member: &str)
        requires
            old(self).wf(),
        ensures
            final(self).wf(),
            final(self)@ == with_member(old(self)@, key@, member@),
    {
        let k = key.to_owned();
        let m = member.to_owned();
        let ghost before = *self;
        match self.find(&k) {
            Some(i) => {
                proof {
                    before.lemma_entry(i as int);
                    assert(before.entries[i as int].wf());
                }
                match position(&self.entries[i].members, &m) {
                    None => {
                        self.entries[i].members.push(m);
                        proof {
                            lemma_names_push(before.entries[i as int].members@, m);
                            lemma_push_set(names(before.entries[i as int].members@), m@);
                            before.lemma_replaced(self, i as int);
                        }
                    },
                    Some(j) => {
                        assert(names(before.entries[i as int].members@)[j as int] == m@);
                        assert(before.entries[i as int].set().insert(m@) =~= before.entries[i as int].set());
                        assert(self@ =~= with_member(before@, key@, member@));
                    },
                }
            },
            None => {
                let mut members: Vec<String> = Vec::new();
                members.push(m);
                let e = SetEntry { key: k, members };
                proof {
                    lemma_names_push(Seq::<String>::empty(), m);
                    lemma_push_set(Seq::<Seq<char>>::empty(), m@);
                    assert(names(Seq::<String>::empty()) =~= Seq::<Seq<char>>::empty());
                    assert(e.members@ =~= Seq::<String>::empty().push(m));
                    assert(Seq::<Seq<char>>::empty().to_set() =~= Set::<Seq<char>>::empty());
                }
                self.entries.push(e);
                proof {
                    before.lemma_appended(self, e);
                }
            },
        }
    }

    /// Takes `member` out from under `key`. The key stays known; an unknown
    /// key stays unknown.
    pub fn discard(&mut self, key: &str, member: &str)
        requires
            old(self).wf(),
        ensures
            final(self).wf(),
            final(self)@ == without_member(old(self)@, key@, member@),
    {
        let k = key.to_owned();
        let m = member.to_owned();
        let ghost before = *self;
        match self.find(&k) {
            Some(i) => {
                proof {
                    before.lemma_entry(i as int);
                    assert(before.entries[i as int].wf());
                }
                match position(&self.entries[i].members, &m) {
                    Some(j) => {
                        let _gone = self.entries[i].members.remove(j);
                        proof {
                            let old_members = before.entries[i as int].members@;
                            lemma_names_remove(old_members, j as int);
                            lemma_remove_set(names(old_members), j as int);
                            before.lemma_replaced(self, i as int);
                        }
                    },
                    None => {
                        assert(before.entries[i as int].set().remove(m@) =~= before.entries[i as int].set());
                        assert(self@ =~= without_member(before@, key@, member@));
                    },
                }
            },
            None => {},
        }
    }

    /// What is filed under `key`, each member once, in no order that callers
    /// may rely on. Nothing for an unknown key.
    pub fn members(&self, key: &str) -> (r: Vec<String>)
        requires
            self.wf(),
        ensures
            names(r@).no_duplicates(),
            names(r@).to_set() == members_of(self@, key@),
            !self@.dom().contains(key@) ==> r@.len() == 0,
    {
        let k = key.to_owned();
        match self.find(&k) {
            Some(i) => {
                proof {
                    self.lemma_entry(i as int);
                    assert(self.entries[i as int].wf());
                }
                copy_names(&self.entries[i].members)
            },
            None => {
                let r: Vec<String> = Vec::new();
                assert(names(r@) =~= Seq::<Seq<char>>::empty());
                assert(names(r@).to_set() =~= Set::<Seq<char>>::empty());
                r
            },
        }
    }
}

} // verus!
