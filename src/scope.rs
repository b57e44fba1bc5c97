//! The global scope: the names defined in one session and their values.
use vstd::prelude::*;

use crate::value::{Term, Value};

verus! {

/// The global scope holds all global names defined in a session, each with
/// the value last assigned to it.
#[derive(Debug)]
pub struct GlobalScope {
    entries: Vec<(String, Value)>,
}

impl View for GlobalScope {
    type V = Map<Seq<char>, Term>;

    closed spec fn view(&self) -> Map<Seq<char>, Term> {
        Map::new(
            |k: Seq<char>| self.holds(k),
            |k: Seq<char>| self.entries@[self.index_of(k)].1@,
        )
    }
}

impl GlobalScope {
    /// Whether an entry is named `k`.
    closed spec fn holds(&self, k: Seq<char>) -> bool {
        exists|i: int| 0 <= i < self.entries.len() && #[trigger] self.entries@[i].0@ == k
    }

    /// The position of the entry named `k`.
    closed spec fn index_of(&self, k: Seq<char>) -> int {
        choose|i: int| 0 <= i < self.entries.len() && #[trigger] self.entries@[i].0@ == k
    }

    /// Well-formedness: no two entries share a name.
    pub closed spec fn wf(&self) -> bool {
        forall|i: int, j: int|
            0 <= i < self.entries.len() && 0 <= j < self.entries.len() && i != j
                ==> #[trigger] self.entries@[i].0@ != #[trigger] self.entries@[j].0@
    }

    proof fn lemma_index_of(&self, i: int)
        requires
            self.wf(),
            0 <= i < self.entries.len(),
        ensures
            self.holds(self.entries@[i].0@),
            self.index_of(self.entries@[i].0@) == i,
    {
        let k = self.entries@[i].0@;
        assert(self.entries@[i].0@ == k);
        let j = self.index_of(k);
        assert(0 <= j < self.entries.len() && self.entries@[j].0@ == k);
    }

    /// An empty scope.
    pub fn new() -> (r: GlobalScope)
        ensures
            r.wf(),
            r@ == Map::<Seq<char>, Term>::empty(),
    {
        let r = GlobalScope { entries: Vec::new() };
        assert(r@ =~= Map::<Seq<char>, Term>::empty());
        r
    }

    /// The position of the entry named `key`, if there is one.
    fn find(&self, key: &String) -> (r: Option<usize>)
        requires
            self.wf(),
        ensures
            r is None <==> !self@.contains_key(key@),
            r matches Some(i) ==> i < self.entries.len() && self.entries@[i as int].0@ == key@
                && self@[key@] == self.entries@[i as int].1@,
    {
        let mut i: usize = 0;
        while i < self.entries.len()
            invariant
                self.wf(),
                i <= self.entries.len(),
                forall|j: int| 0 <= j < i ==> self.entries@[j].0@ != key@,
            decreases self.entries.len() - i,
        {
            if self.entries[i].0 == *key {
                proof {
                    self.lemma_index_of(i as int);
                }
                return Some(i);
            }
            i = i + 1;
        }
        assert(!self.holds(key@));
        None
    }

    /// The value of the given name, if the scope holds it.
    pub fn get(&self, name: &str) -> (r: Option<&Value>)
        requires
            self.wf(),
        ensures
            r is Some <==> self@.contains_key(name@),
            r matches Some(v) ==> v@ == self@[name@],
    {
        let key = String::from_str(name);
        match self.find(&key) {
            Some(i) => Some(&self.entries[i].1),
            None => None,
        }
    }

    /// Stores `val` under `name`, replacing any earlier value, and returns the
    /// stored value.
    pub fn set(&mut self, name: &str, val: Value) -> (r: &Value)
        requires
            old(self).wf(),
        ensures
            final(self).wf(),
            final(self)@ == old(self)@.insert(name@, val@),
            r@ == val@,
    {
        let key = String::from_str(name);
        let ghost prev = self.entries@;
        let ghost v = val@;
        let i = match self.find(&key) {
            Some(i) => {
                self.entries.set(i, (key, val));
                i
            },
            None => {
                self.entries.push((key, val));
                self.entries.len() - 1
            },
        };
        proof {
            assert(self.entries@[i as int].0@ == name@);
            assert forall|a: int, b: int|
                0 <= a < self.entries.len() && 0 <= b < self.entries.len() && a != b
                    implies #[trigger] self.entries@[a].0@ != #[trigger] self.entries@[b].0@ by {
                if a != i as int && b != i as int {
                    assert(prev[a] == self.entries@[a] && prev[b] == self.entries@[b]);
                } else if a == i as int {
                    if b < prev.len() {
                        assert(prev[b] == self.entries@[b]);
                    }
                } else {
                    if a < prev.len() {
                        assert(prev[a] == self.entries@[a]);
                    }
                }
            }
            self.lemma_index_of(i as int);
            assert forall|k: Seq<char>| k != name@ implies (self.holds(k) == old(self).holds(k)
                && (self.holds(k) ==> self@[k] == old(self)@[k])) by {
                if self.holds(k) {
                    let j = self.index_of(k);
                    assert(j != i);
                    assert(self.entries@[j] == prev[j]);
                    old(self).lemma_index_of(j);
                }
                if old(self).holds(k) {
                    let j = old(self).index_of(k);
                    assert(self.entries@[j] == prev[j]);
                    self.lemma_index_of(j);
                }
            }
            assert(self@ =~= old(self)@.insert(name@, v));
        }
        &self.entries[i].1
    }
}

} // verus!
