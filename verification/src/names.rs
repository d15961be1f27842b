//! Maps from names.

use crate::text::same;
use vstd::prelude::*;

verus! {

/// A map whose keys are strings. The entries keep the order in which they
/// were put in.
#[derive(Debug)]
pub struct NameMap<V> {
    entries: Vec<(String, V)>,
}

impl<V> View for NameMap<V> {
    type V = Map<Seq<char>, V>;

    closed spec fn view(&self) -> Map<Seq<char>, V> {
        Map::new(
            |k: Seq<char>| self.names().contains(k),
            |k: Seq<char>| self.entries@[self.names().index_of(k)].1,
        )
    }
}

impl<V> NameMap<V> {
    /// The keys, in their order.
    pub closed spec fn names(&self) -> Seq<Seq<char>> {
        Seq::new(self.entries@.len(), |i: int| self.entries@[i].0@)
    }

    #[verifier::type_invariant]
    closed spec fn inv(self) -> bool {
        forall|i: int, j: int|
            0 <= i < j < self.entries@.len() ==> #[trigger] self.entries@[i].0@ != #[trigger] self.entries@[j].0@
    }

    proof fn at(&self, i: int)
        requires
            self.inv(),
            0 <= i < self.entries@.len(),
        ensures
            self.names()[i] == self.entries@[i].0@,
            self@.dom().contains(self.entries@[i].0@),
            self@[self.entries@[i].0@] == self.entries@[i].1,
    {
        let k = self.entries@[i].0@;
        assert(self.names()[i] == k);
        let j = self.names().index_of(k);
        assert(self.names().contains(k));
        assert(self.names()[j] == k);
    }

    /// A map with nothing in it.
    pub fn new() -> (r: Self)
        ensures
            r@ == Map::<Seq<char>, V>::empty(),
            r.names() == Seq::<Seq<char>>::empty(),
    {
        let r = NameMap { entries: Vec::new() };
        assert(r.names() =~= Seq::<Seq<char>>::empty());
        assert(r@ =~= Map::<Seq<char>, V>::empty());
        r
    }

    /// No key stands twice among the names, and they are the keys.
    pub open spec fn keyed(&self) -> bool {
        &&& self.names().no_duplicates()
        &&& forall|k: Seq<char>| #[trigger] self@.dom().contains(k) <==> self.names().contains(k)
    }

    /// How many keys there are. No key stands twice.
    pub fn len(&self) -> (n: usize)
        ensures
            n == self.names().len(),
            self.keyed(),
    {
        proof {
            use_type_invariant(self);
            assert forall|i: int, j: int|
                0 <= i < self.names().len() && 0 <= j < self.names().len() && i
                    != j implies self.names()[i] != self.names()[j] by {
                if i < j {
                    assert(self.entries@[i].0@ != self.entries@[j].0@);
                } else {
                    assert(self.entries@[j].0@ != self.entries@[i].0@);
                }
            }
        }
        self.entries.len()
    }

    pub fn key_at(&self, i: usize) -> (k: &String)
        requires
            i < self.names().len(),
        ensures
            k@ == self.names()[i as int],
            self@.dom().contains(k@),
    {
        proof {
            use_type_invariant(self);
            self.at(i as int);
        }
        &self.entries[i].0
    }

    pub fn value_at(&self, i: usize) -> (v: &V)
        requires
            i < self.names().len(),
        ensures
            *v == self@[self.names()[i as int]],
    {
        proof {
            use_type_invariant(self);
            self.at(i as int);
        }
        &self.entries[i].1
    }

    fn position(&self, key: &str) -> (r: Option<usize>)
        ensures
            match r {
                Some(i) => i < self.entries@.len() && self.entries@[i as int].0@ == key@,
                None => forall|i: int|
                    0 <= i < self.entries@.len() ==> #[trigger] self.entries@[i].0@ != key@,
            },
    {
        let mut i: usize = 0;
        while i < self.entries.len()
            invariant
                i <= self.entries.len(),
                forall|k: int| 0 <= k < i ==> #[trigger] self.entries@[k].0@ != key@,
            decreases self.entries.len() - i,
        {
            if same(self.entries[i].0.as_str(), key) {
                return Some(i);
            }
            i += 1;
        }
        None
    }

    /// The value of a key.
    pub fn get(&self, key: &str) -> (r: Option<&V>)
        ensures
            match r {
                Some(v) => self@.dom().contains(key@) && *v == self@[key@],
                None => !self@.dom().contains(key@),
            },
    {
        proof {
            use_type_invariant(self);
        }
        match self.position(key) {
            Some(i) => {
                proof {
                    self.at(i as int);
                }
                Some(&self.entries[i].1)
            },
            None => {
                assert(!self.names().contains(key@));
                None
            },
        }
    }

    /// Whether there is a value for the key.
    pub fn contains(&self, key: &str) -> (r: bool)
        ensures
            r == self@.dom().contains(key@),
    {
        self.get(key).is_some()
    }

    /// Gives a key a value, in place of the one it had.
    pub fn insert(&mut self, key: String, value: V)
        ensures
            final(self)@ == old(self)@.insert(key@, value),
            final(self).names() == (if old(self)@.dom().contains(key@) {
                old(self).names()
            } else {
                old(self).names().push(key@)
            }),
    {
        proof {
            use_type_invariant(&*self);
        }
        let ghost before = *self;
        let at = self.position(key.as_str());
        let mut entries: Vec<(String, V)> = Vec::new();
        std::mem::swap(&mut entries, &mut self.entries);
        match at {
            Some(i) => {
                entries.set(i, (key, value));
            },
            None => {
                entries.push((key, value));
            },
        }
        proof {
            assert forall|i: int, j: int| 0 <= i < j < entries@.len() implies #[trigger] entries@[i].0@
                != #[trigger] entries@[j].0@ by {
                if j < before.entries@.len() {
                    assert(before.entries@[i].0@ != before.entries@[j].0@);
                } else {
                    assert(before.entries@[i].0@ != key@);
                }
            }
        }
        self.entries = entries;
        proof {
            let n = before.entries@.len();
            match at {
                Some(i) => {
                    before.at(i as int);
                    assert(self.names() =~= before.names());
                },
                None => {
                    assert(!before.names().contains(key@));
                    assert(self.names() =~= before.names().push(key@));
                },
            }
            assert forall|k: Seq<char>| self@.dom().contains(k) == before@.insert(
                key@,
                value,
            ).dom().contains(k) by {
                if before.names().contains(k) {
                    let i = before.names().index_of(k);
                    assert(self.names()[i] == k);
                }
                if k == key@ && at is None {
                    assert(self.names()[n as int] == k);
                }
                if self.names().contains(k) {
                    let i = self.names().index_of(k);
                    if i < n {
                        assert(before.names()[i] == k);
                    }
                }
            }
            assert forall|k: Seq<char>| self@.dom().contains(k) implies self@[k] == before@.insert(
                key@,
                value,
            )[k] by {
                let i = self.names().index_of(k);
                self.at(i);
                if k != key@ {
                    assert(i < n);
                    before.at(i);
                }
            }
            assert(self@ =~= before@.insert(key@, value));
        }
    }

    /// Takes a key out of the map.
    pub fn remove(&mut self, key: &str) -> (r: Option<V>)
        ensures
            final(self)@ == old(self)@.remove(key@),
            match r {
                Some(v) => old(self)@.dom().contains(key@) && v == old(self)@[key@],
                None => !old(self)@.dom().contains(key@),
            },
    {
        proof {
            use_type_invariant(&*self);
        }
        let ghost before = *self;
        match self.position(key) {
            None => {
                assert(!self.names().contains(key@));
                assert(self@ =~= before@.remove(key@));
                None
            },
            Some(i) => {
                let mut entries: Vec<(String, V)> = Vec::new();
                std::mem::swap(&mut entries, &mut self.entries);
                let (_, value) = entries.remove(i);
                proof {
                    assert forall|a: int, b: int|
                        0 <= a < b < entries@.len() implies #[trigger] entries@[a].0@
                        != #[trigger] entries@[b].0@ by {
                        let x = if a < i { a } else { a + 1 };
                        let y = if b < i { b } else { b + 1 };
                        assert(before.entries@[x].0@ != before.entries@[y].0@);
                    }
                }
                self.entries = entries;
                proof {
                    before.at(i as int);
                    assert forall|k: Seq<char>| self@.dom().contains(k) == before@.remove(
                        key@,
                    ).dom().contains(k) by {
                        if self.names().contains(k) {
                            let a = self.names().index_of(k);
                            let x = if a < i { a } else { a + 1 };
                            assert(before.names()[x] == k);
                            if x < i {
                                assert(before.entries@[x].0@ != before.entries@[i as int].0@);
                            } else {
                                assert(before.entries@[i as int].0@ != before.entries@[x].0@);
                            }
                        }
                        if before.names().contains(k) && k != key@ {
                            let x = before.names().index_of(k);
                            let a = if x < i { x } else { x - 1 };
                            assert(self.names()[a] == k);
                        }
                    }
                    assert forall|k: Seq<char>| self@.dom().contains(k) implies self@[k] == before@.remove(
                        key@,
                    )[k] by {
                        let a = self.names().index_of(k);
                        let x = if a < i { a } else { a + 1 };
                        self.at(a);
                        before.at(x);
                    }
                    assert(self@ =~= before@.remove(key@));
                }
                Some(value)
            },
        }
    }
}

} // verus!
