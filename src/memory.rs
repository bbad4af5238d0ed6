//! A store that keeps its map in memory only.
use vstd::prelude::*;

use crate::engine::KvsEngine;
use crate::error::Error;

verus! {

/// A map from string keys to string values, held in memory.
pub struct KvStore {
    keys: Vec<String>,
    values: Vec<String>,
    map: Ghost<Map<Seq<char>, Seq<char>>>,
}

impl View for KvStore {
    type V = Map<Seq<char>, Seq<char>>;

    closed spec fn view(&self) -> Map<Seq<char>, Seq<char>> {
        self.map@
    }
}

impl KvStore {
    /// `keys` lists the keys of the map once each, `values` their values.
    pub closed spec fn wf(&self) -> bool {
        &&& self.keys@.len() == self.values@.len()
        &&& forall|i: int|
            0 <= i < self.keys@.len() ==> self.map@.contains_key(#[trigger] self.keys@[i]@)
                && self.map@[self.keys@[i]@] == self.values@[i]@
        &&& forall|k: Seq<char>|
            #[trigger] self.map@.contains_key(k) ==> exists|i: int|
                0 <= i < self.keys@.len() && #[trigger] self.keys@[i]@ == k
        &&& forall|i: int, j: int| 0 <= i < j < self.keys@.len() ==> self.keys@[i]@ != self.keys@[j]@
    }

    /// An empty store.
    pub fn new() -> (r: KvStore)
        ensures
            r.wf(),
            r@ == Map::<Seq<char>, Seq<char>>::empty(),
    {
        KvStore { keys: Vec::new(), values: Vec::new(), map: Ghost(Map::empty()) }
    }

    fn find(&self, key: &String) -> (r: Option<usize>)
        requires
            self.wf(),
        ensures
            r matches Some(i) ==> i < self.keys@.len() && self.keys@[i as int]@ == key@,
            r is None ==> !self@.contains_key(key@),
    {
        let mut i: usize = 0;
        while i < self.keys.len()
            invariant
                self.wf(),
                i <= self.keys@.len(),
                forall|j: int| 0 <= j < i ==> self.keys@[j]@ != key@,
            decreases self.keys@.len() - i,
        {
            if self.keys[i] == *key {
                return Some(i);
            }
            i += 1;
        }
        None
    }

    /// Sets `key` to `value`.
    pub fn set(&mut self, key: String, value: String)
        requires
            old(self).wf(),
        ensures
            final(self).wf(),
            final(self)@ == old(self)@.insert(key@, value@),
    {
        let ghost m = self.map@.insert(key@, value@);
        match self.find(&key) {
            Some(i) => {
                self.values.set(i, value);
                self.map = Ghost(m);
                assert forall|j: int| 0 <= j < self.keys@.len() && j != i implies self.keys@[j]@ != key@ by {
                    if j < i {
                    } else {
                    }
                }
                assert forall|k: Seq<char>| #[trigger] self.map@.contains_key(k) implies exists|j: int|
                    0 <= j < self.keys@.len() && #[trigger] self.keys@[j]@ == k by {
                    if k == key@ {
                        assert(self.keys@[i as int]@ == k);
                    } else {
                        assert(old(self).map@.contains_key(k));
                    }
                }
            },
            None => {
                let ghost n = self.keys@.len();
                self.keys.push(key);
                self.values.push(value);
                self.map = Ghost(m);
                assert forall|j: int| 0 <= j < n implies self.keys@[j]@ != self.keys@[n as int]@ by {
                    assert(old(self).map@.contains_key(old(self).keys@[j]@));
                }
                assert forall|k: Seq<char>| #[trigger] self.map@.contains_key(k) implies exists|j: int|
                    0 <= j < self.keys@.len() && #[trigger] self.keys@[j]@ == k by {
                    if k == self.keys@[n as int]@ {
                    } else {
                        assert(old(self).map@.contains_key(k));
                        let j = choose|j: int| 0 <= j < n && #[trigger] old(self).keys@[j]@ == k;
                        assert(self.keys@[j]@ == k);
                    }
                }
            },
        }
    }

    /// The value of `key`, if it has one.
    pub fn get(&self, key: String) -> (r: Option<String>)
        requires
            self.wf(),
        ensures
            r matches Some(v) ==> self@.contains_key(key@) && self@[key@] == v@,
            r is None ==> !self@.contains_key(key@),
    {
        match self.find(&key) {
            Some(i) => Some(self.values[i].clone()),
            None => None,
        }
    }

    /// Removes `key`, if it has a value.
    pub fn remove(&mut self, key: String)
        requires
            old(self).wf(),
        ensures
            final(self).wf(),
            final(self)@ == old(self)@.remove(key@),
    {
        self.remove_key(&key);
    }

    /// Removes `key`, and tells whether it had a value.
    fn remove_key(&mut self, key: &String) -> (r: bool)
        requires
            old(self).wf(),
        ensures
            final(self).wf(),
            r == old(self)@.contains_key(key@),
            final(self)@ == old(self)@.remove(key@),
    {
        let ghost m = self.map@.remove(key@);
        match self.find(key) {
            Some(i) => {
                self.keys.remove(i);
                self.values.remove(i);
                self.map = Ghost(m);
                assert forall|j: int| 0 <= j < self.keys@.len() implies self.map@.contains_key(
                    #[trigger] self.keys@[j]@,
                ) && self.map@[self.keys@[j]@] == self.values@[j]@ by {
                    let jj = if j < i { j } else { j + 1 };
                    assert(self.keys@[j] == old(self).keys@[jj]);
                    assert(self.values@[j] == old(self).values@[jj]);
                }
                assert forall|k: Seq<char>| #[trigger] self.map@.contains_key(k) implies exists|j: int|
                    0 <= j < self.keys@.len() && #[trigger] self.keys@[j]@ == k by {
                    assert(old(self).map@.contains_key(k));
                    let j = choose|j: int| 0 <= j < old(self).keys@.len() && #[trigger] old(self).keys@[j]@ == k;
                    if j < i {
                        assert(self.keys@[j]@ == k);
                    } else {
                        assert(self.keys@[j - 1]@ == k);
                    }
                }
                assert forall|a: int, b: int| 0 <= a < b < self.keys@.len() implies self.keys@[a]@ != self.keys@[b]@ by {
                    let aa = if a < i { a } else { a + 1 };
                    let bb = if b < i { b } else { b + 1 };
                    assert(self.keys@[a] == old(self).keys@[aa]);
                    assert(self.keys@[b] == old(self).keys@[bb]);
                }
                true
            },
            None => {
                assert(m =~= self.map@);
                false
            },
        }
    }
}

impl KvsEngine for KvStore {
    closed spec fn inv(&self) -> bool {
        self.wf()
    }

    closed spec fn live(&self) -> Map<Seq<char>, Seq<char>> {
        self@
    }

    fn set(&mut self, key: String, value: String) -> (r: Result<(), Error>) {
        KvStore::set(self, key, value);
        Ok(())
    }

    fn get(&mut self, key: String) -> (r: Result<Option<String>, Error>) {
        Ok(KvStore::get(self, key))
    }

    fn remove(&mut self, key: String) -> (r: Result<(), Error>) {
        if self.remove_key(&key) {
            Ok(())
        } else {
            Err(Error::KeyNotFound)
        }
    }
}

} // verus!
