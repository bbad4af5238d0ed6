//! The storage engines.
use vstd::prelude::*;

use crate::error::Error;

pub mod kvs;
pub mod sled;

pub use self::sled::{SledKvsEngine, SledStore};
pub use kvs::KvStore;

verus! {

/// What a store offers: set, get and remove on string keys and values. Each
/// operation may fail where the storage underneath fails; what is promised
/// is what holds when it succeeds. A remove of a key that is not live fails,
/// with `KeyNotFound` where nothing else went wrong.
pub trait KvsEngine {
    /// The store's internal invariant, which every operation keeps.
    spec fn inv(&self) -> bool;

    /// The live keys and their values.
    spec fn live(&self) -> Map<Seq<char>, Seq<char>>;

    /// Sets `key` to `value`.
    fn set(&mut self, key: String, value: String) -> (r: Result<(), Error>)
        requires
            old(self).inv(),
        ensures
            final(self).inv(),
            r is Ok ==> final(self).live() == old(self).live().insert(key@, value@),
    ;

    /// The value of `key`, if it is live.
    fn get(&mut self, key: String) -> (r: Result<Option<String>, Error>)
        requires
            old(self).inv(),
        ensures
            final(self).inv(),
            final(self).live() == old(self).live(),
            r matches Ok(Some(v)) ==> old(self).live().contains_key(key@) && old(self).live()[key@]
                == v@,
            r matches Ok(None) ==> !old(self).live().contains_key(key@),
    ;

    /// Removes `key`. A key that is not live fails, with `KeyNotFound` where
    /// nothing else went wrong, and leaves the live map as it was.
    fn remove(&mut self, key: String) -> (r: Result<(), Error>)
        requires
            old(self).inv(),
        ensures
            final(self).inv(),
            !old(self).live().contains_key(key@) ==> r is Err && final(self).live() == old(
                self,
            ).live(),
            r is Ok ==> old(self).live().contains_key(key@) && final(self).live() == old(
                self,
            ).live().remove(key@),
    ;
}

/// Whether `name` is among the entries of a directory.
pub fn has_entry(entries: &Vec<String>, name: &str) -> (r: bool)
    ensures
        r == exists|i: int| 0 <= i < entries@.len() && (#[trigger] entries@[i])@ == name@,
{
    let target = name.to_owned();
    let mut i: usize = 0;
    while i < entries.len()
        invariant
            i <= entries@.len(),
            target@ == name@,
            forall|j: int| 0 <= j < i ==> (#[trigger] entries@[j])@ != name@,
        decreases entries@.len() - i,
    {
        if entries[i] == target {
            return true;
        }
        i += 1;
    }
    false
}

} // verus!
