//! The engine over sled, an embedded database of byte strings.
use vstd::prelude::*;
use vstd::string::StringExecFns;
use vstd::utf8::{decode_utf8, encode_utf8, valid_utf8};

use crate::engine::{has_entry, KvsEngine};
use crate::error::Error;

verus! {

broadcast use {vstd::utf8::encode_utf8_decode_utf8, vstd::utf8::encode_utf8_valid_utf8};

/// Relies on sled::Db, a handle on an open database.
#[verifier::external_type_specification]
#[verifier::external_body]
pub struct ExDb(sled::Db);

/// What a sled database holds: the bytes of each key and of its value.
pub uninterp spec fn sled_contents(db: sled::Db) -> Map<Seq<u8>, Seq<u8>>;

/// A failure that sled reported.
pub enum SledFault {
    /// sled's `CollectionNotFound`: the collection no longer exists.
    CollectionNotFound,
    /// Any other failure of sled, with its message.
    Other(String),
}

/// Relies on sled::open: opens, or creates, the database at `path`. What it
/// holds is what is on disk there, so nothing is promised of it.
#[verifier::external_body]
fn sled_open(path: &str) -> (r: Result<sled::Db, SledFault>) {
    match sled::open(path) {
        Ok(db) => Ok(db),
        Err(sled::Error::CollectionNotFound(_)) => Err(SledFault::CollectionNotFound),
        Err(e) => Err(SledFault::Other(e.to_string())),
    }
}

/// Relies on sled::Tree::insert: afterwards `key` maps to `value`, and the
/// other keys are as they were.
#[verifier::external_body]
fn sled_insert(db: &mut sled::Db, key: &[u8], value: &[u8]) -> (r: Result<(), SledFault>)
    ensures
        r is Ok ==> sled_contents(*final(db)) == sled_contents(*old(db)).insert(key@, value@),
{
    match db.insert(key, value) {
        Ok(_) => Ok(()),
        Err(sled::Error::CollectionNotFound(_)) => Err(SledFault::CollectionNotFound),
        Err(e) => Err(SledFault::Other(e.to_string())),
    }
}

/// Relies on sled::Tree::get: the value of `key`, if it has one.
#[verifier::external_body]
fn sled_get(db: &sled::Db, key: &[u8]) -> (r: Result<Option<Vec<u8>>, SledFault>)
    ensures
        r matches Ok(Some(v)) ==> sled_contents(*db).contains_key(key@) && sled_contents(
            *db,
        )[key@] == v@,
        r matches Ok(None) ==> !sled_contents(*db).contains_key(key@),
{
    match db.get(key) {
        Ok(v) => Ok(v.map(|v| v.to_vec())),
        Err(sled::Error::CollectionNotFound(_)) => Err(SledFault::CollectionNotFound),
        Err(e) => Err(SledFault::Other(e.to_string())),
    }
}

/// Relies on sled::Tree::remove: drops `key`, and tells whether it had a
/// value. Removing a key that has no value is a no-op whatever the outcome
/// (`insert_inner` returns before writing anything when the value is
/// already absent).
#[verifier::external_body]
fn sled_remove(db: &mut sled::Db, key: &[u8]) -> (r: Result<bool, SledFault>)
    ensures
        !sled_contents(*old(db)).contains_key(key@) ==> sled_contents(*final(db)) == sled_contents(
            *old(db),
        ),
        r matches Ok(had) ==> had == sled_contents(*old(db)).contains_key(key@),
        r is Ok ==> sled_contents(*final(db)) == sled_contents(*old(db)).remove(key@),
{
    match db.remove(key) {
        Ok(old) => Ok(old.is_some()),
        Err(sled::Error::CollectionNotFound(_)) => Err(SledFault::CollectionNotFound),
        Err(e) => Err(SledFault::Other(e.to_string())),
    }
}

/// Relies on sled::Tree::flush: writes the buffered changes to disk; what the
/// database holds stays as it is.
#[verifier::external_body]
fn sled_flush(db: &sled::Db) -> (r: Result<(), SledFault>) {
    match db.flush() {
        Ok(_) => Ok(()),
        Err(sled::Error::CollectionNotFound(_)) => Err(SledFault::CollectionNotFound),
        Err(e) => Err(SledFault::Other(e.to_string())),
    }
}

/// Relies on String::from_utf8: the string whose UTF-8 bytes these are, and a
/// failure where they are not valid UTF-8.
#[verifier::external_body]
fn utf8_string(bytes: Vec<u8>) -> (r: Result<String, String>)
    ensures
        r is Ok <==> valid_utf8(bytes@),
        r matches Ok(s) ==> encode_utf8(s@) == bytes@,
{
    String::from_utf8(bytes).map_err(|e| e.to_string())
}

impl Error {
    /// The error for a failure of sled.
    pub open spec fn from_sled_spec(f: SledFault) -> Error {
        match f {
            SledFault::CollectionNotFound => Error::KeyNotFound,
            SledFault::Other(msg) => Error::SledError(msg),
        }
    }

    /// The error for a failure of sled: a missing collection is a missing
    /// key, anything else a `SledError` with sled's message.
    pub fn from_sled(f: SledFault) -> (r: Error)
        ensures
            r == Error::from_sled_spec(f),
    {
        match f {
            SledFault::CollectionNotFound => Error::KeyNotFound,
            SledFault::Other(msg) => Error::SledError(msg),
        }
    }
}

/// The outcome of a remove, from whether sled had a value for the key and
/// how the flush after it ended: a failed flush is that failure, else the
/// remove succeeds exactly where there was a value, and is `KeyNotFound`
/// where there was none.
pub fn remove_outcome(removed: bool, flushed: Result<(), SledFault>) -> (r: Result<(), Error>)
    ensures
        flushed is Ok ==> (r is Ok <==> removed),
        flushed is Ok && !removed ==> (r matches Err(e) && e is KeyNotFound),
        flushed matches Err(f) ==> r == Err::<(), Error>(Error::from_sled_spec(f)),
{
    match flushed {
        Err(f) => Err(Error::from_sled(f)),
        Ok(()) => if removed {
            Ok(())
        } else {
            Err(Error::KeyNotFound)
        },
    }
}

/// The path of entry `name` in directory `dir`.
pub fn entry_path(dir: &str, name: &str) -> (r: String)
    ensures
        r@ == dir@ + seq!['/'] + name@,
{
    let mut r = String::from_str(dir);
    proof {
        reveal_strlit("/");
    }
    r.append("/");
    r.append(name);
    r
}

/// The map of strings that a database of byte strings stands for: each key
/// whose UTF-8 bytes are there, with the string that its value's bytes
/// encode (a value that is not UTF-8 cannot be read as a string).
pub open spec fn string_map(contents: Map<Seq<u8>, Seq<u8>>) -> Map<Seq<char>, Seq<char>> {
    Map::new(
        |k: Seq<char>| contents.contains_key(encode_utf8(k)),
        |k: Seq<char>| decode_utf8(contents[encode_utf8(k)]),
    )
}

/// The engine over sled.
pub struct SledKvsEngine {
    db: sled::Db,
}

impl SledKvsEngine {
    /// The name of the database's directory in the store's directory.
    pub const LOG_NAME: &'static str = "sled";

    /// What the database holds.
    pub closed spec fn contents(&self) -> Map<Seq<u8>, Seq<u8>> {
        sled_contents(self.db)
    }

    /// Whether a directory with these entries holds this engine's database.
    pub fn is_log_present(entries: &Vec<String>) -> (r: bool)
        ensures
            r == exists|i: int| 0 <= i < entries@.len() && (#[trigger] entries@[i])@ == Self::LOG_NAME@,
    {
        has_entry(entries, Self::LOG_NAME)
    }

    /// Opens, or creates, the database in directory `dir`.
    pub fn open(dir: &str) -> (r: Result<SledKvsEngine, Error>)
        ensures
            r matches Err(e) ==> e is SledError || e is KeyNotFound,
    {
        let path = entry_path(dir, Self::LOG_NAME);
        match sled_open(path.as_str()) {
            Ok(db) => Ok(SledKvsEngine { db }),
            Err(f) => Err(Error::from_sled(f)),
        }
    }
}

impl KvsEngine for SledKvsEngine {
    open spec fn inv(&self) -> bool {
        true
    }

    open spec fn live(&self) -> Map<Seq<char>, Seq<char>> {
        string_map(self.contents())
    }

    /// Inserts, then flushes.
    fn set(&mut self, key: String, value: String) -> (r: Result<(), Error>) {
        let ghost before = self.contents();
        let k = key.as_str().as_bytes();
        let v = value.as_str().as_bytes();
        if let Err(f) = sled_insert(&mut self.db, k, v) {
            return Err(Error::from_sled(f));
        }
        proof {
            let after = self.contents();
            assert forall|k2: Seq<char>| k2 != key@ implies #[trigger] encode_utf8(k2) != encode_utf8(key@) by {
                assert(decode_utf8(encode_utf8(k2)) == k2);
            }
            assert(string_map(after) =~= string_map(before).insert(key@, value@));
        }
        match sled_flush(&self.db) {
            Ok(()) => Ok(()),
            Err(f) => Err(Error::from_sled(f)),
        }
    }

    /// Fetches, and reads the bytes as UTF-8.
    fn get(&mut self, key: String) -> (r: Result<Option<String>, Error>) {
        let k = key.as_str().as_bytes();
        match sled_get(&self.db, k) {
            Ok(Some(bytes)) => match utf8_string(bytes) {
                Ok(s) => {
                    assert(decode_utf8(encode_utf8(s@)) == s@);
                    Ok(Some(s))
                },
                Err(msg) => Err(Error::DeserializeError(msg)),
            },
            Ok(None) => Ok(None),
            Err(f) => Err(Error::from_sled(f)),
        }
    }

    /// Removes, flushes, and reports a key that had no value as
    /// `KeyNotFound` (see `remove_outcome`).
    fn remove(&mut self, key: String) -> (r: Result<(), Error>) {
        let ghost before = self.contents();
        let k = key.as_str().as_bytes();
        let had = match sled_remove(&mut self.db, k) {
            Ok(had) => had,
            Err(f) => return Err(Error::from_sled(f)),
        };
        proof {
            let after = self.contents();
            assert forall|k2: Seq<char>| k2 != key@ implies #[trigger] encode_utf8(k2) != encode_utf8(key@) by {
                assert(decode_utf8(encode_utf8(k2)) == k2);
            }
            assert(string_map(after) =~= string_map(before).remove(key@));
            if !had {
                assert(string_map(before).remove(key@) =~= string_map(before));
            }
        }
        remove_outcome(had, sled_flush(&self.db))
    }
}

/// A plainer store over sled: it neither flushes after a write nor reports
/// the removal of a missing key.
pub struct SledStore {
    db: sled::Db,
}

impl SledStore {
    /// The name of the database's directory in the store's directory.
    pub const LOG_NAME: &'static str = "sled.log";

    /// The live keys and their values.
    pub closed spec fn live(&self) -> Map<Seq<char>, Seq<char>> {
        string_map(sled_contents(self.db))
    }

    /// Whether a directory with these entries holds this store's database.
    pub fn is_log_present(entries: &Vec<String>) -> (r: bool)
        ensures
            r == exists|i: int| 0 <= i < entries@.len() && (#[trigger] entries@[i])@ == Self::LOG_NAME@,
    {
        has_entry(entries, Self::LOG_NAME)
    }

    /// Opens, or creates, the database in directory `dir`.
    pub fn open(dir: &str) -> (r: Result<SledStore, Error>)
        ensures
            r matches Err(e) ==> e is SledError || e is KeyNotFound,
    {
        let path = entry_path(dir, Self::LOG_NAME);
        match sled_open(path.as_str()) {
            Ok(db) => Ok(SledStore { db }),
            Err(f) => Err(Error::from_sled(f)),
        }
    }

    /// Sets `key` to `value`, without flushing.
    pub fn set(&mut self, key: String, value: String) -> (r: Result<(), Error>)
        ensures
            r is Ok ==> final(self).live() == old(self).live().insert(key@, value@),
    {
        let ghost before = sled_contents(self.db);
        match sled_insert(&mut self.db, key.as_str().as_bytes(), value.as_str().as_bytes()) {
            Ok(()) => {
                proof {
                    assert forall|k2: Seq<char>| k2 != key@ implies #[trigger] encode_utf8(k2) != encode_utf8(key@) by {
                        assert(decode_utf8(encode_utf8(k2)) == k2);
                    }
                    assert(string_map(sled_contents(self.db)) =~= string_map(before).insert(key@, value@));
                }
                Ok(())
            },
            Err(f) => Err(Error::from_sled(f)),
        }
    }

    /// The value of `key`, if it is live.
    pub fn get(&mut self, key: String) -> (r: Result<Option<String>, Error>)
        ensures
            final(self).live() == old(self).live(),
            r matches Ok(Some(v)) ==> old(self).live().contains_key(key@) && old(self).live()[key@]
                == v@,
            r matches Ok(None) ==> !old(self).live().contains_key(key@),
    {
        match sled_get(&self.db, key.as_str().as_bytes()) {
            Ok(Some(bytes)) => match utf8_string(bytes) {
                Ok(s) => {
                    assert(decode_utf8(encode_utf8(s@)) == s@);
                    Ok(Some(s))
                },
                Err(msg) => Err(Error::DeserializeError(msg)),
            },
            Ok(None) => Ok(None),
            Err(f) => Err(Error::from_sled(f)),
        }
    }

    /// Removes `key` if it is live; a missing key is no error.
    pub fn remove(&mut self, key: String) -> (r: Result<(), Error>)
        ensures
            r is Ok ==> final(self).live() == old(self).live().remove(key@),
    {
        let ghost before = sled_contents(self.db);
        match sled_remove(&mut self.db, key.as_str().as_bytes()) {
            Ok(_) => {
                proof {
                    assert forall|k2: Seq<char>| k2 != key@ implies #[trigger] encode_utf8(k2) != encode_utf8(key@) by {
                        assert(decode_utf8(encode_utf8(k2)) == k2);
                    }
                    assert(string_map(sled_contents(self.db)) =~= string_map(before).remove(key@));
                }
                Ok(())
            },
            Err(f) => Err(Error::from_sled(f)),
        }
    }
}

} // verus!
