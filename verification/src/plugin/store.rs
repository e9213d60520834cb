//! The durable map: byte keys to byte values, ordered by key, kept in a
//! `sled` database.

use crate::utils::Package;
use crate::wire::{wire_str, write_str};
use vstd::prelude::*;
use vstd::std_specs::convert::IntoSpec;

verus! {

/// `sled::Db`: a handle on an open database.
#[verifier::external_type_specification]
#[verifier::external_body]
pub struct ExSledDb(sled::Db);

/// `sled::Error`: what a failed operation of the database returns.
#[verifier::external_type_specification]
#[verifier::external_body]
pub struct ExSledError(sled::Error);

/// The entries of the default keyspace of a database.
pub uninterp spec fn db_entries(db: sled::Db) -> Map<Seq<u8>, Seq<u8>>;

/// The path at which a database was opened.
pub uninterp spec fn db_path(db: sled::Db) -> Seq<char>;

/// The map without entries.
pub open spec fn no_entries() -> Map<Seq<u8>, Seq<u8>> {
    Map::empty()
}

/// The order of keys: byte by byte, a proper prefix first.
pub open spec fn key_le(a: Seq<u8>, b: Seq<u8>) -> bool
    decreases a.len(),
{
    if a.len() == 0 {
        true
    } else if b.len() == 0 {
        false
    } else if a[0] != b[0] {
        a[0] < b[0]
    } else {
        key_le(a.drop_first(), b.drop_first())
    }
}

/// `key` is the first key of `entries`, in key order, that starts with `prefix`.
pub open spec fn is_first_with_prefix(
    entries: Map<Seq<u8>, Seq<u8>>,
    prefix: Seq<u8>,
    key: Seq<u8>,
) -> bool {
    &&& entries.contains_key(key)
    &&& prefix.is_prefix_of(key)
    &&& forall|other: Seq<u8>|
        entries.contains_key(other) && prefix.is_prefix_of(other) ==> key_le(key, other)
}

/// No key of `entries` starts with `prefix`.
pub open spec fn none_with_prefix(entries: Map<Seq<u8>, Seq<u8>>, prefix: Seq<u8>) -> bool {
    forall|key: Seq<u8>| entries.contains_key(key) ==> !prefix.is_prefix_of(key)
}

/// `keys` lists the keys of `entries`, each once, in key order.
pub open spec fn lists_keys(entries: Map<Seq<u8>, Seq<u8>>, keys: Seq<Seq<u8>>) -> bool {
    &&& forall|i: int| 0 <= i < keys.len() ==> entries.contains_key(#[trigger] keys[i])
    &&& forall|key: Seq<u8>| entries.contains_key(key) ==> keys.contains(key)
    &&& forall|i: int, j: int|
        0 <= i < j < keys.len() ==> keys[i] != keys[j] && key_le(keys[i], keys[j])
}

/// The views of a vector of keys.
pub open spec fn key_views(keys: Seq<Vec<u8>>) -> Seq<Seq<u8>> {
    keys.map_values(|k: Vec<u8>| k@)
}

/// The views of a vector of entries.
pub open spec fn entry_views(listed: Seq<(Vec<u8>, Vec<u8>)>) -> Seq<(Seq<u8>, Seq<u8>)> {
    listed.map_values(|e: (Vec<u8>, Vec<u8>)| (e.0@, e.1@))
}

/// `listed` lists the entries of `entries`, each once, in key order.
pub open spec fn lists_entries(
    entries: Map<Seq<u8>, Seq<u8>>,
    listed: Seq<(Seq<u8>, Seq<u8>)>,
) -> bool {
    &&& forall|i: int|
        0 <= i < listed.len() ==> entries.contains_key((#[trigger] listed[i]).0)
            && entries[listed[i].0] == listed[i].1
    &&& forall|key: Seq<u8>|
        entries.contains_key(key) ==> exists|i: int|
            0 <= i < listed.len() && (#[trigger] listed[i]).0 == key
    &&& forall|i: int, j: int|
        0 <= i < j < listed.len() ==> (#[trigger] listed[i]).0 != (#[trigger] listed[j]).0
            && key_le(listed[i].0, listed[j].0)
}

/// What a lookup gives for `key`.
pub open spec fn found(entries: Map<Seq<u8>, Seq<u8>>, key: Seq<u8>, value: Option<Vec<u8>>) -> bool {
    match value {
        Some(v) => entries.contains_key(key) && entries[key] == v@,
        None => !entries.contains_key(key),
    }
}

/// Every key comes no later than itself.
pub proof fn lemma_key_le_reflexive(a: Seq<u8>)
    ensures
        key_le(a, a),
    decreases a.len(),
{
    if a.len() > 0 {
        lemma_key_le_reflexive(a.drop_first());
    }
}

/// A key comes no later than any key that starts with it.
pub proof fn lemma_prefix_comes_first(a: Seq<u8>, b: Seq<u8>)
    requires
        a.is_prefix_of(b),
    ensures
        key_le(a, b),
    decreases a.len(),
{
    if a.len() > 0 {
        assert(a[0] == b[0]);
        assert(a.drop_first().is_prefix_of(b.drop_first()));
        lemma_prefix_comes_first(a.drop_first(), b.drop_first());
    }
}

/// Two keys that each come no later than the other are one key.
pub proof fn lemma_key_le_antisymmetric(a: Seq<u8>, b: Seq<u8>)
    requires
        key_le(a, b),
        key_le(b, a),
    ensures
        a == b,
    decreases a.len(),
{
    if a.len() == 0 || b.len() == 0 {
        assert(a =~= b);
    } else {
        lemma_key_le_antisymmetric(a.drop_first(), b.drop_first());
        assert(a =~= seq![a[0]] + a.drop_first());
        assert(b =~= seq![b[0]] + b.drop_first());
    }
}

/// At most one key is the first with a given prefix.
pub proof fn lemma_first_with_prefix_unique(
    entries: Map<Seq<u8>, Seq<u8>>,
    prefix: Seq<u8>,
    a: Seq<u8>,
    b: Seq<u8>,
)
    requires
        is_first_with_prefix(entries, prefix, a),
        is_first_with_prefix(entries, prefix, b),
    ensures
        a == b,
{
    lemma_key_le_antisymmetric(a, b);
}

/// `sled::open`: opens the database at `path`, creating it where there is
/// none. On success the handle is one on the database at that path;
/// nothing is said of what it holds, nor of when it succeeds.
#[verifier::external_body]
fn sled_open(path: &str) -> (r: Result<sled::Db, sled::Error>)
    ensures
        r matches Ok(db) ==> db_path(db) == path@,
{
    sled::open(path)
}

/// `Tree::insert` on the default keyspace: on success the key maps to the
/// new value, every other key is as before, and the value that the key had
/// is returned. The handle stays one on the same database.
#[verifier::external_body]
fn sled_insert(db: &mut sled::Db, key: &[u8], value: &[u8]) -> (r: Result<
    Option<Vec<u8>>,
    sled::Error,
>)
    ensures
        db_path(*final(db)) == db_path(*old(db)),
        r matches Ok(previous) ==> db_entries(*final(db)) == db_entries(*old(db)).insert(
            key@,
            value@,
        ) && found(db_entries(*old(db)), key@, previous),
{
    db.insert(key, value).map(|previous| previous.map(|v| v.to_vec()))
}

/// `Tree::get` on the default keyspace: on success, the value of the key
/// where it has one.
#[verifier::external_body]
fn sled_get(db: &sled::Db, key: &[u8]) -> (r: Result<Option<Vec<u8>>, sled::Error>)
    ensures
        r matches Ok(value) ==> found(db_entries(*db), key@, value),
{
    db.get(key).map(|value| value.map(|v| v.to_vec()))
}

/// `Tree::remove` on the default keyspace: on success the key is gone,
/// every other key is as before, and the value that the key had is
/// returned. The handle stays one on the same database.
#[verifier::external_body]
fn sled_remove(db: &mut sled::Db, key: &[u8]) -> (r: Result<Option<Vec<u8>>, sled::Error>)
    ensures
        db_path(*final(db)) == db_path(*old(db)),
        r matches Ok(previous) ==> db_entries(*final(db)) == db_entries(*old(db)).remove(key@)
            && found(db_entries(*old(db)), key@, previous),
{
    db.remove(key).map(|previous| previous.map(|v| v.to_vec()))
}

/// `Tree::contains_key` on the default keyspace.
#[verifier::external_body]
fn sled_contains_key(db: &sled::Db, key: &[u8]) -> (r: Result<bool, sled::Error>)
    ensures
        r matches Ok(present) ==> present == db_entries(*db).contains_key(key@),
{
    db.contains_key(key)
}

/// `Tree::clear` on the default keyspace: on success nothing is left. The
/// handle stays one on the same database.
#[verifier::external_body]
fn sled_clear(db: &mut sled::Db) -> (r: Result<(), sled::Error>)
    ensures
        db_path(*final(db)) == db_path(*old(db)),
        r is Ok ==> db_entries(*final(db)) == no_entries(),
{
    db.clear()
}

/// The first item of `Tree::scan_prefix` on the default keyspace: on
/// success, the entry with the least key that starts with `prefix`, or
/// nothing where no key starts with it. The scan is not walked further.
#[verifier::external_body]
fn sled_first_with_prefix(db: &sled::Db, prefix: &[u8]) -> (r: Result<
    Option<(Vec<u8>, Vec<u8>)>,
    sled::Error,
>)
    ensures
        r matches Ok(first) ==> match first {
            Some((key, value)) => is_first_with_prefix(db_entries(*db), prefix@, key@)
                && db_entries(*db)[key@] == value@,
            None => none_with_prefix(db_entries(*db), prefix@),
        },
{
    db.scan_prefix(prefix).next().transpose().map(|kv| kv.map(|(k, v)| (k.to_vec(), v.to_vec())))
}

/// `Tree::iter` on the default keyspace, walked to its end: on success,
/// every entry, in key order.
#[verifier::external_body]
fn sled_iter(db: &sled::Db) -> (r: Result<Vec<(Vec<u8>, Vec<u8>)>, sled::Error>)
    ensures
        r matches Ok(listed) ==> lists_entries(db_entries(*db), entry_views(listed@)),
{
    db.iter().map(|kv| kv.map(|(k, v)| (k.to_vec(), v.to_vec()))).collect()
}

/// The text of a `sled::Error`, as its `Display` gives it.
#[verifier::external_body]
fn sled_error_text(e: &sled::Error) -> String {
    e.to_string()
}

/// Why an operation on the durable map failed.
#[derive(Clone, Debug, PartialEq)]
pub enum StoreError {
    /// The database reported an error; this is its text.
    Backend(String),
    /// A stored value is not an encoding of the type asked for.
    Malformed,
}

impl StoreError {
    /// The text of the error.
    pub fn message(&self) -> (text: String)
        ensures
            text@ == match *self {
                StoreError::Backend(reason) => reason@,
                StoreError::Malformed => "malformed value"@,
            },
    {
        match self {
            StoreError::Backend(reason) => reason.clone(),
            StoreError::Malformed => "malformed value".to_owned(),
        }
    }
}

/// The library's error for a failure of the database.
fn backend(e: sled::Error) -> (err: StoreError)
    ensures
        err is Backend,
{
    StoreError::Backend(sled_error_text(&e))
}

/// A durable map from byte keys to byte values, ordered by key.
pub struct Store {
    db: sled::Db,
}

impl Store {
    /// The entries that the map holds.
    pub closed spec fn entries(&self) -> Map<Seq<u8>, Seq<u8>> {
        db_entries(self.db)
    }

    /// The path at which the map is kept.
    pub closed spec fn path(&self) -> Seq<char> {
        db_path(self.db)
    }

    /// The store for what opening a database gave: the map behind the
    /// handle, or the error of the database as an error of the store.
    fn opened(outcome: Result<sled::Db, sled::Error>) -> (r: Result<Store, StoreError>)
        ensures
            match outcome {
                Ok(db) => r is Ok && r->Ok_0.entries() == db_entries(db) && r->Ok_0.path()
                    == db_path(db),
                Err(_) => r is Err && r->Err_0 is Backend,
            },
    {
        match outcome {
            Ok(db) => Ok(Store { db }),
            Err(e) => Err(backend(e)),
        }
    }

    /// Opens the map kept at `path`, with whatever an earlier run left in
    /// it. Whether the database can be opened is for the database to say;
    /// a store that is returned is the one kept at `path`.
    pub fn open(path: &str) -> (r: Result<Store, StoreError>)
        ensures
            match r {
                Ok(store) => store.path() == path@,
                Err(e) => e is Backend,
            },
    {
        Store::opened(sled_open(path))
    }

    /// Maps `key` to `value` and returns the value that `key` had.
    pub fn insert(&mut self, key: &[u8], value: &[u8]) -> (r: Result<Option<Vec<u8>>, StoreError>)
        ensures
            final(self).path() == old(self).path(),
            match r {
                Ok(previous) => final(self).entries() == old(self).entries().insert(key@, value@)
                    && found(old(self).entries(), key@, previous),
                Err(e) => e is Backend,
            },
    {
        match sled_insert(&mut self.db, key, value) {
            Ok(previous) => Ok(previous),
            Err(e) => Err(backend(e)),
        }
    }

    /// The value of `key`, where it has one.
    pub fn get(&self, key: &[u8]) -> (r: Result<Option<Vec<u8>>, StoreError>)
        ensures
            match r {
                Ok(value) => found(self.entries(), key@, value),
                Err(e) => e is Backend,
            },
    {
        match sled_get(&self.db, key) {
            Ok(value) => Ok(value),
            Err(e) => Err(backend(e)),
        }
    }

    /// Removes `key` and returns the value that it had.
    pub fn remove(&mut self, key: &[u8]) -> (r: Result<Option<Vec<u8>>, StoreError>)
        ensures
            final(self).path() == old(self).path(),
            match r {
                Ok(previous) => final(self).entries() == old(self).entries().remove(key@) && found(
                    old(self).entries(),
                    key@,
                    previous,
                ),
                Err(e) => e is Backend,
            },
    {
        match sled_remove(&mut self.db, key) {
            Ok(previous) => Ok(previous),
            Err(e) => Err(backend(e)),
        }
    }

    /// Whether `key` has a value.
    pub fn contains_key(&self, key: &[u8]) -> (r: Result<bool, StoreError>)
        ensures
            match r {
                Ok(present) => present == self.entries().contains_key(key@),
                Err(e) => e is Backend,
            },
    {
        match sled_contains_key(&self.db, key) {
            Ok(present) => Ok(present),
            Err(e) => Err(backend(e)),
        }
    }

    /// Removes every entry.
    pub fn clear(&mut self) -> (r: Result<(), StoreError>)
        ensures
            final(self).path() == old(self).path(),
            match r {
                Ok(()) => final(self).entries() == no_entries(),
                Err(e) => e is Backend,
            },
    {
        match sled_clear(&mut self.db) {
            Ok(()) => Ok(()),
            Err(e) => Err(backend(e)),
        }
    }

    /// The entry with the least key that starts with `prefix`.
    pub fn first_with_prefix(&self, prefix: &[u8]) -> (r: Result<
        Option<(Vec<u8>, Vec<u8>)>,
        StoreError,
    >)
        ensures
            match r {
                Ok(Some((key, value))) => is_first_with_prefix(self.entries(), prefix@, key@)
                    && self.entries()[key@] == value@,
                Ok(None) => none_with_prefix(self.entries(), prefix@),
                Err(e) => e is Backend,
            },
    {
        match sled_first_with_prefix(&self.db, prefix) {
            Ok(first) => Ok(first),
            Err(e) => Err(backend(e)),
        }
    }

    /// Every entry, in key order.
    pub fn iter(&self) -> (r: Result<Vec<(Vec<u8>, Vec<u8>)>, StoreError>)
        ensures
            match r {
                Ok(listed) => lists_entries(self.entries(), entry_views(listed@)),
                Err(e) => e is Backend,
            },
    {
        match sled_iter(&self.db) {
            Ok(listed) => Ok(listed),
            Err(e) => Err(backend(e)),
        }
    }

    /// Every key, once, in key order.
    pub fn keys(&self) -> (r: Result<Vec<Vec<u8>>, StoreError>)
        ensures
            match r {
                Ok(keys) => lists_keys(self.entries(), key_views(keys@)),
                Err(e) => e is Backend,
            },
    {
        let listed = match self.iter() {
            Ok(listed) => listed,
            Err(e) => { return Err(e); },
        };
        let ghost all = entry_views(listed@);
        let mut keys: Vec<Vec<u8>> = Vec::new();
        for entry in it: listed
            invariant
                all == entry_views(it.seq()),
                keys@.len() == it.index(),
                forall|k: int| 0 <= k < keys@.len() ==> (#[trigger] keys@[k])@ == all[k].0,
        {
            assert(all[it.index() as int] == (entry.0@, entry.1@));
            let (key, _) = entry;
            keys.push(key);
        }
        proof {
            let views = key_views(keys@);
            assert(views.len() == all.len());
            assert forall|k: int| 0 <= k < views.len() implies #[trigger] views[k] == all[k].0 by {
                assert(views[k] == keys@[k]@);
            }
            assert forall|i: int| 0 <= i < views.len() implies self.entries().contains_key(
                #[trigger] views[i],
            ) by {
                assert(self.entries().contains_key(all[i].0));
            }
            assert forall|key: Seq<u8>| self.entries().contains_key(key) implies views.contains(
                key,
            ) by {
                let i = choose|i: int| 0 <= i < all.len() && (#[trigger] all[i]).0 == key;
                assert(views[i] == key);
            }
            assert forall|i: int, j: int| 0 <= i < j < views.len() implies views[i] != views[j]
                && key_le(views[i], views[j]) by {
                assert(all[i].0 != all[j].0 && key_le(all[i].0, all[j].0));
            }
        }
        Ok(keys)
    }
}

/// The key under which the text `key` is stored: its wire encoding.
pub open spec fn text_key(key: Seq<char>) -> Seq<u8> {
    wire_str(key)
}

/// Opens the map of a node at `path`. Whether the database can be opened
/// is for the database to say; a store that is returned is the one kept
/// at `path`.
pub fn db_init<P: Into<String>>(path: P) -> (r: Result<Store, StoreError>)
    ensures
        match r {
            Ok(store) => <P as IntoSpec<String>>::obeys_into_spec() ==> store.path() == <P as IntoSpec<
                String,
            >>::into_spec(path)@,
            Err(e) => e is Backend,
        },
{
    let path: String = path.into();
    Store::open(path.as_str())
}

/// Stores `val` under the text `key`.
pub fn set<T: Package>(store: &mut Store, key: &str, val: &T) -> (r: Result<(), StoreError>)
    ensures
        final(store).path() == old(store).path(),
        match r {
            Ok(()) => final(store).entries() == old(store).entries().insert(
                text_key(key@),
                T::wire(val@),
            ),
            Err(e) => e is Backend,
        },
{
    let mut raw_key: Vec<u8> = Vec::new();
    write_str(key, &mut raw_key);
    let mut raw_val: Vec<u8> = Vec::new();
    val.write(&mut raw_val);
    match store.insert(raw_key.as_slice(), raw_val.as_slice()) {
        Ok(_) => Ok(()),
        Err(e) => Err(e),
    }
}

/// The value stored under the text `key`, decoded, where there is one.
pub fn get<T: Package>(store: &Store, key: &str) -> (r: Result<Option<T>, StoreError>)
    ensures
        match r {
            Ok(Some(val)) => store.entries().contains_key(text_key(key@)) && (T::parse(
                store.entries()[text_key(key@)],
            ) matches Some((v, _)) && v == val@),
            Ok(None) => !store.entries().contains_key(text_key(key@)),
            Err(StoreError::Malformed) => store.entries().contains_key(text_key(key@)) && T::parse(
                store.entries()[text_key(key@)],
            ) is None,
            Err(StoreError::Backend(_)) => true,
        },
{
    let mut raw_key: Vec<u8> = Vec::new();
    write_str(key, &mut raw_key);
    match store.get(raw_key.as_slice()) {
        Ok(Some(raw_val)) => match T::read(raw_val.as_slice()) {
            Some((val, _)) => Ok(Some(val)),
            None => Err(StoreError::Malformed),
        },
        Ok(None) => Ok(None),
        Err(e) => Err(e),
    }
}

/// Removes every entry of `store`.
pub fn clear(store: &mut Store) -> (r: Result<(), StoreError>)
    ensures
        final(store).path() == old(store).path(),
        match r {
            Ok(()) => final(store).entries() == no_entries(),
            Err(e) => e is Backend,
        },
{
    store.clear()
}

} // verus!
