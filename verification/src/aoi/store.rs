//! The lists of the watcher: each a durable map from a text to a value.

use crate::planet::{lemma_tagged, lemma_untagged};
use crate::plugin::store::{key_views, lists_keys, no_entries};
use crate::utils::Package;
use crate::wire::{le32, le32_value, read_u32, string_from_utf8, write_u32};
use vstd::prelude::*;
use vstd::slice::slice_to_vec;
use vstd::string::StringExecFns;
use vstd::utf8::{decode_utf8, encode_utf8, valid_utf8};

verus! {

/// Whether a page on the watch list has been reported.
#[derive(Clone, Copy, Debug, PartialEq, Eq, Structural)]
pub enum PageStatus {
    Pending,
    Complete,
}

impl View for PageStatus {
    type V = PageStatus;

    open spec fn view(&self) -> PageStatus {
        *self
    }
}

impl Package for PageStatus {
    open spec fn wire(v: PageStatus) -> Seq<u8> {
        match v {
            PageStatus::Pending => le32(0),
            PageStatus::Complete => le32(1),
        }
    }

    open spec fn parse(bytes: Seq<u8>) -> Option<(PageStatus, int)> {
        if bytes.len() < 4 {
            None
        } else if le32_value(bytes) == 0 {
            Some((PageStatus::Pending, 4))
        } else if le32_value(bytes) == 1 {
            Some((PageStatus::Complete, 4))
        } else {
            None
        }
    }

    open spec fn encodable(v: PageStatus) -> bool {
        true
    }

    proof fn lemma_parse_wire(v: PageStatus, rest: Seq<u8>) {
        lemma_tagged(0, rest);
        lemma_tagged(1, rest);
    }

    proof fn lemma_wire_parse(bytes: Seq<u8>) {
        if bytes.len() >= 4 {
            lemma_untagged(bytes);
            crate::wire::lemma_le32_canonical(bytes);
        }
    }

    fn write(&self, out: &mut Vec<u8>) {
        match self {
            PageStatus::Pending => write_u32(0, out),
            PageStatus::Complete => write_u32(1, out),
        }
        assert(Self::encodable(self@));
    }

    fn read(bytes: &[u8]) -> (r: Option<(PageStatus, usize)>) {
        match read_u32(bytes) {
            Some(tag) => if tag == 0 {
                Some((PageStatus::Pending, 4))
            } else if tag == 1 {
                Some((PageStatus::Complete, 4))
            } else {
                None
            },
            None => None,
        }
    }
}

/// The value of a keyword on its list: the keyword says it all.
#[derive(Clone, Copy, Debug, PartialEq, Eq, Structural)]
pub struct WatchTarget {}

impl View for WatchTarget {
    type V = WatchTarget;

    open spec fn view(&self) -> WatchTarget {
        *self
    }
}

impl Package for WatchTarget {
    open spec fn wire(v: WatchTarget) -> Seq<u8> {
        Seq::empty()
    }

    open spec fn parse(bytes: Seq<u8>) -> Option<(WatchTarget, int)> {
        Some((WatchTarget {  }, 0))
    }

    open spec fn encodable(v: WatchTarget) -> bool {
        true
    }

    proof fn lemma_parse_wire(v: WatchTarget, rest: Seq<u8>) {
    }

    proof fn lemma_wire_parse(bytes: Seq<u8>) {
        assert(bytes.subrange(0, 0) =~= Seq::<u8>::empty());
    }

    fn write(&self, out: &mut Vec<u8>) {
        assert(Self::encodable(self@));
        assert(out@ =~= old(out)@ + Self::wire(self@));
    }

    fn read(bytes: &[u8]) -> (r: Option<(WatchTarget, usize)>) {
        Some((WatchTarget {  }, 0))
    }
}

/// Why an operation on a list failed.
#[derive(Clone, Debug, PartialEq)]
pub enum StoreError {
    /// The database reported an error; this is its text.
    Backend(String),
    /// A stored value is not an encoding of the type asked for.
    Malformed,
    /// A stored key is not UTF-8.
    BadKey,
}

/// The error of a list for an error of the durable map.
fn lifted(e: crate::plugin::store::StoreError) -> (err: StoreError)
    ensures
        err == match e {
            crate::plugin::store::StoreError::Backend(reason) => StoreError::Backend(reason),
            crate::plugin::store::StoreError::Malformed => StoreError::Malformed,
        },
{
    match e {
        crate::plugin::store::StoreError::Backend(reason) => StoreError::Backend(reason),
        crate::plugin::store::StoreError::Malformed => StoreError::Malformed,
    }
}

/// The texts that the keys spell, in the order of the keys, where every
/// key is UTF-8.
pub open spec fn key_texts(keys: Seq<Seq<u8>>) -> Option<Seq<Seq<char>>>
    decreases keys.len(),
{
    if keys.len() == 0 {
        Some(Seq::empty())
    } else {
        match key_texts(keys.drop_last()) {
            Some(texts) => if valid_utf8(keys.last()) {
                Some(texts.push(decode_utf8(keys.last())))
            } else {
                None
            },
            None => None,
        }
    }
}

/// Keys of which a beginning spells no texts spell none.
proof fn lemma_key_texts_prefix(keys: Seq<Seq<u8>>, n: int)
    requires
        0 <= n <= keys.len(),
        key_texts(keys.subrange(0, n)) is None,
    ensures
        key_texts(keys) is None,
    decreases keys.len() - n,
{
    if n == keys.len() {
        assert(keys.subrange(0, n) =~= keys);
    } else {
        assert(keys.subrange(0, n + 1).drop_last() =~= keys.subrange(0, n));
        lemma_key_texts_prefix(keys, n + 1);
    }
}

/// The path at which the list called `name` is kept.
pub open spec fn list_path(name: Seq<char>) -> Seq<char> {
    "/tmp/kosmos/db/aoi/"@ + name
}

/// One list of the watcher.
pub struct Store {
    inner: crate::plugin::store::Store,
}

impl Store {
    /// The entries of the list: from the UTF-8 bytes of a text to the
    /// encoding of its value.
    pub closed spec fn entries(&self) -> Map<Seq<u8>, Seq<u8>> {
        self.inner.entries()
    }

    /// The path at which the list is kept.
    pub closed spec fn path(&self) -> Seq<char> {
        self.inner.path()
    }

    /// Opens the list called `name`, kept in a database of its own in the
    /// directory of the watcher. Whether the database can be opened is for
    /// the database to say; a list that is returned is the one kept there.
    pub fn new(name: &str) -> (r: Result<Store, StoreError>)
        ensures
            match r {
                Ok(store) => store.path() == list_path(name@),
                Err(e) => e is Backend,
            },
    {
        let mut path = "/tmp/kosmos/db/aoi/".to_owned();
        path.append(name);
        Store::open(path.as_str())
    }

    /// Opens the list kept at `path`. Whether the database can be opened
    /// is for the database to say; a list that is returned is the one kept
    /// at `path`.
    pub fn open(path: &str) -> (r: Result<Store, StoreError>)
        ensures
            match r {
                Ok(store) => store.path() == path@,
                Err(e) => e is Backend,
            },
    {
        match crate::plugin::store::Store::open(path) {
            Ok(inner) => Ok(Store { inner }),
            Err(e) => Err(lifted(e)),
        }
    }

    /// The value of `key`, decoded, where it has one.
    pub fn get<T: Package>(&self, key: &str) -> (r: Result<Option<T>, StoreError>)
        ensures
            match r {
                Ok(Some(val)) => self.entries().contains_key(encode_utf8(key@)) && (T::parse(
                    self.entries()[encode_utf8(key@)],
                ) matches Some((v, _)) && v == val@),
                Ok(None) => !self.entries().contains_key(encode_utf8(key@)),
                Err(StoreError::Malformed) => self.entries().contains_key(encode_utf8(key@))
                    && T::parse(self.entries()[encode_utf8(key@)]) is None,
                Err(StoreError::Backend(_)) => true,
                Err(StoreError::BadKey) => false,
            },
    {
        match self.inner.get(key.as_bytes()) {
            Ok(Some(raw)) => match T::read(raw.as_slice()) {
                Some((val, _)) => Ok(Some(val)),
                None => Err(StoreError::Malformed),
            },
            Ok(None) => Ok(None),
            Err(e) => Err(lifted(e)),
        }
    }

    /// Maps `key` to `val`.
    pub fn insert<T: Package>(&mut self, key: &str, val: &T) -> (r: Result<(), StoreError>)
        ensures
            final(self).path() == old(self).path(),
            match r {
                Ok(()) => final(self).entries() == old(self).entries().insert(
                    encode_utf8(key@),
                    T::wire(val@),
                ),
                Err(e) => e is Backend,
            },
    {
        let mut binary_val: Vec<u8> = Vec::new();
        val.write(&mut binary_val);
        match self.inner.insert(key.as_bytes(), binary_val.as_slice()) {
            Ok(_) => Ok(()),
            Err(e) => Err(lifted(e)),
        }
    }

    /// Removes `key`.
    pub fn remove(&mut self, key: &str) -> (r: Result<(), StoreError>)
        ensures
            final(self).path() == old(self).path(),
            match r {
                Ok(()) => final(self).entries() == old(self).entries().remove(encode_utf8(key@)),
                Err(e) => e is Backend,
            },
    {
        match self.inner.remove(key.as_bytes()) {
            Ok(_) => Ok(()),
            Err(e) => Err(lifted(e)),
        }
    }

    /// Removes every entry.
    pub fn clear(&mut self) -> (r: Result<(), StoreError>)
        ensures
            final(self).path() == old(self).path(),
            match r {
                Ok(()) => final(self).entries() == no_entries(),
                Err(e) => e is Backend,
            },
    {
        match self.inner.clear() {
            Ok(()) => Ok(()),
            Err(e) => Err(lifted(e)),
        }
    }

    /// Whether `key` has a value.
    pub fn contains_key(&self, key: &str) -> (r: Result<bool, StoreError>)
        ensures
            match r {
                Ok(present) => present == self.entries().contains_key(encode_utf8(key@)),
                Err(e) => e is Backend,
            },
    {
        match self.inner.contains_key(key.as_bytes()) {
            Ok(present) => Ok(present),
            Err(e) => Err(lifted(e)),
        }
    }

    /// The keys as texts, in key order.
    pub fn keys(&self) -> (r: Result<Vec<String>, StoreError>)
        ensures
            match r {
                Ok(keys) => exists|raw: Seq<Seq<u8>>|
                    #![trigger key_texts(raw)]
                    lists_keys(self.entries(), raw) && key_texts(raw) == Some(
                        crate::words::texts(keys@),
                    ),
                Err(StoreError::BadKey) => exists|raw: Seq<Seq<u8>>|
                    #![trigger key_texts(raw)]
                    lists_keys(self.entries(), raw) && key_texts(raw) is None,
                Err(StoreError::Backend(_)) => true,
                Err(StoreError::Malformed) => false,
            },
    {
        let raw_keys = match self.inner.keys() {
            Ok(keys) => keys,
            Err(e) => { return Err(lifted(e)); },
        };
        let ghost all = key_views(raw_keys@);
        let mut keys: Vec<String> = Vec::new();
        let mut i: usize = 0;
        while i < raw_keys.len()
            invariant
                i <= raw_keys@.len(),
                all == key_views(raw_keys@),
                lists_keys(self.entries(), all),
                key_texts(all.subrange(0, i as int)) == Some(crate::words::texts(keys@)),
            decreases raw_keys@.len() - i,
        {
            let ghost shorter = all.subrange(0, i as int);
            let ghost longer = all.subrange(0, i + 1);
            assert(longer.drop_last() =~= shorter);
            assert(longer.last() == raw_keys@[i as int]@);
            match string_from_utf8(slice_to_vec(raw_keys[i].as_slice())) {
                Some(key) => {
                    let ghost before = keys@;
                    keys.push(key);
                    assert(crate::words::texts(keys@) =~= crate::words::texts(before).push(key@));
                },
                None => {
                    proof {
                        assert(key_texts(longer) is None);
                        lemma_key_texts_prefix(all, i + 1);
                        assert(key_texts(all) is None);
                    }
                    return Err(StoreError::BadKey);
                },
            }
            i += 1;
        }
        assert(all.subrange(0, i as int) =~= all);
        assert(key_texts(all) == Some(crate::words::texts(keys@)));
        Ok(keys)
    }
}

} // verus!
