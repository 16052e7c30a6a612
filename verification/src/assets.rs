//! In-memory typed asset registry with fail-closed path validation and collision protection.
use crate::asset_path::{fnv1a, fnv1a_str, normalize_path, normalize_spec, AssetPathError};
use std::marker::PhantomData;
use vstd::prelude::*;
use vstd::utf8::encode_utf8;

verus! {

/// Normalized, validated asset key representing canonical virtual-path identity.
#[derive(Clone, Debug, PartialEq, Eq, Hash, PartialOrd, Ord)]
pub struct AssetKey(String);

impl AssetKey {
    /// Characters of the normalized key.
    pub closed spec fn key(&self) -> Seq<char> {
        self.0@
    }

    pub fn new(path: &str) -> (r: Result<Self, AssetPathError>)
        ensures
            match r {
                Ok(k) => normalize_spec(path@) == Ok::<Seq<char>, AssetPathError>(k.key()),
                Err(e) => normalize_spec(path@) == Err::<Seq<char>, AssetPathError>(e),
            },
    {
        match normalize_path(path) {
            Ok(s) => Ok(AssetKey(s)),
            Err(e) => Err(e),
        }
    }

    pub fn as_str(&self) -> (s: &str)
        ensures
            s@ == self.key(),
    {
        self.0.as_str()
    }

    /// An independent copy of this key.
    pub fn duplicate(&self) -> (r: Self)
        ensures
            r.key() == self.key(),
    {
        AssetKey(self.0.clone())
    }
}

/// Identifier of a normalized key: FNV-1a over its UTF-8 bytes.
pub open spec fn key_id(key: Seq<char>) -> u64 {
    fnv1a(encode_utf8(key))
}

/// Stable 64-bit identifier derived from a validated normalized asset path.
#[derive(Clone, Copy, Debug, PartialEq, Eq, Structural, Hash, PartialOrd, Ord)]
pub struct AssetId(u64);

impl AssetId {
    pub closed spec fn value(self) -> u64 {
        self.0
    }

    /// Identifiers are equal exactly when their values are.
    pub proof fn lemma_value_injective(a: AssetId, b: AssetId)
        ensures
            (a.value() == b.value()) <==> (a == b),
    {
    }

    pub fn from_key(key: &AssetKey) -> (id: Self)
        ensures
            id.value() == key_id(key.key()),
    {
        Self::from_normalized(key.as_str())
    }

    pub fn from_path(path: &str) -> (r: Result<Self, AssetPathError>)
        ensures
            match r {
                Ok(id) => normalize_spec(path@) matches Ok(k) && id.value() == key_id(k),
                Err(e) => normalize_spec(path@) == Err::<Seq<char>, AssetPathError>(e),
            },
    {
        let key = AssetKey::new(path)?;
        Ok(Self::from_key(&key))
    }

    fn from_normalized(path: &str) -> (id: Self)
        ensures
            id.value() == key_id(path@),
    {
        AssetId(fnv1a_str(path))
    }

    pub fn raw(self) -> (r: u64)
        ensures
            r == self.value(),
    {
        self.0
    }
}

/// Type-safe reference to a loaded asset.
#[derive(Debug, PartialEq, Eq, Hash)]
pub struct Handle<T> {
    id: AssetId,
    marker: PhantomData<T>,
}

impl<T> Clone for Handle<T> {
    fn clone(&self) -> (r: Self)
        ensures
            r == *self,
    {
        Handle { id: self.id, marker: PhantomData }
    }
}

impl<T> Copy for Handle<T> {

}

impl<T> Handle<T> {
    pub closed spec fn id_spec(self) -> AssetId {
        self.id
    }

    pub fn id(self) -> (id: AssetId)
        ensures
            id == self.id_spec(),
    {
        self.id
    }

    pub fn from_id(id: AssetId) -> (h: Self)
        ensures
            h.id_spec() == id,
    {
        Handle { id, marker: PhantomData }
    }

    /// Handles are equal exactly when their identifiers are.
    pub proof fn lemma_eq_by_id(a: Self, b: Self)
        ensures
            (a.id_spec() == b.id_spec()) <==> (a == b),
    {
    }
}

/// Current status of an asset in the registry.
#[derive(Clone, Debug, PartialEq, Eq)]
pub enum AssetState {
    Unloaded,
    Loading,
    Loaded,
    Failed(String),
}

/// Errors returned by asset loading or registration.
#[derive(Debug, PartialEq, Eq)]
pub enum AssetError<E> {
    Loader(E),
    InvalidPath(AssetPathError),
    Collision { path: String, existing_path: String },
    NotFound(AssetId),
}

struct AssetEntry<T> {
    id: u64,
    key: AssetKey,
    value: T,
}

/// In-memory typed asset registry with fail-closed path validation and collision protection.
pub struct Assets<T> {
    entries: Vec<AssetEntry<T>>,
}

/// Registered assets of an entry list: identifier to normalized key and value.
spec fn records_of<T>(entries: Seq<AssetEntry<T>>) -> Map<u64, (Seq<char>, T)> {
    Map::new(
        |id: u64| exists|i: int| 0 <= i < entries.len() && entries[i].id == id,
        |id: u64|
            {
                let i = choose|i: int| 0 <= i < entries.len() && entries[i].id == id;
                (entries[i].key.key(), entries[i].value)
            },
    )
}

/// `loader`, given some text whose characters are `key`, may return `out`.
pub open spec fn loader_gave<T, E, F: FnOnce(&str) -> Result<T, E>>(
    loader: F,
    key: Seq<char>,
    out: Result<T, E>,
) -> bool {
    exists|s: &str| s@ == key && #[trigger] loader.ensures((s,), out)
}

/// Identifiers are unique and derived from their keys.
spec fn entries_ok<T>(entries: Seq<AssetEntry<T>>) -> bool {
    &&& forall|i: int| 0 <= i < entries.len() ==> (#[trigger] entries[i]).id == key_id(entries[i].key.key())
    &&& forall|i: int, j: int|
        0 <= i < j < entries.len() ==> (#[trigger] entries[i]).id != (#[trigger] entries[j]).id
}

proof fn lemma_record_at<T>(entries: Seq<AssetEntry<T>>, i: int)
    requires
        entries_ok(entries),
        0 <= i < entries.len(),
    ensures
        records_of(entries).contains_key(entries[i].id),
        records_of(entries)[entries[i].id] == (entries[i].key.key(), entries[i].value),
{
    let id = entries[i].id;
    assert(exists|k: int| 0 <= k < entries.len() && entries[k].id == id);
    let k = choose|k: int| 0 <= k < entries.len() && entries[k].id == id;
    if k != i {
        if k < i {
            assert(entries[k].id != entries[i].id);
        } else {
            assert(entries[i].id != entries[k].id);
        }
    }
}

/// Replacing entry `i` by one with the same identifier replaces that record.
proof fn lemma_records_update<T>(entries: Seq<AssetEntry<T>>, i: int, e: AssetEntry<T>)
    requires
        entries_ok(entries),
        0 <= i < entries.len(),
        e.id == entries[i].id,
        e.id == key_id(e.key.key()),
    ensures
        entries_ok(entries.update(i, e)),
        records_of(entries.update(i, e)) == records_of(entries).insert(e.id, (e.key.key(), e.value)),
{
    let u = entries.update(i, e);
    assert(entries_ok(u)) by {
        assert forall|a: int| 0 <= a < u.len() implies (#[trigger] u[a]).id == key_id(u[a].key.key()) by {
            if a != i {
                assert(u[a] == entries[a]);
            }
        }
        assert forall|a: int, b: int| 0 <= a < b < u.len() implies (#[trigger] u[a]).id != (#[trigger] u[b]).id by {
            assert(entries[a].id != entries[b].id);
        }
    }
    assert forall|id: u64| records_of(u).contains_key(id) <==> records_of(entries).insert(e.id, (e.key.key(), e.value)).contains_key(id) by {
        if records_of(u).contains_key(id) {
            let k = choose|k: int| 0 <= k < u.len() && u[k].id == id;
            assert(entries[k].id == id);
        }
        if records_of(entries).contains_key(id) {
            let k = choose|k: int| 0 <= k < entries.len() && entries[k].id == id;
            assert(u[k].id == id);
        }
        if id == e.id {
            assert(u[i].id == id);
        }
    }
    assert forall|id: u64| #[trigger] records_of(u).contains_key(id) implies records_of(u)[id] == records_of(entries).insert(e.id, (e.key.key(), e.value))[id] by {
        let k = choose|k: int| 0 <= k < u.len() && u[k].id == id;
        lemma_record_at(u, k);
        if k != i {
            lemma_record_at(entries, k);
        }
    }
    assert(records_of(u) =~= records_of(entries).insert(e.id, (e.key.key(), e.value)));
}

impl<T> Assets<T> {
    /// Registered assets: identifier to normalized key and value.
    pub closed spec fn records_spec(&self) -> Map<u64, (Seq<char>, T)> {
        records_of(self.entries@)
    }

    pub closed spec fn wf(&self) -> bool {
        entries_ok(self.entries@)
    }

    /// Every record is stored under the identifier of its own key.
    pub proof fn lemma_records_keyed_by_id(&self, id: u64)
        requires
            self.wf(),
            self.records_spec().contains_key(id),
        ensures
            id == key_id(self.records_spec()[id].0),
    {
        let i = choose|i: int| 0 <= i < self.entries@.len() && self.entries@[i].id == id;
        lemma_record_at(self.entries@, i);
    }

    pub fn new() -> (a: Self)
        ensures
            a.wf(),
            a.records_spec() == Map::<u64, (Seq<char>, T)>::empty(),
    {
        let a = Assets { entries: Vec::new() };
        assert(a.records_spec() =~= Map::<u64, (Seq<char>, T)>::empty());
        a
    }

    /// Index of the entry with identifier `id`.
    fn find(&self, id: u64) -> (r: Option<usize>)
        requires
            self.wf(),
        ensures
            match r {
                Some(i) => i < self.entries@.len() && self.entries@[i as int].id == id
                    && self.records_spec().contains_key(id)
                    && self.records_spec()[id] == (self.entries@[i as int].key.key(), self.entries@[i as int].value),
                None => !self.records_spec().contains_key(id),
            },
    {
        let mut i: usize = 0;
        while i < self.entries.len()
            invariant
                self.wf(),
                i <= self.entries@.len(),
                forall|k: int| 0 <= k < i ==> (#[trigger] self.entries@[k]).id != id,
            decreases self.entries@.len() - i,
        {
            if self.entries[i].id == id {
                proof {
                    lemma_record_at(self.entries@, i as int);
                }
                return Some(i);
            }
            i = i + 1;
        }
        proof {
            if self.records_spec().contains_key(id) {
                let k = choose|k: int| 0 <= k < self.entries@.len() && self.entries@[k].id == id;
                assert(self.entries@[k].id != id);
            }
        }
        None
    }

    /// Stores `value` under `key` at identifier `id`, replacing an entry with the same key.
    fn store(&mut self, id: u64, key: AssetKey, value: T)
        requires
            old(self).wf(),
            id == key_id(key.key()),
        ensures
            final(self).wf(),
            final(self).records_spec() == old(self).records_spec().insert(id, (key.key(), value)),
    {
        match self.find(id) {
            Some(i) => {
                let ghost e = AssetEntry { id, key, value };
                proof {
                    lemma_records_update(self.entries@, i as int, e);
                }
                self.entries.set(i, AssetEntry { id, key, value });
            },
            None => {
                let ghost before = self.entries@;
                self.entries.push(AssetEntry { id, key, value });
                proof {
                    let u = self.entries@;
                    let last = u.len() - 1;
                    assert forall|a: int, b: int| 0 <= a < b < u.len() implies (#[trigger] u[a]).id
                        != (#[trigger] u[b]).id by {
                        if b == last {
                            lemma_record_at(before, a);
                        } else {
                            assert(before[a].id != before[b].id);
                        }
                    }
                    assert forall|a: int| 0 <= a < u.len() implies (#[trigger] u[a]).id == key_id(u[a].key.key()) by {
                        if a != last {
                            assert(u[a] == before[a]);
                        }
                    }
                    assert forall|k: u64| #[trigger] records_of(u).contains_key(k) implies records_of(u)[k]
                        == records_of(before).insert(id, (key.key(), value))[k] by {
                        let j = choose|j: int| 0 <= j < u.len() && u[j].id == k;
                        lemma_record_at(u, j);
                        if j != last {
                            lemma_record_at(before, j);
                        }
                    }
                    assert forall|k: u64| records_of(u).contains_key(k) <==> records_of(before).insert(id, (key.key(), value)).contains_key(k) by {
                        if records_of(before).contains_key(k) {
                            let j = choose|j: int| 0 <= j < before.len() && before[j].id == k;
                            assert(u[j].id == k);
                        }
                        if k == id {
                            assert(u[last].id == k);
                        }
                    }
                    assert(records_of(u) =~= records_of(before).insert(id, (key.key(), value)));
                }
            },
        }
    }

    /// Registers `value` under the normalized form of `path`.
    pub fn insert(&mut self, path: &str, value: T) -> (r: Result<Handle<T>, AssetError<String>>)
        requires
            old(self).wf(),
        ensures
            final(self).wf(),
            match normalize_spec(path@) {
                Err(e) => r == Err::<Handle<T>, AssetError<String>>(AssetError::InvalidPath(e))
                    && final(self).records_spec() == old(self).records_spec(),
                Ok(k) => {
                    let id = key_id(k);
                    if old(self).records_spec().contains_key(id) && old(self).records_spec()[id].0 != k {
                        &&& r matches Err(AssetError::Collision { path: p, existing_path: q })
                        &&& p@ == k
                        &&& q@ == old(self).records_spec()[id].0
                        &&& final(self).records_spec() == old(self).records_spec()
                    } else {
                        &&& r matches Ok(h) && h.id_spec().value() == id
                        &&& final(self).records_spec() == old(self).records_spec().insert(id, (k, value))
                    }
                },
            },
    {
        let key = match AssetKey::new(path) {
            Ok(key) => key,
            Err(e) => return Err(AssetError::InvalidPath(e)),
        };
        let id = AssetId::from_key(&key);
        self.check_collision(id, &key)?;
        self.store(id.0, key, value);
        Ok(Handle::from_id(id))
    }

    /// Returns the handle of an already registered path, or loads it with `loader`.
    ///
    /// The loader runs only for a valid, unregistered, collision-free path and receives
    /// the normalized key.
    pub fn load_with<E, F: FnOnce(&str) -> Result<T, E>>(&mut self, path: &str, loader: F) -> (r:
        Result<Handle<T>, AssetError<E>>)
        requires
            old(self).wf(),
            forall|s: &str| #[trigger] loader.requires((s,)),
        ensures
            final(self).wf(),
            match normalize_spec(path@) {
                Err(e) => r matches Err(AssetError::InvalidPath(x)) && x == e
                    && final(self).records_spec() == old(self).records_spec(),
                Ok(k) => {
                    let id = key_id(k);
                    if old(self).records_spec().contains_key(id) && old(self).records_spec()[id].0 == k {
                        &&& r matches Ok(h) && h.id_spec().value() == id
                        &&& final(self).records_spec() == old(self).records_spec()
                    } else if old(self).records_spec().contains_key(id) {
                        &&& r matches Err(AssetError::Collision { path: p, existing_path: q })
                        &&& p@ == k
                        &&& q@ == old(self).records_spec()[id].0
                        &&& final(self).records_spec() == old(self).records_spec()
                    } else {
                        match r {
                            Ok(h) => h.id_spec().value() == id && exists|v: T|
                                #[trigger] loader_gave(loader, k, Ok::<T, E>(v))
                                && final(self).records_spec() == old(self).records_spec().insert(id, (k, v)),
                            Err(AssetError::Loader(err)) => {
                                &&& final(self).records_spec() == old(self).records_spec()
                                &&& loader_gave(loader, k, Err::<T, E>(err))
                            },
                            Err(_) => false,
                        }
                    }
                },
            },
    {
        let key = match AssetKey::new(path) {
            Ok(key) => key,
            Err(e) => return Err(AssetError::InvalidPath(e)),
        };
        let id = AssetId::from_key(&key);
        match self.find(id.0) {
            Some(i) => {
                if key_eq(&self.entries[i].key, &key) {
                    return Ok(Handle::from_id(id));
                }
                return Err(AssetError::Collision {
                    path: key.as_str().to_owned(),
                    existing_path: self.entries[i].key.as_str().to_owned(),
                });
            },
            None => {},
        }
        let key_text = key.as_str();
        let loaded = loader(key_text);
        let value = match loaded {
            Ok(value) => value,
            Err(error) => {
                proof {
                    assert(loader_gave(loader, key.key(), Err::<T, E>(error)));
                }
                return Err(AssetError::Loader(error));
            },
        };
        proof {
            assert(loader_gave(loader, key.key(), Ok::<T, E>(value)));
        }
        self.store(id.0, key, value);
        Ok(Handle::from_id(id))
    }

    fn check_collision<E>(&self, id: AssetId, key: &AssetKey) -> (r: Result<(), AssetError<E>>)
        requires
            self.wf(),
        ensures
            match r {
                Ok(()) => self.records_spec().contains_key(id.value()) ==> self.records_spec()[id.value()].0 == key.key(),
                Err(AssetError::Collision { path: p, existing_path: q }) => {
                    &&& self.records_spec().contains_key(id.value())
                    &&& self.records_spec()[id.value()].0 != key.key()
                    &&& p@ == key.key()
                    &&& q@ == self.records_spec()[id.value()].0
                },
                Err(_) => false,
            },
    {
        match self.find(id.0) {
            Some(i) => {
                if !key_eq(&self.entries[i].key, key) {
                    return Err(AssetError::Collision {
                        path: key.as_str().to_owned(),
                        existing_path: self.entries[i].key.as_str().to_owned(),
                    });
                }
                Ok(())
            },
            None => Ok(()),
        }
    }

    pub fn get(&self, handle: Handle<T>) -> (r: Option<&T>)
        requires
            self.wf(),
        ensures
            match r {
                Some(v) => self.records_spec().contains_key(handle.id_spec().value())
                    && *v == self.records_spec()[handle.id_spec().value()].1,
                None => !self.records_spec().contains_key(handle.id_spec().value()),
            },
    {
        match self.find(handle.id.0) {
            Some(i) => Some(&self.entries[i].value),
            None => None,
        }
    }

    pub fn get_mut(&mut self, handle: Handle<T>) -> (r: Option<&mut T>)
        requires
            old(self).wf(),
        ensures
            match r {
                Some(v) => {
                    let id = handle.id_spec().value();
                    &&& old(self).records_spec().contains_key(id)
                    &&& *v == old(self).records_spec()[id].1
                    &&& final(self).wf()
                    &&& final(self).records_spec() == old(self).records_spec().insert(
                        id,
                        (old(self).records_spec()[id].0, *final(v)),
                    )
                },
                None => !old(self).records_spec().contains_key(handle.id_spec().value())
                    && *final(self) == *old(self),
            },
    {
        match self.find(handle.id.0) {
            Some(i) => {
                let ghost before = self.entries@;
                proof {
                    assert forall|v: T| #[trigger] records_of(before.update(i as int, AssetEntry { id: before[i as int].id, key: before[i as int].key, value: v }))
                        == records_of(before).insert(before[i as int].id, (before[i as int].key.key(), v))
                        && entries_ok(before.update(i as int, AssetEntry { id: before[i as int].id, key: before[i as int].key, value: v })) by {
                        lemma_records_update(before, i as int, AssetEntry { id: before[i as int].id, key: before[i as int].key, value: v });
                    }
                }
                let entry = &mut self.entries[i];
                Some(&mut entry.value)
            },
            None => None,
        }
    }

    pub fn remove(&mut self, handle: Handle<T>) -> (r: Option<T>)
        requires
            old(self).wf(),
        ensures
            final(self).wf(),
            final(self).records_spec() == old(self).records_spec().remove(handle.id_spec().value()),
            match r {
                Some(v) => old(self).records_spec().contains_key(handle.id_spec().value())
                    && v == old(self).records_spec()[handle.id_spec().value()].1,
                None => !old(self).records_spec().contains_key(handle.id_spec().value()),
            },
    {
        match self.find(handle.id.0) {
            Some(i) => {
                let ghost id = handle.id.0;
                let ghost before = self.entries@;
                let entry = self.entries.remove(i);
                proof {
                    let u = self.entries@;
                    assert forall|a: int| 0 <= a < u.len() implies (#[trigger] u[a]).id == key_id(u[a].key.key()) by {
                        let oa = if a < i { a } else { a + 1 };
                        assert(u[a] == before[oa]);
                    }
                    assert forall|a: int, b: int| 0 <= a < b < u.len() implies (#[trigger] u[a]).id
                        != (#[trigger] u[b]).id by {
                        let oa = if a < i { a } else { a + 1 };
                        let ob = if b < i { b } else { b + 1 };
                        assert(u[a] == before[oa]);
                        assert(u[b] == before[ob]);
                        assert(before[oa].id != before[ob].id);
                    }
                    assert forall|k: u64| records_of(u).contains_key(k) <==> records_of(before).remove(id).contains_key(k) by {
                        if records_of(u).contains_key(k) {
                            let j = choose|j: int| 0 <= j < u.len() && u[j].id == k;
                            let oj = if j < i { j } else { j + 1 };
                            assert(u[j] == before[oj]);
                            assert(before[oj].id != before[i as int].id);
                        }
                        if records_of(before).remove(id).contains_key(k) {
                            let j = choose|j: int| 0 <= j < before.len() && before[j].id == k;
                            assert(j != i);
                            if j < i {
                                assert(u[j] == before[j]);
                            } else {
                                assert(u[j - 1] == before[j]);
                            }
                        }
                    }
                    assert forall|k: u64| #[trigger] records_of(u).contains_key(k) implies records_of(u)[k]
                        == records_of(before).remove(id)[k] by {
                        let j = choose|j: int| 0 <= j < u.len() && u[j].id == k;
                        let oj = if j < i { j } else { j + 1 };
                        assert(u[j] == before[oj]);
                        lemma_record_at(u, j);
                        lemma_record_at(before, oj);
                    }
                    assert(records_of(u) =~= records_of(before).remove(id));
                }
                Some(entry.value)
            },
            None => {
                proof {
                    assert(self.records_spec().remove(handle.id.0) =~= self.records_spec());
                }
                None
            },
        }
    }

    pub fn state(&self, handle: Handle<T>) -> (s: AssetState)
        requires
            self.wf(),
        ensures
            s == if self.records_spec().contains_key(handle.id_spec().value()) {
                AssetState::Loaded
            } else {
                AssetState::Unloaded
            },
    {
        match self.find(handle.id.0) {
            Some(_) => AssetState::Loaded,
            None => AssetState::Unloaded,
        }
    }

    pub fn path(&self, handle: Handle<T>) -> (r: Option<&str>)
        requires
            self.wf(),
        ensures
            match r {
                Some(p) => self.records_spec().contains_key(handle.id_spec().value())
                    && p@ == self.records_spec()[handle.id_spec().value()].0,
                None => !self.records_spec().contains_key(handle.id_spec().value()),
            },
    {
        match self.find(handle.id.0) {
            Some(i) => Some(self.entries[i].key.as_str()),
            None => None,
        }
    }

    pub fn len(&self) -> (n: usize)
        requires
            self.wf(),
        ensures
            n == self.records_spec().len(),
    {
        proof {
            self.lemma_len();
        }
        self.entries.len()
    }

    pub fn is_empty(&self) -> (b: bool)
        requires
            self.wf(),
        ensures
            b == (self.records_spec().len() == 0),
    {
        proof {
            self.lemma_len();
        }
        self.entries.len() == 0
    }

    proof fn lemma_len(&self)
        requires
            self.wf(),
        ensures
            self.records_spec().dom().finite(),
            self.records_spec().len() == self.entries@.len(),
    {
        let ids = self.entries@.map_values(|e: AssetEntry<T>| e.id);
        assert(ids.no_duplicates()) by {
            assert forall|a: int, b: int| 0 <= a < ids.len() && 0 <= b < ids.len() && a != b implies ids[a] != ids[b] by {
                if a < b {
                    assert(self.entries@[a].id != self.entries@[b].id);
                } else {
                    assert(self.entries@[b].id != self.entries@[a].id);
                }
            }
        }
        assert(self.records_spec().dom() =~= ids.to_set()) by {
            assert forall|k: u64| self.records_spec().dom().contains(k) implies ids.to_set().contains(k) by {
                let j = choose|j: int| 0 <= j < self.entries@.len() && self.entries@[j].id == k;
                assert(ids[j] == k);
            }
            assert forall|k: u64| ids.to_set().contains(k) implies self.records_spec().dom().contains(k) by {
                let j = choose|j: int| 0 <= j < ids.len() && ids[j] == k;
                assert(self.entries@[j].id == k);
            }
        }
        ids.unique_seq_to_set();
    }
}

/// Key equality.
fn key_eq(a: &AssetKey, b: &AssetKey) -> (r: bool)
    ensures
        r == (a.key() == b.key()),
{
    a.0 == b.0
}

} // verus!
