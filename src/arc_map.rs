use std::collections::HashMap;
use std::hash::{BuildHasher, Hash};
use std::sync::Arc;
use vstd::prelude::*;
use vstd::std_specs::hash::{builds_valid_hashers, obeys_key_model};

use crate::api::{ConcurrentMap, NopWriteHandle, ReadGuard, ReadHandle};

verus! {

/// Relies on `HashMap::with_capacity_and_hasher`: the map it makes is empty.
#[verifier::external_body]
fn empty_map_with_hasher<K, V, S>(capacity: usize, hasher: S) -> (r: HashMap<K, V, S>)
    ensures
        r@.dom().is_empty(),
{
    HashMap::with_capacity_and_hasher(capacity, hasher)
}

/// An immutable snapshot shared behind an `Arc`. Writes go to a
/// [`NopWriteHandle`] and are discarded.
#[verifier::reject_recursive_types(K)]
#[verifier::reject_recursive_types(V)]
#[verifier::reject_recursive_types(S)]
pub struct ArcHashMap<K, V, S> {
    inner: Arc<HashMap<K, V, S>>,
}

impl<K, V, S> ArcHashMap<K, V, S> {
    /// The entries of the snapshot.
    pub closed spec fn entries(&self) -> Map<K, V> {
        self.inner@
    }
}

impl<K, V, S> Clone for ArcHashMap<K, V, S> {
    fn clone(&self) -> (r: Self)
        ensures
            r.entries() == self.entries(),
    {
        Self { inner: Arc::clone(&self.inner) }
    }
}

impl<K, V, S> ConcurrentMap<K, V, S> for ArcHashMap<K, V, S> where
    K: Eq + Hash + Send + Sync + 'static,
    V: Send + Sync + 'static,
    S: BuildHasher + Send + Sync + 'static,
 {
    type WriteHandle = NopWriteHandle<K, V, S>;

    type ReadHandle = Self;

    fn new(inner: HashMap<K, V, S>) -> (r: (Self::WriteHandle, Self::ReadHandle)) {
        let me = Self { inner: Arc::new(inner) };
        (NopWriteHandle::new(), me)
    }

    fn with_capacity(capacity: usize, hasher: S) -> (r: (Self::WriteHandle, Self::ReadHandle)) {
        let inner = empty_map_with_hasher(capacity, hasher);
        assert(inner@ =~= Map::<K, V>::empty());
        Self::new(inner)
    }
}

impl<K, V, S> ReadHandle<K, V, S> for ArcHashMap<K, V, S> where
    K: Eq + Hash + Send + Sync + 'static,
    V: Send + Sync + 'static,
    S: BuildHasher + Send + Sync + 'static,
 {
    type Guard<'a> = ArcHashMapReadGuard<'a, K, V, S>;

    open spec fn view(&self) -> Map<K, V> {
        self.entries()
    }

    open spec fn wf(&self) -> bool {
        self.keys_are_hashable()
    }

    open spec fn keys_are_hashable(&self) -> bool {
        obeys_key_model::<K>() && builds_valid_hashers::<S>()
    }

    fn guard(&self) -> (r: Self::Guard<'_>) {
        ArcHashMapReadGuard { inner: &*self.inner }
    }
}

/// A read guard that borrows the shared snapshot.
#[verifier::reject_recursive_types(K)]
#[verifier::reject_recursive_types(V)]
#[verifier::reject_recursive_types(S)]
pub struct ArcHashMapReadGuard<'a, K, V, S> {
    inner: &'a HashMap<K, V, S>,
}

impl<'a, K, V, S> ReadGuard<K, V, S> for ArcHashMapReadGuard<'a, K, V, S> where
    K: Eq + Hash,
    S: BuildHasher,
 {
    closed spec fn view(&self) -> Map<K, V> {
        self.inner@
    }

    open spec fn wf(&self) -> bool {
        obeys_key_model::<K>() && builds_valid_hashers::<S>()
    }

    fn len(&self) -> (r: usize) {
        proof {
            broadcast use vstd::std_specs::hash::group_hash_axioms;
        }
        self.inner.len()
    }

    fn get_and_test<F>(&self, key: &K, test: F) -> (r: Option<bool>) where F: FnOnce(&V) -> bool {
        proof {
            broadcast use vstd::std_specs::hash::group_hash_axioms;
        }
        match self.inner.get(key) {
            Some(v) => Some(test(v)),
            None => None,
        }
    }
}

} // verus!
