use std::collections::HashMap;
use std::marker::PhantomData;
use vstd::prelude::*;

verus! {

/// A family of concurrent maps that hands out a write handle and a read handle.
pub trait ConcurrentMap<K, V, S> {
    type WriteHandle: WriteHandle<K, V, S>;

    type ReadHandle: ReadHandle<K, V, S>;

    /// Builds a map holding exactly the entries of `inner`.
    fn new(inner: HashMap<K, V, S>) -> (r: (Self::WriteHandle, Self::ReadHandle))
        ensures
            r.1.keys_are_hashable() ==> r.1.wf(),
            r.1.wf() ==> r.1.view() == inner@,
    ;

    /// Builds an empty map, sized for `capacity` entries.
    fn with_capacity(capacity: usize, hasher: S) -> (r: (Self::WriteHandle, Self::ReadHandle))
        ensures
            r.1.keys_are_hashable() ==> r.1.wf(),
            r.1.wf() ==> r.1.view() == Map::<K, V>::empty(),
    ;
}

/// The exclusive write side of a map.
pub trait WriteHandle<K, V, S>: Send + Sized + 'static {
    type Guard<'a>: WriteGuard<K, V, S> where Self: 'a;

    /// The entries as this handle last wrote them. A handle that models
    /// neither of the two behaviours below promises nothing of them.
    open spec fn view(&self) -> Map<K, V> {
        Map::empty()
    }

    /// Whether writes made through this handle reach the map.
    open spec fn applies_writes(&self) -> bool {
        false
    }

    /// Whether writes made through this handle are accepted and dropped.
    open spec fn discards_writes(&self) -> bool {
        false
    }

    fn guard(&mut self) -> (r: Self::Guard<'_>)
        ensures
            r.view() == old(self).view(),
            r.applies_writes() == old(self).applies_writes(),
            r.discards_writes() == old(self).discards_writes(),
            final(self).applies_writes() == old(self).applies_writes(),
            final(self).discards_writes() == old(self).discards_writes(),
    ;
}

/// Short-lived write access. A guard that applies writes reports whether
/// the key was there before each one; a guard that discards writes leaves
/// its entries as they are and reports `true`. A guard that models neither
/// promises nothing.
pub trait WriteGuard<K, V, S> {
    open spec fn view(&self) -> Map<K, V> {
        Map::empty()
    }

    open spec fn applies_writes(&self) -> bool {
        false
    }

    open spec fn discards_writes(&self) -> bool {
        false
    }

    fn insert(&mut self, key: K, value: V) -> (r: bool)
        ensures
            final(self).applies_writes() == old(self).applies_writes(),
            final(self).discards_writes() == old(self).discards_writes(),
            old(self).applies_writes() ==> {
                &&& final(self).view() == old(self).view().insert(key, value)
                &&& r == !old(self).view().contains_key(key)
            },
            old(self).discards_writes() ==> final(self).view() == old(self).view() && r,
    ;

    fn remove(&mut self, key: K) -> (r: bool)
        ensures
            final(self).applies_writes() == old(self).applies_writes(),
            final(self).discards_writes() == old(self).discards_writes(),
            old(self).applies_writes() ==> {
                &&& final(self).view() == old(self).view().remove(key)
                &&& r == old(self).view().contains_key(key)
            },
            old(self).discards_writes() ==> final(self).view() == old(self).view() && r,
    ;

    fn update(&mut self, key: K, value: V) -> (r: bool)
        ensures
            final(self).applies_writes() == old(self).applies_writes(),
            final(self).discards_writes() == old(self).discards_writes(),
            old(self).applies_writes() ==> {
                &&& r == old(self).view().contains_key(key)
                &&& final(self).view() == if r {
                    old(self).view().insert(key, value)
                } else {
                    old(self).view()
                }
            },
            old(self).discards_writes() ==> final(self).view() == old(self).view() && r,
    ;
}

/// The shareable read side of a map.
pub trait ReadHandle<K, V, S>: Send + Clone + Sized + 'static {
    type Guard<'a>: ReadGuard<K, V, S> where Self: 'a;

    /// The entries that a guard taken now would observe.
    open spec fn view(&self) -> Map<K, V> {
        Map::empty()
    }

    /// Whether the handle's guards answer lookups as `view` says. A handle
    /// that does not model its entries never is.
    open spec fn wf(&self) -> bool {
        false
    }

    /// Whether the key type and hasher follow the model that lookups rely on.
    open spec fn keys_are_hashable(&self) -> bool {
        false
    }

    fn guard(&self) -> (r: Self::Guard<'_>)
        requires
            self.wf(),
        ensures
            r.wf(),
            r.view() == self.view(),
    ;
}

/// Short-lived read access over one view of the entries.
pub trait ReadGuard<K, V, S> {
    open spec fn view(&self) -> Map<K, V> {
        Map::empty()
    }

    open spec fn wf(&self) -> bool {
        false
    }

    fn len(&self) -> (r: usize)
        requires
            self.wf(),
        ensures
            r as nat == self.view().len(),
    ;

    /// `Some(test(value))` when the key is present, `None` when it is not.
    fn get_and_test<F>(&self, key: &K, test: F) -> (r: Option<bool>) where
        F: FnOnce(&V) -> bool,

        requires
            self.wf(),
            self.view().contains_key(*key) ==> test.requires((&self.view()[*key],)),
        ensures
            r.is_some() <==> self.view().contains_key(*key),
            r matches Some(b) ==> test.ensures((&self.view()[*key],), b),
    ;
}

/// A write handle for maps that cannot change: it accepts every write and
/// discards it.
pub struct NopWriteHandle<K, V, S> {
    _marker: PhantomData<(K, V, S)>,
}

impl<K, V, S> Clone for NopWriteHandle<K, V, S> {
    fn clone(&self) -> (r: Self) {
        Self::new()
    }
}

impl<K, V, S> Copy for NopWriteHandle<K, V, S> {
}

impl<K, V, S> NopWriteHandle<K, V, S> {
    pub fn new() -> (r: Self)
        ensures
            <Self as WriteGuard<K, V, S>>::view(&r) == Map::<K, V>::empty(),
            <Self as WriteGuard<K, V, S>>::discards_writes(&r),
    {
        Self { _marker: PhantomData }
    }
}

impl<K: Send + 'static, V: Send + 'static, S: Send + 'static> WriteHandle<K, V, S> for NopWriteHandle<
    K,
    V,
    S,
> {
    type Guard<'a> = Self;

    open spec fn view(&self) -> Map<K, V> {
        Map::empty()
    }

    open spec fn discards_writes(&self) -> bool {
        true
    }

    fn guard(&mut self) -> (r: Self::Guard<'_>) {
        *self
    }
}

impl<K, V, S> WriteGuard<K, V, S> for NopWriteHandle<K, V, S> {
    open spec fn view(&self) -> Map<K, V> {
        Map::empty()
    }

    open spec fn discards_writes(&self) -> bool {
        true
    }

    fn insert(&mut self, _key: K, _value: V) -> (r: bool) {
        true
    }

    fn remove(&mut self, _key: K) -> (r: bool) {
        true
    }

    fn update(&mut self, _key: K, _value: V) -> (r: bool) {
        true
    }
}

} // verus!
