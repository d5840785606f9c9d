//! The interning table shared across parallel execution contexts.
//!
//! The store sits behind a readers/writer lock and is shared by reference
//! counting, so a table can be cloned into any number of workers; clones see
//! and affect the same interned population.  The lock's invariant keeps the
//! store well-formed at every release, but the store's state between two
//! calls is whatever other workers made of it, so the contracts here speak
//! only about what holds of every outcome; the exact transition contracts
//! live on `crate::store::InnerTable`, which each operation applies while it
//! holds the lock.

use crate::handle::Hc;
use crate::model::lemma_find_index;
use crate::store::InnerTable;
use crate::value::HcValue;
use std::sync::Arc;
use vstd::prelude::*;
use vstd::rwlock::RwLock;
use vstd::std_specs::cmp::PartialEqSpec;

verus! {

/// An interning table shareable across parallel workers.
///
/// `new` builds a table with automatic cleanup: releasing the last handle
/// for a value removes its entry on the spot.  `new_manual` builds a table
/// where released entries linger until an explicit `cleanup`.
#[verifier::reject_recursive_types(T)]
pub struct HcTable<T> {
    inner: Arc<RwLock<InnerTable<T>, spec_fn(InnerTable<T>) -> bool>>,
    auto: Ghost<bool>,
}

impl<T: PartialEq + HcValue> HcTable<T> {
    /// The table's invariant: the lock holds exactly the well-formed stores
    /// of the policy this table was created with.
    pub closed spec fn wf(&self) -> bool {
        forall|t: InnerTable<T>| #[trigger] self.inner.inv(t) == (t.wf() && t@.auto == self.auto@)
    }

    /// Which cleanup policy this table was created with.
    pub closed spec fn is_auto(&self) -> bool {
        self.auto@
    }

    /// Creates an empty table with automatic cleanup.
    pub fn new() -> (r: Self)
        ensures
            r.wf(),
            r.is_auto(),
    {
        let t = InnerTable::<T>::new(true);
        let lock = RwLock::new(t, Ghost(|t: InnerTable<T>| t.wf() && t@.auto == true));
        HcTable { inner: Arc::new(lock), auto: Ghost(true) }
    }

    /// Creates an empty table whose stale entries are removed only by an
    /// explicit `cleanup` call.
    pub fn new_manual() -> (r: Self)
        ensures
            r.wf(),
            !r.is_auto(),
    {
        let t = InnerTable::<T>::new(false);
        let lock = RwLock::new(t, Ghost(|t: InnerTable<T>| t.wf() && t@.auto == false));
        HcTable { inner: Arc::new(lock), auto: Ghost(false) }
    }

    /// Interns `value` in the shared store, atomically with respect to every
    /// other operation on clones of this table: whatever the store held when
    /// the lock was granted, the returned handle wraps the unique stored
    /// instance of a value equal to `value`.
    pub fn hashcons(&self, value: T) -> (r: Hc<T>)
        requires
            self.wf(),
        ensures
            T::obeys_eq_spec() ==> (r@ == value || r@.eq_spec(&value)),
    {
        let (mut t, handle) = self.inner.acquire_write();
        let ghost s = t@.entries;
        let r = t.intern(value);
        proof {
            if T::obeys_eq_spec() {
                lemma_find_index(s, value);
            }
        }
        handle.release_write(t);
        r
    }

    /// Takes a handle back, atomically; see `HCTable::release` in
    /// `crate::single_threaded` for what one release does to a store.
    pub fn release(&self, h: Hc<T>)
        requires
            self.wf(),
    {
        let (mut t, handle) = self.inner.acquire_write();
        t.release(h);
        handle.release_write(t);
    }

    /// Grants one more handle wrapping the same value as `h`, atomically.
    pub fn clone_handle(&self, h: &Hc<T>) -> (r: Hc<T>)
        requires
            self.wf(),
        ensures
            r@ == h@,
    {
        let (mut t, handle) = self.inner.acquire_write();
        let r = t.clone_handle(h);
        handle.release_write(t);
        r
    }

    /// Sweeps the shared store to a fixed point, atomically: when the lock
    /// is released, no entry is without outstanding handles.
    pub fn cleanup(&self)
        requires
            self.wf(),
    {
        let (mut t, handle) = self.inner.acquire_write();
        t.cleanup();
        handle.release_write(t);
    }

    /// The number of values the shared store held while the read lock was
    /// granted.
    pub fn len(&self) -> (r: usize)
        requires
            self.wf(),
    {
        let read_handle = self.inner.acquire_read();
        let n = read_handle.borrow().len();
        read_handle.release_read();
        n
    }
}

impl<T: PartialEq + HcValue> Clone for HcTable<T> {
    /// A second owner of the same shared store: clones see and affect the
    /// same interned population.
    fn clone(&self) -> (r: Self)
        ensures
            r.wf() == self.wf(),
            r.is_auto() == self.is_auto(),
    {
        HcTable { inner: self.inner.clone(), auto: self.auto }
    }
}

} // verus!
