//! The interning table for a single execution context.
//!
//! The table owns its store directly and its operations take it exclusively,
//! so every contract relates the table state after a call exactly to the
//! state before it.

use crate::handle::Hc;
use crate::model::clone_handle_spec;
use crate::model::entries_wf;
use crate::model::intern_spec;
use crate::model::release_spec;
use crate::model::sweep_spec;
use crate::store::InnerTable;
use crate::store::TableSnap;
use crate::value::HcValue;
use vstd::prelude::*;
use vstd::std_specs::cmp::PartialEqSpec;

verus! {

/// An interning table confined to one execution context.
///
/// `new` builds a table with automatic cleanup: releasing the last handle
/// for a value removes its entry on the spot.  `new_manual` builds a table
/// where released entries linger until an explicit `cleanup`.
pub struct HCTable<T> {
    inner: InnerTable<T>,
}

impl<T> View for HCTable<T> {
    type V = TableSnap<T>;

    closed spec fn view(&self) -> TableSnap<T> {
        self.inner@
    }
}

impl<T: PartialEq + HcValue> HCTable<T> {
    /// The table's invariant; every operation requires and preserves it.
    pub open spec fn wf(&self) -> bool {
        entries_wf(self@.entries, self@.auto)
    }

    /// Creates an empty table with automatic cleanup.
    pub fn new() -> (r: Self)
        ensures
            r.wf(),
            r@.entries == Seq::<crate::model::EntrySnap<T>>::empty(),
            r@.auto == true,
    {
        HCTable { inner: InnerTable::new(true) }
    }

    /// Creates an empty table whose stale entries are removed only by an
    /// explicit `cleanup` call.
    pub fn new_manual() -> (r: Self)
        ensures
            r.wf(),
            r@.entries == Seq::<crate::model::EntrySnap<T>>::empty(),
            r@.auto == false,
    {
        HCTable { inner: InnerTable::new(false) }
    }

    /// Interns `value`: returns a handle to the unique stored instance of an
    /// equal value, storing `value` itself if none exists yet.
    pub fn hashcons(&mut self, value: T) -> (r: Hc<T>)
        requires
            old(self).wf(),
        ensures
            final(self).wf(),
            final(self)@.auto == old(self)@.auto,
            T::obeys_eq_spec() ==> {
                let (s2, h) = intern_spec(old(self)@.entries, old(self)@.auto, value);
                &&& final(self)@.entries == s2
                &&& r@ == h
            },
    {
        self.inner.intern(value)
    }

    /// Takes a handle back; the reverse of `hashcons` and `clone_handle`.
    /// Under automatic cleanup, an entry losing its last handle is removed
    /// on the spot, together with everything only it kept alive.
    pub fn release(&mut self, h: Hc<T>)
        requires
            old(self).wf(),
        ensures
            final(self).wf(),
            final(self)@.auto == old(self)@.auto,
            T::obeys_eq_spec() ==> final(self)@.entries == release_spec(
                old(self)@.entries,
                old(self)@.auto,
                h@,
            ),
    {
        self.inner.release(h)
    }

    /// Grants one more handle wrapping the same value as `h`.
    pub fn clone_handle(&mut self, h: &Hc<T>) -> (r: Hc<T>)
        requires
            old(self).wf(),
        ensures
            final(self).wf(),
            final(self)@.auto == old(self)@.auto,
            r@ == h@,
            T::obeys_eq_spec() ==> final(self)@.entries == clone_handle_spec(
                old(self)@.entries,
                h@,
            ),
    {
        self.inner.clone_handle(h)
    }

    /// Removes every entry without outstanding handles, iterating to a
    /// fixed point.  On a table with automatic cleanup there is never
    /// anything to remove and the table is left unchanged.
    pub fn cleanup(&mut self)
        requires
            old(self).wf(),
        ensures
            final(self).wf(),
            final(self)@.auto == old(self)@.auto,
            T::obeys_eq_spec() ==> final(self)@.entries == sweep_spec(old(self)@.entries),
            old(self)@.auto ==> final(self)@.entries == old(self)@.entries,
            (forall|j: int|
                0 <= j < old(self)@.entries.len() ==> (#[trigger] old(self)@.entries[j].count)
                    != 0) ==> final(self)@.entries == old(self)@.entries,
            forall|j: int|
                0 <= j < final(self)@.entries.len() ==> (#[trigger] final(self)@.entries[j].count)
                    != 0,
    {
        self.inner.cleanup()
    }

    /// The number of values currently stored.
    pub fn len(&self) -> (r: usize)
        ensures
            r == self@.entries.len(),
    {
        self.inner.len()
    }
}

} // verus!
