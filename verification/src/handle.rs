//! The user-facing handle to an interned value.

use std::sync::Arc;
use vstd::prelude::*;
use vstd::std_specs::cmp::PartialEqSpec;
use vstd::std_specs::cmp::PartialOrdSpec;

verus! {

/// A shared handle to a value stored in an interning table.
///
/// A handle is cheap to duplicate (see `clone_handle` on the tables) and
/// never copies the stored value.  Equality and hashing delegate to the
/// wrapped value, never to pointer identity, so a handle can stand in for
/// the value wherever equality is meaningful.
#[derive(Hash, Debug)]
pub struct Hc<T> {
    elem: Arc<T>,
}

impl<T> View for Hc<T> {
    type V = T;

    closed spec fn view(&self) -> T {
        *self.elem
    }
}

impl<T> Hc<T> {
    /// Retrieves a reference to the value stored in this `Hc<T>`.
    pub fn get(&self) -> (r: &T)
        ensures
            *r == self@,
    {
        &*self.elem
    }

    /// Wraps an owning pointer in a handle; used by the tables only.
    pub(crate) fn from_arc(elem: Arc<T>) -> (r: Self)
        ensures
            r@ == *elem,
    {
        Hc { elem }
    }

    /// Hands out the owning pointer of this handle; used by the tables only.
    pub(crate) fn arc(&self) -> (r: &Arc<T>)
        ensures
            **r == self@,
    {
        &self.elem
    }

    /// Whether two handles refer to the very same stored instance.  Two
    /// handles to one instance always wrap the same value; the converse
    /// need not hold, since equal values may sit in different tables.
    ///
    /// Relies on `Arc::ptr_eq` of the standard library: it reports whether
    /// two pointers address one allocation, and one allocation holds one
    /// value.
    #[verifier::external_body]
    pub fn same_slot(&self, other: &Hc<T>) -> (r: bool)
        ensures
            r ==> self@ == other@,
    {
        Arc::ptr_eq(&self.elem, &other.elem)
    }
}

/// The value behind a handle is structurally smaller than the handle, so a
/// recursive walk over a value type that embeds handles terminates.
pub proof fn lemma_handle_decreases<T>(h: Hc<T>)
    ensures
        decreases_to!(h => h@),
{
    assert(decreases_to!(h => h.elem));
}

/// Two handles are the same mathematical object exactly when the values they
/// wrap are the same: a handle carries nothing beyond its value.
pub broadcast proof fn lemma_handle_eq<T>(h1: Hc<T>, h2: Hc<T>)
    ensures
        (h1 == h2) <==> (#[trigger] h1@ == #[trigger] h2@),
{
}

impl<T: PartialEq> PartialEq for Hc<T> {
    /// Two handles are equal iff the values they wrap are equal.
    fn eq(&self, other: &Self) -> (r: bool) {
        *self.elem == *other.elem
    }
}

impl<T: PartialEq> vstd::std_specs::cmp::PartialEqSpecImpl for Hc<T> {
    open spec fn obeys_eq_spec() -> bool {
        T::obeys_eq_spec()
    }

    open spec fn eq_spec(&self, other: &Self) -> bool {
        self@.eq_spec(&other@)
    }
}

impl<T: Eq> Eq for Hc<T> {

}

impl<T: PartialOrd> PartialOrd for Hc<T> {
    /// Handles order as the values they wrap order.
    fn partial_cmp(&self, other: &Self) -> (r: Option<core::cmp::Ordering>) {
        (*self.elem).partial_cmp(&*other.elem)
    }
}

impl<T: PartialOrd> vstd::std_specs::cmp::PartialOrdSpecImpl for Hc<T> {
    open spec fn obeys_partial_cmp_spec() -> bool {
        T::obeys_partial_cmp_spec()
    }

    open spec fn partial_cmp_spec(&self, other: &Self) -> Option<core::cmp::Ordering> {
        self@.partial_cmp_spec(&other@)
    }
}

} // verus!
