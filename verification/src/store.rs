//! The keyed store behind an interning table.
//!
//! One entry per distinct stored value.  Entries live in a vector scanned by
//! the value type's own equality, so deduplication never depends on how
//! values hash; two values that hash alike but compare unequal can never be
//! conflated.  Each entry carries the count of handles granted for it, and
//! the store realises exactly the transition functions of `crate::model`.

use crate::handle::Hc;
use crate::model::clone_handle_spec;
use crate::model::count_max;
use crate::model::dec_at;
use crate::model::dec_one;
use crate::model::dec_list;
use crate::model::drain;
use crate::model::entries_wf;
use crate::model::eq_laws;
use crate::model::find_index;
use crate::model::inc_at;
use crate::model::intern_spec;
use crate::model::release_spec;
use crate::model::sweep_pass;
use crate::model::sweep_spec;
use crate::model::lemma_find_index;
use crate::model::lemma_find_index_at;
use crate::model::EntrySnap;
use crate::value::HcValue;
use std::sync::Arc;
use vstd::prelude::*;
use vstd::std_specs::cmp::PartialEqSpec;

verus! {

/// One stored entry: the shared owner of a value's unique instance and the
/// number of handles granted for it that have not been released.
struct Entry<T> {
    val: Arc<T>,
    count: usize,
}

/// The store: the keyed collection of entries together with the cleanup
/// policy it was configured with.
pub struct InnerTable<T> {
    entries: Vec<Entry<T>>,
    auto: bool,
}

/// A store state as the contracts see it: the entry sequence of
/// `crate::model` plus the cleanup policy.
pub ghost struct TableSnap<T> {
    pub entries: Seq<EntrySnap<T>>,
    pub auto: bool,
}

impl<T> View for InnerTable<T> {
    type V = TableSnap<T>;

    closed spec fn view(&self) -> TableSnap<T> {
        TableSnap {
            entries: self.entries@.map(
                |i: int, e: Entry<T>| EntrySnap { val: *e.val, count: e.count as nat },
            ),
            auto: self.auto,
        }
    }
}

impl<T: PartialEq + HcValue> InnerTable<T> {
    /// The store's invariant: counts are representable, under automatic
    /// cleanup no entry is stale, and no two entries hold equal values.
    pub open spec fn wf(&self) -> bool {
        entries_wf(self@.entries, self@.auto)
    }

    /// Creates an empty store with the given cleanup policy.
    pub fn new(auto: bool) -> (r: Self)
        ensures
            r.wf(),
            r@.entries == Seq::<EntrySnap<T>>::empty(),
            r@.auto == auto,
    {
        let r = InnerTable { entries: Vec::new(), auto };
        proof {
            assert(r@.entries =~= Seq::<EntrySnap<T>>::empty());
        }
        r
    }

    /// The number of entries currently stored.
    pub fn len(&self) -> (r: usize)
        ensures
            r == self@.entries.len(),
    {
        self.entries.len()
    }

    /// The position of the first entry holding a value equal to `v`.
    fn find(&self, v: &T) -> (r: Option<usize>)
        ensures
            match r {
                Some(i) => i < self@.entries.len() && (T::obeys_eq_spec() ==> i == find_index(
                    self@.entries,
                    *v,
                )),
                None => T::obeys_eq_spec() ==> find_index(self@.entries, *v) == -1,
            },
    {
        let ghost s = self@.entries;
        let n = self.entries.len();
        let mut i: usize = 0;
        while i < n
            invariant
                n == self@.entries.len(),
                i <= n,
                s == self@.entries,
                T::obeys_eq_spec() ==> forall|j: int|
                    0 <= j < i ==> !(#[trigger] s[j].val.eq_spec(&*v)),
            decreases n - i,
        {
            if *self.entries[i].val == *v {
                proof {
                    if T::obeys_eq_spec() {
                        lemma_find_index_at(s, *v, i as int);
                    }
                }
                return Some(i);
            }
            i = i + 1;
        }
        proof {
            if T::obeys_eq_spec() {
                lemma_find_index(s, *v);
            }
        }
        None
    }

    /// One reference to `*u` gone.  Under automatic cleanup, removes the
    /// entry whose last reference this was and hands back its stored value,
    /// whose own embedded references the caller still has to account for.
    fn dec_value(&mut self, u: &T) -> (dead: Option<Arc<T>>)
        requires
            old(self).wf(),
        ensures
            final(self).wf(),
            final(self)@.auto == old(self)@.auto,
            match dead {
                Some(_) => final(self)@.entries.len() + 1 == old(self)@.entries.len(),
                None => final(self)@.entries.len() == old(self)@.entries.len(),
            },
            !old(self)@.auto ==> dead is None,
            T::obeys_eq_spec() ==> {
                let (s1, d) = dec_one(old(self)@.entries, old(self)@.auto, *u);
                &&& final(self)@.entries == s1
                &&& (match dead {
                    Some(a) => d == seq![*a],
                    None => d == Seq::<T>::empty(),
                })
            },
    {
        let ghost s = self@.entries;
        let ghost auto = self@.auto;
        match self.find(u) {
            None => None,
            Some(i) => {
                let c = self.entries[i].count;
                if self.auto && c == 1 {
                    let e = self.entries.remove(i);
                    proof {
                        assert(self@.entries =~= s.remove(i as int));
                        lemma_wf_remove(s, auto, i as int);
                        if T::obeys_eq_spec() {
                            assert(seq![s[i as int].val] =~= seq![*e.val]);
                        }
                    }
                    Some(e.val)
                } else {
                    if c > 0 && c < usize::MAX {
                        self.entries[i].count = c - 1;
                    }
                    proof {
                        assert(self@.entries =~= dec_at(s, i as int));
                        lemma_wf_dec_at(s, auto, i as int);
                    }
                    None
                }
            },
        }
    }

    /// Interns `v`: returns a handle to the unique stored instance of a
    /// value equal to `v`, storing `v` itself if no such instance exists.
    /// When an instance exists already, the duplicate `v` is destroyed, and
    /// the references embedded in it go through the destruction cascade.
    pub fn intern(&mut self, v: T) -> (r: Hc<T>)
        requires
            old(self).wf(),
        ensures
            final(self).wf(),
            final(self)@.auto == old(self)@.auto,
            T::obeys_eq_spec() ==> {
                let (s2, h) = intern_spec(old(self)@.entries, old(self)@.auto, v);
                &&& final(self)@.entries == s2
                &&& r@ == h
            },
    {
        let ghost s = self@.entries;
        let ghost auto = self@.auto;
        match self.find(&v) {
            Some(i) => {
                let c = self.entries[i].count;
                if c < usize::MAX {
                    self.entries[i].count = c + 1;
                }
                proof {
                    assert(self@.entries =~= inc_at(s, i as int));
                }
                let rc = self.entries[i].val.clone();
                let r = Hc::from_arc(rc);
                let mut pending: Vec<Arc<T>> = Vec::new();
                pending.push(Arc::new(v));
                proof {
                    assert(vals_of(pending@) =~= seq![*pending@[0]]);
                }
                self.cascade(pending);
                r
            },
            None => {
                let rc = Arc::new(v);
                let rc2 = rc.clone();
                self.entries.push(Entry { val: rc, count: 1 });
                proof {
                    assert(self@.entries =~= s.push(EntrySnap { val: v, count: 1nat }));
                    lemma_wf_push(s, auto, v);
                }
                Hc::from_arc(rc2)
            },
        }
    }

    /// Takes a handle back.  One reference to the handle's value is gone;
    /// under automatic cleanup an entry losing its last reference is removed
    /// on the spot, together with everything only it kept alive.  A handle
    /// this store never granted changes nothing.
    pub fn release(&mut self, h: Hc<T>)
        requires
            old(self).wf(),
        ensures
            final(self).wf(),
            final(self)@.auto == old(self)@.auto,
            T::obeys_eq_spec() ==> final(self)@.entries == release_spec(
                old(self)@.entries,
                old(self)@.auto,
                h@,
            ),
    {
        let ghost s = self@.entries;
        let ghost auto = self@.auto;
        let dead = self.dec_value(h.get());
        let mut pending: Vec<Arc<T>> = Vec::new();
        match dead {
            Some(a) => {
                pending.push(a);
                proof {
                    assert(vals_of(pending@) =~= seq![*pending@[0]]);
                }
            },
            None => {
                proof {
                    assert(vals_of(pending@) =~= Seq::<T>::empty());
                }
            },
        }
        self.cascade(pending);
    }

    /// Grants one more handle for the value `h` wraps: the new handle wraps
    /// the same value, and the entry's count rises by one.
    pub fn clone_handle(&mut self, h: &Hc<T>) -> (r: Hc<T>)
        requires
            old(self).wf(),
        ensures
            final(self).wf(),
            final(self)@.auto == old(self)@.auto,
            r@ == h@,
            T::obeys_eq_spec() ==> final(self)@.entries == clone_handle_spec(
                old(self)@.entries,
                h@,
            ),
    {
        let ghost s = self@.entries;
        match self.find(h.get()) {
            Some(i) => {
                let c = self.entries[i].count;
                if c < usize::MAX {
                    self.entries[i].count = c + 1;
                }
                proof {
                    assert(self@.entries =~= inc_at(s, i as int));
                }
            },
            None => {},
        }
        Hc::from_arc(h.arc().clone())
    }

    /// Sweeps the store: removes every entry without outstanding handles,
    /// iterating to a fixed point, since destroying a removed entry's value
    /// lets go of the references embedded in it, which may leave further
    /// entries without handles.  Under automatic cleanup there is never
    /// anything to sweep and the store is left untouched.
    pub fn cleanup(&mut self)
        requires
            old(self).wf(),
        ensures
            final(self).wf(),
            final(self)@.auto == old(self)@.auto,
            T::obeys_eq_spec() ==> final(self)@.entries == sweep_spec(old(self)@.entries),
            old(self)@.auto ==> final(self)@.entries == old(self)@.entries,
            (forall|j: int| 0 <= j < old(self)@.entries.len() ==> (#[trigger] old(self)@.entries[j].count) != 0)
                ==> final(self)@.entries == old(self)@.entries,
            forall|j: int| 0 <= j < final(self)@.entries.len() ==> (#[trigger] final(self)@.entries[j].count) != 0,
    {
        let ghost s_orig = self@.entries;
        let ghost auto = self@.auto;
        let mut again = true;
        while again
            invariant
                self.wf(),
                self@.auto == auto,
                T::obeys_eq_spec() ==> sweep_spec(self@.entries) == sweep_spec(s_orig),
                !again ==> forall|j: int|
                    0 <= j < self@.entries.len() ==> (#[trigger] self@.entries[j].count) != 0,
                auto ==> self@.entries == s_orig,
                (forall|j: int| 0 <= j < s_orig.len() ==> (#[trigger] s_orig[j].count) != 0)
                    ==> self@.entries == s_orig,
            decreases self@.entries.len() + (if again {
                1int
            } else {
                0int
            }),
        {
            let ghost s0 = self@.entries;
            let mut pending: Vec<Arc<T>> = Vec::new();
            let mut i: usize = 0;
            while i < self.entries.len()
                invariant
                    self.wf(),
                    self@.auto == auto,
                    i + pending@.len() <= s0.len(),
                    i == sweep_pass(s0.take((i + pending@.len()) as int)).0.len(),
                    self@.entries == sweep_pass(s0.take((i + pending@.len()) as int)).0 + s0.skip(
                        (i + pending@.len()) as int,
                    ),
                    vals_of(pending@) == sweep_pass(s0.take((i + pending@.len()) as int)).1,
                decreases s0.len() - (i + pending@.len()),
            {
                let ghost j = (i + pending@.len()) as int;
                let ghost kept = sweep_pass(s0.take(j)).0;
                let ghost dvals = sweep_pass(s0.take(j)).1;
                proof {
                    reveal_with_fuel(sweep_pass, 3);
                    assert(s0.skip(j)[0] == s0[j]);
                    assert(self@.entries[i as int] == s0[j]);
                    assert(s0.take(j + 1) =~= s0.take(j) + seq![s0[j]]);
                    crate::model::lemma_sweep_pass_app(s0.take(j), seq![s0[j]]);
                }
                let c = self.entries[i].count;
                let ghost vprev = self@.entries;
                if c == 0 {
                    let e = self.entries.remove(i);
                    pending.push(e.val);
                    proof {
                        assert(sweep_pass(seq![s0[j]]).1 =~= seq![s0[j].val]);
                        assert(sweep_pass(s0.take(j + 1)).0 =~= kept);
                        assert(sweep_pass(s0.take(j + 1)).1 =~= dvals.push(s0[j].val));
                        assert(self@.entries =~= vprev.remove(i as int));
                        assert(vprev.remove(i as int) =~= kept + s0.skip(j + 1));
                        assert(vals_of(pending@) =~= dvals.push(s0[j].val));
                        lemma_wf_remove(vprev, auto, i as int);
                    }
                } else {
                    i = i + 1;
                    proof {
                        assert(sweep_pass(seq![s0[j]]).0 =~= seq![s0[j]]);
                        assert(sweep_pass(s0.take(j + 1)).0 =~= kept.push(s0[j]));
                        assert(sweep_pass(s0.take(j + 1)).1 =~= dvals);
                        assert(self@.entries =~= kept.push(s0[j]) + s0.skip(j + 1));
                    }
                }
            }
            proof {
                assert(s0.take((i + pending@.len()) as int) =~= s0);
                assert(self@.entries =~= sweep_pass(s0).0);
                crate::model::lemma_sweep_pass(s0);
            }
            if pending.len() == 0 {
                again = false;
                proof {
                    assert(self@.entries =~= s0);
                }
            } else {
                proof {
                    if auto {
                        assert(sweep_pass(s0).1.len() == 0);
                        assert(false);
                    }
                }
                let ghost t = sweep_pass(s0).0;
                let ghost d = sweep_pass(s0).1;
                self.cascade(pending);
                proof {
                    assert(d.len() > 0);
                    if T::obeys_eq_spec() {
                        assert(self@.entries == drain(t, false, d));
                        assert(sweep_spec(s0) == sweep_spec(drain(t, false, d)));
                    }
                }
            }
        }
        proof {
            crate::model::lemma_sweep_pass(self@.entries);
            assert(sweep_pass(self@.entries).1.len() == 0);
            assert(sweep_spec(self@.entries) == self@.entries);
        }
    }
}

/// Appending a fresh entry for a value no entry matches preserves the store
/// invariant.
proof fn lemma_wf_push<T: PartialEq>(s: Seq<EntrySnap<T>>, auto: bool, v: T)
    requires
        entries_wf(s, auto),
        T::obeys_eq_spec() ==> find_index(s, v) == -1,
    ensures
        entries_wf(s.push(EntrySnap { val: v, count: 1nat }), auto),
{
    lemma_find_index(s, v);
    let t = s.push(EntrySnap { val: v, count: 1nat });
    if eq_laws::<T>() {
        reveal(vstd::laws_eq::obeys_eq_spec_properties);
        assert forall|k1: int, k2: int|
            0 <= k1 < t.len() && 0 <= k2 < t.len() && k1 != k2 implies !(#[trigger] t[k1].val
            .eq_spec(&t[k2].val)) by {
            if k2 == s.len() as int {
                assert(!s[k1].val.eq_spec(&v));
            } else if k1 == s.len() as int {
                assert(!s[k2].val.eq_spec(&v));
            }
        }
    }
    assert forall|k: int| 0 <= k < t.len() implies (#[trigger] t[k].count) <= count_max() && (auto
        ==> t[k].count >= 1) by {
        if k < s.len() {
            assert(t[k] == s[k]);
        }
    }
}

/// The values owned by a queue of destroyed-value carriers.
pub open spec fn vals_of<T>(p: Seq<Arc<T>>) -> Seq<T> {
    p.map(|i: int, a: Arc<T>| *a)
}

impl<T: PartialEq + HcValue> InnerTable<T> {
    /// Runs the destruction cascade: every value queued in `pending` has
    /// just been destroyed, so one reference to each of its children is
    /// gone; an entry removed that way queues its own stored value in turn.
    fn cascade(&mut self, pending: Vec<Arc<T>>)
        requires
            old(self).wf(),
        ensures
            final(self).wf(),
            final(self)@.auto == old(self)@.auto,
            !old(self)@.auto ==> final(self)@.entries.len() == old(self)@.entries.len(),
            T::obeys_eq_spec() ==> final(self)@.entries == drain(
                old(self)@.entries,
                old(self)@.auto,
                vals_of(pending@),
            ),
    {
        let mut pending = pending;
        let ghost s_orig = self@.entries;
        let ghost auto = self@.auto;
        let ghost p_orig = vals_of(pending@);
        while pending.len() > 0
            invariant
                self.wf(),
                self@.auto == auto,
                !auto ==> self@.entries.len() == s_orig.len(),
                T::obeys_eq_spec() ==> drain(self@.entries, auto, vals_of(pending@)) == drain(
                    s_orig,
                    auto,
                    p_orig,
                ),
            decreases self@.entries.len() + pending@.len(),
        {
            let ghost s0 = self@.entries;
            let ghost p0 = vals_of(pending@);
            let w = pending.remove(0);
            let ghost wv = p0[0];
            let wref: &T = &*w;
            let kids = wref.children();
            let ghost ks = wv.children_spec();
            let ghost rest = vals_of(pending@);
            let ghost base = self@.entries.len() + pending@.len();
            proof {
                assert(p0[0] == wv);
                assert(rest =~= p0.drop_first());
            }
            let mut k: usize = 0;
            while k < kids.len()
                invariant
                    self.wf(),
                    self@.auto == auto,
                    k <= kids@.len(),
                    kids@.len() == ks.len(),
                    forall|j: int| 0 <= j < kids@.len() ==> *kids@[j] == ks[j],
                    self@.entries.len() + pending@.len() == base,
                    !auto ==> self@.entries.len() == s_orig.len(),
                    T::obeys_eq_spec() ==> {
                        let (s1, d) = dec_list(s0, auto, ks.take(k as int));
                        self@.entries == s1 && vals_of(pending@) == rest + d
                    },
                decreases kids@.len() - k,
            {
                let ghost sk = self@.entries;
                let ghost pk = vals_of(pending@);
                let dead = self.dec_value(kids[k]);
                proof {
                    if T::obeys_eq_spec() {
                        crate::model::lemma_dec_list_snoc(s0, auto, ks.take(k as int), ks[k as int]);
                        assert(ks.take(k as int).push(ks[k as int]) =~= ks.take(k as int + 1));
                    }
                }
                match dead {
                    Some(a) => {
                        pending.push(a);
                        proof {
                            let av = *pending@.last();
                            assert(vals_of(pending@) =~= pk.push(av));
                            if T::obeys_eq_spec() {
                                let d0 = dec_list(s0, auto, ks.take(k as int)).1;
                                assert((rest + d0).push(av) =~= rest + d0.push(av));
                                assert(d0 + seq![av] =~= d0.push(av));
                            }
                        }
                    },
                    None => {
                        proof {
                            if T::obeys_eq_spec() {
                                let d0 = dec_list(s0, auto, ks.take(k as int)).1;
                                assert(d0 + Seq::<T>::empty() =~= d0);
                            }
                        }
                    },
                }
                k = k + 1;
            }
            proof {
                if T::obeys_eq_spec() {
                    assert(ks.take(kids@.len() as int) =~= ks);
                    let (s1, d) = dec_list(s0, auto, ks);
                    assert(drain(s0, auto, p0) == drain(s1, auto, p0.drop_first() + d));
                    assert(vals_of(pending@) =~= p0.drop_first() + d);
                }
            }
        }
        proof {
            assert(vals_of(pending@) =~= Seq::<T>::empty());
        }
    }
}

/// Removing an entry preserves the store invariant.
proof fn lemma_wf_remove<T: PartialEq>(s: Seq<EntrySnap<T>>, auto: bool, i: int)
    requires
        entries_wf(s, auto),
        0 <= i < s.len(),
    ensures
        entries_wf(s.remove(i), auto),
{
    let t = s.remove(i);
    assert forall|k1: int, k2: int|
        0 <= k1 < t.len() && 0 <= k2 < t.len() && k1 != k2 && eq_laws::<T>() implies !(
    #[trigger] t[k1].val.eq_spec(&t[k2].val)) by {
        let m1: int = if k1 < i {
            k1
        } else {
            k1 + 1
        };
        let m2: int = if k2 < i {
            k2
        } else {
            k2 + 1
        };
        assert(t[k1] == s[m1] && t[k2] == s[m2]);
    }
    assert forall|k: int| 0 <= k < t.len() implies (#[trigger] t[k].count) <= count_max() && (auto
        ==> t[k].count >= 1) by {
        let m: int = if k < i {
            k
        } else {
            k + 1
        };
        assert(t[k] == s[m]);
    }
}

/// Lowering a count preserves the store invariant, provided the entry is not
/// losing its last reference under automatic cleanup.
proof fn lemma_wf_dec_at<T: PartialEq>(s: Seq<EntrySnap<T>>, auto: bool, i: int)
    requires
        entries_wf(s, auto),
        0 <= i < s.len(),
        auto ==> s[i].count != 1,
    ensures
        entries_wf(dec_at(s, i), auto),
{
}

} // verus!
