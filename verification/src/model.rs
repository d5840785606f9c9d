//! The mathematical model of an interning table.
//!
//! A table is modelled as a sequence of entries, one per stored value, each
//! carrying the number of outstanding handles for that value.  The functions
//! here define, purely mathematically, what every table operation does to
//! that sequence; the executable tables promise in their contracts to realise
//! exactly these functions.

use crate::value::HcValue;
use vstd::prelude::*;
use vstd::std_specs::cmp::PartialEqSpec;

verus! {

/// One table entry, as the contracts see it: the stored value and the number
/// of handles granted for it that have not been released.
pub ghost struct EntrySnap<T> {
    pub val: T,
    pub count: nat,
}

/// The largest representable reference count.  A count that reaches this
/// bound is pinned: further grants and releases leave it unchanged, so an
/// entry can never be collected early by an overflowing counter.
pub open spec fn count_max() -> nat {
    usize::MAX as nat
}

/// One more handle granted: counts saturate at `count_max`.
pub open spec fn sat_inc(c: nat) -> nat {
    if c >= count_max() {
        c
    } else {
        c + 1
    }
}

/// One handle gone: a pinned count stays pinned, and a count of zero
/// (an entry already stale) stays zero.
pub open spec fn sat_dec(c: nat) -> nat {
    if c >= count_max() || c == 0 {
        c
    } else {
        (c - 1) as nat
    }
}

/// The index of the first entry whose value equals `v` under the value
/// type's own equality, or `-1` if no entry matches.
pub open spec fn find_index<T: PartialEq>(s: Seq<EntrySnap<T>>, v: T) -> int
    decreases s.len(),
{
    if s.len() == 0 {
        -1
    } else if s[0].val.eq_spec(&v) {
        0
    } else {
        let r = find_index(s.drop_first(), v);
        if r == -1 {
            -1
        } else {
            r + 1
        }
    }
}

/// What `find_index` returns: a position in range whose entry matches and
/// before which no entry matches, or `-1` when nothing matches.
pub proof fn lemma_find_index<T: PartialEq>(s: Seq<EntrySnap<T>>, v: T)
    ensures
        -1 <= find_index(s, v) < s.len(),
        find_index(s, v) >= 0 ==> s[find_index(s, v)].val.eq_spec(&v),
        forall|j: int| 0 <= j < s.len() && (find_index(s, v) == -1 || j < find_index(s, v))
            ==> !(#[trigger] s[j].val.eq_spec(&v)),
    decreases s.len(),
{
    if s.len() > 0 && !s[0].val.eq_spec(&v) {
        lemma_find_index(s.drop_first(), v);
        assert forall|j: int|
            0 <= j < s.len() && (find_index(s, v) == -1 || j < find_index(s, v)) implies !(
        #[trigger] s[j].val.eq_spec(&v)) by {
            if j > 0 {
                assert(s.drop_first()[j - 1] == s[j]);
            }
        }
    }
}

/// `find_index` is determined by the first matching position.
pub proof fn lemma_find_index_at<T: PartialEq>(s: Seq<EntrySnap<T>>, v: T, i: int)
    requires
        0 <= i < s.len(),
        s[i].val.eq_spec(&v),
        forall|j: int| 0 <= j < i ==> !(#[trigger] s[j].val.eq_spec(&v)),
    ensures
        find_index(s, v) == i,
    decreases s.len(),
{
    if i > 0 {
        assert(!s[0].val.eq_spec(&v));
        assert(s.drop_first()[i - 1] == s[i]);
        assert forall|j: int| 0 <= j < i - 1 implies !(#[trigger] s.drop_first()[j].val.eq_spec(
            &v,
        )) by {
            assert(s.drop_first()[j] == s[j + 1]);
        }
        lemma_find_index_at(s.drop_first(), v, i - 1);
    }
}

/// The entry at `i` with one more handle granted.
pub open spec fn inc_at<T>(s: Seq<EntrySnap<T>>, i: int) -> Seq<EntrySnap<T>> {
    s.update(i, EntrySnap { val: s[i].val, count: sat_inc(s[i].count) })
}

/// The entry at `i` with one handle gone.
pub open spec fn dec_at<T>(s: Seq<EntrySnap<T>>, i: int) -> Seq<EntrySnap<T>> {
    s.update(i, EntrySnap { val: s[i].val, count: sat_dec(s[i].count) })
}

/// One reference to the value `u` gone.  Under automatic cleanup, an entry
/// whose last reference disappears is removed, and its stored value — now
/// destroyed — is reported so that the references embedded in it can be
/// processed in turn.  Otherwise the count merely drops, possibly to zero,
/// leaving a stale entry for a later sweep.
pub open spec fn dec_one<T: PartialEq>(s: Seq<EntrySnap<T>>, auto: bool, u: T) -> (Seq<
    EntrySnap<T>,
>, Seq<T>) {
    let i = find_index(s, u);
    if i == -1 {
        (s, Seq::empty())
    } else if auto && s[i].count == 1 {
        (s.remove(i), seq![s[i].val])
    } else {
        (dec_at(s, i), Seq::empty())
    }
}

/// `dec_one` for each value of `us` in turn, collecting every value whose
/// entry was removed.
pub open spec fn dec_list<T: PartialEq>(s: Seq<EntrySnap<T>>, auto: bool, us: Seq<T>) -> (Seq<
    EntrySnap<T>,
>, Seq<T>) decreases us.len(),
{
    if us.len() == 0 {
        (s, Seq::<T>::empty())
    } else {
        let (s1, d1) = dec_one(s, auto, us[0]);
        let (s2, d2) = dec_list(s1, auto, us.drop_first());
        (s2, d1 + d2)
    }
}

/// Each value a `dec_one` reports removed accounts for exactly one entry.
pub proof fn lemma_dec_one_len<T: PartialEq>(s: Seq<EntrySnap<T>>, auto: bool, u: T)
    ensures
        dec_one(s, auto, u).0.len() + dec_one(s, auto, u).1.len() == s.len(),
        !auto ==> dec_one(s, auto, u).0.len() == s.len() && dec_one(s, auto, u).1.len() == 0,
{
    lemma_find_index(s, u);
}

/// Entry accounting across a whole list of decrements.
pub proof fn lemma_dec_list_len<T: PartialEq>(s: Seq<EntrySnap<T>>, auto: bool, us: Seq<T>)
    ensures
        dec_list(s, auto, us).0.len() + dec_list(s, auto, us).1.len() == s.len(),
        !auto ==> dec_list(s, auto, us).0.len() == s.len() && dec_list(s, auto, us).1.len() == 0,
    decreases us.len(),
{
    if us.len() != 0 {
        lemma_dec_one_len(s, auto, us[0]);
        lemma_dec_list_len(dec_one(s, auto, us[0]).0, auto, us.drop_first());
    }
}

/// A list of decrements can be grown one decrement at a time.
pub proof fn lemma_dec_list_snoc<T: PartialEq>(s: Seq<EntrySnap<T>>, auto: bool, us: Seq<T>, u: T)
    ensures
        dec_list(s, auto, us.push(u)).0 == dec_one(dec_list(s, auto, us).0, auto, u).0,
        dec_list(s, auto, us.push(u)).1 == dec_list(s, auto, us).1 + dec_one(
            dec_list(s, auto, us).0,
            auto,
            u,
        ).1,
    decreases us.len(),
{
    reveal_with_fuel(dec_list, 3);
    if us.len() == 0 {
        assert(us.push(u)[0] == u);
        assert(us.push(u).drop_first() =~= Seq::<T>::empty());
        let (s1, d1) = dec_one(s, auto, u);
        assert(dec_list(s1, auto, Seq::<T>::empty()).0 == s1);
        assert(dec_list(s, auto, us.push(u)).0 == s1);
        assert(dec_list(s, auto, us.push(u)).1 == d1 + Seq::<T>::empty());
        assert(dec_list(s, auto, us).0 == s);
        assert(dec_list(s, auto, us).1 == Seq::<T>::empty());
        assert(d1 + Seq::<T>::empty() =~= Seq::<T>::empty() + d1);
    } else {
        assert(us.push(u)[0] == us[0]);
        assert(us.push(u).drop_first() =~= us.drop_first().push(u));
        let (s1, d1) = dec_one(s, auto, us[0]);
        lemma_dec_list_snoc(s1, auto, us.drop_first(), u);
        let (s2, d2) = dec_list(s1, auto, us.drop_first());
        let d3 = dec_one(s2, auto, u).1;
        assert(dec_list(s, auto, us.push(u)).0 == dec_list(s1, auto, us.drop_first().push(u)).0);
        assert(dec_list(s, auto, us.push(u)).1 == d1 + (d2 + d3));
        assert(dec_list(s, auto, us).1 == d1 + d2);
        assert(d1 + (d2 + d3) =~= (d1 + d2) + d3);
    }
}

/// A sweep pass distributes over concatenation.
pub proof fn lemma_sweep_pass_app<T>(a: Seq<EntrySnap<T>>, b: Seq<EntrySnap<T>>)
    ensures
        sweep_pass(a + b).0 == sweep_pass(a).0 + sweep_pass(b).0,
        sweep_pass(a + b).1 == sweep_pass(a).1 + sweep_pass(b).1,
    decreases a.len(),
{
    if a.len() == 0 {
        assert(a + b =~= b);
        assert(sweep_pass(a).0 + sweep_pass(b).0 =~= sweep_pass(b).0);
        assert(sweep_pass(a).1 + sweep_pass(b).1 =~= sweep_pass(b).1);
    } else {
        assert((a + b)[0] == a[0]);
        assert((a + b).drop_first() =~= a.drop_first() + b);
        lemma_sweep_pass_app(a.drop_first(), b);
        let (t, d) = sweep_pass(a.drop_first() + b);
        if a[0].count == 0 {
            assert(seq![a[0].val] + (sweep_pass(a.drop_first()).1 + sweep_pass(b).1) =~= (seq![
                a[0].val,
            ] + sweep_pass(a.drop_first()).1) + sweep_pass(b).1);
        } else {
            assert(seq![a[0]] + (sweep_pass(a.drop_first()).0 + sweep_pass(b).0) =~= (seq![a[0]]
                + sweep_pass(a.drop_first()).0) + sweep_pass(b).0);
        }
    }
}

/// Runs the destruction cascade to completion: every value in `pending` has
/// just been destroyed, so one reference to each of its children is gone;
/// any entry removed by that accounts for a further destroyed value, which
/// joins the queue.  Terminates because every queued value beyond the first
/// round is paid for by a removed entry.
pub open spec fn drain<T: PartialEq + HcValue>(
    s: Seq<EntrySnap<T>>,
    auto: bool,
    pending: Seq<T>,
) -> Seq<EntrySnap<T>>
    decreases s.len(), pending.len(),
    via drain_decreases::<T>
{
    if pending.len() == 0 {
        s
    } else {
        let (s1, dead) = dec_list(s, auto, pending[0].children_spec());
        drain(s1, auto, pending.drop_first() + dead)
    }
}

#[via_fn]
proof fn drain_decreases<T: PartialEq + HcValue>(s: Seq<EntrySnap<T>>, auto: bool, pending: Seq<T>) {
    if pending.len() != 0 {
        lemma_dec_list_len(s, auto, pending[0].children_spec());
    }
}

/// What interning `v` does.  A matching entry gains one handle, and the
/// duplicate value is destroyed, so the references embedded in it go through
/// the cascade; with no matching entry, a fresh one is appended with a single
/// handle.  The second component is the value the returned handle wraps:
/// the one already stored, or the fresh one.
pub open spec fn intern_spec<T: PartialEq + HcValue>(s: Seq<EntrySnap<T>>, auto: bool, v: T) -> (
    Seq<EntrySnap<T>>,
    T,
) {
    let i = find_index(s, v);
    if i >= 0 {
        (drain(inc_at(s, i), auto, seq![v]), s[i].val)
    } else {
        (s.push(EntrySnap { val: v, count: 1 }), v)
    }
}

/// What releasing a handle wrapping `v` does: one reference to `v` gone,
/// with the cascade run on whatever that removed.
pub open spec fn release_spec<T: PartialEq + HcValue>(
    s: Seq<EntrySnap<T>>,
    auto: bool,
    v: T,
) -> Seq<EntrySnap<T>> {
    let (s1, dead) = dec_one(s, auto, v);
    drain(s1, auto, dead)
}

/// What duplicating a handle wrapping `v` does: the matching entry gains
/// one handle; a handle the table no longer knows changes nothing.
pub open spec fn clone_handle_spec<T: PartialEq>(s: Seq<EntrySnap<T>>, v: T) -> Seq<EntrySnap<T>> {
    let i = find_index(s, v);
    if i >= 0 {
        inc_at(s, i)
    } else {
        s
    }
}

/// One sweep pass: the entries kept (those with outstanding handles) and the
/// values of the stale entries removed, in order.
pub open spec fn sweep_pass<T>(s: Seq<EntrySnap<T>>) -> (Seq<EntrySnap<T>>, Seq<T>)
    decreases s.len(),
{
    if s.len() == 0 {
        (Seq::<EntrySnap<T>>::empty(), Seq::<T>::empty())
    } else {
        let (t, d) = sweep_pass(s.drop_first());
        if s[0].count == 0 {
            (t, seq![s[0].val] + d)
        } else {
            (seq![s[0]] + t, d)
        }
    }
}

/// Every removed value accounts for one entry; a pass that removes nothing
/// leaves the table as it was; what a pass keeps has outstanding handles and
/// was present before.
pub proof fn lemma_sweep_pass<T>(s: Seq<EntrySnap<T>>)
    ensures
        sweep_pass(s).0.len() + sweep_pass(s).1.len() == s.len(),
        sweep_pass(s).1.len() == 0 ==> sweep_pass(s).0 == s,
        forall|k: int| 0 <= k < sweep_pass(s).0.len() ==> (#[trigger] sweep_pass(s).0[k]).count
            != 0,
        forall|k: int| 0 <= k < sweep_pass(s).0.len() ==> s.contains(#[trigger] sweep_pass(s).0[k]),
        (forall|i: int| 0 <= i < s.len() ==> (#[trigger] s[i].count) != 0) ==> sweep_pass(
            s,
        ).1.len() == 0,
    decreases s.len(),
{
    if s.len() != 0 {
        lemma_sweep_pass(s.drop_first());
        let (t, d) = sweep_pass(s.drop_first());
        assert forall|k: int| 0 <= k < sweep_pass(s).0.len() implies s.contains(
            #[trigger] sweep_pass(s).0[k],
        ) by {
            if s[0].count == 0 {
                let m = choose|m: int| 0 <= m < s.drop_first().len() && s.drop_first()[m] == t[k];
                assert(s[m + 1] == t[k]);
            } else {
                if k == 0 {
                    assert(s[0] == sweep_pass(s).0[0]);
                } else {
                    let m = choose|m: int|
                        0 <= m < s.drop_first().len() && s.drop_first()[m] == t[k - 1];
                    assert(s[m + 1] == t[k - 1]);
                }
            }
        }
        if sweep_pass(s).1.len() == 0 {
            assert(sweep_pass(s).0 =~= s);
        }
    } else {
        assert(sweep_pass(s).0 =~= s);
    }
}

/// The sweep, iterated to a fixed point: passes run until one removes no
/// entry.  A pass that removes entries destroys their stored values, so one
/// reference to each of their children is gone before the next pass; those
/// decrements never remove entries themselves — they at most leave new stale
/// entries for the next pass to find.
pub open spec fn sweep_spec<T: PartialEq + HcValue>(s: Seq<EntrySnap<T>>) -> Seq<EntrySnap<T>>
    decreases s.len(),
    via sweep_decreases::<T>
{
    let (t, d) = sweep_pass(s);
    if d.len() == 0 {
        s
    } else {
        sweep_spec(drain(t, false, d))
    }
}

#[via_fn]
proof fn sweep_decreases<T: PartialEq + HcValue>(s: Seq<EntrySnap<T>>) {
    let (t, d) = sweep_pass(s);
    if d.len() != 0 {
        lemma_sweep_pass(s);
        lemma_drain_manual_len(t, d);
    }
}

/// The laws Rust's `Eq` contract demands of the value type's equality:
/// it agrees with its own specification and is an equivalence relation.
pub open spec fn eq_laws<T: PartialEq>() -> bool {
    &&& vstd::laws_eq::obeys_eq::<T>()
    &&& forall|x: T| #[trigger] x.eq_spec(&x)
}

/// Deduplication: no two entries hold equal values.  Meaningful only when
/// the value type's equality obeys its laws; without them nothing about the
/// lookups can be promised, and nothing is.
pub open spec fn entries_unique<T: PartialEq>(s: Seq<EntrySnap<T>>) -> bool {
    eq_laws::<T>() ==> forall|i: int, j: int|
        0 <= i < s.len() && 0 <= j < s.len() && i != j ==> !(#[trigger] s[i].val.eq_spec(
            &s[j].val,
        ))
}

/// Counts are representable, and under automatic cleanup no entry is ever
/// stale: an entry without outstanding handles is removed on the spot.
pub open spec fn counts_wf<T>(s: Seq<EntrySnap<T>>, auto: bool) -> bool {
    &&& forall|i: int| 0 <= i < s.len() ==> (#[trigger] s[i].count) <= count_max()
    &&& (auto ==> forall|i: int| 0 <= i < s.len() ==> (#[trigger] s[i].count) >= 1)
}

/// Every externally observable table state satisfies this.
pub open spec fn entries_wf<T: PartialEq>(s: Seq<EntrySnap<T>>, auto: bool) -> bool {
    &&& counts_wf(s, auto)
    &&& entries_unique(s)
}

/// Without automatic removal, the cascade only lowers counts: the number of
/// entries never changes.
pub proof fn lemma_drain_manual_len<T: PartialEq + HcValue>(s: Seq<EntrySnap<T>>, pending: Seq<T>)
    ensures
        drain(s, false, pending).len() == s.len(),
    decreases s.len(), pending.len(),
{
    if pending.len() != 0 {
        lemma_dec_list_len(s, false, pending[0].children_spec());
        let (s1, dead) = dec_list(s, false, pending[0].children_spec());
        lemma_drain_manual_len(s1, pending.drop_first() + dead);
    }
}

} // verus!
