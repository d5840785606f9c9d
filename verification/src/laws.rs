//! The library's laws: properties that hold of every table, stated over the
//! model of `crate::model` and proved once and for all.  The tables'
//! contracts tie every executable operation to that model, so each law
//! transfers to the running code.

use crate::handle::Hc;
use crate::model::dec_list;
use crate::model::drain;
use crate::model::entries_wf;
use crate::model::eq_laws;
use crate::model::find_index;
use crate::model::inc_at;
use crate::model::intern_spec;
use crate::model::lemma_find_index;
use crate::model::lemma_find_index_at;
use crate::model::lemma_sweep_pass;
use crate::model::release_spec;
use crate::model::sweep_pass;
use crate::model::sweep_spec;
use crate::model::EntrySnap;
use crate::value::HcValue;
use vstd::prelude::*;
use vstd::std_specs::cmp::PartialEqSpec;
use vstd::std_specs::cmp::PartialOrdSpec;

verus! {

/// Whether some entry holds a value equal to `v`.
pub open spec fn has_match<T: PartialEq>(s: Seq<EntrySnap<T>>, v: T) -> bool {
    exists|i: int| 0 <= i < s.len() && (#[trigger] s[i].val).eq_spec(&v)
}

/// A sweep leaves no stale entry behind: every entry of a swept table has
/// outstanding handles.
pub proof fn lemma_sweep_no_stale<T: PartialEq + HcValue>(s: Seq<EntrySnap<T>>)
    ensures
        forall|j: int| 0 <= j < sweep_spec(s).len() ==> (#[trigger] sweep_spec(s)[j].count) != 0,
    decreases s.len(),
{
    lemma_sweep_pass(s);
    let (t, d) = sweep_pass(s);
    if d.len() != 0 {
        crate::model::lemma_drain_manual_len(t, d);
        lemma_sweep_no_stale(drain(t, false, d));
        assert(sweep_spec(s) == sweep_spec(drain(t, false, d)));
    } else {
        assert(sweep_spec(s) == s);
        assert forall|j: int| 0 <= j < sweep_spec(s).len() implies (#[trigger] sweep_spec(
            s,
        )[j].count) != 0 by {
            assert(s[j] == t[j]);
        }
    }
}

/// Manual-cleanup fixed point: sweeping is idempotent.  A second sweep,
/// right after a first, removes nothing and changes nothing.
pub proof fn lemma_cleanup_idempotent<T: PartialEq + HcValue>(s: Seq<EntrySnap<T>>)
    ensures
        sweep_spec(sweep_spec(s)) == sweep_spec(s),
{
    lemma_sweep_no_stale(s);
    lemma_sweep_pass(sweep_spec(s));
    assert(sweep_pass(sweep_spec(s)).1.len() == 0);
}

/// Hash/equality delegation, equality half: two handles are equal exactly
/// when the values they wrap are equal, under the value type's own
/// equality; a handle adds nothing of its own — in particular no pointer
/// identity — to the comparison.
pub proof fn lemma_handle_eq_delegates<T: PartialEq>(h1: Hc<T>, h2: Hc<T>)
    ensures
        Hc::<T>::obeys_eq_spec() == T::obeys_eq_spec(),
        h1.eq_spec(&h2) == h1@.eq_spec(&h2@),
{
}

/// Hash/equality delegation, ordering half: two handles order as the values
/// they wrap order.
pub proof fn lemma_handle_ord_delegates<T: PartialOrd>(h1: Hc<T>, h2: Hc<T>)
    ensures
        Hc::<T>::obeys_partial_cmp_spec() == T::obeys_partial_cmp_spec(),
        h1.partial_cmp_spec(&h2) == h1@.partial_cmp_spec(&h2@),
{
}

/// The boolean expressions obey the equality laws: their equality is the
/// structural equality of the values, an equivalence relation.
pub proof fn lemma_bool_expr_eq_laws()
    ensures
        eq_laws::<crate::value::BoolExpr>(),
{
    reveal(vstd::laws_eq::obeys_eq_spec_properties);
}

/// So do the deliberately colliding expressions: a dishonest hash leaves
/// the equality laws untouched.
pub proof fn lemma_bool_expr_hc_eq_laws()
    ensures
        eq_laws::<crate::value::BoolExprHC>(),
{
    reveal(vstd::laws_eq::obeys_eq_spec_properties);
}

/// The table state after interning each value of `vs` in turn.
pub open spec fn intern_all<T: PartialEq + HcValue>(
    s: Seq<EntrySnap<T>>,
    auto: bool,
    vs: Seq<T>,
) -> Seq<EntrySnap<T>>
    decreases vs.len(),
{
    if vs.len() == 0 {
        s
    } else {
        intern_all(intern_spec(s, auto, vs[0]).0, auto, vs.drop_first())
    }
}

/// The table state after releasing one handle for each value of `vs` in
/// turn.
pub open spec fn release_all<T: PartialEq + HcValue>(
    s: Seq<EntrySnap<T>>,
    auto: bool,
    vs: Seq<T>,
) -> Seq<EntrySnap<T>>
    decreases vs.len(),
{
    if vs.len() == 0 {
        s
    } else {
        release_all(release_spec(s, auto, vs[0]), auto, vs.drop_first())
    }
}

/// The number of values of `vs` not preceded by an equal one: the number of
/// distinct values in `vs`, under the value type's equality.
pub open spec fn distinct_count<T: PartialEq>(vs: Seq<T>) -> int
    decreases vs.len(),
{
    if vs.len() == 0 {
        0
    } else {
        distinct_count(vs.drop_last()) + if exists|j: int|
            0 <= j < vs.len() - 1 && (#[trigger] vs[j]).eq_spec(&vs.last()) {
            0int
        } else {
            1int
        }
    }
}

/// Whether every value of `vs` embeds no handles.
pub open spec fn all_leaves<T: HcValue>(vs: Seq<T>) -> bool {
    forall|k: int| 0 <= k < vs.len() ==> (#[trigger] vs[k]).children_spec().len() == 0
}

/// Interning one value at a time, from the other end.
proof fn lemma_intern_all_snoc<T: PartialEq + HcValue>(
    s: Seq<EntrySnap<T>>,
    auto: bool,
    vs: Seq<T>,
    v: T,
)
    ensures
        intern_all(s, auto, vs.push(v)) == intern_spec(intern_all(s, auto, vs), auto, v).0,
    decreases vs.len(),
{
    reveal_with_fuel(intern_all, 3);
    if vs.len() == 0 {
        assert(vs.push(v)[0] == v);
        assert(vs.push(v).drop_first() =~= Seq::<T>::empty());
    } else {
        assert(vs.push(v)[0] == vs[0]);
        assert(vs.push(v).drop_first() =~= vs.drop_first().push(v));
        lemma_intern_all_snoc(intern_spec(s, auto, vs[0]).0, auto, vs.drop_first(), v);
    }
}

/// What interning a value without embedded handles does to the table: the
/// destruction of a discarded duplicate releases nothing further.
pub proof fn lemma_intern_leaf<T: PartialEq + HcValue>(s: Seq<EntrySnap<T>>, auto: bool, v: T)
    requires
        v.children_spec().len() == 0,
    ensures
        find_index(s, v) >= 0 ==> intern_spec(s, auto, v).0 == inc_at(s, find_index(s, v)),
        find_index(s, v) == -1 ==> intern_spec(s, auto, v).0 == s.push(
            EntrySnap { val: v, count: 1nat },
        ),
{
    lemma_find_index(s, v);
    let i = find_index(s, v);
    if i >= 0 {
        assert(v.children_spec() =~= Seq::<T>::empty());
        assert(dec_list(inc_at(s, i), auto, v.children_spec()).0 == inc_at(s, i));
        assert(dec_list(inc_at(s, i), auto, v.children_spec()).1 == Seq::<T>::empty());
        assert(seq![v].drop_first() + Seq::<T>::empty() =~= Seq::<T>::empty());
        assert(intern_spec(s, auto, v).0 == drain(
            inc_at(s, i),
            auto,
            seq![v].drop_first() + Seq::<T>::empty(),
        ));
    }
}

/// Size counts the distinct values consed: interning any sequence of values
/// without embedded handles into an empty table leaves exactly one entry
/// per distinct value, however often each value recurs — no handle is
/// released here, so no entry can disappear in between.
pub proof fn lemma_size_counts_distinct<T: PartialEq + HcValue>(auto: bool, vs: Seq<T>)
    requires
        eq_laws::<T>(),
        all_leaves(vs),
    ensures
        intern_all(Seq::<EntrySnap<T>>::empty(), auto, vs).len() == distinct_count(vs),
        forall|u: T| #[trigger]
            has_match(intern_all(Seq::<EntrySnap<T>>::empty(), auto, vs), u) <==> (exists|j: int|
                0 <= j < vs.len() && (#[trigger] vs[j]).eq_spec(&u)),
    decreases vs.len(),
{
    reveal(vstd::laws_eq::obeys_eq_spec_properties);
    if vs.len() != 0 {
        let prefix = vs.drop_last();
        let v = vs.last();
        assert(all_leaves(prefix)) by {
            assert(forall|k: int| 0 <= k < prefix.len() ==> prefix[k] == vs[k]);
        }
        lemma_size_counts_distinct::<T>(auto, prefix);
        let st = intern_all(Seq::<EntrySnap<T>>::empty(), auto, prefix);
        assert(vs =~= prefix.push(v));
        lemma_intern_all_snoc(Seq::<EntrySnap<T>>::empty(), auto, prefix, v);
        let st2 = intern_spec(st, auto, v).0;
        assert(intern_all(Seq::<EntrySnap<T>>::empty(), auto, vs) == st2);
        lemma_intern_leaf(st, auto, v);
        lemma_find_index(st, v);
        let i = find_index(st, v);
        if i >= 0 {
            assert(st2 == inc_at(st, i));
            // the value was seen before
            assert(st[i].val.eq_spec(&v));
            assert(has_match(st, v));
            assert(exists|j: int| 0 <= j < prefix.len() && (#[trigger] prefix[j]).eq_spec(&v));
            assert(distinct_count(vs) == distinct_count(prefix)) by {
                let j = choose|j: int|
                    0 <= j < prefix.len() && (#[trigger] prefix[j]).eq_spec(&v);
                assert(vs[j].eq_spec(&vs.last()));
            }
            assert(st2.len() == st.len());
            // matching is untouched: only a count changed
            assert forall|u: T| #[trigger] has_match(st2, u) <==> has_match(st, u) by {
                if has_match(st2, u) {
                    let k = choose|k: int| 0 <= k < st2.len() && (#[trigger] st2[k].val).eq_spec(&u);
                    assert(st[k].val == st2[k].val);
                }
                if has_match(st, u) {
                    let k = choose|k: int| 0 <= k < st.len() && (#[trigger] st[k].val).eq_spec(&u);
                    assert(st2[k].val == st[k].val);
                }
            }
            assert forall|u: T| #[trigger]
                has_match(st2, u) <==> (exists|j: int|
                    0 <= j < vs.len() && (#[trigger] vs[j]).eq_spec(&u)) by {
                if has_match(st, u) {
                    let j = choose|j: int|
                        0 <= j < prefix.len() && (#[trigger] prefix[j]).eq_spec(&u);
                    assert(vs[j].eq_spec(&u));
                }
                if exists|j: int| 0 <= j < vs.len() && (#[trigger] vs[j]).eq_spec(&u) {
                    let j = choose|j: int| 0 <= j < vs.len() && (#[trigger] vs[j]).eq_spec(&u);
                    if j < prefix.len() {
                        assert(prefix[j].eq_spec(&u));
                    } else {
                        // vs[j] is the last value; go through the matching entry
                        assert(v.eq_spec(&u));
                        assert(st[i].val.eq_spec(&u));
                    }
                }
            }
        } else {
            assert(st2 == st.push(EntrySnap { val: v, count: 1nat }));
            // the value is new
            assert forall|j: int| 0 <= j < prefix.len() implies !((#[trigger] prefix[j]).eq_spec(
                &v,
            )) by {
                if prefix[j].eq_spec(&v) {
                    assert(has_match(st, v));
                    let k = choose|k: int| 0 <= k < st.len() && (#[trigger] st[k].val).eq_spec(&v);
                }
            }
            assert(distinct_count(vs) == distinct_count(prefix) + 1) by {
                if exists|j: int| 0 <= j < vs.len() - 1 && (#[trigger] vs[j]).eq_spec(&vs.last()) {
                    let j = choose|j: int|
                        0 <= j < vs.len() - 1 && (#[trigger] vs[j]).eq_spec(&vs.last());
                    assert(prefix[j].eq_spec(&v));
                }
            }
            assert forall|u: T| #[trigger]
                has_match(st2, u) <==> (exists|j: int|
                    0 <= j < vs.len() && (#[trigger] vs[j]).eq_spec(&u)) by {
                if has_match(st2, u) {
                    let k = choose|k: int| 0 <= k < st2.len() && (#[trigger] st2[k].val).eq_spec(&u);
                    if k < st.len() {
                        assert(has_match(st, u));
                        let j = choose|j: int|
                            0 <= j < prefix.len() && (#[trigger] prefix[j]).eq_spec(&u);
                        assert(vs[j].eq_spec(&u));
                    } else {
                        assert(vs[vs.len() - 1].eq_spec(&u));
                    }
                }
                if exists|j: int| 0 <= j < vs.len() && (#[trigger] vs[j]).eq_spec(&u) {
                    let j = choose|j: int| 0 <= j < vs.len() && (#[trigger] vs[j]).eq_spec(&u);
                    if j < prefix.len() {
                        assert(prefix[j].eq_spec(&u));
                        assert(has_match(st, u));
                        let k = choose|k: int|
                            0 <= k < st.len() && (#[trigger] st[k].val).eq_spec(&u);
                        assert(st2[k].val.eq_spec(&u));
                    } else {
                        assert(st2[st.len() as int].val.eq_spec(&u));
                    }
                }
            }
        }
    } else {
        assert(intern_all(Seq::<EntrySnap<T>>::empty(), auto, vs).len() == 0);
        assert forall|u: T| !(#[trigger] has_match(
            intern_all(Seq::<EntrySnap<T>>::empty(), auto, vs),
            u,
        )) by {}
    }
}

/// What releasing a handle wrapping a value without embedded handles does
/// to the table: the entry is removed outright when this was its last
/// handle under automatic cleanup, and merely counted down otherwise; the
/// destroyed value lets go of nothing further.
pub proof fn lemma_release_leaf<T: PartialEq + HcValue>(s: Seq<EntrySnap<T>>, auto: bool, v: T)
    requires
        find_index(s, v) >= 0 ==> s[find_index(s, v)].val.children_spec().len() == 0,
    ensures
        find_index(s, v) == -1 ==> release_spec(s, auto, v) == s,
        find_index(s, v) >= 0 && auto && s[find_index(s, v)].count == 1 ==> release_spec(
            s,
            auto,
            v,
        ) == s.remove(find_index(s, v)),
        find_index(s, v) >= 0 && !(auto && s[find_index(s, v)].count == 1) ==> release_spec(
            s,
            auto,
            v,
        ) == crate::model::dec_at(s, find_index(s, v)),
{
    lemma_find_index(s, v);
    let i = find_index(s, v);
    if i == -1 {
        assert(drain(s, auto, Seq::<T>::empty()) == s);
    } else if auto && s[i].count == 1 {
        let s1 = s.remove(i);
        assert(crate::model::dec_one(s, auto, v) == (s1, seq![s[i].val]));
        assert(dec_list(s1, auto, seq![s[i].val][0].children_spec()).0 == s1) by {
            assert(seq![s[i].val][0] == s[i].val);
            assert(s[i].val.children_spec() =~= Seq::<T>::empty());
        }
        assert(dec_list(s1, auto, seq![s[i].val][0].children_spec()).1 == Seq::<T>::empty()) by {
            assert(s[i].val.children_spec() =~= Seq::<T>::empty());
        }
        assert(seq![s[i].val].drop_first() + Seq::<T>::empty() =~= Seq::<T>::empty());
        assert(drain(s1, auto, seq![s[i].val]) == drain(
            s1,
            auto,
            seq![s[i].val].drop_first() + Seq::<T>::empty(),
        ));
    } else {
        assert(drain(crate::model::dec_at(s, i), auto, Seq::<T>::empty()) == crate::model::dec_at(
            s,
            i,
        ));
    }
}

/// Whether no two values of `vs` are equal.
pub open spec fn pairwise_distinct<T: PartialEq>(vs: Seq<T>) -> bool {
    forall|i: int, j: int| #![trigger vs[i].eq_spec(&vs[j])]
        0 <= i < vs.len() && 0 <= j < vs.len() && i != j ==> !vs[i].eq_spec(&vs[j])
}

/// One entry per value, each with a single outstanding handle.
pub open spec fn entries_of<T>(vs: Seq<T>) -> Seq<EntrySnap<T>> {
    vs.map(|i: int, v: T| EntrySnap { val: v, count: 1nat })
}

/// Size counts the distinct values consed, stated for pairwise-distinct
/// values of any shape: interning values no two of which are equal into an
/// empty table stores each of them once, with one handle each — a fresh
/// value discards no duplicate, so nothing is released along the way.
pub proof fn lemma_intern_all_distinct<T: PartialEq + HcValue>(auto: bool, vs: Seq<T>)
    requires
        eq_laws::<T>(),
        pairwise_distinct(vs),
    ensures
        intern_all(Seq::<EntrySnap<T>>::empty(), auto, vs) == entries_of(vs),
    decreases vs.len(),
{
    if vs.len() == 0 {
        assert(intern_all(Seq::<EntrySnap<T>>::empty(), auto, vs) =~= entries_of(vs));
    } else {
        let prefix = vs.drop_last();
        let v = vs.last();
        assert(pairwise_distinct(prefix)) by {
            assert(forall|k: int| 0 <= k < prefix.len() ==> prefix[k] == vs[k]);
        }
        lemma_intern_all_distinct(auto, prefix);
        let st = entries_of(prefix);
        assert(vs =~= prefix.push(v));
        lemma_intern_all_snoc(Seq::<EntrySnap<T>>::empty(), auto, prefix, v);
        lemma_find_index(st, v);
        let i = find_index(st, v);
        if i >= 0 {
            assert(st[i].val == vs[i]);
            assert(vs[i].eq_spec(&vs[vs.len() - 1]));
            assert(false);
        }
        assert(intern_all(Seq::<EntrySnap<T>>::empty(), auto, vs) == st.push(
            EntrySnap { val: v, count: 1nat },
        ));
        assert(st.push(EntrySnap { val: v, count: 1nat }) =~= entries_of(vs));
    }
}

/// Releasing the one handle of each stored value in turn, on a table with
/// automatic cleanup, removes entry after entry.
proof fn lemma_release_all_distinct<T: PartialEq + HcValue>(vs: Seq<T>)
    requires
        eq_laws::<T>(),
        all_leaves(vs),
        pairwise_distinct(vs),
    ensures
        release_all(entries_of(vs), true, vs) == Seq::<EntrySnap<T>>::empty(),
    decreases vs.len(),
{
    if vs.len() == 0 {
        assert(release_all(entries_of(vs), true, vs) =~= Seq::<EntrySnap<T>>::empty());
    } else {
        let s = entries_of(vs);
        let v = vs[0];
        assert(s[0].val == v);
        assert(v.eq_spec(&v));
        lemma_find_index_at(s, v, 0);
        assert(s[0].count == 1);
        let s1 = s.remove(0);
        assert(crate::model::dec_one(s, true, v) == (s1, seq![v]));
        // destroying the removed value releases nothing further
        assert(v.children_spec() =~= Seq::<T>::empty());
        assert(dec_list(s1, true, v.children_spec()).0 == s1);
        assert(dec_list(s1, true, v.children_spec()).1 == Seq::<T>::empty());
        assert(seq![v].drop_first() + Seq::<T>::empty() =~= Seq::<T>::empty());
        assert(drain(s1, true, seq![v]) == drain(s1, true, seq![v].drop_first() + Seq::<T>::empty()));
        assert(release_spec(s, true, v) == s1);
        let rest = vs.drop_first();
        assert(all_leaves(rest) && pairwise_distinct(rest)) by {
            assert(forall|k: int| 0 <= k < rest.len() ==> rest[k] == vs[k + 1]);
        }
        assert(s1 =~= entries_of(rest));
        lemma_release_all_distinct(rest);
    }
}

/// Transitive collection under automatic cleanup, for one node over two
/// leaves: a table holds a value `v` and the two values `v` embeds, each
/// with a single outstanding handle — the client's sole handle is the one
/// for `v`.  Releasing it removes `v`'s entry, and the destruction of the
/// stored value carries both embedded references away with it: the table
/// is left empty.
pub proof fn lemma_auto_release_composite<T: PartialEq + HcValue>(c1: T, c2: T, v: T)
    requires
        eq_laws::<T>(),
        v.children_spec() == seq![c1, c2],
        c1.children_spec().len() == 0,
        c2.children_spec().len() == 0,
        !c1.eq_spec(&v),
        !c2.eq_spec(&v),
        !c1.eq_spec(&c2),
    ensures
        release_spec(
            seq![
                EntrySnap { val: c1, count: 1nat },
                EntrySnap { val: c2, count: 1nat },
                EntrySnap { val: v, count: 1nat },
            ],
            true,
            v,
        ) == Seq::<EntrySnap<T>>::empty(),
{
    reveal(vstd::laws_eq::obeys_eq_spec_properties);
    let s = seq![
        EntrySnap { val: c1, count: 1nat },
        EntrySnap { val: c2, count: 1nat },
        EntrySnap { val: v, count: 1nat },
    ];
    assert(v.eq_spec(&v));
    lemma_find_index_at(s, v, 2);
    let s1 = s.remove(2);
    assert(crate::model::dec_one(s, true, v) == (s1, seq![s[2].val]));
    assert(seq![s[2].val] =~= seq![v]);
    // the removed node lets go of its two operands
    assert(s1[0] == s[0] && s1[1] == s[1]);
    assert(c1.eq_spec(&c1));
    lemma_find_index_at(s1, c1, 0);
    let s2 = s1.remove(0);
    assert(crate::model::dec_one(s1, true, c1) == (s2, seq![s1[0].val]));
    assert(seq![s1[0].val] =~= seq![c1]);
    assert(s2[0] == s1[1]);
    assert(c2.eq_spec(&c2));
    lemma_find_index_at(s2, c2, 0);
    let s3 = s2.remove(0);
    assert(s3 =~= Seq::<EntrySnap<T>>::empty());
    assert(crate::model::dec_one(s2, true, c2) == (s3, seq![s2[0].val]));
    assert(seq![s2[0].val] =~= seq![c2]);
    assert(v.children_spec()[0] == c1 && v.children_spec()[1] == c2);
    assert(v.children_spec().drop_first() =~= seq![c2]);
    assert(seq![c2].drop_first() =~= Seq::<T>::empty());
    reveal_with_fuel(dec_list, 4);
    assert(dec_list(s3, true, Seq::<T>::empty()) == (s3, Seq::<T>::empty()));
    assert(dec_list(s2, true, seq![c2]).0 == s3);
    assert(dec_list(s2, true, seq![c2]).1 == seq![c2] + Seq::<T>::empty());
    assert(dec_list(s1, true, v.children_spec()).0 == s3);
    assert(dec_list(s1, true, v.children_spec()).1 == seq![c1] + (seq![c2] + Seq::<T>::empty()));
    assert(seq![c1] + (seq![c2] + Seq::<T>::empty()) =~= seq![c1] + seq![c2]);
    assert(dec_list(s1, true, v.children_spec()) == (s3, seq![c1] + seq![c2]));
    // the operands are leaves: the cascade queue empties without further decrements
    lemma_drain_leaves(s3, seq![v].drop_first() + (seq![c1] + seq![c2]));
    assert(seq![v].drop_first() + (seq![c1] + seq![c2]) =~= seq![c1, c2]);
    assert(all_leaves(seq![c1, c2]));
    assert(drain(s1, true, seq![v]) == drain(s3, true, seq![v].drop_first() + (seq![c1] + seq![c2])));
}

/// Draining a queue of values without embedded handles decrements nothing:
/// they let go of no references.
proof fn lemma_drain_leaves<T: PartialEq + HcValue>(s: Seq<EntrySnap<T>>, pending: Seq<T>)
    requires
        all_leaves(pending),
    ensures
        drain(s, true, pending) == s,
    decreases pending.len(),
{
    if pending.len() != 0 {
        assert(pending[0].children_spec() =~= Seq::<T>::empty());
        assert(dec_list(s, true, pending[0].children_spec()) == (s, Seq::<T>::empty()));
        assert(pending.drop_first() + Seq::<T>::empty() =~= pending.drop_first());
        assert(all_leaves(pending.drop_first())) by {
            assert(forall|k: int|
                0 <= k < pending.drop_first().len() ==> pending.drop_first()[k] == pending[k + 1]);
        }
        lemma_drain_leaves(s, pending.drop_first());
    }
}

/// Automatic-cleanup completeness: intern any number of pairwise-distinct
/// values without embedded handles into a fresh automatically cleaned
/// table, then release every handle granted; the table is empty again.
pub proof fn lemma_auto_cleanup_complete<T: PartialEq + HcValue>(vs: Seq<T>)
    requires
        eq_laws::<T>(),
        all_leaves(vs),
        pairwise_distinct(vs),
    ensures
        release_all(intern_all(Seq::<EntrySnap<T>>::empty(), true, vs), true, vs) == Seq::<
            EntrySnap<T>,
        >::empty(),
{
    lemma_intern_all_distinct(true, vs);
    lemma_release_all_distinct(vs);
}

/// Deduplication: interning two equal values, one after the other, yields
/// handles wrapping the same stored instance, whatever the table held
/// before.  When the first value is itself a duplicate of a stored one, it
/// is stated for values that embed no handles: discarding such a duplicate
/// destroys the handles embedded in it, and what those handles kept alive
/// is then released between the two calls, an operation of its own.
pub proof fn lemma_deduplication<T: PartialEq + HcValue>(
    s: Seq<EntrySnap<T>>,
    auto: bool,
    v1: T,
    v2: T,
)
    requires
        eq_laws::<T>(),
        entries_wf(s, auto),
        v1.eq_spec(&v2),
        find_index(s, v1) >= 0 ==> v1.children_spec().len() == 0,
    ensures
        intern_spec(intern_spec(s, auto, v1).0, auto, v2).1 == intern_spec(s, auto, v1).1,
{
    reveal(vstd::laws_eq::obeys_eq_spec_properties);
    lemma_find_index(s, v1);
    let i = find_index(s, v1);
    let (s1, h1) = intern_spec(s, auto, v1);
    if i >= 0 {
        assert(v1.children_spec() =~= Seq::<T>::empty());
        assert(dec_list(inc_at(s, i), auto, v1.children_spec()).0 == inc_at(s, i));
        assert(dec_list(inc_at(s, i), auto, v1.children_spec()).1 == Seq::<T>::empty());
        assert(seq![v1].drop_first() + Seq::<T>::empty() =~= Seq::<T>::empty());
        assert(s1 == drain(inc_at(s, i), auto, seq![v1].drop_first() + Seq::<T>::empty()));
        assert(s1 =~= inc_at(s, i));
        assert(s1[i].val == s[i].val);
        assert(s1[i].val.eq_spec(&v2));
        assert forall|j: int| 0 <= j < i implies !(#[trigger] s1[j].val.eq_spec(&v2)) by {
            assert(s1[j].val == s[j].val);
            assert(!s[j].val.eq_spec(&v1));
        }
        lemma_find_index_at(s1, v2, i);
        assert(intern_spec(s1, auto, v2).1 == s1[i].val);
    } else {
        assert(s1 == s.push(EntrySnap { val: v1, count: 1nat }));
        assert(s1[s.len() as int].val.eq_spec(&v2));
        assert forall|j: int| 0 <= j < s.len() implies !(#[trigger] s1[j].val.eq_spec(&v2)) by {
            assert(s1[j].val == s[j].val);
            assert(!s[j].val.eq_spec(&v1));
        }
        lemma_find_index_at(s1, v2, s.len() as int);
        assert(intern_spec(s1, auto, v2).1 == v1);
    }
}

} // verus!
