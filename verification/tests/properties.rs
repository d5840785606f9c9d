use hash_cons::{BoolExpr, BoolExprHC, HCTable, HcTable};
use rand::Rng;
use rand::SeedableRng;
use std::collections::hash_map::DefaultHasher;
use std::hash::{Hash, Hasher};

fn hash_of<T: Hash>(v: &T) -> u64 {
    let mut hasher = DefaultHasher::new();
    v.hash(&mut hasher);
    hasher.finish()
}

/// Constant dedup with automatic cleanup: two interned copies of one
/// constant share one entry, and releasing both empties the table.
#[test]
fn test_scenario_constant_dedup_auto() {
    let mut table = HCTable::<BoolExpr>::new();
    let h1 = table.hashcons(BoolExpr::Const(true));
    let h2 = table.hashcons(BoolExpr::Const(true));
    assert!(h1 == h2);
    assert!(h1.same_slot(&h2));
    assert_eq!(table.len(), 1);
    table.release(h1);
    assert_eq!(table.len(), 1);
    table.release(h2);
    assert_eq!(table.len(), 0);
}

/// Structural dedup: two conjunctions built from equal operands are one
/// entry, and the operands are stored once each.
#[test]
fn test_scenario_structural_dedup() {
    let mut table = HCTable::<BoolExpr>::new();
    let t = table.hashcons(BoolExpr::Const(true));
    let f1 = table.hashcons(BoolExpr::Const(false));
    let f2 = table.hashcons(BoolExpr::Const(false));
    let t_dup = table.clone_handle(&t);
    let a1 = table.hashcons(BoolExpr::And(t_dup, f1));
    let a2 = table.hashcons(BoolExpr::And(t, f2));
    assert!(a1 == a2);
    assert!(a1.same_slot(&a2));
    assert_eq!(table.len(), 3);
}

/// Manual cleanup reaches a fixed point in one call: sweeping the released
/// conjunction frees its operands in the same call, and a second call has
/// nothing left to do.
#[test]
fn test_scenario_manual_fixed_point() {
    let mut table = HCTable::<BoolExpr>::new_manual();
    let t = table.hashcons(BoolExpr::Const(true));
    let f = table.hashcons(BoolExpr::Const(false));
    let a = table.hashcons(BoolExpr::And(t, f));
    assert_eq!(table.len(), 3);
    table.release(a);
    assert_eq!(table.len(), 3);
    table.cleanup();
    assert_eq!(table.len(), 0);
    table.cleanup();
    assert_eq!(table.len(), 0);
}

/// A large load of non-unique nodes with operands drawn from the running
/// pool by a seeded generator: the table never exceeds one entry per
/// distinct value, and handle equality agrees with value equality.
#[test]
fn test_scenario_large_non_unique_load() {
    let mut rng = rand::rngs::StdRng::seed_from_u64(7);
    let mut table = HCTable::<BoolExpr>::new();
    let mut pool = Vec::new();
    pool.push(table.hashcons(BoolExpr::Const(true)));
    pool.push(table.hashcons(BoolExpr::Const(false)));
    for i in 2..10_002usize {
        let first = rng.gen_range(0..i);
        let second = rng.gen_range(0..i);
        let a = table.clone_handle(&pool[first]);
        let b = table.clone_handle(&pool[second]);
        let node = if i % 2 == 0 {
            BoolExpr::And(a, b)
        } else {
            BoolExpr::Or(a, b)
        };
        pool.push(table.hashcons(node));
    }
    assert!(table.len() <= 10_002);
    for _ in 0..100 {
        let i = rng.gen_range(0..pool.len());
        let j = rng.gen_range(0..pool.len());
        assert_eq!(pool[i] == pool[j], pool[i].get() == pool[j].get());
    }
}

/// Clones of a shared table all feed one store: however many workers
/// intern the same constant, one entry exists, and releasing every handle
/// empties the store again.
#[test]
fn test_scenario_shared_clones() {
    let table = HcTable::<BoolExpr>::new();
    let mut handles = Vec::new();
    for _ in 0..4 {
        let worker = table.clone();
        for _ in 0..5 {
            handles.push(worker.hashcons(BoolExpr::Const(true)));
        }
    }
    assert_eq!(table.len(), 1);
    for h in handles {
        table.release(h);
    }
    assert_eq!(table.len(), 0);
}

/// Repeatedly interning one value keeps the table at a single entry, and
/// every returned handle shares storage with the first.
#[test]
fn test_repeated_interning_shares_storage() {
    let mut table = HCTable::<BoolExpr>::new_manual();
    let first = table.hashcons(BoolExpr::Const(true));
    for _ in 0..10 {
        let h = table.hashcons(BoolExpr::Const(true));
        assert!(h == first);
        assert!(h.same_slot(&first));
        assert_eq!(table.len(), 1);
        table.release(h);
    }
}

/// A recursive value yields one outer entry per distinct outer value, and
/// its sub-entries stay alive as long as the outer handle does.
#[test]
fn test_recursive_value_sub_slots_alive() {
    let mut table = HCTable::<BoolExpr>::new();
    let t = table.hashcons(BoolExpr::Const(true));
    let n1 = table.hashcons(BoolExpr::Not(t));
    assert_eq!(table.len(), 2);
    let t2 = table.hashcons(BoolExpr::Const(true));
    let n2 = table.hashcons(BoolExpr::Not(t2));
    assert!(n1 == n2);
    assert!(n1.same_slot(&n2));
    assert_eq!(table.len(), 2);
    table.release(n2);
    // the sub-entry lives on: the stored negation still references it
    assert_eq!(table.len(), 2);
    table.release(n1);
    assert_eq!(table.len(), 0);
}

/// Automatic cleanup collects transitively: releasing the sole outer
/// handle frees the outer entry and both operands in one step.
#[test]
fn test_auto_transitive_collection() {
    let mut table = HCTable::<BoolExpr>::new();
    let t = table.hashcons(BoolExpr::Const(true));
    let f = table.hashcons(BoolExpr::Const(false));
    let a = table.hashcons(BoolExpr::And(t, f));
    assert_eq!(table.len(), 3);
    table.release(a);
    assert_eq!(table.len(), 0);
}

/// Without automatic cleanup, releases change no sizes until `cleanup`,
/// and a sweep keeps exactly the still-referenced values.
#[test]
fn test_manual_release_keeps_size() {
    let mut table = HCTable::<BoolExpr>::new_manual();
    let t = table.hashcons(BoolExpr::Const(true));
    let f = table.hashcons(BoolExpr::Const(false));
    table.release(t);
    assert_eq!(table.len(), 2);
    table.cleanup();
    assert_eq!(table.len(), 1);
    let f2 = table.hashcons(BoolExpr::Const(false));
    assert!(f2.same_slot(&f));
    assert_eq!(table.len(), 1);
}

/// Values that hash alike but compare unequal occupy distinct entries.
#[test]
fn test_collision_distinct_entries() {
    let mut table = HCTable::<BoolExprHC>::new();
    let f = table.hashcons(BoolExprHC::Const(false));
    let nf = table.hashcons(BoolExprHC::Not(f));
    let t = table.hashcons(BoolExprHC::Const(true));
    assert_eq!(hash_of(&t), hash_of(&nf));
    assert!(t != nf);
    assert_eq!(table.len(), 3);
}

/// Hashing a handle gives the hash of its value; comparing handles gives
/// the comparison of their values.
#[test]
fn test_hash_eq_delegation() {
    let mut table = HCTable::<BoolExpr>::new();
    let t = table.hashcons(BoolExpr::Const(true));
    let f = table.hashcons(BoolExpr::Const(false));
    assert_eq!(hash_of(&t), hash_of(t.get()));
    assert_eq!(hash_of(&f), hash_of(f.get()));
    assert_eq!(t == f, t.get() == f.get());
    let t2 = table.hashcons(BoolExpr::Const(true));
    assert_eq!(t == t2, t.get() == t2.get());
}

/// A handle granted by one table means nothing to another: releasing it
/// there changes nothing.
#[test]
fn test_foreign_handle_release_is_noop() {
    let mut table_a = HCTable::<BoolExpr>::new();
    let mut table_b = HCTable::<BoolExpr>::new();
    let h = table_a.hashcons(BoolExpr::Const(true));
    let b = table_b.hashcons(BoolExpr::Const(false));
    table_b.release(h);
    assert_eq!(table_b.len(), 1);
    assert_eq!(table_a.len(), 1);
    table_b.release(b);
    assert_eq!(table_b.len(), 0);
}

/// Duplicating a handle counts: the entry survives until every duplicate
/// is released.
#[test]
fn test_clone_handle_counts() {
    let mut table = HCTable::<BoolExpr>::new();
    let h = table.hashcons(BoolExpr::Const(true));
    let c = table.clone_handle(&h);
    table.release(h);
    assert_eq!(table.len(), 1);
    table.release(c);
    assert_eq!(table.len(), 0);
}

/// On a table with automatic cleanup a sweep has nothing to do.
#[test]
fn test_cleanup_on_auto_is_noop() {
    let mut table = HCTable::<BoolExpr>::new();
    let h = table.hashcons(BoolExpr::Const(true));
    table.cleanup();
    assert_eq!(table.len(), 1);
    table.release(h);
    assert_eq!(table.len(), 0);
}

/// Re-interning a value whose entry went stale revives the entry in
/// place: the table neither grows nor loses the value.
#[test]
fn test_stale_entry_revived_on_reintern() {
    let mut table = HCTable::<BoolExpr>::new_manual();
    let h = table.hashcons(BoolExpr::Const(true));
    table.release(h);
    assert_eq!(table.len(), 1);
    let h2 = table.hashcons(BoolExpr::Const(true));
    assert_eq!(table.len(), 1);
    table.cleanup();
    // the revived entry is referenced again, so the sweep keeps it
    assert_eq!(table.len(), 1);
    table.release(h2);
    table.cleanup();
    assert_eq!(table.len(), 0);
}

/// The destruction cascade follows the children of colliding values too.
#[test]
fn test_collision_type_transitive_collection() {
    let mut table = HCTable::<BoolExprHC>::new();
    let f = table.hashcons(BoolExprHC::Const(false));
    let nf = table.hashcons(BoolExprHC::Not(f));
    assert_eq!(table.len(), 2);
    table.release(nf);
    assert_eq!(table.len(), 0);
}

/// A table over plain integers: any value with equality can be interned.
#[test]
fn test_integer_table() {
    let mut table = HCTable::<i32>::new();
    let my_value = table.hashcons(10);
    assert_eq!(*my_value.get(), 10);
    let hc_pointer = table.hashcons(42);
    assert_eq!(*hc_pointer.get(), 42);
    let value1 = table.hashcons(5);
    let value2 = table.hashcons(5);
    let value3 = table.hashcons(10);
    assert_eq!(value1, value2);
    assert_ne!(value1, value3);
    assert!(value1 < value3);
    assert_eq!(table.len(), 3);
}
