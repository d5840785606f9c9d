use hash_cons::{BoolExpr, BoolExprHC, Hc, HcTable};
use std::collections::hash_map::DefaultHasher;
use std::hash::{Hash, Hasher};

// Test case for basic hashconsing of a simple constant value.
#[test]
fn thread_safe_tests_test_basic_const_hashconsing() {
    let table: HcTable<BoolExpr> = HcTable::new();
    let expr_true = BoolExpr::Const(true);
    let expr_true_v2 = BoolExpr::Const(true);
    let hc_true: Hc<BoolExpr> = table.hashcons(expr_true);
    let hc_true_v2: Hc<BoolExpr> = table.hashcons(expr_true_v2);
    let hc_true_dup = table.clone_handle(&hc_true);
    let hc_not_true = table.hashcons(BoolExpr::Not(hc_true_dup));

    assert!(
        hc_true == hc_true_v2,
        "Identical constants should share the same hashconsed reference."
    );
    assert!(
        hc_true_v2 != hc_not_true,
        "Not True and False are not same values"
    );
}

// Test case for hashconsing complex boolean expressions.
#[test]
fn thread_safe_tests_test_complex_expression_hashconsing() {
    let table = HcTable::new();
    let expr_true = BoolExpr::Const(true);
    let expr_false = BoolExpr::Const(false);
    let hc_true = table.hashcons(expr_true);
    let hc_false = table.hashcons(expr_false);
    let hc_true_dup = table.clone_handle(&hc_true);
    let hc_false_dup = table.clone_handle(&hc_false);
    let expr_and_v1 = BoolExpr::And(hc_true_dup, hc_false_dup);
    let hc_false_v2 = table.hashcons(BoolExpr::Const(false));
    let expr_and_v2 = BoolExpr::And(hc_true, hc_false_v2);
    let hc_and_v1 = table.hashcons(expr_and_v1);
    let hc_and_v2 = table.hashcons(expr_and_v2);

    assert!(
        hc_and_v1 == hc_and_v2,
        "Identical complex expressions should share the same hashconsed reference."
    );
}

#[test]
fn test_cleanup_effectiveness() {
    let table = HcTable::<BoolExpr>::new_manual();

    // hash cons several values
    let hc_true = table.hashcons(BoolExpr::Const(true));
    let hc_false = table.hashcons(BoolExpr::Const(false));
    let hc_true_dup = table.clone_handle(&hc_true);
    let hc_false_dup = table.clone_handle(&hc_false);
    let hc_and = table.hashcons(BoolExpr::And(hc_true_dup, hc_false_dup));

    // Get the size of the table after interning
    let size_before_cleanup = table.len();
    assert_eq!(
        size_before_cleanup, 3,
        "Table should have 3 items after interning"
    );

    table.release(hc_true);
    table.release(hc_false);
    table.release(hc_and);

    // Call cleanup method on the table
    table.cleanup();

    // Get the size of the table after cleanup
    let size_after_cleanup = table.len();

    // Assert that the size of the table has decreased appropriately
    assert_eq!(
        size_after_cleanup, 0,
        "The table size should be zero after cleanup, because values are dropped"
    );
}

#[test]
fn test_drop_behavior() {
    let table = HcTable::<BoolExpr>::new();

    // hash cons a value and keep a reference to it
    let expr_true = table.hashcons(BoolExpr::Const(true));

    // Get the size of the table after hash consing
    let size_after_consing = table.len();
    assert_eq!(
        size_after_consing, 1,
        "Table should have 1 item after interning"
    );

    // Give the handle to the hash consed value back
    table.release(expr_true);

    // Get the size of the table after releasing the handle
    let size_after_dropping = table.len();

    // Assert that the table is empty after the value is given back
    assert_eq!(
        size_after_dropping, 0,
        "Table should be empty after dropping the only reference"
    );
}

#[test]
fn thread_safe_tests_test_memory_usage_hash_consing() {
    let table = HcTable::<BoolExpr>::new();
    let mut hc_data = Vec::new();
    let mut data = Vec::new();

    for _ in 0..100 {
        // Add repetitive BoolExpr values
        data.push(BoolExpr::Const(true));
        data.push(BoolExpr::Const(false));
        hc_data.push(table.hashcons(BoolExpr::Const(true)));
        hc_data.push(table.hashcons(BoolExpr::Const(false)));
    }

    assert!(
        table.len() < data.len(),
        "Table length should be way less than the data length"
    );

    assert_eq!(
        table.len(),
        2,
        "Table should only have two values(Const True and Const False)"
    );
}

// Tests the hash collision scenario in hashconsing.
#[test]
fn thread_safe_tests_test_hash_collision() {
    let table = HcTable::<BoolExprHC>::new();
    let expr_true = BoolExprHC::Const(true);
    let hc_false = table.hashcons(BoolExprHC::Const(false));
    let expr_not_false = BoolExprHC::Not(hc_false);
    let hc_true = table.hashcons(expr_true);
    let hc_not_false = table.hashcons(expr_not_false);

    let mut hasher = DefaultHasher::new();
    hc_true.hash(&mut hasher);
    let hash_value_hc_true = hasher.finish();

    // Reinitialize the hasher for a new calculation
    hasher = DefaultHasher::new();
    hc_not_false.hash(&mut hasher);
    let hash_value_hc_not_false = hasher.finish();

    assert_eq!(
        hash_value_hc_true, hash_value_hc_not_false,
        "Hash values should be equal"
    );
    assert_eq!(table.len(), 3, "Table should have 3 items");
}

#[test]
fn stress_test_ahc_table() {
    let table = HcTable::<BoolExpr>::new_manual();
    let mut hc_data = Vec::new();
    hc_data.push(table.hashcons(BoolExpr::Const(true)));
    hc_data.push(table.hashcons(BoolExpr::Const(false)));
    hc_data.push(table.hashcons(BoolExpr::Const(true)));
    hc_data.push(table.hashcons(BoolExpr::Const(false)));

    for i in 3..1_000 {
        let mut rng = rand::thread_rng();
        let first = rand::Rng::gen_range(&mut rng, 0..i);
        let second = rand::Rng::gen_range(&mut rng, 0..i);

        if i % 5 == 0 {
            let a = table.clone_handle(&hc_data[first]);
            let b = table.clone_handle(&hc_data[second]);
            hc_data.push(table.hashcons(BoolExpr::And(a, b)));
        } else if i % 3 == 0 {
            let a = table.clone_handle(&hc_data[first]);
            let b = table.clone_handle(&hc_data[second]);
            hc_data.push(table.hashcons(BoolExpr::Or(a, b)));
        } else {
            let a = table.clone_handle(&hc_data[first]);
            hc_data.push(table.hashcons(BoolExpr::Not(a)));
        }
    }
    for h in hc_data {
        table.release(h);
    }
    table.cleanup();

    // Consistency checks
    assert_eq!(
        table.len(),
        0,
        "Table size should be zero because all values are dropped"
    );
}
