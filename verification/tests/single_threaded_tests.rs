use hash_cons::{BoolExpr, BoolExprHC, Hc, HCTable};
use std::collections::hash_map::DefaultHasher;
use std::hash::{Hash, Hasher};

/// Test case for basic hashconsing of a simple constant value.
#[test]
fn single_threaded_tests_test_basic_const_hashconsing() {
    let mut table: HCTable<BoolExpr> = HCTable::new();
    let expr_true = BoolExpr::Const(true);
    let expr_true_v2 = BoolExpr::Const(true);
    let hc_true: Hc<BoolExpr> = table.hashcons(expr_true);
    let hc_true_v2: Hc<BoolExpr> = table.hashcons(expr_true_v2);
    let hc_true_dup = table.clone_handle(&hc_true);
    let hc_not_true = table.hashcons(BoolExpr::Not(hc_true_dup));

    assert!(
        hc_true == hc_true_v2,
        "Identical constants should share the same hashconsed reference."
    );
    assert!(
        hc_true_v2 != hc_not_true,
        "Not True and False are not same values"
    );
}

/// Test case for hashconsing complex boolean expressions.
#[test]
fn single_threaded_tests_test_complex_expression_hashconsing() {
    let mut table = HCTable::new();
    let expr_true = BoolExpr::Const(true);
    let expr_false = BoolExpr::Const(false);
    let hc_true = table.hashcons(expr_true);
    let hc_false = table.hashcons(expr_false);
    let hc_true_dup = table.clone_handle(&hc_true);
    let hc_false_dup = table.clone_handle(&hc_false);
    let expr_and_v1 = BoolExpr::And(hc_true_dup, hc_false_dup);
    let hc_false_v2 = table.hashcons(BoolExpr::Const(false));
    let expr_and_v2 = BoolExpr::And(hc_true, hc_false_v2);
    let hc_and_v1 = table.hashcons(expr_and_v1);
    let hc_and_v2 = table.hashcons(expr_and_v2);

    assert!(
        hc_and_v1 == hc_and_v2,
        "Identical complex expressions should share the same hashconsed reference."
    );
}

/// Tests the effectiveness of the cleanup method in the table without
/// automatic cleanup.
#[test]
fn test_manual_cleanup_effectiveness() {
    let mut table = HCTable::<BoolExpr>::new_manual();

    // hash cons several values
    let hc_true = table.hashcons(BoolExpr::Const(true));
    let hc_false = table.hashcons(BoolExpr::Const(false));
    let hc_and = table.hashcons(BoolExpr::And(hc_true, hc_false));

    // Get the size of the table after interning
    let size_before_cleanup = table.len();

    assert_eq!(
        size_before_cleanup, 3,
        "Table should have 3 items before drop"
    );

    // Give the handle to the interned value back
    table.release(hc_and);

    // Get the size of the table after the release
    let size_before_cleanup = table.len();

    assert_eq!(
        size_before_cleanup, 3,
        "Table should have 3 items after drop"
    );

    // Call cleanup method on the table
    table.cleanup();

    // Get the size of the table after cleanup
    let size_after_cleanup = table.len();

    // Assert that the size of the table has decreased appropriately
    assert_eq!(
        size_after_cleanup, 0,
        "The table size should decrease after cleanup."
    );
}

/// Tests the automatic cleanup behavior of the table.
#[test]
fn test_auto_cleanup() {
    let mut table = HCTable::<BoolExpr>::new();

    // Intern a value and keep a reference to it
    let interned_expr = table.hashcons(BoolExpr::Const(true));

    // Get the size of the table after interning
    let size_after_interning = table.len();
    assert_eq!(
        size_after_interning, 1,
        "Table should have 1 item after interning"
    );

    // Give the handle to the interned value back
    table.release(interned_expr);

    // Get the size of the table after releasing the handle
    let size_after_dropping = table.len();

    // Assert that the table is empty after the value is given back
    assert_eq!(
        size_after_dropping, 0,
        "Table should be empty after dropping the only reference"
    );
}

/// Tests the hash collision scenario in hashconsing.
#[test]
fn single_threaded_tests_test_hash_collision() {
    let mut table = HCTable::<BoolExprHC>::new();
    let expr_true = BoolExprHC::Const(true);
    let hc_false = table.hashcons(BoolExprHC::Const(false));
    let expr_not_false = BoolExprHC::Not(hc_false);
    let hc_true = table.hashcons(expr_true);
    let hc_not_false = table.hashcons(expr_not_false);

    let mut hasher = DefaultHasher::new();
    hc_true.hash(&mut hasher);
    let hash_value_hc_true = hasher.finish();

    // Reinitialize the hasher for a new calculation
    hasher = DefaultHasher::new();
    hc_not_false.hash(&mut hasher);
    let hash_value_hc_not_false = hasher.finish();

    assert_eq!(
        hash_value_hc_true, hash_value_hc_not_false,
        "Hash values should be equal"
    );
    assert_eq!(table.len(), 3, "Table should have 3 items");
}

/// Tests memory usage efficiency in hash consing.
#[test]
fn single_threaded_tests_test_memory_usage_hash_consing() {
    let mut table = HCTable::<BoolExpr>::new();
    let mut hc_data = Vec::new();
    let mut data = Vec::new();

    for _ in 0..100 {
        // Add repetitive BoolExpr values
        data.push(BoolExpr::Const(true));
        data.push(BoolExpr::Const(false));
        hc_data.push(table.hashcons(BoolExpr::Const(true)));
        hc_data.push(table.hashcons(BoolExpr::Const(false)));
    }

    assert!(
        table.len() < data.len(),
        "Table length should be way less than the data length"
    );

    assert_eq!(
        table.len(),
        2,
        "Table should only have two values(Const True and Const False)"
    );
}

/// Tests hashconsing with a large set of non-unique boolean expressions.
#[test]
fn single_threaded_tests_test_large_non_unique() {
    let mut table = HCTable::<BoolExpr>::new();
    let mut hc_data = Vec::new();

    let true_bool_expr = BoolExpr::Const(true);
    let false_bool_expr = BoolExpr::Const(false);

    hc_data.push(table.hashcons(true_bool_expr));
    hc_data.push(table.hashcons(false_bool_expr));
    hc_data.push(table.hashcons(BoolExpr::Const(true)));
    hc_data.push(table.hashcons(BoolExpr::Const(false)));

    for i in 4..10_000 {
        let mut rng = rand::thread_rng();
        let first = rand::Rng::gen_range(&mut rng, 0..i);
        let second = rand::Rng::gen_range(&mut rng, 0..i);

        let a = table.clone_handle(&hc_data[first]);
        let b = table.clone_handle(&hc_data[second]);
        hc_data.push(table.hashcons(BoolExpr::And(a, b)));
    }

    assert!(
        table.len() < 10_000,
        "Data length should always be greater than length of the table"
    );
}
