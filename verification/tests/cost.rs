//! Logarithmic estimates.
use sqlgen::cost::{
    column_sz_est, default_ai_row_log_est, est_log, estimated_index_width_log,
    estimated_table_width_log, log_est, log_est_add,
};
use sqlgen::schema::{Column, IndexColumn, IndexObject, Table};
use sqlgen::vdbe::{Affinity, Collation};

#[test]
fn log_est_values_match_upstream() {
    assert_eq!(log_est(1_048_576), 200);
    assert_eq!(log_est(2), 10);
    assert_eq!(log_est(4), 20);
    assert_eq!(log_est(1000), 99);
    assert_eq!(log_est(5), 23);
    assert_eq!(log_est(25), 46);
    assert_eq!(log_est(18), 42);
    assert_eq!(log_est(20), 43);
}

#[test]
fn log_est_add_matches_upstream() {
    assert_eq!(log_est_add(200, 200), 210);
    assert_eq!(log_est_add(200, 0), 200);
    assert_eq!(log_est_add(0, 200), 200);
    assert_eq!(log_est_add(100, 100), 110);
}

#[test]
fn est_log_matches_upstream() {
    assert_eq!(est_log(0), 0);
    assert_eq!(est_log(10), 0);
    assert_eq!(est_log(200), log_est(200) - 33);
}

#[test]
fn default_ai_row_log_est_shape() {
    let a = default_ai_row_log_est(2);
    assert_eq!(a.len(), 3);
    assert_eq!(a[0], 200);
    assert_eq!(a[1], 33);
    assert_eq!(a[2], 32);

    let a = default_ai_row_log_est(7);
    assert_eq!(a.len(), 8);
    assert_eq!(a[0], 200);
    assert_eq!(a[1], 33);
    assert_eq!(a[2], 32);
    assert_eq!(a[3], 30);
    assert_eq!(a[4], 28);
    assert_eq!(a[5], 26);
    assert_eq!(a[6], 23);
    assert_eq!(a[7], 23);
}

fn table(without_rowid: bool) -> Table {
    let column = |name: &str, affinity: Affinity| Column {
        name: String::from(name),
        affinity,
        collation: Collation::Binary,
        notnull: false,
        pk: false,
        default: None,
    };
    Table {
        name: String::from("t"),
        rootpage: 2,
        columns: vec![column("a", Affinity::Text), column("b", Affinity::Integer)],
        rowid_alias: None,
        without_rowid,
        pk_columns: vec![],
    }
}

fn index(column: &str) -> IndexObject {
    IndexObject {
        name: String::from("i"),
        rootpage: 3,
        columns: vec![IndexColumn {
            name: String::from(column),
            desc: false,
            collation: Collation::Binary,
            expr: None,
        }],
        unique: false,
        where_clause: None,
    }
}

#[test]
fn widths_count_the_rowid() {
    assert_eq!(column_sz_est(Affinity::Text), 5);
    assert_eq!(column_sz_est(Affinity::Real), 1);
    assert_eq!(estimated_table_width_log(&table(false)), 48);
    assert_eq!(estimated_table_width_log(&table(true)), 46);
    assert_eq!(estimated_index_width_log(&index("A"), &table(false)), 46);
    assert_eq!(estimated_index_width_log(&index("nowhere"), &table(false)), 30);
}

#[test]
fn estimates_of_small_and_large_numbers() {
    assert_eq!(log_est(0), 0);
    assert_eq!(log_est(1), 0);
    assert_eq!(log_est(3), 16);
    assert_eq!(log_est(u64::MAX), 639);
}

#[test]
fn doubling_adds_ten() {
    let mut x: u64 = 1;
    while x < 1 << 40 {
        assert_eq!(log_est(2 * x), log_est(x) + 10);
        x = x * 3;
    }
}

#[test]
fn sums_commute_and_grow() {
    for a in 0..120i64 {
        for b in 0..120i64 {
            let sum = log_est_add(a, b);
            assert_eq!(sum, log_est_add(b, a));
            assert!(sum >= a && sum >= b && (sum <= a + 10 || sum <= b + 10));
        }
    }
}

#[test]
fn estimates_grow_with_their_numbers() {
    let mut last = 0;
    for x in (0..5000).chain((0..50).map(|k| (1u64 << 14) + k * 977)).chain([u64::MAX / 2, u64::MAX]) {
        assert!(last <= log_est(x));
        last = log_est(x);
    }
    assert_eq!(last, 639);
}

#[test]
fn estimates_are_close_to_the_logarithm() {
    for x in (1..5000).chain([1_000_003, (9 << 40) - 1, u64::MAX]) {
        let exact = 10.0 * (x as f64).log2();
        let error = log_est(x) as f64 - exact;
        assert!(-2.0 < error && error <= 0.5, "{x}: {error}");
    }
}
