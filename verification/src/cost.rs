//! The logarithmic cost model of the index planner.
//!
//! A row count or a width `x` is held as `10 * log2(x)`, rounded to an integer. Without
//! statistics a table is taken to have about a million rows, and each further index column to
//! have about ten distinct values.
use vstd::arithmetic::power::{lemma_pow_distributes, lemma_pow_multiplies, lemma_pow_positive, pow};
use vstd::arithmetic::power2::{
    lemma2_to64, lemma2_to64_rest, lemma_pow2, lemma_pow2_adds, lemma_pow2_pos, lemma_pow2_unfold,
    pow2,
};
use vstd::prelude::*;

use crate::schema::{IndexColumnView, IndexObject, IndexView, Table, TableView};
use crate::vdbe::Affinity;

verus! {

/// A logarithmic estimate: `10 * log2(x)`.
pub type LogEst = i64;

/// The estimate of a number between 8 and 15, less that of 8.
pub open spec fn octave(m: nat) -> int {
    if m == 0 {
        0
    } else if m == 1 {
        2
    } else if m == 2 {
        3
    } else if m == 3 {
        5
    } else if m == 4 {
        6
    } else if m == 5 {
        7
    } else if m == 6 {
        8
    } else {
        9
    }
}

/// `10 * log2(x)` to the precision of three bits of `x`, and 0 for `x < 2`.
pub open spec fn log_of(x: nat) -> int
    decreases x, (if x < 8 { 8 - x } else { 0 }),
{
    if x < 2 {
        0
    } else if x < 8 {
        small_log(x)
    } else if x < 16 {
        30 + octave((x - 8) as nat)
    } else {
        10 + log_of(x / 2)
    }
}

/// The estimate of a number from 2 to 7.
pub open spec fn small_log(x: nat) -> int {
    if x == 2 {
        10
    } else if x == 3 {
        16
    } else if x == 4 {
        20
    } else if x == 5 {
        23
    } else if x == 6 {
        26
    } else {
        28
    }
}

/// Halving four times.
proof fn lemma_sixteenth(x: nat)
    requires
        x >= 256,
    ensures
        log_of(x) == 40 + log_of(x / 16),
        x / 16 >= 16,
        x / 16 < x,
{
    assert(x / 2 / 2 / 2 / 2 == x / 16) by (nonlinear_arith);
    reveal_with_fuel(log_of, 5);
}

/// The logarithmic estimate of a number.
pub fn log_est(x: u64) -> (r: LogEst)
    ensures
        r == log_of(x as nat),
        0 <= r <= 640,
{
    if x < 2 {
        return 0;
    }
    let mut y: i64 = 40;
    let mut v: u64 = x;
    if v < 8 {
        while v < 8
            invariant
                2 <= x < 8,
                y == 40 && v == x || y == 30 && v == 2 * x || y == 20 && v == 4 * x && x < 4,
            decreases 16 - v,
        {
            y = y - 10;
            assert(v < 8 ==> v << 1 == 2 * v) by (bit_vector);
            v = v << 1;
        }
    } else {
        while v > 255
            invariant
                v >= 8,
                log_of(v as nat) + y == log_of(x as nat) + 40,
                40 <= y,
                y <= 40 || v <= 0x0FFF_FFFF_FFFF_FFFF,
                y <= 80 || v <= 0x00FF_FFFF_FFFF_FFFF,
                y <= 120 || v <= 0x000F_FFFF_FFFF_FFFF,
                y <= 160 || v <= 0x0000_FFFF_FFFF_FFFF,
                y <= 200 || v <= 0x0000_0FFF_FFFF_FFFF,
                y <= 240 || v <= 0x0000_00FF_FFFF_FFFF,
                y <= 280 || v <= 0x0000_000F_FFFF_FFFF,
                y <= 320 || v <= 0x0000_0000_FFFF_FFFF,
                y <= 360 || v <= 0x0000_0000_0FFF_FFFF,
                y <= 400 || v <= 0x0000_0000_00FF_FFFF,
                y <= 440 || v <= 0x0000_0000_000F_FFFF,
                y <= 480 || v <= 0x0000_0000_0000_FFFF,
                y <= 520 || v <= 0x0000_0000_0000_0FFF,
                y <= 560 || v <= 0x0000_0000_0000_00FF,
                y % 40 == 0,
                y <= 600,
            decreases v,
        {
            proof {
                lemma_sixteenth(v as nat);
            }
            assert(v >> 4 == v / 16) by (bit_vector);
            y = y + 40;
            v = v >> 4;
        }
        while v > 15
            invariant
                8 <= v <= 255,
                log_of(v as nat) + y == log_of(x as nat) + 40,
                40 <= y <= 600 || (y <= 610 && v <= 127) || (y <= 620 && v <= 63) || (y <= 630 && v
                    <= 31) || (y <= 640 && v <= 15),
                40 <= y,
            decreases v,
        {
            assert(v >> 1 == v / 2) by (bit_vector);
            y = y + 10;
            v = v >> 1;
        }
    }
    assert(8 <= v <= 15);
    assert(8 <= v <= 15 ==> v & 7 == v - 8) by (bit_vector);
    let m: u64 = v & 7;
    let a: i64 = if m == 0 {
        0
    } else if m == 1 {
        2
    } else if m == 2 {
        3
    } else if m == 3 {
        5
    } else if m == 4 {
        6
    } else if m == 5 {
        7
    } else if m == 6 {
        8
    } else {
        9
    };
    a + y - 10
}

/// What adding a smaller number to a number adds to the estimate, by the difference of the
/// two estimates.
pub open spec fn increase(d: int) -> int {
    if d <= 1 {
        10
    } else if d <= 3 {
        9
    } else if d <= 5 {
        8
    } else if d <= 8 {
        7
    } else if d <= 11 {
        6
    } else if d <= 14 {
        5
    } else if d <= 18 {
        4
    } else if d <= 24 {
        3
    } else if d <= 31 {
        2
    } else if d <= 49 {
        1
    } else {
        0
    }
}

/// The estimate of a sum, from the estimates of its parts.
pub open spec fn sum_of(a: int, b: int) -> int {
    if a >= b {
        a + increase(a - b)
    } else {
        b + increase(b - a)
    }
}

fn increase_of(d: i64) -> (r: i64)
    requires
        0 <= d,
    ensures
        r == increase(d as int),
        0 <= r <= 10,
{
    if d <= 1 {
        10
    } else if d <= 3 {
        9
    } else if d <= 5 {
        8
    } else if d <= 8 {
        7
    } else if d <= 11 {
        6
    } else if d <= 14 {
        5
    } else if d <= 18 {
        4
    } else if d <= 24 {
        3
    } else if d <= 31 {
        2
    } else if d <= 49 {
        1
    } else {
        0
    }
}

/// The estimate of a sum. At most one of the two parts may be close to the limit of the type.
pub fn log_est_add(a: LogEst, b: LogEst) -> (r: LogEst)
    requires
        a + 49 <= i64::MAX || b + 49 <= i64::MAX,
        sum_of(a as int, b as int) <= i64::MAX,
    ensures
        r == sum_of(a as int, b as int),
{
    if a >= b {
        if a > b + 49 {
            return a;
        }
        a + increase_of(a - b)
    } else {
        if b > a + 49 {
            return b;
        }
        b + increase_of(b - a)
    }
}

/// Adding estimates is commutative.
pub proof fn law_sum_commutes(a: int, b: int)
    ensures
        sum_of(a, b) == sum_of(b, a),
{
}

/// A sum is estimated to be no smaller than either part, and at most twice the larger.
pub proof fn law_sum_bounds(a: int, b: int)
    ensures
        a <= sum_of(a, b),
        b <= sum_of(a, b),
        sum_of(a, b) <= a + 10 || sum_of(a, b) <= b + 10,
{
}

/// Doubling a number adds 10 to its estimate.
pub proof fn law_doubling(x: nat)
    requires
        x >= 1,
    ensures
        log_of(2 * x) == log_of(x) + 10,
{
    reveal_with_fuel(log_of, 3);
    assert((2 * x) / 2 == x);
}

/// The estimate does not fall as the number grows.
pub proof fn law_estimate_grows(x: nat, y: nat)
    requires
        x <= y,
    ensures
        log_of(x) <= log_of(y),
    decreases y,
{
    if y >= 16 {
        if x >= 16 {
            law_estimate_grows(x / 2, y / 2);
        } else {
            law_estimate_grows(8, y / 2);
        }
    }
}

/// The first four binary digits of a number, as a number from 8 to 15, decide its estimate; `k`
/// is how many digits follow them.
proof fn lemma_leading_digits(x: nat) -> (r: (nat, nat))
    requires
        x >= 8,
    ensures
        8 <= r.0 <= 15,
        r.0 * pow2(r.1) <= x < (r.0 + 1) * pow2(r.1),
        log_of(x) == 30 + octave((r.0 - 8) as nat) + 10 * r.1,
    decreases x,
{
    if x < 16 {
        lemma2_to64();
        (x, 0)
    } else {
        let (m, k) = lemma_leading_digits(x / 2);
        lemma_pow2_unfold(k + 1);
        let w = pow2(k) as int;
        let h = (x / 2) as int;
        assert(m * (2 * w) == 2 * (m * w) && (m + 1) * (2 * w) == 2 * ((m + 1) * w))
            by (nonlinear_arith);
        assert(h + 1 <= (m + 1) * w);
        (m, k + 1)
    }
}

/// A larger base has a larger power.
proof fn lemma_pow_of_larger(a: nat, b: nat, n: nat)
    requires
        a <= b,
    ensures
        0 <= pow(a as int, n) <= pow(b as int, n),
        n > 0 && a < b ==> pow(a as int, n) < pow(b as int, n),
    decreases n,
{
    reveal(pow);
    if n > 0 {
        let p = pow(a as int, (n - 1) as nat);
        let q = pow(b as int, (n - 1) as nat);
        lemma_pow_of_larger(a, b, (n - 1) as nat);
        assert(0 <= a * p <= b * q) by (nonlinear_arith)
            requires
                0 <= a <= b,
                0 <= p <= q,
        ;
        if a < b {
            lemma_pow_positive(b as int, (n - 1) as nat);
            assert(a * p < b * q) by (nonlinear_arith)
                requires
                    0 <= a < b,
                    0 <= p <= q,
                    0 < q,
            ;
        }
    }
}

/// How far the estimate of a number from 8 to 15 stands from the logarithm of it and of the next.
proof fn lemma_octave_bounds(m: nat)
    requires
        8 <= m <= 15,
    ensures
        pow((m + 1) as int, 10) <= pow2((32 + octave((m - 8) as nat)) as nat),
        pow2((60 + 2 * octave((m - 8) as nat)) as nat) <= 2 * pow(m as int, 20),
{
    lemma2_to64();
    lemma2_to64_rest();
    lemma_pow2_adds(64, 2);
    lemma_pow2_adds(64, 6);
    lemma_pow2_adds(64, 8);
    lemma_pow2_adds(64, 10);
    lemma_pow2_adds(64, 12);
    lemma_pow2_adds(64, 14);
    if m == 8 {
        assert(pow(9, 10) == 3486784401) by {
            reveal_with_fuel(pow, 11);
        }
        assert(pow(8, 20) == 1152921504606846976) by {
            reveal_with_fuel(pow, 21);
        }
    } else if m == 9 {
        assert(pow(10, 10) == 10000000000) by {
            reveal_with_fuel(pow, 11);
        }
        assert(pow(9, 20) == 12157665459056928801) by {
            reveal_with_fuel(pow, 21);
        }
    } else if m == 10 {
        assert(pow(11, 10) == 25937424601) by {
            reveal_with_fuel(pow, 11);
        }
        assert(pow(10, 20) == 100000000000000000000) by {
            reveal_with_fuel(pow, 21);
        }
    } else if m == 11 {
        assert(pow(12, 10) == 61917364224) by {
            reveal_with_fuel(pow, 11);
        }
        assert(pow(11, 20) == 672749994932560009201) by {
            reveal_with_fuel(pow, 21);
        }
    } else if m == 12 {
        assert(pow(13, 10) == 137858491849) by {
            reveal_with_fuel(pow, 11);
        }
        assert(pow(12, 20) == 3833759992447475122176) by {
            reveal_with_fuel(pow, 21);
        }
    } else if m == 13 {
        assert(pow(14, 10) == 289254654976) by {
            reveal_with_fuel(pow, 11);
        }
        assert(pow(13, 20) == 19004963774880799438801) by {
            reveal_with_fuel(pow, 21);
        }
    } else if m == 14 {
        assert(pow(15, 10) == 576650390625) by {
            reveal_with_fuel(pow, 11);
        }
        assert(pow(14, 20) == 83668255425284801560576) by {
            reveal_with_fuel(pow, 21);
        }
    } else if m == 15 {
        assert(pow(16, 10) == 1099511627776) by {
            reveal_with_fuel(pow, 11);
        }
        assert(pow(15, 20) == 332525673007965087890625) by {
            reveal_with_fuel(pow, 21);
        }
    }
}

/// The power of a number with `k` binary digits behind it.
proof fn lemma_shifted_power(m: nat, k: nat, n: nat)
    ensures
        pow((m * pow2(k)) as int, n) == pow(m as int, n) * pow2(k * n),
{
    lemma_pow2(k);
    lemma_pow2(k * n);
    lemma_pow_distributes(m as int, pow(2, k), n);
    lemma_pow_multiplies(2, k, n);
}

/// The estimate stands at most one half above `10 * log2(x)`, and less than 2 below it.
pub proof fn law_estimate_is_close(x: nat)
    requires
        x >= 1,
    ensures
        pow2((2 * log_of(x)) as nat) <= 2 * pow(x as int, 20),
        pow(x as int, 10) < pow2((log_of(x) + 2) as nat),
{
    lemma2_to64();
    lemma2_to64_rest();
    if x < 8 {
        lemma_small_is_close(x);
    } else {
        let (m, k) = lemma_leading_digits(x);
        let o = octave((m - 8) as nat);
        lemma_octave_bounds(m);
        lemma_shifted_power(m, k, 20);
        lemma_shifted_power(m + 1, k, 10);
        lemma_pow_of_larger(m * pow2(k), x, 20);
        lemma_pow_of_larger(x, (m + 1) * pow2(k), 10);
        lemma_pow2_adds((60 + 2 * o) as nat, 20 * k);
        lemma_pow2_adds((32 + o) as nat, 10 * k);
        lemma_pow2_pos(20 * k);
        lemma_pow2_pos(10 * k);
        let (a, b) = (pow2((60 + 2 * o) as nat) as int, pow2(20 * k) as int);
        let c = pow(m as int, 20);
        assert(a * b <= 2 * (c * b)) by (nonlinear_arith)
            requires
                a <= 2 * c,
                0 < b,
        ;
        let (d, e) = (pow((m + 1) as int, 10), pow2(10 * k) as int);
        let g = pow2((32 + o) as nat) as int;
        assert(d * e <= g * e) by (nonlinear_arith)
            requires
                d <= g,
                0 < e,
        ;
        assert(k * 20 == 20 * k && k * 10 == 10 * k);
    }
}

proof fn lemma_small_is_close(x: nat)
    requires
        1 <= x < 8,
    ensures
        pow2((2 * log_of(x)) as nat) <= 2 * pow(x as int, 20),
        pow(x as int, 10) < pow2((log_of(x) + 2) as nat),
{
    lemma2_to64();
    lemma2_to64_rest();
    if x == 1 {
        assert(pow(1, 10) == 1) by {
            reveal_with_fuel(pow, 11);
        }
        assert(pow(1, 20) == 1) by {
            reveal_with_fuel(pow, 21);
        }
    } else if x == 2 {
        assert(pow(2, 10) == 1024) by {
            reveal_with_fuel(pow, 11);
        }
        assert(pow(2, 20) == 1048576) by {
            reveal_with_fuel(pow, 21);
        }
    } else if x == 3 {
        assert(pow(3, 10) == 59049) by {
            reveal_with_fuel(pow, 11);
        }
        assert(pow(3, 20) == 3486784401) by {
            reveal_with_fuel(pow, 21);
        }
    } else if x == 4 {
        assert(pow(4, 10) == 1048576) by {
            reveal_with_fuel(pow, 11);
        }
        assert(pow(4, 20) == 1099511627776) by {
            reveal_with_fuel(pow, 21);
        }
    } else if x == 5 {
        assert(pow(5, 10) == 9765625) by {
            reveal_with_fuel(pow, 11);
        }
        assert(pow(5, 20) == 95367431640625) by {
            reveal_with_fuel(pow, 21);
        }
    } else if x == 6 {
        assert(pow(6, 10) == 60466176) by {
            reveal_with_fuel(pow, 11);
        }
        assert(pow(6, 20) == 3656158440062976) by {
            reveal_with_fuel(pow, 21);
        }
    } else if x == 7 {
        assert(pow(7, 10) == 282475249) by {
            reveal_with_fuel(pow, 11);
        }
        assert(pow(7, 20) == 79792266297612001) by {
            reveal_with_fuel(pow, 21);
        }
    }
}

/// The depth of a search over `n` rows, where `n` is an estimate.
pub fn est_log(n: LogEst) -> (r: LogEst)
    ensures
        r == (if n <= 10 {
            0
        } else {
            log_of(n as nat) - 33
        }),
{
    if n <= 10 {
        0
    } else {
        log_est(n as u64) - 33
    }
}

/// The estimated number of rows for each number of leading index columns that are pinned.
pub open spec fn default_row_est(k: int) -> int {
    if k == 0 {
        200
    } else if k == 1 {
        33
    } else if k == 2 {
        32
    } else if k == 3 {
        30
    } else if k == 4 {
        28
    } else if k == 5 {
        26
    } else {
        23
    }
}

/// The default row estimates of an index: those of the whole table, then those for each number
/// of leading columns.
pub fn default_ai_row_log_est(n_key_cols: usize) -> (r: Vec<LogEst>)
    requires
        n_key_cols < usize::MAX,
    ensures
        r@.len() == n_key_cols + 1,
        forall|k: int| 0 <= k < r@.len() ==> r@[k] == default_row_est(k),
{
    let mut a: Vec<LogEst> = Vec::new();
    for k in 0..n_key_cols + 1
        invariant
            a@.len() == k,
            forall|j: int| 0 <= j < k ==> a@[j] == default_row_est(j),
    {
        let e: i64 = if k == 0 {
            200
        } else if k == 1 {
            33
        } else if k == 2 {
            32
        } else if k == 3 {
            30
        } else if k == 4 {
            28
        } else if k == 5 {
            26
        } else {
            23
        };
        a.push(e);
    }
    a
}

/// The estimated size of a column.
pub open spec fn column_size(a: Affinity) -> nat {
    match a {
        Affinity::Text => 5,
        _ => 1,
    }
}

/// The estimated size of a column.
pub fn column_sz_est(affinity: Affinity) -> (r: u64)
    ensures
        r == column_size(affinity),
{
    match affinity {
        Affinity::Text => 5,
        _ => 1,
    }
}

/// The estimated size of the first `n` columns of a table.
pub open spec fn columns_size(t: TableView, n: int) -> nat
    decreases n,
{
    if n <= 0 || n > t.columns.len() {
        0
    } else {
        columns_size(t, n - 1) + column_size(t.columns[n - 1].affinity)
    }
}

/// The estimated width of a table's rows; a rowid counts as one more column.
pub open spec fn table_width(t: TableView) -> nat {
    columns_size(t, t.columns.len() as int) + (if t.without_rowid {
        0nat
    } else {
        1nat
    })
}

/// The estimate of the width of a table's rows.
pub fn estimated_table_width_log(table: &Table) -> (r: LogEst)
    requires
        table@.columns.len() < 0x0100_0000_0000_0000,
    ensures
        r == log_of(table_width(table@) * 4),
{
    let mut w: u64 = 0;
    for i in 0..table.columns.len()
        invariant
            table@.columns.len() < 0x0100_0000_0000_0000,
            w == columns_size(table@, i as int),
            w <= 5 * i,
    {
        assert(table@.columns[i as int] == table.columns@[i as int]@);
        w = w + column_sz_est(table.columns[i].affinity);
    }
    if !table.without_rowid {
        w = w + 1;
    }
    log_est(w * 4)
}

/// The estimated size of an index column: that of the table column it is, or that of a text for
/// an expression.
pub open spec fn index_column_size(c: IndexColumnView, t: TableView) -> nat {
    if c.expr is Some {
        5
    } else {
        match t.column_index(c.name) {
            Some(i) => column_size(t.columns[i as int].affinity),
            None => 1,
        }
    }
}

/// The estimated size of the first `n` columns of an index.
pub open spec fn index_columns_size(ix: IndexView, t: TableView, n: int) -> nat
    decreases n,
{
    if n <= 0 || n > ix.columns.len() {
        0
    } else {
        index_columns_size(ix, t, n - 1) + index_column_size(ix.columns[n - 1], t)
    }
}

/// The estimated width of an index entry; a rowid counts as one more column.
pub open spec fn index_width(ix: IndexView, t: TableView) -> nat {
    index_columns_size(ix, t, ix.columns.len() as int) + (if t.without_rowid {
        0nat
    } else {
        1nat
    })
}

/// The estimate of the width of an index entry.
pub fn estimated_index_width_log(index: &IndexObject, table: &Table) -> (r: LogEst)
    requires
        index@.columns.len() < 0x0100_0000_0000_0000,
    ensures
        r == log_of(index_width(index@, table@) * 4),
{
    let mut w: u64 = 0;
    for k in 0..index.columns.len()
        invariant
            index@.columns.len() < 0x0100_0000_0000_0000,
            w == index_columns_size(index@, table@, k as int),
            w <= 5 * k,
    {
        assert(index@.columns[k as int] == index.columns@[k as int]@);
        if index.columns[k].is_expression() {
            w = w + 5;
        } else {
            match table.column_index(index.columns[k].name.as_str()) {
                Some(i) => {
                    assert(table@.columns[i as int] == table.columns@[i as int]@);
                    w = w + column_sz_est(table.columns[i].affinity);
                },
                None => {
                    w = w + 1;
                },
            }
        }
    }
    if !table.without_rowid {
        w = w + 1;
    }
    log_est(w * 4)
}

} // verus!
