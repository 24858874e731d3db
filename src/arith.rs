use vstd::arithmetic::div_mod::{lemma_fundamental_div_mod, lemma_fundamental_div_mod_converse};
use vstd::arithmetic::mul::lemma_mul_is_distributive_add_other_way;
use vstd::prelude::*;

verus! {

/// Rust's `%` truncates toward zero; for a negative dividend and a positive
/// divisor the Euclidean remainder is the truncated one plus the divisor,
/// unless the truncated one is zero.
pub proof fn lemma_truncated_rem_neg(a: int, b: int)
    requires
        a < 0,
        b > 0,
    ensures
        (-a) % b == 0 ==> a % b == 0,
        (-a) % b != 0 ==> a % b == b - (-a) % b,
{
    lemma_fundamental_div_mod(-a, b);
    let q = (-a) / b;
    let r = (-a) % b;
    if r == 0 {
        assert(a == (-q) * b + 0) by (nonlinear_arith)
            requires
                -a == b * q + r,
                r == 0,
        ;
        lemma_fundamental_div_mod_converse(a, b, -q, 0);
    } else {
        assert(a == (-q - 1) * b + (b - r)) by (nonlinear_arith)
            requires
                -a == b * q + r,
        ;
        lemma_fundamental_div_mod_converse(a, b, -q - 1, b - r);
    }
}

/// Reducing a multiple of `w` modulo `w * h` keeps it a multiple of `w`:
/// `(y * w) % (w * h) == (y % h) * w`.
pub proof fn lemma_row_mod(y: int, w: int, h: int)
    requires
        w > 0,
        h > 0,
    ensures
        (y * w) % (w * h) == (y % h) * w,
        (y * w) / (w * h) == y / h,
{
    lemma_fundamental_div_mod(y, h);
    let q = y / h;
    let r = y % h;
    assert(y * w == q * (w * h) + r * w) by (nonlinear_arith)
        requires
            y == h * q + r,
    ;
    assert(0 <= r * w < w * h) by (nonlinear_arith)
        requires
            0 <= r < h,
            w > 0,
    ;
    lemma_fundamental_div_mod_converse(y * w, w * h, q, r * w);
}

/// A value `row * w + col` with `0 <= col < w` splits back into `row` and `col`.
pub proof fn lemma_split(row: int, col: int, w: int)
    requires
        w > 0,
        0 <= col < w,
    ensures
        (row * w + col) % w == col,
        (row * w + col) / w == row,
{
    lemma_fundamental_div_mod_converse(row * w + col, w, row, col);
}

/// A cell `row * w + col` of a `w` by `h` grid lies in `[0, w * h)`.
pub proof fn lemma_cell_bound(row: int, col: int, w: int, h: int)
    requires
        0 <= row < h,
        0 <= col < w,
    ensures
        0 <= row * w + col < w * h,
{
    assert(0 <= row * w + col < w * h) by (nonlinear_arith)
        requires
            0 <= row < h,
            0 <= col < w,
    ;
}

/// An index below `w * h` lies in a row below `h`.
pub proof fn lemma_row_bound(n: int, w: int, h: int)
    requires
        w > 0,
        0 <= n < w * h,
    ensures
        0 <= n / w < h,
{
    lemma_fundamental_div_mod(n, w);
    let q = n / w;
    assert(0 <= q < h) by (nonlinear_arith)
        requires
            n == w * q + n % w,
            0 <= n % w < w,
            0 <= n < w * h,
            w > 0,
    ;
}

/// Adding a multiple of `m` does not change the remainder.
pub proof fn lemma_mod_shift(a: int, k: int, m: int)
    requires
        m > 0,
    ensures
        (a + k * m) % m == a % m,
{
    lemma_fundamental_div_mod(a, m);
    let q = a / m;
    assert(a + k * m == (q + k) * m + a % m) by (nonlinear_arith)
        requires
            a == m * q + a % m,
    ;
    lemma_fundamental_div_mod_converse(a + k * m, m, q + k, a % m);
}

/// Two values with the same remainder that lie closer together than the
/// divisor are equal.
pub proof fn lemma_mod_close(a: int, b: int, m: int)
    requires
        m > 0,
        a % m == b % m,
        -m < a - b < m,
    ensures
        a == b,
{
    lemma_fundamental_div_mod(a, m);
    lemma_fundamental_div_mod(b, m);
    let qa = a / m;
    let qb = b / m;
    assert(a - b == (qa - qb) * m) by (nonlinear_arith)
        requires
            a == m * qa + a % m,
            b == m * qb + b % m,
            a % m == b % m,
    ;
    if qa > qb {
        assert((qa - qb) * m >= m) by (nonlinear_arith)
            requires
                qa - qb >= 1,
                m > 0,
        ;
    } else if qa < qb {
        assert((qa - qb) * m <= -m) by (nonlinear_arith)
            requires
                qa - qb <= -1,
                m > 0,
        ;
    }
}

} // verus!
