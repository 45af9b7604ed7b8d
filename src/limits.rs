//! Tests of the machine limits that the computation needs.
use crate::kernel::{cost_fits, pair_fits};
use crate::matrix::{trains_fit, trains_view};
use crate::tensor::{nonzero_size, shape_fits};
use vstd::prelude::*;

verus! {

/// Whether an array of `u64` of shape `(n0, n1, n2)` can be allocated.
pub fn shape_fits_check(n0: u128, n1: u128, n2: u128) -> (r: bool)
    requires
        n0 <= u64::MAX + 1,
        n1 <= u64::MAX + 1,
        n2 <= u64::MAX + 1,
    ensures
        r == shape_fits(n0 as int, n1 as int, n2 as int),
{
    let max_cells: u128 = isize::MAX as u128 / 8;
    assert(max_cells <= 0x1000_0000_0000_0000);
    let m0: u128 = if n0 == 0 { 1 } else { n0 };
    let m1: u128 = if n1 == 0 { 1 } else { n1 };
    let m2: u128 = if n2 == 0 { 1 } else { n2 };
    assert(nonzero_size(n0 as int, n1 as int, n2 as int) == m0 * m1 * m2);
    if m0 > max_cells || m1 > max_cells || m2 > max_cells {
        assert(m0 * m1 * m2 >= m0 && m0 * m1 * m2 >= m1 && m0 * m1 * m2 >= m2) by (nonlinear_arith)
            requires
                m0 >= 1,
                m1 >= 1,
                m2 >= 1,
        ;
        return false;
    }
    assert(m0 * m1 <= 0x1000_0000_0000_0000 * 0x1000_0000_0000_0000) by (nonlinear_arith)
        requires
            m0 <= 0x1000_0000_0000_0000,
            m1 <= 0x1000_0000_0000_0000,
    ;
    let p: u128 = m0 * m1;
    if p > max_cells {
        assert(p * m2 >= p) by (nonlinear_arith)
            requires
                m2 >= 1,
                p >= 0,
        ;
        return false;
    }
    assert(p * m2 <= 0x1000_0000_0000_0000 * 0x1000_0000_0000_0000) by (nonlinear_arith)
        requires
            p <= 0x1000_0000_0000_0000,
            m2 <= 0x1000_0000_0000_0000,
            p >= 0,
    ;
    p * m2 * 8 <= isize::MAX as u128
}

/// Whether two trains of lengths `x_len` and `y_len` can be compared at
/// `nq` cost parameters.
pub fn pair_fits_check(x_len: usize, y_len: usize, nq: usize, unit: u64) -> (r: bool)
    ensures
        r == pair_fits(x_len as int, y_len as int, nq as int, unit as int),
{
    let total: u128 = x_len as u128 + y_len as u128;
    let cost_ok = if unit == 0 {
        assert(unit * (x_len + y_len) == 0) by (nonlinear_arith)
            requires
                unit == 0,
        ;
        true
    } else if total > u64::MAX as u128 {
        assert(unit * (x_len + y_len) >= x_len + y_len) by (nonlinear_arith)
            requires
                unit >= 1,
                x_len + y_len >= 0,
        ;
        false
    } else {
        assert(unit * total <= u64::MAX * u64::MAX) by (nonlinear_arith)
            requires
                unit <= u64::MAX,
                total <= u64::MAX,
        ;
        unit as u128 * total <= u64::MAX as u128
    };
    assert(cost_ok == cost_fits(x_len as int, y_len as int, unit as int));
    if !cost_ok {
        return false;
    }
    if x_len > 0 && y_len > 0 {
        shape_fits_check(nq as u128, x_len as u128 + 1, y_len as u128 + 1)
    } else {
        true
    }
}

/// Whether the distance tensor of `trains` at `nq` cost parameters can be
/// computed within the machine's limits.
pub fn trains_fit_check(trains: &Vec<Vec<i64>>, nq: usize, unit: u64) -> (r: bool)
    ensures
        r == trains_fit(trains_view(trains@), nq as int, unit as int),
{
    let ghost tv = trains_view(trains@);
    let n = trains.len();
    if !shape_fits_check(n as u128, n as u128, nq as u128) {
        return false;
    }
    let mut i: usize = 0;
    while i < n
        invariant
            0 <= i <= n,
            n == trains.len(),
            tv == trains_view(trains@),
            forall|ci: int, cj: int|
                0 <= ci < i && 0 <= cj < n && ci != cj ==> #[trigger] pair_fits(
                    tv[ci].len() as int,
                    tv[cj].len() as int,
                    nq as int,
                    unit as int,
                ),
        decreases n - i,
    {
        let mut j: usize = 0;
        while j < n
            invariant
                0 <= i < n,
                0 <= j <= n,
                n == trains.len(),
                tv == trains_view(trains@),
                forall|ci: int, cj: int|
                    ((0 <= ci < i && 0 <= cj < n) || (ci == i && 0 <= cj < j)) && ci != cj ==> #[trigger] pair_fits(
                        tv[ci].len() as int,
                        tv[cj].len() as int,
                        nq as int,
                        unit as int,
                    ),
            decreases n - j,
        {
            if i != j && !pair_fits_check(trains[i].len(), trains[j].len(), nq, unit) {
                assert(!pair_fits(tv[i as int].len() as int, tv[j as int].len() as int, nq as int, unit as int));
                return false;
            }
            j = j + 1;
        }
        i = i + 1;
    }
    true
}

} // verus!
