//! The dynamic program that computes the distance between one pair of
//! spike trains at every cost parameter at once.
use crate::metric::{abs_diff, lemma_prefix_bounds, min3, shift_cost, vp_distance, vp_prefix};
use crate::tensor::{dim3, get3, in_shape, set3, shape_fits, tensor_cells, tensor_shape, zeros3, Tensor3};
use vstd::prelude::*;

verus! {

/// Whether cell `(k, a, b)` of a score buffer is one whose value is known
/// before row `a`, column `b` and cost index `k` are computed: a boundary
/// cell, or one that comes earlier in the traversal order.
pub open spec fn cell_done(a: nat, b: nat, k: nat, ca: nat, cb: nat, ck: nat) -> bool {
    ca == 0 || cb == 0 || ca < a || (ca == a && cb < b) || (ca == a && cb == b && ck < k)
}

/// Whether every cell of `scr` that `cell_done` names holds its prefix
/// distance.
pub open spec fn scores_hold(
    scr: Tensor3,
    x: Seq<i64>,
    y: Seq<i64>,
    costs: Seq<u64>,
    unit: u64,
    a: nat,
    b: nat,
    k: nat,
) -> bool {
    forall|ck: usize, ca: usize, cb: usize|
        #![trigger tensor_cells(scr)[(ck, ca, cb)]]
        in_shape(tensor_shape(scr), (ck, ca, cb)) && cell_done(a, b, k, ca as nat, cb as nat, ck as nat)
            ==> tensor_cells(scr)[(ck, ca, cb)] == vp_prefix(x, y, costs[ck as int] as int, unit as int, ca as nat, cb as nat)
}

/// Whether deleting and inserting every spike of two trains of these
/// lengths costs no more than `u64::MAX`.
pub open spec fn cost_fits(x_len: int, y_len: int, unit: int) -> bool {
    unit * (x_len + y_len) <= u64::MAX
}

/// Fills a score buffer of shape `(Q, Lx + 1, Ly + 1)` whose boundary
/// holds the deletion and insertion costs, so that cell `(k, a, b)` holds
/// the distance between the first `a` spikes of `x` and the first `b`
/// spikes of `y` at cost `costs[k]`.
pub fn compute_spiketrain_distance(scr: &mut Tensor3, x: &Vec<i64>, y: &Vec<i64>, costs: &Vec<u64>, unit: u64)
    requires
        tensor_shape(*old(scr)).0 == costs.len(),
        tensor_shape(*old(scr)).1 == x.len() + 1,
        tensor_shape(*old(scr)).2 == y.len() + 1,
        cost_fits(x.len() as int, y.len() as int, unit as int),
        scores_hold(*old(scr), x@, y@, costs@, unit, 0, 0, 0),
    ensures
        tensor_shape(*final(scr)) == tensor_shape(*old(scr)),
        forall|k: usize, a: usize, b: usize|
            #![trigger tensor_cells(*final(scr))[(k, a, b)]]
            in_shape(tensor_shape(*final(scr)), (k, a, b))
                ==> tensor_cells(*final(scr))[(k, a, b)] == vp_prefix(x@, y@, costs@[k as int] as int, unit as int, a as nat, b as nat),
{
    let (nq, na, nb) = dim3(scr);
    let mut a: usize = 1;
    while a < na
        invariant
            1 <= a <= na,
            tensor_shape(*scr) == (nq, na, nb),
            nq == costs.len(),
            na == x.len() + 1,
            nb == y.len() + 1,
            cost_fits(x.len() as int, y.len() as int, unit as int),
            scores_hold(*scr, x@, y@, costs@, unit, a as nat, 0, 0),
        decreases na - a,
    {
        let mut b: usize = 1;
        while b < nb
            invariant
                1 <= a < na,
                1 <= b <= nb,
                tensor_shape(*scr) == (nq, na, nb),
                nq == costs.len(),
                na == x.len() + 1,
                nb == y.len() + 1,
                cost_fits(x.len() as int, y.len() as int, unit as int),
                scores_hold(*scr, x@, y@, costs@, unit, a as nat, b as nat, 0),
            decreases nb - b,
        {
            let xa = x[a - 1];
            let yb = y[b - 1];
            let dist: u64 = if xa >= yb {
                (xa as i128 - yb as i128) as u64
            } else {
                (yb as i128 - xa as i128) as u64
            };
            assert(dist == abs_diff(x@[a - 1] as int, y@[b - 1] as int));
            let mut k: usize = 0;
            while k < nq
                invariant
                    1 <= a < na,
                    1 <= b < nb,
                    0 <= k <= nq,
                    tensor_shape(*scr) == (nq, na, nb),
                    nq == costs.len(),
                    na == x.len() + 1,
                    nb == y.len() + 1,
                    cost_fits(x.len() as int, y.len() as int, unit as int),
                    dist == abs_diff(x@[a - 1] as int, y@[b - 1] as int),
                    scores_hold(*scr, x@, y@, costs@, unit, a as nat, b as nat, k as nat),
                decreases nq - k,
            {
                let ghost q = costs@[k as int] as int;
                let up = get3(scr, k, a - 1, b);
                let left = get3(scr, k, a, b - 1);
                let diag = get3(scr, k, a - 1, b - 1);
                proof {
                    lemma_prefix_bounds(x@, y@, q, unit as int, (a - 1) as nat, b as nat);
                    lemma_prefix_bounds(x@, y@, q, unit as int, a as nat, (b - 1) as nat);
                    lemma_prefix_bounds(x@, y@, q, unit as int, a as nat, b as nat);
                    assert(unit * (a - 1 + b) + unit == unit * (a + b)) by (nonlinear_arith);
                    assert(unit * (a + b - 1) + unit == unit * (a + b)) by (nonlinear_arith);
                    assert(unit * (a + b) <= unit * (x.len() + y.len())) by (nonlinear_arith)
                        requires
                            a <= x.len(),
                            b <= y.len(),
                    ;
                }
                let del: u64 = up + unit;
                let ins: u64 = left + unit;
                let c = costs[k];
                assert(c as int * dist as int <= u64::MAX as int * u64::MAX as int) by (nonlinear_arith)
                    requires
                        c <= u64::MAX,
                        dist <= u64::MAX,
                ;
                let shift: u128 = diag as u128 + c as u128 * dist as u128;
                assert(shift == diag + shift_cost(x@, y@, q, a as nat, b as nat));
                let least: u64 = if del <= ins { del } else { ins };
                let v: u64 = if shift < least as u128 { shift as u64 } else { least };
                assert(v == min3(del as int, ins as int, shift as int));
                set3(scr, k, a, b, v);
                k = k + 1;
            }
            b = b + 1;
        }
        a = a + 1;
    }
}

/// Whether `scr` holds zero everywhere but in column 0 of the planes
/// before `k` and of rows before `a` of plane `k`, which hold the cost of
/// deleting that many spikes.
pub open spec fn first_column_set(scr: Tensor3, unit: u64, k: nat, a: nat) -> bool {
    forall|ck: usize, ca: usize, cb: usize|
        #![trigger tensor_cells(scr)[(ck, ca, cb)]]
        in_shape(tensor_shape(scr), (ck, ca, cb)) ==> tensor_cells(scr)[(ck, ca, cb)] == (if cb == 0
            && (ck < k || (ck == k && ca < a)) {
            unit * ca
        } else {
            0
        })
}

/// Whether `scr` holds the deletion costs in all of column 0, the
/// insertion costs in row 0 of the planes before `k` and of the columns
/// before `b` of plane `k`, and zero elsewhere.
pub open spec fn first_row_set(scr: Tensor3, unit: u64, k: nat, b: nat) -> bool {
    forall|ck: usize, ca: usize, cb: usize|
        #![trigger tensor_cells(scr)[(ck, ca, cb)]]
        in_shape(tensor_shape(scr), (ck, ca, cb)) ==> tensor_cells(scr)[(ck, ca, cb)] == (if cb == 0 {
            unit * ca
        } else if ca == 0 && (ck < k || (ck == k && cb < b)) {
            unit * cb
        } else {
            0
        })
}

/// Whether a pair of trains of these lengths can be compared at `nq` cost
/// parameters: the score buffer can be allocated, and no distance
/// exceeds `u64::MAX`.
pub open spec fn pair_fits(x_len: int, y_len: int, nq: int, unit: int) -> bool {
    &&& (x_len > 0 && y_len > 0 ==> shape_fits(nq, x_len + 1, y_len + 1))
    &&& cost_fits(x_len, y_len, unit)
}

/// The distances between `x` and `y` at every cost parameter of `costs`.
/// Where a train is empty, every distance is the cost of inserting or
/// deleting the spikes of the other.
pub fn pair_distances(x: &Vec<i64>, y: &Vec<i64>, costs: &Vec<u64>, unit: u64) -> (r: Vec<u64>)
    requires
        pair_fits(x.len() as int, y.len() as int, costs.len() as int, unit as int),
    ensures
        r.len() == costs.len(),
        forall|k: int| 0 <= k < r.len() ==> r@[k] == vp_distance(x@, y@, costs@[k] as int, unit as int),
{
    let nq = costs.len();
    let lx = x.len();
    let ly = y.len();
    let mut r: Vec<u64> = Vec::new();
    if lx == 0 || ly == 0 {
        let longer: u64 = if lx >= ly { lx as u64 } else { ly as u64 };
        assert(unit * longer <= unit * (lx + ly)) by (nonlinear_arith)
            requires
                longer <= lx + ly,
                unit >= 0,
        ;
        let v: u64 = unit * longer;
        let mut k: usize = 0;
        while k < nq
            invariant
                0 <= k <= nq,
                nq == costs.len(),
                lx == x.len(),
                ly == y.len(),
                lx == 0 || ly == 0,
                v == unit * (if lx >= ly { lx } else { ly }),
                r.len() == k,
                forall|c: int| 0 <= c < k ==> r@[c] == vp_distance(x@, y@, costs@[c] as int, unit as int),
            decreases nq - k,
        {
            r.push(v);
            k = k + 1;
        }
        return r;
    }
    proof {
        let n0: int = if nq == 0 { 1 } else { nq as int };
        assert(n0 * (lx + 1) * (ly + 1) >= lx + 1 && n0 * (lx + 1) * (ly + 1) >= ly + 1)
            by (nonlinear_arith)
            requires
                n0 >= 1,
                lx >= 0,
                ly >= 0,
        ;
    }
    let na: usize = lx + 1;
    let nb: usize = ly + 1;
    let mut scr = zeros3(nq, na, nb);
    let mut k: usize = 0;
    while k < nq
        invariant
            0 <= k <= nq,
            tensor_shape(scr) == (nq, na, nb),
            na == lx + 1,
            nb == ly + 1,
            nq == costs.len(),
            lx == x.len(),
            ly == y.len(),
            cost_fits(lx as int, ly as int, unit as int),
            first_column_set(scr, unit, k as nat, 0),
        decreases nq - k,
    {
        let mut a: usize = 0;
        while a <= lx
            invariant
                0 <= k < nq,
                0 <= a <= lx + 1,
                tensor_shape(scr) == (nq, na, nb),
            na == lx + 1,
            nb == ly + 1,
                nq == costs.len(),
                lx == x.len(),
                ly == y.len(),
                cost_fits(lx as int, ly as int, unit as int),
                first_column_set(scr, unit, k as nat, a as nat),
            decreases lx + 1 - a,
        {
            assert(unit * a <= unit * (lx + ly)) by (nonlinear_arith)
                requires
                    a <= lx + ly,
                    unit >= 0,
            ;
            set3(&mut scr, k, a, 0, unit * a as u64);
            a = a + 1;
        }
        k = k + 1;
    }
    assert(first_row_set(scr, unit, 0, 1));
    let mut k: usize = 0;
    while k < nq
        invariant
            0 <= k <= nq,
            tensor_shape(scr) == (nq, na, nb),
            na == lx + 1,
            nb == ly + 1,
            nq == costs.len(),
            lx == x.len(),
            ly == y.len(),
            cost_fits(lx as int, ly as int, unit as int),
            first_row_set(scr, unit, k as nat, 1),
        decreases nq - k,
    {
        let mut b: usize = 1;
        while b <= ly
            invariant
                0 <= k < nq,
                1 <= b <= ly + 1,
                tensor_shape(scr) == (nq, na, nb),
            na == lx + 1,
            nb == ly + 1,
                nq == costs.len(),
                lx == x.len(),
                ly == y.len(),
                cost_fits(lx as int, ly as int, unit as int),
                first_row_set(scr, unit, k as nat, b as nat),
            decreases ly + 1 - b,
        {
            assert(unit * b <= unit * (lx + ly)) by (nonlinear_arith)
                requires
                    b <= lx + ly,
                    unit >= 0,
            ;
            set3(&mut scr, k, 0, b, unit * b as u64);
            b = b + 1;
        }
        assert(first_row_set(scr, unit, (k + 1) as nat, 1));
        k = k + 1;
    }
    compute_spiketrain_distance(&mut scr, x, y, costs, unit);
    let mut k: usize = 0;
    while k < nq
        invariant
            0 <= k <= nq,
            tensor_shape(scr) == (nq, na, nb),
            na == lx + 1,
            nb == ly + 1,
            nq == costs.len(),
            lx == x.len(),
            ly == y.len(),
            forall|ck: usize, ca: usize, cb: usize|
                #![trigger tensor_cells(scr)[(ck, ca, cb)]]
                in_shape(tensor_shape(scr), (ck, ca, cb))
                    ==> tensor_cells(scr)[(ck, ca, cb)] == vp_prefix(x@, y@, costs@[ck as int] as int, unit as int, ca as nat, cb as nat),
            r.len() == k,
            forall|c: int| 0 <= c < k ==> r@[c] == vp_distance(x@, y@, costs@[c] as int, unit as int),
        decreases nq - k,
    {
        r.push(get3(&scr, k, lx, ly));
        k = k + 1;
    }
    r
}

} // verus!
