//! The Victor–Purpura distance between two spike trains, as a mathematical
//! function, and the facts about it that the rest of the library uses.
//!
//! Event times are integer ticks. Shifting a spike by `t` ticks costs
//! `q * t` cost units, and inserting or deleting a spike costs `unit`
//! cost units.
use vstd::prelude::*;

verus! {

/// The distance between two event times.
pub open spec fn abs_diff(s: int, t: int) -> int {
    if s >= t {
        s - t
    } else {
        t - s
    }
}

/// The least of three values.
pub open spec fn min3(a: int, b: int, c: int) -> int {
    if a <= b && a <= c {
        a
    } else if b <= c {
        b
    } else {
        c
    }
}

/// The cost of shifting spike `a - 1` of `x` onto spike `b - 1` of `y`.
pub open spec fn shift_cost(x: Seq<i64>, y: Seq<i64>, q: int, a: nat, b: nat) -> int {
    q * abs_diff(x[a - 1] as int, y[b - 1] as int)
}

/// The least cost of editing the first `a` spikes of `x` into the first `b`
/// spikes of `y`: each spike is deleted, inserted, or shifted onto a spike
/// of the other train, in order.
pub open spec fn vp_prefix(x: Seq<i64>, y: Seq<i64>, q: int, unit: int, a: nat, b: nat) -> int
    decreases a + b,
{
    if a == 0 {
        unit * b
    } else if b == 0 {
        unit * a
    } else {
        min3(
            vp_prefix(x, y, q, unit, (a - 1) as nat, b) + unit,
            vp_prefix(x, y, q, unit, a, (b - 1) as nat) + unit,
            vp_prefix(x, y, q, unit, (a - 1) as nat, (b - 1) as nat) + shift_cost(x, y, q, a, b),
        )
    }
}

/// The Victor–Purpura distance between spike trains `x` and `y` at cost
/// `q` per tick of shift and `unit` per inserted or deleted spike.
pub open spec fn vp_distance(x: Seq<i64>, y: Seq<i64>, q: int, unit: int) -> int {
    vp_prefix(x, y, q, unit, x.len(), y.len())
}

/// Every prefix distance lies between zero and the cost of deleting and
/// inserting every spike.
pub proof fn lemma_prefix_bounds(x: Seq<i64>, y: Seq<i64>, q: int, unit: int, a: nat, b: nat)
    requires
        q >= 0,
        unit >= 0,
    ensures
        0 <= vp_prefix(x, y, q, unit, a, b) <= unit * (a + b),
    decreases a + b,
{
    if a == 0 {
        assert(unit * b >= 0) by (nonlinear_arith)
            requires
                unit >= 0,
        ;
    } else if b == 0 {
        assert(unit * a >= 0) by (nonlinear_arith)
            requires
                unit >= 0,
        ;
    } else {
        lemma_prefix_bounds(x, y, q, unit, (a - 1) as nat, b);
        lemma_prefix_bounds(x, y, q, unit, a, (b - 1) as nat);
        lemma_prefix_bounds(x, y, q, unit, (a - 1) as nat, (b - 1) as nat);
        assert(shift_cost(x, y, q, a, b) >= 0) by (nonlinear_arith)
            requires
                q >= 0,
                abs_diff(x[a - 1] as int, y[b - 1] as int) >= 0,
        ;
        assert(unit * (a - 1 + b) + unit == unit * (a + b)) by (nonlinear_arith);
        assert(unit * (a + b - 1) + unit == unit * (a + b)) by (nonlinear_arith);
    }
}

/// The recurrence read backwards: away from the origin, a prefix distance
/// is no more than each of its three candidates, and equals one of them.
pub proof fn lemma_prefix_step(x: Seq<i64>, y: Seq<i64>, q: int, unit: int, a: nat, b: nat)
    ensures
        a >= 1 ==> vp_prefix(x, y, q, unit, a, b) <= vp_prefix(x, y, q, unit, (a - 1) as nat, b) + unit,
        b >= 1 ==> vp_prefix(x, y, q, unit, a, b) <= vp_prefix(x, y, q, unit, a, (b - 1) as nat) + unit,
        a >= 1 && b >= 1 ==> vp_prefix(x, y, q, unit, a, b) <= vp_prefix(x, y, q, unit, (a - 1) as nat, (b - 1) as nat)
            + shift_cost(x, y, q, a, b),
        a >= 1 || b >= 1 ==> {
            ||| (a >= 1 && vp_prefix(x, y, q, unit, a, b) == vp_prefix(x, y, q, unit, (a - 1) as nat, b) + unit)
            ||| (b >= 1 && vp_prefix(x, y, q, unit, a, b) == vp_prefix(x, y, q, unit, a, (b - 1) as nat) + unit)
            ||| (a >= 1 && b >= 1 && vp_prefix(x, y, q, unit, a, b) == vp_prefix(x, y, q, unit, (a - 1) as nat, (b - 1) as nat)
                + shift_cost(x, y, q, a, b))
        },
{
    if a == 0 && b >= 1 {
        assert(unit * (b - 1) + unit == unit * b) by (nonlinear_arith);
    } else if a >= 1 && b == 0 {
        assert(unit * (a - 1) + unit == unit * a) by (nonlinear_arith);
    }
}

/// The distance does not depend on the order of the two trains.
pub proof fn lemma_prefix_symmetric(x: Seq<i64>, y: Seq<i64>, q: int, unit: int, a: nat, b: nat)
    ensures
        vp_prefix(x, y, q, unit, a, b) == vp_prefix(y, x, q, unit, b, a),
    decreases a + b,
{
    if a > 0 && b > 0 {
        lemma_prefix_symmetric(x, y, q, unit, (a - 1) as nat, b);
        lemma_prefix_symmetric(x, y, q, unit, a, (b - 1) as nat);
        lemma_prefix_symmetric(x, y, q, unit, (a - 1) as nat, (b - 1) as nat);
    }
}

/// A train is at distance zero from itself.
pub proof fn lemma_prefix_identical(x: Seq<i64>, q: int, unit: int, a: nat)
    requires
        q >= 0,
        unit >= 0,
    ensures
        vp_prefix(x, x, q, unit, a, a) == 0,
    decreases a,
{
    lemma_prefix_bounds(x, x, q, unit, a, a);
    if a > 0 {
        lemma_prefix_identical(x, q, unit, (a - 1) as nat);
        lemma_prefix_step(x, x, q, unit, a, a);
        assert(abs_diff(x[a - 1] as int, x[a - 1] as int) == 0);
        assert(shift_cost(x, x, q, a, a) == 0) by (nonlinear_arith)
            requires
                shift_cost(x, x, q, a, a) == q * abs_diff(x[a - 1] as int, x[a - 1] as int),
                abs_diff(x[a - 1] as int, x[a - 1] as int) == 0,
        ;
    }
}

/// With free shifts the distance is the cost of the difference in length.
pub proof fn lemma_prefix_free_shift(x: Seq<i64>, y: Seq<i64>, unit: int, a: nat, b: nat)
    requires
        unit >= 0,
    ensures
        vp_prefix(x, y, 0, unit, a, b) == unit * abs_diff(a as int, b as int),
    decreases a + b,
{
    if a > 0 && b > 0 {
        lemma_prefix_free_shift(x, y, unit, (a - 1) as nat, b);
        lemma_prefix_free_shift(x, y, unit, a, (b - 1) as nat);
        lemma_prefix_free_shift(x, y, unit, (a - 1) as nat, (b - 1) as nat);
        let d = a - b;
        assert(unit * abs_diff(a - 1, b as int) + unit >= unit * abs_diff(a as int, b as int)
            && unit * abs_diff(a as int, b - 1) + unit >= unit * abs_diff(a as int, b as int))
            by (nonlinear_arith)
            requires
                unit >= 0,
                abs_diff(a - 1, b as int) >= abs_diff(a as int, b as int) - 1,
                abs_diff(a as int, b - 1) >= abs_diff(a as int, b as int) - 1,
        ;
        assert(abs_diff(a - 1, b - 1) == abs_diff(a as int, b as int));
        assert(shift_cost(x, y, 0, a, b) == 0);
    }
}

/// Shifting costs no less than the sum of two shifts through a third time.
proof fn lemma_shift_triangle(q: int, s: int, t: int, v: int)
    requires
        q >= 0,
    ensures
        q * abs_diff(s, v) <= q * abs_diff(s, t) + q * abs_diff(t, v),
{
    assert(q * abs_diff(s, v) <= q * abs_diff(s, t) + q * abs_diff(t, v)) by (nonlinear_arith)
        requires
            q >= 0,
            abs_diff(s, v) <= abs_diff(s, t) + abs_diff(t, v),
    ;
}

/// The triangle inequality, on prefixes of three trains.
pub proof fn lemma_prefix_triangle(
    x: Seq<i64>,
    y: Seq<i64>,
    z: Seq<i64>,
    q: int,
    unit: int,
    a: nat,
    b: nat,
    c: nat,
)
    requires
        q >= 0,
        unit >= 0,
    ensures
        vp_prefix(x, z, q, unit, a, c) <= vp_prefix(x, y, q, unit, a, b) + vp_prefix(y, z, q, unit, b, c),
    decreases a + b + c,
{
    let xz = vp_prefix(x, z, q, unit, a, c);
    let xy = vp_prefix(x, y, q, unit, a, b);
    let yz = vp_prefix(y, z, q, unit, b, c);
    lemma_prefix_step(x, z, q, unit, a, c);
    lemma_prefix_step(x, y, q, unit, a, b);
    lemma_prefix_step(y, z, q, unit, b, c);
    if a == 0 && b == 0 {
    } else if a >= 1 && xy == vp_prefix(x, y, q, unit, (a - 1) as nat, b) + unit {
        lemma_prefix_triangle(x, y, z, q, unit, (a - 1) as nat, b, c);
    } else if c >= 1 && yz == vp_prefix(y, z, q, unit, b, (c - 1) as nat) + unit {
        lemma_prefix_triangle(x, y, z, q, unit, a, b, (c - 1) as nat);
    } else {
        let xy_insert = xy == vp_prefix(x, y, q, unit, a, (b - 1) as nat) + unit;
        let yz_delete = yz == vp_prefix(y, z, q, unit, (b - 1) as nat, c) + unit;
        if xy_insert && yz_delete {
            lemma_prefix_triangle(x, y, z, q, unit, a, (b - 1) as nat, c);
        } else if xy_insert {
            lemma_prefix_bounds(y, z, q, unit, b, c);
            assert(shift_cost(y, z, q, b, c) >= 0) by (nonlinear_arith)
                requires
                    q >= 0,
                    abs_diff(y[b - 1] as int, z[c - 1] as int) >= 0,
            ;
            lemma_prefix_triangle(x, y, z, q, unit, a, (b - 1) as nat, (c - 1) as nat);
        } else if yz_delete {
            assert(shift_cost(x, y, q, a, b) >= 0) by (nonlinear_arith)
                requires
                    q >= 0,
                    abs_diff(x[a - 1] as int, y[b - 1] as int) >= 0,
            ;
            lemma_prefix_triangle(x, y, z, q, unit, (a - 1) as nat, (b - 1) as nat, c);
        } else {
            lemma_shift_triangle(q, x[a - 1] as int, y[b - 1] as int, z[c - 1] as int);
            lemma_prefix_triangle(x, y, z, q, unit, (a - 1) as nat, (b - 1) as nat, (c - 1) as nat);
        }
    }
}

/// Multiplying every event time by `c` costs as much as multiplying the
/// shift cost by `c`.
pub proof fn lemma_prefix_scaled(
    x: Seq<i64>,
    y: Seq<i64>,
    xs: Seq<i64>,
    ys: Seq<i64>,
    c: int,
    q: int,
    unit: int,
    a: nat,
    b: nat,
)
    requires
        c > 0,
        a <= x.len() == xs.len(),
        b <= y.len() == ys.len(),
        forall|i: int| 0 <= i < x.len() ==> xs[i] == c * x[i],
        forall|i: int| 0 <= i < y.len() ==> ys[i] == c * y[i],
    ensures
        vp_prefix(xs, ys, q, unit, a, b) == vp_prefix(x, y, c * q, unit, a, b),
    decreases a + b,
{
    if a > 0 && b > 0 {
        lemma_prefix_scaled(x, y, xs, ys, c, q, unit, (a - 1) as nat, b);
        lemma_prefix_scaled(x, y, xs, ys, c, q, unit, a, (b - 1) as nat);
        lemma_prefix_scaled(x, y, xs, ys, c, q, unit, (a - 1) as nat, (b - 1) as nat);
        let s = x[a - 1] as int;
        let t = y[b - 1] as int;
        assert(abs_diff(c * s, c * t) == c * abs_diff(s, t)) by (nonlinear_arith)
            requires
                c > 0,
        ;
        assert(q * (c * abs_diff(s, t)) == (c * q) * abs_diff(s, t)) by (nonlinear_arith);
    }
}

/// A dearer shift never makes the distance smaller.
pub proof fn lemma_prefix_monotone(x: Seq<i64>, y: Seq<i64>, q1: int, q2: int, unit: int, a: nat, b: nat)
    requires
        0 <= q1 <= q2,
    ensures
        vp_prefix(x, y, q1, unit, a, b) <= vp_prefix(x, y, q2, unit, a, b),
    decreases a + b,
{
    if a > 0 && b > 0 {
        lemma_prefix_monotone(x, y, q1, q2, unit, (a - 1) as nat, b);
        lemma_prefix_monotone(x, y, q1, q2, unit, a, (b - 1) as nat);
        lemma_prefix_monotone(x, y, q1, q2, unit, (a - 1) as nat, (b - 1) as nat);
        let t = abs_diff(x[a - 1] as int, y[b - 1] as int);
        assert(q1 * t <= q2 * t) by (nonlinear_arith)
            requires
                q1 <= q2,
                t >= 0,
        ;
    }
}

/// Whether every shift between a spike of `x` and a spike of `y` costs at
/// least as much as deleting the one and inserting the other.
pub open spec fn shifts_dominated(x: Seq<i64>, y: Seq<i64>, q: int, unit: int) -> bool {
    forall|i: int, j: int|
        0 <= i < x.len() && 0 <= j < y.len() ==> #[trigger] (q * abs_diff(x[i] as int, y[j] as int)) >= 2 * unit
}

/// Where no shift pays, every spike is deleted or inserted.
pub proof fn lemma_prefix_dominated(x: Seq<i64>, y: Seq<i64>, q: int, unit: int, a: nat, b: nat)
    requires
        q >= 0,
        unit >= 0,
        a <= x.len(),
        b <= y.len(),
        shifts_dominated(x, y, q, unit),
    ensures
        vp_prefix(x, y, q, unit, a, b) == unit * (a + b),
    decreases a + b,
{
    lemma_prefix_bounds(x, y, q, unit, a, b);
    if a == 0 {
    } else if b == 0 {
    } else {
        lemma_prefix_dominated(x, y, q, unit, (a - 1) as nat, b);
        lemma_prefix_dominated(x, y, q, unit, a, (b - 1) as nat);
        lemma_prefix_dominated(x, y, q, unit, (a - 1) as nat, (b - 1) as nat);
        assert(q * abs_diff(x[a - 1] as int, y[b - 1] as int) >= 2 * unit);
        assert(unit * (a - 1 + b) + unit == unit * (a + b)) by (nonlinear_arith);
        assert(unit * (a + b - 1) + unit == unit * (a + b)) by (nonlinear_arith);
        assert(unit * (a - 1 + b - 1) + 2 * unit == unit * (a + b)) by (nonlinear_arith);
    }
}

} // verus!
