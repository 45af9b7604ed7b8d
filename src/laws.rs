//! What holds of every distance tensor that `calculate_spkd` returns.
use crate::matrix::is_distance_tensor;
use crate::metric::{
    abs_diff, lemma_prefix_bounds, lemma_prefix_dominated, lemma_prefix_free_shift,
    lemma_prefix_identical, lemma_prefix_monotone, lemma_prefix_scaled, lemma_prefix_symmetric,
    lemma_prefix_triangle, shifts_dominated, vp_distance,
};
use crate::tensor::{in_shape, tensor_cells, tensor_shape, Tensor3};
use vstd::prelude::*;

verus! {

/// Every train is at distance zero from itself, at every cost.
pub proof fn tensor_diagonal_is_zero(d: Tensor3, trains: Seq<Seq<i64>>, costs: Seq<u64>, unit: u64)
    requires
        is_distance_tensor(d, trains, costs, unit),
    ensures
        forall|i: usize, k: usize|
            in_shape(tensor_shape(d), (i, i, k)) ==> #[trigger] tensor_cells(d)[(i, i, k)] == 0,
{
    assert forall|i: usize, k: usize| in_shape(tensor_shape(d), (i, i, k)) implies #[trigger] tensor_cells(d)[(i, i, k)]
        == 0 by {
        lemma_prefix_identical(trains[i as int], costs[k as int] as int, unit as int, trains[i as int].len());
    }
}

/// No distance is negative.
pub proof fn distance_is_nonnegative(x: Seq<i64>, y: Seq<i64>, q: int, unit: int)
    requires
        q >= 0,
        unit >= 0,
    ensures
        vp_distance(x, y, q, unit) >= 0,
{
    lemma_prefix_bounds(x, y, q, unit, x.len(), y.len());
}

/// The tensor is symmetric in its first two axes.
pub proof fn tensor_is_symmetric(d: Tensor3, trains: Seq<Seq<i64>>, costs: Seq<u64>, unit: u64)
    requires
        is_distance_tensor(d, trains, costs, unit),
    ensures
        forall|i: usize, j: usize, k: usize|
            in_shape(tensor_shape(d), (i, j, k)) ==> #[trigger] tensor_cells(d)[(i, j, k)] == tensor_cells(d)[(j, i, k)],
{
    assert forall|i: usize, j: usize, k: usize| in_shape(tensor_shape(d), (i, j, k)) implies #[trigger] tensor_cells(d)[(
    i,
    j,
    k,
    )] == tensor_cells(d)[(j, i, k)] by {
        assert(in_shape(tensor_shape(d), (j, i, k)));
        lemma_prefix_symmetric(
            trains[i as int],
            trains[j as int],
            costs[k as int] as int,
            unit as int,
            trains[i as int].len(),
            trains[j as int].len(),
        );
    }
}

/// Where shifting is free, two trains are as far apart as the cost of
/// the difference in their lengths.
pub proof fn tensor_at_free_shift(d: Tensor3, trains: Seq<Seq<i64>>, costs: Seq<u64>, unit: u64)
    requires
        is_distance_tensor(d, trains, costs, unit),
    ensures
        forall|i: usize, j: usize, k: usize|
            in_shape(tensor_shape(d), (i, j, k)) && costs[k as int] == 0 ==> #[trigger] tensor_cells(d)[(i, j, k)]
                == unit * abs_diff(trains[i as int].len() as int, trains[j as int].len() as int),
{
    assert forall|i: usize, j: usize, k: usize|
        in_shape(tensor_shape(d), (i, j, k)) && costs[k as int] == 0 implies #[trigger] tensor_cells(d)[(i, j, k)]
        == unit * abs_diff(trains[i as int].len() as int, trains[j as int].len() as int) by {
        lemma_prefix_free_shift(trains[i as int], trains[j as int], unit as int, trains[i as int].len(), trains[j as int].len());
    }
}

/// Two trains with the same event times are at distance zero, at every
/// cost.
pub proof fn tensor_identical_trains(d: Tensor3, trains: Seq<Seq<i64>>, costs: Seq<u64>, unit: u64)
    requires
        is_distance_tensor(d, trains, costs, unit),
    ensures
        forall|i: usize, j: usize, k: usize|
            in_shape(tensor_shape(d), (i, j, k)) && trains[i as int] == trains[j as int] ==> #[trigger] tensor_cells(d)[(
            i,
            j,
            k,
            )] == 0,
{
    assert forall|i: usize, j: usize, k: usize|
        in_shape(tensor_shape(d), (i, j, k)) && trains[i as int] == trains[j as int] implies #[trigger] tensor_cells(d)[(
    i,
    j,
    k,
    )] == 0 by {
        lemma_prefix_identical(trains[i as int], costs[k as int] as int, unit as int, trains[i as int].len());
    }
}

/// The triangle inequality: going through a third train is never shorter.
pub proof fn tensor_triangle(d: Tensor3, trains: Seq<Seq<i64>>, costs: Seq<u64>, unit: u64)
    requires
        is_distance_tensor(d, trains, costs, unit),
    ensures
        forall|i: usize, j: usize, m: usize, k: usize|
            in_shape(tensor_shape(d), (i, j, k)) && m < tensor_shape(d).0 ==> #[trigger] tensor_cells(d)[(i, j, k)]
                <= #[trigger] tensor_cells(d)[(i, m, k)] + #[trigger] tensor_cells(d)[(m, j, k)],
{
    assert forall|i: usize, j: usize, m: usize, k: usize|
        in_shape(tensor_shape(d), (i, j, k)) && m < tensor_shape(d).0 implies #[trigger] tensor_cells(d)[(i, j, k)]
        <= #[trigger] tensor_cells(d)[(i, m, k)] + #[trigger] tensor_cells(d)[(m, j, k)] by {
        assert(in_shape(tensor_shape(d), (i, m, k)));
        assert(in_shape(tensor_shape(d), (m, j, k)));
        lemma_prefix_triangle(
            trains[i as int],
            trains[m as int],
            trains[j as int],
            costs[k as int] as int,
            unit as int,
            trains[i as int].len(),
            trains[m as int].len(),
            trains[j as int].len(),
        );
    }
}

/// Multiplying every event time by `c` and dividing every cost by `c`
/// leaves the tensor unchanged: `d` is the tensor of `trains` at costs
/// `c * q`, and `ds` that of the trains with times `c * t` at costs `q`.
pub proof fn tensor_scaling(
    d: Tensor3,
    trains: Seq<Seq<i64>>,
    scaled_costs: Seq<u64>,
    ds: Tensor3,
    scaled_trains: Seq<Seq<i64>>,
    costs: Seq<u64>,
    c: int,
    unit: u64,
)
    requires
        c > 0,
        scaled_costs.len() == costs.len(),
        forall|k: int| 0 <= k < costs.len() ==> scaled_costs[k] == c * costs[k],
        scaled_trains.len() == trains.len(),
        forall|i: int| 0 <= i < trains.len() ==> (#[trigger] scaled_trains[i]).len() == trains[i].len(),
        forall|i: int, a: int|
            0 <= i < trains.len() && 0 <= a < trains[i].len() ==> #[trigger] scaled_trains[i][a] == c * trains[i][a],
        is_distance_tensor(d, trains, scaled_costs, unit),
        is_distance_tensor(ds, scaled_trains, costs, unit),
    ensures
        tensor_shape(d) == tensor_shape(ds),
        forall|i: usize, j: usize, k: usize|
            in_shape(tensor_shape(d), (i, j, k)) ==> #[trigger] tensor_cells(d)[(i, j, k)] == tensor_cells(ds)[(i, j, k)],
{
    assert forall|i: usize, j: usize, k: usize| in_shape(tensor_shape(d), (i, j, k)) implies #[trigger] tensor_cells(d)[(
    i,
    j,
    k,
    )] == tensor_cells(ds)[(i, j, k)] by {
        let x = trains[i as int];
        let y = trains[j as int];
        let xs = scaled_trains[i as int];
        let ys = scaled_trains[j as int];
        assert(xs.len() == x.len());
        assert(ys.len() == y.len());
        assert forall|a: int| 0 <= a < x.len() implies xs[a] == c * x[a] by {
            assert(scaled_trains[i as int][a] == c * trains[i as int][a]);
        }
        assert forall|a: int| 0 <= a < y.len() implies ys[a] == c * y[a] by {
            assert(scaled_trains[j as int][a] == c * trains[j as int][a]);
        }
        lemma_prefix_scaled(x, y, xs, ys, c, costs[k as int] as int, unit as int, x.len(), y.len());
    }
}

/// Each plane of the tensor is the one computed for its cost alone:
/// `d1` is the tensor of `trains` at the single cost `costs[k]`.
pub proof fn tensor_plane_is_single_cost(
    d: Tensor3,
    d1: Tensor3,
    trains: Seq<Seq<i64>>,
    costs: Seq<u64>,
    k: usize,
    unit: u64,
)
    requires
        k < costs.len(),
        is_distance_tensor(d, trains, costs, unit),
        is_distance_tensor(d1, trains, seq![costs[k as int]], unit),
    ensures
        forall|i: usize, j: usize|
            i < trains.len() && j < trains.len() ==> #[trigger] tensor_cells(d)[(i, j, k)] == tensor_cells(d1)[(i, j, 0)],
{
    assert forall|i: usize, j: usize| i < trains.len() && j < trains.len() implies #[trigger] tensor_cells(d)[(i, j, k)]
        == tensor_cells(d1)[(i, j, 0)] by {
        assert(in_shape(tensor_shape(d), (i, j, k)));
        assert(in_shape(tensor_shape(d1), (i, j, 0)));
    }
}

/// Along the cost axis, a dearer shift never gives a smaller distance;
/// no distance exceeds the cost of deleting and inserting every spike;
/// and once every shift costs at least as much as a deletion and an
/// insertion, the distance is exactly that cost.
pub proof fn tensor_cost_monotone(d: Tensor3, trains: Seq<Seq<i64>>, costs: Seq<u64>, unit: u64)
    requires
        is_distance_tensor(d, trains, costs, unit),
    ensures
        forall|i: usize, j: usize, k1: usize, k2: usize|
            in_shape(tensor_shape(d), (i, j, k1)) && in_shape(tensor_shape(d), (i, j, k2)) && costs[k1 as int]
                <= costs[k2 as int] ==> #[trigger] tensor_cells(d)[(i, j, k1)] <= #[trigger] tensor_cells(d)[(i, j, k2)],
        forall|i: usize, j: usize, k: usize|
            in_shape(tensor_shape(d), (i, j, k)) ==> #[trigger] tensor_cells(d)[(i, j, k)] <= unit * (trains[i as int].len()
                + trains[j as int].len()),
        forall|i: usize, j: usize, k: usize|
            in_shape(tensor_shape(d), (i, j, k)) && shifts_dominated(
                trains[i as int],
                trains[j as int],
                costs[k as int] as int,
                unit as int,
            ) ==> #[trigger] tensor_cells(d)[(i, j, k)] == unit * (trains[i as int].len() + trains[j as int].len()),
{
    assert forall|i: usize, j: usize, k1: usize, k2: usize|
        in_shape(tensor_shape(d), (i, j, k1)) && in_shape(tensor_shape(d), (i, j, k2)) && costs[k1 as int]
            <= costs[k2 as int] implies #[trigger] tensor_cells(d)[(i, j, k1)] <= #[trigger] tensor_cells(d)[(i, j, k2)] by {
        lemma_prefix_monotone(
            trains[i as int],
            trains[j as int],
            costs[k1 as int] as int,
            costs[k2 as int] as int,
            unit as int,
            trains[i as int].len(),
            trains[j as int].len(),
        );
    }
    assert forall|i: usize, j: usize, k: usize| in_shape(tensor_shape(d), (i, j, k)) implies #[trigger] tensor_cells(d)[(
    i,
    j,
    k,
    )] <= unit * (trains[i as int].len() + trains[j as int].len()) by {
        lemma_prefix_bounds(
            trains[i as int],
            trains[j as int],
            costs[k as int] as int,
            unit as int,
            trains[i as int].len(),
            trains[j as int].len(),
        );
    }
    assert forall|i: usize, j: usize, k: usize|
        in_shape(tensor_shape(d), (i, j, k)) && shifts_dominated(
            trains[i as int],
            trains[j as int],
            costs[k as int] as int,
            unit as int,
        ) implies #[trigger] tensor_cells(d)[(i, j, k)] == unit * (trains[i as int].len() + trains[j as int].len()) by {
        lemma_prefix_dominated(
            trains[i as int],
            trains[j as int],
            costs[k as int] as int,
            unit as int,
            trains[i as int].len(),
            trains[j as int].len(),
        );
    }
}

} // verus!
