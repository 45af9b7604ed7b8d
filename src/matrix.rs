//! The distance tensor of a collection of spike trains.
use crate::kernel::{pair_distances, pair_fits};
use crate::limits::trains_fit_check;
use crate::metric::{lemma_prefix_identical, lemma_prefix_symmetric, vp_distance};
use crate::tensor::{in_shape, set3, shape_fits, tensor_cells, tensor_shape, zeros3, Tensor3};
use vstd::prelude::*;

verus! {

/// The event times of each train of a collection.
pub open spec fn trains_view(trains: Seq<Vec<i64>>) -> Seq<Seq<i64>> {
    trains.map_values(|t: Vec<i64>| t@)
}

/// The trains of a collection that hold at least one spike, in order.
pub open spec fn nonempty_trains(trains: Seq<Seq<i64>>) -> Seq<Seq<i64>> {
    trains.filter(|t: Seq<i64>| t.len() > 0)
}

/// Whether the distance tensor of `trains` at `nq` cost parameters can be
/// computed within the machine's limits: the tensor can be allocated, and
/// so can each pair of distinct trains be compared.
pub open spec fn trains_fit(trains: Seq<Seq<i64>>, nq: int, unit: int) -> bool {
    &&& shape_fits(trains.len() as int, trains.len() as int, nq)
    &&& forall|i: int, j: int|
        0 <= i < trains.len() && 0 <= j < trains.len() && i != j ==> #[trigger] pair_fits(
            trains[i].len() as int,
            trains[j].len() as int,
            nq,
            unit,
        )
}

/// Whether `d` is the `N × N × Q` tensor whose cell `(i, j, k)` is the
/// distance between trains `i` and `j` at cost `costs[k]`.
pub open spec fn is_distance_tensor(d: Tensor3, trains: Seq<Seq<i64>>, costs: Seq<u64>, unit: u64) -> bool {
    &&& tensor_shape(d).0 == trains.len()
    &&& tensor_shape(d).1 == trains.len()
    &&& tensor_shape(d).2 == costs.len()
    &&& forall|i: usize, j: usize, k: usize|
        #![trigger tensor_cells(d)[(i, j, k)]]
        in_shape(tensor_shape(d), (i, j, k)) ==> tensor_cells(d)[(i, j, k)] == vp_distance(
            trains[i as int],
            trains[j as int],
            costs[k as int] as int,
            unit as int,
        )
}

/// What cell `(ci, cj, ck)` holds once the pairs before `(i, j)` and the
/// cost indices before `k` of pair `(i, j)` are written: their distance,
/// or zero.
pub open spec fn written_cell(
    trains: Seq<Seq<i64>>,
    costs: Seq<u64>,
    unit: u64,
    i: int,
    j: int,
    k: int,
    ci: int,
    cj: int,
    ck: int,
) -> int {
    let lo = if ci < cj { ci } else { cj };
    let hi = if ci < cj { cj } else { ci };
    if ci != cj && (lo < i || (lo == i && hi < j) || (lo == i && hi == j && ck < k)) {
        vp_distance(trains[ci], trains[cj], costs[ck] as int, unit as int)
    } else {
        0
    }
}

/// Whether every cell of `d` holds what `written_cell` says.
pub open spec fn pairs_written(
    d: Tensor3,
    trains: Seq<Seq<i64>>,
    costs: Seq<u64>,
    unit: u64,
    i: int,
    j: int,
    k: int,
) -> bool {
    forall|ci: usize, cj: usize, ck: usize|
        #![trigger tensor_cells(d)[(ci, cj, ck)]]
        in_shape(tensor_shape(d), (ci, cj, ck)) ==> tensor_cells(d)[(ci, cj, ck)] == written_cell(
            trains,
            costs,
            unit,
            i,
            j,
            k,
            ci as int,
            cj as int,
            ck as int,
        )
}

/// Writes the distance between every two trains `i < j` into cells
/// `(i, j, k)` and `(j, i, k)` of a zeroed tensor, so that it becomes the
/// symmetric distance tensor of the collection. The diagonal stays zero.
pub fn iterate_spiketrain_pairs(trains: &Vec<Vec<i64>>, costs: &Vec<u64>, unit: u64, d: &mut Tensor3)
    requires
        tensor_shape(*old(d)).0 == trains.len(),
        tensor_shape(*old(d)).1 == trains.len(),
        tensor_shape(*old(d)).2 == costs.len(),
        forall|ci: usize, cj: usize, ck: usize|
            #![trigger tensor_cells(*old(d))[(ci, cj, ck)]]
            in_shape(tensor_shape(*old(d)), (ci, cj, ck)) ==> tensor_cells(*old(d))[(ci, cj, ck)] == 0,
        trains_fit(trains_view(trains@), costs.len() as int, unit as int),
    ensures
        is_distance_tensor(*final(d), trains_view(trains@), costs@, unit),
{
    let ghost tv = trains_view(trains@);
    let n = trains.len();
    let nq = costs.len();
    let mut i: usize = 0;
    while i < n
        invariant
            0 <= i <= n,
            n == trains.len(),
            nq == costs.len(),
            tv == trains_view(trains@),
            tensor_shape(*d) == (n, n, nq),
            trains_fit(tv, nq as int, unit as int),
            pairs_written(*d, tv, costs@, unit, i as int, i + 1, 0),
        decreases n - i,
    {
        let mut j: usize = i + 1;
        while j < n
            invariant
                0 <= i < n,
                i < j <= n,
                n == trains.len(),
                nq == costs.len(),
                tv == trains_view(trains@),
                tensor_shape(*d) == (n, n, nq),
                trains_fit(tv, nq as int, unit as int),
                pairs_written(*d, tv, costs@, unit, i as int, j as int, 0),
            decreases n - j,
        {
            assert(pair_fits(tv[i as int].len() as int, tv[j as int].len() as int, nq as int, unit as int));
            let r = pair_distances(&trains[i], &trains[j], costs, unit);
            proof {
                assert forall|c: int| 0 <= c < nq implies vp_distance(tv[i as int], tv[j as int], costs@[c] as int, unit as int)
                    == vp_distance(tv[j as int], tv[i as int], costs@[c] as int, unit as int) by {
                    lemma_prefix_symmetric(tv[i as int], tv[j as int], costs@[c] as int, unit as int, tv[i as int].len(), tv[j as int].len());
                }
            }
            let mut k: usize = 0;
            while k < nq
                invariant
                    0 <= i < j < n,
                    0 <= k <= nq,
                    n == trains.len(),
                    nq == costs.len(),
                    tv == trains_view(trains@),
                    tensor_shape(*d) == (n, n, nq),
                    r.len() == nq,
                    forall|c: int| 0 <= c < nq ==> r@[c] == vp_distance(tv[i as int], tv[j as int], costs@[c] as int, unit as int),
                    forall|c: int| 0 <= c < nq ==> vp_distance(tv[i as int], tv[j as int], costs@[c] as int, unit as int)
                        == vp_distance(tv[j as int], tv[i as int], costs@[c] as int, unit as int),
                    pairs_written(*d, tv, costs@, unit, i as int, j as int, k as int),
                decreases nq - k,
            {
                set3(d, i, j, k, r[k]);
                set3(d, j, i, k, r[k]);
                k = k + 1;
            }
            assert(pairs_written(*d, tv, costs@, unit, i as int, j + 1, 0));
            j = j + 1;
        }
        assert(pairs_written(*d, tv, costs@, unit, i + 1, i + 2, 0));
        i = i + 1;
    }
    proof {
        assert forall|ci: usize, cj: usize, ck: usize|
            #![trigger tensor_cells(*d)[(ci, cj, ck)]]
            in_shape(tensor_shape(*d), (ci, cj, ck)) implies tensor_cells(*d)[(ci, cj, ck)] == vp_distance(
                tv[ci as int],
                tv[cj as int],
                costs@[ck as int] as int,
                unit as int,
            ) by {
            if ci == cj {
                lemma_prefix_identical(tv[ci as int], costs@[ck as int] as int, unit as int, tv[ci as int].len());
            }
        }
    }
}

/// The trains of `trains` that hold at least one spike, in order.
pub fn drop_empty_trains(trains: &Vec<Vec<i64>>) -> (r: Vec<Vec<i64>>)
    ensures
        trains_view(r@) == nonempty_trains(trains_view(trains@)),
{
    let ghost tv = trains_view(trains@);
    let mut r: Vec<Vec<i64>> = Vec::new();
    let mut i: usize = 0;
    while i < trains.len()
        invariant
            0 <= i <= trains.len(),
            tv == trains_view(trains@),
            trains_view(r@) == nonempty_trains(tv.take(i as int)),
        decreases trains.len() - i,
    {
        proof {
            assert(tv.take(i + 1).drop_last() =~= tv.take(i as int));
            reveal(Seq::filter);
        }
        if trains[i].len() > 0 {
            let t = trains[i].clone();
            assert(t@ =~= tv[i as int]);
            r.push(t);
            assert(trains_view(r@) =~= nonempty_trains(tv.take(i + 1)));
        } else {
            assert(trains_view(r@) =~= nonempty_trains(tv.take(i + 1)));
        }
        i = i + 1;
    }
    assert(tv.take(trains.len() as int) =~= tv);
    r
}

/// The distance tensor of `trains`, none of which is empty: allocates it,
/// then fills it pair by pair.
pub fn calculate_spkd_impl(trains: &Vec<Vec<i64>>, costs: &Vec<u64>, unit: u64) -> (d: Tensor3)
    requires
        trains_fit(trains_view(trains@), costs.len() as int, unit as int),
    ensures
        is_distance_tensor(d, trains_view(trains@), costs@, unit),
{
    let n = trains.len();
    let mut d = zeros3(n, n, costs.len());
    iterate_spiketrain_pairs(trains, costs, unit, &mut d);
    d
}

/// The distance tensor of the non-empty trains of `trains`: cell
/// `(i, j, k)` holds the distance between the `i`-th and the `j`-th
/// non-empty train at cost `costs[k]` per tick of shift, where inserting or
/// deleting a spike costs `unit`. Empty trains are dropped, so the tensor
/// has one row and one column per non-empty train; it is symmetric in its
/// first two axes and zero on their diagonal.
pub fn calculate_spkd(trains: &Vec<Vec<i64>>, costs: &Vec<u64>, unit: u64) -> (d: Tensor3)
    requires
        trains_fit(nonempty_trains(trains_view(trains@)), costs.len() as int, unit as int),
    ensures
        is_distance_tensor(d, nonempty_trains(trains_view(trains@)), costs@, unit),
{
    let kept = drop_empty_trains(trains);
    calculate_spkd_impl(&kept, costs, unit)
}

/// The tensor of `calculate_spkd`, or `None` where it cannot be computed
/// within the machine's limits (the tensor or a score buffer is too large
/// to allocate, or a distance exceeds `u64::MAX`).
pub fn try_calculate_spkd(trains: &Vec<Vec<i64>>, costs: &Vec<u64>, unit: u64) -> (r: Option<Tensor3>)
    ensures
        r is Some <==> trains_fit(nonempty_trains(trains_view(trains@)), costs.len() as int, unit as int),
        r matches Some(d) ==> is_distance_tensor(d, nonempty_trains(trains_view(trains@)), costs@, unit),
{
    let kept = drop_empty_trains(trains);
    if trains_fit_check(&kept, costs.len(), unit) {
        Some(calculate_spkd_impl(&kept, costs, unit))
    } else {
        None
    }
}

} // verus!
