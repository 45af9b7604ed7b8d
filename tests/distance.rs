use metricspace::kernel::pair_distances;
use metricspace::limits::{pair_fits_check, shape_fits_check, trains_fit_check};
use metricspace::matrix::{calculate_spkd, drop_empty_trains, try_calculate_spkd};
use metricspace::tensor::Tensor3;

fn cell(d: &Tensor3, i: usize, j: usize, k: usize) -> u64 {
    d.get(i, j, k)
}

fn plane(d: &Tensor3, i: usize, j: usize) -> Vec<u64> {
    let (_, _, nq) = d.shape();
    (0..nq).map(|k| d.get(i, j, k)).collect()
}

// Times in milliseconds; a spike costs 1000 units, so a cost of one unit
// per millisecond is one spike per second.
#[test]
fn test_calculate_spkd() {
    let trains = vec![
        vec![100, 150, 200, 250, 300],
        vec![350, 400, 450, 500, 550],
        vec![600, 650, 700, 750, 800],
    ];
    let costs = vec![1, 2, 3];
    let d = calculate_spkd(&trains, &costs, 1000);
    assert_eq!(d.shape(), (3, 3, 3));
    assert_eq!(plane(&d, 0, 1), vec![1250, 2500, 3750]);
    assert_eq!(plane(&d, 1, 2), vec![1250, 2500, 3750]);
    assert_eq!(plane(&d, 0, 2), vec![2500, 5000, 7400]);
    for i in 0..3 {
        assert_eq!(plane(&d, i, i), vec![0, 0, 0]);
        for j in 0..3 {
            assert_eq!(plane(&d, i, j), plane(&d, j, i));
        }
    }
}

#[test]
fn identical_trains_are_at_zero() {
    let trains = vec![vec![100, 200, 300], vec![100, 200, 300]];
    let d = calculate_spkd(&trains, &vec![0, 1, 10], 1000);
    assert_eq!(plane(&d, 0, 1), vec![0, 0, 0]);
    assert_eq!(plane(&d, 1, 0), vec![0, 0, 0]);
}

#[test]
fn free_shift_gives_length_difference() {
    let trains = vec![vec![0, 1000], vec![0, 1000, 2000, 3000]];
    let d = calculate_spkd(&trains, &vec![0], 1000);
    assert_eq!(cell(&d, 0, 1, 0), 2000);
}

#[test]
fn high_cost_deletes_and_inserts() {
    let trains = vec![vec![0], vec![10]];
    let d = calculate_spkd(&trains, &vec![1_000_000_000], 1);
    assert_eq!(cell(&d, 0, 1, 0), 2);
}

#[test]
fn single_shift_beats_delete_and_insert() {
    let trains = vec![vec![0], vec![500]];
    let d = calculate_spkd(&trains, &vec![1], 1000);
    assert_eq!(cell(&d, 0, 1, 0), 500);
}

#[test]
fn distance_grows_with_cost_then_saturates() {
    let trains = vec![vec![0, 300, 700], vec![50, 320, 900, 1000]];
    let costs = vec![0, 1, 2, 5, 10, 100, 1000];
    let d = calculate_spkd(&trains, &costs, 1000);
    let row = plane(&d, 0, 1);
    assert_eq!(row, vec![1000, 1270, 1540, 2350, 3700, 7000, 7000]);
    for k in 1..row.len() {
        assert!(row[k - 1] <= row[k]);
    }
    assert_eq!(row[row.len() - 1], 1000 * (3 + 4));
}

#[test]
fn three_trains_symmetric_and_triangle() {
    let trains = vec![vec![0, 300], vec![100, 400], vec![0, 100, 500]];
    let d = calculate_spkd(&trains, &vec![1], 1000);
    assert_eq!(plane(&d, 0, 1), vec![200]);
    assert_eq!(plane(&d, 0, 2), vec![1200]);
    assert_eq!(plane(&d, 1, 2), vec![1100]);
    for i in 0..3 {
        for j in 0..3 {
            assert_eq!(cell(&d, i, j, 0), cell(&d, j, i, 0));
            for m in 0..3 {
                assert!(cell(&d, i, j, 0) <= cell(&d, i, m, 0) + cell(&d, m, j, 0));
            }
        }
    }
}

#[test]
fn empty_collection_gives_empty_tensor() {
    let trains: Vec<Vec<i64>> = vec![];
    let d = calculate_spkd(&trains, &vec![1, 2], 1000);
    assert_eq!(d.shape(), (0, 0, 2));
}

#[test]
fn single_train_gives_zero() {
    let d = calculate_spkd(&vec![vec![1, 2, 3]], &vec![0, 5, 7], 1000);
    assert_eq!(d.shape(), (1, 1, 3));
    assert_eq!(plane(&d, 0, 0), vec![0, 0, 0]);
}

#[test]
fn empty_train_is_dropped() {
    let d = calculate_spkd(&vec![vec![10, 20], vec![]], &vec![1, 2], 1000);
    assert_eq!(d.shape(), (1, 1, 2));
    assert_eq!(plane(&d, 0, 0), vec![0, 0]);
    let d = calculate_spkd(&vec![vec![0, 300], vec![], vec![100, 400]], &vec![1], 1000);
    assert_eq!(d.shape(), (2, 2, 1));
    assert_eq!(cell(&d, 0, 1, 0), 200);
}

#[test]
fn each_plane_matches_its_single_cost() {
    let trains = vec![vec![0, 300, 700], vec![50, 320, 900, 1000], vec![10]];
    let costs = vec![2, 0, 10];
    let d = calculate_spkd(&trains, &costs, 1000);
    for k in 0..costs.len() {
        let d1 = calculate_spkd(&trains, &vec![costs[k]], 1000);
        for i in 0..3 {
            for j in 0..3 {
                assert_eq!(cell(&d, i, j, k), cell(&d1, i, j, 0));
            }
        }
    }
}

#[test]
fn scaling_times_and_costs_keeps_distances() {
    let trains = vec![vec![0, 300, 700], vec![50, 320, 900, 1000]];
    let scaled: Vec<Vec<i64>> = trains.iter().map(|t| t.iter().map(|v| 4 * v).collect()).collect();
    let d = calculate_spkd(&trains, &vec![4, 8, 40], 1000);
    let ds = calculate_spkd(&scaled, &vec![1, 2, 10], 1000);
    assert_eq!(plane(&d, 0, 1), plane(&ds, 0, 1));
    assert_eq!(plane(&d, 0, 1), vec![2080, 3160, 5800]);
}

#[test]
fn pair_with_an_empty_train_costs_its_length() {
    let r = pair_distances(&vec![], &vec![1, 2, 3], &vec![0, 9], 7);
    assert_eq!(r, vec![21, 21]);
    let r = pair_distances(&vec![], &vec![], &vec![4], 7);
    assert_eq!(r, vec![0]);
    let r = pair_distances(&vec![0, 300, 700], &vec![50, 320, 900, 1000], &vec![1, 2], 1000);
    assert_eq!(r, vec![1270, 1540]);
}

#[test]
fn dropping_empty_trains_keeps_order() {
    let kept = drop_empty_trains(&vec![vec![], vec![3], vec![], vec![1, 2], vec![]]);
    assert_eq!(kept, vec![vec![3], vec![1, 2]]);
}

#[test]
fn too_large_a_cost_is_refused() {
    let trains = vec![vec![0], vec![5]];
    assert!(try_calculate_spkd(&trains, &vec![1], u64::MAX).is_none());
    assert!(!trains_fit_check(&trains, 1, u64::MAX));
    let d = try_calculate_spkd(&trains, &vec![1], u64::MAX / 2).unwrap();
    assert_eq!(cell(&d, 0, 1, 0), 5);
    // Empty trains are dropped before the limits are tested.
    let d = try_calculate_spkd(&vec![vec![0], vec![]], &vec![1], u64::MAX).unwrap();
    assert_eq!(d.shape(), (1, 1, 1));
}

#[test]
fn machine_limits() {
    assert!(shape_fits_check(0, 0, 0));
    assert!(shape_fits_check(1 << 20, 1 << 20, 1 << 19));
    assert!(!shape_fits_check(1 << 20, 1 << 20, 1 << 20));
    assert!(!shape_fits_check(1 << 61, 0, 0));
    assert!(pair_fits_check(3, 4, 2, 1000));
    assert!(!pair_fits_check(3, 4, 2, u64::MAX / 6));
    assert!(pair_fits_check(3, 3, 2, u64::MAX / 6));
}
