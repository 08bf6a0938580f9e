use cellector::cell_set::CellIdSet;
use cellector::convergence::{ConvergenceLoop, LoopStatus};
use cellector::locus_filter::{locus_filter, loci_with_minority};
use cellector::order::argsort;
use cellector::outlier::{cells_below_threshold, quantile_position, QuantilePosition};

#[test]
fn argsort_orders_by_key_and_keeps_ties_in_order() {
    assert_eq!(argsort(&vec![30, 10, 20, 10]), vec![1, 3, 2, 0]);
    assert_eq!(argsort(&vec![]), Vec::<usize>::new());
    assert_eq!(argsort(&vec![5, 5, 5]), vec![0, 1, 2]);
}

#[test]
fn quartile_positions_interpolate_linearly() {
    // five values: index 1 exactly
    assert_eq!(quantile_position(5, 25), QuantilePosition { lower: 1, upper: 1, weight_percent: 0 });
    // four values: index 0.75
    assert_eq!(quantile_position(4, 25), QuantilePosition { lower: 0, upper: 1, weight_percent: 75 });
    // four values: index 2.25
    assert_eq!(quantile_position(4, 75), QuantilePosition { lower: 2, upper: 3, weight_percent: 25 });
    // median of an even count: halfway between the middle two
    assert_eq!(quantile_position(6, 50), QuantilePosition { lower: 2, upper: 3, weight_percent: 50 });
    assert_eq!(quantile_position(1, 75), QuantilePosition { lower: 0, upper: 0, weight_percent: 0 });
}

#[test]
fn quantile_position_of_large_counts() {
    let q = quantile_position(usize::MAX, 100);
    assert_eq!(q, QuantilePosition { lower: usize::MAX - 1, upper: usize::MAX - 1, weight_percent: 0 });
}

#[test]
fn threshold_test_is_strict() {
    let minority = cells_below_threshold(&vec![5, 3, 4, 9, 3], 4);
    assert_eq!(minority.ids_below(10), vec![1, 4]);
    let none = cells_below_threshold(&vec![5, 3, 4], 3);
    assert_eq!(none.len(), 0);
}

#[test]
fn lower_threshold_flags_a_subset() {
    let keys = vec![1, 7, 3, 5, 2];
    let low = cells_below_threshold(&keys, 3).ids_below(5);
    let high = cells_below_threshold(&keys, 6).ids_below(5);
    assert_eq!(low, vec![0, 4]);
    assert_eq!(high, vec![0, 2, 3, 4]);
}

#[test]
fn locus_filter_turns_off_low_loci_for_good() {
    let mut used = vec![true, true, false, true];
    locus_filter(&mut used, &vec![1, 9, 9, 5], 6);
    assert_eq!(used, vec![false, true, false, false]);
    locus_filter(&mut used, &vec![9, 9, 9, 9], 6);
    assert_eq!(used, vec![false, true, false, false]);
}

#[test]
fn loci_with_minority_lists_nonzero_counts() {
    assert_eq!(loci_with_minority(&vec![0, 2, 0, 1]), vec![1, 3]);
}

#[test]
fn loop_converges_when_the_minority_repeats() {
    let mut state = ConvergenceLoop::new(5, vec![true, true], 10);
    assert_eq!(state.record_iteration(CellIdSet::from_ids(&vec![1, 3])), LoopStatus::Iterating);
    assert_eq!(state.iteration(), 1);
    assert_eq!(state.record_iteration(CellIdSet::from_ids(&vec![3])), LoopStatus::Iterating);
    assert_eq!(state.excluded().ids_below(5), vec![3]);
    assert_eq!(state.ever_excluded().ids_below(5), vec![1, 3]);
    assert_eq!(state.record_iteration(CellIdSet::from_ids(&vec![3])), LoopStatus::Converged);
    assert_eq!(state.excluded().ids_below(5), vec![3]);
    assert_eq!(state.iteration(), 3);
}

#[test]
fn fixed_point_reproduces_itself() {
    let mut state = ConvergenceLoop::new(3, vec![true], 10);
    assert_eq!(state.record_iteration(CellIdSet::new()), LoopStatus::Converged);
    assert_eq!(state.record_iteration(CellIdSet::new()), LoopStatus::Converged);
    assert_eq!(state.excluded().len(), 0);
}

#[test]
fn loop_stops_at_the_cap() {
    let mut state = ConvergenceLoop::new(4, vec![true], 2);
    assert_eq!(state.record_iteration(CellIdSet::from_ids(&vec![0])), LoopStatus::Iterating);
    assert_eq!(state.record_iteration(CellIdSet::from_ids(&vec![1])), LoopStatus::IterationCapReached);
    assert_eq!(state.excluded().ids_below(4), vec![1]);
}

#[test]
fn loop_filters_its_loci() {
    let mut state = ConvergenceLoop::new(2, vec![true, true, true], 5);
    state.filter_loci(&vec![3, 1, 8], 2);
    assert_eq!(state.loci_used(), &vec![true, false, true]);
}
