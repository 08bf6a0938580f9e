use cellector::alpha_beta::{init_alpha_betas, AlphaBeta};
use cellector::cell_set::CellIdSet;
use cellector::cells::{AlleleCount, CellData, CellLocusData};
use cellector::likelihood::{likelihood_sites, locus_partition_counts};
use cellector::load_data::load_cell_data;
use cellector::mtx::VartrixDatum;
use cellector::posterior::{
    classify, get_loci_used_for_posterior_calc, included_cells, Assignment,
};

fn obs(locus_index: usize, alt_count: usize, ref_count: usize) -> CellLocusData {
    CellLocusData { locus_index, locus_id: locus_index, alt_count, ref_count, total: alt_count + ref_count }
}

fn cell(cell_id: usize, cell_loci_data: Vec<CellLocusData>) -> CellData {
    CellData { cell_id, barcode: format!("BC{}", cell_id), assignment: "na".to_string(), cell_loci_data }
}

/// Two loci; locus 0 is all reference, locus 1 all alternate, but for cell 2.
fn population() -> (Vec<CellData>, Vec<AlleleCount>) {
    let cells = vec![
        cell(0, vec![obs(0, 0, 10), obs(1, 10, 0)]),
        cell(1, vec![obs(0, 0, 8), obs(1, 9, 0)]),
        cell(2, vec![obs(1, 0, 6)]),
    ];
    let counts = vec![
        AlleleCount { ref_count: 18, alt_count: 0 },
        AlleleCount { ref_count: 6, alt_count: 19 },
    ];
    (cells, counts)
}

#[test]
fn alpha_beta_with_nothing_excluded_is_totals_plus_one() {
    let (cells, counts) = population();
    let ab = init_alpha_betas(&counts, &CellIdSet::new(), &cells);
    assert_eq!(ab, vec![AlphaBeta { alpha: 1, beta: 19 }, AlphaBeta { alpha: 20, beta: 7 }]);
}

#[test]
fn alpha_beta_leaves_out_excluded_cells() {
    let (cells, counts) = population();
    let ab = init_alpha_betas(&counts, &CellIdSet::from_ids(&vec![2]), &cells);
    assert_eq!(ab, vec![AlphaBeta { alpha: 1, beta: 19 }, AlphaBeta { alpha: 20, beta: 1 }]);
}

#[test]
fn alpha_plus_beta_is_totals_plus_two_less_excluded_alleles() {
    let (cells, counts) = population();
    let ab = init_alpha_betas(&counts, &CellIdSet::from_ids(&vec![0, 2]), &cells);
    // cell 0 shows 10 + 10 alleles, cell 2 shows 6 at locus 1
    assert_eq!(ab[0].alpha + ab[0].beta, (0 + 18 + 2) - 10);
    assert_eq!(ab[1].alpha + ab[1].beta, (19 + 6 + 2) - (10 + 6));
}

#[test]
fn alpha_beta_ignores_ids_beyond_the_cells() {
    let (cells, counts) = population();
    let ab = init_alpha_betas(&counts, &CellIdSet::from_ids(&vec![7]), &cells);
    assert_eq!(ab, vec![AlphaBeta { alpha: 1, beta: 19 }, AlphaBeta { alpha: 20, beta: 7 }]);
}

#[test]
fn posterior_loci_need_alleles_on_both_sides() {
    let (cells, counts) = population();
    let excluded = CellIdSet::from_ids(&vec![2]);
    let mask = get_loci_used_for_posterior_calc(5, &vec![true, true], &cells, &excluded, &counts);
    // minority has 0 alleles at locus 0 and 6 at locus 1; majority has 18 and 19
    assert_eq!(mask, vec![false, true]);
    let mask = get_loci_used_for_posterior_calc(7, &vec![true, true], &cells, &excluded, &counts);
    assert_eq!(mask, vec![false, false]);
    let mask = get_loci_used_for_posterior_calc(5, &vec![true, false], &cells, &excluded, &counts);
    assert_eq!(mask, vec![false, false]);
}

#[test]
fn empty_minority_uses_no_locus_for_the_posterior() {
    let (cells, counts) = population();
    let mask = get_loci_used_for_posterior_calc(5, &vec![true, true], &cells, &CellIdSet::new(), &counts);
    assert_eq!(mask, vec![false, false]);
}

#[test]
fn majority_is_the_complement_of_the_minority() {
    let inc = included_cells(4, &CellIdSet::from_ids(&vec![1, 3, 9]));
    assert_eq!(inc.ids_below(10), vec![0, 2]);
    assert_eq!(inc.len(), 2);
}

#[test]
fn classification_prefers_the_minority_test() {
    assert_eq!(classify(true, false), Assignment::Minority);
    assert_eq!(classify(true, true), Assignment::Minority);
    assert_eq!(classify(false, true), Assignment::Majority);
    assert_eq!(classify(false, false), Assignment::Unassigned);
}

#[test]
fn zero_minority_posterior_is_never_a_minority_call() {
    // a posterior of 0 fails the minority test and passes the majority one
    let threshold = 0.999_f64;
    let posterior = 0.0_f64;
    let a = classify(posterior > threshold, 1.0 - posterior > threshold);
    assert_eq!(a, Assignment::Majority);
}

#[test]
fn assignment_labels() {
    assert_eq!(Assignment::Minority.label(), "0");
    assert_eq!(Assignment::Majority.label(), "1");
    assert_eq!(Assignment::Unassigned.label(), "unassigned");
}

#[test]
fn sites_skip_unused_loci_and_count_per_cell() {
    let (cells, _) = population();
    let (sites, per_cell) = likelihood_sites(&vec![false, true], &cells);
    assert_eq!(per_cell, vec![1, 1, 1]);
    let ids: Vec<usize> = sites.iter().map(|s| s.cell_id).collect();
    assert_eq!(ids, vec![0, 1, 2]);
    assert!(sites.iter().all(|s| s.locus_index == 1));
    let (sites, per_cell) = likelihood_sites(&vec![true, true], &cells);
    assert_eq!(sites.len(), 5);
    assert_eq!(per_cell, vec![2, 2, 1]);
}

#[test]
fn cell_without_used_loci_has_no_sites() {
    let (cells, _) = population();
    let (_, per_cell) = likelihood_sites(&vec![true, false], &cells);
    assert_eq!(per_cell, vec![1, 1, 0]);
}

#[test]
fn partition_counts_split_sites_by_minority() {
    let (cells, _) = population();
    let (sites, _) = likelihood_sites(&vec![true, true], &cells);
    let p = locus_partition_counts(&sites, &CellIdSet::from_ids(&vec![2]), 2);
    assert_eq!(p[0].minority_cells, 0);
    assert_eq!(p[0].majority_cells, 2);
    assert_eq!(p[0].majority_ref, 18);
    assert_eq!(p[1].minority_cells, 1);
    assert_eq!(p[1].minority_ref, 6);
    assert_eq!(p[1].minority_alt, 0);
    assert_eq!(p[1].majority_cells, 2);
    assert_eq!(p[1].majority_alt, 19);
}

#[test]
fn aggregate_pattern_scenario_loads_the_odd_cell_at_one_locus() {
    // locus 0: reference only; locus 1: alternate only; cell 4 shows 50 alternate reads at locus 1
    let mut data = Vec::new();
    for c in 0..4 {
        data.push(VartrixDatum { locus: 0, cell_id: c, alt_count: 0, ref_count: 25 });
        data.push(VartrixDatum { locus: 1, cell_id: c, alt_count: 25, ref_count: 0 });
    }
    data.push(VartrixDatum { locus: 1, cell_id: 4, alt_count: 50, ref_count: 0 });
    let barcodes: Vec<String> = (0..5).map(|c| format!("BC{}", c)).collect();
    let gt: Vec<String> = (0..5).map(|_| "na".to_string()).collect();
    let (loci_used, _, cells, counts) = load_cell_data(&data, 2, 5, 0, 0, &barcodes, &gt).unwrap();
    assert_eq!(counts[0], AlleleCount { ref_count: 100, alt_count: 0 });
    assert_eq!(counts[1], AlleleCount { ref_count: 0, alt_count: 150 });
    let (_, per_cell) = likelihood_sites(&loci_used, &cells);
    assert_eq!(per_cell, vec![2, 2, 2, 2, 1]);
}
