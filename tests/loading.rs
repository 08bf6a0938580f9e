use cellector::load_data::{get_loci_used, load_cell_data, LoadError};
use cellector::mtx::VartrixDatum;
use cellector::likelihood::likelihood_sites;

fn datum(locus: usize, cell_id: usize, alt_count: usize, ref_count: usize) -> VartrixDatum {
    VartrixDatum { locus, cell_id, alt_count, ref_count }
}

fn labels(n: usize) -> (Vec<String>, Vec<String>) {
    let barcodes = (0..n).map(|c| format!("BC{}", c)).collect();
    let gt = (0..n).map(|_| "na".to_string()).collect();
    (barcodes, gt)
}

/// Locus 0: three cells show the alternate allele, four the reference.
/// Locus 1: four cells show each allele.
fn three_alt_cells_scenario() -> Vec<VartrixDatum> {
    vec![
        datum(0, 0, 1, 1),
        datum(0, 1, 1, 1),
        datum(0, 2, 1, 1),
        datum(0, 3, 0, 1),
        datum(1, 0, 2, 1),
        datum(1, 1, 2, 1),
        datum(1, 2, 2, 1),
        datum(1, 3, 2, 1),
    ]
}

#[test]
fn locus_with_three_alt_cells_is_not_used() {
    let (n, used, index) = get_loci_used(&three_alt_cells_scenario(), 2, 4, 4).unwrap();
    assert_eq!(n, 1);
    assert_eq!(used, vec![false, true]);
    assert_eq!(index, vec![usize::MAX, 0]);
}

#[test]
fn locus_with_three_alt_cells_never_enters_a_likelihood() {
    let data = three_alt_cells_scenario();
    let (barcodes, gt) = labels(4);
    let (loci_used, ids, cells, counts) = load_cell_data(&data, 2, 4, 4, 4, &barcodes, &gt).unwrap();
    assert_eq!(loci_used, vec![true]);
    assert_eq!(ids, vec![1]);
    for cell in &cells {
        assert!(cell.cell_loci_data.iter().all(|o| o.locus_id == 1 && o.locus_index == 0));
    }
    assert_eq!(counts.len(), 1);
    assert_eq!(counts[0].alt_count, 8);
    assert_eq!(counts[0].ref_count, 4);
    let (sites, per_cell) = likelihood_sites(&loci_used, &cells);
    assert_eq!(sites.len(), 4);
    assert!(sites.iter().all(|s| s.locus_index == 0));
    assert_eq!(per_cell, vec![1, 1, 1, 1]);
}

#[test]
fn thresholds_of_zero_keep_every_locus() {
    let (n, used, index) = get_loci_used(&vec![datum(0, 0, 0, 0)], 3, 0, 0).unwrap();
    assert_eq!(n, 3);
    assert_eq!(used, vec![true, true, true]);
    assert_eq!(index, vec![0, 1, 2]);
}

#[test]
fn locus_beyond_header_is_rejected() {
    assert_eq!(get_loci_used(&vec![datum(2, 0, 1, 1)], 2, 0, 0), Err(LoadError::LocusOutOfRange));
}

#[test]
fn cell_records_follow_file_order_and_renumber_loci() {
    let data = vec![datum(2, 1, 3, 4), datum(0, 1, 5, 0), datum(2, 0, 0, 9), datum(1, 0, 1, 1)];
    let (barcodes, gt) = labels(2);
    let (loci_used, ids, cells, counts) = load_cell_data(&data, 3, 2, 0, 0, &barcodes, &gt).unwrap();
    assert_eq!(loci_used, vec![true, true, true]);
    assert_eq!(ids, vec![0, 1, 2]);
    assert_eq!(cells[0].cell_id, 0);
    assert_eq!(cells[1].barcode, "BC1");
    assert_eq!(cells[1].assignment, "na");
    let loci_of_cell1: Vec<usize> = cells[1].cell_loci_data.iter().map(|o| o.locus_index).collect();
    assert_eq!(loci_of_cell1, vec![2, 0]);
    assert_eq!(cells[1].cell_loci_data[0].total, 7);
    assert_eq!(counts[2].alt_count, 3);
    assert_eq!(counts[2].ref_count, 13);
    assert_eq!(counts[0].alt_count, 5);
}

#[test]
fn missing_barcodes_are_rejected() {
    let (barcodes, gt) = labels(1);
    let r = load_cell_data(&vec![datum(0, 0, 1, 1)], 1, 2, 0, 0, &barcodes, &gt);
    assert_eq!(r.err(), Some(LoadError::MissingCellLabels));
}

#[test]
fn cell_beyond_header_is_rejected() {
    let (barcodes, gt) = labels(2);
    let r = load_cell_data(&vec![datum(0, 2, 1, 1)], 1, 2, 0, 0, &barcodes, &gt);
    assert_eq!(r.err(), Some(LoadError::CellOutOfRange));
}

#[test]
fn locus_beyond_header_is_rejected_at_load() {
    let (barcodes, gt) = labels(2);
    let r = load_cell_data(&vec![datum(1, 0, 1, 1)], 1, 2, 0, 0, &barcodes, &gt);
    assert_eq!(r.err(), Some(LoadError::LocusOutOfRange));
}

#[test]
fn entry_whose_counts_do_not_add_up_is_rejected() {
    let (barcodes, gt) = labels(1);
    let r = load_cell_data(&vec![datum(0, 0, usize::MAX, 1)], 1, 1, 0, 0, &barcodes, &gt);
    assert_eq!(r.err(), Some(LoadError::CountOverflow));
}

use cellector::labels::{load_barcodes, load_ground_truth, LabelError};

fn text(v: &[&str]) -> Vec<String> {
    v.iter().map(|s| s.to_string()).collect()
}

#[test]
fn barcodes_are_indexed_by_line() {
    let (barcodes, index) = load_barcodes(&text(&["AAA-1", "CCC-1", "GGG-1"]));
    assert_eq!(barcodes, text(&["AAA-1", "CCC-1", "GGG-1"]));
    assert_eq!(index.get(&"CCC-1".to_string()), Some(1));
    assert_eq!(index.get(&"TTT-1".to_string()), None);
}

#[test]
fn repeated_barcode_keeps_its_last_line() {
    let (_, index) = load_barcodes(&text(&["AAA-1", "CCC-1", "AAA-1"]));
    assert_eq!(index.get(&"AAA-1".to_string()), Some(2));
}

#[test]
fn labels_default_to_na_and_later_lines_win() {
    let (barcodes, index) = load_barcodes(&text(&["AAA-1", "CCC-1", "GGG-1"]));
    let labels = load_ground_truth(
        &text(&["CCC-1\tdonor1", "XXX-1\tdonor9", "CCC-1\tdonor2", "AAA-1\tdoublet"]),
        &index,
        barcodes.len(),
    )
    .unwrap();
    assert_eq!(labels, text(&["doublet", "donor2", "na"]));
}

#[test]
fn label_line_needs_exactly_two_columns() {
    let (barcodes, index) = load_barcodes(&text(&["AAA-1"]));
    let r = load_ground_truth(&text(&["AAA-1\tx\ty"]), &index, barcodes.len());
    assert_eq!(r, Err(LabelError::InvalidLine));
    let r = load_ground_truth(&text(&["AAA-1 x"]), &index, barcodes.len());
    assert_eq!(r, Err(LabelError::InvalidLine));
    let r = load_ground_truth(&text(&["AAA-1\t"]), &index, barcodes.len());
    assert_eq!(r, Ok(text(&[""])));
}
