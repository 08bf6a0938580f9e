use cellector::cell_set::CellIdSet;
use cellector::combiner::{
    get_locus_mapping, output_cell_ids, read_mtx_lines, rename_barcode, select_cells, select_cells_by_barcode,
};
use cellector::id_map::{IdMap, LocusTable};
use cellector::load_data::{load_mtx_final, LoadError};
use cellector::mtx::{MtxError, VartrixDatum};
use cellector::vcf::{load_vcf_data, vcf_keys, VcfError};

fn lines(v: &[&str]) -> Vec<String> {
    v.iter().map(|s| s.to_string()).collect()
}

#[test]
fn vcf_records_skip_headers_and_keep_five_fields() {
    let v = load_vcf_data(&lines(&[
        "##fileformat=VCFv4.2",
        "#CHROM\tPOS\tID\tREF\tALT",
        "chr1\t100\t.\tA\tG\t50\tPASS",
        "chr2\t7\trs1\tC\tT",
    ]))
    .unwrap();
    assert_eq!(v.len(), 2);
    assert_eq!(v[0].locus_index, 0);
    assert_eq!(v[0].chrom, "chr1");
    assert_eq!(v[0].pos, "100");
    assert_eq!(v[0].ref_allele, "A");
    assert_eq!(v[0].alt_allele, "G");
    assert_eq!(v[1].locus_index, 1);
    assert_eq!(v[1].chrom, "chr2");
    assert_eq!(v[1].alt_allele, "T");
}

#[test]
fn vcf_fields_may_hold_non_ascii_text() {
    let v = load_vcf_data(&lines(&["chré\t5\tid\tA\tC\tinfo=ü"])).unwrap();
    assert_eq!(v[0].chrom, "chré");
    assert_eq!(v[0].pos, "5");
    assert_eq!(v[0].alt_allele, "C");
}

#[test]
fn vcf_line_with_four_fields_is_rejected() {
    assert!(load_vcf_data(&lines(&["chr1\t100\t.\tA"])).is_err());
    assert!(load_vcf_data(&lines(&[""])).is_err());
}

#[test]
fn vcf_keys_read_numeric_positions() {
    let k = vcf_keys(&lines(&["#h", "chr1\t100\t.\tA\tG", "chrX\t5"])).unwrap();
    assert_eq!(k, vec![("chr1".to_string(), 100), ("chrX".to_string(), 5)]);
}

#[test]
fn vcf_key_errors() {
    assert_eq!(vcf_keys(&lines(&["chr1"])), Err(VcfError::MissingField));
    assert_eq!(vcf_keys(&lines(&["chr1\tx12"])), Err(VcfError::BadPosition));
    assert_eq!(vcf_keys(&lines(&["chr1\t1", "chr1\tx", "chr2"])), Err(VcfError::BadPosition));
}

#[test]
fn locus_mapping_reuses_shared_positions_and_numbers_new_ones_after() {
    let keys1 = vec![("chr1".to_string(), 10), ("chr1".to_string(), 20), ("chr2".to_string(), 5)];
    let keys2 = vec![("chr2".to_string(), 5), ("chr3".to_string(), 1), ("chr1".to_string(), 10), ("chr4".to_string(), 9)];
    let (m, total) = get_locus_mapping(&keys1, &keys2);
    assert_eq!(m.get(1), Some(3));
    assert_eq!(m.get(2), Some(4));
    assert_eq!(m.get(3), Some(1));
    assert_eq!(m.get(4), Some(5));
    assert_eq!(m.get(5), None);
    assert_eq!(total, 5);
}

#[test]
fn locus_mapping_with_no_second_file() {
    let keys1 = vec![("chr1".to_string(), 10)];
    let (m, total) = get_locus_mapping(&keys1, &vec![]);
    assert_eq!(m.get(1), None);
    assert_eq!(total, 1);
}

#[test]
fn output_cells_are_numbered_first_then_second() {
    let (m1, m2) = output_cell_ids(&vec![7, 2], &vec![4, 1, 9]);
    assert_eq!(m1.get(7), Some(1));
    assert_eq!(m1.get(2), Some(2));
    assert_eq!(m1.get(4), None);
    assert_eq!(m2.get(4), Some(3));
    assert_eq!(m2.get(1), Some(4));
    assert_eq!(m2.get(9), Some(5));
}

#[test]
fn second_experiment_barcodes_end_in_two() {
    assert_eq!(rename_barcode(&"AAACCTG-1".to_string()), "AAACCTG-2");
    assert_eq!(rename_barcode(&"".to_string()), "2");
    assert_eq!(rename_barcode(&"Bé".to_string()), "B2");
}

#[test]
fn cells_are_chosen_by_barcode_mask() {
    let b2 = lines(&["A-1", "B-1", "C-1", "D-1"]);
    let mask = lines(&["D-1", "B-1", "Z-1"]);
    assert_eq!(select_cells_by_barcode(&b2, &mask), vec![2, 4]);
    assert_eq!(select_cells_by_barcode(&b2, &vec![]), Vec::<usize>::new());
}

#[test]
fn random_cell_choice_is_distinct_in_range_and_reproducible() {
    let a = select_cells(4, 10, 50);
    assert_eq!(a.len(), 10);
    assert!(a.iter().all(|c| *c >= 1 && *c <= 50));
    let mut sorted = a.clone();
    sorted.sort();
    sorted.dedup();
    assert_eq!(sorted.len(), 10);
    assert_eq!(select_cells(4, 10, 50), a);
    let mut all = select_cells(9, 5, 5);
    all.sort();
    assert_eq!(all, vec![1, 2, 3, 4, 5]);
}

#[test]
fn mixture_entries_keep_one_based_indices() {
    let d = read_mtx_lines("1 2 3".to_string(), "1 2 4".to_string()).unwrap();
    assert_eq!(d, VartrixDatum { locus: 1, cell_id: 2, alt_count: 3, ref_count: 4 });
    let z = read_mtx_lines("0 0 3".to_string(), "0 0 4".to_string()).unwrap();
    assert_eq!(z, VartrixDatum { locus: 0, cell_id: 0, alt_count: 3, ref_count: 4 });
    assert_eq!(read_mtx_lines("1 2".to_string(), "1 2 4".to_string()), Err(MtxError::Malformed));
}

#[test]
fn id_map_and_locus_table_replace_values() {
    let mut m = IdMap::new();
    m.insert(3, 30);
    m.insert(3, 31);
    assert_eq!(m.get(3), Some(31));
    let mut t = LocusTable::new();
    t.insert("chr1".to_string(), 5, 1);
    t.insert("chr1".to_string(), 5, 2);
    assert_eq!(t.get(&"chr1".to_string(), 5), Some(2));
    assert_eq!(t.get(&"chr1".to_string(), 6), None);
}

fn datum(locus: usize, cell_id: usize, alt_count: usize, ref_count: usize) -> VartrixDatum {
    VartrixDatum { locus, cell_id, alt_count, ref_count }
}

#[test]
fn final_totals_split_by_minority() {
    let data = vec![datum(0, 0, 1, 2), datum(0, 1, 3, 4), datum(1, 1, 5, 6), datum(1, 2, 7, 8)];
    let (minority, majority) = load_mtx_final(&data, 2, &CellIdSet::from_ids(&vec![1])).unwrap();
    assert_eq!((minority[0].alt_count, minority[0].ref_count), (3, 4));
    assert_eq!((minority[1].alt_count, minority[1].ref_count), (5, 6));
    assert_eq!((majority[0].alt_count, majority[0].ref_count), (1, 2));
    assert_eq!((majority[1].alt_count, majority[1].ref_count), (7, 8));
}

#[test]
fn final_totals_reject_bad_locus_and_overflow() {
    let r = load_mtx_final(&vec![datum(2, 0, 1, 1)], 2, &CellIdSet::new());
    assert_eq!(r.err(), Some(LoadError::LocusOutOfRange));
    let big = usize::MAX;
    let r = load_mtx_final(&vec![datum(0, 0, big, 0), datum(0, 0, big, 0), datum(0, 0, 2, 0)], 1, &CellIdSet::new());
    assert_eq!(r.err(), Some(LoadError::CountOverflow));
}

#[test]
fn cell_set_from_ids_ignores_repeats() {
    let s = CellIdSet::from_ids(&vec![4, 1, 4]);
    assert_eq!(s.len(), 2);
    assert!(s.contains(4));
    assert!(!s.contains(0));
}
