use cellector::mtx::{consume_mtx_header, read_mtx_lines, MtxError, VartrixDatum};

#[test]
fn reads_entry_and_shifts_indices_to_zero_based() {
    let d = read_mtx_lines("3 5 7".to_string(), "3 5 2".to_string()).unwrap();
    assert_eq!(d, VartrixDatum { locus: 2, cell_id: 4, alt_count: 7, ref_count: 2 });
}

#[test]
fn reads_tab_separated_entry_with_surrounding_blanks() {
    let d = read_mtx_lines("  10\t1\t0\n".to_string(), "10\t1\t12\r\n".to_string()).unwrap();
    assert_eq!(d, VartrixDatum { locus: 9, cell_id: 0, alt_count: 0, ref_count: 12 });
}

#[test]
fn zero_locus_index_is_rejected() {
    assert_eq!(read_mtx_lines("0 5 7".to_string(), "0 5 2".to_string()), Err(MtxError::ZeroIndex));
}

#[test]
fn zero_cell_index_is_rejected() {
    assert_eq!(read_mtx_lines("4 0 7".to_string(), "4 0 2".to_string()), Err(MtxError::ZeroIndex));
}

#[test]
fn missing_count_field_is_malformed() {
    assert_eq!(read_mtx_lines("3 5".to_string(), "3 5 2".to_string()), Err(MtxError::Malformed));
    assert_eq!(read_mtx_lines("3 5 7".to_string(), "3 5".to_string()), Err(MtxError::Malformed));
}

#[test]
fn non_digit_field_is_malformed() {
    assert_eq!(read_mtx_lines("3 5 x7".to_string(), "3 5 2".to_string()), Err(MtxError::Malformed));
    assert_eq!(read_mtx_lines("3 -5 7".to_string(), "3 5 2".to_string()), Err(MtxError::Malformed));
}

#[test]
fn number_beyond_usize_is_malformed() {
    let big = "1 1 999999999999999999999999999".to_string();
    assert_eq!(read_mtx_lines(big, "1 1 1".to_string()), Err(MtxError::Malformed));
}

#[test]
fn largest_usize_is_read() {
    let line = format!("1 1 {}", usize::MAX);
    let d = read_mtx_lines(line, "1 1 0".to_string()).unwrap();
    assert_eq!(d.alt_count, usize::MAX);
}

#[test]
fn header_size_line_gives_loci_then_cells() {
    assert_eq!(consume_mtx_header(&"120\t3000\t45000".to_string()), Ok((120, 3000)));
}

#[test]
fn header_size_line_without_cells_is_malformed() {
    assert_eq!(consume_mtx_header(&"120".to_string()), Err(MtxError::Malformed));
    assert_eq!(consume_mtx_header(&"".to_string()), Err(MtxError::Malformed));
}
