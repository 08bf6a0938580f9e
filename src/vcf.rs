//! Locus metadata from the data lines of a VCF file: tab-separated fields,
//! of which the chromosome (field 0), position (1), reference allele (3) and
//! alternate allele (4) are kept. Lines that start with '#' are headers.
use vstd::prelude::*;
use vstd::utf8::{
    encode_utf8, encode_utf8_valid_utf8, is_char_boundary, is_char_boundary_iff_not_is_continuation_byte,
    is_char_boundary_start_end_of_seq, length_of_first_scalar, pop_first_scalar, valid_utf8,
};
use vstd::string::StringSliceAdditionalSpecFns;
use crate::mtx::{all_digits, decimal_value, parse_decimal};

verus! {

/// One locus of a VCF file, numbered by its place among the data lines.
pub struct VcfLocusData {
    pub locus_index: usize,
    pub chrom: String,
    pub pos: String,
    pub ref_allele: String,
    pub alt_allele: String,
}

/// Why a VCF file cannot be read.
#[derive(Debug, Clone, Copy, PartialEq, Eq, Structural)]
pub enum VcfError {
    /// A data line has fewer tab-separated fields than needed.
    MissingField,
    /// A position is not a run of decimal digits within `usize`.
    BadPosition,
}

/// First index at or after `i` holding a tab (or the end).
pub open spec fn next_tab(b: Seq<u8>, i: int) -> int
    decreases b.len() - i,
{
    if 0 <= i < b.len() && b[i] != 9 {
        next_tab(b, i + 1)
    } else {
        i
    }
}

/// Where the `k`-th tab-separated field starts.
pub open spec fn tab_start(b: Seq<u8>, k: nat) -> int
    decreases k,
{
    if k == 0 {
        0
    } else {
        next_tab(b, tab_start(b, (k - 1) as nat)) + 1
    }
}

pub open spec fn has_tab_field(b: Seq<u8>, k: nat) -> bool {
    tab_start(b, k) <= b.len()
}

/// The bytes of the `k`-th tab-separated field.
pub open spec fn tab_field(b: Seq<u8>, k: nat) -> Seq<u8> {
    b.subrange(tab_start(b, k), next_tab(b, tab_start(b, k)))
}

pub open spec fn is_header_line(b: Seq<u8>) -> bool {
    b.len() > 0 && b[0] == 35
}

/// The bytes of the data (non-header) lines, in order.
pub open spec fn data_lines(lines: Seq<String>) -> Seq<Seq<u8>>
    decreases lines.len(),
{
    if lines.len() == 0 {
        Seq::empty()
    } else {
        let b = encode_utf8(lines.last()@);
        data_lines(lines.drop_last()) + if is_header_line(b) {
            Seq::<Seq<u8>>::empty()
        } else {
            seq![b]
        }
    }
}

proof fn lemma_next_tab_bounds(b: Seq<u8>, i: int)
    requires
        0 <= i <= b.len(),
    ensures
        i <= next_tab(b, i) <= b.len(),
        next_tab(b, i) < b.len() ==> b[next_tab(b, i)] == 9,
    decreases b.len() - i,
{
    if i < b.len() && b[i] != 9 {
        lemma_next_tab_bounds(b, i + 1);
    }
}

fn next_tab_from(b: &[u8], i: usize) -> (j: usize)
    requires
        i <= b@.len(),
    ensures
        j == next_tab(b@, i as int),
        i <= j <= b@.len(),
{
    let mut j: usize = i;
    while j < b.len() && b[j] != 9
        invariant
            i <= j <= b@.len(),
            next_tab(b@, i as int) == next_tab(b@, j as int),
        decreases b@.len() - j,
    {
        j = j + 1;
    }
    j
}

/// Bounds of the `k`-th tab-separated field of `b`, if it has one.
pub(crate) fn tab_field_bounds(b: &[u8], k: usize) -> (r: Option<(usize, usize)>)
    ensures
        r is Some <==> has_tab_field(b@, k as nat),
        r matches Some((s, e)) ==> s == tab_start(b@, k as nat) && e == next_tab(b@, s as int) && s
            <= e <= b@.len(),
{
    let mut start: usize = 0;
    let mut m: usize = 0;
    while m < k
        invariant
            m <= k,
            start as int == tab_start(b@, m as nat),
            start <= b@.len(),
        decreases k - m,
    {
        let e = next_tab_from(b, start);
        if e >= b.len() {
            proof {
                assert(tab_start(b@, (m + 1) as nat) == b@.len() + 1);
                lemma_tab_start_grows(b@, (m + 1) as nat, k as nat);
            }
            return None;
        }
        start = e + 1;
        m = m + 1;
    }
    let end = next_tab_from(b, start);
    Some((start, end))
}

/// Once past the end, later fields start past the end too.
proof fn lemma_tab_start_grows(b: Seq<u8>, m: nat, k: nat)
    requires
        m <= k,
        tab_start(b, m) > b.len(),
    ensures
        tab_start(b, k) > b.len(),
    decreases k - m,
{
    if m < k {
        lemma_tab_start_grows(b, m, (k - 1) as nat);
        assert(next_tab(b, tab_start(b, (k - 1) as nat)) == tab_start(b, (k - 1) as nat));
    }
}

/// In valid UTF-8 the byte after an ASCII character starts a character.
proof fn lemma_boundary_after_ascii(b: Seq<u8>, i: int)
    requires
        valid_utf8(b),
        0 <= i < b.len(),
        is_char_boundary(b, i),
        b[i] < 128,
    ensures
        is_char_boundary(b, i + 1),
    decreases b.len(),
{
    let w = length_of_first_scalar(b);
    let p = pop_first_scalar(b);
    if i == 0 {
        assert(w == 1);
        assert(is_char_boundary(p, 0));
    } else {
        assert(is_char_boundary(p, i - w));
        assert(p[i - w] == b[i]);
        lemma_boundary_after_ascii(p, i - w);
    }
}

/// The text of `line` between the byte positions `s` and `e`, both of which
/// border a tab or an end of the line.
fn slice_field(line: &str, s: usize, e: usize) -> (r: String)
    requires
        s <= e <= line.spec_bytes().len(),
        s == 0 || line.spec_bytes()[s - 1] == 9,
        e == line.spec_bytes().len() || line.spec_bytes()[e as int] == 9,
    ensures
        encode_utf8(r@) == line.spec_bytes().subrange(s as int, e as int),
{
    let ghost b = line.spec_bytes();
    proof {
        encode_utf8_valid_utf8(line@);
        is_char_boundary_start_end_of_seq(b);
        if s > 0 {
            is_char_boundary_iff_not_is_continuation_byte(b, s - 1);
            lemma_boundary_after_ascii(b, s - 1);
        }
    }
    let (_, rest) = line.split_at(s);
    let ghost rb = rest.spec_bytes();
    proof {
        assert(rb == b.subrange(s as int, b.len() as int));
        encode_utf8_valid_utf8(rest@);
        is_char_boundary_start_end_of_seq(rb);
        if e - s < rb.len() {
            assert(rb[e - s] == b[e as int]);
            is_char_boundary_iff_not_is_continuation_byte(rb, e - s);
        }
    }
    let (field, _) = rest.split_at(e - s);
    proof {
        assert(field.spec_bytes() =~= b.subrange(s as int, e as int));
    }
    field.to_owned()
}

/// The `k`-th tab-separated field of `line`, if it has one.
pub(crate) fn tab_field_string(line: &str, k: usize) -> (r: Option<String>)
    ensures
        r is Some <==> has_tab_field(line.spec_bytes(), k as nat),
        r matches Some(f) ==> encode_utf8(f@) == tab_field(line.spec_bytes(), k as nat),
{
    let b = line.as_bytes();
    match tab_field_bounds(b, k) {
        None => None,
        Some((s, e)) => {
            proof {
                lemma_next_tab_bounds(b@, s as int);
                if s > 0 {
                    lemma_tab_start_prev_tab(b@, k as nat);
                }
            }
            Some(slice_field(line, s, e))
        },
    }
}

/// A field that starts after the first is preceded by a tab.
proof fn lemma_tab_start_prev_tab(b: Seq<u8>, k: nat)
    requires
        0 < tab_start(b, k) <= b.len(),
    ensures
        b[tab_start(b, k) - 1] == 9,
{
    if k == 0 {
    } else {
        let p = tab_start(b, (k - 1) as nat);
        lemma_tab_start_nonneg(b, (k - 1) as nat);
        lemma_next_tab_bounds(b, p);
    }
}

proof fn lemma_tab_start_nonneg(b: Seq<u8>, k: nat)
    ensures
        0 <= tab_start(b, k),
        tab_start(b, k) <= b.len() ==> forall|m: nat| m <= k ==> tab_start(b, m) <= b.len(),
    decreases k,
{
    if k > 0 {
        let p = tab_start(b, (k - 1) as nat);
        lemma_tab_start_nonneg(b, (k - 1) as nat);
        if p <= b.len() {
            lemma_next_tab_bounds(b, p);
        } else {
            assert(next_tab(b, p) == p);
        }
    }
}

/// What a data line must give: five fields, kept as they stand.
pub open spec fn vcf_record_matches(r: VcfLocusData, b: Seq<u8>, index: int) -> bool {
    &&& r.locus_index == index
    &&& encode_utf8(r.chrom@) == tab_field(b, 0)
    &&& encode_utf8(r.pos@) == tab_field(b, 1)
    &&& encode_utf8(r.ref_allele@) == tab_field(b, 3)
    &&& encode_utf8(r.alt_allele@) == tab_field(b, 4)
}

/// Reads the loci of a VCF file from its lines: one record per data line,
/// numbered from 0. Fails if a data line has fewer than five fields.
pub fn load_vcf_data(lines: &Vec<String>) -> (r: Result<Vec<VcfLocusData>, VcfError>)
    ensures
        r is Ok <==> forall|i: int|
            0 <= i < data_lines(lines@).len() ==> has_tab_field(#[trigger] data_lines(lines@)[i], 4),
        r matches Err(e) ==> e == VcfError::MissingField,
        r matches Ok(v) ==> v@.len() == data_lines(lines@).len() && forall|i: int|
            0 <= i < v@.len() ==> vcf_record_matches(#[trigger] v@[i], data_lines(lines@)[i], i),
{
    let ghost ls = lines@;
    let mut v: Vec<VcfLocusData> = Vec::new();
    let mut i: usize = 0;
    while i < lines.len()
        invariant
            i <= ls.len(),
            ls == lines@,
            v@.len() == data_lines(ls.subrange(0, i as int)).len(),
            forall|k: int|
                0 <= k < v@.len() ==> vcf_record_matches(
                    #[trigger] v@[k],
                    data_lines(ls.subrange(0, i as int))[k],
                    k,
                ),
            forall|k: int|
                0 <= k < data_lines(ls.subrange(0, i as int)).len() ==> has_tab_field(
                    #[trigger] data_lines(ls.subrange(0, i as int))[k],
                    4,
                ),
        decreases ls.len() - i,
    {
        let line = lines[i].as_str();
        let ghost b = line.spec_bytes();
        let ghost p = ls.subrange(0, i as int);
        let ghost q = ls.subrange(0, i + 1);
        proof {
            assert(q.drop_last() =~= p);
            assert(q.last() == lines@[i as int]);
            assert(b == encode_utf8(lines@[i as int]@));
        }
        let bytes = line.as_bytes();
        let header = bytes.len() > 0 && bytes[0] == 35;
        if !header {
            let f4 = tab_field_string(line, 4);
            if f4.is_none() {
                proof {
                    assert(data_lines(q)[data_lines(p).len() as int] == b);
                    lemma_data_lines_prefix(ls, i + 1);
                }
                return Err(VcfError::MissingField);
            }
            proof {
                lemma_fields_before(b, 4);
            }
            let chrom = tab_field_string(line, 0).unwrap();
            let pos = tab_field_string(line, 1).unwrap();
            let ref_allele = tab_field_string(line, 3).unwrap();
            let alt_allele = f4.unwrap();
            let rec = VcfLocusData { locus_index: v.len(), chrom, pos, ref_allele, alt_allele };
            v.push(rec);
            proof {
                assert(data_lines(q) == data_lines(p) + seq![b]);
                assert forall|k: int| 0 <= k < v@.len() implies vcf_record_matches(
                    #[trigger] v@[k],
                    data_lines(q)[k],
                    k,
                ) by {
                    if k < v@.len() - 1 {
                        assert(data_lines(q)[k] == data_lines(p)[k]);
                    }
                }
            }
        } else {
            assert(data_lines(q) =~= data_lines(p));
        }
        i = i + 1;
    }
    assert(ls.subrange(0, ls.len() as int) =~= ls);
    Ok(v)
}

/// The data lines of a prefix come first among those of the whole file.
proof fn lemma_data_lines_prefix(ls: Seq<String>, n: int)
    requires
        0 <= n <= ls.len(),
    ensures
        data_lines(ls.subrange(0, n)).len() <= data_lines(ls).len(),
        forall|k: int|
            0 <= k < data_lines(ls.subrange(0, n)).len() ==> #[trigger] data_lines(ls.subrange(0, n))[k]
                == data_lines(ls)[k],
    decreases ls.len() - n,
{
    if n < ls.len() {
        let p = ls.subrange(0, n);
        let q = ls.subrange(0, n + 1);
        assert(q.drop_last() =~= p);
        lemma_data_lines_prefix(ls, n + 1);
        assert forall|k: int| 0 <= k < data_lines(p).len() implies #[trigger] data_lines(p)[k]
            == data_lines(ls)[k] by {
            assert(data_lines(q)[k] == data_lines(p)[k]);
        }
    } else {
        assert(ls.subrange(0, n) =~= ls);
    }
}

/// A line with a `k`-th field has every earlier field.
pub(crate) proof fn lemma_fields_before(b: Seq<u8>, k: nat)
    requires
        has_tab_field(b, k),
    ensures
        forall|m: nat| m <= k ==> #[trigger] has_tab_field(b, m),
{
    lemma_tab_start_nonneg(b, k);
}

/// Chromosome and numeric position of one data line.
pub open spec fn vcf_key(b: Seq<u8>) -> Option<(Seq<u8>, nat)> {
    if has_tab_field(b, 1) && all_digits(tab_field(b, 1)) && decimal_value(tab_field(b, 1))
        <= usize::MAX {
        Some((tab_field(b, 0), decimal_value(tab_field(b, 1))))
    } else {
        None
    }
}

/// Reads chromosome and position (as a number) of every data line.
pub fn vcf_keys(lines: &Vec<String>) -> (r: Result<Vec<(String, usize)>, VcfError>)
    ensures
        r is Ok <==> forall|i: int|
            0 <= i < data_lines(lines@).len() ==> #[trigger] vcf_key(data_lines(lines@)[i]) is Some,
        r matches Err(e) ==> exists|i: int|
            0 <= i < data_lines(lines@).len() && #[trigger] vcf_key(data_lines(lines@)[i]) is None
                && (forall|k: int| 0 <= k < i ==> #[trigger] vcf_key(data_lines(lines@)[k]) is Some)
                && (e == VcfError::MissingField <==> !has_tab_field(data_lines(lines@)[i], 1)),
        r matches Ok(v) ==> v@.len() == data_lines(lines@).len() && forall|i: int|
            0 <= i < v@.len() ==> vcf_key(#[trigger] data_lines(lines@)[i]) == Some(
                (encode_utf8(v@[i].0@), v@[i].1 as nat),
            ),
{
    let ghost ls = lines@;
    let mut v: Vec<(String, usize)> = Vec::new();
    let mut i: usize = 0;
    while i < lines.len()
        invariant
            i <= ls.len(),
            ls == lines@,
            v@.len() == data_lines(ls.subrange(0, i as int)).len(),
            forall|k: int|
                0 <= k < v@.len() ==> vcf_key(#[trigger] data_lines(ls.subrange(0, i as int))[k])
                    == Some((encode_utf8(v@[k].0@), v@[k].1 as nat)),
        decreases ls.len() - i,
    {
        let line = lines[i].as_str();
        let ghost b = line.spec_bytes();
        let ghost p = ls.subrange(0, i as int);
        let ghost q = ls.subrange(0, i + 1);
        proof {
            assert(q.drop_last() =~= p);
            assert(q.last() == lines@[i as int]);
            assert(b == encode_utf8(lines@[i as int]@));
        }
        let bytes = line.as_bytes();
        let header = bytes.len() > 0 && bytes[0] == 35;
        if !header {
            proof {
                assert(data_lines(q) == data_lines(p) + seq![b]);
                assert(data_lines(q)[data_lines(p).len() as int] == b);
                lemma_data_lines_prefix(ls, i + 1);
            }
            let pos_bounds = tab_field_bounds(bytes, 1);
            if pos_bounds.is_none() {
                proof {
                    lemma_key_errors_missing_field(ls, i as int, data_lines(p).len() as int);
                    lemma_earlier_keys(ls, i as int, data_lines(p).len() as int);
                    assert(vcf_key(data_lines(ls)[data_lines(p).len() as int]) is None);
                }
                return Err(VcfError::MissingField);
            }
            let (s, e) = pos_bounds.unwrap();
            proof {
                lemma_next_tab_bounds(bytes@, s as int);
            }
            let pos = match parse_decimal(bytes, s, e) {
                Some(x) => x,
                None => {
                    proof {
                        lemma_key_errors_missing_field(ls, i as int, data_lines(p).len() as int);
                        lemma_earlier_keys(ls, i as int, data_lines(p).len() as int);
                        assert(vcf_key(data_lines(ls)[data_lines(p).len() as int]) is None);
                    }
                    return Err(VcfError::BadPosition);
                },
            };
            proof {
                lemma_fields_before(b, 1);
            }
            let chrom = tab_field_string(line, 0).unwrap();
            v.push((chrom, pos));
            proof {
                assert forall|k: int| 0 <= k < v@.len() implies vcf_key(
                    #[trigger] data_lines(q)[k],
                ) == Some((encode_utf8(v@[k].0@), v@[k].1 as nat)) by {
                    if k < v@.len() - 1 {
                        assert(data_lines(q)[k] == data_lines(p)[k]);
                    }
                }
            }
        } else {
            assert(data_lines(q) =~= data_lines(p));
        }
        i = i + 1;
    }
    assert(ls.subrange(0, ls.len() as int) =~= ls);
    Ok(v)
}

/// When line `i` is the `j`-th data line and the lines before it all give a
/// key, a missing field anywhere among the data lines is that of line `i`.
proof fn lemma_key_errors_missing_field(ls: Seq<String>, i: int, j: int)
    requires
        0 <= i < ls.len(),
        j == data_lines(ls.subrange(0, i)).len(),
        data_lines(ls.subrange(0, i + 1)) == data_lines(ls.subrange(0, i)) + seq![encode_utf8(ls[i]@)],
    ensures
        j < data_lines(ls).len(),
        data_lines(ls)[j] == encode_utf8(ls[i]@),
{
    lemma_data_lines_prefix(ls, i + 1);
    assert(data_lines(ls.subrange(0, i + 1))[j] == encode_utf8(ls[i]@));
}

/// Data lines before line `i` are the first data lines of the file.
proof fn lemma_earlier_keys(ls: Seq<String>, i: int, j: int)
    requires
        0 <= i < ls.len(),
        j == data_lines(ls.subrange(0, i)).len(),
        forall|k: int| 0 <= k < j ==> #[trigger] vcf_key(data_lines(ls.subrange(0, i))[k]) is Some,
    ensures
        forall|k: int| 0 <= k < j ==> #[trigger] vcf_key(data_lines(ls)[k]) is Some,
{
    lemma_data_lines_prefix(ls, i);
    assert forall|k: int| 0 <= k < j implies #[trigger] vcf_key(data_lines(ls)[k]) is Some by {
        assert(data_lines(ls.subrange(0, i))[k] == data_lines(ls)[k]);
    }
}

} // verus!
