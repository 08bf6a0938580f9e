//! Lines of a pair of matrix-market count files (one for alternate, one for
//! reference allele counts), read as whitespace-separated decimal fields.
use vstd::prelude::*;
use vstd::utf8::encode_utf8;

verus! {

/// ASCII whitespace: space, tab, line feed, vertical tab, form feed, carriage return.
pub open spec fn is_blank(b: u8) -> bool {
    b == 32 || (9 <= b && b <= 13)
}

pub open spec fn is_digit(b: u8) -> bool {
    48 <= b && b <= 57
}

/// First index at or after `i` that does not hold a blank.
pub open spec fn skip_blanks(s: Seq<u8>, i: int) -> int
    decreases s.len() - i,
{
    if 0 <= i < s.len() && is_blank(s[i]) {
        skip_blanks(s, i + 1)
    } else {
        i
    }
}

/// First index at or after `i` that holds a blank (or the end).
pub open spec fn token_end(s: Seq<u8>, i: int) -> int
    decreases s.len() - i,
{
    if 0 <= i < s.len() && !is_blank(s[i]) {
        token_end(s, i + 1)
    } else {
        i
    }
}

/// Where the `k`-th whitespace-separated field starts (the length when there is none).
pub open spec fn field_start(s: Seq<u8>, k: nat) -> int
    decreases k,
{
    if k == 0 {
        skip_blanks(s, 0)
    } else {
        skip_blanks(s, token_end(s, field_start(s, (k - 1) as nat)))
    }
}

pub open spec fn has_field(s: Seq<u8>, k: nat) -> bool {
    field_start(s, k) < s.len()
}

/// The bytes of the `k`-th field.
pub open spec fn field(s: Seq<u8>, k: nat) -> Seq<u8> {
    s.subrange(field_start(s, k), token_end(s, field_start(s, k)))
}

pub open spec fn all_digits(t: Seq<u8>) -> bool {
    forall|i: int| 0 <= i < t.len() ==> is_digit(#[trigger] t[i])
}

/// The number that a string of decimal digits denotes.
pub open spec fn decimal_value(t: Seq<u8>) -> nat
    decreases t.len(),
{
    if t.len() == 0 {
        0
    } else {
        decimal_value(t.drop_last()) * 10 + (t.last() - 48) as nat
    }
}

/// The `k`-th field read as a `usize`: present, all digits, and in range.
pub open spec fn field_number(s: Seq<u8>, k: nat) -> Option<nat> {
    if has_field(s, k) && all_digits(field(s, k)) && decimal_value(field(s, k)) <= usize::MAX {
        Some(decimal_value(field(s, k)))
    } else {
        None
    }
}

/// A longer string of digits never denotes a smaller number.
proof fn lemma_decimal_prefix_le(t: Seq<u8>, n: int)
    requires
        0 <= n <= t.len(),
        all_digits(t),
    ensures
        decimal_value(t.subrange(0, n)) <= decimal_value(t),
    decreases t.len() - n,
{
    if n < t.len() {
        let p = t.subrange(0, n + 1);
        assert(p.drop_last() =~= t.subrange(0, n));
        assert(decimal_value(t.subrange(0, n)) <= decimal_value(p));
        lemma_decimal_prefix_le(t, n + 1);
    } else {
        assert(t.subrange(0, n) =~= t);
    }
}

fn is_blank_byte(b: u8) -> (r: bool)
    ensures
        r == is_blank(b),
{
    b == 32 || (9 <= b && b <= 13)
}

fn skip_blanks_from(s: &[u8], i: usize) -> (j: usize)
    requires
        i <= s@.len(),
    ensures
        j == skip_blanks(s@, i as int),
        i <= j <= s@.len(),
{
    let mut j: usize = i;
    while j < s.len() && is_blank_byte(s[j])
        invariant
            i <= j <= s@.len(),
            skip_blanks(s@, i as int) == skip_blanks(s@, j as int),
        decreases s@.len() - j,
    {
        j = j + 1;
    }
    j
}

fn token_end_from(s: &[u8], i: usize) -> (j: usize)
    requires
        i <= s@.len(),
    ensures
        j == token_end(s@, i as int),
        i <= j <= s@.len(),
{
    let mut j: usize = i;
    while j < s.len() && !is_blank_byte(s[j])
        invariant
            i <= j <= s@.len(),
            token_end(s@, i as int) == token_end(s@, j as int),
        decreases s@.len() - j,
    {
        j = j + 1;
    }
    j
}

/// Reads the digits `s[lo..hi]` as a `usize`.
pub(crate) fn parse_decimal(s: &[u8], lo: usize, hi: usize) -> (r: Option<usize>)
    requires
        lo <= hi <= s@.len(),
    ensures
        r == (if all_digits(s@.subrange(lo as int, hi as int)) && decimal_value(
            s@.subrange(lo as int, hi as int),
        ) <= usize::MAX {
            Some(decimal_value(s@.subrange(lo as int, hi as int)) as usize)
        } else {
            None::<usize>
        }),
{
    let ghost t = s@.subrange(lo as int, hi as int);
    let mut acc: usize = 0;
    let mut j: usize = lo;
    while j < hi
        invariant
            lo <= j <= hi <= s@.len(),
            t == s@.subrange(lo as int, hi as int),
            all_digits(t.subrange(0, j - lo)),
            acc as nat == decimal_value(t.subrange(0, j - lo)),
        decreases hi - j,
    {
        let b = s[j];
        if !(48 <= b && b <= 57) {
            assert(!is_digit(t[j - lo]));
            return None;
        }
        let d: usize = (b - 48) as usize;
        let ghost next = t.subrange(0, j - lo + 1);
        assert(next.drop_last() =~= t.subrange(0, j - lo));
        assert(all_digits(next)) by {
            assert forall|i: int| 0 <= i < next.len() implies is_digit(#[trigger] next[i]) by {
                if i < next.len() - 1 {
                    assert(next[i] == t.subrange(0, j - lo)[i]);
                }
            }
        }
        match acc.checked_mul(10) {
            None => {
                proof {
                    if all_digits(t) {
                        lemma_decimal_prefix_le(t, j - lo + 1);
                    }
                }
                return None;
            },
            Some(m) => match m.checked_add(d) {
                None => {
                    proof {
                        if all_digits(t) {
                            lemma_decimal_prefix_le(t, j - lo + 1);
                        }
                    }
                    return None;
                },
                Some(v) => {
                    acc = v;
                },
            },
        }
        j = j + 1;
    }
    assert(t.subrange(0, hi - lo) =~= t);
    Some(acc)
}

/// Reads the `k`-th whitespace-separated field of `s` as a `usize`.
fn read_field(s: &[u8], k: usize) -> (r: Option<usize>)
    ensures
        r == (match field_number(s@, k as nat) {
            Some(v) => Some(v as usize),
            None => None::<usize>,
        }),
{
    let mut start: usize = skip_blanks_from(s, 0);
    let mut m: usize = 0;
    while m < k
        invariant
            m <= k,
            start as int == field_start(s@, m as nat),
            start <= s@.len(),
        decreases k - m,
    {
        let e = token_end_from(s, start);
        start = skip_blanks_from(s, e);
        m = m + 1;
    }
    if start >= s.len() {
        return None;
    }
    let end = token_end_from(s, start);
    parse_decimal(s, start, end)
}

/// What is wrong with a line of a count matrix.
#[derive(Debug, Clone, Copy, PartialEq, Eq, Structural)]
pub enum MtxError {
    /// A field is missing, is not a run of decimal digits, or does not fit in `usize`.
    Malformed,
    /// A locus or cell index is 0, where the format counts from 1.
    ZeroIndex,
}

/// One entry read from the paired alternate and reference count lines.
#[derive(Debug, Clone, Copy, PartialEq, Eq, Structural)]
pub struct VartrixDatum {
    pub locus: usize,
    pub cell_id: usize,
    pub alt_count: usize,
    pub ref_count: usize,
}

/// The raw fields of an entry: locus (alternate line, field 0), cell (alternate
/// line, field 1), alternate count (alternate line, field 2), reference count
/// (reference line, field 2).
pub open spec fn raw_entry(alt: Seq<u8>, rf: Seq<u8>) -> Option<(nat, nat, nat, nat)> {
    match (field_number(alt, 0), field_number(alt, 1), field_number(alt, 2), field_number(rf, 2)) {
        (Some(l), Some(c), Some(a), Some(r)) => Some((l, c, a, r)),
        _ => None,
    }
}

pub(crate) fn raw_fields(alt: &[u8], rf: &[u8]) -> (r: Option<(usize, usize, usize, usize)>)
    ensures
        r matches Some(t) ==> raw_entry(alt@, rf@) == Some(
            (t.0 as nat, t.1 as nat, t.2 as nat, t.3 as nat),
        ),
        r is None ==> raw_entry(alt@, rf@) is None,
{
    let locus = read_field(alt, 0);
    let cell = read_field(alt, 1);
    let alt_count = read_field(alt, 2);
    let ref_count = read_field(rf, 2);
    match (locus, cell, alt_count, ref_count) {
        (Some(l), Some(c), Some(a), Some(r)) => Some((l, c, a, r)),
        _ => None,
    }
}

/// Reads one entry of a pair of count matrices, turning the 1-based locus and
/// cell indices of the format into 0-based ones.
pub fn read_mtx_lines(alt_line: String, ref_line: String) -> (r: Result<VartrixDatum, MtxError>)
    ensures
        match raw_entry(encode_utf8(alt_line@), encode_utf8(ref_line@)) {
            None => r == Err::<VartrixDatum, MtxError>(MtxError::Malformed),
            Some((l, c, a, rc)) => if l == 0 || c == 0 {
                r == Err::<VartrixDatum, MtxError>(MtxError::ZeroIndex)
            } else {
                r == Ok::<VartrixDatum, MtxError>(
                    VartrixDatum {
                        locus: (l - 1) as usize,
                        cell_id: (c - 1) as usize,
                        alt_count: a as usize,
                        ref_count: rc as usize,
                    },
                )
            },
        },
{
    let alt = alt_line.as_str().as_bytes();
    let rf = ref_line.as_str().as_bytes();
    match raw_fields(alt, rf) {
        None => Err(MtxError::Malformed),
        Some((l, c, a, rc)) => {
            if l == 0 || c == 0 {
                Err(MtxError::ZeroIndex)
            } else {
                Ok(VartrixDatum { locus: l - 1, cell_id: c - 1, alt_count: a, ref_count: rc })
            }
        },
    }
}

/// Reads the size line of a count matrix (the third line of its header):
/// the number of loci, then the number of cells.
pub fn consume_mtx_header(size_line: &String) -> (r: Result<(usize, usize), MtxError>)
    ensures
        match (field_number(encode_utf8(size_line@), 0), field_number(encode_utf8(size_line@), 1)) {
            (Some(loci), Some(cells)) => r == Ok::<(usize, usize), MtxError>(
                (loci as usize, cells as usize),
            ),
            _ => r == Err::<(usize, usize), MtxError>(MtxError::Malformed),
        },
{
    let s = size_line.as_str().as_bytes();
    match (read_field(s, 0), read_field(s, 1)) {
        (Some(loci), Some(cells)) => Ok((loci, cells)),
        _ => Err(MtxError::Malformed),
    }
}

} // verus!
