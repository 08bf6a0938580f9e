//! Cell barcodes (one per line, the line number being the cell id) and
//! externally supplied labels (lines of `barcode<TAB>label`).
use vstd::prelude::*;
use vstd::utf8::{decode_utf8, encode_utf8, encode_utf8_decode_utf8};
use vstd::string::StringSliceAdditionalSpecFns;
use crate::id_map::BarcodeIndex;
use crate::vcf::{has_tab_field, tab_field, tab_field_bounds, tab_field_string};

verus! {

/// Cell id of each barcode: its line number from 0 (a repeated barcode keeps
/// its last line).
pub open spec fn barcode_index(lines: Seq<String>) -> Map<Seq<char>, usize>
    decreases lines.len(),
{
    if lines.len() == 0 {
        Map::empty()
    } else {
        barcode_index(lines.drop_last()).insert(lines.last()@, (lines.len() - 1) as usize)
    }
}

/// The barcodes in cell-id order, and the index from barcode to cell id.
pub fn load_barcodes(lines: &Vec<String>) -> (r: (Vec<String>, BarcodeIndex))
    ensures
        r.0@.len() == lines@.len(),
        forall|i: int| 0 <= i < lines@.len() ==> (#[trigger] r.0@[i])@ == lines@[i]@,
        r.1@ == barcode_index(lines@),
{
    let mut barcodes: Vec<String> = Vec::new();
    let mut index = BarcodeIndex::new();
    assert(index@ =~= barcode_index(lines@.subrange(0, 0)));
    let mut i: usize = 0;
    while i < lines.len()
        invariant
            i <= lines@.len(),
            barcodes@.len() == i,
            forall|k: int| 0 <= k < i ==> (#[trigger] barcodes@[k])@ == lines@[k]@,
            index@ == barcode_index(lines@.subrange(0, i as int)),
        decreases lines@.len() - i,
    {
        let ghost q = lines@.subrange(0, i + 1);
        assert(q.drop_last() =~= lines@.subrange(0, i as int));
        assert(q.last() == lines@[i as int]);
        barcodes.push(lines[i].clone());
        index.insert(lines[i].clone(), i);
        i = i + 1;
    }
    assert(lines@.subrange(0, lines@.len() as int) =~= lines@);
    (barcodes, index)
}

/// A label line has exactly two tab-separated columns.
pub open spec fn two_columns(b: Seq<u8>) -> bool {
    has_tab_field(b, 1) && !has_tab_field(b, 2)
}

/// The labels by cell id after the given label lines: "na" for every cell to
/// begin with; each line gives its label to the cell of its barcode, if that
/// barcode is known and its cell is below `n`. A later line wins.
pub open spec fn labels_after(lines: Seq<String>, index: Map<Seq<char>, usize>, n: nat) -> Seq<Seq<char>>
    decreases lines.len(),
{
    if lines.len() == 0 {
        Seq::new(n, |i: int| "na"@)
    } else {
        let prev = labels_after(lines.drop_last(), index, n);
        let b = encode_utf8(lines.last()@);
        let key = decode_utf8(tab_field(b, 0));
        if index.contains_key(key) && index[key] < n {
            prev.update(index[key] as int, decode_utf8(tab_field(b, 1)))
        } else {
            prev
        }
    }
}

#[derive(Debug, Clone, Copy, PartialEq, Eq, Structural)]
pub enum LabelError {
    /// A line does not have exactly two tab-separated columns.
    InvalidLine,
}

proof fn lemma_labels_len(lines: Seq<String>, index: Map<Seq<char>, usize>, n: nat)
    ensures
        labels_after(lines, index, n).len() == n,
    decreases lines.len(),
{
    if lines.len() > 0 {
        lemma_labels_len(lines.drop_last(), index, n);
    }
}

/// Assigns the labels of `lines` to the cells below `n_cells`, the others
/// staying "na". Fails on a line without exactly two columns.
pub fn load_ground_truth(lines: &Vec<String>, barcode_to_cell_id: &BarcodeIndex, n_cells: usize) -> (r: Result<
    Vec<String>,
    LabelError,
>)
    ensures
        r is Err <==> exists|i: int|
            0 <= i < lines@.len() && !two_columns(encode_utf8((#[trigger] lines@[i])@)),
        r matches Ok(v) ==> v@.len() == n_cells && forall|c: int|
            0 <= c < n_cells ==> (#[trigger] v@[c])@ == labels_after(
                lines@,
                barcode_to_cell_id@,
                n_cells as nat,
            )[c],
{
    let ghost ls = lines@;
    let ghost idx = barcode_to_cell_id@;
    let mut labels: Vec<String> = Vec::new();
    let mut c: usize = 0;
    while c < n_cells
        invariant
            c <= n_cells,
            labels@.len() == c,
            forall|k: int| 0 <= k < c ==> (#[trigger] labels@[k])@ == "na"@,
        decreases n_cells - c,
    {
        labels.push("na".to_string());
        c = c + 1;
    }
    proof {
        lemma_labels_len(ls.subrange(0, 0), idx, n_cells as nat);
        assert forall|k: int| 0 <= k < n_cells implies (#[trigger] labels@[k])@ == labels_after(
            ls.subrange(0, 0),
            idx,
            n_cells as nat,
        )[k] by {}
    }
    let mut i: usize = 0;
    while i < lines.len()
        invariant
            i <= ls.len(),
            ls == lines@,
            idx == barcode_to_cell_id@,
            labels@.len() == n_cells,
            forall|k: int| 0 <= k < i ==> two_columns(encode_utf8((#[trigger] ls[k])@)),
            forall|k: int|
                0 <= k < n_cells ==> (#[trigger] labels@[k])@ == labels_after(
                    ls.subrange(0, i as int),
                    idx,
                    n_cells as nat,
                )[k],
        decreases ls.len() - i,
    {
        let line = lines[i].as_str();
        let ghost b = line.spec_bytes();
        let ghost p = ls.subrange(0, i as int);
        let ghost q = ls.subrange(0, i + 1);
        proof {
            assert(q.drop_last() =~= p);
            assert(q.last() == ls[i as int]);
            assert(b == encode_utf8(ls[i as int]@));
            lemma_labels_len(p, idx, n_cells as nat);
            lemma_labels_len(q, idx, n_cells as nat);
        }
        let bytes = line.as_bytes();
        if tab_field_bounds(bytes, 1).is_none() || tab_field_bounds(bytes, 2).is_some() {
            return Err(LabelError::InvalidLine);
        }
        proof {
            crate::vcf::lemma_fields_before(b, 1);
        }
        let barcode = tab_field_string(line, 0).unwrap();
        let label = tab_field_string(line, 1).unwrap();
        proof {
            encode_utf8_decode_utf8(barcode@);
            encode_utf8_decode_utf8(label@);
        }
        match barcode_to_cell_id.get(&barcode) {
            Some(cell_id) => {
                if cell_id < n_cells {
                    labels.set(cell_id, label);
                }
            },
            None => {},
        }
        proof {
            assert forall|k: int| 0 <= k < n_cells implies (#[trigger] labels@[k])@ == labels_after(
                q,
                idx,
                n_cells as nat,
            )[k] by {}
        }
        i = i + 1;
    }
    assert(ls.subrange(0, ls.len() as int) =~= ls);
    Ok(labels)
}

} // verus!
