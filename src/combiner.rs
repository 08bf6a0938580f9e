//! Building a synthetic mixture from two experiments: which cells of each are
//! taken, how their cells and loci are renumbered in the combined matrices,
//! and how the second experiment's barcodes are told apart.
use vstd::prelude::*;
use vstd::string::{StrSliceExecFns, StringExecFns};
use crate::id_map::{IdMap, LocusTable};
use crate::mtx::{raw_entry, raw_fields, MtxError, VartrixDatum};
use vstd::utf8::encode_utf8;
use rand::seq::IteratorRandom;
use rand::SeedableRng;

verus! {

/// Reads one entry of a pair of count matrices, keeping the format's 1-based
/// locus and cell indices.
pub fn read_mtx_lines(alt_line: String, ref_line: String) -> (r: Result<VartrixDatum, MtxError>)
    ensures
        match raw_entry(encode_utf8(alt_line@), encode_utf8(ref_line@)) {
            None => r == Err::<VartrixDatum, MtxError>(MtxError::Malformed),
            Some((l, c, a, rc)) => r == Ok::<VartrixDatum, MtxError>(
                VartrixDatum {
                    locus: l as usize,
                    cell_id: c as usize,
                    alt_count: a as usize,
                    ref_count: rc as usize,
                },
            ),
        },
{
    let alt = alt_line.as_str().as_bytes();
    let rf = ref_line.as_str().as_bytes();
    match raw_fields(alt, rf) {
        None => Err(MtxError::Malformed),
        Some((l, c, a, rc)) => Ok(VartrixDatum { locus: l, cell_id: c, alt_count: a, ref_count: rc }),
    }
}

/// Record number (from 1) of the last line of the first file with each
/// (chromosome, position) key.
pub open spec fn first_table(keys1: Seq<(String, usize)>) -> Map<(Seq<char>, usize), usize>
    decreases keys1.len(),
{
    if keys1.len() == 0 {
        Map::empty()
    } else {
        first_table(keys1.drop_last()).insert(
            (keys1.last().0@, keys1.last().1),
            keys1.len() as usize,
        )
    }
}

/// For each record of the second file (numbered from 1), its locus number in
/// the combined matrices: that of the same key in the first file, or else the
/// next number after the first file's records. Also gives the next free number.
pub open spec fn second_mapping(keys1: Seq<(String, usize)>, keys2: Seq<(String, usize)>) -> (Map<
    usize,
    usize,
>, nat)
    decreases keys2.len(),
{
    if keys2.len() == 0 {
        (Map::empty(), (keys1.len() + 1) as nat)
    } else {
        let (m, next) = second_mapping(keys1, keys2.drop_last());
        let k = (keys2.last().0@, keys2.last().1);
        let t = first_table(keys1);
        if t.contains_key(k) {
            (m.insert(keys2.len() as usize, t[k]), next)
        } else {
            (m.insert(keys2.len() as usize, next as usize), next + 1)
        }
    }
}

proof fn lemma_second_mapping_next(keys1: Seq<(String, usize)>, keys2: Seq<(String, usize)>)
    ensures
        keys1.len() + 1 <= second_mapping(keys1, keys2).1 <= keys1.len() + keys2.len() + 1,
    decreases keys2.len(),
{
    if keys2.len() > 0 {
        lemma_second_mapping_next(keys1, keys2.drop_last());
    }
}

/// Numbers the loci of the combined matrices: the first file's records keep
/// their numbers, the second file's are mapped onto the first's by
/// (chromosome, position) or numbered on after them. Returns the mapping of the
/// second file's record numbers and the number of loci in all.
pub fn get_locus_mapping(keys1: &Vec<(String, usize)>, keys2: &Vec<(String, usize)>) -> (r: (IdMap, usize))
    requires
        keys1@.len() + keys2@.len() < usize::MAX,
    ensures
        r.0@ == second_mapping(keys1@, keys2@).0,
        r.1 == second_mapping(keys1@, keys2@).1 - 1,
{
    let ghost k1 = keys1@;
    let ghost k2 = keys2@;
    let mut table = LocusTable::new();
    assert(table@ =~= first_table(k1.subrange(0, 0)));
    let mut i: usize = 0;
    while i < keys1.len()
        invariant
            i <= k1.len(),
            k1 == keys1@,
            table@ == first_table(k1.subrange(0, i as int)),
        decreases k1.len() - i,
    {
        assert(k1.subrange(0, i + 1).drop_last() =~= k1.subrange(0, i as int));
        let chrom = keys1[i].0.clone();
        table.insert(chrom, keys1[i].1, i + 1);
        i = i + 1;
    }
    assert(k1.subrange(0, k1.len() as int) =~= k1);
    let mut mapping = IdMap::new();
    let mut next: usize = keys1.len() + 1;
    assert(mapping@ =~= second_mapping(k1, k2.subrange(0, 0)).0);
    let mut j: usize = 0;
    while j < keys2.len()
        invariant
            j <= k2.len(),
            k1 == keys1@,
            k2 == keys2@,
            k1.len() + k2.len() < usize::MAX,
            table@ == first_table(k1),
            mapping@ == second_mapping(k1, k2.subrange(0, j as int)).0,
            next == second_mapping(k1, k2.subrange(0, j as int)).1,
        decreases k2.len() - j,
    {
        let ghost p = k2.subrange(0, j as int);
        let ghost q = k2.subrange(0, j + 1);
        assert(q.drop_last() =~= p);
        proof {
            lemma_second_mapping_next(k1, p);
        }
        match table.get(&keys2[j].0, keys2[j].1) {
            Some(locus_id) => {
                mapping.insert(j + 1, locus_id);
            },
            None => {
                mapping.insert(j + 1, next);
                next = next + 1;
            },
        }
        j = j + 1;
    }
    assert(k2.subrange(0, k2.len() as int) =~= k2);
    proof {
        lemma_second_mapping_next(k1, k2);
    }
    (mapping, next - 1)
}

/// Output cell number of each listed cell: the cells of `cells` in order get
/// `offset + 1`, `offset + 2`, ... (a cell listed twice keeps its later number).
pub open spec fn numbering(cells: Seq<usize>, offset: nat) -> Map<usize, usize>
    decreases cells.len(),
{
    if cells.len() == 0 {
        Map::empty()
    } else {
        numbering(cells.drop_last(), offset).insert(
            cells.last(),
            (offset + cells.len()) as usize,
        )
    }
}

/// Numbers the output cells: first the chosen cells of the first experiment,
/// then those of the second, from 1 on.
pub fn output_cell_ids(cells1: &Vec<usize>, cells2: &Vec<usize>) -> (r: (IdMap, IdMap))
    requires
        cells1@.len() + cells2@.len() < usize::MAX,
    ensures
        r.0@ == numbering(cells1@, 0),
        r.1@ == numbering(cells2@, cells1@.len()),
{
    let n1 = cells1.len();
    let mut map1 = IdMap::new();
    assert(map1@ =~= numbering(cells1@.subrange(0, 0), 0));
    let mut i: usize = 0;
    while i < n1
        invariant
            i <= n1 == cells1@.len(),
            map1@ == numbering(cells1@.subrange(0, i as int), 0),
        decreases n1 - i,
    {
        assert(cells1@.subrange(0, i + 1).drop_last() =~= cells1@.subrange(0, i as int));
        map1.insert(cells1[i], i + 1);
        i = i + 1;
    }
    assert(cells1@.subrange(0, n1 as int) =~= cells1@);
    let mut map2 = IdMap::new();
    assert(map2@ =~= numbering(cells2@.subrange(0, 0), n1 as nat));
    let mut j: usize = 0;
    while j < cells2.len()
        invariant
            j <= cells2@.len(),
            n1 == cells1@.len(),
            cells1@.len() + cells2@.len() < usize::MAX,
            map2@ == numbering(cells2@.subrange(0, j as int), n1 as nat),
        decreases cells2@.len() - j,
    {
        assert(cells2@.subrange(0, j + 1).drop_last() =~= cells2@.subrange(0, j as int));
        map2.insert(cells2[j], n1 + j + 1);
        j = j + 1;
    }
    assert(cells2@.subrange(0, cells2@.len() as int) =~= cells2@);
    (map1, map2)
}

/// A second-experiment barcode as written in the mixture: its last character
/// replaced by '2'.
pub open spec fn renamed_barcode(b: Seq<char>) -> Seq<char> {
    (if b.len() > 0 {
        b.drop_last()
    } else {
        b
    }) + seq!['2']
}

pub fn rename_barcode(barcode: &String) -> (r: String)
    ensures
        r@ == renamed_barcode(barcode@),
{
    let s = barcode.as_str();
    let n = s.unicode_len();
    let keep: usize = if n > 0 {
        n - 1
    } else {
        0
    };
    let head = s.substring_char(0, keep).to_owned();
    let r = head.concat("2");
    proof {
        reveal_strlit("2");
        assert(r@ =~= renamed_barcode(barcode@));
    }
    r
}

/// Ids (from 1) of the barcodes of `barcodes2` that `mask` lists.
pub open spec fn masked_ids(barcodes2: Seq<String>, mask: Seq<String>) -> Seq<usize>
    decreases barcodes2.len(),
{
    if barcodes2.len() == 0 {
        Seq::empty()
    } else {
        masked_ids(barcodes2.drop_last(), mask) + if exists|k: int|
            0 <= k < mask.len() && (#[trigger] mask[k])@ == barcodes2.last()@ {
            seq![barcodes2.len() as usize]
        } else {
            Seq::<usize>::empty()
        }
    }
}

fn listed(mask: &Vec<String>, barcode: &String) -> (r: bool)
    ensures
        r == exists|k: int| 0 <= k < mask@.len() && (#[trigger] mask@[k])@ == barcode@,
{
    let mut k: usize = 0;
    while k < mask.len()
        invariant
            k <= mask@.len(),
            forall|m: int| 0 <= m < k ==> (#[trigger] mask@[m])@ != barcode@,
        decreases mask@.len() - k,
    {
        if mask[k] == *barcode {
            return true;
        }
        k = k + 1;
    }
    false
}

/// The cells of the second experiment whose barcodes `mask` lists, as ids from 1.
pub fn select_cells_by_barcode(barcodes2: &Vec<String>, mask: &Vec<String>) -> (r: Vec<usize>)
    ensures
        r@ == masked_ids(barcodes2@, mask@),
{
    let mut ids: Vec<usize> = Vec::new();
    let mut i: usize = 0;
    while i < barcodes2.len()
        invariant
            i <= barcodes2@.len(),
            ids@ == masked_ids(barcodes2@.subrange(0, i as int), mask@),
        decreases barcodes2@.len() - i,
    {
        let ghost p = barcodes2@.subrange(0, i as int);
        let ghost q = barcodes2@.subrange(0, i + 1);
        assert(q.drop_last() =~= p);
        assert(q.last() == barcodes2@[i as int]);
        if listed(mask, &barcodes2[i]) {
            ids.push(i + 1);
        } else {
            assert(masked_ids(q, mask@) =~= masked_ids(p, mask@));
        }
        i = i + 1;
    }
    assert(barcodes2@.subrange(0, barcodes2@.len() as int) =~= barcodes2@);
    ids
}

/// Relies on rand's IteratorRandom::choose_multiple over the ids 1..=total,
/// drawn with a StdRng seeded from `seed`: a reservoir sample, so `amount`
/// distinct ids of that range (all of them when there are fewer).
#[verifier::external_body]
fn sample_cell_ids(seed: usize, amount: usize, total: usize) -> (r: Vec<usize>)
    ensures
        r@.len() == if amount <= total {
            amount
        } else {
            total
        },
        forall|i: int| 0 <= i < r@.len() ==> 1 <= #[trigger] r@[i] <= total,
        r@.no_duplicates(),
{
    let mut bytes = [0u8; 32];
    bytes[..8].copy_from_slice(&(seed as u64).to_be_bytes());
    let mut rng = rand::rngs::StdRng::from_seed(bytes);
    (1..=total).choose_multiple(&mut rng, amount)
}

/// Picks `num_cells_to_use` distinct cells (ids from 1) out of `total_cells`,
/// reproducibly for a given seed.
pub fn select_cells(seed: usize, num_cells_to_use: usize, total_cells: usize) -> (r: Vec<usize>)
    requires
        num_cells_to_use <= total_cells,
    ensures
        r@.len() == num_cells_to_use,
        forall|i: int| 0 <= i < r@.len() ==> 1 <= #[trigger] r@[i] <= total_cells,
        r@.no_duplicates(),
{
    sample_cell_ids(seed, num_cells_to_use, total_cells)
}

} // verus!
