//! Cells and their per-locus allele observations, with the sums over them
//! that the rest of the model is stated in.
use vstd::prelude::*;

verus! {

/// One observed locus of one cell.
#[derive(Debug, Clone, Copy, PartialEq, Eq, Structural)]
pub struct CellLocusData {
    /// Index of the locus among the loci kept at load time.
    pub locus_index: usize,
    /// Index of the locus in the count matrices (0-based).
    pub locus_id: usize,
    pub alt_count: usize,
    pub ref_count: usize,
    /// `alt_count + ref_count`.
    pub total: usize,
}

/// A cell: its position in the cell array, barcode, externally supplied
/// label ("na" when unknown), and its observations in file order.
pub struct CellData {
    pub cell_id: usize,
    pub barcode: String,
    pub assignment: String,
    pub cell_loci_data: Vec<CellLocusData>,
}

/// Reference and alternate allele totals of one locus.
#[derive(Debug, Clone, Copy, PartialEq, Eq, Structural)]
pub struct AlleleCount {
    pub ref_count: u64,
    pub alt_count: u64,
}

/// The alternate (`alt`) or reference count of an observation.
pub open spec fn allele(o: CellLocusData, alt: bool) -> nat {
    if alt {
        o.alt_count as nat
    } else {
        o.ref_count as nat
    }
}

/// Sum of the alternate or reference counts of the observations at locus `l`.
pub open spec fn obs_sum(obs: Seq<CellLocusData>, l: int, alt: bool) -> nat
    decreases obs.len(),
{
    if obs.len() == 0 {
        0
    } else {
        obs_sum(obs.drop_last(), l, alt) + if obs.last().locus_index == l {
            allele(obs.last(), alt)
        } else {
            0
        }
    }
}

/// Number of the observations at locus `l`.
pub open spec fn obs_count(obs: Seq<CellLocusData>, l: int) -> nat
    decreases obs.len(),
{
    if obs.len() == 0 {
        0
    } else {
        obs_count(obs.drop_last(), l) + if obs.last().locus_index == l {
            1nat
        } else {
            0
        }
    }
}

/// Sum over the cells whose ids `pick` holds of their counts at locus `l`.
pub open spec fn picked_sum(cells: Seq<CellData>, pick: Set<usize>, l: int, alt: bool) -> nat
    decreases cells.len(),
{
    if cells.len() == 0 {
        0
    } else {
        picked_sum(cells.drop_last(), pick, l, alt) + if pick.contains(
            (cells.len() - 1) as usize,
        ) {
            obs_sum(cells.last().cell_loci_data@, l, alt)
        } else {
            0
        }
    }
}

/// Sum over all cells of their counts at locus `l`.
pub open spec fn total_sum(cells: Seq<CellData>, l: int, alt: bool) -> nat
    decreases cells.len(),
{
    if cells.len() == 0 {
        0
    } else {
        total_sum(cells.drop_last(), l, alt) + obs_sum(cells.last().cell_loci_data@, l, alt)
    }
}

/// The loci aggregates are the sums over all cells, every cell sits at its own
/// index, and every observation names a locus that the aggregates cover.
pub open spec fn cells_well_formed(cells: Seq<CellData>, counts: Seq<AlleleCount>) -> bool {
    &&& forall|c: int| 0 <= c < cells.len() ==> (#[trigger] cells[c]).cell_id == c
    &&& forall|c: int, j: int|
        0 <= c < cells.len() && 0 <= j < cells[c].cell_loci_data@.len() ==> {
            let o = #[trigger] cells[c].cell_loci_data@[j];
            &&& o.locus_index < counts.len()
            &&& o.total == o.alt_count + o.ref_count
        }
    &&& forall|l: int|
        0 <= l < counts.len() ==> (#[trigger] counts[l]).alt_count == total_sum(cells, l, true)
            && counts[l].ref_count == total_sum(cells, l, false)
}

pub proof fn lemma_obs_sum_prefix(obs: Seq<CellLocusData>, j: int, l: int, alt: bool)
    requires
        0 <= j <= obs.len(),
    ensures
        obs_sum(obs.subrange(0, j), l, alt) <= obs_sum(obs, l, alt),
    decreases obs.len() - j,
{
    if j < obs.len() {
        assert(obs.subrange(0, j + 1).drop_last() =~= obs.subrange(0, j));
        lemma_obs_sum_prefix(obs, j + 1, l, alt);
    } else {
        assert(obs.subrange(0, j) =~= obs);
    }
}

pub proof fn lemma_obs_sum_step(obs: Seq<CellLocusData>, j: int, l: int, alt: bool)
    requires
        0 <= j < obs.len(),
    ensures
        obs_sum(obs.subrange(0, j + 1), l, alt) == obs_sum(obs.subrange(0, j), l, alt) + if obs[j].locus_index == l {
            allele(obs[j], alt)
        } else {
            0
        },
{
    assert(obs.subrange(0, j + 1).drop_last() =~= obs.subrange(0, j));
}

pub proof fn lemma_picked_le_total(cells: Seq<CellData>, pick: Set<usize>, l: int, alt: bool)
    ensures
        picked_sum(cells, pick, l, alt) <= total_sum(cells, l, alt),
    decreases cells.len(),
{
    if cells.len() > 0 {
        lemma_picked_le_total(cells.drop_last(), pick, l, alt);
    }
}

pub proof fn lemma_total_prefix(cells: Seq<CellData>, c: int, l: int, alt: bool)
    requires
        0 <= c <= cells.len(),
    ensures
        total_sum(cells.subrange(0, c), l, alt) <= total_sum(cells, l, alt),
    decreases cells.len() - c,
{
    if c < cells.len() {
        assert(cells.subrange(0, c + 1).drop_last() =~= cells.subrange(0, c));
        lemma_total_prefix(cells, c + 1, l, alt);
    } else {
        assert(cells.subrange(0, c) =~= cells);
    }
}

pub proof fn lemma_picked_prefix(cells: Seq<CellData>, pick: Set<usize>, c: int, l: int, alt: bool)
    requires
        0 <= c <= cells.len(),
    ensures
        picked_sum(cells.subrange(0, c), pick, l, alt) <= picked_sum(cells, pick, l, alt),
    decreases cells.len() - c,
{
    if c < cells.len() {
        assert(cells.subrange(0, c + 1).drop_last() =~= cells.subrange(0, c));
        lemma_picked_prefix(cells, pick, c + 1, l, alt);
    } else {
        assert(cells.subrange(0, c) =~= cells);
    }
}

} // verus!
