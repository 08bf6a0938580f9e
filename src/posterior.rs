//! The integer side of the final two-component classification: the loci that
//! both components have enough alleles at, the complement of the minority,
//! and the three-way assignment.
use vstd::prelude::*;
use crate::cell_set::CellIdSet;
use crate::cells::{
    AlleleCount, CellData, CellLocusData, cells_well_formed, picked_sum, total_sum,
    lemma_obs_sum_prefix, lemma_obs_sum_step, lemma_picked_le_total, lemma_picked_prefix,
};

verus! {

/// Alleles of the minority cells (`excluded`) at locus `l`.
pub open spec fn minority_alleles(cells: Seq<CellData>, excluded: Set<usize>, l: int) -> int {
    (picked_sum(cells, excluded, l, true) + picked_sum(cells, excluded, l, false)) as int
}

/// Alleles of all other cells at locus `l`: the locus totals less the minority's.
pub open spec fn majority_alleles(
    counts: Seq<AlleleCount>,
    cells: Seq<CellData>,
    excluded: Set<usize>,
    l: int,
) -> int {
    (counts[l].alt_count - picked_sum(cells, excluded, l, true)) + (counts[l].ref_count - picked_sum(
        cells,
        excluded,
        l,
        false,
    ))
}

/// The loci that the posterior is computed over: used, and with at least
/// `min_alleles_posterior` alleles on the minority side and on the majority side.
pub fn get_loci_used_for_posterior_calc(
    min_alleles_posterior: usize,
    loci_used: &Vec<bool>,
    cell_data: &Vec<CellData>,
    excluded_cells: &CellIdSet,
    locus_counts: &Vec<AlleleCount>,
) -> (r: Vec<bool>)
    requires
        cells_well_formed(cell_data@, locus_counts@),
        loci_used@.len() == locus_counts@.len(),
    ensures
        r@.len() == loci_used@.len(),
        forall|l: int|
            0 <= l < r@.len() ==> #[trigger] r@[l] == (loci_used@[l] && minority_alleles(
                cell_data@,
                excluded_cells@,
                l,
            ) >= min_alleles_posterior && majority_alleles(
                locus_counts@,
                cell_data@,
                excluded_cells@,
                l,
            ) >= min_alleles_posterior),
{
    let ghost cells = cell_data@;
    let ghost counts = locus_counts@;
    let ghost ex = excluded_cells@;
    let n_loci = locus_counts.len();
    let mut minority: Vec<AlleleCount> = Vec::new();
    let mut l: usize = 0;
    while l < n_loci
        invariant
            l <= n_loci,
            minority@.len() == l,
            forall|k: int|
                0 <= k < l ==> (#[trigger] minority@[k]).alt_count == 0 && minority@[k].ref_count == 0,
        decreases n_loci - l,
    {
        minority.push(AlleleCount { ref_count: 0, alt_count: 0 });
        l = l + 1;
    }
    let mut c: usize = 0;
    while c < cell_data.len()
        invariant
            c <= cells.len(),
            cells == cell_data@,
            counts == locus_counts@,
            ex == excluded_cells@,
            n_loci == counts.len(),
            cells_well_formed(cells, counts),
            minority@.len() == n_loci,
            forall|k: int|
                0 <= k < n_loci ==> (#[trigger] minority@[k]).alt_count == picked_sum(
                    cells.subrange(0, c as int),
                    ex,
                    k,
                    true,
                ) && minority@[k].ref_count == picked_sum(cells.subrange(0, c as int), ex, k, false),
        decreases cells.len() - c,
    {
        let ghost pre = cells.subrange(0, c as int);
        let ghost next = cells.subrange(0, c + 1);
        assert(next.drop_last() =~= pre);
        assert(next.last() == cells[c as int]);
        if excluded_cells.contains(c) {
            let obs = &cell_data[c].cell_loci_data;
            let ghost os = obs@;
            let mut j: usize = 0;
            while j < obs.len()
                invariant
                    j <= os.len(),
                    os == obs@,
                    os == cells[c as int].cell_loci_data@,
                    c < cells.len(),
                    cells == cell_data@,
                    counts == locus_counts@,
                    ex.contains(c),
                    pre == cells.subrange(0, c as int),
                    next == cells.subrange(0, c + 1),
                    next.drop_last() == pre,
                    next.last() == cells[c as int],
                    n_loci == counts.len(),
                    cells_well_formed(cells, counts),
                    minority@.len() == n_loci,
                    forall|k: int|
                        0 <= k < n_loci ==> (#[trigger] minority@[k]).alt_count == picked_sum(
                            pre,
                            ex,
                            k,
                            true,
                        ) + crate::cells::obs_sum(os.subrange(0, j as int), k, true)
                            && minority@[k].ref_count == picked_sum(pre, ex, k, false)
                            + crate::cells::obs_sum(os.subrange(0, j as int), k, false),
                decreases os.len() - j,
            {
                let o: CellLocusData = obs[j];
                let li = o.locus_index;
                proof {
                    assert(cells[c as int].cell_loci_data@[j as int] == os[j as int]);
                    lemma_obs_sum_step(os, j as int, li as int, true);
                    lemma_obs_sum_step(os, j as int, li as int, false);
                    lemma_obs_sum_prefix(os, j + 1, li as int, true);
                    lemma_obs_sum_prefix(os, j + 1, li as int, false);
                    lemma_picked_prefix(cells, ex, c + 1, li as int, true);
                    lemma_picked_prefix(cells, ex, c + 1, li as int, false);
                    lemma_picked_le_total(cells, ex, li as int, true);
                    lemma_picked_le_total(cells, ex, li as int, false);
                    assert(counts[li as int].alt_count == total_sum(cells, li as int, true));
                    assert(counts[li as int].ref_count == total_sum(cells, li as int, false));
                }
                let cur = minority[li];
                minority.set(
                    li,
                    AlleleCount {
                        ref_count: cur.ref_count + o.ref_count as u64,
                        alt_count: cur.alt_count + o.alt_count as u64,
                    },
                );
                proof {
                    assert forall|k: int| 0 <= k < n_loci && k != li implies (#[trigger] minority@[k]).alt_count
                        == picked_sum(pre, ex, k, true) + crate::cells::obs_sum(
                        os.subrange(0, j + 1),
                        k,
                        true,
                    ) && minority@[k].ref_count == picked_sum(pre, ex, k, false)
                        + crate::cells::obs_sum(os.subrange(0, j + 1), k, false) by {
                        lemma_obs_sum_step(os, j as int, k, true);
                        lemma_obs_sum_step(os, j as int, k, false);
                    }
                }
                j = j + 1;
            }
            assert(os.subrange(0, os.len() as int) =~= os);
        }
        c = c + 1;
    }
    assert(cells.subrange(0, cells.len() as int) =~= cells);
    let mut r: Vec<bool> = Vec::new();
    let mut l: usize = 0;
    while l < n_loci
        invariant
            l <= n_loci == counts.len() == loci_used@.len(),
            cells == cell_data@,
            counts == locus_counts@,
            ex == excluded_cells@,
            cells_well_formed(cells, counts),
            minority@.len() == n_loci,
            forall|k: int|
                0 <= k < n_loci ==> (#[trigger] minority@[k]).alt_count == picked_sum(cells, ex, k, true)
                    && minority@[k].ref_count == picked_sum(cells, ex, k, false),
            r@.len() == l,
            forall|k: int|
                0 <= k < l ==> #[trigger] r@[k] == (loci_used@[k] && minority_alleles(cells, ex, k)
                    >= min_alleles_posterior && majority_alleles(counts, cells, ex, k)
                    >= min_alleles_posterior),
        decreases n_loci - l,
    {
        let m = minority[l];
        let t = locus_counts[l];
        proof {
            lemma_picked_le_total(cells, ex, l as int, true);
            lemma_picked_le_total(cells, ex, l as int, false);
        }
        let minority_total: u128 = m.alt_count as u128 + m.ref_count as u128;
        let majority_total: u128 = (t.alt_count - m.alt_count) as u128 + (t.ref_count - m.ref_count) as u128;
        let keep = loci_used[l] && minority_total >= min_alleles_posterior as u128 && majority_total
            >= min_alleles_posterior as u128;
        r.push(keep);
        l = l + 1;
    }
    r
}

/// The cells below `n_cells` that are not in `excluded`.
pub fn included_cells(n_cells: usize, excluded: &CellIdSet) -> (r: CellIdSet)
    ensures
        forall|id: usize| r@.contains(id) <==> (id < n_cells && !excluded@.contains(id)),
{
    let mut s = CellIdSet::new();
    let mut c: usize = 0;
    while c < n_cells
        invariant
            c <= n_cells,
            forall|id: usize| s@.contains(id) <==> (id < c && !excluded@.contains(id)),
        decreases n_cells - c,
    {
        if !excluded.contains(c) {
            s.insert(c);
        }
        c = c + 1;
    }
    s
}

/// The final call on a cell.
#[derive(Debug, Clone, Copy, PartialEq, Eq, Structural)]
pub enum Assignment {
    Minority,
    Majority,
    Unassigned,
}

impl Assignment {
    /// The label written in reports: "0" for the minority, "1" for the majority.
    pub fn label(&self) -> (r: String)
        ensures
            r@ == (match self {
                Assignment::Minority => "0"@,
                Assignment::Majority => "1"@,
                Assignment::Unassigned => "unassigned"@,
            }),
    {
        match self {
            Assignment::Minority => "0".to_string(),
            Assignment::Majority => "1".to_string(),
            Assignment::Unassigned => "unassigned".to_string(),
        }
    }
}

/// The assignment from the two threshold tests on a cell's posterior: whether
/// the minority posterior, and whether the majority posterior, exceeds the
/// confidence threshold. The minority test is decided first.
pub fn classify(minority_exceeds: bool, majority_exceeds: bool) -> (r: Assignment)
    ensures
        r == (if minority_exceeds {
            Assignment::Minority
        } else if majority_exceeds {
            Assignment::Majority
        } else {
            Assignment::Unassigned
        }),
{
    if minority_exceeds {
        Assignment::Minority
    } else if majority_exceeds {
        Assignment::Majority
    } else {
        Assignment::Unassigned
    }
}

} // verus!
