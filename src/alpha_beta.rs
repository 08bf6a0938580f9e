//! Beta parameters of the majority genotype at each locus.
use vstd::prelude::*;
use crate::cell_set::CellIdSet;
use crate::cells::{
    AlleleCount, CellData, CellLocusData, cells_well_formed, picked_sum, obs_sum, allele,
    lemma_obs_sum_prefix, lemma_obs_sum_step, lemma_picked_le_total, lemma_picked_prefix,
};

verus! {

/// Parameters of a Beta distribution over the alternate allele frequency.
#[derive(Debug, Clone, Copy, PartialEq, Eq, Structural)]
pub struct AlphaBeta {
    pub alpha: u128,
    pub beta: u128,
}

/// Alpha at locus `l` once the cells in `excluded` are taken out:
/// the alternate total, plus one, less the excluded cells' alternate counts.
pub open spec fn alpha_without(
    counts: Seq<AlleleCount>,
    cells: Seq<CellData>,
    excluded: Set<usize>,
    l: int,
) -> int {
    counts[l].alt_count + 1 - picked_sum(cells, excluded, l, true)
}

/// Beta at locus `l`, symmetric to `alpha_without` over reference counts.
pub open spec fn beta_without(
    counts: Seq<AlleleCount>,
    cells: Seq<CellData>,
    excluded: Set<usize>,
    l: int,
) -> int {
    counts[l].ref_count + 1 - picked_sum(cells, excluded, l, false)
}

/// Derives, for every locus, the Beta parameters of the cells that are not in
/// `excluded_cells`, with a (1, 1) pseudo-count. Both parameters are at least 1.
pub fn init_alpha_betas(
    locus_counts: &Vec<AlleleCount>,
    excluded_cells: &CellIdSet,
    cell_data: &Vec<CellData>,
) -> (r: Vec<AlphaBeta>)
    requires
        cells_well_formed(cell_data@, locus_counts@),
    ensures
        r@.len() == locus_counts@.len(),
        forall|l: int|
            0 <= l < r@.len() ==> (#[trigger] r@[l]).alpha == alpha_without(
                locus_counts@,
                cell_data@,
                excluded_cells@,
                l,
            ) && r@[l].beta == beta_without(locus_counts@, cell_data@, excluded_cells@, l),
        forall|l: int| 0 <= l < r@.len() ==> (#[trigger] r@[l]).alpha >= 1 && r@[l].beta >= 1,
{
    let ghost cells = cell_data@;
    let ghost counts = locus_counts@;
    let ghost ex = excluded_cells@;
    let n_loci = locus_counts.len();
    let mut ab: Vec<AlphaBeta> = Vec::new();
    let mut l: usize = 0;
    while l < n_loci
        invariant
            l <= n_loci == counts.len(),
            counts == locus_counts@,
            ab@.len() == l,
            forall|k: int|
                0 <= k < l ==> (#[trigger] ab@[k]).alpha == counts[k].alt_count + 1
                    && ab@[k].beta == counts[k].ref_count + 1,
        decreases n_loci - l,
    {
        ab.push(
            AlphaBeta {
                alpha: locus_counts[l].alt_count as u128 + 1,
                beta: locus_counts[l].ref_count as u128 + 1,
            },
        );
        l = l + 1;
    }
    let n_cells = cell_data.len();
    let mut c: usize = 0;
    while c < n_cells
        invariant
            c <= n_cells == cells.len(),
            cells == cell_data@,
            counts == locus_counts@,
            ex == excluded_cells@,
            cells_well_formed(cells, counts),
            ab@.len() == counts.len(),
            forall|k: int|
                0 <= k < ab@.len() ==> (#[trigger] ab@[k]).alpha == counts[k].alt_count + 1
                    - picked_sum(cells.subrange(0, c as int), ex, k, true) && ab@[k].beta
                    == counts[k].ref_count + 1 - picked_sum(cells.subrange(0, c as int), ex, k, false),
        decreases n_cells - c,
    {
        let ghost pre = cells.subrange(0, c as int);
        let ghost next = cells.subrange(0, c + 1);
        assert(next.drop_last() =~= pre);
        assert(next.last() == cells[c as int]);
        if excluded_cells.contains(c) {
            let obs = &cell_data[c].cell_loci_data;
            let ghost os = obs@;
            let mut j: usize = 0;
            while j < obs.len()
                invariant
                    j <= os.len(),
                    os == obs@,
                    os == cells[c as int].cell_loci_data@,
                    c < cells.len(),
                    cells == cell_data@,
                    counts == locus_counts@,
                    ex.contains(c),
                    pre == cells.subrange(0, c as int),
                    next == cells.subrange(0, c + 1),
                    next.drop_last() == pre,
                    next.last() == cells[c as int],
                    cells_well_formed(cells, counts),
                    ab@.len() == counts.len(),
                    forall|k: int|
                        0 <= k < ab@.len() ==> (#[trigger] ab@[k]).alpha == counts[k].alt_count + 1
                            - (picked_sum(pre, ex, k, true) + obs_sum(
                            os.subrange(0, j as int),
                            k,
                            true,
                        )) && ab@[k].beta == counts[k].ref_count + 1 - (picked_sum(
                            pre,
                            ex,
                            k,
                            false,
                        ) + obs_sum(os.subrange(0, j as int), k, false)),
                decreases os.len() - j,
            {
                let o: &CellLocusData = &obs[j];
                let li = o.locus_index;
                proof {
                    assert(cells[c as int].cell_loci_data@[j as int] == os[j as int]);
                    assert(li < counts.len());
                    lemma_obs_sum_step(os, j as int, li as int, true);
                    lemma_obs_sum_step(os, j as int, li as int, false);
                    lemma_obs_sum_prefix(os, j + 1, li as int, true);
                    lemma_obs_sum_prefix(os, j + 1, li as int, false);
                    lemma_picked_prefix(cells, ex, c + 1, li as int, true);
                    lemma_picked_prefix(cells, ex, c + 1, li as int, false);
                    lemma_picked_le_total(cells, ex, li as int, true);
                    lemma_picked_le_total(cells, ex, li as int, false);
                    assert(counts[li as int].alt_count == crate::cells::total_sum(cells, li as int, true));
                    assert(counts[li as int].ref_count == crate::cells::total_sum(cells, li as int, false));
                }
                let cur = ab[li];
                let upd = AlphaBeta {
                    alpha: cur.alpha - o.alt_count as u128,
                    beta: cur.beta - o.ref_count as u128,
                };
                ab.set(li, upd);
                proof {
                    assert forall|k: int| 0 <= k < ab@.len() && k != li implies (#[trigger] ab@[k]).alpha
                        == counts[k].alt_count + 1 - (picked_sum(pre, ex, k, true) + obs_sum(
                        os.subrange(0, j + 1),
                        k,
                        true,
                    )) && ab@[k].beta == counts[k].ref_count + 1 - (picked_sum(pre, ex, k, false)
                        + obs_sum(os.subrange(0, j + 1), k, false)) by {
                        lemma_obs_sum_step(os, j as int, k, true);
                        lemma_obs_sum_step(os, j as int, k, false);
                    }
                }
                j = j + 1;
            }
            assert(os.subrange(0, os.len() as int) =~= os);
        }
        c = c + 1;
    }
    proof {
        assert(cells.subrange(0, cells.len() as int) =~= cells);
        assert forall|l: int| 0 <= l < ab@.len() implies (#[trigger] ab@[l]).alpha >= 1
            && ab@[l].beta >= 1 by {
            lemma_picked_le_total(cells, ex, l, true);
            lemma_picked_le_total(cells, ex, l, false);
        }
    }
    ab
}

/// For every locus, alpha + beta is the locus's two allele totals plus two,
/// less every allele that the excluded cells show there.
pub proof fn lemma_alpha_plus_beta(
    counts: Seq<AlleleCount>,
    cells: Seq<CellData>,
    excluded: Set<usize>,
    l: int,
)
    requires
        0 <= l < counts.len(),
    ensures
        alpha_without(counts, cells, excluded, l) + beta_without(counts, cells, excluded, l) == (
        counts[l].alt_count + counts[l].ref_count + 2) - (picked_sum(cells, excluded, l, true)
            + picked_sum(cells, excluded, l, false)),
{
}

} // verus!
