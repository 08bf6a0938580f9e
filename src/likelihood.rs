//! Which observations enter the per-cell likelihood sums, and the per-locus
//! tallies of those observations split by the minority/majority partition.
use vstd::prelude::*;
use crate::cell_set::CellIdSet;
use crate::cells::{CellData, CellLocusData};

verus! {

/// One observation that contributes a beta-binomial term to a cell's likelihood.
#[derive(Debug, Clone, Copy, PartialEq, Eq, Structural)]
pub struct PmfSite {
    pub cell_id: usize,
    pub locus_index: usize,
    pub alt_count: usize,
    pub ref_count: usize,
    pub total: usize,
}

pub open spec fn site_of(c: int, o: CellLocusData) -> PmfSite {
    PmfSite {
        cell_id: c as usize,
        locus_index: o.locus_index,
        alt_count: o.alt_count,
        ref_count: o.ref_count,
        total: o.total,
    }
}

/// The sites of cell `c`: its observations at used loci, in order.
pub open spec fn cell_sites(obs: Seq<CellLocusData>, c: int, used: Seq<bool>) -> Seq<PmfSite>
    decreases obs.len(),
{
    if obs.len() == 0 {
        Seq::empty()
    } else {
        cell_sites(obs.drop_last(), c, used) + if used[obs.last().locus_index as int] {
            seq![site_of(c, obs.last())]
        } else {
            Seq::empty()
        }
    }
}

/// The sites of all cells, cell by cell.
pub open spec fn all_sites(cells: Seq<CellData>, used: Seq<bool>) -> Seq<PmfSite>
    decreases cells.len(),
{
    if cells.len() == 0 {
        Seq::empty()
    } else {
        all_sites(cells.drop_last(), used) + cell_sites(
            cells.last().cell_loci_data@,
            cells.len() - 1,
            used,
        )
    }
}

pub open spec fn obs_in_mask(cells: Seq<CellData>, used: Seq<bool>) -> bool {
    forall|c: int, j: int|
        0 <= c < cells.len() && 0 <= j < cells[c].cell_loci_data@.len()
            ==> (#[trigger] cells[c].cell_loci_data@[j]).locus_index < used.len()
}

/// Lists the likelihood sites of every cell (its observations at used loci)
/// and how many used loci each cell has. A cell with none has no likelihood
/// evidence, which callers score as maximally anomalous.
pub fn likelihood_sites(loci_used: &Vec<bool>, cell_data: &Vec<CellData>) -> (r: (
    Vec<PmfSite>,
    Vec<usize>,
))
    requires
        obs_in_mask(cell_data@, loci_used@),
    ensures
        r.0@ == all_sites(cell_data@, loci_used@),
        r.1@.len() == cell_data@.len(),
        forall|c: int|
            0 <= c < cell_data@.len() ==> #[trigger] r.1@[c] == cell_sites(
                cell_data@[c].cell_loci_data@,
                c,
                loci_used@,
            ).len(),
{
    let ghost cells = cell_data@;
    let ghost used = loci_used@;
    let mut sites: Vec<PmfSite> = Vec::new();
    let mut per_cell: Vec<usize> = Vec::new();
    let mut c: usize = 0;
    while c < cell_data.len()
        invariant
            c <= cells.len(),
            cells == cell_data@,
            used == loci_used@,
            obs_in_mask(cells, used),
            sites@ == all_sites(cells.subrange(0, c as int), used),
            per_cell@.len() == c,
            forall|k: int|
                0 <= k < c ==> #[trigger] per_cell@[k] == cell_sites(
                    cells[k].cell_loci_data@,
                    k,
                    used,
                ).len(),
        decreases cells.len() - c,
    {
        let ghost pre = cells.subrange(0, c as int);
        let ghost next = cells.subrange(0, c + 1);
        assert(next.drop_last() =~= pre);
        assert(next.last() == cells[c as int]);
        let obs = &cell_data[c].cell_loci_data;
        let ghost os = obs@;
        let ghost base = sites@;
        let mut count: usize = 0;
        let mut j: usize = 0;
        while j < obs.len()
            invariant
                j <= os.len(),
                os == obs@,
                os == cells[c as int].cell_loci_data@,
                c < cells.len(),
                used == loci_used@,
                obs_in_mask(cells, used),
                sites@ == base + cell_sites(os.subrange(0, j as int), c as int, used),
                count == cell_sites(os.subrange(0, j as int), c as int, used).len(),
                count <= j,
            decreases os.len() - j,
        {
            let o = obs[j];
            let ghost p = os.subrange(0, j as int);
            let ghost q = os.subrange(0, j + 1);
            assert(q.drop_last() =~= p);
            assert(q.last() == o);
            assert(cells[c as int].cell_loci_data@[j as int] == o);
            if loci_used[o.locus_index] {
                sites.push(
                    PmfSite {
                        cell_id: c,
                        locus_index: o.locus_index,
                        alt_count: o.alt_count,
                        ref_count: o.ref_count,
                        total: o.total,
                    },
                );
                count = count + 1;
                assert(sites@ =~= base + cell_sites(q, c as int, used));
            } else {
                assert(cell_sites(q, c as int, used) =~= cell_sites(p, c as int, used));
            }
            j = j + 1;
        }
        assert(os.subrange(0, os.len() as int) =~= os);
        per_cell.push(count);
        c = c + 1;
    }
    assert(cells.subrange(0, cells.len() as int) =~= cells);
    (sites, per_cell)
}

/// Per-locus tallies of the sites, split by whether the site's cell is in the
/// minority set.
#[derive(Debug, Clone, Copy, PartialEq, Eq, Structural)]
pub struct LocusPartition {
    pub minority_cells: usize,
    pub majority_cells: usize,
    pub minority_alt: u128,
    pub minority_ref: u128,
    pub majority_alt: u128,
    pub majority_ref: u128,
}

/// Number of sites at locus `l` whose cell is (`inside`) or is not in `pick`.
pub open spec fn site_count(sites: Seq<PmfSite>, l: int, pick: Set<usize>, inside: bool) -> nat
    decreases sites.len(),
{
    if sites.len() == 0 {
        0
    } else {
        site_count(sites.drop_last(), l, pick, inside) + if sites.last().locus_index == l
            && pick.contains(sites.last().cell_id) == inside {
            1nat
        } else {
            0
        }
    }
}

/// Sum of the alternate (`alt`) or reference counts of the sites that `site_count` counts.
pub open spec fn site_sum(sites: Seq<PmfSite>, l: int, pick: Set<usize>, inside: bool, alt: bool) -> nat
    decreases sites.len(),
{
    if sites.len() == 0 {
        0
    } else {
        site_sum(sites.drop_last(), l, pick, inside, alt) + if sites.last().locus_index == l
            && pick.contains(sites.last().cell_id) == inside {
            if alt {
                sites.last().alt_count as nat
            } else {
                sites.last().ref_count as nat
            }
        } else {
            0
        }
    }
}

pub open spec fn partition_matches(p: LocusPartition, sites: Seq<PmfSite>, l: int, minority: Set<usize>) -> bool {
    &&& p.minority_cells == site_count(sites, l, minority, true)
    &&& p.majority_cells == site_count(sites, l, minority, false)
    &&& p.minority_alt == site_sum(sites, l, minority, true, true)
    &&& p.minority_ref == site_sum(sites, l, minority, true, false)
    &&& p.majority_alt == site_sum(sites, l, minority, false, true)
    &&& p.majority_ref == site_sum(sites, l, minority, false, false)
}

/// Tallies, for each of `n_loci` loci, the minority and majority sites there:
/// how many, and their allele sums.
pub fn locus_partition_counts(sites: &Vec<PmfSite>, minority: &CellIdSet, n_loci: usize) -> (r: Vec<
    LocusPartition,
>)
    requires
        forall|i: int| 0 <= i < sites@.len() ==> (#[trigger] sites@[i]).locus_index < n_loci,
    ensures
        r@.len() == n_loci,
        forall|l: int| 0 <= l < n_loci ==> partition_matches(#[trigger] r@[l], sites@, l, minority@),
{
    let ghost s = sites@;
    let ghost m = minority@;
    let zero = LocusPartition {
        minority_cells: 0,
        majority_cells: 0,
        minority_alt: 0,
        minority_ref: 0,
        majority_alt: 0,
        majority_ref: 0,
    };
    let mut r: Vec<LocusPartition> = Vec::new();
    let mut l: usize = 0;
    while l < n_loci
        invariant
            l <= n_loci,
            r@.len() == l,
            forall|k: int| 0 <= k < l ==> #[trigger] r@[k] == zero,
        decreases n_loci - l,
    {
        r.push(zero);
        l = l + 1;
    }
    let big: u128 = 0xFFFF_FFFF_FFFF_FFFF;
    let mut i: usize = 0;
    while i < sites.len()
        invariant
            i <= s.len(),
            s == sites@,
            m == minority@,
            big == 0xFFFF_FFFF_FFFF_FFFFu128,
            forall|k: int| 0 <= k < s.len() ==> (#[trigger] s[k]).locus_index < n_loci,
            r@.len() == n_loci,
            forall|k: int|
                0 <= k < n_loci ==> partition_matches(#[trigger] r@[k], s.subrange(0, i as int), k, m),
            forall|k: int|
                0 <= k < n_loci ==> {
                    &&& (#[trigger] r@[k]).minority_cells + r@[k].majority_cells <= i
                    &&& r@[k].minority_alt <= i * big
                    &&& r@[k].minority_ref <= i * big
                    &&& r@[k].majority_alt <= i * big
                    &&& r@[k].majority_ref <= i * big
                },
        decreases s.len() - i,
    {
        let x = sites[i];
        let li = x.locus_index;
        let inside = minority.contains(x.cell_id);
        let ghost p = s.subrange(0, i as int);
        let ghost q = s.subrange(0, i + 1);
        assert(q.drop_last() =~= p);
        assert(q.last() == x);
        let cur = r[li];
        assert(cur.minority_alt + (x.alt_count as u128) <= (i + 1) * big
            && cur.minority_ref + (x.ref_count as u128) <= (i + 1) * big
            && cur.majority_alt + (x.alt_count as u128) <= (i + 1) * big
            && cur.majority_ref + (x.ref_count as u128) <= (i + 1) * big
            && (i + 1) * big <= u128::MAX) by (nonlinear_arith)
            requires
                cur.minority_alt <= i * big,
                cur.minority_ref <= i * big,
                cur.majority_alt <= i * big,
                cur.majority_ref <= i * big,
                x.alt_count <= big,
                x.ref_count <= big,
                i < 0x1_0000_0000_0000_0000int,
                big == 0xFFFF_FFFF_FFFF_FFFFu128,
        ;
        let upd = if inside {
            LocusPartition {
                minority_cells: cur.minority_cells + 1,
                minority_alt: cur.minority_alt + x.alt_count as u128,
                minority_ref: cur.minority_ref + x.ref_count as u128,
                ..cur
            }
        } else {
            LocusPartition {
                majority_cells: cur.majority_cells + 1,
                majority_alt: cur.majority_alt + x.alt_count as u128,
                majority_ref: cur.majority_ref + x.ref_count as u128,
                ..cur
            }
        };
        r.set(li, upd);
        assert forall|k: int| 0 <= k < n_loci implies (#[trigger] r@[k]).minority_alt <= (i + 1) * big
            && r@[k].minority_ref <= (i + 1) * big && r@[k].majority_alt <= (i + 1) * big
            && r@[k].majority_ref <= (i + 1) * big by {
            assert(i * big <= (i + 1) * big) by (nonlinear_arith)
                requires
                    big >= 0,
            ;
        }
        i = i + 1;
    }
    assert(s.subrange(0, s.len() as int) =~= s);
    r
}

} // verus!
