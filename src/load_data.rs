//! From the entries of the count matrices to cells, kept loci and locus totals.
use vstd::prelude::*;
use crate::cell_set::CellIdSet;
use crate::mtx::VartrixDatum;
use crate::cells::{
    AlleleCount, CellData, CellLocusData, cells_well_formed, obs_sum, total_sum, allele,
    lemma_obs_sum_prefix, lemma_obs_sum_step, lemma_total_prefix,
};

verus! {

/// Why a set of count-matrix entries cannot be loaded.
#[derive(Debug, Clone, Copy, PartialEq, Eq, Structural)]
pub enum LoadError {
    /// An entry names a locus at or beyond the number of loci in the header.
    LocusOutOfRange,
    /// An entry names a cell at or beyond the number of cells in the header.
    CellOutOfRange,
    /// Fewer barcodes or labels than cells.
    MissingCellLabels,
    /// An allele total does not fit its integer type.
    CountOverflow,
}

/// Number of entries at locus `l` with a nonzero alternate (`alt`) or reference count.
pub open spec fn nonzero_cells(d: Seq<VartrixDatum>, l: int, alt: bool) -> nat
    decreases d.len(),
{
    if d.len() == 0 {
        0
    } else {
        nonzero_cells(d.drop_last(), l, alt) + if d.last().locus == l && (if alt {
            d.last().alt_count > 0
        } else {
            d.last().ref_count > 0
        }) {
            1nat
        } else {
            0
        }
    }
}

/// A locus is kept when at least `min_ref` cells show its reference allele
/// and at least `min_alt` cells its alternate allele.
pub open spec fn locus_qualifies(d: Seq<VartrixDatum>, l: int, min_ref: nat, min_alt: nat) -> bool {
    nonzero_cells(d, l, false) >= min_ref && nonzero_cells(d, l, true) >= min_alt
}

/// Number of kept loci below `l`: the index that a kept locus `l` gets.
pub open spec fn qualified_below(d: Seq<VartrixDatum>, l: int, min_ref: nat, min_alt: nat) -> nat
    decreases l,
{
    if l <= 0 {
        0
    } else {
        qualified_below(d, l - 1, min_ref, min_alt) + if locus_qualifies(d, l - 1, min_ref, min_alt) {
            1nat
        } else {
            0
        }
    }
}

pub open spec fn loci_in_range(d: Seq<VartrixDatum>, total_loci: nat) -> bool {
    forall|i: int| 0 <= i < d.len() ==> (#[trigger] d[i]).locus < total_loci
}

pub open spec fn cells_in_range(d: Seq<VartrixDatum>, total_cells: nat) -> bool {
    forall|i: int| 0 <= i < d.len() ==> (#[trigger] d[i]).cell_id < total_cells
}

pub proof fn lemma_qualified_below_mono(d: Seq<VartrixDatum>, l: int, m: int, min_ref: nat, min_alt: nat)
    requires
        0 <= l < m,
    ensures
        qualified_below(d, l, min_ref, min_alt) + (if locus_qualifies(d, l, min_ref, min_alt) {
            1nat
        } else {
            0nat
        }) <= qualified_below(d, m, min_ref, min_alt),
    decreases m - l,
{
    if m > l + 1 {
        lemma_qualified_below_mono(d, l, m - 1, min_ref, min_alt);
    }
}

/// Selects the loci to keep: for each locus of the matrices whether it is kept
/// and, if so, its index among the kept loci (`usize::MAX` for the others).
/// Returns the number of kept loci, the mask and the index map.
pub fn get_loci_used(data: &Vec<VartrixDatum>, total_loci: usize, min_ref: usize, min_alt: usize) -> (r:
    Result<(usize, Vec<bool>, Vec<usize>), LoadError>)
    ensures
        r is Err <==> !loci_in_range(data@, total_loci as nat),
        r matches Err(e) ==> e == LoadError::LocusOutOfRange,
        r matches Ok((n, used, index)) ==> {
            &&& n == qualified_below(data@, total_loci as int, min_ref as nat, min_alt as nat)
            &&& used@.len() == total_loci
            &&& index@.len() == total_loci
            &&& forall|l: int|
                0 <= l < total_loci ==> #[trigger] used@[l] == locus_qualifies(
                    data@,
                    l,
                    min_ref as nat,
                    min_alt as nat,
                )
            &&& forall|l: int|
                0 <= l < total_loci ==> #[trigger] index@[l] == if locus_qualifies(
                    data@,
                    l,
                    min_ref as nat,
                    min_alt as nat,
                ) {
                    qualified_below(data@, l, min_ref as nat, min_alt as nat) as usize
                } else {
                    usize::MAX
                }
        },
{
    let ghost d = data@;
    let mut ref_cells: Vec<usize> = Vec::new();
    let mut alt_cells: Vec<usize> = Vec::new();
    let mut l: usize = 0;
    while l < total_loci
        invariant
            l <= total_loci,
            ref_cells@.len() == l,
            alt_cells@.len() == l,
            forall|k: int| 0 <= k < l ==> #[trigger] ref_cells@[k] == 0,
            forall|k: int| 0 <= k < l ==> #[trigger] alt_cells@[k] == 0,
        decreases total_loci - l,
    {
        ref_cells.push(0);
        alt_cells.push(0);
        l = l + 1;
    }
    assert forall|k: int, b: bool| nonzero_cells(#[trigger] d.subrange(0, 0), k, b) == 0 by {
        assert(d.subrange(0, 0).len() == 0);
    }
    let mut i: usize = 0;
    while i < data.len()
        invariant
            i <= data@.len(),
            d == data@,
            ref_cells@.len() == total_loci,
            alt_cells@.len() == total_loci,
            forall|k: int| 0 <= k < i ==> (#[trigger] d[k]).locus < total_loci,
            forall|k: int|
                0 <= k < total_loci ==> #[trigger] ref_cells@[k] == nonzero_cells(
                    d.subrange(0, i as int),
                    k,
                    false,
                ),
            forall|k: int|
                0 <= k < total_loci ==> #[trigger] alt_cells@[k] == nonzero_cells(
                    d.subrange(0, i as int),
                    k,
                    true,
                ),
            forall|k: int| 0 <= k < total_loci ==> #[trigger] ref_cells@[k] <= i,
            forall|k: int| 0 <= k < total_loci ==> #[trigger] alt_cells@[k] <= i,
        decreases data@.len() - i,
    {
        let x = data[i];
        if x.locus >= total_loci {
            return Err(LoadError::LocusOutOfRange);
        }
        proof {
            let p = d.subrange(0, i as int);
            let q = d.subrange(0, i + 1);
            assert(q.drop_last() =~= p);
            assert(q.last() == x);
            assert forall|k: int, b: bool| #[trigger] nonzero_cells(q, k, b) == nonzero_cells(p, k, b)
                + if x.locus == k && (if b {
                x.alt_count > 0
            } else {
                x.ref_count > 0
            }) {
                1nat
            } else {
                0
            } by {}
        }
        if x.ref_count > 0 {
            let v = ref_cells[x.locus];
            ref_cells.set(x.locus, v + 1);
        }
        if x.alt_count > 0 {
            let v = alt_cells[x.locus];
            alt_cells.set(x.locus, v + 1);
        }
        i = i + 1;
    }
    assert(d.subrange(0, d.len() as int) =~= d);
    let mut used: Vec<bool> = Vec::new();
    let mut index: Vec<usize> = Vec::new();
    let mut n: usize = 0;
    let mut l: usize = 0;
    while l < total_loci
        invariant
            l <= total_loci,
            d == data@,
            ref_cells@.len() == total_loci,
            alt_cells@.len() == total_loci,
            forall|k: int|
                0 <= k < total_loci ==> #[trigger] ref_cells@[k] == nonzero_cells(d, k, false)
                    && alt_cells@[k] == nonzero_cells(d, k, true),
            used@.len() == l,
            index@.len() == l,
            n == qualified_below(d, l as int, min_ref as nat, min_alt as nat),
            n <= l,
            forall|k: int|
                0 <= k < l ==> #[trigger] used@[k] == locus_qualifies(d, k, min_ref as nat, min_alt as nat),
            forall|k: int|
                0 <= k < l ==> #[trigger] index@[k] == if locus_qualifies(
                    d,
                    k,
                    min_ref as nat,
                    min_alt as nat,
                ) {
                    qualified_below(d, k, min_ref as nat, min_alt as nat) as usize
                } else {
                    usize::MAX
                },
        decreases total_loci - l,
    {
        if ref_cells[l] >= min_ref && alt_cells[l] >= min_alt {
            used.push(true);
            index.push(n);
            n = n + 1;
        } else {
            used.push(false);
            index.push(usize::MAX);
        }
        l = l + 1;
    }
    Ok((n, used, index))
}

/// One cell record per cell id, with its barcode and label and no observations yet.
pub fn init_cell_data(
    total_cells: usize,
    cell_id_to_barcode: &Vec<String>,
    cell_id_to_assignment: &Vec<String>,
) -> (r: Vec<CellData>)
    requires
        cell_id_to_barcode@.len() >= total_cells,
        cell_id_to_assignment@.len() >= total_cells,
    ensures
        r@.len() == total_cells,
        forall|c: int|
            0 <= c < total_cells ==> {
                &&& (#[trigger] r@[c]).cell_id == c
                &&& r@[c].barcode@ == cell_id_to_barcode@[c]@
                &&& r@[c].assignment@ == cell_id_to_assignment@[c]@
                &&& r@[c].cell_loci_data@.len() == 0
            },
{
    let mut cells: Vec<CellData> = Vec::new();
    let mut c: usize = 0;
    while c < total_cells
        invariant
            c <= total_cells,
            cell_id_to_barcode@.len() >= total_cells,
            cell_id_to_assignment@.len() >= total_cells,
            cells@.len() == c,
            forall|k: int|
                0 <= k < c ==> {
                    &&& (#[trigger] cells@[k]).cell_id == k
                    &&& cells@[k].barcode@ == cell_id_to_barcode@[k]@
                    &&& cells@[k].assignment@ == cell_id_to_assignment@[k]@
                    &&& cells@[k].cell_loci_data@.len() == 0
                },
        decreases total_cells - c,
    {
        cells.push(
            CellData {
                cell_id: c,
                barcode: cell_id_to_barcode[c].clone(),
                assignment: cell_id_to_assignment[c].clone(),
                cell_loci_data: Vec::new(),
            },
        );
        c = c + 1;
    }
    cells
}


/// The observation that a kept entry becomes.
pub open spec fn obs_of(d: Seq<VartrixDatum>, x: VartrixDatum, min_ref: nat, min_alt: nat) -> CellLocusData {
    CellLocusData {
        locus_index: qualified_below(d, x.locus as int, min_ref, min_alt) as usize,
        locus_id: x.locus,
        alt_count: x.alt_count,
        ref_count: x.ref_count,
        total: (x.alt_count + x.ref_count) as usize,
    }
}

/// The observations of cell `c` among the first `upto` entries: those at kept
/// loci, in file order.
pub open spec fn kept_obs(d: Seq<VartrixDatum>, upto: int, c: int, min_ref: nat, min_alt: nat) -> Seq<
    CellLocusData,
>
    decreases upto,
{
    if upto <= 0 {
        Seq::empty()
    } else {
        let x = d[upto - 1];
        kept_obs(d, upto - 1, c, min_ref, min_alt) + if x.cell_id == c && locus_qualifies(
            d,
            x.locus as int,
            min_ref,
            min_alt,
        ) {
            seq![obs_of(d, x, min_ref, min_alt)]
        } else {
            Seq::empty()
        }
    }
}

/// Every observation that loading records sits at a kept locus, under that
/// locus's index among the kept loci: a locus that fails the thresholds never
/// reaches a cell record, and so never a likelihood.
pub proof fn lemma_kept_obs_only_at_kept_loci(
    d: Seq<VartrixDatum>,
    upto: int,
    c: int,
    min_ref: nat,
    min_alt: nat,
    j: int,
)
    requires
        0 <= j < kept_obs(d, upto, c, min_ref, min_alt).len(),
    ensures
        locus_qualifies(d, kept_obs(d, upto, c, min_ref, min_alt)[j].locus_id as int, min_ref, min_alt),
        kept_obs(d, upto, c, min_ref, min_alt)[j].locus_index == qualified_below(
            d,
            kept_obs(d, upto, c, min_ref, min_alt)[j].locus_id as int,
            min_ref,
            min_alt,
        ) as usize,
    decreases upto,
{
    if upto > 0 {
        let prev = kept_obs(d, upto - 1, c, min_ref, min_alt);
        if j < prev.len() {
            lemma_kept_obs_only_at_kept_loci(d, upto - 1, c, min_ref, min_alt, j);
        }
    }
}

/// Sum over the first `n_cells` cells of their kept counts at kept locus `u`.
pub open spec fn kept_sum(d: Seq<VartrixDatum>, n_cells: int, u: int, alt: bool, min_ref: nat, min_alt: nat) -> nat
    decreases n_cells,
{
    if n_cells <= 0 {
        0
    } else {
        kept_sum(d, n_cells - 1, u, alt, min_ref, min_alt) + obs_sum(
            kept_obs(d, d.len() as int, n_cells - 1, min_ref, min_alt),
            u,
            alt,
        )
    }
}

/// Some kept entry's two counts do not add up within `usize`, or some kept
/// locus's total does not fit in `u64`.
pub open spec fn counts_overflow(
    d: Seq<VartrixDatum>,
    total_loci: nat,
    total_cells: nat,
    min_ref: nat,
    min_alt: nat,
) -> bool {
    ||| exists|i: int|
        0 <= i < d.len() && locus_qualifies(d, (#[trigger] d[i]).locus as int, min_ref, min_alt)
            && d[i].alt_count + d[i].ref_count > usize::MAX
    ||| exists|u: int, alt: bool|
        0 <= u < qualified_below(d, total_loci as int, min_ref, min_alt) && #[trigger] kept_sum(
            d,
            total_cells as int,
            u,
            alt,
            min_ref,
            min_alt,
        ) > u64::MAX
}

proof fn lemma_total_is_kept_sum(
    cells: Seq<CellData>,
    d: Seq<VartrixDatum>,
    k: int,
    u: int,
    alt: bool,
    min_ref: nat,
    min_alt: nat,
)
    requires
        0 <= k <= cells.len(),
        forall|c: int|
            0 <= c < cells.len() ==> (#[trigger] cells[c]).cell_loci_data@ == kept_obs(
                d,
                d.len() as int,
                c,
                min_ref,
                min_alt,
            ),
    ensures
        total_sum(cells.subrange(0, k), u, alt) == kept_sum(d, k, u, alt, min_ref, min_alt),
    decreases k,
{
    if k > 0 {
        assert(cells.subrange(0, k).drop_last() =~= cells.subrange(0, k - 1));
        assert(cells.subrange(0, k).last() == cells[k - 1]);
        lemma_total_is_kept_sum(cells, d, k - 1, u, alt, min_ref, min_alt);
    }
}

/// Sums, for each of `n_loci` loci, the counts of all cells' observations there;
/// `None` when a sum does not fit in `u64`.
pub fn aggregate_locus_counts(cell_data: &Vec<CellData>, n_loci: usize) -> (r: Option<Vec<AlleleCount>>)
    requires
        forall|c: int, j: int|
            0 <= c < cell_data@.len() && 0 <= j < cell_data@[c].cell_loci_data@.len()
                ==> (#[trigger] cell_data@[c].cell_loci_data@[j]).locus_index < n_loci,
    ensures
        r is None <==> exists|l: int, alt: bool|
            0 <= l < n_loci && #[trigger] total_sum(cell_data@, l, alt) > u64::MAX,
        r matches Some(v) ==> v@.len() == n_loci && forall|l: int|
            0 <= l < n_loci ==> (#[trigger] v@[l]).alt_count == total_sum(cell_data@, l, true)
                && v@[l].ref_count == total_sum(cell_data@, l, false),
{
    let ghost cells = cell_data@;
    let mut v: Vec<AlleleCount> = Vec::new();
    let mut l: usize = 0;
    while l < n_loci
        invariant
            l <= n_loci,
            v@.len() == l,
            forall|k: int| 0 <= k < l ==> (#[trigger] v@[k]).alt_count == 0 && v@[k].ref_count == 0,
        decreases n_loci - l,
    {
        v.push(AlleleCount { ref_count: 0, alt_count: 0 });
        l = l + 1;
    }
    let mut c: usize = 0;
    while c < cell_data.len()
        invariant
            c <= cells.len(),
            cells == cell_data@,
            forall|c2: int, j2: int|
                0 <= c2 < cells.len() && 0 <= j2 < cells[c2].cell_loci_data@.len()
                    ==> (#[trigger] cells[c2].cell_loci_data@[j2]).locus_index < n_loci,
            v@.len() == n_loci,
            forall|k: int|
                0 <= k < n_loci ==> (#[trigger] v@[k]).alt_count == total_sum(
                    cells.subrange(0, c as int),
                    k,
                    true,
                ) && v@[k].ref_count == total_sum(cells.subrange(0, c as int), k, false),
        decreases cells.len() - c,
    {
        let ghost pre = cells.subrange(0, c as int);
        let ghost next = cells.subrange(0, c + 1);
        assert(next.drop_last() =~= pre);
        assert(next.last() == cells[c as int]);
        let obs = &cell_data[c].cell_loci_data;
        let ghost os = obs@;
        let mut j: usize = 0;
        while j < obs.len()
            invariant
                j <= os.len(),
                os == obs@,
                os == cells[c as int].cell_loci_data@,
                c < cells.len(),
                cells == cell_data@,
                pre == cells.subrange(0, c as int),
                next == cells.subrange(0, c + 1),
                next.drop_last() == pre,
                next.last() == cells[c as int],
                forall|c2: int, j2: int|
                    0 <= c2 < cells.len() && 0 <= j2 < cells[c2].cell_loci_data@.len()
                        ==> (#[trigger] cells[c2].cell_loci_data@[j2]).locus_index < n_loci,
                v@.len() == n_loci,
                forall|k: int|
                    0 <= k < n_loci ==> (#[trigger] v@[k]).alt_count == total_sum(pre, k, true)
                        + obs_sum(os.subrange(0, j as int), k, true) && v@[k].ref_count
                        == total_sum(pre, k, false) + obs_sum(os.subrange(0, j as int), k, false),
            decreases os.len() - j,
        {
            let o: &CellLocusData = &obs[j];
            let li = o.locus_index;
            proof {
                assert(cells[c as int].cell_loci_data@[j as int] == os[j as int]);
                lemma_obs_sum_step(os, j as int, li as int, true);
                lemma_obs_sum_step(os, j as int, li as int, false);
            }
            let cur = v[li];
            let a = cur.alt_count.checked_add(o.alt_count as u64);
            let b = cur.ref_count.checked_add(o.ref_count as u64);
            if a.is_none() || b.is_none() {
                proof {
                    let alt = a.is_none();
                    lemma_obs_sum_prefix(os, j + 1, li as int, alt);
                    lemma_total_prefix(cells, c + 1, li as int, alt);
                    assert(total_sum(cells, li as int, alt) > u64::MAX);
                }
                return None;
            }
            v.set(li, AlleleCount { ref_count: b.unwrap(), alt_count: a.unwrap() });
            proof {
                assert forall|k: int| 0 <= k < n_loci && k != li implies (#[trigger] v@[k]).alt_count
                    == total_sum(pre, k, true) + obs_sum(os.subrange(0, j + 1), k, true)
                    && v@[k].ref_count == total_sum(pre, k, false) + obs_sum(
                    os.subrange(0, j + 1),
                    k,
                    false,
                ) by {
                    lemma_obs_sum_step(os, j as int, k, true);
                    lemma_obs_sum_step(os, j as int, k, false);
                }
            }
            j = j + 1;
        }
        assert(os.subrange(0, os.len() as int) =~= os);
        c = c + 1;
    }
    assert(cells.subrange(0, cells.len() as int) =~= cells);
    assert forall|l: int, alt: bool| 0 <= l < n_loci implies #[trigger] total_sum(cell_data@, l, alt)
        <= u64::MAX by {
        assert(v@[l].alt_count == total_sum(cells, l, true));
    }
    Some(v)
}

/// Loads the cells from the entries of the count matrices. Only entries at kept
/// loci (see `get_loci_used`) are recorded, each in its cell's observation list
/// in file order, with the locus renumbered among the kept loci. Returns the
/// mask of kept loci (all set), the matrix index of each kept locus, the cells,
/// and each kept locus's allele totals over all cells.
pub fn load_cell_data(
    data: &Vec<VartrixDatum>,
    total_loci: usize,
    total_cells: usize,
    min_ref: usize,
    min_alt: usize,
    cell_id_to_barcode: &Vec<String>,
    cell_id_to_assignment: &Vec<String>,
) -> (r: Result<(Vec<bool>, Vec<usize>, Vec<CellData>, Vec<AlleleCount>), LoadError>)
    ensures
        (r == Err::<(Vec<bool>, Vec<usize>, Vec<CellData>, Vec<AlleleCount>), LoadError>(
            LoadError::MissingCellLabels,
        )) <==> (cell_id_to_barcode@.len() < total_cells || cell_id_to_assignment@.len()
            < total_cells),
        (r == Err::<(Vec<bool>, Vec<usize>, Vec<CellData>, Vec<AlleleCount>), LoadError>(
            LoadError::LocusOutOfRange,
        )) <==> (cell_id_to_barcode@.len() >= total_cells && cell_id_to_assignment@.len()
            >= total_cells && !loci_in_range(data@, total_loci as nat)),
        (r == Err::<(Vec<bool>, Vec<usize>, Vec<CellData>, Vec<AlleleCount>), LoadError>(
            LoadError::CellOutOfRange,
        )) <==> (cell_id_to_barcode@.len() >= total_cells && cell_id_to_assignment@.len()
            >= total_cells && loci_in_range(data@, total_loci as nat) && !cells_in_range(
            data@,
            total_cells as nat,
        )),
        (r == Err::<(Vec<bool>, Vec<usize>, Vec<CellData>, Vec<AlleleCount>), LoadError>(
            LoadError::CountOverflow,
        )) <==> (cell_id_to_barcode@.len() >= total_cells && cell_id_to_assignment@.len()
            >= total_cells && loci_in_range(data@, total_loci as nat) && cells_in_range(
            data@,
            total_cells as nat,
        ) && counts_overflow(
            data@,
            total_loci as nat,
            total_cells as nat,
            min_ref as nat,
            min_alt as nat,
        )),
        r matches Ok((used, ids, cells, counts)) ==> {
            let n = qualified_below(data@, total_loci as int, min_ref as nat, min_alt as nat);
            &&& used@.len() == n
            &&& forall|u: int| 0 <= u < n ==> #[trigger] used@[u]
            &&& ids@.len() == n
            &&& forall|u: int|
                0 <= u < n ==> {
                    &&& #[trigger] ids@[u] < total_loci
                    &&& locus_qualifies(data@, ids@[u] as int, min_ref as nat, min_alt as nat)
                    &&& qualified_below(data@, ids@[u] as int, min_ref as nat, min_alt as nat) == u
                }
            &&& cells@.len() == total_cells
            &&& forall|c: int|
                0 <= c < total_cells ==> {
                    &&& (#[trigger] cells@[c]).barcode@ == cell_id_to_barcode@[c]@
                    &&& cells@[c].assignment@ == cell_id_to_assignment@[c]@
                    &&& cells@[c].cell_loci_data@ == kept_obs(
                        data@,
                        data@.len() as int,
                        c,
                        min_ref as nat,
                        min_alt as nat,
                    )
                }
            &&& counts@.len() == n
            &&& cells_well_formed(cells@, counts@)
        },
{
    let ghost d = data@;
    let ghost mr = min_ref as nat;
    let ghost ma = min_alt as nat;
    if cell_id_to_barcode.len() < total_cells || cell_id_to_assignment.len() < total_cells {
        return Err(LoadError::MissingCellLabels);
    }
    let (n, used, index) = match get_loci_used(data, total_loci, min_ref, min_alt) {
        Ok(t) => t,
        Err(e) => {
            return Err(e);
        },
    };
    let mut i: usize = 0;
    while i < data.len()
        invariant
            i <= d.len(),
            d == data@,
            cell_id_to_barcode@.len() >= total_cells,
            cell_id_to_assignment@.len() >= total_cells,
            loci_in_range(d, total_loci as nat),
            forall|k: int| 0 <= k < i ==> (#[trigger] d[k]).cell_id < total_cells,
        decreases d.len() - i,
    {
        if data[i].cell_id >= total_cells {
            return Err(LoadError::CellOutOfRange);
        }
        i = i + 1;
    }
    let mut cell_data = init_cell_data(total_cells, cell_id_to_barcode, cell_id_to_assignment);
    let mut i: usize = 0;
    while i < data.len()
        invariant
            i <= d.len(),
            d == data@,
            mr == min_ref as nat,
            ma == min_alt as nat,
            cell_id_to_barcode@.len() >= total_cells,
            cell_id_to_assignment@.len() >= total_cells,
            loci_in_range(d, total_loci as nat),
            cells_in_range(d, total_cells as nat),
            n == qualified_below(d, total_loci as int, mr, ma),
            used@.len() == total_loci,
            index@.len() == total_loci,
            forall|l: int| 0 <= l < total_loci ==> #[trigger] used@[l] == locus_qualifies(d, l, mr, ma),
            forall|l: int|
                0 <= l < total_loci ==> #[trigger] index@[l] == if locus_qualifies(d, l, mr, ma) {
                    qualified_below(d, l, mr, ma) as usize
                } else {
                    usize::MAX
                },
            forall|k: int|
                0 <= k < i && locus_qualifies(d, (#[trigger] d[k]).locus as int, mr, ma)
                    ==> d[k].alt_count + d[k].ref_count <= usize::MAX,
            cell_data@.len() == total_cells,
            forall|c: int|
                0 <= c < total_cells ==> {
                    &&& (#[trigger] cell_data@[c]).cell_id == c
                    &&& cell_data@[c].barcode@ == cell_id_to_barcode@[c]@
                    &&& cell_data@[c].assignment@ == cell_id_to_assignment@[c]@
                    &&& cell_data@[c].cell_loci_data@ == kept_obs(d, i as int, c, mr, ma)
                },
            forall|c: int, j: int|
                0 <= c < total_cells && 0 <= j < cell_data@[c].cell_loci_data@.len() ==> {
                    let o = #[trigger] cell_data@[c].cell_loci_data@[j];
                    &&& o.locus_index < n
                    &&& o.total == o.alt_count + o.ref_count
                },
        decreases d.len() - i,
    {
        let x = data[i];
        assert(d[i as int] == x);
        if used[x.locus] {
            let total = match x.alt_count.checked_add(x.ref_count) {
                Some(t) => t,
                None => {
                    return Err(LoadError::CountOverflow);
                },
            };
            proof {
                lemma_qualified_below_mono(d, x.locus as int, total_loci as int, mr, ma);
            }
            let o = CellLocusData {
                locus_index: index[x.locus],
                locus_id: x.locus,
                alt_count: x.alt_count,
                ref_count: x.ref_count,
                total: total,
            };
            assert(o == obs_of(d, x, mr, ma));
            let ghost before = cell_data@;
            cell_data[x.cell_id].cell_loci_data.push(o);
            proof {
                assert forall|c: int| 0 <= c < total_cells implies (#[trigger] cell_data@[c]).cell_loci_data@
                    == kept_obs(d, i + 1, c, mr, ma) by {
                    if c != x.cell_id {
                        assert(cell_data@[c] == before[c]);
                    }
                }
            }
        } else {
            assert forall|c: int| 0 <= c < total_cells implies (#[trigger] cell_data@[c]).cell_loci_data@
                == kept_obs(d, i + 1, c, mr, ma) by {
                assert(kept_obs(d, i + 1, c, mr, ma) =~= kept_obs(d, i as int, c, mr, ma));
            }
        }
        i = i + 1;
    }
    let counts = match aggregate_locus_counts(&cell_data, n) {
        Some(v) => v,
        None => {
            proof {
                let (l, alt) = choose|l: int, alt: bool|
                    0 <= l < n && #[trigger] total_sum(cell_data@, l, alt) > u64::MAX;
                lemma_total_is_kept_sum(cell_data@, d, total_cells as int, l, alt, mr, ma);
                assert(cell_data@.subrange(0, total_cells as int) =~= cell_data@);
                assert(kept_sum(d, total_cells as int, l, alt, mr, ma) > u64::MAX);
            }
            return Err(LoadError::CountOverflow);
        },
    };
    proof {
        assert forall|u: int, alt: bool|
            0 <= u < n implies #[trigger] kept_sum(d, total_cells as int, u, alt, mr, ma) <= u64::MAX by {
            lemma_total_is_kept_sum(cell_data@, d, total_cells as int, u, alt, mr, ma);
            assert(cell_data@.subrange(0, total_cells as int) =~= cell_data@);
        }
    }
    let mut loci_used: Vec<bool> = Vec::new();
    let mut ids: Vec<usize> = Vec::new();
    let mut l: usize = 0;
    while l < total_loci
        invariant
            l <= total_loci,
            d == data@,
            used@.len() == total_loci,
            forall|k: int| 0 <= k < total_loci ==> #[trigger] used@[k] == locus_qualifies(d, k, mr, ma),
            ids@.len() == qualified_below(d, l as int, mr, ma),
            loci_used@.len() == ids@.len(),
            forall|u: int| 0 <= u < loci_used@.len() ==> #[trigger] loci_used@[u],
            forall|u: int|
                0 <= u < ids@.len() ==> {
                    &&& #[trigger] ids@[u] < l
                    &&& locus_qualifies(d, ids@[u] as int, mr, ma)
                    &&& qualified_below(d, ids@[u] as int, mr, ma) == u
                },
        decreases total_loci - l,
    {
        if used[l] {
            ids.push(l);
            loci_used.push(true);
        }
        l = l + 1;
    }
    Ok((loci_used, ids, cell_data, counts))
}

/// Sum of the alternate (`alt`) or reference counts of the entries at locus
/// `l` whose cell is (`inside`) or is not in `pick`.
pub open spec fn entry_sum(d: Seq<VartrixDatum>, l: int, pick: Set<usize>, inside: bool, alt: bool) -> nat
    decreases d.len(),
{
    if d.len() == 0 {
        0
    } else {
        entry_sum(d.drop_last(), l, pick, inside, alt) + if d.last().locus == l && pick.contains(
            d.last().cell_id,
        ) == inside {
            if alt {
                d.last().alt_count as nat
            } else {
                d.last().ref_count as nat
            }
        } else {
            0
        }
    }
}

proof fn lemma_entry_sum_prefix(d: Seq<VartrixDatum>, n: int, l: int, pick: Set<usize>, inside: bool, alt: bool)
    requires
        0 <= n <= d.len(),
    ensures
        entry_sum(d.subrange(0, n), l, pick, inside, alt) <= entry_sum(d, l, pick, inside, alt),
    decreases d.len() - n,
{
    if n < d.len() {
        assert(d.subrange(0, n + 1).drop_last() =~= d.subrange(0, n));
        lemma_entry_sum_prefix(d, n + 1, l, pick, inside, alt);
    } else {
        assert(d.subrange(0, n) =~= d);
    }
}

pub open spec fn totals_match(v: Seq<AlleleCount>, d: Seq<VartrixDatum>, pick: Set<usize>, inside: bool) -> bool {
    forall|l: int|
        0 <= l < v.len() ==> (#[trigger] v[l]).alt_count == entry_sum(d, l, pick, inside, true)
            && v[l].ref_count == entry_sum(d, l, pick, inside, false)
}

/// Per-locus allele totals over all entries, one for the cells in
/// `excluded_cells` (the minority) and one for all other cells.
pub fn load_mtx_final(data: &Vec<VartrixDatum>, total_loci: usize, excluded_cells: &CellIdSet) -> (r: Result<
    (Vec<AlleleCount>, Vec<AlleleCount>),
    LoadError,
>)
    ensures
        (r == Err::<(Vec<AlleleCount>, Vec<AlleleCount>), LoadError>(LoadError::LocusOutOfRange)) <==> !loci_in_range(
            data@,
            total_loci as nat,
        ),
        (r == Err::<(Vec<AlleleCount>, Vec<AlleleCount>), LoadError>(LoadError::CountOverflow)) <==> (
        loci_in_range(data@, total_loci as nat) && exists|l: int, inside: bool, alt: bool|
            0 <= l < total_loci && #[trigger] entry_sum(data@, l, excluded_cells@, inside, alt) > u64::MAX),
        r is Err ==> r == Err::<(Vec<AlleleCount>, Vec<AlleleCount>), LoadError>(LoadError::LocusOutOfRange)
            || r == Err::<(Vec<AlleleCount>, Vec<AlleleCount>), LoadError>(LoadError::CountOverflow),
        r matches Ok((minority, majority)) ==> {
            &&& minority@.len() == total_loci
            &&& majority@.len() == total_loci
            &&& totals_match(minority@, data@, excluded_cells@, true)
            &&& totals_match(majority@, data@, excluded_cells@, false)
        },
{
    let ghost d = data@;
    let ghost ex = excluded_cells@;
    let mut i: usize = 0;
    while i < data.len()
        invariant
            i <= d.len(),
            d == data@,
            forall|k: int| 0 <= k < i ==> (#[trigger] d[k]).locus < total_loci,
        decreases d.len() - i,
    {
        if data[i].locus >= total_loci {
            return Err(LoadError::LocusOutOfRange);
        }
        i = i + 1;
    }
    let mut minority: Vec<AlleleCount> = Vec::new();
    let mut majority: Vec<AlleleCount> = Vec::new();
    let mut l: usize = 0;
    while l < total_loci
        invariant
            l <= total_loci,
            minority@.len() == l,
            majority@.len() == l,
            forall|k: int| 0 <= k < l ==> #[trigger] minority@[k] == (AlleleCount { ref_count: 0, alt_count: 0 }),
            forall|k: int| 0 <= k < l ==> #[trigger] majority@[k] == (AlleleCount { ref_count: 0, alt_count: 0 }),
        decreases total_loci - l,
    {
        minority.push(AlleleCount { ref_count: 0, alt_count: 0 });
        majority.push(AlleleCount { ref_count: 0, alt_count: 0 });
        l = l + 1;
    }
    let mut i: usize = 0;
    while i < data.len()
        invariant
            i <= d.len(),
            d == data@,
            ex == excluded_cells@,
            loci_in_range(d, total_loci as nat),
            minority@.len() == total_loci,
            majority@.len() == total_loci,
            totals_match(minority@, d.subrange(0, i as int), ex, true),
            totals_match(majority@, d.subrange(0, i as int), ex, false),
        decreases d.len() - i,
    {
        let x = data[i];
        let inside = excluded_cells.contains(x.cell_id);
        let ghost p = d.subrange(0, i as int);
        let ghost q = d.subrange(0, i + 1);
        assert(q.drop_last() =~= p);
        assert(q.last() == x);
        let cur = if inside {
            minority[x.locus]
        } else {
            majority[x.locus]
        };
        let a = cur.alt_count.checked_add(x.alt_count as u64);
        let b = cur.ref_count.checked_add(x.ref_count as u64);
        if a.is_none() || b.is_none() {
            proof {
                let alt = a.is_none();
                lemma_entry_sum_prefix(d, i + 1, x.locus as int, ex, inside, alt);
                assert(entry_sum(d, x.locus as int, ex, inside, alt) > u64::MAX);
            }
            return Err(LoadError::CountOverflow);
        }
        let upd = AlleleCount { ref_count: b.unwrap(), alt_count: a.unwrap() };
        if inside {
            minority.set(x.locus, upd);
        } else {
            majority.set(x.locus, upd);
        }
        i = i + 1;
    }
    assert(d.subrange(0, d.len() as int) =~= d);
    assert forall|l: int, inside: bool, alt: bool| 0 <= l < total_loci implies #[trigger] entry_sum(
        d,
        l,
        ex,
        inside,
        alt,
    ) <= u64::MAX by {
        assert(minority@[l].alt_count == entry_sum(d, l, ex, true, true));
        assert(majority@[l].alt_count == entry_sum(d, l, ex, false, true));
    }
    Ok((minority, majority))
}

} // verus!
