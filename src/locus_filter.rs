//! Deactivation of loci whose contribution to the minority's likelihood is
//! implausibly large.
use vstd::prelude::*;

verus! {

/// Switches off every locus whose per-cell minority contribution key is below
/// `threshold_key`. A locus once off stays off.
pub fn locus_filter(used_loci: &mut Vec<bool>, per_cell_keys: &Vec<u64>, threshold_key: u64)
    requires
        old(used_loci)@.len() == per_cell_keys@.len(),
    ensures
        final(used_loci)@.len() == old(used_loci)@.len(),
        forall|l: int|
            0 <= l < final(used_loci)@.len() ==> #[trigger] final(used_loci)@[l] == (old(used_loci)@[l]
                && !(per_cell_keys@[l] < threshold_key)),
{
    let n = used_loci.len();
    let mut l: usize = 0;
    while l < n
        invariant
            l <= n == used_loci@.len() == old(used_loci)@.len() == per_cell_keys@.len(),
            forall|k: int|
                0 <= k < l ==> #[trigger] used_loci@[k] == (old(used_loci)@[k] && !(per_cell_keys@[k]
                    < threshold_key)),
            forall|k: int| l <= k < n ==> #[trigger] used_loci@[k] == old(used_loci)@[k],
        decreases n - l,
    {
        if per_cell_keys[l] < threshold_key {
            used_loci.set(l, false);
        }
        l = l + 1;
    }
}

/// The loci at which at least one minority observation was counted, in order.
pub fn loci_with_minority(minority_cells: &Vec<usize>) -> (r: Vec<usize>)
    ensures
        forall|i: int, j: int| 0 <= i < j < r@.len() ==> r@[i] < r@[j],
        forall|l: usize| r@.contains(l) <==> (l < minority_cells@.len() && minority_cells@[l as int] > 0),
{
    let mut r: Vec<usize> = Vec::new();
    let mut l: usize = 0;
    while l < minority_cells.len()
        invariant
            l <= minority_cells@.len(),
            forall|i: int, j: int| 0 <= i < j < r@.len() ==> r@[i] < r@[j],
            forall|i: int| 0 <= i < r@.len() ==> r@[i] < l,
            forall|k: usize| r@.contains(k) <==> (k < l && minority_cells@[k as int] > 0),
        decreases minority_cells@.len() - l,
    {
        let ghost before = r@;
        if minority_cells[l] > 0 {
            r.push(l);
            proof {
                assert forall|k: usize| r@.contains(k) <==> (before.contains(k) || k == l) by {
                    if r@.contains(k) {
                        let m = choose|m: int| 0 <= m < r@.len() && r@[m] == k;
                        if m < before.len() {
                            assert(before[m] == k);
                        }
                    }
                    if before.contains(k) {
                        let m = choose|m: int| 0 <= m < before.len() && before[m] == k;
                        assert(r@[m] == k);
                    }
                    if k == l {
                        assert(r@[before.len() as int] == k);
                    }
                }
            }
        }
        assert forall|k: usize| r@.contains(k) <==> (k < l + 1 && minority_cells@[k as int] > 0) by {
            assert(before.contains(k) <==> (k < l && minority_cells@[k as int] > 0));
            if minority_cells@[l as int] > 0 {
                assert(r@.contains(k) <==> (before.contains(k) || k == l));
            } else {
                assert(r@ == before);
            }
        }
        l = l + 1;
    }
    r
}

} // verus!
