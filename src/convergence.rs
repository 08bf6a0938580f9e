//! The state of the iterative reclassification: the current minority set, every
//! cell ever flagged, the loci still in use, and when to stop.
use vstd::prelude::*;
use crate::cell_set::CellIdSet;
use crate::locus_filter::locus_filter;

verus! {

#[derive(Debug, Clone, Copy, PartialEq, Eq, Structural)]
pub enum LoopStatus {
    /// The minority set changed: run another iteration.
    Iterating,
    /// The minority set is the one the previous iteration produced.
    Converged,
    /// The minority set still changed, but the iteration cap is reached.
    IterationCapReached,
}

/// What an iteration that produced `new_minority` after `previous` reports,
/// given the iteration count after it and the cap.
pub open spec fn next_status(previous: Set<usize>, new_minority: Set<usize>, iteration: nat, max: nat) -> LoopStatus {
    if new_minority == previous {
        LoopStatus::Converged
    } else if iteration >= max {
        LoopStatus::IterationCapReached
    } else {
        LoopStatus::Iterating
    }
}

/// The loop's own state. Cell ids run below `num_cells`; the excluded set
/// starts empty and is replaced by each iteration's minority set.
pub struct ConvergenceLoop {
    excluded: CellIdSet,
    ever_excluded: CellIdSet,
    loci_used: Vec<bool>,
    num_cells: usize,
    iteration: usize,
    max_iterations: usize,
}

impl ConvergenceLoop {
    pub closed spec fn excluded_ids(&self) -> Set<usize> {
        self.excluded@
    }

    pub closed spec fn ever_excluded_ids(&self) -> Set<usize> {
        self.ever_excluded@
    }

    pub closed spec fn loci(&self) -> Seq<bool> {
        self.loci_used@
    }

    pub closed spec fn cells(&self) -> nat {
        self.num_cells as nat
    }

    pub closed spec fn iterations(&self) -> nat {
        self.iteration as nat
    }

    pub closed spec fn cap(&self) -> nat {
        self.max_iterations as nat
    }

    pub closed spec fn wf(&self) -> bool {
        &&& forall|id: usize| self.excluded@.contains(id) ==> id < self.num_cells
        &&& forall|id: usize| self.ever_excluded@.contains(id) ==> id < self.num_cells
        &&& self.iteration <= self.max_iterations
    }

    pub fn new(num_cells: usize, loci_used: Vec<bool>, max_iterations: usize) -> (r: ConvergenceLoop)
        ensures
            r.wf(),
            r.excluded_ids() == Set::<usize>::empty(),
            r.ever_excluded_ids() == Set::<usize>::empty(),
            r.loci() == loci_used@,
            r.cells() == num_cells,
            r.iterations() == 0,
            r.cap() == max_iterations,
    {
        ConvergenceLoop {
            excluded: CellIdSet::new(),
            ever_excluded: CellIdSet::new(),
            loci_used,
            num_cells,
            iteration: 0,
            max_iterations,
        }
    }

    pub fn excluded(&self) -> (r: &CellIdSet)
        ensures
            r@ == self.excluded_ids(),
    {
        &self.excluded
    }

    pub fn ever_excluded(&self) -> (r: &CellIdSet)
        ensures
            r@ == self.ever_excluded_ids(),
    {
        &self.ever_excluded
    }

    pub fn loci_used(&self) -> (r: &Vec<bool>)
        ensures
            r@ == self.loci(),
    {
        &self.loci_used
    }

    pub fn iteration(&self) -> (r: usize)
        ensures
            r == self.iterations(),
    {
        self.iteration
    }

    /// Takes the minority set that an iteration produced: it becomes the
    /// excluded set (replacing the old one), joins the cells ever flagged, and
    /// the iteration is counted. Reports `Converged` when the set did not change.
    pub fn record_iteration(&mut self, new_minority: CellIdSet) -> (s: LoopStatus)
        requires
            old(self).wf(),
            forall|id: usize| new_minority@.contains(id) ==> id < old(self).cells(),
        ensures
            final(self).wf(),
            final(self).excluded_ids() == new_minority@,
            final(self).ever_excluded_ids() == old(self).ever_excluded_ids().union(new_minority@),
            final(self).loci() == old(self).loci(),
            final(self).cells() == old(self).cells(),
            final(self).cap() == old(self).cap(),
            final(self).iterations() == if old(self).iterations() < old(self).cap() {
                old(self).iterations() + 1
            } else {
                old(self).iterations()
            },
            s == next_status(
                old(self).excluded_ids(),
                new_minority@,
                final(self).iterations(),
                final(self).cap(),
            ),
    {
        let n = self.num_cells;
        let mut changed = false;
        let mut c: usize = 0;
        while c < n
            invariant
                c <= n == self.num_cells,
                changed <==> exists|id: usize|
                    id < c && #[trigger] new_minority@.contains(id) != self.excluded@.contains(id),
            decreases n - c,
        {
            if new_minority.contains(c) != self.excluded.contains(c) {
                changed = true;
            }
            c = c + 1;
        }
        proof {
            if !changed {
                assert(new_minority@ =~= self.excluded@) by {
                    assert forall|id: usize| new_minority@.contains(id) == self.excluded@.contains(id) by {
                        if id >= n {
                            assert(!new_minority@.contains(id));
                            assert(!self.excluded@.contains(id));
                        }
                    }
                }
            }
        }
        let ids = new_minority.ids_below(n);
        let ghost ever_before = self.ever_excluded@;
        assert(ids@.subrange(0, 0) =~= Seq::<usize>::empty());
        let mut k: usize = 0;
        while k < ids.len()
            invariant
                k <= ids@.len(),
                n == self.num_cells,
                self.num_cells == old(self).num_cells,
                self.loci_used@ == old(self).loci_used@,
                self.iteration == old(self).iteration,
                self.max_iterations == old(self).max_iterations,
                self.excluded@ == old(self).excluded@,
                ever_before == old(self).ever_excluded@,
                forall|id: usize| ids@.contains(id) <==> (id < n && new_minority@.contains(id)),
                forall|id: usize|
                    self.ever_excluded@.contains(id) <==> (ever_before.contains(id)
                        || ids@.subrange(0, k as int).contains(id)),
            decreases ids@.len() - k,
        {
            let ghost before = self.ever_excluded@;
            let id_k = ids[k];
            assert(id_k == ids@[k as int]);
            assert(forall|id: usize| before.contains(id) <==> (ever_before.contains(id)
                || ids@.subrange(0, k as int).contains(id)));
            self.ever_excluded.insert(id_k);
            assert(self.ever_excluded@ == before.insert(ids@[k as int]));
            proof {
                assert forall|id: usize| ids@.subrange(0, k + 1).contains(id) <==> (ids@.subrange(
                    0,
                    k as int,
                ).contains(id) || id == ids@[k as int]) by {
                    let p = ids@.subrange(0, k as int);
                    let q = ids@.subrange(0, k + 1);
                    if q.contains(id) {
                        let m = choose|m: int| 0 <= m < q.len() && q[m] == id;
                        if m < k {
                            assert(p[m] == id);
                        }
                    }
                    if p.contains(id) {
                        let m = choose|m: int| 0 <= m < p.len() && p[m] == id;
                        assert(q[m] == id);
                    }
                    if id == ids@[k as int] {
                        assert(q[k as int] == id);
                    }
                }
                assert forall|id: usize| self.ever_excluded@.contains(id) <==> (ever_before.contains(id)
                    || ids@.subrange(0, k + 1).contains(id)) by {
                    assert(self.ever_excluded@.contains(id) <==> (before.contains(id) || id == ids@[k as int]));
                    assert(before.contains(id) <==> (ever_before.contains(id) || ids@.subrange(
                        0,
                        k as int,
                    ).contains(id)));
                    assert(ids@.subrange(0, k + 1).contains(id) <==> (ids@.subrange(0, k as int).contains(
                        id,
                    ) || id == ids@[k as int]));
                }
            }
            k = k + 1;
        }
        proof {
            assert(ids@.subrange(0, ids@.len() as int) =~= ids@);
            assert forall|id: usize| self.ever_excluded@.contains(id) <==> ever_before.union(
                new_minority@,
            ).contains(id) by {
                assert(k == ids@.len());
                assert(self.ever_excluded@.contains(id) <==> (ever_before.contains(id) || ids@.subrange(
                    0,
                    k as int,
                ).contains(id)));
                assert(ids@.subrange(0, k as int) == ids@);
                assert(ids@.contains(id) <==> (id < n && new_minority@.contains(id)));
                if new_minority@.contains(id) {
                    assert(id < old(self).cells());
                }
            }
            assert(self.ever_excluded@ =~= ever_before.union(new_minority@));
            assert forall|id: usize| self.ever_excluded@.contains(id) implies id < n by {
                if ever_before.contains(id) {
                } else {
                    assert(new_minority@.contains(id));
                }
            }
        }
        self.excluded = new_minority;
        if self.iteration < self.max_iterations {
            self.iteration = self.iteration + 1;
        }
        if !changed {
            LoopStatus::Converged
        } else if self.iteration >= self.max_iterations {
            LoopStatus::IterationCapReached
        } else {
            LoopStatus::Iterating
        }
    }

    /// Switches off, for all later iterations, every locus whose per-cell
    /// minority contribution key is below `threshold_key`.
    pub fn filter_loci(&mut self, per_cell_keys: &Vec<u64>, threshold_key: u64)
        requires
            old(self).wf(),
            per_cell_keys@.len() == old(self).loci().len(),
        ensures
            final(self).wf(),
            final(self).excluded_ids() == old(self).excluded_ids(),
            final(self).ever_excluded_ids() == old(self).ever_excluded_ids(),
            final(self).cells() == old(self).cells(),
            final(self).iterations() == old(self).iterations(),
            final(self).cap() == old(self).cap(),
            final(self).loci().len() == old(self).loci().len(),
            forall|l: int|
                0 <= l < final(self).loci().len() ==> #[trigger] final(self).loci()[l] == (old(
                    self,
                ).loci()[l] && !(per_cell_keys@[l] < threshold_key)),
    {
        locus_filter(&mut self.loci_used, per_cell_keys, threshold_key);
    }
}

/// At a fixed point the loop stops where it is: handed back the minority set
/// it already holds, it reports convergence and keeps that set.
pub proof fn lemma_fixed_point_is_stable(excluded: Set<usize>, iteration: nat, max: nat)
    ensures
        next_status(excluded, excluded, iteration, max) == LoopStatus::Converged,
{
}

} // verus!
