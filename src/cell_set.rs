//! A set of cell identities, kept in a `hashbrown` hash set.
use vstd::prelude::*;

verus! {

/// A set of cell ids (the cells currently flagged as the minority, say).
#[verifier::external_body]
pub struct CellIdSet {
    ids: hashbrown::HashSet<usize>,
}

/// The ids that a `CellIdSet` holds.
pub uninterp spec fn cell_ids(s: CellIdSet) -> Set<usize>;

impl View for CellIdSet {
    type V = Set<usize>;

    open spec fn view(&self) -> Set<usize> {
        cell_ids(*self)
    }
}

/// Relies on hashbrown::HashSet::new: the new set holds nothing.
#[verifier::external_body]
fn hash_set_new() -> (r: CellIdSet)
    ensures
        cell_ids(r) == Set::<usize>::empty(),
{
    CellIdSet { ids: hashbrown::HashSet::new() }
}

/// Relies on hashbrown::HashSet::insert: afterwards the set also holds `id`,
/// and nothing else changed.
#[verifier::external_body]
fn hash_set_insert(s: &mut CellIdSet, id: usize)
    ensures
        cell_ids(*final(s)) == cell_ids(*old(s)).insert(id),
{
    s.ids.insert(id);
}

/// Relies on hashbrown::HashSet::contains: whether `id` is in the set.
#[verifier::external_body]
fn hash_set_contains(s: &CellIdSet, id: usize) -> (r: bool)
    ensures
        r == cell_ids(*s).contains(id),
{
    s.ids.contains(&id)
}

/// Relies on hashbrown::HashSet::len: the number of ids in the set.
#[verifier::external_body]
fn hash_set_len(s: &CellIdSet) -> (r: usize)
    ensures
        r == cell_ids(*s).len(),
{
    s.ids.len()
}

impl CellIdSet {
    pub fn new() -> (r: CellIdSet)
        ensures
            r@ == Set::<usize>::empty(),
    {
        hash_set_new()
    }

    pub fn insert(&mut self, id: usize)
        ensures
            final(self)@ == old(self)@.insert(id),
    {
        hash_set_insert(self, id);
    }

    pub fn contains(&self, id: usize) -> (r: bool)
        ensures
            r == self@.contains(id),
    {
        hash_set_contains(self, id)
    }

    pub fn len(&self) -> (r: usize)
        ensures
            r == self@.len(),
    {
        hash_set_len(self)
    }

    /// The set of the ids that `ids` lists.
    pub fn from_ids(ids: &Vec<usize>) -> (r: CellIdSet)
        ensures
            forall|id: usize| r@.contains(id) <==> ids@.contains(id),
    {
        let mut s = CellIdSet::new();
        let mut i: usize = 0;
        while i < ids.len()
            invariant
                i <= ids@.len(),
                forall|id: usize| s@.contains(id) <==> ids@.subrange(0, i as int).contains(id),
            decreases ids@.len() - i,
        {
            proof {
                assert forall|id: usize|
                    ids@.subrange(0, i + 1).contains(id) <==> (ids@.subrange(0, i as int).contains(id)
                        || id == ids@[i as int]) by {
                    let p = ids@.subrange(0, i as int);
                    let q = ids@.subrange(0, i + 1);
                    if q.contains(id) {
                        let k = choose|k: int| 0 <= k < q.len() && q[k] == id;
                        if k < i {
                            assert(p[k] == id);
                        }
                    }
                    if p.contains(id) {
                        let k = choose|k: int| 0 <= k < p.len() && p[k] == id;
                        assert(q[k] == id);
                    }
                    if id == ids@[i as int] {
                        assert(q[i as int] == id);
                    }
                }
            }
            let ghost before = s@;
            s.insert(ids[i]);
            assert forall|id: usize| s@.contains(id) <==> ids@.subrange(0, i + 1).contains(id) by {
                assert(s@.contains(id) <==> (before.contains(id) || id == ids@[i as int]));
            }
            i = i + 1;
        }
        assert(ids@.subrange(0, ids@.len() as int) =~= ids@);
        s
    }

    /// The members below `n`, in increasing order.
    pub fn ids_below(&self, n: usize) -> (r: Vec<usize>)
        ensures
            forall|i: int, j: int| 0 <= i < j < r@.len() ==> r@[i] < r@[j],
            forall|id: usize| r@.contains(id) <==> (id < n && self@.contains(id)),
    {
        let mut r: Vec<usize> = Vec::new();
        let mut c: usize = 0;
        while c < n
            invariant
                c <= n,
                forall|i: int, j: int| 0 <= i < j < r@.len() ==> r@[i] < r@[j],
                forall|i: int| 0 <= i < r@.len() ==> r@[i] < c,
                forall|id: usize| r@.contains(id) <==> (id < c && self@.contains(id)),
            decreases n - c,
        {
            if self.contains(c) {
                let ghost before = r@;
                r.push(c);
                proof {
                    assert forall|id: usize| r@.contains(id) <==> (before.contains(id) || id == c) by {
                        if r@.contains(id) {
                            let k = choose|k: int| 0 <= k < r@.len() && r@[k] == id;
                            if k < before.len() {
                                assert(before[k] == id);
                            }
                        }
                        if before.contains(id) {
                            let k = choose|k: int| 0 <= k < before.len() && before[k] == id;
                            assert(r@[k] == id);
                        }
                        if id == c {
                            assert(r@[before.len() as int] == id);
                        }
                    }
                }
            }
            c = c + 1;
        }
        r
    }
}

} // verus!
