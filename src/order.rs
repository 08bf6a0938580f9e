//! Ordering by integer keys. A score that the model computes as a real number
//! is handed here as an order key: an integer that orders as the score does.
use vstd::prelude::*;

verus! {

/// `a` comes no later than `b`: by key, then by index.
pub open spec fn pair_le(a: (u64, usize), b: (u64, usize)) -> bool {
    a.0 < b.0 || (a.0 == b.0 && a.1 <= b.1)
}

/// Relies on slice::sort_unstable: afterwards the pairs are in ascending
/// (lexicographic) order and are the same multiset as before.
#[verifier::external_body]
fn sort_pairs(v: &mut Vec<(u64, usize)>)
    ensures
        final(v)@.to_multiset() == old(v)@.to_multiset(),
        forall|i: int, j: int| 0 <= i < j < final(v)@.len() ==> pair_le(final(v)@[i], final(v)@[j]),
{
    v.sort_unstable();
}

/// The indices of `data` ordered by their keys; equal keys keep their order.
pub fn argsort(data: &Vec<u64>) -> (r: Vec<usize>)
    ensures
        r@.len() == data@.len(),
        forall|i: int| 0 <= i < r@.len() ==> #[trigger] r@[i] < data@.len(),
        r@.no_duplicates(),
        forall|i: int, j: int|
            0 <= i < j < r@.len() ==> data@[#[trigger] r@[i] as int] < data@[#[trigger] r@[j] as int]
                || (data@[r@[i] as int] == data@[r@[j] as int] && r@[i] < r@[j]),
{
    let n = data.len();
    let mut pairs: Vec<(u64, usize)> = Vec::new();
    let mut i: usize = 0;
    while i < n
        invariant
            i <= n == data@.len(),
            pairs@.len() == i,
            forall|k: int| 0 <= k < i ==> #[trigger] pairs@[k] == (data@[k], k as usize),
        decreases n - i,
    {
        pairs.push((data[i], i));
        i = i + 1;
    }
    let ghost before = pairs@;
    assert(before.no_duplicates()) by {
        assert forall|a: int, b: int| 0 <= a < before.len() && 0 <= b < before.len() && a != b implies before[a]
            != before[b] by {
            assert(before[a].1 == a);
            assert(before[b].1 == b);
        }
    }
    sort_pairs(&mut pairs);
    let ghost after = pairs@;
    proof {
        broadcast use vstd::seq_lib::group_to_multiset_ensures;

        before.lemma_multiset_has_no_duplicates();
        assert(after.len() == before.len()) by {
            assert(after.to_multiset().len() == before.to_multiset().len());
        }
        assert forall|x: (u64, usize)| after.to_multiset().contains(x) implies after.to_multiset().count(x)
            == 1 by {
            assert(before.to_multiset().contains(x));
        }
        after.lemma_multiset_has_no_duplicates_conv();
        assert forall|k: int| 0 <= k < after.len() implies (#[trigger] after[k]).1 < n && after[k].0
            == data@[after[k].1 as int] by {
            assert(after.contains(after[k]));
            assert(after.to_multiset().count(after[k]) > 0);
            assert(before.to_multiset().count(after[k]) > 0);
            assert(before.contains(after[k]));
            let m = choose|m: int| 0 <= m < before.len() && before[m] == after[k];
        }
    }
    let mut r: Vec<usize> = Vec::new();
    let mut k: usize = 0;
    while k < n
        invariant
            k <= n == data@.len(),
            after == pairs@,
            after.len() == n,
            r@.len() == k,
            forall|m: int| 0 <= m < k ==> #[trigger] r@[m] == after[m].1,
        decreases n - k,
    {
        r.push(pairs[k].1);
        k = k + 1;
    }
    proof {
        assert forall|a: int, b: int| 0 <= a < r@.len() && 0 <= b < r@.len() && a != b implies r@[a]
            != r@[b] by {
            assert(after[a].1 < n && after[a].0 == data@[after[a].1 as int]);
            assert(after[b].1 < n && after[b].0 == data@[after[b].1 as int]);
            if r@[a] == r@[b] {
                assert(after[a] == after[b]);
            }
        }
        assert forall|i: int, j: int| 0 <= i < j < r@.len() implies data@[#[trigger] r@[i] as int]
            < data@[#[trigger] r@[j] as int] || (data@[r@[i] as int] == data@[r@[j] as int] && r@[i]
            < r@[j]) by {
            assert(after[i].1 < n && after[i].0 == data@[after[i].1 as int]);
            assert(after[j].1 < n && after[j].0 == data@[after[j].1 as int]);
            assert(pair_le(after[i], after[j]));
            assert(after[i] != after[j]);
        }
        assert forall|i: int| 0 <= i < r@.len() implies #[trigger] r@[i] < data@.len() by {
            assert(after[i].1 < n && after[i].0 == data@[after[i].1 as int]);
        }
    }
    r
}

} // verus!
