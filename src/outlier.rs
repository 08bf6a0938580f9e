//! The lower-tail outlier test on normalized per-cell scores, and the
//! positions of the order statistics it reads.
use vstd::prelude::*;
use crate::cell_set::CellIdSet;

verus! {

/// Where a percentile of `n` sorted values lies under linear interpolation:
/// at fractional index `percent * (n - 1) / 100`, that is `weight_percent`
/// hundredths of the way from the value at `lower` to the value at `upper`.
#[derive(Debug, Clone, Copy, PartialEq, Eq, Structural)]
pub struct QuantilePosition {
    pub lower: usize,
    pub upper: usize,
    pub weight_percent: usize,
}

pub fn quantile_position(n: usize, percent: usize) -> (r: QuantilePosition)
    requires
        n > 0,
        percent <= 100,
    ensures
        r.lower * 100 + r.weight_percent == percent * (n - 1),
        r.weight_percent < 100,
        r.upper == if r.weight_percent == 0 {
            r.lower
        } else {
            (r.lower + 1) as usize
        },
        r.lower <= r.upper < n,
{
    let m: usize = n - 1;
    let q: usize = m / 100;
    let rem: usize = m % 100;
    assert(percent * q <= m) by (nonlinear_arith)
        requires
            percent <= 100,
            q == m / 100,
    ;
    let a: usize = percent * q;
    assert(percent * rem <= 9900) by (nonlinear_arith)
        requires
            percent <= 100,
            rem < 100,
    ;
    let b: usize = percent * rem;
    assert(a + b / 100 <= m) by (nonlinear_arith)
        requires
            m == 100 * q + rem,
            a == percent * q,
            b == percent * rem,
            percent <= 100,
            rem < 100,
    ;
    let lower: usize = a + b / 100;
    let weight: usize = b % 100;
    assert(lower * 100 + weight == percent * m) by (nonlinear_arith)
        requires
            m == 100 * q + rem,
            a == percent * q,
            b == percent * rem,
            lower == a + b / 100,
            weight == b % 100,
    ;
    assert(weight > 0 ==> lower + 1 < n) by (nonlinear_arith)
        requires
            lower * 100 + weight == percent * m,
            percent <= 100,
            m == n - 1,
            weight < 100,
    ;
    assert(lower < n) by (nonlinear_arith)
        requires
            lower * 100 + weight == percent * m,
            percent <= 100,
            m == n - 1,
    ;
    let upper: usize = if weight == 0 {
        lower
    } else {
        lower + 1
    };
    QuantilePosition { lower, upper, weight_percent: weight }
}

/// The cells whose score key is strictly below the threshold key.
pub open spec fn flagged(score_keys: Seq<u64>, threshold_key: u64) -> Set<usize> {
    Set::new(|id: usize| id < score_keys.len() && score_keys[id as int] < threshold_key)
}

/// The minority: the cells whose score key is strictly below the threshold key.
/// Every other cell is in the majority; a score equal to the threshold stays there.
pub fn cells_below_threshold(score_keys: &Vec<u64>, threshold_key: u64) -> (r: CellIdSet)
    ensures
        r@ == flagged(score_keys@, threshold_key),
{
    let mut s = CellIdSet::new();
    let mut c: usize = 0;
    while c < score_keys.len()
        invariant
            c <= score_keys@.len(),
            forall|id: usize|
                s@.contains(id) <==> (id < c && score_keys@[id as int] < threshold_key),
        decreases score_keys@.len() - c,
    {
        if score_keys[c] < threshold_key {
            s.insert(c);
        }
        c = c + 1;
    }
    assert(s@ =~= flagged(score_keys@, threshold_key));
    s
}

/// Lowering the threshold flags no cell that the higher threshold leaves in
/// the majority.
pub proof fn lemma_lower_threshold_flags_fewer(score_keys: Seq<u64>, low: u64, high: u64)
    requires
        low <= high,
    ensures
        flagged(score_keys, low).subset_of(flagged(score_keys, high)),
{
}

} // verus!
