use vstd::prelude::*;

verus! {

/// The exact arithmetic mean of a window: `sum / count`.
#[derive(Clone, Copy, Debug, PartialEq, Eq, Structural)]
pub struct Mean {
    pub sum: u128,
    pub count: u32,
}

impl Mean {
    /// A mean of `count` values that each fit in `u64`.
    pub open spec fn wf(self) -> bool {
        &&& self.count > 0
        &&& self.sum <= self.count * (u64::MAX as int)
    }
}

/// Sum of `s[lo..hi]`.
pub open spec fn range_sum(s: Seq<u64>, lo: int, hi: int) -> int
    decreases hi - lo,
{
    if hi <= lo {
        0
    } else {
        range_sum(s, lo, hi - 1) + s[hi - 1]
    }
}

/// The moving average at index `i` of `s` over windows of `w` values.
pub open spec fn window_mean(s: Seq<u64>, w: int, i: int) -> Option<Mean> {
    if i + 1 < w {
        None
    } else {
        Some(Mean { sum: range_sum(s, i + 1 - w, i + 1) as u128, count: w as u32 })
    }
}

/// The whole moving-average column of `s` for window `w`.
pub open spec fn rolling_column(s: Seq<u64>, w: int) -> Seq<Option<Mean>> {
    Seq::new(s.len(), |i: int| window_mean(s, w, i))
}

/// Number of defined cells in a column.
pub open spec fn count_defined<T>(c: Seq<Option<T>>) -> nat
    decreases c.len(),
{
    if c.len() == 0 {
        0
    } else {
        count_defined(c.drop_last()) + if c.last() is Some { 1nat } else { 0nat }
    }
}

proof fn lemma_range_sum_bound(s: Seq<u64>, lo: int, hi: int)
    requires
        0 <= lo <= hi <= s.len(),
    ensures
        0 <= range_sum(s, lo, hi) <= (hi - lo) * (u64::MAX as int),
    decreases hi - lo,
{
    if lo < hi {
        lemma_range_sum_bound(s, lo, hi - 1);
    }
}

/// The simple moving average of `values` over `window` values: cell `i` is the
/// mean of `values[i + 1 - window ..= i]`, undefined for `i + 1 < window`.
pub fn rolling_mean(values: &Vec<u64>, window: u32) -> (r: Vec<Option<Mean>>)
    requires
        window > 0,
    ensures
        r@ == rolling_column(values@, window as int),
        forall|i: int| 0 <= i < r.len() && r[i] is Some ==> r[i].unwrap().wf(),
{
    let n = values.len();
    let w = window as usize;
    let mut r: Vec<Option<Mean>> = Vec::new();
    let mut i: usize = 0;
    while i < n
        invariant
            n == values.len(),
            w == window,
            w > 0,
            i <= n,
            r.len() == i,
            forall|k: int| 0 <= k < i ==> r[k] == window_mean(values@, w as int, k),
        decreases n - i,
    {
        if i + 1 < w {
            r.push(None);
        } else {
            let lo = i + 1 - w;
            let mut sum: u128 = 0;
            let mut j: usize = lo;
            while j <= i
                invariant
                    n == values.len(),
                    lo <= j <= i + 1,
                    i < n,
                    lo + w == i + 1,
                    w <= u32::MAX,
                    sum == range_sum(values@, lo as int, j as int),
                decreases i + 1 - j,
            {
                proof {
                    lemma_range_sum_bound(values@, lo as int, j as int);
                    assert((j - lo) * (u64::MAX as int) <= (w as int) * (u64::MAX as int))
                        by (nonlinear_arith)
                        requires
                            j - lo <= w,
                    ;
                    assert((w as int) * (u64::MAX as int) <= (u32::MAX as int) * (u64::MAX as int))
                        by (nonlinear_arith)
                        requires
                            w <= u32::MAX,
                    ;
                }
                sum = sum + values[j] as u128;
                j = j + 1;
            }
            r.push(Some(Mean { sum, count: window }));
        }
        i = i + 1;
    }
    proof {
        assert(r@ =~= rolling_column(values@, w as int));
        assert forall|i: int| 0 <= i < r.len() && r[i] is Some implies r[i].unwrap().wf() by {
            lemma_range_sum_bound(values@, i + 1 - w, i + 1);
        }
    }
    r
}

/// A moving-average column has exactly `max(0, len - window + 1)` defined
/// cells, and every undefined cell comes before every defined one.
pub proof fn lemma_rolling_shape(s: Seq<u64>, w: int)
    requires
        w > 0,
        w <= u32::MAX,
    ensures
        count_defined(rolling_column(s, w)) == if s.len() + 1 >= w { s.len() + 1 - w } else { 0 },
        forall|i: int, j: int|
            0 <= i < j < s.len() && rolling_column(s, w)[i] is Some
                ==> rolling_column(s, w)[j] is Some,
    decreases s.len(),
{
    let c = rolling_column(s, w);
    if s.len() > 0 {
        let t = s.drop_last();
        lemma_rolling_shape(t, w);
        assert(c.drop_last() =~= rolling_column(t, w)) by {
            assert forall|k: int| 0 <= k < t.len() && k + 1 >= w implies #[trigger] range_sum(s, k + 1 - w, k + 1)
                == range_sum(t, k + 1 - w, k + 1) by {
                lemma_range_sum_prefix(s, t, k + 1 - w, k + 1);
            }
        }
    }
}

proof fn lemma_range_sum_prefix(s: Seq<u64>, t: Seq<u64>, lo: int, hi: int)
    requires
        0 <= lo,
        hi <= t.len() <= s.len(),
        t == s.subrange(0, t.len() as int),
    ensures
        range_sum(s, lo, hi) == range_sum(t, lo, hi),
    decreases hi - lo,
{
    if lo < hi {
        lemma_range_sum_prefix(s, t, lo, hi - 1);
    }
}

} // verus!
