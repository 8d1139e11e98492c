use vstd::prelude::*;
use crate::rolling::Mean;

verus! {

/// A position held for one bar: long (+1) or short (-1).
#[derive(Clone, Copy, Debug, PartialEq, Eq, Structural)]
pub enum Signal {
    Long,
    Short,
}

impl Signal {
    /// The position as a multiplier: +1 for long, -1 for short.
    pub open spec fn sign(self) -> int {
        match self {
            Signal::Long => 1,
            Signal::Short => -1,
        }
    }

    pub fn to_i32(self) -> (r: i32)
        ensures
            r == self.sign(),
    {
        match self {
            Signal::Long => 1,
            Signal::Short => -1,
        }
    }
}

/// `a > b` as exact rationals.
pub open spec fn mean_above(a: Mean, b: Mean) -> bool {
    (a.sum as int) * (b.count as int) > (b.sum as int) * (a.count as int)
}

/// The crossover rule for one bar; a tie goes to `Short`.
pub open spec fn signal_of(fast: Option<Mean>, slow: Option<Mean>) -> Option<Signal> {
    match (fast, slow) {
        (Some(f), Some(s)) => Some(if mean_above(f, s) { Signal::Long } else { Signal::Short }),
        _ => None,
    }
}

/// The signal column for two moving-average columns of equal length.
pub open spec fn signal_column(fast: Seq<Option<Mean>>, slow: Seq<Option<Mean>>) -> Seq<Option<Signal>> {
    Seq::new(fast.len(), |i: int| signal_of(fast[i], slow[i]))
}

pub open spec fn all_wf(c: Seq<Option<Mean>>) -> bool {
    forall|i: int| 0 <= i < c.len() && c[i] is Some ==> (#[trigger] c[i]).unwrap().wf()
}

/// `Long` when the fast mean is strictly above the slow one, `Short`
/// otherwise, undefined when either mean is.
pub fn crossover(fast: Option<Mean>, slow: Option<Mean>) -> (r: Option<Signal>)
    requires
        fast is Some ==> fast.unwrap().wf(),
        slow is Some ==> slow.unwrap().wf(),
    ensures
        r == signal_of(fast, slow),
{
    match (fast, slow) {
        (Some(f), Some(s)) => {
            proof {
                assert((f.sum as int) * (s.count as int) <= (f.count as int) * (u64::MAX as int) * (s.count as int))
                    by (nonlinear_arith)
                    requires
                        f.sum <= f.count * (u64::MAX as int),
                ;
                assert((f.count as int) * (u64::MAX as int) * (s.count as int) <= (u32::MAX as int) * (u64::MAX as int) * (u32::MAX as int))
                    by (nonlinear_arith)
                    requires
                        f.count <= u32::MAX,
                        s.count <= u32::MAX,
                ;
                assert((s.sum as int) * (f.count as int) <= (s.count as int) * (u64::MAX as int) * (f.count as int))
                    by (nonlinear_arith)
                    requires
                        s.sum <= s.count * (u64::MAX as int),
                ;
                assert((s.count as int) * (u64::MAX as int) * (f.count as int) <= (u32::MAX as int) * (u64::MAX as int) * (u32::MAX as int))
                    by (nonlinear_arith)
                    requires
                        f.count <= u32::MAX,
                        s.count <= u32::MAX,
                ;
                assert((u32::MAX as int) * (u64::MAX as int) * (u32::MAX as int) <= u128::MAX);
            }
            let lhs: u128 = f.sum * (s.count as u128);
            let rhs: u128 = s.sum * (f.count as u128);
            if lhs > rhs {
                Some(Signal::Long)
            } else {
                Some(Signal::Short)
            }
        },
        _ => None,
    }
}

/// Applies the crossover rule bar by bar.
pub fn generate_signals(fast: &Vec<Option<Mean>>, slow: &Vec<Option<Mean>>) -> (r: Vec<Option<Signal>>)
    requires
        fast.len() == slow.len(),
        all_wf(fast@),
        all_wf(slow@),
    ensures
        r@ == signal_column(fast@, slow@),
{
    let mut r: Vec<Option<Signal>> = Vec::new();
    let mut i: usize = 0;
    while i < fast.len()
        invariant
            fast.len() == slow.len(),
            all_wf(fast@),
            all_wf(slow@),
            i <= fast.len(),
            r.len() == i,
            forall|k: int| 0 <= k < i ==> r[k] == signal_of(fast[k], slow[k]),
        decreases fast.len() - i,
    {
        r.push(crossover(fast[i], slow[i]));
        i = i + 1;
    }
    assert(r@ =~= signal_column(fast@, slow@));
    r
}

/// A bar's signal depends on that bar's two means alone: two tables whose rows
/// `i` and `j` hold the same means give those rows the same signal, whatever the
/// other rows hold and wherever the rows stand.
pub proof fn lemma_signal_is_row_local(
    fast_a: Seq<Option<Mean>>,
    slow_a: Seq<Option<Mean>>,
    fast_b: Seq<Option<Mean>>,
    slow_b: Seq<Option<Mean>>,
    i: int,
    j: int,
)
    requires
        fast_a.len() == slow_a.len(),
        fast_b.len() == slow_b.len(),
        0 <= i < fast_a.len(),
        0 <= j < fast_b.len(),
        fast_a[i] == fast_b[j],
        slow_a[i] == slow_b[j],
    ensures
        signal_column(fast_a, slow_a)[i] == signal_column(fast_b, slow_b)[j],
{
}

} // verus!
