use vstd::prelude::*;
use crate::signal::Signal;

verus! {

/// Fixed-point units per 1.0 for returns and growth factors.
pub const SCALE: i128 = 1_000_000_000;

pub open spec fn fits_i128(x: int) -> bool {
    i128::MIN <= x <= i128::MAX
}

/// Return of bar `i` over bar `i - 1`, as `close[i] / close[i-1] - 1` rounded
/// down to a multiple of `1 / SCALE`; undefined at the first bar and after a
/// zero close.
pub open spec fn daily_return_at(c: Seq<u64>, i: int) -> Option<i128> {
    if i == 0 || c[i - 1] == 0 {
        None
    } else {
        Some(((c[i] * SCALE) / (c[i - 1] as int) - SCALE) as i128)
    }
}

pub open spec fn daily_return_column(c: Seq<u64>) -> Seq<Option<i128>> {
    Seq::new(c.len(), |i: int| daily_return_at(c, i))
}

/// Return earned at bar `i` by holding the position signalled at bar `i - 1`.
pub open spec fn strategy_return_at(sig: Seq<Option<Signal>>, d: Seq<Option<i128>>, i: int) -> Option<i128> {
    if i == 0 {
        None
    } else {
        match (sig[i - 1], d[i]) {
            (Some(s), Some(x)) => Some((s.sign() * x) as i128),
            _ => None,
        }
    }
}

pub open spec fn strategy_return_column(sig: Seq<Option<Signal>>, d: Seq<Option<i128>>) -> Seq<Option<i128>> {
    Seq::new(d.len(), |i: int| strategy_return_at(sig, d, i))
}

/// Growth factor of one bar; an undefined return leaves the value unchanged.
pub open spec fn growth(r: Option<i128>) -> int {
    match r {
        Some(x) => SCALE + x,
        None => SCALE as int,
    }
}

/// Compounded growth of the first `n` returns, seeded at 1.0 and rounded down
/// to a multiple of `1 / SCALE` after each step.
pub open spec fn cumulative(sr: Seq<Option<i128>>, n: int) -> int
    decreases n,
{
    if n <= 0 {
        SCALE as int
    } else {
        (cumulative(sr, n - 1) * growth(sr[n - 1])) / (SCALE as int)
    }
}

/// Step `k` of the running product stays within `i128`.
pub open spec fn step_fits(sr: Seq<Option<i128>>, k: int) -> bool {
    &&& fits_i128(growth(sr[k]))
    &&& fits_i128(cumulative(sr, k) * growth(sr[k]))
}

pub open spec fn cumulative_fits(sr: Seq<Option<i128>>) -> bool {
    forall|k: int| 0 <= k < sr.len() ==> #[trigger] step_fits(sr, k)
}

pub open spec fn cumulative_column(sr: Seq<Option<i128>>) -> Seq<i128> {
    Seq::new(sr.len(), |i: int| cumulative(sr, i + 1) as i128)
}

/// The daily return column of a close series.
pub fn daily_returns(closes: &Vec<u64>) -> (r: Vec<Option<i128>>)
    ensures
        r@ == daily_return_column(closes@),
{
    let mut r: Vec<Option<i128>> = Vec::new();
    let mut i: usize = 0;
    while i < closes.len()
        invariant
            i <= closes.len(),
            r.len() == i,
            forall|k: int| 0 <= k < i ==> r[k] == daily_return_at(closes@, k),
        decreases closes.len() - i,
    {
        if i == 0 || closes[i - 1] == 0 {
            r.push(None);
        } else {
            let prev = closes[i - 1] as u128;
            let cur = closes[i] as u128;
            proof {
                assert(cur * 1_000_000_000 <= (u64::MAX as int) * 1_000_000_000) by (nonlinear_arith)
                    requires
                        cur <= u64::MAX,
                ;
                assert((cur * 1_000_000_000) / (prev as int) <= cur * 1_000_000_000) by (nonlinear_arith)
                    requires
                        prev >= 1,
                        cur >= 0,
                ;
                assert((cur * 1_000_000_000) / (prev as int) >= 0) by (nonlinear_arith)
                    requires
                        prev >= 1,
                        cur >= 0,
                ;
            }
            let ratio: u128 = (cur * 1_000_000_000) / prev;
            r.push(Some(ratio as i128 - SCALE));
        }
        i = i + 1;
    }
    assert(r@ =~= daily_return_column(closes@));
    r
}

/// The strategy return column: the signal of the previous bar times the daily
/// return of this bar; undefined where either is.
pub fn strategy_returns(signals: &Vec<Option<Signal>>, daily: &Vec<Option<i128>>) -> (r: Vec<Option<i128>>)
    requires
        signals.len() == daily.len(),
        forall|i: int| 0 <= i < daily.len() && daily[i] is Some ==> (#[trigger] daily[i]).unwrap() > i128::MIN,
    ensures
        r@ == strategy_return_column(signals@, daily@),
{
    let mut r: Vec<Option<i128>> = Vec::new();
    let mut i: usize = 0;
    while i < daily.len()
        invariant
            signals.len() == daily.len(),
            forall|i: int| 0 <= i < daily.len() && daily[i] is Some ==> (#[trigger] daily[i]).unwrap() > i128::MIN,
            i <= daily.len(),
            r.len() == i,
            forall|k: int| 0 <= k < i ==> r[k] == strategy_return_at(signals@, daily@, k),
        decreases daily.len() - i,
    {
        if i == 0 {
            r.push(None);
        } else {
            match (signals[i - 1], daily[i]) {
                (Some(Signal::Long), Some(x)) => r.push(Some(x)),
                (Some(Signal::Short), Some(x)) => r.push(Some(-x)),
                _ => r.push(None),
            }
        }
        i = i + 1;
    }
    assert(r@ =~= strategy_return_column(signals@, daily@));
    r
}

/// The cumulative return column: cell `i` is the product of the growth factors
/// of bars `0..=i`, seeded at 1.0. `None` exactly when a step of the product
/// leaves `i128`.
pub fn cumulative_returns(strategy: &Vec<Option<i128>>) -> (r: Option<Vec<i128>>)
    ensures
        r is Some <==> cumulative_fits(strategy@),
        r is Some ==> r.unwrap()@ == cumulative_column(strategy@),
{
    let mut r: Vec<i128> = Vec::new();
    let mut c: i128 = SCALE;
    let mut i: usize = 0;
    while i < strategy.len()
        invariant
            i <= strategy.len(),
            r.len() == i,
            c == cumulative(strategy@, i as int),
            forall|k: int| 0 <= k < i ==> step_fits(strategy@, k),
            forall|k: int| 0 <= k < i ==> r[k] == cumulative(strategy@, k + 1) as i128,
        decreases strategy.len() - i,
    {
        let g: i128 = match strategy[i] {
            Some(x) => match SCALE.checked_add(x) {
                Some(g) => g,
                None => {
                    assert(!step_fits(strategy@, i as int));
                    return None;
                },
            },
            None => SCALE,
        };
        let p: i128 = match c.checked_mul(g) {
            Some(p) => p,
            None => {
                assert(!step_fits(strategy@, i as int));
                return None;
            },
        };
        proof {
            assert(fits_i128(p / 1_000_000_000)) by (nonlinear_arith)
                requires
                    fits_i128(p as int),
            ;
        }
        let next: i128 = match p.checked_div_euclid(SCALE) {
            Some(q) => q,
            None => {
                return None;
            },
        };
        c = next;
        r.push(c);
        i = i + 1;
    }
    assert(r@ =~= cumulative_column(strategy@));
    Some(r)
}

/// The position taken at bar `i` never touches the return of bar `i`: two
/// signal columns that differ only at bar `i` give bar `i` the same strategy
/// return.
pub proof fn lemma_signal_lagged(
    sig_a: Seq<Option<Signal>>,
    sig_b: Seq<Option<Signal>>,
    d: Seq<Option<i128>>,
    i: int,
)
    requires
        sig_a.len() == d.len(),
        sig_b.len() == d.len(),
        0 <= i < d.len(),
        forall|k: int| 0 <= k < d.len() && k != i ==> sig_a[k] == sig_b[k],
    ensures
        strategy_return_column(sig_a, d)[i] == strategy_return_column(sig_b, d)[i],
{
}

/// The cumulative curve of a backtest starts at 1.0 and grows at bar `i` by the
/// factor that the signal of bar `i - 1` gives the daily return of bar `i`, 1.0
/// where either is undefined.
pub proof fn lemma_curve_follows_lagged_signal(sig: Seq<Option<Signal>>, d: Seq<Option<i128>>, i: int)
    requires
        sig.len() == d.len(),
        0 <= i < d.len(),
        forall|k: int| 0 <= k < d.len() && d[k] is Some ==> (#[trigger] d[k]).unwrap() > i128::MIN,
    ensures
        cumulative(strategy_return_column(sig, d), 0) == SCALE,
        i == 0 ==> cumulative(strategy_return_column(sig, d), 1) == SCALE,
        i > 0 ==> cumulative(strategy_return_column(sig, d), i + 1) == (cumulative(
            strategy_return_column(sig, d),
            i,
        ) * match (sig[i - 1], d[i]) {
            (Some(s), Some(x)) => SCALE + s.sign() * x,
            _ => SCALE as int,
        }) / (SCALE as int),
{
    let sr = strategy_return_column(sig, d);
    if i == 0 {
        assert(sr[0] is None);
        assert(cumulative(sr, 0) == SCALE);
        assert(cumulative(sr, 1) == (SCALE as int) * (SCALE as int) / (SCALE as int));
    } else {
        match (sig[i - 1], d[i]) {
            (Some(s), Some(x)) => {
                assert(sr[i] == Some((s.sign() * x) as i128));
            },
            _ => {},
        }
    }
}

/// With every return zero or undefined, the cumulative return is 1.0 at every
/// bar.
pub proof fn lemma_flat_cumulative(sr: Seq<Option<i128>>)
    requires
        forall|k: int| 0 <= k < sr.len() && sr[k] is Some ==> (#[trigger] sr[k]).unwrap() == 0,
    ensures
        cumulative_fits(sr),
        forall|i: int| 0 <= i < sr.len() ==> #[trigger] cumulative_column(sr)[i] == SCALE,
{
    assert forall|n: int| 0 <= n <= sr.len() implies #[trigger] cumulative(sr, n) == SCALE by {
        lemma_flat_prefix(sr, n);
    }
    assert forall|k: int| 0 <= k < sr.len() implies #[trigger] step_fits(sr, k) by {
        lemma_flat_prefix(sr, k);
    }
}

proof fn lemma_flat_prefix(sr: Seq<Option<i128>>, n: int)
    requires
        0 <= n <= sr.len(),
        forall|k: int| 0 <= k < sr.len() && sr[k] is Some ==> (#[trigger] sr[k]).unwrap() == 0,
    ensures
        cumulative(sr, n) == SCALE,
    decreases n,
{
    if n > 0 {
        lemma_flat_prefix(sr, n - 1);
        assert(growth(sr[n - 1]) == SCALE);
        assert(cumulative(sr, n) == (SCALE as int) * (SCALE as int) / (SCALE as int));
    }
}

} // verus!
