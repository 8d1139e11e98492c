use vstd::prelude::*;
use crate::backtest::{SCALE, fits_i128};
use crate::rolling::count_defined;

verus! {

/// Drawdowns are reported in percent, `SCALE` units per 1%.
pub const PERCENT: i128 = 100_000_000_000;

/// Highest value of `c[0..=i]`.
pub open spec fn running_max(c: Seq<i128>, i: int) -> int
    decreases i,
{
    if i <= 0 {
        c[0] as int
    } else if running_max(c, i - 1) >= c[i] {
        running_max(c, i - 1)
    } else {
        c[i] as int
    }
}

/// Drawdown at bar `i` relative to the running peak, in percent, rounded down.
pub open spec fn drawdown_at(c: Seq<i128>, i: int) -> int {
    (PERCENT * (c[i] - running_max(c, i))) / running_max(c, i)
}

/// Lowest drawdown over the first `n` bars, starting from 0.
pub open spec fn min_drawdown(c: Seq<i128>, n: int) -> int
    decreases n,
{
    if n <= 0 {
        0
    } else if drawdown_at(c, n - 1) < min_drawdown(c, n - 1) {
        drawdown_at(c, n - 1)
    } else {
        min_drawdown(c, n - 1)
    }
}

pub open spec fn drawdown_fits(c: Seq<i128>) -> bool {
    forall|i: int| 0 <= i < c.len() ==> fits_i128(#[trigger] (PERCENT * (c[i] - running_max(c, i))))
}

proof fn lemma_running_max_bounds(c: Seq<i128>, i: int)
    requires
        0 <= i < c.len(),
    ensures
        running_max(c, i) >= c[i],
        running_max(c, i) >= c[0],
        fits_i128(running_max(c, i)),
    decreases i,
{
    if i > 0 {
        lemma_running_max_bounds(c, i - 1);
    }
}

/// The maximum drawdown of a cumulative-return curve in percent: the lowest
/// `(c[i] - peak) / peak` over all bars, where `peak` is the running maximum,
/// and 0 when the curve never falls below its peak. `None` when the curve is
/// empty or a scaled drop leaves `i128`.
pub fn max_drawdown(curve: &Vec<i128>) -> (r: Option<i128>)
    requires
        curve.len() > 0 ==> curve[0] > 0,
    ensures
        r is Some <==> curve.len() > 0 && drawdown_fits(curve@),
        r is Some ==> r.unwrap() == min_drawdown(curve@, curve.len() as int),
{
    if curve.len() == 0 {
        return None;
    }
    let mut acc: i128 = 0;
    let mut peak: i128 = 0;
    let mut i: usize = 0;
    while i < curve.len()
        invariant
            curve.len() > 0 ==> curve[0] > 0,
            i <= curve.len(),
            i > 0 ==> peak == running_max(curve@, i - 1),
            acc == min_drawdown(curve@, i as int),
            forall|k: int| 0 <= k < i ==> fits_i128(#[trigger] (PERCENT * (curve[k] - running_max(curve@, k)))),
        decreases curve.len() - i,
    {
        let x = curve[i];
        if i == 0 || x > peak {
            peak = x;
        }
        proof {
            lemma_running_max_bounds(curve@, i as int);
        }
        assert(peak == running_max(curve@, i as int));
        let d: i128 = match x.checked_sub(peak) {
            Some(d) => d,
            None => {
                assert(!fits_i128(PERCENT * (curve[i as int] - running_max(curve@, i as int)))) by (nonlinear_arith)
                    requires
                        !fits_i128(curve[i as int] - running_max(curve@, i as int)),
                        curve[i as int] - running_max(curve@, i as int) <= 0,
                ;
                assert(!drawdown_fits(curve@));
                return None;
            },
        };
        let p: i128 = match d.checked_mul(PERCENT) {
            Some(p) => p,
            None => {
                assert(PERCENT * (curve[i as int] - running_max(curve@, i as int)) == d * PERCENT);
                assert(!drawdown_fits(curve@));
                return None;
            },
        };
        proof {
            assert(fits_i128((p as int) / (peak as int))) by (nonlinear_arith)
                requires
                    fits_i128(p as int),
                    p <= 0,
                    peak > 0,
            ;
        }
        let dd: i128 = match p.checked_div_euclid(peak) {
            Some(q) => q,
            None => {
                return None;
            },
        };
        if dd < acc {
            acc = dd;
        }
        i = i + 1;
    }
    Some(acc)
}

/// A curve that never falls has a maximum drawdown of exactly 0.
pub proof fn lemma_rising_curve_no_drawdown(c: Seq<i128>)
    requires
        c.len() > 0,
        c[0] > 0,
        forall|i: int, j: int| 0 <= i <= j < c.len() ==> c[i] <= c[j],
    ensures
        drawdown_fits(c),
        min_drawdown(c, c.len() as int) == 0,
{
    assert forall|i: int| 0 <= i < c.len() implies #[trigger] running_max(c, i) == c[i] by {
        lemma_rising_peak(c, i);
    }
    assert forall|i: int| 0 <= i < c.len() implies #[trigger] drawdown_at(c, i) == 0 by {
        assert(running_max(c, i) == c[i]);
        assert(c[i] >= c[0]);
    }
    lemma_min_drawdown_zero(c, c.len() as int);
}

proof fn lemma_rising_peak(c: Seq<i128>, i: int)
    requires
        0 <= i < c.len(),
        forall|a: int, b: int| 0 <= a <= b <= i ==> c[a] <= c[b],
    ensures
        running_max(c, i) == c[i],
    decreases i,
{
    if i > 0 {
        lemma_rising_peak(c, i - 1);
    }
}

proof fn lemma_min_drawdown_zero(c: Seq<i128>, n: int)
    requires
        0 <= n <= c.len(),
        forall|i: int| 0 <= i < c.len() ==> #[trigger] drawdown_at(c, i) == 0,
    ensures
        min_drawdown(c, n) == 0,
    decreases n,
{
    if n > 0 {
        lemma_min_drawdown_zero(c, n - 1);
    }
}

/// A curve that rises up to bar `k - 1`, drops at bar `k` and stays flat after
/// it has as maximum drawdown the drop at `k` relative to the peak at `k - 1`,
/// which is negative.
pub proof fn lemma_single_crash_drawdown(c: Seq<i128>, k: int)
    requires
        1 <= k < c.len(),
        c[0] > 0,
        forall|a: int, b: int| 0 <= a <= b < k ==> c[a] <= c[b],
        c[k] < c[k - 1],
        forall|j: int| k < j < c.len() ==> c[j] == c[k],
    ensures
        min_drawdown(c, c.len() as int) == (PERCENT * (c[k] - c[k - 1])) / (c[k - 1] as int),
        min_drawdown(c, c.len() as int) < 0,
{
    let peak = c[k - 1] as int;
    let d = (PERCENT * (c[k] - peak)) / peak;
    assert forall|i: int| 0 <= i < k implies #[trigger] running_max(c, i) == c[i] by {
        lemma_rising_peak(c, i);
    }
    assert(c[k - 1] >= c[0]);
    assert(d < 0) by (nonlinear_arith)
        requires
            d == (PERCENT * (c[k] - peak)) / peak,
            c[k] - peak <= -1,
            peak >= 1,
    ;
    assert forall|i: int| 0 <= i < k implies c[i] > 0 by {
        assert(c[0] <= c[i]);
    }
    lemma_crash_peak(c, k, c.len() as int - 1);
    lemma_crash_min(c, k, d, c.len() as int);
}

proof fn lemma_crash_peak(c: Seq<i128>, k: int, n: int)
    requires
        1 <= k <= n < c.len(),
        running_max(c, k - 1) == c[k - 1],
        c[k] < c[k - 1],
        forall|j: int| k < j < c.len() ==> c[j] == c[k],
    ensures
        forall|j: int| k <= j <= n ==> #[trigger] running_max(c, j) == c[k - 1],
    decreases n - k,
{
    if n > k {
        lemma_crash_peak(c, k, n - 1);
        assert(running_max(c, n) == running_max(c, n - 1));
    }
}

proof fn lemma_crash_min(c: Seq<i128>, k: int, d: int, n: int)
    requires
        1 <= k < c.len(),
        0 <= n <= c.len(),
        d < 0,
        c[k - 1] > 0,
        forall|i: int| 0 <= i < k ==> c[i] > 0,
        forall|i: int| 0 <= i < k ==> #[trigger] running_max(c, i) == c[i],
        forall|j: int| k <= j < c.len() ==> #[trigger] running_max(c, j) == c[k - 1],
        forall|j: int| k < j < c.len() ==> c[j] == c[k],
        d == (PERCENT * (c[k] - c[k - 1])) / (c[k - 1] as int),
    ensures
        n <= k ==> min_drawdown(c, n) == 0,
        n > k ==> min_drawdown(c, n) == d,
    decreases n,
{
    if n > 0 {
        lemma_crash_min(c, k, d, n - 1);
        let i = n - 1;
        if i < k {
            assert(running_max(c, i) == c[i]);
            assert(drawdown_at(c, i) == 0);
        } else {
            assert(running_max(c, i) == c[k - 1]);
            assert(c[i] == c[k]);
            assert(drawdown_at(c, i) == d);
        }
    }
}

/// Trading periods in a year.
pub const TRADING_DAYS: i128 = 252;

/// Sum of the defined cells of a column.
pub open spec fn defined_sum(s: Seq<Option<i128>>) -> int
    decreases s.len(),
{
    if s.len() == 0 {
        0
    } else {
        defined_sum(s.drop_last()) + match s.last() {
            Some(x) => x as int,
            None => 0,
        }
    }
}

/// Every running sum of the defined cells stays within `i128`.
pub open spec fn sums_fit(s: Seq<Option<i128>>) -> bool {
    forall|n: int| 0 <= n <= s.len() ==> fits_i128(#[trigger] defined_sum(s.take(n)))
}

/// Sum over the defined cells `x` of `(n * x - t)^2`.
pub open spec fn centered_squares(s: Seq<Option<i128>>, n: int, t: int) -> int
    decreases s.len(),
{
    if s.len() == 0 {
        0
    } else {
        centered_squares(s.drop_last(), n, t) + match s.last() {
            Some(x) => (n * x - t) * (n * x - t),
            None => 0,
        }
    }
}

/// `n^2` times the sum of squared deviations from the mean, `n` being the
/// number of defined cells.
pub open spec fn scaled_variance(s: Seq<Option<i128>>) -> int {
    centered_squares(s, count_defined(s) as int, defined_sum(s))
}

/// Every intermediate value of the volatility computation stays within `i128`.
pub open spec fn volatility_fits(s: Seq<Option<i128>>) -> bool {
    let n = count_defined(s) as int;
    let t = defined_sum(s);
    &&& sums_fit(s)
    &&& forall|k: int| 0 <= k < s.len() && s[k] is Some ==> {
        &&& fits_i128(n * (#[trigger] s[k]).unwrap())
        &&& fits_i128(n * s[k].unwrap() - t)
        &&& fits_i128((n * s[k].unwrap() - t) * (n * s[k].unwrap() - t))
    }
    &&& forall|m: int| 0 <= m <= s.len() ==> fits_i128(#[trigger] centered_squares(s.take(m), n, t))
    &&& fits_i128(TRADING_DAYS * scaled_variance(s))
    &&& fits_i128(n * n * n)
}

/// `v` is the integer square root of `q`.
pub open spec fn is_floor_sqrt(v: int, q: int) -> bool {
    0 <= v && v * v <= q < (v + 1) * (v + 1)
}

/// The largest `v` with `v * v <= q`.
pub fn floor_sqrt(q: u128) -> (r: u128)
    ensures
        is_floor_sqrt(r as int, q as int),
{
    let mut lo: u128 = 0;
    let mut hi: u128 = 0x1_0000_0000_0000_0000;
    assert(q < hi * hi);
    while hi - lo > 1
        invariant
            lo < hi <= 0x1_0000_0000_0000_0000,
            lo * lo <= q,
            q < hi * hi,
        decreases hi - lo,
    {
        let mid: u128 = lo + (hi - lo) / 2;
        assert(mid * mid <= 0xffff_ffff_ffff_ffff * 0xffff_ffff_ffff_ffff) by (nonlinear_arith)
            requires
                mid < 0x1_0000_0000_0000_0000,
        ;
        if mid * mid <= q {
            lo = mid;
        } else {
            hi = mid;
        }
    }
    lo
}

proof fn lemma_take_step<T>(s: Seq<T>, i: int)
    requires
        0 <= i < s.len(),
    ensures
        s.take(i + 1).drop_last() == s.take(i),
        s.take(i + 1).last() == s[i],
{
    assert(s.take(i + 1).drop_last() =~= s.take(i));
}

/// The defined cells of `s` in total, with every running sum in range.
fn defined_total(s: &Vec<Option<i128>>) -> (r: Option<(i128, usize)>)
    ensures
        r is Some <==> sums_fit(s@),
        r is Some ==> r.unwrap().0 == defined_sum(s@) && r.unwrap().1 == count_defined(s@),
{
    let mut sum: i128 = 0;
    let mut count: usize = 0;
    let mut i: usize = 0;
    assert(s@.take(0) =~= Seq::<Option<i128>>::empty());
    while i < s.len()
        invariant
            i <= s.len(),
            sum == defined_sum(s@.take(i as int)),
            count == count_defined(s@.take(i as int)),
            count <= i,
            forall|n: int| 0 <= n <= i ==> fits_i128(#[trigger] defined_sum(s@.take(n))),
        decreases s.len() - i,
    {
        proof {
            lemma_take_step(s@, i as int);
        }
        match s[i] {
            Some(x) => {
                match sum.checked_add(x) {
                    Some(t) => {
                        sum = t;
                    },
                    None => {
                        assert(!fits_i128(defined_sum(s@.take(i + 1))));
                        return None;
                    },
                }
                count = count + 1;
            },
            None => {},
        }
        i = i + 1;
    }
    assert(s@.take(s.len() as int) =~= s@);
    Some((sum, count))
}

/// Mean of the defined strategy returns times `TRADING_DAYS`, rounded down.
/// `None` when no return is defined or an intermediate sum leaves `i128`.
pub fn annualized_return(strategy: &Vec<Option<i128>>) -> (r: Option<i128>)
    ensures
        r is Some <==> count_defined(strategy@) > 0 && sums_fit(strategy@)
            && fits_i128(TRADING_DAYS * defined_sum(strategy@)),
        r is Some ==> r.unwrap() == (TRADING_DAYS * defined_sum(strategy@)) / (count_defined(
            strategy@,
        ) as int),
{
    match defined_total(strategy) {
        None => None,
        Some((sum, count)) => {
            if count == 0 {
                return None;
            }
            match sum.checked_mul(TRADING_DAYS) {
                None => None,
                Some(p) => {
                    proof {
                        assert(fits_i128((p as int) / (count as int))) by (nonlinear_arith)
                            requires
                                fits_i128(p as int),
                                count >= 1,
                        ;
                    }
                    p.checked_div_euclid(count as i128)
                },
            }
        },
    }
}

/// Population standard deviation of the defined strategy returns times the
/// square root of `TRADING_DAYS`, rounded down: the integer square root of
/// `TRADING_DAYS * scaled_variance / n^3`. `None` when no return is defined or
/// an intermediate value leaves `i128`.
pub fn annualized_volatility(strategy: &Vec<Option<i128>>) -> (r: Option<i128>)
    ensures
        r is Some <==> count_defined(strategy@) > 0 && volatility_fits(strategy@),
        r is Some ==> is_floor_sqrt(
            r.unwrap() as int,
            (TRADING_DAYS * scaled_variance(strategy@)) / (count_defined(strategy@) as int
                * count_defined(strategy@) as int * count_defined(strategy@) as int),
        ),
{
    let (t, count) = match defined_total(strategy) {
        None => {
            return None;
        },
        Some(p) => p,
    };
    if count == 0 {
        return None;
    }
    let n: i128 = count as i128;
    let ghost nn: int = n as int;
    let mut e: i128 = 0;
    let mut i: usize = 0;
    assert(strategy@.take(0) =~= Seq::<Option<i128>>::empty());
    while i < strategy.len()
        invariant
            i <= strategy.len(),
            n == count_defined(strategy@),
            t == defined_sum(strategy@),
            nn == n,
            e == centered_squares(strategy@.take(i as int), nn, t as int),
            e >= 0,
            forall|m: int| 0 <= m <= i ==> fits_i128(#[trigger] centered_squares(strategy@.take(m), nn, t as int)),
            forall|k: int| 0 <= k < i && strategy[k] is Some ==> {
                &&& fits_i128(nn * (#[trigger] strategy[k]).unwrap())
                &&& fits_i128(nn * strategy[k].unwrap() - t)
                &&& fits_i128((nn * strategy[k].unwrap() - t) * (nn * strategy[k].unwrap() - t))
            },
        decreases strategy.len() - i,
    {
        proof {
            lemma_take_step(strategy@, i as int);
        }
        match strategy[i] {
            Some(x) => {
                let a: i128 = match n.checked_mul(x) {
                    Some(a) => a,
                    None => {
                        assert(!fits_i128(nn * strategy[i as int].unwrap()));
                        return None;
                    },
                };
                let b: i128 = match a.checked_sub(t) {
                    Some(b) => b,
                    None => {
                        assert(!fits_i128(nn * strategy[i as int].unwrap() - t));
                        return None;
                    },
                };
                let sq: i128 = match b.checked_mul(b) {
                    Some(sq) => sq,
                    None => {
                        assert(!fits_i128((nn * strategy[i as int].unwrap() - t) * (nn * strategy[i as int].unwrap() - t)));
                        return None;
                    },
                };
                assert(sq >= 0) by (nonlinear_arith)
                    requires
                        sq == b * b,
                ;
                e = match e.checked_add(sq) {
                    Some(v) => v,
                    None => {
                        assert(!fits_i128(centered_squares(strategy@.take(i + 1), nn, t as int)));
                        return None;
                    },
                };
            },
            None => {},
        }
        i = i + 1;
    }
    assert(strategy@.take(strategy.len() as int) =~= strategy@);
    let q: i128 = match TRADING_DAYS.checked_mul(e) {
        Some(q) => q,
        None => {
            return None;
        },
    };
    let n2: i128 = match n.checked_mul(n) {
        Some(v) => v,
        None => {
            assert(!fits_i128(nn * nn * nn)) by (nonlinear_arith)
                requires
                    !fits_i128(nn * nn),
                    nn >= 1,
            ;
            return None;
        },
    };
    let n3: i128 = match n2.checked_mul(n) {
        Some(v) => v,
        None => {
            return None;
        },
    };
    assert(n3 >= 1) by (nonlinear_arith)
        requires
            n3 == nn * nn * nn,
            nn >= 1,
    ;
    assert(q >= 0);
    let ratio: i128 = q / n3;
    let v: u128 = floor_sqrt(ratio as u128);
    assert(v * v <= ratio);
    assert(v <= 0x1_0000_0000_0000_0000) by (nonlinear_arith)
        requires
            v * v <= ratio,
            ratio <= i128::MAX,
            v >= 0,
    ;
    Some(v as i128)
}

/// Risk-free rate assumed by the Sharpe ratio: 1% a year.
pub const RISK_FREE_RATE: i128 = 10_000_000;

/// Excess return over volatility, in `SCALE` units, rounded down. `None` when
/// the volatility is 0 or an intermediate value leaves `i128`.
pub fn sharpe_ratio(annual_return: i128, annual_volatility: i128, risk_free: i128) -> (r: Option<i128>)
    requires
        annual_volatility >= 0,
    ensures
        r is Some <==> annual_volatility > 0 && fits_i128(annual_return - risk_free)
            && fits_i128((annual_return - risk_free) * SCALE),
        r is Some ==> r.unwrap() == ((annual_return - risk_free) * SCALE) / (annual_volatility as int),
{
    if annual_volatility == 0 {
        return None;
    }
    let excess: i128 = match annual_return.checked_sub(risk_free) {
        Some(x) => x,
        None => {
            return None;
        },
    };
    let p: i128 = match excess.checked_mul(SCALE) {
        Some(p) => p,
        None => {
            return None;
        },
    };
    proof {
        assert(fits_i128((p as int) / (annual_volatility as int))) by (nonlinear_arith)
            requires
                fits_i128(p as int),
                annual_volatility >= 1,
        ;
    }
    p.checked_div_euclid(annual_volatility)
}

/// What `annualized_return` gives for a strategy-return column.
pub open spec fn return_result(s: Seq<Option<i128>>, r: Option<i128>) -> bool {
    &&& r is Some <==> count_defined(s) > 0 && sums_fit(s) && fits_i128(TRADING_DAYS * defined_sum(s))
    &&& r is Some ==> r.unwrap() == (TRADING_DAYS * defined_sum(s)) / (count_defined(s) as int)
}

/// What `annualized_volatility` gives for a strategy-return column.
pub open spec fn volatility_result(s: Seq<Option<i128>>, r: Option<i128>) -> bool {
    let n = count_defined(s) as int;
    &&& r is Some <==> n > 0 && volatility_fits(s)
    &&& r is Some ==> is_floor_sqrt(r.unwrap() as int, (TRADING_DAYS * scaled_variance(s)) / (n * n * n))
}

/// What `sharpe_ratio` gives.
pub open spec fn sharpe_result(a: i128, v: i128, rf: i128, r: Option<i128>) -> bool {
    &&& r is Some <==> v > 0 && fits_i128(a - rf) && fits_i128((a - rf) * SCALE)
    &&& r is Some ==> r.unwrap() == ((a - rf) * SCALE) / (v as int)
}

/// What `max_drawdown` gives for a curve.
pub open spec fn drawdown_result(c: Seq<i128>, r: Option<i128>) -> bool {
    &&& r is Some <==> c.len() > 0 && drawdown_fits(c)
    &&& r is Some ==> r.unwrap() == min_drawdown(c, c.len() as int)
}

} // verus!
