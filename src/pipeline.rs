use vstd::prelude::*;
use crate::rolling::{Mean, rolling_mean, rolling_column};
use crate::signal::{Signal, generate_signals, signal_column};
use crate::backtest::{
    SCALE, daily_returns, daily_return_column, strategy_returns, strategy_return_column,
    cumulative_returns, cumulative_column, cumulative_fits, cumulative,
};
use crate::metrics::{
    annualized_return, annualized_volatility, sharpe_ratio, max_drawdown, RISK_FREE_RATE,
    return_result, volatility_result, sharpe_result, drawdown_result,
};

verus! {

/// One trading day. Prices are in ticks.
#[derive(Clone, Copy, Debug, PartialEq, Eq, Structural)]
pub struct Bar {
    pub timestamp: i64,
    pub open: u64,
    pub high: u64,
    pub low: u64,
    pub close: u64,
    pub adjclose: u64,
    pub volume: u64,
}

/// Bars held column by column, in strictly increasing timestamp order.
#[derive(Clone, Debug)]
pub struct PriceTable {
    pub timestamp: Vec<i64>,
    pub open: Vec<u64>,
    pub high: Vec<u64>,
    pub low: Vec<u64>,
    pub close: Vec<u64>,
    pub adjclose: Vec<u64>,
    pub volume: Vec<u64>,
}

/// Why a sequence of bars cannot form a table.
#[derive(Clone, Copy, Debug, PartialEq, Eq, Structural)]
pub enum TableError {
    /// The bar at this index is not later than the one before it.
    NotIncreasing(usize),
}

pub open spec fn increasing_until(bars: Seq<Bar>, n: int) -> bool {
    forall|k: int| 1 <= k < n ==> bars[k - 1].timestamp < (#[trigger] bars[k]).timestamp
}

impl PriceTable {
    pub open spec fn len(self) -> nat {
        self.close@.len()
    }

    /// Every column has one cell per bar and timestamps strictly increase.
    pub open spec fn wf(self) -> bool {
        &&& self.timestamp.len() == self.len()
        &&& self.open.len() == self.len()
        &&& self.high.len() == self.len()
        &&& self.low.len() == self.len()
        &&& self.adjclose.len() == self.len()
        &&& self.volume.len() == self.len()
        &&& forall|k: int| 1 <= k < self.len() ==> self.timestamp[k - 1] < #[trigger] self.timestamp[k]
    }

    /// Row `k` of the table is `b`.
    pub open spec fn holds_row(self, k: int, b: Bar) -> bool {
        &&& self.timestamp[k] == b.timestamp
        &&& self.open[k] == b.open
        &&& self.high[k] == b.high
        &&& self.low[k] == b.low
        &&& self.close[k] == b.close
        &&& self.adjclose[k] == b.adjclose
        &&& self.volume[k] == b.volume
    }

    /// Turns bars into columns. Fails at the first bar whose timestamp is not
    /// later than the one before it.
    pub fn from_bars(bars: &Vec<Bar>) -> (r: Result<PriceTable, TableError>)
        ensures
            r is Ok <==> increasing_until(bars@, bars.len() as int),
            r is Ok ==> ({
                let t = r.unwrap();
                &&& t.wf()
                &&& t.len() == bars.len()
                &&& forall|k: int| 0 <= k < bars.len() ==> t.holds_row(k, #[trigger] bars[k])
            }),
            r matches Err(TableError::NotIncreasing(i)) ==> {
                &&& 1 <= i < bars.len()
                &&& bars[i - 1].timestamp >= bars[i as int].timestamp
                &&& increasing_until(bars@, i as int)
            },
    {
        let mut t = PriceTable {
            timestamp: Vec::new(),
            open: Vec::new(),
            high: Vec::new(),
            low: Vec::new(),
            close: Vec::new(),
            adjclose: Vec::new(),
            volume: Vec::new(),
        };
        let mut i: usize = 0;
        while i < bars.len()
            invariant
                i <= bars.len(),
                t.len() == i,
                t.wf(),
                increasing_until(bars@, i as int),
                forall|k: int| 0 <= k < i ==> t.holds_row(k, #[trigger] bars[k]),
            decreases bars.len() - i,
        {
            let b = bars[i];
            if i > 0 && bars[i - 1].timestamp >= b.timestamp {
                return Err(TableError::NotIncreasing(i));
            }
            t.timestamp.push(b.timestamp);
            t.open.push(b.open);
            t.high.push(b.high);
            t.low.push(b.low);
            t.close.push(b.close);
            t.adjclose.push(b.adjclose);
            t.volume.push(b.volume);
            i = i + 1;
        }
        Ok(t)
    }
}

/// The four summary figures, each in `SCALE` units; `None` where undefined.
#[derive(Clone, Copy, Debug, PartialEq, Eq, Structural)]
pub struct MetricsReport {
    pub annualized_return: Option<i128>,
    pub annualized_volatility: Option<i128>,
    pub sharpe_ratio: Option<i128>,
    pub max_drawdown_pct: Option<i128>,
}

/// Every column that the analysis adds to a table of closes, and its metrics.
#[derive(Clone, Debug)]
pub struct Analysis {
    pub sma_fast: Vec<Option<Mean>>,
    pub sma_slow: Vec<Option<Mean>>,
    pub signal: Vec<Option<Signal>>,
    pub daily_return: Vec<Option<i128>>,
    pub strategy_return: Vec<Option<i128>>,
    /// `None` when the running product leaves `i128`.
    pub cumulative_return: Option<Vec<i128>>,
    pub metrics: MetricsReport,
}

proof fn lemma_daily_not_min(c: Seq<u64>)
    ensures
        forall|i: int| 0 <= i < c.len() && (#[trigger] daily_return_column(c)[i]) is Some
            ==> daily_return_column(c)[i].unwrap() >= -SCALE,
{
    assert forall|i: int| 0 <= i < c.len() && (#[trigger] daily_return_column(c)[i]) is Some
        implies daily_return_column(c)[i].unwrap() >= -SCALE by {
        let p = c[i - 1] as int;
        let q = c[i] as int;
        assert((q * SCALE) / p >= 0) by (nonlinear_arith)
            requires
                p >= 1,
                q >= 0,
        ;
        assert((q * SCALE) / p <= q * SCALE) by (nonlinear_arith)
            requires
                p >= 1,
                q >= 0,
        ;
        assert(q * SCALE <= (u64::MAX as int) * SCALE) by (nonlinear_arith)
            requires
                q <= u64::MAX,
        ;
    }
}

/// Runs the whole analysis on a series of closes: moving averages over
/// `fast_window` and `slow_window` bars, crossover signals, daily, strategy and
/// cumulative returns, and the summary metrics.
pub fn analyze(closes: &Vec<u64>, fast_window: u32, slow_window: u32) -> (r: Analysis)
    requires
        fast_window > 0,
        slow_window > 0,
    ensures
        r.sma_fast@ == rolling_column(closes@, fast_window as int),
        r.sma_slow@ == rolling_column(closes@, slow_window as int),
        r.signal@ == signal_column(r.sma_fast@, r.sma_slow@),
        r.daily_return@ == daily_return_column(closes@),
        r.strategy_return@ == strategy_return_column(r.signal@, r.daily_return@),
        r.cumulative_return is Some <==> cumulative_fits(r.strategy_return@),
        r.cumulative_return is Some ==> r.cumulative_return.unwrap()@ == cumulative_column(
            r.strategy_return@,
        ),
        return_result(r.strategy_return@, r.metrics.annualized_return),
        volatility_result(r.strategy_return@, r.metrics.annualized_volatility),
        match (r.metrics.annualized_return, r.metrics.annualized_volatility) {
            (Some(a), Some(v)) => sharpe_result(a, v, RISK_FREE_RATE, r.metrics.sharpe_ratio),
            _ => r.metrics.sharpe_ratio is None,
        },
        match r.cumulative_return {
            Some(c) => drawdown_result(c@, r.metrics.max_drawdown_pct),
            None => r.metrics.max_drawdown_pct is None,
        },
{
    let sma_fast = rolling_mean(closes, fast_window);
    let sma_slow = rolling_mean(closes, slow_window);
    let signal = generate_signals(&sma_fast, &sma_slow);
    let daily_return = daily_returns(closes);
    proof {
        lemma_daily_not_min(closes@);
    }
    let strategy_return = strategy_returns(&signal, &daily_return);
    let cumulative_return = cumulative_returns(&strategy_return);
    let ar = annualized_return(&strategy_return);
    let vol = annualized_volatility(&strategy_return);
    let sharpe = match (ar, vol) {
        (Some(a), Some(v)) => sharpe_ratio(a, v, RISK_FREE_RATE),
        _ => None,
    };
    let mdd = match &cumulative_return {
        Some(c) => {
            proof {
                if c.len() > 0 {
                    assert(strategy_return@[0] is None);
                    assert(cumulative(strategy_return@, 0) == SCALE);
                    assert(cumulative(strategy_return@, 1) == (SCALE as int) * (SCALE as int) / (SCALE as int));
                    assert(c@[0] == SCALE);
                }
            }
            max_drawdown(c)
        },
        None => None,
    };
    Analysis {
        sma_fast,
        sma_slow,
        signal,
        daily_return,
        strategy_return,
        cumulative_return,
        metrics: MetricsReport {
            annualized_return: ar,
            annualized_volatility: vol,
            sharpe_ratio: sharpe,
            max_drawdown_pct: mdd,
        },
    }
}

} // verus!
