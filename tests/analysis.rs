use sma_backtest::backtest::{cumulative_returns, daily_returns, strategy_returns, SCALE};
use sma_backtest::metrics::{
    annualized_return, annualized_volatility, floor_sqrt, max_drawdown, sharpe_ratio, PERCENT,
    RISK_FREE_RATE,
};
use sma_backtest::pipeline::{analyze, Bar, PriceTable, TableError};
use sma_backtest::rolling::{rolling_mean, Mean};
use sma_backtest::signal::{crossover, generate_signals, Signal};

fn naive_mean(values: &[u64], window: usize, i: usize) -> Option<Mean> {
    if i + 1 < window {
        return None;
    }
    let sum: u128 = values[i + 1 - window..=i].iter().map(|&v| v as u128).sum();
    Some(Mean { sum, count: window as u32 })
}

fn bar(timestamp: i64, close: u64) -> Bar {
    Bar { timestamp, open: close, high: close, low: close, close, adjclose: close, volume: 1000 }
}

/// 30 closes rising linearly from 100.0 to 130.0, in ticks of 1/10000.
fn uptrend() -> Vec<u64> {
    (0..30).map(|i| (((100.0 + 30.0 * i as f64 / 29.0) * 10000.0).round()) as u64).collect()
}

#[test]
fn rolling_mean_matches_naive_windows() {
    let values: Vec<u64> = vec![5, 1, 9, 3, 7, 2, 8, 6, 4, 10, 0, 11];
    for w in 1..=14usize {
        let r = rolling_mean(&values, w as u32);
        assert_eq!(r.len(), values.len());
        let defined = r.iter().filter(|m| m.is_some()).count();
        assert_eq!(defined, (values.len() + 1).saturating_sub(w));
        let first = r.iter().position(|m| m.is_some()).unwrap_or(r.len());
        assert!(r[first..].iter().all(|m| m.is_some()));
        for i in 0..values.len() {
            assert_eq!(r[i], naive_mean(&values, w, i));
        }
    }
}

#[test]
fn rolling_mean_short_input_is_all_undefined() {
    let r = rolling_mean(&vec![1, 2, 3], 9);
    assert_eq!(r, vec![None, None, None]);
    assert!(rolling_mean(&vec![], 3).is_empty());
}

#[test]
fn rolling_mean_exact_value() {
    let r = rolling_mean(&vec![2, 4, 9], 2);
    assert_eq!(r, vec![None, Some(Mean { sum: 6, count: 2 }), Some(Mean { sum: 13, count: 2 })]);
}

#[test]
fn crossover_rule_and_tie() {
    let a = Some(Mean { sum: 10, count: 2 });
    let b = Some(Mean { sum: 12, count: 3 });
    assert_eq!(crossover(a, b), Some(Signal::Long));
    assert_eq!(crossover(b, a), Some(Signal::Short));
    let c = Some(Mean { sum: 15, count: 3 });
    assert_eq!(crossover(a, c), Some(Signal::Short));
    assert_eq!(crossover(None, a), None);
    assert_eq!(crossover(a, None), None);
    assert_eq!(Signal::Long.to_i32(), 1);
    assert_eq!(Signal::Short.to_i32(), -1);
}

#[test]
fn signals_do_not_depend_on_other_rows() {
    let m = |s: u128, c: u32| Some(Mean { sum: s, count: c });
    let fast = vec![None, m(10, 2), m(30, 2), m(4, 2)];
    let slow = vec![None, m(12, 3), m(30, 3), m(90, 3)];
    let r = generate_signals(&fast, &slow);
    let fast2 = vec![m(4, 2), m(30, 2), None, m(10, 2)];
    let slow2 = vec![m(90, 3), m(30, 3), None, m(12, 3)];
    let r2 = generate_signals(&fast2, &slow2);
    assert_eq!(r, vec![None, Some(Signal::Long), Some(Signal::Long), Some(Signal::Short)]);
    assert_eq!(r2, vec![r[3], r[2], r[0], r[1]]);
}

#[test]
fn daily_returns_exact_and_zero_close() {
    let r = daily_returns(&vec![200, 300, 150, 0, 10]);
    assert_eq!(r, vec![None, Some(SCALE / 2), Some(-SCALE / 2), Some(-SCALE), None]);
    assert_eq!(daily_returns(&vec![3, 2]), vec![None, Some(-333_333_334)]);
    assert!(daily_returns(&vec![]).is_empty());
}

#[test]
fn strategy_return_uses_previous_signal() {
    let daily = vec![None, Some(100), Some(200), Some(300), Some(400)];
    let signals = vec![
        Some(Signal::Short),
        Some(Signal::Short),
        Some(Signal::Long),
        Some(Signal::Long),
        None,
    ];
    let r = strategy_returns(&signals, &daily);
    assert_eq!(r, vec![None, Some(-100), Some(-200), Some(300), Some(400)]);
}

#[test]
fn cumulative_return_compounds() {
    let sr = vec![None, Some(SCALE / 10), None, Some(-SCALE / 2)];
    let c = cumulative_returns(&sr).unwrap();
    assert_eq!(c, vec![SCALE, 1_100_000_000, 1_100_000_000, 550_000_000]);
}

#[test]
fn cumulative_return_flat_for_zero_returns() {
    let sr = vec![None, Some(0), Some(0), None, Some(0)];
    assert_eq!(cumulative_returns(&sr).unwrap(), vec![SCALE; 5]);
    assert_eq!(cumulative_returns(&vec![]).unwrap(), Vec::<i128>::new());
}

#[test]
fn cumulative_return_overflow_is_none() {
    let sr = vec![Some(i128::MAX / 4); 4];
    assert_eq!(cumulative_returns(&sr), None);
}

#[test]
fn max_drawdown_rising_curve_is_zero() {
    assert_eq!(max_drawdown(&vec![SCALE, SCALE, 2 * SCALE, 3 * SCALE]), Some(0));
    assert_eq!(max_drawdown(&vec![]), None);
}

#[test]
fn max_drawdown_after_crash() {
    let mut curve: Vec<i128> = (0..15).map(|i| SCALE + i * SCALE / 100).collect();
    let peak = curve[14];
    curve.extend(std::iter::repeat(peak / 2).take(15));
    let r = max_drawdown(&curve).unwrap();
    assert!(r < 0);
    assert_eq!(r, -50 * SCALE);
    assert_eq!(r, (PERCENT * (peak / 2 - peak)).div_euclid(peak));
}

#[test]
fn annualized_return_mean_times_days() {
    let sr = vec![None, Some(1_000_000), Some(-3_000_000), Some(5_000_000)];
    assert_eq!(annualized_return(&sr), Some(252 * 1_000_000));
    assert_eq!(annualized_return(&vec![None, None]), None);
    assert_eq!(annualized_return(&vec![Some(-1), Some(0)]), Some(-126));
}

#[test]
fn annualized_volatility_population_form() {
    // returns 0.01 and 0.03: population std 0.01, times sqrt(252)
    let sr = vec![None, Some(10_000_000), Some(30_000_000)];
    let expected = (252.0f64.sqrt() * 10_000_000.0) as i128;
    assert_eq!(annualized_volatility(&sr), Some(expected));
    assert_eq!(annualized_volatility(&vec![Some(5), Some(5)]), Some(0));
    assert_eq!(annualized_volatility(&vec![None]), None);
    assert_eq!(annualized_volatility(&vec![Some(i128::MAX / 2), Some(0)]), None);
}

#[test]
fn floor_sqrt_values() {
    assert_eq!(floor_sqrt(0), 0);
    assert_eq!(floor_sqrt(15), 3);
    assert_eq!(floor_sqrt(16), 4);
    assert_eq!(floor_sqrt(u128::MAX), u64::MAX as u128);
}

#[test]
fn sharpe_ratio_values_and_zero_volatility() {
    assert_eq!(sharpe_ratio(SCALE / 5, SCALE / 10, RISK_FREE_RATE), Some(1_900_000_000));
    assert_eq!(sharpe_ratio(0, SCALE, RISK_FREE_RATE), Some(-10_000_000));
    assert_eq!(sharpe_ratio(SCALE, 0, RISK_FREE_RATE), None);
    assert_eq!(sharpe_ratio(i128::MAX, 1, RISK_FREE_RATE), None);
}

#[test]
fn table_from_bars_keeps_rows() {
    let bars = vec![bar(10, 100), bar(20, 110), bar(30, 90)];
    let t = PriceTable::from_bars(&bars).unwrap();
    assert_eq!(t.timestamp, vec![10, 20, 30]);
    assert_eq!(t.close, vec![100, 110, 90]);
    assert_eq!(t.volume, vec![1000; 3]);
}

#[test]
fn table_from_bars_rejects_non_increasing() {
    let bars = vec![bar(10, 100), bar(20, 110), bar(20, 90), bar(5, 1)];
    assert_eq!(PriceTable::from_bars(&bars).unwrap_err(), TableError::NotIncreasing(2));
    assert!(PriceTable::from_bars(&vec![]).unwrap().close.is_empty());
}

#[test]
fn uptrend_end_to_end() {
    let closes = uptrend();
    assert_eq!(closes[0], 1_000_000);
    assert_eq!(closes[29], 1_300_000);
    let a = analyze(&closes, 9, 21);
    let sum8: u128 = closes[0..=8].iter().map(|&c| c as u128).sum();
    assert_eq!(a.sma_fast[8], Some(Mean { sum: sum8, count: 9 }));
    assert!(a.sma_fast[..8].iter().all(|m| m.is_none()));
    assert!(a.sma_slow[..20].iter().all(|m| m.is_none()));
    assert!(a.sma_slow[20..].iter().all(|m| m.is_some()));
    assert!(a.signal[..20].iter().all(|s| s.is_none()));
    for i in 20..30 {
        let f = a.sma_fast[i].unwrap();
        let s = a.sma_slow[i].unwrap();
        let long = f.sum * s.count as u128 > s.sum * f.count as u128;
        assert_eq!(a.signal[i], Some(if long { Signal::Long } else { Signal::Short }));
        assert_eq!(a.signal[i], Some(Signal::Long));
    }
    let cum = a.cumulative_return.unwrap();
    assert_eq!(cum.len(), 30);
    assert!(cum[29] > SCALE);
    assert_eq!(a.metrics.max_drawdown_pct, Some(0));
    assert!(a.metrics.annualized_return.unwrap() > 0);
    assert!(a.metrics.annualized_volatility.is_some());
    assert!(a.metrics.sharpe_ratio.is_some());
}

#[test]
fn crash_end_to_end() {
    let mut closes: Vec<u64> = (0..15).map(|i| 1_000_000 + 10_000 * i).collect();
    let pre = closes[14];
    closes.extend(std::iter::repeat(pre / 2).take(15));
    let a = analyze(&closes, 2, 3);
    assert_eq!(a.signal[14], Some(Signal::Long));
    let cum = a.cumulative_return.unwrap();
    let peak = *cum[..15].iter().max().unwrap();
    assert_eq!(peak, cum[14]);
    let expected = (PERCENT * (cum[15] - peak)).div_euclid(peak);
    let mdd = a.metrics.max_drawdown_pct.unwrap();
    assert!(mdd < 0);
    assert_eq!(mdd, expected);
    assert!(mdd <= -50 * SCALE && mdd > -51 * SCALE);
}

#[test]
fn empty_input_end_to_end() {
    let a = analyze(&vec![], 9, 21);
    assert!(a.sma_fast.is_empty() && a.signal.is_empty() && a.strategy_return.is_empty());
    assert_eq!(a.cumulative_return, Some(vec![]));
    assert_eq!(a.metrics.annualized_return, None);
    assert_eq!(a.metrics.annualized_volatility, None);
    assert_eq!(a.metrics.sharpe_ratio, None);
    assert_eq!(a.metrics.max_drawdown_pct, None);
}

#[test]
fn annualized_return_overflow_is_none() {
    assert_eq!(annualized_return(&vec![Some(i128::MAX), Some(1)]), None);
    assert_eq!(annualized_return(&vec![Some(i128::MAX / 2)]), None);
}

#[test]
fn max_drawdown_overflow_is_none() {
    assert_eq!(max_drawdown(&vec![SCALE, i128::MIN]), None);
    assert_eq!(max_drawdown(&vec![SCALE, -SCALE]), Some(-200 * SCALE));
}
