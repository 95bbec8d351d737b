use hft_rust_core::{IchimokuCalculator, IndicatorError, STCCalculator};

fn scenario_prices() -> (Vec<i64>, Vec<i64>, Vec<i64>) {
    let highs: Vec<i64> = vec![1000, 1200, 1100, 1300, 1400, 1500, 1600, 1700, 1800, 1900];
    let lows: Vec<i64> = vec![900, 1000, 900, 1100, 1200, 1300, 1400, 1500, 1600, 1700];
    let closes: Vec<i64> = highs.iter().zip(lows.iter()).map(|(h, l)| (h + l) / 2).collect();
    (highs, lows, closes)
}

#[test]
fn ichimoku_tenkan_scenario() {
    let (highs, lows, closes) = scenario_prices();
    let calc = IchimokuCalculator::new();
    let (tenkan, kijun, senkou_a, senkou_b, chikou) = calc.calculate(highs, lows, closes, 3, 26, 52).unwrap();
    assert_eq!(&tenkan[0..3], &[0, 0, 0]);
    assert_eq!(tenkan[3], 1050);
    assert_eq!(tenkan.len(), 10);
    assert!(kijun.iter().all(|v| *v == 0));
    assert!(senkou_b.iter().all(|v| *v == 0));
    assert_eq!(senkou_a[3], 525);
    assert!(chikou.iter().all(|v| *v == 0));
}

#[test]
fn ichimoku_senkou_a_is_mean_of_lines() {
    let (highs, lows, closes) = scenario_prices();
    let (tenkan, kijun, senkou_a, _, _) =
        IchimokuCalculator::new().calculate(highs, lows, closes, 2, 3, 4).unwrap();
    for i in 0..tenkan.len() {
        assert_eq!(senkou_a[i], (tenkan[i] + kijun[i]) / 2);
    }
    assert_eq!(kijun[3], 1050);
}

#[test]
fn ichimoku_chikou_shifts_by_26() {
    let n: i64 = 30;
    let highs: Vec<i64> = (0..n).map(|i| i + 1).collect();
    let lows: Vec<i64> = (0..n).collect();
    let closes: Vec<i64> = (0..n).map(|i| 100 + i).collect();
    let (_, _, _, _, chikou) = IchimokuCalculator::new().calculate(highs, lows, closes, 9, 26, 52).unwrap();
    assert_eq!(&chikou[0..4], &[126, 127, 128, 129]);
    assert!(chikou[4..].iter().all(|v| *v == 0));
}

#[test]
fn ichimoku_rejects_empty() {
    let r = IchimokuCalculator::new().calculate(vec![], vec![], vec![], 9, 26, 52);
    assert_eq!(r.unwrap_err(), IndicatorError::InvalidInput);
}

#[test]
fn ichimoku_rejects_mismatched_lengths() {
    let r = IchimokuCalculator::new().calculate(vec![1, 2], vec![1], vec![1, 2], 9, 26, 52);
    assert_eq!(r.unwrap_err(), IndicatorError::InvalidInput);
    let r = IchimokuCalculator::new().calculate(vec![1, 2], vec![1, 2], vec![1], 9, 26, 52);
    assert_eq!(r.unwrap_err(), IndicatorError::InvalidInput);
}

#[test]
fn stc_rejects_empty_closes() {
    let r = STCCalculator::new().calculate(vec![], 10, 23, 50);
    assert_eq!(r.unwrap_err(), IndicatorError::EmptyInput);
}

#[test]
fn stc_short_history_is_all_sentinel() {
    let r = STCCalculator::new().calculate(vec![10, 11, 12, 13, 14], 10, 23, 50).unwrap();
    assert_eq!(r, vec![0, 0, 0, 0, 0]);
}

#[test]
fn stc_flat_macd_reads_mid() {
    let r = STCCalculator::new().calculate(vec![1, 2, 3, 4, 5, 6], 1, 1, 2).unwrap();
    assert_eq!(r, vec![0, 5_000, 5_000, 5_000, 5_000, 5_000]);
}

#[test]
fn stc_double_stochastic() {
    // fast = closes, slow = [0, 1, 2, 3, 4, 10], macd = [1, 1, 1, 1, 1, 4]
    let r = STCCalculator::new().calculate(vec![1, 2, 3, 4, 5, 14], 2, 1, 2).unwrap();
    assert_eq!(r, vec![0, 0, 5_000, 10_000, 5_000, 5_000]);
}
