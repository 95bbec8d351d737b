use hft_rust_core::series::{calc_ema, calc_ichimoku_line, calc_stochastic, OSC_FULL, OSC_MID};

#[test]
fn extreme_average_uses_previous_window() {
    let highs = vec![10, 12, 11, 13, 14];
    let lows = vec![9, 10, 9, 11, 12];
    let r = calc_ichimoku_line(&highs, &lows, 2);
    assert_eq!(r, vec![0, 0, 10, 10, 11]);
}

#[test]
fn extreme_average_zero_period_is_all_sentinel() {
    let r = calc_ichimoku_line(&[5, 6, 7], &[1, 2, 3], 0);
    assert_eq!(r, vec![0, 0, 0]);
}

#[test]
fn extreme_average_rounds_toward_zero() {
    let r = calc_ichimoku_line(&[-3, -3], &[-4, -4], 1);
    assert_eq!(r, vec![0, -3]);
}

#[test]
fn ema_seeds_with_simple_average() {
    let r = calc_ema(&[100, 200, 300, 1000], 3);
    assert_eq!(r, vec![0, 0, 200, 600]);
}

#[test]
fn ema_recurrence_exact() {
    let r = calc_ema(&[1, 2, 3, 4, 5, 6], 2);
    assert_eq!(r, vec![0, 1, 2, 3, 4, 5]);
}

#[test]
fn ema_empty_input() {
    let r = calc_ema(&[], 3);
    assert!(r.is_empty());
}

#[test]
fn ema_period_longer_than_data() {
    let r = calc_ema(&[7, 8], 5);
    assert_eq!(r, vec![0, 0]);
}

#[test]
fn stochastic_position_in_range() {
    let r = calc_stochastic(&[0, 10, 4], 2);
    assert_eq!(r, vec![0, 0, 4_000]);
}

#[test]
fn stochastic_flat_window_is_mid() {
    let r = calc_stochastic(&[5, 5, 5, 9], 2);
    assert_eq!(r, vec![0, 0, OSC_MID, OSC_MID]);
}

#[test]
fn stochastic_bounds_of_scale() {
    let r = calc_stochastic(&[0, 10, 0, 10], 2);
    assert_eq!(r[2], 0);
    assert_eq!(r[3], OSC_FULL);
}

#[test]
fn stochastic_can_leave_scale_outside_window() {
    let r = calc_stochastic(&[10, 20, 30], 2);
    assert_eq!(r[2], 20_000);
}
