use hft_rust_core::{Tick, TickBuffer, OHLC};

const MINUTE: i64 = 60_000_000;

fn tick(ts: i64, bid: i64, ask: i64, volume: i64) -> Tick {
    Tick::new(String::from("EURUSD"), bid, ask, ts, volume)
}

#[test]
fn tick_mid_and_spread() {
    let t = tick(0, 100, 103, 1);
    assert_eq!(t.mid_price(), 101);
    assert_eq!(t.spread(), 3);
}

#[test]
fn buffer_keeps_last_capacity_in_order() {
    let mut b = TickBuffer::new(3, String::from("EURUSD"));
    for i in 1..=5 {
        b.add_tick(tick(i, 100, 102, 1));
        assert!(b.tick_count() <= 3);
    }
    assert_eq!(b.tick_count(), 3);
    let ts: Vec<i64> = b.get_recent_ticks(10).iter().map(|t| t.timestamp).collect();
    assert_eq!(ts, vec![3, 4, 5]);
    let ts: Vec<i64> = b.get_recent_ticks(2).iter().map(|t| t.timestamp).collect();
    assert_eq!(ts, vec![4, 5]);
}

#[test]
fn buffer_before_full() {
    let mut b = TickBuffer::new(4, String::from("EURUSD"));
    b.add_tick(tick(1, 100, 102, 1));
    b.add_tick(tick(2, 100, 102, 1));
    assert_eq!(b.tick_count(), 2);
    let ts: Vec<i64> = b.get_recent_ticks(5).iter().map(|t| t.timestamp).collect();
    assert_eq!(ts, vec![1, 2]);
    assert!(b.get_recent_ticks(0).is_empty());
}

#[test]
fn buffer_zero_capacity_holds_nothing() {
    let mut b = TickBuffer::new(0, String::from("EURUSD"));
    b.add_tick(tick(1, 100, 102, 1));
    assert_eq!(b.tick_count(), 0);
}

#[test]
fn build_bar_from_ticks() {
    let b = TickBuffer::new(10, String::from("EURUSD"));
    let ticks = vec![tick(5, 100, 102, 2), tick(6, 110, 112, 3), tick(7, 90, 92, 4), tick(8, 104, 106, 5)];
    let bar = b.build_ohlc_from_ticks(ticks).unwrap();
    assert_eq!(bar, OHLC { timestamp: 5, open: 101, high: 111, low: 91, close: 105, volume: 14 });
}

#[test]
fn build_bar_from_no_ticks() {
    let b = TickBuffer::new(10, String::from("EURUSD"));
    assert!(b.build_ohlc_from_ticks(vec![]).is_none());
}

#[test]
fn short_bar_closes_on_new_minute() {
    let mut b = TickBuffer::new(100, String::from("EURUSD"));
    b.add_tick(tick(0, 100, 102, 1));
    b.add_tick(tick(MINUTE / 2, 110, 112, 2));
    assert!(b.get_m1_candles(10).is_empty());
    b.add_tick(tick(MINUTE + 1, 90, 92, 3));
    let bars = b.get_m1_candles(10);
    assert_eq!(bars, vec![OHLC { timestamp: 0, open: 101, high: 111, low: 101, close: 111, volume: 3 }]);
    assert!(b.get_m5_candles(10).is_empty());
}

#[test]
fn long_bar_closes_on_new_five_minutes() {
    let mut b = TickBuffer::new(100, String::from("EURUSD"));
    for m in 0..6 {
        b.add_tick(tick(m * MINUTE, 100 + m, 102 + m, 1));
    }
    assert_eq!(b.get_m1_candles(100).len(), 5);
    assert_eq!(b.get_m1_candles(2).len(), 2);
    let long = b.get_m5_candles(10);
    assert_eq!(long, vec![OHLC { timestamp: 0, open: 101, high: 105, low: 101, close: 105, volume: 5 }]);
}

#[test]
fn merged_short_bars_equal_bar_of_all_ticks() {
    let b = TickBuffer::new(10, String::from("EURUSD"));
    let ticks = vec![tick(1, 100, 102, 2), tick(2, 120, 122, 3), tick(3, 80, 82, 4), tick(4, 104, 106, 5)];
    let first = b.build_ohlc_from_ticks(ticks[0..2].to_vec()).unwrap();
    let second = b.build_ohlc_from_ticks(ticks[2..4].to_vec()).unwrap();
    let all = b.build_ohlc_from_ticks(ticks).unwrap();
    let merged = OHLC {
        timestamp: first.timestamp,
        open: first.open,
        high: first.high.max(second.high),
        low: first.low.min(second.low),
        close: second.close,
        volume: first.volume + second.volume,
    };
    assert_eq!(all, merged);
    assert_eq!(all, OHLC { timestamp: 1, open: 101, high: 121, low: 81, close: 105, volume: 14 });
}

#[test]
fn negative_timestamps_bucket_by_floor() {
    let mut b = TickBuffer::new(10, String::from("EURUSD"));
    b.add_tick(tick(-1, 100, 102, 1));
    b.add_tick(tick(0, 110, 112, 1));
    let bars = b.get_m1_candles(5);
    assert_eq!(bars, vec![OHLC { timestamp: -1, open: 101, high: 101, low: 101, close: 101, volume: 1 }]);
    assert_eq!(b.get_m5_candles(5).len(), 1);
}

#[test]
fn mid_price_rounds_toward_zero() {
    assert_eq!(tick(0, 100, 101, 0).mid_price(), 100);
    assert_eq!(tick(0, -100, -101, 0).mid_price(), -100);
}
