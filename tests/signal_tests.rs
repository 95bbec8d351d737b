use hft_rust_core::{SignalDetector, SignalType};

#[test]
fn cloud_long_full_confidence() {
    let d = SignalDetector::new(6_000);
    assert_eq!(d.detect_ichimoku_signal(120, 115, 112, 100, 105), (SignalType::Long, 10_000));
}

#[test]
fn cloud_short_full_confidence() {
    let d = SignalDetector::new(6_000);
    assert_eq!(d.detect_ichimoku_signal(80, 85, 90, 100, 95), (SignalType::Short, 10_000));
}

#[test]
fn cloud_partial_conditions_are_neutral() {
    let d = SignalDetector::new(6_000);
    // above the cloud, but tenkan below kijun
    assert_eq!(d.detect_ichimoku_signal(120, 110, 115, 100, 105), (SignalType::Neutral, 0));
    // above the cloud and crossed, but kijun inside the cloud
    assert_eq!(d.detect_ichimoku_signal(120, 115, 103, 100, 105), (SignalType::Neutral, 0));
    // inside the cloud
    assert_eq!(d.detect_ichimoku_signal(102, 115, 110, 100, 105), (SignalType::Neutral, 0));
}

#[test]
fn cycle_signal_scenarios() {
    let d = SignalDetector::new(0);
    assert_eq!(d.detect_stc_signal(3_000, 2_000), (SignalType::Long, 7_000));
    assert_eq!(d.detect_stc_signal(7_000, 8_000), (SignalType::Short, 7_000));
    assert_eq!(d.detect_stc_signal(4_500, 4_000), (SignalType::Neutral, 0));
}

#[test]
fn cycle_signal_needs_strict_crossing() {
    let d = SignalDetector::new(0);
    assert_eq!(d.detect_stc_signal(2_500, 2_000), (SignalType::Neutral, 0));
    assert_eq!(d.detect_stc_signal(7_500, 8_000), (SignalType::Neutral, 0));
}

#[test]
fn combine_agreeing_signals_averages() {
    let d = SignalDetector::new(0);
    assert_eq!(d.combine_signals(SignalType::Long, 10_000, SignalType::Long, 7_000), (SignalType::Long, 8_500));
    assert_eq!(d.combine_signals(SignalType::Short, 10_000, SignalType::Short, 7_001), (SignalType::Short, 8_500));
}

#[test]
fn combine_disagreement_is_neutral() {
    let d = SignalDetector::new(0);
    assert_eq!(d.combine_signals(SignalType::Long, 10_000, SignalType::Short, 7_000), (SignalType::Neutral, 0));
    assert_eq!(d.combine_signals(SignalType::Long, 10_000, SignalType::Neutral, 0), (SignalType::Neutral, 0));
    assert_eq!(d.combine_signals(SignalType::Neutral, 10_000, SignalType::Neutral, 7_000), (SignalType::Neutral, 0));
}

#[test]
fn detector_keeps_threshold() {
    let d = SignalDetector::new(6_500);
    assert_eq!(d.min_confidence, 6_500);
}
