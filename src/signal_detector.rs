//! Scoring of indicator readings into directional signals, and the strict
//! agreement rule that combines two signals.
use vstd::prelude::*;

verus! {

/// Direction of a trade signal.
#[derive(Debug, Clone, Copy, PartialEq, Eq, Structural)]
pub enum SignalType {
    Long,
    Short,
    Neutral,
}

/// Confidence of a fully confirmed cloud signal, in basis points.
pub const CLOUD_CONFIDENCE: u32 = 10_000;

/// Confidence of a cycle crossing, in basis points.
pub const CYCLE_CONFIDENCE: u32 = 7_000;

/// Oscillator level (basis points) whose upward crossing signals a long.
pub const CYCLE_OVERSOLD: i128 = 2_500;

/// Oscillator level (basis points) whose downward crossing signals a short.
pub const CYCLE_OVERBOUGHT: i128 = 7_500;

pub open spec fn max_int(a: int, b: int) -> int {
    if a >= b {
        a
    } else {
        b
    }
}

pub open spec fn min_int(a: int, b: int) -> int {
    if a <= b {
        a
    } else {
        b
    }
}

/// Cloud scoring: price, tenkan and kijun all above the cloud with
/// tenkan > kijun is a full-confidence long; all below with tenkan < kijun a
/// full-confidence short; anything short of that is neutral with no
/// confidence.
pub open spec fn cloud_signal(price: int, tenkan: int, kijun: int, senkou_a: int, senkou_b: int) -> (SignalType, int) {
    let top = max_int(senkou_a, senkou_b);
    let bottom = min_int(senkou_a, senkou_b);
    if price > top && tenkan > kijun && tenkan > top && kijun > top {
        (SignalType::Long, CLOUD_CONFIDENCE as int)
    } else if price < bottom && tenkan < kijun && tenkan < bottom && kijun < bottom {
        (SignalType::Short, CLOUD_CONFIDENCE as int)
    } else {
        (SignalType::Neutral, 0)
    }
}

/// Cycle scoring: an upward crossing of the oversold level is a long, a
/// downward crossing of the overbought level a short.
pub open spec fn cycle_signal(value: int, previous: int) -> (SignalType, int) {
    if previous < CYCLE_OVERSOLD && value > CYCLE_OVERSOLD {
        (SignalType::Long, CYCLE_CONFIDENCE as int)
    } else if previous > CYCLE_OVERBOUGHT && value < CYCLE_OVERBOUGHT {
        (SignalType::Short, CYCLE_CONFIDENCE as int)
    } else {
        (SignalType::Neutral, 0)
    }
}

/// Strict agreement: the common direction with the mean confidence (rounded
/// down) when both signals agree on a direction; neutral otherwise.
pub open spec fn combined_signal(a: SignalType, conf_a: int, b: SignalType, conf_b: int) -> (SignalType, int) {
    if a == b && a != SignalType::Neutral {
        (a, (conf_a + conf_b) / 2)
    } else {
        (SignalType::Neutral, 0)
    }
}

/// Scores indicator readings. The minimum confidence is carried for callers
/// that filter signals; the scoring itself does not apply it.
pub struct SignalDetector {
    pub min_confidence: u32,
}

impl SignalDetector {
    pub fn new(min_confidence: u32) -> (r: Self)
        ensures
            r.min_confidence == min_confidence,
    {
        SignalDetector { min_confidence }
    }

    /// Scores the position of price, tenkan and kijun against the cloud
    /// spanned by the two senkou lines.
    pub fn detect_ichimoku_signal(&self, price: i64, tenkan: i64, kijun: i64, senkou_a: i64, senkou_b: i64) -> (r: (
        SignalType,
        u32,
    ))
        ensures
            (r.0, r.1 as int) == cloud_signal(
                price as int,
                tenkan as int,
                kijun as int,
                senkou_a as int,
                senkou_b as int,
            ),
    {
        let cloud_top = if senkou_a >= senkou_b {
            senkou_a
        } else {
            senkou_b
        };
        let cloud_bottom = if senkou_a <= senkou_b {
            senkou_a
        } else {
            senkou_b
        };
        if price > cloud_top {
            if tenkan > kijun && tenkan > cloud_top && kijun > cloud_top {
                return (SignalType::Long, CLOUD_CONFIDENCE);
            }
        } else if price < cloud_bottom {
            if tenkan < kijun && tenkan < cloud_bottom && kijun < cloud_bottom {
                return (SignalType::Short, CLOUD_CONFIDENCE);
            }
        }
        (SignalType::Neutral, 0)
    }

    /// Scores a crossing of the cycle oscillator between its previous and its
    /// current reading (basis points).
    pub fn detect_stc_signal(&self, stc: i128, prev_stc: i128) -> (r: (SignalType, u32))
        ensures
            (r.0, r.1 as int) == cycle_signal(stc as int, prev_stc as int),
    {
        if prev_stc < CYCLE_OVERSOLD && stc > CYCLE_OVERSOLD {
            (SignalType::Long, CYCLE_CONFIDENCE)
        } else if prev_stc > CYCLE_OVERBOUGHT && stc < CYCLE_OVERBOUGHT {
            (SignalType::Short, CYCLE_CONFIDENCE)
        } else {
            (SignalType::Neutral, 0)
        }
    }

    /// Combines a cloud signal and a cycle signal under strict agreement.
    pub fn combine_signals(
        &self,
        ichimoku_signal: SignalType,
        ichimoku_conf: u32,
        stc_signal: SignalType,
        stc_conf: u32,
    ) -> (r: (SignalType, u32))
        ensures
            (r.0, r.1 as int) == combined_signal(ichimoku_signal, ichimoku_conf as int, stc_signal, stc_conf as int),
            ichimoku_signal != stc_signal ==> r == (SignalType::Neutral, 0u32),
    {
        if ichimoku_signal == stc_signal && ichimoku_signal != SignalType::Neutral {
            let mean = ((ichimoku_conf as u64) + (stc_conf as u64)) / 2;
            return (ichimoku_signal, mean as u32);
        }
        (SignalType::Neutral, 0)
    }
}

/// Two signals that differ, or that are both neutral, always combine to a
/// neutral signal with no confidence.
pub proof fn lemma_disagreement_is_neutral(a: SignalType, conf_a: int, b: SignalType, conf_b: int)
    requires
        a != b || a == SignalType::Neutral,
    ensures
        combined_signal(a, conf_a, b, conf_b) == (SignalType::Neutral, 0int),
{
}

/// Price above the whole cloud, tenkan above kijun, and both lines above the
/// cloud top give a long at full confidence.
pub proof fn lemma_cloud_long(price: int, tenkan: int, kijun: int, senkou_a: int, senkou_b: int)
    requires
        price > senkou_a,
        price > senkou_b,
        tenkan > kijun,
        tenkan > max_int(senkou_a, senkou_b),
        kijun > max_int(senkou_a, senkou_b),
    ensures
        cloud_signal(price, tenkan, kijun, senkou_a, senkou_b) == (SignalType::Long, CLOUD_CONFIDENCE as int),
{
}

} // verus!
