//! The cloud-trend (Ichimoku) and cycle-oscillator (Schaff trend cycle)
//! calculators, built on the rolling-window primitives.
use vstd::prelude::*;
use crate::series::{
    calc_ema,
    calc_ichimoku_line,
    calc_stochastic,
    div_toward_zero,
    ema_at,
    extreme_average_at,
    ints_of_i128,
    ints_of_i64,
    lemma_stochastic_magnitude,
    stochastic_at,
    OSC_INPUT_BOUND,
};

verus! {

/// Why an indicator calculation was rejected.
#[derive(Debug, Clone, Copy, PartialEq, Eq, Structural)]
pub enum IndicatorError {
    /// The price arrays are empty or differ in length.
    InvalidInput,
    /// The close-price array is empty.
    EmptyInput,
}

/// How far back the lagging (chikou) line is displaced; fixed, whatever the
/// configured periods.
pub const CHIKOU_SHIFT: usize = 26;

/// The close `CHIKOU_SHIFT` positions ahead of `i`, or 0 where there is none.
pub open spec fn chikou_at(closes: Seq<int>, i: int) -> int {
    if i + CHIKOU_SHIFT < closes.len() {
        closes[i + CHIKOU_SHIFT]
    } else {
        0
    }
}

/// The five cloud lines `(tenkan, kijun, senkou_a, senkou_b, chikou)` are
/// exactly those of the given prices and periods.
pub open spec fn cloud_lines_of(
    highs: Seq<int>,
    lows: Seq<int>,
    closes: Seq<int>,
    tenkan_period: int,
    kijun_period: int,
    senkou_b_period: int,
    lines: (Seq<int>, Seq<int>, Seq<int>, Seq<int>, Seq<int>),
) -> bool {
    let n = highs.len();
    &&& lines.0.len() == n
    &&& lines.1.len() == n
    &&& lines.2.len() == n
    &&& lines.3.len() == n
    &&& lines.4.len() == n
    &&& forall|k: int|
        0 <= k < n ==> {
            &&& #[trigger] lines.0[k] == extreme_average_at(highs, lows, tenkan_period, k)
            &&& lines.1[k] == extreme_average_at(highs, lows, kijun_period, k)
            &&& lines.2[k] == div_toward_zero(lines.0[k] + lines.1[k], 2)
            &&& lines.3[k] == extreme_average_at(highs, lows, senkou_b_period, k)
            &&& lines.4[k] == chikou_at(closes, k)
        }
}

/// Fast-minus-slow moving-average difference of the closes.
pub open spec fn macd_series(closes: Seq<int>, fast: int, slow: int) -> Seq<int> {
    Seq::new(closes.len(), |k: int| ema_at(closes, fast, k) - ema_at(closes, slow, k))
}

pub open spec fn stochastic_series(data: Seq<int>, period: int) -> Seq<int> {
    Seq::new(data.len(), |k: int| stochastic_at(data, period, k))
}

/// The cycle oscillator: the stochastic of the stochastic of the MACD.
pub open spec fn stc_series(closes: Seq<int>, period: int, fast: int, slow: int) -> Seq<int> {
    stochastic_series(stochastic_series(macd_series(closes, fast, slow), period), period)
}

/// Cloud-trend calculator. Default periods are 9, 26 and 52.
pub struct IchimokuCalculator;

impl IchimokuCalculator {
    pub fn new() -> Self {
        IchimokuCalculator
    }

    /// Computes `(tenkan, kijun, senkou_a, senkou_b, chikou)`; rejects empty
    /// or misaligned arrays with `InvalidInput`.
    pub fn calculate(
        &self,
        highs: Vec<i64>,
        lows: Vec<i64>,
        closes: Vec<i64>,
        tenkan_period: usize,
        kijun_period: usize,
        senkou_b_period: usize,
    ) -> (r: Result<(Vec<i64>, Vec<i64>, Vec<i64>, Vec<i64>, Vec<i64>), IndicatorError>)
        ensures
            r is Err <==> (highs@.len() == 0 || highs@.len() != lows@.len() || highs@.len() != closes@.len()),
            r is Err ==> r->Err_0 == IndicatorError::InvalidInput,
            r is Ok ==> cloud_lines_of(
                ints_of_i64(highs@),
                ints_of_i64(lows@),
                ints_of_i64(closes@),
                tenkan_period as int,
                kijun_period as int,
                senkou_b_period as int,
                (
                    ints_of_i64(r->Ok_0.0@),
                    ints_of_i64(r->Ok_0.1@),
                    ints_of_i64(r->Ok_0.2@),
                    ints_of_i64(r->Ok_0.3@),
                    ints_of_i64(r->Ok_0.4@),
                ),
            ),
    {
        let len = highs.len();
        if len == 0 || highs.len() != lows.len() || highs.len() != closes.len() {
            return Err(IndicatorError::InvalidInput);
        }
        let tenkan = calc_ichimoku_line(highs.as_slice(), lows.as_slice(), tenkan_period);
        let kijun = calc_ichimoku_line(highs.as_slice(), lows.as_slice(), kijun_period);
        let senkou_b = calc_ichimoku_line(highs.as_slice(), lows.as_slice(), senkou_b_period);

        let mut senkou_a: Vec<i64> = Vec::new();
        let mut i: usize = 0;
        while i < len
            invariant
                i <= len,
                tenkan@.len() == len,
                kijun@.len() == len,
                senkou_a@.len() == i,
                forall|k: int|
                    0 <= k < i ==> #[trigger] senkou_a@[k] as int == div_toward_zero(
                        tenkan@[k] + kijun@[k],
                        2,
                    ),
            decreases len - i,
        {
            let mid = ((tenkan[i] as i128) + (kijun[i] as i128)) / 2;
            senkou_a.push(mid as i64);
            i += 1;
        }

        let mut chikou: Vec<i64> = Vec::new();
        i = 0;
        while i < len
            invariant
                i <= len,
                len == closes@.len(),
                chikou@.len() == i,
                forall|k: int|
                    0 <= k < i ==> #[trigger] chikou@[k] as int == chikou_at(ints_of_i64(closes@), k),
            decreases len - i,
        {
            if len >= CHIKOU_SHIFT && i < len - CHIKOU_SHIFT {
                chikou.push(closes[i + CHIKOU_SHIFT]);
            } else {
                chikou.push(0);
            }
            i += 1;
        }
        Ok((tenkan, kijun, senkou_a, senkou_b, chikou))
    }
}

/// Cycle-oscillator calculator. Default parameters: period 10, fast length
/// 23, slow length 50.
pub struct STCCalculator;

impl STCCalculator {
    pub fn new() -> Self {
        STCCalculator
    }

    /// The stochastic, taken twice over `period`, of the difference between
    /// the fast and slow moving averages of `closes`, in basis points; rejects
    /// an empty array with `EmptyInput`.
    pub fn calculate(&self, closes: Vec<i64>, period: usize, fast_length: usize, slow_length: usize) -> (r:
        Result<Vec<i128>, IndicatorError>)
        ensures
            r is Err <==> closes@.len() == 0,
            r is Err ==> r->Err_0 == IndicatorError::EmptyInput,
            r is Ok ==> ints_of_i128(r->Ok_0@) == stc_series(
                ints_of_i64(closes@),
                period as int,
                fast_length as int,
                slow_length as int,
            ),
    {
        if closes.len() == 0 {
            return Err(IndicatorError::EmptyInput);
        }
        let len = closes.len();
        let fast_ema = calc_ema(closes.as_slice(), fast_length);
        let slow_ema = calc_ema(closes.as_slice(), slow_length);
        let ghost c = ints_of_i64(closes@);

        let mut macd: Vec<i128> = Vec::new();
        let mut i: usize = 0;
        while i < len
            invariant
                i <= len,
                fast_ema@.len() == len,
                slow_ema@.len() == len,
                c.len() == len,
                forall|k: int| 0 <= k < len ==> #[trigger] fast_ema@[k] as int == ema_at(c, fast_length as int, k),
                forall|k: int| 0 <= k < len ==> #[trigger] slow_ema@[k] as int == ema_at(c, slow_length as int, k),
                macd@.len() == i,
                forall|k: int| 0 <= k < i ==> #[trigger] macd@[k] as int == macd_series(c, fast_length as int, slow_length as int)[k],
                forall|k: int| 0 <= k < i ==> -0x1_0000_0000_0000_0000 <= #[trigger] macd@[k] <= 0x1_0000_0000_0000_0000,
            decreases len - i,
        {
            macd.push((fast_ema[i] as i128) - (slow_ema[i] as i128));
            i += 1;
        }
        let ghost m = ints_of_i128(macd@);
        assert(m =~= macd_series(c, fast_length as int, slow_length as int));
        assert(forall|k: int| 0 <= k < macd@.len() ==> -OSC_INPUT_BOUND <= #[trigger] macd@[k] <= OSC_INPUT_BOUND);
        let stoch1 = calc_stochastic(macd.as_slice(), period);
        let ghost s1 = ints_of_i128(stoch1@);
        assert(s1 =~= stochastic_series(m, period as int));
        assert forall|k: int| 0 <= k < stoch1@.len() implies -OSC_INPUT_BOUND <= #[trigger] stoch1@[k]
            <= OSC_INPUT_BOUND by {
            assert(forall|j: int| 0 <= j < m.len() ==> -0x1_0000_0000_0000_0000 <= #[trigger] m[j] <= 0x1_0000_0000_0000_0000);
            lemma_stochastic_magnitude(m, period as int, k, 0x1_0000_0000_0000_0000);
        }
        let stoch2 = calc_stochastic(stoch1.as_slice(), period);
        assert(ints_of_i128(stoch2@) =~= stochastic_series(s1, period as int));
        Ok(stoch2)
    }
}

} // verus!
