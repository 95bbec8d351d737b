//! Rolling-window primitives over price series: extreme averages,
//! exponential moving averages and the stochastic oscillator.
//!
//! Every output has the length of its input. Positions whose window does not
//! yet hold enough history carry the sentinel 0.
use vstd::prelude::*;
use vstd::arithmetic::div_mod::{
    lemma_div_is_ordered,
    lemma_div_is_ordered_by_denominator,
    lemma_div_pos_is_pos,
    lemma_div_by_multiple,
};

verus! {

/// 100% in basis points: the top of the oscillator scale.
pub const OSC_FULL: i128 = 10_000;

/// The reading of a window whose values are all equal.
pub const OSC_MID: i128 = 5_000;

/// The largest magnitude the stochastic oscillator accepts (2^100), so that
/// every reading fits in an `i128`.
pub const OSC_INPUT_BOUND: i128 = 1267650600228229401496703205376;

pub open spec fn ints_of_i64(s: Seq<i64>) -> Seq<int> {
    s.map_values(|v: i64| v as int)
}

pub open spec fn ints_of_i128(s: Seq<i128>) -> Seq<int> {
    s.map_values(|v: i128| v as int)
}

/// Integer division rounded toward zero, as machine division rounds.
pub open spec fn div_toward_zero(a: int, d: int) -> int {
    if a >= 0 {
        a / d
    } else {
        -((-a) / d)
    }
}

/// Largest of `s[lo..hi)`; meaningful for `lo < hi`.
pub open spec fn window_max(s: Seq<int>, lo: int, hi: int) -> int
    decreases hi - lo,
{
    if hi <= lo + 1 {
        s[lo]
    } else {
        let m = window_max(s, lo, hi - 1);
        if s[hi - 1] > m {
            s[hi - 1]
        } else {
            m
        }
    }
}

/// Smallest of `s[lo..hi)`; meaningful for `lo < hi`.
pub open spec fn window_min(s: Seq<int>, lo: int, hi: int) -> int
    decreases hi - lo,
{
    if hi <= lo + 1 {
        s[lo]
    } else {
        let m = window_min(s, lo, hi - 1);
        if s[hi - 1] < m {
            s[hi - 1]
        } else {
            m
        }
    }
}

/// Sum of the first `n` elements of `s`.
pub open spec fn prefix_sum(s: Seq<int>, n: int) -> int
    decreases n,
{
    if n <= 0 {
        0
    } else {
        prefix_sum(s, n - 1) + s[n - 1]
    }
}

/// Midpoint of the highest high and the lowest low over the `period`
/// positions before `i` (index `i` itself excluded).
pub open spec fn extreme_average_at(highs: Seq<int>, lows: Seq<int>, period: int, i: int) -> int {
    if period < 1 || i < period {
        0
    } else {
        div_toward_zero(window_max(highs, i - period, i) + window_min(lows, i - period, i), 2)
    }
}

/// Exponential moving average: seeded at `period - 1` with the simple average
/// of the first `period` values, then `prev + 2 * (x - prev) / (period + 1)`.
pub open spec fn ema_at(data: Seq<int>, period: int, i: int) -> int
    decreases i,
{
    if period < 1 || i < period - 1 {
        0
    } else if i == period - 1 {
        div_toward_zero(prefix_sum(data, period), period)
    } else {
        let prev = ema_at(data, period, i - 1);
        prev + div_toward_zero(2 * (data[i] - prev), period + 1)
    }
}

/// Position of `data[i]` within the range of the `period` values before it,
/// in basis points; a window of equal values reads `OSC_MID`.
pub open spec fn stochastic_at(data: Seq<int>, period: int, i: int) -> int {
    if period < 1 || i < period {
        0
    } else {
        let hi = window_max(data, i - period, i);
        let lo = window_min(data, i - period, i);
        if hi == lo {
            OSC_MID as int
        } else {
            div_toward_zero(OSC_FULL * (data[i] - lo), hi - lo)
        }
    }
}

/// The window's extremes lie among its elements and bound all of them.
pub proof fn lemma_window_bounds(s: Seq<int>, lo: int, hi: int)
    requires
        0 <= lo < hi <= s.len(),
    ensures
        forall|k: int| lo <= k < hi ==> window_min(s, lo, hi) <= #[trigger] s[k] <= window_max(s, lo, hi),
        exists|k: int| lo <= k < hi && window_max(s, lo, hi) == s[k],
        exists|k: int| lo <= k < hi && window_min(s, lo, hi) == s[k],
    decreases hi - lo,
{
    if hi > lo + 1 {
        lemma_window_bounds(s, lo, hi - 1);
        let a = choose|k: int| lo <= k < hi - 1 && window_max(s, lo, hi - 1) == s[k];
        let b = choose|k: int| lo <= k < hi - 1 && window_min(s, lo, hi - 1) == s[k];
        if s[hi - 1] > window_max(s, lo, hi - 1) {
            assert(window_max(s, lo, hi) == s[hi - 1]);
        } else {
            assert(window_max(s, lo, hi) == s[a]);
        }
        if s[hi - 1] < window_min(s, lo, hi - 1) {
            assert(window_min(s, lo, hi) == s[hi - 1]);
        } else {
            assert(window_min(s, lo, hi) == s[b]);
        }
    } else {
        assert(window_max(s, lo, hi) == s[lo]);
        assert(window_min(s, lo, hi) == s[lo]);
    }
}

/// Dividing by a positive `d` never moves a value away from zero.
proof fn lemma_div_toward_zero_shrinks(a: int, d: int)
    requires
        d >= 1,
    ensures
        a >= 0 ==> 0 <= div_toward_zero(a, d) <= a,
        a < 0 ==> a <= div_toward_zero(a, d) <= 0,
{
    if a >= 0 {
        lemma_div_is_ordered_by_denominator(a, 1, d);
        lemma_div_pos_is_pos(a, d);
    } else {
        lemma_div_is_ordered_by_denominator(-a, 1, d);
        lemma_div_pos_is_pos(-a, d);
    }
}

/// One step of the moving average lands between the previous value and the
/// new data point.
proof fn lemma_ema_step_between(prev: int, x: int, period: int)
    requires
        period >= 1,
    ensures
        ({
            let next = prev + div_toward_zero(2 * (x - prev), period + 1);
            (prev <= x ==> prev <= next <= x) && (x < prev ==> x <= next <= prev)
        }),
{
    let d = x - prev;
    if d >= 0 {
        lemma_div_is_ordered_by_denominator(2 * d, 2, period + 1);
        lemma_div_pos_is_pos(2 * d, period + 1);
    } else {
        lemma_div_is_ordered_by_denominator(-2 * d, 2, period + 1);
        lemma_div_pos_is_pos(-2 * d, period + 1);
    }
}

/// The average of `n` values within a bound stays within it.
proof fn lemma_average_bound(s: int, n: int, lo: int, hi: int)
    requires
        n >= 1,
        lo <= 0 <= hi,
        lo * n <= s <= hi * n,
    ensures
        lo <= div_toward_zero(s, n) <= hi,
{
    if s >= 0 {
        lemma_div_is_ordered(s, hi * n, n);
        lemma_div_by_multiple(hi, n);
        lemma_div_pos_is_pos(s, n);
    } else {
        assert((-lo) * n == -(lo * n)) by (nonlinear_arith);
        lemma_div_is_ordered(-s, (-lo) * n, n);
        lemma_div_by_multiple(-lo, n);
        lemma_div_pos_is_pos(-s, n);
    }
}

fn window_max_i64(data: &[i64], lo: usize, hi: usize) -> (r: i64)
    requires
        lo < hi <= data@.len(),
    ensures
        r as int == window_max(ints_of_i64(data@), lo as int, hi as int),
{
    let mut m = data[lo];
    let mut j: usize = lo + 1;
    while j < hi
        invariant
            lo < j <= hi,
            hi <= data@.len(),
            m as int == window_max(ints_of_i64(data@), lo as int, j as int),
        decreases hi - j,
    {
        let v = data[j];
        if v > m {
            m = v;
        }
        j += 1;
    }
    m
}

fn window_min_i64(data: &[i64], lo: usize, hi: usize) -> (r: i64)
    requires
        lo < hi <= data@.len(),
    ensures
        r as int == window_min(ints_of_i64(data@), lo as int, hi as int),
{
    let mut m = data[lo];
    let mut j: usize = lo + 1;
    while j < hi
        invariant
            lo < j <= hi,
            hi <= data@.len(),
            m as int == window_min(ints_of_i64(data@), lo as int, j as int),
        decreases hi - j,
    {
        let v = data[j];
        if v < m {
            m = v;
        }
        j += 1;
    }
    m
}

/// Rolling extreme average: at each index `i >= period`, the midpoint of the
/// highest high and lowest low over `[i - period, i)`; 0 before that.
pub fn calc_ichimoku_line(highs: &[i64], lows: &[i64], period: usize) -> (r: Vec<i64>)
    requires
        highs@.len() == lows@.len(),
    ensures
        r@.len() == highs@.len(),
        forall|k: int|
            0 <= k < r@.len() ==> #[trigger] r@[k] as int == extreme_average_at(
                ints_of_i64(highs@),
                ints_of_i64(lows@),
                period as int,
                k,
            ),
{
    let len = highs.len();
    let mut result: Vec<i64> = Vec::new();
    let mut i: usize = 0;
    while i < len
        invariant
            i <= len,
            len == highs@.len(),
            len == lows@.len(),
            result@.len() == i,
            forall|k: int|
                0 <= k < i ==> #[trigger] result@[k] as int == extreme_average_at(
                    ints_of_i64(highs@),
                    ints_of_i64(lows@),
                    period as int,
                    k,
                ),
        decreases len - i,
    {
        if period == 0 || i < period {
            result.push(0);
        } else {
            let top = window_max_i64(highs, i - period, i);
            let bottom = window_min_i64(lows, i - period, i);
            let mid = ((top as i128) + (bottom as i128)) / 2;
            result.push(mid as i64);
        }
        i += 1;
    }
    result
}

/// Exponential moving average over `period` values: 0 before index
/// `period - 1`, the simple average of the first `period` values there, and
/// `prev + 2 * (x - prev) / (period + 1)` after. A period of 0 or longer than
/// the data leaves every position at 0.
pub fn calc_ema(data: &[i64], period: usize) -> (r: Vec<i64>)
    ensures
        r@.len() == data@.len(),
        forall|k: int|
            0 <= k < r@.len() ==> #[trigger] r@[k] as int == ema_at(ints_of_i64(data@), period as int, k),
{
    let len = data.len();
    let ghost s = ints_of_i64(data@);
    let mut result: Vec<i64> = Vec::new();
    if period == 0 || period > len {
        let mut i: usize = 0;
        while i < len
            invariant
                i <= len,
                len == data@.len(),
                period == 0 || period > len,
                result@.len() == i,
                forall|k: int| 0 <= k < i ==> #[trigger] result@[k] as int == ema_at(s, period as int, k),
            decreases len - i,
        {
            result.push(0);
            i += 1;
        }
        return result;
    }
    let mut sum: i128 = 0;
    let mut i: usize = 0;
    while i < period
        invariant
            i <= period <= len,
            len == data@.len(),
            s == ints_of_i64(data@),
            sum as int == prefix_sum(s, i as int),
            -0x8000_0000_0000_0000 * (i as int) <= sum <= 0x7fff_ffff_ffff_ffff * (i as int),
        decreases period - i,
    {
        assert(s[i as int] == data@[i as int] as int);
        sum = sum + data[i] as i128;
        i += 1;
    }
    i = 0;
    while i + 1 < period
        invariant
            1 <= period <= len,
            i < period,
            result@.len() == i,
            forall|k: int| 0 <= k < i ==> #[trigger] result@[k] as int == ema_at(s, period as int, k),
        decreases period - i,
    {
        result.push(0);
        i += 1;
    }
    proof {
        lemma_average_bound(sum as int, period as int, -0x8000_0000_0000_0000, 0x7fff_ffff_ffff_ffff);
    }
    let mut prev: i64 = (sum / (period as i128)) as i64;
    result.push(prev);
    i = period;
    while i < len
        invariant
            1 <= period <= i <= len,
            len == data@.len(),
            s == ints_of_i64(data@),
            result@.len() == i,
            prev == result@[i - 1],
            forall|k: int| 0 <= k < i ==> #[trigger] result@[k] as int == ema_at(s, period as int, k),
        decreases len - i,
    {
        let x = data[i];
        assert(s[i as int] == x as int);
        proof {
            lemma_ema_step_between(prev as int, x as int, period as int);
        }
        let next = (prev as i128) + ((x as i128) - (prev as i128)) * 2 / ((period as i128) + 1);
        prev = next as i64;
        result.push(prev);
        i += 1;
    }
    result
}

fn window_max_i128(data: &[i128], lo: usize, hi: usize) -> (r: i128)
    requires
        lo < hi <= data@.len(),
    ensures
        r as int == window_max(ints_of_i128(data@), lo as int, hi as int),
{
    let mut m = data[lo];
    let mut j: usize = lo + 1;
    while j < hi
        invariant
            lo < j <= hi,
            hi <= data@.len(),
            m as int == window_max(ints_of_i128(data@), lo as int, j as int),
        decreases hi - j,
    {
        let v = data[j];
        if v > m {
            m = v;
        }
        j += 1;
    }
    m
}

fn window_min_i128(data: &[i128], lo: usize, hi: usize) -> (r: i128)
    requires
        lo < hi <= data@.len(),
    ensures
        r as int == window_min(ints_of_i128(data@), lo as int, hi as int),
{
    let mut m = data[lo];
    let mut j: usize = lo + 1;
    while j < hi
        invariant
            lo < j <= hi,
            hi <= data@.len(),
            m as int == window_min(ints_of_i128(data@), lo as int, j as int),
        decreases hi - j,
    {
        let v = data[j];
        if v < m {
            m = v;
        }
        j += 1;
    }
    m
}

/// Stochastic oscillator: at each index `i >= period`, where `data[i]` lies
/// within the range of `[i - period, i)`, in basis points (`OSC_MID` for a
/// flat window); 0 before that.
pub fn calc_stochastic(data: &[i128], period: usize) -> (r: Vec<i128>)
    requires
        forall|k: int| 0 <= k < data@.len() ==> -OSC_INPUT_BOUND <= #[trigger] data@[k] <= OSC_INPUT_BOUND,
    ensures
        r@.len() == data@.len(),
        forall|k: int|
            0 <= k < r@.len() ==> #[trigger] r@[k] as int == stochastic_at(ints_of_i128(data@), period as int, k),
{
    let len = data.len();
    let ghost s = ints_of_i128(data@);
    let mut result: Vec<i128> = Vec::new();
    let mut i: usize = 0;
    while i < len
        invariant
            i <= len,
            len == data@.len(),
            s == ints_of_i128(data@),
            forall|k: int| 0 <= k < data@.len() ==> -OSC_INPUT_BOUND <= #[trigger] data@[k] <= OSC_INPUT_BOUND,
            result@.len() == i,
            forall|k: int| 0 <= k < i ==> #[trigger] result@[k] as int == stochastic_at(s, period as int, k),
        decreases len - i,
    {
        if period == 0 || i < period {
            result.push(0);
        } else {
            let hi = window_max_i128(data, i - period, i);
            let lo = window_min_i128(data, i - period, i);
            if hi == lo {
                result.push(OSC_MID);
            } else {
                let x = data[i];
                proof {
                    lemma_window_bounds(s, (i - period) as int, i as int);
                    let a = choose|k: int| (i - period) <= k < i && window_max(s, (i - period) as int, i as int) == s[k];
                    let b = choose|k: int| (i - period) <= k < i && window_min(s, (i - period) as int, i as int) == s[k];
                    assert(s[a] == data@[a] as int);
                    assert(s[b] == data@[b] as int);
                    assert(s[i as int] == x as int);
                    lemma_div_toward_zero_shrinks(OSC_FULL * (x - lo), hi - lo);
                }
                let reading = OSC_FULL * (x - lo) / (hi - lo);
                result.push(reading);
            }
        }
        i += 1;
    }
    result
}

/// A reading never exceeds the scale times twice the largest magnitude of the
/// input, plus the midpoint.
pub proof fn lemma_stochastic_magnitude(data: Seq<int>, period: int, i: int, b: int)
    requires
        0 <= i < data.len(),
        b >= 0,
        forall|k: int| 0 <= k < data.len() ==> -b <= #[trigger] data[k] <= b,
    ensures
        -2 * OSC_FULL * b <= stochastic_at(data, period, i) <= 2 * OSC_FULL * b + OSC_MID,
{
    assert(-2 * OSC_FULL * b <= 0 <= 2 * OSC_FULL * b) by (nonlinear_arith)
        requires
            b >= 0,
    ;
    if period >= 1 && i >= period {
        lemma_window_bounds(data, i - period, i);
        let hi = window_max(data, i - period, i);
        let lo = window_min(data, i - period, i);
        let a = choose|k: int| i - period <= k < i && hi == data[k];
        let c = choose|k: int| i - period <= k < i && lo == data[k];
        assert(-b <= data[a] <= b && -b <= data[c] <= b && -b <= data[i] <= b);
        if hi != lo {
            let n = OSC_FULL * (data[i] - lo);
            assert(-2 * OSC_FULL * b <= n <= 2 * OSC_FULL * b) by (nonlinear_arith)
                requires
                    -2 * b <= data[i] - lo <= 2 * b,
                    n == OSC_FULL * (data[i] - lo),
            ;
            lemma_div_toward_zero_shrinks(n, hi - lo);
            assert(stochastic_at(data, period, i) == div_toward_zero(n, hi - lo));
        } else {
            assert(stochastic_at(data, period, i) == OSC_MID);
        }
    }
}

/// Where `data[i]` lies within the range of its window, the reading lies on
/// the scale `[0, OSC_FULL]`; a flat window always reads exactly `OSC_MID`.
pub proof fn lemma_stochastic_on_scale(data: Seq<int>, period: int, i: int)
    requires
        1 <= period <= i < data.len(),
    ensures
        window_max(data, i - period, i) == window_min(data, i - period, i) ==> stochastic_at(data, period, i)
            == OSC_MID,
        window_min(data, i - period, i) <= data[i] <= window_max(data, i - period, i) ==> 0 <= stochastic_at(
            data,
            period,
            i,
        ) <= OSC_FULL,
{
    let hi = window_max(data, i - period, i);
    let lo = window_min(data, i - period, i);
    if lo <= data[i] <= hi && hi != lo {
        let d = hi - lo;
        let n = OSC_FULL * (data[i] - lo);
        assert(0 <= n <= OSC_FULL * d) by (nonlinear_arith)
            requires
                0 <= data[i] - lo <= d,
                n == OSC_FULL * (data[i] - lo),
        ;
        lemma_div_is_ordered(n, OSC_FULL * d, d);
        lemma_div_by_multiple(OSC_FULL as int, d);
        lemma_div_pos_is_pos(n, d);
    }
}

} // verus!
