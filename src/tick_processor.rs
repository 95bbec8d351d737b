//! Bounded tick history kept in a ring buffer, and the interval bars derived
//! from the ticks as they arrive.
//!
//! Bid, ask and derived prices are fixed-point integers; timestamps are in
//! microseconds. The history is a plain value: a host that shares it between
//! threads puts it behind a reader-writer lock, taking exclusive access for
//! `add_tick` and shared access for the reads.
use vstd::prelude::*;
use vstd::arithmetic::div_mod::{lemma_fundamental_div_mod, lemma_mod_bound};
use crate::series::{div_toward_zero, lemma_window_bounds, prefix_sum, window_max, window_min};

verus! {

/// Length of a short bar: one minute.
pub const SHORT_BAR_MICROS: i64 = 60_000_000;

/// Length of a long bar: five minutes, so that every long bucket starts on a
/// short one.
pub const LONG_BAR_MICROS: i64 = 300_000_000;

/// A bid/ask observation for a symbol at a point in time.
#[derive(Clone, Debug)]
pub struct Tick {
    pub symbol: String,
    pub bid: i64,
    pub ask: i64,
    pub timestamp: i64,
    pub volume: i64,
}

/// Mid-price of a tick, rounded toward zero.
pub open spec fn mid_of(t: Tick) -> int {
    div_toward_zero(t.bid + t.ask, 2)
}

impl Tick {
    pub fn new(symbol: String, bid: i64, ask: i64, timestamp: i64, volume: i64) -> (r: Tick)
        ensures
            r == (Tick { symbol, bid, ask, timestamp, volume }),
    {
        Tick { symbol, bid, ask, timestamp, volume }
    }

    pub fn mid_price(&self) -> (r: i64)
        ensures
            r as int == mid_of(*self),
    {
        (((self.bid as i128) + (self.ask as i128)) / 2) as i64
    }

    pub fn spread(&self) -> (r: i128)
        ensures
            r as int == self.ask - self.bid,
    {
        (self.ask as i128) - (self.bid as i128)
    }
}

fn copy_tick(t: &Tick) -> (r: Tick)
    ensures
        r == *t,
{
    Tick { symbol: t.symbol.clone(), bid: t.bid, ask: t.ask, timestamp: t.timestamp, volume: t.volume }
}

/// Open/high/low/close summary of the mid-prices over an interval, with the
/// summed volume; `timestamp` is that of the interval's first tick.
#[derive(Clone, Copy, Debug, PartialEq, Eq, Structural)]
pub struct OHLC {
    pub timestamp: i64,
    pub open: i64,
    pub high: i64,
    pub low: i64,
    pub close: i64,
    pub volume: i128,
}

pub open spec fn mids_of(ticks: Seq<Tick>) -> Seq<int> {
    ticks.map_values(|t: Tick| mid_of(t))
}

pub open spec fn volumes_of(ticks: Seq<Tick>) -> Seq<int> {
    ticks.map_values(|t: Tick| t.volume as int)
}

/// The bar summarising a non-empty run of ticks.
pub open spec fn bar_of(ticks: Seq<Tick>) -> OHLC {
    let n = ticks.len() as int;
    OHLC {
        timestamp: ticks[0].timestamp,
        open: mid_of(ticks[0]) as i64,
        high: window_max(mids_of(ticks), 0, n) as i64,
        low: window_min(mids_of(ticks), 0, n) as i64,
        close: mid_of(ticks[n - 1]) as i64,
        volume: prefix_sum(volumes_of(ticks), n) as i128,
    }
}

/// The interval, counted from the epoch, that a timestamp falls in.
pub open spec fn bucket_of(timestamp: int, width: int) -> int {
    timestamp / width
}

/// The last `capacity` elements of `s`, or all of it if it is shorter.
pub open spec fn retain_last<A>(s: Seq<A>, capacity: nat) -> Seq<A> {
    if s.len() > capacity {
        s.subrange(s.len() - capacity, s.len() as int)
    } else {
        s
    }
}

/// The last `min(n, len)` elements of `s`.
pub open spec fn last_n<A>(s: Seq<A>, n: int) -> Seq<A> {
    if s.len() > n {
        s.subrange(s.len() - n, s.len() as int)
    } else {
        s
    }
}

/// What a history of the given capacity holds after the insertions, one at
/// a time from empty, each keeping the last `capacity` elements.
pub open spec fn history_after<A>(inserted: Seq<A>, capacity: nat) -> Seq<A>
    decreases inserted.len(),
{
    if inserted.len() == 0 {
        Seq::empty()
    } else {
        retain_last(history_after(inserted.drop_last(), capacity).push(inserted.last()), capacity)
    }
}

proof fn lemma_retain_push<A>(s: Seq<A>, x: A, capacity: nat)
    ensures
        retain_last(retain_last(s, capacity).push(x), capacity) == retain_last(s.push(x), capacity),
{
    let r = retain_last(s, capacity);
    assert(retain_last(r.push(x), capacity) =~= retain_last(s.push(x), capacity));
}

/// A bounded history never holds more than its capacity, and after any run
/// of insertions holds exactly the last `capacity` inserted (all of them, if
/// fewer), in insertion order.
pub proof fn lemma_history_keeps_last<A>(inserted: Seq<A>, capacity: nat)
    ensures
        history_after(inserted, capacity) == retain_last(inserted, capacity),
        history_after(inserted, capacity).len() <= capacity,
        inserted.len() >= capacity ==> history_after(inserted, capacity) == inserted.subrange(
            inserted.len() - capacity,
            inserted.len() as int,
        ),
    decreases inserted.len(),
{
    if inserted.len() > 0 {
        let init = inserted.drop_last();
        lemma_history_keeps_last(init, capacity);
        lemma_retain_push(init, inserted.last(), capacity);
        assert(init.push(inserted.last()) =~= inserted);
    } else {
        assert(retain_last(inserted, capacity) =~= Seq::<A>::empty());
    }
}

proof fn lemma_floor_div_in_range(x: int, d: int)
    requires
        d >= 1,
    ensures
        x >= 0 ==> 0 <= x / d <= x,
        x < 0 ==> x <= x / d < 0,
{
    lemma_fundamental_div_mod(x, d);
    lemma_mod_bound(x, d);
    let q = x / d;
    let r = x % d;
    if x >= 0 {
        assert(0 <= q <= x) by (nonlinear_arith)
            requires
                x == d * q + r,
                0 <= r < d,
                d >= 1,
                x >= 0,
        ;
    } else {
        assert(x <= q < 0) by (nonlinear_arith)
            requires
                x == d * q + r,
                0 <= r < d,
                d >= 1,
                x < 0,
        ;
    }
}

fn bucket_index(timestamp: i64, width: i64) -> (r: i64)
    requires
        width >= 1,
    ensures
        r as int == bucket_of(timestamp as int, width as int),
{
    proof {
        lemma_floor_div_in_range(timestamp as int, width as int);
    }
    match timestamp.checked_div_euclid(width) {
        Some(q) => q,
        None => 0,
    }
}

fn build_bar(ticks: &[Tick]) -> (r: OHLC)
    requires
        ticks@.len() > 0,
    ensures
        r == bar_of(ticks@),
{
    let n = ticks.len();
    let ghost mids = mids_of(ticks@);
    let ghost vols = volumes_of(ticks@);
    let open = ticks[0].mid_price();
    let mut high = open;
    let mut low = open;
    let mut volume: i128 = ticks[0].volume as i128;
    assert(mids[0] == mid_of(ticks@[0]));
    assert(vols[0] == ticks@[0].volume as int);
    assert(prefix_sum(vols, 1) == vols[0]) by {
        assert(prefix_sum(vols, 0) == 0);
    }
    let mut j: usize = 1;
    while j < n
        invariant
            1 <= j <= n,
            n == ticks@.len(),
            mids == mids_of(ticks@),
            vols == volumes_of(ticks@),
            high as int == window_max(mids, 0, j as int),
            low as int == window_min(mids, 0, j as int),
            volume as int == prefix_sum(vols, j as int),
            -0x8000_0000_0000_0000 * (j as int) <= volume <= 0x7fff_ffff_ffff_ffff * (j as int),
        decreases n - j,
    {
        let mid = ticks[j].mid_price();
        assert(mids[j as int] == mid as int);
        assert(vols[j as int] == ticks@[j as int].volume as int);
        if mid > high {
            high = mid;
        }
        if mid < low {
            low = mid;
        }
        volume = volume + ticks[j].volume as i128;
        j += 1;
    }
    let close = ticks[n - 1].mid_price();
    OHLC { timestamp: ticks[0].timestamp, open, high, low, close, volume }
}

/// The bar of two consecutive runs, from the bars of each run.
pub open spec fn merge_bars(first: OHLC, second: OHLC) -> OHLC {
    OHLC {
        timestamp: first.timestamp,
        open: first.open,
        high: if first.high >= second.high {
            first.high
        } else {
            second.high
        },
        low: if first.low <= second.low {
            first.low
        } else {
            second.low
        },
        close: second.close,
        volume: (first.volume + second.volume) as i128,
    }
}

proof fn lemma_prefix_sum_agree(s: Seq<int>, t: Seq<int>, n: int)
    requires
        0 <= n <= s.len(),
        n <= t.len(),
        forall|k: int| 0 <= k < n ==> s[k] == t[k],
    ensures
        prefix_sum(s, n) == prefix_sum(t, n),
    decreases n,
{
    if n > 0 {
        lemma_prefix_sum_agree(s, t, n - 1);
    }
}

proof fn lemma_prefix_sum_split(s: Seq<int>, t: Seq<int>, offset: int, k: int)
    requires
        0 <= offset,
        0 <= k,
        offset + k <= s.len(),
        k <= t.len(),
        forall|j: int| 0 <= j < k ==> s[offset + j] == t[j],
    ensures
        prefix_sum(s, offset + k) == prefix_sum(s, offset) + prefix_sum(t, k),
    decreases k,
{
    if k > 0 {
        lemma_prefix_sum_split(s, t, offset, k - 1);
    }
}

proof fn lemma_volume_bound(ticks: Seq<Tick>, n: int)
    requires
        0 <= n <= ticks.len(),
    ensures
        -0x8000_0000_0000_0000 * n <= prefix_sum(volumes_of(ticks), n) <= 0x7fff_ffff_ffff_ffff * n,
    decreases n,
{
    if n > 0 {
        lemma_volume_bound(ticks, n - 1);
        assert(volumes_of(ticks)[n - 1] == ticks[n - 1].volume as int);
    }
}

proof fn lemma_mids_fit(ticks: Seq<Tick>)
    ensures
        forall|k: int|
            0 <= k < ticks.len() ==> i64::MIN <= #[trigger] mids_of(ticks)[k] <= i64::MAX,
{
    assert forall|k: int| 0 <= k < ticks.len() implies i64::MIN <= #[trigger] mids_of(ticks)[k] <= i64::MAX by {
        assert(mids_of(ticks)[k] == mid_of(ticks[k]));
    }
}

/// Summarising two consecutive runs of ticks gives the same bar as merging
/// the bars of the two runs: a long bar rebuilt from its ticks equals the
/// long bar aggregated from the shorter bars that compose it.
pub proof fn lemma_bar_of_concat(first: Seq<Tick>, second: Seq<Tick>)
    requires
        first.len() > 0,
        second.len() > 0,
        first.len() + second.len() <= usize::MAX,
    ensures
        bar_of(first + second) == merge_bars(bar_of(first), bar_of(second)),
{
    let all = first + second;
    let na = first.len() as int;
    let nb = second.len() as int;
    let m = mids_of(all);
    let ma = mids_of(first);
    let mb = mids_of(second);
    assert forall|k: int| 0 <= k < na implies #[trigger] m[k] == ma[k] by {
        assert(all[k] == first[k]);
    }
    assert forall|k: int| 0 <= k < nb implies #[trigger] m[na + k] == mb[k] by {
        assert(all[na + k] == second[k]);
    }
    lemma_mids_fit(all);
    lemma_mids_fit(first);
    lemma_mids_fit(second);
    lemma_window_bounds(m, 0, na + nb);
    lemma_window_bounds(ma, 0, na);
    lemma_window_bounds(mb, 0, nb);
    let hi = window_max(m, 0, na + nb);
    let hia = window_max(ma, 0, na);
    let hib = window_max(mb, 0, nb);
    let ka = choose|k: int| 0 <= k < na && hia == ma[k];
    let kb = choose|k: int| 0 <= k < nb && hib == mb[k];
    let kh = choose|k: int| 0 <= k < na + nb && hi == m[k];
    assert(m[ka] == ma[ka]);
    assert(m[na + kb] == mb[kb]);
    if kh < na {
        assert(m[kh] == ma[kh]);
    } else {
        assert(m[na + (kh - na)] == mb[kh - na]);
    }
    let lo = window_min(m, 0, na + nb);
    let loa = window_min(ma, 0, na);
    let lob = window_min(mb, 0, nb);
    let la = choose|k: int| 0 <= k < na && loa == ma[k];
    let lb = choose|k: int| 0 <= k < nb && lob == mb[k];
    let kl = choose|k: int| 0 <= k < na + nb && lo == m[k];
    assert(m[la] == ma[la]);
    assert(m[na + lb] == mb[lb]);
    if kl < na {
        assert(m[kl] == ma[kl]);
    } else {
        assert(m[na + (kl - na)] == mb[kl - na]);
    }

    let v = volumes_of(all);
    let va = volumes_of(first);
    let vb = volumes_of(second);
    assert forall|k: int| 0 <= k < na implies #[trigger] v[k] == va[k] by {
        assert(all[k] == first[k]);
    }
    assert forall|j: int| 0 <= j < nb implies v[na + j] == #[trigger] vb[j] by {
        assert(all[na + j] == second[j]);
    }
    lemma_prefix_sum_agree(v, va, na);
    lemma_prefix_sum_split(v, vb, na, nb);
    lemma_volume_bound(first, na);
    lemma_volume_bound(second, nb);
    lemma_volume_bound(all, na + nb);
    assert(all[0] == first[0]);
    assert(all[na + nb - 1] == second[nb - 1]);
    assert(m[0] == mid_of(all[0]));
    assert(ma[0] == mid_of(first[0]));
    assert(m[na + nb - 1] == mid_of(all[na + nb - 1]));
    assert(mb[nb - 1] == mid_of(second[nb - 1]));
}

/// Bars of one interval length, with the ticks of the interval still open.
struct BarSeries {
    bars: Vec<OHLC>,
    open_ticks: Vec<Tick>,
    open_bucket: i64,
    width: i64,
}

impl BarSeries {
    fn new(width: i64) -> (r: BarSeries)
        requires
            width >= 1,
        ensures
            r.width == width,
            r.bars@ == Seq::<OHLC>::empty(),
            r.open_ticks@ == Seq::<Tick>::empty(),
    {
        BarSeries { bars: Vec::new(), open_ticks: Vec::new(), open_bucket: 0, width }
    }

    /// Closes the open interval into a bar when the tick falls in another
    /// one, then adds the tick to its own interval.
    fn accept(&mut self, tick: &Tick)
        requires
            old(self).width >= 1,
        ensures
            final(self).width == old(self).width,
            final(self).open_bucket as int == bucket_of(tick.timestamp as int, old(self).width as int),
            closes_bucket(old(self).open_ticks@, old(self).open_bucket as int, old(self).width as int, *tick) ==> {
                &&& final(self).bars@ == old(self).bars@.push(bar_of(old(self).open_ticks@))
                &&& final(self).open_ticks@ == seq![*tick]
            },
            !closes_bucket(old(self).open_ticks@, old(self).open_bucket as int, old(self).width as int, *tick) ==> {
                &&& final(self).bars@ == old(self).bars@
                &&& final(self).open_ticks@ == old(self).open_ticks@.push(*tick)
            },
    {
        let b = bucket_index(tick.timestamp, self.width);
        if self.open_ticks.len() > 0 && b != self.open_bucket {
            let bar = build_bar(self.open_ticks.as_slice());
            self.bars.push(bar);
            self.open_ticks = Vec::new();
        }
        self.open_bucket = b;
        self.open_ticks.push(copy_tick(tick));
    }

    fn recent(&self, n: usize) -> (r: Vec<OHLC>)
        ensures
            r@ == last_n(self.bars@, n as int),
    {
        let len = self.bars.len();
        let start = if len > n {
            len - n
        } else {
            0
        };
        let mut out: Vec<OHLC> = Vec::new();
        let mut j: usize = start;
        while j < len
            invariant
                start <= j <= len,
                len == self.bars@.len(),
                out@ == self.bars@.subrange(start as int, j as int),
            decreases len - j,
        {
            out.push(self.bars[j]);
            j += 1;
            assert(out@ =~= self.bars@.subrange(start as int, j as int));
        }
        assert(last_n(self.bars@, n as int) =~= self.bars@.subrange(start as int, len as int));
        out
    }
}

/// Whether a tick closes the open interval: some ticks are pending and the
/// tick falls in another interval.
pub open spec fn closes_bucket(pending: Seq<Tick>, bucket: int, width: int, tick: Tick) -> bool {
    pending.len() > 0 && bucket_of(tick.timestamp as int, width) != bucket
}

/// Bounded tick history for one symbol: the last `capacity` ticks in a ring
/// buffer, with short and long bars rolled over as ticks arrive.
pub struct TickBuffer {
    slots: Vec<Tick>,
    head: usize,
    capacity: usize,
    symbol: String,
    m1: BarSeries,
    m5: BarSeries,
}

impl TickBuffer {
    /// Physical slot of the `i`-th oldest tick.
    closed spec fn slot_of(&self, i: int) -> int {
        if self.head + i < self.slots@.len() {
            self.head + i
        } else {
            self.head + i - self.slots@.len()
        }
    }

    /// The stored ticks, oldest first.
    pub closed spec fn ticks(&self) -> Seq<Tick> {
        Seq::new(self.slots@.len(), |i: int| self.slots@[self.slot_of(i)])
    }

    pub closed spec fn capacity_spec(&self) -> nat {
        self.capacity as nat
    }

    pub closed spec fn symbol_spec(&self) -> Seq<char> {
        self.symbol@
    }

    /// Closed short bars, oldest first.
    pub closed spec fn short_bars(&self) -> Seq<OHLC> {
        self.m1.bars@
    }

    /// Closed long bars, oldest first.
    pub closed spec fn long_bars(&self) -> Seq<OHLC> {
        self.m5.bars@
    }

    /// Ticks of the short interval still open.
    pub closed spec fn short_pending(&self) -> Seq<Tick> {
        self.m1.open_ticks@
    }

    /// Ticks of the long interval still open.
    pub closed spec fn long_pending(&self) -> Seq<Tick> {
        self.m5.open_ticks@
    }

    /// The short interval open now (meaningful once a tick has arrived).
    pub closed spec fn short_bucket(&self) -> int {
        self.m1.open_bucket as int
    }

    /// The long interval open now (meaningful once a tick has arrived).
    pub closed spec fn long_bucket(&self) -> int {
        self.m5.open_bucket as int
    }

    pub closed spec fn wf(&self) -> bool {
        &&& self.slots@.len() <= self.capacity
        &&& self.slots@.len() < self.capacity ==> self.head == 0
        &&& self.slots@.len() > 0 ==> self.head < self.slots@.len()
        &&& self.slots@.len() == 0 ==> self.head == 0
        &&& self.m1.width == SHORT_BAR_MICROS
        &&& self.m5.width == LONG_BAR_MICROS
    }

    pub fn new(capacity: usize, symbol: String) -> (r: TickBuffer)
        ensures
            r.wf(),
            r.capacity_spec() == capacity,
            r.symbol_spec() == symbol@,
            r.ticks() == Seq::<Tick>::empty(),
            r.short_bars() == Seq::<OHLC>::empty(),
            r.long_bars() == Seq::<OHLC>::empty(),
            r.short_pending() == Seq::<Tick>::empty(),
            r.long_pending() == Seq::<Tick>::empty(),
    {
        let r = TickBuffer {
            slots: Vec::new(),
            head: 0,
            capacity,
            symbol,
            m1: BarSeries::new(SHORT_BAR_MICROS),
            m5: BarSeries::new(LONG_BAR_MICROS),
        };
        assert(r.ticks() =~= Seq::<Tick>::empty());
        r
    }

    /// Appends a tick, evicting the oldest when the history is full, and
    /// rolls the short and long bars over when the tick opens a new interval.
    pub fn add_tick(&mut self, tick: Tick)
        requires
            old(self).wf(),
        ensures
            final(self).wf(),
            final(self).capacity_spec() == old(self).capacity_spec(),
            final(self).symbol_spec() == old(self).symbol_spec(),
            final(self).ticks() == retain_last(old(self).ticks().push(tick), old(self).capacity_spec()),
            final(self).short_bucket() == bucket_of(tick.timestamp as int, SHORT_BAR_MICROS as int),
            final(self).long_bucket() == bucket_of(tick.timestamp as int, LONG_BAR_MICROS as int),
            closes_bucket(old(self).short_pending(), old(self).short_bucket(), SHORT_BAR_MICROS as int, tick) ==> {
                &&& final(self).short_bars() == old(self).short_bars().push(bar_of(old(self).short_pending()))
                &&& final(self).short_pending() == seq![tick]
            },
            !closes_bucket(old(self).short_pending(), old(self).short_bucket(), SHORT_BAR_MICROS as int, tick) ==> {
                &&& final(self).short_bars() == old(self).short_bars()
                &&& final(self).short_pending() == old(self).short_pending().push(tick)
            },
            closes_bucket(old(self).long_pending(), old(self).long_bucket(), LONG_BAR_MICROS as int, tick) ==> {
                &&& final(self).long_bars() == old(self).long_bars().push(bar_of(old(self).long_pending()))
                &&& final(self).long_pending() == seq![tick]
            },
            !closes_bucket(old(self).long_pending(), old(self).long_bucket(), LONG_BAR_MICROS as int, tick) ==> {
                &&& final(self).long_bars() == old(self).long_bars()
                &&& final(self).long_pending() == old(self).long_pending().push(tick)
            },
    {
        self.m1.accept(&tick);
        self.m5.accept(&tick);
        let ghost before = old(self).ticks();
        let ghost cap = self.capacity as nat;
        if self.capacity == 0 {
            assert(self.ticks() =~= retain_last(before.push(tick), cap));
            return;
        }
        let n = self.slots.len();
        if n < self.capacity {
            self.slots.push(tick);
            assert(self.ticks() =~= retain_last(before.push(tick), cap));
        } else {
            let h = self.head;
            self.slots.set(h, tick);
            self.head = if h + 1 < n {
                h + 1
            } else {
                0
            };
            assert(self.ticks() =~= retain_last(before.push(tick), cap));
        }
    }

    /// The last `min(n, tick_count)` ticks, oldest first.
    pub fn get_recent_ticks(&self, n: usize) -> (r: Vec<Tick>)
        requires
            self.wf(),
        ensures
            r@ == last_n(self.ticks(), n as int),
    {
        let len = self.slots.len();
        let start = if len > n {
            len - n
        } else {
            0
        };
        let mut out: Vec<Tick> = Vec::new();
        let mut j: usize = start;
        while j < len
            invariant
                self.wf(),
                start <= j <= len,
                len == self.slots@.len(),
                out@ == self.ticks().subrange(start as int, j as int),
            decreases len - j,
        {
            let slot = if j < len - self.head {
                self.head + j
            } else {
                j - (len - self.head)
            };
            out.push(copy_tick(&self.slots[slot]));
            j += 1;
            assert(out@ =~= self.ticks().subrange(start as int, j as int));
        }
        assert(last_n(self.ticks(), n as int) =~= self.ticks().subrange(start as int, len as int));
        out
    }

    /// The bar of a run of ticks; `None` for an empty run.
    pub fn build_ohlc_from_ticks(&self, ticks: Vec<Tick>) -> (r: Option<OHLC>)
        ensures
            ticks@.len() == 0 ==> r is None,
            ticks@.len() > 0 ==> r == Some(bar_of(ticks@)),
    {
        if ticks.len() == 0 {
            return None;
        }
        Some(build_bar(ticks.as_slice()))
    }

    /// The last `min(n, count)` closed short bars, oldest first.
    pub fn get_m1_candles(&self, n: usize) -> (r: Vec<OHLC>)
        ensures
            r@ == last_n(self.short_bars(), n as int),
    {
        self.m1.recent(n)
    }

    /// The last `min(n, count)` closed long bars, oldest first.
    pub fn get_m5_candles(&self, n: usize) -> (r: Vec<OHLC>)
        ensures
            r@ == last_n(self.long_bars(), n as int),
    {
        self.m5.recent(n)
    }

    pub fn tick_count(&self) -> (r: usize)
        requires
            self.wf(),
        ensures
            r == self.ticks().len(),
            r <= self.capacity_spec(),
    {
        self.slots.len()
    }
}

} // verus!
