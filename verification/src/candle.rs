//! OHLC aggregation: one cell per index and interval, and the candle events
//! that a price observation gives rise to.

use crate::calculator::{evaluate, CalculatorManager, CalculatorView, IndexConfig};
use crate::clock::now_millis;
use crate::decimal::{
    dec_le, dec_max, dec_min, lemma_dec_le_total, lemma_dec_le_transitive, Decimal, DecimalView,
};
use crate::interval::{bucket_start, floor_div, interval_seconds, lemma_bucket_start, KlineInterval};
use crate::text::concat2;
use crate::text_map::{
    distinct_keys, keyed_map, lemma_keyed_push, lemma_keyed_update, lemma_position_at,
    lemma_position_of, position_of, TextMap,
};
use vstd::prelude::*;

verus! {

/// A candle as it is handed on for storage.
#[derive(Debug)]
pub struct IndexKlineData {
    pub id: Option<i64>,
    pub symbol: String,
    pub interval: KlineInterval,
    pub open: Decimal,
    pub high: Decimal,
    pub low: Decimal,
    pub close: Decimal,
    /// The start of the bucket, in seconds.
    pub ts: i64,
    /// When the record was made, in milliseconds.
    pub created_at: i64,
    pub updated_at: i64,
}

/// What a candle record holds.
pub struct KlineView {
    pub id: Option<int>,
    pub symbol: Seq<char>,
    pub interval: KlineInterval,
    pub open: DecimalView,
    pub high: DecimalView,
    pub low: DecimalView,
    pub close: DecimalView,
    pub ts: int,
    pub created_at: int,
    pub updated_at: int,
}

impl View for IndexKlineData {
    type V = KlineView;

    open spec fn view(&self) -> KlineView {
        KlineView {
            id: match self.id {
                Some(i) => Some(i as int),
                None => None,
            },
            symbol: self.symbol@,
            interval: self.interval,
            open: self.open@,
            high: self.high@,
            low: self.low@,
            close: self.close@,
            ts: self.ts as int,
            created_at: self.created_at as int,
            updated_at: self.updated_at as int,
        }
    }
}

impl IndexKlineData {
    /// A candle record made at `now_ms`.
    pub fn at(
        id: Option<i64>,
        symbol: String,
        interval: KlineInterval,
        open: Decimal,
        high: Decimal,
        low: Decimal,
        close: Decimal,
        ts: i64,
        now_ms: i64,
    ) -> (r: IndexKlineData)
        ensures
            r@ == (KlineView {
                id: match id {
                    Some(i) => Some(i as int),
                    None => None,
                },
                symbol: symbol@,
                interval,
                open: open@,
                high: high@,
                low: low@,
                close: close@,
                ts: ts as int,
                created_at: now_ms as int,
                updated_at: now_ms as int,
            }),
    {
        IndexKlineData {
            id,
            symbol,
            interval,
            open,
            high,
            low,
            close,
            ts,
            created_at: now_ms,
            updated_at: now_ms,
        }
    }

    /// A candle record made now on the wall clock.
    pub fn new(
        id: Option<i64>,
        symbol: String,
        interval: KlineInterval,
        open: Decimal,
        high: Decimal,
        low: Decimal,
        close: Decimal,
        ts: i64,
    ) -> (r: IndexKlineData)
        ensures
            r@ == (KlineView {
                id: match id {
                    Some(i) => Some(i as int),
                    None => None,
                },
                symbol: symbol@,
                interval,
                open: open@,
                high: high@,
                low: low@,
                close: close@,
                ts: ts as int,
                created_at: r@.created_at,
                updated_at: r@.created_at,
            }),
    {
        let now = now_millis();
        IndexKlineData::at(id, symbol, interval, open, high, low, close, ts, now)
    }
}

/// The records of a list of candles.
pub open spec fn kline_views(list: Seq<IndexKlineData>) -> Seq<KlineView> {
    list.map_values(|k: IndexKlineData| k@)
}

/// The aggregation state of one index and interval within one bucket.
pub struct CellView {
    pub bucket_start: int,
    pub open: DecimalView,
    pub high: DecimalView,
    pub low: DecimalView,
    pub close: DecimalView,
}

/// Whether the low of a cell is at most its open and close, and these are
/// at most its high.
pub open spec fn cell_ordered(c: CellView) -> bool {
    &&& dec_le(c.low, c.open)
    &&& dec_le(c.low, c.close)
    &&& dec_le(c.open, c.high)
    &&& dec_le(c.close, c.high)
}

/// The cell of a bucket of which one price is known.
pub open spec fn fresh_cell(start: int, price: DecimalView) -> CellView {
    CellView { bucket_start: start, open: price, high: price, low: price, close: price }
}

/// The cell after a price was observed in the bucket that starts at
/// `aligned`. A first observation opens a cell at the price. One in the
/// bucket of the cell moves high, low and close. One in another bucket opens
/// a cell at the close of the cell before.
pub open spec fn next_cell(cell: Option<CellView>, price: DecimalView, aligned: int) -> CellView {
    match cell {
        None => fresh_cell(aligned, price),
        Some(c) => if c.bucket_start == aligned {
            CellView {
                bucket_start: aligned,
                open: c.open,
                high: dec_max(c.high, price),
                low: dec_min(c.low, price),
                close: price,
            }
        } else {
            fresh_cell(aligned, c.close)
        },
    }
}

/// The cell states that an observation sends out as candle events, in
/// order. A first observation: the opening state and the live state. One in
/// the bucket of the cell: the live state. One in another bucket: the final
/// state of the cell before, then the opening state and the live state of
/// the new one.
pub open spec fn cell_events(cell: Option<CellView>, price: DecimalView, aligned: int) -> Seq<
    CellView,
> {
    match cell {
        None => seq![fresh_cell(aligned, price), fresh_cell(aligned, price)],
        Some(c) => if c.bucket_start == aligned {
            seq![next_cell(cell, price, aligned)]
        } else {
            seq![c, fresh_cell(aligned, c.close), fresh_cell(aligned, c.close)]
        },
    }
}

/// The candle record of a cell state.
pub open spec fn kline_of(
    symbol: Seq<char>,
    interval: KlineInterval,
    c: CellView,
    now_ms: int,
) -> KlineView {
    KlineView {
        id: Some(c.bucket_start),
        symbol,
        interval,
        open: c.open,
        high: c.high,
        low: c.low,
        close: c.close,
        ts: c.bucket_start,
        created_at: now_ms,
        updated_at: now_ms,
    }
}

/// The candle records of a list of cell states.
pub open spec fn klines_of(
    symbol: Seq<char>,
    interval: KlineInterval,
    cells: Seq<CellView>,
    now_ms: int,
) -> Seq<KlineView> {
    cells.map_values(|c: CellView| kline_of(symbol, interval, c, now_ms))
}

/// An observation keeps a cell ordered: the low stays at most the open and
/// the close, and these at most the high.
pub proof fn lemma_next_cell_ordered(cell: Option<CellView>, price: DecimalView, aligned: int)
    requires
        cell matches Some(c) ==> cell_ordered(c),
    ensures
        cell_ordered(next_cell(cell, price, aligned)),
{
    match cell {
        None => {},
        Some(c) => {
            if c.bucket_start == aligned {
                lemma_dec_le_total(c.high, price);
                lemma_dec_le_total(price, c.low);
                lemma_dec_le_total(c.low, price);
                lemma_dec_le_transitive(dec_min(c.low, price), c.low, c.open);
                lemma_dec_le_transitive(c.open, c.high, dec_max(c.high, price));
            }
        },
    }
}

/// Every cell state that an observation sends out is ordered.
pub proof fn lemma_cell_events_ordered(cell: Option<CellView>, price: DecimalView, aligned: int)
    requires
        cell matches Some(c) ==> cell_ordered(c),
    ensures
        forall|i: int|
            0 <= i < cell_events(cell, price, aligned).len() ==> cell_ordered(
                #[trigger] cell_events(cell, price, aligned)[i],
            ),
{
    lemma_next_cell_ordered(cell, price, aligned);
}

/// Every cell state that an observation sends out starts at a multiple of
/// the width of the interval, given that the cell before did and that the
/// observation is aligned.
pub proof fn lemma_cell_events_aligned(
    cell: Option<CellView>,
    price: DecimalView,
    aligned: int,
    width: int,
)
    requires
        width > 0,
        aligned % width == 0,
        cell matches Some(c) ==> c.bucket_start % width == 0,
    ensures
        next_cell(cell, price, aligned).bucket_start % width == 0,
        forall|i: int|
            0 <= i < cell_events(cell, price, aligned).len() ==> (#[trigger] cell_events(
                cell,
                price,
                aligned,
            )[i]).bucket_start % width == 0,
{
}

/// On a change of bucket the final state of the cell before goes out first:
/// it stands at the head of the events, and every event behind it belongs to
/// the new bucket.
pub proof fn lemma_finalize_comes_first(cell: CellView, price: DecimalView, aligned: int)
    requires
        cell.bucket_start != aligned,
    ensures
        cell_events(Some(cell), price, aligned).len() == 3,
        cell_events(Some(cell), price, aligned)[0] == cell,
        forall|i: int|
            1 <= i < 3 ==> (#[trigger] cell_events(Some(cell), price, aligned)[i]).bucket_start
                == aligned,
        forall|i: int|
            0 <= i < 3 && (#[trigger] cell_events(Some(cell), price, aligned)[i]).bucket_start
                == cell.bucket_start ==> i == 0,
{
}

/// The cell and the events after a list of observations, each a price and
/// the start of the bucket it falls in, taken in order.
pub open spec fn observed(cell: Option<CellView>, observations: Seq<(DecimalView, int)>) -> (
    Option<CellView>,
    Seq<CellView>,
)
    decreases observations.len(),
{
    if observations.len() == 0 {
        (cell, Seq::empty())
    } else {
        let front = observed(cell, observations.drop_last());
        let last = observations.last();
        (
            Some(next_cell(front.0, last.0, last.1)),
            front.1 + cell_events(front.0, last.0, last.1),
        )
    }
}

/// Whether the observations come in the order of time, none before the
/// bucket of the cell.
pub open spec fn time_goes_on(cell: Option<CellView>, observations: Seq<(DecimalView, int)>)
    -> bool {
    &&& forall|i: int, j: int|
        0 <= i < j < observations.len() ==> (#[trigger] observations[i]).1 <= (
        #[trigger] observations[j]).1
    &&& cell matches Some(c) ==> forall|i: int|
        0 <= i < observations.len() ==> c.bucket_start <= (#[trigger] observations[i]).1
}

/// Whether no event of a bucket stands behind an event of a later bucket.
pub open spec fn buckets_in_order(events: Seq<CellView>) -> bool {
    forall|i: int, j: int|
        0 <= i < j < events.len() ==> (#[trigger] events[i]).bucket_start <= (
        #[trigger] events[j]).bucket_start
}

/// While time goes on, the events of a cell come out bucket by bucket: no
/// event of a bucket stands behind an event of a later one. The final state
/// of a bucket, which heads the events of the observation that leaves the
/// bucket, therefore goes out before every event of the bucket that follows.
pub proof fn lemma_events_follow_time(
    cell: Option<CellView>,
    observations: Seq<(DecimalView, int)>,
)
    requires
        time_goes_on(cell, observations),
    ensures
        buckets_in_order(observed(cell, observations).1),
        observations.len() > 0 ==> observed(cell, observations).0 is Some && observed(
            cell,
            observations,
        ).0->0.bucket_start == observations.last().1,
        forall|i: int|
            0 <= i < observed(cell, observations).1.len() ==> observed(cell, observations).0
                is Some && (#[trigger] observed(cell, observations).1[i]).bucket_start
                <= observed(cell, observations).0->0.bucket_start,
    decreases observations.len(),
{
    if observations.len() > 0 {
        let before = observations.drop_last();
        let last = observations.last();
        assert(time_goes_on(cell, before)) by {
            assert forall|i: int, j: int| 0 <= i < j < before.len() implies (
            #[trigger] before[i]).1 <= (#[trigger] before[j]).1 by {
                assert(before[i] == observations[i]);
                assert(before[j] == observations[j]);
            }
            if cell is Some {
                assert forall|i: int| 0 <= i < before.len() implies cell->0.bucket_start <= (
                #[trigger] before[i]).1 by {
                    assert(before[i] == observations[i]);
                }
            }
        }
        lemma_events_follow_time(cell, before);
        let front = observed(cell, before);
        let fresh = cell_events(front.0, last.0, last.1);
        let all = front.1 + fresh;
        assert(front.0 matches Some(c) ==> c.bucket_start <= last.1) by {
            if before.len() > 0 {
                assert(before.last() == observations[before.len() - 1]);
                assert(last == observations[observations.len() - 1]);
            } else if cell is Some {
                assert(last == observations[0]);
            }
        }
        assert forall|i: int| 0 <= i < fresh.len() implies (#[trigger] fresh[i]).bucket_start
            <= last.1 && (front.0 matches Some(c) ==> c.bucket_start <= fresh[i].bucket_start) by {}
        assert forall|i: int, j: int| 0 <= i < j < all.len() implies (
        #[trigger] all[i]).bucket_start <= (#[trigger] all[j]).bucket_start by {
            if j < front.1.len() {
                assert(all[i] == front.1[i]);
                assert(all[j] == front.1[j]);
            } else if i < front.1.len() {
                assert(all[i] == front.1[i]);
                assert(all[j] == fresh[j - front.1.len()]);
            } else {
                assert(all[i] == fresh[i - front.1.len()]);
                assert(all[j] == fresh[j - front.1.len()]);
            }
        }
        assert forall|i: int| 0 <= i < all.len() implies (#[trigger] all[i]).bucket_start
            <= last.1 by {
            if i < front.1.len() {
                assert(all[i] == front.1[i]);
            } else {
                assert(all[i] == fresh[i - front.1.len()]);
            }
        }
    }
}

/// The aggregation state of one index and interval.
pub struct OhlcCell {
    symbol: String,
    interval: KlineInterval,
    bucket_start: i64,
    open: Decimal,
    high: Decimal,
    low: Decimal,
    close: Decimal,
}

impl View for OhlcCell {
    type V = CellView;

    closed spec fn view(&self) -> CellView {
        CellView {
            bucket_start: self.bucket_start as int,
            open: self.open@,
            high: self.high@,
            low: self.low@,
            close: self.close@,
        }
    }
}

impl OhlcCell {
    /// The index and interval that the cell belongs to.
    pub closed spec fn key(&self) -> (Seq<char>, KlineInterval) {
        (self.symbol@, self.interval)
    }

    /// The candle record of the cell as it stands.
    fn kline(&self, now_ms: i64) -> (r: IndexKlineData)
        ensures
            r@ == kline_of(self.key().0, self.key().1, self@, now_ms as int),
    {
        IndexKlineData::at(
            Some(self.bucket_start),
            self.symbol.clone(),
            self.interval,
            self.open,
            self.high,
            self.low,
            self.close,
            self.bucket_start,
            now_ms,
        )
    }

    /// Takes a price into the cell and sends out the candle events.
    fn advance(&mut self, price: Decimal, aligned: i64, now_ms: i64, out: &mut Vec<IndexKlineData>)
        ensures
            final(self).key() == old(self).key(),
            final(self)@ == next_cell(Some(old(self)@), price@, aligned as int),
            kline_views(final(out)@) == kline_views(old(out)@) + klines_of(
                old(self).key().0,
                old(self).key().1,
                cell_events(Some(old(self)@), price@, aligned as int),
                now_ms as int,
            ),
    {
        let ghost before = kline_views(out@);
        let ghost events = cell_events(Some(self@), price@, aligned as int);
        let ghost sym = self.key().0;
        let ghost itv = self.key().1;
        if self.bucket_start == aligned {
            self.high = self.high.max(price);
            self.low = self.low.min(price);
            self.close = price;
            let live = self.kline(now_ms);
            out.push(live);
            proof {
                assert(kline_views(out@) =~= before + klines_of(sym, itv, events, now_ms as int));
            }
        } else {
            let last = self.kline(now_ms);
            out.push(last);
            let close = self.close;
            self.bucket_start = aligned;
            self.open = close;
            self.high = close;
            self.low = close;
            self.close = close;
            let opening = self.kline(now_ms);
            out.push(opening);
            let live = self.kline(now_ms);
            out.push(live);
            proof {
                assert(kline_views(out@) =~= before + klines_of(sym, itv, events, now_ms as int));
            }
        }
    }
}

/// A snapshot of an index value as it is handed on for storage.
#[derive(Debug)]
pub struct IndexData {
    pub id: Option<i64>,
    pub symbol: String,
    pub last: Decimal,
    pub formula: String,
    /// When the record was made, in milliseconds.
    pub created_at: i64,
    pub updated_at: i64,
}

/// What a snapshot record holds.
pub struct IndexDataView {
    pub id: Option<int>,
    pub symbol: Seq<char>,
    pub last: DecimalView,
    pub formula: Seq<char>,
    pub created_at: int,
    pub updated_at: int,
}

impl View for IndexData {
    type V = IndexDataView;

    open spec fn view(&self) -> IndexDataView {
        IndexDataView {
            id: match self.id {
                Some(i) => Some(i as int),
                None => None,
            },
            symbol: self.symbol@,
            last: self.last@,
            formula: self.formula@,
            created_at: self.created_at as int,
            updated_at: self.updated_at as int,
        }
    }
}

impl IndexData {
    /// A snapshot record made at `now_ms`.
    pub fn at(id: Option<i64>, symbol: String, last: Decimal, formula: String, now_ms: i64) -> (r:
        IndexData)
        ensures
            r@ == (IndexDataView {
                id: match id {
                    Some(i) => Some(i as int),
                    None => None,
                },
                symbol: symbol@,
                last: last@,
                formula: formula@,
                created_at: now_ms as int,
                updated_at: now_ms as int,
            }),
    {
        IndexData { id, symbol, last, formula, created_at: now_ms, updated_at: now_ms }
    }

    /// A snapshot record made now on the wall clock.
    pub fn new(id: Option<i64>, symbol: String, last: Decimal, formula: String) -> (r: IndexData)
        ensures
            r@ == (IndexDataView {
                id: match id {
                    Some(i) => Some(i as int),
                    None => None,
                },
                symbol: symbol@,
                last: last@,
                formula: formula@,
                created_at: r@.created_at,
                updated_at: r@.created_at,
            }),
    {
        let now = now_millis();
        IndexData::at(id, symbol, last, formula, now)
    }
}

/// A snapshot and the table that it goes to.
#[derive(Debug)]
pub struct SnapshotWrite {
    pub table: String,
    pub data: IndexData,
}

/// What a snapshot write holds.
pub struct SnapshotView {
    pub table: Seq<char>,
    pub data: IndexDataView,
}

impl View for SnapshotWrite {
    type V = SnapshotView;

    open spec fn view(&self) -> SnapshotView {
        SnapshotView { table: self.table@, data: self.data@ }
    }
}

/// The writes of a list of snapshots.
pub open spec fn snapshot_views(list: Seq<SnapshotWrite>) -> Seq<SnapshotView> {
    list.map_values(|w: SnapshotWrite| w@)
}

/// The time that one pass of the index loop may take before it is reported,
/// in milliseconds.
pub const PASS_BUDGET_MS: u128 = 50;

/// Whether a pass that took `elapsed_ms` milliseconds is to be reported as
/// slow.
pub fn pass_is_slow(elapsed_ms: u128) -> (r: bool)
    ensures
        r == (elapsed_ms > PASS_BUDGET_MS),
{
    elapsed_ms > PASS_BUDGET_MS
}

/// The width of a snapshot group, in seconds.
pub const SNAPSHOT_SECONDS: i64 = 5;

/// The table that holds the snapshots of an index.
pub open spec fn snapshot_table(index_name: Seq<char>) -> Seq<char> {
    "index_data_"@ + index_name
}

/// The snapshot group of a second.
pub open spec fn snapshot_group(now_s: int) -> int {
    now_s / (SNAPSHOT_SECONDS as int)
}

/// The second that holds a millisecond.
pub open spec fn second_of(now_ms: int) -> int {
    now_ms / 1000
}

/// The time that a sample taken at `now_ms` carries.
pub open spec fn sample_time(now_ms: int) -> nat {
    if now_ms >= 0 {
        now_ms as nat
    } else {
        0
    }
}

/// Whether a snapshot is due: the index has had none yet, or its last one
/// fell in another group.
pub open spec fn snapshot_due(last: Option<i64>, now_s: int) -> bool {
    match last {
        None => true,
        Some(g) => g != snapshot_group(now_s),
    }
}

/// The cells of all indexes and intervals, and what an observation sent out.
pub struct Observed {
    pub cells: Map<(Seq<char>, KlineInterval), CellView>,
    pub events: Seq<KlineView>,
}

/// One observation of a price for one interval.
pub open spec fn observe_one(
    cells: Map<(Seq<char>, KlineInterval), CellView>,
    symbol: Seq<char>,
    interval: KlineInterval,
    price: DecimalView,
    now_s: int,
    now_ms: int,
) -> Observed {
    let aligned = bucket_start(now_s, interval_seconds(interval));
    let cell = cells.get((symbol, interval));
    Observed {
        cells: cells.insert((symbol, interval), next_cell(cell, price, aligned)),
        events: klines_of(symbol, interval, cell_events(cell, price, aligned), now_ms),
    }
}

/// One observation of a price for each of a list of intervals, in order.
pub open spec fn observe_all(
    cells: Map<(Seq<char>, KlineInterval), CellView>,
    symbol: Seq<char>,
    intervals: Seq<KlineInterval>,
    price: DecimalView,
    now_s: int,
    now_ms: int,
) -> Observed
    decreases intervals.len(),
{
    if intervals.len() == 0 {
        Observed { cells, events: Seq::empty() }
    } else {
        let front = observe_all(cells, symbol, intervals.drop_last(), price, now_s, now_ms);
        let step = observe_one(front.cells, symbol, intervals.last(), price, now_s, now_ms);
        Observed { cells: step.cells, events: front.events + step.events }
    }
}

/// Everything that one pass over the indexes reads and writes.
pub struct PassView {
    pub calculators: Map<Seq<char>, CalculatorView>,
    pub cells: Map<(Seq<char>, KlineInterval), CellView>,
    pub groups: Map<Seq<char>, i64>,
    pub candles: Seq<KlineView>,
    pub snapshots: Seq<SnapshotView>,
}

/// What the pass reads of an index definition.
pub struct ConfigView {
    pub name: Seq<char>,
    pub formula: Seq<char>,
    pub is_active: bool,
}

/// The definitions of a list of indexes.
pub open spec fn config_views(list: Seq<IndexConfig>) -> Seq<ConfigView> {
    list.map_values(
        |c: IndexConfig| ConfigView { name: c.name@, formula: c.formula@, is_active: c.is_active },
    )
}

/// The pass over one index at `now_ms`. An index that is not active, has no
/// calculator or yields no sample changes nothing. A sample is kept by its
/// calculator, observed for every interval, and written as a snapshot where
/// one is due.
pub open spec fn tick_one(
    st: PassView,
    config: ConfigView,
    intervals: Seq<KlineInterval>,
    now_ms: int,
) -> PassView {
    if !config.is_active || !st.calculators.contains_key(config.name) {
        st
    } else {
        let calc = st.calculators[config.name];
        match evaluate(calc.prices, calc.margin, config.name, config.formula, sample_time(now_ms)) {
            None => st,
            Some(sample) => {
                let now_s = second_of(now_ms);
                let seen = observe_all(
                    st.cells,
                    sample.symbol,
                    intervals,
                    sample.last,
                    now_s,
                    now_ms,
                );
                let write = SnapshotView {
                    table: snapshot_table(config.name),
                    data: IndexDataView {
                        id: Some(now_ms),
                        symbol: sample.symbol,
                        last: sample.last,
                        formula: sample.formula,
                        created_at: now_ms,
                        updated_at: now_ms,
                    },
                };
                PassView {
                    calculators: st.calculators.insert(
                        config.name,
                        CalculatorView { samples: calc.samples.push(sample), ..calc },
                    ),
                    cells: seen.cells,
                    groups: st.groups.insert(config.name, snapshot_group(now_s) as i64),
                    candles: st.candles + seen.events,
                    snapshots: if snapshot_due(st.groups.get(config.name), now_s) {
                        st.snapshots.push(write)
                    } else {
                        st.snapshots
                    },
                }
            },
        }
    }
}

/// The pass over a list of indexes, in order.
pub open spec fn tick_all(
    st: PassView,
    configs: Seq<ConfigView>,
    intervals: Seq<KlineInterval>,
    now_ms: int,
) -> PassView
    decreases configs.len(),
{
    if configs.len() == 0 {
        st
    } else {
        tick_one(
            tick_all(st, configs.drop_last(), intervals, now_ms),
            configs.last(),
            intervals,
            now_ms,
        )
    }
}

/// Whether every cell is ordered and starts at a multiple of the width of
/// its interval.
pub open spec fn cells_sound(cells: Map<(Seq<char>, KlineInterval), CellView>) -> bool {
    forall|k: (Seq<char>, KlineInterval)| #[trigger]
        cells.contains_key(k) ==> cell_ordered(cells[k]) && cells[k].bucket_start
            % interval_seconds(k.1) == 0
}

/// Whether a candle record is ordered and starts at a multiple of the width
/// of its interval.
pub open spec fn kline_sound(k: KlineView) -> bool {
    &&& dec_le(k.low, k.open)
    &&& dec_le(k.low, k.close)
    &&& dec_le(k.open, k.high)
    &&& dec_le(k.close, k.high)
    &&& k.ts % interval_seconds(k.interval) == 0
}

/// Whether every candle record of a list is sound.
pub open spec fn klines_sound(list: Seq<KlineView>) -> bool {
    forall|i: int| 0 <= i < list.len() ==> kline_sound(#[trigger] list[i])
}

/// An observation keeps the cells sound and sends out sound candles only.
pub proof fn lemma_observe_one_sound(
    cells: Map<(Seq<char>, KlineInterval), CellView>,
    symbol: Seq<char>,
    interval: KlineInterval,
    price: DecimalView,
    now_s: int,
    now_ms: int,
)
    requires
        cells_sound(cells),
    ensures
        cells_sound(observe_one(cells, symbol, interval, price, now_s, now_ms).cells),
        klines_sound(observe_one(cells, symbol, interval, price, now_s, now_ms).events),
{
    let width = interval_seconds(interval);
    let aligned = bucket_start(now_s, width);
    let key = (symbol, interval);
    let cell = cells.get(key);
    lemma_bucket_start(now_s, width);
    if cells.contains_key(key) {
        assert(cell_ordered(cells[key]));
    }
    lemma_next_cell_ordered(cell, price, aligned);
    lemma_cell_events_ordered(cell, price, aligned);
    lemma_cell_events_aligned(cell, price, aligned, width);
    let after = observe_one(cells, symbol, interval, price, now_s, now_ms);
    assert forall|k: (Seq<char>, KlineInterval)| #[trigger]
        after.cells.contains_key(k) implies cell_ordered(after.cells[k])
        && after.cells[k].bucket_start % interval_seconds(k.1) == 0 by {
        if k != key {
            assert(cells.contains_key(k));
        }
    }
    assert forall|i: int| 0 <= i < after.events.len() implies kline_sound(
        #[trigger] after.events[i],
    ) by {
        let c = cell_events(cell, price, aligned)[i];
        assert(cell_ordered(c));
        assert(c.bucket_start % width == 0);
    }
}

/// Observations for a list of intervals keep the cells sound and send out
/// sound candles only.
pub proof fn lemma_observe_all_sound(
    cells: Map<(Seq<char>, KlineInterval), CellView>,
    symbol: Seq<char>,
    intervals: Seq<KlineInterval>,
    price: DecimalView,
    now_s: int,
    now_ms: int,
)
    requires
        cells_sound(cells),
    ensures
        cells_sound(observe_all(cells, symbol, intervals, price, now_s, now_ms).cells),
        klines_sound(observe_all(cells, symbol, intervals, price, now_s, now_ms).events),
    decreases intervals.len(),
{
    if intervals.len() > 0 {
        lemma_observe_all_sound(cells, symbol, intervals.drop_last(), price, now_s, now_ms);
        let front = observe_all(cells, symbol, intervals.drop_last(), price, now_s, now_ms);
        lemma_observe_one_sound(front.cells, symbol, intervals.last(), price, now_s, now_ms);
    }
}

/// A pass over one index keeps the cells sound and adds sound candles only.
pub proof fn lemma_tick_one_sound(
    st: PassView,
    config: ConfigView,
    intervals: Seq<KlineInterval>,
    now_ms: int,
)
    requires
        cells_sound(st.cells),
        klines_sound(st.candles),
    ensures
        cells_sound(tick_one(st, config, intervals, now_ms).cells),
        klines_sound(tick_one(st, config, intervals, now_ms).candles),
{
    if config.is_active && st.calculators.contains_key(config.name) {
        let calc = st.calculators[config.name];
        match evaluate(calc.prices, calc.margin, config.name, config.formula, sample_time(now_ms)) {
            None => {},
            Some(sample) => {
                lemma_observe_all_sound(
                    st.cells,
                    sample.symbol,
                    intervals,
                    sample.last,
                    second_of(now_ms),
                    now_ms,
                );
            },
        }
    }
}

/// A pass over a list of indexes keeps the cells sound and adds sound
/// candles only.
pub proof fn lemma_tick_all_sound(
    st: PassView,
    configs: Seq<ConfigView>,
    intervals: Seq<KlineInterval>,
    now_ms: int,
)
    requires
        cells_sound(st.cells),
        klines_sound(st.candles),
    ensures
        cells_sound(tick_all(st, configs, intervals, now_ms).cells),
        klines_sound(tick_all(st, configs, intervals, now_ms).candles),
    decreases configs.len(),
{
    if configs.len() > 0 {
        lemma_tick_all_sound(st, configs.drop_last(), intervals, now_ms);
        lemma_tick_one_sound(
            tick_all(st, configs.drop_last(), intervals, now_ms),
            configs.last(),
            intervals,
            now_ms,
        );
    }
}

/// The indexes and intervals of a list of cells.
pub open spec fn cell_keys(cells: Seq<OhlcCell>) -> Seq<(Seq<char>, KlineInterval)> {
    cells.map_values(|c: OhlcCell| c.key())
}

/// The states of a list of cells.
pub open spec fn cell_views(cells: Seq<OhlcCell>) -> Seq<CellView> {
    cells.map_values(|c: OhlcCell| c@)
}

/// The state of the index loop: the cell of every index and interval that
/// was observed, and the snapshot group of every index that was written.
pub struct IndexLoop {
    cells: Vec<OhlcCell>,
    last_groups: TextMap<i64>,
}

/// What the index loop holds.
pub struct LoopView {
    pub cells: Map<(Seq<char>, KlineInterval), CellView>,
    pub groups: Map<Seq<char>, i64>,
}

/// What one pass of the index loop hands on: the candle events, in the order
/// in which they arose, and the snapshots to write.
pub struct TickOutput {
    pub candles: Vec<IndexKlineData>,
    pub snapshots: Vec<SnapshotWrite>,
}

impl View for IndexLoop {
    type V = LoopView;

    closed spec fn view(&self) -> LoopView {
        LoopView {
            cells: keyed_map(cell_keys(self.cells@), cell_views(self.cells@)),
            groups: self.last_groups@,
        }
    }
}

impl IndexLoop {
    /// Whether the state is well formed: there is one cell for an index and
    /// interval, and every cell is sound.
    pub closed spec fn wf(&self) -> bool {
        &&& distinct_keys(cell_keys(self.cells@))
        &&& self.last_groups.wf()
        &&& forall|i: int|
            0 <= i < self.cells@.len() ==> cell_ordered((#[trigger] self.cells@[i])@)
                && self.cells@[i]@.bucket_start % interval_seconds(self.cells@[i].key().1) == 0
    }

    /// In a well-formed state every cell is ordered and aligned.
    pub proof fn lemma_cells_sound(self)
        requires
            self.wf(),
        ensures
            cells_sound(self@.cells),
    {
        let keys = cell_keys(self.cells@);
        assert forall|k: (Seq<char>, KlineInterval)| #[trigger]
            self@.cells.contains_key(k) implies cell_ordered(self@.cells[k])
            && self@.cells[k].bucket_start % interval_seconds(k.1) == 0 by {
            lemma_position_of(keys, k);
            let p = position_of(keys, k).unwrap();
            assert(cell_ordered(self.cells@[p]@));
            assert(self.cells@[p].key() == k);
        }
    }

    /// The state before anything was observed.
    pub fn new() -> (r: IndexLoop)
        ensures
            r.wf(),
            r@.cells == Map::<(Seq<char>, KlineInterval), CellView>::empty(),
            r@.groups == Map::<Seq<char>, i64>::empty(),
    {
        let r = IndexLoop { cells: Vec::new(), last_groups: TextMap::new() };
        proof {
            assert(r@.cells =~= Map::<(Seq<char>, KlineInterval), CellView>::empty());
        }
        r
    }

    fn position(&self, symbol: &str, interval: KlineInterval) -> (r: Option<usize>)
        requires
            self.wf(),
        ensures
            match r {
                Some(i) => i < self.cells@.len() && self.cells@[i as int].key() == (
                    symbol@,
                    interval,
                ) && position_of(cell_keys(self.cells@), (symbol@, interval)) == Some(i as int),
                None => position_of(cell_keys(self.cells@), (symbol@, interval)) is None,
            },
    {
        let wanted = symbol.to_owned();
        let ghost keys = cell_keys(self.cells@);
        let mut i: usize = 0;
        while i < self.cells.len()
            invariant
                i <= self.cells@.len(),
                wanted@ == symbol@,
                keys == cell_keys(self.cells@),
                distinct_keys(keys),
                forall|j: int| 0 <= j < i ==> keys[j] != (symbol@, interval),
            decreases self.cells@.len() - i,
        {
            if self.cells[i].interval == interval && self.cells[i].symbol == wanted {
                proof {
                    assert(keys[i as int] == (symbol@, interval));
                    lemma_position_at(keys, i as int);
                }
                return Some(i);
            }
            i = i + 1;
        }
        proof {
            lemma_position_of(keys, (symbol@, interval));
        }
        None
    }

    /// The cell of an index and interval, as a candle record made at
    /// `now_ms`.
    pub fn current(&self, symbol: &str, interval: KlineInterval, now_ms: i64) -> (r: Option<
        IndexKlineData,
    >)
        requires
            self.wf(),
        ensures
            match r {
                Some(k) => self@.cells.contains_key((symbol@, interval)) && k@ == kline_of(
                    symbol@,
                    interval,
                    self@.cells[(symbol@, interval)],
                    now_ms as int,
                ),
                None => !self@.cells.contains_key((symbol@, interval)),
            },
    {
        match self.position(symbol, interval) {
            Some(i) => Some(self.cells[i].kline(now_ms)),
            None => None,
        }
    }

    /// Takes one price of an index into the cell of one interval and appends
    /// the candle events to `out`.
    pub fn observe(
        &mut self,
        symbol: &str,
        interval: KlineInterval,
        price: Decimal,
        now_s: i64,
        now_ms: i64,
        out: &mut Vec<IndexKlineData>,
    )
        requires
            old(self).wf(),
            now_s >= i64::MIN + 86400,
        ensures
            final(self).wf(),
            final(self)@.groups == old(self)@.groups,
            final(self)@.cells == observe_one(
                old(self)@.cells,
                symbol@,
                interval,
                price@,
                now_s as int,
                now_ms as int,
            ).cells,
            kline_views(final(out)@) == kline_views(old(out)@) + observe_one(
                old(self)@.cells,
                symbol@,
                interval,
                price@,
                now_s as int,
                now_ms as int,
            ).events,
    {
        let aligned = interval.aligned(now_s);
        let ghost keys0 = cell_keys(self.cells@);
        let ghost views0 = cell_views(self.cells@);
        let ghost key = (symbol@, interval);
        let ghost cell0 = self@.cells.get(key);
        match self.position(symbol, interval) {
            Some(i) => {
                proof {
                    assert(cell0 == Some(self.cells@[i as int]@));
                    lemma_next_cell_ordered(cell0, price@, aligned as int);
                }
                self.cells[i].advance(price, aligned, now_ms, out);
                proof {
                    let keys1 = cell_keys(self.cells@);
                    let views1 = cell_views(self.cells@);
                    assert(keys1 =~= keys0) by {
                        assert forall|j: int| 0 <= j < keys0.len() implies keys1[j] == keys0[j] by {
                            if j != i {
                                assert(self.cells@[j] == old(self).cells@[j]);
                            }
                        }
                    }
                    assert(views1 =~= views0.update(i as int, self.cells@[i as int]@)) by {
                        assert forall|j: int| 0 <= j < views0.len() implies views1[j]
                            == views0.update(i as int, self.cells@[i as int]@)[j] by {
                            if j != i {
                                assert(self.cells@[j] == old(self).cells@[j]);
                            }
                        }
                    }
                    lemma_keyed_update(keys0, views0, i as int, self.cells@[i as int]@);
                    assert forall|j: int| 0 <= j < self.cells@.len() implies cell_ordered(
                        (#[trigger] self.cells@[j])@,
                    ) && self.cells@[j]@.bucket_start % interval_seconds(self.cells@[j].key().1)
                        == 0 by {
                        if j != i {
                            assert(self.cells@[j] == old(self).cells@[j]);
                        }
                    }
                }
            },
            None => {
                let cell = OhlcCell {
                    symbol: symbol.to_owned(),
                    interval,
                    bucket_start: aligned,
                    open: price,
                    high: price,
                    low: price,
                    close: price,
                };
                let ghost before = kline_views(out@);
                out.push(cell.kline(now_ms));
                out.push(cell.kline(now_ms));
                proof {
                    lemma_position_of(keys0, key);
                    assert(cell0 is None);
                    lemma_keyed_push(keys0, views0, key, cell@);
                    lemma_next_cell_ordered(cell0, price@, aligned as int);
                    assert(kline_views(out@) =~= before + klines_of(
                        symbol@,
                        interval,
                        cell_events(cell0, price@, aligned as int),
                        now_ms as int,
                    ));
                }
                self.cells.push(cell);
                proof {
                    assert(cell_keys(self.cells@) =~= keys0.push(key));
                    assert(cell_views(self.cells@) =~= views0.push(cell@));
                }
            },
        }
    }

    /// Takes one price of an index into the cells of a list of intervals, in
    /// order, and appends the candle events to `out`.
    pub fn observe_intervals(
        &mut self,
        symbol: &str,
        intervals: &Vec<KlineInterval>,
        price: Decimal,
        now_s: i64,
        now_ms: i64,
        out: &mut Vec<IndexKlineData>,
    )
        requires
            old(self).wf(),
            now_s >= i64::MIN + 86400,
        ensures
            final(self).wf(),
            final(self)@.groups == old(self)@.groups,
            final(self)@.cells == observe_all(
                old(self)@.cells,
                symbol@,
                intervals@,
                price@,
                now_s as int,
                now_ms as int,
            ).cells,
            kline_views(final(out)@) == kline_views(old(out)@) + observe_all(
                old(self)@.cells,
                symbol@,
                intervals@,
                price@,
                now_s as int,
                now_ms as int,
            ).events,
    {
        let ghost cells0 = self@.cells;
        let ghost out0 = kline_views(out@);
        let mut i: usize = 0;
        proof {
            assert(intervals@.take(0) =~= Seq::<KlineInterval>::empty());
            assert(out0 + Seq::<KlineView>::empty() =~= out0);
        }
        while i < intervals.len()
            invariant
                self.wf(),
                now_s >= i64::MIN + 86400,
                i <= intervals@.len(),
                self@.groups == old(self)@.groups,
                cells0 == old(self)@.cells,
                out0 == kline_views(old(out)@),
                self@.cells == observe_all(
                    cells0,
                    symbol@,
                    intervals@.take(i as int),
                    price@,
                    now_s as int,
                    now_ms as int,
                ).cells,
                kline_views(out@) == out0 + observe_all(
                    cells0,
                    symbol@,
                    intervals@.take(i as int),
                    price@,
                    now_s as int,
                    now_ms as int,
                ).events,
            decreases intervals@.len() - i,
        {
            proof {
                assert(intervals@.take(i + 1).drop_last() =~= intervals@.take(i as int));
                assert(intervals@.take(i + 1).last() == intervals@[i as int]);
            }
            let ghost front = observe_all(
                cells0,
                symbol@,
                intervals@.take(i as int),
                price@,
                now_s as int,
                now_ms as int,
            );
            self.observe(symbol, intervals[i], price, now_s, now_ms, out);
            proof {
                let step = observe_one(
                    front.cells,
                    symbol@,
                    intervals@[i as int],
                    price@,
                    now_s as int,
                    now_ms as int,
                );
                assert(kline_views(out@) =~= out0 + (front.events + step.events));
            }
            i = i + 1;
        }
        proof {
            assert(intervals@.take(i as int) =~= intervals@);
        }
    }

    /// The pass over one index.
    fn tick_config(
        &mut self,
        calculators: &mut CalculatorManager,
        config: &IndexConfig,
        intervals: &Vec<KlineInterval>,
        now_ms: i64,
        out: &mut TickOutput,
    )
        requires
            old(self).wf(),
            old(calculators).wf(),
        ensures
            final(self).wf(),
            final(calculators).wf(),
            (PassView {
                calculators: final(calculators)@,
                cells: final(self)@.cells,
                groups: final(self)@.groups,
                candles: kline_views(final(out).candles@),
                snapshots: snapshot_views(final(out).snapshots@),
            }) == tick_one(
                PassView {
                    calculators: old(calculators)@,
                    cells: old(self)@.cells,
                    groups: old(self)@.groups,
                    candles: kline_views(old(out).candles@),
                    snapshots: snapshot_views(old(out).snapshots@),
                },
                ConfigView { name: config.name@, formula: config.formula@, is_active: config.is_active },
                intervals@,
                now_ms as int,
            ),
    {
        if !config.is_active {
            return ;
        }
        let time: u64 = if now_ms >= 0 {
            now_ms as u64
        } else {
            0
        };
        let sample = match calculators.calculate_index(
            config.name.as_str(),
            config.formula.as_str(),
            time,
        ) {
            Some(s) => s,
            None => {
                return ;
            },
        };
        let now_s = floor_div(now_ms, 1000);
        self.observe_intervals(
            sample.symbol.as_str(),
            intervals,
            sample.last,
            now_s,
            now_ms,
            &mut out.candles,
        );
        let due = self.snapshot_is_due(config.name.as_str(), now_s);
        if due {
            let ghost before = snapshot_views(out.snapshots@);
            let data = IndexData::at(
                Some(now_ms),
                sample.symbol.clone(),
                sample.last,
                sample.formula.clone(),
                now_ms,
            );
            let write = SnapshotWrite {
                table: concat2("index_data_", config.name.as_str()),
                data,
            };
            out.snapshots.push(write);
            proof {
                assert(snapshot_views(out.snapshots@) =~= before.push(write@));
            }
        }
    }

    /// One pass of the index loop at `now_ms`: every active index is
    /// evaluated, in order; each sample is observed for every interval and
    /// written as a snapshot where one is due. The candle events and the
    /// snapshot writes come back for the caller to hand on.
    pub fn tick(
        &mut self,
        calculators: &mut CalculatorManager,
        index_configs: &Vec<IndexConfig>,
        intervals: &Vec<KlineInterval>,
        now_ms: i64,
    ) -> (out: TickOutput)
        requires
            old(self).wf(),
            old(calculators).wf(),
        ensures
            final(self).wf(),
            final(calculators).wf(),
            (PassView {
                calculators: final(calculators)@,
                cells: final(self)@.cells,
                groups: final(self)@.groups,
                candles: kline_views(out.candles@),
                snapshots: snapshot_views(out.snapshots@),
            }) == tick_all(
                PassView {
                    calculators: old(calculators)@,
                    cells: old(self)@.cells,
                    groups: old(self)@.groups,
                    candles: Seq::empty(),
                    snapshots: Seq::empty(),
                },
                config_views(index_configs@),
                intervals@,
                now_ms as int,
            ),
            klines_sound(kline_views(out.candles@)),
            cells_sound(final(self)@.cells),
    {
        let mut out = TickOutput { candles: Vec::new(), snapshots: Vec::new() };
        let ghost start = PassView {
            calculators: calculators@,
            cells: self@.cells,
            groups: self@.groups,
            candles: Seq::empty(),
            snapshots: Seq::empty(),
        };
        let ghost configs = config_views(index_configs@);
        let mut i: usize = 0;
        proof {
            assert(configs.take(0) =~= Seq::<ConfigView>::empty());
            assert(kline_views(out.candles@) =~= Seq::<KlineView>::empty());
            assert(snapshot_views(out.snapshots@) =~= Seq::<SnapshotView>::empty());
        }
        while i < index_configs.len()
            invariant
                self.wf(),
                calculators.wf(),
                i <= index_configs@.len(),
                configs == config_views(index_configs@),
                (PassView {
                    calculators: calculators@,
                    cells: self@.cells,
                    groups: self@.groups,
                    candles: kline_views(out.candles@),
                    snapshots: snapshot_views(out.snapshots@),
                }) == tick_all(start, configs.take(i as int), intervals@, now_ms as int),
            decreases index_configs@.len() - i,
        {
            proof {
                assert(configs.take(i + 1).drop_last() =~= configs.take(i as int));
                assert(configs.take(i + 1).last() == configs[i as int]);
            }
            self.tick_config(calculators, &index_configs[i], intervals, now_ms, &mut out);
            i = i + 1;
        }
        proof {
            assert(configs.take(i as int) =~= configs);
            old(self).lemma_cells_sound();
            lemma_tick_all_sound(start, configs, intervals@, now_ms as int);
        }
        out
    }

    /// Whether a snapshot of an index is due in the second `now_s`, and
    /// records the group of that second for the index.
    pub fn snapshot_is_due(&mut self, index_name: &str, now_s: i64) -> (r: bool)
        requires
            old(self).wf(),
        ensures
            final(self).wf(),
            final(self)@.cells == old(self)@.cells,
            r == snapshot_due(old(self)@.groups.get(index_name@), now_s as int),
            final(self)@.groups == old(self)@.groups.insert(
                index_name@,
                snapshot_group(now_s as int) as i64,
            ),
    {
        let group = floor_div(now_s, SNAPSHOT_SECONDS);
        let due = match self.last_groups.get(index_name) {
            Some(last) => *last != group,
            None => true,
        };
        self.last_groups.insert(index_name, group);
        due
    }
}

} // verus!
