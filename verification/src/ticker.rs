//! Tickers: the latest price of a symbol as an exchange reported it, and the
//! per-client store that keeps one ticker per canonical symbol.
//!
//! The store is a `dashmap::DashMap`. What it holds is named by
//! [`ticker_store_entries`]; the wrappers of this module say what each call
//! does to it.

use vstd::prelude::*;

verus! {

/// The latest price of a symbol.
#[derive(Debug, Clone)]
pub struct TickerData {
    /// The last price, as the exchange wrote it.
    pub last_pr: String,
    /// The time that the exchange gave, in milliseconds, as text.
    pub ts: String,
    /// The instrument as the exchange names it.
    pub inst_id: String,
}

/// What a ticker holds.
pub struct TickerView {
    pub last_pr: Seq<char>,
    pub ts: Seq<char>,
    pub inst_id: Seq<char>,
}

impl View for TickerData {
    type V = TickerView;

    open spec fn view(&self) -> TickerView {
        TickerView { last_pr: self.last_pr@, ts: self.ts@, inst_id: self.inst_id@ }
    }
}

/// One price report read from a frame.
#[derive(Debug)]
pub struct Tick {
    /// The instrument as the exchange names it.
    pub inst_id: String,
    /// The last price, as the exchange wrote it.
    pub last_pr: String,
    /// The time of the report, as text.
    pub ts: String,
    /// The time of the report, in milliseconds; zero where the frame gave
    /// none that can be read.
    pub timestamp: i64,
}

/// What a price report holds.
pub struct TickView {
    pub inst_id: Seq<char>,
    pub last_pr: Seq<char>,
    pub ts: Seq<char>,
    pub timestamp: int,
}

impl View for Tick {
    type V = TickView;

    open spec fn view(&self) -> TickView {
        TickView {
            inst_id: self.inst_id@,
            last_pr: self.last_pr@,
            ts: self.ts@,
            timestamp: self.timestamp as int,
        }
    }
}

/// The reports of a list.
pub open spec fn tick_views(ticks: Seq<Tick>) -> Seq<TickView> {
    ticks.map_values(|t: Tick| t@)
}

/// What a frame asks for: a reply to send back, and price reports to take
/// in.
#[derive(Debug)]
pub struct Frame {
    pub reply: Option<String>,
    pub ticks: Vec<Tick>,
}

/// What a frame holds.
pub struct FrameView {
    pub reply: Option<Seq<char>>,
    pub ticks: Seq<TickView>,
}

impl View for Frame {
    type V = FrameView;

    open spec fn view(&self) -> FrameView {
        FrameView {
            reply: match self.reply {
                Some(s) => Some(s@),
                None => None,
            },
            ticks: tick_views(self.ticks@),
        }
    }
}

/// A frame that asks for nothing.
pub open spec fn silent_frame() -> FrameView {
    FrameView { reply: None, ticks: Seq::empty() }
}

impl Frame {
    /// A frame that asks for nothing.
    pub fn silent() -> (r: Frame)
        ensures
            r@ == silent_frame(),
    {
        let r = Frame { reply: None, ticks: Vec::new() };
        proof {
            assert(r@.ticks =~= Seq::<TickView>::empty());
        }
        r
    }
}

/// The map in which a client keeps its tickers.
pub type TickerStore = dashmap::DashMap<String, TickerData>;

/// The tickers of a store, by canonical symbol.
pub type Tickers = Map<Seq<char>, TickerView>;

/// A store without tickers.
pub open spec fn no_tickers() -> Tickers {
    Map::empty()
}

/// What the map of a ticker store holds.
pub uninterp spec fn ticker_store_entries(store: TickerStore) -> Tickers;

/// `DashMap::new`. The contract claims that the new map is empty.
#[verifier::external_body]
pub(crate) fn ticker_store_new() -> (store: TickerStore)
    ensures
        ticker_store_entries(store) == no_tickers(),
{
    dashmap::DashMap::new()
}

/// `DashMap::insert`. The contract claims that afterwards the key holds the
/// new ticker, whatever it held before, and that no other key is touched.
#[verifier::external_body]
pub(crate) fn ticker_store_insert(store: &mut TickerStore, symbol: String, ticker: TickerData)
    ensures
        ticker_store_entries(*final(store)) == ticker_store_entries(*old(store)).insert(
            symbol@,
            ticker@,
        ),
{
    store.insert(symbol, ticker);
}

/// `DashMap::get`, with a copy of the value. The contract claims that the
/// ticker under the key comes back where there is one, and `None` where
/// there is none.
#[verifier::external_body]
pub(crate) fn ticker_store_get(store: &TickerStore, symbol: &str) -> (r: Option<TickerData>)
    ensures
        match r {
            Some(ticker) => ticker_store_entries(*store).contains_key(symbol@)
                && ticker_store_entries(*store)[symbol@] == ticker@,
            None => !ticker_store_entries(*store).contains_key(symbol@),
        },
{
    store.get(symbol).map(|found| found.value().clone())
}

} // verus!
