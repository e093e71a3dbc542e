//! The trade cache: the last trade of every exchange and symbol, kept for a
//! limited time.
//!
//! The entries live in a `dashmap::DashMap`. What the map holds is named by
//! [`trade_store_entries`]; the wrappers of this module say what each call
//! does to it.

use crate::decimal::{Decimal, DecimalView};
use vstd::prelude::*;

verus! {

/// `dashmap::DashMap`, taken as it is: nothing is known of what is inside
/// but what the wrappers say.
#[verifier::external_type_specification]
#[verifier::external_body]
#[verifier::reject_recursive_types(K)]
#[verifier::reject_recursive_types(V)]
#[verifier::reject_recursive_types(S)]
pub struct ExDashMap<K, V, S>(dashmap::DashMap<K, V, S>);

/// `tokio::time::Instant`, taken as it is: an instant is carried along and
/// never looked into.
#[verifier::external_type_specification]
#[verifier::external_body]
pub struct ExInstant(tokio::time::Instant);

/// The key of a trade: the exchange and the canonical symbol.
#[derive(Debug, Clone, PartialEq, Eq, Hash)]
pub struct QuoteIndex {
    pub exchange: String,
    pub symbol: String,
}

/// The last trade seen for a symbol on an exchange.
#[derive(Debug, Clone)]
pub struct Trade {
    pub exchange: String,
    pub symbol: String,
    pub price: Decimal,
    /// The time that the exchange gave, in milliseconds.
    pub timestamp: i64,
}

/// What a trade holds.
pub struct TradeView {
    pub exchange: Seq<char>,
    pub symbol: Seq<char>,
    pub price: DecimalView,
    pub timestamp: int,
}

impl View for Trade {
    type V = TradeView;

    open spec fn view(&self) -> TradeView {
        TradeView {
            exchange: self.exchange@,
            symbol: self.symbol@,
            price: self.price@,
            timestamp: self.timestamp as int,
        }
    }
}

impl QuoteIndex {
    /// The key of a trade.
    pub fn of(trade: &Trade) -> (r: QuoteIndex)
        ensures
            r.exchange@ == trade@.exchange,
            r.symbol@ == trade@.symbol,
    {
        QuoteIndex { exchange: trade.exchange.clone(), symbol: trade.symbol.clone() }
    }
}

/// A trade and the time at which it was put into the cache, in milliseconds
/// since the cache was made.
#[derive(Debug, Clone)]
pub struct TradeEntry {
    pub trade: Trade,
    pub inserted_at: u64,
}

/// What an entry of the cache holds.
pub struct TradeEntryView {
    pub trade: TradeView,
    pub inserted_at: nat,
}

impl View for TradeEntry {
    type V = TradeEntryView;

    open spec fn view(&self) -> TradeEntryView {
        TradeEntryView { trade: self.trade@, inserted_at: self.inserted_at as nat }
    }
}

/// The map in which a trade cache keeps its entries.
pub type TradeStore = dashmap::DashMap<(String, String), TradeEntry>;

/// The entries of a cache, by exchange and symbol.
pub type TradeEntries = Map<(Seq<char>, Seq<char>), TradeEntryView>;

/// A cache without entries.
pub open spec fn no_trades() -> TradeEntries {
    Map::empty()
}

/// What the map of a trade cache holds.
pub uninterp spec fn trade_store_entries(store: TradeStore) -> TradeEntries;

/// Whether an entry is still alive at `now`: its age is below the time to
/// live. An entry that claims to be of the future has age zero.
pub open spec fn entry_alive(inserted_at: nat, now: nat, ttl: nat) -> bool {
    if now >= inserted_at {
        now - inserted_at < ttl
    } else {
        0 < ttl
    }
}

/// The entries that a sweep at `now` leaves: those that are still alive.
pub open spec fn swept(entries: TradeEntries, now: nat, ttl: nat) -> TradeEntries {
    entries.restrict(
        Set::new(
            |k: (Seq<char>, Seq<char>)|
                entries.contains_key(k) && entry_alive(entries[k].inserted_at, now, ttl),
        ),
    )
}

/// Whether an entry is still alive at `now`.
pub fn entry_is_alive(entry: &TradeEntry, now: u64, ttl: u128) -> (r: bool)
    ensures
        r == entry_alive(entry@.inserted_at, now as nat, ttl as nat),
{
    if now >= entry.inserted_at {
        ((now - entry.inserted_at) as u128) < ttl
    } else {
        0 < ttl
    }
}

/// `DashMap::new`. The contract claims that the new map is empty.
#[verifier::external_body]
fn store_new() -> (store: TradeStore)
    ensures
        trade_store_entries(store) == no_trades(),
{
    dashmap::DashMap::new()
}

/// `DashMap::insert`. The contract claims that afterwards the key holds the
/// new entry, whatever it held before, and that no other key is touched.
#[verifier::external_body]
fn store_insert(
    store: &mut TradeStore,
    exchange: String,
    symbol: String,
    entry: TradeEntry,
)
    ensures
        trade_store_entries(*final(store)) == trade_store_entries(*old(store)).insert(
            (exchange@, symbol@),
            entry@,
        ),
{
    store.insert((exchange, symbol), entry);
}

/// `DashMap::get`, with a copy of the value. The contract claims that the
/// entry under the key comes back where there is one, and `None` where
/// there is none.
#[verifier::external_body]
fn store_get(store: &TradeStore, exchange: &str, symbol: &str)
    -> (r: Option<TradeEntry>)
    ensures
        match r {
            Some(entry) => trade_store_entries(*store).contains_key((exchange@, symbol@))
                && trade_store_entries(*store)[(exchange@, symbol@)] == entry@,
            None => !trade_store_entries(*store).contains_key((exchange@, symbol@)),
        },
{
    store.get(&(exchange.to_owned(), symbol.to_owned())).map(|found| found.value().clone())
}

/// `DashMap::retain`, keeping the entries that are alive at `now`. The
/// contract claims that exactly the entries for which the test fails are
/// removed and that the others stay as they are.
#[verifier::external_body]
fn store_retain_alive(
    store: &mut TradeStore,
    now: u64,
    ttl: u128,
)
    ensures
        trade_store_entries(*final(store)) == swept(
            trade_store_entries(*old(store)),
            now as nat,
            ttl as nat,
        ),
{
    store.retain(|_, entry| entry_is_alive(entry, now, ttl));
}

/// `tokio::time::Instant::now`. Nothing is claimed of the instant.
#[verifier::external_body]
fn instant_now() -> (r: tokio::time::Instant) {
    tokio::time::Instant::now()
}

/// `tokio::time::Instant::elapsed`, in whole milliseconds. Nothing is
/// claimed of the value: it is whatever the clock says.
#[verifier::external_body]
fn millis_since(epoch: &tokio::time::Instant) -> (r: u64) {
    epoch.elapsed().as_millis() as u64
}

/// The trade cache.
pub struct TradeRepository {
    store: TradeStore,
    ttl_ms: u128,
    epoch: tokio::time::Instant,
}

/// What a trade cache holds.
pub struct TradeRepositoryView {
    pub entries: TradeEntries,
    pub ttl_ms: nat,
}

impl View for TradeRepository {
    type V = TradeRepositoryView;

    closed spec fn view(&self) -> TradeRepositoryView {
        TradeRepositoryView {
            entries: trade_store_entries(self.store),
            ttl_ms: self.ttl_ms as nat,
        }
    }
}

impl TradeRepository {
    /// An empty cache whose entries live for `ttl_minutes` minutes.
    pub fn new(ttl_minutes: u64) -> (r: TradeRepository)
        ensures
            r@.entries == no_trades(),
            r@.ttl_ms == ttl_minutes * 60_000,
    {
        TradeRepository {
            store: store_new(),
            ttl_ms: (ttl_minutes as u128) * 60_000,
            epoch: instant_now(),
        }
    }

    /// The milliseconds that have passed since the cache was made.
    pub fn now(&self) -> (r: u64) {
        millis_since(&self.epoch)
    }

    /// Puts a trade under its exchange and symbol, as inserted at `now`; a
    /// trade that was there is replaced.
    pub fn save_trade_at(&mut self, trade: Trade, now: u64)
        ensures
            final(self)@.ttl_ms == old(self)@.ttl_ms,
            final(self)@.entries == old(self)@.entries.insert(
                (trade@.exchange, trade@.symbol),
                TradeEntryView { trade: trade@, inserted_at: now as nat },
            ),
    {
        let key = QuoteIndex::of(&trade);
        let entry = TradeEntry { trade, inserted_at: now };
        store_insert(&mut self.store, key.exchange, key.symbol, entry);
    }

    /// Puts a trade under its exchange and symbol, as inserted now.
    pub fn save_trade(&mut self, trade: Trade)
        ensures
            final(self)@.ttl_ms == old(self)@.ttl_ms,
            final(self)@.entries.dom() == old(self)@.entries.dom().insert(
                (trade@.exchange, trade@.symbol),
            ),
            final(self)@.entries[(trade@.exchange, trade@.symbol)].trade == trade@,
            forall|k: (Seq<char>, Seq<char>)|
                k != (trade@.exchange, trade@.symbol) && old(self)@.entries.contains_key(k)
                    ==> #[trigger] final(self)@.entries[k] == old(self)@.entries[k],
    {
        let now = self.now();
        self.save_trade_at(trade, now);
    }

    /// The trade under an exchange and symbol.
    pub fn get_trade(&self, exchange: &str, symbol: &str) -> (r: Option<Trade>)
        ensures
            match r {
                Some(trade) => self@.entries.contains_key((exchange@, symbol@))
                    && self@.entries[(exchange@, symbol@)].trade == trade@,
                None => !self@.entries.contains_key((exchange@, symbol@)),
            },
    {
        match store_get(&self.store, exchange, symbol) {
            Some(entry) => Some(entry.trade),
            None => None,
        }
    }

    /// Removes every entry whose age at `now` has reached the time to live.
    pub fn sweep_at(&mut self, now: u64)
        ensures
            final(self)@.ttl_ms == old(self)@.ttl_ms,
            final(self)@.entries == swept(old(self)@.entries, now as nat, old(self)@.ttl_ms),
    {
        store_retain_alive(&mut self.store, now, self.ttl_ms);
    }

    /// Removes every entry whose age has reached the time to live by now.
    pub fn sweep(&mut self)
        ensures
            final(self)@.ttl_ms == old(self)@.ttl_ms,
            exists|now: nat|
                final(self)@.entries == #[trigger] swept(
                    old(self)@.entries,
                    now,
                    old(self)@.ttl_ms,
                ),
    {
        let now = self.now();
        self.sweep_at(now);
    }
}

/// A sweep removes nothing but expired entries and changes no entry that it
/// leaves.
pub proof fn lemma_sweep_keeps_alive(entries: TradeEntries, now: nat, ttl: nat)
    ensures
        forall|k: (Seq<char>, Seq<char>)| #[trigger]
            swept(entries, now, ttl).contains_key(k) <==> entries.contains_key(k) && entry_alive(
                entries[k].inserted_at,
                now,
                ttl,
            ),
        forall|k: (Seq<char>, Seq<char>)| #[trigger]
            swept(entries, now, ttl).contains_key(k) ==> swept(entries, now, ttl)[k] == entries[k],
{
}

/// An entry that was inserted at `t0` and not replaced since is gone after
/// any sweep at or after `t0 + ttl`.
pub proof fn lemma_expired_entry_is_swept(
    entries: TradeEntries,
    key: (Seq<char>, Seq<char>),
    trade: TradeView,
    t0: nat,
    now: nat,
    ttl: nat,
)
    requires
        now >= t0 + ttl,
    ensures
        !swept(
            entries.insert(key, TradeEntryView { trade, inserted_at: t0 }),
            now,
            ttl,
        ).contains_key(key),
{
}

/// Where sweeps are at most `period` apart, a read at or after
/// `t0 + ttl + period` comes after a sweep that was at or after `t0 + ttl`:
/// the last sweep before the read is such a one.
pub proof fn lemma_sweep_falls_in_time(t0: nat, ttl: nat, period: nat, read: nat, last_sweep: nat)
    requires
        read >= t0 + ttl + period,
        last_sweep <= read,
        read - last_sweep <= period,
    ensures
        last_sweep >= t0 + ttl,
{
}

} // verus!
