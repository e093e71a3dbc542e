//! The exchange client: what one connection to one exchange knows and
//! decides. Opening the socket, sending and reading are the caller's part;
//! the client says what to open, what to send and what a frame changes.

use crate::binance;
use crate::bitget;
use crate::clock::now_millis;
use crate::decimal::{decimal_parse, Decimal, DecimalView};
use crate::exchange::{exchange_name, Exchange, ExchangeEnum};
use crate::text::string_views;
use crate::text_map::TextMap;
use crate::ticker::{
    no_tickers, tick_views, ticker_store_entries, ticker_store_get, ticker_store_insert,
    ticker_store_new, Frame, FrameView, Tick, TickView, TickerData, TickerStore, TickerView,
    Tickers,
};
use crate::trade::{Trade, TradeEntries, TradeEntryView, TradeRepository, TradeView};
use vstd::prelude::*;

verus! {

/// The largest number of instruments in one subscribe message.
pub const SUBSCRIBE_CHUNK: usize = 20;

/// Where a connection stands.
#[derive(Debug, Clone, Copy, PartialEq, Eq, Structural)]
pub enum ConnectionState {
    Disconnected,
    Connecting,
    Subscribed,
    Reading,
}

/// What happened to a connection.
#[derive(Debug, Clone, Copy, PartialEq, Eq, Structural)]
pub enum ConnectionEvent {
    /// The handshake succeeded.
    Opened,
    /// The handshake failed.
    OpenFailed,
    /// All subscribe messages went out.
    SubscriptionsSent,
    /// A subscribe message could not be sent.
    SendFailed,
    /// Reading failed.
    ReadFailed,
    /// The socket was closed.
    Closed,
}

/// The heartbeat of a connection: what to send, and how often.
#[derive(Debug)]
pub struct Heartbeat {
    pub message: String,
    pub interval_ms: u64,
}

/// What a heartbeat holds.
pub struct HeartbeatView {
    pub message: Seq<char>,
    pub interval_ms: nat,
}

/// What to do after an event.
#[derive(Debug)]
pub enum ConnectionAction {
    /// Nothing.
    Idle,
    /// Start the heartbeat, if there is one, and send the subscribe
    /// messages, in order.
    Subscribe { frames: Vec<String>, heartbeat: Option<Heartbeat> },
    /// Start reading frames.
    Read,
}

/// What an action holds.
pub enum ActionView {
    Idle,
    Subscribe { frames: Seq<Seq<char>>, heartbeat: Option<HeartbeatView> },
    Read,
}

impl View for ConnectionAction {
    type V = ActionView;

    open spec fn view(&self) -> ActionView {
        match self {
            ConnectionAction::Idle => ActionView::Idle,
            ConnectionAction::Subscribe { frames, heartbeat } => ActionView::Subscribe {
                frames: string_views(frames@),
                heartbeat: match heartbeat {
                    Some(h) => Some(
                        HeartbeatView { message: h.message@, interval_ms: h.interval_ms as nat },
                    ),
                    None => None,
                },
            },
            ConnectionAction::Read => ActionView::Read,
        }
    }
}

/// What a client holds.
pub struct ClientView {
    pub kind: ExchangeEnum,
    pub name: Seq<char>,
    pub ws_url: Seq<char>,
    pub subscriptions: Seq<Seq<char>>,
    pub tickers: Tickers,
    pub connected: bool,
    pub state: ConnectionState,
    pub symbol_map: Map<Seq<char>, Seq<char>>,
    pub ping_msg: Seq<char>,
    pub ping_interval: nat,
}

/// The canonical names of a symbol map.
pub open spec fn symbol_views(map: Map<Seq<char>, String>) -> Map<Seq<char>, Seq<char>> {
    map.map_values(|s: String| s@)
}

/// The canonical name of an instrument: what the symbol map gives for it,
/// or the instrument itself where the map does not know it.
pub open spec fn canonical_symbol(symbol_map: Map<Seq<char>, Seq<char>>, native: Seq<char>) -> Seq<
    char,
> {
    if symbol_map.contains_key(native) {
        symbol_map[native]
    } else {
        native
    }
}

/// The ticker that a price report leaves behind.
pub open spec fn ticker_of(symbol_map: Map<Seq<char>, Seq<char>>, tick: TickView) -> TickerView {
    TickerView {
        last_pr: tick.last_pr,
        ts: tick.ts,
        inst_id: canonical_symbol(symbol_map, tick.inst_id),
    }
}

/// The tickers after a price report: the report stands under the canonical
/// name of its instrument.
pub open spec fn tickers_after(
    tickers: Tickers,
    symbol_map: Map<Seq<char>, Seq<char>>,
    tick: TickView,
) -> Tickers {
    tickers.insert(canonical_symbol(symbol_map, tick.inst_id), ticker_of(symbol_map, tick))
}

/// The trades after a price report whose price was read as `price`: a
/// report with a price leaves a trade under the exchange and the canonical
/// name, one without leaves the trades alone.
pub open spec fn trades_after(
    trades: TradeEntries,
    exchange: Seq<char>,
    symbol_map: Map<Seq<char>, Seq<char>>,
    tick: TickView,
    price: Option<DecimalView>,
    now: nat,
) -> TradeEntries {
    match price {
        Some(p) => {
            let symbol = canonical_symbol(symbol_map, tick.inst_id);
            trades.insert(
                (exchange, symbol),
                TradeEntryView {
                    trade: TradeView { exchange, symbol, price: p, timestamp: tick.timestamp },
                    inserted_at: now,
                },
            )
        },
        None => trades,
    }
}

/// The tickers and the trades.
pub struct Books {
    pub tickers: Tickers,
    pub trades: TradeEntries,
}

/// The books after a list of price reports, taken in order, the price of
/// each read from its text.
pub open spec fn books_after(
    books: Books,
    exchange: Seq<char>,
    symbol_map: Map<Seq<char>, Seq<char>>,
    ticks: Seq<TickView>,
    now: nat,
) -> Books
    decreases ticks.len(),
{
    if ticks.len() == 0 {
        books
    } else {
        let front = books_after(books, exchange, symbol_map, ticks.drop_last(), now);
        let tick = ticks.last();
        Books {
            tickers: tickers_after(front.tickers, symbol_map, tick),
            trades: trades_after(
                front.trades,
                exchange,
                symbol_map,
                tick,
                decimal_parse(tick.last_pr),
                now,
            ),
        }
    }
}

/// A frame without price reports leaves the tickers and the trades as they
/// are.
pub proof fn lemma_no_report_no_change(
    books: Books,
    exchange: Seq<char>,
    symbol_map: Map<Seq<char>, Seq<char>>,
    now: nat,
)
    ensures
        books_after(books, exchange, symbol_map, Seq::empty(), now) == books,
{
}

/// A corrupted Binance frame changes nothing: whatever the tickers and the
/// trades hold, they hold the same afterwards.
pub proof fn lemma_corrupted_frame_changes_nothing(
    books: Books,
    exchange: Seq<char>,
    symbol_map: Map<Seq<char>, Seq<char>>,
    text: Seq<char>,
    now: nat,
)
    requires
        binance::is_corrupted(text),
    ensures
        books_after(
            books,
            exchange,
            symbol_map,
            frame_of(ExchangeEnum::Binance, text).ticks,
            now,
        ) == books,
{
    binance::lemma_corrupted_frame_is_dropped(text);
}

/// What a text frame asks for, by the framing of the exchange.
pub open spec fn frame_of(kind: ExchangeEnum, text: Seq<char>) -> FrameView {
    match kind {
        ExchangeEnum::Binance => binance::binance_frame(text),
        ExchangeEnum::Bitget => bitget::bitget_frame(text),
        ExchangeEnum::Okex => bitget::bitget_frame(text),
    }
}

/// The subscribe message for a list of instruments, by the framing of the
/// exchange.
pub open spec fn subscribe_message(kind: ExchangeEnum, symbols: Seq<Seq<char>>, now_ms: int)
    -> Option<Seq<char>> {
    match kind {
        ExchangeEnum::Binance => binance::binance_subscribe(symbols, now_ms),
        ExchangeEnum::Bitget => bitget::bitget_subscribe(symbols),
        ExchangeEnum::Okex => bitget::bitget_subscribe(symbols),
    }
}

/// A subscription list with more instruments merged in: each new one goes to
/// the end, one that is there already is not added again.
pub open spec fn merged(current: Seq<Seq<char>>, more: Seq<Seq<char>>) -> Seq<Seq<char>>
    decreases more.len(),
{
    if more.len() == 0 {
        current
    } else {
        let front = merged(current, more.drop_last());
        if front.contains(more.last()) {
            front
        } else {
            front.push(more.last())
        }
    }
}

/// Whether no instrument stands in a list twice.
pub open spec fn no_duplicates(list: Seq<Seq<char>>) -> bool {
    forall|i: int, j: int| 0 <= i < j < list.len() ==> list[i] != list[j]
}

/// The first `n` instruments cut into runs of at most `SUBSCRIBE_CHUNK`,
/// where `n` is a multiple of the chunk or the length of the list.
pub open spec fn chunks(list: Seq<Seq<char>>, n: int) -> Seq<Seq<Seq<char>>>
    decreases n,
{
    if n <= 0 {
        Seq::empty()
    } else {
        let start = ((n - 1) / (SUBSCRIBE_CHUNK as int)) * (SUBSCRIBE_CHUNK as int);
        chunks(list, start).push(list.subrange(start, n))
    }
}

/// The subscribe messages of a list of runs, one for each run.
pub open spec fn messages_of(kind: ExchangeEnum, runs: Seq<Seq<Seq<char>>>, now_ms: int) -> Seq<
    Seq<char>,
>
    decreases runs.len(),
{
    if runs.len() == 0 {
        Seq::empty()
    } else {
        let front = messages_of(kind, runs.drop_last(), now_ms);
        match subscribe_message(kind, runs.last(), now_ms) {
            Some(m) => front.push(m),
            None => front,
        }
    }
}

/// The subscribe messages for a subscription list: one for each run of at
/// most `SUBSCRIBE_CHUNK` instruments, in order.
pub open spec fn subscribe_frames(kind: ExchangeEnum, list: Seq<Seq<char>>, now_ms: int) -> Seq<
    Seq<char>,
> {
    messages_of(kind, chunks(list, list.len() as int), now_ms)
}

/// The heartbeat of a client: none where the interval is zero or there is
/// nothing to send.
pub open spec fn heartbeat_of(ping_msg: Seq<char>, ping_interval: nat) -> Option<HeartbeatView> {
    if ping_interval > 0 && ping_msg.len() > 0 {
        Some(HeartbeatView { message: ping_msg, interval_ms: ping_interval })
    } else {
        None
    }
}

/// The client after an event, and what to do then.
///
/// A handshake that succeeds while connecting sets the connected flag and
/// asks for the subscriptions; one that fails clears the flag. Once the
/// subscriptions are out, reading begins. A failure to send or to read, and
/// the closing of the socket, clear the flag and leave the client
/// disconnected. An event that does not fit the state changes nothing.
pub open spec fn after_event(c: ClientView, event: ConnectionEvent, now_ms: int) -> (
    ClientView,
    ActionView,
) {
    match (c.state, event) {
        (ConnectionState::Connecting, ConnectionEvent::Opened) => (
            ClientView { connected: true, state: ConnectionState::Subscribed, ..c },
            ActionView::Subscribe {
                frames: subscribe_frames(c.kind, c.subscriptions, now_ms),
                heartbeat: heartbeat_of(c.ping_msg, c.ping_interval),
            },
        ),
        (ConnectionState::Connecting, ConnectionEvent::OpenFailed) => (
            ClientView { connected: false, state: ConnectionState::Disconnected, ..c },
            ActionView::Idle,
        ),
        (ConnectionState::Subscribed, ConnectionEvent::SubscriptionsSent) => (
            ClientView { state: ConnectionState::Reading, ..c },
            ActionView::Read,
        ),
        (ConnectionState::Subscribed, ConnectionEvent::SendFailed) => (
            ClientView { connected: false, state: ConnectionState::Disconnected, ..c },
            ActionView::Idle,
        ),
        (ConnectionState::Subscribed, ConnectionEvent::Closed) => (
            ClientView { connected: false, state: ConnectionState::Disconnected, ..c },
            ActionView::Idle,
        ),
        (ConnectionState::Reading, ConnectionEvent::ReadFailed) => (
            ClientView { connected: false, state: ConnectionState::Disconnected, ..c },
            ActionView::Idle,
        ),
        (ConnectionState::Reading, ConnectionEvent::Closed) => (
            ClientView { connected: false, state: ConnectionState::Disconnected, ..c },
            ActionView::Idle,
        ),
        _ => (c, ActionView::Idle),
    }
}

/// Whether the connected flag agrees with the state: it is set while the
/// client is subscribed or reading, and clear while it is disconnected.
pub open spec fn flag_agrees(c: ClientView) -> bool {
    match c.state {
        ConnectionState::Disconnected => !c.connected,
        ConnectionState::Connecting => true,
        ConnectionState::Subscribed => c.connected,
        ConnectionState::Reading => c.connected,
    }
}

/// An event keeps the connected flag in agreement with the state.
pub proof fn lemma_event_keeps_flag(c: ClientView, event: ConnectionEvent, now_ms: int)
    requires
        flag_agrees(c),
    ensures
        flag_agrees(after_event(c, event, now_ms).0),
{
}

/// Reading never begins before the subscriptions are out: the client comes
/// to read only from the subscribed state, and only by the event that says
/// that they were sent.
pub proof fn lemma_read_follows_subscribe(c: ClientView, event: ConnectionEvent, now_ms: int)
    requires
        after_event(c, event, now_ms).1 is Read,
    ensures
        c.state == ConnectionState::Subscribed,
        event == ConnectionEvent::SubscriptionsSent,
        after_event(c, event, now_ms).0.state == ConnectionState::Reading,
{
}

/// The client of one exchange.
pub struct ExchangeClient {
    exchange: Exchange,
    kind: ExchangeEnum,
    ws_url: String,
    sub_symbol_set: Vec<String>,
    store: TickerStore,
    connected: bool,
    state: ConnectionState,
    symbol_map: TextMap<String>,
    ping_msg: String,
    ping_interval: u64,
}

impl View for ExchangeClient {
    type V = ClientView;

    closed spec fn view(&self) -> ClientView {
        ClientView {
            kind: self.kind,
            name: self.exchange.name@,
            ws_url: self.ws_url@,
            subscriptions: string_views(self.sub_symbol_set@),
            tickers: ticker_store_entries(self.store),
            connected: self.connected,
            state: self.state,
            symbol_map: symbol_views(self.symbol_map@),
            ping_msg: self.ping_msg@,
            ping_interval: self.ping_interval as nat,
        }
    }
}

/// Merging keeps a list free of duplicates.
pub proof fn lemma_merged_no_duplicates(current: Seq<Seq<char>>, more: Seq<Seq<char>>)
    requires
        no_duplicates(current),
    ensures
        no_duplicates(merged(current, more)),
        forall|s: Seq<char>| current.contains(s) ==> merged(current, more).contains(s),
        forall|s: Seq<char>| more.contains(s) ==> merged(current, more).contains(s),
    decreases more.len(),
{
    if more.len() > 0 {
        let front = merged(current, more.drop_last());
        lemma_merged_no_duplicates(current, more.drop_last());
        let all = merged(current, more);
        assert forall|s: Seq<char>| more.contains(s) implies all.contains(s) by {
            let i = choose|i: int| 0 <= i < more.len() && more[i] == s;
            if i == more.len() - 1 {
                if front.contains(s) {
                } else {
                    assert(all[all.len() - 1] == s);
                }
            } else {
                assert(more.drop_last()[i] == s);
                assert(more.drop_last().contains(s));
                assert(front.contains(s));
                let j = choose|j: int| 0 <= j < front.len() && front[j] == s;
                assert(all[j] == s);
            }
        }
        assert forall|s: Seq<char>| current.contains(s) implies all.contains(s) by {
            assert(front.contains(s));
            let j = choose|j: int| 0 <= j < front.len() && front[j] == s;
            assert(all[j] == s);
        }
    }
}

/// Merging instruments that are all there already changes nothing.
pub proof fn lemma_merged_known(current: Seq<Seq<char>>, more: Seq<Seq<char>>)
    requires
        forall|s: Seq<char>| more.contains(s) ==> current.contains(s),
    ensures
        merged(current, more) == current,
    decreases more.len(),
{
    if more.len() > 0 {
        let front = more.drop_last();
        assert forall|s: Seq<char>| front.contains(s) implies current.contains(s) by {
            let i = choose|i: int| 0 <= i < front.len() && front[i] == s;
            assert(more[i] == s);
            assert(more.contains(s));
        }
        lemma_merged_known(current, front);
        assert(more[more.len() - 1] == more.last());
        assert(more.contains(more.last()));
    }
}

/// Connecting again with the same instruments leaves the subscriptions as
/// they are: merging a list a second time changes nothing.
pub proof fn lemma_merged_twice(current: Seq<Seq<char>>, more: Seq<Seq<char>>)
    requires
        no_duplicates(current),
    ensures
        merged(merged(current, more), more) == merged(current, more),
{
    lemma_merged_no_duplicates(current, more);
    lemma_merged_known(merged(current, more), more);
}

/// The runs of a subscription list hold between one and `SUBSCRIBE_CHUNK`
/// instruments each, and one after the other they are the list.
pub proof fn lemma_chunks(list: Seq<Seq<char>>, n: int)
    requires
        0 <= n <= list.len(),
        n == list.len() || n % (SUBSCRIBE_CHUNK as int) == 0,
    ensures
        forall|i: int|
            0 <= i < chunks(list, n).len() ==> 0 < (#[trigger] chunks(list, n)[i]).len()
                <= SUBSCRIBE_CHUNK,
        chunks(list, n).flatten_alt() == list.take(n),
    decreases n,
{
    if n > 0 {
        let start = ((n - 1) / (SUBSCRIBE_CHUNK as int)) * (SUBSCRIBE_CHUNK as int);
        lemma_chunks(list, start);
        let front = chunks(list, start);
        let all = chunks(list, n);
        assert(all.drop_last() =~= front);
        assert(all.last() == list.subrange(start, n));
        assert(list.take(start) + list.subrange(start, n) =~= list.take(n));
        assert forall|i: int| 0 <= i < all.len() implies 0 < (#[trigger] all[i]).len()
            <= SUBSCRIBE_CHUNK by {
            if i < front.len() {
                assert(all[i] == front[i]);
            }
        }
    } else {
        assert(list.take(0) =~= Seq::<Seq<char>>::empty());
    }
}

impl ExchangeClient {
    /// Whether the client is well formed: no instrument is subscribed twice,
    /// and the connected flag agrees with the state.
    pub closed spec fn wf(&self) -> bool {
        &&& self.symbol_map.wf()
        &&& no_duplicates(string_views(self.sub_symbol_set@))
        &&& flag_agrees(self@)
    }

    /// In a well-formed client no instrument is subscribed twice and the
    /// connected flag agrees with the state.
    pub proof fn lemma_wf(self)
        requires
            self.wf(),
        ensures
            no_duplicates(self@.subscriptions),
            flag_agrees(self@),
    {
    }

    /// A client that is not connected and has no subscriptions and no
    /// tickers.
    pub fn new(
        kind: ExchangeEnum,
        exchange: Exchange,
        ws_url: String,
        symbol_map: TextMap<String>,
        ping_msg: String,
        ping_interval: u64,
    ) -> (r: ExchangeClient)
        requires
            symbol_map.wf(),
        ensures
            r.wf(),
            r@ == (ClientView {
                kind,
                name: exchange.name@,
                ws_url: ws_url@,
                subscriptions: Seq::empty(),
                tickers: no_tickers(),
                connected: false,
                state: ConnectionState::Disconnected,
                symbol_map: symbol_views(symbol_map@),
                ping_msg: ping_msg@,
                ping_interval: ping_interval as nat,
            }),
    {
        let r = ExchangeClient {
            exchange,
            kind,
            ws_url,
            sub_symbol_set: Vec::new(),
            store: ticker_store_new(),
            connected: false,
            state: ConnectionState::Disconnected,
            symbol_map,
            ping_msg,
            ping_interval,
        };
        proof {
            assert(r@.subscriptions =~= Seq::<Seq<char>>::empty());
        }
        r
    }

    /// The exchange.
    pub fn kind(&self) -> (r: ExchangeEnum)
        ensures
            r == self@.kind,
    {
        self.kind
    }

    /// The name of the exchange.
    pub fn exchange_name(&self) -> (r: &str)
        ensures
            r@ == self@.name,
    {
        self.exchange.name.as_str()
    }

    /// The address to connect to.
    pub fn ws_url(&self) -> (r: &str)
        ensures
            r@ == self@.ws_url,
    {
        self.ws_url.as_str()
    }

    /// The heartbeat message.
    pub fn ping_msg(&self) -> (r: &str)
        ensures
            r@ == self@.ping_msg,
    {
        self.ping_msg.as_str()
    }

    /// The time between heartbeats, in milliseconds.
    pub fn ping_interval(&self) -> (r: u64)
        ensures
            r == self@.ping_interval,
    {
        self.ping_interval
    }

    /// Whether the connected flag is set.
    pub fn is_connected(&self) -> (r: bool)
        ensures
            r == self@.connected,
    {
        self.connected
    }

    /// Where the connection stands.
    pub fn state(&self) -> (r: ConnectionState)
        ensures
            r == self@.state,
    {
        self.state
    }

    /// The subscribed instruments, in the order in which they were first
    /// asked for.
    pub fn subscriptions(&self) -> (r: &Vec<String>)
        ensures
            string_views(r@) == self@.subscriptions,
    {
        &self.sub_symbol_set
    }

    /// The latest ticker of a canonical symbol.
    pub fn get_ticker(&self, symbol: &str) -> (r: Option<TickerData>)
        ensures
            match r {
                Some(t) => self@.tickers.contains_key(symbol@) && self@.tickers[symbol@] == t@,
                None => !self@.tickers.contains_key(symbol@),
            },
    {
        ticker_store_get(&self.store, symbol)
    }

    /// The canonical name of an instrument.
    pub fn canonical(&self, native: &str) -> (r: String)
        requires
            self.wf(),
        ensures
            r@ == canonical_symbol(self@.symbol_map, native@),
    {
        match self.symbol_map.get(native) {
            Some(name) => name.clone(),
            None => native.to_owned(),
        }
    }

    /// The subscribe message for a list of instruments, made at `now_ms`;
    /// `None` for an empty list.
    pub fn build_sub_msg_at(&self, symbols: &Vec<String>, now_ms: i64) -> (r: Option<String>)
        ensures
            match r {
                Some(msg) => subscribe_message(self@.kind, string_views(symbols@), now_ms as int)
                    == Some(msg@),
                None => subscribe_message(self@.kind, string_views(symbols@), now_ms as int)
                    is None,
            },
    {
        match self.kind {
            ExchangeEnum::Binance => binance::build_sub_msg(symbols, now_ms),
            ExchangeEnum::Bitget => bitget::build_sub_msg(symbols),
            ExchangeEnum::Okex => bitget::build_sub_msg(symbols),
        }
    }

    /// The subscribe message for a list of instruments, made now on the wall
    /// clock.
    pub fn build_sub_msg(&self, symbols: &Vec<String>) -> (r: Option<String>)
        ensures
            r is Some <==> symbols@.len() > 0,
            exists|now_ms: int|
                match r {
                    Some(msg) => #[trigger] subscribe_message(
                        self@.kind,
                        string_views(symbols@),
                        now_ms,
                    ) == Some(msg@),
                    None => subscribe_message(self@.kind, string_views(symbols@), now_ms)
                        is None,
                },
    {
        let now = now_millis();
        let r = self.build_sub_msg_at(symbols, now);
        proof {
            let witness = now as int;
            assert(match r {
                Some(msg) => subscribe_message(self@.kind, string_views(symbols@), witness)
                    == Some(msg@),
                None => subscribe_message(self@.kind, string_views(symbols@), witness) is None,
            });
        }
        r
    }

    /// Whether an instrument is subscribed.
    pub fn is_subscribed(&self, symbol: &str) -> (r: bool)
        ensures
            r == self@.subscriptions.contains(symbol@),
    {
        let wanted = symbol.to_owned();
        let ghost subs = string_views(self.sub_symbol_set@);
        let mut i: usize = 0;
        while i < self.sub_symbol_set.len()
            invariant
                i <= self.sub_symbol_set@.len(),
                wanted@ == symbol@,
                subs == string_views(self.sub_symbol_set@),
                forall|j: int| 0 <= j < i ==> subs[j] != symbol@,
            decreases self.sub_symbol_set@.len() - i,
        {
            if self.sub_symbol_set[i] == wanted {
                proof {
                    assert(subs[i as int] == symbol@);
                }
                return true;
            }
            i = i + 1;
        }
        false
    }

    /// Merges instruments into the subscription list.
    fn merge_subscriptions(&mut self, more: &Vec<String>)
        requires
            old(self).wf(),
        ensures
            final(self).wf(),
            final(self)@ == (ClientView {
                subscriptions: merged(old(self)@.subscriptions, string_views(more@)),
                ..old(self)@
            }),
    {
        let ghost extra = string_views(more@);
        let ghost subs0 = self@.subscriptions;
        let mut i: usize = 0;
        proof {
            assert(extra.take(0) =~= Seq::<Seq<char>>::empty());
        }
        while i < more.len()
            invariant
                self.wf(),
                i <= more@.len(),
                extra == string_views(more@),
                subs0 == old(self)@.subscriptions,
                self@ == (ClientView {
                    subscriptions: merged(subs0, extra.take(i as int)),
                    ..old(self)@
                }),
            decreases more@.len() - i,
        {
            proof {
                assert(extra.take(i + 1).drop_last() =~= extra.take(i as int));
                assert(extra.take(i + 1).last() == more@[i as int]@);
            }
            if !self.is_subscribed(more[i].as_str()) {
                let ghost before = string_views(self.sub_symbol_set@);
                self.sub_symbol_set.push(more[i].clone());
                proof {
                    let after = string_views(self.sub_symbol_set@);
                    assert(after =~= before.push(more@[i as int]@));
                    assert forall|a: int, b: int| 0 <= a < b < after.len() implies after[a]
                        != after[b] by {
                        if b == after.len() - 1 {
                            assert(before[a] == after[a]);
                        } else {
                            assert(before[a] == after[a]);
                            assert(before[b] == after[b]);
                        }
                    }
                }
            }
            i = i + 1;
        }
        proof {
            assert(extra.take(i as int) =~= extra);
        }
    }

    /// Begins a connection attempt: the instruments, if any are given, are
    /// merged into the subscription list, and the address to open comes
    /// back. The connected flag stays as it is until the attempt ends.
    pub fn begin_connect(&mut self, symbols: Option<Vec<String>>) -> (url: String)
        requires
            old(self).wf(),
        ensures
            final(self).wf(),
            url@ == old(self)@.ws_url,
            final(self)@ == (ClientView {
                subscriptions: match symbols {
                    Some(more) => merged(old(self)@.subscriptions, string_views(more@)),
                    None => old(self)@.subscriptions,
                },
                state: ConnectionState::Connecting,
                ..old(self)@
            }),
    {
        match symbols {
            Some(more) => {
                self.merge_subscriptions(&more);
            },
            None => {},
        }
        self.state = ConnectionState::Connecting;
        self.ws_url.clone()
    }

    /// The subscribe messages for the subscription list, made at `now_ms`.
    pub fn subscription_frames(&self, now_ms: i64) -> (frames: Vec<String>)
        ensures
            string_views(frames@) == subscribe_frames(
                self@.kind,
                self@.subscriptions,
                now_ms as int,
            ),
    {
        let mut frames: Vec<String> = Vec::new();
        let total = self.sub_symbol_set.len();
        let ghost subs = string_views(self.sub_symbol_set@);
        let mut start: usize = 0;
        proof {
            assert(string_views(frames@) =~= Seq::<Seq<char>>::empty());
        }
        while start < total
            invariant
                total == self.sub_symbol_set@.len(),
                subs == string_views(self.sub_symbol_set@),
                start <= total,
                start == total || start % SUBSCRIBE_CHUNK == 0,
                string_views(frames@) == messages_of(
                    self@.kind,
                    chunks(subs, start as int),
                    now_ms as int,
                ),
            decreases total - start,
        {
            let end = if total - start > SUBSCRIBE_CHUNK {
                start + SUBSCRIBE_CHUNK
            } else {
                total
            };
            let mut run: Vec<String> = Vec::new();
            let mut j: usize = start;
            proof {
                assert(string_views(run@) =~= subs.subrange(start as int, start as int));
            }
            while j < end
                invariant
                    start <= j <= end <= total,
                    total == self.sub_symbol_set@.len(),
                    subs == string_views(self.sub_symbol_set@),
                    string_views(run@) == subs.subrange(start as int, j as int),
                decreases end - j,
            {
                let ghost before = string_views(run@);
                run.push(self.sub_symbol_set[j].clone());
                proof {
                    assert(string_views(run@) =~= before.push(subs[j as int]));
                    assert(before.push(subs[j as int]) =~= subs.subrange(start as int, j + 1));
                }
                j = j + 1;
            }
            let ghost runs = chunks(subs, start as int);
            proof {
                assert(((end - 1) / (SUBSCRIBE_CHUNK as int)) * (SUBSCRIBE_CHUNK as int) == start);
                assert(chunks(subs, end as int) == runs.push(
                    subs.subrange(start as int, end as int),
                ));
                assert(chunks(subs, end as int).drop_last() =~= runs);
            }
            match self.build_sub_msg_at(&run, now_ms) {
                Some(msg) => {
                    let ghost before = string_views(frames@);
                    frames.push(msg);
                    proof {
                        assert(string_views(frames@) =~= before.push(msg@));
                    }
                },
                None => {},
            }
            start = end;
        }
        frames
    }

    /// The heartbeat of the client.
    pub fn heartbeat(&self) -> (r: Option<Heartbeat>)
        ensures
            match r {
                Some(h) => heartbeat_of(self@.ping_msg, self@.ping_interval) == Some(
                    HeartbeatView { message: h.message@, interval_ms: h.interval_ms as nat },
                ),
                None => heartbeat_of(self@.ping_msg, self@.ping_interval) is None,
            },
    {
        if self.ping_interval > 0 && !self.ping_msg.as_str().is_empty() {
            Some(Heartbeat { message: self.ping_msg.clone(), interval_ms: self.ping_interval })
        } else {
            None
        }
    }

    /// Takes an event of the connection in and says what to do next.
    pub fn on_event(&mut self, event: ConnectionEvent, now_ms: i64) -> (action: ConnectionAction)
        requires
            old(self).wf(),
        ensures
            final(self).wf(),
            (final(self)@, action@) == after_event(old(self)@, event, now_ms as int),
    {
        match (self.state, event) {
            (ConnectionState::Connecting, ConnectionEvent::Opened) => {
                self.connected = true;
                self.state = ConnectionState::Subscribed;
                let frames = self.subscription_frames(now_ms);
                let heartbeat = self.heartbeat();
                ConnectionAction::Subscribe { frames, heartbeat }
            },
            (ConnectionState::Connecting, ConnectionEvent::OpenFailed) => {
                self.connected = false;
                self.state = ConnectionState::Disconnected;
                ConnectionAction::Idle
            },
            (ConnectionState::Subscribed, ConnectionEvent::SubscriptionsSent) => {
                self.state = ConnectionState::Reading;
                ConnectionAction::Read
            },
            (ConnectionState::Subscribed, ConnectionEvent::SendFailed) => {
                self.connected = false;
                self.state = ConnectionState::Disconnected;
                ConnectionAction::Idle
            },
            (ConnectionState::Subscribed, ConnectionEvent::Closed) => {
                self.connected = false;
                self.state = ConnectionState::Disconnected;
                ConnectionAction::Idle
            },
            (ConnectionState::Reading, ConnectionEvent::ReadFailed) => {
                self.connected = false;
                self.state = ConnectionState::Disconnected;
                ConnectionAction::Idle
            },
            (ConnectionState::Reading, ConnectionEvent::Closed) => {
                self.connected = false;
                self.state = ConnectionState::Disconnected;
                ConnectionAction::Idle
            },
            _ => ConnectionAction::Idle,
        }
    }

    /// Reads a text frame by the framing of the exchange.
    pub fn read_frame(&self, text: &str) -> (r: Frame)
        ensures
            r@ == frame_of(self@.kind, text@),
    {
        match self.kind {
            ExchangeEnum::Binance => binance::read_frame(text),
            ExchangeEnum::Bitget => bitget::read_frame(text),
            ExchangeEnum::Okex => bitget::read_frame(text),
        }
    }

    /// Takes one price report in, its price read as `price`: the ticker goes
    /// under the canonical name of the instrument, and where there is a
    /// price a trade goes into the cache, as inserted at `now`.
    pub fn record_tick(
        &mut self,
        tick: &Tick,
        price: Option<Decimal>,
        trades: &mut TradeRepository,
        now: u64,
    )
        requires
            old(self).wf(),
        ensures
            final(self).wf(),
            final(self)@ == (ClientView {
                tickers: tickers_after(old(self)@.tickers, old(self)@.symbol_map, tick@),
                ..old(self)@
            }),
            final(trades)@.ttl_ms == old(trades)@.ttl_ms,
            final(trades)@.entries == trades_after(
                old(trades)@.entries,
                old(self)@.name,
                old(self)@.symbol_map,
                tick@,
                match price {
                    Some(p) => Some(p@),
                    None => None,
                },
                now as nat,
            ),
    {
        let symbol = self.canonical(tick.inst_id.as_str());
        let ticker = TickerData {
            last_pr: tick.last_pr.clone(),
            ts: tick.ts.clone(),
            inst_id: symbol.clone(),
        };
        ticker_store_insert(&mut self.store, symbol.clone(), ticker);
        match price {
            Some(p) => {
                let trade = Trade {
                    exchange: self.exchange.name.clone(),
                    symbol,
                    price: p,
                    timestamp: tick.timestamp,
                };
                trades.save_trade_at(trade, now);
            },
            None => {},
        }
    }

    /// Takes a text frame in, with trades as inserted at `now`: every price
    /// report of the frame is recorded, in order, and the reply that the
    /// frame asks for comes back. A frame that cannot be read changes
    /// nothing.
    pub fn handle_message_at(&mut self, text: &str, trades: &mut TradeRepository, now: u64) -> (r:
        Option<String>)
        requires
            old(self).wf(),
        ensures
            final(self).wf(),
            final(trades)@.ttl_ms == old(trades)@.ttl_ms,
            match r {
                Some(reply) => frame_of(old(self)@.kind, text@).reply == Some(reply@),
                None => frame_of(old(self)@.kind, text@).reply is None,
            },
            ({
                let books = books_after(
                    Books { tickers: old(self)@.tickers, trades: old(trades)@.entries },
                    old(self)@.name,
                    old(self)@.symbol_map,
                    frame_of(old(self)@.kind, text@).ticks,
                    now as nat,
                );
                &&& final(self)@ == (ClientView { tickers: books.tickers, ..old(self)@ })
                &&& final(trades)@.entries == books.trades
            }),
    {
        let frame = self.read_frame(text);
        let ghost ticks = tick_views(frame.ticks@);
        let ghost start = Books { tickers: self@.tickers, trades: trades@.entries };
        let ghost name = self@.name;
        let ghost map = self@.symbol_map;
        let mut i: usize = 0;
        proof {
            assert(ticks.take(0) =~= Seq::<TickView>::empty());
            assert(self@ == (ClientView { tickers: start.tickers, ..old(self)@ }));
        }
        while i < frame.ticks.len()
            invariant
                self.wf(),
                i <= frame.ticks@.len(),
                ticks == tick_views(frame.ticks@),
                name == old(self)@.name,
                map == old(self)@.symbol_map,
                trades@.ttl_ms == old(trades)@.ttl_ms,
                self@ == (ClientView {
                    tickers: books_after(start, name, map, ticks.take(i as int), now as nat).tickers,
                    ..old(self)@
                }),
                trades@.entries == books_after(
                    start,
                    name,
                    map,
                    ticks.take(i as int),
                    now as nat,
                ).trades,
            decreases frame.ticks@.len() - i,
        {
            proof {
                assert(ticks.take(i + 1).drop_last() =~= ticks.take(i as int));
                assert(ticks.take(i + 1).last() == frame.ticks@[i as int]@);
            }
            let price = Decimal::parse(frame.ticks[i].last_pr.as_str());
            self.record_tick(&frame.ticks[i], price, trades, now);
            i = i + 1;
        }
        proof {
            assert(ticks.take(i as int) =~= ticks);
        }
        frame.reply
    }

    /// Takes a text frame in, with trades as inserted now.
    pub fn handle_message(&mut self, text: &str, trades: &mut TradeRepository) -> (r: Option<
        String,
    >)
        requires
            old(self).wf(),
        ensures
            final(self).wf(),
            final(trades)@.ttl_ms == old(trades)@.ttl_ms,
            match r {
                Some(reply) => frame_of(old(self)@.kind, text@).reply == Some(reply@),
                None => frame_of(old(self)@.kind, text@).reply is None,
            },
            exists|now: nat|
                {
                    let books = #[trigger] books_after(
                        Books { tickers: old(self)@.tickers, trades: old(trades)@.entries },
                        old(self)@.name,
                        old(self)@.symbol_map,
                        frame_of(old(self)@.kind, text@).ticks,
                        now,
                    );
                    &&& final(self)@ == (ClientView { tickers: books.tickers, ..old(self)@ })
                    &&& final(trades)@.entries == books.trades
                },
    {
        let now = trades.now();
        let r = self.handle_message_at(text, trades, now);
        proof {
            let books = books_after(
                Books { tickers: old(self)@.tickers, trades: old(trades)@.entries },
                old(self)@.name,
                old(self)@.symbol_map,
                frame_of(old(self)@.kind, text@).ticks,
                now as nat,
            );
            assert(self@ == (ClientView { tickers: books.tickers, ..old(self)@ }));
        }
        r
    }
}

} // verus!
