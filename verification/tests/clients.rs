use index_pipeline::client::{ConnectionAction, ConnectionEvent, ConnectionState, ExchangeClient};
use index_pipeline::decimal::Decimal;
use index_pipeline::exchange::ExchangeEnum;
use index_pipeline::manager::{
    native_names_of, parse_symbol_ids, symbol_map_from, ExchangeFactory, ExchangeInitializer,
    ExchangeManager, Symbol,
};
use index_pipeline::text_map::TextMap;
use index_pipeline::ticker::Tick;
use index_pipeline::trade::{entry_is_alive, Trade, TradeEntry, TradeRepository};
use index_pipeline::{binance, bitget};

fn dec(mantissa: i128, scale: u32) -> Decimal {
    Decimal::try_new(mantissa, scale).unwrap()
}

fn symbol_map(pairs: &[(&str, &str)]) -> TextMap<String> {
    let mut m = TextMap::new();
    for (native, canonical) in pairs {
        m.insert(native, canonical.to_string());
    }
    m
}

fn client(kind: ExchangeEnum, pairs: &[(&str, &str)]) -> ExchangeClient {
    ExchangeFactory::create(kind, symbol_map(pairs))
}

fn names(list: &[&str]) -> Vec<String> {
    list.iter().map(|s| s.to_string()).collect()
}

fn trade(exchange: &str, symbol: &str, price: Decimal, timestamp: i64) -> Trade {
    Trade { exchange: exchange.to_string(), symbol: symbol.to_string(), price, timestamp }
}

const MINI_TICKER: &str = "{\"e\":\"24hrMiniTicker\",\"E\":1700000000000,\"s\":\"BTCUSDT\",\"c\":\"60000.5\",\"o\":\"1\"}";

#[test]
fn trade_cache_overwrites_and_reads() {
    let mut repo = TradeRepository::new(20);
    assert!(repo.get_trade("Binance", "BTC").is_none());
    repo.save_trade_at(trade("Binance", "BTC", dec(1, 0), 10), 0);
    repo.save_trade_at(trade("Bitget", "BTC", dec(2, 0), 11), 0);
    repo.save_trade_at(trade("Binance", "BTC", dec(3, 0), 12), 5);
    let t = repo.get_trade("Binance", "BTC").unwrap();
    assert_eq!((t.price.mantissa(), t.timestamp), (3, 12));
    assert_eq!(t.exchange, "Binance");
    assert_eq!(t.symbol, "BTC");
    assert_eq!(repo.get_trade("Bitget", "BTC").unwrap().price.mantissa(), 2);
    assert!(repo.get_trade("Binance", "ETH").is_none());
    assert!(repo.get_trade("BTC", "Binance").is_none());
}

#[test]
fn trade_cache_ttl() {
    let ttl = 20 * 60_000u64;
    let sweep_period = 60_000u64;
    let t0 = 1_000u64;
    let mut repo = TradeRepository::new(20);
    repo.save_trade_at(trade("Binance", "OLD", dec(1, 0), 0), t0);
    repo.save_trade_at(trade("Binance", "NEW", dec(2, 0), 0), t0 + 1);
    repo.sweep_at(t0 + ttl - 1);
    assert!(repo.get_trade("Binance", "OLD").is_some());
    repo.sweep_at(t0 + ttl);
    assert!(repo.get_trade("Binance", "OLD").is_none());
    assert!(repo.get_trade("Binance", "NEW").is_some());
    repo.sweep_at(t0 + ttl + sweep_period);
    assert!(repo.get_trade("Binance", "NEW").is_none());
}

#[test]
fn trade_cache_sweep_spares_what_was_saved_again() {
    let mut repo = TradeRepository::new(1);
    repo.save_trade_at(trade("Binance", "BTC", dec(1, 0), 0), 0);
    repo.save_trade_at(trade("Binance", "BTC", dec(2, 0), 0), 50_000);
    repo.sweep_at(60_000);
    assert_eq!(repo.get_trade("Binance", "BTC").unwrap().price.mantissa(), 2);
    repo.sweep_at(110_000);
    assert!(repo.get_trade("Binance", "BTC").is_none());
}

#[test]
fn trade_cache_with_no_time_to_live_keeps_nothing() {
    let mut repo = TradeRepository::new(0);
    repo.save_trade_at(trade("Binance", "BTC", dec(1, 0), 0), 7);
    assert!(repo.get_trade("Binance", "BTC").is_some());
    repo.sweep_at(7);
    assert!(repo.get_trade("Binance", "BTC").is_none());
}

#[test]
fn trade_cache_by_its_own_clock() {
    let mut repo = TradeRepository::new(20);
    let before = repo.now();
    repo.save_trade(trade("Binance", "BTC", dec(1, 0), 0));
    repo.sweep();
    assert!(repo.get_trade("Binance", "BTC").is_some());
    assert!(repo.now() >= before);
    assert!(repo.now() < 60_000);
}

#[test]
fn entry_age_is_measured_against_the_time_to_live() {
    let entry = TradeEntry { trade: trade("E", "S", dec(1, 0), 0), inserted_at: 100 };
    assert!(entry_is_alive(&entry, 100, 1));
    assert!(entry_is_alive(&entry, 149, 50));
    assert!(!entry_is_alive(&entry, 150, 50));
    assert!(!entry_is_alive(&entry, 100, 0));
    assert!(entry_is_alive(&entry, 50, 1));
    assert!(entry_is_alive(&entry, u64::MAX, u128::MAX));
}

#[test]
fn binance_tick_updates_ticker_and_trade() {
    let mut c = client(ExchangeEnum::Binance, &[("BTCUSDT", "BTC")]);
    let mut trades = TradeRepository::new(20);
    let reply = c.handle_message_at(MINI_TICKER, &mut trades, 3);
    assert!(reply.is_none());
    let ticker = c.get_ticker("BTC").unwrap();
    assert_eq!(ticker.last_pr, "60000.5");
    assert_eq!(ticker.inst_id, "BTC");
    assert_eq!(ticker.ts, "1700000000000");
    assert!(c.get_ticker("BTCUSDT").is_none());
    let t = trades.get_trade("Binance", "BTC").unwrap();
    assert_eq!((t.price.mantissa(), t.price.scale()), (600005, 1));
    assert_eq!(t.timestamp, 1_700_000_000_000);
    assert_eq!(t.exchange, "Binance");
    assert_eq!(t.symbol, "BTC");
}

#[test]
fn unknown_instrument_keeps_its_own_name() {
    let mut c = client(ExchangeEnum::Binance, &[]);
    let mut trades = TradeRepository::new(20);
    c.handle_message_at(MINI_TICKER, &mut trades, 3);
    assert_eq!(c.get_ticker("BTCUSDT").unwrap().inst_id, "BTCUSDT");
    assert!(trades.get_trade("Binance", "BTCUSDT").is_some());
    assert_eq!(c.canonical("ETHUSDT"), "ETHUSDT");
}

#[test]
fn binance_frame_without_instrument_or_price_is_dropped() {
    for text in [
        "{\"e\":\"24hrMiniTicker\",\"E\":1}",
        "\"MiniTicker\"",
        "{\"e\":\"24hrMiniTicker\",\"s\":7,\"c\":\"1\"}",
        "{\"e\":\"24hrMiniTicker\",\"s\":\"BTCUSDT\",\"c\":1.5}",
        "{\"e\":\"24hrMiniTicker\",\"s\":\"BTCUSDT\"}",
        "{\"e\":\"24hrMiniTicker\",\"c\":\"1\"}",
        "[\"MiniTicker\",{\"s\":\"BTCUSDT\",\"c\":\"1\"}]",
        "{\"e\":\"24hrMiniTicker\",\"s\":\"BTCUSDT\",\"c\":",
        "MiniTicker ping",
    ] {
        let frame = binance::read_frame(text);
        assert!(frame.reply.is_none());
        assert!(frame.ticks.is_empty());

        let mut c = client(ExchangeEnum::Binance, &[("BTCUSDT", "BTC"), ("", "EMPTY")]);
        let mut trades = TradeRepository::new(20);
        c.handle_message_at(MINI_TICKER, &mut trades, 3);
        assert!(c.handle_message_at(text, &mut trades, 4).is_none());
        assert_eq!(c.get_ticker("BTC").unwrap().last_pr, "60000.5");
        assert_eq!(trades.get_trade("Binance", "BTC").unwrap().price.mantissa(), 600005);
        for name in ["", "EMPTY", "BTCUSDT"] {
            assert!(c.get_ticker(name).is_none());
            assert!(trades.get_trade("Binance", name).is_none());
        }
    }
}

#[test]
fn binance_frame_without_time_counts_from_zero() {
    let frame = binance::read_frame("{\"e\":\"24hrMiniTicker\",\"s\":\"X\",\"c\":\"2\",\"E\":\"x\"}");
    assert_eq!(frame.ticks.len(), 1);
    assert_eq!(frame.ticks[0].inst_id, "X");
    assert_eq!(frame.ticks[0].last_pr, "2");
    assert_eq!(frame.ticks[0].ts, "0");
    assert_eq!(frame.ticks[0].timestamp, 0);
}

#[test]
fn price_that_is_no_number_leaves_a_ticker_and_no_trade() {
    let mut c = client(ExchangeEnum::Binance, &[]);
    let mut trades = TradeRepository::new(20);
    c.handle_message_at("{\"e\":\"24hrMiniTicker\",\"s\":\"X\",\"c\":\"n/a\"}", &mut trades, 0);
    assert_eq!(c.get_ticker("X").unwrap().last_pr, "n/a");
    assert!(trades.get_trade("Binance", "X").is_none());
}

#[test]
fn binance_ping_is_mirrored() {
    let mut c = client(ExchangeEnum::Binance, &[("BTCUSDT", "BTC")]);
    let mut trades = TradeRepository::new(20);
    let reply = c.handle_message_at("{\"ping\":1700000000000}", &mut trades, 0);
    assert_eq!(reply, Some("{\"pong\":1700000000000}".to_string()));
    let reply = c.handle_message_at("ping ping", &mut trades, 0);
    assert_eq!(reply, Some("pong pong".to_string()));
    assert!(c.handle_message_at("{\"result\":null,\"id\":1}", &mut trades, 0).is_none());
    assert!(c.get_ticker("BTC").is_none());
}

#[test]
fn malformed_frames_change_nothing() {
    let mut c = client(ExchangeEnum::Binance, &[("BTCUSDT", "BTC")]);
    let mut trades = TradeRepository::new(20);
    c.handle_message_at(MINI_TICKER, &mut trades, 3);
    let reply = c.handle_message_at("{\"e\":\"24hrMiniTicker\",\"s\":\"BTCUSDT\",\"c\":", &mut trades, 4);
    assert!(reply.is_none());
    assert_eq!(c.get_ticker("BTC").unwrap().last_pr, "60000.5");
    assert_eq!(trades.get_trade("Binance", "BTC").unwrap().price.mantissa(), 600005);
    let mut b = client(ExchangeEnum::Bitget, &[]);
    assert!(b.handle_message_at("ticker {oops", &mut trades, 4).is_none());
    assert!(b.handle_message_at("pong", &mut trades, 4).is_none());
    assert!(b.handle_message_at("{\"data\":[{\"instId\":\"A\",\"lastPr\":\"1\",\"ts\":\"2\"}]}", &mut trades, 4).is_none());
    assert!(b.get_ticker("A").is_none());
}

const BITGET_FRAME: &str = "{\"action\":\"snapshot\",\"arg\":{\"instType\":\"SPOT\",\"channel\":\"ticker\",\"instId\":\"BTCUSDT\"},\"data\":[{\"instId\":\"BTCUSDT\",\"lastPr\":\"60010\",\"ts\":\"1700000000001\"},{\"instId\":\"ETHUSDT\",\"lastPr\":\"oops\",\"ts\":\"later\"},{\"instId\":\"SKIP\",\"lastPr\":5,\"ts\":\"1\"},{\"instId\":\"BTCUSDT\",\"lastPr\":\"60011\",\"ts\":\"1700000000002\"}],\"ts\":1700000000003}";

#[test]
fn bitget_frame_gives_every_complete_item() {
    let frame = bitget::read_frame(BITGET_FRAME);
    assert!(frame.reply.is_none());
    let seen: Vec<(&str, &str, &str, i64)> = frame
        .ticks
        .iter()
        .map(|t| (t.inst_id.as_str(), t.last_pr.as_str(), t.ts.as_str(), t.timestamp))
        .collect();
    assert_eq!(
        seen,
        vec![
            ("BTCUSDT", "60010", "1700000000001", 1_700_000_000_001),
            ("ETHUSDT", "oops", "later", 0),
            ("BTCUSDT", "60011", "1700000000002", 1_700_000_000_002),
        ]
    );
}

#[test]
fn bitget_and_okex_share_the_framing() {
    for kind in [ExchangeEnum::Bitget, ExchangeEnum::Okex] {
        let mut c = client(kind, &[("BTCUSDT", "BTC")]);
        let mut trades = TradeRepository::new(20);
        assert!(c.handle_message_at(BITGET_FRAME, &mut trades, 1).is_none());
        let ticker = c.get_ticker("BTC").unwrap();
        assert_eq!(ticker.last_pr, "60011");
        assert_eq!(ticker.ts, "1700000000002");
        assert_eq!(c.get_ticker("ETHUSDT").unwrap().last_pr, "oops");
        assert!(c.get_ticker("SKIP").is_none());
        let t = trades.get_trade(kind.name(), "BTC").unwrap();
        assert_eq!(t.price.mantissa(), 60011);
        assert_eq!(t.timestamp, 1_700_000_000_002);
        assert!(trades.get_trade(kind.name(), "ETHUSDT").is_none());
    }
}

#[test]
fn handle_message_by_the_clock_of_the_cache() {
    let mut c = client(ExchangeEnum::Binance, &[]);
    let mut trades = TradeRepository::new(20);
    assert!(c.handle_message(MINI_TICKER, &mut trades).is_none());
    assert!(trades.get_trade("Binance", "BTCUSDT").is_some());
    trades.sweep();
    assert!(trades.get_trade("Binance", "BTCUSDT").is_some());
}

#[test]
fn record_tick_takes_the_price_as_given() {
    let mut c = client(ExchangeEnum::Bitget, &[("N", "C")]);
    let mut trades = TradeRepository::new(20);
    let tick = Tick {
        inst_id: "N".to_string(),
        last_pr: "text".to_string(),
        ts: "9".to_string(),
        timestamp: 9,
    };
    c.record_tick(&tick, None, &mut trades, 1);
    assert_eq!(c.get_ticker("C").unwrap().last_pr, "text");
    assert!(trades.get_trade("Bitget", "C").is_none());
    c.record_tick(&tick, Some(dec(77, 1)), &mut trades, 1);
    let t = trades.get_trade("Bitget", "C").unwrap();
    assert_eq!((t.price.mantissa(), t.price.scale(), t.timestamp), (77, 1, 9));
}

fn parsed(text: &str) -> serde_json::Value {
    serde_json::from_str(text).unwrap()
}

#[test]
fn binance_subscribe_message() {
    let msg = binance::build_sub_msg(&names(&["BTCUSDT", "EthUsdt"]), 1_700_000_000_000).unwrap();
    assert_eq!(
        msg,
        "{\"id\":1700000000000,\"method\":\"SUBSCRIBE\",\"params\":[\"btcusdt@miniTicker\",\"ethusdt@miniTicker\"]}"
    );
    let mut expected = serde_json::Map::new();
    expected.insert("method".to_string(), serde_json::Value::from("SUBSCRIBE"));
    expected.insert(
        "params".to_string(),
        serde_json::Value::from(vec!["btcusdt@miniTicker", "ethusdt@miniTicker"]),
    );
    expected.insert("id".to_string(), serde_json::Value::from(1_700_000_000_000i64));
    assert_eq!(parsed(&msg), serde_json::Value::Object(expected));
    assert!(binance::build_sub_msg(&Vec::new(), 1).is_none());
    let msg = binance::build_sub_msg(&names(&["A\"B"]), -5).unwrap();
    assert_eq!(parsed(&msg)["params"][0], serde_json::Value::from("a\"b@miniTicker"));
    assert_eq!(parsed(&msg)["id"], serde_json::Value::from(-5));
}

#[test]
fn bitget_subscribe_message() {
    let msg = bitget::build_sub_msg(&names(&["BTCUSDT", "ETHUSDT"])).unwrap();
    assert_eq!(
        msg,
        "{\"args\":[{\"channel\":\"ticker\",\"instId\":\"BTCUSDT\",\"instType\":\"SPOT\"},{\"channel\":\"ticker\",\"instId\":\"ETHUSDT\",\"instType\":\"SPOT\"}],\"op\":\"subscribe\"}"
    );
    let doc = parsed(&msg);
    assert_eq!(doc["op"], serde_json::Value::from("subscribe"));
    assert_eq!(doc["args"].as_array().unwrap().len(), 2);
    assert_eq!(doc["args"][1]["instId"], serde_json::Value::from("ETHUSDT"));
    assert_eq!(doc["args"][1]["instType"], serde_json::Value::from("SPOT"));
    assert_eq!(doc["args"][1]["channel"], serde_json::Value::from("ticker"));
    assert!(bitget::build_sub_msg(&Vec::new()).is_none());
}

#[test]
fn client_builds_by_its_exchange() {
    let list = names(&["BTCUSDT"]);
    let b = client(ExchangeEnum::Binance, &[]);
    assert_eq!(
        b.build_sub_msg_at(&list, 9).unwrap(),
        "{\"id\":9,\"method\":\"SUBSCRIBE\",\"params\":[\"btcusdt@miniTicker\"]}"
    );
    let msg = b.build_sub_msg(&list).unwrap();
    assert!(parsed(&msg)["id"].as_i64().unwrap() > 1_600_000_000_000);
    assert!(b.build_sub_msg(&Vec::new()).is_none());
    for kind in [ExchangeEnum::Bitget, ExchangeEnum::Okex] {
        let c = client(kind, &[]);
        assert_eq!(
            c.build_sub_msg_at(&list, 9).unwrap(),
            "{\"args\":[{\"channel\":\"ticker\",\"instId\":\"BTCUSDT\",\"instType\":\"SPOT\"}],\"op\":\"subscribe\"}"
        );
    }
}

#[test]
fn factory_defaults() {
    let b = client(ExchangeEnum::Binance, &[]);
    assert_eq!(b.kind(), ExchangeEnum::Binance);
    assert_eq!(b.exchange_name(), "Binance");
    assert_eq!(b.ws_url(), "wss://stream.binance.com:443/ws/btcusdt@miniTicker");
    assert_eq!(b.ping_msg(), "");
    assert_eq!(b.ping_interval(), 15_000);
    assert!(b.heartbeat().is_none());
    assert!(!b.is_connected());
    assert_eq!(b.state(), ConnectionState::Disconnected);
    let g = client(ExchangeEnum::Bitget, &[]);
    assert_eq!(g.exchange_name(), "Bitget");
    assert_eq!(g.ws_url(), "wss://ws.bitget.com/v2/ws/public");
    let h = g.heartbeat().unwrap();
    assert_eq!((h.message.as_str(), h.interval_ms), ("ping", 15_000));
    let o = client(ExchangeEnum::Okex, &[]);
    assert_eq!(o.exchange_name(), "Okex");
    assert_eq!(o.ping_msg(), "ping");
}

fn frames_of(action: ConnectionAction) -> (Vec<String>, bool) {
    match action {
        ConnectionAction::Subscribe { frames, heartbeat } => (frames, heartbeat.is_some()),
        _ => panic!("no subscriptions asked for"),
    }
}

#[test]
fn connection_goes_through_its_states() {
    let mut c = client(ExchangeEnum::Bitget, &[]);
    let url = c.begin_connect(Some(names(&["A", "B"])));
    assert_eq!(url, "wss://ws.bitget.com/v2/ws/public");
    assert_eq!(c.state(), ConnectionState::Connecting);
    assert!(!c.is_connected());
    let (frames, heartbeat) = frames_of(c.on_event(ConnectionEvent::Opened, 0));
    assert_eq!(frames.len(), 1);
    assert!(heartbeat);
    assert_eq!(c.state(), ConnectionState::Subscribed);
    assert!(c.is_connected());
    assert!(matches!(c.on_event(ConnectionEvent::SubscriptionsSent, 0), ConnectionAction::Read));
    assert_eq!(c.state(), ConnectionState::Reading);
    assert!(c.is_connected());
    assert!(matches!(c.on_event(ConnectionEvent::ReadFailed, 0), ConnectionAction::Idle));
    assert_eq!(c.state(), ConnectionState::Disconnected);
    assert!(!c.is_connected());
}

#[test]
fn failures_clear_the_connected_flag() {
    let mut c = client(ExchangeEnum::Bitget, &[]);
    c.begin_connect(None);
    assert!(matches!(c.on_event(ConnectionEvent::OpenFailed, 0), ConnectionAction::Idle));
    assert_eq!((c.state(), c.is_connected()), (ConnectionState::Disconnected, false));

    c.begin_connect(None);
    c.on_event(ConnectionEvent::Opened, 0);
    assert!(matches!(c.on_event(ConnectionEvent::SendFailed, 0), ConnectionAction::Idle));
    assert_eq!((c.state(), c.is_connected()), (ConnectionState::Disconnected, false));

    c.begin_connect(None);
    c.on_event(ConnectionEvent::Opened, 0);
    c.on_event(ConnectionEvent::SubscriptionsSent, 0);
    assert!(matches!(c.on_event(ConnectionEvent::Closed, 0), ConnectionAction::Idle));
    assert_eq!((c.state(), c.is_connected()), (ConnectionState::Disconnected, false));
}

#[test]
fn events_that_do_not_fit_are_ignored() {
    let mut c = client(ExchangeEnum::Bitget, &[]);
    for e in [
        ConnectionEvent::Opened,
        ConnectionEvent::OpenFailed,
        ConnectionEvent::SubscriptionsSent,
        ConnectionEvent::SendFailed,
        ConnectionEvent::ReadFailed,
        ConnectionEvent::Closed,
    ] {
        assert!(matches!(c.on_event(e, 0), ConnectionAction::Idle));
        assert_eq!((c.state(), c.is_connected()), (ConnectionState::Disconnected, false));
    }
    c.begin_connect(None);
    c.on_event(ConnectionEvent::Opened, 0);
    c.on_event(ConnectionEvent::SubscriptionsSent, 0);
    for e in [ConnectionEvent::Opened, ConnectionEvent::OpenFailed, ConnectionEvent::SubscriptionsSent, ConnectionEvent::SendFailed] {
        assert!(matches!(c.on_event(e, 0), ConnectionAction::Idle));
        assert_eq!((c.state(), c.is_connected()), (ConnectionState::Reading, true));
    }
}

#[test]
fn connect_merges_subscriptions() {
    let mut c = client(ExchangeEnum::Bitget, &[]);
    c.begin_connect(Some(names(&["A", "B", "A"])));
    c.begin_connect(Some(names(&["B", "C"])));
    c.begin_connect(None);
    assert_eq!(c.subscriptions(), &names(&["A", "B", "C"]));
    assert!(c.is_subscribed("C"));
    assert!(!c.is_subscribed("D"));
}

#[test]
fn subscriptions_go_out_in_runs_of_twenty() {
    let all: Vec<String> = (0..45).map(|i| format!("S{}", i)).collect();
    let mut c = client(ExchangeEnum::Bitget, &[]);
    c.begin_connect(Some(all.clone()));
    let (frames, _) = frames_of(c.on_event(ConnectionEvent::Opened, 0));
    assert_eq!(frames.len(), 3);
    let sizes: Vec<usize> =
        frames.iter().map(|f| parsed(f)["args"].as_array().unwrap().len()).collect();
    assert_eq!(sizes, vec![20, 20, 5]);
    let mut seen = Vec::new();
    for f in frames.iter() {
        for a in parsed(f)["args"].as_array().unwrap() {
            seen.push(a["instId"].as_str().unwrap().to_string());
        }
    }
    assert_eq!(seen, all);
    assert_eq!(c.subscription_frames(0), frames);

    let mut c = client(ExchangeEnum::Binance, &[]);
    c.begin_connect(Some(all[..40].to_vec()));
    let (frames, heartbeat) = frames_of(c.on_event(ConnectionEvent::Opened, 77));
    assert_eq!(frames.len(), 2);
    assert!(!heartbeat);
    assert_eq!(parsed(&frames[1])["params"][19], serde_json::Value::from("s39@miniTicker"));
    assert_eq!(parsed(&frames[1])["id"], serde_json::Value::from(77));

    let mut c = client(ExchangeEnum::Bitget, &[]);
    c.begin_connect(None);
    let (frames, _) = frames_of(c.on_event(ConnectionEvent::Opened, 0));
    assert!(frames.is_empty());
}

fn symbol(id: i64, canonical: &str, native: &str) -> Symbol {
    Symbol {
        id,
        symbol_name: canonical.to_string(),
        exchange_name: "Bitget".to_string(),
        third_symbol_name: native.to_string(),
    }
}

#[test]
fn manager_keeps_the_last_client_of_an_exchange() {
    let mut m = ExchangeManager::new();
    assert!(m.get_client(ExchangeEnum::Bitget).is_none());
    let url = m.add_exchange(ExchangeEnum::Bitget, client(ExchangeEnum::Bitget, &[]), names(&["A"]));
    assert_eq!(url, "wss://ws.bitget.com/v2/ws/public");
    m.add_exchange(ExchangeEnum::Binance, client(ExchangeEnum::Binance, &[]), names(&["B"]));
    m.add_exchange(ExchangeEnum::Bitget, client(ExchangeEnum::Bitget, &[]), names(&["C"]));
    let c = m.get_client(ExchangeEnum::Bitget).unwrap();
    assert_eq!(c.subscriptions(), &names(&["C"]));
    assert_eq!(c.state(), ConnectionState::Connecting);
    assert_eq!(m.get_client(ExchangeEnum::Binance).unwrap().subscriptions(), &names(&["B"]));
    assert!(m.get_client(ExchangeEnum::Okex).is_none());
    assert!(m.get_client_mut(ExchangeEnum::Okex).is_none());
}

#[test]
fn reconnect_supervisor_picks_every_disconnected_client() {
    let mut m = ExchangeManager::new();
    for kind in [ExchangeEnum::Bitget, ExchangeEnum::Binance, ExchangeEnum::Okex] {
        m.add_exchange(kind, client(kind, &[]), Vec::new());
        let c = m.get_client_mut(kind).unwrap();
        c.on_event(ConnectionEvent::Opened, 0);
        c.on_event(ConnectionEvent::SubscriptionsSent, 0);
    }
    assert!(m.reconnect_targets().is_empty());
    assert_eq!(
        m.heartbeat_targets(),
        vec![ExchangeEnum::Bitget, ExchangeEnum::Binance, ExchangeEnum::Okex]
    );
    m.get_client_mut(ExchangeEnum::Binance).unwrap().on_event(ConnectionEvent::ReadFailed, 0);
    assert_eq!(m.reconnect_targets(), vec![ExchangeEnum::Binance]);
    assert_eq!(m.heartbeat_targets(), vec![ExchangeEnum::Bitget, ExchangeEnum::Okex]);
    let url = m.get_client_mut(ExchangeEnum::Binance).unwrap().begin_connect(None);
    assert_eq!(url, "wss://stream.binance.com:443/ws/btcusdt@miniTicker");
    assert_eq!(m.reconnect_targets(), vec![ExchangeEnum::Binance]);
    m.get_client_mut(ExchangeEnum::Binance).unwrap().on_event(ConnectionEvent::Opened, 0);
    assert!(m.reconnect_targets().is_empty());
}

#[test]
fn heartbeat_targets_do_not_depend_on_one_another() {
    let mut m = ExchangeManager::new();
    for kind in [ExchangeEnum::Bitget, ExchangeEnum::Okex] {
        m.add_exchange(kind, client(kind, &[]), Vec::new());
        m.get_client_mut(kind).unwrap().on_event(ConnectionEvent::Opened, 0);
    }
    for _ in 0..3 {
        assert_eq!(m.heartbeat_targets(), vec![ExchangeEnum::Bitget, ExchangeEnum::Okex]);
    }
    let both: Vec<String> = m
        .heartbeat_targets()
        .iter()
        .map(|e| m.get_client(*e).unwrap().heartbeat().unwrap().message)
        .collect();
    assert_eq!(both, names(&["ping", "ping"]));
}

#[test]
fn symbol_ids_of_a_task() {
    assert_eq!(parse_symbol_ids("1,2,3"), vec![1, 2, 3]);
    assert_eq!(parse_symbol_ids("1,x,3,,-4"), vec![1, 3, -4]);
    assert_eq!(parse_symbol_ids(""), Vec::<i32>::new());
    assert_eq!(parse_symbol_ids("2147483647,2147483648,-2147483648,-2147483649"), vec![i32::MAX, i32::MIN]);
    assert_eq!(parse_symbol_ids(" 1, 2"), Vec::<i32>::new());
}

#[test]
fn initializer_sets_up_every_exchange() {
    let tasks = vec![
        (ExchangeEnum::Bitget, vec![symbol(1, "BTC", "BTCUSDT"), symbol(2, "ETH", "ETHUSDT")]),
        (ExchangeEnum::Binance, vec![symbol(3, "BTC", "BTCUSDT")]),
    ];
    let mut m = ExchangeManager::new();
    let openings = ExchangeInitializer::init(&tasks, &mut m);
    let seen: Vec<(ExchangeEnum, &str)> =
        openings.iter().map(|o| (o.exchange, o.url.as_str())).collect();
    assert_eq!(
        seen,
        vec![
            (ExchangeEnum::Bitget, "wss://ws.bitget.com/v2/ws/public"),
            (ExchangeEnum::Binance, "wss://stream.binance.com:443/ws/btcusdt@miniTicker"),
        ]
    );
    let c = m.get_client(ExchangeEnum::Bitget).unwrap();
    assert_eq!(c.subscriptions(), &names(&["BTCUSDT", "ETHUSDT"]));
    assert_eq!(c.canonical("ETHUSDT"), "ETH");
    assert_eq!(c.state(), ConnectionState::Connecting);
    let map = symbol_map_from(&tasks[0].1);
    assert_eq!(map.get("BTCUSDT").map(|s| s.as_str()), Some("BTC"));
    assert_eq!(native_names_of(&tasks[0].1), names(&["BTCUSDT", "ETHUSDT"]));
}
