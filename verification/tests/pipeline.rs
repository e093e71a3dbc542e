use index_pipeline::calculator::{CalculatorManager, IndexCalculator, IndexConfig};
use index_pipeline::candle::IndexLoop;
use index_pipeline::decimal::Decimal;
use index_pipeline::exchange::ExchangeEnum;
use index_pipeline::interval::KlineInterval;
use index_pipeline::manager::{ExchangeInitializer, ExchangeManager, Symbol};
use index_pipeline::persister::{kline_table_name, KlineRouter, Route};
use index_pipeline::price_updater::{apply_price, update_prices};
use index_pipeline::trade::TradeRepository;

fn dec(mantissa: i128, scale: u32) -> Decimal {
    Decimal::try_new(mantissa, scale).unwrap()
}

fn symbol(canonical: &str, native: &str) -> Symbol {
    Symbol {
        id: 1,
        symbol_name: canonical.to_string(),
        exchange_name: String::new(),
        third_symbol_name: native.to_string(),
    }
}

fn calculators(names: &[&str]) -> CalculatorManager {
    CalculatorManager::new(
        names.iter().map(|n| IndexCalculator::new(n.to_string(), dec(3, 3))).collect(),
    )
}

fn binance_frame(native: &str, price: &str) -> String {
    format!("{{\"e\":\"24hrMiniTicker\",\"E\":1700000000000,\"s\":\"{}\",\"c\":\"{}\"}}", native, price)
}

fn bitget_frame(native: &str, price: &str) -> String {
    format!(
        "{{\"arg\":{{\"channel\":\"ticker\"}},\"data\":[{{\"instId\":\"{}\",\"lastPr\":\"{}\",\"ts\":\"1700000000000\"}}]}}",
        native, price
    )
}

#[test]
fn prices_flow_from_frames_to_candles() {
    let tasks = vec![
        (ExchangeEnum::Binance, vec![symbol("BTCUSDT", "BTCUSDT")]),
        (ExchangeEnum::Bitget, vec![symbol("BTCUSDT", "BTCUSDT_SPBL")]),
    ];
    let mut manager = ExchangeManager::new();
    ExchangeInitializer::init(&tasks, &mut manager);
    let mut trades = TradeRepository::new(20);
    manager
        .get_client_mut(ExchangeEnum::Binance)
        .unwrap()
        .handle_message_at(&binance_frame("BTCUSDT", "60000"), &mut trades, 0);
    manager
        .get_client_mut(ExchangeEnum::Bitget)
        .unwrap()
        .handle_message_at(&bitget_frame("BTCUSDT_SPBL", "60010"), &mut trades, 0);

    let mut calcs = calculators(&["BTCUSDT"]);
    update_prices(&manager, &mut calcs, &tasks);
    let calc = calcs.get("BTCUSDT").unwrap();
    assert_eq!(calc.price("Binance.BTCUSDT").unwrap().mantissa(), 60000);
    assert_eq!(calc.price("Bitget.BTCUSDT").unwrap().mantissa(), 60010);

    let configs = vec![IndexConfig {
        id: 1,
        name: "BTCUSDT".to_string(),
        formula: "(Binance.BTCUSDT + Bitget.BTCUSDT)/2".to_string(),
        is_active: true,
    }];
    let mut state = IndexLoop::new();
    let out = state.tick(&mut calcs, &configs, &vec![KlineInterval::OneMinute], 1_700_000_000_000);
    assert_eq!(out.candles.len(), 2);
    assert_eq!(out.candles[1].close.to_text(), "60005");
    assert_eq!(out.candles[1].ts, 1_699_999_980);
    assert_eq!(out.snapshots.len(), 1);
    assert_eq!(out.snapshots[0].table, "index_data_BTCUSDT");
    assert_eq!(out.snapshots[0].data.formula, "(Binance.BTCUSDT + Bitget.BTCUSDT)/2");
}

#[test]
fn price_updater_passes_over_what_has_no_ticker() {
    let tasks = vec![
        (ExchangeEnum::Binance, vec![symbol("BTC", "BTCUSDT"), symbol("ETH", "ETHUSDT")]),
        (ExchangeEnum::Okex, vec![symbol("BTC", "BTC-USDT")]),
    ];
    let mut manager = ExchangeManager::new();
    ExchangeInitializer::init(&tasks[..1].iter().map(|t| (t.0, Vec::new())).collect(), &mut manager);
    let mut trades = TradeRepository::new(20);
    manager
        .get_client_mut(ExchangeEnum::Binance)
        .unwrap()
        .handle_message_at(&binance_frame("BTC", "7"), &mut trades, 0);
    let mut calcs = calculators(&["BTC", "ETH"]);
    update_prices(&manager, &mut calcs, &tasks);
    assert_eq!(calcs.get("BTC").unwrap().price("Binance.BTC").unwrap().mantissa(), 7);
    assert!(calcs.get("BTC").unwrap().price("Okex.BTC").is_none());
    assert!(calcs.get("ETH").unwrap().price("Binance.ETH").is_none());
}

#[test]
fn unreadable_price_counts_as_zero() {
    let tasks = vec![(ExchangeEnum::Binance, vec![symbol("BTC", "BTCUSDT")])];
    let mut manager = ExchangeManager::new();
    ExchangeInitializer::init(&tasks, &mut manager);
    let mut trades = TradeRepository::new(20);
    manager
        .get_client_mut(ExchangeEnum::Binance)
        .unwrap()
        .handle_message_at(&binance_frame("BTCUSDT", "n/a"), &mut trades, 0);
    let mut calcs = calculators(&["BTC"]);
    update_prices(&manager, &mut calcs, &tasks);
    let p = calcs.get("BTC").unwrap().price("Binance.BTC").unwrap();
    assert_eq!((p.mantissa(), p.scale()), (0, 0));
    let sample = calcs.calculate_index("BTC", "Binance.BTC", 1).unwrap();
    assert_eq!(sample.last.to_text(), "0");
}

#[test]
fn apply_price_builds_the_composite_key() {
    let mut calcs = calculators(&["BTC"]);
    apply_price(&mut calcs, ExchangeEnum::Okex, "BTC", Some(dec(15, 1)));
    apply_price(&mut calcs, ExchangeEnum::Bitget, "BTC", None);
    apply_price(&mut calcs, ExchangeEnum::Bitget, "ETH", Some(dec(1, 0)));
    let calc = calcs.get("BTC").unwrap();
    assert_eq!(calc.price("Okex.BTC").unwrap().mantissa(), 15);
    assert_eq!(calc.price("Bitget.BTC").unwrap().mantissa(), 0);
    assert!(calc.price("Bitget.ETH").is_none());
    assert!(calcs.get("ETH").is_none());
}

#[test]
fn every_symbol_has_a_queue_of_its_own() {
    let mut router = KlineRouter::new();
    let mut queues: Vec<Vec<usize>> = Vec::new();
    for n in 0..200usize {
        let symbol = if n % 2 == 0 { "A" } else { "B" };
        match router.route(symbol) {
            Route::Created(q) => {
                assert_eq!(q, queues.len());
                queues.push(vec![n]);
            }
            Route::Existing(q) => queues[q].push(n),
        }
    }
    assert_eq!(router.len(), 2);
    assert_eq!(queues[0].len(), 100);
    assert_eq!(queues[1].len(), 100);
    assert!(queues[0].iter().all(|n| n % 2 == 0));
    assert!(queues[1].iter().all(|n| n % 2 == 1));
    assert!(queues[0].windows(2).all(|w| w[0] < w[1]));
    assert!(queues[1].windows(2).all(|w| w[0] < w[1]));
}

#[test]
fn router_tells_first_from_later_candles() {
    let mut router = KlineRouter::new();
    assert_eq!(router.len(), 0);
    assert_eq!(router.route("BTC"), Route::Created(0));
    assert_eq!(router.route("BTC"), Route::Existing(0));
    assert_eq!(router.route("btc"), Route::Created(1));
    assert_eq!(router.route(""), Route::Created(2));
    assert_eq!(router.route("BTC"), Route::Existing(0));
    assert_eq!(router.route("btc"), Route::Existing(1));
    assert_eq!(router.len(), 3);
}

#[test]
fn candle_table_is_lower_case() {
    assert_eq!(kline_table_name("BTCUSDT"), "index_kline_btcusdt");
    assert_eq!(kline_table_name("btc"), "index_kline_btc");
    assert_eq!(kline_table_name("Btc-Usdt"), "index_kline_btc-usdt");
}
