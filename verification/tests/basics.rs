use index_pipeline::decimal::Decimal;
use index_pipeline::exchange::ExchangeEnum;
use index_pipeline::formula::parse_operands;
use index_pipeline::interval::{align_down, floor_div, KlineInterval};
use index_pipeline::json::{array, number, object, print, text, Json};
use index_pipeline::text::{
    chars_of, concat2, concat3, contains_text, i64_text, join, parse_i64, replace_text, text_eq,
    u64_text,
};
use index_pipeline::text_map::TextMap;

fn dec(mantissa: i128, scale: u32) -> Decimal {
    Decimal::try_new(mantissa, scale).unwrap()
}

fn same(a: Decimal, b: Decimal) -> bool {
    !a.less_than(b) && !b.less_than(a)
}

#[test]
fn exchange_names_round_trip() {
    for e in [ExchangeEnum::Bitget, ExchangeEnum::Binance, ExchangeEnum::Okex] {
        assert_eq!(ExchangeEnum::from_name(e.name()), Some(e));
    }
    assert_eq!(ExchangeEnum::Bitget.name(), "Bitget");
    assert_eq!(ExchangeEnum::Binance.name(), "Binance");
    assert_eq!(ExchangeEnum::Okex.name(), "Okex");
}

#[test]
fn exchange_from_name_is_exact() {
    assert_eq!(ExchangeEnum::from_name("binance"), None);
    assert_eq!(ExchangeEnum::from_name("Binance "), None);
    assert_eq!(ExchangeEnum::from_name(""), None);
    assert_eq!(ExchangeEnum::from_name("Kraken"), None);
}

#[test]
fn interval_seconds_and_labels() {
    assert_eq!(KlineInterval::OneMinute.seconds(), 60);
    assert_eq!(KlineInterval::FiveMinutes.seconds(), 300);
    assert_eq!(KlineInterval::FifteenMinutes.seconds(), 900);
    assert_eq!(KlineInterval::OneHour.seconds(), 3600);
    assert_eq!(KlineInterval::FourHours.seconds(), 14400);
    assert_eq!(KlineInterval::OneDay.seconds(), 86400);
    assert_eq!(KlineInterval::OneMinute.label(), "1m");
    assert_eq!(KlineInterval::FiveMinutes.label(), "5m");
    assert_eq!(KlineInterval::FifteenMinutes.label(), "15m");
    assert_eq!(KlineInterval::OneHour.label(), "1h");
    assert_eq!(KlineInterval::FourHours.label(), "4h");
    assert_eq!(KlineInterval::OneDay.to_text(), "1d");
}

#[test]
fn aligned_is_floor_to_the_interval() {
    assert_eq!(KlineInterval::OneMinute.aligned(119), 60);
    assert_eq!(KlineInterval::OneMinute.aligned(120), 120);
    assert_eq!(KlineInterval::OneMinute.aligned(0), 0);
    assert_eq!(KlineInterval::FiveMinutes.aligned(1_700_000_123), 1_700_000_100);
    assert_eq!(KlineInterval::OneDay.aligned(1_700_000_123), 1_699_920_000);
}

#[test]
fn aligned_rounds_down_before_the_epoch() {
    assert_eq!(KlineInterval::OneMinute.aligned(-1), -60);
    assert_eq!(KlineInterval::OneMinute.aligned(-60), -60);
    assert_eq!(KlineInterval::OneMinute.aligned(-61), -120);
    assert_eq!(align_down(-7, 5), -10);
    assert_eq!(floor_div(-7, 5), -2);
    assert_eq!(floor_div(-10, 5), -2);
    assert_eq!(floor_div(7, 5), 1);
    assert_eq!(floor_div(i64::MIN, 1000), -9223372036854776);
}

#[test]
fn every_aligned_start_is_a_multiple() {
    let intervals = [
        KlineInterval::OneMinute,
        KlineInterval::FiveMinutes,
        KlineInterval::FifteenMinutes,
        KlineInterval::OneHour,
        KlineInterval::FourHours,
        KlineInterval::OneDay,
    ];
    for t in [-90_000i64, -1, 0, 1, 59, 60, 61, 86_399, 86_400, 1_700_000_123] {
        for i in intervals {
            let start = i.aligned(t);
            assert_eq!(start.rem_euclid(i.seconds()), 0);
            assert!(start <= t && t < start + i.seconds());
        }
    }
}

#[test]
fn decimal_limits() {
    let max: i128 = 79_228_162_514_264_337_593_543_950_335;
    assert!(Decimal::try_new(max, 0).is_some());
    assert!(Decimal::try_new(-max, 28).is_some());
    assert!(Decimal::try_new(max + 1, 0).is_none());
    assert!(Decimal::try_new(-max - 1, 0).is_none());
    assert!(Decimal::try_new(1, 29).is_none());
    assert_eq!(Decimal::zero().mantissa(), 0);
    assert_eq!(Decimal::zero().scale(), 0);
    assert_eq!(Decimal::from_i64(-7).mantissa(), -7);
    assert_eq!(Decimal::from_u64(u64::MAX).mantissa(), u64::MAX as i128);
}

#[test]
fn decimal_addition() {
    let sum = dec(15, 1).checked_add(dec(225, 2)).unwrap();
    assert_eq!((sum.mantissa(), sum.scale()), (375, 2));
    let sum = dec(60000, 0).checked_add(dec(60010, 0)).unwrap();
    assert_eq!((sum.mantissa(), sum.scale()), (120010, 0));
    let max = dec(79_228_162_514_264_337_593_543_950_335, 0);
    assert!(max.checked_add(max).is_none());
}

#[test]
fn decimal_division() {
    let q = dec(120010, 0).checked_div(dec(2, 0)).unwrap();
    assert!(same(q, dec(60005, 0)));
    assert_eq!(q.to_text(), "60005");
    let third = dec(1, 0).checked_div(dec(3, 0)).unwrap();
    assert_eq!(third.to_text(), "0.3333333333333333333333333333");
    assert!(dec(1, 0).checked_div(Decimal::zero()).is_none());
}

#[test]
fn decimal_order_is_by_value() {
    assert!(dec(5, 1).less_than(dec(51, 2)));
    assert!(!dec(51, 2).less_than(dec(5, 1)));
    assert!(!dec(10, 1).less_than(dec(100, 2)));
    assert!(!dec(100, 2).less_than(dec(10, 1)));
    assert!(dec(-5, 1).less_than(dec(-1, 2)));
    assert!(dec(-1, 0).less_than(Decimal::zero()));
    assert!(dec(1, 28).less_than(dec(79_228_162_514_264_337_593_543_950_335, 0)));
}

#[test]
fn decimal_max_and_min_keep_the_first_of_equals() {
    let a = dec(10, 1);
    let b = dec(100, 2);
    assert_eq!(a.max(b).scale(), 1);
    assert_eq!(b.max(a).scale(), 2);
    assert_eq!(a.min(b).scale(), 1);
    assert_eq!(b.min(a).scale(), 2);
    assert_eq!(dec(1, 0).max(dec(2, 0)).mantissa(), 2);
    assert_eq!(dec(1, 0).min(dec(2, 0)).mantissa(), 1);
}

#[test]
fn decimal_rounding_goes_away_from_zero_at_the_midpoint() {
    let r = dec(34395, 4).round_half_away(2);
    assert_eq!((r.mantissa(), r.scale()), (344, 2));
    let r = dec(65, 1).round_half_away(0);
    assert_eq!((r.mantissa(), r.scale()), (7, 0));
    let r = dec(-65, 1).round_half_away(0);
    assert_eq!((r.mantissa(), r.scale()), (-7, 0));
    let r = dec(64, 1).round_half_away(0);
    assert_eq!((r.mantissa(), r.scale()), (6, 0));
    let r = dec(-64, 1).round_half_away(0);
    assert_eq!((r.mantissa(), r.scale()), (-6, 0));
    let r = dec(251, 2).round_half_away(3);
    assert_eq!((r.mantissa(), r.scale()), (251, 2));
    let r = dec(0, 5).round_half_away(2);
    assert_eq!((r.mantissa(), r.scale()), (0, 2));
    let r = dec(16666666666666666666666666667, 28).round_half_away(8);
    assert_eq!((r.mantissa(), r.scale()), (166666667, 8));
    let r = dec(123456789, 9).round_half_away(8);
    assert_eq!((r.mantissa(), r.scale()), (12345679, 8));
}

#[test]
fn decimal_text_and_parse() {
    assert_eq!(dec(3141, 3).to_text(), "3.141");
    assert_eq!(dec(-5, 1).to_text(), "-0.5");
    assert_eq!(dec(60000, 0).to_text(), "60000");
    assert_eq!(dec(0, 0).to_text(), "0");
    assert_eq!(dec(0, 3).to_text(), "0.000");
    assert_eq!(dec(7, 3).to_text(), "0.007");
    assert_eq!(dec(-7, 3).to_text(), "-0.007");
    assert_eq!(dec(1000, 3).to_text(), "1.000");
    assert_eq!(dec(-12345, 2).to_text(), "-123.45");
    assert_eq!(dec(-42, 0).to_text(), "-42");
    assert_eq!(dec(1, 28).to_text(), "0.0000000000000000000000000001");
    assert_eq!(
        dec(79_228_162_514_264_337_593_543_950_335, 28).to_text(),
        "7.9228162514264337593543950335"
    );
    assert_eq!(
        dec(-79_228_162_514_264_337_593_543_950_335, 0).to_text(),
        "-79228162514264337593543950335"
    );
    let p = Decimal::parse("60000.50").unwrap();
    assert_eq!((p.mantissa(), p.scale()), (6000050, 2));
    let p = Decimal::parse("-0.001").unwrap();
    assert_eq!((p.mantissa(), p.scale()), (-1, 3));
    assert!(Decimal::parse("abc").is_none());
    assert!(Decimal::parse("").is_none());
    assert!(Decimal::parse("inf").is_none());
    assert!(Decimal::parse("NaN").is_none());
}

#[test]
fn text_helpers() {
    assert!(text_eq("abc", "abc"));
    assert!(!text_eq("abc", "abd"));
    assert!(!text_eq("abc", "ab"));
    assert_eq!(chars_of("a+b"), vec!['a', '+', 'b']);
    assert_eq!(chars_of("é✓"), vec!['é', '✓']);
    assert_eq!(concat2("ab", "cd"), "abcd");
    assert_eq!(concat3("a", ".", "b"), "a.b");
    assert_eq!(join(&vec!["a".to_string(), "b".to_string(), "c".to_string()], " + "), "a + b + c");
    assert_eq!(join(&vec!["a".to_string()], " + "), "a");
    assert_eq!(join(&Vec::new(), " + "), "");
}

#[test]
fn numbers_as_text() {
    assert_eq!(u64_text(0), "0");
    assert_eq!(u64_text(7), "7");
    assert_eq!(u64_text(10), "10");
    assert_eq!(u64_text(u64::MAX), "18446744073709551615");
    assert_eq!(i64_text(0), "0");
    assert_eq!(i64_text(-1), "-1");
    assert_eq!(i64_text(1_700_000_000_000), "1700000000000");
    assert_eq!(i64_text(i64::MIN), "-9223372036854775808");
    assert_eq!(i64_text(i64::MAX), "9223372036854775807");
}

#[test]
fn contains_text_finds_every_position() {
    assert!(contains_text("xxMiniTickerxx", "MiniTicker"));
    assert!(contains_text("ping", "ping"));
    assert!(contains_text("a ping", "ping"));
    assert!(contains_text("ping a", "ping"));
    assert!(!contains_text("pin", "ping"));
    assert!(!contains_text("pong", "ping"));
    assert!(!contains_text("", "ping"));
    assert!(contains_text("abc", ""));
    assert!(contains_text("", ""));
    assert!(contains_text("aab", "ab"));
}

#[test]
fn text_map_overwrites_and_finds() {
    let mut m: TextMap<i64> = TextMap::new();
    assert_eq!(m.len(), 0);
    assert_eq!(m.get("a"), None);
    m.insert("a", 1);
    m.insert("b", 2);
    m.insert("a", 3);
    assert_eq!(m.len(), 2);
    assert_eq!(m.get("a"), Some(&3));
    assert_eq!(m.get("b"), Some(&2));
    assert!(m.contains_key("b"));
    assert!(!m.contains_key("c"));
    assert!(!m.contains_key(""));
}

#[test]
fn operands_of_a_formula() {
    assert_eq!(
        parse_operands("(Binance.BTCUSDT + Bitget.BTCUSDT)/2"),
        vec!["Binance.BTCUSDT".to_string(), "Bitget.BTCUSDT".to_string()]
    );
    assert_eq!(parse_operands("A+B+C"), vec!["A", "B", "C"]);
    assert_eq!(parse_operands("A"), vec!["A"]);
    assert_eq!(parse_operands(" ( A ) "), vec!["A"]);
    assert_eq!(parse_operands("A\t+\nB"), vec!["A", "B"]);
}

#[test]
fn operands_edge_cases() {
    assert_eq!(parse_operands(""), vec![""]);
    assert_eq!(parse_operands("A++B"), vec!["A", "", "B"]);
    assert_eq!(parse_operands("+A"), vec!["", "A"]);
    assert_eq!(parse_operands("A+"), vec!["A", ""]);
    assert_eq!(parse_operands("A+B/2/3"), vec!["A", "B"]);
    assert_eq!(parse_operands("/2"), vec![""]);
    assert_eq!(parse_operands("A/B+C"), vec!["A"]);
}

#[test]
fn json_documents() {
    let doc = Json::parse("{\"s\":\"BTCUSDT\",\"E\":17,\"x\":1.5,\"data\":[1,\"two\"],\"n\":null,\"b\":true}").unwrap();
    assert_eq!(doc.text_member("s").map(|s| s.as_str()), Some("BTCUSDT"));
    assert_eq!(doc.member("E").and_then(|m| m.as_i64()), Some(17));
    assert_eq!(doc.member("x").and_then(|m| m.as_i64()), None);
    assert!(matches!(doc.member("x"), Some(Json::Number(None))));
    assert!(matches!(doc.member("n"), Some(Json::Null)));
    assert!(matches!(doc.member("b"), Some(Json::Bool(true))));
    assert!(doc.member("missing").is_none());
    assert!(doc.text_member("E").is_none());
    let items = doc.member("data").and_then(|m| m.as_array()).unwrap();
    assert_eq!(items.len(), 2);
    assert_eq!(items[0].as_i64(), Some(1));
    assert_eq!(items[1].as_text().map(|s| s.as_str()), Some("two"));
    assert!(items[0].member("s").is_none());
    assert!(Json::parse("{not json").is_none());
    assert!(Json::parse("").is_none());
}

#[test]
fn json_printing() {
    assert_eq!(print(&text("abc")), "\"abc\"");
    assert_eq!(print(&text("a\"b")), "\"a\\\"b\"");
    assert_eq!(print(&text("a\\b")), "\"a\\\\b\"");
    assert_eq!(print(&text("")), "\"\"");
    assert_eq!(print(&number(-5)), "-5");
    assert_eq!(print(&Json::Null), "null");
    assert_eq!(print(&Json::Bool(true)), "true");
    assert_eq!(print(&Json::Number(None)), "null");
    assert_eq!(print(&array(vec![number(1), text("two"), array(Vec::new())])), "[1,\"two\",[]]");
    let doc = object(vec![
        ("b".to_string(), number(2)),
        ("a".to_string(), object(vec![("z".to_string(), Json::Null)])),
    ]);
    assert_eq!(print(&doc), "{\"a\":{\"z\":null},\"b\":2}");
    let again = Json::parse(&print(&doc)).unwrap();
    assert_eq!(again.member("b").and_then(|m| m.as_i64()), Some(2));
    assert_eq!(print(&again), print(&doc));
}

#[test]
fn whole_numbers_from_text() {
    assert_eq!(parse_i64("0"), Some(0));
    assert_eq!(parse_i64("-0"), Some(0));
    assert_eq!(parse_i64("+17"), Some(17));
    assert_eq!(parse_i64("-17"), Some(-17));
    assert_eq!(parse_i64("007"), Some(7));
    assert_eq!(parse_i64("1700000000000"), Some(1_700_000_000_000));
    assert_eq!(parse_i64("9223372036854775807"), Some(i64::MAX));
    assert_eq!(parse_i64("-9223372036854775808"), Some(i64::MIN));
    assert_eq!(parse_i64("0000000000000000000000000000000000000001"), Some(1));
    for text in [
        "", "+", "-", " 1", "1 ", "1.0", "1e3", "--1", "+-1", "1_000", "0x10", "٣",
        "9223372036854775808", "-9223372036854775809", "99999999999999999999999999",
    ] {
        assert_eq!(parse_i64(text), None);
        assert_eq!(parse_i64(text), text.parse::<i64>().ok());
    }
    for text in ["0", "-0", "+17", "-17", "007", "9223372036854775807", "-9223372036854775808"] {
        assert_eq!(parse_i64(text), text.parse::<i64>().ok());
    }
}

#[test]
fn replacing_goes_from_the_left() {
    assert_eq!(replace_text("{\"ping\":1}", "ping", "pong"), "{\"pong\":1}");
    assert_eq!(replace_text("ping ping", "ping", "pong"), "pong pong");
    assert_eq!(replace_text("pingping", "ping", ""), "");
    assert_eq!(replace_text("aaa", "aa", "b"), "ba");
    assert_eq!(replace_text("abc", "x", "y"), "abc");
    assert_eq!(replace_text("ab", "abc", "y"), "ab");
    assert_eq!(replace_text("", "a", "b"), "");
    assert_eq!(replace_text("abc", "", "y"), "abc");
    assert_eq!(replace_text("pinping", "ping", "pong"), "pinpong");
    for (s, from, to) in [("aaa", "aa", "b"), ("ping ping", "ping", "pong"), ("xpingx", "ping", "")] {
        assert_eq!(replace_text(s, from, to), s.replace(from, to));
    }
}

#[test]
fn pass_budget() {
    assert!(!index_pipeline::candle::pass_is_slow(0));
    assert!(!index_pipeline::candle::pass_is_slow(50));
    assert!(index_pipeline::candle::pass_is_slow(51));
}
