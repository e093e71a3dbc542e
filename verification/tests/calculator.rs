use index_pipeline::calculator::{CalculatorManager, IndexCalculator, Missing};
use index_pipeline::decimal::Decimal;

fn dec(mantissa: i128, scale: u32) -> Decimal {
    Decimal::try_new(mantissa, scale).unwrap()
}

fn calculator(name: &str) -> IndexCalculator {
    IndexCalculator::new(name.to_string(), dec(3, 3))
}

const FORMULA: &str = "(Binance.BTCUSDT + Bitget.BTCUSDT)/2";

#[test]
fn simple_average() {
    let mut calc = calculator("BTCUSDT");
    calc.update_price("Binance.BTCUSDT", dec(60000, 0));
    calc.update_price("Bitget.BTCUSDT", dec(60010, 0));
    let sample = calc.calculate_index("BTCUSDT", FORMULA, 1_700_000_000_000).unwrap();
    assert_eq!(sample.last.to_text(), "60005");
    assert!(!sample.last.less_than(dec(600050, 1)) && !dec(600050, 1).less_than(sample.last));
    assert_eq!(sample.computed_formula, "(60000 + 60010) / 2");
    assert_eq!(sample.formula, FORMULA);
    assert_eq!(sample.symbol, "BTCUSDT");
    assert_eq!(sample.id, 1_700_000_000_000);
}

#[test]
fn missing_operand() {
    let mut calc = calculator("BTCUSDT");
    calc.update_price("Binance.BTCUSDT", dec(60000, 0));
    let sample = calc.calculate_index("BTCUSDT", FORMULA, 5).unwrap();
    assert_eq!(sample.last.to_text(), "60000");
    assert_eq!(sample.computed_formula, "60000");
}

#[test]
fn missing_operand_divides_by_the_number_present() {
    let mut calc = calculator("X");
    calc.update_price("A", dec(10, 0));
    calc.update_price("C", dec(20, 0));
    let sample = calc.calculate_index("X", "A+B+C", 1).unwrap();
    assert_eq!(sample.last.to_text(), "15");
    assert_eq!(sample.computed_formula, "(10 + 20) / 2");
    calc.update_price("B", dec(60, 0));
    let sample = calc.calculate_index("X", "A+B+C", 2).unwrap();
    assert_eq!(sample.last.to_text(), "30");
    assert_eq!(sample.computed_formula, "(10 + 60 + 20) / 3");
}

#[test]
fn declared_divisor_does_not_enter_the_value() {
    let mut calc = calculator("X");
    calc.update_price("A", dec(10, 0));
    calc.update_price("B", dec(20, 0));
    let with = calc.calculate_index("X", "(A+B)/7", 1).unwrap();
    let without = calc.calculate_index("X", "A+B", 1).unwrap();
    assert_eq!(with.last.to_text(), "15");
    assert_eq!(without.last.to_text(), "15");
    assert_eq!(with.formula, "(A+B)/7");
}

#[test]
fn no_operand_present_gives_no_sample() {
    let mut calc = calculator("X");
    assert!(calc.calculate_index("X", "A+B", 1).is_none());
    calc.update_price("Z", dec(1, 0));
    assert!(calc.calculate_index("X", "A+B", 1).is_none());
    assert!(calc.calculate_index("X", "", 1).is_none());
    assert_eq!(calc.samples().len(), 0);
}

#[test]
fn overflowing_sum_gives_no_sample() {
    let max = dec(79_228_162_514_264_337_593_543_950_335, 0);
    let mut calc = calculator("X");
    calc.update_price("A", max);
    calc.update_price("B", max);
    assert!(calc.calculate_index("X", "A+B", 1).is_none());
    assert_eq!(calc.samples().len(), 0);
    assert!(calc.calculate_index("X", "A", 1).is_some());
}

#[test]
fn evaluation_is_repeatable() {
    let mut calc = calculator("X");
    calc.update_price("A", dec(1, 0));
    calc.update_price("B", dec(2, 0));
    calc.update_price("C", dec(2, 0));
    let first = calc.calculate_index("X", "A+B+C", 9).unwrap();
    let second = calc.calculate_index("X", "A+B+C", 9).unwrap();
    assert_eq!(first.last.mantissa(), second.last.mantissa());
    assert_eq!(first.last.scale(), second.last.scale());
    assert_eq!(first.last.to_text(), "1.6666666666666666666666666667");
    assert_eq!(first.computed_formula, second.computed_formula);
    assert_eq!(calc.samples().len(), 2);
}

#[test]
fn update_price_overwrites() {
    let mut calc = calculator("X");
    assert!(calc.price("A").is_none());
    calc.update_price("A", dec(1, 0));
    calc.update_price("A", dec(25, 1));
    let p = calc.price("A").unwrap();
    assert_eq!((p.mantissa(), p.scale()), (25, 1));
    let sample = calc.calculate_index("X", "A", 1).unwrap();
    assert_eq!(sample.computed_formula, "2.5");
    assert_eq!(calc.index_name(), "X");
    assert_eq!(calc.exception_percent_margin().mantissa(), 3);
}

#[test]
fn samples_are_kept_in_order() {
    let mut calc = calculator("X");
    calc.update_price("A", dec(1, 0));
    calc.calculate_index("X", "A", 10);
    calc.update_price("A", dec(2, 0));
    calc.calculate_index("X", "A", 20);
    let ids: Vec<u64> = calc.samples().iter().map(|s| s.id).collect();
    assert_eq!(ids, vec![10, 20]);
    assert_eq!(calc.samples()[1].last.to_text(), "2");
    let copy = calc.samples()[0].duplicate();
    assert_eq!(copy.id, 10);
    assert_eq!(copy.computed_formula, "1");
}

const MINUTE: i64 = 60_000;

fn with_samples(now: i64, ages_and_values: &[(i64, i128)]) -> IndexCalculator {
    let mut calc = calculator("X");
    for (age, value) in ages_and_values {
        calc.update_price("A", dec(*value, 0));
        calc.calculate_index("X", "A", (now - age * MINUTE) as u64).unwrap();
    }
    calc
}

#[test]
fn edp_window_keeps_ten_minutes() {
    let now = 1_700_000_000_000;
    let mut calc = with_samples(now, &[(11, 1000), (9, 30), (3, 20), (0, 10)]);
    let mean = calc.calculate_edp_at(now).unwrap();
    assert_eq!(mean.to_text(), "20");
    let ids: Vec<u64> = calc.samples().iter().map(|s| s.id).collect();
    assert_eq!(
        ids,
        vec![(now - 9 * MINUTE) as u64, (now - 3 * MINUTE) as u64, now as u64]
    );
}

#[test]
fn edp_keeps_a_sample_of_exactly_ten_minutes() {
    let now = 1_700_000_000_000;
    let mut calc = with_samples(now, &[(10, 4), (0, 2)]);
    assert_eq!(calc.calculate_edp_at(now).unwrap().to_text(), "3");
    let mut calc = with_samples(now, &[(10, 4), (0, 2)]);
    assert_eq!(calc.calculate_edp_at(now + 1).unwrap().to_text(), "2");
}

#[test]
fn edp_rounds_to_eight_digits() {
    let now = 1_700_000_000_000;
    let mut calc = with_samples(now, &[(2, 1), (1, 2), (0, 2)]);
    let mean = calc.calculate_edp_at(now).unwrap();
    assert_eq!((mean.mantissa(), mean.scale()), (166666667, 8));
    assert_eq!(mean.to_text(), "1.66666667");
}

#[test]
fn edp_of_an_empty_window_is_none() {
    let now = 1_700_000_000_000;
    let mut calc = calculator("X");
    assert!(calc.calculate_edp_at(now).is_none());
    let mut calc = with_samples(now, &[(30, 1), (11, 2)]);
    assert!(calc.calculate_edp_at(now).is_none());
    assert_eq!(calc.samples().len(), 0);
}

#[test]
fn edp_by_the_wall_clock_drops_old_samples() {
    let mut calc = calculator("X");
    calc.update_price("A", dec(5, 0));
    calc.calculate_index("X", "A", 1_000).unwrap();
    assert!(calc.calculate_edp().is_none());
    assert_eq!(calc.samples().len(), 0);
}

#[test]
fn manager_routes_by_index_name() {
    let mut manager = CalculatorManager::new(vec![calculator("BTC"), calculator("ETH")]);
    manager.update_price("BTC", "Binance.BTC", dec(100, 0));
    manager.update_price("ETH", "Binance.ETH", dec(10, 0));
    manager.update_price("DOGE", "Binance.DOGE", dec(1, 0));
    assert_eq!(manager.get("BTC").unwrap().price("Binance.BTC").unwrap().mantissa(), 100);
    assert!(manager.get("BTC").unwrap().price("Binance.ETH").is_none());
    assert!(manager.get("DOGE").is_none());
    let sample = manager.calculate_index("ETH", "Binance.ETH", 7).unwrap();
    assert_eq!(sample.last.to_text(), "10");
    assert_eq!(manager.get("ETH").unwrap().samples().len(), 1);
    assert_eq!(manager.get("BTC").unwrap().samples().len(), 0);
    assert!(manager.calculate_index("DOGE", "Binance.DOGE", 7).is_none());
    assert!(manager.calculate_index("BTC", "Nothing", 7).is_none());
}

#[test]
fn manager_keeps_the_later_of_two_with_one_name() {
    let mut first = calculator("BTC");
    first.update_price("A", dec(1, 0));
    let mut second = calculator("BTC");
    second.update_price("A", dec(2, 0));
    let manager = CalculatorManager::new(vec![first, second]);
    assert_eq!(manager.get("BTC").unwrap().price("A").unwrap().mantissa(), 2);
    let mut manager = CalculatorManager::empty();
    assert!(manager.get("BTC").is_none());
    manager.insert(calculator("BTC"));
    assert!(manager.get("BTC").is_some());
}

#[test]
fn the_error_says_why_there_is_no_sample() {
    let max = dec(79_228_162_514_264_337_593_543_950_335, 0);
    let mut calc = calculator("X");
    assert_eq!(calc.try_calculate_index("X", "A+B", 1).err(), Some(Missing::NoData));
    calc.update_price("A", max);
    calc.update_price("B", max);
    assert_eq!(calc.try_calculate_index("X", "C", 1).err(), Some(Missing::NoData));
    assert_eq!(calc.try_calculate_index("X", "A+B", 1).err(), Some(Missing::Overflow));
    assert_eq!(calc.samples().len(), 0);
    let sample = calc.try_calculate_index("X", "A+C", 7).unwrap();
    assert_eq!(sample.id, 7);
    assert_eq!(sample.last.mantissa(), max.mantissa());
    assert_eq!(calc.samples().len(), 1);
}

#[test]
fn the_error_says_why_there_is_no_mean() {
    let now = 1_700_000_000_000;
    let max = dec(79_228_162_514_264_337_593_543_950_335, 0);
    let mut calc = calculator("X");
    assert_eq!(calc.try_calculate_edp_at(now).err(), Some(Missing::NoData));
    calc.update_price("A", max);
    calc.calculate_index("X", "A", (now - 11 * MINUTE) as u64).unwrap();
    assert_eq!(calc.try_calculate_edp_at(now).err(), Some(Missing::NoData));
    calc.calculate_index("X", "A", now as u64).unwrap();
    calc.calculate_index("X", "A", now as u64).unwrap();
    assert_eq!(calc.try_calculate_edp_at(now).err(), Some(Missing::Overflow));
    assert_eq!(calc.samples().len(), 2);
    let mut calc = with_samples(now, &[(1, 4), (0, 2)]);
    assert_eq!(calc.try_calculate_edp_at(now).unwrap().to_text(), "3");
}
