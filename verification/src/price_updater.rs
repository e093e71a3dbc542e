//! The price updater: the latest ticker of every followed symbol goes into
//! the calculator of the index of that symbol.

use crate::calculator::{dec_zero, with_price, CalculatorManager, CalculatorView};
use crate::client::ClientView;
use crate::decimal::{decimal_parse, Decimal, DecimalView};
use crate::exchange::{exchange_name, ExchangeEnum};
use crate::manager::{ExchangeManager, Symbol};
use crate::text::concat3;
use crate::ticker::Tickers;
use vstd::prelude::*;

verus! {

/// The composite key of a price: the exchange, a dot, the canonical symbol.
pub open spec fn composite_key(exchange: Seq<char>, symbol: Seq<char>) -> Seq<char> {
    exchange + "."@ + symbol
}

/// The price of a ticker: what its text reads as, or zero where it reads as
/// nothing.
pub open spec fn price_or_zero(price: Option<DecimalView>) -> DecimalView {
    match price {
        Some(p) => p,
        None => dec_zero(),
    }
}

/// The calculators after the tickers of a list of symbols of one exchange
/// were taken in, in order. A symbol that has a ticker puts its price into
/// the calculator of the index that carries its canonical name, under the
/// composite key; one that has none is passed over.
pub open spec fn prices_after_symbols(
    calculators: Map<Seq<char>, CalculatorView>,
    exchange: ExchangeEnum,
    tickers: Tickers,
    symbols: Seq<Symbol>,
) -> Map<Seq<char>, CalculatorView>
    decreases symbols.len(),
{
    if symbols.len() == 0 {
        calculators
    } else {
        let front = prices_after_symbols(calculators, exchange, tickers, symbols.drop_last());
        let name = symbols.last().symbol_name@;
        if tickers.contains_key(name) {
            with_price(
                front,
                name,
                composite_key(exchange_name(exchange), name),
                price_or_zero(decimal_parse(tickers[name].last_pr)),
            )
        } else {
            front
        }
    }
}

/// The calculators after the tickers of a list of exchanges were taken in,
/// in order. An exchange without a client is passed over.
pub open spec fn prices_after_tasks(
    calculators: Map<Seq<char>, CalculatorView>,
    clients: Map<ExchangeEnum, ClientView>,
    tasks: Seq<(ExchangeEnum, Vec<Symbol>)>,
) -> Map<Seq<char>, CalculatorView>
    decreases tasks.len(),
{
    if tasks.len() == 0 {
        calculators
    } else {
        let front = prices_after_tasks(calculators, clients, tasks.drop_last());
        let exchange = tasks.last().0;
        if clients.contains_key(exchange) {
            prices_after_symbols(front, exchange, clients[exchange].tickers, tasks.last().1@)
        } else {
            front
        }
    }
}

/// Puts the price of one ticker into the calculator of an index, under the
/// composite key of the exchange and the symbol. The price is what the text
/// was read as, or zero.
pub fn apply_price(
    calculators: &mut CalculatorManager,
    exchange: ExchangeEnum,
    symbol_name: &str,
    price: Option<Decimal>,
)
    requires
        old(calculators).wf(),
    ensures
        final(calculators).wf(),
        final(calculators)@ == with_price(
            old(calculators)@,
            symbol_name@,
            composite_key(exchange_name(exchange), symbol_name@),
            price_or_zero(
                match price {
                    Some(p) => Some(p@),
                    None => None,
                },
            ),
        ),
{
    let value = match price {
        Some(p) => p,
        None => Decimal::zero(),
    };
    let key = concat3(exchange.name(), ".", symbol_name);
    calculators.update_price(symbol_name, key.as_str(), value);
}

/// One pass of the price updater.
pub fn update_prices(
    manager: &ExchangeManager,
    calculators: &mut CalculatorManager,
    task_symbols: &Vec<(ExchangeEnum, Vec<Symbol>)>,
)
    requires
        manager.wf(),
        old(calculators).wf(),
    ensures
        final(calculators).wf(),
        final(calculators)@ == prices_after_tasks(old(calculators)@, manager@, task_symbols@),
{
    let mut i: usize = 0;
    proof {
        assert(task_symbols@.take(0) =~= Seq::<(ExchangeEnum, Vec<Symbol>)>::empty());
    }
    while i < task_symbols.len()
        invariant
            i <= task_symbols@.len(),
            manager.wf(),
            calculators.wf(),
            calculators@ == prices_after_tasks(
                old(calculators)@,
                manager@,
                task_symbols@.take(i as int),
            ),
        decreases task_symbols@.len() - i,
    {
        proof {
            assert(task_symbols@.take(i + 1).drop_last() =~= task_symbols@.take(i as int));
            assert(task_symbols@.take(i + 1).last() == task_symbols@[i as int]);
        }
        let exchange = task_symbols[i].0;
        let symbols = &task_symbols[i].1;
        match manager.get_client(exchange) {
            Some(client) => {
                let ghost start = calculators@;
                let ghost tickers = client@.tickers;
                let mut j: usize = 0;
                proof {
                    assert(symbols@.take(0) =~= Seq::<Symbol>::empty());
                }
                while j < symbols.len()
                    invariant
                        j <= symbols@.len(),
                        calculators.wf(),
                        tickers == client@.tickers,
                        calculators@ == prices_after_symbols(
                            start,
                            exchange,
                            tickers,
                            symbols@.take(j as int),
                        ),
                    decreases symbols@.len() - j,
                {
                    proof {
                        assert(symbols@.take(j + 1).drop_last() =~= symbols@.take(j as int));
                        assert(symbols@.take(j + 1).last() == symbols@[j as int]);
                    }
                    let name = symbols[j].symbol_name.as_str();
                    match client.get_ticker(name) {
                        Some(ticker) => {
                            let price = Decimal::parse(ticker.last_pr.as_str());
                            apply_price(calculators, exchange, name, price);
                        },
                        None => {},
                    }
                    j = j + 1;
                }
                proof {
                    assert(symbols@.take(j as int) =~= symbols@);
                }
            },
            None => {},
        }
        i = i + 1;
    }
    proof {
        assert(task_symbols@.take(i as int) =~= task_symbols@);
    }
}

} // verus!
