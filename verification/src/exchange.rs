//! The closed set of supported exchanges and their canonical names.

use crate::text::text_eq;
use vstd::prelude::*;

verus! {

/// A supported exchange.
#[derive(Debug, Clone, Copy, PartialEq, Eq, Hash, Structural)]
pub enum ExchangeEnum {
    Bitget,
    Binance,
    Okex,
}

/// An exchange as a client knows it: by its canonical name.
#[derive(Debug, Clone)]
pub struct Exchange {
    pub name: String,
}

/// The canonical name of an exchange, the first part of every composite price key.
pub open spec fn exchange_name(e: ExchangeEnum) -> Seq<char> {
    match e {
        ExchangeEnum::Bitget => "Bitget"@,
        ExchangeEnum::Binance => "Binance"@,
        ExchangeEnum::Okex => "Okex"@,
    }
}

/// The exchange that carries a canonical name, if any does.
pub open spec fn exchange_from_name(name: Seq<char>) -> Option<ExchangeEnum> {
    if name == "Bitget"@ {
        Some(ExchangeEnum::Bitget)
    } else if name == "Binance"@ {
        Some(ExchangeEnum::Binance)
    } else if name == "Okex"@ {
        Some(ExchangeEnum::Okex)
    } else {
        None
    }
}

impl ExchangeEnum {
    /// The canonical name.
    pub fn name(&self) -> (r: &'static str)
        ensures
            r@ == exchange_name(*self),
    {
        match self {
            ExchangeEnum::Bitget => "Bitget",
            ExchangeEnum::Binance => "Binance",
            ExchangeEnum::Okex => "Okex",
        }
    }

    /// Looks an exchange up by its canonical name; the match is exact and
    /// case-sensitive.
    pub fn from_name(name: &str) -> (r: Option<ExchangeEnum>)
        ensures
            r == exchange_from_name(name@),
    {
        if text_eq(name, "Bitget") {
            Some(ExchangeEnum::Bitget)
        } else if text_eq(name, "Binance") {
            Some(ExchangeEnum::Binance)
        } else if text_eq(name, "Okex") {
            Some(ExchangeEnum::Okex)
        } else {
            None
        }
    }
}

/// Every exchange is found again by its own name.
pub proof fn lemma_name_round_trip(e: ExchangeEnum)
    ensures
        exchange_from_name(exchange_name(e)) == Some(e),
{
    reveal_strlit("Bitget");
    reveal_strlit("Binance");
    reveal_strlit("Okex");
    assert("Bitget"@.len() == 6);
    assert("Binance"@.len() == 7);
    assert("Okex"@.len() == 4);
}

/// A name that is found belongs to the exchange it was found for.
pub proof fn lemma_from_name_is_exact(name: Seq<char>)
    ensures
        exchange_from_name(name) matches Some(e) ==> exchange_name(e) == name,
{
}

} // verus!
