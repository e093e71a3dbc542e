//! The candle persister: every symbol has a queue of its own, made when the
//! first candle of the symbol arrives. The queues and their workers are the
//! caller's; this module says which queue a candle goes to and which table
//! it is written to.

use crate::text::{concat2, lowercase_text, outside_lowercase, string_views};
use crate::text_map::{lemma_position_of, position_of};
use vstd::prelude::*;

verus! {

/// The table that holds the candles of a symbol.
pub open spec fn kline_table(symbol: Seq<char>) -> Seq<char> {
    "index_kline_"@ + lowercase_text(symbol)
}

/// The name of the table that holds the candles of a symbol.
pub fn kline_table_name(symbol: &str) -> (r: String)
    ensures
        r@ == kline_table(symbol@),
{
    let lower = outside_lowercase(symbol);
    concat2("index_kline_", lower.as_str())
}

/// Where a candle goes.
#[derive(Debug, Clone, Copy, PartialEq, Eq, Structural)]
pub enum Route {
    /// To the queue with this number, which is there already.
    Existing(usize),
    /// To the queue with this number, which has to be made first, with its
    /// worker.
    Created(usize),
}

/// The queues of the persister: the symbol of each, by the number of the
/// queue.
pub struct KlineRouter {
    symbols: Vec<String>,
}

impl View for KlineRouter {
    type V = Seq<Seq<char>>;

    closed spec fn view(&self) -> Seq<Seq<char>> {
        string_views(self.symbols@)
    }
}

/// Whether no symbol has two queues.
pub open spec fn one_queue_each(symbols: Seq<Seq<char>>) -> bool {
    forall|i: int, j: int| 0 <= i < j < symbols.len() ==> symbols[i] != symbols[j]
}

/// The queue of a symbol, and the queues afterwards: the one that the
/// symbol has, or a new one at the end.
pub open spec fn routed(symbols: Seq<Seq<char>>, symbol: Seq<char>) -> (Route, Seq<Seq<char>>) {
    match position_of(symbols, symbol) {
        Some(i) => (Route::Existing(i as usize), symbols),
        None => (Route::Created(symbols.len() as usize), symbols.push(symbol)),
    }
}

/// The number of the queue of a route.
pub open spec fn queue_of(route: Route) -> int {
    match route {
        Route::Existing(i) => i as int,
        Route::Created(i) => i as int,
    }
}

/// A candle goes to the queue of its symbol, and a symbol keeps its queue:
/// after a symbol was routed, routing it again gives the same queue, which
/// is then there already; and the queues that were there stay where they
/// are.
pub proof fn lemma_symbol_keeps_queue(symbols: Seq<Seq<char>>, symbol: Seq<char>)
    requires
        one_queue_each(symbols),
        symbols.len() <= usize::MAX,
    ensures
        one_queue_each(routed(symbols, symbol).1),
        0 <= queue_of(routed(symbols, symbol).0) < routed(symbols, symbol).1.len(),
        routed(symbols, symbol).1[queue_of(routed(symbols, symbol).0)] == symbol,
        routed(routed(symbols, symbol).1, symbol).0 == Route::Existing(
            queue_of(routed(symbols, symbol).0) as usize,
        ),
        forall|i: int| 0 <= i < symbols.len() ==> routed(symbols, symbol).1[i] == symbols[i],
{
    lemma_position_of(symbols, symbol);
    let after = routed(symbols, symbol).1;
    lemma_position_of(after, symbol);
    match position_of(symbols, symbol) {
        Some(i) => {},
        None => {
            assert(after.drop_last() =~= symbols);
            assert(after[symbols.len() as int] == symbol);
        },
    }
}

impl KlineRouter {
    /// Whether the router is well formed: no symbol has two queues.
    pub closed spec fn wf(&self) -> bool {
        one_queue_each(self@)
    }

    /// In a well-formed router no symbol has two queues.
    pub proof fn lemma_wf(self)
        requires
            self.wf(),
        ensures
            one_queue_each(self@),
    {
    }

    /// A router without queues.
    pub fn new() -> (r: KlineRouter)
        ensures
            r.wf(),
            r@ == Seq::<Seq<char>>::empty(),
    {
        let r = KlineRouter { symbols: Vec::new() };
        proof {
            assert(r@ =~= Seq::<Seq<char>>::empty());
        }
        r
    }

    /// The number of queues.
    pub fn len(&self) -> (n: usize)
        ensures
            n == self@.len(),
    {
        self.symbols.len()
    }

    /// The queue that a candle of a symbol goes to. The first candle of a
    /// symbol gets a new queue; every later one goes to the same queue.
    pub fn route(&mut self, symbol: &str) -> (r: Route)
        requires
            old(self).wf(),
        ensures
            final(self).wf(),
            (r, final(self)@) == routed(old(self)@, symbol@),
    {
        let wanted = symbol.to_owned();
        let ghost keys = string_views(self.symbols@);
        let mut i: usize = 0;
        proof {
            lemma_position_of(keys, symbol@);
        }
        while i < self.symbols.len()
            invariant
                i <= self.symbols@.len(),
                wanted@ == symbol@,
                keys == string_views(self.symbols@),
                *self == *old(self),
                self.wf(),
                forall|j: int| 0 <= j < i ==> keys[j] != symbol@,
            decreases self.symbols@.len() - i,
        {
            if self.symbols[i] == wanted {
                proof {
                    assert(keys[i as int] == symbol@);
                    lemma_position_of(keys, symbol@);
                }
                return Route::Existing(i);
            }
            i = i + 1;
        }
        let n = self.symbols.len();
        proof {
            lemma_position_of(keys, symbol@);
            lemma_symbol_keeps_queue(keys, symbol@);
        }
        self.symbols.push(wanted);
        proof {
            assert(string_views(self.symbols@) =~= keys.push(symbol@));
        }
        Route::Created(n)
    }
}

} // verus!
