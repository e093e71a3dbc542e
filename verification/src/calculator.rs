//! Index calculators: a price map per index, formula evaluation and the
//! rolling mean of recent samples.

use crate::clock::now_millis;
use crate::decimal::{
    dec_round_half_away, decimal_quotient, decimal_sum, decimal_text, Decimal, DecimalView,
};
use crate::formula::{formula_operands, is_plain_key, lemma_operands_of_three, parse_operands};
use crate::text::{join, join_texts, nat_text, string_views, u64_text};
use crate::text_map::{
    distinct_keys, keyed_map, lemma_keyed_push, lemma_keyed_update, lemma_position_at,
    lemma_position_of, position_of, TextMap,
};
use vstd::prelude::*;

verus! {

/// The width of the window of the rolling mean, in milliseconds.
pub const EDP_WINDOW_MS: i64 = 600_000;

/// The number of fractional digits of the rolling mean.
pub const EDP_DIGITS: u32 = 8;

/// One computed value of an index.
#[derive(Debug)]
pub struct Index {
    /// The time of the sample, in milliseconds.
    pub id: u64,
    /// The name of the index.
    pub symbol: String,
    /// The value.
    pub last: Decimal,
    /// The formula as it was given.
    pub formula: String,
    /// The prices that went into the value, for diagnostics.
    pub computed_formula: String,
}

/// What a sample holds.
pub struct IndexView {
    pub id: nat,
    pub symbol: Seq<char>,
    pub last: DecimalView,
    pub formula: Seq<char>,
    pub computed_formula: Seq<char>,
}

impl View for Index {
    type V = IndexView;

    open spec fn view(&self) -> IndexView {
        IndexView {
            id: self.id as nat,
            symbol: self.symbol@,
            last: self.last@,
            formula: self.formula@,
            computed_formula: self.computed_formula@,
        }
    }
}

impl Index {
    /// A copy of the sample.
    pub fn duplicate(&self) -> (r: Index)
        ensures
            r@ == self@,
    {
        Index {
            id: self.id,
            symbol: self.symbol.clone(),
            last: self.last,
            formula: self.formula.clone(),
            computed_formula: self.computed_formula.clone(),
        }
    }
}

/// The samples of a list.
pub open spec fn sample_views(samples: Seq<Index>) -> Seq<IndexView> {
    samples.map_values(|s: Index| s@)
}

/// The prices of a price map.
pub open spec fn price_views(prices: Map<Seq<char>, Decimal>) -> Map<Seq<char>, DecimalView> {
    prices.map_values(|d: Decimal| d@)
}

/// The running state of an evaluation: the sum and the printed prices of the
/// operands that were present.
pub struct Tally {
    pub sum: DecimalView,
    pub parts: Seq<Seq<char>>,
}

/// Zero with scale 0.
pub open spec fn dec_zero() -> DecimalView {
    DecimalView { mantissa: 0, scale: 0 }
}

/// A count as a decimal number.
pub open spec fn dec_count(n: nat) -> DecimalView {
    DecimalView { mantissa: n as int, scale: 0 }
}

/// The tally over a list of operand keys: an operand that has a price adds
/// it, one that has none is passed over. `None` where a sum overflows.
pub open spec fn tally(prices: Map<Seq<char>, DecimalView>, operands: Seq<Seq<char>>) -> Option<
    Tally,
>
    decreases operands.len(),
{
    if operands.len() == 0 {
        Some(Tally { sum: dec_zero(), parts: Seq::empty() })
    } else {
        match tally(prices, operands.drop_last()) {
            None => None,
            Some(t) => if prices.contains_key(operands.last()) {
                let price = prices[operands.last()];
                match decimal_sum(t.sum, price) {
                    None => None,
                    Some(sum) => Some(Tally { sum, parts: t.parts.push(decimal_text(price)) }),
                }
            } else {
                Some(t)
            },
        }
    }
}

/// The trace of an evaluation: the single price, or the prices in
/// parentheses, joined by ` + `, over their number.
pub open spec fn trace_text(parts: Seq<Seq<char>>) -> Seq<char> {
    if parts.len() > 1 {
        "("@ + join_texts(parts, " + "@) + ") / "@ + nat_text(parts.len())
    } else {
        join_texts(parts, " + "@)
    }
}

/// The exception check on a computed value. It lets every value through.
pub open spec fn checked_value(margin: DecimalView, value: DecimalView) -> DecimalView {
    value
}

/// The sample that a formula yields over a price map: the mean of the
/// operands that have a price. `None` where no operand has one, or where the
/// arithmetic overflows.
pub open spec fn evaluate(
    prices: Map<Seq<char>, DecimalView>,
    margin: DecimalView,
    name: Seq<char>,
    formula: Seq<char>,
    time: nat,
) -> Option<IndexView> {
    match tally(prices, formula_operands(formula)) {
        None => None,
        Some(t) => if t.parts.len() == 0 {
            None
        } else {
            match decimal_quotient(t.sum, dec_count(t.parts.len())) {
                None => None,
                Some(mean) => Some(
                    IndexView {
                        id: time,
                        symbol: name,
                        last: checked_value(margin, mean),
                        formula,
                        computed_formula: trace_text(t.parts),
                    },
                ),
            }
        },
    }
}

/// Why a computation yields nothing.
#[derive(Debug, Clone, Copy, PartialEq, Eq, Structural)]
pub enum Missing {
    /// There is nothing to compute from: no operand has a price, or no
    /// sample is within the window.
    NoData,
    /// A sum or a quotient does not fit a decimal number.
    Overflow,
}

/// Whether the evaluation of a formula over a price map overflows: in the
/// sum of the prices, or in the quotient of the sum and the count.
pub open spec fn evaluation_overflows(prices: Map<Seq<char>, DecimalView>, formula: Seq<char>)
    -> bool {
    match tally(prices, formula_operands(formula)) {
        None => true,
        Some(t) => t.parts.len() > 0 && decimal_quotient(t.sum, dec_count(t.parts.len()))
            is None,
    }
}

/// Whether no operand of a formula has a price.
pub open spec fn no_operand_has_a_price(prices: Map<Seq<char>, DecimalView>, formula: Seq<char>)
    -> bool {
    match tally(prices, formula_operands(formula)) {
        None => false,
        Some(t) => t.parts.len() == 0,
    }
}

/// An evaluation yields no sample exactly where it overflows or no operand
/// has a price, and never for both reasons.
pub proof fn lemma_no_sample(
    prices: Map<Seq<char>, DecimalView>,
    margin: DecimalView,
    name: Seq<char>,
    formula: Seq<char>,
    time: nat,
)
    ensures
        evaluate(prices, margin, name, formula, time) is None <==> (evaluation_overflows(
            prices,
            formula,
        ) || no_operand_has_a_price(prices, formula)),
        !(evaluation_overflows(prices, formula) && no_operand_has_a_price(prices, formula)),
{
}

/// The mean of two prices as the arithmetic gives it: their sum, begun at
/// zero, over two.
pub open spec fn mean_of_two(x: DecimalView, y: DecimalView) -> Option<DecimalView> {
    match decimal_sum(dec_zero(), x) {
        None => None,
        Some(first) => match decimal_sum(first, y) {
            None => None,
            Some(both) => decimal_quotient(both, dec_count(2)),
        },
    }
}

/// An evaluation does not depend on the samples that a calculator keeps: the
/// one that follows another, over the same prices and at the same time,
/// yields the same sample.
pub proof fn lemma_evaluation_repeats(
    before: CalculatorView,
    name: Seq<char>,
    formula: Seq<char>,
    time: nat,
)
    ensures
        match evaluate(before.prices, before.margin, name, formula, time) {
            Some(sample) => {
                let after = CalculatorView { samples: before.samples.push(sample), ..before };
                evaluate(after.prices, after.margin, name, formula, time) == Some(sample)
            },
            None => true,
        },
{
}

/// An operand without a price does not enter the mean: over the formula
/// `a+b+c`, with prices for `a` and `c` only, the value is the mean of those
/// two prices, the divisor being two and not three.
pub proof fn lemma_missing_operand_is_left_out(
    prices: Map<Seq<char>, DecimalView>,
    margin: DecimalView,
    name: Seq<char>,
    a: Seq<char>,
    b: Seq<char>,
    c: Seq<char>,
    time: nat,
)
    requires
        is_plain_key(a),
        is_plain_key(b),
        is_plain_key(c),
        prices.contains_key(a),
        !prices.contains_key(b),
        prices.contains_key(c),
    ensures
        match evaluate(prices, margin, name, a + seq!['+'] + b + seq!['+'] + c, time) {
            Some(sample) => mean_of_two(prices[a], prices[c]) == Some(sample.last),
            None => mean_of_two(prices[a], prices[c]) is None,
        },
{
    let keys = seq![a, b, c];
    lemma_operands_of_three(a, b, c);
    assert(keys.drop_last() =~= seq![a, b]);
    assert(keys.drop_last().drop_last() =~= seq![a]);
    assert(keys.drop_last().drop_last().drop_last() =~= Seq::<Seq<char>>::empty());
    assert(keys.last() == c);
    assert(seq![a, b].last() == b);
    assert(seq![a].last() == a);
    reveal_with_fuel(tally, 4);
    let t1 = tally(prices, seq![a]);
    assert(t1 == match decimal_sum(dec_zero(), prices[a]) {
        None => None::<Tally>,
        Some(sum) => Some(
            Tally { sum, parts: Seq::<Seq<char>>::empty().push(decimal_text(prices[a])) },
        ),
    });
    assert(tally(prices, seq![a, b]) == t1);
}

/// Whether a sample is within the window that ends at `now_ms`.
pub open spec fn is_recent(now_ms: int) -> spec_fn(IndexView) -> bool {
    |s: IndexView| s.id >= now_ms - EDP_WINDOW_MS
}

/// The samples within the window that ends at `now_ms`.
pub open spec fn recent_samples(samples: Seq<IndexView>, now_ms: int) -> Seq<IndexView> {
    samples.filter(is_recent(now_ms))
}

/// The sum of the values of a list of samples, `None` where it overflows.
pub open spec fn sum_of_samples(samples: Seq<IndexView>) -> Option<DecimalView>
    decreases samples.len(),
{
    if samples.len() == 0 {
        Some(dec_zero())
    } else {
        match sum_of_samples(samples.drop_last()) {
            None => None,
            Some(s) => decimal_sum(s, samples.last().last),
        }
    }
}

/// The rolling mean at `now_ms`: the mean of the samples within the window,
/// rounded to eight fractional digits, a midpoint going away from zero.
/// `None` where the window is empty or the arithmetic overflows.
pub open spec fn edp_value(samples: Seq<IndexView>, now_ms: int) -> Option<DecimalView> {
    let kept = recent_samples(samples, now_ms);
    if kept.len() == 0 {
        None
    } else {
        match sum_of_samples(kept) {
            None => None,
            Some(sum) => match decimal_quotient(sum, dec_count(kept.len())) {
                None => None,
                Some(mean) => Some(dec_round_half_away(mean, EDP_DIGITS as nat)),
            },
        }
    }
}

/// Whether the rolling mean at `now_ms` overflows: there are samples within
/// the window, and their sum or its quotient by their number does not fit.
pub open spec fn edp_overflows(samples: Seq<IndexView>, now_ms: int) -> bool {
    let kept = recent_samples(samples, now_ms);
    kept.len() > 0 && match sum_of_samples(kept) {
        None => true,
        Some(sum) => decimal_quotient(sum, dec_count(kept.len())) is None,
    }
}

/// The calculator of one index.
pub struct IndexCalculator {
    index_name: String,
    exception_percent_margin: Decimal,
    price_map: TextMap<Decimal>,
    index_list: Vec<Index>,
}

/// What a calculator holds.
pub struct CalculatorView {
    pub name: Seq<char>,
    pub margin: DecimalView,
    pub prices: Map<Seq<char>, DecimalView>,
    pub samples: Seq<IndexView>,
}

impl View for IndexCalculator {
    type V = CalculatorView;

    closed spec fn view(&self) -> CalculatorView {
        CalculatorView {
            name: self.index_name@,
            margin: self.exception_percent_margin@,
            prices: price_views(self.price_map@),
            samples: sample_views(self.index_list@),
        }
    }
}

/// Composes the trace of an evaluation.
fn compose_trace(parts: &Vec<String>) -> (r: String)
    ensures
        r@ == trace_text(string_views(parts@)),
{
    let joined = join(parts, " + ");
    if parts.len() > 1 {
        let mut out = "(".to_owned();
        out.append(joined.as_str());
        out.append(") / ");
        let count = u64_text(parts.len() as u64);
        out.append(count.as_str());
        out
    } else {
        joined
    }
}

impl IndexCalculator {
    /// Whether the calculator is well formed.
    pub closed spec fn wf(&self) -> bool {
        self.price_map.wf()
    }

    /// A calculator with no prices and no samples.
    pub fn new(index_name: String, exception_percent_margin: Decimal) -> (r: IndexCalculator)
        ensures
            r.wf(),
            r@ == (CalculatorView {
                name: index_name@,
                margin: exception_percent_margin@,
                prices: Map::empty(),
                samples: Seq::empty(),
            }),
    {
        let r = IndexCalculator {
            index_name,
            exception_percent_margin,
            price_map: TextMap::new(),
            index_list: Vec::new(),
        };
        proof {
            assert(r@.prices =~= Map::empty());
            assert(r@.samples =~= Seq::empty());
        }
        r
    }

    /// The name of the index.
    pub fn index_name(&self) -> (r: &String)
        ensures
            r@ == self@.name,
    {
        &self.index_name
    }

    /// The tolerance of the exception check.
    pub fn exception_percent_margin(&self) -> (r: Decimal)
        ensures
            r@ == self@.margin,
    {
        self.exception_percent_margin
    }

    /// The price under a composite key.
    pub fn price(&self, key: &str) -> (r: Option<Decimal>)
        requires
            self.wf(),
        ensures
            match r {
                Some(p) => self@.prices.contains_key(key@) && self@.prices[key@] == p@,
                None => !self@.prices.contains_key(key@),
            },
    {
        match self.price_map.get(key) {
            Some(p) => Some(*p),
            None => None,
        }
    }

    /// The samples that are kept, oldest first.
    pub fn samples(&self) -> (r: &Vec<Index>)
        ensures
            sample_views(r@) == self@.samples,
    {
        &self.index_list
    }

    /// Puts a price under a composite key; a price that was there is
    /// replaced.
    pub fn update_price(&mut self, key: &str, price: Decimal)
        requires
            old(self).wf(),
        ensures
            final(self).wf(),
            final(self)@ == (CalculatorView {
                prices: old(self)@.prices.insert(key@, price@),
                ..old(self)@
            }),
    {
        self.price_map.insert(key, price);
        proof {
            assert(self@.prices =~= old(self)@.prices.insert(key@, price@));
        }
    }

    /// The exception check on a computed value. It lets every value through;
    /// the margin is kept for a check by the median.
    fn check_exception(&self, price: Decimal) -> (r: Decimal)
        ensures
            r@ == checked_value(self@.margin, price@),
    {
        price
    }

    /// Adds up the operands that have a price.
    fn tally_operands(&self, operands: &Vec<String>) -> (r: Option<(Decimal, Vec<String>)>)
        requires
            self.wf(),
        ensures
            match r {
                Some((sum, parts)) => tally(self@.prices, string_views(operands@)) == Some(
                    Tally { sum: sum@, parts: string_views(parts@) },
                ),
                None => tally(self@.prices, string_views(operands@)) is None,
            },
    {
        let mut sum = Decimal::zero();
        let mut parts: Vec<String> = Vec::new();
        let mut i: usize = 0;
        let ghost keys = string_views(operands@);
        proof {
            assert(keys.take(0) =~= Seq::<Seq<char>>::empty());
            assert(string_views(parts@) =~= Seq::<Seq<char>>::empty());
        }
        while i < operands.len()
            invariant
                self.wf(),
                i <= operands@.len(),
                keys == string_views(operands@),
                tally(self@.prices, keys.take(i as int)) == Some(
                    Tally { sum: sum@, parts: string_views(parts@) },
                ),
            decreases operands@.len() - i,
        {
            proof {
                assert(keys.take(i + 1).drop_last() =~= keys.take(i as int));
                assert(keys.take(i + 1).last() == operands@[i as int]@);
            }
            match self.price_map.get(operands[i].as_str()) {
                Some(price) => {
                    match sum.checked_add(*price) {
                        Some(next) => {
                            let text = price.to_text();
                            let ghost before = string_views(parts@);
                            parts.push(text);
                            sum = next;
                            proof {
                                assert(string_views(parts@) =~= before.push(decimal_text(price@)));
                            }
                        },
                        None => {
                            proof {
                                lemma_tally_overflow(self@.prices, keys, i + 1);
                            }
                            return None;
                        },
                    }
                },
                None => {},
            }
            i = i + 1;
        }
        proof {
            assert(keys.take(i as int) =~= keys);
        }
        Some((sum, parts))
    }

    /// Evaluates a formula over the prices as they stand and keeps the
    /// sample. The value is the mean of the operands that have a price; the
    /// divisor that the formula declares does not enter it. Where there is
    /// no sample nothing is kept, and the error says why: no operand has a
    /// price, or the arithmetic overflows.
    pub fn try_calculate_index(&mut self, name: &str, formula: &str, time: u64) -> (r: Result<
        Index,
        Missing,
    >)
        requires
            old(self).wf(),
        ensures
            final(self).wf(),
            match r {
                Ok(index) => evaluate(
                    old(self)@.prices,
                    old(self)@.margin,
                    name@,
                    formula@,
                    time as nat,
                ) == Some(index@) && final(self)@ == (CalculatorView {
                    samples: old(self)@.samples.push(index@),
                    ..old(self)@
                }),
                Err(why) => evaluate(
                    old(self)@.prices,
                    old(self)@.margin,
                    name@,
                    formula@,
                    time as nat,
                ) is None && final(self)@ == old(self)@ && (why == Missing::Overflow
                    <==> evaluation_overflows(old(self)@.prices, formula@)),
            },
    {
        let operands = parse_operands(formula);
        let (sum, parts) = match self.tally_operands(&operands) {
            Some(t) => t,
            None => {
                return Err(Missing::Overflow);
            },
        };
        if parts.len() == 0 {
            return Err(Missing::NoData);
        }
        let count = Decimal::from_u64(parts.len() as u64);
        let mean = match sum.checked_div(count) {
            Some(m) => m,
            None => {
                return Err(Missing::Overflow);
            },
        };
        let last = self.check_exception(mean);
        let index = Index {
            id: time,
            symbol: name.to_owned(),
            last,
            formula: formula.to_owned(),
            computed_formula: compose_trace(&parts),
        };
        let kept = index.duplicate();
        self.index_list.push(kept);
        proof {
            assert(self@.samples =~= old(self)@.samples.push(index@));
        }
        Ok(index)
    }

    /// Evaluates a formula over the prices as they stand and keeps the
    /// sample. Returns `None`, and keeps nothing, where no operand has a
    /// price or the arithmetic overflows.
    pub fn calculate_index(&mut self, name: &str, formula: &str, time: u64) -> (r: Option<Index>)
        requires
            old(self).wf(),
        ensures
            final(self).wf(),
            match r {
                Some(index) => evaluate(
                    old(self)@.prices,
                    old(self)@.margin,
                    name@,
                    formula@,
                    time as nat,
                ) == Some(index@) && final(self)@ == (CalculatorView {
                    samples: old(self)@.samples.push(index@),
                    ..old(self)@
                }),
                None => evaluate(
                    old(self)@.prices,
                    old(self)@.margin,
                    name@,
                    formula@,
                    time as nat,
                ) is None && final(self)@ == old(self)@,
            },
    {
        match self.try_calculate_index(name, formula, time) {
            Ok(index) => Some(index),
            Err(_) => None,
        }
    }

    /// Drops the samples that are older than the window that ends at
    /// `now_ms`; the others stay, in their order.
    fn prune(&mut self, now_ms: i64)
        requires
            old(self).wf(),
        ensures
            final(self).wf(),
            final(self)@ == (CalculatorView {
                samples: recent_samples(old(self)@.samples, now_ms as int),
                ..old(self)@
            }),
    {
        let ghost orig = sample_views(self.index_list@);
        let ghost keep = is_recent(now_ms as int);
        let ghost mut k: int = 0;
        let mut i: usize = 0;
        proof {
            reveal(Seq::filter);
            assert(orig.take(0) =~= Seq::<IndexView>::empty());
            assert(orig.skip(0) =~= orig);
            assert(orig.take(0).filter(keep) + orig.skip(0) =~= orig);
        }
        while i < self.index_list.len()
            invariant
                self.wf(),
                self.price_map == old(self).price_map,
                self.index_name == old(self).index_name,
                self.exception_percent_margin == old(self).exception_percent_margin,
                orig == sample_views(old(self).index_list@),
                keep == is_recent(now_ms as int),
                0 <= k <= orig.len(),
                i == orig.take(k).filter(keep).len(),
                sample_views(self.index_list@) == orig.take(k).filter(keep) + orig.skip(k),
            decreases orig.len() - k,
        {
            let ghost current = sample_views(self.index_list@);
            proof {
                reveal(Seq::filter);
                assert(k < orig.len()) by {
                    assert(current.len() == i + orig.skip(k).len());
                }
                assert(current[i as int] == orig.skip(k)[0]);
                assert(orig.take(k + 1).drop_last() =~= orig.take(k));
                assert(orig.take(k + 1).last() == orig[k]);
            }
            let recent = self.index_list[i].id as i128 >= now_ms as i128 - EDP_WINDOW_MS as i128;
            if recent {
                proof {
                    assert(current =~= orig.take(k + 1).filter(keep) + orig.skip(k + 1));
                }
                i = i + 1;
            } else {
                self.index_list.remove(i);
                proof {
                    assert(sample_views(self.index_list@) =~= orig.take(k + 1).filter(keep)
                        + orig.skip(k + 1)) by {
                        assert(sample_views(self.index_list@) =~= current.remove(i as int));
                    }
                }
            }
            proof {
                k = k + 1;
            }
        }
        proof {
            assert(k == orig.len()) by {
                assert(sample_views(self.index_list@).len() == i + orig.skip(k).len());
            }
            assert(orig.take(k) =~= orig);
            assert(sample_views(self.index_list@) =~= orig.filter(keep));
        }
    }

    /// The sum of the values of the samples that are kept.
    fn sum_samples(&self) -> (r: Option<Decimal>)
        ensures
            match r {
                Some(sum) => sum_of_samples(self@.samples) == Some(sum@),
                None => sum_of_samples(self@.samples) is None,
            },
    {
        let mut sum = Decimal::zero();
        let mut i: usize = 0;
        let ghost all = sample_views(self.index_list@);
        proof {
            assert(all.take(0) =~= Seq::<IndexView>::empty());
        }
        while i < self.index_list.len()
            invariant
                i <= self.index_list@.len(),
                all == sample_views(self.index_list@),
                sum_of_samples(all.take(i as int)) == Some(sum@),
            decreases self.index_list@.len() - i,
        {
            proof {
                assert(all.take(i + 1).drop_last() =~= all.take(i as int));
                assert(all.take(i + 1).last() == self.index_list@[i as int]@);
            }
            match sum.checked_add(self.index_list[i].last) {
                Some(next) => {
                    sum = next;
                },
                None => {
                    proof {
                        lemma_sum_overflow(all, i + 1);
                    }
                    return None;
                },
            }
            i = i + 1;
        }
        proof {
            assert(all.take(i as int) =~= all);
        }
        Some(sum)
    }

    /// The rolling mean at `now_ms`. Samples older than ten minutes are
    /// dropped for good; the mean of the others comes back rounded to eight
    /// fractional digits. Where there is no mean the error says why: no
    /// sample is left, or the arithmetic overflows.
    pub fn try_calculate_edp_at(&mut self, now_ms: i64) -> (r: Result<Decimal, Missing>)
        requires
            old(self).wf(),
        ensures
            final(self).wf(),
            final(self)@ == (CalculatorView {
                samples: recent_samples(old(self)@.samples, now_ms as int),
                ..old(self)@
            }),
            match r {
                Ok(mean) => edp_value(old(self)@.samples, now_ms as int) == Some(mean@),
                Err(why) => edp_value(old(self)@.samples, now_ms as int) is None && (why
                    == Missing::Overflow <==> edp_overflows(old(self)@.samples, now_ms as int)),
            },
    {
        self.prune(now_ms);
        if self.index_list.len() == 0 {
            return Err(Missing::NoData);
        }
        let sum = match self.sum_samples() {
            Some(s) => s,
            None => {
                return Err(Missing::Overflow);
            },
        };
        let count = Decimal::from_u64(self.index_list.len() as u64);
        match sum.checked_div(count) {
            Some(mean) => Ok(mean.round_half_away(EDP_DIGITS)),
            None => Err(Missing::Overflow),
        }
    }

    /// The rolling mean at `now_ms`. Samples older than ten minutes are
    /// dropped for good; the mean of the others comes back rounded to eight
    /// fractional digits. Returns `None` where no sample is left or the
    /// arithmetic overflows.
    pub fn calculate_edp_at(&mut self, now_ms: i64) -> (r: Option<Decimal>)
        requires
            old(self).wf(),
        ensures
            final(self).wf(),
            final(self)@ == (CalculatorView {
                samples: recent_samples(old(self)@.samples, now_ms as int),
                ..old(self)@
            }),
            match r {
                Some(mean) => edp_value(old(self)@.samples, now_ms as int) == Some(mean@),
                None => edp_value(old(self)@.samples, now_ms as int) is None,
            },
    {
        match self.try_calculate_edp_at(now_ms) {
            Ok(mean) => Some(mean),
            Err(_) => None,
        }
    }

    /// The rolling mean as of now on the wall clock.
    pub fn calculate_edp(&mut self) -> (r: Option<Decimal>)
        requires
            old(self).wf(),
        ensures
            final(self).wf(),
            exists|now_ms: int|
                {
                    &&& final(self)@ == (CalculatorView {
                        samples: recent_samples(old(self)@.samples, now_ms),
                        ..old(self)@
                    })
                    &&& match r {
                        Some(mean) => #[trigger] edp_value(old(self)@.samples, now_ms) == Some(
                            mean@,
                        ),
                        None => edp_value(old(self)@.samples, now_ms) is None,
                    }
                },
    {
        let now = now_millis();
        let r = self.calculate_edp_at(now);
        proof {
            let witness = now as int;
            assert(match r {
                Some(mean) => edp_value(old(self)@.samples, witness) == Some(mean@),
                None => edp_value(old(self)@.samples, witness) is None,
            });
        }
        r
    }
}

/// Once a prefix of the operands overflows, so does the whole list.
proof fn lemma_tally_overflow(prices: Map<Seq<char>, DecimalView>, keys: Seq<Seq<char>>, n: int)
    requires
        0 <= n <= keys.len(),
        tally(prices, keys.take(n)) is None,
    ensures
        tally(prices, keys) is None,
    decreases keys.len() - n,
{
    if n < keys.len() {
        assert(keys.take(n + 1).drop_last() =~= keys.take(n));
        lemma_tally_overflow(prices, keys, n + 1);
    } else {
        assert(keys.take(n) =~= keys);
    }
}

/// Once a prefix of the samples overflows, so does the whole list.
proof fn lemma_sum_overflow(samples: Seq<IndexView>, n: int)
    requires
        0 <= n <= samples.len(),
        sum_of_samples(samples.take(n)) is None,
    ensures
        sum_of_samples(samples) is None,
    decreases samples.len() - n,
{
    if n < samples.len() {
        assert(samples.take(n + 1).drop_last() =~= samples.take(n));
        lemma_sum_overflow(samples, n + 1);
    } else {
        assert(samples.take(n) =~= samples);
    }
}

/// The definition of an index: its name and its formula.
#[derive(Debug)]
pub struct IndexConfig {
    pub id: i32,
    pub name: String,
    pub formula: String,
    pub is_active: bool,
}

/// The calculators of all indexes, by index name.
pub struct CalculatorManager {
    calculators: Vec<IndexCalculator>,
}

/// The names of a list of calculators.
pub open spec fn calculator_names(list: Seq<IndexCalculator>) -> Seq<Seq<char>> {
    list.map_values(|c: IndexCalculator| c@.name)
}

/// The map that a list of calculators stands for when each is put under its
/// own name, a later one replacing an earlier one of the same name.
pub open spec fn calculators_from(list: Seq<IndexCalculator>) -> Map<Seq<char>, CalculatorView>
    decreases list.len(),
{
    if list.len() == 0 {
        Map::empty()
    } else {
        calculators_from(list.drop_last()).insert(list.last()@.name, list.last()@)
    }
}

/// The calculators after a price was put under a composite key in the
/// calculator of an index; unchanged where the index has no calculator.
pub open spec fn with_price(
    calculators: Map<Seq<char>, CalculatorView>,
    index_name: Seq<char>,
    key: Seq<char>,
    price: DecimalView,
) -> Map<Seq<char>, CalculatorView> {
    if calculators.contains_key(index_name) {
        calculators.insert(
            index_name,
            CalculatorView {
                prices: calculators[index_name].prices.insert(key, price),
                ..calculators[index_name]
            },
        )
    } else {
        calculators
    }
}

/// The states of a list of calculators.
pub open spec fn calculator_views(list: Seq<IndexCalculator>) -> Seq<CalculatorView> {
    list.map_values(|c: IndexCalculator| c@)
}

impl View for CalculatorManager {
    type V = Map<Seq<char>, CalculatorView>;

    closed spec fn view(&self) -> Map<Seq<char>, CalculatorView> {
        keyed_map(calculator_names(self.calculators@), calculator_views(self.calculators@))
    }
}

impl CalculatorManager {
    /// Whether the manager is well formed: every calculator is, and no name
    /// stands in it twice.
    pub closed spec fn wf(&self) -> bool {
        &&& forall|i: int| 0 <= i < self.calculators@.len() ==> (#[trigger] self.calculators@[i]).wf()
        &&& distinct_keys(calculator_names(self.calculators@))
    }

    /// A manager without calculators.
    pub fn empty() -> (r: CalculatorManager)
        ensures
            r.wf(),
            r@ == Map::<Seq<char>, CalculatorView>::empty(),
    {
        let r = CalculatorManager { calculators: Vec::new() };
        proof {
            assert(r@ =~= Map::<Seq<char>, CalculatorView>::empty());
        }
        r
    }

    /// A manager that holds the given calculators, each under its own name.
    /// Of two with one name the later one stays.
    pub fn new(calculators: Vec<IndexCalculator>) -> (r: CalculatorManager)
        requires
            forall|i: int| 0 <= i < calculators@.len() ==> (#[trigger] calculators@[i]).wf(),
        ensures
            r.wf(),
            r@ == calculators_from(calculators@),
    {
        let mut r = CalculatorManager::empty();
        let mut rest = calculators;
        let ghost all = calculators@;
        let ghost mut n: int = 0;
        proof {
            assert(all.take(0) =~= Seq::<IndexCalculator>::empty());
            assert(all.skip(0) =~= all);
        }
        while rest.len() > 0
            invariant
                r.wf(),
                0 <= n <= all.len(),
                rest@ == all.skip(n),
                r@ == calculators_from(all.take(n)),
                forall|i: int| 0 <= i < all.len() ==> (#[trigger] all[i]).wf(),
            decreases rest@.len(),
        {
            let calc = rest.remove(0);
            proof {
                assert(calc == all[n]);
                assert(all.take(n + 1).drop_last() =~= all.take(n));
                assert(all.take(n + 1).last() == all[n]);
                assert(rest@ =~= all.skip(n + 1));
                n = n + 1;
            }
            r.insert(calc);
        }
        proof {
            assert(all.take(n) =~= all);
        }
        r
    }

    fn position(&self, name: &str) -> (r: Option<usize>)
        requires
            self.wf(),
        ensures
            match r {
                Some(i) => i < self.calculators@.len() && position_of(
                    calculator_names(self.calculators@),
                    name@,
                ) == Some(i as int) && self.calculators@[i as int]@.name == name@,
                None => position_of(calculator_names(self.calculators@), name@) is None,
            },
    {
        let wanted = name.to_owned();
        let ghost names = calculator_names(self.calculators@);
        let mut i: usize = 0;
        while i < self.calculators.len()
            invariant
                i <= self.calculators@.len(),
                wanted@ == name@,
                names == calculator_names(self.calculators@),
                distinct_keys(names),
                forall|j: int| 0 <= j < i ==> names[j] != name@,
            decreases self.calculators@.len() - i,
        {
            if *self.calculators[i].index_name() == wanted {
                proof {
                    assert(names[i as int] == name@);
                    lemma_position_at(names, i as int);
                }
                return Some(i);
            }
            i = i + 1;
        }
        proof {
            lemma_position_of(names, name@);
        }
        None
    }

    /// Puts a calculator under its own name; one that was there is replaced.
    pub fn insert(&mut self, calculator: IndexCalculator)
        requires
            old(self).wf(),
            calculator.wf(),
        ensures
            final(self).wf(),
            final(self)@ == old(self)@.insert(calculator@.name, calculator@),
    {
        let ghost names0 = calculator_names(self.calculators@);
        let ghost views0 = calculator_views(self.calculators@);
        let ghost key = calculator@.name;
        let ghost value = calculator@;
        match self.position(calculator.index_name().as_str()) {
            Some(i) => {
                self.calculators.set(i, calculator);
                proof {
                    self.lemma_replaced(*old(self), i as int);
                }
            },
            None => {
                self.calculators.push(calculator);
                proof {
                    assert(calculator_names(self.calculators@) =~= names0.push(key));
                    assert(calculator_views(self.calculators@) =~= views0.push(value));
                    lemma_keyed_push(names0, views0, key, value);
                }
            },
        }
    }

    /// The calculator of an index.
    pub fn get(&self, index_name: &str) -> (r: Option<&IndexCalculator>)
        requires
            self.wf(),
        ensures
            match r {
                Some(c) => self@.contains_key(index_name@) && self@[index_name@] == c@ && c.wf(),
                None => !self@.contains_key(index_name@),
            },
    {
        match self.position(index_name) {
            Some(i) => Some(&self.calculators[i]),
            None => None,
        }
    }

    /// Puts a price under a composite key in the calculator of an index.
    /// Nothing changes where the index has no calculator.
    pub fn update_price(&mut self, index_name: &str, key: &str, price: Decimal)
        requires
            old(self).wf(),
        ensures
            final(self).wf(),
            final(self)@ == with_price(old(self)@, index_name@, key@, price@),
    {
        match self.position(index_name) {
            Some(i) => {
                self.calculators[i].update_price(key, price);
                proof {
                    self.lemma_replaced(*old(self), i as int);
                }
            },
            None => {},
        }
    }

    /// Evaluates a formula in the calculator of an index and keeps the
    /// sample there. Returns `None`, and changes nothing, where the index has
    /// no calculator or the evaluation yields no sample.
    pub fn calculate_index(&mut self, index_name: &str, formula: &str, time: u64) -> (r: Option<
        Index,
    >)
        requires
            old(self).wf(),
        ensures
            final(self).wf(),
            match r {
                Some(index) => {
                    &&& old(self)@.contains_key(index_name@)
                    &&& evaluate(
                        old(self)@[index_name@].prices,
                        old(self)@[index_name@].margin,
                        index_name@,
                        formula@,
                        time as nat,
                    ) == Some(index@)
                    &&& final(self)@ == old(self)@.insert(
                        index_name@,
                        CalculatorView {
                            samples: old(self)@[index_name@].samples.push(index@),
                            ..old(self)@[index_name@]
                        },
                    )
                },
                None => {
                    &&& final(self)@ == old(self)@
                    &&& old(self)@.contains_key(index_name@) ==> evaluate(
                        old(self)@[index_name@].prices,
                        old(self)@[index_name@].margin,
                        index_name@,
                        formula@,
                        time as nat,
                    ) is None
                },
            },
    {
        match self.position(index_name) {
            Some(i) => {
                let r = self.calculators[i].calculate_index(index_name, formula, time);
                proof {
                    self.lemma_replaced(*old(self), i as int);
                    if r is None {
                        assert(self@ =~= old(self)@);
                    }
                }
                r
            },
            None => None,
        }
    }

    /// Replacing the calculator at one position by one of the same name
    /// replaces the entry under that name and no other.
    proof fn lemma_replaced(self, before: CalculatorManager, i: int)
        requires
            before.wf(),
            0 <= i < before.calculators@.len(),
            self.calculators@.len() == before.calculators@.len(),
            self.calculators@[i].wf(),
            self.calculators@[i]@.name == before.calculators@[i]@.name,
            forall|j: int|
                0 <= j < before.calculators@.len() && j != i ==> self.calculators@[j]
                    == before.calculators@[j],
        ensures
            self.wf(),
            self@ == before@.insert(before.calculators@[i]@.name, self.calculators@[i]@),
    {
        let names0 = calculator_names(before.calculators@);
        let views0 = calculator_views(before.calculators@);
        assert(calculator_names(self.calculators@) =~= names0) by {
            assert forall|j: int| 0 <= j < names0.len() implies calculator_names(
                self.calculators@,
            )[j] == names0[j] by {
                if j != i {
                    assert(self.calculators@[j] == before.calculators@[j]);
                }
            }
        }
        assert(calculator_views(self.calculators@) =~= views0.update(i, self.calculators@[i]@))
            by {
            assert forall|j: int| 0 <= j < views0.len() implies calculator_views(
                self.calculators@,
            )[j] == views0.update(i, self.calculators@[i]@)[j] by {
                if j != i {
                    assert(self.calculators@[j] == before.calculators@[j]);
                }
            }
        }
        lemma_keyed_update(names0, views0, i, self.calculators@[i]@);
        assert forall|j: int| 0 <= j < self.calculators@.len() implies (
        #[trigger] self.calculators@[j]).wf() by {
            if j != i {
                assert(self.calculators@[j] == before.calculators@[j]);
            }
        }
    }
}

} // verus!
