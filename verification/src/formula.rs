//! The formula grammar.
//!
//! After spaces and parentheses are taken out, a formula is a numerator and
//! an optional divisor behind the first `/`. The numerator is a list of
//! composite price keys joined by `+`.

use crate::text::{chars_of, join_texts, string_from_chars, string_views};
use vstd::prelude::*;

verus! {

/// Whether a character is taken out of a formula before it is read: a blank
/// or a parenthesis.
pub open spec fn is_ignored(c: char) -> bool {
    c == ' ' || c == '\t' || c == '\n' || c == '\r' || c == '(' || c == ')'
}

/// The characters that stay in a formula.
pub open spec fn kept() -> spec_fn(char) -> bool {
    |c: char| !is_ignored(c)
}

/// A formula without blanks and parentheses.
pub open spec fn strip_formula(s: Seq<char>) -> Seq<char> {
    s.filter(kept())
}

/// The part of `s` before the first `stop`; all of `s` where it holds none.
pub open spec fn until_first(s: Seq<char>, stop: char) -> Seq<char> {
    match s.index_of_first(stop) {
        Some(i) => s.take(i),
        None => s,
    }
}

/// The pieces of `s` between occurrences of `sep`. There is one piece more
/// than there are separators; a piece may be empty.
pub open spec fn split_on(s: Seq<char>, sep: char) -> Seq<Seq<char>>
    decreases s.len(),
{
    if s.len() == 0 {
        seq![Seq::<char>::empty()]
    } else {
        let front = split_on(s.drop_last(), sep);
        if s.last() == sep {
            front.push(Seq::<char>::empty())
        } else {
            front.drop_last().push(front.last().push(s.last()))
        }
    }
}

/// The operand keys of a formula: the pieces of its numerator between `+`.
pub open spec fn formula_operands(formula: Seq<char>) -> Seq<Seq<char>> {
    split_on(until_first(strip_formula(formula), '/'), '+')
}

/// The contents of a sequence of character vectors.
pub open spec fn char_views(parts: Seq<Vec<char>>) -> Seq<Seq<char>> {
    parts.map_values(|p: Vec<char>| p@)
}

/// A split has at least one piece.
pub proof fn lemma_split_nonempty(s: Seq<char>, sep: char)
    ensures
        split_on(s, sep).len() >= 1,
    decreases s.len(),
{
    if s.len() > 0 {
        lemma_split_nonempty(s.drop_last(), sep);
    }
}

/// A text that holds no separator is its own single piece.
pub proof fn lemma_split_plain(s: Seq<char>, sep: char)
    requires
        !s.contains(sep),
    ensures
        split_on(s, sep) == seq![s],
    decreases s.len(),
{
    if s.len() > 0 {
        let front = s.drop_last();
        assert forall|i: int| 0 <= i < front.len() implies front[i] != sep by {
            assert(front[i] == s[i]);
        }
        lemma_split_plain(front, sep);
        assert(s.last() == s[s.len() - 1]);
        assert(seq![front].drop_last().push(seq![front].last().push(s.last())) =~= seq![s]) by {
            assert(front.push(s.last()) =~= s);
        }
    } else {
        assert(s =~= Seq::<char>::empty());
    }
}

/// Splitting goes through a separator: the pieces of `a`, `sep`, `b` are the
/// pieces of `a` followed by the pieces of `b`.
pub proof fn lemma_split_concat(a: Seq<char>, b: Seq<char>, sep: char)
    ensures
        split_on(a + seq![sep] + b, sep) == split_on(a, sep) + split_on(b, sep),
    decreases b.len(),
{
    let whole = a + seq![sep] + b;
    if b.len() == 0 {
        assert(whole.drop_last() =~= a);
        assert(whole.last() == sep);
        assert(split_on(a, sep).push(Seq::<char>::empty()) =~= split_on(a, sep) + split_on(
            b,
            sep,
        ));
    } else {
        let b0 = b.drop_last();
        lemma_split_concat(a, b0, sep);
        lemma_split_nonempty(b0, sep);
        assert(whole.drop_last() =~= a + seq![sep] + b0);
        assert(whole.last() == b.last());
        let left = split_on(a, sep);
        let right = split_on(b0, sep);
        if b.last() == sep {
            assert((left + right).push(Seq::<char>::empty()) =~= left + right.push(
                Seq::<char>::empty(),
            ));
        } else {
            assert((left + right).drop_last().push((left + right).last().push(b.last())) =~= left
                + right.drop_last().push(right.last().push(b.last())));
        }
    }
}

/// Splitting loses nothing: the pieces, joined by the separator, give the
/// text back, and no piece holds the separator.
pub proof fn lemma_split_joins_back(s: Seq<char>, sep: char)
    ensures
        join_texts(split_on(s, sep), seq![sep]) == s,
        forall|i: int|
            0 <= i < split_on(s, sep).len() ==> !(#[trigger] split_on(s, sep)[i]).contains(sep),
    decreases s.len(),
{
    if s.len() == 0 {
        assert(split_on(s, sep)[0] =~= s);
    } else {
        let rest = s.drop_last();
        let c = s.last();
        let front = split_on(rest, sep);
        lemma_split_joins_back(rest, sep);
        lemma_split_nonempty(rest, sep);
        let all = split_on(s, sep);
        assert(rest.push(c) =~= s);
        if c == sep {
            assert(all.drop_last() =~= front);
            assert(join_texts(all, seq![sep]) =~= rest + seq![sep] + Seq::<char>::empty());
            assert(rest + seq![sep] + Seq::<char>::empty() =~= s);
            assert forall|i: int| 0 <= i < all.len() implies !(#[trigger] all[i]).contains(sep) by {
                if i < front.len() {
                    assert(all[i] == front[i]);
                }
            }
        } else {
            let grown = front.last().push(c);
            assert(all == front.drop_last().push(grown));
            assert(all.drop_last() =~= front.drop_last());
            if front.len() == 1 {
                assert(front[0] == rest);
                assert(join_texts(all, seq![sep]) == grown);
            } else {
                assert(join_texts(all, seq![sep]) =~= join_texts(front.drop_last(), seq![sep])
                    + seq![sep] + grown);
                assert(join_texts(front, seq![sep]) =~= join_texts(front.drop_last(), seq![sep])
                    + seq![sep] + front.last());
                assert(join_texts(front.drop_last(), seq![sep]) + seq![sep] + grown =~= (
                join_texts(front.drop_last(), seq![sep]) + seq![sep] + front.last()).push(c));
            }
            assert forall|i: int| 0 <= i < all.len() implies !(#[trigger] all[i]).contains(sep) by {
                if i < all.len() - 1 {
                    assert(all[i] == front[i]);
                } else {
                    assert(!front[front.len() - 1].contains(sep));
                    if grown.contains(sep) {
                        let k = choose|k: int| 0 <= k < grown.len() && grown[k] == sep;
                        assert(front.last()[k] == sep);
                    }
                }
            }
        }
    }
}

/// Whether a text is free of every character that the grammar gives a
/// meaning to: blanks, parentheses, `+` and `/`.
#[verifier::opaque]
pub open spec fn is_plain_key(s: Seq<char>) -> bool {
    forall|i: int| 0 <= i < s.len() ==> !is_ignored(#[trigger] s[i]) && s[i] != '+' && s[i] != '/'
}

/// Stripping leaves a text alone that holds no blank and no parenthesis.
pub proof fn lemma_strip_plain(s: Seq<char>)
    requires
        forall|i: int| 0 <= i < s.len() ==> !is_ignored(#[trigger] s[i]),
    ensures
        strip_formula(s) == s,
    decreases s.len(),
{
    reveal(Seq::filter);
    if s.len() > 0 {
        let front = s.drop_last();
        assert forall|i: int| 0 <= i < front.len() implies !is_ignored(#[trigger] front[i]) by {
            assert(front[i] == s[i]);
        }
        lemma_strip_plain(front);
        assert(!is_ignored(s[s.len() - 1]));
        assert(front.push(s.last()) =~= s);
    }
}

/// Whether a text holds no blank, no parenthesis and no `/`.
#[verifier::opaque]
pub open spec fn is_numerator_text(s: Seq<char>) -> bool {
    forall|i: int| 0 <= i < s.len() ==> !is_ignored(#[trigger] s[i]) && s[i] != '/'
}

/// Two numerator texts one after the other are a numerator text.
pub proof fn lemma_numerator_concat(x: Seq<char>, y: Seq<char>)
    requires
        is_numerator_text(x),
        is_numerator_text(y),
    ensures
        is_numerator_text(x + y),
{
    reveal(is_numerator_text);
    assert forall|i: int| 0 <= i < (x + y).len() implies !is_ignored(#[trigger] (x + y)[i]) && (x
        + y)[i] != '/' by {
        if i < x.len() {
            assert((x + y)[i] == x[i]);
        } else {
            assert((x + y)[i] == y[i - x.len()]);
        }
    }
}

/// A numerator text is its own numerator.
pub proof fn lemma_numerator_plain(s: Seq<char>)
    requires
        is_numerator_text(s),
    ensures
        until_first(strip_formula(s), '/') == s,
{
    reveal(is_numerator_text);
    lemma_strip_plain(s);
    s.index_of_first_ensures('/');
}

/// A plain key is a numerator text and holds no `+`.
pub proof fn lemma_plain_key(s: Seq<char>)
    requires
        is_plain_key(s),
    ensures
        is_numerator_text(s),
        split_on(s, '+') == seq![s],
{
    reveal(is_plain_key);
    reveal(is_numerator_text);
    assert(!s.contains('+'));
    lemma_split_plain(s, '+');
}

/// A lone `+` is a numerator text.
pub proof fn lemma_plus_is_numerator_text()
    ensures
        is_numerator_text(seq!['+']),
{
    reveal(is_numerator_text);
}

/// The pieces of three texts joined by a separator are the pieces of the
/// first, of the second and of the third.
pub proof fn lemma_split_three(a: Seq<char>, b: Seq<char>, c: Seq<char>, sep: char)
    ensures
        split_on(a + seq![sep] + b + seq![sep] + c, sep) == split_on(a, sep) + split_on(b, sep)
            + split_on(c, sep),
{
    lemma_split_concat(a + seq![sep] + b, c, sep);
    lemma_split_concat(a, b, sep);
}

/// Three plain keys joined by `+` are a numerator text.
pub proof fn lemma_three_keys_numerator(a: Seq<char>, b: Seq<char>, c: Seq<char>)
    requires
        is_plain_key(a),
        is_plain_key(b),
        is_plain_key(c),
    ensures
        is_numerator_text(a + seq!['+'] + b + seq!['+'] + c),
{
    let plus = seq!['+'];
    lemma_plain_key(a);
    lemma_plain_key(b);
    lemma_plain_key(c);
    lemma_plus_is_numerator_text();
    lemma_numerator_concat(a, plus);
    lemma_numerator_concat(a + plus, b);
    lemma_numerator_concat(a + plus + b, plus);
    lemma_numerator_concat(a + plus + b + plus, c);
}

/// Three single pieces one after the other are a list of three.
pub proof fn lemma_three_pieces(a: Seq<char>, b: Seq<char>, c: Seq<char>)
    ensures
        seq![a] + seq![b] + seq![c] == seq![a, b, c],
{
    assert(seq![a] + seq![b] + seq![c] =~= seq![a, b, c]);
}

/// The operands of plain keys joined by `+` are those keys.
pub proof fn lemma_operands_of_three(a: Seq<char>, b: Seq<char>, c: Seq<char>)
    requires
        is_plain_key(a),
        is_plain_key(b),
        is_plain_key(c),
    ensures
        formula_operands(a + seq!['+'] + b + seq!['+'] + c) == seq![a, b, c],
{
    let formula = a + seq!['+'] + b + seq!['+'] + c;
    lemma_three_keys_numerator(a, b, c);
    lemma_numerator_plain(formula);
    lemma_split_three(a, b, c, '+');
    lemma_plain_key(a);
    lemma_plain_key(b);
    lemma_plain_key(c);
    lemma_three_pieces(a, b, c);
}

/// Takes blanks and parentheses out.
pub fn strip(chars: &Vec<char>) -> (out: Vec<char>)
    ensures
        out@ == strip_formula(chars@),
{
    let mut out: Vec<char> = Vec::new();
    let mut i: usize = 0;
    proof {
        reveal(Seq::filter);
        assert(chars@.take(0) =~= Seq::<char>::empty());
    }
    while i < chars.len()
        invariant
            i <= chars@.len(),
            out@ == chars@.take(i as int).filter(kept()),
        decreases chars@.len() - i,
    {
        let c = chars[i];
        proof {
            reveal(Seq::filter);
            assert(chars@.take(i + 1).drop_last() =~= chars@.take(i as int));
            assert(chars@.take(i + 1).last() == c);
        }
        if !(c == ' ' || c == '\t' || c == '\n' || c == '\r' || c == '(' || c == ')') {
            out.push(c);
        }
        i = i + 1;
    }
    proof {
        assert(chars@.take(i as int) =~= chars@);
    }
    out
}

/// Cuts a text off before the first `stop`.
pub fn cut_at(chars: &Vec<char>, stop: char) -> (out: Vec<char>)
    ensures
        out@ == until_first(chars@, stop),
{
    let mut out: Vec<char> = Vec::new();
    let mut i: usize = 0;
    proof {
        chars@.index_of_first_ensures(stop);
    }
    while i < chars.len()
        invariant
            i <= chars@.len(),
            out@ == chars@.take(i as int),
            forall|j: int| 0 <= j < i ==> chars@[j] != stop,
        decreases chars@.len() - i,
    {
        let c = chars[i];
        if c == stop {
            proof {
                chars@.index_of_first_ensures(stop);
                let found = chars@.index_of_first(stop);
                assert(chars@.contains(stop));
                assert(found is Some);
                assert(found.unwrap() == i);
            }
            return out;
        }
        out.push(c);
        proof {
            assert(chars@.take(i + 1) =~= chars@.take(i as int).push(c));
        }
        i = i + 1;
    }
    proof {
        chars@.index_of_first_ensures(stop);
        assert(chars@.take(i as int) =~= chars@);
    }
    out
}

/// Splits a text at every `sep`.
pub fn split(chars: &Vec<char>, sep: char) -> (parts: Vec<Vec<char>>)
    ensures
        char_views(parts@) == split_on(chars@, sep),
{
    let mut done: Vec<Vec<char>> = Vec::new();
    let mut cur: Vec<char> = Vec::new();
    let mut i: usize = 0;
    proof {
        assert(chars@.take(0) =~= Seq::<char>::empty());
        assert(char_views(done@).push(cur@) =~= seq![Seq::<char>::empty()]);
    }
    while i < chars.len()
        invariant
            i <= chars@.len(),
            split_on(chars@.take(i as int), sep) == char_views(done@).push(cur@),
        decreases chars@.len() - i,
    {
        let c = chars[i];
        let ghost front = char_views(done@).push(cur@);
        proof {
            assert(chars@.take(i + 1).drop_last() =~= chars@.take(i as int));
            assert(chars@.take(i + 1).last() == c);
        }
        if c == sep {
            done.push(cur);
            cur = Vec::new();
            proof {
                assert(char_views(done@) =~= front);
            }
        } else {
            cur.push(c);
            proof {
                assert(char_views(done@).push(cur@) =~= front.drop_last().push(
                    front.last().push(c),
                ));
            }
        }
        i = i + 1;
    }
    proof {
        assert(chars@.take(i as int) =~= chars@);
        assert(char_views(done@.push(cur)) =~= char_views(done@).push(cur@));
    }
    done.push(cur);
    done
}

/// Reads the operand keys of a formula.
pub fn parse_operands(formula: &str) -> (keys: Vec<String>)
    ensures
        string_views(keys@) == formula_operands(formula@),
{
    let chars = chars_of(formula);
    let stripped = strip(&chars);
    let numerator = cut_at(&stripped, '/');
    let parts = split(&numerator, '+');
    let mut keys: Vec<String> = Vec::new();
    let mut i: usize = 0;
    while i < parts.len()
        invariant
            i <= parts@.len(),
            keys@.len() == i,
            string_views(keys@) == char_views(parts@).take(i as int),
        decreases parts@.len() - i,
    {
        let key = string_from_chars(&parts[i]);
        let ghost before = keys@;
        keys.push(key);
        proof {
            assert(forall|j: int| 0 <= j < i ==> string_views(keys@)[j] == string_views(before)[j]);
            assert(string_views(keys@)[i as int] == char_views(parts@)[i as int]);
            assert(string_views(keys@) =~= char_views(parts@).take(i + 1));
        }
        i = i + 1;
    }
    proof {
        assert(char_views(parts@).take(i as int) =~= char_views(parts@));
    }
    keys
}

} // verus!
