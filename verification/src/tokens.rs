//! Splitting an expression at its operators.
//!
//! An expression is cut at every operator character. The pieces between the
//! operators are the operands; the operators are kept as tokens of their own,
//! so that operands and operators alternate and the tokens, joined, give the
//! expression again.

use vstd::prelude::*;
use crate::text::{append, slice};

verus! {

/// The texts of a list of tokens.
pub open spec fn texts(tokens: Seq<Vec<char>>) -> Seq<Seq<char>> {
    Seq::new(tokens.len(), |i: int| tokens[i]@)
}

/// The index of the first operator in `s`, or the length of `s` where it
/// holds none.
pub open spec fn first_operator(s: Seq<char>, operators: Seq<char>) -> int
    decreases s.len(),
{
    if s.len() == 0 || operators.contains(s[0]) {
        0
    } else {
        1 + first_operator(s.skip(1), operators)
    }
}

/// The tokens of `s`: an operand, then for each operator in `s` the operator
/// and the operand that follows it. An operand may be empty.
pub open spec fn tokens(s: Seq<char>, operators: Seq<char>) -> Seq<Seq<char>>
    decreases s.len(),
{
    let end = first_operator(s, operators);
    if 0 <= end < s.len() {
        seq![s.take(end), seq![s[end]]] + tokens(s.skip(end + 1), operators)
    } else {
        seq![s]
    }
}

/// Where no character before index `i` is an operator, and `i` is the end of
/// `s` or an operator stands there, `i` is the index of the first operator.
pub proof fn lemma_first_operator(s: Seq<char>, operators: Seq<char>, i: int)
    requires
        0 <= i <= s.len(),
        forall|j: int| 0 <= j < i ==> !operators.contains(s[j]),
        i == s.len() || operators.contains(s[i]),
    ensures
        first_operator(s, operators) == i,
    decreases i,
{
    if i > 0 {
        lemma_first_operator(s.skip(1), operators, i - 1);
    }
}

/// The first operator of `s` lies within `s`, and nothing before it is an operator.
pub proof fn lemma_first_operator_bounds(s: Seq<char>, operators: Seq<char>)
    ensures
        0 <= first_operator(s, operators) <= s.len(),
        forall|j: int| 0 <= j < first_operator(s, operators) ==> !operators.contains(s[j]),
        first_operator(s, operators) < s.len() ==> operators.contains(
            s[first_operator(s, operators)],
        ),
    decreases s.len(),
{
    if s.len() == 0 || operators.contains(s[0]) {
    } else {
        lemma_first_operator_bounds(s.skip(1), operators);
        assert forall|j: int| 0 <= j < first_operator(s, operators) implies !operators.contains(
            s[j],
        ) by {
            if j > 0 {
                assert(s.skip(1)[j - 1] == s[j]);
            }
        }
    }
}

/// Joined, the tokens of an expression give the expression: nothing is
/// dropped, added or moved.
pub proof fn lemma_tokens_join(s: Seq<char>, operators: Seq<char>)
    ensures
        tokens(s, operators).flatten() == s,
    decreases s.len(),
{
    let end = first_operator(s, operators);
    if 0 <= end < s.len() {
        let rest = tokens(s.skip(end + 1), operators);
        lemma_tokens_join(s.skip(end + 1), operators);
        let head = seq![s.take(end), seq![s[end]]];
        vstd::seq_lib::lemma_flatten_concat(head, rest);
        assert(head.flatten() =~= s.take(end) + seq![s[end]]) by {
            assert(head =~= seq![s.take(end)].push(seq![s[end]]));
            seq![s.take(end)].lemma_flatten_push(seq![s[end]]);
            seq![s.take(end)].lemma_flatten_one_element();
        }
        assert((s.take(end) + seq![s[end]]) + s.skip(end + 1) =~= s);
    } else {
        seq![s].lemma_flatten_one_element();
    }
}

/// Operands and operators alternate: the number of tokens is odd, every
/// second token is one operator, and no operand holds an operator.
pub proof fn lemma_tokens_alternate(s: Seq<char>, operators: Seq<char>)
    ensures
        tokens(s, operators).len() % 2 == 1,
        forall|i: int|
            0 <= i < tokens(s, operators).len() && i % 2 == 1 ==> (#[trigger] tokens(
                s,
                operators,
            )[i]).len() == 1 && operators.contains(tokens(s, operators)[i][0]),
        forall|i: int, k: int|
            0 <= i < tokens(s, operators).len() && i % 2 == 0 && 0 <= k < tokens(
                s,
                operators,
            )[i].len() ==> !operators.contains(#[trigger] tokens(s, operators)[i][k]),
    decreases s.len(),
{
    let end = first_operator(s, operators);
    lemma_first_operator_bounds(s, operators);
    if 0 <= end < s.len() {
        let rest = tokens(s.skip(end + 1), operators);
        lemma_tokens_alternate(s.skip(end + 1), operators);
        let all = tokens(s, operators);
        assert(all.len() == rest.len() + 2);
        assert forall|i: int| 0 <= i < all.len() && i % 2 == 1 implies (#[trigger] all[i]).len()
            == 1 && operators.contains(all[i][0]) by {
            if i >= 2 {
                assert(all[i] == rest[i - 2]);
            }
        }
        assert forall|i: int, k: int|
            0 <= i < all.len() && i % 2 == 0 && 0 <= k < all[i].len() implies !operators.contains(
            #[trigger] all[i][k],
        ) by {
            if i >= 2 {
                assert(all[i] == rest[i - 2]);
                assert(!operators.contains(rest[i - 2][k]));
            }
        }
    }
}

/// Whether `c` is one of the operators.
pub fn is_operator(operators: &Vec<char>, c: char) -> (r: bool)
    ensures
        r == operators@.contains(c),
{
    let mut i: usize = 0;
    while i < operators.len()
        invariant
            i <= operators.len(),
            forall|j: int| 0 <= j < i ==> operators@[j] != c,
        decreases operators.len() - i,
    {
        if operators[i] == c {
            return true;
        }
        i += 1;
    }
    false
}

/// Splits `s` into its tokens.
pub fn tokenize(s: &Vec<char>, operators: &Vec<char>) -> (r: Vec<Vec<char>>)
    ensures
        texts(r@) == tokens(s@, operators@),
{
    let mut r: Vec<Vec<char>> = Vec::new();
    let mut start: usize = 0;
    let mut i: usize = 0;
    assert(s@.skip(0) == s@);
    assert(texts(r@) =~= Seq::<Seq<char>>::empty());
    while i < s.len()
        invariant
            start <= i <= s.len(),
            forall|j: int| start <= j < i ==> !operators@.contains(s@[j]),
            texts(r@) + tokens(s@.skip(start as int), operators@) == tokens(s@, operators@),
        decreases s.len() - i,
    {
        if is_operator(operators, s[i]) {
            let ghost rest = s@.skip(start as int);
            let ghost before = texts(r@);
            let ghost operand = rest.take(i - start);
            proof {
                lemma_first_operator(rest, operators@, i - start);
                assert(operand == s@.subrange(start as int, i as int));
                assert(rest.skip(i - start + 1) == s@.skip(i + 1));
            }
            r.push(slice(s, start, i));
            let mut operator: Vec<char> = Vec::new();
            operator.push(s[i]);
            r.push(operator);
            start = i + 1;
            proof {
                let head = seq![operand, seq![s@[i as int]]];
                let tail = tokens(s@.skip(start as int), operators@);
                assert(texts(r@) =~= before + head);
                assert(before + (head + tail) =~= (before + head) + tail);
            }
        }
        i += 1;
    }
    let ghost before = texts(r@);
    proof {
        lemma_first_operator(s@.skip(start as int), operators@, s.len() - start);
        assert(s@.skip(start as int) == s@.subrange(start as int, s.len() as int));
    }
    r.push(slice(s, start, s.len()));
    assert(texts(r@) =~= before + seq![s@.skip(start as int)]);
    r
}

/// Joins tokens into one text.
pub fn join(tokens: &Vec<Vec<char>>) -> (r: Vec<char>)
    ensures
        r@ == texts(tokens@).flatten(),
{
    let mut r: Vec<char> = Vec::new();
    let mut i: usize = 0;
    assert(texts(tokens@).take(0) =~= Seq::<Seq<char>>::empty());
    while i < tokens.len()
        invariant
            i <= tokens.len(),
            r@ == texts(tokens@).take(i as int).flatten(),
        decreases tokens.len() - i,
    {
        proof {
            texts(tokens@).take(i as int).lemma_flatten_push(tokens@[i as int]@);
            assert(texts(tokens@).take(i as int).push(tokens@[i as int]@) =~= texts(tokens@).take(
                i + 1,
            ));
        }
        append(&mut r, &tokens[i]);
        i += 1;
    }
    assert(texts(tokens@).take(tokens.len() as int) =~= texts(tokens@));
    r
}

} // verus!
