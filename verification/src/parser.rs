//! The stages that a line goes through, in their order: commands, comments,
//! declarations, then the rewriting of an expression and its evaluation.

use vstd::prelude::*;
use crate::command::{lookup, Action, Command, CommandRegistry};
use crate::history::History;
use crate::invalid_expression::InvalidExpression;
use crate::numeral::{
    decimal, decimal_digits, is_digit, is_float_literal, is_numeric, lemma_decimal_is_digits,
    lemma_decimal_is_injective,
};
use crate::session::{Session, SessionView};
use crate::text::{
    append, chars_of, contains, find_first, first_of, includes, lemma_first_of_bounds,
    is_space, is_whitespace, lemma_replace_absent, occurs_at, replace, replaced, slice,
    starts_with, string_of, trim, trimmed,
};
use crate::tokens::{is_operator, join, texts, tokenize, tokens};
use crate::variable::{Variable, VariableView};
use crate::variables::{collides, resolve, store, Variables};

verus! {

/// How many characters stand at the beginning of `s` before its first white
/// space: all of them where it holds none.
pub open spec fn word_end(s: Seq<char>) -> int
    decreases s.len(),
{
    if s.len() == 0 || is_whitespace(s[0]) {
        0
    } else {
        1 + word_end(s.skip(1))
    }
}

/// The words of a line, in their order: what stands between white space,
/// nothing of it empty.
pub open spec fn words_of(s: Seq<char>) -> Seq<Seq<char>>
    decreases s.len(),
{
    if s.len() == 0 {
        Seq::empty()
    } else if is_whitespace(s[0]) {
        words_of(s.skip(1))
    } else if 0 < word_end(s) <= s.len() {
        seq![s.take(word_end(s))] + words_of(s.skip(word_end(s)))
    } else {
        seq![s]
    }
}

/// Words joined by single spaces.
pub open spec fn spaced(words: Seq<Seq<char>>) -> Seq<char>
    decreases words.len(),
{
    if words.len() == 0 {
        Seq::empty()
    } else if words.len() == 1 {
        words[0]
    } else {
        spaced(words.drop_last()) + seq![' '] + words.last()
    }
}

/// The index of the command that a line invokes: the command that answers
/// to the first word of the line. A line without a word invokes none.
pub open spec fn invoked(commands: Seq<Command>, s: Seq<char>) -> Option<int> {
    if words_of(s).len() > 0 {
        lookup(commands, words_of(s)[0])
    } else {
        None
    }
}

/// What a line hands to the command it invokes: its words after the first,
/// joined by single spaces.
pub open spec fn command_parameters(s: Seq<char>) -> Seq<char> {
    if words_of(s).len() > 0 {
        spaced(words_of(s).skip(1))
    } else {
        Seq::empty()
    }
}

/// Where no character before index `i` is white space, and `i` is the end
/// of `s` or white space stands there, the first word of `s` ends at `i`.
pub proof fn lemma_word_end(s: Seq<char>, i: int)
    requires
        0 <= i <= s.len(),
        forall|j: int| 0 <= j < i ==> !is_whitespace(s[j]),
        i == s.len() || is_whitespace(s[i]),
    ensures
        word_end(s) == i,
    decreases i,
{
    if i > 0 {
        lemma_word_end(s.skip(1), i - 1);
    }
}

/// The first word of `s` ends within `s`, and holds no white space.
pub proof fn lemma_word_end_bounds(s: Seq<char>)
    ensures
        0 <= word_end(s) <= s.len(),
        forall|j: int| 0 <= j < word_end(s) ==> !is_whitespace(#[trigger] s[j]),
        s.len() > 0 && !is_whitespace(s[0]) ==> word_end(s) > 0,
    decreases s.len(),
{
    if s.len() == 0 || is_whitespace(s[0]) {
    } else {
        lemma_word_end_bounds(s.skip(1));
        assert forall|j: int| 0 <= j < word_end(s) implies !is_whitespace(#[trigger] s[j]) by {
            if j > 0 {
                assert(s.skip(1)[j - 1] == s[j]);
            }
        }
    }
}

/// The words of a line are words: none is empty, and none holds white space.
pub proof fn lemma_words_hold_no_white_space(s: Seq<char>)
    ensures
        forall|i: int|
            0 <= i < words_of(s).len() ==> (#[trigger] words_of(s)[i]).len() > 0,
        forall|i: int, k: int|
            0 <= i < words_of(s).len() && 0 <= k < words_of(s)[i].len() ==> !is_whitespace(
                #[trigger] words_of(s)[i][k],
            ),
    decreases s.len(),
{
    if s.len() == 0 {
        assert(words_of(s).len() == 0);
    } else if is_whitespace(s[0]) {
        lemma_words_hold_no_white_space(s.skip(1));
        assert(words_of(s) == words_of(s.skip(1)));
    } else {
        lemma_word_end_bounds(s);
        let end = word_end(s);
        let rest = words_of(s.skip(end));
        lemma_words_hold_no_white_space(s.skip(end));
        let all = words_of(s);
        assert(all =~= seq![s.take(end)] + rest);
        assert forall|i: int| 0 <= i < all.len() implies (#[trigger] all[i]).len() > 0 by {
            if i > 0 {
                assert(all[i] == rest[i - 1]);
            }
        }
        assert forall|i: int, k: int|
            0 <= i < all.len() && 0 <= k < all[i].len() implies !is_whitespace(
            #[trigger] all[i][k],
        ) by {
            if i > 0 {
                assert(all[i] == rest[i - 1]);
                assert(!is_whitespace(rest[i - 1][k]));
            } else {
                assert(all[0][k] == s[k]);
            }
        }
    }
}

/// Cuts a line into its words.
pub fn split_words(s: &Vec<char>) -> (r: Vec<Vec<char>>)
    ensures
        texts(r@) == words_of(s@),
{
    let mut r: Vec<Vec<char>> = Vec::new();
    let mut i: usize = 0;
    assert(s@.skip(0) == s@);
    assert(texts(r@) =~= Seq::<Seq<char>>::empty());
    while i < s.len()
        invariant
            i <= s.len(),
            texts(r@) + words_of(s@.skip(i as int)) == words_of(s@),
        decreases s.len() - i,
    {
        let ghost rest = s@.skip(i as int);
        if is_space(s[i]) {
            assert(rest.skip(1) == s@.skip(i + 1));
            i += 1;
        } else {
            let start = i;
            while i < s.len() && !is_space(s[i])
                invariant
                    start <= i <= s.len(),
                    forall|j: int| start <= j < i ==> !is_whitespace(s@[j]),
                decreases s.len() - i,
            {
                i += 1;
            }
            let ghost before = texts(r@);
            proof {
                lemma_word_end(rest, i - start);
                assert(rest.take(i - start) == s@.subrange(start as int, i as int));
                assert(rest.skip(i - start) == s@.skip(i as int));
            }
            r.push(slice(s, start, i));
            proof {
                let word = seq![s@.subrange(start as int, i as int)];
                let more = words_of(s@.skip(i as int));
                assert(texts(r@) =~= before + word);
                assert(before + (word + more) =~= (before + word) + more);
            }
        }
    }
    assert(texts(r@) + Seq::<Seq<char>>::empty() =~= texts(r@));
    r
}

/// Joins the words from index `from` on by single spaces.
pub fn join_spaced(words: &Vec<Vec<char>>, from: usize) -> (r: Vec<char>)
    requires
        from <= words.len(),
    ensures
        r@ == spaced(texts(words@).skip(from as int)),
{
    let mut r: Vec<char> = Vec::new();
    let ghost all = texts(words@).skip(from as int);
    let mut i: usize = from;
    assert(all.take(0) =~= Seq::<Seq<char>>::empty());
    while i < words.len()
        invariant
            from <= i <= words.len(),
            all == texts(words@).skip(from as int),
            r@ == spaced(all.take(i - from)),
        decreases words.len() - i,
    {
        proof {
            let longer = all.take(i + 1 - from);
            assert(longer.drop_last() =~= all.take(i - from));
            assert(longer.last() == words@[i as int]@);
        }
        if i > from {
            r.push(' ');
        }
        append(&mut r, &words[i]);
        i += 1;
    }
    assert(all.take(words.len() - from) =~= all);
    r
}

/// A command to run, with the parameters it was given.
#[derive(Debug, PartialEq, Eq)]
pub struct Invocation {
    pub action: Action,
    pub parameters: String,
}

/// Finds the command that the first word of `expression` invokes, by name or
/// alias, and hands the words that follow to it as its parameters, joined by
/// single spaces.
pub fn parse_commands(commands: &CommandRegistry, expression: &str) -> (r: Option<Invocation>)
    ensures
        match r {
            Some(invocation) => invoked(commands@, expression@) is Some && invocation.action
                == commands@[invoked(commands@, expression@)->0].action && invocation.parameters@
                == command_parameters(expression@),
            None => invoked(commands@, expression@) is None,
        },
{
    let line = chars_of(expression);
    let words = split_words(&line);
    if words.len() == 0 {
        return None;
    }
    assert(texts(words@)[0] == words@[0]@);
    match commands.position(&words[0]) {
        Some(i) => Some(
            Invocation {
                action: commands.get(i).action,
                parameters: string_of(&join_spaced(&words, 1)),
            },
        ),
        None => None,
    }
}

/// The text of a comment line: its marker, a space, and what follows the
/// marker without the white space around it. `None` for a line that is no
/// comment.
pub open spec fn comment(s: Seq<char>) -> Option<Seq<char>> {
    if "//"@.is_prefix_of(s) {
        Some("// "@ + trim(s.skip(2)))
    } else if "#"@.is_prefix_of(s) {
        Some("# "@ + trim(s.skip(1)))
    } else {
        None
    }
}

/// Reads a line that begins with `//` or `#` as a comment.
pub fn parse_comment(expression: &str) -> (r: Option<String>)
    ensures
        match r {
            Some(text) => comment(expression@) == Some(text@),
            None => comment(expression@) is None,
        },
{
    let line = chars_of(expression);
    let slashes = chars_of("//");
    let hash = chars_of("#");
    proof {
        reveal_strlit("//");
        reveal_strlit("#");
    }
    let (marker, skip) = if starts_with(&line, &slashes) {
        (chars_of("// "), 2usize)
    } else if starts_with(&line, &hash) {
        (chars_of("# "), 1usize)
    } else {
        return None;
    };
    let mut text = marker;
    let rest = trimmed(&slice(&line, skip, line.len()));
    append(&mut text, &rest);
    Some(string_of(&text))
}

/// How often `c` stands in `s`.
pub open spec fn count(s: Seq<char>, c: char) -> nat
    decreases s.len(),
{
    if s.len() == 0 {
        0
    } else {
        count(s.drop_last(), c) + if s.last() == c {
            1nat
        } else {
            0nat
        }
    }
}

/// Whether `c` stands in `s` never, once, or more often: 0, 1 or 2.
pub fn occurrences(s: &Vec<char>, c: char) -> (n: u8)
    ensures
        n == if count(s@, c) > 1 {
            2
        } else {
            count(s@, c) as int
        },
{
    let mut n: u8 = 0;
    let mut i: usize = 0;
    assert(s@.take(0).len() == 0);
    while i < s.len()
        invariant
            i <= s.len(),
            n == if count(s@.take(i as int), c) > 1 {
                2
            } else {
                count(s@.take(i as int), c) as int
            },
        decreases s.len() - i,
    {
        assert(s@.take(i + 1).drop_last() == s@.take(i as int));
        if s[i] == c && n < 2 {
            n += 1;
        }
        i += 1;
    }
    assert(s@.take(s.len() as int) == s@);
    n
}

/// What the calculator says of a value that is no number.
pub open spec fn not_a_number(name: Seq<char>, value: Seq<char>) -> Seq<char> {
    "Value given for variable "@ + name + " (\""@ + value + "\") is not a number"@
}

/// What the calculator says of a name that another variable has.
pub open spec fn name_in_use(name: Seq<char>) -> Seq<char> {
    "The name "@ + name + " belongs to another variable"@
}

/// The variable that a declaration makes: named by the left side, worth the
/// right side, both without the white space around them, and without aliases.
pub open spec fn declared(left: Seq<char>, right: Seq<char>) -> VariableView {
    VariableView { key: trim(left), value: trim(right), aliases: None }
}

/// Declares a variable from the two sides of a declaration. The right side
/// must be a floating-point numeral, and the name must not belong to a
/// variable with another key; else the store stays as it is.
pub fn parse_variable_declaration(variables: &mut Variables, left: &str, right: &str) -> (r:
    Result<Variable, InvalidExpression>)
    requires
        old(variables).wf(),
    ensures
        final(variables).wf(),
        final(variables).builtin_count() == old(variables).builtin_count(),
        match r {
            Ok(variable) => is_float_literal(trim(right@)) && !collides(
                old(variables)@,
                declared(left@, right@),
            ) && variable@ == declared(left@, right@) && final(variables)@ == store(
                old(variables)@,
                declared(left@, right@),
            ),
            Err(error) => final(variables)@ == old(variables)@ && if !is_float_literal(
                trim(right@),
            ) {
                error.message@ == not_a_number(trim(left@), trim(right@))
            } else {
                collides(old(variables)@, declared(left@, right@)) && error.message@
                    == name_in_use(trim(left@))
            },
        },
{
    let name = trimmed(&chars_of(left));
    let value = trimmed(&chars_of(right));
    if !is_numeric(&value) {
        let mut message = chars_of("Value given for variable ");
        append(&mut message, &name);
        append(&mut message, &chars_of(" (\""));
        append(&mut message, &value);
        append(&mut message, &chars_of("\") is not a number"));
        return Err(InvalidExpression { message: string_of(&message) });
    }
    let name = string_of(&name);
    let value = string_of(&value);
    let variable = Variable::new(name.as_str(), value.as_str(), None);
    if variables.add(variable.clone()) {
        Ok(variable)
    } else {
        let mut message = chars_of("The name ");
        append(&mut message, &chars_of(name.as_str()));
        append(&mut message, &chars_of(" belongs to another variable"));
        Err(InvalidExpression { message: string_of(&message) })
    }
}

/// The text that refers to the `n`-th entry of the history: `n` in brackets.
pub open spec fn reference(n: nat) -> Seq<char> {
    seq!['['] + decimal(n) + seq![']']
}

/// `s` with the references to the entries of `history` from the `i`-th on
/// replaced by those entries, one entry after the other.
pub open spec fn expand_from(s: Seq<char>, history: Seq<Seq<char>>, i: nat) -> Seq<char>
    decreases history.len() - i,
{
    if i >= history.len() {
        s
    } else {
        expand_from(replace(s, reference(i + 1), history[i as int]), history, i + 1)
    }
}

/// `s` with every reference to an entry of `history` replaced by that entry.
/// The newest entry is the first. A reference to an entry that does not
/// exist stays as it is.
pub open spec fn expand_references(s: Seq<char>, history: Seq<Seq<char>>) -> Seq<char> {
    expand_from(s, history, 0)
}

/// Replaces each reference to an entry of the history by that entry.
pub fn parse_line_references(history: &History, expression: &str) -> (r: String)
    ensures
        r@ == expand_references(expression@, history@),
{
    let mut line = chars_of(expression);
    let mut i: usize = 0;
    while i < history.len()
        invariant
            i <= history@.len(),
            expand_from(line@, history@, i as nat) == expand_references(expression@, history@),
        decreases history@.len() - i,
    {
        let mut pattern: Vec<char> = Vec::new();
        pattern.push('[');
        append(&mut pattern, &decimal_digits(i + 1));
        pattern.push(']');
        assert(pattern@ == reference((i + 1) as nat));
        let entry = match history.get(i) {
            Some(entry) => chars_of(entry.as_str()),
            None => Vec::new(),
        };
        line = replaced(&line, &pattern, &entry);
        i += 1;
    }
    string_of(&line)
}

/// A reference is an opening bracket, digits, and a closing bracket.
pub proof fn lemma_reference_shape(n: nat)
    ensures
        reference(n).len() == decimal(n).len() + 2,
        reference(n).len() >= 3,
        reference(n)[0] == '[',
        reference(n)[reference(n).len() - 1] == ']',
        forall|j: int| 1 <= j < reference(n).len() - 1 ==> is_digit(#[trigger] reference(n)[j]),
        reference(n).subrange(1, reference(n).len() - 1) == decimal(n),
{
    lemma_decimal_is_digits(n);
    let r = reference(n);
    assert forall|j: int| 1 <= j < r.len() - 1 implies is_digit(#[trigger] r[j]) by {
        assert(r[j] == decimal(n)[j - 1]);
    }
    assert(r.subrange(1, r.len() - 1) =~= decimal(n));
}

/// A reference stands in another reference only where both refer to one
/// entry.
pub proof fn lemma_references_differ(n: nat, m: nat)
    requires
        n != m,
    ensures
        !contains(reference(n), reference(m)),
{
    lemma_reference_shape(n);
    lemma_reference_shape(m);
    let text = reference(n);
    let pattern = reference(m);
    if contains(text, pattern) {
        let i = choose|i: int| occurs_at(text, pattern, i);
        let part = text.subrange(i, i + pattern.len());
        assert(part[0] == text[i]);
        assert(text[i] == '[');
        if i > 0 {
            if i < text.len() - 1 {
                assert(is_digit(text[i]));
            }
        } else {
            let last = pattern.len() - 1;
            assert(part[last] == text[last]);
            assert(text[last] == ']');
            if last < text.len() - 1 {
                assert(is_digit(text[last]));
            }
            assert(pattern.len() == text.len());
            assert(part =~= text);
            lemma_decimal_is_injective(n, m);
        }
    }
}

/// A text without an opening bracket holds no reference, and stays as it is.
pub proof fn lemma_nothing_to_expand(s: Seq<char>, history: Seq<Seq<char>>, i: nat)
    requires
        !s.contains('['),
    ensures
        expand_from(s, history, i) == s,
    decreases history.len() - i,
{
    if i < history.len() {
        let pattern = reference(i + 1);
        assert(!contains(s, pattern)) by {
            if contains(s, pattern) {
                let k = choose|k: int| occurs_at(s, pattern, k);
                assert(s.subrange(k, k + pattern.len())[0] == pattern[0]);
                assert(s[k] == '[');
            }
        }
        lemma_replace_absent(s, pattern, history[i as int]);
        lemma_nothing_to_expand(s, history, i + 1);
    }
}

/// A reference to an entry that comes at or after the `i`-th is replaced
/// by that entry, if the entry holds no opening bracket.
proof fn lemma_reference_from(history: Seq<Seq<char>>, n: nat, i: nat)
    requires
        i < n <= history.len(),
        !history[n - 1].contains('['),
    ensures
        expand_from(reference(n), history, i) == history[n - 1],
    decreases n - i,
{
    let s = reference(n);
    if i + 1 == n {
        lemma_decimal_is_digits(n);
        let rest = s.skip(s.len() as int);
        assert(s.is_prefix_of(s));
        assert(rest.len() == 0);
        assert(replace(rest, s, history[n - 1]) == rest);
        assert(replace(s, s, history[n - 1]) == history[n - 1] + rest);
        assert(history[n - 1] + rest =~= history[n - 1]);
        lemma_nothing_to_expand(history[n - 1], history, n);
    } else {
        lemma_references_differ(n, i + 1);
        lemma_replace_absent(s, reference(i + 1), history[i as int]);
        lemma_reference_from(history, n, i + 1);
    }
}

/// References count from the newest entry: the `n`-th reference is replaced
/// by the `n`-th entry, the newest being the first, where that entry holds
/// no opening bracket itself.
pub proof fn lemma_reference_resolves(history: Seq<Seq<char>>, n: nat)
    requires
        1 <= n <= history.len(),
        !history[n - 1].contains('['),
    ensures
        expand_references(reference(n), history) == history[n - 1],
{
    lemma_reference_from(history, n, 0);
}

/// Whether `s` begins, after leading white space, with an operator.
pub open spec fn continues(s: Seq<char>, operators: Seq<char>) -> bool {
    trim(s).len() > 0 && operators.contains(trim(s)[0])
}

/// `s` as the continuation of the newest entry of `history`: that entry in
/// parentheses, then `s`.
pub open spec fn continuation(s: Seq<char>, history: Seq<Seq<char>>) -> Seq<char> {
    seq!['('] + history[0] + seq![')'] + s
}

/// Puts the newest entry of the history, in parentheses, before an
/// expression that begins with an operator. Any other expression stays as it
/// is. `None` where there is no entry to continue.
pub fn handle_continuation(history: &History, operators: &Vec<char>, expression: &str) -> (r:
    Option<String>)
    ensures
        match r {
            Some(text) => if continues(expression@, operators@) {
                history@.len() > 0 && text@ == continuation(expression@, history@)
            } else {
                text@ == expression@
            },
            None => continues(expression@, operators@) && history@.len() == 0,
        },
{
    let line = chars_of(expression);
    let start = trimmed(&line);
    if start.len() > 0 && is_operator(operators, start[0]) {
        match history.front() {
            Some(entry) => {
                let mut text: Vec<char> = Vec::new();
                text.push('(');
                append(&mut text, &chars_of(entry.as_str()));
                text.push(')');
                append(&mut text, &line);
                Some(string_of(&text))
            },
            None => None,
        }
    } else {
        Some(string_of(&line))
    }
}

/// Whether a name of one of the variables stands somewhere in `s`.
pub open spec fn mentions(variables: Seq<VariableView>, s: Seq<char>) -> bool {
    exists|i: int, name: Seq<char>|
        0 <= i < variables.len() && #[trigger] variables[i].answers_to(name) && contains(s, name)
}

/// What is written in the place of an operand: the operand without the
/// white space around it, or, where that is no numeral and names a variable,
/// the variable's value.
pub open spec fn operand_text(variables: Seq<VariableView>, operand: Seq<char>) -> Seq<char> {
    if !is_float_literal(trim(operand)) && resolve(variables, trim(operand)) is Some {
        resolve(variables, trim(operand))->0.value
    } else {
        trim(operand)
    }
}

/// The tokens with each operand rewritten; the operators stay as they are.
pub open spec fn substituted(variables: Seq<VariableView>, tokens: Seq<Seq<char>>) -> Seq<
    Seq<char>,
> {
    Seq::new(
        tokens.len(),
        |i: int|
            if i % 2 == 0 {
                operand_text(variables, tokens[i])
            } else {
                tokens[i]
            },
    )
}

/// `s` with the names of variables replaced by their values. An expression
/// in which no name of a variable stands is left as it is; any other is cut
/// into its tokens, which are joined again after the operands were rewritten.
pub open spec fn substitute(variables: Seq<VariableView>, operators: Seq<char>, s: Seq<char>) -> Seq<
    char,
> {
    if mentions(variables, s) {
        substituted(variables, tokens(s, operators)).flatten()
    } else {
        s
    }
}

/// Whether a name of one of the variables stands somewhere in `line`.
fn names_variable(variables: &Variables, line: &Vec<char>) -> (r: bool)
    ensures
        r == mentions(variables@, line@),
{
    let all = variables.to_vec();
    let mut i: usize = 0;
    while i < all.len()
        invariant
            i <= all.len(),
            all@.len() == variables@.len(),
            forall|j: int| 0 <= j < all@.len() ==> (#[trigger] all@[j])@ == variables@[j],
            forall|j: int, name: Seq<char>|
                0 <= j < i && #[trigger] variables@[j].answers_to(name) ==> !contains(line@, name),
        decreases all.len() - i,
    {
        if all[i].named_in(line) {
            let ghost name = choose|name: Seq<char>| #[trigger]
                all@[i as int]@.answers_to(name) && contains(line@, name);
            assert(variables@[i as int].answers_to(name));
            return true;
        }
        i += 1;
    }
    false
}

/// Replaces the names of variables in an expression by their values.
pub fn parse_variables(variables: &Variables, operators: &Vec<char>, expression: &str) -> (r:
    String)
    ensures
        r@ == substitute(variables@, operators@, expression@),
{
    let line = chars_of(expression);
    if !names_variable(variables, &line) {
        return string_of(&line);
    }
    let mut pieces = tokenize(&line, operators);
    let ghost before = texts(pieces@);
    let mut i: usize = 0;
    while i < pieces.len()
        invariant
            i <= pieces.len(),
            pieces@.len() == before.len(),
            forall|j: int|
                0 <= j < i ==> #[trigger] texts(pieces@)[j] == substituted(variables@, before)[j],
            forall|j: int| i <= j < pieces@.len() ==> #[trigger] texts(pieces@)[j] == before[j],
        decreases pieces.len() - i,
    {
        if i % 2 == 0 {
            let name = trimmed(&pieces[i]);
            let mut text = name;
            if !is_numeric(&text) {
                let word = string_of(&text);
                match variables.get(word.as_str()) {
                    Some(variable) => {
                        text = chars_of(variable.value.as_str());
                    },
                    None => {},
                }
            }
            let ghost earlier = texts(pieces@);
            assert(earlier[i as int] == before[i as int]);
            assert(text@ == operand_text(variables@, before[i as int]));
            pieces.set(i, text);
            assert forall|j: int| 0 <= j < pieces@.len() && j != i implies #[trigger] texts(
                pieces@,
            )[j] == earlier[j] by {}
        }
        assert(texts(pieces@)[i as int] == substituted(variables@, before)[i as int]);
        i += 1;
    }
    assert(texts(pieces@) =~= substituted(variables@, before));
    string_of(&join(&pieces))
}

/// The longest expression that the library hands to the evaluator itself.
pub const MAX_EXPRESSION: usize = 256;

/// Whether the library hands `expression` to the evaluator itself: it is
/// not longer than `MAX_EXPRESSION`, and none of the names `shl`, `shr`,
/// `abs` and `substring` stands in it.
pub open spec fn is_evaluable(expression: Seq<char>) -> bool {
    &&& expression.len() <= MAX_EXPRESSION
    &&& !contains(expression, "shl"@)
    &&& !contains(expression, "shr"@)
    &&& !contains(expression, "abs"@)
    &&& !contains(expression, "substring"@)
}

/// Whether the library hands `expression` to the evaluator itself.
pub fn can_evaluate(expression: &str) -> (r: bool)
    ensures
        r == is_evaluable(expression@),
{
    let text = chars_of(expression);
    text.len() <= MAX_EXPRESSION && !includes(&text, &chars_of("shl")) && !includes(&text, &chars_of("shr"))
        && !includes(&text, &chars_of("abs")) && !includes(&text, &chars_of("substring"))
}

/// What the evaluator makes of an expression: the text of its result, or
/// `None` where it cannot evaluate the expression.
pub uninterp spec fn evaluation(expression: Seq<char>) -> Option<Seq<char>>;

/// `evalexpr::eval` on an expression, and the text that the result is
/// written as. The evaluator knows no variables; its result depends on the
/// expression alone.
///
/// The evaluator does not come back from every expression. It goes as deep
/// as the expression is nested, so that a long expression can use up the
/// stack; its functions `shl` and `shr` stop the program on a shift that is
/// too wide, `math::abs` on the least integer, and `str::substring` on a
/// position inside a character. Such expressions are left out here.
#[verifier::external_body]
fn evaluate(expression: &str) -> (r: Option<String>)
    requires
        is_evaluable(expression@),
    ensures
        match r {
            Some(result) => evaluation(expression@) == Some(result@),
            None => evaluation(expression@) is None,
        },
{
    match evalexpr::eval(expression) {
        Ok(value) => Some(value.to_string()),
        Err(_) => None,
    }
}

/// What became of a line.
#[derive(Debug, PartialEq, Eq)]
pub enum Outcome {
    /// The line held a line break and nothing else: nothing was done.
    Nothing,
    /// The line was empty, without a line break: the session is to end.
    Exit,
    /// The line invoked a command, which is to be run.
    Command(Invocation),
    /// The line was a comment, to be shown as this text.
    Comment(String),
    /// The line declared this variable, which is now stored.
    Declared(Variable),
    /// The line was a declaration that was refused, for this reason.
    Refused(InvalidExpression),
    /// The line began with an operator, and there is nothing to continue.
    NothingToContinue,
    /// The expression was evaluated, and is now the newest entry of the history.
    Evaluated { expression: String, result: String },
    /// The expression could not be evaluated.
    Failed { expression: String },
    /// The expression is one that the library does not hand to the evaluator
    /// itself. Whoever evaluates it takes the result to `record_result`.
    Deferred { expression: String },
}

/// An `Outcome`, with its texts as sequences of characters.
pub ghost enum OutcomeView {
    Nothing,
    Exit,
    Command { action: Action, parameters: Seq<char> },
    Comment(Seq<char>),
    Declared(VariableView),
    Refused(Seq<char>),
    NothingToContinue,
    Evaluated { expression: Seq<char>, result: Seq<char> },
    Failed { expression: Seq<char> },
    Deferred { expression: Seq<char> },
}

impl View for Outcome {
    type V = OutcomeView;

    open spec fn view(&self) -> OutcomeView {
        match *self {
            Outcome::Nothing => OutcomeView::Nothing,
            Outcome::Exit => OutcomeView::Exit,
            Outcome::Command(invocation) => OutcomeView::Command {
                action: invocation.action,
                parameters: invocation.parameters@,
            },
            Outcome::Comment(text) => OutcomeView::Comment(text@),
            Outcome::Declared(variable) => OutcomeView::Declared(variable@),
            Outcome::Refused(error) => OutcomeView::Refused(error.message@),
            Outcome::NothingToContinue => OutcomeView::NothingToContinue,
            Outcome::Evaluated { expression, result } => OutcomeView::Evaluated {
                expression: expression@,
                result: result@,
            },
            Outcome::Failed { expression } => OutcomeView::Failed { expression: expression@ },
            Outcome::Deferred { expression } => OutcomeView::Deferred { expression: expression@ },
        }
    }
}

/// What becomes of an expression once the evaluator has given `result` for
/// it.
pub open spec fn evaluated(expression: Seq<char>, result: Option<Seq<char>>) -> OutcomeView {
    match result {
        Some(result) => OutcomeView::Evaluated { expression, result },
        None => OutcomeView::Failed { expression },
    }
}

/// The history after an expression for which the evaluator gave `result`:
/// an expression that was evaluated is the newest entry, one that was not
/// leaves no trace.
pub open spec fn recorded(
    history: Seq<Seq<char>>,
    expression: Seq<char>,
    result: Option<Seq<char>>,
) -> Seq<Seq<char>> {
    if result is Some {
        seq![expression] + history
    } else {
        history
    }
}

/// Takes what the evaluator gave for `expression`: a result is handed on,
/// and the expression recorded as the newest entry of the history; without
/// a result the history stays as it is.
pub fn record_result(history: &mut History, expression: String, result: Option<String>) -> (r:
    Outcome)
    ensures
        r@ == evaluated(
            expression@,
            match result {
                Some(text) => Some(text@),
                None => None,
            },
        ),
        final(history)@ == recorded(
            old(history)@,
            expression@,
            match result {
                Some(text) => Some(text@),
                None => None,
            },
        ),
{
    match result {
        Some(result) => {
            history.push_front(expression.clone());
            Outcome::Evaluated { expression, result }
        },
        None => Outcome::Failed { expression },
    }
}

/// What becomes of an expression in which every name has been replaced:
/// it is evaluated, unless it is one that the library does not hand to the
/// evaluator.
pub open spec fn calculated(expression: Seq<char>) -> OutcomeView {
    if is_evaluable(expression) {
        evaluated(expression, evaluation(expression))
    } else {
        OutcomeView::Deferred { expression }
    }
}

/// Evaluates an expression in which every name has been replaced, and
/// records it in the history if it has a result. An expression that the
/// library does not hand to the evaluator is given back, and the history
/// stays as it is.
pub fn calculate_and_show_result(history: &mut History, expression: String) -> (r: Outcome)
    ensures
        r@ == calculated(expression@),
        final(history)@ == if is_evaluable(expression@) {
            recorded(old(history)@, expression@, evaluation(expression@))
        } else {
            old(history)@
        },
{
    if !can_evaluate(expression.as_str()) {
        return Outcome::Deferred { expression };
    }
    let result = evaluate(expression.as_str());
    record_result(history, expression, result)
}

/// The expression that is evaluated for a line that is no command, comment
/// or declaration: the line with its references expanded, then continued
/// from the newest entry of the history where it begins with an operator,
/// then with the names of variables replaced. `None` where it begins with an
/// operator and the history is empty.
pub open spec fn rewritten(session: SessionView, body: Seq<char>) -> Option<Seq<char>> {
    let expanded = expand_references(body, session.history);
    if !continues(expanded, session.operators) {
        Some(substitute(session.variables, session.operators, expanded))
    } else if session.history.len() > 0 {
        Some(
            substitute(
                session.variables,
                session.operators,
                continuation(expanded, session.history),
            ),
        )
    } else {
        None
    }
}

/// What a declaration, a line with one `=`, comes to: the variable it
/// declares, or why it is refused.
pub open spec fn declaration(variables: Seq<VariableView>, body: Seq<char>) -> OutcomeView {
    let left = body.take(first_of(body, '=', '='));
    let right = body.skip(first_of(body, '=', '=') + 1);
    if !is_float_literal(trim(right)) {
        OutcomeView::Refused(not_a_number(trim(left), trim(right)))
    } else if collides(variables, declared(left, right)) {
        OutcomeView::Refused(name_in_use(trim(left)))
    } else {
        OutcomeView::Declared(declared(left, right))
    }
}

/// What becomes of a line: the stages in their order. The first stage that
/// takes the line decides.
pub open spec fn outcome(session: SessionView, line: Seq<char>) -> Result<OutcomeView, Seq<char>> {
    let body = line.drop_last();
    if line == seq!['\n'] {
        Ok(OutcomeView::Nothing)
    } else if line.len() == 0 {
        Ok(OutcomeView::Exit)
    } else if invoked(session.commands, body) is Some {
        Ok(
            OutcomeView::Command {
                action: session.commands[invoked(session.commands, body)->0].action,
                parameters: command_parameters(body),
            },
        )
    } else if comment(body) is Some {
        Ok(OutcomeView::Comment(comment(body)->0))
    } else if count(body, '=') > 1 {
        Err("Too many equals signs"@)
    } else if count(body, '=') == 1 {
        Ok(declaration(session.variables, body))
    } else {
        match rewritten(session, body) {
            Some(expression) => Ok(calculated(expression)),
            None => Ok(OutcomeView::NothingToContinue),
        }
    }
}

/// The session after a line: a declared variable is stored, an evaluated
/// expression is the newest entry of the history, and nothing else changes.
pub open spec fn session_after(session: SessionView, line: Seq<char>) -> SessionView {
    match outcome(session, line) {
        Ok(OutcomeView::Declared(variable)) => SessionView {
            variables: store(session.variables, variable),
            ..session
        },
        Ok(OutcomeView::Evaluated { expression, result }) => SessionView {
            history: seq![expression] + session.history,
            ..session
        },
        _ => session,
    }
}

/// A character that occurs in `s` is found by `first_of`.
pub proof fn lemma_count_first_of(s: Seq<char>, c: char)
    ensures
        count(s, c) > 0 ==> first_of(s, c, c) < s.len(),
    decreases s.len(),
{
    lemma_first_of_bounds(s, c, c);
    if s.len() > 0 && s[0] != c {
        lemma_count_first_of(s.skip(1), c);
        lemma_count_skip(s, c);
    }
}

/// The first character counts for one if it is `c`.
pub proof fn lemma_count_skip(s: Seq<char>, c: char)
    requires
        s.len() > 0,
    ensures
        count(s, c) == count(s.skip(1), c) + if s[0] == c {
            1nat
        } else {
            0nat
        },
    decreases s.len(),
{
    if s.len() == 1 {
        assert(count(s.skip(1), c) == 0);
        assert(count(s.drop_last(), c) == 0);
    } else {
        lemma_count_skip(s.drop_last(), c);
        assert(s.drop_last().skip(1) == s.skip(1).drop_last());
        assert(s.skip(1).last() == s.last());
        assert(s.drop_last()[0] == s[0]);
    }
}

/// Takes a line through the stages, in their order, and says what became of
/// it. A line with more than one `=` is an error.
pub fn parse(session: &mut Session, expression: &str) -> (r: Result<Outcome, InvalidExpression>)
    requires
        old(session).wf(),
    ensures
        final(session).wf(),
        match r {
            Ok(done) => Ok::<OutcomeView, Seq<char>>(done@) == outcome(old(session)@, expression@),
            Err(error) => Err::<OutcomeView, Seq<char>>(error.message@) == outcome(
                old(session)@,
                expression@,
            ),
        },
        final(session)@ == session_after(old(session)@, expression@),
{
    let mut line = chars_of(expression);
    if line.len() == 1 && line[0] == '\n' {
        assert(line@ =~= seq!['\n']);
        return Ok(Outcome::Nothing);
    }
    if line.len() == 0 {
        return Ok(Outcome::Exit);
    }
    line.pop();
    let body = string_of(&line);
    if let Some(invocation) = parse_commands(&session.commands, body.as_str()) {
        return Ok(Outcome::Command(invocation));
    }
    if let Some(text) = parse_comment(body.as_str()) {
        return Ok(Outcome::Comment(text));
    }
    let equals = occurrences(&line, '=');
    if equals > 1 {
        return Err(InvalidExpression::new("Too many equals signs"));
    }
    if equals == 1 {
        let at = find_first(&line, '=', '=');
        proof {
            lemma_count_first_of(line@, '=');
        }
        let left = string_of(&slice(&line, 0, at));
        let right = string_of(&slice(&line, at + 1, line.len()));
        return match parse_variable_declaration(
            &mut session.variables,
            left.as_str(),
            right.as_str(),
        ) {
            Ok(variable) => Ok(Outcome::Declared(variable)),
            Err(error) => Ok(Outcome::Refused(error)),
        };
    }
    let expanded = parse_line_references(&session.history, body.as_str());
    let continued = match handle_continuation(
        &session.history,
        &session.operators,
        expanded.as_str(),
    ) {
        Some(text) => text,
        None => {
            return Ok(Outcome::NothingToContinue);
        },
    };
    let replaced = parse_variables(&session.variables, &session.operators, continued.as_str());
    Ok(calculate_and_show_result(&mut session.history, replaced))
}

/// Whether `line` gets past the stages that take commands and comments.
pub open spec fn reaches_declarations(session: SessionView, line: Seq<char>) -> bool {
    &&& line.len() > 0
    &&& line != seq!['\n']
    &&& invoked(session.commands, line.drop_last()) is None
    &&& comment(line.drop_last()) is None
}

/// A declaration with more than one `=` is an error and changes nothing: no
/// variable is added, and none is changed.
pub proof fn lemma_second_equals_sign_is_refused(session: SessionView, line: Seq<char>)
    requires
        reaches_declarations(session, line),
        count(line.drop_last(), '=') > 1,
    ensures
        outcome(session, line) == Err::<OutcomeView, Seq<char>>("Too many equals signs"@),
        session_after(session, line) == session,
{
}

/// A declaration whose value is no number is refused, with the words that
/// name the value, and changes nothing.
pub proof fn lemma_value_must_be_a_number(session: SessionView, line: Seq<char>)
    requires
        reaches_declarations(session, line),
        count(line.drop_last(), '=') == 1,
        !is_float_literal(
            trim(line.drop_last().skip(first_of(line.drop_last(), '=', '=') + 1)),
        ),
    ensures
        outcome(session, line) == Ok::<OutcomeView, Seq<char>>(
            OutcomeView::Refused(
                not_a_number(
                    trim(line.drop_last().take(first_of(line.drop_last(), '=', '='))),
                    trim(line.drop_last().skip(first_of(line.drop_last(), '=', '=') + 1)),
                ),
            ),
        ),
        session_after(session, line) == session,
{
}

/// A comment leaves no trace: the session is as it was, so no line that
/// follows can refer to the comment or continue it.
pub proof fn lemma_comment_leaves_no_trace(session: SessionView, line: Seq<char>)
    requires
        line.len() > 0,
        line != seq!['\n'],
        invoked(session.commands, line.drop_last()) is None,
        comment(line.drop_last()) is Some,
    ensures
        outcome(session, line) == Ok::<OutcomeView, Seq<char>>(
            OutcomeView::Comment(comment(line.drop_last())->0),
        ),
        session_after(session, line) == session,
        forall|next: Seq<char>|
            outcome(session_after(session, line), next) == outcome(session, next),
{
}

/// The history grows by evaluation only: after a line it is as it was, or
/// the line was an expression that was evaluated and is now the newest entry.
pub proof fn lemma_history_records_evaluations(session: SessionView, line: Seq<char>)
    ensures
        session_after(session, line).history == session.history || exists|
            expression: Seq<char>,
            result: Seq<char>,
        |
            outcome(session, line) == Ok::<OutcomeView, Seq<char>>(
                OutcomeView::Evaluated { expression, result },
            ) && session_after(session, line).history == seq![expression] + session.history,
{
    match outcome(session, line) {
        Ok(OutcomeView::Evaluated { expression, result }) => {
            assert(outcome(session, line) == Ok::<OutcomeView, Seq<char>>(
                OutcomeView::Evaluated { expression, result },
            ));
        },
        _ => {},
    }
}

} // verus!
