use smartcalc::command::Action;
use smartcalc::history::History;
use smartcalc::invalid_expression::InvalidExpression;
use smartcalc::parse_error::ParseError;
use smartcalc::parser::{
    calculate_and_show_result, can_evaluate, handle_continuation, occurrences, parse,
    join_spaced, parse_commands, split_words, MAX_EXPRESSION,
    parse_comment, parse_line_references, parse_variable_declaration, parse_variables,
    record_result, Invocation, Outcome,
};
use smartcalc::session::Session;
use smartcalc::variable::Variable;
use smartcalc::variables::Variables;

fn operators() -> Vec<char> {
    vec!['+', '-', '*', '/', '^', '=']
}

fn history_of(entries: &[&str]) -> History {
    let mut history = History::new();
    for entry in entries.iter().rev() {
        history.push_front(entry.to_string());
    }
    history
}

fn evaluated(outcome: Result<Outcome, InvalidExpression>) -> (String, String) {
    match outcome {
        Ok(Outcome::Evaluated { expression, result }) => (expression, result),
        other => panic!("not evaluated: {:?}", other),
    }
}

#[test]
fn errors_say_their_message() {
    assert_eq!(InvalidExpression::new("Too many equals signs").message, "Too many equals signs");
    assert_eq!(InvalidExpression::new("x").to_string(), "x");
    assert_eq!(InvalidExpression::default().message, "Expression is invalid");
    assert_eq!(ParseError::new("no number").message, "no number");
    assert_eq!(ParseError::new("no number").to_string(), "no number");
}

#[test]
fn the_first_word_invokes_a_command() {
    let session = Session::new();
    assert_eq!(
        parse_commands(&session.commands, "help"),
        Some(Invocation { action: Action::Help, parameters: "".to_string() })
    );
    assert_eq!(
        parse_commands(&session.commands, "help clearv"),
        Some(Invocation { action: Action::Help, parameters: "clearv".to_string() })
    );
    assert_eq!(
        parse_commands(&session.commands, "convert 0xff and more"),
        Some(Invocation { action: Action::Convert, parameters: "0xff and more".to_string() })
    );
    assert_eq!(
        parse_commands(&session.commands, "quit "),
        Some(Invocation { action: Action::Exit, parameters: "".to_string() })
    );
    assert_eq!(
        parse_commands(&session.commands, "vars"),
        Some(Invocation { action: Action::ShowVariables, parameters: "".to_string() })
    );
}

#[test]
fn parameters_are_the_words_joined_by_single_spaces() {
    let session = Session::new();
    assert_eq!(
        parse_commands(&session.commands, "convert  0xff"),
        Some(Invocation { action: Action::Convert, parameters: "0xff".to_string() })
    );
    assert_eq!(
        parse_commands(&session.commands, "convert 0xff  and \t more "),
        Some(Invocation { action: Action::Convert, parameters: "0xff and more".to_string() })
    );
    assert_eq!(
        parse_commands(&session.commands, "help\tvars"),
        Some(Invocation { action: Action::Help, parameters: "vars".to_string() })
    );
    assert_eq!(
        parse_commands(&session.commands, "  help   clearv  "),
        Some(Invocation { action: Action::Help, parameters: "clearv".to_string() })
    );
    assert_eq!(
        parse_commands(&session.commands, "\u{a0}exit\u{3000}"),
        Some(Invocation { action: Action::Exit, parameters: "".to_string() })
    );
}

#[test]
fn a_line_is_cut_into_its_words() {
    let text = |s: &str| s.chars().collect::<Vec<char>>();
    assert_eq!(split_words(&text("convert  0xff")), vec![text("convert"), text("0xff")]);
    assert_eq!(split_words(&text(" a\tb  c\n")), vec![text("a"), text("b"), text("c")]);
    assert_eq!(split_words(&text("word")), vec![text("word")]);
    assert_eq!(split_words(&text("")), Vec::<Vec<char>>::new());
    assert_eq!(split_words(&text(" \t ")), Vec::<Vec<char>>::new());
    let words = vec![text("a"), text("bc"), text("d")];
    assert_eq!(join_spaced(&words, 0), text("a bc d"));
    assert_eq!(join_spaced(&words, 1), text("bc d"));
    assert_eq!(join_spaced(&words, 2), text("d"));
    assert_eq!(join_spaced(&words, 3), text(""));
    for s in ["", " ", "a", " a  b ", "x\ty\u{2003}z", "help  me   now"] {
        let expected: Vec<String> = s.split_whitespace().map(String::from).collect();
        let found: Vec<String> =
            split_words(&text(s)).iter().map(|w| w.iter().collect()).collect();
        assert_eq!(found, expected);
    }
}

#[test]
fn what_is_no_command_goes_on() {
    let session = Session::new();
    assert_eq!(parse_commands(&session.commands, ""), None);
    assert_eq!(parse_commands(&session.commands, "   "), None);
    assert_eq!(parse_commands(&session.commands, "Help"), None);
    assert_eq!(parse_commands(&session.commands, "helper"), None);
    assert_eq!(parse_commands(&session.commands, "1 + help"), None);
    assert_eq!(parse_commands(&session.commands, "x * 4"), None);
}

#[test]
fn comments_begin_with_slashes_or_a_hash() {
    assert_eq!(parse_comment("// note"), Some("// note".to_string()));
    assert_eq!(parse_comment("//note"), Some("// note".to_string()));
    assert_eq!(parse_comment("//   spaced   out  "), Some("// spaced   out".to_string()));
    assert_eq!(parse_comment("# note"), Some("# note".to_string()));
    assert_eq!(parse_comment("#"), Some("# ".to_string()));
    assert_eq!(parse_comment("//"), Some("// ".to_string()));
    assert_eq!(parse_comment("///"), Some("// /".to_string()));
    assert_eq!(parse_comment("#//x"), Some("# //x".to_string()));
}

#[test]
fn what_is_no_comment() {
    assert_eq!(parse_comment("/ 10"), None);
    assert_eq!(parse_comment("/"), None);
    assert_eq!(parse_comment(" // note"), None);
    assert_eq!(parse_comment("1 # 2"), None);
    assert_eq!(parse_comment(""), None);
}

#[test]
fn counting_up_to_two() {
    let text = |s: &str| s.chars().collect::<Vec<char>>();
    assert_eq!(occurrences(&text("x * 4"), '='), 0);
    assert_eq!(occurrences(&text("x = 4"), '='), 1);
    assert_eq!(occurrences(&text("x = 1 = 2"), '='), 2);
    assert_eq!(occurrences(&text("===="), '='), 2);
    assert_eq!(occurrences(&text(""), '='), 0);
}

#[test]
fn a_declaration_stores_a_variable() {
    let mut variables = Variables::default();
    assert_eq!(
        parse_variable_declaration(&mut variables, "x ", " 25"),
        Ok(Variable::new("x", "25", None))
    );
    assert_eq!(variables.get("x"), Some(Variable::new("x", "25", None)));
    assert_eq!(variables.len(), 4);
    assert_eq!(
        parse_variable_declaration(&mut variables, "x", "-2.5e3"),
        Ok(Variable::new("x", "-2.5e3", None))
    );
    assert_eq!(variables.len(), 4);
    assert_eq!(variables.get("x").map(|v| v.value), Some("-2.5e3".to_string()));
    assert_eq!(
        parse_variable_declaration(&mut variables, " rate ", "\t.5 "),
        Ok(Variable::new("rate", ".5", None))
    );
    assert_eq!(variables.to_vec()[4], Variable::new("rate", ".5", None));
}

#[test]
fn a_value_that_is_no_number_is_refused() {
    let mut variables = Variables::default();
    let before = variables.to_vec();
    assert_eq!(
        parse_variable_declaration(&mut variables, "x ", " abc"),
        Err(InvalidExpression::new("Value given for variable x (\"abc\") is not a number"))
    );
    assert_eq!(
        parse_variable_declaration(&mut variables, "x", ""),
        Err(InvalidExpression::new("Value given for variable x (\"\") is not a number"))
    );
    assert_eq!(
        parse_variable_declaration(&mut variables, "pi", "3 + 1"),
        Err(InvalidExpression::new("Value given for variable pi (\"3 + 1\") is not a number"))
    );
    assert_eq!(variables.to_vec(), before);
}

#[test]
fn a_name_that_is_an_alias_is_refused() {
    let mut variables = Variables::default();
    let before = variables.to_vec();
    assert_eq!(
        parse_variable_declaration(&mut variables, "euler", "3"),
        Err(InvalidExpression::new("The name euler belongs to another variable"))
    );
    assert_eq!(variables.to_vec(), before);
}

#[test]
fn references_are_replaced_by_entries() {
    let history = history_of(&["2 * 3", "1 + 1"]);
    assert_eq!(parse_line_references(&history, "[1]"), "2 * 3");
    assert_eq!(parse_line_references(&history, "[2]"), "1 + 1");
    assert_eq!(parse_line_references(&history, "[1] + [2] + [1]"), "2 * 3 + 1 + 1 + 2 * 3");
    assert_eq!(parse_line_references(&history, "([2]) ^ 2"), "(1 + 1) ^ 2");
    assert_eq!(parse_line_references(&history, "1 + 1"), "1 + 1");
}

#[test]
fn a_reference_to_no_entry_stays() {
    let history = history_of(&["2 * 3", "1 + 1"]);
    assert_eq!(parse_line_references(&history, "[3]"), "[3]");
    assert_eq!(parse_line_references(&history, "[0]"), "[0]");
    assert_eq!(parse_line_references(&history, "[01]"), "[01]");
    assert_eq!(parse_line_references(&history, "[ 1 ]"), "[ 1 ]");
    assert_eq!(parse_line_references(&History::new(), "[1]"), "[1]");
}

#[test]
fn references_with_two_digits() {
    let entries: Vec<String> = (1..=12).map(|n| format!("{} + 0", n)).collect();
    let names: Vec<&str> = entries.iter().map(|s| s.as_str()).collect();
    let history = history_of(&names);
    assert_eq!(parse_line_references(&history, "[12]"), "12 + 0");
    assert_eq!(parse_line_references(&history, "[10] * [1]"), "10 + 0 * 1 + 0");
    assert_eq!(parse_line_references(&history, "[13]"), "[13]");
}

#[test]
fn entries_are_replaced_one_after_the_other() {
    let history = history_of(&["[2]", "7"]);
    assert_eq!(parse_line_references(&history, "[1]"), "7");
    let history = history_of(&["7", "[1]"]);
    assert_eq!(parse_line_references(&history, "[2]"), "[1]");
}

#[test]
fn an_expression_that_begins_with_an_operator_continues_the_newest_entry() {
    let history = history_of(&["25*4", "1 + 1"]);
    assert_eq!(handle_continuation(&history, &operators(), "/ 10"), Some("(25*4)/ 10".to_string()));
    assert_eq!(handle_continuation(&history, &operators(), "  + 1"), Some("(25*4)  + 1".to_string()));
    for operator in ["+", "-", "*", "/", "^", "="] {
        assert_eq!(
            handle_continuation(&history, &operators(), operator),
            Some(format!("(25*4){}", operator))
        );
    }
}

#[test]
fn any_other_expression_is_left_alone() {
    let history = history_of(&["25*4"]);
    assert_eq!(handle_continuation(&history, &operators(), "1 + 1"), Some("1 + 1".to_string()));
    assert_eq!(handle_continuation(&history, &operators(), "% 5"), Some("% 5".to_string()));
    assert_eq!(handle_continuation(&history, &operators(), ""), Some("".to_string()));
    assert_eq!(handle_continuation(&history, &operators(), "   "), Some("   ".to_string()));
    assert_eq!(handle_continuation(&History::new(), &operators(), "1 + 1"), Some("1 + 1".to_string()));
    assert_eq!(handle_continuation(&history, &Vec::new(), "+ 1"), Some("+ 1".to_string()));
}

#[test]
fn without_history_there_is_nothing_to_continue() {
    assert_eq!(handle_continuation(&History::new(), &operators(), "/ 10"), None);
    assert_eq!(handle_continuation(&History::new(), &operators(), " -1"), None);
}

#[test]
fn names_are_replaced_by_values() {
    let mut variables = Variables::default();
    variables.add(Variable::new("x", "25", None));
    assert_eq!(parse_variables(&variables, &operators(), "x * 4"), "25*4");
    assert_eq!(parse_variables(&variables, &operators(), "x*x"), "25*25");
    assert_eq!(parse_variables(&variables, &operators(), " x "), "25");
    assert_eq!(parse_variables(&variables, &operators(), "2 * pi"), "2*3.1415926535897931");
    assert_eq!(parse_variables(&variables, &operators(), "π / euler"), "3.1415926535897931/2.7182818284590451");
    assert_eq!(parse_variables(&variables, &operators(), "ℇ^2 - γ"), "0.57721566490153287^2-0.57721566490153287");
}

#[test]
fn only_whole_operands_are_replaced() {
    let mut variables = Variables::default();
    variables.add(Variable::new("x", "25", None));
    assert_eq!(parse_variables(&variables, &operators(), "xx + 1"), "xx+1");
    assert_eq!(parse_variables(&variables, &operators(), "(x) + 1"), "(x)+1");
    assert_eq!(parse_variables(&variables, &operators(), "x y + 1"), "x y+1");
    assert_eq!(parse_variables(&variables, &operators(), "exp + 1"), "exp+1");
    assert_eq!(parse_variables(&variables, &operators(), "X + 1 - x"), "X+1-25");
}

#[test]
fn operators_keep_their_places() {
    let mut variables = Variables::default();
    variables.add(Variable::new("x", "25", None));
    assert_eq!(parse_variables(&variables, &operators(), "-x"), "-25");
    assert_eq!(parse_variables(&variables, &operators(), "x +"), "25+");
    assert_eq!(parse_variables(&variables, &operators(), "x ** 2"), "25**2");
    assert_eq!(parse_variables(&variables, &operators(), "+ - x * / ^"), "+-25*/^");
}

#[test]
fn an_expression_that_names_no_variable_is_left_as_it_is() {
    let variables = Variables::default();
    assert_eq!(parse_variables(&variables, &operators(), "25 * 4"), "25 * 4");
    assert_eq!(parse_variables(&variables, &operators(), " 1 +  2 "), " 1 +  2 ");
    assert_eq!(parse_variables(&variables, &operators(), ""), "");
}

#[test]
fn a_numeral_is_never_taken_as_a_name() {
    let mut variables = Variables::default();
    variables.add(Variable::new("5", "7", None));
    variables.add(Variable::new("inf", "1", None));
    variables.add(Variable::new("1e3", "2", None));
    variables.add(Variable::new("x", "25", None));
    assert_eq!(parse_variables(&variables, &operators(), "5 + x"), "5+25");
    assert_eq!(parse_variables(&variables, &operators(), "inf * 1e3"), "inf*1e3");
    assert_eq!(parse_variables(&variables, &operators(), "e * 2"), "2.7182818284590451*2");
}

#[test]
fn a_result_is_recorded() {
    let mut history = history_of(&["1 + 1"]);
    assert_eq!(
        record_result(&mut history, "2 * 3".to_string(), Some("6".to_string())),
        Outcome::Evaluated { expression: "2 * 3".to_string(), result: "6".to_string() }
    );
    assert_eq!(history.to_vec(), vec!["2 * 3", "1 + 1"]);
    assert_eq!(
        record_result(&mut history, "2 * ".to_string(), None),
        Outcome::Failed { expression: "2 * ".to_string() }
    );
    assert_eq!(history.to_vec(), vec!["2 * 3", "1 + 1"]);
}

#[test]
fn expressions_are_evaluated() {
    let mut history = History::new();
    assert_eq!(
        calculate_and_show_result(&mut history, "1 + 2".to_string()),
        Outcome::Evaluated { expression: "1 + 2".to_string(), result: "3".to_string() }
    );
    assert_eq!(
        calculate_and_show_result(&mut history, "25*4".to_string()),
        Outcome::Evaluated { expression: "25*4".to_string(), result: "100".to_string() }
    );
    assert_eq!(
        calculate_and_show_result(&mut history, "7 / 2.0".to_string()),
        Outcome::Evaluated { expression: "7 / 2.0".to_string(), result: "3.5".to_string() }
    );
    assert_eq!(
        calculate_and_show_result(&mut history, "2 ^ 10".to_string()),
        Outcome::Evaluated { expression: "2 ^ 10".to_string(), result: "1024".to_string() }
    );
    assert_eq!(history.to_vec(), vec!["2 ^ 10", "7 / 2.0", "25*4", "1 + 2"]);
}

#[test]
fn what_cannot_be_evaluated_is_not_recorded() {
    let mut history = History::new();
    for expression in ["1 +", "nothing", "[1]", "1 / 0", "(1 + 2", "2 */ 3"] {
        assert_eq!(
            calculate_and_show_result(&mut history, expression.to_string()),
            Outcome::Failed { expression: expression.to_string() },
        );
    }
    assert_eq!(history.len(), 0);
}

#[test]
fn a_line_break_alone_does_nothing() {
    let mut session = Session::new();
    assert_eq!(parse(&mut session, "\n"), Ok(Outcome::Nothing));
    assert_eq!(session.history.len(), 0);
    assert_eq!(session.variables.len(), 3);
}

#[test]
fn an_empty_line_ends_the_session() {
    let mut session = Session::new();
    assert_eq!(parse(&mut session, ""), Ok(Outcome::Exit));
}

#[test]
fn the_last_character_of_a_line_is_dropped() {
    let mut session = Session::new();
    assert_eq!(
        parse(&mut session, "1 + 2\n"),
        Ok(Outcome::Evaluated { expression: "1 + 2".to_string(), result: "3".to_string() })
    );
    assert_eq!(
        parse(&mut session, "1 + 23"),
        Ok(Outcome::Evaluated { expression: "1 + 2".to_string(), result: "3".to_string() })
    );
}

#[test]
fn commands_are_taken_first() {
    let mut session = Session::new();
    assert_eq!(
        parse(&mut session, "help vars\n"),
        Ok(Outcome::Command(Invocation { action: Action::Help, parameters: "vars".to_string() }))
    );
    assert_eq!(
        parse(&mut session, "clearall x = 1\n"),
        Ok(Outcome::Command(Invocation {
            action: Action::ClearAll,
            parameters: "x = 1".to_string()
        }))
    );
    assert_eq!(
        parse(&mut session, "exit\n"),
        Ok(Outcome::Command(Invocation { action: Action::Exit, parameters: "".to_string() }))
    );
    assert_eq!(session.history.len(), 0);
    assert_eq!(session.variables.len(), 3);
}

#[test]
fn comments_are_taken_before_declarations() {
    let mut session = Session::new();
    assert_eq!(parse(&mut session, "// x = 1\n"), Ok(Outcome::Comment("// x = 1".to_string())));
    assert_eq!(parse(&mut session, "# x = 1 = 2\n"), Ok(Outcome::Comment("# x = 1 = 2".to_string())));
    assert_eq!(session.variables.len(), 3);
}

#[test]
fn variable_substitution_round_trip() {
    let mut session = Session::new();
    assert_eq!(
        parse(&mut session, "x = 25\n"),
        Ok(Outcome::Declared(Variable::new("x", "25", None)))
    );
    assert_eq!(session.history.len(), 0);
    let (expression, with_variable) = evaluated(parse(&mut session, "x * 4\n"));
    assert_eq!(expression, "25*4");
    assert_eq!(with_variable, "100");
    let (_, direct) = evaluated(parse(&mut Session::new(), "25 * 4\n"));
    assert_eq!(with_variable, direct);
}

#[test]
fn continuation_uses_the_most_recent_entry() {
    let mut session = Session::new();
    parse(&mut session, "x = 25\n").unwrap();
    assert_eq!(evaluated(parse(&mut session, "x * 4\n")).1, "100");
    let (expression, result) = evaluated(parse(&mut session, "/ 10\n"));
    assert_eq!(expression, "(25*4)/ 10");
    assert_eq!(result, "10");
    let (expression, result) = evaluated(parse(&mut session, "/ 10\n"));
    assert_eq!(expression, "((25*4)/ 10)/ 10");
    assert_eq!(result, "1");
    assert_eq!(session.history.to_vec(), vec!["((25*4)/ 10)/ 10", "(25*4)/ 10", "25*4"]);
}

#[test]
fn continuation_without_history_is_reported() {
    let mut session = Session::new();
    assert_eq!(parse(&mut session, "/ 10\n"), Ok(Outcome::NothingToContinue));
    assert_eq!(parse(&mut session, "  * 2\n"), Ok(Outcome::NothingToContinue));
    assert_eq!(session.history.len(), 0);
}

#[test]
fn line_reference_counts_from_the_most_recent() {
    let mut session = Session::new();
    assert_eq!(evaluated(parse(&mut session, "1 + 1\n")).1, "2");
    assert_eq!(evaluated(parse(&mut session, "2 * 3\n")).1, "6");
    let mut first = Session::new();
    first.history.push_front("1 + 1".to_string());
    first.history.push_front("2 * 3".to_string());
    assert_eq!(first.history.to_vec(), session.history.to_vec());
    assert_eq!(
        parse(&mut first, "[1]\n"),
        Ok(Outcome::Evaluated { expression: "2 * 3".to_string(), result: "6".to_string() })
    );
    assert_eq!(
        parse(&mut session, "[2]\n"),
        Ok(Outcome::Evaluated { expression: "1 + 1".to_string(), result: "2".to_string() })
    );
    assert_eq!(session.history.to_vec(), vec!["1 + 1", "2 * 3", "1 + 1"]);
    assert_eq!(
        parse(&mut session, "[2] ^ 2\n"),
        Ok(Outcome::Evaluated { expression: "2 * 3 ^ 2".to_string(), result: "18".to_string() })
    );
}

#[test]
fn a_reference_out_of_range_fails_in_evaluation() {
    let mut session = Session::new();
    assert_eq!(evaluated(parse(&mut session, "1 + 1\n")).1, "2");
    assert_eq!(
        parse(&mut session, "[2] + 1\n"),
        Ok(Outcome::Failed { expression: "[2] + 1".to_string() })
    );
    assert_eq!(session.history.to_vec(), vec!["1 + 1"]);
}

#[test]
fn two_equals_signs_are_an_error() {
    let mut session = Session::new();
    parse(&mut session, "x = 25\n").unwrap();
    let before = session.variables.to_vec();
    assert_eq!(
        parse(&mut session, "x = 1 = 2\n"),
        Err(InvalidExpression::new("Too many equals signs"))
    );
    assert_eq!(
        parse(&mut session, "y == 2\n"),
        Err(InvalidExpression::new("Too many equals signs"))
    );
    assert_eq!(session.variables.to_vec(), before);
    assert_eq!(session.variables.get("x").map(|v| v.value), Some("25".to_string()));
    assert_eq!(session.variables.get("y"), None);
    assert_eq!(session.history.len(), 0);
}

#[test]
fn a_declaration_of_no_number_is_rejected() {
    let mut session = Session::new();
    parse(&mut session, "x = 25\n").unwrap();
    let before = session.variables.to_vec();
    assert_eq!(
        parse(&mut session, "x = abc\n"),
        Ok(Outcome::Refused(InvalidExpression::new(
            "Value given for variable x (\"abc\") is not a number"
        )))
    );
    assert_eq!(
        parse(&mut session, "y = x\n"),
        Ok(Outcome::Refused(InvalidExpression::new(
            "Value given for variable y (\"x\") is not a number"
        )))
    );
    assert_eq!(
        parse(&mut session, "z =\n"),
        Ok(Outcome::Refused(InvalidExpression::new(
            "Value given for variable z (\"\") is not a number"
        )))
    );
    assert_eq!(session.variables.to_vec(), before);
    assert_eq!(session.history.len(), 0);
}

#[test]
fn a_declaration_under_an_alias_is_rejected() {
    let mut session = Session::new();
    let before = session.variables.to_vec();
    assert_eq!(
        parse(&mut session, "π = 3\n"),
        Ok(Outcome::Refused(InvalidExpression::new("The name π belongs to another variable")))
    );
    assert_eq!(session.variables.to_vec(), before);
}

#[test]
fn a_declaration_overwrites() {
    let mut session = Session::new();
    parse(&mut session, "x = 25\n").unwrap();
    parse(&mut session, "y = 1\n").unwrap();
    assert_eq!(
        parse(&mut session, " x=30 \n"),
        Ok(Outcome::Declared(Variable::new("x", "30", None)))
    );
    let keys: Vec<String> = session.variables.to_vec().into_iter().map(|v| v.key).collect();
    assert_eq!(keys, vec!["e", "γ", "pi", "x", "y"]);
    assert_eq!(evaluated(parse(&mut session, "x + y\n")), ("30+1".to_string(), "31".to_string()));
    assert_eq!(session.history.len(), 1);
}

#[test]
fn comments_never_reach_the_history() {
    let mut session = Session::new();
    assert_eq!(parse(&mut session, "// note\n"), Ok(Outcome::Comment("// note".to_string())));
    assert_eq!(parse(&mut session, "# note\n"), Ok(Outcome::Comment("# note".to_string())));
    assert_eq!(session.history.len(), 0);
    assert_eq!(parse(&mut session, "[1]\n"), Ok(Outcome::Failed { expression: "[1]".to_string() }));
    assert_eq!(parse(&mut session, "+ 1\n"), Ok(Outcome::NothingToContinue));
    assert_eq!(evaluated(parse(&mut session, "1 + 1\n")).1, "2");
    parse(&mut session, "// 5 * 5\n").unwrap();
    parse(&mut session, "# 6 * 6\n").unwrap();
    assert_eq!(evaluated(parse(&mut session, "[1]\n")), ("1 + 1".to_string(), "2".to_string()));
    assert_eq!(evaluated(parse(&mut session, "* 5\n")), ("(1 + 1)* 5".to_string(), "10".to_string()));
    assert_eq!(session.history.to_vec(), vec!["(1 + 1)* 5", "1 + 1", "1 + 1"]);
}

#[test]
fn only_evaluated_expressions_are_recorded() {
    let mut session = Session::new();
    parse(&mut session, "\n").unwrap();
    parse(&mut session, "help\n").unwrap();
    parse(&mut session, "// note\n").unwrap();
    parse(&mut session, "x = 1\n").unwrap();
    parse(&mut session, "x = a\n").unwrap();
    assert!(parse(&mut session, "x = 1 = 1\n").is_err());
    parse(&mut session, "+ 1\n").unwrap();
    parse(&mut session, "1 +\n").unwrap();
    assert_eq!(session.history.len(), 0);
    parse(&mut session, "x + 1\n").unwrap();
    assert_eq!(session.history.to_vec(), vec!["1+1"]);
}

#[test]
fn expressions_that_the_evaluator_may_not_survive_are_given_back() {
    let mut history = History::new();
    for expression in [
        "shl(1, 64)",
        "shr(1, 2)",
        "math::abs(-5)",
        "str::substring(\"é\", 1)",
        "1 + abs",
    ] {
        assert!(!can_evaluate(expression));
        assert_eq!(
            calculate_and_show_result(&mut history, expression.to_string()),
            Outcome::Deferred { expression: expression.to_string() }
        );
    }
    assert_eq!(history.len(), 0);
    let mut session = Session::new();
    assert_eq!(
        parse(&mut session, "shl(1, 2) + 1\n"),
        Ok(Outcome::Deferred { expression: "shl(1, 2) + 1".to_string() })
    );
    assert_eq!(session.history.len(), 0);
    assert_eq!(
        record_result(&mut session.history, "shl(1, 2) + 1".to_string(), Some("5".to_string())),
        Outcome::Evaluated { expression: "shl(1, 2) + 1".to_string(), result: "5".to_string() }
    );
    assert_eq!(session.history.to_vec(), vec!["shl(1, 2) + 1"]);
}

#[test]
fn expressions_up_to_the_limit_are_evaluated() {
    assert_eq!(MAX_EXPRESSION, 256);
    let longest = format!("1{}", "+1".repeat(127)) + "0";
    assert_eq!(longest.chars().count(), 256);
    assert!(can_evaluate(&longest));
    let mut history = History::new();
    assert_eq!(
        calculate_and_show_result(&mut history, longest.clone()),
        Outcome::Evaluated { expression: longest.clone(), result: "137".to_string() }
    );
    let longer = format!("{}0", longest);
    assert!(!can_evaluate(&longer));
    assert_eq!(
        calculate_and_show_result(&mut history, longer.clone()),
        Outcome::Deferred { expression: longer }
    );
    assert_eq!(history.len(), 1);
}

#[test]
fn the_deepest_expressions_within_the_limit_are_evaluated() {
    let mut history = History::new();
    let deep = [
        format!("{}1", "-".repeat(255)),
        format!("{}true", "!".repeat(252)),
        format!("{}1{}", "(".repeat(127), ")".repeat(127)),
        format!("1{}", "^1".repeat(127)),
        format!("{}1{}", "floor(".repeat(36), ")".repeat(36)),
        format!("{}1{}", "(1,".repeat(63), ")".repeat(63)),
    ];
    for expression in deep {
        assert!(can_evaluate(&expression));
        let outcome = calculate_and_show_result(&mut history, expression);
        assert!(!matches!(outcome, Outcome::Deferred { .. }));
    }
}

#[test]
fn the_evaluator_comes_back_from_whatever_is_handed_to_it() {
    let alphabet: Vec<char> =
        "0123456789.eE+-*/^%()<>=!&|,;\" \\abflmnorstuxy:_\n".chars().collect();
    let mut state: u64 = 0x2545f4914f6cdd1d;
    let mut history = History::new();
    let mut evaluated = 0;
    for _ in 0..100000 {
        let mut expression = String::new();
        state = state.wrapping_mul(6364136223846793005).wrapping_add(1442695040888963407);
        let length = (state >> 33) % 14;
        for _ in 0..length {
            state = state.wrapping_mul(6364136223846793005).wrapping_add(1442695040888963407);
            expression.push(alphabet[((state >> 33) % alphabet.len() as u64) as usize]);
        }
        if let Outcome::Evaluated { .. } = calculate_and_show_result(&mut history, expression) {
            evaluated += 1;
        }
    }
    assert!(evaluated > 100);
    assert_eq!(history.len(), evaluated);
}
