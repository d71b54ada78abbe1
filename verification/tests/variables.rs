use smartcalc::variable::Variable;
use smartcalc::variables::Variables;

fn keys(variables: &Variables) -> Vec<String> {
    variables.to_vec().into_iter().map(|v| v.key).collect()
}

#[test]
fn a_variable_answers_to_its_key_and_its_aliases() {
    let e = Variable::new("e", "2.7182818284590451", Some(vec!["euler".to_string()]));
    assert_eq!(e.key, "e");
    assert_eq!(e.value, "2.7182818284590451");
    assert_eq!(e.aliases, Some(vec!["euler".to_string()]));
    assert!(e.answers("e"));
    assert!(e.answers("euler"));
    assert!(!e.answers("eu"));
    assert!(!e.answers(""));
    assert!(e.clone().has_name("euler"));
    assert!(!e.clone().has_name("pi"));
    let x = Variable::new("x", "25", None);
    assert!(x.answers("x"));
    assert!(!x.answers("euler"));
    assert_eq!(x.clone(), x);
}

#[test]
fn variables_that_share_a_name() {
    let e = Variable::new("e", "1", Some(vec!["euler".to_string()]));
    let other = Variable::new("euler", "2", None);
    let aliased = Variable::new("k", "3", Some(vec!["x".to_string(), "e".to_string()]));
    let x = Variable::new("x", "25", None);
    assert!(e.shares_name_with(&other));
    assert!(other.shares_name_with(&e));
    assert!(e.shares_name_with(&aliased));
    assert!(aliased.shares_name_with(&x));
    assert!(!e.shares_name_with(&x));
    assert!(!x.shares_name_with(&other));
}

#[test]
fn a_variable_named_in_a_text() {
    let pi = Variable::new("pi", "3.1415926535897931", Some(vec!["π".to_string()]));
    let text = |s: &str| s.chars().collect::<Vec<char>>();
    assert!(pi.named_in(&text("2 * pi")));
    assert!(pi.named_in(&text("2π")));
    assert!(pi.named_in(&text("spin")));
    assert!(!pi.named_in(&text("2 * p i")));
    assert!(!pi.named_in(&text("")));
}

#[test]
fn a_new_store_holds_the_constants() {
    let variables = Variables::default();
    assert_eq!(variables.len(), 3);
    assert_eq!(variables.builtin_variable_count(), 3);
    assert_eq!(keys(&variables), vec!["e", "γ", "pi"]);
    let all = variables.to_vec();
    assert_eq!(all[0], Variable::new("e", "2.7182818284590451", Some(vec!["euler".to_string()])));
    assert_eq!(all[1], Variable::new("γ", "0.57721566490153287", Some(vec!["ℇ".to_string()])));
    assert_eq!(all[2], Variable::new("pi", "3.1415926535897931", Some(vec!["π".to_string()])));
}

#[test]
fn the_constants_have_their_values() {
    let variables = Variables::default();
    let value = |name: &str| variables.get(name).unwrap().value.parse::<f64>().unwrap();
    assert!((value("e") - 2.718281828459045).abs() < 1e-15);
    assert!((value("γ") - 0.5772156649015329).abs() < 1e-15);
    assert!((value("pi") - 3.141592653589793).abs() < 1e-15);
    assert_eq!(value("e"), std::f64::consts::E);
    assert_eq!(value("pi"), std::f64::consts::PI);
    assert_eq!(value("euler"), value("e"));
    assert_eq!(value("ℇ"), value("γ"));
    assert_eq!(value("π"), value("pi"));
}

#[test]
fn lookup_by_key_and_by_alias() {
    let variables = Variables::default();
    assert_eq!(variables.get("pi").map(|v| v.value), Some("3.1415926535897931".to_string()));
    assert_eq!(variables.get("π").map(|v| v.key), Some("pi".to_string()));
    assert_eq!(variables.get("euler").map(|v| v.key), Some("e".to_string()));
    assert_eq!(variables.get("ℇ").map(|v| v.key), Some("γ".to_string()));
    assert_eq!(variables.get("x"), None);
    assert_eq!(variables.get(""), None);
    assert_eq!(variables.get("PI"), None);
}

#[test]
fn added_variables_come_last_in_the_order_of_their_arrival() {
    let mut variables = Variables::default();
    assert!(variables.add(Variable::new("x", "25", None)));
    assert!(variables.add(Variable::new("a", "1", None)));
    assert!(variables.add(Variable::new("m", "2", None)));
    assert_eq!(keys(&variables), vec!["e", "γ", "pi", "x", "a", "m"]);
    assert_eq!(variables.len(), 6);
    assert_eq!(variables.builtin_variable_count(), 3);
    assert_eq!(variables.get("x"), Some(Variable::new("x", "25", None)));
}

#[test]
fn a_variable_added_again_is_overwritten_where_it_stands() {
    let mut variables = Variables::default();
    assert!(variables.add(Variable::new("x", "25", None)));
    assert!(variables.add(Variable::new("y", "1", None)));
    assert!(variables.add(Variable::new("x", "30", None)));
    assert_eq!(keys(&variables), vec!["e", "γ", "pi", "x", "y"]);
    assert_eq!(variables.get("x").map(|v| v.value), Some("30".to_string()));
    assert!(variables.add(Variable::new("pi", "3", None)));
    assert_eq!(keys(&variables), vec!["e", "γ", "pi", "x", "y"]);
    assert_eq!(variables.get("pi"), Some(Variable::new("pi", "3", None)));
    assert_eq!(variables.get("π"), None);
    assert_eq!(variables.builtin_variable_count(), 3);
}

#[test]
fn a_name_that_another_variable_has_is_refused() {
    let mut variables = Variables::default();
    assert!(!variables.add(Variable::new("euler", "5", None)));
    assert!(!variables.add(Variable::new("π", "3", None)));
    assert!(!variables.add(Variable::new("k", "3", Some(vec!["e".to_string()]))));
    assert!(variables.add(Variable::new("x", "1", Some(vec!["ex".to_string()]))));
    assert!(!variables.add(Variable::new("ex", "2", None)));
    assert!(!variables.add(Variable::new("z", "2", Some(vec!["x".to_string()]))));
    assert_eq!(keys(&variables), vec!["e", "γ", "pi", "x"]);
    assert_eq!(variables.get("ex").map(|v| v.value), Some("1".to_string()));
    assert_eq!(variables.to_vec()[..3], Variables::default().to_vec()[..]);
}

#[test]
fn removal_by_key_or_alias() {
    let mut variables = Variables::default();
    variables.add(Variable::new("x", "25", None));
    variables.add(Variable::new("y", "1", None));
    variables.remove("x");
    assert_eq!(keys(&variables), vec!["e", "γ", "pi", "y"]);
    assert_eq!(variables.builtin_variable_count(), 3);
    variables.remove("nothing");
    assert_eq!(keys(&variables), vec!["e", "γ", "pi", "y"]);
    variables.remove("ℇ");
    assert_eq!(keys(&variables), vec!["e", "pi", "y"]);
    assert_eq!(variables.builtin_variable_count(), 2);
    assert_eq!(variables.get("γ"), None);
    variables.remove("y");
    variables.remove("e");
    variables.remove("pi");
    assert_eq!(variables.len(), 0);
    assert_eq!(variables.builtin_variable_count(), 0);
}

#[test]
fn clearing_keeps_the_constants_in_their_order() {
    let mut variables = Variables::default();
    let constants = variables.to_vec();
    variables.add(Variable::new("x", "25", None));
    variables.add(Variable::new("y", "1", None));
    variables.add(Variable::new("e", "3", None));
    variables.clear_user_defined();
    assert_eq!(keys(&variables), vec!["e", "γ", "pi"]);
    assert_eq!(variables.builtin_variable_count(), 3);
    assert_eq!(variables.get("e").map(|v| v.value), Some("3".to_string()));
    assert_eq!(variables.to_vec()[1..], constants[1..]);
    assert_eq!(variables.get("x"), None);
    variables.clear_user_defined();
    assert_eq!(keys(&variables), vec!["e", "γ", "pi"]);
    assert!(variables.add(Variable::new("x", "2", None)));
    assert_eq!(keys(&variables), vec!["e", "γ", "pi", "x"]);
}
