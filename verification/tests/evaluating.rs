use rlox::errors::Runtime;
use rlox::interpreter::{Interpreter, Value};
use rlox::lox::Lox;
use rlox::parser::Parser;
use rlox::scanner::Scanner;
use rlox::text::{i64_text, text_i64, u64_text};

/// Evaluates `src` (one expression statement) to its value's text.
fn eval_text(src: &str) -> String {
    let mut s = Scanner::new(src);
    let toks = s.scan_tokens();
    assert!(s.errors.is_empty());
    let mut p = Parser::new(toks);
    let stmts = p.parse().expect("statements");
    let interp = Interpreter::new();
    let v = interp.evaluate(&stmts[0].get_inner()).expect("a value");
    Interpreter::value_text(&v)
}

fn eval_err(src: &str) -> Runtime {
    let mut s = Scanner::new(src);
    let toks = s.scan_tokens();
    let mut p = Parser::new(toks);
    let stmts = p.parse().expect("statements");
    let mut interp = Interpreter::new();
    interp.interpret(stmts).expect_err("a runtime error")
}

#[test]
fn integer_arithmetic_is_exact() {
    assert_eq!(eval_text("2 + 3;"), "5");
    assert_eq!(eval_text("2 - 3;"), "-1");
    assert_eq!(eval_text("6 * 7;"), "42");
    assert_eq!(eval_text("7 / 2;"), "3");
}

#[test]
fn division_truncates_toward_zero() {
    assert_eq!(eval_text("-7 / 2;"), "-3");
    assert_eq!(eval_text("7 / -2;"), "-3");
    assert_eq!(eval_text("-7 / -2;"), "3");
}

#[test]
fn two_plus_one_equals_three() {
    assert_eq!(eval_text("2 + 1 == 3;"), "true");
}

#[test]
fn division_by_zero_is_fatal_with_its_own_kind() {
    assert_eq!(eval_err("1 / 0;"), Runtime::DivisionByZero);
}

#[test]
fn print_one_outputs_one_and_binds_nothing() {
    let mut s = Scanner::new("print 1;");
    let toks = s.scan_tokens();
    let mut p = Parser::new(toks);
    let stmts = p.parse().expect("statements");
    let mut interp = Interpreter::new();
    interp.interpret(stmts).expect("a clean run");
    assert_eq!(interp.output, vec!["1".to_string()]);
    assert!(interp.environment.get("x").is_none());
    assert!(interp.environment.scopes[0].names.is_empty());
}

#[test]
fn nil_equality() {
    assert_eq!(eval_text("nil == nil;"), "true");
    assert_eq!(eval_text("nil == 1;"), "false");
    assert_eq!(eval_text("1 == nil;"), "false");
    assert_eq!(eval_text("nil != nil;"), "false");
}

#[test]
fn non_nil_values_equal_themselves() {
    assert_eq!(eval_text("1 == 1;"), "true");
    assert_eq!(eval_text("\"a\" == \"a\";"), "true");
    assert_eq!(eval_text("true == true;"), "true");
    assert_eq!(eval_text("1 == 2;"), "false");
}

#[test]
fn comparisons_need_integers() {
    assert_eq!(eval_text("2 > 1;"), "true");
    assert_eq!(eval_text("2 <= 1;"), "false");
    assert_eq!(eval_err("\"a\" < 1;"), Runtime::NotInt);
}

#[test]
fn plus_concatenates_when_neither_side_is_a_number() {
    assert_eq!(eval_text("\"ab\" + \"cd\";"), "abcd");
}

#[test]
fn plus_of_number_and_string_is_fatal() {
    assert_eq!(eval_err("1 + \"a\";"), Runtime::NotInt);
    assert_eq!(eval_err("\"a\" + 1;"), Runtime::NotInt);
}

#[test]
fn unary_negation_and_not() {
    assert_eq!(eval_text("-3;"), "-3");
    assert_eq!(eval_text("--3;"), "3");
    assert_eq!(eval_text("!true;"), "false");
    assert_eq!(eval_text("!false;"), "true");
    assert_eq!(eval_text("!nil;"), "true");
    assert_eq!(eval_err("!1;"), Runtime::NotBool);
    assert_eq!(eval_err("-nil;"), Runtime::NotInt);
}

#[test]
fn grouping_is_transparent() {
    assert_eq!(eval_text("(1 + 2) * 3;"), "9");
}

#[test]
fn overflow_is_its_own_error() {
    assert_eq!(eval_err("9223372036854775807 + 1;"), Runtime::Overflow);
}

#[test]
fn variables_bind_and_look_up() {
    let mut s = Scanner::new("var a = 2; print a + 1;");
    let toks = s.scan_tokens();
    let mut p = Parser::new(toks);
    let stmts = p.parse().expect("statements");
    let mut interp = Interpreter::new();
    interp.interpret(stmts).expect("a clean run");
    assert_eq!(interp.output, vec!["3".to_string()]);
    assert_eq!(interp.environment.get("a").as_deref(), Some("2"));
}

#[test]
fn declaration_without_initializer_binds_nil() {
    let mut s = Scanner::new("var a; print a;");
    let toks = s.scan_tokens();
    let mut p = Parser::new(toks);
    let stmts = p.parse().expect("statements");
    let mut interp = Interpreter::new();
    interp.interpret(stmts).expect("a clean run");
    assert_eq!(interp.output, vec!["null".to_string()]);
}

#[test]
fn redefinition_shadows_the_old_value() {
    let mut s = Scanner::new("var a = 1; var a = 2; print a;");
    let toks = s.scan_tokens();
    let mut p = Parser::new(toks);
    let stmts = p.parse().expect("statements");
    let mut interp = Interpreter::new();
    interp.interpret(stmts).expect("a clean run");
    assert_eq!(interp.output, vec!["2".to_string()]);
}

#[test]
fn undefined_variable_is_fatal() {
    assert_eq!(eval_err("print missing;"), Runtime::UndefinedVariable);
}

#[test]
fn runtime_error_stops_later_statements() {
    let mut s = Scanner::new("print 1; 1 / 0; print 2;");
    let toks = s.scan_tokens();
    let mut p = Parser::new(toks);
    let stmts = p.parse().expect("statements");
    let mut interp = Interpreter::new();
    assert_eq!(interp.interpret(stmts), Err(Runtime::DivisionByZero));
    assert_eq!(interp.output, vec!["1".to_string()]);
}

#[test]
fn truthiness_helpers() {
    let interp = Interpreter::new();
    assert_eq!(interp.is_truthy(&Value::Nil), Ok(false));
    assert_eq!(interp.is_truthy(&Value::Bool(true)), Ok(true));
    assert_eq!(interp.is_truthy(&Value::Num(1)), Err(Runtime::NotBool));
    assert!(interp.is_equal(&Value::Nil, &Value::Nil));
    assert!(!interp.is_equal(&Value::Nil, &Value::Num(0)));
}

#[test]
fn decimal_text_round_trips() {
    assert_eq!(u64_text(0), "0");
    assert_eq!(u64_text(18446744073709551615), "18446744073709551615");
    assert_eq!(i64_text(-9223372036854775808), "-9223372036854775808");
    assert_eq!(text_i64("42"), Some(42));
    assert_eq!(text_i64("-42"), Some(-42));
    assert_eq!(text_i64("+42"), Some(42));
    assert_eq!(text_i64("9223372036854775808"), None);
    assert_eq!(text_i64("4 2"), None);
    assert_eq!(text_i64(""), None);
    assert_eq!(text_i64("-"), None);
}

#[test]
fn report_format_is_fixed() {
    assert_eq!(Lox::format_report(3, "bad input"), "[line 3] Error: bad input");
}

#[test]
fn string_literals_are_decided_by_their_text() {
    // A literal's text is decided once into a tagged value, so the
    // string "true" is the boolean and "3" is the number.
    assert_eq!(eval_text("\"true\" == true;"), "true");
    assert_eq!(eval_text("\"3\" == 1 + 2;"), "true");
    assert_eq!(eval_text("\"null\" == nil;"), "true");
}

#[test]
fn a_program_end_to_end() {
    let mut s = Scanner::new("var a = 6 * 7;\nprint a; // the answer\nprint a == 42;");
    let toks = s.scan_tokens();
    assert!(s.errors.is_empty());
    let mut p = Parser::new(toks);
    let stmts = p.parse().expect("statements");
    let mut interp = Interpreter::new();
    interp.interpret(stmts).expect("a clean run");
    assert_eq!(interp.output, vec!["42".to_string(), "true".to_string()]);
}

#[test]
fn runtime_messages() {
    assert_eq!(Runtime::DivisionByZero.message(), "Division by zero");
    assert_eq!(Runtime::NotInt.message(), "Not an integer");
}
