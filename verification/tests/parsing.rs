use rlox::ast_printer::AstPrinter;
use rlox::parser::{Expr, Parser, StmtExpr};
use rlox::scanner::Scanner;
use rlox::token::TokenType;

fn parse_all(src: &str) -> Vec<StmtExpr> {
    let mut s = Scanner::new(src);
    let toks = s.scan_tokens();
    assert!(s.errors.is_empty());
    let mut p = Parser::new(toks);
    p.parse().expect("statements")
}

fn parse_err(src: &str) -> rlox::parser::ParseError {
    let mut s = Scanner::new(src);
    let toks = s.scan_tokens();
    let mut p = Parser::new(toks);
    p.parse().expect_err("a parse error")
}

#[test]
fn arithmetic_chain_is_left_nested() {
    let stmts = parse_all("1 + 1 + 1;");
    assert_eq!(stmts.len(), 1);
    let e = stmts[0].get_inner();
    match &e {
        Expr::Binary(outer) => {
            assert_eq!(outer.operator.tty, TokenType::Plus);
            match &outer.left {
                Expr::Binary(inner) => {
                    assert_eq!(inner.operator.tty, TokenType::Plus);
                    assert!(matches!(&inner.left, Expr::Literal(_)));
                    assert!(matches!(&inner.right, Expr::Literal(_)));
                },
                other => panic!("left operand is not nested: {:?}", other),
            }
            assert!(matches!(&outer.right, Expr::Literal(_)));
        },
        other => panic!("not a binary tree: {:?}", other),
    }
}

#[test]
fn precedence_binds_factors_tighter() {
    let printer = AstPrinter::new();
    let stmts = parse_all("1 + 2 * 3;");
    assert_eq!(printer.print(&stmts[0].get_inner()), "(+ 1 (* 2 3))");
}

#[test]
fn comparison_and_equality_levels() {
    let printer = AstPrinter::new();
    let stmts = parse_all("1 < 2 == true;");
    assert_eq!(printer.print(&stmts[0].get_inner()), "(== (< 1 2) true)");
}

#[test]
fn unary_and_grouping() {
    let printer = AstPrinter::new();
    let stmts = parse_all("-(1 + 2) * !false;");
    assert_eq!(printer.print(&stmts[0].get_inner()), "(* (- (group (+ 1 2))) (! false))");
}

#[test]
fn nil_literal_prints_as_nil() {
    let printer = AstPrinter::new();
    let stmts = parse_all("nil;");
    assert_eq!(printer.print(&stmts[0].get_inner()), "nil");
}

#[test]
fn print_statement_parses() {
    let stmts = parse_all("print 1;");
    assert_eq!(stmts.len(), 1);
    assert!(matches!(&stmts[0], StmtExpr::Print { .. }));
}

#[test]
fn var_declaration_with_initializer() {
    let stmts = parse_all("var a = 1 + 2;");
    assert_eq!(stmts.len(), 1);
    match &stmts[0] {
        StmtExpr::Var { name, initializer } => {
            assert_eq!(name.lexeme, "a");
            assert!(initializer.is_some());
        },
        other => panic!("not a declaration: {:?}", other),
    }
}

#[test]
fn var_declaration_without_initializer() {
    let stmts = parse_all("var a;");
    match &stmts[0] {
        StmtExpr::Var { name, initializer } => {
            assert_eq!(name.lexeme, "a");
            assert!(initializer.is_none());
        },
        other => panic!("not a declaration: {:?}", other),
    }
}

#[test]
fn missing_semicolon_aborts_the_parse() {
    let e = parse_err("1 + 2");
    assert_eq!(e.message, "Expect ';' after value");
}

#[test]
fn missing_close_paren_aborts_the_parse() {
    let e = parse_err("(1 + 2;");
    assert_eq!(e.message, "Expect ')' after expression");
}

#[test]
fn missing_operand_aborts_the_parse() {
    let e = parse_err("1 + ;");
    assert_eq!(e.message, "Expect expression");
}

#[test]
fn missing_variable_name_aborts_the_parse() {
    let e = parse_err("var 1;");
    assert_eq!(e.message, "Expect variable name");
}

#[test]
fn print_without_semicolon_names_the_expression_form() {
    let e = parse_err("print 1");
    assert_eq!(e.message, "Expect ';' after expression");
}

#[test]
fn synchronize_skips_to_statement_boundary() {
    let mut s = Scanner::new("foo bar; baz;");
    let toks = s.scan_tokens();
    let mut p = Parser::new(toks);
    assert!(p.parse().is_err());
    p.synchronize();
    assert_eq!(p.current, 3);
}

#[test]
fn get_inner_of_declaration_without_initializer_is_nil() {
    let stmts = parse_all("var a;");
    match stmts[0].get_inner() {
        Expr::Literal(l) => assert!(l.value.is_none()),
        other => panic!("not the nil literal: {:?}", other),
    }
}

#[test]
fn several_statements_parse_in_order() {
    let stmts = parse_all("var a = 1; print a; a;");
    assert_eq!(stmts.len(), 3);
    assert!(matches!(&stmts[0], StmtExpr::Var { .. }));
    assert!(matches!(&stmts[1], StmtExpr::Print { .. }));
    assert!(matches!(&stmts[2], StmtExpr::Expression { .. }));
}
