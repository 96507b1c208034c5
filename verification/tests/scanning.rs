use rlox::scanner::Scanner;
use rlox::token::TokenType;

fn kinds(src: &str) -> Vec<TokenType> {
    let mut s = Scanner::new(src);
    s.scan_tokens().iter().map(|t| t.tty).collect()
}

#[test]
fn single_and_double_tokens() {
    let k = kinds("(){},.-+;*/! != == = <= < >= >");
    assert_eq!(
        k,
        vec![
            TokenType::LeftParen,
            TokenType::RightParen,
            TokenType::LeftBrace,
            TokenType::RightBrace,
            TokenType::Comma,
            TokenType::Dot,
            TokenType::Minus,
            TokenType::Plus,
            TokenType::Semicolon,
            TokenType::Star,
            TokenType::Slash,
            TokenType::Bang,
            TokenType::BangEqual,
            TokenType::EqualEqual,
            TokenType::Equal,
            TokenType::LessEqual,
            TokenType::Less,
            TokenType::GreaterEqual,
            TokenType::Greater,
            TokenType::Eof,
        ]
    );
}

#[test]
fn arithmetic_chain_scans_to_six_tokens() {
    let mut s = Scanner::new("1 + 1 + 1");
    let toks = s.scan_tokens();
    assert_eq!(toks.len(), 6);
    assert_eq!(toks[0].tty, TokenType::Number);
    assert_eq!(toks[1].tty, TokenType::Plus);
    assert_eq!(toks[2].tty, TokenType::Number);
    assert_eq!(toks[3].tty, TokenType::Plus);
    assert_eq!(toks[4].tty, TokenType::Number);
    assert_eq!(toks[5].tty, TokenType::Eof);
    assert!(s.errors.is_empty());
}

#[test]
fn keywords_and_identifiers() {
    let k = kinds("and class else false for fun if nil or print return super this true var while andy");
    assert_eq!(
        k,
        vec![
            TokenType::And,
            TokenType::Class,
            TokenType::Else,
            TokenType::False,
            TokenType::For,
            TokenType::Fun,
            TokenType::If,
            TokenType::Nil,
            TokenType::Or,
            TokenType::Print,
            TokenType::Return,
            TokenType::Super,
            TokenType::This,
            TokenType::True,
            TokenType::Var,
            TokenType::While,
            TokenType::Identifier,
            TokenType::Eof,
        ]
    );
}

#[test]
fn string_literal_drops_delimiters() {
    let mut s = Scanner::new("\"hi there\";");
    let toks = s.scan_tokens();
    assert_eq!(toks[0].tty, TokenType::String);
    assert_eq!(toks[0].lexeme, "\"hi there\"");
    assert_eq!(toks[0].literal.as_deref(), Some("hi there"));
    assert!(s.errors.is_empty());
}

#[test]
fn number_literal_is_canonical() {
    let mut s = Scanner::new("007");
    let toks = s.scan_tokens();
    assert_eq!(toks[0].tty, TokenType::Number);
    assert_eq!(toks[0].lexeme, "007");
    assert_eq!(toks[0].literal.as_deref(), Some("7"));
}

#[test]
fn unterminated_string_is_one_error_at_start_line() {
    let mut s = Scanner::new("\"abc");
    let toks = s.scan_tokens();
    assert_eq!(s.errors.len(), 1);
    assert_eq!(s.errors[0].line, 1);
    assert_eq!(s.errors[0].message, "Unterminated string");
    assert_eq!(toks.len(), 1);
    assert_eq!(toks[0].tty, TokenType::Eof);
}

#[test]
fn unexpected_character_is_skipped() {
    let mut s = Scanner::new("1 @ 2");
    let toks = s.scan_tokens();
    assert_eq!(s.errors.len(), 1);
    assert_eq!(s.errors[0].message, "Unexpected character");
    assert_eq!(toks.len(), 3);
    assert_eq!(toks[0].tty, TokenType::Number);
    assert_eq!(toks[1].tty, TokenType::Number);
}

#[test]
fn comments_and_whitespace_vanish() {
    let mut s = Scanner::new("1 // the rest is gone\n2");
    let toks = s.scan_tokens();
    assert!(s.errors.is_empty());
    assert_eq!(toks.len(), 3);
    assert_eq!(toks[0].line, 1);
    assert_eq!(toks[1].line, 2);
}

#[test]
fn fractional_number_is_a_diagnostic() {
    let mut s = Scanner::new("1.5");
    let toks = s.scan_tokens();
    assert_eq!(s.errors.len(), 1);
    assert_eq!(s.errors[0].message, "Malformed number");
    assert_eq!(toks.len(), 1);
}

#[test]
fn dot_without_digit_is_its_own_token() {
    let k = kinds("1.x");
    assert_eq!(
        k,
        vec![TokenType::Number, TokenType::Dot, TokenType::Identifier, TokenType::Eof]
    );
}

#[test]
fn lexemes_rejoin_to_stripped_source() {
    let src = "print (1 + 2); // trailing words";
    let mut s = Scanner::new(src);
    let toks = s.scan_tokens();
    assert!(s.errors.is_empty());
    let joined: String = toks.iter().map(|t| t.lexeme.clone()).collect();
    assert_eq!(joined, "print(1+2);");
}

#[test]
fn string_keeps_inner_spaces_when_rejoined() {
    let src = "\"a b\" + x";
    let mut s = Scanner::new(src);
    let toks = s.scan_tokens();
    assert!(s.errors.is_empty());
    let joined: String = toks.iter().map(|t| t.lexeme.clone()).collect();
    assert_eq!(joined, "\"a b\"+x");
}

#[test]
fn empty_source_scans_to_the_end_marker_alone() {
    let mut s = Scanner::new("");
    let toks = s.scan_tokens();
    assert!(s.errors.is_empty());
    assert_eq!(toks.len(), 1);
    assert_eq!(toks[0].tty, TokenType::Eof);
    assert_eq!(toks[0].lexeme, "");
}

#[test]
fn unterminated_string_on_a_later_line_cites_its_start() {
    let mut s = Scanner::new("1;\n2;\n\"oops");
    let _toks = s.scan_tokens();
    assert_eq!(s.errors.len(), 1);
    assert_eq!(s.errors[0].line, 3);
    assert_eq!(s.errors[0].message, "Unterminated string");
}

#[test]
fn newline_inside_string_counts_lines() {
    let mut s = Scanner::new("\"a\nb\" 1");
    let toks = s.scan_tokens();
    assert!(s.errors.is_empty());
    assert_eq!(toks[0].tty, TokenType::String);
    assert_eq!(toks[0].line, 2);
    assert_eq!(toks[1].line, 2);
}
