//! Recursive-descent parsing of token streams.

use minilang::parser::{Expected, ParseError, Parser};

#[test]
fn parse_var() {
    let mut prog = Parser::new(&"x");
    let result = prog.parse();
    assert!(result.is_ok());
    let e = result.unwrap();
    assert_eq!("x", e.render());
}

#[test]
fn parse_int() {
    let mut prog = Parser::new(&"123");
    let result = prog.parse();
    assert!(result.is_ok());
    let e = result.unwrap();
    assert_eq!("123", e.render());
}

#[test]
fn parse_bool() {
    let mut prog = Parser::new(&"T");
    let result = prog.parse();
    assert!(result.is_ok());
    let e = result.unwrap();
    assert_eq!("T", e.render());
}

#[test]
fn parse_plus() {
    let mut prog = Parser::new(&"+(1, 1)");
    let result = prog.parse();
    assert!(result.is_ok());
    let e = result.unwrap();
    assert_eq!("1 + 1", e.render());
}

#[test]
fn parse_nested_plus() {
    let mut prog = Parser::new(&"+(1, +(1, 1))");
    let result = prog.parse();
    assert!(result.is_ok());
    let e = result.unwrap();
    assert_eq!("1 + 1 + 1", e.render());
}

#[test]
fn parse_minus() {
    let mut prog = Parser::new(&"-(1, 1)");
    let result = prog.parse();
    assert!(result.is_ok());
    let e = result.unwrap();
    assert_eq!("1 - 1", e.render());
}

#[test]
fn parse_mult() {
    let mut prog = Parser::new(&"*(1, 1)");
    let result = prog.parse();
    assert!(result.is_ok());
    let e = result.unwrap();
    assert_eq!("1 * 1", e.render());
}

#[test]
fn parse_div() {
    let mut prog = Parser::new(&"/(1, 1)");
    let result = prog.parse();
    assert!(result.is_ok());
    let e = result.unwrap();
    assert_eq!("1 / 1", e.render());
}

#[test]
fn parse_lt() {
    let mut prog = Parser::new(&"<(1, 1)");
    let result = prog.parse();
    assert!(result.is_ok());
    let e = result.unwrap();
    assert_eq!("1 < 1", e.render());
}

#[test]
fn parse_not() {
    let mut prog = Parser::new(&"!T");
    let result = prog.parse();
    assert!(result.is_ok());
    let e = result.unwrap();
    assert_eq!("!T", e.render());
}

#[test]
fn parse_eq() {
    let mut prog = Parser::new(&"=(1, 1)");
    let result = prog.parse();
    assert!(result.is_ok());
    let e = result.unwrap();
    assert_eq!("1 = 1", e.render());
}

#[test]
fn parse_func() {
    let mut prog = Parser::new(&"func x => T");
    let result = prog.parse();
    assert!(result.is_ok());
    let e = result.unwrap();
    assert_eq!("func x => T", e.render());
}

#[test]
fn parse_app() {
    let mut prog = Parser::new(&"apply(func x => x, 1)");
    let result = prog.parse();
    assert!(result.is_ok());
    let e = result.unwrap();
    assert_eq!("func x => x (1)", e.render());
}

#[test]
fn parse_if() {
    let mut prog = Parser::new(&"if <(1, 5) then 8 else 9");
    let result = prog.parse();
    assert!(result.is_ok());
    let e = result.unwrap();
    assert_eq!("if 1 < 5 then 8 else 9", e.render());
}

#[test]
fn parse_empty_input() {
    let mut prog = Parser::new(&"");
    assert_eq!(prog.parse(), Err(ParseError::UnexpectedEndOfInput));
}

#[test]
fn parse_token_that_starts_no_production() {
    let mut prog = Parser::new(&")");
    assert_eq!(prog.parse(), Err(ParseError::ExpectedExpression));
}

#[test]
fn parse_missing_open_paren() {
    let mut prog = Parser::new(&"+1, 2)");
    assert_eq!(prog.parse(), Err(ParseError::ExpectedToken(Expected::OpenParen)));
}

#[test]
fn parse_missing_comma() {
    let mut prog = Parser::new(&"+(1 1)");
    assert_eq!(prog.parse(), Err(ParseError::ExpectedToken(Expected::Comma)));
}

#[test]
fn parse_missing_close_paren() {
    let mut prog = Parser::new(&"+(1, 1");
    assert_eq!(prog.parse(), Err(ParseError::ExpectedToken(Expected::CloseParen)));
}

#[test]
fn parse_missing_arrow() {
    let mut prog = Parser::new(&"func x x");
    assert_eq!(prog.parse(), Err(ParseError::ExpectedToken(Expected::Arrow)));
}

#[test]
fn parse_missing_parameter() {
    let mut prog = Parser::new(&"func 1 => x");
    assert_eq!(prog.parse(), Err(ParseError::ExpectedToken(Expected::ParamName)));
}

#[test]
fn parse_missing_middle_keyword_of_conditional() {
    let mut prog = Parser::new(&"if T 1 else 2");
    assert_eq!(prog.parse(), Err(ParseError::ExpectedToken(Expected::ThenKeyword)));
}

#[test]
fn parse_missing_last_keyword_of_conditional() {
    let mut prog = Parser::new(&"if T then 1 2");
    assert_eq!(prog.parse(), Err(ParseError::ExpectedToken(Expected::ElseKeyword)));
}

#[test]
fn parse_apply_missing_open_paren() {
    let mut prog = Parser::new(&"apply f, 1)");
    assert_eq!(prog.parse(), Err(ParseError::ExpectedToken(Expected::OpenParen)));
}

#[test]
fn parse_text_that_does_not_lex() {
    // the parser sees an empty token stream when lexing fails
    let mut prog = Parser::new(&"1 # 2");
    assert_eq!(prog.parse(), Err(ParseError::UnexpectedEndOfInput));
}

#[test]
fn render_parse_render_is_idempotent() {
    // the round trip on a tree inside the re-parseable fragment
    let mut first = Parser::new(&"if !T then func x => if T then x else 0 else 5");
    let e1 = first.parse().unwrap();
    let text1 = e1.render();
    let mut second = Parser::new(text1.as_str());
    let e2 = second.parse().unwrap();
    assert_eq!(e2.render(), text1);
    assert_eq!(e1, e2);
}

#[test]
fn deep_nesting_parses() {
    let mut prog = Parser::new(&"+(1, +(2, +(3, +(4, 5))))");
    let result = prog.parse();
    assert!(result.is_ok());
    assert_eq!(result.unwrap().render(), "1 + 2 + 3 + 4 + 5");
}
