//! Lexical analysis of source text.

use minilang::expression::BinaryOperator;
use minilang::parser::{lex, LexError, LexItem};

#[test]
fn lex_integer() {
    let input = "123";
    let result = lex(input);
    assert_eq!(result, Ok(vec![LexItem::Integer(123)]));
}

#[test]
fn lex_variable() {
    let input = "abc";
    let result = lex(input);
    assert_eq!(result, Ok(vec![LexItem::Variable("abc".to_string())]));
}

#[test]
fn lex_boolean_true() {
    let input = "T";
    let result = lex(input);
    assert_eq!(result, Ok(vec![LexItem::Boolean(true)]));
}

#[test]
fn lex_boolean_false() {
    let input = "F";
    let result = lex(input);
    assert_eq!(result, Ok(vec![LexItem::Boolean(false)]));
}

#[test]
fn lex_binary_operator() {
    let input = "+";
    let result = lex(input);
    assert_eq!(result, Ok(vec![LexItem::BinaryOp(BinaryOperator::Add)]));
}

#[test]
fn lex_addition_expression() {
    let input = "+(1, 1)";
    let result = lex(input);
    assert_eq!(
        result,
        Ok(vec![
            LexItem::BinaryOp(BinaryOperator::Add),
            LexItem::OpenParen('('),
            LexItem::Integer(1),
            LexItem::Comma(','),
            LexItem::Integer(1),
            LexItem::CloseParen(')')
        ])
    );
}

#[test]
fn lex_subtraction_expression() {
    let input = "-(1, 1)";
    let result = lex(input);
    assert_eq!(
        result,
        Ok(vec![
            LexItem::BinaryOp(BinaryOperator::Subtract),
            LexItem::OpenParen('('),
            LexItem::Integer(1),
            LexItem::Comma(','),
            LexItem::Integer(1),
            LexItem::CloseParen(')')
        ])
    );
}

#[test]
fn lex_keywords_and_arrow() {
    let input = "if then else func apply =>";
    let result = lex(input);
    assert_eq!(
        result,
        Ok(vec![
            LexItem::If("if".to_string()),
            LexItem::Then("then".to_string()),
            LexItem::Else("else".to_string()),
            LexItem::Func("func".to_string()),
            LexItem::Apply("apply".to_string()),
            LexItem::Arrow("=>".to_string()),
        ])
    );
}

#[test]
fn lex_trailing_equals_is_equality_operator() {
    // a lone '=' at the end of the input is the equality operator
    assert_eq!(lex("="), Ok(vec![LexItem::BinaryOp(BinaryOperator::Equals)]));
    assert_eq!(
        lex("=1"),
        Ok(vec![
            LexItem::BinaryOp(BinaryOperator::Equals),
            LexItem::Integer(1)
        ])
    );
}

#[test]
fn lex_skips_spaces_and_tabs() {
    let input = " \t 7\tx ";
    let result = lex(input);
    assert_eq!(
        result,
        Ok(vec![LexItem::Integer(7), LexItem::Variable("x".to_string())])
    );
}

#[test]
fn lex_unexpected_character() {
    assert_eq!(lex("?"), Err(LexError::UnexpectedCharacter('?')));
    // a newline is matched by no lexical rule
    assert_eq!(lex("1\n2"), Err(LexError::UnexpectedCharacter('\n')));
    // the logical operators have rendering symbols but no lexical rule
    assert_eq!(lex("&"), Err(LexError::UnexpectedCharacter('&')));
    assert_eq!(lex("|"), Err(LexError::UnexpectedCharacter('|')));
}

#[test]
fn lex_integer_too_large() {
    // i64::MAX is accepted, one more is not
    assert_eq!(
        lex("9223372036854775807"),
        Ok(vec![LexItem::Integer(9223372036854775807)])
    );
    assert_eq!(lex("9223372036854775808"), Err(LexError::IntegerTooLarge));
    assert_eq!(lex("99999999999999999999999"), Err(LexError::IntegerTooLarge));
}

#[test]
fn lex_leading_zeros() {
    assert_eq!(lex("007"), Ok(vec![LexItem::Integer(7)]));
}

#[test]
fn lex_adjacent_runs_split_on_character_class() {
    let input = "!abc12";
    let result = lex(input);
    assert_eq!(
        result,
        Ok(vec![
            LexItem::UnaryOp(minilang::expression::UnaryOperator::Not),
            LexItem::Variable("abc".to_string()),
            LexItem::Integer(12),
        ])
    );
}
