//! The canonical textual rendering of expression trees.

use minilang::expression::{BinaryOperator, Expression, UnaryOperator};

#[test]
fn test_display_integer() {
    let expr = Expression::Integer(42);
    assert_eq!(expr.render(), "42");
}

#[test]
fn test_display_variable() {
    let expr = Expression::Variable("x".to_string());
    assert_eq!(expr.render(), "x");
}

#[test]
fn test_display_boolean() {
    let expr1 = Expression::Boolean(true);
    assert_eq!(expr1.render(), "T");

    let expr2 = Expression::Boolean(false);
    assert_eq!(expr2.render(), "F");
}

#[test]
fn test_display_binary_op() {
    let expr = Expression::BinaryOp {
        op: BinaryOperator::Add,
        lhs: Box::new(Expression::Integer(3)),
        rhs: Box::new(Expression::Integer(4)),
    };
    assert_eq!(expr.render(), "3 + 4");
}

#[test]
fn test_display_unary_op() {
    let expr = Expression::UnaryOp {
        op: UnaryOperator::Not,
        child: Box::new(Expression::Boolean(true)),
    };
    assert_eq!(expr.render(), "!T");
}

#[test]
fn test_display_func() {
    let expr = Expression::Func {
        param: "x".to_string(),
        body: Box::new(Expression::BinaryOp {
            op: BinaryOperator::Multiply,
            lhs: Box::new(Expression::Variable("x".to_string())),
            rhs: Box::new(Expression::Integer(2)),
        }),
    };
    assert_eq!(expr.render(), "func x => x * 2");
}

#[test]
fn test_display_if() {
    let expr = Expression::If {
        condition: Box::new(Expression::Boolean(true)),
        then_expr: Box::new(Expression::Integer(42)),
        else_expr: Box::new(Expression::Integer(0)),
    };
    assert_eq!(expr.render(), "if T then 42 else 0");
}

#[test]
fn test_display_apply() {
    let expr = Expression::Apply {
        func_expr: Box::new(Expression::Variable("f".to_string())),
        arg_expr: Box::new(Expression::Integer(10)),
    };
    assert_eq!(expr.render(), "f (10)");
}

#[test]
fn render_every_binary_operator_symbol() {
    let cases = vec![
        (BinaryOperator::Add, "1 + 2"),
        (BinaryOperator::Subtract, "1 - 2"),
        (BinaryOperator::Multiply, "1 * 2"),
        (BinaryOperator::Divide, "1 / 2"),
        (BinaryOperator::LessThan, "1 < 2"),
        (BinaryOperator::Equals, "1 = 2"),
        (BinaryOperator::And, "1 & 2"),
        (BinaryOperator::Or, "1 | 2"),
    ];
    for (op, expected) in cases {
        let expr = Expression::BinaryOp {
            op,
            lhs: Box::new(Expression::Integer(1)),
            rhs: Box::new(Expression::Integer(2)),
        };
        assert_eq!(expr.render(), expected);
    }
}

#[test]
fn render_extreme_integers() {
    assert_eq!(Expression::Integer(i64::MAX).render(), "9223372036854775807");
    assert_eq!(Expression::Integer(i64::MIN).render(), "-9223372036854775808");
    assert_eq!(Expression::Integer(0).render(), "0");
    assert_eq!(Expression::Integer(-7).render(), "-7");
}
