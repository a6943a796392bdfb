//! Evaluation: the concrete scenarios, the error cases, and the observable
//! sides of determinism, short-circuiting and lexical scoping.

use minilang::eval::{Environment, EvalError, MismatchSite, Value};
use minilang::expression::{BinaryOperator, Expression, UnaryOperator};
use minilang::parser::Parser;

fn parse(text: &str) -> Expression {
    let mut prog = Parser::new(text);
    prog.parse().unwrap()
}

#[test]
fn scenario_addition() {
    let e = parse("+(1, 1)");
    assert_eq!(e.render(), "1 + 1");
    assert_eq!(e.eval(), Ok(Value::Integer(2)));
}

#[test]
fn scenario_negation() {
    let e = parse("!T");
    assert_eq!(e.render(), "!T");
    assert_eq!(e.eval(), Ok(Value::Boolean(false)));
}

#[test]
fn scenario_conditional() {
    let e = parse("if <(1, 5) then 8 else 9");
    assert_eq!(e.render(), "if 1 < 5 then 8 else 9");
    assert_eq!(e.eval(), Ok(Value::Integer(8)));
}

#[test]
fn scenario_application() {
    let e = parse("apply(func x => x, 1)");
    assert_eq!(e.render(), "func x => x (1)");
    assert_eq!(e.eval(), Ok(Value::Integer(1)));
}

#[test]
fn scenario_division_by_zero() {
    let e = parse("/(1, 0)");
    assert_eq!(e.eval(), Err(EvalError::DivisionByZero));
}

#[test]
fn scenario_free_variable_in_closure_body() {
    let e = parse("apply(func x => +(x, y), 1)");
    assert_eq!(e.eval(), Err(EvalError::UnboundVariable("y".to_string())));
}

#[test]
fn eval_is_deterministic() {
    let e = parse("apply(func x => *(x, +(x, 2)), 5)");
    let first = e.eval();
    let second = e.eval();
    assert_eq!(first, Ok(Value::Integer(35)));
    assert_eq!(first, second);
}

#[test]
fn untaken_branch_is_never_evaluated() {
    // the untaken branch would fail with an unbound variable if evaluated
    let taken_then = parse("if T then 1 else +(1, nope)");
    assert_eq!(taken_then.eval(), Ok(Value::Integer(1)));
    let taken_else = parse("if F then +(1, nope) else 2");
    assert_eq!(taken_else.eval(), Ok(Value::Integer(2)));
}

#[test]
fn closures_scope_lexically() {
    // a closure capturing y resolves y in its defining environment, even
    // when applied in an environment that rebinds y
    let func_expr = parse("func x => +(x, y)");
    let def_env = Environment::empty().extend("y".to_string(), Value::Integer(1));
    let closure = func_expr.eval_in(&def_env, 100).unwrap();
    let call_env = Environment::empty()
        .extend("y".to_string(), Value::Integer(100))
        .extend("f".to_string(), closure);
    let apply_expr = parse("apply(f, 1)");
    assert_eq!(apply_expr.eval_in(&call_env, 100), Ok(Value::Integer(2)));
}

#[test]
fn shadowing_binds_innermost() {
    let env = Environment::empty()
        .extend("x".to_string(), Value::Integer(1))
        .extend("x".to_string(), Value::Integer(2));
    let e = parse("x");
    assert_eq!(e.eval_in(&env, 100), Ok(Value::Integer(2)));
}

#[test]
fn eval_arithmetic_operators() {
    assert_eq!(parse("-(10, 4)").eval(), Ok(Value::Integer(6)));
    assert_eq!(parse("*(6, 7)").eval(), Ok(Value::Integer(42)));
    assert_eq!(parse("/(7, 2)").eval(), Ok(Value::Integer(3)));
    // division truncates toward zero
    assert_eq!(parse("/(-(0, 7), 2)").eval(), Ok(Value::Integer(-3)));
    assert_eq!(parse("/(7, -(0, 2))").eval(), Ok(Value::Integer(-3)));
    assert_eq!(parse("/(-(0, 7), -(0, 2))").eval(), Ok(Value::Integer(3)));
}

fn logic(op: BinaryOperator, a: bool, b: bool) -> Expression {
    Expression::BinaryOp {
        op,
        lhs: Box::new(Expression::Boolean(a)),
        rhs: Box::new(Expression::Boolean(b)),
    }
}

#[test]
fn eval_comparison_and_logic() {
    assert_eq!(parse("<(1, 1)").eval(), Ok(Value::Boolean(false)));
    assert_eq!(parse("=(3, 3)").eval(), Ok(Value::Boolean(true)));
    // the logical operators have no lexical rule, so build the trees directly
    assert_eq!(logic(BinaryOperator::And, true, false).eval(), Ok(Value::Boolean(false)));
    assert_eq!(logic(BinaryOperator::And, true, true).eval(), Ok(Value::Boolean(true)));
    assert_eq!(logic(BinaryOperator::Or, true, false).eval(), Ok(Value::Boolean(true)));
    assert_eq!(logic(BinaryOperator::Or, false, false).eval(), Ok(Value::Boolean(false)));
}

#[test]
fn eval_wraps_on_overflow() {
    // the host's 64-bit wraparound behaviour applies
    assert_eq!(
        parse("+(9223372036854775807, 1)").eval(),
        Ok(Value::Integer(i64::MIN))
    );
    assert_eq!(
        parse("*(9223372036854775807, 2)").eval(),
        Ok(Value::Integer(-2))
    );
    assert_eq!(
        parse("/(-(0, 9223372036854775807), -(0, 1))").eval(),
        Ok(Value::Integer(9223372036854775807))
    );
}

#[test]
fn eval_type_mismatches() {
    assert_eq!(
        parse("!1").eval(),
        Err(EvalError::TypeMismatch(MismatchSite::UnaryOperand(
            UnaryOperator::Not
        )))
    );
    assert_eq!(
        parse("+(T, 1)").eval(),
        Err(EvalError::TypeMismatch(MismatchSite::BinaryLhs(
            BinaryOperator::Add
        )))
    );
    assert_eq!(
        parse("+(1, T)").eval(),
        Err(EvalError::TypeMismatch(MismatchSite::BinaryRhs(
            BinaryOperator::Add
        )))
    );
    let and_of_int = Expression::BinaryOp {
        op: BinaryOperator::And,
        lhs: Box::new(Expression::Integer(1)),
        rhs: Box::new(Expression::Boolean(true)),
    };
    assert_eq!(
        and_of_int.eval(),
        Err(EvalError::TypeMismatch(MismatchSite::BinaryLhs(
            BinaryOperator::And
        )))
    );
    assert_eq!(
        parse("if 1 then 2 else 3").eval(),
        Err(EvalError::TypeMismatch(MismatchSite::IfCondition))
    );
}

#[test]
fn eval_not_callable() {
    assert_eq!(parse("apply(1, 2)").eval(), Err(EvalError::NotCallable));
}

#[test]
fn eval_unbound_variable() {
    assert_eq!(
        parse("nowhere").eval(),
        Err(EvalError::UnboundVariable("nowhere".to_string()))
    );
}

#[test]
fn eval_recursion_limit() {
    // self-application diverges; the recursion budget stops it
    let e = parse("apply(func x => apply(x, x), func x => apply(x, x))");
    assert_eq!(e.eval(), Err(EvalError::RecursionLimit));
}

#[test]
fn eval_error_order_left_to_right() {
    // both operands are evaluated, left first, before the operator applies
    assert_eq!(
        parse("+(a, b)").eval(),
        Err(EvalError::UnboundVariable("a".to_string()))
    );
    // and the operands of a logical operator are both evaluated: no
    // short-circuiting outside `if`
    let and_with_unbound = Expression::BinaryOp {
        op: BinaryOperator::And,
        lhs: Box::new(Expression::Boolean(false)),
        rhs: Box::new(Expression::Variable("b".to_string())),
    };
    assert_eq!(
        and_with_unbound.eval(),
        Err(EvalError::UnboundVariable("b".to_string()))
    );
}

#[test]
fn closures_render_as_func_expressions() {
    let e = parse("func x => +(x, 1)");
    let v = e.eval().unwrap();
    assert_eq!(v.render(), "func x => x + 1");
    assert_eq!(Value::Integer(-5).render(), "-5");
    assert_eq!(Value::Boolean(true).render(), "T");
}

#[test]
fn environment_lookup_walks_outward() {
    let env = Environment::empty()
        .extend("a".to_string(), Value::Integer(1))
        .extend("b".to_string(), Value::Integer(2));
    assert_eq!(env.lookup(&"a".to_string()), Some(Value::Integer(1)));
    assert_eq!(env.lookup(&"b".to_string()), Some(Value::Integer(2)));
    assert_eq!(env.lookup(&"c".to_string()), None);
}
