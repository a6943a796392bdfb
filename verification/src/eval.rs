//! Evaluation of expression trees: values, environments, evaluation errors,
//! and the fuel-bounded evaluator together with its mathematical semantics.
//!
//! Evaluation is eager and environment-based. A `func` expression evaluates
//! to a closure capturing the environment at its definition site, which gives
//! the language lexical scoping. Application is the only construct that can
//! recurse without bound, so the evaluator carries an explicit recursion
//! budget: each application step spends one unit, and a program that would
//! run past the budget stops with [`EvalError::RecursionLimit`] instead of
//! exhausting the host stack.

use vstd::prelude::*;

use vstd::wrapping::i64_specs;
use crate::expression::{BinaryOperator, Expression, SpecExpr, UnaryOperator};

verus! {

/// The recursion budget used by [`Expression::eval`]: the number of
/// application steps an evaluation may take.
pub const EVAL_FUEL: u64 = 2048;

/// The result of evaluating an expression.
#[derive(Debug, PartialEq)]
pub enum Value {
    Integer(i64),
    Boolean(bool),
    /// A function value: parameter name, body, and the environment captured
    /// where the `func` expression was evaluated.
    Closure { param: String, body: Box<Expression>, env: Box<Environment> },
}

/// An immutable mapping from variable names to values. Application extends
/// an environment with one binding; nothing ever mutates one in place.
#[derive(Debug, PartialEq)]
pub enum Environment {
    Empty,
    Extend { name: String, value: Value, rest: Box<Environment> },
}

/// Where a type mismatch was found during evaluation.
#[derive(Debug, Clone, Copy, PartialEq, Eq, Structural)]
pub enum MismatchSite {
    /// The operand of a unary operator had the wrong type.
    UnaryOperand(UnaryOperator),
    /// The left operand of a binary operator had the wrong type.
    BinaryLhs(BinaryOperator),
    /// The right operand of a binary operator had the wrong type.
    BinaryRhs(BinaryOperator),
    /// The condition of an `if` did not evaluate to a boolean.
    IfCondition,
}

/// An evaluation failure.
#[derive(Debug, PartialEq)]
pub enum EvalError {
    /// A variable had no binding in the environment.
    UnboundVariable(String),
    /// An operand or condition had the wrong type.
    TypeMismatch(MismatchSite),
    /// The right operand of a division was zero.
    DivisionByZero,
    /// The function position of an application did not evaluate to a closure.
    NotCallable,
    /// The recursion budget ran out before evaluation finished.
    RecursionLimit,
}

/// The mathematical model of a [`Value`].
#[verifier::ext_equal]
pub enum SpecValue {
    Integer(i64),
    Boolean(bool),
    Closure { param: Seq<char>, body: SpecExpr, env: Map<Seq<char>, SpecValue> },
}

/// The mathematical model of an [`EvalError`].
#[verifier::ext_equal]
pub enum SpecEvalError {
    UnboundVariable(Seq<char>),
    TypeMismatch(MismatchSite),
    DivisionByZero,
    NotCallable,
    RecursionLimit,
}

impl Value {
    /// The model of this value.
    pub open spec fn model(self) -> SpecValue
        decreases self,
    {
        match self {
            Value::Integer(v) => SpecValue::Integer(v),
            Value::Boolean(b) => SpecValue::Boolean(b),
            Value::Closure { param, body, env } => SpecValue::Closure {
                param: param@,
                body: (*body).model(),
                env: (*env).model(),
            },
        }
    }
}

impl Environment {
    /// The model of an environment: a finite map from names to value models.
    /// An inner binding shadows an outer one of the same name.
    pub open spec fn model(self) -> Map<Seq<char>, SpecValue>
        decreases self,
    {
        match self {
            Environment::Empty => Map::empty(),
            Environment::Extend { name, value, rest } => (*rest).model().insert(
                name@,
                value.model(),
            ),
        }
    }
}

impl View for Value {
    type V = SpecValue;

    open spec fn view(&self) -> SpecValue {
        (*self).model()
    }
}

impl View for Environment {
    type V = Map<Seq<char>, SpecValue>;

    open spec fn view(&self) -> Map<Seq<char>, SpecValue> {
        (*self).model()
    }
}

impl EvalError {
    /// The model of this error.
    pub open spec fn model(self) -> SpecEvalError {
        match self {
            EvalError::UnboundVariable(name) => SpecEvalError::UnboundVariable(name@),
            EvalError::TypeMismatch(site) => SpecEvalError::TypeMismatch(site),
            EvalError::DivisionByZero => SpecEvalError::DivisionByZero,
            EvalError::NotCallable => SpecEvalError::NotCallable,
            EvalError::RecursionLimit => SpecEvalError::RecursionLimit,
        }
    }
}

impl View for EvalError {
    type V = SpecEvalError;

    open spec fn view(&self) -> SpecEvalError {
        (*self).model()
    }
}

impl Clone for Value {
    /// A deep copy: the clone is equal to the original.
    fn clone(&self) -> (res: Self)
        ensures
            res == *self,
        decreases self,
    {
        match self {
            Value::Integer(v) => Value::Integer(*v),
            Value::Boolean(b) => Value::Boolean(*b),
            Value::Closure { param, body, env } => Value::Closure {
                param: param.clone(),
                body: Box::new((&**body).clone()),
                env: Box::new((&**env).clone()),
            },
        }
    }
}

impl Clone for Environment {
    /// A deep copy: the clone is equal to the original.
    fn clone(&self) -> (res: Self)
        ensures
            res == *self,
        decreases self,
    {
        match self {
            Environment::Empty => Environment::Empty,
            Environment::Extend { name, value, rest } => Environment::Extend {
                name: name.clone(),
                value: value.clone(),
                rest: Box::new((&**rest).clone()),
            },
        }
    }
}

impl Environment {
    /// The empty environment: no variable is bound.
    pub fn empty() -> (r: Environment)
        ensures
            r@ == Map::<Seq<char>, SpecValue>::empty(),
    {
        Environment::Empty
    }

    /// This environment plus one binding, shadowing any outer binding of the
    /// same name. The receiver is consumed; nothing is mutated in place.
    pub fn extend(self, name: String, value: Value) -> (r: Environment)
        ensures
            r@ == self@.insert(name@, value@),
    {
        Environment::Extend { name, value, rest: Box::new(self) }
    }

    /// Look `name` up, innermost binding first.
    pub fn lookup(&self, name: &String) -> (r: Option<Value>)
        ensures
            match r {
                Some(v) => self@.contains_key(name@) && v@ == self@[name@],
                None => !self@.contains_key(name@),
            },
        decreases self,
    {
        match self {
            Environment::Empty => None,
            Environment::Extend { name: bound, value, rest } => {
                if bound.eq(name) {
                    Some(value.clone())
                } else {
                    rest.lookup(name)
                }
            },
        }
    }
}

/// The canonical text of a value: the text of the literal expression it
/// corresponds to, a closure rendering as the `func` expression it was made
/// from.
pub open spec fn spec_render_value(v: SpecValue) -> Seq<char> {
    match v {
        SpecValue::Integer(n) => crate::expression::spec_render_int(n),
        SpecValue::Boolean(b) => if b {
            seq!['T']
        } else {
            seq!['F']
        },
        SpecValue::Closure { param, body, env } => seq!['f', 'u', 'n', 'c', ' '] + param
            + seq![' ', '=', '>', ' '] + crate::expression::spec_render(body),
    }
}

impl Value {
    /// Render this value as its canonical text.
    pub fn render(&self) -> (r: String)
        ensures
            r@ == spec_render_value(self@),
    {
        match self {
            Value::Integer(n) => {
                let e = Expression::Integer(*n);
                e.render()
            },
            Value::Boolean(b) => {
                let e = Expression::Boolean(*b);
                e.render()
            },
            Value::Closure { param, body, env } => {
                let e = Expression::Func { param: param.clone(), body: Box::new((&**body).clone()) };
                e.render()
            },
        }
    }
}

/// The absolute value of an integer.
pub open spec fn spec_abs(n: int) -> int {
    if n < 0 {
        -n
    } else {
        n
    }
}

/// Truncating integer division (rounding toward zero), for `b != 0`.
pub open spec fn spec_div_trunc(a: int, b: int) -> int {
    if (a < 0) == (b < 0) {
        spec_abs(a) / spec_abs(b)
    } else {
        -(spec_abs(a) / spec_abs(b))
    }
}

/// Division of two `i64` values with the host's wraparound behaviour:
/// truncating division, except that `i64::MIN / -1` wraps to `i64::MIN`.
pub open spec fn spec_div_wrap(a: i64, b: i64) -> i64 {
    if a == i64::MIN && b == -1 {
        i64::MIN
    } else {
        spec_div_trunc(a as int, b as int) as i64
    }
}

/// The result of applying a binary operator to two evaluated operands.
/// Arithmetic operators require two integers, comparisons two integers,
/// logical operators two booleans; the left operand is checked first.
/// Add, Subtract and Multiply wrap around on overflow.
pub open spec fn spec_apply_binary(op: BinaryOperator, lv: SpecValue, rv: SpecValue) -> Result<
    SpecValue,
    SpecEvalError,
> {
    match op {
        BinaryOperator::Add => match lv {
            SpecValue::Integer(a) => match rv {
                SpecValue::Integer(b) => Ok(SpecValue::Integer(i64_specs::wrapping_add(a, b))),
                _ => Err(SpecEvalError::TypeMismatch(MismatchSite::BinaryRhs(op))),
            },
            _ => Err(SpecEvalError::TypeMismatch(MismatchSite::BinaryLhs(op))),
        },
        BinaryOperator::Subtract => match lv {
            SpecValue::Integer(a) => match rv {
                SpecValue::Integer(b) => Ok(SpecValue::Integer(i64_specs::wrapping_sub(a, b))),
                _ => Err(SpecEvalError::TypeMismatch(MismatchSite::BinaryRhs(op))),
            },
            _ => Err(SpecEvalError::TypeMismatch(MismatchSite::BinaryLhs(op))),
        },
        BinaryOperator::Multiply => match lv {
            SpecValue::Integer(a) => match rv {
                SpecValue::Integer(b) => Ok(SpecValue::Integer(i64_specs::wrapping_mul(a, b))),
                _ => Err(SpecEvalError::TypeMismatch(MismatchSite::BinaryRhs(op))),
            },
            _ => Err(SpecEvalError::TypeMismatch(MismatchSite::BinaryLhs(op))),
        },
        BinaryOperator::Divide => match lv {
            SpecValue::Integer(a) => match rv {
                SpecValue::Integer(b) => if b == 0 {
                    Err(SpecEvalError::DivisionByZero)
                } else {
                    Ok(SpecValue::Integer(spec_div_wrap(a, b)))
                },
                _ => Err(SpecEvalError::TypeMismatch(MismatchSite::BinaryRhs(op))),
            },
            _ => Err(SpecEvalError::TypeMismatch(MismatchSite::BinaryLhs(op))),
        },
        BinaryOperator::LessThan => match lv {
            SpecValue::Integer(a) => match rv {
                SpecValue::Integer(b) => Ok(SpecValue::Boolean(a < b)),
                _ => Err(SpecEvalError::TypeMismatch(MismatchSite::BinaryRhs(op))),
            },
            _ => Err(SpecEvalError::TypeMismatch(MismatchSite::BinaryLhs(op))),
        },
        BinaryOperator::Equals => match lv {
            SpecValue::Integer(a) => match rv {
                SpecValue::Integer(b) => Ok(SpecValue::Boolean(a == b)),
                _ => Err(SpecEvalError::TypeMismatch(MismatchSite::BinaryRhs(op))),
            },
            _ => Err(SpecEvalError::TypeMismatch(MismatchSite::BinaryLhs(op))),
        },
        BinaryOperator::And => match lv {
            SpecValue::Boolean(a) => match rv {
                SpecValue::Boolean(b) => Ok(SpecValue::Boolean(a && b)),
                _ => Err(SpecEvalError::TypeMismatch(MismatchSite::BinaryRhs(op))),
            },
            _ => Err(SpecEvalError::TypeMismatch(MismatchSite::BinaryLhs(op))),
        },
        BinaryOperator::Or => match lv {
            SpecValue::Boolean(a) => match rv {
                SpecValue::Boolean(b) => Ok(SpecValue::Boolean(a || b)),
                _ => Err(SpecEvalError::TypeMismatch(MismatchSite::BinaryRhs(op))),
            },
            _ => Err(SpecEvalError::TypeMismatch(MismatchSite::BinaryLhs(op))),
        },
    }
}

/// The evaluation semantics: what evaluating `e` in `env` yields, with at
/// most `fuel` application steps.
///
/// Literals evaluate to themselves; variables are looked up in `env`;
/// binary operators evaluate both operands, left first, with no
/// short-circuiting; `if` evaluates its condition and then exactly one
/// branch; `func` captures the current environment in a closure; application
/// evaluates the function position (which must yield a closure), then the
/// argument, then the closure body in the captured environment extended with
/// the parameter binding.
pub open spec fn spec_eval(e: SpecExpr, env: Map<Seq<char>, SpecValue>, fuel: nat) -> Result<
    SpecValue,
    SpecEvalError,
>
    decreases fuel, e,
{
    match e {
        SpecExpr::Integer(v) => Ok(SpecValue::Integer(v)),
        SpecExpr::Variable(name) => if env.contains_key(name) {
            Ok(env[name])
        } else {
            Err(SpecEvalError::UnboundVariable(name))
        },
        SpecExpr::Boolean(b) => Ok(SpecValue::Boolean(b)),
        SpecExpr::UnaryOp { op, child } => match spec_eval(*child, env, fuel) {
            Ok(SpecValue::Boolean(b)) => Ok(SpecValue::Boolean(!b)),
            Ok(_) => Err(SpecEvalError::TypeMismatch(MismatchSite::UnaryOperand(op))),
            Err(err) => Err(err),
        },
        SpecExpr::BinaryOp { op, lhs, rhs } => match spec_eval(*lhs, env, fuel) {
            Ok(lv) => match spec_eval(*rhs, env, fuel) {
                Ok(rv) => spec_apply_binary(op, lv, rv),
                Err(err) => Err(err),
            },
            Err(err) => Err(err),
        },
        SpecExpr::Func { param, body } => Ok(
            SpecValue::Closure { param, body: *body, env },
        ),
        SpecExpr::If { condition, then_expr, else_expr } => match spec_eval(
            *condition,
            env,
            fuel,
        ) {
            Ok(SpecValue::Boolean(b)) => if b {
                spec_eval(*then_expr, env, fuel)
            } else {
                spec_eval(*else_expr, env, fuel)
            },
            Ok(_) => Err(SpecEvalError::TypeMismatch(MismatchSite::IfCondition)),
            Err(err) => Err(err),
        },
        SpecExpr::Apply { func_expr, arg_expr } => match spec_eval(*func_expr, env, fuel) {
            Ok(SpecValue::Closure { param, body, env: cenv }) => match spec_eval(
                *arg_expr,
                env,
                fuel,
            ) {
                Ok(av) => if fuel == 0 {
                    Err(SpecEvalError::RecursionLimit)
                } else {
                    spec_eval(body, cenv.insert(param, av), (fuel - 1) as nat)
                },
                Err(err) => Err(err),
            },
            Ok(_) => Err(SpecEvalError::NotCallable),
            Err(err) => Err(err),
        },
    }
}

/// Divide two `i64` values, `b != 0`, with the host's wraparound behaviour.
fn div_values(a: i64, b: i64) -> (r: i64)
    requires
        b != 0,
    ensures
        r == spec_div_wrap(a, b),
{
    let amag: u64 = if a == i64::MIN {
        9223372036854775808u64
    } else if a < 0 {
        (-a) as u64
    } else {
        a as u64
    };
    let bmag: u64 = if b == i64::MIN {
        9223372036854775808u64
    } else if b < 0 {
        (-b) as u64
    } else {
        b as u64
    };
    assert(amag as int == spec_abs(a as int));
    assert(bmag as int == spec_abs(b as int));
    let q: u64 = amag / bmag;
    proof {
        assert(q as int <= amag as int) by (nonlinear_arith)
            requires
                q as int == amag as int / bmag as int,
                bmag as int >= 1,
                amag as int >= 0,
        ;
        assert(bmag as int >= 2 ==> q as int <= amag as int / 2) by (nonlinear_arith)
            requires
                q as int == amag as int / bmag as int,
                bmag as int >= 1,
                amag as int >= 0,
        ;
    }
    proof {
        assert(q as int == spec_abs(a as int) / spec_abs(b as int));
        assert(bmag == 1 ==> q as int == amag as int) by (nonlinear_arith)
            requires
                q as int == amag as int / bmag as int,
                amag as int >= 0,
        ;
        if a == i64::MIN && (b == -1i64 || b == 1i64) {
            assert(amag == 9223372036854775808u64);
            assert(bmag == 1u64);
            assert(q == 9223372036854775808u64);
        }
    }
    if (a < 0) == (b < 0) {
        if q <= 9223372036854775807u64 {
            proof {
                assert(!(a == i64::MIN && b == -1i64));
                assert(spec_div_trunc(a as int, b as int) == q as int);
            }
            q as i64
        } else {
            // only i64::MIN / -1 reaches this branch, and it wraps
            proof {
                assert(q == 9223372036854775808u64);
                assert(amag == 9223372036854775808u64);
                assert(bmag == 1u64) by {
                    if bmag >= 2 {
                        assert(q as int <= amag as int / 2);
                    }
                }
                assert(a == i64::MIN && b == -1i64);
            }
            i64::MIN
        }
    } else {
        if q >= 9223372036854775808u64 {
            // only i64::MIN / 1, whose exact quotient is i64::MIN itself
            proof {
                assert(q == 9223372036854775808u64);
                assert(amag == 9223372036854775808u64);
                assert(bmag == 1u64) by {
                    if bmag >= 2 {
                        assert(q as int <= amag as int / 2);
                    }
                }
                assert(a == i64::MIN && b == 1i64);
                assert(spec_div_trunc(a as int, b as int) == -9223372036854775808int);
                assert(spec_div_wrap(a, b) == i64::MIN);
            }
            i64::MIN
        } else {
            proof {
                assert(!(a == i64::MIN && b == -1i64));
                assert(spec_div_trunc(a as int, b as int) == -(q as int));
            }
            -(q as i64)
        }
    }
}

/// Apply a binary operator to two evaluated operands.
fn apply_binary(op: BinaryOperator, lv: Value, rv: Value) -> (r: Result<Value, EvalError>)
    ensures
        ({
            let m = spec_apply_binary(op, lv@, rv@);
            match r {
                Ok(v) => m == Ok::<SpecValue, SpecEvalError>(v@),
                Err(e) => m == Err::<SpecValue, SpecEvalError>(e@),
            }
        }),
{
    match op {
        BinaryOperator::Add => match lv {
            Value::Integer(a) => match rv {
                Value::Integer(b) => Ok(Value::Integer(a.wrapping_add(b))),
                _ => Err(EvalError::TypeMismatch(MismatchSite::BinaryRhs(op))),
            },
            _ => Err(EvalError::TypeMismatch(MismatchSite::BinaryLhs(op))),
        },
        BinaryOperator::Subtract => match lv {
            Value::Integer(a) => match rv {
                Value::Integer(b) => Ok(Value::Integer(a.wrapping_sub(b))),
                _ => Err(EvalError::TypeMismatch(MismatchSite::BinaryRhs(op))),
            },
            _ => Err(EvalError::TypeMismatch(MismatchSite::BinaryLhs(op))),
        },
        BinaryOperator::Multiply => match lv {
            Value::Integer(a) => match rv {
                Value::Integer(b) => Ok(Value::Integer(a.wrapping_mul(b))),
                _ => Err(EvalError::TypeMismatch(MismatchSite::BinaryRhs(op))),
            },
            _ => Err(EvalError::TypeMismatch(MismatchSite::BinaryLhs(op))),
        },
        BinaryOperator::Divide => match lv {
            Value::Integer(a) => match rv {
                Value::Integer(b) => if b == 0 {
                    Err(EvalError::DivisionByZero)
                } else {
                    Ok(Value::Integer(div_values(a, b)))
                },
                _ => Err(EvalError::TypeMismatch(MismatchSite::BinaryRhs(op))),
            },
            _ => Err(EvalError::TypeMismatch(MismatchSite::BinaryLhs(op))),
        },
        BinaryOperator::LessThan => match lv {
            Value::Integer(a) => match rv {
                Value::Integer(b) => Ok(Value::Boolean(a < b)),
                _ => Err(EvalError::TypeMismatch(MismatchSite::BinaryRhs(op))),
            },
            _ => Err(EvalError::TypeMismatch(MismatchSite::BinaryLhs(op))),
        },
        BinaryOperator::Equals => match lv {
            Value::Integer(a) => match rv {
                Value::Integer(b) => Ok(Value::Boolean(a == b)),
                _ => Err(EvalError::TypeMismatch(MismatchSite::BinaryRhs(op))),
            },
            _ => Err(EvalError::TypeMismatch(MismatchSite::BinaryLhs(op))),
        },
        BinaryOperator::And => match lv {
            Value::Boolean(a) => match rv {
                Value::Boolean(b) => Ok(Value::Boolean(a && b)),
                _ => Err(EvalError::TypeMismatch(MismatchSite::BinaryRhs(op))),
            },
            _ => Err(EvalError::TypeMismatch(MismatchSite::BinaryLhs(op))),
        },
        BinaryOperator::Or => match lv {
            Value::Boolean(a) => match rv {
                Value::Boolean(b) => Ok(Value::Boolean(a || b)),
                _ => Err(EvalError::TypeMismatch(MismatchSite::BinaryRhs(op))),
            },
            _ => Err(EvalError::TypeMismatch(MismatchSite::BinaryLhs(op))),
        },
    }
}

impl Expression {
    /// Evaluate this expression in `env` with the given recursion budget.
    /// The result is exactly what the semantics [`spec_eval`] yields.
    pub fn eval_in(&self, env: &Environment, fuel: u64) -> (r: Result<Value, EvalError>)
        ensures
            ({
                let m = spec_eval(self@, env@, fuel as nat);
                match r {
                    Ok(v) => m == Ok::<SpecValue, SpecEvalError>(v@),
                    Err(e) => m == Err::<SpecValue, SpecEvalError>(e@),
                }
            }),
        decreases fuel, self,
    {
        match self {
            Expression::Integer(v) => Ok(Value::Integer(*v)),
            Expression::Variable(name) => match env.lookup(name) {
                Some(v) => Ok(v),
                None => Err(EvalError::UnboundVariable(name.clone())),
            },
            Expression::Boolean(b) => Ok(Value::Boolean(*b)),
            Expression::UnaryOp { op, child } => {
                let cv = match child.eval_in(env, fuel) {
                    Ok(v) => v,
                    Err(e) => {
                        return Err(e);
                    },
                };
                match cv {
                    Value::Boolean(b) => Ok(Value::Boolean(!b)),
                    _ => Err(EvalError::TypeMismatch(MismatchSite::UnaryOperand(*op))),
                }
            },
            Expression::BinaryOp { op, lhs, rhs } => {
                let lv = match lhs.eval_in(env, fuel) {
                    Ok(v) => v,
                    Err(e) => {
                        return Err(e);
                    },
                };
                let rv = match rhs.eval_in(env, fuel) {
                    Ok(v) => v,
                    Err(e) => {
                        return Err(e);
                    },
                };
                apply_binary(*op, lv, rv)
            },
            Expression::Func { param, body } => Ok(
                Value::Closure {
                    param: param.clone(),
                    body: Box::new((&**body).clone()),
                    env: Box::new(env.clone()),
                },
            ),
            Expression::If { condition, then_expr, else_expr } => {
                let cv = match condition.eval_in(env, fuel) {
                    Ok(v) => v,
                    Err(e) => {
                        return Err(e);
                    },
                };
                match cv {
                    Value::Boolean(b) => if b {
                        then_expr.eval_in(env, fuel)
                    } else {
                        else_expr.eval_in(env, fuel)
                    },
                    _ => Err(EvalError::TypeMismatch(MismatchSite::IfCondition)),
                }
            },
            Expression::Apply { func_expr, arg_expr } => {
                let fv = match func_expr.eval_in(env, fuel) {
                    Ok(v) => v,
                    Err(e) => {
                        return Err(e);
                    },
                };
                match fv {
                    Value::Closure { param, body, env: cenv } => {
                        let av = match arg_expr.eval_in(env, fuel) {
                            Ok(v) => v,
                            Err(e) => {
                                return Err(e);
                            },
                        };
                        if fuel == 0 {
                            Err(EvalError::RecursionLimit)
                        } else {
                            let new_env = Environment::Extend {
                                name: param,
                                value: av,
                                rest: cenv,
                            };
                            body.eval_in(&new_env, fuel - 1)
                        }
                    },
                    _ => Err(EvalError::NotCallable),
                }
            },
        }
    }

    /// Evaluate this expression in the empty environment with the default
    /// recursion budget [`EVAL_FUEL`].
    /// The contract makes evaluation a pure function of the expression
    /// alone, so two calls on equal expressions return equal results.
    pub fn eval(&self) -> (r: Result<Value, EvalError>)
        ensures
            ({
                let m = spec_eval(self@, Map::<Seq<char>, SpecValue>::empty(), EVAL_FUEL as nat);
                match r {
                    Ok(v) => m == Ok::<SpecValue, SpecEvalError>(v@),
                    Err(e) => m == Err::<SpecValue, SpecEvalError>(e@),
                }
            }),
    {
        let env = Environment::Empty;
        self.eval_in(&env, EVAL_FUEL)
    }
}

/// Evaluation is deterministic in a strong sense: it is a pure function of
/// the expression and the environment, and the recursion budget only decides
/// how much of it is seen. Once a budget is large enough for an evaluation
/// to finish (with a value, or with any error other than `RecursionLimit`),
/// every larger budget yields exactly the same result.
pub proof fn lemma_eval_fuel_monotonic(
    e: SpecExpr,
    env: Map<Seq<char>, SpecValue>,
    f1: nat,
    f2: nat,
)
    requires
        f1 <= f2,
        spec_eval(e, env, f1) != Err::<SpecValue, SpecEvalError>(SpecEvalError::RecursionLimit),
    ensures
        spec_eval(e, env, f2) == spec_eval(e, env, f1),
    decreases f1, e,
{
    match e {
        SpecExpr::UnaryOp { op, child } => {
            lemma_eval_fuel_monotonic(*child, env, f1, f2);
        },
        SpecExpr::BinaryOp { op, lhs, rhs } => {
            lemma_eval_fuel_monotonic(*lhs, env, f1, f2);
            if let Ok(lv) = spec_eval(*lhs, env, f1) {
                lemma_eval_fuel_monotonic(*rhs, env, f1, f2);
            }
        },
        SpecExpr::If { condition, then_expr, else_expr } => {
            lemma_eval_fuel_monotonic(*condition, env, f1, f2);
            if let Ok(cv) = spec_eval(*condition, env, f1) {
                match cv {
                    SpecValue::Boolean(b) => {
                        if b {
                            lemma_eval_fuel_monotonic(*then_expr, env, f1, f2);
                        } else {
                            lemma_eval_fuel_monotonic(*else_expr, env, f1, f2);
                        }
                    },
                    _ => {},
                }
            }
        },
        SpecExpr::Apply { func_expr, arg_expr } => {
            lemma_eval_fuel_monotonic(*func_expr, env, f1, f2);
            if let Ok(fv) = spec_eval(*func_expr, env, f1) {
                match fv {
                    SpecValue::Closure { param, body, env: cenv } => {
                        lemma_eval_fuel_monotonic(*arg_expr, env, f1, f2);
                        if let Ok(av) = spec_eval(*arg_expr, env, f1) {
                            lemma_eval_fuel_monotonic(
                                body,
                                cenv.insert(param, av),
                                (f1 - 1) as nat,
                                (f2 - 1) as nat,
                            );
                        }
                    },
                    _ => {},
                }
            }
        },
        _ => {},
    }
}

/// An `if` evaluates only the branch its condition selects. When the
/// condition evaluates to the boolean `b`, the whole `if` evaluates to
/// exactly what the selected branch evaluates to, and the expression in the
/// untaken branch has no influence at all: it may be replaced by any other
/// expression, one that fails included, without changing the result.
pub proof fn lemma_if_short_circuit(
    cond: SpecExpr,
    th: SpecExpr,
    el: SpecExpr,
    other: SpecExpr,
    env: Map<Seq<char>, SpecValue>,
    fuel: nat,
    b: bool,
)
    requires
        spec_eval(cond, env, fuel) == Ok::<SpecValue, SpecEvalError>(SpecValue::Boolean(b)),
    ensures
        spec_eval(
            SpecExpr::If {
                condition: Box::new(cond),
                then_expr: Box::new(th),
                else_expr: Box::new(el),
            },
            env,
            fuel,
        ) == spec_eval(if b { th } else { el }, env, fuel),
        b ==> spec_eval(
            SpecExpr::If {
                condition: Box::new(cond),
                then_expr: Box::new(th),
                else_expr: Box::new(el),
            },
            env,
            fuel,
        ) == spec_eval(
            SpecExpr::If {
                condition: Box::new(cond),
                then_expr: Box::new(th),
                else_expr: Box::new(other),
            },
            env,
            fuel,
        ),
        !b ==> spec_eval(
            SpecExpr::If {
                condition: Box::new(cond),
                then_expr: Box::new(th),
                else_expr: Box::new(el),
            },
            env,
            fuel,
        ) == spec_eval(
            SpecExpr::If {
                condition: Box::new(cond),
                then_expr: Box::new(other),
                else_expr: Box::new(el),
            },
            env,
            fuel,
        ),
{
}

/// Closures scope lexically. Applying a closure that was built over a
/// defining environment evaluates its body in that defining environment
/// extended with the parameter binding: the calling environment reaches the
/// body only through the argument value, so a rebinding of any name in the
/// calling environment cannot change what the body's free variables mean.
pub proof fn lemma_lexical_scoping(
    fname: Seq<char>,
    param: Seq<char>,
    body: SpecExpr,
    def_env: Map<Seq<char>, SpecValue>,
    call_env: Map<Seq<char>, SpecValue>,
    arg: SpecExpr,
    av: SpecValue,
    fuel: nat,
)
    requires
        fuel > 0,
        call_env.contains_key(fname),
        call_env[fname] == (SpecValue::Closure { param, body, env: def_env }),
        spec_eval(arg, call_env, fuel) == Ok::<SpecValue, SpecEvalError>(av),
    ensures
        (spec_eval(
            SpecExpr::Apply {
                func_expr: Box::new(SpecExpr::Variable(fname)),
                arg_expr: Box::new(arg),
            },
            call_env,
            fuel,
        ) == spec_eval(body, def_env.insert(param, av), (fuel - 1) as nat)),
{
    reveal_with_fuel(spec_eval, 2);
    assert(spec_eval(SpecExpr::Variable(fname), call_env, fuel) == Ok::<
        SpecValue,
        SpecEvalError,
    >(SpecValue::Closure { param, body, env: def_env }));
}

} // verus!
