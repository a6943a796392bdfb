//! Abstract syntax of the expression language, its mathematical model, and
//! the canonical textual rendering of a tree.

use vstd::prelude::*;
use vstd::string::*;

verus! {

/// Binary operators, written `+ - * / < = & |` in source text.
#[derive(Debug, Clone, Copy, PartialEq, Eq, Structural)]
pub enum BinaryOperator {
    Add,
    Subtract,
    Multiply,
    Divide,
    LessThan,
    Equals,
    And,
    Or,
}

/// Unary operators, written `!` in source text.
#[derive(Debug, Clone, Copy, PartialEq, Eq, Structural)]
pub enum UnaryOperator {
    Not,
}

/// An expression tree. Every node owns its children; no sharing, no cycles.
#[derive(Debug, PartialEq)]
pub enum Expression {
    Integer(i64),
    Variable(String),
    Boolean(bool),
    BinaryOp { op: BinaryOperator, lhs: Box<Expression>, rhs: Box<Expression> },
    UnaryOp { op: UnaryOperator, child: Box<Expression> },
    Func { param: String, body: Box<Expression> },
    If { condition: Box<Expression>, then_expr: Box<Expression>, else_expr: Box<Expression> },
    Apply { func_expr: Box<Expression>, arg_expr: Box<Expression> },
}

/// The mathematical model of an [`Expression`]: the same tree shape with
/// variable names abstracted to character sequences.
#[verifier::ext_equal]
pub enum SpecExpr {
    Integer(i64),
    Variable(Seq<char>),
    Boolean(bool),
    BinaryOp { op: BinaryOperator, lhs: Box<SpecExpr>, rhs: Box<SpecExpr> },
    UnaryOp { op: UnaryOperator, child: Box<SpecExpr> },
    Func { param: Seq<char>, body: Box<SpecExpr> },
    If { condition: Box<SpecExpr>, then_expr: Box<SpecExpr>, else_expr: Box<SpecExpr> },
    Apply { func_expr: Box<SpecExpr>, arg_expr: Box<SpecExpr> },
}

impl Expression {
    /// The model of this tree, reached in specifications through `@`.
    pub open spec fn model(self) -> SpecExpr
        decreases self,
    {
        match self {
            Expression::Integer(v) => SpecExpr::Integer(v),
            Expression::Variable(name) => SpecExpr::Variable(name@),
            Expression::Boolean(b) => SpecExpr::Boolean(b),
            Expression::BinaryOp { op, lhs, rhs } => SpecExpr::BinaryOp {
                op,
                lhs: Box::new((*lhs).model()),
                rhs: Box::new((*rhs).model()),
            },
            Expression::UnaryOp { op, child } => SpecExpr::UnaryOp {
                op,
                child: Box::new((*child).model()),
            },
            Expression::Func { param, body } => SpecExpr::Func {
                param: param@,
                body: Box::new((*body).model()),
            },
            Expression::If { condition, then_expr, else_expr } => SpecExpr::If {
                condition: Box::new((*condition).model()),
                then_expr: Box::new((*then_expr).model()),
                else_expr: Box::new((*else_expr).model()),
            },
            Expression::Apply { func_expr, arg_expr } => SpecExpr::Apply {
                func_expr: Box::new((*func_expr).model()),
                arg_expr: Box::new((*arg_expr).model()),
            },
        }
    }
}

impl View for Expression {
    type V = SpecExpr;

    open spec fn view(&self) -> SpecExpr {
        (*self).model()
    }
}

impl Clone for Expression {
    /// A deep copy: the clone is equal to the original.
    fn clone(&self) -> (res: Self)
        ensures
            res == *self,
        decreases self,
    {
        match self {
            Expression::Integer(v) => Expression::Integer(*v),
            Expression::Variable(name) => Expression::Variable(name.clone()),
            Expression::Boolean(b) => Expression::Boolean(*b),
            Expression::BinaryOp { op, lhs, rhs } => Expression::BinaryOp {
                op: *op,
                lhs: Box::new((&**lhs).clone()),
                rhs: Box::new((&**rhs).clone()),
            },
            Expression::UnaryOp { op, child } => Expression::UnaryOp {
                op: *op,
                child: Box::new((&**child).clone()),
            },
            Expression::Func { param, body } => Expression::Func {
                param: param.clone(),
                body: Box::new((&**body).clone()),
            },
            Expression::If { condition, then_expr, else_expr } => Expression::If {
                condition: Box::new((&**condition).clone()),
                then_expr: Box::new((&**then_expr).clone()),
                else_expr: Box::new((&**else_expr).clone()),
            },
            Expression::Apply { func_expr, arg_expr } => Expression::Apply {
                func_expr: Box::new((&**func_expr).clone()),
                arg_expr: Box::new((&**arg_expr).clone()),
            },
        }
    }
}

/// The source character of a binary operator.
pub open spec fn binop_char(op: BinaryOperator) -> char {
    match op {
        BinaryOperator::Add => '+',
        BinaryOperator::Subtract => '-',
        BinaryOperator::Multiply => '*',
        BinaryOperator::Divide => '/',
        BinaryOperator::LessThan => '<',
        BinaryOperator::Equals => '=',
        BinaryOperator::And => '&',
        BinaryOperator::Or => '|',
    }
}

/// The source character of a unary operator.
pub open spec fn unop_char(op: UnaryOperator) -> char {
    match op {
        UnaryOperator::Not => '!',
    }
}

/// The decimal digit character for `d` (meaningful for `0 <= d <= 9`).
pub open spec fn spec_digit_char(d: int) -> char {
    if d == 0 {
        '0'
    } else if d == 1 {
        '1'
    } else if d == 2 {
        '2'
    } else if d == 3 {
        '3'
    } else if d == 4 {
        '4'
    } else if d == 5 {
        '5'
    } else if d == 6 {
        '6'
    } else if d == 7 {
        '7'
    } else if d == 8 {
        '8'
    } else {
        '9'
    }
}

/// The decimal digit string of a non-negative integer, without sign or
/// leading zeros.
pub open spec fn spec_digits(n: int) -> Seq<char>
    decreases n,
{
    if n < 10 {
        seq![spec_digit_char(n)]
    } else {
        spec_digits(n / 10) + seq![spec_digit_char(n % 10)]
    }
}

/// The decimal rendering of a signed 64-bit integer.
pub open spec fn spec_render_int(n: i64) -> Seq<char> {
    if n >= 0 {
        spec_digits(n as int)
    } else {
        seq!['-'] + spec_digits(-(n as int))
    }
}

/// The canonical text of an expression tree: literals as themselves, binary
/// operators infix with one space on each side, `!` prefixed directly,
/// `func p => body`, `if c then a else b`, and application as `f (arg)`.
pub open spec fn spec_render(e: SpecExpr) -> Seq<char>
    decreases e,
{
    match e {
        SpecExpr::Integer(v) => spec_render_int(v),
        SpecExpr::Variable(name) => name,
        SpecExpr::Boolean(b) => if b {
            seq!['T']
        } else {
            seq!['F']
        },
        SpecExpr::BinaryOp { op, lhs, rhs } => spec_render(*lhs) + seq![' ', binop_char(op), ' ']
            + spec_render(*rhs),
        SpecExpr::UnaryOp { op, child } => seq![unop_char(op)] + spec_render(*child),
        SpecExpr::Func { param, body } => seq!['f', 'u', 'n', 'c', ' '] + param
            + seq![' ', '=', '>', ' '] + spec_render(*body),
        SpecExpr::If { condition, then_expr, else_expr } => seq!['i', 'f', ' '] + spec_render(
            *condition,
        ) + seq![' ', 't', 'h', 'e', 'n', ' '] + spec_render(*then_expr)
            + seq![' ', 'e', 'l', 's', 'e', ' '] + spec_render(*else_expr),
        SpecExpr::Apply { func_expr, arg_expr } => spec_render(*func_expr) + seq![' ', '(']
            + spec_render(*arg_expr) + seq![')'],
    }
}

/// The one-character string of a decimal digit.
fn digit_str(d: u64) -> (r: &'static str)
    requires
        d < 10,
    ensures
        r@ == seq![spec_digit_char(d as int)],
{
    let r: &'static str = if d == 0 {
        "0"
    } else if d == 1 {
        "1"
    } else if d == 2 {
        "2"
    } else if d == 3 {
        "3"
    } else if d == 4 {
        "4"
    } else if d == 5 {
        "5"
    } else if d == 6 {
        "6"
    } else if d == 7 {
        "7"
    } else if d == 8 {
        "8"
    } else {
        "9"
    };
    proof {
        reveal_strlit("0");
        reveal_strlit("1");
        reveal_strlit("2");
        reveal_strlit("3");
        reveal_strlit("4");
        reveal_strlit("5");
        reveal_strlit("6");
        reveal_strlit("7");
        reveal_strlit("8");
        reveal_strlit("9");
        assert(r@ =~= seq![spec_digit_char(d as int)]);
    }
    r
}

/// The digit string of an unsigned value.
fn render_digits(n: u64) -> (r: String)
    ensures
        r@ == spec_digits(n as int),
    decreases n,
{
    if n < 10 {
        String::from_str(digit_str(n))
    } else {
        let mut s = render_digits(n / 10);
        s.append(digit_str(n % 10));
        assert(s@ =~= spec_digits(n as int));
        s
    }
}

/// The decimal string of a signed 64-bit value.
fn render_int(n: i64) -> (r: String)
    ensures
        r@ == spec_render_int(n),
{
    if n >= 0 {
        render_digits(n as u64)
    } else {
        let mag: u64 = if n == i64::MIN {
            9223372036854775808u64
        } else {
            (-n) as u64
        };
        assert(mag as int == -(n as int));
        let mut s = String::from_str("-");
        let d = render_digits(mag);
        s.append(d.as_str());
        proof {
            reveal_strlit("-");
            assert(s@ =~= spec_render_int(n));
        }
        s
    }
}

/// The one-character string of a binary operator.
fn binop_str(op: BinaryOperator) -> (r: &'static str)
    ensures
        r@ == seq![binop_char(op)],
{
    let r: &'static str = match op {
        BinaryOperator::Add => "+",
        BinaryOperator::Subtract => "-",
        BinaryOperator::Multiply => "*",
        BinaryOperator::Divide => "/",
        BinaryOperator::LessThan => "<",
        BinaryOperator::Equals => "=",
        BinaryOperator::And => "&",
        BinaryOperator::Or => "|",
    };
    proof {
        reveal_strlit("+");
        reveal_strlit("-");
        reveal_strlit("*");
        reveal_strlit("/");
        reveal_strlit("<");
        reveal_strlit("=");
        reveal_strlit("&");
        reveal_strlit("|");
        assert(r@ =~= seq![binop_char(op)]);
    }
    r
}

impl Expression {
    /// Render this tree as its canonical text.
    pub fn render(&self) -> (r: String)
        ensures
            r@ == spec_render(self@),
        decreases self,
    {
        match self {
            Expression::Integer(v) => render_int(*v),
            Expression::Variable(name) => name.clone(),
            Expression::Boolean(b) => {
                let r = if *b {
                    String::from_str("T")
                } else {
                    String::from_str("F")
                };
                proof {
                    reveal_strlit("T");
                    reveal_strlit("F");
                    assert(r@ =~= spec_render(self@));
                }
                r
            },
            Expression::BinaryOp { op, lhs, rhs } => {
                let mut s = lhs.render();
                s.append(" ");
                s.append(binop_str(*op));
                s.append(" ");
                let r = rhs.render();
                s.append(r.as_str());
                proof {
                    reveal_strlit(" ");
                    assert(s@ =~= spec_render(self@));
                }
                s
            },
            Expression::UnaryOp { op, child } => {
                let mut s = String::from_str("!");
                let c = child.render();
                s.append(c.as_str());
                proof {
                    reveal_strlit("!");
                    assert(s@ =~= spec_render(self@));
                }
                s
            },
            Expression::Func { param, body } => {
                let mut s = String::from_str("func ");
                s.append(param.as_str());
                s.append(" => ");
                let b = body.render();
                s.append(b.as_str());
                proof {
                    reveal_strlit("func ");
                    reveal_strlit(" => ");
                    assert(s@ =~= spec_render(self@));
                }
                s
            },
            Expression::If { condition, then_expr, else_expr } => {
                let mut s = String::from_str("if ");
                let c = condition.render();
                s.append(c.as_str());
                s.append(" then ");
                let t = then_expr.render();
                s.append(t.as_str());
                s.append(" else ");
                let e = else_expr.render();
                s.append(e.as_str());
                proof {
                    reveal_strlit("if ");
                    reveal_strlit(" then ");
                    reveal_strlit(" else ");
                    assert(s@ =~= spec_render(self@));
                }
                s
            },
            Expression::Apply { func_expr, arg_expr } => {
                let mut s = func_expr.render();
                s.append(" (");
                let a = arg_expr.render();
                s.append(a.as_str());
                s.append(")");
                proof {
                    reveal_strlit(" (");
                    reveal_strlit(")");
                    assert(s@ =~= spec_render(self@));
                }
                s
            },
        }
    }
}

} // verus!
