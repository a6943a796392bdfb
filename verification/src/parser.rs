//! Recursive-descent parsing: tokens to expression trees.
//!
//! The grammar is prefix-notation with explicit parenthesized operands:
//!
//! ```text
//! expr := INTEGER | VARIABLE | BOOLEAN
//!       | '!' expr
//!       | BIN_OP '(' expr ',' expr ')'
//!       | 'func' VARIABLE '=>' expr
//!       | 'if' expr 'then' expr 'else' expr
//!       | 'apply' '(' expr ',' expr ')'
//! ```
//!
//! A [`Parser`] consumes one complete expression from the front of its token
//! stream; tokens after it are left unconsumed, as the baseline grammar does
//! not reject trailing input.

use vstd::prelude::*;
use crate::expression::{BinaryOperator, Expression, SpecExpr, UnaryOperator};
use crate::lexer::{spec_lex, SpecToken};

pub use crate::lexer::{lex, LexError, LexItem};

verus! {

/// What a parse expected and did not find.
#[derive(Debug, Clone, Copy, PartialEq, Eq, Structural)]
pub enum Expected {
    /// `(` after a binary operator or `apply`.
    OpenParen,
    /// `,` between the two operands of a binary or apply expression.
    Comma,
    /// `)` closing a binary or apply expression.
    CloseParen,
    /// `=>` after the parameter name of a `func`.
    Arrow,
    /// a parameter name after `func`.
    ParamName,
    /// `then` after the condition of an `if`.
    ThenKeyword,
    /// `else` after the first branch of an `if`.
    ElseKeyword,
}

/// A parsing failure.
#[derive(Debug, Clone, Copy, PartialEq, Eq, Structural)]
pub enum ParseError {
    /// The input ended where an expression was expected.
    UnexpectedEndOfInput,
    /// The next token starts no production.
    ExpectedExpression,
    /// A specific token was required and missing.
    ExpectedToken(Expected),
}

/// What parsing one expression at position `pos` of `toks` yields: the tree
/// and the position just after it, or the first failure.
///
/// The lower bounds on the positions handed back by inner parses (such as
/// `pos + 2 <= p1`) always hold — [`lemma_parse_advances`] proves a parse
/// moves the position forward — and make the termination measure of the
/// recursion evident.
pub open spec fn spec_parse(toks: Seq<SpecToken>, pos: int) -> Result<(SpecExpr, int), ParseError>
    decreases toks.len() - pos,
{
    if !(0 <= pos < toks.len()) {
        Err(ParseError::UnexpectedEndOfInput)
    } else {
        match toks[pos] {
            SpecToken::Integer(v) => Ok((SpecExpr::Integer(v), pos + 1)),
            SpecToken::Variable(name) => Ok((SpecExpr::Variable(name), pos + 1)),
            SpecToken::Boolean(b) => Ok((SpecExpr::Boolean(b), pos + 1)),
            SpecToken::UnaryOp(op) => match spec_parse(toks, pos + 1) {
                Ok((child, p)) => Ok((SpecExpr::UnaryOp { op, child: Box::new(child) }, p)),
                Err(e) => Err(e),
            },
            SpecToken::BinaryOp(op) => if pos + 1 < toks.len() && toks[pos + 1] is OpenParen {
                match spec_parse(toks, pos + 2) {
                    Ok((lhs, p1)) => if pos + 2 <= p1 && p1 < toks.len() && toks[p1] is Comma {
                        match spec_parse(toks, p1 + 1) {
                            Ok((rhs, p2)) => if p2 < toks.len() && toks[p2] is CloseParen {
                                Ok(
                                    (
                                        SpecExpr::BinaryOp {
                                            op,
                                            lhs: Box::new(lhs),
                                            rhs: Box::new(rhs),
                                        },
                                        p2 + 1,
                                    ),
                                )
                            } else {
                                Err(ParseError::ExpectedToken(Expected::CloseParen))
                            },
                            Err(e) => Err(e),
                        }
                    } else {
                        Err(ParseError::ExpectedToken(Expected::Comma))
                    },
                    Err(e) => Err(e),
                }
            } else {
                Err(ParseError::ExpectedToken(Expected::OpenParen))
            },
            SpecToken::Func => if pos + 1 < toks.len() {
                match toks[pos + 1] {
                    SpecToken::Variable(param) => if pos + 2 < toks.len() && toks[pos
                        + 2] is Arrow {
                        match spec_parse(toks, pos + 3) {
                            Ok((body, p)) => Ok(
                                (SpecExpr::Func { param, body: Box::new(body) }, p),
                            ),
                            Err(e) => Err(e),
                        }
                    } else {
                        Err(ParseError::ExpectedToken(Expected::Arrow))
                    },
                    _ => Err(ParseError::ExpectedToken(Expected::ParamName)),
                }
            } else {
                Err(ParseError::ExpectedToken(Expected::ParamName))
            },
            SpecToken::If => match spec_parse(toks, pos + 1) {
                Ok((cond, p1)) => if pos + 1 <= p1 && p1 < toks.len() && toks[p1] is Then {
                    match spec_parse(toks, p1 + 1) {
                        Ok((th, p2)) => if p1 + 1 <= p2 && p2 < toks.len() && toks[p2] is Else {
                            match spec_parse(toks, p2 + 1) {
                                Ok((el, p3)) => Ok(
                                    (
                                        SpecExpr::If {
                                            condition: Box::new(cond),
                                            then_expr: Box::new(th),
                                            else_expr: Box::new(el),
                                        },
                                        p3,
                                    ),
                                ),
                                Err(e) => Err(e),
                            }
                        } else {
                            Err(ParseError::ExpectedToken(Expected::ElseKeyword))
                        },
                        Err(e) => Err(e),
                    }
                } else {
                    Err(ParseError::ExpectedToken(Expected::ThenKeyword))
                },
                Err(e) => Err(e),
            },
            SpecToken::Apply => if pos + 1 < toks.len() && toks[pos + 1] is OpenParen {
                match spec_parse(toks, pos + 2) {
                    Ok((f, p1)) => if pos + 2 <= p1 && p1 < toks.len() && toks[p1] is Comma {
                        match spec_parse(toks, p1 + 1) {
                            Ok((a, p2)) => if p2 < toks.len() && toks[p2] is CloseParen {
                                Ok(
                                    (
                                        SpecExpr::Apply {
                                            func_expr: Box::new(f),
                                            arg_expr: Box::new(a),
                                        },
                                        p2 + 1,
                                    ),
                                )
                            } else {
                                Err(ParseError::ExpectedToken(Expected::CloseParen))
                            },
                            Err(e) => Err(e),
                        }
                    } else {
                        Err(ParseError::ExpectedToken(Expected::Comma))
                    },
                    Err(e) => Err(e),
                }
            } else {
                Err(ParseError::ExpectedToken(Expected::OpenParen))
            },
            _ => Err(ParseError::ExpectedExpression),
        }
    }
}

/// A successful parse consumes at least one token and never runs past the
/// end of the stream.
pub proof fn lemma_parse_advances(toks: Seq<SpecToken>, pos: int)
    ensures
        spec_parse(toks, pos) matches Ok((e, p)) ==> pos < p <= toks.len(),
    decreases toks.len() - pos,
{
    if 0 <= pos < toks.len() {
        match toks[pos] {
            SpecToken::UnaryOp(op) => {
                lemma_parse_advances(toks, pos + 1);
            },
            SpecToken::BinaryOp(op) => {
                if pos + 1 < toks.len() && toks[pos + 1] is OpenParen {
                    lemma_parse_advances(toks, pos + 2);
                    if let Ok((lhs, p1)) = spec_parse(toks, pos + 2) {
                        if p1 < toks.len() && toks[p1] is Comma {
                            lemma_parse_advances(toks, p1 + 1);
                        }
                    }
                }
            },
            SpecToken::Func => {
                if pos + 2 < toks.len() {
                    lemma_parse_advances(toks, pos + 3);
                }
            },
            SpecToken::If => {
                lemma_parse_advances(toks, pos + 1);
                if let Ok((cond, p1)) = spec_parse(toks, pos + 1) {
                    if p1 < toks.len() && toks[p1] is Then {
                        lemma_parse_advances(toks, p1 + 1);
                        if let Ok((th, p2)) = spec_parse(toks, p1 + 1) {
                            if p2 < toks.len() && toks[p2] is Else {
                                lemma_parse_advances(toks, p2 + 1);
                            }
                        }
                    }
                }
            },
            SpecToken::Apply => {
                if pos + 1 < toks.len() && toks[pos + 1] is OpenParen {
                    lemma_parse_advances(toks, pos + 2);
                    if let Ok((f, p1)) = spec_parse(toks, pos + 2) {
                        if p1 < toks.len() && toks[p1] is Comma {
                            lemma_parse_advances(toks, p1 + 1);
                        }
                    }
                }
            },
            _ => {},
        }
    }
}

/// A recursive-descent parser over a token stream, consuming tokens
/// left-to-right with a cursor.
pub struct Parser {
    tokens: Vec<LexItem>,
    current: usize,
}

impl Parser {
    /// The models of the tokens this parser reads.
    pub closed spec fn toks(&self) -> Seq<SpecToken> {
        self.tokens.deep_view()
    }

    /// The cursor: the position of the next token to be consumed.
    pub closed spec fn pos(&self) -> int {
        self.current as int
    }

    /// Build a parser for a line of source text. Text that does not lex
    /// yields a parser over the empty token stream, whose `parse` then
    /// reports that the input ended early.
    pub fn new(program: &str) -> (p: Parser)
        ensures
            p.pos() == 0,
            match spec_lex(program@) {
                Ok(ts) => p.toks() == ts,
                Err(_) => p.toks() == Seq::<SpecToken>::empty(),
            },
    {
        let tokens = match lex(program) {
            Ok(t) => t,
            Err(_) => Vec::new(),
        };
        proof {
            if spec_lex(program@) is Err {
                assert(tokens.deep_view() =~= Seq::<SpecToken>::empty());
            }
        }
        Parser { tokens, current: 0 }
    }

    /// Parse one expression starting at the cursor: exactly what the
    /// grammar [`spec_parse`] yields there. On success the cursor stands
    /// just past the expression; trailing tokens are not rejected.
    pub fn parse(&mut self) -> (r: Result<Expression, ParseError>)
        ensures
            final(self).toks() == old(self).toks(),
            match spec_parse(old(self).toks(), old(self).pos()) {
                Ok((m, p)) => r matches Ok(e) && e@ == m && final(self).pos() == p,
                Err(pe) => r == Err::<Expression, ParseError>(pe),
            },
    {
        self.parse_expression()
    }

    fn parse_expression(&mut self) -> (r: Result<Expression, ParseError>)
        ensures
            final(self).toks() == old(self).toks(),
            match spec_parse(old(self).toks(), old(self).pos()) {
                Ok((m, p)) => r matches Ok(e) && e@ == m && final(self).pos() == p,
                Err(pe) => r == Err::<Expression, ParseError>(pe),
            },
        decreases self.toks().len() - self.pos(), 1int,
    {
        if self.current < self.tokens.len() {
            assert(self.toks()[self.pos()] == self.tokens@[self.current as int]@);
            let tok = &self.tokens[self.current];
            match tok {
                LexItem::Integer(v) => {
                    let val = *v;
                    self.current = self.current + 1;
                    Ok(Expression::Integer(val))
                },
                LexItem::Variable(name) => {
                    let nm = name.clone();
                    self.current = self.current + 1;
                    Ok(Expression::Variable(nm))
                },
                LexItem::Boolean(b) => {
                    let val = *b;
                    self.current = self.current + 1;
                    Ok(Expression::Boolean(val))
                },
                LexItem::UnaryOp(op) => {
                    let o = *op;
                    self.parse_unary_expression(o)
                },
                LexItem::BinaryOp(op) => {
                    let o = *op;
                    self.parse_binary_expression(o)
                },
                LexItem::Func(_) => self.parse_func_expression(),
                LexItem::If(_) => self.parse_if_expression(),
                LexItem::Apply(_) => self.parse_apply_expression(),
                _ => Err(ParseError::ExpectedExpression),
            }
        } else {
            Err(ParseError::UnexpectedEndOfInput)
        }
    }

    /// `'!' expr`, with the cursor on the operator token.
    fn parse_unary_expression(&mut self, op: UnaryOperator) -> (r: Result<Expression, ParseError>)
        requires
            old(self).pos() < old(self).toks().len(),
            old(self).toks()[old(self).pos()] == SpecToken::UnaryOp(op),
        ensures
            final(self).toks() == old(self).toks(),
            match spec_parse(old(self).toks(), old(self).pos()) {
                Ok((m, p)) => r matches Ok(e) && e@ == m && final(self).pos() == p,
                Err(pe) => r == Err::<Expression, ParseError>(pe),
            },
        decreases self.toks().len() - self.pos(), 0int,
    {
        assert(self.toks().len() == self.tokens@.len());
        let _n: usize = self.tokens.len();
        self.current = self.current + 1;
        let child = match self.parse_expression() {
            Ok(e) => e,
            Err(e) => {
                return Err(e);
            },
        };
        Ok(Expression::UnaryOp { op, child: Box::new(child) })
    }

    /// `BIN_OP '(' expr ',' expr ')'`, with the cursor on the operator.
    fn parse_binary_expression(&mut self, op: BinaryOperator) -> (r: Result<Expression, ParseError>)
        requires
            old(self).pos() < old(self).toks().len(),
            old(self).toks()[old(self).pos()] == SpecToken::BinaryOp(op),
        ensures
            final(self).toks() == old(self).toks(),
            match spec_parse(old(self).toks(), old(self).pos()) {
                Ok((m, p)) => r matches Ok(e) && e@ == m && final(self).pos() == p,
                Err(pe) => r == Err::<Expression, ParseError>(pe),
            },
        decreases self.toks().len() - self.pos(), 0int,
    {
        let ghost toks = self.toks();
        let ghost pos = self.pos();
        assert(toks.len() == self.tokens@.len());
        let n: usize = self.tokens.len();
        self.current = self.current + 1;
        if self.current < n && matches!(
            &self.tokens[self.current],
            LexItem::OpenParen(_),
        ) {
            assert(toks[pos + 1] is OpenParen);
            self.current = self.current + 1;
            proof {
                lemma_parse_advances(toks, pos + 2);
            }
            let lhs = match self.parse_expression() {
                Ok(e) => e,
                Err(e) => {
                    return Err(e);
                },
            };
            if self.current < n && matches!(
                &self.tokens[self.current],
                LexItem::Comma(_),
            ) {
                assert(toks[self.pos()] is Comma);
                self.current = self.current + 1;
                let rhs = match self.parse_expression() {
                    Ok(e) => e,
                    Err(e) => {
                        return Err(e);
                    },
                };
                if self.current < n && matches!(
                    &self.tokens[self.current],
                    LexItem::CloseParen(_),
                ) {
                    assert(toks[self.pos()] is CloseParen);
                    self.current = self.current + 1;
                    Ok(Expression::BinaryOp { op, lhs: Box::new(lhs), rhs: Box::new(rhs) })
                } else {
                    Err(ParseError::ExpectedToken(Expected::CloseParen))
                }
            } else {
                Err(ParseError::ExpectedToken(Expected::Comma))
            }
        } else {
            Err(ParseError::ExpectedToken(Expected::OpenParen))
        }
    }

    /// `'func' VARIABLE '=>' expr`, with the cursor on the `func` keyword.
    fn parse_func_expression(&mut self) -> (r: Result<Expression, ParseError>)
        requires
            old(self).pos() < old(self).toks().len(),
            old(self).toks()[old(self).pos()] is Func,
        ensures
            final(self).toks() == old(self).toks(),
            match spec_parse(old(self).toks(), old(self).pos()) {
                Ok((m, p)) => r matches Ok(e) && e@ == m && final(self).pos() == p,
                Err(pe) => r == Err::<Expression, ParseError>(pe),
            },
        decreases self.toks().len() - self.pos(), 0int,
    {
        let ghost toks = self.toks();
        let ghost pos = self.pos();
        assert(toks.len() == self.tokens@.len());
        let n: usize = self.tokens.len();
        self.current = self.current + 1;
        if self.current < n {
            assert(toks[pos + 1] == self.tokens@[self.current as int]@);
            let tok = &self.tokens[self.current];
            match tok {
                LexItem::Variable(name) => {
                    let param = name.clone();
                    self.current = self.current + 1;
                    if self.current < n && matches!(
                        &self.tokens[self.current],
                        LexItem::Arrow(_),
                    ) {
                        assert(toks[pos + 2] is Arrow);
                        self.current = self.current + 1;
                        let body = match self.parse_expression() {
                            Ok(e) => e,
                            Err(e) => {
                                return Err(e);
                            },
                        };
                        Ok(Expression::Func { param, body: Box::new(body) })
                    } else {
                        Err(ParseError::ExpectedToken(Expected::Arrow))
                    }
                },
                _ => Err(ParseError::ExpectedToken(Expected::ParamName)),
            }
        } else {
            Err(ParseError::ExpectedToken(Expected::ParamName))
        }
    }

    /// `'if' expr 'then' expr 'else' expr`, with the cursor on `if`.
    fn parse_if_expression(&mut self) -> (r: Result<Expression, ParseError>)
        requires
            old(self).pos() < old(self).toks().len(),
            old(self).toks()[old(self).pos()] is If,
        ensures
            final(self).toks() == old(self).toks(),
            match spec_parse(old(self).toks(), old(self).pos()) {
                Ok((m, p)) => r matches Ok(e) && e@ == m && final(self).pos() == p,
                Err(pe) => r == Err::<Expression, ParseError>(pe),
            },
        decreases self.toks().len() - self.pos(), 0int,
    {
        let ghost toks = self.toks();
        let ghost pos = self.pos();
        assert(toks.len() == self.tokens@.len());
        let n: usize = self.tokens.len();
        self.current = self.current + 1;
        proof {
            lemma_parse_advances(toks, pos + 1);
        }
        let cond = match self.parse_expression() {
            Ok(e) => e,
            Err(e) => {
                return Err(e);
            },
        };
        if self.current < n && matches!(&self.tokens[self.current], LexItem::Then(_)) {
            assert(toks[self.pos()] is Then);
            self.current = self.current + 1;
            proof {
                lemma_parse_advances(toks, self.pos());
            }
            let th = match self.parse_expression() {
                Ok(e) => e,
                Err(e) => {
                    return Err(e);
                },
            };
            if self.current < n && matches!(
                &self.tokens[self.current],
                LexItem::Else(_),
            ) {
                assert(toks[self.pos()] is Else);
                self.current = self.current + 1;
                let el = match self.parse_expression() {
                    Ok(e) => e,
                    Err(e) => {
                        return Err(e);
                    },
                };
                Ok(
                    Expression::If {
                        condition: Box::new(cond),
                        then_expr: Box::new(th),
                        else_expr: Box::new(el),
                    },
                )
            } else {
                Err(ParseError::ExpectedToken(Expected::ElseKeyword))
            }
        } else {
            Err(ParseError::ExpectedToken(Expected::ThenKeyword))
        }
    }

    /// `'apply' '(' expr ',' expr ')'`, with the cursor on `apply`.
    fn parse_apply_expression(&mut self) -> (r: Result<Expression, ParseError>)
        requires
            old(self).pos() < old(self).toks().len(),
            old(self).toks()[old(self).pos()] is Apply,
        ensures
            final(self).toks() == old(self).toks(),
            match spec_parse(old(self).toks(), old(self).pos()) {
                Ok((m, p)) => r matches Ok(e) && e@ == m && final(self).pos() == p,
                Err(pe) => r == Err::<Expression, ParseError>(pe),
            },
        decreases self.toks().len() - self.pos(), 0int,
    {
        let ghost toks = self.toks();
        let ghost pos = self.pos();
        assert(toks.len() == self.tokens@.len());
        let n: usize = self.tokens.len();
        self.current = self.current + 1;
        if self.current < n && matches!(
            &self.tokens[self.current],
            LexItem::OpenParen(_),
        ) {
            assert(toks[pos + 1] is OpenParen);
            self.current = self.current + 1;
            proof {
                lemma_parse_advances(toks, pos + 2);
            }
            let f = match self.parse_expression() {
                Ok(e) => e,
                Err(e) => {
                    return Err(e);
                },
            };
            if self.current < n && matches!(
                &self.tokens[self.current],
                LexItem::Comma(_),
            ) {
                assert(toks[self.pos()] is Comma);
                self.current = self.current + 1;
                let a = match self.parse_expression() {
                    Ok(e) => e,
                    Err(e) => {
                        return Err(e);
                    },
                };
                if self.current < n && matches!(
                    &self.tokens[self.current],
                    LexItem::CloseParen(_),
                ) {
                    assert(toks[self.pos()] is CloseParen);
                    self.current = self.current + 1;
                    Ok(Expression::Apply { func_expr: Box::new(f), arg_expr: Box::new(a) })
                } else {
                    Err(ParseError::ExpectedToken(Expected::CloseParen))
                }
            } else {
                Err(ParseError::ExpectedToken(Expected::Comma))
            }
        } else {
            Err(ParseError::ExpectedToken(Expected::OpenParen))
        }
    }
}

} // verus!
