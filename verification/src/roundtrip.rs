//! The rendering round trip.
//!
//! Rendering an expression tree and parsing the text back recovers the tree
//! exactly — and so re-rendering yields the same text — for every tree in
//! the re-parseable fragment [`reparsable`]: trees without `BinaryOp` and
//! `Apply` nodes, without negative integer literals, and whose variable and
//! parameter names are identifiers.
//!
//! The excluded shapes genuinely fall outside the round trip, because the
//! canonical rendering writes them in a form the prefix grammar does not
//! read back: `BinaryOp(Add, 1, 1)` renders as `1 + 1`, which parses as the
//! bare literal `1` (with trailing tokens), and an `Apply` renders as
//! `f (1)`, which parses as `f` alone; a negative literal renders with a
//! leading `-`, which lexes as the subtraction operator.

use vstd::prelude::*;
use crate::expression::{spec_digit_char, spec_digits, spec_render, SpecExpr};
use crate::lexer::{
    classify_word, digits_val, digit_val, is_digit_char, is_lower_char, lex_cons,
    lemma_digit_run_char, lemma_lower_run_char, spec_lex, LexError, SpecToken,
};
use crate::parser::{spec_parse, ParseError};

verus! {

/// The token sequence of the canonical rendering of a tree in the
/// re-parseable fragment.
pub open spec fn tokens_of(e: SpecExpr) -> Seq<SpecToken>
    decreases e,
{
    match e {
        SpecExpr::Integer(v) => seq![SpecToken::Integer(v)],
        SpecExpr::Variable(name) => seq![SpecToken::Variable(name)],
        SpecExpr::Boolean(b) => seq![SpecToken::Boolean(b)],
        SpecExpr::BinaryOp { op, lhs, rhs } => tokens_of(*lhs) + seq![SpecToken::BinaryOp(op)]
            + tokens_of(*rhs),
        SpecExpr::UnaryOp { op, child } => seq![SpecToken::UnaryOp(op)] + tokens_of(*child),
        SpecExpr::Func { param, body } => seq![
            SpecToken::Func,
            SpecToken::Variable(param),
            SpecToken::Arrow,
        ] + tokens_of(*body),
        SpecExpr::If { condition, then_expr, else_expr } => seq![SpecToken::If] + tokens_of(
            *condition,
        ) + seq![SpecToken::Then] + tokens_of(*then_expr) + seq![SpecToken::Else] + tokens_of(
            *else_expr,
        ),
        SpecExpr::Apply { func_expr, arg_expr } => tokens_of(*func_expr) + seq![
            SpecToken::OpenParen,
        ] + tokens_of(*arg_expr) + seq![SpecToken::CloseParen],
    }
}

/// A word that lexes back as a single identifier: non-empty, lowercase
/// letters only, and not one of the five keywords.
pub open spec fn is_identifier(w: Seq<char>) -> bool {
    &&& w.len() > 0
    &&& forall|i: int| 0 <= i < w.len() ==> is_lower_char(#[trigger] w[i])
    &&& classify_word(w) == SpecToken::Variable(w)
}

/// The fragment of trees whose canonical rendering parses back to the same
/// tree: no `BinaryOp` or `Apply` nodes, no negative integer literals, and
/// every variable or parameter name an identifier.
pub open spec fn reparsable(e: SpecExpr) -> bool
    decreases e,
{
    match e {
        SpecExpr::Integer(v) => v >= 0,
        SpecExpr::Variable(name) => is_identifier(name),
        SpecExpr::Boolean(_) => true,
        SpecExpr::BinaryOp { op, lhs, rhs } => false,
        SpecExpr::UnaryOp { op, child } => reparsable(*child),
        SpecExpr::Func { param, body } => is_identifier(param) && reparsable(*body),
        SpecExpr::If { condition, then_expr, else_expr } => reparsable(*condition) && reparsable(
            *then_expr,
        ) && reparsable(*else_expr),
        SpecExpr::Apply { func_expr, arg_expr } => false,
    }
}

/// Prepend a token sequence to the result of lexing the rest of the input.
pub open spec fn lex_prepend(ts: Seq<SpecToken>, r: Result<Seq<SpecToken>, LexError>) -> Result<
    Seq<SpecToken>,
    LexError,
> {
    match r {
        Ok(more) => Ok(ts + more),
        Err(e) => Err(e),
    }
}

proof fn lemma_prepend_one(t: SpecToken, ts: Seq<SpecToken>, r: Result<Seq<SpecToken>, LexError>)
    ensures
        lex_cons(t, lex_prepend(ts, r)) == lex_prepend(seq![t] + ts, r),
{
    match r {
        Ok(more) => {
            assert(seq![t] + (ts + more) =~= (seq![t] + ts) + more);
        },
        Err(_) => {},
    }
}

proof fn lemma_prepend_assoc(
    a: Seq<SpecToken>,
    b: Seq<SpecToken>,
    r: Result<Seq<SpecToken>, LexError>,
)
    ensures
        lex_prepend(a, lex_prepend(b, r)) == lex_prepend(a + b, r),
{
    match r {
        Ok(more) => {
            assert(a + (b + more) =~= (a + b) + more);
        },
        Err(_) => {},
    }
}

/// Every character of a decimal digit string is a digit, and the string is
/// never empty.
proof fn lemma_spec_digits_wf(n: int)
    requires
        n >= 0,
    ensures
        spec_digits(n).len() >= 1,
        forall|i: int| 0 <= i < spec_digits(n).len() ==> is_digit_char(#[trigger] spec_digits(n)[i]),
    decreases n,
{
    if n < 10 {
    } else {
        lemma_spec_digits_wf(n / 10);
    }
}

/// Reading the decimal digit string of `n` back yields `n`.
proof fn lemma_digits_val_of_spec_digits(n: int)
    requires
        n >= 0,
    ensures
        digits_val(spec_digits(n)) == n,
    decreases n,
{
    if n < 10 {
        assert(spec_digits(n) =~= seq![spec_digit_char(n)]);
        assert(spec_digits(n).drop_last() =~= Seq::<char>::empty());
        assert(digit_val(spec_digit_char(n)) == n);
        assert(digits_val(spec_digits(n)) == digits_val(spec_digits(n).drop_last()) * 10
            + digit_val(spec_digits(n).last()));
    } else {
        lemma_digits_val_of_spec_digits(n / 10);
        let s = spec_digits(n);
        assert(s.drop_last() =~= spec_digits(n / 10));
        assert(s.last() == spec_digit_char(n % 10));
        assert(digit_val(spec_digit_char(n % 10)) == n % 10);
    }
}

/// Lexing a digit string (bounded by a non-digit) yields one integer token.
proof fn lemma_lex_step_digits(w: Seq<char>, rest: Seq<char>)
    requires
        w.len() >= 1,
        forall|i: int| 0 <= i < w.len() ==> is_digit_char(#[trigger] w[i]),
        0 <= digits_val(w) <= i64::MAX,
        rest.len() == 0 || !is_digit_char(rest[0]),
    ensures
        spec_lex(w + rest) == lex_cons(
            SpecToken::Integer(digits_val(w) as i64),
            spec_lex(rest),
        ),
{
    let s = w + rest;
    assert(s[0] == w[0]);
    assert(forall|m: int| 0 <= m < w.len() ==> #[trigger] s[m] == w[m]);
    if w.len() < s.len() {
        assert(s[w.len() as int] == rest[0]);
    }
    lemma_digit_run_char(s, w.len() as int);
    assert(s.take(w.len() as int) =~= w);
    assert(s.skip(w.len() as int) =~= rest);
}

/// Lexing a lowercase word (bounded by a non-letter) yields one keyword or
/// identifier token.
proof fn lemma_lex_step_word(w: Seq<char>, rest: Seq<char>)
    requires
        w.len() >= 1,
        forall|i: int| 0 <= i < w.len() ==> is_lower_char(#[trigger] w[i]),
        rest.len() == 0 || !is_lower_char(rest[0]),
    ensures
        spec_lex(w + rest) == lex_cons(classify_word(w), spec_lex(rest)),
{
    let s = w + rest;
    assert(s[0] == w[0]);
    assert(forall|m: int| 0 <= m < w.len() ==> #[trigger] s[m] == w[m]);
    if w.len() < s.len() {
        assert(s[w.len() as int] == rest[0]);
    }
    lemma_lower_run_char(s, w.len() as int);
    assert(s.take(w.len() as int) =~= w);
    assert(s.skip(w.len() as int) =~= rest);
}

/// Lexing skips a leading space.
proof fn lemma_lex_step_space(rest: Seq<char>)
    ensures
        spec_lex(seq![' '] + rest) == spec_lex(rest),
{
    let s = seq![' '] + rest;
    assert(s[0] == ' ');
    assert(s.skip(1) =~= rest);
}

/// Lexing reads a single-character token for `T`, `F` and `!`.
proof fn lemma_lex_step_single(c: char, t: SpecToken, rest: Seq<char>)
    requires
        c == 'T' ==> t == SpecToken::Boolean(true),
        c == 'F' ==> t == SpecToken::Boolean(false),
        c == '!' ==> t == (SpecToken::UnaryOp(crate::expression::UnaryOperator::Not)),
        c == 'T' || c == 'F' || c == '!',
    ensures
        spec_lex(seq![c] + rest) == lex_cons(t, spec_lex(rest)),
{
    let s = seq![c] + rest;
    assert(s[0] == c);
    assert(s.skip(1) =~= rest);
}

/// Lexing reads `=>` as the arrow token.
proof fn lemma_lex_step_arrow(rest: Seq<char>)
    ensures
        spec_lex(seq!['=', '>'] + rest) == lex_cons(SpecToken::Arrow, spec_lex(rest)),
{
    let s = seq!['=', '>'] + rest;
    assert(s[0] == '=');
    assert(s[1] == '>');
    assert(s.len() >= 2);
    assert(s.skip(2) =~= rest);
}

/// Lexing the canonical rendering of a re-parseable tree, followed by any
/// text that begins with a space (or by nothing), yields the tree's token
/// sequence followed by the tokens of the rest.
#[verifier::rlimit(100)]
proof fn lemma_lex_render(e: SpecExpr, rest: Seq<char>)
    requires
        reparsable(e),
        rest.len() == 0 || rest[0] == ' ',
    ensures
        spec_lex(spec_render(e) + rest) == lex_prepend(tokens_of(e), spec_lex(rest)),
    decreases e,
{
    match e {
        SpecExpr::Integer(v) => {
            lemma_spec_digits_wf(v as int);
            lemma_digits_val_of_spec_digits(v as int);
            lemma_lex_step_digits(spec_digits(v as int), rest);
            assert(lex_cons(SpecToken::Integer(v), spec_lex(rest)) == lex_prepend(
                tokens_of(e),
                spec_lex(rest),
            ));
        },
        SpecExpr::Variable(name) => {
            lemma_lex_step_word(name, rest);
        },
        SpecExpr::Boolean(b) => {
            if b {
                lemma_lex_step_single('T', SpecToken::Boolean(true), rest);
            } else {
                lemma_lex_step_single('F', SpecToken::Boolean(false), rest);
            }
        },
        SpecExpr::UnaryOp { op, child } => {
            let rc = spec_render(*child);
            assert(spec_render(e) + rest =~= seq!['!'] + (rc + rest));
            lemma_lex_render(*child, rest);
            lemma_lex_step_single(
                '!',
                SpecToken::UnaryOp(crate::expression::UnaryOperator::Not),
                rc + rest,
            );
            lemma_prepend_one(
                SpecToken::UnaryOp(crate::expression::UnaryOperator::Not),
                tokens_of(*child),
                spec_lex(rest),
            );
            assert(seq![SpecToken::UnaryOp(op)] + tokens_of(*child) =~= tokens_of(e));
        },
        SpecExpr::Func { param, body } => {
            let rb = spec_render(*body);
            let after_arrow = rb + rest;
            let after_param = seq![' ', '=', '>', ' '] + after_arrow;
            let after_kw = seq![' '] + (param + after_param);
            assert(spec_render(e) + rest =~= seq!['f', 'u', 'n', 'c'] + after_kw);
            // the keyword
            assert(classify_word(seq!['f', 'u', 'n', 'c']) == SpecToken::Func);
            lemma_lex_step_word(seq!['f', 'u', 'n', 'c'], after_kw);
            // the space after the keyword
            assert(after_kw =~= seq![' '] + (param + after_param));
            lemma_lex_step_space(param + after_param);
            // the parameter name
            lemma_lex_step_word(param, after_param);
            // the arrow, between spaces
            assert(after_param =~= seq![' '] + (seq!['=', '>'] + (seq![' '] + after_arrow)));
            lemma_lex_step_space(seq!['=', '>'] + (seq![' '] + after_arrow));
            lemma_lex_step_arrow(seq![' '] + after_arrow);
            lemma_lex_step_space(after_arrow);
            // the body
            lemma_lex_render(*body, rest);
            // reassemble the token sequence
            lemma_prepend_one(SpecToken::Arrow, tokens_of(*body), spec_lex(rest));
            lemma_prepend_one(
                SpecToken::Variable(param),
                seq![SpecToken::Arrow] + tokens_of(*body),
                spec_lex(rest),
            );
            lemma_prepend_one(
                SpecToken::Func,
                seq![SpecToken::Variable(param)] + (seq![SpecToken::Arrow] + tokens_of(*body)),
                spec_lex(rest),
            );
            assert(seq![SpecToken::Func] + (seq![SpecToken::Variable(param)] + (seq![
                SpecToken::Arrow,
            ] + tokens_of(*body))) =~= tokens_of(e));
        },
        SpecExpr::If { condition, then_expr, else_expr } => {
            let rc = spec_render(*condition);
            let rt = spec_render(*then_expr);
            let re = spec_render(*else_expr);
            let tail_else = re + rest;
            let after_else_kw = seq![' '] + tail_else;
            let rest_t = seq![' ', 'e', 'l', 's', 'e', ' '] + tail_else;
            let tail_then = rt + rest_t;
            let after_then_kw = seq![' '] + tail_then;
            let rest_c = seq![' ', 't', 'h', 'e', 'n', ' '] + tail_then;
            let tail_if = rc + rest_c;
            assert(spec_render(e) + rest =~= seq!['i', 'f'] + (seq![' '] + tail_if));
            // the keyword and its space
            assert(classify_word(seq!['i', 'f']) == SpecToken::If);
            lemma_lex_step_word(seq!['i', 'f'], seq![' '] + tail_if);
            lemma_lex_step_space(tail_if);
            // the condition, bounded by the space before the middle keyword
            lemma_lex_render(*condition, rest_c);
            // the middle keyword between spaces
            assert(rest_c =~= seq![' '] + (seq!['t', 'h', 'e', 'n'] + after_then_kw));
            lemma_lex_step_space(seq!['t', 'h', 'e', 'n'] + after_then_kw);
            assert(classify_word(seq!['t', 'h', 'e', 'n']) == SpecToken::Then);
            lemma_lex_step_word(seq!['t', 'h', 'e', 'n'], after_then_kw);
            lemma_lex_step_space(tail_then);
            // the first branch, bounded by the space before the last keyword
            lemma_lex_render(*then_expr, rest_t);
            // the last keyword between spaces
            assert(rest_t =~= seq![' '] + (seq!['e', 'l', 's', 'e'] + after_else_kw));
            lemma_lex_step_space(seq!['e', 'l', 's', 'e'] + after_else_kw);
            assert(classify_word(seq!['e', 'l', 's', 'e']) == SpecToken::Else);
            lemma_lex_step_word(seq!['e', 'l', 's', 'e'], after_else_kw);
            lemma_lex_step_space(tail_else);
            // the second branch
            lemma_lex_render(*else_expr, rest);
            // reassemble the token sequence
            let tc = tokens_of(*condition);
            let tt = tokens_of(*then_expr);
            let te = tokens_of(*else_expr);
            let r = spec_lex(rest);
            lemma_prepend_one(SpecToken::Else, te, r);
            lemma_prepend_assoc(tt, seq![SpecToken::Else] + te, r);
            lemma_prepend_one(SpecToken::Then, tt + (seq![SpecToken::Else] + te), r);
            lemma_prepend_assoc(
                tc,
                seq![SpecToken::Then] + (tt + (seq![SpecToken::Else] + te)),
                r,
            );
            lemma_prepend_one(
                SpecToken::If,
                tc + (seq![SpecToken::Then] + (tt + (seq![SpecToken::Else] + te))),
                r,
            );
            assert(seq![SpecToken::If] + (tc + (seq![SpecToken::Then] + (tt + (seq![
                SpecToken::Else,
            ] + te)))) =~= tokens_of(e));
        },
        _ => {},
    }
}

/// Every tree produces at least one token.
proof fn lemma_tokens_of_len(e: SpecExpr)
    ensures
        tokens_of(e).len() >= 1,
    decreases e,
{
    match e {
        SpecExpr::BinaryOp { op, lhs, rhs } => {
            lemma_tokens_of_len(*lhs);
        },
        SpecExpr::UnaryOp { op, child } => {
            lemma_tokens_of_len(*child);
        },
        SpecExpr::Func { param, body } => {
            lemma_tokens_of_len(*body);
        },
        SpecExpr::If { condition, then_expr, else_expr } => {
            lemma_tokens_of_len(*condition);
        },
        SpecExpr::Apply { func_expr, arg_expr } => {
            lemma_tokens_of_len(*func_expr);
        },
        _ => {},
    }
}

/// In a stream that holds a known subsequence, each element of the
/// subsequence stands at its offset position.
proof fn lemma_subrange_index(toks: Seq<SpecToken>, pos: int, ts: Seq<SpecToken>, i: int)
    requires
        0 <= pos,
        pos + ts.len() <= toks.len(),
        toks.subrange(pos, pos + ts.len() as int) == ts,
        0 <= i < ts.len(),
    ensures
        toks[pos + i] == ts[i],
{
    assert(toks.subrange(pos, pos + ts.len() as int)[i] == toks[pos + i]);
}

/// Parsing the token sequence of a re-parseable tree, wherever it stands in
/// a larger token stream, recovers exactly the tree and consumes exactly
/// its tokens.
#[verifier::rlimit(100)]
proof fn lemma_parse_tokens(e: SpecExpr, toks: Seq<SpecToken>, pos: int)
    requires
        reparsable(e),
        0 <= pos,
        pos + tokens_of(e).len() <= toks.len(),
        toks.subrange(pos, pos + tokens_of(e).len() as int) == tokens_of(e),
    ensures
        spec_parse(toks, pos) == Ok::<(SpecExpr, int), ParseError>(
            (e, pos + tokens_of(e).len() as int),
        ),
    decreases e,
{
    let ts = tokens_of(e);
    match e {
        SpecExpr::Integer(v) => {
            lemma_subrange_index(toks, pos, ts, 0);
            assert(toks[pos + 0] == SpecToken::Integer(v));
            assert(toks[pos] == SpecToken::Integer(v));
        },
        SpecExpr::Variable(name) => {
            lemma_subrange_index(toks, pos, ts, 0);
            assert(toks[pos + 0] == SpecToken::Variable(name));
            assert(toks[pos] == SpecToken::Variable(name));
        },
        SpecExpr::Boolean(b) => {
            lemma_subrange_index(toks, pos, ts, 0);
            assert(toks[pos + 0] == SpecToken::Boolean(b));
            assert(toks[pos] == SpecToken::Boolean(b));
        },
        SpecExpr::UnaryOp { op, child } => {
            let tc = tokens_of(*child);
            lemma_subrange_index(toks, pos, ts, 0);
            assert(ts[0] == SpecToken::UnaryOp(op));
            assert(toks[pos] == SpecToken::UnaryOp(op));
            assert forall|i: int| 0 <= i < tc.len() implies toks.subrange(
                pos + 1,
                pos + 1 + tc.len() as int,
            )[i] == tc[i] by {
                lemma_subrange_index(toks, pos, ts, 1 + i);
                assert(ts[1 + i] == tc[i]);
            }
            assert(toks.subrange(pos + 1, pos + 1 + tc.len() as int) =~= tc);
            lemma_parse_tokens(*child, toks, pos + 1);
            assert(spec_parse(toks, pos) matches Ok((parsed, p)) && parsed =~= e && p == pos
                + ts.len());
        },
        SpecExpr::Func { param, body } => {
            let tb = tokens_of(*body);
            lemma_tokens_of_len(*body);
            lemma_subrange_index(toks, pos, ts, 0);
            lemma_subrange_index(toks, pos, ts, 1);
            lemma_subrange_index(toks, pos, ts, 2);
            assert(ts[0] == SpecToken::Func);
            assert(ts[1] == SpecToken::Variable(param));
            assert(ts[2] == SpecToken::Arrow);
            assert(toks[pos] == SpecToken::Func);
            assert(toks[pos + 1] == SpecToken::Variable(param));
            assert(toks[pos + 2] == SpecToken::Arrow);
            assert forall|i: int| 0 <= i < tb.len() implies toks.subrange(
                pos + 3,
                pos + 3 + tb.len() as int,
            )[i] == tb[i] by {
                lemma_subrange_index(toks, pos, ts, 3 + i);
                assert(ts[3 + i] == tb[i]);
            }
            assert(toks.subrange(pos + 3, pos + 3 + tb.len() as int) =~= tb);
            lemma_parse_tokens(*body, toks, pos + 3);
            assert(spec_parse(toks, pos) matches Ok((parsed, p)) && parsed =~= e && p == pos
                + ts.len());
        },
        SpecExpr::If { condition, then_expr, else_expr } => {
            let tc = tokens_of(*condition);
            let tt = tokens_of(*then_expr);
            let te = tokens_of(*else_expr);
            let a1 = seq![SpecToken::If] + tc;
            let a2 = a1 + seq![SpecToken::Then];
            let a3 = a2 + tt;
            let a4 = a3 + seq![SpecToken::Else];
            assert(ts =~= a4 + te);
            lemma_subrange_index(toks, pos, ts, 0);
            assert(ts[0] == SpecToken::If);
            assert(toks[pos] == SpecToken::If);
            assert forall|i: int| 0 <= i < tc.len() implies toks.subrange(
                pos + 1,
                pos + 1 + tc.len() as int,
            )[i] == tc[i] by {
                lemma_subrange_index(toks, pos, ts, 1 + i);
                assert(ts[1 + i] == (a4 + te)[1 + i]);
                assert((a4 + te)[1 + i] == tc[i]);
            }
            assert(toks.subrange(pos + 1, pos + 1 + tc.len() as int) =~= tc);
            lemma_parse_tokens(*condition, toks, pos + 1);
            let p1 = pos + 1 + tc.len() as int;
            lemma_subrange_index(toks, pos, ts, 1 + tc.len() as int);
            assert(ts[1 + tc.len() as int] == (a4 + te)[1 + tc.len() as int]);
            assert((a4 + te)[1 + tc.len() as int] == SpecToken::Then);
            assert(toks[p1] == SpecToken::Then);
            assert forall|i: int| 0 <= i < tt.len() implies toks.subrange(
                p1 + 1,
                p1 + 1 + tt.len() as int,
            )[i] == tt[i] by {
                lemma_subrange_index(toks, pos, ts, 2 + tc.len() + i);
                assert(ts[2 + tc.len() + i] == (a4 + te)[2 + tc.len() + i]);
                assert((a4 + te)[2 + tc.len() + i] == tt[i]);
            }
            assert(toks.subrange(p1 + 1, p1 + 1 + tt.len() as int) =~= tt);
            lemma_parse_tokens(*then_expr, toks, p1 + 1);
            let p2 = p1 + 1 + tt.len() as int;
            lemma_subrange_index(toks, pos, ts, 2 + tc.len() + tt.len() as int);
            assert(ts[2 + tc.len() + tt.len() as int] == (a4 + te)[2 + tc.len() + tt.len() as int]);
            assert((a4 + te)[2 + tc.len() + tt.len() as int] == SpecToken::Else);
            assert(toks[p2] == SpecToken::Else);
            assert forall|i: int| 0 <= i < te.len() implies toks.subrange(
                p2 + 1,
                p2 + 1 + te.len() as int,
            )[i] == te[i] by {
                lemma_subrange_index(toks, pos, ts, 3 + tc.len() + tt.len() + i);
                assert(ts[3 + tc.len() + tt.len() + i] == (a4 + te)[3 + tc.len() + tt.len() + i]);
                assert((a4 + te)[3 + tc.len() + tt.len() + i] == te[i]);
            }
            assert(toks.subrange(p2 + 1, p2 + 1 + te.len() as int) =~= te);
            lemma_parse_tokens(*else_expr, toks, p2 + 1);
            assert(spec_parse(toks, pos) matches Ok((parsed, p)) && parsed =~= e && p == pos
                + ts.len());
        },
        _ => {},
    }
}

/// The rendering round trip: for every tree in the re-parseable fragment,
/// lexing the canonical rendering yields exactly the tree's token sequence,
/// and parsing that sequence recovers exactly the tree, consuming it whole.
/// Re-rendering the parsed tree therefore reproduces the original text:
/// render, parse and render again is the identity on renderings of
/// re-parseable trees.
pub proof fn lemma_render_round_trip(e: SpecExpr)
    requires
        reparsable(e),
    ensures
        spec_lex(spec_render(e)) == Ok::<Seq<SpecToken>, LexError>(tokens_of(e)),
        spec_parse(tokens_of(e), 0) == Ok::<(SpecExpr, int), ParseError>(
            (e, tokens_of(e).len() as int),
        ),
{
    lemma_lex_render(e, Seq::empty());
    assert(spec_render(e) + Seq::<char>::empty() =~= spec_render(e));
    assert(spec_lex(Seq::<char>::empty()) == Ok::<Seq<SpecToken>, LexError>(
        Seq::<SpecToken>::empty(),
    ));
    assert(tokens_of(e) + Seq::<SpecToken>::empty() =~= tokens_of(e));
    assert(tokens_of(e).subrange(0, tokens_of(e).len() as int) =~= tokens_of(e));
    lemma_parse_tokens(e, tokens_of(e), 0);
}

} // verus!
