//! Lexical analysis: source text to tokens.
//!
//! Scanning is single-pass with one character of lookahead. Runs of digits
//! become integer literals; runs of lowercase letters become keywords or
//! identifiers; `T` and `F` are the boolean literals; the operator and
//! punctuation characters map one-to-one to tokens; `=` followed by `>` is
//! the arrow, and `=` followed by anything else (or by the end of the input)
//! is the equality operator. Spaces and tabs are skipped; any other
//! character stops the lexer with an error.

use vstd::prelude::*;
use vstd::string::*;
use crate::expression::{BinaryOperator, UnaryOperator};

verus! {

/// One lexical unit, as produced by [`lex`]. The `char` and `String`
/// payloads of the structural and keyword tokens always hold the text the
/// token was lexed from.
#[derive(Debug, PartialEq, Clone)]
pub enum LexItem {
    OpenParen(char),
    CloseParen(char),
    Comma(char),
    Integer(i64),
    Variable(String),
    Boolean(bool),
    If(String),
    Then(String),
    Else(String),
    Func(String),
    Apply(String),
    BinaryOp(BinaryOperator),
    UnaryOp(UnaryOperator),
    Arrow(String),
}

/// A lexing failure.
#[derive(Debug, Clone, Copy, PartialEq, Eq, Structural)]
pub enum LexError {
    /// A character matched by no lexical rule.
    UnexpectedCharacter(char),
    /// A run of digits whose value does not fit in a signed 64-bit integer.
    IntegerTooLarge,
}

/// The mathematical model of a [`LexItem`]: the token with its redundant
/// source-text payloads dropped.
#[verifier::ext_equal]
pub enum SpecToken {
    OpenParen,
    CloseParen,
    Comma,
    Integer(i64),
    Variable(Seq<char>),
    Boolean(bool),
    If,
    Then,
    Else,
    Func,
    Apply,
    BinaryOp(BinaryOperator),
    UnaryOp(UnaryOperator),
    Arrow,
}

impl LexItem {
    /// The model of this token.
    pub open spec fn model(self) -> SpecToken {
        match self {
            LexItem::OpenParen(_) => SpecToken::OpenParen,
            LexItem::CloseParen(_) => SpecToken::CloseParen,
            LexItem::Comma(_) => SpecToken::Comma,
            LexItem::Integer(v) => SpecToken::Integer(v),
            LexItem::Variable(name) => SpecToken::Variable(name@),
            LexItem::Boolean(b) => SpecToken::Boolean(b),
            LexItem::If(_) => SpecToken::If,
            LexItem::Then(_) => SpecToken::Then,
            LexItem::Else(_) => SpecToken::Else,
            LexItem::Func(_) => SpecToken::Func,
            LexItem::Apply(_) => SpecToken::Apply,
            LexItem::BinaryOp(op) => SpecToken::BinaryOp(op),
            LexItem::UnaryOp(op) => SpecToken::UnaryOp(op),
            LexItem::Arrow(_) => SpecToken::Arrow,
        }
    }
}

impl View for LexItem {
    type V = SpecToken;

    open spec fn view(&self) -> SpecToken {
        (*self).model()
    }
}

impl DeepView for LexItem {
    type V = SpecToken;

    open spec fn deep_view(&self) -> SpecToken {
        (*self).model()
    }
}

/// The token's source-text payloads hold exactly the text it was lexed from.
pub open spec fn token_wf(t: LexItem) -> bool {
    match t {
        LexItem::OpenParen(c) => c == '(',
        LexItem::CloseParen(c) => c == ')',
        LexItem::Comma(c) => c == ',',
        LexItem::If(s) => s@ == seq!['i', 'f'],
        LexItem::Then(s) => s@ == seq!['t', 'h', 'e', 'n'],
        LexItem::Else(s) => s@ == seq!['e', 'l', 's', 'e'],
        LexItem::Func(s) => s@ == seq!['f', 'u', 'n', 'c'],
        LexItem::Apply(s) => s@ == seq!['a', 'p', 'p', 'l', 'y'],
        LexItem::Arrow(s) => s@ == seq!['=', '>'],
        _ => true,
    }
}

/// Whether `c` is an ASCII decimal digit.
pub open spec fn is_digit_char(c: char) -> bool {
    48 <= c as u32 <= 57
}

/// Whether `c` is an ASCII lowercase letter.
pub open spec fn is_lower_char(c: char) -> bool {
    97 <= c as u32 <= 122
}

/// The numeric value of a digit character.
pub open spec fn digit_val(c: char) -> int {
    c as u32 - 48
}

/// The length of the longest prefix of `s` made of digits.
pub open spec fn digit_run_len(s: Seq<char>) -> nat
    decreases s.len(),
{
    if s.len() > 0 && is_digit_char(s[0]) {
        1 + digit_run_len(s.skip(1))
    } else {
        0
    }
}

/// The length of the longest prefix of `s` made of lowercase letters.
pub open spec fn lower_run_len(s: Seq<char>) -> nat
    decreases s.len(),
{
    if s.len() > 0 && is_lower_char(s[0]) {
        1 + lower_run_len(s.skip(1))
    } else {
        0
    }
}

/// The value of a digit string, most significant digit first.
pub open spec fn digits_val(s: Seq<char>) -> int
    decreases s.len(),
{
    if s.len() == 0 {
        0
    } else {
        digits_val(s.drop_last()) * 10 + digit_val(s.last())
    }
}

/// Classify a run of lowercase letters: the five keywords lex to keyword
/// tokens, every other word to an identifier.
pub open spec fn classify_word(w: Seq<char>) -> SpecToken {
    if w == seq!['i', 'f'] {
        SpecToken::If
    } else if w == seq!['t', 'h', 'e', 'n'] {
        SpecToken::Then
    } else if w == seq!['e', 'l', 's', 'e'] {
        SpecToken::Else
    } else if w == seq!['f', 'u', 'n', 'c'] {
        SpecToken::Func
    } else if w == seq!['a', 'p', 'p', 'l', 'y'] {
        SpecToken::Apply
    } else {
        SpecToken::Variable(w)
    }
}

/// Prepend a token to the result of lexing the rest of the input.
pub open spec fn lex_cons(t: SpecToken, r: Result<Seq<SpecToken>, LexError>) -> Result<
    Seq<SpecToken>,
    LexError,
> {
    match r {
        Ok(ts) => Ok(seq![t] + ts),
        Err(e) => Err(e),
    }
}

proof fn lemma_digit_run_le(s: Seq<char>)
    ensures
        digit_run_len(s) <= s.len(),
    decreases s.len(),
{
    if s.len() > 0 && is_digit_char(s[0]) {
        lemma_digit_run_le(s.skip(1));
    }
}

proof fn lemma_lower_run_le(s: Seq<char>)
    ensures
        lower_run_len(s) <= s.len(),
    decreases s.len(),
{
    if s.len() > 0 && is_lower_char(s[0]) {
        lemma_lower_run_le(s.skip(1));
    }
}

/// The token stream of a piece of source text.
pub open spec fn spec_lex(s: Seq<char>) -> Result<Seq<SpecToken>, LexError>
    decreases s.len(),
    via spec_lex_decreases
{
    if s.len() == 0 {
        Ok(Seq::empty())
    } else {
        let c = s[0];
        if is_digit_char(c) {
            let k = digit_run_len(s);
            let v = digits_val(s.take(k as int));
            if v > i64::MAX {
                Err(LexError::IntegerTooLarge)
            } else {
                lex_cons(SpecToken::Integer(v as i64), spec_lex(s.skip(k as int)))
            }
        } else if is_lower_char(c) {
            let k = lower_run_len(s);
            lex_cons(classify_word(s.take(k as int)), spec_lex(s.skip(k as int)))
        } else if c == 'T' {
            lex_cons(SpecToken::Boolean(true), spec_lex(s.skip(1)))
        } else if c == 'F' {
            lex_cons(SpecToken::Boolean(false), spec_lex(s.skip(1)))
        } else if c == '+' {
            lex_cons(SpecToken::BinaryOp(BinaryOperator::Add), spec_lex(s.skip(1)))
        } else if c == '-' {
            lex_cons(SpecToken::BinaryOp(BinaryOperator::Subtract), spec_lex(s.skip(1)))
        } else if c == '*' {
            lex_cons(SpecToken::BinaryOp(BinaryOperator::Multiply), spec_lex(s.skip(1)))
        } else if c == '/' {
            lex_cons(SpecToken::BinaryOp(BinaryOperator::Divide), spec_lex(s.skip(1)))
        } else if c == '<' {
            lex_cons(SpecToken::BinaryOp(BinaryOperator::LessThan), spec_lex(s.skip(1)))
        } else if c == '!' {
            lex_cons(SpecToken::UnaryOp(UnaryOperator::Not), spec_lex(s.skip(1)))
        } else if c == '=' {
            if s.len() >= 2 && s[1] == '>' {
                lex_cons(SpecToken::Arrow, spec_lex(s.skip(2)))
            } else {
                lex_cons(SpecToken::BinaryOp(BinaryOperator::Equals), spec_lex(s.skip(1)))
            }
        } else if c == '(' {
            lex_cons(SpecToken::OpenParen, spec_lex(s.skip(1)))
        } else if c == ')' {
            lex_cons(SpecToken::CloseParen, spec_lex(s.skip(1)))
        } else if c == ',' {
            lex_cons(SpecToken::Comma, spec_lex(s.skip(1)))
        } else if c == ' ' || c == '\t' {
            spec_lex(s.skip(1))
        } else {
            Err(LexError::UnexpectedCharacter(c))
        }
    }
}

#[via_fn]
proof fn spec_lex_decreases(s: Seq<char>) {
    lemma_digit_run_le(s);
    lemma_lower_run_le(s);
}

/// A run of digits (or of lowercase letters) ends exactly where the first
/// character of the other kind stands.
pub proof fn lemma_digit_run_char(s: Seq<char>, k: int)
    requires
        0 <= k <= s.len(),
        forall|m: int| 0 <= m < k ==> is_digit_char(#[trigger] s[m]),
        k == s.len() || !is_digit_char(s[k]),
    ensures
        digit_run_len(s) == k,
    decreases s.len(),
{
    if k == 0 {
    } else {
        assert(is_digit_char(s[0]));
        let t = s.skip(1);
        assert(forall|m: int| 0 <= m < k - 1 ==> #[trigger] t[m] == s[m + 1]);
        lemma_digit_run_char(t, k - 1);
    }
}

pub proof fn lemma_lower_run_char(s: Seq<char>, k: int)
    requires
        0 <= k <= s.len(),
        forall|m: int| 0 <= m < k ==> is_lower_char(#[trigger] s[m]),
        k == s.len() || !is_lower_char(s[k]),
    ensures
        lower_run_len(s) == k,
    decreases s.len(),
{
    if k == 0 {
    } else {
        assert(is_lower_char(s[0]));
        let t = s.skip(1);
        assert(forall|m: int| 0 <= m < k - 1 ==> #[trigger] t[m] == s[m + 1]);
        lemma_lower_run_char(t, k - 1);
    }
}

/// The value of a digit string is non-negative.
pub proof fn lemma_digits_val_nonneg(s: Seq<char>)
    requires
        forall|m: int| 0 <= m < s.len() ==> is_digit_char(#[trigger] s[m]),
    ensures
        digits_val(s) >= 0,
    decreases s.len(),
{
    if s.len() > 0 {
        lemma_digits_val_nonneg(s.drop_last());
    }
}

/// Extending a digit string can only grow its value.
pub proof fn lemma_digits_val_prefix_le(s: Seq<char>, m: int)
    requires
        forall|k: int| 0 <= k < s.len() ==> is_digit_char(#[trigger] s[k]),
        0 <= m <= s.len(),
    ensures
        digits_val(s.take(m)) <= digits_val(s),
    decreases s.len(),
{
    if m == s.len() {
        assert(s.take(m) =~= s);
    } else {
        let t = s.drop_last();
        lemma_digits_val_prefix_le(t, m);
        assert(t.take(m) =~= s.take(m));
        lemma_digits_val_nonneg(t);
    }
}

/// Whether the character at `idx` is an ASCII digit.
fn digit_at(s: &str, idx: usize) -> (r: bool)
    requires
        idx < s@.len(),
    ensures
        r == is_digit_char(s@[idx as int]),
{
    let c = s.get_char(idx);
    let u = c as u32;
    48 <= u && u <= 57
}

/// Whether the character at `idx` is an ASCII lowercase letter.
fn lower_at(s: &str, idx: usize) -> (r: bool)
    requires
        idx < s@.len(),
    ensures
        r == is_lower_char(s@[idx as int]),
{
    let c = s.get_char(idx);
    let u = c as u32;
    97 <= u && u <= 122
}

/// Whether the character at `idx` is exactly `c`.
fn char_at_is(s: &str, idx: usize, c: char) -> (r: bool)
    requires
        idx < s@.len(),
    ensures
        r == (s@[idx as int] == c),
{
    s.get_char(idx) == c
}

/// Lex a run of digits `input[start..end)` into its value, or report that
/// the value does not fit in an `i64`.
fn lex_integer_run(input: &str, start: usize, end: usize) -> (r: Option<i64>)
    requires
        start < end <= input@.len(),
        forall|m: int| start <= m < end ==> is_digit_char(#[trigger] input@[m]),
    ensures
        ({
            let run = input@.subrange(start as int, end as int);
            match r {
                Some(v) => digits_val(run) == v as int,
                None => digits_val(run) > i64::MAX,
            }
        }),
{
    let ghost run = input@.subrange(start as int, end as int);
    let mut acc: i64 = 0;
    let mut p: usize = start;
    proof {
        assert(run.subrange(0, 0) =~= input@.subrange(start as int, start as int));
        assert(digits_val(input@.subrange(start as int, start as int)) == 0);
    }
    while p < end
        invariant
            start <= p <= end <= input@.len(),
            forall|m: int| start <= m < end ==> is_digit_char(#[trigger] input@[m]),
            run == input@.subrange(start as int, end as int),
            0 <= acc,
            acc as int == digits_val(input@.subrange(start as int, p as int)),
        decreases end - p,
    {
        let c = input.get_char(p);
        let u = c as u32;
        assert(is_digit_char(c));
        let d: i64 = ((u - 48) as u8) as i64;
        assert(0 <= d <= 9);
        let limit: i64 = (9223372036854775807i64 - d) / 10;
        let ghost prefix = input@.subrange(start as int, p as int);
        let ghost next_prefix = input@.subrange(start as int, p as int + 1);
        proof {
            assert(next_prefix.drop_last() =~= prefix);
            assert(next_prefix.last() == input@[p as int]);
            assert(digits_val(next_prefix) == acc as int * 10 + d as int);
        }
        if acc > limit {
            proof {
                // the run read so far is already too large, and more digits
                // can only grow the value
                assert(acc as int * 10 + d as int > i64::MAX);
                assert(forall|k: int| 0 <= k < run.len() ==> is_digit_char(#[trigger] run[k]));
                assert(run.take(p as int + 1 - start as int) =~= next_prefix);
                lemma_digits_val_prefix_le(run, p as int + 1 - start);
                assert(digits_val(run) > i64::MAX);
            }
            return None;
        }
        assert(acc as int * 10 + d as int <= i64::MAX);
        acc = acc * 10 + d;
        p = p + 1;
    }
    proof {
        assert(input@.subrange(start as int, p as int) =~= run);
    }
    Some(acc)
}

/// Lex source text into a token stream: exactly the tokens that the
/// specification [`spec_lex`] assigns to it, with well-formed payloads.
#[verifier::rlimit(100)]
pub fn lex(input: &str) -> (r: Result<Vec<LexItem>, LexError>)
    ensures
        ({
            let m = spec_lex(input@);
            match r {
                Ok(toks) => {
                    &&& m matches Ok(ts) && toks.deep_view() == ts
                    &&& forall|k: int| 0 <= k < toks@.len() ==> token_wf(#[trigger] toks@[k])
                },
                Err(e) => m == Err::<Seq<SpecToken>, LexError>(e),
            }
        }),
{
    let n = input.unicode_len();
    let mut toks: Vec<LexItem> = Vec::new();
    let mut i: usize = 0;
    proof {
        assert(input@.skip(0) =~= input@);
        assert(toks.deep_view() =~= Seq::<SpecToken>::empty());
    }
    while i < n
        invariant
            n == input@.len(),
            i <= n,
            forall|k: int| 0 <= k < toks@.len() ==> token_wf(#[trigger] toks@[k]),
            ({
                let m = spec_lex(input@.skip(i as int));
                match m {
                    Ok(rest) => spec_lex(input@) == Ok::<Seq<SpecToken>, LexError>(
                        toks.deep_view() + rest,
                    ),
                    Err(e) => spec_lex(input@) == Err::<Seq<SpecToken>, LexError>(e),
                }
            }),
        decreases n - i,
    {
        let ghost rem = input@.skip(i as int);
        proof {
            assert(rem.len() == n - i);
            assert(forall|k: int| 0 <= k < rem.len() ==> #[trigger] rem[k] == input@[i + k]);
        }
        let c = input.get_char(i);
        assert(rem[0] == c);
        if digit_at(input, i) {
            // a run of digits is one integer token
            let mut j: usize = i + 1;
            while j < n && digit_at(input, j)
                invariant
                    n == input@.len(),
                    i < j <= n,
                    forall|m: int| i <= m < j ==> is_digit_char(#[trigger] input@[m]),
                decreases n - j,
            {
                j = j + 1;
            }
            proof {
                let k = j - i;
                assert(forall|m: int| 0 <= m < k ==> is_digit_char(#[trigger] rem[m]));
                if k < rem.len() {
                    assert(rem[k as int] == input@[j as int]);
                    assert(!is_digit_char(rem[k as int]));
                }
                lemma_digit_run_char(rem, k as int);
                assert(digit_run_len(rem) == j - i);
                assert(rem.take(j - i) =~= input@.subrange(i as int, j as int));
                assert(rem.skip(j - i) =~= input@.skip(j as int));
            }
            match lex_integer_run(input, i, j) {
                Some(v) => {
                    let ghost old_toks = toks.deep_view();
                    toks.push(LexItem::Integer(v));
                    proof {
                        lemma_digits_val_nonneg(input@.subrange(i as int, j as int));
                        assert(spec_lex(rem) == lex_cons(
                            SpecToken::Integer(v),
                            spec_lex(input@.skip(j as int)),
                        ));
                        assert(toks.deep_view() =~= old_toks + seq![SpecToken::Integer(v)]);
                        if let Ok(rest) = spec_lex(input@.skip(j as int)) {
                            assert(old_toks + (seq![SpecToken::Integer(v)] + rest) =~= toks.deep_view()
                                + rest);
                        }
                    }
                    i = j;
                },
                None => {
                    assert(spec_lex(rem) == Err::<Seq<SpecToken>, LexError>(
                        LexError::IntegerTooLarge,
                    ));
                    return Err(LexError::IntegerTooLarge);
                },
            }
        } else if lower_at(input, i) {
            // a run of lowercase letters is a keyword or an identifier
            let mut j: usize = i + 1;
            while j < n && lower_at(input, j)
                invariant
                    n == input@.len(),
                    i < j <= n,
                    forall|m: int| i <= m < j ==> is_lower_char(#[trigger] input@[m]),
                decreases n - j,
            {
                j = j + 1;
            }
            let ghost w = rem.take(j - i);
            proof {
                let k = j - i;
                assert(forall|m: int| 0 <= m < k ==> is_lower_char(#[trigger] rem[m]));
                if k < rem.len() {
                    assert(rem[k as int] == input@[j as int]);
                    assert(!is_lower_char(rem[k as int]));
                }
                lemma_lower_run_char(rem, k as int);
                assert(lower_run_len(rem) == j - i);
                assert(w =~= input@.subrange(i as int, j as int));
                assert(rem.skip(j - i) =~= input@.skip(j as int));
                assert(forall|m: int| 0 <= m < k ==> #[trigger] w[m] == input@[i + m]);
            }
            let word = String::from_str(input.substring_char(i, j));
            assert(word@ == w);
            let k = j - i;
            let tok: LexItem = if k == 2 && char_at_is(input, i, 'i') && char_at_is(
                input,
                i + 1,
                'f',
            ) {
                proof {
                    assert(w =~= seq!['i', 'f']);
                }
                LexItem::If(word)
            } else if k == 4 && char_at_is(input, i, 't') && char_at_is(input, i + 1, 'h')
                && char_at_is(input, i + 2, 'e') && char_at_is(input, i + 3, 'n') {
                proof {
                    assert(w =~= seq!['t', 'h', 'e', 'n']);
                }
                LexItem::Then(word)
            } else if k == 4 && char_at_is(input, i, 'e') && char_at_is(input, i + 1, 'l')
                && char_at_is(input, i + 2, 's') && char_at_is(input, i + 3, 'e') {
                proof {
                    assert(w =~= seq!['e', 'l', 's', 'e']);
                }
                LexItem::Else(word)
            } else if k == 4 && char_at_is(input, i, 'f') && char_at_is(input, i + 1, 'u')
                && char_at_is(input, i + 2, 'n') && char_at_is(input, i + 3, 'c') {
                proof {
                    assert(w =~= seq!['f', 'u', 'n', 'c']);
                }
                LexItem::Func(word)
            } else if k == 5 && char_at_is(input, i, 'a') && char_at_is(input, i + 1, 'p')
                && char_at_is(input, i + 2, 'p') && char_at_is(input, i + 3, 'l') && char_at_is(
                input,
                i + 4,
                'y',
            ) {
                proof {
                    assert(w =~= seq!['a', 'p', 'p', 'l', 'y']);
                }
                LexItem::Apply(word)
            } else {
                proof {
                    assert(w == seq!['i', 'f'] ==> w.len() == 2 && w[0] == 'i' && w[1] == 'f');
                    assert(w == seq!['t', 'h', 'e', 'n'] ==> w.len() == 4 && w[0] == 't' && w[1]
                        == 'h' && w[2] == 'e' && w[3] == 'n');
                    assert(w == seq!['e', 'l', 's', 'e'] ==> w.len() == 4 && w[0] == 'e' && w[1]
                        == 'l' && w[2] == 's' && w[3] == 'e');
                    assert(w == seq!['f', 'u', 'n', 'c'] ==> w.len() == 4 && w[0] == 'f' && w[1]
                        == 'u' && w[2] == 'n' && w[3] == 'c');
                    assert(w == seq!['a', 'p', 'p', 'l', 'y'] ==> w.len() == 5 && w[0] == 'a'
                        && w[1] == 'p' && w[2] == 'p' && w[3] == 'l' && w[4] == 'y');
                    assert(classify_word(w) == SpecToken::Variable(w));
                }
                LexItem::Variable(word)
            };
            assert(tok@ == classify_word(w));
            assert(token_wf(tok));
            let ghost old_toks = toks.deep_view();
            toks.push(tok);
            proof {
                assert(spec_lex(rem) == lex_cons(classify_word(w), spec_lex(input@.skip(j as int))));
                assert(toks.deep_view() =~= old_toks + seq![tok@]);
                if let Ok(rest) = spec_lex(input@.skip(j as int)) {
                    assert(old_toks + (seq![tok@] + rest) =~= toks.deep_view() + rest);
                }
            }
            i = j;
        } else if c == ' ' || c == '\t' {
            proof {
                assert(rem.skip(1) =~= input@.skip(i + 1));
                assert(spec_lex(rem) == spec_lex(input@.skip(i + 1)));
            }
            i = i + 1;
        } else if c == '=' {
            // one character of lookahead tells the arrow from equality; a
            // trailing lone '=' is the equality operator
            let is_arrow = i + 1 < n && char_at_is(input, i + 1, '>');
            let tok: LexItem = if is_arrow {
                let word = String::from_str(input.substring_char(i, i + 2));
                proof {
                    assert(word@ =~= seq!['=', '>']);
                }
                LexItem::Arrow(word)
            } else {
                LexItem::BinaryOp(BinaryOperator::Equals)
            };
            let step: usize = if is_arrow {
                2
            } else {
                1
            };
            proof {
                if is_arrow {
                    assert(rem.len() >= 2 && rem[1] == '>');
                } else {
                    assert(!(rem.len() >= 2 && rem[1] == '>'));
                }
                assert(rem.skip(step as int) =~= input@.skip(i + step));
                assert(spec_lex(rem) == lex_cons(tok@, spec_lex(input@.skip(i + step))));
            }
            let ghost old_toks = toks.deep_view();
            toks.push(tok);
            proof {
                assert(toks.deep_view() =~= old_toks + seq![tok@]);
                if let Ok(rest) = spec_lex(input@.skip(i + step)) {
                    assert(old_toks + (seq![tok@] + rest) =~= toks.deep_view() + rest);
                }
            }
            i = i + step;
        } else {
            // every remaining rule is a single-character token
            let tok: Option<LexItem> = if c == 'T' {
                Some(LexItem::Boolean(true))
            } else if c == 'F' {
                Some(LexItem::Boolean(false))
            } else if c == '+' {
                Some(LexItem::BinaryOp(BinaryOperator::Add))
            } else if c == '-' {
                Some(LexItem::BinaryOp(BinaryOperator::Subtract))
            } else if c == '*' {
                Some(LexItem::BinaryOp(BinaryOperator::Multiply))
            } else if c == '/' {
                Some(LexItem::BinaryOp(BinaryOperator::Divide))
            } else if c == '<' {
                Some(LexItem::BinaryOp(BinaryOperator::LessThan))
            } else if c == '!' {
                Some(LexItem::UnaryOp(UnaryOperator::Not))
            } else if c == '(' {
                Some(LexItem::OpenParen('('))
            } else if c == ')' {
                Some(LexItem::CloseParen(')'))
            } else if c == ',' {
                Some(LexItem::Comma(','))
            } else {
                None
            };
            match tok {
                Some(t) => {
                    proof {
                        assert(rem.skip(1) =~= input@.skip(i + 1));
                        assert(spec_lex(rem) == lex_cons(t@, spec_lex(input@.skip(i + 1))));
                    }
                    let ghost old_toks = toks.deep_view();
                    toks.push(t);
                    proof {
                        assert(toks.deep_view() =~= old_toks + seq![t@]);
                        if let Ok(rest) = spec_lex(input@.skip(i + 1)) {
                            assert(old_toks + (seq![t@] + rest) =~= toks.deep_view() + rest);
                        }
                    }
                    i = i + 1;
                },
                None => {
                    assert(spec_lex(rem) == Err::<Seq<SpecToken>, LexError>(
                        LexError::UnexpectedCharacter(c),
                    ));
                    return Err(LexError::UnexpectedCharacter(c));
                },
            }
        }
    }
    proof {
        assert(input@.skip(n as int).len() == 0);
        assert(spec_lex(input@.skip(n as int)) == Ok::<Seq<SpecToken>, LexError>(Seq::empty()));
        assert(toks.deep_view() + Seq::<SpecToken>::empty() =~= toks.deep_view());
    }
    Ok(toks)
}

} // verus!
