//! A precedence-climbing (Pratt) parser for a small arithmetic language,
//! together with an evaluator for the expression trees it produces.
//!
//! The input is a finite sequence of tokens ending in `Token::EndOfInput`.
//! `Parser::parse` turns it into an `Exp` tree or a `ParseError`;
//! `Exp::evaluate` folds a tree to an `i32` or an `EvalError`.

use vstd::prelude::*;

verus! {

/// An atomic lexical unit, already segmented from source text.
#[derive(Debug, Clone, Copy, PartialEq, Eq, Structural)]
pub enum Token {
    Number(i32),
    Plus,
    Minus,
    Star,
    Slash,
    Bang,
    LeftParen,
    RightParen,
    EndOfInput,
}

/// An expression tree. Each non-leaf node exclusively owns its children;
/// the tree is immutable once built and evaluation never mutates it.
#[derive(Debug, PartialEq)]
pub enum Exp {
    Number(i32),
    /// A parenthesized sub-expression; a no-op at evaluation time but kept
    /// so the tree records the grouping that stood in the source.
    Grouping(Box<Exp>),
    Prefix(Token, Box<Exp>),
    Infix(Box<Exp>, Token, Box<Exp>),
    Suffix(Box<Exp>, Token),
}

/// A deviation from the grammar. Parsing stops at the first one;
/// there is no recovery and no partial result.
#[derive(Debug, Clone, Copy, PartialEq, Eq, Structural)]
pub enum ParseError {
    /// The lookahead at prefix position is not a number, a minus,
    /// or an opening parenthesis.
    ExpectedExpression,
    /// A parenthesized sub-expression is not closed.
    ExpectedClosingParen,
    /// Tokens other than the end marker remain after a complete expression.
    TrailingInput,
}

/// A failure while folding a tree to a value.
#[derive(Debug, Clone, Copy, PartialEq, Eq, Structural)]
pub enum EvalError {
    DivisionByZero,
    /// An intermediate result does not fit in `i32`.
    Overflow,
    /// A node carries an operator token that no node of its kind may carry.
    /// The parser never builds such a node (`laws::lemma_parse_well_formed`),
    /// so this marks a defect in a caller that built the tree by hand.
    InvalidOperator,
}

/// Whether a mathematical integer fits in `i32`.
pub open spec fn in_i32(v: int) -> bool {
    i32::MIN <= v <= i32::MAX
}

/// The factorial of `n`, with `n <= 0` the empty product. The evaluator
/// deliberately keeps this convention for negative operands: the iterative
/// product runs over an empty range there and yields 1.
pub open spec fn fact(n: int) -> int
    decreases n,
{
    if n <= 0 {
        1
    } else {
        n * fact(n - 1)
    }
}

/// Division truncating toward zero, as the `/` of the evaluated language
/// (and of Rust's `i32`) rounds. The `/` on `int` rounds toward
/// negative infinity, so the negative cases divide magnitudes.
pub open spec fn div_trunc(a: int, b: int) -> int
    recommends
        b != 0,
{
    if a == 0 {
        0
    } else if a > 0 && b > 0 {
        a / b
    } else if a < 0 && b < 0 {
        (-a) / (-b)
    } else if a < 0 {
        -((-a) / b)
    } else {
        -(a / (-b))
    }
}

/// Whether `op` may stand in an `Infix` node.
pub open spec fn is_infix_op(op: Token) -> bool {
    op is Plus || op is Minus || op is Star || op is Slash
}

/// A tree whose every node carries an operator its kind allows: `Prefix`
/// only `Minus`, `Suffix` only `Bang`, `Infix` one of the four arithmetic
/// tokens. The parser only builds such trees
/// (`laws::lemma_parse_well_formed`), and on them evaluation never reports
/// `EvalError::InvalidOperator` (`laws::lemma_eval_no_invalid_operator`).
pub open spec fn wf_exp(e: Exp) -> bool
    decreases e,
{
    match e {
        Exp::Number(_) => true,
        Exp::Grouping(grouped) => wf_exp(*grouped),
        Exp::Prefix(op, on) => op is Minus && wf_exp(*on),
        Exp::Infix(left, op, right) => is_infix_op(op) && wf_exp(*left) && wf_exp(*right),
        Exp::Suffix(on, op) => op is Bang && wf_exp(*on),
    }
}

/// What a binary operator yields on the values of its two operands:
/// the arithmetic result when it fits in `i32`, and the error otherwise.
pub open spec fn eval_infix(op: Token, a: int, b: int) -> Result<i32, EvalError> {
    match op {
        Token::Plus => if in_i32(a + b) {
            Ok((a + b) as i32)
        } else {
            Err(EvalError::Overflow)
        },
        Token::Minus => if in_i32(a - b) {
            Ok((a - b) as i32)
        } else {
            Err(EvalError::Overflow)
        },
        Token::Star => if in_i32(a * b) {
            Ok((a * b) as i32)
        } else {
            Err(EvalError::Overflow)
        },
        Token::Slash => if b == 0 {
            Err(EvalError::DivisionByZero)
        } else if in_i32(div_trunc(a, b)) {
            Ok(div_trunc(a, b) as i32)
        } else {
            Err(EvalError::Overflow)
        },
        _ => Err(EvalError::InvalidOperator),
    }
}

/// The value of an expression tree: a pure, bottom-up fold. Operator
/// validity is judged before the operands are evaluated, as the evaluator
/// dispatches on the operator first; among operand errors the left one wins.
pub open spec fn eval(e: Exp) -> Result<i32, EvalError>
    decreases e,
{
    match e {
        Exp::Number(n) => Ok(n),
        Exp::Grouping(grouped) => eval(*grouped),
        Exp::Prefix(op, on) => if op is Minus {
            match eval(*on) {
                Ok(v) => if in_i32(-(v as int)) {
                    Ok((-(v as int)) as i32)
                } else {
                    Err(EvalError::Overflow)
                },
                Err(er) => Err(er),
            }
        } else {
            Err(EvalError::InvalidOperator)
        },
        Exp::Infix(left, op, right) => if is_infix_op(op) {
            match eval(*left) {
                Ok(a) => match eval(*right) {
                    Ok(b) => eval_infix(op, a as int, b as int),
                    Err(er) => Err(er),
                },
                Err(er) => Err(er),
            }
        } else {
            Err(EvalError::InvalidOperator)
        },
        Exp::Suffix(on, op) => if op is Bang {
            match eval(*on) {
                Ok(v) => if in_i32(fact(v as int)) {
                    Ok(fact(v as int) as i32)
                } else {
                    Err(EvalError::Overflow)
                },
                Err(er) => Err(er),
            }
        } else {
            Err(EvalError::InvalidOperator)
        },
    }
}

impl Exp {
    /// Evaluate the tree bottom-up to its `i32` value, or report why it has
    /// none: a division by zero, an intermediate result outside `i32`, or an
    /// operator token on a node kind that may not carry it.
    pub fn evaluate(&self) -> (r: Result<i32, EvalError>)
        ensures
            r == eval(*self),
        decreases *self,
    {
        match self {
            Exp::Number(n) => Ok(*n),
            Exp::Grouping(grouped) => grouped.evaluate(),
            Exp::Prefix(op, on) => match op {
                Token::Minus => match on.evaluate() {
                    Ok(v) => if v == i32::MIN {
                        Err(EvalError::Overflow)
                    } else {
                        Ok(-v)
                    },
                    Err(er) => Err(er),
                },
                _ => Err(EvalError::InvalidOperator),
            },
            Exp::Infix(left, op, right) => match op {
                Token::Plus | Token::Minus | Token::Star | Token::Slash => {
                    match left.evaluate() {
                        Ok(a) => match right.evaluate() {
                            Ok(b) => apply_infix(*op, a, b),
                            Err(er) => Err(er),
                        },
                        Err(er) => Err(er),
                    }
                },
                _ => Err(EvalError::InvalidOperator),
            },
            Exp::Suffix(on, op) => match op {
                Token::Bang => match on.evaluate() {
                    Ok(v) => factorial(v),
                    Err(er) => Err(er),
                },
                _ => Err(EvalError::InvalidOperator),
            },
        }
    }
}

/// Apply a binary arithmetic operator to the values of its operands.
fn apply_infix(op: Token, a: i32, b: i32) -> (r: Result<i32, EvalError>)
    ensures
        r == eval_infix(op, a as int, b as int),
{
    match op {
        Token::Plus => match a.checked_add(b) {
            Some(v) => Ok(v),
            None => Err(EvalError::Overflow),
        },
        Token::Minus => match a.checked_sub(b) {
            Some(v) => Ok(v),
            None => Err(EvalError::Overflow),
        },
        Token::Star => match a.checked_mul(b) {
            Some(v) => Ok(v),
            None => Err(EvalError::Overflow),
        },
        Token::Slash => if b == 0 {
            Err(EvalError::DivisionByZero)
        } else {
            match a.checked_div(b) {
                Some(v) => Ok(v),
                None => Err(EvalError::Overflow),
            }
        },
        _ => Err(EvalError::InvalidOperator),
    }
}

/// `fact` never falls below 1.
proof fn lemma_fact_pos(n: int)
    ensures
        fact(n) >= 1,
    decreases n,
{
    if n > 0 {
        lemma_fact_pos(n - 1);
        vstd::arithmetic::mul::lemma_mul_strictly_positive(n, fact(n - 1));
    }
}

/// `fact` grows monotonically: every factor is at least 1.
proof fn lemma_fact_monotonic(i: int, j: int)
    requires
        i <= j,
    ensures
        fact(i) <= fact(j),
    decreases j - i,
{
    if i < j {
        lemma_fact_monotonic(i, j - 1);
        lemma_fact_pos(j - 1);
        if j > 0 {
            vstd::arithmetic::mul::lemma_mul_inequality(1, j, fact(j - 1));
        }
    }
}

/// The factorial of `n`, or `Overflow` where it does not fit in `i32`.
/// A non-positive `n` yields 1, the empty product.
fn factorial(n: i32) -> (r: Result<i32, EvalError>)
    ensures
        r == if in_i32(fact(n as int)) {
            Ok::<i32, EvalError>(fact(n as int) as i32)
        } else {
            Err::<i32, EvalError>(EvalError::Overflow)
        },
{
    let mut result: i32 = 1;
    let mut i: i32 = 0;
    while i < n
        invariant
            0 <= i,
            n > 0 ==> i <= n,
            n <= 0 ==> i == 0,
            result == fact(i as int),
            result >= 1,
        decreases n - i,
    {
        i = i + 1;
        proof {
            vstd::arithmetic::mul::lemma_mul_strictly_positive(result as int, i as int);
            assert(result * i == fact(i as int)) by (nonlinear_arith)
                requires
                    result == fact(i as int - 1),
                    fact(i as int) == i * fact(i as int - 1),
            ;
        }
        result = match result.checked_mul(i) {
            Some(v) => v,
            None => {
                proof {
                    lemma_fact_monotonic(i as int, n as int);
                }
                return Err(EvalError::Overflow);
            },
        };
    }
    Ok(result)
}

/// The binding precedence of an infix operator token. Every other token,
/// the end marker included, sits at 0 and so never extends an expression.
pub open spec fn prec(t: Token) -> int {
    match t {
        Token::Plus | Token::Minus => 1,
        Token::Star | Token::Slash => 2,
        _ => 0,
    }
}

/// Clamp the position at which parsing resumes after a sub-parse into
/// `[from, len]`. A successful sub-parse that began at `from - 1` in fact
/// always lands in that interval (`laws::lemma_parse_expr_progress`), so the
/// clamp changes nothing; it only makes the recursion measure of the two
/// mutually recursive definitions below evident.
pub open spec fn resume_at(next: int, from: int, len: int) -> int {
    let lo = if next > from {
        next
    } else {
        from
    };
    if lo > len {
        len
    } else {
        lo
    }
}

/// One prefix production starting at `toks[pos]`, extended by
/// `spec_parse_ops` with every operator that binds tighter than `min_prec`.
/// On success the returned position is the first token not consumed.
pub open spec fn spec_parse_expr(toks: Seq<Token>, pos: int, min_prec: int) -> Result<
    (Exp, int),
    ParseError,
>
    decreases toks.len() - pos, 1int,
{
    if pos < 0 || pos >= toks.len() {
        Err(ParseError::ExpectedExpression)
    } else {
        match toks[pos] {
            Token::Number(n) => spec_parse_ops(toks, pos + 1, Exp::Number(n), min_prec),
            Token::Minus => match spec_parse_expr(toks, pos + 1, prec(Token::Minus)) {
                Ok((operand, next)) => spec_parse_ops(
                    toks,
                    resume_at(next, pos + 2, toks.len() as int),
                    Exp::Prefix(Token::Minus, Box::new(operand)),
                    min_prec,
                ),
                Err(e) => Err(e),
            },
            Token::LeftParen => match spec_parse_expr(toks, pos + 1, 0) {
                Ok((grouped, next)) => {
                    let close = resume_at(next, pos + 2, toks.len() as int);
                    if close < toks.len() && toks[close] is RightParen {
                        spec_parse_ops(toks, close + 1, Exp::Grouping(Box::new(grouped)), min_prec)
                    } else {
                        Err(ParseError::ExpectedClosingParen)
                    }
                },
                Err(e) => Err(e),
            },
            _ => Err(ParseError::ExpectedExpression),
        }
    }
}

/// The operator loop of precedence climbing: starting from a finished
/// left operand at `pos`, fold in postfix `Bang` unconditionally and every
/// infix operator whose precedence exceeds `min_prec`, stopping at the
/// first token that binds no tighter (or at the end of the tokens).
pub open spec fn spec_parse_ops(toks: Seq<Token>, pos: int, left: Exp, min_prec: int) -> Result<
    (Exp, int),
    ParseError,
>
    decreases toks.len() - pos, 0int,
{
    if pos < 0 || pos >= toks.len() {
        Ok((left, pos))
    } else {
        let op = toks[pos];
        if op is Bang {
            spec_parse_ops(toks, pos + 1, Exp::Suffix(Box::new(left), op), min_prec)
        } else if prec(op) > min_prec {
            match spec_parse_expr(toks, pos + 1, prec(op)) {
                Ok((right, next)) => spec_parse_ops(
                    toks,
                    resume_at(next, pos + 2, toks.len() as int),
                    Exp::Infix(Box::new(left), op, Box::new(right)),
                    min_prec,
                ),
                Err(e) => Err(e),
            }
        } else {
            Ok((left, pos))
        }
    }
}

/// A whole parse beginning at `pos`: one expression, which the token there
/// must then follow with the end marker.
pub open spec fn spec_parse_from(toks: Seq<Token>, pos: int) -> Result<Exp, ParseError> {
    match spec_parse_expr(toks, pos, 0) {
        Ok((e, next)) => if 0 <= next < toks.len() && toks[next] is EndOfInput {
            Ok(e)
        } else {
            Err(ParseError::TrailingInput)
        },
        Err(e) => Err(e),
    }
}

/// What `Parser::new(tokens).parse()` returns on `tokens`.
pub open spec fn spec_parse(toks: Seq<Token>) -> Result<Exp, ParseError> {
    spec_parse_from(toks, 0)
}

/// A cursor over an immutable token sequence, holding the index of the
/// lookahead token. The sequence should end in `Token::EndOfInput`; on any
/// other input `parse` still terminates, with an error.
pub struct Parser<'a> {
    tokens: &'a [Token],
    pos: usize,
}

impl<'a> Parser<'a> {
    /// The token sequence the parser walks over.
    pub closed spec fn toks(&self) -> Seq<Token> {
        self.tokens@
    }

    /// The index of the lookahead token; `toks().len()` once exhausted.
    pub closed spec fn cursor(&self) -> int {
        self.pos as int
    }

    /// The cursor never passes the end of the tokens.
    pub open spec fn wf(&self) -> bool {
        self.cursor() <= self.toks().len()
    }

    /// A parser positioned at the first token of `tokens`.
    pub fn new(tokens: &'a [Token]) -> (parser: Parser<'a>)
        ensures
            parser.wf(),
            parser.toks() == tokens@,
            parser.cursor() == 0,
    {
        Parser { tokens, pos: 0 }
    }

    /// Parse one complete expression and require the lookahead that follows
    /// it to be the end marker. The sole entry point, meant to be called
    /// once, on a freshly constructed parser.
    pub fn parse(&mut self) -> (r: Result<Exp, ParseError>)
        requires
            old(self).wf(),
        ensures
            final(self).wf(),
            final(self).toks() == old(self).toks(),
            r == spec_parse_from(old(self).toks(), old(self).cursor()),
    {
        let exp = match self.parse_expression(0) {
            Ok(e) => e,
            Err(e) => {
                return Err(e);
            },
        };
        if self.pos < self.tokens.len() && self.tokens[self.pos] == Token::EndOfInput {
            Ok(exp)
        } else {
            Err(ParseError::TrailingInput)
        }
    }

    /// Move the lookahead to the next token; past the last one the cursor
    /// stays put (the iterator of tokens is exhausted).
    fn advance(&mut self)
        requires
            old(self).wf(),
        ensures
            final(self).wf(),
            final(self).toks() == old(self).toks(),
            old(self).cursor() < old(self).toks().len() ==> final(self).cursor() == old(
                self,
            ).cursor() + 1,
            old(self).cursor() == old(self).toks().len() ==> final(self).cursor() == old(
                self,
            ).cursor(),
    {
        if self.pos < self.tokens.len() {
            self.pos = self.pos + 1;
        }
    }

    /// One expression whose operators all bind tighter than `precedence`:
    /// the core precedence-climbing recursion.
    #[verifier::loop_isolation(false)]
    fn parse_expression(&mut self, precedence: i32) -> (r: Result<Exp, ParseError>)
        requires
            old(self).wf(),
        ensures
            final(self).wf(),
            final(self).toks() == old(self).toks(),
            match r {
                Ok(e) => spec_parse_expr(old(self).toks(), old(self).cursor(), precedence as int)
                    == Ok::<(Exp, int), ParseError>((e, final(self).cursor())) && old(
                    self,
                ).cursor() < final(self).cursor(),
                Err(er) => spec_parse_expr(old(self).toks(), old(self).cursor(), precedence as int)
                    == Err::<(Exp, int), ParseError>(er),
            },
        decreases old(self).toks().len() - old(self).cursor(),
    {
        let ghost toks = self.toks();
        let ghost pos0 = self.cursor();
        if self.pos >= self.tokens.len() {
            return Err(ParseError::ExpectedExpression);
        }
        let mut left_exp: Exp;
        match self.tokens[self.pos] {
            Token::Number(_) => {
                left_exp = self.parse_number();
            },
            Token::Minus => {
                self.advance();
                let operand = match self.parse_expression(self.precedence(Token::Minus)) {
                    Ok(e) => e,
                    Err(e) => {
                        return Err(e);
                    },
                };
                left_exp = Exp::Prefix(Token::Minus, Box::new(operand));
            },
            Token::LeftParen => {
                self.advance();
                let grouped = match self.parse_expression(0) {
                    Ok(e) => e,
                    Err(e) => {
                        return Err(e);
                    },
                };
                if self.pos < self.tokens.len() && self.tokens[self.pos] == Token::RightParen {
                    self.advance();
                    left_exp = Exp::Grouping(Box::new(grouped));
                } else {
                    return Err(ParseError::ExpectedClosingParen);
                }
            },
            _ => {
                return Err(ParseError::ExpectedExpression);
            },
        }
        loop
            invariant
                self.wf(),
                self.toks() == toks,
                pos0 < self.cursor(),
                spec_parse_expr(toks, pos0, precedence as int) == spec_parse_ops(
                    toks,
                    self.cursor(),
                    left_exp,
                    precedence as int,
                ),
            decreases self.toks().len() - self.cursor(),
        {
            if self.pos >= self.tokens.len() {
                return Ok(left_exp);
            }
            let op = self.tokens[self.pos];
            if op == Token::Bang {
                self.advance();
                left_exp = Exp::Suffix(Box::new(left_exp), op);
                continue;
            }
            let p = self.precedence(op);
            if p > precedence {
                self.advance();
                let right_exp = match self.parse_expression(p) {
                    Ok(e) => e,
                    Err(e) => {
                        return Err(e);
                    },
                };
                left_exp = Exp::Infix(Box::new(left_exp), op, Box::new(right_exp));
            } else {
                return Ok(left_exp);
            }
        }
    }

    /// The number literal at the lookahead, as a leaf node.
    fn parse_number(&mut self) -> (e: Exp)
        requires
            old(self).wf(),
            old(self).cursor() < old(self).toks().len(),
            old(self).toks()[old(self).cursor()] is Number,
        ensures
            final(self).wf(),
            final(self).toks() == old(self).toks(),
            final(self).cursor() == old(self).cursor() + 1,
            e == Exp::Number(old(self).toks()[old(self).cursor()]->Number_0),
    {
        let n = match self.tokens[self.pos] {
            Token::Number(n) => n,
            _ => {
                // dead: the precondition pins the lookahead to a number
                assert(false);
                0
            },
        };
        self.advance();
        Exp::Number(n)
    }

    /// The binding precedence of `token`; see `prec`.
    fn precedence(&self, token: Token) -> (p: i32)
        ensures
            p == prec(token),
    {
        match token {
            Token::Plus | Token::Minus => 1,
            Token::Star | Token::Slash => 2,
            _ => 0,
        }
    }
}

} // verus!
