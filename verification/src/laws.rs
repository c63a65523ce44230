//! Laws of the library, stated once for all inputs and proved: what parsing
//! and evaluation guarantee beyond the contracts of the single functions.

use vstd::prelude::*;

use crate::pratt::eval;
use crate::pratt::is_infix_op;
use crate::pratt::spec_parse;
use crate::pratt::spec_parse_expr;
use crate::pratt::spec_parse_ops;
use crate::pratt::wf_exp;
use crate::pratt::EvalError;
use crate::pratt::Exp;
use crate::pratt::ParseError;
use crate::pratt::Token;

verus! {

/// Evaluation is a pure function of the tree: two evaluations of the same
/// tree yield the same result.
pub proof fn lemma_evaluate_deterministic(
    e: Exp,
    r1: Result<i32, EvalError>,
    r2: Result<i32, EvalError>,
)
    requires
        r1 == eval(e),
        r2 == eval(e),
    ensures
        r1 == r2,
{
}

/// A bare number literal before the end marker parses to the corresponding
/// leaf, and that leaf evaluates to the number itself.
pub proof fn lemma_number_round_trip(n: i32)
    ensures
        spec_parse(seq![Token::Number(n), Token::EndOfInput]) == Ok::<Exp, ParseError>(
            Exp::Number(n),
        ),
        eval(Exp::Number(n)) == Ok::<i32, EvalError>(n),
{
    let toks = seq![Token::Number(n), Token::EndOfInput];
    assert(spec_parse_ops(toks, 1, Exp::Number(n), 0) == Ok::<(Exp, int), ParseError>((
        Exp::Number(n),
        1,
    )));
}

/// For every binary operator, `a op b` parses to the infix node whose left
/// child is the left operand: `Infix(Number(a), op, Number(b))`, never the
/// reverse order.
pub proof fn lemma_infix_shape(a: i32, op: Token, b: i32)
    requires
        is_infix_op(op),
    ensures
        spec_parse(seq![Token::Number(a), op, Token::Number(b), Token::EndOfInput]) == Ok::<
            Exp,
            ParseError,
        >(Exp::Infix(Box::new(Exp::Number(a)), op, Box::new(Exp::Number(b)))),
{
    let toks = seq![Token::Number(a), op, Token::Number(b), Token::EndOfInput];
    let node = Exp::Infix(Box::new(Exp::Number(a)), op, Box::new(Exp::Number(b)));
    assert(spec_parse_ops(toks, 3, Exp::Number(b), crate::pratt::prec(op))
        == Ok::<(Exp, int), ParseError>((Exp::Number(b), 3)));
    assert(spec_parse_expr(toks, 2, crate::pratt::prec(op)) == Ok::<(Exp, int), ParseError>((
        Exp::Number(b),
        3,
    )));
    assert(spec_parse_ops(toks, 3, node, 0) == Ok::<(Exp, int), ParseError>((node, 3)));
    assert(spec_parse_ops(toks, 1, Exp::Number(a), 0) == Ok::<(Exp, int), ParseError>((node, 3)));
}

/// Two operators of equal precedence associate to the left: `a op1 b op2 c`
/// parses to `Infix(Infix(a, op1, b), op2, c)`, never to the right-leaning
/// tree.
pub proof fn lemma_left_associativity(a: i32, op1: Token, b: i32, op2: Token, c: i32)
    requires
        is_infix_op(op1),
        is_infix_op(op2),
        crate::pratt::prec(op1) == crate::pratt::prec(op2),
    ensures
        spec_parse(
            seq![
                Token::Number(a),
                op1,
                Token::Number(b),
                op2,
                Token::Number(c),
                Token::EndOfInput,
            ],
        ) == Ok::<Exp, ParseError>(
            Exp::Infix(
                Box::new(Exp::Infix(Box::new(Exp::Number(a)), op1, Box::new(Exp::Number(b)))),
                op2,
                Box::new(Exp::Number(c)),
            ),
        ),
{
    let toks = seq![
        Token::Number(a),
        op1,
        Token::Number(b),
        op2,
        Token::Number(c),
        Token::EndOfInput,
    ];
    let p = crate::pratt::prec(op1);
    let left = Exp::Infix(Box::new(Exp::Number(a)), op1, Box::new(Exp::Number(b)));
    let tree = Exp::Infix(Box::new(left), op2, Box::new(Exp::Number(c)));
    assert(spec_parse_ops(toks, 3, Exp::Number(b), p) == Ok::<(Exp, int), ParseError>((
        Exp::Number(b),
        3,
    )));
    assert(spec_parse_expr(toks, 2, p) == Ok::<(Exp, int), ParseError>((Exp::Number(b), 3)));
    assert(spec_parse_ops(toks, 5, Exp::Number(c), p) == Ok::<(Exp, int), ParseError>((
        Exp::Number(c),
        5,
    )));
    assert(spec_parse_expr(toks, 4, p) == Ok::<(Exp, int), ParseError>((Exp::Number(c), 5)));
    assert(spec_parse_ops(toks, 5, tree, 0) == Ok::<(Exp, int), ParseError>((tree, 5)));
    assert(spec_parse_ops(toks, 3, left, 0) == Ok::<(Exp, int), ParseError>((tree, 5)));
    assert(spec_parse_ops(toks, 1, Exp::Number(a), 0) == Ok::<(Exp, int), ParseError>((tree, 5)));
}

/// An operator of higher precedence takes its operands before one of lower
/// precedence: `a op1 b op2 c` with `op2` binding tighter parses to
/// `Infix(a, op1, Infix(b, op2, c))`.
pub proof fn lemma_precedence(a: i32, op1: Token, b: i32, op2: Token, c: i32)
    requires
        is_infix_op(op1),
        is_infix_op(op2),
        crate::pratt::prec(op2) > crate::pratt::prec(op1),
    ensures
        spec_parse(
            seq![
                Token::Number(a),
                op1,
                Token::Number(b),
                op2,
                Token::Number(c),
                Token::EndOfInput,
            ],
        ) == Ok::<Exp, ParseError>(
            Exp::Infix(
                Box::new(Exp::Number(a)),
                op1,
                Box::new(Exp::Infix(Box::new(Exp::Number(b)), op2, Box::new(Exp::Number(c)))),
            ),
        ),
{
    let toks = seq![
        Token::Number(a),
        op1,
        Token::Number(b),
        op2,
        Token::Number(c),
        Token::EndOfInput,
    ];
    let p1 = crate::pratt::prec(op1);
    let p2 = crate::pratt::prec(op2);
    let right = Exp::Infix(Box::new(Exp::Number(b)), op2, Box::new(Exp::Number(c)));
    let tree = Exp::Infix(Box::new(Exp::Number(a)), op1, Box::new(right));
    assert(spec_parse_ops(toks, 5, Exp::Number(c), p2) == Ok::<(Exp, int), ParseError>((
        Exp::Number(c),
        5,
    )));
    assert(spec_parse_expr(toks, 4, p2) == Ok::<(Exp, int), ParseError>((Exp::Number(c), 5)));
    assert(spec_parse_ops(toks, 5, right, p1) == Ok::<(Exp, int), ParseError>((right, 5)));
    assert(spec_parse_ops(toks, 3, Exp::Number(b), p1) == Ok::<(Exp, int), ParseError>((
        right,
        5,
    )));
    assert(spec_parse_expr(toks, 2, p1) == Ok::<(Exp, int), ParseError>((right, 5)));
    assert(spec_parse_ops(toks, 5, tree, 0) == Ok::<(Exp, int), ParseError>((tree, 5)));
    assert(spec_parse_ops(toks, 1, Exp::Number(a), 0) == Ok::<(Exp, int), ParseError>((tree, 5)));
}

/// Postfix `Bang` binds tighter than any infix operator: `a ! op b` parses
/// with the factorial applied to `a` alone, whatever `op` is.
pub proof fn lemma_suffix_binds_tighter(a: i32, op: Token, b: i32)
    requires
        is_infix_op(op),
    ensures
        spec_parse(seq![Token::Number(a), Token::Bang, op, Token::Number(b), Token::EndOfInput])
            == Ok::<Exp, ParseError>(
            Exp::Infix(
                Box::new(Exp::Suffix(Box::new(Exp::Number(a)), Token::Bang)),
                op,
                Box::new(Exp::Number(b)),
            ),
        ),
{
    let toks = seq![Token::Number(a), Token::Bang, op, Token::Number(b), Token::EndOfInput];
    let p = crate::pratt::prec(op);
    let banged = Exp::Suffix(Box::new(Exp::Number(a)), Token::Bang);
    let tree = Exp::Infix(Box::new(banged), op, Box::new(Exp::Number(b)));
    assert(spec_parse_ops(toks, 4, Exp::Number(b), p) == Ok::<(Exp, int), ParseError>((
        Exp::Number(b),
        4,
    )));
    assert(spec_parse_expr(toks, 3, p) == Ok::<(Exp, int), ParseError>((Exp::Number(b), 4)));
    assert(spec_parse_ops(toks, 4, tree, 0) == Ok::<(Exp, int), ParseError>((tree, 4)));
    assert(spec_parse_ops(toks, 2, banged, 0) == Ok::<(Exp, int), ParseError>((tree, 4)));
    assert(spec_parse_ops(toks, 1, Exp::Number(a), 0) == Ok::<(Exp, int), ParseError>((tree, 4)));
}

/// Postfix `Bang` is repeatable: `a ! !` parses to two nested `Suffix`
/// nodes.
pub proof fn lemma_suffix_repeatable(a: i32)
    ensures
        spec_parse(seq![Token::Number(a), Token::Bang, Token::Bang, Token::EndOfInput]) == Ok::<
            Exp,
            ParseError,
        >(Exp::Suffix(Box::new(Exp::Suffix(Box::new(Exp::Number(a)), Token::Bang)), Token::Bang)),
{
    let toks = seq![Token::Number(a), Token::Bang, Token::Bang, Token::EndOfInput];
    let once = Exp::Suffix(Box::new(Exp::Number(a)), Token::Bang);
    let twice = Exp::Suffix(Box::new(once), Token::Bang);
    assert(spec_parse_ops(toks, 3, twice, 0) == Ok::<(Exp, int), ParseError>((twice, 3)));
    assert(spec_parse_ops(toks, 2, once, 0) == Ok::<(Exp, int), ParseError>((twice, 3)));
    assert(spec_parse_ops(toks, 1, Exp::Number(a), 0) == Ok::<(Exp, int), ParseError>((twice, 3)));
}

/// A successful sub-parse beginning at `pos` consumes at least one token and
/// never passes the end of the tokens: it resumes in `[pos + 1, toks.len()]`.
/// The clamp `pratt::resume_at` in the parsing definitions therefore never
/// alters a position that a successful sub-parse produced.
pub proof fn lemma_parse_expr_progress(toks: Seq<Token>, pos: int, min_prec: int)
    ensures
        spec_parse_expr(toks, pos, min_prec) matches Ok(r) ==> pos + 1 <= r.1 <= toks.len(),
    decreases toks.len() - pos, 1int,
{
    if 0 <= pos < toks.len() {
        match toks[pos] {
            Token::Number(n) => {
                lemma_parse_ops_progress(toks, pos + 1, Exp::Number(n), min_prec);
            },
            Token::Minus => {
                if let Ok((operand, next)) = spec_parse_expr(
                    toks,
                    pos + 1,
                    crate::pratt::prec(Token::Minus),
                ) {
                    lemma_parse_ops_progress(
                        toks,
                        crate::pratt::resume_at(next, pos + 2, toks.len() as int),
                        Exp::Prefix(Token::Minus, Box::new(operand)),
                        min_prec,
                    );
                }
            },
            Token::LeftParen => {
                if let Ok((grouped, next)) = spec_parse_expr(toks, pos + 1, 0) {
                    let close = crate::pratt::resume_at(next, pos + 2, toks.len() as int);
                    if close < toks.len() && toks[close] is RightParen {
                        lemma_parse_ops_progress(
                            toks,
                            close + 1,
                            Exp::Grouping(Box::new(grouped)),
                            min_prec,
                        );
                    }
                }
            },
            _ => {},
        }
    }
}

/// The operator loop never moves the cursor backwards and never passes the
/// end of the tokens.
proof fn lemma_parse_ops_progress(toks: Seq<Token>, pos: int, left: Exp, min_prec: int)
    requires
        pos <= toks.len(),
    ensures
        spec_parse_ops(toks, pos, left, min_prec) matches Ok(r) ==> pos <= r.1 <= toks.len(),
    decreases toks.len() - pos, 0int,
{
    if 0 <= pos < toks.len() {
        let op = toks[pos];
        if op is Bang {
            lemma_parse_ops_progress(toks, pos + 1, Exp::Suffix(Box::new(left), op), min_prec);
        } else if crate::pratt::prec(op) > min_prec {
            if let Ok((right, next)) = spec_parse_expr(toks, pos + 1, crate::pratt::prec(op)) {
                lemma_parse_ops_progress(
                    toks,
                    crate::pratt::resume_at(next, pos + 2, toks.len() as int),
                    Exp::Infix(Box::new(left), op, Box::new(right)),
                    min_prec,
                );
            }
        }
    }
}

/// Whatever tree a prefix production followed by the operator loop yields
/// is well formed.
proof fn lemma_parse_expr_well_formed(toks: Seq<Token>, pos: int, min_prec: int)
    requires
        min_prec >= 0,
    ensures
        spec_parse_expr(toks, pos, min_prec) matches Ok(r) ==> wf_exp(r.0),
    decreases toks.len() - pos, 1int,
{
    if 0 <= pos < toks.len() {
        match toks[pos] {
            Token::Number(n) => {
                lemma_parse_ops_well_formed(toks, pos + 1, Exp::Number(n), min_prec);
            },
            Token::Minus => {
                lemma_parse_expr_well_formed(toks, pos + 1, crate::pratt::prec(Token::Minus));
                if let Ok((operand, next)) = spec_parse_expr(
                    toks,
                    pos + 1,
                    crate::pratt::prec(Token::Minus),
                ) {
                    lemma_parse_ops_well_formed(
                        toks,
                        crate::pratt::resume_at(next, pos + 2, toks.len() as int),
                        Exp::Prefix(Token::Minus, Box::new(operand)),
                        min_prec,
                    );
                }
            },
            Token::LeftParen => {
                lemma_parse_expr_well_formed(toks, pos + 1, 0);
                if let Ok((grouped, next)) = spec_parse_expr(toks, pos + 1, 0) {
                    let close = crate::pratt::resume_at(next, pos + 2, toks.len() as int);
                    if close < toks.len() && toks[close] is RightParen {
                        lemma_parse_ops_well_formed(
                            toks,
                            close + 1,
                            Exp::Grouping(Box::new(grouped)),
                            min_prec,
                        );
                    }
                }
            },
            _ => {},
        }
    }
}

/// The operator loop keeps a well-formed left operand well formed: it only
/// wraps it in `Suffix(_, Bang)` and `Infix(_, op, _)` nodes with operators
/// their kinds allow.
proof fn lemma_parse_ops_well_formed(toks: Seq<Token>, pos: int, left: Exp, min_prec: int)
    requires
        min_prec >= 0,
        wf_exp(left),
    ensures
        spec_parse_ops(toks, pos, left, min_prec) matches Ok(r) ==> wf_exp(r.0),
    decreases toks.len() - pos, 0int,
{
    if 0 <= pos < toks.len() {
        let op = toks[pos];
        if op is Bang {
            lemma_parse_ops_well_formed(toks, pos + 1, Exp::Suffix(Box::new(left), op), min_prec);
        } else if crate::pratt::prec(op) > min_prec {
            lemma_parse_expr_well_formed(toks, pos + 1, crate::pratt::prec(op));
            if let Ok((right, next)) = spec_parse_expr(toks, pos + 1, crate::pratt::prec(op)) {
                lemma_parse_ops_well_formed(
                    toks,
                    crate::pratt::resume_at(next, pos + 2, toks.len() as int),
                    Exp::Infix(Box::new(left), op, Box::new(right)),
                    min_prec,
                );
            }
        }
    }
}

/// The parser is the sole producer of trees, and every tree it produces is
/// well formed: node kinds carry only the operators they allow.
pub proof fn lemma_parse_well_formed(toks: Seq<Token>, e: Exp)
    requires
        spec_parse(toks) == Ok::<Exp, ParseError>(e),
    ensures
        wf_exp(e),
{
    lemma_parse_expr_well_formed(toks, 0, 0);
}

/// On a well-formed tree, evaluation never reports the internal-defect
/// error: it returns a value, a division by zero, or an overflow.
pub proof fn lemma_eval_no_invalid_operator(e: Exp)
    requires
        wf_exp(e),
    ensures
        eval(e) != Err::<i32, EvalError>(EvalError::InvalidOperator),
    decreases e,
{
    match e {
        Exp::Number(_) => {},
        Exp::Grouping(grouped) => {
            lemma_eval_no_invalid_operator(*grouped);
        },
        Exp::Prefix(op, on) => {
            lemma_eval_no_invalid_operator(*on);
        },
        Exp::Infix(left, op, right) => {
            lemma_eval_no_invalid_operator(*left);
            lemma_eval_no_invalid_operator(*right);
        },
        Exp::Suffix(on, op) => {
            lemma_eval_no_invalid_operator(*on);
        },
    }
}

} // verus!
