//! A verified Pratt parser and evaluator for a small arithmetic language:
//! binary `+ - * /` with precedence and left-associativity, prefix negation,
//! postfix factorial, and parenthesized grouping. `pratt` holds the token
//! and tree types, the parser, and the evaluator; `laws` proves what they
//! guarantee together.

pub mod laws;
pub mod pratt;
