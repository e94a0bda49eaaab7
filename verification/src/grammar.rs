//! The grammar, as functions on a sequence of tokens.
//!
//! Each function takes the tokens and the position to parse at, and gives
//! what stands there in the model of the syntax tree, with the position
//! after it, or the failure that a recursive-descent parser reports, with
//! the position at which it stopped. The parser is proved to compute these
//! functions.

use vstd::prelude::*;

use crate::ast::{
    ClassView, DeclarationView, ExprView, FunctionView, InitializerView, StatementView,
    VarDeclarationView,
};
use crate::token::{Token, TokenKind};

verus! {

/// A syntax error: the line of the token at which parsing stopped, and the message.
pub struct Failure {
    pub line: usize,
    pub message: Seq<char>,
}

/// What parsing at a position gives.
pub enum Parsed<T> {
    /// What was parsed, and the position after it.
    Value { value: T, next: int },
    /// The error, and the position at which parsing stopped.
    Failure { failure: Failure, next: int },
}

/// What a function declaration declares; the messages tell the two apart.
#[derive(Clone, Copy, Debug)]
pub enum Callable {
    Function,
    Method,
}

/// Whether the token at `pos` exists and has kind `kind`.
pub open spec fn check(t: Seq<Token>, pos: int, kind: TokenKind) -> bool {
    0 <= pos < t.len() && t[pos].kind == kind
}

/// The position after the token at `pos`; the end stays the end.
pub open spec fn advance(t: Seq<Token>, pos: int) -> int {
    if pos < t.len() {
        pos + 1
    } else {
        pos
    }
}

/// The failure raised at `pos`: the parser steps over the offending token
/// and blames its line.
pub open spec fn fail<T>(t: Seq<Token>, pos: int, message: Seq<char>) -> Parsed<T> {
    let next = advance(t, pos);
    Parsed::Failure { failure: Failure { line: t[next - 1].line, message }, next }
}

/// Hands on a failure; a value that made no progress is no result at all.
pub open spec fn stop<A, B>(r: Parsed<A>, pos: int) -> Parsed<B> {
    match r {
        Parsed::Failure { failure, next } => Parsed::Failure { failure, next },
        Parsed::Value { .. } => Parsed::Failure {
            failure: Failure { line: 0, message: Seq::empty() },
            next: pos,
        },
    }
}

/// Steps over a token of kind `kind`, or fails with `message`.
pub open spec fn consume(t: Seq<Token>, pos: int, kind: TokenKind, message: Seq<char>) -> Parsed<()> {
    if check(t, pos, kind) {
        Parsed::Value { value: (), next: pos + 1 }
    } else {
        fail(t, pos, message)
    }
}

pub open spec fn consume_semicolon(t: Seq<Token>, pos: int) -> Parsed<()> {
    consume(t, pos, TokenKind::Semicolon, "Parse error: Semicolon must follow statement."@)
}

pub open spec fn is_literal(kind: TokenKind) -> bool {
    kind == TokenKind::False || kind == TokenKind::True || kind == TokenKind::Nil || kind
        == TokenKind::Number || kind == TokenKind::StringT
}

/// primary: a literal, a name, a parenthesised expression, `this` or `super.name`.
#[verifier::opaque]
pub open spec fn parse_primary(t: Seq<Token>, pos: int) -> Parsed<ExprView>
    decreases t.len() - pos, 0int, 1int,
{
    primary_rule(t, pos)
}

/// One step of `parse_primary`: what stands at `pos`, given what the grammar finds further on.
pub open spec fn primary_rule(t: Seq<Token>, pos: int) -> Parsed<ExprView>
    decreases t.len() - pos, 0int, 0int,
{
    if 0 <= pos < t.len() && is_literal(t[pos].kind) {
        Parsed::Value { value: ExprView::Literal { token: t[pos] }, next: pos + 1 }
    } else if check(t, pos, TokenKind::Identifier) {
        Parsed::Value { value: ExprView::Variable { name: t[pos], depth: None }, next: pos + 1 }
    } else if check(t, pos, TokenKind::LeftParen) {
        match parse_expression(t, pos + 1) {
            Parsed::Value { value, next } if pos < next <= t.len() => match consume(
                t,
                next,
                TokenKind::RightParen,
                "Parse error: Expected ')' after expression."@,
            ) {
                Parsed::Value { next: after, .. } => Parsed::Value {
                    value: ExprView::Grouping { token: t[next], inner: Box::new(value) },
                    next: after,
                },
                other => stop(other, pos),
            },
            other => stop(other, pos),
        }
    } else if check(t, pos, TokenKind::This) {
        Parsed::Value { value: ExprView::This { keyword: t[pos], depth: None }, next: pos + 1 }
    } else if check(t, pos, TokenKind::Super) {
        match consume(t, pos + 1, TokenKind::Dot, "Parse error: Expect '.' after 'super'."@) {
            Parsed::Value { .. } => match consume(
                t,
                pos + 2,
                TokenKind::Identifier,
                "Parse error: Expected identifier after '.'"@,
            ) {
                Parsed::Value { .. } => Parsed::Value {
                    value: ExprView::Super { keyword: t[pos], method: t[pos + 2], depth: None },
                    next: pos + 3,
                },
                other => stop(other, pos),
            },
            other => stop(other, pos),
        }
    } else {
        fail(t, pos, "Parse error: Expected expression."@)
    }
}

/// `parse_primary` is its rule, applied once.
pub proof fn lemma_parse_primary(t: Seq<Token>, pos: int)
    ensures
        parse_primary(t, pos) == primary_rule(t, pos),
{
    reveal(parse_primary);
}

/// What follows a primary: calls and property accesses, from left to right.
#[verifier::opaque]
pub open spec fn parse_call_rest(t: Seq<Token>, pos: int, callee: ExprView) -> Parsed<ExprView>
    decreases t.len() - pos, 1int, 1int,
{
    call_rest_rule(t, pos, callee)
}

/// One step of `parse_call_rest`: what stands at `pos`, given what the grammar finds further on.
pub open spec fn call_rest_rule(t: Seq<Token>, pos: int, callee: ExprView) -> Parsed<ExprView>
    decreases t.len() - pos, 1int, 0int,
{
    if check(t, pos, TokenKind::LeftParen) {
        match parse_finish_call(t, pos + 1, callee) {
            Parsed::Value { value, next } if pos < next <= t.len() => parse_call_rest(t, next, value),
            other => stop(other, pos),
        }
    } else if check(t, pos, TokenKind::Dot) {
        match consume(
            t,
            pos + 1,
            TokenKind::Identifier,
            "Parse error: Expected property name after '.'."@,
        ) {
            Parsed::Value { .. } => if check(t, pos + 2, TokenKind::Equal) {
                match parse_expression(t, pos + 3) {
                    Parsed::Value { value, next } if pos < next <= t.len() => parse_call_rest(
                        t,
                        next,
                        ExprView::SetExpr {
                            object: Box::new(callee),
                            name: t[pos + 1],
                            value: Box::new(value),
                        },
                    ),
                    other => stop(other, pos),
                }
            } else {
                parse_call_rest(
                    t,
                    pos + 2,
                    ExprView::Get { object: Box::new(callee), name: t[pos + 1] },
                )
            },
            other => stop(other, pos),
        }
    } else {
        Parsed::Value { value: callee, next: pos }
    }
}

/// `parse_call_rest` is its rule, applied once.
pub proof fn lemma_parse_call_rest(t: Seq<Token>, pos: int, callee: ExprView)
    ensures
        parse_call_rest(t, pos, callee) == call_rest_rule(t, pos, callee),
{
    reveal(parse_call_rest);
}

/// call: a primary and what follows it.
#[verifier::opaque]
pub open spec fn parse_call(t: Seq<Token>, pos: int) -> Parsed<ExprView>
    decreases t.len() - pos, 2int, 1int,
{
    call_rule(t, pos)
}

/// One step of `parse_call`: what stands at `pos`, given what the grammar finds further on.
pub open spec fn call_rule(t: Seq<Token>, pos: int) -> Parsed<ExprView>
    decreases t.len() - pos, 2int, 0int,
{
    match parse_primary(t, pos) {
        Parsed::Value { value, next } if pos <= next <= t.len() => parse_call_rest(t, next, value),
        other => stop(other, pos),
    }
}

/// `parse_call` is its rule, applied once.
pub proof fn lemma_parse_call(t: Seq<Token>, pos: int)
    ensures
        parse_call(t, pos) == call_rule(t, pos),
{
    reveal(parse_call);
}

/// The arguments of a call from `pos` on, after those in `seen`: expressions
/// separated by commas, 255 at most.
#[verifier::opaque]
pub open spec fn parse_arguments(t: Seq<Token>, pos: int, seen: Seq<ExprView>) -> Parsed<
    Seq<ExprView>,
>
    decreases t.len() - pos, 18int, 1int,
{
    arguments_rule(t, pos, seen)
}

/// One step of `parse_arguments`: what stands at `pos`, given what the grammar finds further on.
pub open spec fn arguments_rule(t: Seq<Token>, pos: int, seen: Seq<ExprView>) -> Parsed<
    Seq<ExprView>,
>
    decreases t.len() - pos, 18int, 0int,
{
    if seen.len() >= 255 {
        fail(t, pos, "Parse error: Can't have more than 255 arguments"@)
    } else {
        match parse_expression(t, pos) {
            Parsed::Value { value, next } if pos < next <= t.len() => if check(
                t,
                next,
                TokenKind::Comma,
            ) {
                parse_arguments(t, next + 1, seen.push(value))
            } else {
                Parsed::Value { value: seen.push(value), next }
            },
            other => stop(other, pos),
        }
    }
}

/// `parse_arguments` is its rule, applied once.
pub proof fn lemma_parse_arguments(t: Seq<Token>, pos: int, seen: Seq<ExprView>)
    ensures
        parse_arguments(t, pos, seen) == arguments_rule(t, pos, seen),
{
    reveal(parse_arguments);
}

/// The rest of a call whose opening parenthesis stands before `pos`.
#[verifier::opaque]
pub open spec fn parse_finish_call(t: Seq<Token>, pos: int, callee: ExprView) -> Parsed<ExprView>
    decreases t.len() - pos, 19int, 1int,
{
    finish_call_rule(t, pos, callee)
}

/// One step of `parse_finish_call`: what stands at `pos`, given what the grammar finds further on.
pub open spec fn finish_call_rule(t: Seq<Token>, pos: int, callee: ExprView) -> Parsed<ExprView>
    decreases t.len() - pos, 19int, 0int,
{
    let arguments = if check(t, pos, TokenKind::RightParen) {
        Parsed::Value { value: Seq::empty(), next: pos }
    } else {
        parse_arguments(t, pos, Seq::empty())
    };
    match arguments {
        Parsed::Value { value, next } if pos <= next <= t.len() => match consume(
            t,
            next,
            TokenKind::RightParen,
            "Parse error: Expected closing paren to follow argument list"@,
        ) {
            Parsed::Value { next: after, .. } => Parsed::Value {
                value: ExprView::Call { callee: Box::new(callee), arguments: value, paren: t[next] },
                next: after,
            },
            other => stop(other, pos),
        },
        other => stop(other, pos),
    }
}

/// `parse_finish_call` is its rule, applied once.
pub proof fn lemma_parse_finish_call(t: Seq<Token>, pos: int, callee: ExprView)
    ensures
        parse_finish_call(t, pos, callee) == finish_call_rule(t, pos, callee),
{
    reveal(parse_finish_call);
}

/// unary: `!` or `-` before a unary, or a call.
#[verifier::opaque]
pub open spec fn parse_unary(t: Seq<Token>, pos: int) -> Parsed<ExprView>
    decreases t.len() - pos, 3int, 1int,
{
    unary_rule(t, pos)
}

/// One step of `parse_unary`: what stands at `pos`, given what the grammar finds further on.
pub open spec fn unary_rule(t: Seq<Token>, pos: int) -> Parsed<ExprView>
    decreases t.len() - pos, 3int, 0int,
{
    if check(t, pos, TokenKind::Bang) || check(t, pos, TokenKind::Minus) {
        match parse_unary(t, pos + 1) {
            Parsed::Value { value, next } => Parsed::Value {
                value: ExprView::Unary { operator: t[pos], operand: Box::new(value) },
                next,
            },
            other => stop(other, pos),
        }
    } else {
        parse_call(t, pos)
    }
}

/// `parse_unary` is its rule, applied once.
pub proof fn lemma_parse_unary(t: Seq<Token>, pos: int)
    ensures
        parse_unary(t, pos) == unary_rule(t, pos),
{
    reveal(parse_unary);
}

/// The levels of binary expressions that are told apart by their operators.
#[derive(Clone, Copy, Debug)]
pub enum Level {
    Factor,
    Term,
    Comparison,
    Equality,
}

/// Whether `kind` is an operator of `level`.
pub open spec fn is_operator(level: Level, kind: TokenKind) -> bool {
    match level {
        Level::Factor => kind == TokenKind::Slash || kind == TokenKind::Star,
        Level::Term => kind == TokenKind::Minus || kind == TokenKind::Plus,
        Level::Comparison => kind == TokenKind::Greater || kind == TokenKind::GreaterEqual || kind
            == TokenKind::Less || kind == TokenKind::LessEqual,
        Level::Equality => kind == TokenKind::BangEqual || kind == TokenKind::EqualEqual,
    }
}

/// What follows the left operand of a factor: `*` or `/` and a factor, repeated.
#[verifier::opaque]
pub open spec fn parse_factor_rest(t: Seq<Token>, pos: int, left: ExprView) -> Parsed<ExprView>
    decreases t.len() - pos, 4int, 1int,
{
    factor_rest_rule(t, pos, left)
}

/// One step of `parse_factor_rest`: what stands at `pos`, given what the grammar finds further on.
pub open spec fn factor_rest_rule(t: Seq<Token>, pos: int, left: ExprView) -> Parsed<ExprView>
    decreases t.len() - pos, 4int, 0int,
{
    if 0 <= pos < t.len() && is_operator(Level::Factor, t[pos].kind) {
        match parse_factor(t, pos + 1) {
            Parsed::Value { value, next } if pos < next <= t.len() => parse_factor_rest(
                t,
                next,
                ExprView::Binary { left: Box::new(left), operator: t[pos], right: Box::new(value) },
            ),
            other => stop(other, pos),
        }
    } else {
        Parsed::Value { value: left, next: pos }
    }
}

/// `parse_factor_rest` is its rule, applied once.
pub proof fn lemma_parse_factor_rest(t: Seq<Token>, pos: int, left: ExprView)
    ensures
        parse_factor_rest(t, pos, left) == factor_rest_rule(t, pos, left),
{
    reveal(parse_factor_rest);
}

/// factor: unaries joined by `*` and `/`; the right operand is itself a factor.
#[verifier::opaque]
pub open spec fn parse_factor(t: Seq<Token>, pos: int) -> Parsed<ExprView>
    decreases t.len() - pos, 5int, 1int,
{
    factor_rule(t, pos)
}

/// One step of `parse_factor`: what stands at `pos`, given what the grammar finds further on.
pub open spec fn factor_rule(t: Seq<Token>, pos: int) -> Parsed<ExprView>
    decreases t.len() - pos, 5int, 0int,
{
    match parse_unary(t, pos) {
        Parsed::Value { value, next } if pos <= next <= t.len() => parse_factor_rest(t, next, value),
        other => stop(other, pos),
    }
}

/// `parse_factor` is its rule, applied once.
pub proof fn lemma_parse_factor(t: Seq<Token>, pos: int)
    ensures
        parse_factor(t, pos) == factor_rule(t, pos),
{
    reveal(parse_factor);
}

/// What follows the left operand of a term: `+` or `-` and a factor, repeated.
#[verifier::opaque]
pub open spec fn parse_term_rest(t: Seq<Token>, pos: int, left: ExprView) -> Parsed<ExprView>
    decreases t.len() - pos, 6int, 1int,
{
    term_rest_rule(t, pos, left)
}

/// One step of `parse_term_rest`: what stands at `pos`, given what the grammar finds further on.
pub open spec fn term_rest_rule(t: Seq<Token>, pos: int, left: ExprView) -> Parsed<ExprView>
    decreases t.len() - pos, 6int, 0int,
{
    if 0 <= pos < t.len() && is_operator(Level::Term, t[pos].kind) {
        match parse_factor(t, pos + 1) {
            Parsed::Value { value, next } if pos < next <= t.len() => parse_term_rest(
                t,
                next,
                ExprView::Binary { left: Box::new(left), operator: t[pos], right: Box::new(value) },
            ),
            other => stop(other, pos),
        }
    } else {
        Parsed::Value { value: left, next: pos }
    }
}

/// `parse_term_rest` is its rule, applied once.
pub proof fn lemma_parse_term_rest(t: Seq<Token>, pos: int, left: ExprView)
    ensures
        parse_term_rest(t, pos, left) == term_rest_rule(t, pos, left),
{
    reveal(parse_term_rest);
}

/// term: factors joined by `+` and `-`, grouped from the left.
#[verifier::opaque]
pub open spec fn parse_term(t: Seq<Token>, pos: int) -> Parsed<ExprView>
    decreases t.len() - pos, 7int, 1int,
{
    term_rule(t, pos)
}

/// One step of `parse_term`: what stands at `pos`, given what the grammar finds further on.
pub open spec fn term_rule(t: Seq<Token>, pos: int) -> Parsed<ExprView>
    decreases t.len() - pos, 7int, 0int,
{
    match parse_factor(t, pos) {
        Parsed::Value { value, next } if pos <= next <= t.len() => parse_term_rest(t, next, value),
        other => stop(other, pos),
    }
}

/// `parse_term` is its rule, applied once.
pub proof fn lemma_parse_term(t: Seq<Token>, pos: int)
    ensures
        parse_term(t, pos) == term_rule(t, pos),
{
    reveal(parse_term);
}

/// What follows the left operand of a comparison: an operator and a comparison, repeated.
#[verifier::opaque]
pub open spec fn parse_comparison_rest(t: Seq<Token>, pos: int, left: ExprView) -> Parsed<ExprView>
    decreases t.len() - pos, 8int, 1int,
{
    comparison_rest_rule(t, pos, left)
}

/// One step of `parse_comparison_rest`: what stands at `pos`, given what the grammar finds further on.
pub open spec fn comparison_rest_rule(t: Seq<Token>, pos: int, left: ExprView) -> Parsed<ExprView>
    decreases t.len() - pos, 8int, 0int,
{
    if 0 <= pos < t.len() && is_operator(Level::Comparison, t[pos].kind) {
        match parse_comparison(t, pos + 1) {
            Parsed::Value { value, next } if pos < next <= t.len() => parse_comparison_rest(
                t,
                next,
                ExprView::Binary { left: Box::new(left), operator: t[pos], right: Box::new(value) },
            ),
            other => stop(other, pos),
        }
    } else {
        Parsed::Value { value: left, next: pos }
    }
}

/// `parse_comparison_rest` is its rule, applied once.
pub proof fn lemma_parse_comparison_rest(t: Seq<Token>, pos: int, left: ExprView)
    ensures
        parse_comparison_rest(t, pos, left) == comparison_rest_rule(t, pos, left),
{
    reveal(parse_comparison_rest);
}

/// comparison: terms joined by `<`, `<=`, `>`, `>=`; the right operand is itself a comparison.
#[verifier::opaque]
pub open spec fn parse_comparison(t: Seq<Token>, pos: int) -> Parsed<ExprView>
    decreases t.len() - pos, 9int, 1int,
{
    comparison_rule(t, pos)
}

/// One step of `parse_comparison`: what stands at `pos`, given what the grammar finds further on.
pub open spec fn comparison_rule(t: Seq<Token>, pos: int) -> Parsed<ExprView>
    decreases t.len() - pos, 9int, 0int,
{
    match parse_term(t, pos) {
        Parsed::Value { value, next } if pos <= next <= t.len() => parse_comparison_rest(
            t,
            next,
            value,
        ),
        other => stop(other, pos),
    }
}

/// `parse_comparison` is its rule, applied once.
pub proof fn lemma_parse_comparison(t: Seq<Token>, pos: int)
    ensures
        parse_comparison(t, pos) == comparison_rule(t, pos),
{
    reveal(parse_comparison);
}

/// What follows the left operand of an equality: `==` or `!=` and a comparison, repeated.
#[verifier::opaque]
pub open spec fn parse_equality_rest(t: Seq<Token>, pos: int, left: ExprView) -> Parsed<ExprView>
    decreases t.len() - pos, 10int, 1int,
{
    equality_rest_rule(t, pos, left)
}

/// One step of `parse_equality_rest`: what stands at `pos`, given what the grammar finds further on.
pub open spec fn equality_rest_rule(t: Seq<Token>, pos: int, left: ExprView) -> Parsed<ExprView>
    decreases t.len() - pos, 10int, 0int,
{
    if 0 <= pos < t.len() && is_operator(Level::Equality, t[pos].kind) {
        match parse_comparison(t, pos + 1) {
            Parsed::Value { value, next } if pos < next <= t.len() => parse_equality_rest(
                t,
                next,
                ExprView::Binary { left: Box::new(left), operator: t[pos], right: Box::new(value) },
            ),
            other => stop(other, pos),
        }
    } else {
        Parsed::Value { value: left, next: pos }
    }
}

/// `parse_equality_rest` is its rule, applied once.
pub proof fn lemma_parse_equality_rest(t: Seq<Token>, pos: int, left: ExprView)
    ensures
        parse_equality_rest(t, pos, left) == equality_rest_rule(t, pos, left),
{
    reveal(parse_equality_rest);
}

/// equality: comparisons joined by `==` and `!=`, grouped from the left.
#[verifier::opaque]
pub open spec fn parse_equality(t: Seq<Token>, pos: int) -> Parsed<ExprView>
    decreases t.len() - pos, 11int, 1int,
{
    equality_rule(t, pos)
}

/// One step of `parse_equality`: what stands at `pos`, given what the grammar finds further on.
pub open spec fn equality_rule(t: Seq<Token>, pos: int) -> Parsed<ExprView>
    decreases t.len() - pos, 11int, 0int,
{
    match parse_comparison(t, pos) {
        Parsed::Value { value, next } if pos <= next <= t.len() => parse_equality_rest(t, next, value),
        other => stop(other, pos),
    }
}

/// `parse_equality` is its rule, applied once.
pub proof fn lemma_parse_equality(t: Seq<Token>, pos: int)
    ensures
        parse_equality(t, pos) == equality_rule(t, pos),
{
    reveal(parse_equality);
}

/// What follows the left operand of an `and`: `and` and an `and`-expression, repeated.
#[verifier::opaque]
pub open spec fn parse_and_rest(t: Seq<Token>, pos: int, left: ExprView) -> Parsed<ExprView>
    decreases t.len() - pos, 12int, 1int,
{
    and_rest_rule(t, pos, left)
}

/// One step of `parse_and_rest`: what stands at `pos`, given what the grammar finds further on.
pub open spec fn and_rest_rule(t: Seq<Token>, pos: int, left: ExprView) -> Parsed<ExprView>
    decreases t.len() - pos, 12int, 0int,
{
    if check(t, pos, TokenKind::And) {
        match parse_and(t, pos + 1) {
            Parsed::Value { value, next } if pos < next <= t.len() => parse_and_rest(
                t,
                next,
                ExprView::Logical { left: Box::new(left), operator: t[pos], right: Box::new(value) },
            ),
            other => stop(other, pos),
        }
    } else {
        Parsed::Value { value: left, next: pos }
    }
}

/// `parse_and_rest` is its rule, applied once.
pub proof fn lemma_parse_and_rest(t: Seq<Token>, pos: int, left: ExprView)
    ensures
        parse_and_rest(t, pos, left) == and_rest_rule(t, pos, left),
{
    reveal(parse_and_rest);
}

/// and: equalities joined by `and`.
#[verifier::opaque]
pub open spec fn parse_and(t: Seq<Token>, pos: int) -> Parsed<ExprView>
    decreases t.len() - pos, 13int, 1int,
{
    and_rule(t, pos)
}

/// One step of `parse_and`: what stands at `pos`, given what the grammar finds further on.
pub open spec fn and_rule(t: Seq<Token>, pos: int) -> Parsed<ExprView>
    decreases t.len() - pos, 13int, 0int,
{
    match parse_equality(t, pos) {
        Parsed::Value { value, next } if pos <= next <= t.len() => parse_and_rest(t, next, value),
        other => stop(other, pos),
    }
}

/// `parse_and` is its rule, applied once.
pub proof fn lemma_parse_and(t: Seq<Token>, pos: int)
    ensures
        parse_and(t, pos) == and_rule(t, pos),
{
    reveal(parse_and);
}

/// What follows the left operand of an `or`: `or` and an `and`-expression, repeated.
#[verifier::opaque]
pub open spec fn parse_or_rest(t: Seq<Token>, pos: int, left: ExprView) -> Parsed<ExprView>
    decreases t.len() - pos, 14int, 1int,
{
    or_rest_rule(t, pos, left)
}

/// One step of `parse_or_rest`: what stands at `pos`, given what the grammar finds further on.
pub open spec fn or_rest_rule(t: Seq<Token>, pos: int, left: ExprView) -> Parsed<ExprView>
    decreases t.len() - pos, 14int, 0int,
{
    if check(t, pos, TokenKind::Or) {
        match parse_and(t, pos + 1) {
            Parsed::Value { value, next } if pos < next <= t.len() => parse_or_rest(
                t,
                next,
                ExprView::Logical { left: Box::new(left), operator: t[pos], right: Box::new(value) },
            ),
            other => stop(other, pos),
        }
    } else {
        Parsed::Value { value: left, next: pos }
    }
}

/// `parse_or_rest` is its rule, applied once.
pub proof fn lemma_parse_or_rest(t: Seq<Token>, pos: int, left: ExprView)
    ensures
        parse_or_rest(t, pos, left) == or_rest_rule(t, pos, left),
{
    reveal(parse_or_rest);
}

/// or: `and`-expressions joined by `or`, grouped from the left.
#[verifier::opaque]
pub open spec fn parse_or(t: Seq<Token>, pos: int) -> Parsed<ExprView>
    decreases t.len() - pos, 15int, 1int,
{
    or_rule(t, pos)
}

/// One step of `parse_or`: what stands at `pos`, given what the grammar finds further on.
pub open spec fn or_rule(t: Seq<Token>, pos: int) -> Parsed<ExprView>
    decreases t.len() - pos, 15int, 0int,
{
    match parse_and(t, pos) {
        Parsed::Value { value, next } if pos <= next <= t.len() => parse_or_rest(t, next, value),
        other => stop(other, pos),
    }
}

/// `parse_or` is its rule, applied once.
pub proof fn lemma_parse_or(t: Seq<Token>, pos: int)
    ensures
        parse_or(t, pos) == or_rule(t, pos),
{
    reveal(parse_or);
}

/// assignment: an `or`-expression, or a variable, `=` and an assignment.
#[verifier::opaque]
pub open spec fn parse_assignment(t: Seq<Token>, pos: int) -> Parsed<ExprView>
    decreases t.len() - pos, 16int, 1int,
{
    assignment_rule(t, pos)
}

/// One step of `parse_assignment`: what stands at `pos`, given what the grammar finds further on.
pub open spec fn assignment_rule(t: Seq<Token>, pos: int) -> Parsed<ExprView>
    decreases t.len() - pos, 16int, 0int,
{
    match parse_or(t, pos) {
        Parsed::Value { value, next } if pos <= next <= t.len() => if check(
            t,
            next,
            TokenKind::Equal,
        ) {
            match parse_assignment(t, next + 1) {
                Parsed::Value { value: rvalue, next: after } if next < after <= t.len() => match value {
                    ExprView::Variable { name, .. } => Parsed::Value {
                        value: ExprView::Assign { name, depth: None, value: Box::new(rvalue) },
                        next: after,
                    },
                    _ => fail(t, after, "Parse error: Invalid assignment target."@),
                },
                other => stop(other, pos),
            }
        } else {
            Parsed::Value { value, next }
        },
        other => stop(other, pos),
    }
}

/// `parse_assignment` is its rule, applied once.
pub proof fn lemma_parse_assignment(t: Seq<Token>, pos: int)
    ensures
        parse_assignment(t, pos) == assignment_rule(t, pos),
{
    reveal(parse_assignment);
}

/// expression: an assignment.
#[verifier::opaque]
pub open spec fn parse_expression(t: Seq<Token>, pos: int) -> Parsed<ExprView>
    decreases t.len() - pos, 17int, 1int,
{
    expression_rule(t, pos)
}

/// One step of `parse_expression`: what stands at `pos`, given what the grammar finds further on.
pub open spec fn expression_rule(t: Seq<Token>, pos: int) -> Parsed<ExprView>
    decreases t.len() - pos, 17int, 0int,
{
    parse_assignment(t, pos)
}

/// `parse_expression` is its rule, applied once.
pub proof fn lemma_parse_expression(t: Seq<Token>, pos: int)
    ensures
        parse_expression(t, pos) == expression_rule(t, pos),
{
    reveal(parse_expression);
}

/// An expression and the semicolon after it.
#[verifier::opaque]
pub open spec fn parse_expr_statement(t: Seq<Token>, pos: int) -> Parsed<ExprView>
    decreases t.len() - pos, 20int, 1int,
{
    expr_statement_rule(t, pos)
}

/// One step of `parse_expr_statement`: what stands at `pos`, given what the grammar finds further on.
pub open spec fn expr_statement_rule(t: Seq<Token>, pos: int) -> Parsed<ExprView>
    decreases t.len() - pos, 20int, 0int,
{
    match parse_expression(t, pos) {
        Parsed::Value { value, next } if pos <= next <= t.len() => match consume_semicolon(t, next) {
            Parsed::Value { next: after, .. } => Parsed::Value { value, next: after },
            other => stop(other, pos),
        },
        other => stop(other, pos),
    }
}

/// `parse_expr_statement` is its rule, applied once.
pub proof fn lemma_parse_expr_statement(t: Seq<Token>, pos: int)
    ensures
        parse_expr_statement(t, pos) == expr_statement_rule(t, pos),
{
    reveal(parse_expr_statement);
}

/// The rest of a `print` statement.
#[verifier::opaque]
pub open spec fn parse_print_statement(t: Seq<Token>, pos: int) -> Parsed<StatementView>
    decreases t.len() - pos, 20int, 1int,
{
    print_statement_rule(t, pos)
}

/// One step of `parse_print_statement`: what stands at `pos`, given what the grammar finds further on.
pub open spec fn print_statement_rule(t: Seq<Token>, pos: int) -> Parsed<StatementView>
    decreases t.len() - pos, 20int, 0int,
{
    match parse_expr_statement(t, pos) {
        Parsed::Value { value, next } => Parsed::Value { value: StatementView::Print(value), next },
        other => stop(other, pos),
    }
}

/// `parse_print_statement` is its rule, applied once.
pub proof fn lemma_parse_print_statement(t: Seq<Token>, pos: int)
    ensures
        parse_print_statement(t, pos) == print_statement_rule(t, pos),
{
    reveal(parse_print_statement);
}

/// The rest of a `return` statement: an optional expression and a semicolon.
#[verifier::opaque]
pub open spec fn parse_return_statement(t: Seq<Token>, pos: int) -> Parsed<StatementView>
    decreases t.len() - pos, 20int, 1int,
{
    return_statement_rule(t, pos)
}

/// One step of `parse_return_statement`: what stands at `pos`, given what the grammar finds further on.
pub open spec fn return_statement_rule(t: Seq<Token>, pos: int) -> Parsed<StatementView>
    decreases t.len() - pos, 20int, 0int,
{
    let value = if check(t, pos, TokenKind::Semicolon) {
        Parsed::Value { value: None, next: pos }
    } else {
        match parse_expression(t, pos) {
            Parsed::Value { value, next } => Parsed::Value { value: Some(value), next },
            other => stop(other, pos),
        }
    };
    match value {
        Parsed::Value { value, next } if pos <= next <= t.len() => match consume(
            t,
            next,
            TokenKind::Semicolon,
            "Parse error: Expected semicolon after 'return'"@,
        ) {
            Parsed::Value { next: after, .. } => Parsed::Value {
                value: StatementView::Return(value),
                next: after,
            },
            other => stop(other, pos),
        },
        other => stop(other, pos),
    }
}

/// `parse_return_statement` is its rule, applied once.
pub proof fn lemma_parse_return_statement(t: Seq<Token>, pos: int)
    ensures
        parse_return_statement(t, pos) == return_statement_rule(t, pos),
{
    reveal(parse_return_statement);
}

/// The rest of a `var` declaration: the name, an optional initializer and a semicolon.
#[verifier::opaque]
pub open spec fn parse_var_declaration(t: Seq<Token>, pos: int) -> Parsed<VarDeclarationView>
    decreases t.len() - pos, 20int, 1int,
{
    var_declaration_rule(t, pos)
}

/// One step of `parse_var_declaration`: what stands at `pos`, given what the grammar finds further on.
pub open spec fn var_declaration_rule(t: Seq<Token>, pos: int) -> Parsed<VarDeclarationView>
    decreases t.len() - pos, 20int, 0int,
{
    match consume(t, pos, TokenKind::Identifier, "Parse error: Expected variable name."@) {
        Parsed::Value { .. } => {
            let initializer = if check(t, pos + 1, TokenKind::Equal) {
                match parse_expression(t, pos + 2) {
                    Parsed::Value { value, next } => Parsed::Value { value: Some(value), next },
                    other => stop(other, pos),
                }
            } else {
                Parsed::Value { value: None, next: pos + 1 }
            };
            match initializer {
                Parsed::Value { value, next } if pos < next <= t.len() => match consume_semicolon(
                    t,
                    next,
                ) {
                    Parsed::Value { next: after, .. } => Parsed::Value {
                        value: VarDeclarationView { name: t[pos], initializer: value },
                        next: after,
                    },
                    other => stop(other, pos),
                },
                other => stop(other, pos),
            }
        },
        other => stop(other, pos),
    }
}

/// `parse_var_declaration` is its rule, applied once.
pub proof fn lemma_parse_var_declaration(t: Seq<Token>, pos: int)
    ensures
        parse_var_declaration(t, pos) == var_declaration_rule(t, pos),
{
    reveal(parse_var_declaration);
}

/// statement: `print`, a block, `if`, `while`, `for`, `return`, or an expression statement.
#[verifier::opaque]
pub open spec fn parse_statement(t: Seq<Token>, pos: int) -> Parsed<StatementView>
    decreases t.len() - pos, 21int, 1int,
{
    statement_rule(t, pos)
}

/// One step of `parse_statement`: what stands at `pos`, given what the grammar finds further on.
pub open spec fn statement_rule(t: Seq<Token>, pos: int) -> Parsed<StatementView>
    decreases t.len() - pos, 21int, 0int,
{
    if check(t, pos, TokenKind::Print) {
        parse_print_statement(t, pos + 1)
    } else if check(t, pos, TokenKind::LeftBrace) {
        match parse_block(t, pos + 1, Seq::empty()) {
            Parsed::Value { value, next } => Parsed::Value { value: StatementView::Block(value), next },
            other => stop(other, pos),
        }
    } else if check(t, pos, TokenKind::If) {
        parse_if_statement(t, pos + 1)
    } else if check(t, pos, TokenKind::While) {
        parse_while_statement(t, pos + 1)
    } else if check(t, pos, TokenKind::For) {
        parse_for_statement(t, pos + 1)
    } else if check(t, pos, TokenKind::Return) {
        parse_return_statement(t, pos + 1)
    } else {
        match parse_expr_statement(t, pos) {
            Parsed::Value { value, next } => Parsed::Value {
                value: StatementView::ExprStatement(value),
                next,
            },
            other => stop(other, pos),
        }
    }
}

/// `parse_statement` is its rule, applied once.
pub proof fn lemma_parse_statement(t: Seq<Token>, pos: int)
    ensures
        parse_statement(t, pos) == statement_rule(t, pos),
{
    reveal(parse_statement);
}

/// The rest of an `if` statement: the condition, the statement, and an optional `else`.
#[verifier::opaque]
pub open spec fn parse_if_statement(t: Seq<Token>, pos: int) -> Parsed<StatementView>
    decreases t.len() - pos, 22int, 1int,
{
    if_statement_rule(t, pos)
}

/// One step of `parse_if_statement`: what stands at `pos`, given what the grammar finds further on.
pub open spec fn if_statement_rule(t: Seq<Token>, pos: int) -> Parsed<StatementView>
    decreases t.len() - pos, 22int, 0int,
{
    match parse_equality(t, pos) {
        Parsed::Value { value: cond, next } if pos <= next <= t.len() => match parse_statement(
            t,
            next,
        ) {
            Parsed::Value { value: true_branch, next: after } if next <= after <= t.len() => if check(
                t,
                after,
                TokenKind::Else,
            ) {
                match parse_statement(t, after + 1) {
                    Parsed::Value { value: else_branch, next: end } => Parsed::Value {
                        value: StatementView::If {
                            cond,
                            true_branch: Box::new(true_branch),
                            else_branch: Some(Box::new(else_branch)),
                        },
                        next: end,
                    },
                    other => stop(other, pos),
                }
            } else {
                Parsed::Value {
                    value: StatementView::If {
                        cond,
                        true_branch: Box::new(true_branch),
                        else_branch: None,
                    },
                    next: after,
                }
            },
            other => stop(other, pos),
        },
        other => stop(other, pos),
    }
}

/// `parse_if_statement` is its rule, applied once.
pub proof fn lemma_parse_if_statement(t: Seq<Token>, pos: int)
    ensures
        parse_if_statement(t, pos) == if_statement_rule(t, pos),
{
    reveal(parse_if_statement);
}

/// The rest of a `while` statement: the condition in parentheses and the body.
#[verifier::opaque]
pub open spec fn parse_while_statement(t: Seq<Token>, pos: int) -> Parsed<StatementView>
    decreases t.len() - pos, 22int, 1int,
{
    while_statement_rule(t, pos)
}

/// One step of `parse_while_statement`: what stands at `pos`, given what the grammar finds further on.
pub open spec fn while_statement_rule(t: Seq<Token>, pos: int) -> Parsed<StatementView>
    decreases t.len() - pos, 22int, 0int,
{
    match consume(t, pos, TokenKind::LeftParen, "Parse error: Expected '(' following 'while'"@) {
        Parsed::Value { .. } => match parse_equality(t, pos + 1) {
            Parsed::Value { value: cond, next } if pos < next <= t.len() => match consume(
                t,
                next,
                TokenKind::RightParen,
                "Parse error: Expected ')' following condition"@,
            ) {
                Parsed::Value { .. } => match parse_statement(t, next + 1) {
                    Parsed::Value { value: body, next: after } => Parsed::Value {
                        value: StatementView::While { cond, body: Box::new(body) },
                        next: after,
                    },
                    other => stop(other, pos),
                },
                other => stop(other, pos),
            },
            other => stop(other, pos),
        },
        other => stop(other, pos),
    }
}

/// `parse_while_statement` is its rule, applied once.
pub proof fn lemma_parse_while_statement(t: Seq<Token>, pos: int)
    ensures
        parse_while_statement(t, pos) == while_statement_rule(t, pos),
{
    reveal(parse_while_statement);
}

/// The first clause of a `for` header: nothing, a `var` declaration or an
/// expression, each ended by its semicolon.
#[verifier::opaque]
pub open spec fn parse_for_initializer(t: Seq<Token>, pos: int) -> Parsed<Option<InitializerView>>
    decreases t.len() - pos, 21int, 1int,
{
    for_initializer_rule(t, pos)
}

/// One step of `parse_for_initializer`: what stands at `pos`, given what the grammar finds further on.
pub open spec fn for_initializer_rule(t: Seq<Token>, pos: int) -> Parsed<Option<InitializerView>>
    decreases t.len() - pos, 21int, 0int,
{
    if check(t, pos, TokenKind::Semicolon) {
        Parsed::Value { value: None, next: pos + 1 }
    } else if check(t, pos, TokenKind::Var) {
        match parse_var_declaration(t, pos + 1) {
            Parsed::Value { value, next } => Parsed::Value {
                value: Some(InitializerView::VarDeclaration(value)),
                next,
            },
            other => stop(other, pos),
        }
    } else {
        match parse_expr_statement(t, pos) {
            Parsed::Value { value, next } => Parsed::Value {
                value: Some(InitializerView::Expr(value)),
                next,
            },
            other => stop(other, pos),
        }
    }
}

/// `parse_for_initializer` is its rule, applied once.
pub proof fn lemma_parse_for_initializer(t: Seq<Token>, pos: int)
    ensures
        parse_for_initializer(t, pos) == for_initializer_rule(t, pos),
{
    reveal(parse_for_initializer);
}

/// An expression, unless a token of kind `end` stands at `pos`.
#[verifier::opaque]
pub open spec fn parse_unless(t: Seq<Token>, pos: int, end: TokenKind) -> Parsed<Option<ExprView>>
    decreases t.len() - pos, 18int, 1int,
{
    unless_rule(t, pos, end)
}

/// One step of `parse_unless`: what stands at `pos`, given what the grammar finds further on.
pub open spec fn unless_rule(t: Seq<Token>, pos: int, end: TokenKind) -> Parsed<Option<ExprView>>
    decreases t.len() - pos, 18int, 0int,
{
    if check(t, pos, end) {
        Parsed::Value { value: None, next: pos }
    } else {
        match parse_expression(t, pos) {
            Parsed::Value { value, next } => Parsed::Value { value: Some(value), next },
            other => stop(other, pos),
        }
    }
}

/// `parse_unless` is its rule, applied once.
pub proof fn lemma_parse_unless(t: Seq<Token>, pos: int, end: TokenKind)
    ensures
        parse_unless(t, pos, end) == unless_rule(t, pos, end),
{
    reveal(parse_unless);
}

/// The rest of a `for` statement: `(`, the three clauses, `)` and the body.
#[verifier::opaque]
pub open spec fn parse_for_statement(t: Seq<Token>, pos: int) -> Parsed<StatementView>
    decreases t.len() - pos, 22int, 1int,
{
    for_statement_rule(t, pos)
}

/// One step of `parse_for_statement`: what stands at `pos`, given what the grammar finds further on.
pub open spec fn for_statement_rule(t: Seq<Token>, pos: int) -> Parsed<StatementView>
    decreases t.len() - pos, 22int, 0int,
{
    match consume(t, pos, TokenKind::LeftParen, "Parse error: Expected '(' following 'for'"@) {
        Parsed::Value { .. } => match parse_for_initializer(t, pos + 1) {
            Parsed::Value { value: initializer, next: first } if pos < first <= t.len() => match parse_unless(
                t,
                first,
                TokenKind::Semicolon,
            ) {
                Parsed::Value { value: cond, next: second } if pos < second <= t.len() => match consume_semicolon(
                    t,
                    second,
                ) {
                    Parsed::Value { .. } => match parse_unless(t, second + 1, TokenKind::RightParen) {
                        Parsed::Value { value: increment, next: third } if pos < third <= t.len() => match consume(
                            t,
                            third,
                            TokenKind::RightParen,
                            "Parse error: Expected ')' following condition"@,
                        ) {
                            Parsed::Value { .. } => match parse_statement(t, third + 1) {
                                Parsed::Value { value: body, next: after } => Parsed::Value {
                                    value: StatementView::For {
                                        initializer,
                                        cond,
                                        increment,
                                        body: Box::new(body),
                                    },
                                    next: after,
                                },
                                other => stop(other, pos),
                            },
                            other => stop(other, pos),
                        },
                        other => stop(other, pos),
                    },
                    other => stop(other, pos),
                },
                other => stop(other, pos),
            },
            other => stop(other, pos),
        },
        other => stop(other, pos),
    }
}

/// `parse_for_statement` is its rule, applied once.
pub proof fn lemma_parse_for_statement(t: Seq<Token>, pos: int)
    ensures
        parse_for_statement(t, pos) == for_statement_rule(t, pos),
{
    reveal(parse_for_statement);
}

/// The declarations of a block from `pos` on, after those in `seen`, up to
/// and with the closing brace.
#[verifier::opaque]
pub open spec fn parse_block(t: Seq<Token>, pos: int, seen: Seq<DeclarationView>) -> Parsed<
    Seq<DeclarationView>,
>
    decreases t.len() - pos, 24int, 1int,
{
    block_rule(t, pos, seen)
}

/// One step of `parse_block`: what stands at `pos`, given what the grammar finds further on.
pub open spec fn block_rule(t: Seq<Token>, pos: int, seen: Seq<DeclarationView>) -> Parsed<
    Seq<DeclarationView>,
>
    decreases t.len() - pos, 24int, 0int,
{
    if check(t, pos, TokenKind::RightBrace) {
        Parsed::Value { value: seen, next: pos + 1 }
    } else {
        match parse_declaration(t, pos) {
            Parsed::Value { value, next } if pos < next <= t.len() => parse_block(
                t,
                next,
                seen.push(value),
            ),
            other => stop(other, pos),
        }
    }
}

/// `parse_block` is its rule, applied once.
pub proof fn lemma_parse_block(t: Seq<Token>, pos: int, seen: Seq<DeclarationView>)
    ensures
        parse_block(t, pos, seen) == block_rule(t, pos, seen),
{
    reveal(parse_block);
}

pub open spec fn name_message(what: Callable) -> Seq<char> {
    match what {
        Callable::Function => "Parse error: Expected function name."@,
        Callable::Method => "Parse error: Expected method name."@,
    }
}

pub open spec fn paren_message(what: Callable) -> Seq<char> {
    match what {
        Callable::Function => "Parse error: Expect '(' after function name."@,
        Callable::Method => "Parse error: Expect '(' after method name."@,
    }
}

pub open spec fn body_message(what: Callable) -> Seq<char> {
    match what {
        Callable::Function => "Parse error: Expected '{' before function body"@,
        Callable::Method => "Parse error: Expected '{' before method body"@,
    }
}

/// The parameters of a function from `pos` on, after those in `seen`: names
/// separated by commas, 255 at most.
pub open spec fn parse_parameters(t: Seq<Token>, pos: int, seen: Seq<Token>) -> Parsed<Seq<Token>>
    decreases t.len() - pos,
{
    match consume(t, pos, TokenKind::Identifier, "Parse error: Expected parameter name."@) {
        Parsed::Value { .. } => if seen.len() >= 255 {
            fail(t, pos + 1, "Parse error: Can't have more than 255 parameters"@)
        } else if check(t, pos + 1, TokenKind::Comma) {
            parse_parameters(t, pos + 2, seen.push(t[pos]))
        } else {
            Parsed::Value { value: seen.push(t[pos]), next: pos + 1 }
        },
        other => stop(other, pos),
    }
}

/// A function or method from its name on: name, parameters in parentheses, body in braces.
#[verifier::opaque]
pub open spec fn parse_function(t: Seq<Token>, pos: int, what: Callable) -> Parsed<FunctionView>
    decreases t.len() - pos, 25int, 1int,
{
    function_rule(t, pos, what)
}

/// One step of `parse_function`: what stands at `pos`, given what the grammar finds further on.
pub open spec fn function_rule(t: Seq<Token>, pos: int, what: Callable) -> Parsed<FunctionView>
    decreases t.len() - pos, 25int, 0int,
{
    match consume(t, pos, TokenKind::Identifier, name_message(what)) {
        Parsed::Value { .. } => match consume(t, pos + 1, TokenKind::LeftParen, paren_message(what)) {
            Parsed::Value { .. } => {
                let parameters = if check(t, pos + 2, TokenKind::RightParen) {
                    Parsed::Value { value: Seq::empty(), next: pos + 2 }
                } else {
                    parse_parameters(t, pos + 2, Seq::empty())
                };
                match parameters {
                    Parsed::Value { value: params, next: first } if pos < first <= t.len() => match consume(
                        t,
                        first,
                        TokenKind::RightParen,
                        "Parse error: Expected ')' to follow '('"@,
                    ) {
                        Parsed::Value { .. } => match consume(
                            t,
                            first + 1,
                            TokenKind::LeftBrace,
                            body_message(what),
                        ) {
                            Parsed::Value { .. } => match parse_block(t, first + 2, Seq::empty()) {
                                Parsed::Value { value: body, next } => Parsed::Value {
                                    value: FunctionView { name: t[pos], params, body },
                                    next,
                                },
                                other => stop(other, pos),
                            },
                            other => stop(other, pos),
                        },
                        other => stop(other, pos),
                    },
                    other => stop(other, pos),
                }
            },
            other => stop(other, pos),
        },
        other => stop(other, pos),
    }
}

/// `parse_function` is its rule, applied once.
pub proof fn lemma_parse_function(t: Seq<Token>, pos: int, what: Callable)
    ensures
        parse_function(t, pos, what) == function_rule(t, pos, what),
{
    reveal(parse_function);
}

/// The index of the first method in `methods` at or after `from` that is named `name`.
pub open spec fn method_index(methods: Seq<FunctionView>, name: Seq<char>, from: int) -> Option<int>
    decreases methods.len() - from,
{
    if from < 0 || from >= methods.len() {
        None
    } else if methods[from].name.content@ == name {
        Some(from)
    } else {
        method_index(methods, name, from + 1)
    }
}

/// `methods` with `method` added: in the place of the method of that name, or at the end.
pub open spec fn with_method(methods: Seq<FunctionView>, method: FunctionView) -> Seq<FunctionView> {
    match method_index(methods, method.name.content@, 0) {
        Some(i) => methods.update(i, method),
        None => methods.push(method),
    }
}

/// The methods of a class from `pos` on, after those in `seen`, up to the
/// closing brace or the end of the tokens.
#[verifier::opaque]
pub open spec fn parse_methods(t: Seq<Token>, pos: int, seen: Seq<FunctionView>) -> Parsed<
    Seq<FunctionView>,
>
    decreases t.len() - pos, 26int, 1int,
{
    methods_rule(t, pos, seen)
}

/// One step of `parse_methods`: what stands at `pos`, given what the grammar finds further on.
pub open spec fn methods_rule(t: Seq<Token>, pos: int, seen: Seq<FunctionView>) -> Parsed<
    Seq<FunctionView>,
>
    decreases t.len() - pos, 26int, 0int,
{
    if pos >= t.len() || check(t, pos, TokenKind::RightBrace) {
        Parsed::Value { value: seen, next: pos }
    } else {
        match parse_function(t, pos, Callable::Method) {
            Parsed::Value { value, next } if pos < next <= t.len() => parse_methods(
                t,
                next,
                with_method(seen, value),
            ),
            other => stop(other, pos),
        }
    }
}

/// `parse_methods` is its rule, applied once.
pub proof fn lemma_parse_methods(t: Seq<Token>, pos: int, seen: Seq<FunctionView>)
    ensures
        parse_methods(t, pos, seen) == methods_rule(t, pos, seen),
{
    reveal(parse_methods);
}

/// A class from its name on: name, an optional `< Superclass`, and the methods in braces.
#[verifier::opaque]
pub open spec fn parse_class(t: Seq<Token>, pos: int) -> Parsed<DeclarationView>
    decreases t.len() - pos, 27int, 1int,
{
    class_rule(t, pos)
}

/// One step of `parse_class`: what stands at `pos`, given what the grammar finds further on.
pub open spec fn class_rule(t: Seq<Token>, pos: int) -> Parsed<DeclarationView>
    decreases t.len() - pos, 27int, 0int,
{
    match consume(t, pos, TokenKind::Identifier, "Parse error: Expected class name"@) {
        Parsed::Value { .. } => {
            let superclass = if check(t, pos + 1, TokenKind::Less) {
                match consume(t, pos + 2, TokenKind::Identifier, "Parse error: Expected class name."@) {
                    Parsed::Value { .. } => Parsed::Value {
                        value: Some(ExprView::Variable { name: t[pos + 2], depth: None }),
                        next: pos + 3,
                    },
                    other => stop(other, pos),
                }
            } else {
                Parsed::Value { value: None, next: pos + 1 }
            };
            match superclass {
                Parsed::Value { value: superclass, next: first } => match consume(
                    t,
                    first,
                    TokenKind::LeftBrace,
                    "Parse error: Expected left brace"@,
                ) {
                    Parsed::Value { .. } => match parse_methods(t, first + 1, Seq::empty()) {
                        Parsed::Value { value: methods, next: second } if pos < second <= t.len() => match consume(
                            t,
                            second,
                            TokenKind::RightBrace,
                            "Parse error: Expected right brace."@,
                        ) {
                            Parsed::Value { next: after, .. } => Parsed::Value {
                                value: DeclarationView::Class(
                                    ClassView { name: t[pos], superclass, methods },
                                ),
                                next: after,
                            },
                            other => stop(other, pos),
                        },
                        other => stop(other, pos),
                    },
                    other => stop(other, pos),
                },
                other => stop(other, pos),
            }
        },
        other => stop(other, pos),
    }
}

/// `parse_class` is its rule, applied once.
pub proof fn lemma_parse_class(t: Seq<Token>, pos: int)
    ensures
        parse_class(t, pos) == class_rule(t, pos),
{
    reveal(parse_class);
}

/// declaration: a class, a variable, a function, or a statement.
#[verifier::opaque]
pub open spec fn parse_declaration(t: Seq<Token>, pos: int) -> Parsed<DeclarationView>
    decreases t.len() - pos, 23int, 1int,
{
    declaration_rule(t, pos)
}

/// One step of `parse_declaration`: what stands at `pos`, given what the grammar finds further on.
pub open spec fn declaration_rule(t: Seq<Token>, pos: int) -> Parsed<DeclarationView>
    decreases t.len() - pos, 23int, 0int,
{
    if check(t, pos, TokenKind::Class) {
        parse_class(t, pos + 1)
    } else if check(t, pos, TokenKind::Var) {
        match parse_var_declaration(t, pos + 1) {
            Parsed::Value { value, next } => Parsed::Value {
                value: DeclarationView::VarDeclaration(value),
                next,
            },
            other => stop(other, pos),
        }
    } else if check(t, pos, TokenKind::Fun) {
        match parse_function(t, pos + 1, Callable::Function) {
            Parsed::Value { value, next } => Parsed::Value {
                value: DeclarationView::FunDeclaration(value),
                next,
            },
            other => stop(other, pos),
        }
    } else {
        match parse_statement(t, pos) {
            Parsed::Value { value, next } => Parsed::Value {
                value: DeclarationView::Statement(value),
                next,
            },
            other => stop(other, pos),
        }
    }
}

/// `parse_declaration` is its rule, applied once.
pub proof fn lemma_parse_declaration(t: Seq<Token>, pos: int)
    ensures
        parse_declaration(t, pos) == declaration_rule(t, pos),
{
    reveal(parse_declaration);
}

/// Whether a token of this kind begins a declaration or a statement.
pub open spec fn begins_declaration(kind: TokenKind) -> bool {
    kind == TokenKind::Class || kind == TokenKind::Fun || kind == TokenKind::Var || kind
        == TokenKind::For || kind == TokenKind::If || kind == TokenKind::While || kind
        == TokenKind::Print || kind == TokenKind::Return
}

/// Where discarding tokens stops: behind a semicolon, before a token that
/// begins a declaration, or at the end.
pub open spec fn resume_at(t: Seq<Token>, pos: int) -> int
    decreases t.len() - pos,
{
    if pos < 1 || pos >= t.len() {
        pos
    } else if t[pos - 1].kind == TokenKind::Semicolon || begins_declaration(t[pos].kind) {
        pos
    } else {
        resume_at(t, pos + 1)
    }
}

/// Discarding tokens never goes back, nor past the end.
pub proof fn lemma_resume_at_bounds(t: Seq<Token>, pos: int)
    requires
        0 <= pos <= t.len(),
    ensures
        pos <= resume_at(t, pos) <= t.len(),
    decreases t.len() - pos,
{
    if 1 <= pos < t.len() && !(t[pos - 1].kind == TokenKind::Semicolon || begins_declaration(
        t[pos].kind,
    )) {
        lemma_resume_at_bounds(t, pos + 1);
    }
}

/// Where parsing resumes after an error that stopped at `pos`.
pub open spec fn synchronize(t: Seq<Token>, pos: int) -> int {
    resume_at(t, advance(t, pos))
}

/// What parsing a whole program gives: the declarations that parsed, and the errors.
pub struct Program {
    pub declarations: Seq<DeclarationView>,
    pub failures: Seq<Failure>,
}

/// The program that the tokens from `pos` on hold, after what `seen` holds.
pub open spec fn parse_program(t: Seq<Token>, pos: int, seen: Program) -> Program
    decreases t.len() - pos,
{
    if pos < 0 || pos >= t.len() {
        seen
    } else {
        match parse_declaration(t, pos) {
            Parsed::Value { value, next } => if pos < next <= t.len() {
                parse_program(
                    t,
                    next,
                    Program { declarations: seen.declarations.push(value), failures: seen.failures },
                )
            } else {
                seen
            },
            Parsed::Failure { failure, next } => {
                let seen = Program {
                    declarations: seen.declarations,
                    failures: seen.failures.push(failure),
                };
                let resume = synchronize(t, next);
                if pos < resume <= t.len() {
                    parse_program(t, resume, seen)
                } else {
                    seen
                }
            },
        }
    }
}

/// The program that a sequence of tokens holds.
pub open spec fn program(t: Seq<Token>) -> Program {
    parse_program(t, 0, Program { declarations: Seq::empty(), failures: Seq::empty() })
}

} // verus!
