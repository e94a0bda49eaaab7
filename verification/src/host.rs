//! What the evaluator and its host say to each other.
//!
//! The evaluator does no input or output, reads no clock and computes with
//! no number. Where a program needs one of these, a step of the evaluator
//! ends in an `Action` that names the work; the host does it and hands the
//! `Reply` to the next step.

use vstd::prelude::*;

use crate::interp_error::{InterpError, InterpErrorView};
use crate::token::TokenKind;
use crate::value::{Number, ValueView};

verus! {

/// Work on numbers that the host does for the evaluator.
#[derive(Debug)]
pub enum Request {
    /// The number that a literal of the program denotes.
    Parse(String),
    /// The milliseconds since the host started the evaluator.
    Clock,
    /// The negation of a number.
    Negate(Number),
    /// An arithmetic operator or a comparison, applied to two numbers.
    Binary { operator: TokenKind, left: Number, right: Number },
}

/// A request as mathematical values.
pub enum RequestView {
    Parse(Seq<char>),
    Clock,
    Negate(Number),
    Binary { operator: TokenKind, left: Number, right: Number },
}

impl View for Request {
    type V = RequestView;

    open spec fn view(&self) -> RequestView {
        match *self {
            Request::Parse(text) => RequestView::Parse(text@),
            Request::Clock => RequestView::Clock,
            Request::Negate(n) => RequestView::Negate(n),
            Request::Binary { operator, left, right } => RequestView::Binary { operator, left, right },
        }
    }
}

impl Clone for Request {
    fn clone(&self) -> (r: Self)
        ensures
            r@ == self@,
    {
        match self {
            Request::Parse(text) => Request::Parse(text.clone()),
            Request::Clock => Request::Clock,
            Request::Negate(n) => Request::Negate(*n),
            Request::Binary { operator, left, right } => Request::Binary {
                operator: *operator,
                left: *left,
                right: *right,
            },
        }
    }
}

/// What the host hands to a step: the answer to the request of the step
/// before, or nothing.
#[derive(Clone, Copy, Debug)]
pub enum Reply {
    Nothing,
    Number(Number),
    Boolean(bool),
}

/// Whether `kind` is an operator that gives a number from two numbers.
pub open spec fn is_arithmetic(kind: TokenKind) -> bool {
    kind == TokenKind::Plus || kind == TokenKind::Minus || kind == TokenKind::Star || kind
        == TokenKind::Slash
}

/// Whether `kind` is an operator that gives a truth value from two numbers.
pub open spec fn is_comparison(kind: TokenKind) -> bool {
    kind == TokenKind::Less || kind == TokenKind::LessEqual || kind == TokenKind::Greater || kind
        == TokenKind::GreaterEqual || kind == TokenKind::EqualEqual || kind == TokenKind::BangEqual
}

/// The value that `reply` gives as the answer to `request`, if it is of the
/// kind that the request asks for.
pub open spec fn answer<'a>(request: RequestView, reply: Reply) -> Option<ValueView<'a>> {
    match (request, reply) {
        (RequestView::Parse(_), Reply::Number(n)) => Some(ValueView::Number(n)),
        (RequestView::Clock, Reply::Number(n)) => Some(ValueView::Number(n)),
        (RequestView::Negate(_), Reply::Number(n)) => Some(ValueView::Number(n)),
        (RequestView::Binary { operator, .. }, Reply::Number(n)) => if is_arithmetic(operator) {
            Some(ValueView::Number(n))
        } else {
            None
        },
        (RequestView::Binary { operator, .. }, Reply::Boolean(b)) => if is_comparison(operator) {
            Some(ValueView::Boolean(b))
        } else {
            None
        },
        _ => None,
    }
}

/// What a `print` statement writes: text, or a number for the host to format.
#[derive(Debug)]
pub enum Output {
    Text(String),
    Number(Number),
}

/// What is written, as mathematical values.
pub enum OutputView {
    Text(Seq<char>),
    Number(Number),
}

impl View for Output {
    type V = OutputView;

    open spec fn view(&self) -> OutputView {
        match *self {
            Output::Text(text) => OutputView::Text(text@),
            Output::Number(n) => OutputView::Number(n),
        }
    }
}

/// What a step of the evaluator asks of its host.
#[derive(Debug)]
pub enum Action<'a> {
    /// Nothing: take the next step.
    Continue,
    /// Write a line to standard output, then take the next step.
    Print(Output),
    /// Do the work, and hand the answer to the next step.
    Ask(Request),
    /// The program has ended: normally, with a runtime error, or with a
    /// `return` outside of any function.
    Done(Result<(), InterpError<'a>>),
}

/// An action as mathematical values.
pub enum ActionView<'a> {
    Continue,
    Print(OutputView),
    Ask(RequestView),
    Done(Result<(), InterpErrorView<'a>>),
}

impl<'a> View for Action<'a> {
    type V = ActionView<'a>;

    open spec fn view(&self) -> ActionView<'a> {
        match *self {
            Action::Continue => ActionView::Continue,
            Action::Print(output) => ActionView::Print(output@),
            Action::Ask(request) => ActionView::Ask(request@),
            Action::Done(Ok(_)) => ActionView::Done(Ok(())),
            Action::Done(Err(e)) => ActionView::Done(Err(e@)),
        }
    }
}

} // verus!
