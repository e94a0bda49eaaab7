//! Errors of the resolver and of the evaluator.

use vstd::prelude::*;

use crate::token::Token;
use crate::value::{Value, ValueView};

verus! {

/// An error at a token: what went wrong, and where.
#[derive(Debug)]
pub struct Error {
    message: String,
    token: Token,
}

/// An error as mathematical values.
pub struct ErrorView {
    pub message: Seq<char>,
    pub token: Token,
}

impl View for Error {
    type V = ErrorView;

    closed spec fn view(&self) -> ErrorView {
        ErrorView { message: self.message@, token: self.token }
    }
}

impl Clone for Error {
    fn clone(&self) -> (r: Self)
        ensures
            r@ == self@,
    {
        Error { message: self.message.clone(), token: self.token.clone() }
    }
}

impl PartialEq for Error {
    fn eq(&self, other: &Error) -> (r: bool) {
        self.message == other.message && self.token == other.token
    }
}

impl vstd::std_specs::cmp::PartialEqSpecImpl for Error {
    open spec fn obeys_eq_spec() -> bool {
        true
    }

    closed spec fn eq_spec(&self, other: &Error) -> bool {
        self.message@ == other.message@ && self.token.kind == other.token.kind && self.token.line
            == other.token.line && self.token.content@ == other.token.content@
    }
}

impl Error {
    pub fn new(message: &str, token: Token) -> (r: Error)
        ensures
            r@ == (ErrorView { message: message@, token }),
    {
        Error { message: String::from_str(message), token }
    }

    /// What went wrong.
    pub fn message(&self) -> (r: &String)
        ensures
            r@ == self@.message,
    {
        &self.message
    }

    /// The token at which it went wrong.
    pub fn token(&self) -> (r: &Token)
        ensures
            *r == self@.token,
    {
        &self.token
    }
}

pub type InterpResult<'a> = Result<Value<'a>, InterpError<'a>>;

pub type StatementResult<'a> = Result<(), InterpError<'a>>;

/// What ends an evaluation early: a runtime error, or a `return` on its way
/// to the call that it returns from.
#[derive(Debug)]
pub enum InterpError<'a> {
    Error(Error),
    Return(Value<'a>),
}

/// An early end as mathematical values.
pub enum InterpErrorView<'a> {
    Error(ErrorView),
    Return(ValueView<'a>),
}

impl<'a> View for InterpError<'a> {
    type V = InterpErrorView<'a>;

    open spec fn view(&self) -> InterpErrorView<'a> {
        match *self {
            InterpError::Error(e) => InterpErrorView::Error(e@),
            InterpError::Return(v) => InterpErrorView::Return(v@),
        }
    }
}

/// The runtime error with the given message at `token`.
pub open spec fn failure<'a>(message: Seq<char>, token: Token) -> InterpErrorView<'a> {
    InterpErrorView::Error(ErrorView { message, token })
}

impl<'a> InterpError<'a> {
    pub fn new(message: &str, token: Token) -> (r: InterpError<'a>)
        ensures
            r@ == failure::<'a>(message@, token),
    {
        InterpError::Error(Error::new(message, token))
    }
}

} // verus!
