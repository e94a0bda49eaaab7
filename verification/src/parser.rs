//! The recursive-descent parser: tokens to a syntax tree.
//!
//! Every method is proved to compute the function of the grammar that
//! bears its name, on the tokens from the parser's position on.

use std::collections::VecDeque;
use vstd::prelude::*;

use crate::ast::{
    declarations_view, exprs_view, functions_view, Ast, Declaration, DeclarationView, Expr,
    ExprKind, ExprView, FunDeclaration, FunDeclarationStruct, Initializer, Statement,
    VarDeclaration,
};
use crate::error::{diagnostics_view, Diagnostic, DiagnosticView};
use crate::grammar::{
    advance, check, consume, consume_semicolon, is_literal, is_operator, lemma_parse_and,
    lemma_parse_and_rest, lemma_parse_arguments, lemma_parse_assignment, lemma_parse_block,
    lemma_parse_call, lemma_parse_call_rest, lemma_parse_class, lemma_parse_comparison,
    lemma_parse_comparison_rest, lemma_parse_declaration, lemma_parse_equality,
    lemma_parse_equality_rest, lemma_parse_expr_statement, lemma_parse_expression,
    lemma_parse_factor, lemma_parse_factor_rest, lemma_parse_finish_call,
    lemma_parse_for_initializer, lemma_parse_for_statement, lemma_parse_function,
    lemma_parse_if_statement, lemma_parse_methods, lemma_parse_or, lemma_parse_or_rest,
    lemma_parse_primary, lemma_parse_print_statement, lemma_parse_return_statement,
    lemma_parse_statement, lemma_parse_term, lemma_parse_term_rest, lemma_parse_unary,
    lemma_parse_unless, lemma_parse_var_declaration, lemma_parse_while_statement,
    lemma_resume_at_bounds, method_index, parse_and, parse_and_rest, parse_arguments,
    parse_assignment, parse_block, parse_call, parse_call_rest, parse_class, parse_comparison,
    parse_comparison_rest, parse_declaration, parse_equality, parse_equality_rest,
    parse_expr_statement, parse_expression, parse_factor, parse_factor_rest, parse_finish_call,
    parse_for_initializer, parse_for_statement, parse_function, parse_if_statement, parse_methods,
    parse_or, parse_or_rest, parse_parameters, parse_primary, parse_print_statement, parse_program,
    parse_return_statement, parse_statement, parse_term, parse_term_rest, parse_unary, parse_unless,
    parse_var_declaration, parse_while_statement, resume_at, synchronize, with_method, Callable,
    Failure, Level, Parsed, Program,
};
use crate::token::{Token, TokenKind};

verus! {

/// A syntax error: the line it is reported at, and the message.
#[derive(Debug)]
pub struct ParseErr {
    pub line: usize,
    pub message: String,
}

impl View for ParseErr {
    type V = Failure;

    open spec fn view(&self) -> Failure {
        Failure { line: self.line, message: self.message@ }
    }
}

impl ParseErr {
    pub fn new(token: &Token, message: &str) -> (r: ParseErr)
        ensures
            r@ == (Failure { line: token.line, message: message@ }),
    {
        ParseErr { line: token.line, message: String::from_str(message) }
    }
}

pub type ExprResult = Result<Expr, ParseErr>;

pub type StatementResult = Result<Statement, ParseErr>;

pub type DeclarationResult = Result<Declaration, ParseErr>;

pub type AstResult = Result<Ast, ()>;

/// What a parsing method gave, with the position it left the parser at.
pub open spec fn outcome<T: View>(r: Result<T, ParseErr>, pos: int) -> Parsed<T::V> {
    match r {
        Ok(v) => Parsed::Value { value: v@, next: pos },
        Err(e) => Parsed::Failure { failure: e@, next: pos },
    }
}

/// As `outcome`, for a method that gives nothing but its success.
pub open spec fn unit_outcome(r: Result<(), ParseErr>, pos: int) -> Parsed<()> {
    match r {
        Ok(v) => Parsed::Value { value: (), next: pos },
        Err(e) => Parsed::Failure { failure: e@, next: pos },
    }
}

/// As `outcome`, for a method that gives an optional expression.
pub open spec fn option_outcome(r: Result<Option<Expr>, ParseErr>, pos: int) -> Parsed<
    Option<ExprView>,
> {
    match r {
        Ok(Some(e)) => Parsed::Value { value: Some(e@), next: pos },
        Ok(None) => Parsed::Value { value: None, next: pos },
        Err(e) => Parsed::Failure { failure: e@, next: pos },
    }
}

/// As `outcome`, for a method that gives a list of declarations.
pub open spec fn block_outcome(r: Result<Vec<Declaration>, ParseErr>, pos: int) -> Parsed<
    Seq<DeclarationView>,
> {
    match r {
        Ok(v) => Parsed::Value { value: declarations_view(v@), next: pos },
        Err(e) => Parsed::Failure { failure: e@, next: pos },
    }
}

/// The diagnostics that report `failures`, in order.
pub open spec fn failure_reports(failures: Seq<Failure>) -> Seq<DiagnosticView> {
    Seq::new(
        failures.len(),
        |i: int| DiagnosticView { line: failures[i].line as nat, message: failures[i].message },
    )
}

/// The parser's state: the tokens, the position of the next one, and the
/// diagnostics reported so far.
pub struct Parser {
    tokens: Vec<Token>,
    current: usize,
    diagnostics: Vec<Diagnostic>,
}

/// Puts `method` into `methods`: in the place of the method of that name, or at the end.
fn insert_method(methods: &mut Vec<FunDeclarationStruct>, method: FunDeclarationStruct)
    ensures
        functions_view(final(methods)@) == with_method(functions_view(old(methods)@), method@),
{
    let ghost before = functions_view(methods@);
    let mut i: usize = 0;
    while i < methods.len()
        invariant
            i <= methods.len(),
            methods@ == old(methods)@,
            before == functions_view(methods@),
            method_index(before, method.name.content@, i as int) == method_index(
                before,
                method.name.content@,
                0,
            ),
        decreases methods.len() - i,
    {
        proof {
            assert(before[i as int] == methods@[i as int]@);
        }
        if methods[i].name.content == method.name.content {
            methods.set(i, method);
            proof {
                assert(functions_view(methods@) =~= before.update(i as int, method@));
            }
            return ;
        }
        i += 1;
    }
    methods.push(method);
    proof {
        assert(functions_view(methods@) =~= before.push(method@));
    }
}

impl Parser {
    /// The parser's invariant: the position lies within the tokens.
    pub closed spec fn wf(&self) -> bool {
        self.current <= self.tokens.len()
    }

    /// The tokens that the parser reads.
    pub closed spec fn tokens(&self) -> Seq<Token> {
        self.tokens@
    }

    /// The index of the next token.
    pub closed spec fn position(&self) -> int {
        self.current as int
    }

    /// The diagnostics reported so far, oldest first.
    pub closed spec fn reported(&self) -> Seq<DiagnosticView> {
        diagnostics_view(self.diagnostics@)
    }

    /// Whether the parser can parse: it is well formed and has a token to blame.
    pub open spec fn ready(&self) -> bool {
        self.wf() && self.tokens().len() > 0
    }

    /// How a parsing method leaves the parser: over the same tokens, with
    /// nothing reported, not before where it was, and further on if it succeeded.
    pub open spec fn follows(&self, before: Parser, success: bool) -> bool {
        &&& self.wf()
        &&& self.tokens() == before.tokens()
        &&& self.reported() == before.reported()
        &&& self.position() >= before.position()
        &&& self.position() <= self.tokens().len()
        &&& success ==> self.position() > before.position()
    }

    fn error(&mut self, message: &str) -> (e: ParseErr)
        requires
            old(self).ready(),
        ensures
            final(self).follows(*old(self), false),
            final(self).position() == advance(old(self).tokens(), old(self).position()),
            e@ == (Failure {
                line: old(self).tokens()[final(self).position() - 1].line,
                message: message@,
            }),
    {
        self.advance();
        let token = self.previous();
        ParseErr::new(&token, message)
    }

    fn synchronize(&mut self)
        requires
            old(self).ready(),
        ensures
            final(self).follows(*old(self), false),
            final(self).position() == synchronize(old(self).tokens(), old(self).position()),
    {
        self.advance();
        let ghost t = self.tokens();
        let ghost start = self.position();
        while !self.is_at_end()
            invariant
                self.ready(),
                self.tokens() == t,
                t == old(self).tokens(),
                self.reported() == old(self).reported(),
                1 <= start <= self.position(),
                start == advance(t, old(self).position()),
                resume_at(t, self.position()) == resume_at(t, start),
            decreases t.len() - self.position(),
        {
            if self.previous().kind == TokenKind::Semicolon {
                return ;
            }
            match self.peek().kind {
                TokenKind::Class
                | TokenKind::Fun
                | TokenKind::Var
                | TokenKind::For
                | TokenKind::If
                | TokenKind::While
                | TokenKind::Print
                | TokenKind::Return => {
                    return ;
                },
                _ => {},
            }
            self.advance();
        }
    }

    fn consume(&mut self, token_kind: TokenKind, message: &str) -> (r: Result<(), ParseErr>)
        requires
            old(self).ready(),
        ensures
            final(self).follows(*old(self), r is Ok),
            unit_outcome(r, final(self).position()) == consume(
                old(self).tokens(),
                old(self).position(),
                token_kind,
                message@,
            ),
    {
        if self.check(token_kind) {
            self.advance();
            Ok(())
        } else {
            Err(self.error(message))
        }
    }

    fn is_at_end(&self) -> (r: bool)
        requires
            self.wf(),
        ensures
            r == (self.position() >= self.tokens().len()),
    {
        self.current >= self.tokens.len()
    }

    fn peek(&self) -> (r: &Token)
        requires
            self.wf(),
            self.position() < self.tokens().len(),
        ensures
            *r == self.tokens()[self.position()],
    {
        &self.tokens[self.current]
    }

    fn previous(&self) -> (r: Token)
        requires
            self.wf(),
            self.position() >= 1,
        ensures
            r == self.tokens()[self.position() - 1],
    {
        self.tokens[self.current - 1].clone()
    }

    fn advance(&mut self)
        requires
            old(self).wf(),
        ensures
            final(self).follows(*old(self), false),
            final(self).position() == advance(old(self).tokens(), old(self).position()),
    {
        if self.current < self.tokens.len() {
            self.current += 1;
        }
    }

    fn equal(&mut self, kind: TokenKind) -> (r: bool)
        requires
            old(self).wf(),
        ensures
            final(self).follows(*old(self), r),
            r == check(old(self).tokens(), old(self).position(), kind),
            final(self).position() == old(self).position() + if r {
                1int
            } else {
                0int
            },
    {
        if self.check(kind) {
            self.advance();
            true
        } else {
            false
        }
    }

    /// Steps over a literal token, if one is next.
    fn equal_literal(&mut self) -> (r: bool)
        requires
            old(self).wf(),
        ensures
            final(self).follows(*old(self), r),
            r == (old(self).position() < old(self).tokens().len() && is_literal(
                old(self).tokens()[old(self).position()].kind,
            )),
            final(self).position() == old(self).position() + if r {
                1int
            } else {
                0int
            },
    {
        if self.is_at_end() {
            return false;
        }
        match self.peek().kind {
            TokenKind::False
            | TokenKind::True
            | TokenKind::Nil
            | TokenKind::Number
            | TokenKind::StringT => {
                self.advance();
                true
            },
            _ => false,
        }
    }

    /// Steps over an operator of `level`, if one is next.
    fn equal_operator(&mut self, level: Level) -> (r: bool)
        requires
            old(self).wf(),
        ensures
            final(self).follows(*old(self), r),
            r == (old(self).position() < old(self).tokens().len() && is_operator(
                level,
                old(self).tokens()[old(self).position()].kind,
            )),
            final(self).position() == old(self).position() + if r {
                1int
            } else {
                0int
            },
    {
        if self.is_at_end() {
            return false;
        }
        let kind = self.peek().kind;
        let found = match level {
            Level::Factor => kind == TokenKind::Slash || kind == TokenKind::Star,
            Level::Term => kind == TokenKind::Minus || kind == TokenKind::Plus,
            Level::Comparison => kind == TokenKind::Greater || kind == TokenKind::GreaterEqual
                || kind == TokenKind::Less || kind == TokenKind::LessEqual,
            Level::Equality => kind == TokenKind::BangEqual || kind == TokenKind::EqualEqual,
        };
        if found {
            self.advance();
        }
        found
    }

    fn check(&self, t: TokenKind) -> (r: bool)
        requires
            self.wf(),
        ensures
            r == check(self.tokens(), self.position(), t),
    {
        if self.is_at_end() {
            false
        } else {
            self.peek().kind == t
        }
    }

    fn expression(&mut self) -> (r: ExprResult)
        requires
            old(self).ready(),
        ensures
            final(self).follows(*old(self), r is Ok),
            outcome(r, final(self).position()) == parse_expression(
                old(self).tokens(),
                old(self).position(),
            ),
        decreases old(self).tokens().len() - old(self).position(), 17int,
    {
        proof {
            lemma_parse_expression(old(self).tokens(), old(self).position());
        }
        self.assignment()
    }

    fn primary(&mut self) -> (r: ExprResult)
        requires
            old(self).ready(),
        ensures
            final(self).follows(*old(self), r is Ok),
            outcome(r, final(self).position()) == parse_primary(old(self).tokens(), old(self).position()),
        decreases old(self).tokens().len() - old(self).position(), 0int,
    {
        proof {
            lemma_parse_primary(old(self).tokens(), old(self).position());
        }
        if self.equal_literal() {
            Ok(Expr::new_literal(self.previous()))
        } else if self.equal(TokenKind::Identifier) {
            Ok(Expr::new_variable(self.previous()))
        } else if self.equal(TokenKind::LeftParen) {
            let expr = self.expression()?;
            self.consume(TokenKind::RightParen, "Parse error: Expected ')' after expression.")?;
            Ok(Expr::new_grouping(self.previous(), expr))
        } else if self.equal(TokenKind::This) {
            Ok(Expr::new_this(self.previous()))
        } else if self.equal(TokenKind::Super) {
            let token = self.previous();
            self.consume(TokenKind::Dot, "Parse error: Expect '.' after 'super'.")?;
            self.consume(TokenKind::Identifier, "Parse error: Expected identifier after '.'")?;
            let method = self.previous();
            Ok(Expr::new_super(method, token))
        } else {
            Err(self.error("Parse error: Expected expression."))
        }
    }

    fn call(&mut self) -> (r: ExprResult)
        requires
            old(self).ready(),
        ensures
            final(self).follows(*old(self), r is Ok),
            outcome(r, final(self).position()) == parse_call(old(self).tokens(), old(self).position()),
        decreases old(self).tokens().len() - old(self).position(), 2int,
    {
        proof {
            lemma_parse_call(old(self).tokens(), old(self).position());
        }
        let ghost t = self.tokens();
        let ghost start = self.position();
        let mut expr = self.primary()?;
        loop
            invariant
                self.follows(*old(self), true),
                self.ready(),
                t == old(self).tokens(),
                start == old(self).position(),
                parse_call_rest(t, self.position(), expr@) == parse_call(t, start),
            ensures
                parse_call_rest(t, self.position(), expr@) == (Parsed::Value {
                    value: expr@,
                    next: self.position(),
                }),
            decreases t.len() - self.position(),
        {
                proof {
                    lemma_parse_call_rest(t, self.position(), expr@);
                }
            if self.equal(TokenKind::LeftParen) {
                expr = self.finish_call(expr)?;
            } else if self.equal(TokenKind::Dot) {
                self.consume(TokenKind::Identifier, "Parse error: Expected property name after '.'.")?;
                let token = self.previous();
                expr =
                if self.equal(TokenKind::Equal) {
                    let value = self.expression()?;
                    Expr::new_set(token, expr, value)
                } else {
                    Expr::new_get(token, expr)
                };
            } else {
                break ;
            }
        }
        Ok(expr)
    }

    fn finish_call(&mut self, callee: Expr) -> (r: ExprResult)
        requires
            old(self).ready(),
        ensures
            final(self).follows(*old(self), r is Ok),
            outcome(r, final(self).position()) == parse_finish_call(
                old(self).tokens(),
                old(self).position(),
                callee@,
            ),
        decreases old(self).tokens().len() - old(self).position(), 19int,
    {
        proof {
            lemma_parse_finish_call(old(self).tokens(), old(self).position(), callee@);
        }
        let ghost t = self.tokens();
        let ghost start = self.position();
        let mut arguments: Vec<Expr> = Vec::new();
        if !self.check(TokenKind::RightParen) {
            proof {
                assert(exprs_view(arguments@) =~= Seq::<ExprView>::empty());
            }
            loop
                invariant_except_break
                    parse_arguments(t, self.position(), exprs_view(arguments@)) == parse_arguments(
                        t,
                        start,
                        Seq::empty(),
                    ),
                invariant
                    self.follows(*old(self), false),
                    self.ready(),
                    t == old(self).tokens(),
                    start == old(self).position(),
                    !check(t, start, TokenKind::RightParen),
                ensures
                    self.follows(*old(self), false),
                    self.ready(),
                    parse_arguments(t, start, Seq::empty()) == (Parsed::Value {
                        value: exprs_view(arguments@),
                        next: self.position(),
                    }),
                decreases t.len() - self.position(),
            {
                    proof {
                        lemma_parse_arguments(t, self.position(), exprs_view(arguments@));
                        lemma_parse_finish_call(old(self).tokens(), old(self).position(), callee@);
                    }
                if arguments.len() >= 255 {
                    return Err(self.error("Parse error: Can't have more than 255 arguments"));
                }
                let ghost seen = exprs_view(arguments@);
                let argument = self.expression()?;
                arguments.push(argument);
                proof {
                    assert(exprs_view(arguments@) =~= seen.push(argument@));
                }
                if !self.equal(TokenKind::Comma) {
                    break ;
                }
            }
        } else {
            proof {
                assert(exprs_view(arguments@) =~= Seq::<ExprView>::empty());
            }
        }
        self.consume(
            TokenKind::RightParen,
            "Parse error: Expected closing paren to follow argument list",
        )?;
        Ok(Expr::new_call(callee, arguments, self.previous()))
    }

    fn unary(&mut self) -> (r: ExprResult)
        requires
            old(self).ready(),
        ensures
            final(self).follows(*old(self), r is Ok),
            outcome(r, final(self).position()) == parse_unary(old(self).tokens(), old(self).position()),
        decreases old(self).tokens().len() - old(self).position(), 3int,
    {
        proof {
            lemma_parse_unary(old(self).tokens(), old(self).position());
        }
        let found = if self.equal(TokenKind::Bang) {
            true
        } else {
            self.equal(TokenKind::Minus)
        };
        if found {
            let operator = self.previous();
            let right = self.unary()?;
            Ok(Expr::new_unary(operator, right))
        } else {
            self.call()
        }
    }

    fn factor(&mut self) -> (r: ExprResult)
        requires
            old(self).ready(),
        ensures
            final(self).follows(*old(self), r is Ok),
            outcome(r, final(self).position()) == parse_factor(old(self).tokens(), old(self).position()),
        decreases old(self).tokens().len() - old(self).position(), 5int,
    {
        proof {
            lemma_parse_factor(old(self).tokens(), old(self).position());
        }
        let ghost t = self.tokens();
        let ghost start = self.position();
        let mut expr = self.unary()?;
        loop
            invariant
                self.follows(*old(self), true),
                self.ready(),
                t == old(self).tokens(),
                start == old(self).position(),
                parse_factor_rest(t, self.position(), expr@) == parse_factor(t, start),
            ensures
                parse_factor_rest(t, self.position(), expr@) == (Parsed::Value {
                    value: expr@,
                    next: self.position(),
                }),
            decreases t.len() - self.position(),
        {
                proof {
                    lemma_parse_factor_rest(t, self.position(), expr@);
                }
            if !self.equal_operator(Level::Factor) {
                break ;
            }
            let operator = self.previous();
            let right = self.factor()?;
            expr = Expr::new_binary(expr, operator, right);
        }
        Ok(expr)
    }

    fn term(&mut self) -> (r: ExprResult)
        requires
            old(self).ready(),
        ensures
            final(self).follows(*old(self), r is Ok),
            outcome(r, final(self).position()) == parse_term(old(self).tokens(), old(self).position()),
        decreases old(self).tokens().len() - old(self).position(), 7int,
    {
        proof {
            lemma_parse_term(old(self).tokens(), old(self).position());
        }
        let ghost t = self.tokens();
        let ghost start = self.position();
        let mut expr = self.factor()?;
        loop
            invariant
                self.follows(*old(self), true),
                self.ready(),
                t == old(self).tokens(),
                start == old(self).position(),
                parse_term_rest(t, self.position(), expr@) == parse_term(t, start),
            ensures
                parse_term_rest(t, self.position(), expr@) == (Parsed::Value {
                    value: expr@,
                    next: self.position(),
                }),
            decreases t.len() - self.position(),
        {
                proof {
                    lemma_parse_term_rest(t, self.position(), expr@);
                }
            if !self.equal_operator(Level::Term) {
                break ;
            }
            let operator = self.previous();
            let right = self.factor()?;
            expr = Expr::new_binary(expr, operator, right);
        }
        Ok(expr)
    }

    fn comparison(&mut self) -> (r: ExprResult)
        requires
            old(self).ready(),
        ensures
            final(self).follows(*old(self), r is Ok),
            outcome(r, final(self).position()) == parse_comparison(
                old(self).tokens(),
                old(self).position(),
            ),
        decreases old(self).tokens().len() - old(self).position(), 9int,
    {
        proof {
            lemma_parse_comparison(old(self).tokens(), old(self).position());
        }
        let ghost t = self.tokens();
        let ghost start = self.position();
        let mut expr = self.term()?;
        loop
            invariant
                self.follows(*old(self), true),
                self.ready(),
                t == old(self).tokens(),
                start == old(self).position(),
                parse_comparison_rest(t, self.position(), expr@) == parse_comparison(t, start),
            ensures
                parse_comparison_rest(t, self.position(), expr@) == (Parsed::Value {
                    value: expr@,
                    next: self.position(),
                }),
            decreases t.len() - self.position(),
        {
                proof {
                    lemma_parse_comparison_rest(t, self.position(), expr@);
                }
            if !self.equal_operator(Level::Comparison) {
                break ;
            }
            let operator = self.previous();
            let right = self.comparison()?;
            expr = Expr::new_binary(expr, operator, right);
        }
        Ok(expr)
    }

    fn equality(&mut self) -> (r: ExprResult)
        requires
            old(self).ready(),
        ensures
            final(self).follows(*old(self), r is Ok),
            outcome(r, final(self).position()) == parse_equality(old(self).tokens(), old(self).position()),
        decreases old(self).tokens().len() - old(self).position(), 11int,
    {
        proof {
            lemma_parse_equality(old(self).tokens(), old(self).position());
        }
        let ghost t = self.tokens();
        let ghost start = self.position();
        let mut expr = self.comparison()?;
        loop
            invariant
                self.follows(*old(self), true),
                self.ready(),
                t == old(self).tokens(),
                start == old(self).position(),
                parse_equality_rest(t, self.position(), expr@) == parse_equality(t, start),
            ensures
                parse_equality_rest(t, self.position(), expr@) == (Parsed::Value {
                    value: expr@,
                    next: self.position(),
                }),
            decreases t.len() - self.position(),
        {
                proof {
                    lemma_parse_equality_rest(t, self.position(), expr@);
                }
            if !self.equal_operator(Level::Equality) {
                break ;
            }
            let operator = self.previous();
            let right = self.comparison()?;
            expr = Expr::new_binary(expr, operator, right);
        }
        Ok(expr)
    }

    fn consume_semicolon(&mut self) -> (r: Result<(), ParseErr>)
        requires
            old(self).ready(),
        ensures
            final(self).follows(*old(self), r is Ok),
            unit_outcome(r, final(self).position()) == consume_semicolon(
                old(self).tokens(),
                old(self).position(),
            ),
    {
        self.consume(TokenKind::Semicolon, "Parse error: Semicolon must follow statement.")
    }

    fn if_statement(&mut self) -> (r: StatementResult)
        requires
            old(self).ready(),
        ensures
            final(self).follows(*old(self), r is Ok),
            outcome(r, final(self).position()) == parse_if_statement(
                old(self).tokens(),
                old(self).position(),
            ),
        decreases old(self).tokens().len() - old(self).position(), 22int,
    {
        proof {
            lemma_parse_if_statement(old(self).tokens(), old(self).position());
        }
        let cond = self.equality()?;
        let true_branch = self.statement()?;
        let else_branch = if self.equal(TokenKind::Else) {
            let block = self.statement()?;
            Some(block)
        } else {
            None
        };
        Ok(Statement::new_if(cond, true_branch, else_branch))
    }

    fn while_statement(&mut self) -> (r: StatementResult)
        requires
            old(self).ready(),
        ensures
            final(self).follows(*old(self), r is Ok),
            outcome(r, final(self).position()) == parse_while_statement(
                old(self).tokens(),
                old(self).position(),
            ),
        decreases old(self).tokens().len() - old(self).position(), 22int,
    {
        proof {
            lemma_parse_while_statement(old(self).tokens(), old(self).position());
        }
        self.consume(TokenKind::LeftParen, "Parse error: Expected '(' following 'while'")?;
        let cond = self.equality()?;
        self.consume(TokenKind::RightParen, "Parse error: Expected ')' following condition")?;
        let body = self.statement()?;
        Ok(Statement::new_while(cond, body))
    }

    fn block(&mut self) -> (r: Result<Vec<Declaration>, ParseErr>)
        requires
            old(self).ready(),
        ensures
            final(self).follows(*old(self), r is Ok),
            block_outcome(r, final(self).position()) == parse_block(
                old(self).tokens(),
                old(self).position(),
                Seq::empty(),
            ),
        decreases old(self).tokens().len() - old(self).position(), 24int,
    {
        proof {
            lemma_parse_block(old(self).tokens(), old(self).position(), Seq::empty());
        }
        let ghost t = self.tokens();
        let ghost start = self.position();
        let mut declarations: Vec<Declaration> = Vec::new();
        proof {
            assert(declarations_view(declarations@) =~= Seq::<DeclarationView>::empty());
        }
        loop
            invariant_except_break
                parse_block(t, self.position(), declarations_view(declarations@)) == parse_block(
                    t,
                    start,
                    Seq::empty(),
                ),
            invariant
                self.follows(*old(self), false),
                self.ready(),
                t == old(self).tokens(),
                start == old(self).position(),
            ensures
                self.follows(*old(self), true),
                parse_block(t, start, Seq::empty()) == (Parsed::Value {
                    value: declarations_view(declarations@),
                    next: self.position(),
                }),
            decreases t.len() - self.position(),
        {
                proof {
                    lemma_parse_block(t, self.position(), declarations_view(declarations@));
                }
            if self.equal(TokenKind::RightBrace) {
                break ;
            }
            let ghost seen = declarations_view(declarations@);
            let new_element = self.declaration()?;
            declarations.push(new_element);
            proof {
                assert(declarations_view(declarations@) =~= seen.push(new_element@));
            }
        }
        Ok(declarations)
    }

    fn print_statement(&mut self) -> (r: StatementResult)
        requires
            old(self).ready(),
        ensures
            final(self).follows(*old(self), r is Ok),
            outcome(r, final(self).position()) == parse_print_statement(
                old(self).tokens(),
                old(self).position(),
            ),
        decreases old(self).tokens().len() - old(self).position(), 20int,
    {
        proof {
            lemma_parse_print_statement(old(self).tokens(), old(self).position());
        }
        let expr = self.expr_statement()?;
        Ok(Statement::new_print(expr))
    }

    fn expr_statement(&mut self) -> (r: ExprResult)
        requires
            old(self).ready(),
        ensures
            final(self).follows(*old(self), r is Ok),
            outcome(r, final(self).position()) == parse_expr_statement(
                old(self).tokens(),
                old(self).position(),
            ),
        decreases old(self).tokens().len() - old(self).position(), 20int,
    {
        proof {
            lemma_parse_expr_statement(old(self).tokens(), old(self).position());
        }
        let value = self.expression()?;
        self.consume_semicolon()?;
        Ok(value)
    }

    /// An expression, unless a token of kind `end` is next.
    fn unless(&mut self, end: TokenKind) -> (r: Result<Option<Expr>, ParseErr>)
        requires
            old(self).ready(),
        ensures
            final(self).follows(*old(self), false),
            option_outcome(r, final(self).position()) == parse_unless(
                old(self).tokens(),
                old(self).position(),
                end,
            ),
        decreases old(self).tokens().len() - old(self).position(), 18int,
    {
        proof {
            lemma_parse_unless(old(self).tokens(), old(self).position(), end);
        }
        if !self.check(end) {
            Ok(Some(self.expression()?))
        } else {
            Ok(None)
        }
    }

    /// The first clause of a `for` header, with its semicolon.
    fn for_initializer(&mut self) -> (r: Result<Option<Initializer>, ParseErr>)
        requires
            old(self).ready(),
        ensures
            final(self).follows(*old(self), r is Ok),
            match r {
                Ok(Some(i)) => Parsed::Value { value: Some(i@), next: final(self).position() },
                Ok(None) => Parsed::Value { value: None, next: final(self).position() },
                Err(e) => Parsed::Failure { failure: e@, next: final(self).position() },
            } == parse_for_initializer(old(self).tokens(), old(self).position()),
        decreases old(self).tokens().len() - old(self).position(), 21int,
    {
        proof {
            lemma_parse_for_initializer(old(self).tokens(), old(self).position());
        }
        if self.equal(TokenKind::Semicolon) {
            Ok(None)
        } else if self.equal(TokenKind::Var) {
            Ok(Some(Initializer::VarDeclaration(self.var_declaration()?)))
        } else {
            Ok(Some(Initializer::Expr(self.expr_statement()?)))
        }
    }

    fn for_statement(&mut self) -> (r: StatementResult)
        requires
            old(self).ready(),
        ensures
            final(self).follows(*old(self), r is Ok),
            outcome(r, final(self).position()) == parse_for_statement(
                old(self).tokens(),
                old(self).position(),
            ),
        decreases old(self).tokens().len() - old(self).position(), 22int,
    {
        proof {
            lemma_parse_for_statement(old(self).tokens(), old(self).position());
        }
        self.consume(TokenKind::LeftParen, "Parse error: Expected '(' following 'for'")?;
        let initializer = self.for_initializer()?;
        let cond = self.unless(TokenKind::Semicolon)?;
        self.consume_semicolon()?;
        let increment = self.unless(TokenKind::RightParen)?;
        self.consume(TokenKind::RightParen, "Parse error: Expected ')' following condition")?;
        let body = self.statement()?;
        Ok(Statement::new_for(initializer, cond, increment, body))
    }

    fn return_statement(&mut self) -> (r: StatementResult)
        requires
            old(self).ready(),
        ensures
            final(self).follows(*old(self), r is Ok),
            outcome(r, final(self).position()) == parse_return_statement(
                old(self).tokens(),
                old(self).position(),
            ),
        decreases old(self).tokens().len() - old(self).position(), 20int,
    {
        proof {
            lemma_parse_return_statement(old(self).tokens(), old(self).position());
        }
        let value = if !self.check(TokenKind::Semicolon) {
            Some(self.expression()?)
        } else {
            None
        };
        self.consume(TokenKind::Semicolon, "Parse error: Expected semicolon after 'return'")?;
        Ok(Statement::Return(value))
    }

    fn statement(&mut self) -> (r: StatementResult)
        requires
            old(self).ready(),
        ensures
            final(self).follows(*old(self), r is Ok),
            outcome(r, final(self).position()) == parse_statement(
                old(self).tokens(),
                old(self).position(),
            ),
        decreases old(self).tokens().len() - old(self).position(), 21int,
    {
        proof {
            lemma_parse_statement(old(self).tokens(), old(self).position());
        }
        if self.equal(TokenKind::Print) {
            self.print_statement()
        } else if self.equal(TokenKind::LeftBrace) {
            let declarations = self.block()?;
            let r = Statement::new_block(declarations);
            proof {
                assert(r@->Block_0 =~= declarations_view(declarations@));
            }
            Ok(r)
        } else if self.equal(TokenKind::If) {
            self.if_statement()
        } else if self.equal(TokenKind::While) {
            self.while_statement()
        } else if self.equal(TokenKind::For) {
            self.for_statement()
        } else if self.equal(TokenKind::Return) {
            self.return_statement()
        } else {
            Ok(Statement::new_expr_statement(self.expr_statement()?))
        }
    }

    fn and(&mut self) -> (r: ExprResult)
        requires
            old(self).ready(),
        ensures
            final(self).follows(*old(self), r is Ok),
            outcome(r, final(self).position()) == parse_and(old(self).tokens(), old(self).position()),
        decreases old(self).tokens().len() - old(self).position(), 13int,
    {
        proof {
            lemma_parse_and(old(self).tokens(), old(self).position());
        }
        let ghost t = self.tokens();
        let ghost start = self.position();
        let mut expr = self.equality()?;
        loop
            invariant
                self.follows(*old(self), true),
                self.ready(),
                t == old(self).tokens(),
                start == old(self).position(),
                parse_and_rest(t, self.position(), expr@) == parse_and(t, start),
            ensures
                parse_and_rest(t, self.position(), expr@) == (Parsed::Value {
                    value: expr@,
                    next: self.position(),
                }),
            decreases t.len() - self.position(),
        {
                proof {
                    lemma_parse_and_rest(t, self.position(), expr@);
                }
            if !self.equal(TokenKind::And) {
                break ;
            }
            let operator = self.previous();
            let right = self.and()?;
            expr = Expr::new_logical(expr, operator, right);
        }
        Ok(expr)
    }

    fn or(&mut self) -> (r: ExprResult)
        requires
            old(self).ready(),
        ensures
            final(self).follows(*old(self), r is Ok),
            outcome(r, final(self).position()) == parse_or(old(self).tokens(), old(self).position()),
        decreases old(self).tokens().len() - old(self).position(), 15int,
    {
        proof {
            lemma_parse_or(old(self).tokens(), old(self).position());
        }
        let ghost t = self.tokens();
        let ghost start = self.position();
        let mut expr = self.and()?;
        loop
            invariant
                self.follows(*old(self), true),
                self.ready(),
                t == old(self).tokens(),
                start == old(self).position(),
                parse_or_rest(t, self.position(), expr@) == parse_or(t, start),
            ensures
                parse_or_rest(t, self.position(), expr@) == (Parsed::Value {
                    value: expr@,
                    next: self.position(),
                }),
            decreases t.len() - self.position(),
        {
                proof {
                    lemma_parse_or_rest(t, self.position(), expr@);
                }
            if !self.equal(TokenKind::Or) {
                break ;
            }
            let operator = self.previous();
            let right = self.and()?;
            expr = Expr::new_logical(expr, operator, right);
        }
        Ok(expr)
    }

    fn assignment(&mut self) -> (r: ExprResult)
        requires
            old(self).ready(),
        ensures
            final(self).follows(*old(self), r is Ok),
            outcome(r, final(self).position()) == parse_assignment(
                old(self).tokens(),
                old(self).position(),
            ),
        decreases old(self).tokens().len() - old(self).position(), 16int,
    {
        proof {
            lemma_parse_assignment(old(self).tokens(), old(self).position());
        }
        let expr = self.or()?;
        if self.equal(TokenKind::Equal) {
            let rvalue = self.assignment()?;
            if let ExprKind::Variable(_) = expr.kind {
                return Ok(Expr::new_assign(expr.token, rvalue));
            }
            return Err(self.error("Parse error: Invalid assignment target."));
        }
        Ok(expr)
    }

    fn var_declaration(&mut self) -> (r: Result<VarDeclaration, ParseErr>)
        requires
            old(self).ready(),
        ensures
            final(self).follows(*old(self), r is Ok),
            outcome(r, final(self).position()) == parse_var_declaration(
                old(self).tokens(),
                old(self).position(),
            ),
        decreases old(self).tokens().len() - old(self).position(), 20int,
    {
        proof {
            lemma_parse_var_declaration(old(self).tokens(), old(self).position());
        }
        self.consume(TokenKind::Identifier, "Parse error: Expected variable name.")?;
        let name = self.previous();
        let initializer = if self.equal(TokenKind::Equal) {
            let expr = self.expression()?;
            Some(expr)
        } else {
            None
        };
        self.consume_semicolon()?;
        Ok(VarDeclaration::new(name, initializer))
    }

    fn function(&mut self, what: Callable) -> (r: Result<FunDeclaration, ParseErr>)
        requires
            old(self).ready(),
        ensures
            final(self).follows(*old(self), r is Ok),
            outcome(r, final(self).position()) == parse_function(
                old(self).tokens(),
                old(self).position(),
                what,
            ),
        decreases old(self).tokens().len() - old(self).position(), 25int,
    {
        proof {
            lemma_parse_function(old(self).tokens(), old(self).position(), what);
        }
        let ghost t = self.tokens();
        match what {
            Callable::Function => self.consume(
                TokenKind::Identifier,
                "Parse error: Expected function name.",
            )?,
            Callable::Method => self.consume(
                TokenKind::Identifier,
                "Parse error: Expected method name.",
            )?,
        }
        let name = self.previous();
        match what {
            Callable::Function => self.consume(
                TokenKind::LeftParen,
                "Parse error: Expect '(' after function name.",
            )?,
            Callable::Method => self.consume(
                TokenKind::LeftParen,
                "Parse error: Expect '(' after method name.",
            )?,
        }
        let ghost start = self.position();
        let mut parameters: Vec<Token> = Vec::new();
        if !self.check(TokenKind::RightParen) {
            loop
                invariant_except_break
                    parse_parameters(t, self.position(), parameters@) == parse_parameters(
                        t,
                        start,
                        Seq::empty(),
                    ),
                invariant
                    self.follows(*old(self), true),
                    self.ready(),
                    t == old(self).tokens(),
                    start == old(self).position() + 2,
                    check(t, start - 2, TokenKind::Identifier),
                    check(t, start - 1, TokenKind::LeftParen),
                    !check(t, start, TokenKind::RightParen),
                ensures
                    self.follows(*old(self), true),
                    self.ready(),
                    parse_parameters(t, start, Seq::empty()) == (Parsed::Value {
                        value: parameters@,
                        next: self.position(),
                    }),
                decreases t.len() - self.position(),
            {
                    proof {
                        lemma_parse_function(old(self).tokens(), old(self).position(), what);
                    }
                self.consume(TokenKind::Identifier, "Parse error: Expected parameter name.")?;
                if parameters.len() >= 255 {
                    return Err(self.error("Parse error: Can't have more than 255 parameters"));
                }
                parameters.push(self.previous());
                if !self.equal(TokenKind::Comma) {
                    break ;
                }
            }
        }
        self.consume(TokenKind::RightParen, "Parse error: Expected ')' to follow '('")?;
        match what {
            Callable::Function => self.consume(
                TokenKind::LeftBrace,
                "Parse error: Expected '{' before function body",
            )?,
            Callable::Method => self.consume(
                TokenKind::LeftBrace,
                "Parse error: Expected '{' before method body",
            )?,
        }
        let body = self.block()?;
        let r = FunDeclarationStruct::new_fun_declaration(name, parameters, body);
        proof {
            assert(r@.body =~= declarations_view(body@));
        }
        Ok(r)
    }

    fn class(&mut self) -> (r: DeclarationResult)
        requires
            old(self).ready(),
        ensures
            final(self).follows(*old(self), r is Ok),
            outcome(r, final(self).position()) == parse_class(old(self).tokens(), old(self).position()),
        decreases old(self).tokens().len() - old(self).position(), 27int,
    {
        proof {
            lemma_parse_class(old(self).tokens(), old(self).position());
        }
        let ghost t = self.tokens();
        self.consume(TokenKind::Identifier, "Parse error: Expected class name")?;
        let name = self.previous();
        let superclass = if self.equal(TokenKind::Less) {
            self.consume(TokenKind::Identifier, "Parse error: Expected class name.")?;
            Some(Expr::new_variable(self.previous()))
        } else {
            None
        };
        let ghost brace = self.position();
        self.consume(TokenKind::LeftBrace, "Parse error: Expected left brace")?;
        let ghost start = self.position();
        let ghost first = old(self).position();
        let mut methods: Vec<FunDeclarationStruct> = Vec::new();
        proof {
            assert(functions_view(methods@) =~= Seq::empty());
        }
        while !self.is_at_end() && !self.check(TokenKind::RightBrace)
            invariant
                self.follows(*old(self), true),
                self.ready(),
                t == old(self).tokens(),
                first == old(self).position(),
                check(t, first, TokenKind::Identifier),
                check(t, brace, TokenKind::LeftBrace),
                start == brace + 1,
                brace == if check(t, first + 1, TokenKind::Less) {
                    first + 3
                } else {
                    first + 1
                },
                check(t, first + 1, TokenKind::Less) ==> check(t, first + 2, TokenKind::Identifier),
                start <= self.position(),
                parse_methods(t, self.position(), functions_view(methods@)) == parse_methods(
                    t,
                    start,
                    Seq::empty(),
                ),
            decreases t.len() - self.position(),
        {
                proof {
                    lemma_parse_methods(t, self.position(), functions_view(methods@));
                    lemma_parse_class(old(self).tokens(), old(self).position());
                }
            let function = self.function(Callable::Method)?;
            insert_method(&mut methods, function);
        }
        proof {
            lemma_parse_methods(t, self.position(), functions_view(methods@));
        }
        self.consume(TokenKind::RightBrace, "Parse error: Expected right brace.")?;
        let r = Declaration::new_class(methods, name, superclass);
        proof {
            assert(r@->Class_0.methods =~= functions_view(methods@));
        }
        Ok(r)
    }

    fn declaration(&mut self) -> (r: DeclarationResult)
        requires
            old(self).ready(),
        ensures
            final(self).follows(*old(self), r is Ok),
            outcome(r, final(self).position()) == parse_declaration(
                old(self).tokens(),
                old(self).position(),
            ),
        decreases old(self).tokens().len() - old(self).position(), 23int,
    {
        proof {
            lemma_parse_declaration(old(self).tokens(), old(self).position());
        }
        if self.equal(TokenKind::Class) {
            self.class()
        } else if self.equal(TokenKind::Var) {
            Ok(Declaration::VarDeclaration(self.var_declaration()?))
        } else if self.equal(TokenKind::Fun) {
            let function = self.function(Callable::Function)?;
            Ok(Declaration::FunDeclaration(function))
        } else {
            let statement = self.statement()?;
            Ok(Declaration::Statement(statement))
        }
    }

    /// Records a syntax error for the sink.
    fn report(&mut self, error: ParseErr)
        requires
            old(self).wf(),
        ensures
            final(self).wf(),
            final(self).tokens() == old(self).tokens(),
            final(self).position() == old(self).position(),
            final(self).reported() == old(self).reported().push(
                DiagnosticView { line: error@.line as nat, message: error@.message },
            ),
    {
        let ghost before = self.diagnostics@;
        let diagnostic = Diagnostic { line: error.line, message: error.message };
        self.diagnostics.push(diagnostic);
        proof {
            assert(diagnostics_view(self.diagnostics@) =~= diagnostics_view(before).push(diagnostic@));
        }
    }

    /// Parses the tokens from the parser's position to their end.
    ///
    /// After a syntax error the parser reports it, discards tokens up to the
    /// next point at which a declaration may begin, and goes on. The tree is
    /// returned if and only if no error occurred; each error is added to the
    /// diagnostics.
    pub fn parse(&mut self) -> (r: AstResult)
        requires
            old(self).wf(),
        ensures
            final(self).wf(),
            final(self).tokens() == old(self).tokens(),
            final(self).position() >= old(self).position(),
            final(self).position() >= final(self).tokens().len(),
            ({
                let p = parse_program(
                    old(self).tokens(),
                    old(self).position(),
                    Program { declarations: Seq::empty(), failures: Seq::empty() },
                );
                &&& final(self).reported() == old(self).reported() + failure_reports(p.failures)
                &&& match r {
                    Ok(ast) => p.failures.len() == 0 && ast@.declarations == p.declarations,
                    Err(_) => p.failures.len() > 0,
                }
            }),
    {
        let ghost t = self.tokens();
        let ghost start = self.position();
        let ghost nothing = Program { declarations: Seq::empty(), failures: Seq::empty() };
        let ghost mut failures: Seq<Failure> = Seq::empty();
        let mut declarations: Vec<Declaration> = Vec::new();
        let mut had_error = false;
        proof {
            assert(declarations_view(declarations@) =~= Seq::<DeclarationView>::empty());
            assert(self.reported() + failure_reports(failures) =~= self.reported());
        }
        while !self.is_at_end()
            invariant
                self.wf(),
                self.tokens() == t,
                t == old(self).tokens(),
                start == old(self).position(),
                self.position() >= start,
                self.reported() == old(self).reported() + failure_reports(failures),
                had_error == (failures.len() > 0),
                parse_program(
                    t,
                    self.position(),
                    Program { declarations: declarations_view(declarations@), failures },
                ) == parse_program(t, start, nothing),
            decreases t.len() - self.position(),
        {
            let ghost seen = declarations_view(declarations@);
            let ghost here = self.position();
            match self.declaration() {
                Ok(declaration) => {
                    declarations.push(declaration);
                    proof {
                        assert(declarations_view(declarations@) =~= seen.push(declaration@));
                    }
                },
                Err(parse_error) => {
                    proof {
                        assert(failure_reports(failures.push(parse_error@)) =~= failure_reports(
                            failures,
                        ).push(
                            DiagnosticView {
                                line: parse_error@.line as nat,
                                message: parse_error@.message,
                            },
                        ));
                        failures = failures.push(parse_error@);
                    }
                    self.report(parse_error);
                    had_error = true;
                    let ghost stopped = self.position();
                    self.synchronize();
                    proof {
                        lemma_resume_at_bounds(t, advance(t, stopped));
                        assert(self.position() > here);
                    }
                },
            }
        }
        if had_error {
            Err(())
        } else {
            Ok(Ast { declarations })
        }
    }

    /// A parser at the start of `tokens`, with nothing reported.
    pub fn new(tokens: VecDeque<Token>) -> (r: Parser)
        ensures
            r.wf(),
            r.tokens() == tokens@,
            r.position() == 0,
            r.reported() == Seq::<DiagnosticView>::empty(),
    {
        let mut rest = tokens;
        let mut list: Vec<Token> = Vec::new();
        while rest.len() > 0
            invariant
                list@ + rest@ == tokens@,
            decreases rest.len(),
        {
            let ghost before = rest@;
            let ghost seen = list@;
            match rest.pop_front() {
                Some(token) => {
                    list.push(token);
                    proof {
                        assert(seen.push(token) + rest@ =~= seen + before);
                    }
                },
                None => {},
            }
        }
        proof {
            assert(list@ =~= tokens@);
            assert(diagnostics_view(Seq::<Diagnostic>::empty()) =~= Seq::<DiagnosticView>::empty());
        }
        Parser { tokens: list, current: 0, diagnostics: Vec::new() }
    }

    /// The diagnostics reported so far, oldest first.
    pub fn diagnostics(&self) -> (r: &Vec<Diagnostic>)
        ensures
            diagnostics_view(r@) == self.reported(),
    {
        &self.diagnostics
    }
}

} // verus!
