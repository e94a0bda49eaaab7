//! Shortcuts for trying the front end: a token for a name, and a tree from source text.

use vstd::prelude::*;

use crate::ast::Ast;
use crate::grammar::{parse_program, Program};
use crate::parser::Parser;
use crate::scanner::{scan, Scanner};
use crate::token::{lexemes, Token, TokenKind};

verus! {

/// The identifier `s`, on line 0.
pub fn new_var(s: &str) -> (r: Token)
    ensures
        r.kind == TokenKind::Identifier,
        r.line == 0,
        r.content@ == s@,
{
    Token { kind: TokenKind::Identifier, line: 0, content: String::from_str(s) }
}

/// Scans and parses `s`. The tree is returned if and only if the tokens of
/// `s` parse without a syntax error.
pub fn scan_parse(s: &str) -> (r: Option<Ast>)
    ensures
        exists|tokens: Seq<Token>|
            {
                let parsed = #[trigger] parse_program(
                    tokens,
                    0,
                    Program { declarations: Seq::empty(), failures: Seq::empty() },
                );
                &&& lexemes(tokens) == scan(s@)
                &&& match r {
                    Some(ast) => parsed.failures.len() == 0 && ast@.declarations
                        == parsed.declarations,
                    None => parsed.failures.len() > 0,
                }
            },
{
    let mut scanner = Scanner::new(String::from_str(s));
    let tokens = scanner.scan_tokens();
    let ghost seen = tokens@;
    let mut parser = Parser::new(tokens);
    let r = match parser.parse() {
        Ok(ast) => Some(ast),
        Err(_) => None,
    };
    proof {
        let parsed = parse_program(
            seen,
            0,
            Program { declarations: Seq::empty(), failures: Seq::empty() },
        );
        assert(lexemes(seen) == scan(s@));
    }
    r
}

} // verus!
