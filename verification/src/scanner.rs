//! The scanner: source text to tokens.
//!
//! What the tokens of a text are is a function on its characters:
//! [`scan_one`] says what the token starting at a position is, and
//! [`scan_from`] chains it to the end of the text. The executable scanner is
//! proved to compute exactly that.

use std::collections::VecDeque;
use vstd::prelude::*;

use crate::error::{diagnostics_view, Diagnostic, DiagnosticView};
use crate::text::push_char;
use crate::token::{lexemes, Lexeme, Token, TokenKind};

verus! {

pub open spec fn spec_is_digit(c: char) -> bool {
    '0' <= c && c <= '9'
}

pub open spec fn spec_is_alpha(c: char) -> bool {
    ('a' <= c && c <= 'z') || ('A' <= c && c <= 'Z') || c == '_'
}

pub open spec fn spec_is_alpha_numeric(c: char) -> bool {
    spec_is_digit(c) || spec_is_alpha(c)
}

pub fn is_digit(c: char) -> (r: bool)
    ensures
        r == spec_is_digit(c),
{
    '0' <= c && c <= '9'
}

pub fn is_alpha(c: char) -> (r: bool)
    ensures
        r == spec_is_alpha(c),
{
    ('a' <= c && c <= 'z') || ('A' <= c && c <= 'Z') || c == '_'
}

pub fn is_alpha_numeric(c: char) -> (r: bool)
    ensures
        r == spec_is_alpha_numeric(c),
{
    is_digit(c) || is_alpha(c)
}

/// The reserved words and the kind each one scans to.
pub open spec fn keyword_table() -> Seq<(Seq<char>, TokenKind)> {
    seq![
        ("and"@, TokenKind::And),
        ("class"@, TokenKind::Class),
        ("else"@, TokenKind::Else),
        ("false"@, TokenKind::False),
        ("for"@, TokenKind::For),
        ("fun"@, TokenKind::Fun),
        ("if"@, TokenKind::If),
        ("nil"@, TokenKind::Nil),
        ("or"@, TokenKind::Or),
        ("print"@, TokenKind::Print),
        ("return"@, TokenKind::Return),
        ("super"@, TokenKind::Super),
        ("this"@, TokenKind::This),
        ("true"@, TokenKind::True),
        ("var"@, TokenKind::Var),
        ("while"@, TokenKind::While),
    ]
}

/// The kind of the first entry of `table` at or after `from` whose word is `text`.
pub open spec fn table_lookup(table: Seq<(Seq<char>, TokenKind)>, text: Seq<char>, from: int) -> Option<
    TokenKind,
>
    decreases table.len() - from,
{
    if from < 0 || from >= table.len() {
        None
    } else if table[from].0 == text {
        Some(table[from].1)
    } else {
        table_lookup(table, text, from + 1)
    }
}

/// The kind of a word: its keyword kind if it is reserved, else `Identifier`.
pub open spec fn word_kind(text: Seq<char>) -> TokenKind {
    match table_lookup(keyword_table(), text, 0) {
        Some(kind) => kind,
        None => TokenKind::Identifier,
    }
}

/// The classes of character that the scanner consumes in runs.
pub enum Run {
    /// Decimal digits.
    Digits,
    /// Letters, digits and underscores.
    Word,
    /// Anything up to the end of the line.
    Line,
    /// Anything up to a closing quote.
    Quoted,
}

pub open spec fn in_run(c: char, run: Run) -> bool {
    match run {
        Run::Digits => spec_is_digit(c),
        Run::Word => spec_is_alpha_numeric(c),
        Run::Line => c != '\n',
        Run::Quoted => c != '"',
    }
}

/// The character at `pos`, or NUL past the end of the text.
pub open spec fn char_at(src: Seq<char>, pos: int) -> char {
    if 0 <= pos < src.len() {
        src[pos]
    } else {
        '\0'
    }
}

/// Where the run of `run` characters that starts at `pos` ends.
pub open spec fn run_end(src: Seq<char>, pos: int, run: Run) -> int
    decreases src.len() - pos,
{
    if 0 <= pos < src.len() && in_run(src[pos], run) {
        run_end(src, pos + 1, run)
    } else {
        pos
    }
}

/// The number of newlines in `src[from..to)`.
pub open spec fn newlines(src: Seq<char>, from: int, to: int) -> nat
    decreases to - from,
{
    if to <= from || to > src.len() || from < 0 {
        0
    } else if src[to - 1] == '\n' {
        newlines(src, from, to - 1) + 1
    } else {
        newlines(src, from, to - 1)
    }
}

/// What scanning one token yields: the token, where the next one starts, and
/// the complaint, if the token is malformed.
pub struct Scanned {
    pub kind: TokenKind,
    pub text: Seq<char>,
    pub next: int,
    pub line: nat,
    pub problem: Option<Seq<char>>,
}

/// A token without text that ends at `next`.
pub open spec fn plain(kind: TokenKind, next: int, line: nat) -> Scanned {
    Scanned { kind, text: Seq::empty(), next, line, problem: None }
}

/// A token of one or two characters: `double` if `second` follows, else `single`.
pub open spec fn one_or_two(
    src: Seq<char>,
    pos: int,
    line: nat,
    second: char,
    double: TokenKind,
    single: TokenKind,
) -> Scanned {
    if char_at(src, pos + 1) == second && pos + 1 < src.len() {
        plain(double, pos + 2, line)
    } else {
        plain(single, pos + 1, line)
    }
}

/// Where the number that starts at `pos` ends: digits, then a dot and more
/// digits if a digit follows the dot.
pub open spec fn number_end(src: Seq<char>, pos: int) -> int {
    let whole = run_end(src, pos, Run::Digits);
    if char_at(src, whole) == '.' && spec_is_digit(char_at(src, whole + 1)) {
        run_end(src, whole + 1, Run::Digits)
    } else {
        whole
    }
}

/// The token that starts at `pos`, scanned with the line counter at `line`.
pub open spec fn scan_one(src: Seq<char>, pos: int, line: nat) -> Scanned
    recommends
        0 <= pos < src.len(),
{
    let c = src[pos];
    if c == '(' {
        plain(TokenKind::LeftParen, pos + 1, line)
    } else if c == ')' {
        plain(TokenKind::RightParen, pos + 1, line)
    } else if c == '{' {
        plain(TokenKind::LeftBrace, pos + 1, line)
    } else if c == '}' {
        plain(TokenKind::RightBrace, pos + 1, line)
    } else if c == ',' {
        plain(TokenKind::Comma, pos + 1, line)
    } else if c == '.' {
        plain(TokenKind::Dot, pos + 1, line)
    } else if c == '-' {
        plain(TokenKind::Minus, pos + 1, line)
    } else if c == '+' {
        plain(TokenKind::Plus, pos + 1, line)
    } else if c == ';' {
        plain(TokenKind::Semicolon, pos + 1, line)
    } else if c == '*' {
        plain(TokenKind::Star, pos + 1, line)
    } else if c == '/' {
        if char_at(src, pos + 1) == '/' {
            plain(TokenKind::Comment, run_end(src, pos + 2, Run::Line), line)
        } else {
            plain(TokenKind::Slash, pos + 1, line)
        }
    } else if c == '!' {
        one_or_two(src, pos, line, '=', TokenKind::BangEqual, TokenKind::Bang)
    } else if c == '=' {
        one_or_two(src, pos, line, '=', TokenKind::EqualEqual, TokenKind::Equal)
    } else if c == '<' {
        one_or_two(src, pos, line, '=', TokenKind::LessEqual, TokenKind::Less)
    } else if c == '>' {
        one_or_two(src, pos, line, '=', TokenKind::GreaterEqual, TokenKind::Greater)
    } else if c == ' ' || c == '\r' || c == '\t' {
        plain(TokenKind::WhiteSpace, pos + 1, line)
    } else if c == '\n' {
        plain(TokenKind::WhiteSpace, pos + 1, line + 1)
    } else if c == '"' {
        let close = run_end(src, pos + 1, Run::Quoted);
        let text = src.subrange(pos + 1, close);
        let line = line + newlines(src, pos + 1, close);
        if close >= src.len() {
            Scanned {
                kind: TokenKind::StringT,
                text,
                next: close,
                line,
                problem: Some("Unterminated string."@),
            }
        } else {
            Scanned { kind: TokenKind::StringT, text, next: close + 1, line, problem: None }
        }
    } else if spec_is_digit(c) {
        let end = number_end(src, pos + 1);
        Scanned { kind: TokenKind::Number, text: src.subrange(pos, end), next: end, line, problem: None }
    } else if spec_is_alpha(c) {
        let end = run_end(src, pos + 1, Run::Word);
        let text = src.subrange(pos, end);
        Scanned { kind: word_kind(text), text, next: end, line, problem: None }
    } else {
        Scanned {
            kind: TokenKind::Error,
            text: Seq::empty(),
            next: pos + 1,
            line,
            problem: Some("Unexpected character: "@.push(c)),
        }
    }
}

/// Whether a token of this kind is left out of the scanner's output.
pub open spec fn is_trivia(kind: TokenKind) -> bool {
    kind == TokenKind::WhiteSpace || kind == TokenKind::Comment
}

/// The tokens of `src` from `pos` on, scanned with the line counter at `line`.
pub open spec fn scan_from(src: Seq<char>, pos: int, line: nat) -> Seq<Lexeme>
    decreases src.len() - pos,
{
    if pos < 0 || pos >= src.len() {
        Seq::empty()
    } else {
        let one = scan_one(src, pos, line);
        if one.next <= pos || one.next > src.len() {
            Seq::empty()
        } else if is_trivia(one.kind) {
            scan_from(src, one.next, one.line)
        } else {
            seq![Lexeme { kind: one.kind, line: one.line, text: one.text }] + scan_from(
                src,
                one.next,
                one.line,
            )
        }
    }
}

/// The complaints raised while scanning `src` from `pos` on.
pub open spec fn problems_from(src: Seq<char>, pos: int, line: nat) -> Seq<DiagnosticView>
    decreases src.len() - pos,
{
    if pos < 0 || pos >= src.len() {
        Seq::empty()
    } else {
        let one = scan_one(src, pos, line);
        if one.next <= pos || one.next > src.len() {
            Seq::empty()
        } else {
            match one.problem {
                Some(message) => seq![DiagnosticView { line: one.line, message }] + problems_from(
                    src,
                    one.next,
                    one.line,
                ),
                None => problems_from(src, one.next, one.line),
            }
        }
    }
}

/// The line counter after scanning `src` from `pos` to its end.
pub open spec fn line_after(src: Seq<char>, pos: int, line: nat) -> nat
    decreases src.len() - pos,
{
    if pos < 0 || pos >= src.len() {
        line
    } else {
        let one = scan_one(src, pos, line);
        if one.next <= pos || one.next > src.len() {
            line
        } else {
            line_after(src, one.next, one.line)
        }
    }
}

/// The tokens of a whole source text.
pub open spec fn scan(src: Seq<char>) -> Seq<Lexeme> {
    scan_from(src, 0, 0)
}

/// A run ends at or after its start, within the text, at a character outside the run.
pub proof fn lemma_run_end(src: Seq<char>, pos: int, run: Run)
    requires
        0 <= pos <= src.len(),
    ensures
        pos <= run_end(src, pos, run) <= src.len(),
        run_end(src, pos, run) < src.len() ==> !in_run(src[run_end(src, pos, run)], run),
        forall|i: int| pos <= i < run_end(src, pos, run) ==> in_run(#[trigger] src[i], run),
    decreases src.len() - pos,
{
    if pos < src.len() && in_run(src[pos], run) {
        lemma_run_end(src, pos + 1, run);
    }
}

/// A number ends at or after its start, within the text.
pub proof fn lemma_number_end(src: Seq<char>, pos: int)
    requires
        0 <= pos <= src.len(),
    ensures
        pos <= number_end(src, pos) <= src.len(),
{
    lemma_run_end(src, pos, Run::Digits);
    let whole = run_end(src, pos, Run::Digits);
    if whole + 1 <= src.len() {
        lemma_run_end(src, whole + 1, Run::Digits);
    }
}

/// Newlines in a stretch of text are at most its length.
pub proof fn lemma_newlines_bound(src: Seq<char>, from: int, to: int)
    requires
        0 <= from <= to <= src.len(),
    ensures
        newlines(src, from, to) <= to - from,
    decreases to - from,
{
    if to > from {
        lemma_newlines_bound(src, from, to - 1);
    }
}

/// Every token takes at least one character and ends within the text, and the
/// line counter grows by no more than the characters consumed.
pub proof fn lemma_scan_one_advances(src: Seq<char>, pos: int, line: nat)
    requires
        0 <= pos < src.len(),
    ensures
        pos < scan_one(src, pos, line).next <= src.len(),
        line <= scan_one(src, pos, line).line <= line + (scan_one(src, pos, line).next - pos),
{
    lemma_run_end(src, pos + 1, Run::Quoted);
    lemma_run_end(src, pos + 1, Run::Digits);
    lemma_run_end(src, pos + 1, Run::Word);
    if pos + 2 <= src.len() {
        lemma_run_end(src, pos + 2, Run::Line);
    }
    let whole = run_end(src, pos + 1, Run::Digits);
    if whole + 1 <= src.len() {
        lemma_run_end(src, whole + 1, Run::Digits);
    }
    lemma_newlines_bound(src, pos + 1, run_end(src, pos + 1, Run::Quoted));
}

/// Neither whitespace nor comments appear among the scanned tokens.
pub proof fn theorem_scan_omits_trivia(src: Seq<char>, pos: int, line: nat)
    ensures
        forall|i: int|
            0 <= i < scan_from(src, pos, line).len() ==> !is_trivia(
                (#[trigger] scan_from(src, pos, line)[i]).kind,
            ),
    decreases src.len() - pos,
{
    if 0 <= pos < src.len() {
        let one = scan_one(src, pos, line);
        if pos < one.next <= src.len() {
            theorem_scan_omits_trivia(src, one.next, one.line);
        }
    }
}

/// A keyword and the kind it scans to.
struct Keyword {
    word: String,
    kind: TokenKind,
}

/// The scanner's state: the source as characters, the position of the next
/// character, the line counter, and the diagnostics raised so far.
pub struct Scanner {
    source: Vec<char>,
    start: usize,
    line: usize,
    current: usize,
    keywords: Vec<Keyword>,
    diagnostics: Vec<Diagnostic>,
}

spec fn keywords_view(keywords: Seq<Keyword>) -> Seq<(Seq<char>, TokenKind)> {
    Seq::new(keywords.len(), |i: int| (keywords[i].word@, keywords[i].kind))
}

impl Scanner {
    /// The scanner's invariant: the position lies within the source, no more
    /// lines were counted than characters consumed, and the keyword table is
    /// the language's.
    pub closed spec fn wf(&self) -> bool {
        &&& self.current <= self.source.len()
        &&& self.line <= self.current
        &&& keywords_view(self.keywords@) == keyword_table()
    }

    /// The characters of the source text.
    pub closed spec fn source(&self) -> Seq<char> {
        self.source@
    }

    /// The index of the next character to scan.
    pub closed spec fn position(&self) -> int {
        self.current as int
    }

    /// The line counter: the number of newlines consumed so far.
    pub closed spec fn line(&self) -> nat {
        self.line as nat
    }

    /// The diagnostics raised so far, oldest first.
    pub closed spec fn problems(&self) -> Seq<DiagnosticView> {
        diagnostics_view(self.diagnostics@)
    }

    /// A scanner at the start of `source`, with no diagnostics.
    pub fn new(source: String) -> (r: Scanner)
        ensures
            r.wf(),
            r.source() == source@,
            r.position() == 0,
            r.line() == 0,
            r.problems() == Seq::<DiagnosticView>::empty(),
    {
        let mut chars: Vec<char> = Vec::new();
        let text = source.as_str();
        for c in it: text.chars()
            invariant
                it.seq() == source@,
                chars@ == it.seq().take(it.index() as int),
        {
            chars.push(c);
        }
        let mut keywords: Vec<Keyword> = Vec::new();
        keywords.push(Keyword { word: String::from_str("and"), kind: TokenKind::And });
        keywords.push(Keyword { word: String::from_str("class"), kind: TokenKind::Class });
        keywords.push(Keyword { word: String::from_str("else"), kind: TokenKind::Else });
        keywords.push(Keyword { word: String::from_str("false"), kind: TokenKind::False });
        keywords.push(Keyword { word: String::from_str("for"), kind: TokenKind::For });
        keywords.push(Keyword { word: String::from_str("fun"), kind: TokenKind::Fun });
        keywords.push(Keyword { word: String::from_str("if"), kind: TokenKind::If });
        keywords.push(Keyword { word: String::from_str("nil"), kind: TokenKind::Nil });
        keywords.push(Keyword { word: String::from_str("or"), kind: TokenKind::Or });
        keywords.push(Keyword { word: String::from_str("print"), kind: TokenKind::Print });
        keywords.push(Keyword { word: String::from_str("return"), kind: TokenKind::Return });
        keywords.push(Keyword { word: String::from_str("super"), kind: TokenKind::Super });
        keywords.push(Keyword { word: String::from_str("this"), kind: TokenKind::This });
        keywords.push(Keyword { word: String::from_str("true"), kind: TokenKind::True });
        keywords.push(Keyword { word: String::from_str("var"), kind: TokenKind::Var });
        keywords.push(Keyword { word: String::from_str("while"), kind: TokenKind::While });
        proof {
            assert(keywords_view(keywords@) =~= keyword_table());
            assert(chars@ =~= source@);
            assert(diagnostics_view(Seq::<Diagnostic>::empty()) =~= Seq::<DiagnosticView>::empty());
        }
        Scanner { source: chars, current: 0, line: 0, start: 0, keywords, diagnostics: Vec::new() }
    }

    fn is_at_end(&self) -> (r: bool)
        requires
            self.wf(),
        ensures
            r == (self.position() >= self.source().len()),
    {
        self.current >= self.source.len()
    }

    fn advance(&mut self) -> (c: char)
        requires
            old(self).wf(),
            old(self).position() < old(self).source().len(),
        ensures
            final(self).wf(),
            c == old(self).source()[old(self).position()],
            final(self).position() == old(self).position() + 1,
            final(self).source() == old(self).source(),
            final(self).line() == old(self).line(),
            final(self).problems() == old(self).problems(),
    {
        let r = self.source[self.current];
        self.current += 1;
        r
    }

    fn peek(&self) -> (c: char)
        requires
            self.wf(),
        ensures
            c == char_at(self.source(), self.position()),
    {
        if self.is_at_end() {
            '\0'
        } else {
            self.source[self.current]
        }
    }

    fn equal(&mut self, expected: char) -> (r: bool)
        requires
            old(self).wf(),
        ensures
            final(self).wf(),
            r == (old(self).position() < old(self).source().len() && old(self).source()[old(
                self,
            ).position()] == expected),
            final(self).position() == old(self).position() + if r {
                1int
            } else {
                0int
            },
            final(self).source() == old(self).source(),
            final(self).line() == old(self).line(),
            final(self).problems() == old(self).problems(),
    {
        if self.is_at_end() {
            return false;
        }
        if self.source[self.current] != expected {
            return false;
        }
        self.current += 1;
        true
    }

    fn peek_next(&self) -> (c: char)
        requires
            self.wf(),
        ensures
            c == char_at(self.source(), self.position() + 1),
    {
        if self.current >= self.source.len() || self.current + 1 >= self.source.len() {
            '\0'
        } else {
            self.source[self.current + 1]
        }
    }

    /// Counts one more line; the newline that starts it has been consumed.
    fn count_line(&mut self)
        requires
            old(self).wf(),
            old(self).line() < old(self).position(),
        ensures
            final(self).wf(),
            final(self).line() == old(self).line() + 1,
            final(self).position() == old(self).position(),
            final(self).source() == old(self).source(),
            final(self).problems() == old(self).problems(),
    {
        self.line += 1;
    }

    /// Records a diagnostic at the current line.
    fn report(&mut self, message: String)
        requires
            old(self).wf(),
        ensures
            final(self).wf(),
            final(self).problems() == old(self).problems().push(
                DiagnosticView { line: old(self).line(), message: message@ },
            ),
            final(self).line() == old(self).line(),
            final(self).position() == old(self).position(),
            final(self).source() == old(self).source(),
    {
        let ghost before = self.diagnostics@;
        self.diagnostics.push(Diagnostic { line: self.line, message });
        proof {
            assert(diagnostics_view(self.diagnostics@) =~= diagnostics_view(before).push(
                DiagnosticView { line: self.line as nat, message: message@ },
            ));
        }
    }

    /// Consumes the run of `run` characters at the current position, and
    /// returns them appended to `text`, counting the newlines among them.
    fn take_run(&mut self, text: String, run: Run) -> (r: String)
        requires
            old(self).wf(),
            old(self).line() + 1 <= old(self).position() || !(run is Quoted),
        ensures
            final(self).wf(),
            final(self).position() == run_end(old(self).source(), old(self).position(), run),
            r@ == text@ + old(self).source().subrange(old(self).position(), final(self).position()),
            final(self).source() == old(self).source(),
            final(self).problems() == old(self).problems(),
            final(self).line() == old(self).line() + if run is Quoted {
                newlines(old(self).source(), old(self).position(), final(self).position())
            } else {
                0
            },
    {
        let mut s = text;
        let ghost src = self.source();
        let ghost begin = self.position();
        let ghost line0 = self.line();
        proof {
            assert(src.subrange(begin, begin) =~= Seq::<char>::empty());
            assert(text@ + Seq::<char>::empty() =~= text@);
        }
        loop
            invariant
                self.wf(),
                self.source() == src,
                self.problems() == old(self).problems(),
                0 <= begin <= self.position() <= src.len(),
                run_end(src, self.position(), run) == run_end(src, begin, run),
                s@ == text@ + src.subrange(begin, self.position()),
                run is Quoted ==> self.line() == line0 + newlines(src, begin, self.position()),
                run is Quoted ==> line0 + 1 <= begin,
                !(run is Quoted) ==> self.line() == line0,
            ensures
                self.position() == run_end(src, begin, run),
            decreases src.len() - self.position(),
        {
            if self.is_at_end() {
                break;
            }
            let c = self.peek();
            let keep = match run {
                Run::Digits => is_digit(c),
                Run::Word => is_alpha_numeric(c),
                Run::Line => c != '\n',
                Run::Quoted => c != '"',
            };
            if !keep {
                break;
            }
            let ghost here = self.position();
            let c = self.advance();
            proof {
                lemma_newlines_bound(src, begin, here);
            }
            if c == '\n' {
                if let Run::Quoted = run {
                    self.count_line();
                }
            }
            push_char(&mut s, c);
            proof {
                assert(src.subrange(begin, here + 1) =~= src.subrange(begin, here).push(c));
                assert(text@ + src.subrange(begin, here).push(c) =~= (text@ + src.subrange(
                    begin,
                    here,
                )).push(c));
            }
        }
        s
    }

    /// The text of a string literal whose opening quote has been consumed.
    fn string(&mut self) -> (s: String)
        requires
            old(self).wf(),
            old(self).line() + 1 <= old(self).position(),
        ensures
            final(self).wf(),
            final(self).source() == old(self).source(),
            ({
                let src = old(self).source();
                let close = run_end(src, old(self).position(), Run::Quoted);
                &&& s@ == src.subrange(old(self).position(), close)
                &&& final(self).line() == old(self).line() + newlines(src, old(self).position(), close)
                &&& final(self).position() == if close >= src.len() {
                    close
                } else {
                    close + 1
                }
                &&& final(self).problems() == if close >= src.len() {
                    old(self).problems().push(
                        DiagnosticView { line: final(self).line(), message: "Unterminated string."@ },
                    )
                } else {
                    old(self).problems()
                }
            }),
    {
        proof {
            lemma_run_end(self.source(), self.position(), Run::Quoted);
        }
        let s = self.take_run(String::new(), Run::Quoted);
        proof {
            assert(Seq::<char>::empty() + s@ =~= s@);
        }
        if self.is_at_end() {
            self.report(String::from_str("Unterminated string."));
        } else {
            self.advance();
        }
        s
    }

    /// The rest of a number literal whose first digit has been consumed.
    fn number(&mut self) -> (s: String)
        requires
            old(self).wf(),
        ensures
            final(self).wf(),
            final(self).source() == old(self).source(),
            final(self).line() == old(self).line(),
            final(self).problems() == old(self).problems(),
            final(self).position() == number_end(old(self).source(), old(self).position()),
            s@ == old(self).source().subrange(old(self).position(), final(self).position()),
    {
        let ghost src = self.source();
        let ghost begin = self.position();
        proof {
            lemma_run_end(src, begin, Run::Digits);
        }
        let mut s = self.take_run(String::new(), Run::Digits);
        let ghost whole = self.position();
        if self.peek() == '.' && is_digit(self.peek_next()) {
            let c = self.advance();
            push_char(&mut s, c);
            proof {
                lemma_run_end(src, whole + 1, Run::Digits);
            }
            s = self.take_run(s, Run::Digits);
            proof {
                assert(s@ =~= src.subrange(begin, self.position()));
            }
        } else {
            proof {
                assert(s@ =~= src.subrange(begin, self.position()));
            }
        }
        s
    }

    /// The rest of a word whose first character has been consumed.
    fn identifier(&mut self) -> (s: String)
        requires
            old(self).wf(),
        ensures
            final(self).wf(),
            final(self).source() == old(self).source(),
            final(self).line() == old(self).line(),
            final(self).problems() == old(self).problems(),
            final(self).position() == run_end(old(self).source(), old(self).position(), Run::Word),
            s@ == old(self).source().subrange(old(self).position(), final(self).position()),
    {
        let s = self.take_run(String::new(), Run::Word);
        proof {
            assert(Seq::<char>::empty() + s@ =~= s@);
        }
        s
    }

    /// The kind of the word `text`.
    fn keyword(&self, text: &String) -> (kind: TokenKind)
        requires
            self.wf(),
        ensures
            kind == word_kind(text@),
    {
        let mut i: usize = 0;
        while i < self.keywords.len()
            invariant
                self.wf(),
                i <= self.keywords.len(),
                keywords_view(self.keywords@) == keyword_table(),
                table_lookup(keyword_table(), text@, i as int) == table_lookup(keyword_table(), text@, 0),
            decreases self.keywords.len() - i,
        {
            proof {
                assert(keywords_view(self.keywords@)[i as int] == (
                    self.keywords@[i as int].word@,
                    self.keywords@[i as int].kind,
                ));
            }
            if self.keywords[i].word == *text {
                return self.keywords[i].kind;
            }
            i += 1;
        }
        TokenKind::Identifier
    }

    /// Scans the token at the current position.
    fn scan_token(&mut self) -> (token: Token)
        requires
            old(self).wf(),
            old(self).position() < old(self).source().len(),
        ensures
            final(self).wf(),
            final(self).source() == old(self).source(),
            ({
                let one = scan_one(old(self).source(), old(self).position(), old(self).line());
                &&& token@ == (Lexeme { kind: one.kind, line: one.line, text: one.text })
                &&& final(self).position() == one.next
                &&& final(self).line() == one.line
                &&& final(self).problems() == match one.problem {
                    Some(message) => old(self).problems().push(DiagnosticView { line: one.line, message }),
                    None => old(self).problems(),
                }
            }),
    {
        let ghost src = self.source();
        let ghost pos = self.position();
        let c = self.advance();
        let mut content = String::new();
        let kind: TokenKind = if c == '(' {
            TokenKind::LeftParen
        } else if c == ')' {
            TokenKind::RightParen
        } else if c == '{' {
            TokenKind::LeftBrace
        } else if c == '}' {
            TokenKind::RightBrace
        } else if c == ',' {
            TokenKind::Comma
        } else if c == '.' {
            TokenKind::Dot
        } else if c == '-' {
            TokenKind::Minus
        } else if c == '+' {
            TokenKind::Plus
        } else if c == ';' {
            TokenKind::Semicolon
        } else if c == '*' {
            TokenKind::Star
        } else if c == '/' {
            if self.equal('/') {
                let _ = self.take_run(String::new(), Run::Line);
                TokenKind::Comment
            } else {
                TokenKind::Slash
            }
        } else if c == '!' {
            if self.equal('=') {
                TokenKind::BangEqual
            } else {
                TokenKind::Bang
            }
        } else if c == '=' {
            if self.equal('=') {
                TokenKind::EqualEqual
            } else {
                TokenKind::Equal
            }
        } else if c == '<' {
            if self.equal('=') {
                TokenKind::LessEqual
            } else {
                TokenKind::Less
            }
        } else if c == '>' {
            if self.equal('=') {
                TokenKind::GreaterEqual
            } else {
                TokenKind::Greater
            }
        } else if c == ' ' || c == '\r' || c == '\t' {
            TokenKind::WhiteSpace
        } else if c == '\n' {
            self.count_line();
            TokenKind::WhiteSpace
        } else if c == '"' {
            content = self.string();
            TokenKind::StringT
        } else if is_digit(c) {
            push_char(&mut content, c);
            let rest = self.number();
            content.append(rest.as_str());
            proof {
                lemma_number_end(src, pos + 1);
                assert(content@ =~= src.subrange(pos, self.position()));
            }
            TokenKind::Number
        } else if is_alpha(c) {
            push_char(&mut content, c);
            let rest = self.identifier();
            content.append(rest.as_str());
            proof {
                lemma_run_end(src, pos + 1, Run::Word);
                assert(content@ =~= src.subrange(pos, self.position()));
            }
            self.keyword(&content)
        } else {
            let mut message = String::from_str("Unexpected character: ");
            push_char(&mut message, c);
            self.report(message);
            TokenKind::Error
        };
        Token { line: self.line, kind, content }
    }

    /// Scans the rest of the source. The tokens come out in order, without
    /// whitespace and comments; malformed input adds to the diagnostics and
    /// scanning goes on.
    pub fn scan_tokens(&mut self) -> (tokens: VecDeque<Token>)
        requires
            old(self).wf(),
        ensures
            final(self).wf(),
            lexemes(tokens@) == scan_from(old(self).source(), old(self).position(), old(self).line()),
            final(self).problems() == old(self).problems() + problems_from(
                old(self).source(),
                old(self).position(),
                old(self).line(),
            ),
            final(self).source() == old(self).source(),
            final(self).position() == old(self).source().len(),
            final(self).line() == line_after(old(self).source(), old(self).position(), old(self).line()),
    {
        let mut tokens: VecDeque<Token> = VecDeque::new();
        let ghost src = self.source();
        let ghost pos0 = self.position();
        let ghost line0 = self.line();
        let ghost problems0 = self.problems();
        proof {
            assert(lexemes(tokens@) =~= Seq::<Lexeme>::empty());
            assert(Seq::<Lexeme>::empty() + scan_from(src, pos0, line0) =~= scan_from(src, pos0, line0));
            assert(self.problems() + problems_from(src, pos0, line0) =~= problems0 + problems_from(
                src,
                pos0,
                line0,
            ));
        }
        while !self.is_at_end()
            invariant
                self.wf(),
                self.source() == src,
                0 <= self.position() <= src.len(),
                lexemes(tokens@) + scan_from(src, self.position(), self.line()) == scan_from(
                    src,
                    pos0,
                    line0,
                ),
                self.problems() + problems_from(src, self.position(), self.line()) == problems0
                    + problems_from(src, pos0, line0),
                line_after(src, self.position(), self.line()) == line_after(src, pos0, line0),
            decreases src.len() - self.position(),
        {
            let ghost here = self.position();
            let ghost line = self.line();
            let ghost before = tokens@;
            let ghost problems = self.problems();
            proof {
                lemma_scan_one_advances(src, here, line);
            }
            self.start = self.current;
            let t = self.scan_token();
            let ghost one = scan_one(src, here, line);
            match t.kind {
                TokenKind::WhiteSpace | TokenKind::Comment => {},
                _ => {
                    tokens.push_back(t);
                    proof {
                        assert(lexemes(tokens@) =~= lexemes(before).push(t@));
                        assert(lexemes(before).push(t@) + scan_from(src, one.next, one.line) =~= lexemes(
                            before,
                        ) + (seq![t@] + scan_from(src, one.next, one.line)));
                    }
                },
            }
            proof {
                match one.problem {
                    Some(message) => {
                        let d = DiagnosticView { line: one.line, message };
                        assert(problems.push(d) + problems_from(src, one.next, one.line) =~= problems + (
                        seq![d] + problems_from(src, one.next, one.line)));
                    },
                    None => {},
                }
            }
        }
        proof {
            assert(lexemes(tokens@) + Seq::<Lexeme>::empty() =~= lexemes(tokens@));
            assert(self.problems() + Seq::<DiagnosticView>::empty() =~= self.problems());
        }
        tokens
    }

    /// The diagnostics raised so far, oldest first.
    pub fn diagnostics(&self) -> (r: &Vec<Diagnostic>)
        ensures
            diagnostics_view(r@) == self.problems(),
    {
        &self.diagnostics
    }
}

} // verus!
