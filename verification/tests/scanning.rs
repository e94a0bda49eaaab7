use lox::scanner::{is_alpha, is_alpha_numeric, is_digit, Scanner};
use lox::token::{Token, TokenKind};

fn scan(source: &str) -> (Vec<Token>, Vec<(usize, String)>) {
    let mut scanner = Scanner::new(source.to_string());
    let tokens = scanner.scan_tokens().into_iter().collect();
    let problems = scanner.diagnostics().iter().map(|d| (d.line, d.render())).collect();
    (tokens, problems)
}

fn kinds(source: &str) -> Vec<TokenKind> {
    scan(source).0.iter().map(|t| t.kind).collect()
}

#[test]
fn character_classes() {
    assert!(is_digit('0') && is_digit('9') && !is_digit('a') && !is_digit('/'));
    assert!(is_alpha('a') && is_alpha('Z') && is_alpha('_') && !is_alpha('1') && !is_alpha('-'));
    assert!(is_alpha_numeric('x') && is_alpha_numeric('7') && !is_alpha_numeric(' '));
}

#[test]
fn punctuation_maps_one_to_one() {
    assert_eq!(
        kinds("(){},.;+-*/"),
        vec![
            TokenKind::LeftParen,
            TokenKind::RightParen,
            TokenKind::LeftBrace,
            TokenKind::RightBrace,
            TokenKind::Comma,
            TokenKind::Dot,
            TokenKind::Semicolon,
            TokenKind::Plus,
            TokenKind::Minus,
            TokenKind::Star,
            TokenKind::Slash,
        ]
    );
}

#[test]
fn two_character_operators_win() {
    assert_eq!(
        kinds("!= == <= >= ! = < >"),
        vec![
            TokenKind::BangEqual,
            TokenKind::EqualEqual,
            TokenKind::LessEqual,
            TokenKind::GreaterEqual,
            TokenKind::Bang,
            TokenKind::Equal,
            TokenKind::Less,
            TokenKind::Greater,
        ]
    );
    assert_eq!(kinds("==="), vec![TokenKind::EqualEqual, TokenKind::Equal]);
}

#[test]
fn comments_and_whitespace_are_left_out() {
    let (tokens, problems) = scan("a // the rest ) is ignored\n\t b\r\n// only a comment");
    assert_eq!(tokens.len(), 2);
    assert_eq!(tokens[0].content, "a");
    assert_eq!(tokens[0].line, 0);
    assert_eq!(tokens[1].content, "b");
    assert_eq!(tokens[1].line, 1);
    assert!(problems.is_empty());
}

#[test]
fn all_keywords() {
    assert_eq!(
        kinds("and class else false for fun if nil or print return super this true var while"),
        vec![
            TokenKind::And,
            TokenKind::Class,
            TokenKind::Else,
            TokenKind::False,
            TokenKind::For,
            TokenKind::Fun,
            TokenKind::If,
            TokenKind::Nil,
            TokenKind::Or,
            TokenKind::Print,
            TokenKind::Return,
            TokenKind::Super,
            TokenKind::This,
            TokenKind::True,
            TokenKind::Var,
            TokenKind::While,
        ]
    );
}

#[test]
fn identifiers_are_not_keywords() {
    let (tokens, _) = scan("classy _if var1 For");
    assert!(tokens.iter().all(|t| t.kind == TokenKind::Identifier));
    let names: Vec<&str> = tokens.iter().map(|t| t.content.as_str()).collect();
    assert_eq!(names, vec!["classy", "_if", "var1", "For"]);
}

#[test]
fn numbers_with_and_without_fraction() {
    let (tokens, problems) = scan("12 3.25 7. .5 1.2.3");
    let seen: Vec<(TokenKind, &str)> = tokens.iter().map(|t| (t.kind, t.content.as_str())).collect();
    assert_eq!(
        seen,
        vec![
            (TokenKind::Number, "12"),
            (TokenKind::Number, "3.25"),
            (TokenKind::Number, "7"),
            (TokenKind::Dot, ""),
            (TokenKind::Dot, ""),
            (TokenKind::Number, "5"),
            (TokenKind::Number, "1.2"),
            (TokenKind::Dot, ""),
            (TokenKind::Number, "3"),
        ]
    );
    assert!(problems.is_empty());
}

#[test]
fn number_at_end_of_text_with_dot() {
    let (tokens, _) = scan("1.");
    assert_eq!(tokens.len(), 2);
    assert_eq!(tokens[0].content, "1");
    assert_eq!(tokens[1].kind, TokenKind::Dot);
}

#[test]
fn strings_keep_their_text_and_count_lines() {
    let (tokens, problems) = scan("\"one\ntwo\" x \"\"");
    assert_eq!(tokens.len(), 3);
    assert_eq!(tokens[0].kind, TokenKind::StringT);
    assert_eq!(tokens[0].content, "one\ntwo");
    assert_eq!(tokens[0].line, 1);
    assert_eq!(tokens[1].line, 1);
    assert_eq!(tokens[2].kind, TokenKind::StringT);
    assert_eq!(tokens[2].content, "");
    assert!(problems.is_empty());
}

#[test]
fn strings_have_no_escapes() {
    let (tokens, _) = scan("\"a\\nb\"");
    assert_eq!(tokens[0].content, "a\\nb");
}

#[test]
fn unterminated_string_is_reported_and_kept() {
    let (tokens, problems) = scan("x \"open\nstill open");
    assert_eq!(tokens.len(), 2);
    assert_eq!(tokens[1].kind, TokenKind::StringT);
    assert_eq!(tokens[1].content, "open\nstill open");
    assert_eq!(problems, vec![(1, "Unterminated string.".to_string())]);
}

#[test]
fn unknown_character_is_reported_and_scanning_goes_on() {
    let (tokens, problems) = scan("a\n# b @");
    let seen: Vec<TokenKind> = tokens.iter().map(|t| t.kind).collect();
    assert_eq!(
        seen,
        vec![TokenKind::Identifier, TokenKind::Error, TokenKind::Identifier, TokenKind::Error]
    );
    assert_eq!(
        problems,
        vec![
            (1, "Unexpected character: #".to_string()),
            (1, "Unexpected character: @".to_string())
        ]
    );
}

#[test]
fn text_beyond_ascii_is_scanned_by_character() {
    let (tokens, problems) = scan("\"héllo\" é x");
    assert_eq!(tokens[0].content, "héllo");
    assert_eq!(tokens[1].kind, TokenKind::Error);
    assert_eq!(tokens[2].content, "x");
    assert_eq!(problems.len(), 1);
}

#[test]
fn empty_text_has_no_tokens() {
    let (tokens, problems) = scan("");
    assert!(tokens.is_empty());
    assert!(problems.is_empty());
}

#[test]
fn scanning_twice_adds_nothing() {
    let mut scanner = Scanner::new("a b".to_string());
    assert_eq!(scanner.scan_tokens().len(), 2);
    assert_eq!(scanner.scan_tokens().len(), 0);
}

#[test]
fn test_alpha_numeric() {
    assert!(is_alpha('a'));
    assert!(is_alpha('t'));
    assert!(is_digit('1'));
}

#[test]
fn scans_operators_and_keywords() {
    let mut scanner = Scanner::new("var a = 1.5; // note\nif (a >= 2) print \"hi\";".to_string());
    let tokens = scanner.scan_tokens();
    let kinds: Vec<TokenKind> = tokens.iter().map(|t| t.kind).collect();
    assert_eq!(
        kinds,
        vec![
            TokenKind::Var,
            TokenKind::Identifier,
            TokenKind::Equal,
            TokenKind::Number,
            TokenKind::Semicolon,
            TokenKind::If,
            TokenKind::LeftParen,
            TokenKind::Identifier,
            TokenKind::GreaterEqual,
            TokenKind::Number,
            TokenKind::RightParen,
            TokenKind::Print,
            TokenKind::StringT,
            TokenKind::Semicolon,
        ]
    );
    assert_eq!(tokens[3].content, "1.5");
    assert_eq!(tokens[12].content, "hi");
    assert_eq!(tokens[12].line, 1);
    assert!(scanner.diagnostics().is_empty());
}
