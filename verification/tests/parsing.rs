use lox::ast::{Ast, Declaration, Expr, ExprKind, Initializer, Statement};
use lox::parser::Parser;
use lox::scanner::Scanner;
use lox::test_utils::{new_var, scan_parse};
use lox::token::TokenKind;

fn parse_all(code: &str) -> (Result<Ast, ()>, Vec<(usize, String)>) {
    let mut scanner = Scanner::new(code.to_string());
    let mut parser = Parser::new(scanner.scan_tokens());
    let result = parser.parse();
    let problems = parser.diagnostics().iter().map(|d| (d.line, d.render())).collect();
    (result, problems)
}

fn must_parse(code: &str) -> Ast {
    match scan_parse(code) {
        Some(ast) => ast,
        None => panic!("Parse failed"),
    }
}

fn expression(code: &str) -> Expr {
    let ast = scan_parse(code).expect("Parse failed");
    match ast.declarations.into_iter().next() {
        Some(Declaration::Statement(Statement::ExprStatement(e))) => e,
        other => panic!("not an expression statement: {:?}", other),
    }
}

/// The expression in prefix notation, every operator in parentheses.
fn show(e: &Expr) -> String {
    match &e.kind {
        ExprKind::Assign(a) => format!("(= {} {})", e.token.content, show(&a.initializer)),
        ExprKind::Binary(b) => format!("({:?} {} {})", e.token.kind, show(&b.left), show(&b.right)),
        ExprKind::Logical(b) => format!("({:?} {} {})", e.token.kind, show(&b.left), show(&b.right)),
        ExprKind::Call(c) => {
            let args: Vec<String> = c.arguments.iter().map(show).collect();
            format!("(call {} [{}])", show(&c.callee), args.join(" "))
        }
        ExprKind::Get(o) => format!("(get {} {})", show(o), e.token.content),
        ExprKind::SetExpr(s) => format!("(set {} {} {})", show(&s.object), e.token.content, show(&s.value)),
        ExprKind::Grouping(g) => format!("(group {})", show(g)),
        ExprKind::Literal => e.token.content.clone(),
        ExprKind::This(_) => "this".to_string(),
        ExprKind::Unary(u) => format!("({:?} {})", e.token.kind, show(u)),
        ExprKind::Variable(_) => e.token.content.clone(),
        ExprKind::Super(method, _) => format!("(super {})", method.content),
    }
}

#[test]
fn new_var_is_an_identifier_on_line_zero() {
    let token = new_var("abc");
    assert_eq!(token.kind, TokenKind::Identifier);
    assert_eq!(token.line, 0);
    assert_eq!(token.content, "abc");
}

#[test]
fn factor_binds_tighter_than_term() {
    assert_eq!(show(&expression("a + b * c;")), "(Plus a (Star b c))");
    assert_eq!(show(&expression("a * b + c;")), "(Plus (Star a b) c)");
}

#[test]
fn term_groups_from_the_left() {
    assert_eq!(show(&expression("a + b - c;")), "(Minus (Plus a b) c)");
}

#[test]
fn equality_groups_from_the_left() {
    assert_eq!(show(&expression("a == b != c;")), "(BangEqual (EqualEqual a b) c)");
}

#[test]
fn factor_and_comparison_take_their_own_kind_on_the_right() {
    assert_eq!(show(&expression("a * b / c;")), "(Star a (Slash b c))");
    assert_eq!(show(&expression("a < b < c;")), "(Less a (Less b c))");
}

#[test]
fn precedence_from_assignment_down_to_unary() {
    assert_eq!(
        show(&expression("x = a or b and c == d < e + f * -g;")),
        "(= x (Or a (And b (EqualEqual c (Less d (Plus e (Star f (Minus g))))))))"
    );
}

#[test]
fn assignment_groups_from_the_right() {
    assert_eq!(show(&expression("a = b = c;")), "(= a (= b c))");
}

#[test]
fn unary_nests() {
    assert_eq!(show(&expression("!-!a;")), "(Bang (Minus (Bang a)))");
}

#[test]
fn calls_and_properties_chain() {
    assert_eq!(show(&expression("a.b(c, d).e();")), "(call (get (call (get a b) [c d]) e) [])");
    assert_eq!(show(&expression("f(1)(2);")), "(call (call f [1]) [2])");
}

#[test]
fn property_assignment_becomes_set() {
    assert_eq!(show(&expression("a.b.c = d;")), "(set (get a b) c d)");
}

#[test]
fn grouping_this_and_super() {
    assert_eq!(show(&expression("(a);")), "(group a)");
    assert_eq!(show(&expression("this.x;")), "(get this x)");
    assert_eq!(show(&expression("super.m();")), "(call (super m) [])");
}

#[test]
fn the_token_of_a_call_is_its_closing_parenthesis() {
    let e = expression("f(\n1\n);");
    assert_eq!(e.token.kind, TokenKind::RightParen);
    assert_eq!(e.token.line, 2);
}

#[test]
fn invalid_assignment_target() {
    let (result, problems) = parse_all("a + b = c;");
    assert!(result.is_err());
    assert_eq!(problems.len(), 1);
    assert_eq!(problems[0].1, "Parse error: Invalid assignment target.");
    let (result, _) = parse_all("(a) = 1;");
    assert!(result.is_err());
}

#[test]
fn missing_semicolon_is_reported_at_the_line_of_the_next_token() {
    let (result, problems) = parse_all("var a = 1\nvar b = 2;");
    assert!(result.is_err());
    assert_eq!(problems, vec![(1, "Parse error: Semicolon must follow statement.".to_string())]);
}

#[test]
fn every_error_is_reported_and_parsing_goes_on() {
    let (result, problems) = parse_all("var = 1;\nprint 2;\nvar 3;\nprint 4;");
    assert!(result.is_err());
    let messages: Vec<&str> = problems.iter().map(|p| p.1.as_str()).collect();
    assert_eq!(
        messages,
        vec!["Parse error: Expected variable name.", "Parse error: Expected variable name."]
    );
}

#[test]
fn recovery_resumes_at_a_keyword() {
    let (result, problems) = parse_all("a b c var d = 1; )");
    assert!(result.is_err());
    let messages: Vec<&str> = problems.iter().map(|p| p.1.as_str()).collect();
    assert_eq!(
        messages,
        vec!["Parse error: Semicolon must follow statement.", "Parse error: Expected expression."]
    );
}

#[test]
fn expected_expression() {
    let (_, problems) = parse_all("print ;");
    assert_eq!(problems[0].1, "Parse error: Expected expression.");
    let (_, problems) = parse_all("(1;");
    assert_eq!(problems[0].1, "Parse error: Expected ')' after expression.");
    let (_, problems) = parse_all("super;");
    assert_eq!(problems[0].1, "Parse error: Expect '.' after 'super'.");
    let (_, problems) = parse_all("super.1;");
    assert_eq!(problems[0].1, "Parse error: Expected identifier after '.'");
    let (_, problems) = parse_all("a.;");
    assert_eq!(problems[0].1, "Parse error: Expected property name after '.'.");
    let (_, problems) = parse_all("f(1;");
    assert_eq!(problems[0].1, "Parse error: Expected closing paren to follow argument list");
}

#[test]
fn statement_errors() {
    let (_, problems) = parse_all("while a) b;");
    assert_eq!(problems[0].1, "Parse error: Expected '(' following 'while'");
    let (_, problems) = parse_all("while (a b;");
    assert_eq!(problems[0].1, "Parse error: Expected ')' following condition");
    let (_, problems) = parse_all("for a;");
    assert_eq!(problems[0].1, "Parse error: Expected '(' following 'for'");
    let (_, problems) = parse_all("fun f() { return 1 }");
    assert_eq!(problems[0].1, "Parse error: Expected semicolon after 'return'");
}

#[test]
fn declaration_errors() {
    let (_, problems) = parse_all("fun (a) {}");
    assert_eq!(problems[0].1, "Parse error: Expected function name.");
    let (_, problems) = parse_all("fun f a) {}");
    assert_eq!(problems[0].1, "Parse error: Expect '(' after function name.");
    let (_, problems) = parse_all("fun f(1) {}");
    assert_eq!(problems[0].1, "Parse error: Expected parameter name.");
    let (_, problems) = parse_all("fun f(a b) {}");
    assert_eq!(problems[0].1, "Parse error: Expected ')' to follow '('");
    let (_, problems) = parse_all("fun f(a) 1;");
    assert_eq!(problems[0].1, "Parse error: Expected '{' before function body");
    let (_, problems) = parse_all("class { }");
    assert_eq!(problems[0].1, "Parse error: Expected class name");
    let (_, problems) = parse_all("class A < { }");
    assert_eq!(problems[0].1, "Parse error: Expected class name.");
    let (_, problems) = parse_all("class A ( }");
    assert_eq!(problems[0].1, "Parse error: Expected left brace");
    let (_, problems) = parse_all("class A { 1 }");
    assert_eq!(problems[0].1, "Parse error: Expected method name.");
    let (_, problems) = parse_all("class A { m }");
    assert_eq!(problems[0].1, "Parse error: Expect '(' after method name.");
    let (_, problems) = parse_all("class A { m() 1 }");
    assert_eq!(problems[0].1, "Parse error: Expected '{' before method body");
    let (_, problems) = parse_all("class A { m() {}");
    assert_eq!(problems[0].1, "Parse error: Expected right brace.");
}

fn call_with_arguments(count: usize) -> String {
    let arguments: Vec<String> = (0..count).map(|i| format!("a{}", i)).collect();
    format!("f({});", arguments.join(", "))
}

#[test]
fn a_call_takes_255_arguments_and_no_more() {
    let e = expression(&call_with_arguments(255));
    match e.kind {
        ExprKind::Call(call) => assert_eq!(call.arguments.len(), 255),
        _ => panic!("not a call"),
    }
    let (result, problems) = parse_all(&call_with_arguments(256));
    assert!(result.is_err());
    assert_eq!(problems[0].1, "Parse error: Can't have more than 255 arguments");
}

#[test]
fn a_function_takes_255_parameters_and_no_more() {
    let parameters = |count: usize| -> String {
        let names: Vec<String> = (0..count).map(|i| format!("p{}", i)).collect();
        format!("fun f({}) {{}}", names.join(", "))
    };
    let ast = scan_parse(&parameters(255)).expect("Parse failed");
    match &ast.declarations[0] {
        Declaration::FunDeclaration(f) => assert_eq!(f.params.len(), 255),
        _ => panic!("not a function"),
    }
    let (result, problems) = parse_all(&parameters(256));
    assert!(result.is_err());
    assert_eq!(problems[0].1, "Parse error: Can't have more than 255 parameters");
}

#[test]
fn arguments_are_separated_by_commas() {
    let e = expression("f(a, b, c);");
    assert_eq!(show(&e), "(call f [a b c])");
    let (result, _) = parse_all("f(a b);");
    assert!(result.is_err());
    let (result, _) = parse_all("f(a,);");
    assert!(result.is_err());
}

#[test]
fn if_needs_no_parentheses() {
    let ast = scan_parse("if a == b print 1; else print 2;").expect("Parse failed");
    match &ast.declarations[0] {
        Declaration::Statement(Statement::If(i)) => {
            assert_eq!(show(&i.cond), "(EqualEqual a b)");
            assert!(i.else_branch.is_some());
        }
        _ => panic!("not an if"),
    }
}

#[test]
fn else_belongs_to_the_nearest_if() {
    let ast = scan_parse("if (a) if (b) print 1; else print 2;").expect("Parse failed");
    match &ast.declarations[0] {
        Declaration::Statement(Statement::If(outer)) => {
            assert!(outer.else_branch.is_none());
            match &outer.true_branch {
                Statement::If(inner) => assert!(inner.else_branch.is_some()),
                _ => panic!("not an if"),
            }
        }
        _ => panic!("not an if"),
    }
}

#[test]
fn for_clauses_are_optional() {
    let ast = scan_parse("for (;;) print 1;").expect("Parse failed");
    match &ast.declarations[0] {
        Declaration::Statement(Statement::For(f)) => {
            assert!(f.initializer.is_none() && f.cond.is_none() && f.increment.is_none());
        }
        _ => panic!("not a for"),
    }
    let ast = scan_parse("for (i = 0; i < 2; i = i + 1) {}").expect("Parse failed");
    match &ast.declarations[0] {
        Declaration::Statement(Statement::For(f)) => {
            assert!(matches!(f.initializer, Some(Initializer::Expr(_))));
            assert!(f.cond.is_some() && f.increment.is_some());
        }
        _ => panic!("not a for"),
    }
    let ast = scan_parse("for (var i = 0;;) {}").expect("Parse failed");
    match &ast.declarations[0] {
        Declaration::Statement(Statement::For(f)) => {
            assert!(matches!(f.initializer, Some(Initializer::VarDeclaration(_))));
        }
        _ => panic!("not a for"),
    }
}

#[test]
fn a_branch_is_a_statement_not_a_declaration() {
    assert!(scan_parse("if (a) var b = 1;").is_none());
    assert!(scan_parse("while (a) fun f() {}").is_none());
}

#[test]
fn class_with_superclass_and_methods() {
    let ast = scan_parse("class A < B { m() {} n(x) { return x; } }").expect("Parse failed");
    match &ast.declarations[0] {
        Declaration::Class(class) => {
            assert_eq!(class.name.content, "A");
            let superclass = class.superclass.as_ref().unwrap();
            assert!(matches!(superclass.kind, ExprKind::Variable(None)));
            assert_eq!(superclass.token.content, "B");
            let names: Vec<&str> = class.methods.iter().map(|m| m.name.content.as_str()).collect();
            assert_eq!(names, vec!["m", "n"]);
            assert_eq!(class.methods[1].params.len(), 1);
        }
        _ => panic!("not a class"),
    }
}

#[test]
fn a_later_method_replaces_an_earlier_one_of_its_name() {
    let ast = scan_parse("class A { m() {} n() {} m(x, y) {} }").expect("Parse failed");
    match &ast.declarations[0] {
        Declaration::Class(class) => {
            let shape: Vec<(&str, usize)> =
                class.methods.iter().map(|m| (m.name.content.as_str(), m.params.len())).collect();
            assert_eq!(shape, vec![("m", 2), ("n", 0)]);
        }
        _ => panic!("not a class"),
    }
}

#[test]
fn blocks_nest() {
    let ast = scan_parse("{ var a; { a; } }").expect("Parse failed");
    match &ast.declarations[0] {
        Declaration::Statement(Statement::Block(outer)) => {
            assert_eq!(outer.len(), 2);
            assert!(matches!(outer[1], Declaration::Statement(Statement::Block(_))));
        }
        _ => panic!("not a block"),
    }
    assert!(scan_parse("{ var a;").is_none());
}

#[test]
fn empty_program() {
    let ast = scan_parse("").expect("Parse failed");
    assert!(ast.declarations.is_empty());
    let ast = scan_parse("// nothing\n").expect("Parse failed");
    assert!(ast.declarations.is_empty());
}

#[test]
fn parser_test_if() {
    let _ast = must_parse(
        "
            if (1 == 2)
                print(\"What?\");
            else
                print(\"The universe continues to make sense\");",
    );
}

#[test]
fn test_parse() {
    let _ast = must_parse(
        "
        if (1) {
            var a = 1;
            print(a);
        }",
    );
}

#[test]
fn test_fun() {
    let s = "
        my_f();";
    must_parse(s);
}

#[test]
fn test_fun_declaration() {
    let s = "
        fun f(a, b, c) {
            print(\"hey there!\");
        }";
    must_parse(s);
}
