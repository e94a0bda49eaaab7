use lox::ast::{Ast, Declaration, Expr, ExprKind, Statement};
use lox::environment::{Environment, Heap};
use lox::host::{Action, Output, Reply, Request};
use lox::interp_error::InterpError;
use lox::interpreter::{binary_operation_of, unary_operation_of, values_equal, Interpreter, Outcome};
use lox::resolver::Resolver;
use lox::table::Table;
use lox::test_utils::{new_var, scan_parse};
use lox::token::TokenKind;
use lox::value::{Function, IClassStruct, Number, Object, ObjectStruct, Value};

fn number(value: f64) -> Number {
    Number { bits: value.to_bits() }
}

fn float(n: Number) -> f64 {
    f64::from_bits(n.bits)
}

fn answer(request: &Request, start: std::time::Instant) -> Reply {
    match request {
        Request::Parse(text) => Reply::Number(number(text.parse::<f64>().unwrap())),
        Request::Clock => Reply::Number(number(start.elapsed().as_nanos() as f64 / 1_000_000.0)),
        Request::Negate(n) => Reply::Number(number(-float(*n))),
        Request::Binary { operator, left, right } => {
            let (l, r) = (float(*left), float(*right));
            match operator {
                TokenKind::Plus => Reply::Number(number(l + r)),
                TokenKind::Minus => Reply::Number(number(l - r)),
                TokenKind::Star => Reply::Number(number(l * r)),
                TokenKind::Slash => Reply::Number(number(l / r)),
                TokenKind::Less => Reply::Boolean(l < r),
                TokenKind::LessEqual => Reply::Boolean(l <= r),
                TokenKind::Greater => Reply::Boolean(l > r),
                TokenKind::GreaterEqual => Reply::Boolean(l >= r),
                TokenKind::EqualEqual => Reply::Boolean(l == r),
                TokenKind::BangEqual => Reply::Boolean(l != r),
                _ => Reply::Nothing,
            }
        }
    }
}

/// Runs what is scheduled to its end; returns what was printed and how the program ended.
fn drive<'a>(interpreter: &mut Interpreter<'a>) -> (Vec<String>, Result<(), InterpError<'a>>) {
    let start = std::time::Instant::now();
    let mut printed = Vec::new();
    let mut reply = Reply::Nothing;
    loop {
        match interpreter.step(reply) {
            Action::Continue => reply = Reply::Nothing,
            Action::Print(Output::Text(text)) => {
                printed.push(text);
                reply = Reply::Nothing;
            }
            Action::Print(Output::Number(n)) => {
                printed.push(format!("{}", float(n)));
                reply = Reply::Nothing;
            }
            Action::Ask(request) => reply = answer(&request, start),
            Action::Done(result) => return (printed, result),
        }
    }
}

fn load(code: &str) -> &'static Ast {
    let mut ast = scan_parse(code).expect("Parse failed");
    let mut resolver = Resolver::new();
    resolver.run(&mut ast).unwrap();
    Box::leak(Box::new(ast))
}

/// Runs `code`; returns what it printed and how it ended.
fn outcome(code: &str) -> (Vec<String>, Result<(), String>) {
    let ast = load(code);
    let mut interpreter = Interpreter::new();
    interpreter.run(ast);
    let (printed, result) = drive(&mut interpreter);
    let result = match result {
        Ok(()) => Ok(()),
        Err(InterpError::Error(error)) => Err(error.message().clone()),
        Err(InterpError::Return(_)) => Err("return".to_string()),
    };
    (printed, result)
}

fn printed(code: &str) -> Vec<String> {
    let (printed, result) = outcome(code);
    assert_eq!(result, Ok(()));
    printed
}

fn failure(code: &str) -> String {
    outcome(code).1.unwrap_err()
}

fn resolve(code: &str) -> Result<Ast, String> {
    let mut ast = scan_parse(code).expect("Parse failed");
    let mut resolver = Resolver::new();
    match resolver.run(&mut ast) {
        Ok(()) => Ok(ast),
        Err(error) => Err(error.message().clone()),
    }
}

/// The depths of the uses of names in `e`, in the order in which they are resolved.
fn depths(e: &Expr, found: &mut Vec<(String, Option<u32>)>) {
    match &e.kind {
        ExprKind::Assign(a) => {
            depths(&a.initializer, found);
            found.push((e.token.content.clone(), a.depth));
        }
        ExprKind::Binary(b) | ExprKind::Logical(b) => {
            depths(&b.left, found);
            depths(&b.right, found);
        }
        ExprKind::Call(c) => {
            depths(&c.callee, found);
            for argument in &c.arguments {
                depths(argument, found);
            }
        }
        ExprKind::Get(o) | ExprKind::Grouping(o) | ExprKind::Unary(o) => depths(o, found),
        ExprKind::SetExpr(s) => {
            depths(&s.object, found);
            depths(&s.value, found);
        }
        ExprKind::Literal => {}
        ExprKind::This(depth) | ExprKind::Variable(depth) | ExprKind::Super(_, depth) => {
            found.push((e.token.content.clone(), *depth))
        }
    }
}

fn statement_depths(s: &Statement, found: &mut Vec<(String, Option<u32>)>) {
    match s {
        Statement::Block(list) => list.iter().for_each(|d| declaration_depths(d, found)),
        Statement::ExprStatement(e) | Statement::Print(e) => depths(e, found),
        Statement::For(f) => {
            match &f.initializer {
                Some(lox::ast::Initializer::VarDeclaration(v)) => {
                    v.initializer.iter().for_each(|e| depths(e, found))
                }
                Some(lox::ast::Initializer::Expr(e)) => depths(e, found),
                None => {}
            }
            f.cond.iter().for_each(|e| depths(e, found));
            f.increment.iter().for_each(|e| depths(e, found));
            statement_depths(&f.body, found);
        }
        Statement::If(i) => {
            depths(&i.cond, found);
            statement_depths(&i.true_branch, found);
            i.else_branch.iter().for_each(|s| statement_depths(s, found));
        }
        Statement::Return(e) => e.iter().for_each(|e| depths(e, found)),
        Statement::While(w) => {
            depths(&w.cond, found);
            statement_depths(&w.body, found);
        }
    }
}

fn declaration_depths(d: &Declaration, found: &mut Vec<(String, Option<u32>)>) {
    match d {
        Declaration::Class(c) => {
            c.superclass.iter().for_each(|e| depths(e, found));
            for method in &c.methods {
                method.body.iter().for_each(|d| declaration_depths(d, found));
            }
        }
        Declaration::Statement(s) => statement_depths(s, found),
        Declaration::VarDeclaration(v) => v.initializer.iter().for_each(|e| depths(e, found)),
        Declaration::FunDeclaration(f) => f.body.iter().for_each(|d| declaration_depths(d, found)),
    }
}

fn all_depths(code: &str) -> Vec<(String, Option<u32>)> {
    let ast = resolve(code).unwrap();
    let mut found = Vec::new();
    ast.declarations.iter().for_each(|d| declaration_depths(d, &mut found));
    found
}

fn uses(list: &[(&str, Option<u32>)]) -> Vec<(String, Option<u32>)> {
    list.iter().map(|(name, depth)| (name.to_string(), *depth)).collect()
}

fn test_run(code: &str) -> Interpreter<'static> {
    let ast = load(code);
    let mut interpreter = Interpreter::new();
    interpreter.run(ast);
    let (_, result) = drive(&mut interpreter);
    result.unwrap();
    interpreter
}

fn test_interpret(code: &str, variable_name: &str) -> Value<'static> {
    test_run(code).get_global(&new_var(variable_name)).expect("variable not found.")
}

fn is_number(value: &Value, expected: f64) -> bool {
    matches!(value, Value::Number(n) if float(*n) == expected)
}

#[test]
fn globals_have_no_depth() {
    assert_eq!(all_depths("var a = 1; a; a = 2; print b;"), uses(&[("a", None), ("a", None), ("b", None)]));
}

#[test]
fn the_nearest_scope_wins() {
    assert_eq!(
        all_depths("{ var a; { var a; a; { a; } } a; }"),
        uses(&[("a", Some(0)), ("a", Some(1)), ("a", Some(0))])
    );
}

#[test]
fn a_use_before_the_declaration_in_a_block_looks_outward() {
    assert_eq!(
        all_depths("{ var a; { a; var a; a; } }"),
        uses(&[("a", Some(1)), ("a", Some(0))])
    );
}

#[test]
fn parameters_and_the_function_itself() {
    assert_eq!(
        all_depths("{ fun f(x) { x; f; y; } }"),
        uses(&[("x", Some(0)), ("f", Some(1)), ("y", None)])
    );
    assert_eq!(all_depths("fun f(x) { f; { x; } }"), uses(&[("f", None), ("x", Some(1))]));
}

#[test]
fn for_opens_one_scope_for_header_and_body() {
    assert_eq!(
        all_depths("for (var i = 0; i < 1; i = i + 1) { i; }"),
        uses(&[("i", Some(0)), ("i", Some(0)), ("i", Some(0)), ("i", Some(1))])
    );
}

#[test]
fn this_and_super_in_methods() {
    assert_eq!(all_depths("class A { m() { this; } }"), uses(&[("this", Some(1))]));
    assert_eq!(
        all_depths("class B {} class A < B { m() { this; super.m; { super.m; } } }"),
        uses(&[("B", None), ("this", Some(1)), ("super", Some(2)), ("super", Some(3))])
    );
    assert_eq!(all_depths("this; super.m;"), uses(&[("this", None), ("super", None)]));
}

#[test]
fn a_method_is_no_variable_of_its_class() {
    assert_eq!(all_depths("class A { m() { n; } n() { m; } }"), uses(&[("n", None), ("m", None)]));
}

#[test]
fn a_class_is_defined_before_its_methods_are_resolved() {
    assert_eq!(all_depths("{ class A { m() { A; } } }"), uses(&[("A", Some(2))]));
}

#[test]
fn a_variable_in_its_own_initializer() {
    assert_eq!(
        resolve("{ var a = a; }").unwrap_err(),
        "Can't read local variable in its own initializer"
    );
    assert_eq!(
        resolve("{ var a = 1; { var a = a + 1; } }").unwrap_err(),
        "Can't read local variable in its own initializer"
    );
    assert!(resolve("var a = a;").is_ok());
    assert!(resolve("{ var a = 1; { var b = a; } }").is_ok());
}

#[test]
fn a_class_cannot_inherit_from_itself() {
    assert_eq!(resolve("class A < A {}").unwrap_err(), "A class cannot inherit from itself.");
    assert_eq!(resolve("{ class A < A {} }").unwrap_err(), "A class cannot inherit from itself.");
}

#[test]
fn the_first_error_ends_the_pass() {
    assert_eq!(
        resolve("{ var a = a; } class B < B {}").unwrap_err(),
        "Can't read local variable in its own initializer"
    );
}

#[test]
fn an_error_leaves_the_rest_of_the_tree_as_it_was() {
    let mut ast = scan_parse("{ var a; a; var b = b; a; }").expect("Parse failed");
    let error = Resolver::new().run(&mut ast).unwrap_err();
    assert_eq!(error.message(), "Can't read local variable in its own initializer");
    assert_eq!(error.token().content, "b");
    let mut found = Vec::new();
    ast.declarations.iter().for_each(|d| declaration_depths(d, &mut found));
    assert_eq!(found, uses(&[("a", Some(0)), ("b", None), ("a", None)]));
}

#[test]
fn resolving_again_changes_nothing() {
    let code = "{ var a; fun f(x) { return a + x; } class C { m() { return this; } } }";
    let mut ast = resolve(code).unwrap();
    let mut first = Vec::new();
    ast.declarations.iter().for_each(|d| declaration_depths(d, &mut first));
    Resolver::new().run(&mut ast).unwrap();
    let mut second = Vec::new();
    ast.declarations.iter().for_each(|d| declaration_depths(d, &mut second));
    assert_eq!(first, second);
}

#[test]
fn truthiness() {
    assert!(!Value::Boolean(false).is_truthy());
    assert!(!Value::Nil.is_truthy());
    assert!(Value::Boolean(true).is_truthy());
    assert!(Value::Number(number(0.0)).is_truthy());
    assert!(Value::StringV(String::new()).is_truthy());
    assert!(Value::Function(Function::Builtin).is_truthy());
    assert!(Value::Object(Object { index: 0 }).is_truthy());
    assert_eq!(
        printed("if (0) print 1; if (\"\") print 2; if (nil) print 3; if (false) print 4; if (clock) print 5;"),
        vec!["1", "2", "5"]
    );
    assert_eq!(printed("class A {} if (A) print 1; if (A()) print 2;"), vec!["1", "2"]);
    assert_eq!(printed("print !0; print !nil; print !\"\"; print !!false;"), vec!["false", "true", "false", "false"]);
}

#[test]
fn plus_adds_numbers_and_joins_strings() {
    assert_eq!(printed("print 1 + 2; print \"a\" + \"b\"; print \"\" + \"\";"), vec!["3", "ab", ""]);
    assert_eq!(failure("print 1 + \"a\";"), "Expected number in expression.");
    assert_eq!(failure("print \"a\" + 1;"), "Expected string in concatenation operation.");
    assert_eq!(failure("print nil + 1;"), "Invalid operation.");
    assert_eq!(failure("print true + true;"), "Invalid operation.");
}

#[test]
fn plus_decides_by_the_operands() {
    let joined = binary_operation_of(
        TokenKind::Plus,
        Value::StringV("ab".to_string()),
        Value::StringV("cd".to_string()),
    );
    assert!(matches!(joined, Outcome::Value(Value::StringV(s)) if s == "abcd"));
    let sum = binary_operation_of(TokenKind::Plus, Value::Number(number(1.0)), Value::Number(number(2.0)));
    match sum {
        Outcome::Host(Request::Binary { operator, left, right }) => {
            assert_eq!(operator, TokenKind::Plus);
            assert_eq!((float(left), float(right)), (1.0, 2.0));
        }
        _ => panic!("not a request"),
    }
    let mixed = binary_operation_of(TokenKind::Plus, Value::Number(number(1.0)), Value::Nil);
    assert!(matches!(mixed, Outcome::Wrong(m) if m == "Expected number in expression."));
    let wrong = binary_operation_of(TokenKind::And, Value::Nil, Value::Nil);
    assert!(matches!(wrong, Outcome::Wrong(m) if m == "Invalid operation."));
}

#[test]
fn arithmetic_and_comparison_take_numbers() {
    assert_eq!(printed("print 7 - 2; print 3 * 4; print 1 / 4; print -3; print --3;"), vec!["5", "12", "0.25", "-3", "3"]);
    assert_eq!(printed("print 1 < 2; print 2 <= 2; print 1 > 2; print 2 >= 3;"), vec!["true", "true", "false", "false"]);
    assert_eq!(printed("print 1 / 0; print -1 / 0;"), vec!["inf", "-inf"]);
    assert_eq!(printed("print 0 / 0 == 0 / 0;"), vec!["false"]);
    assert_eq!(failure("print 1 - \"a\";"), "Expected number in expression.");
    assert_eq!(failure("print nil * 2;"), "Expected number in expression.");
    assert_eq!(failure("print \"a\" < \"b\";"), "Expected number in expression.");
    assert_eq!(failure("print -\"a\";"), "Expected number in expression.");
    assert!(matches!(unary_operation_of(TokenKind::Bang, Value::Nil), Outcome::Value(Value::Boolean(true))));
    assert!(matches!(unary_operation_of(TokenKind::Minus, Value::Nil), Outcome::Wrong(_)));
    assert!(matches!(unary_operation_of(TokenKind::Plus, Value::Nil), Outcome::Wrong(_)));
}

#[test]
fn equality() {
    assert_eq!(
        printed("print 1 == 1; print 1 != 1; print 1 == 2; print \"a\" == \"a\"; print \"a\" != \"b\";"),
        vec!["true", "false", "false", "true", "true"]
    );
    assert_eq!(
        printed("print nil == nil; print nil == false; print 1 == \"1\"; print true == true; print 0 == false;"),
        vec!["true", "false", "false", "true", "false"]
    );
    assert_eq!(
        printed("class A {} var a = A(); var b = A(); print a == a; print a == b; print A == A; print a != b;"),
        vec!["true", "false", "true", "true"]
    );
    assert_eq!(
        printed("fun f() {} fun g() {} print f == f; print f == g; print clock == clock; print f == clock;"),
        vec!["true", "false", "true", "false"]
    );
    assert_eq!(values_equal(&Value::Number(number(1.0)), &Value::Number(number(1.0))), None);
    assert_eq!(values_equal(&Value::Nil, &Value::Nil), Some(true));
    assert_eq!(values_equal(&Value::Nil, &Value::Boolean(false)), Some(false));
}

#[test]
fn and_and_or_give_truth_values_and_skip_what_does_not_count() {
    assert_eq!(
        printed("print 1 and 2; print nil and 2; print nil or 3; print false or nil; print 1 or 2;"),
        vec!["true", "false", "true", "false", "true"]
    );
    assert_eq!(
        printed("var n = 0; fun hit() { n = n + 1; return true; } false and hit(); true or hit(); print n; true and hit(); false or hit(); print n;"),
        vec!["0", "2"]
    );
}

#[test]
fn what_print_writes() {
    assert_eq!(
        printed("print nil; print true; print false; print \"text\"; print 1.5; print 10; print clock;"),
        vec!["nil", "true", "false", "text", "1.5", "10", "FUNCTION"]
    );
    assert_eq!(
        printed("class Foo { m() {} } fun f() {} print Foo; print Foo(); print f; print Foo().m;"),
        vec!["CLASS Foo", "Instance of Foo", "FUNCTION", "FUNCTION"]
    );
}

#[test]
fn variables() {
    assert_eq!(printed("var a; print a; var a = 2; print a; a = a + 1; print a;"), vec!["nil", "2", "3"]);
    assert_eq!(printed("var a = 1; { var a = 2; print a; a = 3; print a; } print a;"), vec!["2", "3", "1"]);
    assert_eq!(printed("var a = 1; { a = 2; } print a; print a = 5;"), vec!["2", "5"]);
    assert_eq!(failure("print missing;"), "Variable not found.");
    assert_eq!(failure("missing = 1;"), "Variable not found in scope.");
    assert_eq!(failure("{ missing = 1; }"), "Variable not found in scope.");
}

#[test]
fn control_flow() {
    assert_eq!(printed("if (true) print 1; else print 2; if (false) print 3; else print 4;"), vec!["1", "4"]);
    assert_eq!(printed("var i = 0; while (i < 3) { print i; i = i + 1; }"), vec!["0", "1", "2"]);
    assert_eq!(printed("for (var i = 0; i < 3; i = i + 1) print i;"), vec!["0", "1", "2"]);
    assert_eq!(printed("var i = 5; for (; i < 7;) { print i; i = i + 1; }"), vec!["5", "6"]);
    assert_eq!(printed("var i = 1; for (var i = 0; i < 1; i = i + 1) {} print i;"), vec!["1"]);
    assert_eq!(printed("fun f() { for (;;) { return 7; } } print f();"), vec!["7"]);
    assert_eq!(printed("fun f() { while (true) { if (true) return 1; } } print f();"), vec!["1"]);
}

#[test]
fn sum_in_a_for_loop() {
    let a = test_interpret("var a=0; for (var i=0; i<4; i=i+1) a=a+i;", "a");
    assert!(is_number(&a, 6.0));
}

#[test]
fn functions() {
    assert_eq!(printed("fun f(a, b) { return a + b; } print f(1, 2);"), vec!["3"]);
    assert_eq!(printed("fun f() {} print f();"), vec!["nil"]);
    assert_eq!(printed("fun f() { return; } print f();"), vec!["nil"]);
    assert_eq!(printed("fun fib(n) { if (n < 2) return n; return fib(n - 1) + fib(n - 2); } print fib(10);"), vec!["55"]);
    assert_eq!(printed("fun f(a) { print a; } f(1 + 1); f(f);"), vec!["2", "FUNCTION"]);
    assert_eq!(printed("fun f(a, b) { print a; print b; } fun g() { print 0; return 1; } f(g(), 2);"), vec!["0", "1", "2"]);
}

#[test]
fn calls_nest_deeply() {
    assert_eq!(
        printed("fun down(n) { if (n == 0) return 0; return 1 + down(n - 1); } print down(20000);"),
        vec!["20000"]
    );
}

#[test]
fn arity() {
    assert_eq!(
        failure("fun f(a) {} f(1, 2);"),
        "Arity mismatch: declaration f expected 1 arguments, received 2."
    );
    assert_eq!(failure("fun f(a) {} f();"), "Arity mismatch: declaration f expected 1 arguments, received 0.");
    assert_eq!(
        failure("fun g(a,b,c,d,e,f,g,h,i,j,k,l) {} g(1,2,3,4,5,6,7,8,9,10);"),
        "Arity mismatch: declaration g expected 12 arguments, received 10."
    );
    assert_eq!(
        failure("class A { init(x) {} } A();"),
        "Arity mismatch: declaration A expected 1 arguments, received 0."
    );
    assert_eq!(
        failure("class A {} A(1);"),
        "Arity mismatch: declaration A expected 0 arguments, received 1."
    );
}

#[test]
fn only_functions_and_classes_are_called() {
    assert_eq!(failure("var a = 1; a();"), "Can only call functions and classes.");
    assert_eq!(failure("\"text\"();"), "Can only call functions and classes.");
    assert_eq!(failure("nil();"), "Can only call functions and classes.");
    assert_eq!(failure("class A {} A()();"), "Can only call functions and classes.");
}

#[test]
fn a_closure_binds_where_it_was_made() {
    let code = "
        var a = \"global\";
        {
            fun show() { return a; }
            print show();
            var a = \"block\";
            print show();
            print a;
        }";
    assert_eq!(printed(code), vec!["global", "global", "block"]);
    let code = "
        var x = \"outer\";
        fun f() { return x; }
        fun g() { var x = \"caller\"; return f(); }
        print g();";
    assert_eq!(printed(code), vec!["outer"]);
}

#[test]
fn a_closure_keeps_the_variables_of_a_scope_that_was_left() {
    let code = "
        fun counter() {
            var n = 0;
            fun next() { n = n + 1; return n; }
            return next;
        }
        var a = counter();
        var b = counter();
        print a(); print a(); print b(); print a();";
    assert_eq!(printed(code), vec!["1", "2", "1", "3"]);
    let a = test_interpret(
        "fun make(){var a=1; fun get(){return a;} return get;} var g=make(); var a=g();",
        "a",
    );
    assert!(is_number(&a, 1.0));
}

#[test]
fn fields() {
    assert_eq!(printed("class F {} var f = F(); f.b = 1; print f.b; f.b = f.b + 1; print f.b; print f.c = 3;"), vec!["1", "2", "3"]);
    assert_eq!(failure("class F{} var f=F(); var a=f.missing;"), "Property not found on object.");
    assert_eq!(failure("var a = 1; a.b;"), "Field access should be preceded by object.");
    assert_eq!(failure("var a = 1; a.b = 2;"), "Can only set properties of objects.");
    assert_eq!(failure("class F {} F.b = 2;"), "Can only set properties of objects.");
    assert_eq!(printed("class F {} var f = F(); var g = f; g.x = 1; print f.x;"), vec!["1"]);
    assert_eq!(printed("class F { m() { return 1; } } var f = F(); f.m = 2; print f.m;"), vec!["2"]);
    let a = test_interpret("class F{} var f=F(); f.b=1; var a=f.b;", "a");
    assert!(is_number(&a, 1.0));
}

#[test]
fn the_target_of_an_assignment_is_checked_before_the_value() {
    assert_eq!(printed("fun v() { print 1; return 2; } class F {} var f = F(); f.x = v();"), vec!["1"]);
    let (shown, result) = outcome("fun v() { print 1; return 2; } var a = 3; a.x = v();");
    assert!(shown.is_empty());
    assert_eq!(result.unwrap_err(), "Can only set properties of objects.");
}

#[test]
fn a_method_keeps_its_object() {
    let code = "
        class P { init(n) { this.n = n; } name() { return this.n; } }
        var a = P(\"a\");
        var b = P(\"b\");
        var m = a.name;
        b.name = m;
        print m();
        print b.name();
        print a.name == a.name;";
    assert_eq!(printed(code), vec!["a", "a", "true"]);
}

#[test]
fn a_function_in_a_method_sees_this() {
    let code = "
        class A {
            m() {
                fun inner() { return this.x; }
                return inner();
            }
            later() {
                fun inner() { return this.x; }
                return inner;
            }
        }
        var a = A();
        a.x = 5;
        print a.m();
        var f = a.later();
        a.x = 6;
        print f();";
    assert_eq!(printed(code), vec!["5", "6"]);
}

#[test]
fn objects_hold_state() {
    let code = "
        class Counter {
            init(start) { this.n = start; }
            next() { this.n = this.n + 1; return this.n; }
        }
        var a = Counter(10);
        var b = Counter(0);
        a.next(); a.next(); b.next();
        print a.n; print b.n; print a.next() + b.next();";
    assert_eq!(printed(code), vec!["12", "1", "15"]);
}

#[test]
fn a_global_is_found_when_it_is_used_not_when_the_use_is_resolved() {
    let code = "
        fun even(n) { if (n == 0) return true; return odd(n - 1); }
        fun odd(n) { if (n == 0) return false; return even(n - 1); }
        print even(10); print odd(7); print even(3);";
    assert_eq!(printed(code), vec!["true", "true", "false"]);
    assert_eq!(failure("fun f() { return later; } f();"), "Variable not found.");
    assert_eq!(printed("fun f() { return later; } var later = 1; print f();"), vec!["1"]);
}

#[test]
fn initializers() {
    assert_eq!(printed("class F { init() { this.x = 1; return; } } var f = F(); print f.x; print f.init() == f;"), vec!["1", "true"]);
    assert_eq!(printed("class F { init() { return 5; } } print F();"), vec!["Instance of F"]);
    assert_eq!(printed("class F { init(a, b) { this.s = a + b; } } print F(1, 2).s;"), vec!["3"]);
    let b = test_interpret("class F{init(){this.x=1;}} var f=F(); var b=f.x;", "b");
    assert!(is_number(&b, 1.0));
}

#[test]
fn inheritance() {
    assert_eq!(printed("class B { m() { return 1; } n() { return 2; } } class A < B { n() { return 3; } } var a = A(); print a.m(); print a.n();"), vec!["1", "3"]);
    assert_eq!(printed("class C { m() { return 1; } } class B < C {} class A < B {} print A().m();"), vec!["1"]);
    assert_eq!(failure("var B = 1; class A < B {}"), "Can only inherit from classes");
    assert_eq!(failure("class A < Missing {}"), "Variable not found.");
    let c = test_interpret(
        "class B{m(){return 5;}} class A<B{m(){return super.m()+1;}} var c=A().m();",
        "c",
    );
    assert!(is_number(&c, 6.0));
}

#[test]
fn super_runs_the_method_of_the_superclass_on_this_object() {
    let code = "
        class B { who() { return this.name; } }
        class A < B { who() { return \"A \" + super.who(); } }
        var a = A();
        a.name = \"me\";
        print a.who();";
    assert_eq!(printed(code), vec!["A me"]);
    assert_eq!(
        printed("class B { init() { this.b = 1; } } class A < B { init() { super.init(); this.a = 2; } } var a = A(); print a.a + a.b;"),
        vec!["3"]
    );
    assert_eq!(failure("class B {} class A < B { m() { return super.none(); } } A().m();"), "Method not found on 'super'.");
}

#[test]
fn this_and_super_outside_of_a_class() {
    assert_eq!(failure("print this;"), "Cannot access this in global context.");
    assert_eq!(failure("fun f() { return this; } f();"), "Cannot access this in global context.");
    assert_eq!(failure("super.m();"), "Cannot access super outside of a class.");
}

#[test]
fn a_class_declared_again_in_a_method() {
    let code = "
        class Foo { bar() { class Foo { bar2() { return 2; } } return Foo().bar2(); } }
        print Foo().bar();
        print Foo;";
    assert_eq!(printed(code), vec!["2", "CLASS Foo"]);
}

#[test]
fn return_outside_of_a_function_ends_the_program() {
    let (shown, result) = outcome("print 1; return 2; print 3;");
    assert_eq!(shown, vec!["1"]);
    assert_eq!(result.unwrap_err(), "return");
}

#[test]
fn an_error_ends_the_program() {
    let (shown, result) = outcome("print 1; print nil + 1; print 2;");
    assert_eq!(shown, vec!["1"]);
    assert_eq!(result.unwrap_err(), "Invalid operation.");
}

#[test]
fn the_interpreter_goes_on_after_a_program() {
    let mut interpreter = Interpreter::new();
    interpreter.run(load("var a = 1; fun inc() { a = a + 1; }"));
    drive(&mut interpreter).1.unwrap();
    interpreter.run(load("inc(); print missing;"));
    assert!(drive(&mut interpreter).1.is_err());
    interpreter.run(load("inc(); print a;"));
    let (shown, result) = drive(&mut interpreter);
    assert!(result.is_ok());
    assert_eq!(shown, vec!["3"]);
}

#[test]
fn a_step_asks_until_it_is_answered() {
    let mut interpreter = Interpreter::new();
    interpreter.run(load("var a = 1 + 2;"));
    let mut reply = Reply::Nothing;
    let mut asked = Vec::new();
    loop {
        match interpreter.step(reply) {
            Action::Ask(request) => {
                // The first time round the host gives no answer of the right kind.
                if asked.len() % 2 == 0 {
                    reply = match request {
                        Request::Binary { .. } => Reply::Nothing,
                        _ => Reply::Boolean(true),
                    };
                } else {
                    reply = answer(&request, std::time::Instant::now());
                }
                asked.push(format!("{:?}", request));
            }
            Action::Done(result) => {
                result.unwrap();
                break;
            }
            _ => reply = Reply::Nothing,
        }
    }
    assert_eq!(asked.len(), 6);
    assert_eq!(asked[0], asked[1]);
    assert_eq!(asked[2], asked[3]);
    assert_eq!(asked[4], asked[5]);
    assert!(is_number(&interpreter.get_global(&new_var("a")).unwrap(), 3.0));
}

#[test]
fn without_a_program_there_is_nothing_to_do() {
    let mut interpreter = Interpreter::new();
    assert!(matches!(interpreter.step(Reply::Nothing), Action::Done(Ok(()))));
    assert!(matches!(interpreter.get_global(&new_var("clock")), Ok(Value::Function(Function::Builtin))));
    assert!(interpreter.get_global(&new_var("other")).is_err());
}

#[test]
fn tables() {
    let mut table: Table<u32> = Table::new();
    assert_eq!(table.len(), 0);
    assert!(table.get("a").is_none());
    table.insert("a".to_string(), 1);
    table.insert("b".to_string(), 2);
    table.insert("a".to_string(), 3);
    assert_eq!(table.len(), 2);
    assert_eq!(table.get("a"), Some(&3));
    assert_eq!(table.get("b"), Some(&2));
    assert!(table.get("ab").is_none());
    assert!(table.contains_key("b") && !table.contains_key(""));
    assert_eq!(table.entry(0).key, "a");
    assert_eq!(table.entry(1).key, "b");
}

#[test]
fn environments() {
    let mut heap = Heap::new();
    let outer = Environment::new(&mut heap);
    let inner = outer.new_block(&mut heap);
    let innermost = inner.new_block(&mut heap);
    outer.insert(&mut heap, "a", Value::Number(number(1.0)));
    inner.declare_and_assign(&mut heap, &new_var("b"), Value::Boolean(true));
    assert_eq!(innermost.ancestor(&heap, 0), Some(innermost.current));
    assert_eq!(innermost.ancestor(&heap, 2), Some(outer.current));
    assert_eq!(innermost.ancestor(&heap, 3), None);
    assert!(is_number(&innermost.get_at(&heap, 2, "a"), 1.0));
    assert!(innermost.maybe_get_at(&heap, 1, "a").is_none());
    assert!(matches!(innermost.maybe_get_at(&heap, 1, "b"), Some(Value::Boolean(true))));
    assert!(innermost.maybe_get_at(&heap, 7, "a").is_none());
    assert!(innermost.get(&heap, &new_var("a")).is_err());
    assert!(outer.get(&heap, &new_var("a")).is_ok());
    assert!(inner.assign(&mut heap, &new_var("a"), Value::Nil).is_err());
    assert!(matches!(inner.assign(&mut heap, &new_var("b"), Value::Nil), Ok(Value::Nil)));
    assert!(matches!(inner.get(&heap, &new_var("b")), Ok(Value::Nil)));
    innermost.assign_at(&mut heap, 2, "c".to_string(), Value::Boolean(false));
    assert!(matches!(outer.get(&heap, &new_var("c")), Ok(Value::Boolean(false))));
    assert!(!innermost.maybe_assign_at(&mut heap, 3, "c".to_string(), Value::Nil));
    innermost.bind_arguments(
        &mut heap,
        vec![Value::Number(number(1.0)), Value::Number(number(2.0))],
        &vec![new_var("x"), new_var("y")],
    );
    assert!(is_number(&innermost.get_at(&heap, 0, "y"), 2.0));
    let object = ObjectStruct::new_object(&mut heap, &lox::value::IClass { index: 0 });
    innermost.bind_this(&mut heap, &object);
    assert!(matches!(innermost.get_at(&heap, 0, "this"), Value::Object(o) if o == object));
}

#[test]
fn methods_are_found_up_the_chain() {
    let ast = load("class B { m() {} n() {} } class A < B { n() {} init() {} }");
    let mut interpreter = Interpreter::new();
    interpreter.run(ast);
    drive(&mut interpreter).1.unwrap();
    let class = |name: &str| match interpreter.get_global(&new_var(name)).unwrap() {
        Value::Class(class) => class,
        _ => panic!("not a class"),
    };
    let (a, b) = (class("A"), class("B"));
    let heap = interpreter.heap();
    let found = |class, name: &str| {
        IClassStruct::find_method(heap, class, name).map(|m| (m.declaration.name.line, m.is_initializer))
    };
    assert!(found(a, "m").is_some());
    assert!(found(b, "m").is_some());
    assert!(found(b, "init").is_none());
    assert_eq!(found(a, "init").map(|f| f.1), Some(true));
    assert_eq!(found(a, "n").map(|f| f.1), Some(false));
    assert!(found(a, "none").is_none());
}
