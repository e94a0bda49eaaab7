use lox::ast::Ast;
use lox::host::{Action, Output, Reply, Request};
use lox::interp_error::InterpError;
use lox::interpreter::Interpreter;
use lox::resolver::Resolver;
use lox::test_utils::{new_var, scan_parse};
use lox::token::TokenKind;
use lox::value::{Number, Value};

fn number(value: f64) -> Number {
    Number { bits: value.to_bits() }
}

fn float(n: Number) -> f64 {
    f64::from_bits(n.bits)
}

fn answer(request: &Request, start: std::time::Instant) -> Reply {
    match request {
        Request::Parse(text) => Reply::Number(number(text.parse::<f64>().unwrap())),
        Request::Clock => Reply::Number(number(start.elapsed().as_nanos() as f64 / 1_000_000.0)),
        Request::Negate(n) => Reply::Number(number(-float(*n))),
        Request::Binary { operator, left, right } => {
            let (l, r) = (float(*left), float(*right));
            match operator {
                TokenKind::Plus => Reply::Number(number(l + r)),
                TokenKind::Minus => Reply::Number(number(l - r)),
                TokenKind::Star => Reply::Number(number(l * r)),
                TokenKind::Slash => Reply::Number(number(l / r)),
                TokenKind::Less => Reply::Boolean(l < r),
                TokenKind::LessEqual => Reply::Boolean(l <= r),
                TokenKind::Greater => Reply::Boolean(l > r),
                TokenKind::GreaterEqual => Reply::Boolean(l >= r),
                TokenKind::EqualEqual => Reply::Boolean(l == r),
                TokenKind::BangEqual => Reply::Boolean(l != r),
                _ => Reply::Nothing,
            }
        }
    }
}

/// Runs what is scheduled to its end; returns what was printed and how the program ended.
fn drive<'a>(interpreter: &mut Interpreter<'a>) -> (Vec<String>, Result<(), InterpError<'a>>) {
    let start = std::time::Instant::now();
    let mut printed = Vec::new();
    let mut reply = Reply::Nothing;
    loop {
        match interpreter.step(reply) {
            Action::Continue => reply = Reply::Nothing,
            Action::Print(Output::Text(text)) => {
                printed.push(text);
                reply = Reply::Nothing;
            }
            Action::Print(Output::Number(n)) => {
                printed.push(format!("{}", float(n)));
                reply = Reply::Nothing;
            }
            Action::Ask(request) => reply = answer(&request, start),
            Action::Done(result) => return (printed, result),
        }
    }
}

fn load(code: &str) -> &'static Ast {
    let mut ast = scan_parse(code).expect("Parse failed");
    let mut resolver = Resolver::new();
    resolver.run(&mut ast).unwrap();
    Box::leak(Box::new(ast))
}

fn test_run(code: &str) -> Interpreter<'static> {
    let ast = load(code);
    let mut interpreter = Interpreter::new();
    interpreter.run(ast);
    let (_, result) = drive(&mut interpreter);
    result.unwrap();
    interpreter
}

fn test_interpret(code: &str, variable_name: &str) -> Value<'static> {
    test_run(code).get_global(&new_var(variable_name)).expect("variable not found.")
}

fn is_number(value: &Value, expected: f64) -> bool {
    matches!(value, Value::Number(n) if float(*n) == expected)
}

#[test]
fn test_arithmetic() {
    let c = test_interpret("var a = 1; var b = 2; var c = a + b;", "c");
    assert!(matches!(c, Value::Number(n) if float(n) == 3.0));
}

#[test]
fn test_block() {
    let s = "
        var a = 1;
        {
            var a = 2;
        }";
    let a = test_interpret(s, "a");
    assert!(matches!(a, Value::Number(n) if float(n) == 1.0));
}

#[test]
fn main_test_if() {
    let a = test_interpret(
        "
            var a = 1;
            if (1 == 1)
                a = 2;",
        "a",
    );

    assert!(is_number(&a, 2.0));
}

#[test]
fn test_while() {
    let s = "var a = 1;
        while (a < 3)
            a = a + 1;";
    let a = test_interpret(s, "a");
    assert!(is_number(&a, 3.0));
}

#[test]
fn test_for() {
    let s = "
        var j = 0;
        for (var i = 0;
        i < 4;
        i = i + 1)
            j = j + i;";
    let j = test_interpret(s, "j");
    assert!(is_number(&j, 6.0));
}

#[test]
fn test_logical_and() {
    let s = "
        var a = 0;
        if (false and true)
            a = 1;";
    let a = test_interpret(s, "a");
    assert!(is_number(&a, 0.0));
}

#[test]
fn test_logical_or() {
    let s = "
        var a = 0;
        if (false or true)
            a = 1;";
    let a = test_interpret(s, "a");
    assert!(is_number(&a, 1.0));
}

#[test]
fn test_call() {
    let s = "
        var a = clock();
        var c = 0;
        for (var i = 0; i < 10000; i = i + 1) {
           c = c + 1; 
        }
        var b = clock() - a;";
    let b = test_interpret(s, "b");
    assert!(matches!(b, Value::Number(n) if float(n) > 0.0));
}

#[test]
fn test_nested_call() {
    let s = "
        var a = 1;
        fun foo() {
            fun bar() {
                a = 2;
            }
            bar();
        }
        fun bar() {
        }
        foo();";
    let a = test_interpret(s, "a");
    assert!(matches!(a, Value::Number(n) if float(n) == 2.0));
}

#[test]
fn test_duplicate_vars() {
    let s = "
        var a = 1;
        var a = 1;";
    let _ = test_interpret(s, "a");
}

#[test]
fn test_nesting_function() {
    let s = "
        var a = 1;
        fun make_a() {
            var a = 2;
            {
                var a = 3;
                return;
            }
        }";
    let a = test_interpret(s, "a");
    assert!(matches!(a, Value::Number(n) if float(n) == 1.0));
}

#[test]
fn test_nesting_function2() {
    let s = "
        fun calc_b() {
            var a = 2;
            {
                var a = 3;
                return a;
            }
        }

        var b = calc_b();";
    let b = test_interpret(s, "b");
    // The `a` of the inner block shadows the one of the function body.
    assert!(matches!(b, Value::Number(n) if float(n) == 3.0));
}

#[test]
#[should_panic(expected = "Parse failed")]
fn test_var_in_loop() {
    let s = "
        var a = 1;
        for (var i = 0; i < 2; i = i + 1) var a = 2;";
    let _ = test_interpret(s, "a");
}

#[test]
fn test_simple_class() {
    let s = "
        class Foo {
            method() {
            }
        }

        var foo = Foo();
        foo.method();";
    let _ = test_run(s);
}

#[test]
fn test_class() {
    let s = "
        class Foo {
            bar() {
                class Foo {
                    bar2() {
                    }
                }
                var foo = Foo();
                foo.bar2();

            }
        }

        var foo = Foo();
        foo.bar();";
    let _ = test_run(s);
}

#[test]
fn test_method() {
    let s = "
        class Foo {
            bar() {
                return 1;
            }
        }
        var foo = Foo();
        var a = foo.bar();";
    let a = test_interpret(s, "a");
    assert!(matches!(a, Value::Number(n) if float(n) == 1.0));
}

#[test]
fn test_object_assign() {
    let s = "
        class Foo {
        }

        var foo = Foo();
        foo.bar = 1;";
    let _ = test_run(s);
}

#[test]
fn test_object_assign2() {
    let s = "
        class Foo {
        }

        var foo = Foo();
        foo.bar = 1;
        var a = foo.bar;";
    let a = test_interpret(s, "a");
    assert!(matches!(a, Value::Number(n) if float(n) == 1.0));
}

#[test]
fn test_this() {
    let s = "
        class Foo {
            f() {
                this.bar = 1;
                return this.bar;
            }
        }
        var foo = Foo();
        var a = foo.f();";
    let a = test_interpret(s, "a");
    assert!(matches!(a, Value::Number(n) if float(n) == 1.0));
}

#[test]
fn test_this2() {
    let s = "
        class Foo {
            init() {
                this.a = 1;
            }

            do_thing() {
                return this.a;
            }
        }

        var foo1 = Foo();
        var foo2 = Foo();
        foo2.a = 2;
        foo2.do_thing = foo1.do_thing;
        var a = foo2.do_thing();";
    let a = test_interpret(s, "a");
    assert!(matches!(a, Value::Number(n) if float(n) == 1.0));
}

#[test]
fn test_this3() {
    let s = "
        class Foo {
            do_thing() {
                return this.a;
            }
        }

        var foo = Foo();
        foo.a = 1;
        var a = foo.do_thing();";
    let a = test_interpret(s, "a");
    assert!(matches!(a, Value::Number(n) if float(n) == 1.0));
}

#[test]
fn test_closure() {
    let s = "
        fun create_closure() {
            var a = 1;
            fun closure() {
                return a;
            }
            return closure;
        }
        var my_closure = create_closure();
        var a = my_closure();";
    let a = test_interpret(s, "a");
    assert!(matches!(a, Value::Number(n) if float(n) == 1.0));
}

#[test]
fn test_init1() {
    let s = "
        class A {
            init() {
                this.field = 1;
            }
        }
        var a = A();
        var b = a.field;";
    let b = test_interpret(s, "b");
    assert!(matches!(b, Value::Number(n) if float(n) == 1.0));
}

#[test]
fn test_init2() {
    let s = "
        class A {
            init() {
                this.field = 1;
            }
        }
        var a = A();
        var object = a.init();
        var b = a.field + object.field;";
    let b = test_interpret(s, "b");
    assert!(matches!(b, Value::Number(n) if float(n) == 2.0));
}

#[test]
fn test_super_class() {
    let s = "
        class B {
            do_thing() {
                return 5;
            }
        }
        class A < B {}

        var a = A();
        var c = a.do_thing();";
    let c = test_interpret(s, "c");
    assert!(matches!(c, Value::Number(n) if float(n) == 5.0));
}

#[test]
fn test_super_call() {
    let s = "
        class B {
            do_thing() {
                return 5;
            }
        }
        class A < B {
            do_thing() {
                return super.do_thing() + 1;
            }
        }
        var a = A();
        var c = a.do_thing();";
    let c = test_interpret(s, "c");
    assert!(matches!(c, Value::Number(n) if float(n) == 6.0));
}
