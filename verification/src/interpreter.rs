//! The evaluator: a machine that runs a resolved program one step at a time.
//!
//! `Interpreter::step` is proved to compute the `step` of the semantics.
//! The host drives it: it calls `step` again and again, does what each
//! returned `Action` asks, and hands the answer to the next call.

use vstd::prelude::*;

use crate::ast::{
    Ast, Call, ClassStruct, Declaration, Depth, Expr, ExprKind, For, FunDeclaration,
    FunDeclarationStruct, Initializer, SetExpr, Statement, VarDeclaration,
};
use crate::environment::{property, values_view, Environment, FrameView, Heap, HeapView};
use crate::host::{answer, Action, ActionView, Output, Reply, Request, RequestView};
use crate::interp_error::{failure, InterpError, InterpErrorView, InterpResult};
use crate::semantics::{
    arity_message, binary_operation, boundary, equal, method_table, output, same_function,
    unary_operation, MachineView, Operation, Step, Task,
};
use crate::preservation::{
    roomy, theorem_initial_is_sound, theorem_run_keeps_sound, theorem_step_keeps_sound,
};
use crate::safety::safe_declarations;
use crate::sound::sound;
use crate::table::Table;
use crate::text::decimal_text;
use crate::token::{Token, TokenKind};
use crate::value::{
    bindings, Function, IClass, IClassStruct, Number, Object, ObjectStruct, UserDefined, Value,
    ValueView,
};

verus! {

/// A step, from its two parts.
pub open spec fn stepped<'a>(machine: MachineView<'a>, action: ActionView<'a>) -> Step<'a> {
    Step { machine, action }
}

/// The model of a result.
pub open spec fn result_view<'a>(result: InterpResult<'a>) -> Result<ValueView<'a>, InterpErrorView<'a>> {
    match result {
        Ok(v) => Ok(v@),
        Err(e) => Err(e@),
    }
}

/// What a binary or unary operator makes of its operands.
#[derive(Debug)]
pub enum Outcome<'a> {
    /// The result.
    Value(Value<'a>),
    /// The operands are numbers: the host computes the result.
    Host(Request),
    /// The operands do not fit the operator.
    Wrong(String),
}

impl<'a> View for Outcome<'a> {
    type V = Operation<'a>;

    open spec fn view(&self) -> Operation<'a> {
        match *self {
            Outcome::Value(v) => Operation::Value(v@),
            Outcome::Host(r) => Operation::Host(r@),
            Outcome::Wrong(m) => Operation::Wrong(m@),
        }
    }
}

/// A frame made empty and then bound once is a frame made with that binding.
pub proof fn lemma_frame_with_binding<'a>(
    heap: HeapView<'a>,
    parent: Option<usize>,
    name: Seq<char>,
    value: ValueView<'a>,
)
    requires
        heap.frames.len() <= usize::MAX,
    ensures
        heap.with_frame(FrameView { parent, vars: Map::empty() }).bind(
            heap.frames.len() as usize,
            name,
            value,
        ) == heap.with_frame(FrameView { parent, vars: Map::empty().insert(name, value) }),
{
    let a = heap.with_frame(FrameView { parent, vars: Map::empty() }).bind(
        heap.frames.len() as usize,
        name,
        value,
    );
    let b = heap.with_frame(FrameView { parent, vars: Map::empty().insert(name, value) });
    assert(a.frames =~= b.frames);
}

/// Whether two functions are the same.
pub fn functions_equal(f: &Function, g: &Function) -> (r: bool)
    ensures
        r == same_function(*f, *g),
{
    match f {
        Function::Builtin => match g {
            Function::Builtin => true,
            _ => false,
        },
        Function::UserDefined(a) => match g {
            Function::UserDefined(b) => a.declaration.name.kind == b.declaration.name.kind
                && a.declaration.name.line == b.declaration.name.line && a.declaration.name.content
                == b.declaration.name.content,
            _ => false,
        },
    }
}

/// Whether two values are equal, where the evaluator can tell: `None` for two numbers.
pub fn values_equal(left: &Value, right: &Value) -> (r: Option<bool>)
    ensures
        r == equal(left@, right@),
{
    match left {
        Value::Boolean(a) => match right {
            Value::Boolean(b) => Some(*a == *b),
            _ => Some(false),
        },
        Value::Class(a) => match right {
            Value::Class(b) => Some(a.index == b.index),
            _ => Some(false),
        },
        Value::Function(a) => match right {
            Value::Function(b) => Some(functions_equal(a, b)),
            _ => Some(false),
        },
        Value::Nil => match right {
            Value::Nil => Some(true),
            _ => Some(false),
        },
        Value::Number(_) => match right {
            Value::Number(_) => None,
            _ => Some(false),
        },
        Value::Object(a) => match right {
            Value::Object(b) => Some(a.index == b.index),
            _ => Some(false),
        },
        Value::StringV(a) => match right {
            Value::StringV(b) => Some(*a == *b),
            _ => Some(false),
        },
    }
}

/// The request to apply `kind` to two numbers.
fn number_request<'a>(kind: TokenKind, left: &Value<'a>, right: &Value<'a>) -> (r: Outcome<'a>)
    ensures
        r@ == match (left@, right@) {
            (ValueView::Number(a), ValueView::Number(b)) => Operation::<'a>::Host(
                RequestView::Binary { operator: kind, left: a, right: b },
            ),
            _ => Operation::<'a>::Wrong("Expected number in expression."@),
        },
{
    match left {
        Value::Number(a) => match right {
            Value::Number(b) => Outcome::Host(Request::Binary { operator: kind, left: *a, right: *b }),
            _ => Outcome::Wrong(String::from_str("Expected number in expression.")),
        },
        _ => Outcome::Wrong(String::from_str("Expected number in expression.")),
    }
}

/// What the binary operator `kind` makes of `left` and `right`.
///
/// `+` adds two numbers and joins two strings; anything else is an error.
/// The other arithmetic operators and the comparisons take two numbers.
/// `==` and `!=` take any two values.
pub fn binary_operation_of<'a>(kind: TokenKind, left: Value<'a>, right: Value<'a>) -> (r: Outcome<'a>)
    ensures
        r@ == binary_operation(kind, left@, right@),
{
    match kind {
        TokenKind::Plus => match left {
            Value::StringV(a) => match right {
                Value::StringV(b) => Outcome::Value(Value::StringV(a.concat(b.as_str()))),
                _ => Outcome::Wrong(String::from_str("Expected string in concatenation operation.")),
            },
            Value::Number(a) => match right {
                Value::Number(b) => Outcome::Host(
                    Request::Binary { operator: kind, left: a, right: b },
                ),
                _ => Outcome::Wrong(String::from_str("Expected number in expression.")),
            },
            _ => Outcome::Wrong(String::from_str("Invalid operation.")),
        },
        TokenKind::EqualEqual | TokenKind::BangEqual => match values_equal(&left, &right) {
            Some(same) => Outcome::Value(Value::Boolean(same == (kind == TokenKind::EqualEqual))),
            None => number_request(kind, &left, &right),
        },
        TokenKind::Minus
        | TokenKind::Star
        | TokenKind::Slash
        | TokenKind::Less
        | TokenKind::LessEqual
        | TokenKind::Greater
        | TokenKind::GreaterEqual => number_request(kind, &left, &right),
        _ => Outcome::Wrong(String::from_str("Invalid operation.")),
    }
}

/// What the unary operator `kind` makes of `value`.
pub fn unary_operation_of<'a>(kind: TokenKind, value: Value<'a>) -> (r: Outcome<'a>)
    ensures
        r@ == unary_operation(kind, value@),
{
    match kind {
        TokenKind::Minus => match value {
            Value::Number(n) => Outcome::Host(Request::Negate(n)),
            _ => Outcome::Wrong(String::from_str("Expected number in expression.")),
        },
        TokenKind::Bang => Outcome::Value(Value::Boolean(!value.is_truthy())),
        _ => Outcome::Wrong(String::from_str("Invalid operation.")),
    }
}

/// The methods of a class, each closing over `environment`.
pub fn generate_methods<'a>(class_methods: &'a Vec<FunDeclarationStruct>, environment: Environment) -> (r:
    Table<UserDefined<'a>>)
    ensures
        r@ == method_table(class_methods, environment, class_methods@.len() as int),
{
    let mut methods: Table<UserDefined<'a>> = Table::new();
    let mut i: usize = 0;
    while i < class_methods.len()
        invariant
            i <= class_methods.len(),
            methods@ == method_table(class_methods, environment, i as int),
        decreases class_methods.len() - i,
    {
        let declaration = &class_methods[i];
        let is_initializer = crate::text::same_text(declaration.name.content.as_str(), "init");
        let method = Value::new_user_defined(declaration, environment, is_initializer);
        methods.insert(declaration.name.content.clone(), method);
        i += 1;
    }
    methods
}

/// The message for a call with the wrong number of arguments.
fn arity_text(name: &str, expected: usize, received: usize) -> (r: String)
    ensures
        r@ == arity_message(name@, expected as nat, received as nat),
{
    let mut text = String::from_str("Arity mismatch: declaration ");
    text.append(name);
    text.append(" expected ");
    text.append(decimal_text(expected).as_str());
    text.append(" arguments, received ");
    text.append(decimal_text(received).as_str());
    text.append(".");
    text
}

/// The evaluator's state.
pub struct Interpreter<'a> {
    heap: Heap<'a>,
    globals: Environment,
    tasks: Vec<Task<'a>>,
    values: Vec<Value<'a>>,
    pending: Option<Request>,
}

impl<'a> View for Interpreter<'a> {
    type V = MachineView<'a>;

    closed spec fn view(&self) -> MachineView<'a> {
        MachineView {
            heap: self.heap@,
            globals: self.globals,
            tasks: self.tasks@,
            values: values_view(self.values@),
            pending: match self.pending {
                Some(request) => Some(request@),
                None => None,
            },
        }
    }
}

/// The state of an evaluator that has run nothing: one frame, the globals,
/// which binds the builtin `clock`.
pub open spec fn initial<'a>() -> MachineView<'a> {
    MachineView {
        heap: HeapView {
            frames: seq![
                FrameView {
                    parent: None,
                    vars: Map::empty().insert("clock"@, ValueView::Function(Function::Builtin)),
                },
            ],
            classes: Seq::empty(),
            objects: Seq::empty(),
        },
        globals: Environment { current: 0 },
        tasks: Seq::empty(),
        values: Seq::empty(),
        pending: None,
    }
}

impl<'a> Interpreter<'a> {
    /// An evaluator that has run nothing.
    pub fn new() -> (r: Interpreter<'a>)
        ensures
            r@ == initial::<'a>(),
            sound(r@),
    {
        proof {
            theorem_initial_is_sound();
        }
        let mut heap = Heap::new();
        let mut values: Table<Value<'a>> = Table::new();
        values.insert(String::from_str("clock"), Value::Function(Function::Builtin));
        let globals = Environment::new_with_values(&mut heap, values);
        let r = Interpreter { heap, globals, tasks: Vec::new(), values: Vec::new(), pending: None };
        proof {
            assert(bindings(values@) =~= Map::empty().insert(
                "clock"@,
                ValueView::Function(Function::Builtin),
            ));
            assert(r@.heap.frames =~= initial::<'a>().heap.frames);
            assert(r@.values =~= Seq::empty());
        }
        r
    }

    /// Schedules a program: its declarations run in the global environment,
    /// after what is scheduled already.
    ///
    /// A sound machine stays sound if the program is safe, as a program is
    /// that the resolver has accepted at top level.
    pub fn run(&mut self, ast: &'a Ast)
        ensures
            final(self)@ == old(self)@.push_task(
                Task::Declarations {
                    list: &ast.declarations,
                    next: 0,
                    environment: old(self)@.globals,
                },
            ),
            sound(old(self)@) && safe_declarations(ast@.declarations, 0, Seq::empty()) ==> sound(
                final(self)@,
            ),
    {
        proof {
            if sound(self@) && safe_declarations(ast@.declarations, 0, Seq::empty()) {
                theorem_run_keeps_sound(self@, &ast.declarations);
            }
        }
        self.tasks.push(
            Task::Declarations { list: &ast.declarations, next: 0, environment: self.globals },
        );
    }

    /// What a global variable is bound to.
    pub fn get_global(&self, token: &Token) -> (r: InterpResult<'a>)
        ensures
            result_view(r) == match self@.heap.lookup(self@.globals.current, token.content@) {
                Some(v) => Ok::<ValueView<'a>, InterpErrorView<'a>>(v),
                None => Err::<ValueView<'a>, InterpErrorView<'a>>(
                    failure("Variable not found."@, *token),
                ),
            },
    {
        self.globals.get(&self.heap, token)
    }

    /// The heap, for a host that wants to look at values.
    pub fn heap(&self) -> (r: &Heap<'a>)
        ensures
            r@ == self@.heap,
    {
        &self.heap
    }

    fn push_task(&mut self, task: Task<'a>)
        ensures
            final(self)@ == old(self)@.push_task(task),
    {
        self.tasks.push(task);
    }

    fn push_value(&mut self, value: Value<'a>)
        ensures
            final(self)@ == old(self)@.push_value(value@),
    {
        self.values.push(value);
        proof {
            assert(values_view(self.values@) =~= values_view(old(self).values@).push(value@));
        }
    }

    fn pop_value(&mut self) -> (r: Value<'a>)
        ensures
            r@ == old(self)@.top(),
            final(self)@ == old(self)@.pop(),
    {
        match self.values.pop() {
            Some(value) => {
                proof {
                    assert(values_view(self.values@) =~= values_view(old(self).values@).drop_last());
                }
                value
            },
            None => Value::Nil,
        }
    }

    fn give(&mut self, value: Value<'a>) -> (r: Action<'a>)
        ensures
            stepped(final(self)@, r@) == old(self)@.give(value@),
    {
        self.push_value(value);
        Action::Continue
    }

    fn halt(&mut self, error: InterpError<'a>) -> (r: Action<'a>)
        ensures
            stepped(final(self)@, r@) == old(self)@.halt(error@),
    {
        self.tasks.clear();
        self.values.clear();
        self.pending = None;
        proof {
            assert(values_view(self.values@) =~= Seq::empty());
        }
        Action::Done(Err(error))
    }

    fn fail(&mut self, message: &str, token: &Token) -> (r: Action<'a>)
        ensures
            stepped(final(self)@, r@) == old(self)@.halt(failure(message@, *token)),
    {
        self.halt(InterpError::new(message, token.clone()))
    }

    fn ask(&mut self, request: Request) -> (r: Action<'a>)
        ensures
            stepped(final(self)@, r@) == old(self)@.ask(request@),
    {
        self.pending = Some(request.clone());
        Action::Ask(request)
    }

    fn settle(&mut self, result: InterpResult<'a>) -> (r: Action<'a>)
        ensures
            stepped(final(self)@, r@) == old(self)@.settle(result_view(result)),
    {
        match result {
            Ok(value) => self.give(value),
            Err(error) => self.halt(error),
        }
    }

    fn operate(&mut self, outcome: Outcome<'a>, token: &Token) -> (r: Action<'a>)
        ensures
            stepped(final(self)@, r@) == old(self)@.operate(outcome@, *token),
    {
        match outcome {
            Outcome::Value(value) => self.give(value),
            Outcome::Host(request) => self.ask(request),
            Outcome::Wrong(message) => self.fail(message.as_str(), token),
        }
    }

    fn declare_and_assign(&mut self, environment: Environment, token: &Token, new_value: Value<'a>)
        ensures
            final(self)@ == old(self)@.with_heap(
                old(self)@.heap.bind(environment.current, token.content@, new_value@),
            ),
    {
        environment.declare_and_assign(&mut self.heap, token, new_value);
    }

    fn visit_var_expr(&self, depth: &Option<u32>, environment: Environment, token: &Token) -> (r:
        InterpResult<'a>)
        ensures
            result_view(r) == self@.variable(*depth, environment, *token),
    {
        match depth {
            Some(depth) => match environment.maybe_get_at(&self.heap, *depth, token.content.as_str()) {
                Some(value) => Ok(value),
                None => Err(InterpError::new("Variable not found.", token.clone())),
            },
            None => self.get_global(token),
        }
    }

    fn visit_class(&mut self, class: &'a ClassStruct, environment: Environment) -> (r: Action<'a>)
        ensures
            stepped(final(self)@, r@) == old(self)@.class_declaration(class, environment),
    {
        match &class.superclass {
            Some(expr) => match &expr.kind {
                ExprKind::Variable(depth) => {
                    match self.visit_var_expr(depth, environment, &expr.token) {
                        Ok(value) => match value {
                            Value::Class(parent) => {
                                proof {
                                    assert(self.heap@.frames.len() == self.heap.frames.len());
                                    lemma_frame_with_binding(
                                        self.heap@,
                                        Some(environment.current),
                                        "super"@,
                                        ValueView::Class(parent),
                                    );
                                }
                                let around = environment.new_block(&mut self.heap);
                                around.insert(&mut self.heap, "super", Value::Class(parent));
                                let methods = generate_methods(&class.methods, around);
                                let made = IClassStruct::new_i_class(
                                    &mut self.heap,
                                    methods,
                                    class.name.content.as_str(),
                                    Some(parent),
                                );
                                self.declare_and_assign(environment, &class.name, Value::Class(made));
                                return Action::Continue;
                            },
                            _ => {
                                return self.fail("Can only inherit from classes", &expr.token);
                            },
                        },
                        Err(error) => {
                            return self.halt(error);
                        },
                    }
                },
                _ => {},
            },
            None => {},
        }
        let methods = generate_methods(&class.methods, environment);
        let made = IClassStruct::new_i_class(
            &mut self.heap,
            methods,
            class.name.content.as_str(),
            None,
        );
        self.declare_and_assign(environment, &class.name, Value::Class(made));
        Action::Continue
    }

    fn visit_declaration(&mut self, declaration: &'a Declaration, environment: Environment) -> (r:
        Action<'a>)
        ensures
            stepped(final(self)@, r@) == old(self)@.declaration(declaration, environment),
    {
        match declaration {
            Declaration::Class(class) => self.visit_class(class, environment),
            Declaration::FunDeclaration(fun_declaration) => self.visit_fun_declaration(
                environment,
                fun_declaration,
            ),
            Declaration::Statement(statement) => self.visit_statement(environment, statement),
            Declaration::VarDeclaration(var_declaration) => self.visit_var_declaration(
                environment,
                var_declaration,
            ),
        }
    }

    /// Runs the next declaration of a list, if one is left.
    fn visit_declarations(
        &mut self,
        declarations: &'a Vec<Declaration>,
        next: usize,
        environment: Environment,
    ) -> (r: Action<'a>)
        ensures
            stepped(final(self)@, r@) == old(self)@.run(
                Task::Declarations { list: declarations, next, environment },
            ),
    {
        if next < declarations.len() {
            self.push_task(Task::Declarations { list: declarations, next: next + 1, environment });
            self.visit_declaration(&declarations[next], environment)
        } else {
            Action::Continue
        }
    }

    fn visit_var_declaration(&mut self, environment: Environment, var_declaration: &'a VarDeclaration) -> (r:
        Action<'a>)
        ensures
            stepped(final(self)@, r@) == old(self)@.var_declaration(var_declaration, environment),
    {
        match &var_declaration.initializer {
            Some(expr) => {
                self.push_task(Task::Define { name: &var_declaration.name, environment });
                self.push_task(Task::Expr { expr, environment });
            },
            None => {
                self.declare_and_assign(environment, &var_declaration.name, Value::Nil);
            },
        }
        Action::Continue
    }

    /// Schedules a `for` statement in the frame `environment` of its own.
    fn visit_for(&mut self, environment: Environment, for_statement: &'a For) -> (r: Action<'a>)
        ensures
            stepped(final(self)@, r@) == old(self)@.for_statement(for_statement, environment),
    {
        self.push_task(Task::ForCond { statement: for_statement, environment });
        match &for_statement.initializer {
            Some(initializer) => self.visit_initializer(environment, initializer),
            None => Action::Continue,
        }
    }

    fn visit_fun_declaration(&mut self, environment: Environment, fun_declaration: &'a FunDeclaration) -> (r:
        Action<'a>)
        ensures
            stepped(final(self)@, r@) == old(self)@.with_heap(
                old(self)@.heap.bind(
                    environment.current,
                    fun_declaration.name.content@,
                    ValueView::Function(
                        Function::UserDefined(
                            UserDefined {
                                declaration: fun_declaration,
                                environment,
                                is_initializer: false,
                            },
                        ),
                    ),
                ),
            ).go(),
    {
        let new_function = Value::new_function(fun_declaration, environment, false);
        self.declare_and_assign(environment, &fun_declaration.name, new_function);
        Action::Continue
    }

    fn visit_block(&mut self, declarations: &'a Vec<Declaration>, environment: Environment) -> (r:
        Action<'a>)
        ensures
            stepped(final(self)@, r@) == old(self)@.with_heap(
                old(self)@.heap.with_frame(
                    FrameView { parent: Some(environment.current), vars: Map::empty() },
                ),
            ).push_task(
                Task::Declarations {
                    list: declarations,
                    next: 0,
                    environment: Environment { current: old(self)@.heap.frames.len() as usize },
                },
            ).go(),
    {
        let block = environment.new_block(&mut self.heap);
        self.push_task(Task::Declarations { list: declarations, next: 0, environment: block });
        Action::Continue
    }

    fn visit_statement(&mut self, environment: Environment, statement: &'a Statement) -> (r: Action<
        'a,
    >)
        ensures
            stepped(final(self)@, r@) == old(self)@.statement(statement, environment),
    {
        match statement {
            Statement::ExprStatement(expr) => {
                self.push_task(Task::Discard);
                self.push_task(Task::Expr { expr, environment });
                Action::Continue
            },
            Statement::Print(expr) => {
                self.push_task(Task::Print);
                self.push_task(Task::Expr { expr, environment });
                Action::Continue
            },
            Statement::Block(declarations) => self.visit_block(declarations, environment),
            Statement::If(if_statement) => {
                self.push_task(Task::Branch { statement: if_statement, environment });
                self.push_task(Task::Expr { expr: &if_statement.cond, environment });
                Action::Continue
            },
            Statement::While(while_statement) => {
                self.push_task(Task::Loop { statement: while_statement, environment });
                self.push_task(Task::Expr { expr: &while_statement.cond, environment });
                Action::Continue
            },
            Statement::For(for_statement) => {
                let block = environment.new_block(&mut self.heap);
                self.visit_for(block, for_statement)
            },
            Statement::Return(return_value) => {
                self.push_task(Task::Return);
                match return_value {
                    Some(expr) => {
                        self.push_task(Task::Expr { expr, environment });
                        Action::Continue
                    },
                    None => self.give(Value::Nil),
                }
            },
        }
    }

    fn visit_initializer(&mut self, environment: Environment, initializer: &'a Initializer) -> (r:
        Action<'a>)
        ensures
            stepped(final(self)@, r@) == match *initializer {
                Initializer::VarDeclaration(v) => old(self)@.var_declaration(
                    &initializer->VarDeclaration_0,
                    environment,
                ),
                Initializer::Expr(e) => old(self)@.push_task(Task::Discard).push_task(
                    Task::Expr { expr: &initializer->Expr_0, environment },
                ).go(),
            },
    {
        match initializer {
            Initializer::VarDeclaration(var_declaration) => self.visit_var_declaration(
                environment,
                var_declaration,
            ),
            Initializer::Expr(expr) => {
                self.push_task(Task::Discard);
                self.push_task(Task::Expr { expr, environment });
                Action::Continue
            },
        }
    }

    /// What a literal denotes.
    fn visit_literal(&mut self, token: &'a Token) -> (r: Action<'a>)
        ensures
            stepped(final(self)@, r@) == old(self)@.literal(*token),
    {
        match token.kind {
            TokenKind::Number => self.ask(Request::Parse(token.content.clone())),
            TokenKind::StringT => self.give(Value::StringV(token.content.clone())),
            TokenKind::True => self.give(Value::Boolean(true)),
            TokenKind::False => self.give(Value::Boolean(false)),
            TokenKind::Nil => self.give(Value::Nil),
            _ => self.fail("Invalid literal.", token),
        }
    }

    fn visit_this(&mut self, depth: &Option<u32>, environment: Environment, this: &'a Token) -> (r:
        Action<'a>)
        ensures
            stepped(final(self)@, r@) == match *depth {
                Some(d) => match old(self)@.heap.lookup_at(
                    environment.current,
                    d as nat,
                    this.content@,
                ) {
                    Some(value) => old(self)@.give(value),
                    None => old(self)@.halt(failure("Variable not found."@, *this)),
                },
                None => old(self)@.halt(failure("Cannot access this in global context."@, *this)),
            },
    {
        match depth {
            Some(depth) => match environment.maybe_get_at(&self.heap, *depth, this.content.as_str()) {
                Some(value) => self.give(value),
                None => self.fail("Variable not found.", this),
            },
            None => self.fail("Cannot access this in global context.", this),
        }
    }

    fn visit_super(
        &mut self,
        depth: &Option<u32>,
        environment: Environment,
        method: &'a Token,
        token: &'a Token,
    ) -> (r: Action<'a>)
        ensures
            stepped(final(self)@, r@) == old(self)@.super_method(*depth, environment, *method, *token),
    {
        let depth = match depth {
            Some(depth) => *depth,
            None => {
                return self.fail("Cannot access super outside of a class.", token);
            },
        };
        if depth == 0 {
            return self.fail("Cannot access super outside of a class.", token);
        }
        let superclass = environment.maybe_get_at(&self.heap, depth, token.content.as_str());
        let this = environment.maybe_get_at(&self.heap, depth - 1, "this");
        match superclass {
            Some(Value::Class(superclass)) => match this {
                Some(Value::Object(object)) => {
                    match IClassStruct::find_method(&self.heap, superclass, method.content.as_str()) {
                        Some(found) => {
                            let bound = ObjectStruct::bind(&mut self.heap, &object, found);
                            self.give(Value::Function(Function::UserDefined(bound)))
                        },
                        None => self.fail("Method not found on 'super'.", token),
                    }
                },
                _ => self.fail("Variable not found.", token),
            },
            _ => self.fail("Variable not found.", token),
        }
    }

    fn visit_expr(&mut self, environment: Environment, expr: &'a Expr) -> (r: Action<'a>)
        ensures
            stepped(final(self)@, r@) == old(self)@.expression(expr, environment),
    {
        match &expr.kind {
            ExprKind::Assign(assign_expr) => {
                self.push_task(
                    Task::Assign { depth: assign_expr.depth, name: &expr.token, environment },
                );
                self.push_task(Task::Expr { expr: &assign_expr.initializer, environment });
                Action::Continue
            },
            ExprKind::Binary(binary_expr) => {
                self.push_task(Task::Binary { operator: &expr.token });
                self.push_task(Task::Expr { expr: &binary_expr.right, environment });
                self.push_task(Task::Expr { expr: &binary_expr.left, environment });
                Action::Continue
            },
            ExprKind::Call(call) => {
                self.push_task(Task::Call { call, paren: &expr.token, environment, next: 0 });
                self.push_task(Task::Expr { expr: &call.callee, environment });
                Action::Continue
            },
            ExprKind::Literal => self.visit_literal(&expr.token),
            ExprKind::Logical(logical) => {
                self.push_task(
                    Task::Logical { operator: &expr.token, right: &logical.right, environment },
                );
                self.push_task(Task::Expr { expr: &logical.left, environment });
                Action::Continue
            },
            ExprKind::Get(object) => {
                self.push_task(Task::Get { name: &expr.token });
                self.push_task(Task::Expr { expr: object, environment });
                Action::Continue
            },
            ExprKind::Grouping(inner) => {
                self.push_task(Task::Expr { expr: inner, environment });
                Action::Continue
            },
            ExprKind::SetExpr(set) => {
                self.push_task(Task::SetTarget { set, name: &expr.token, environment });
                self.push_task(Task::Expr { expr: &set.object, environment });
                Action::Continue
            },
            ExprKind::This(depth) => self.visit_this(depth, environment, &expr.token),
            ExprKind::Unary(operand) => {
                self.push_task(Task::Unary { operator: &expr.token });
                self.push_task(Task::Expr { expr: operand, environment });
                Action::Continue
            },
            ExprKind::Variable(depth) => {
                let value = self.visit_var_expr(depth, environment, &expr.token);
                self.settle(value)
            },
            ExprKind::Super(method, depth) => self.visit_super(depth, environment, method, &expr.token),
        }
    }

    fn visit_logical(
        &mut self,
        environment: Environment,
        operator: &'a Token,
        right: &'a Expr,
        left: Value<'a>,
    ) -> (r: Action<'a>)
        ensures
            stepped(final(self)@, r@) == old(self)@.logical(operator, right, environment, left@),
    {
        match operator.kind {
            TokenKind::And => {
                if left.is_truthy() {
                    self.push_task(Task::Truth);
                    self.push_task(Task::Expr { expr: right, environment });
                    Action::Continue
                } else {
                    self.give(Value::Boolean(false))
                }
            },
            TokenKind::Or => {
                if left.is_truthy() {
                    self.give(Value::Boolean(true))
                } else {
                    self.push_task(Task::Truth);
                    self.push_task(Task::Expr { expr: right, environment });
                    Action::Continue
                }
            },
            _ => self.fail("Invalid operation.", operator),
        }
    }

    /// Applies a binary operator to the two values on the stack.
    fn visit_binary_expr(&mut self, token: &'a Token) -> (r: Action<'a>)
        ensures
            stepped(final(self)@, r@) == old(self)@.run(Task::Binary { operator: token }),
    {
        let right_v = self.pop_value();
        let left_v = self.pop_value();
        let outcome = binary_operation_of(token.kind, left_v, right_v);
        self.operate(outcome, token)
    }

    /// Applies a unary operator to the value on the stack.
    fn visit_unary(&mut self, token: &'a Token) -> (r: Action<'a>)
        ensures
            stepped(final(self)@, r@) == old(self)@.run(Task::Unary { operator: token }),
    {
        let value = self.pop_value();
        let outcome = unary_operation_of(token.kind, value);
        self.operate(outcome, token)
    }

    /// Calls `function` with `arguments`.
    fn call_function(
        &mut self,
        function: UserDefined<'a>,
        arguments: Vec<Value<'a>>,
        call: &'a Call,
        closing_paren: &'a Token,
    ) -> (r: Action<'a>)
        ensures
            stepped(final(self)@, r@) == old(self)@.call_function(
                function,
                values_view(arguments@),
                call,
                closing_paren,
            ),
    {
        let declaration = function.declaration;
        if arguments.len() != declaration.params.len() {
            let message = arity_text(
                call.callee.token.content.as_str(),
                declaration.params.len(),
                arguments.len(),
            );
            return self.fail(message.as_str(), closing_paren);
        }
        let environment = function.environment.new_block(&mut self.heap);
        environment.bind_arguments(&mut self.heap, arguments, &declaration.params);
        let base = self.values.len();
        self.push_task(Task::Boundary { function, base });
        self.push_task(Task::Declarations { list: &declaration.body, next: 0, environment });
        Action::Continue
    }

    /// Calls `class`: makes an object and runs the class's own `init` on it.
    fn call_class(
        &mut self,
        call: &'a Call,
        class: &IClass,
        arguments: Vec<Value<'a>>,
        closing_paren: &'a Token,
    ) -> (r: Action<'a>)
        ensures
            stepped(final(self)@, r@) == old(self)@.construct(
                *class,
                values_view(arguments@),
                call,
                closing_paren,
            ),
    {
        if class.index >= self.heap.classes.len() {
            return self.fail("Can only call functions and classes.", closing_paren);
        }
        let init = match self.heap.classes[class.index].methods.get("init") {
            Some(user_defined) => Some(*user_defined),
            None => None,
        };
        match init {
            Some(user_defined) => {
                let object = ObjectStruct::new_object(&mut self.heap, class);
                let bound = ObjectStruct::bind(&mut self.heap, &object, user_defined);
                self.call_function(bound, arguments, call, closing_paren)
            },
            None => {
                if arguments.len() > 0 {
                    let message = arity_text(call.callee.token.content.as_str(), 0, arguments.len());
                    return self.fail(message.as_str(), closing_paren);
                }
                let object = ObjectStruct::new_object(&mut self.heap, class);
                self.give(Value::Object(object))
            },
        }
    }

    /// Makes the call whose callee and arguments are the topmost values.
    fn finish_call(&mut self, call: &'a Call, closing_paren: &'a Token) -> (r: Action<'a>)
        ensures
            stepped(final(self)@, r@) == old(self)@.finish_call(call, closing_paren),
    {
        let count = call.arguments.len();
        if self.values.len() <= count {
            return self.fail("Can only call functions and classes.", closing_paren);
        }
        let ghost before = values_view(self.values@);
        let at = self.values.len() - count;
        let arguments = self.values.split_off(at);
        proof {
            assert(values_view(arguments@) =~= before.subrange(at as int, before.len() as int));
        }
        let callee = match self.values.pop() {
            Some(value) => value,
            None => Value::Nil,
        };
        proof {
            assert(values_view(self.values@) =~= before.take(at - 1));
            assert(callee@ == before[at - 1]);
        }
        match callee {
            Value::Function(function) => match function {
                Function::UserDefined(user_defined) => self.call_function(
                    user_defined,
                    arguments,
                    call,
                    closing_paren,
                ),
                Function::Builtin => self.ask(Request::Clock),
            },
            Value::Class(class) => self.call_class(call, &class, arguments, closing_paren),
            _ => {
                proof {
                    assert(old(self)@.finish_call(call, closing_paren) == old(self)@.halt(
                        failure("Can only call functions and classes."@, *closing_paren),
                    ));
                }
                self.fail("Can only call functions and classes.", closing_paren)
            },
        }
    }

    /// Evaluates the next argument of a call, or makes the call.
    fn visit_call(
        &mut self,
        call: &'a Call,
        closing_paren: &'a Token,
        environment: Environment,
        next: usize,
    ) -> (r: Action<'a>)
        ensures
            stepped(final(self)@, r@) == old(self)@.run(
                Task::Call { call, paren: closing_paren, environment, next },
            ),
    {
        if next < call.arguments.len() {
            self.push_task(Task::Call { call, paren: closing_paren, environment, next: next + 1 });
            self.push_task(Task::Expr { expr: &call.arguments[next], environment });
            Action::Continue
        } else {
            self.finish_call(call, closing_paren)
        }
    }

    /// Reads a property of the object on the stack.
    fn visit_get(&mut self, identifier: &'a Token) -> (r: Action<'a>)
        ensures
            stepped(final(self)@, r@) == old(self)@.run(Task::Get { name: identifier }),
    {
        let n = self.values.len();
        if n > 0 {
            if let Value::Object(object) = &self.values[n - 1] {
                let object = *object;
                let _ = self.pop_value();
                let value = ObjectStruct::get(&mut self.heap, &object, identifier);
                return self.settle(value);
            }
        }
        self.fail("Field access should be preceded by object.", identifier)
    }

    fn assign_global(&mut self, token: &Token, value: Value<'a>) -> (r: InterpResult<'a>)
        ensures
            match old(self)@.heap.lookup(old(self)@.globals.current, token.content@) {
                Some(_) => r matches Ok(v) && v@ == value@ && final(self)@ == old(self)@.with_heap(
                    old(self)@.heap.bind(old(self)@.globals.current, token.content@, value@),
                ),
                None => r matches Err(e) && e@ == failure::<'a>("Variable not found in scope."@, *token)
                    && final(self)@ == old(self)@,
            },
    {
        let globals = self.globals;
        globals.assign(&mut self.heap, token, value)
    }

    /// Assigns the value on the stack to a variable.
    fn visit_assign_expr(&mut self, depth: Depth, environment: Environment, token: &'a Token) -> (r:
        Action<'a>)
        ensures
            stepped(final(self)@, r@) == old(self)@.run(
                Task::Assign { depth, name: token, environment },
            ),
    {
        let value = self.pop_value();
        match depth {
            Some(depth) => {
                if environment.maybe_assign_at(
                    &mut self.heap,
                    depth,
                    token.content.clone(),
                    value.clone(),
                ) {
                    self.give(value)
                } else {
                    self.fail("Variable not found.", token)
                }
            },
            None => {
                let assigned = self.assign_global(token, value);
                self.settle(assigned)
            },
        }
    }

    /// Checks the target of a property assignment, then schedules the value.
    fn visit_set(&mut self, environment: Environment, name: &'a Token, set: &'a SetExpr) -> (r: Action<
        'a,
    >)
        ensures
            stepped(final(self)@, r@) == old(self)@.run(Task::SetTarget { set, name, environment }),
    {
        let n = self.values.len();
        if n > 0 {
            if let Value::Object(_) = &self.values[n - 1] {
                self.push_task(Task::SetField { name });
                self.push_task(Task::Expr { expr: &set.value, environment });
                return Action::Continue;
            }
        }
        self.fail("Can only set properties of objects.", name)
    }

    /// Stores the value on the stack in a field of the object below it.
    fn set_field(&mut self, name: &'a Token) -> (r: Action<'a>)
        ensures
            stepped(final(self)@, r@) == old(self)@.run(Task::SetField { name }),
    {
        let n = self.values.len();
        if n > 1 {
            if let Value::Object(object) = &self.values[n - 2] {
                let object = *object;
                let value = self.pop_value();
                let _ = self.pop_value();
                ObjectStruct::set(&mut self.heap, &object, name.content.clone(), value.clone());
                return self.give(value);
            }
        }
        self.fail("Can only set properties of objects.", name)
    }

    /// Returns `value` from the call that is running.
    fn unwind(&mut self, value: Value<'a>) -> (r: Action<'a>)
        ensures
            stepped(final(self)@, r@) == old(self)@.unwind(value@),
    {
        loop
            invariant
                self.heap == old(self).heap,
                self.globals == old(self).globals,
                self.values == old(self).values,
                self.pending == old(self).pending,
                self.tasks@.len() <= old(self).tasks@.len(),
                self.tasks@ == old(self).tasks@.take(self.tasks@.len() as int),
                boundary(self.tasks@) == boundary(old(self).tasks@),
            decreases self.tasks@.len(),
        {
            let ghost before = self.tasks@;
            match self.tasks.pop() {
                Some(Task::Boundary { function, base }) => {
                    let result = if function.is_initializer {
                        match self.heap.lookup(function.environment.current, "this") {
                            Some(this) => this,
                            None => Value::Nil,
                        }
                    } else {
                        value
                    };
                    let ghost stack = values_view(self.values@);
                    self.values.truncate(base);
                    proof {
                        assert(values_view(self.values@) =~= if base <= stack.len() {
                            stack.take(base as int)
                        } else {
                            stack
                        });
                        assert(self.tasks@ =~= old(self).tasks@.take(before.len() - 1));
                    }
                    return self.give(result);
                },
                Some(_) => {
                    proof {
                        assert(self.tasks@ =~= before.drop_last());
                        assert(self.tasks@ =~= old(self).tasks@.take(self.tasks@.len() as int));
                    }
                },
                None => {
                    return self.halt(InterpError::Return(value));
                },
            }
        }
    }

    /// The end of the body of a call of `function`.
    fn visit_boundary(&mut self, function: UserDefined<'a>, base: usize) -> (r: Action<'a>)
        ensures
            stepped(final(self)@, r@) == old(self)@.run(Task::Boundary { function, base }),
    {
        let result = if function.is_initializer {
            match self.heap.lookup(function.environment.current, "this") {
                Some(this) => this,
                None => Value::Nil,
            }
        } else {
            Value::Nil
        };
        let ghost stack = values_view(self.values@);
        self.values.truncate(base);
        proof {
            assert(values_view(self.values@) =~= if base <= stack.len() {
                stack.take(base as int)
            } else {
                stack
            });
        }
        self.give(result)
    }

    /// What `print` writes for `value`.
    pub fn describe(&self, value: Value<'a>) -> (r: Output)
        ensures
            r@ == output(self@.heap, value@),
    {
        value.to_string(&self.heap)
    }

    /// Does the task `task`, which has been taken off the stack.
    fn run_task(&mut self, task: Task<'a>) -> (r: Action<'a>)
        ensures
            stepped(final(self)@, r@) == old(self)@.run(task),
    {
        match task {
            Task::Declarations { list, next, environment } => self.visit_declarations(
                list,
                next,
                environment,
            ),
            Task::Statement { statement, environment } => self.visit_statement(environment, statement),
            Task::Expr { expr, environment } => self.visit_expr(environment, expr),
            Task::Discard => {
                let _ = self.pop_value();
                Action::Continue
            },
            Task::Print => {
                let value = self.pop_value();
                Action::Print(self.describe(value))
            },
            Task::Define { name, environment } => {
                let value = self.pop_value();
                self.declare_and_assign(environment, name, value);
                Action::Continue
            },
            Task::Branch { statement, environment } => {
                let cond = self.pop_value();
                if cond.is_truthy() {
                    self.push_task(Task::Statement { statement: &statement.true_branch, environment });
                } else {
                    if let Some(else_branch) = &statement.else_branch {
                        self.push_task(Task::Statement { statement: else_branch, environment });
                    }
                }
                Action::Continue
            },
            Task::Loop { statement, environment } => {
                let cond = self.pop_value();
                if cond.is_truthy() {
                    self.push_task(Task::Loop { statement, environment });
                    self.push_task(Task::Expr { expr: &statement.cond, environment });
                    self.push_task(Task::Statement { statement: &statement.body, environment });
                }
                Action::Continue
            },
            Task::ForCond { statement, environment } => {
                self.push_task(Task::ForLoop { statement, environment });
                match &statement.cond {
                    Some(cond) => {
                        self.push_task(Task::Expr { expr: cond, environment });
                        Action::Continue
                    },
                    None => self.give(Value::Boolean(true)),
                }
            },
            Task::ForLoop { statement, environment } => {
                let cond = self.pop_value();
                if cond.is_truthy() {
                    self.push_task(Task::ForCond { statement, environment });
                    if let Some(increment) = &statement.increment {
                        self.push_task(Task::Discard);
                        self.push_task(Task::Expr { expr: increment, environment });
                    }
                    self.push_task(Task::Statement { statement: &statement.body, environment });
                }
                Action::Continue
            },
            Task::Return => {
                let value = self.pop_value();
                self.unwind(value)
            },
            Task::Boundary { function, base } => self.visit_boundary(function, base),
            Task::Binary { operator } => self.visit_binary_expr(operator),
            Task::Unary { operator } => self.visit_unary(operator),
            Task::Logical { operator, right, environment } => {
                let left = self.pop_value();
                self.visit_logical(environment, operator, right, left)
            },
            Task::Truth => {
                let value = self.pop_value();
                self.give(Value::Boolean(value.is_truthy()))
            },
            Task::Call { call, paren, environment, next } => self.visit_call(
                call,
                paren,
                environment,
                next,
            ),
            Task::Get { name } => self.visit_get(name),
            Task::SetTarget { set, name, environment } => self.visit_set(environment, name, set),
            Task::SetField { name } => self.set_field(name),
            Task::Assign { depth, name, environment } => self.visit_assign_expr(
                depth,
                environment,
                name,
            ),
        }
    }

    /// One step of the evaluator.
    ///
    /// `reply` is the host's answer to the action of the step before, and
    /// `Reply::Nothing` where that asked for none. The result says what the
    /// host is to do before the next step.
    ///
    /// A sound machine stays sound, while its heap has room: so no step of
    /// a program that the resolver has accepted fails to find a local
    /// variable, `this` or `super` where its depth points.
    pub fn step(&mut self, reply: Reply) -> (r: Action<'a>)
        ensures
            stepped(final(self)@, r@) == old(self)@.step(reply),
            sound(old(self)@) && roomy(old(self)@) ==> sound(final(self)@),
    {
        proof {
            if sound(self@) && roomy(self@) {
                theorem_step_keeps_sound(self@, reply);
            }
        }
        match self.pending.take() {
            Some(request) => {
                let value = match (&request, reply) {
                    (Request::Binary { operator, .. }, Reply::Number(n)) => match operator {
                        TokenKind::Plus | TokenKind::Minus | TokenKind::Star | TokenKind::Slash => Some(
                            Value::Number(n),
                        ),
                        _ => None,
                    },
                    (Request::Binary { operator, .. }, Reply::Boolean(b)) => match operator {
                        TokenKind::Less
                        | TokenKind::LessEqual
                        | TokenKind::Greater
                        | TokenKind::GreaterEqual
                        | TokenKind::EqualEqual
                        | TokenKind::BangEqual => Some(Value::Boolean(b)),
                        _ => None,
                    },
                    (Request::Binary { .. }, _) => None,
                    (_, Reply::Number(n)) => Some(Value::Number(n)),
                    _ => None,
                };
                match value {
                    Some(value) => self.give(value),
                    None => {
                        self.pending = Some(request.clone());
                        Action::Ask(request)
                    },
                }
            },
            None => match self.tasks.pop() {
                Some(task) => self.run_task(task),
                None => Action::Done(Ok(())),
            },
        }
    }
}

} // verus!
