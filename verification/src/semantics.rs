//! The semantics of the language: one step of the evaluator, as a function
//! on the model of its state.
//!
//! The evaluator is a machine with a stack of tasks and a stack of values.
//! A step takes the topmost task and does what it says: it schedules the
//! parts of a statement or an expression, or combines the values that its
//! parts have left. `step` says what every step does; the interpreter is
//! proved to compute it.

use vstd::prelude::*;

use crate::ast::{
    Call, ClassStruct, Declaration, Depth, Expr, ExprKind, For, FunDeclarationStruct, If,
    Initializer, SetExpr, Statement, VarDeclaration, While,
};
use crate::environment::{property, Environment, FrameView, HeapView};
use crate::host::{answer, is_arithmetic, is_comparison, ActionView, OutputView, Reply, RequestView};
use crate::interp_error::{failure, InterpErrorView};
use crate::token::{Token, TokenKind};
use crate::value::{
    truthy, ClassModel, Function, IClass, Number, Object, ObjectView, UserDefined, ValueView,
};

verus! {

/// A task: what remains to be done, and in which environment.
#[derive(Clone, Copy, Debug)]
#[allow(inconsistent_fields)]
pub enum Task<'a> {
    /// Run the declarations of `list` from `next` on.
    Declarations { list: &'a Vec<Declaration>, next: usize, environment: Environment },
    /// Run a statement.
    Statement { statement: &'a Statement, environment: Environment },
    /// Evaluate an expression, and leave its value on the stack.
    Expr { expr: &'a Expr, environment: Environment },
    /// Drop the value of an expression statement.
    Discard,
    /// Print the value of a `print` statement.
    Print,
    /// Bind a variable to the value of its initializer.
    Define { name: &'a Token, environment: Environment },
    /// Take the branch of an `if` that its condition selects.
    Branch { statement: &'a If, environment: Environment },
    /// Run the body of a `while` again if its condition holds.
    Loop { statement: &'a While, environment: Environment },
    /// Evaluate the condition of a `for`.
    ForCond { statement: &'a For, environment: Environment },
    /// Run the body and the increment of a `for` again if its condition holds.
    ForLoop { statement: &'a For, environment: Environment },
    /// Return the value on the stack from the function that is running.
    Return,
    /// The end of the body of a call of `function`, made when the stack held `base` values.
    Boundary { function: UserDefined<'a>, base: usize },
    /// Apply a binary operator to the two values on the stack.
    Binary { operator: &'a Token },
    /// Apply a unary operator to the value on the stack.
    Unary { operator: &'a Token },
    /// Decide, by the left operand of `and` or `or`, whether the right one counts.
    Logical { operator: &'a Token, right: &'a Expr, environment: Environment },
    /// Replace the value on the stack by its truth value.
    Truth,
    /// Evaluate the arguments of a call from `next` on, then make the call.
    Call { call: &'a Call, paren: &'a Token, environment: Environment, next: usize },
    /// Read a property of the object on the stack.
    Get { name: &'a Token },
    /// Check that the target of a property assignment is an object, then
    /// evaluate the value.
    SetTarget { set: &'a SetExpr, name: &'a Token, environment: Environment },
    /// Store the value on the stack in a field of the object below it.
    SetField { name: &'a Token },
    /// Assign the value on the stack to a variable.
    Assign { depth: Depth, name: &'a Token, environment: Environment },
}

/// The state of the evaluator.
pub struct MachineView<'a> {
    pub heap: HeapView<'a>,
    /// The frame of the global variables.
    pub globals: Environment,
    /// What remains to be done; the last task is the next.
    pub tasks: Seq<Task<'a>>,
    /// The values of the expressions that are being evaluated.
    pub values: Seq<ValueView<'a>>,
    /// The request that the host has yet to answer.
    pub pending: Option<RequestView>,
}

/// What a step gives: the state after it, and what the host is to do.
pub struct Step<'a> {
    pub machine: MachineView<'a>,
    pub action: ActionView<'a>,
}

impl<'a> MachineView<'a> {
    pub open spec fn push_task(self, task: Task<'a>) -> MachineView<'a> {
        MachineView { tasks: self.tasks.push(task), ..self }
    }

    pub open spec fn push_value(self, value: ValueView<'a>) -> MachineView<'a> {
        MachineView { values: self.values.push(value), ..self }
    }

    pub open spec fn with_heap(self, heap: HeapView<'a>) -> MachineView<'a> {
        MachineView { heap, ..self }
    }

    /// The topmost value; `nil` if there is none.
    pub open spec fn top(self) -> ValueView<'a> {
        if self.values.len() > 0 {
            self.values.last()
        } else {
            ValueView::Nil
        }
    }

    /// The machine without its topmost value.
    pub open spec fn pop(self) -> MachineView<'a> {
        if self.values.len() > 0 {
            MachineView { values: self.values.drop_last(), ..self }
        } else {
            self
        }
    }

    /// The step that goes on with this machine.
    pub open spec fn go(self) -> Step<'a> {
        Step { machine: self, action: ActionView::Continue }
    }

    /// The step that leaves the value `value` and goes on.
    pub open spec fn give(self, value: ValueView<'a>) -> Step<'a> {
        self.push_value(value).go()
    }

    /// The step that ends the program with `error`: nothing remains to be done.
    pub open spec fn halt(self, error: InterpErrorView<'a>) -> Step<'a> {
        Step {
            machine: MachineView { tasks: Seq::empty(), values: Seq::empty(), pending: None, ..self },
            action: ActionView::Done(Err(error)),
        }
    }

    /// The step that asks the host for `request`.
    pub open spec fn ask(self, request: RequestView) -> Step<'a> {
        Step {
            machine: MachineView { pending: Some(request), ..self },
            action: ActionView::Ask(request),
        }
    }

    /// The step that leaves `result`, or ends the program with its error.
    pub open spec fn settle(self, result: Result<ValueView<'a>, InterpErrorView<'a>>) -> Step<'a> {
        match result {
            Ok(value) => self.give(value),
            Err(error) => self.halt(error),
        }
    }
}

/// The decimal digit `d`.
pub open spec fn digit(d: nat) -> char {
    if d == 0 {
        '0'
    } else if d == 1 {
        '1'
    } else if d == 2 {
        '2'
    } else if d == 3 {
        '3'
    } else if d == 4 {
        '4'
    } else if d == 5 {
        '5'
    } else if d == 6 {
        '6'
    } else if d == 7 {
        '7'
    } else if d == 8 {
        '8'
    } else {
        '9'
    }
}

/// The decimal notation of `n`.
pub open spec fn decimal(n: nat) -> Seq<char>
    decreases n,
{
    if n < 10 {
        seq![digit(n)]
    } else {
        decimal(n / 10).push(digit(n % 10))
    }
}

/// The message for a call with the wrong number of arguments.
pub open spec fn arity_message(name: Seq<char>, expected: nat, received: nat) -> Seq<char> {
    "Arity mismatch: declaration "@ + name + " expected "@ + decimal(expected)
        + " arguments, received "@ + decimal(received) + "."@
}

/// What `print` writes for a value.
pub open spec fn output(heap: HeapView, value: ValueView) -> OutputView {
    match value {
        ValueView::Boolean(b) => if b {
            OutputView::Text("true"@)
        } else {
            OutputView::Text("false"@)
        },
        ValueView::Class(class) => if class.index < heap.classes.len() {
            OutputView::Text("CLASS "@ + heap.classes[class.index as int].name)
        } else {
            OutputView::Text("CLASS"@)
        },
        ValueView::Function(_) => OutputView::Text("FUNCTION"@),
        ValueView::Nil => OutputView::Text("nil"@),
        ValueView::Number(n) => OutputView::Number(n),
        ValueView::Object(object) => if object.index < heap.objects.len()
            && heap.objects[object.index as int].class.index < heap.classes.len() {
            OutputView::Text(
                "Instance of "@ + heap.classes[heap.objects[object.index as int].class.index as int].name,
            )
        } else {
            OutputView::Text("Instance"@)
        },
        ValueView::StringV(text) => OutputView::Text(text),
    }
}

/// Whether two functions are the same: the builtin is itself, and two
/// functions of the program are the same if they are declared by the same name token.
pub open spec fn same_function(f: Function, g: Function) -> bool {
    match (f, g) {
        (Function::Builtin, Function::Builtin) => true,
        (Function::UserDefined(a), Function::UserDefined(b)) => a.declaration.name.kind
            == b.declaration.name.kind && a.declaration.name.line == b.declaration.name.line
            && a.declaration.name.content@ == b.declaration.name.content@,
        _ => false,
    }
}

/// Whether two values are equal, where the evaluator can tell: values of
/// different kinds are not, and of two numbers only the host knows.
pub open spec fn equal(left: ValueView, right: ValueView) -> Option<bool> {
    match (left, right) {
        (ValueView::Boolean(a), ValueView::Boolean(b)) => Some(a == b),
        (ValueView::Class(a), ValueView::Class(b)) => Some(a == b),
        (ValueView::Function(a), ValueView::Function(b)) => Some(same_function(a, b)),
        (ValueView::Nil, ValueView::Nil) => Some(true),
        (ValueView::Number(_), ValueView::Number(_)) => None,
        (ValueView::Object(a), ValueView::Object(b)) => Some(a == b),
        (ValueView::StringV(a), ValueView::StringV(b)) => Some(a == b),
        _ => Some(false),
    }
}

/// What a binary operator makes of two values.
pub enum Operation<'a> {
    /// The result.
    Value(ValueView<'a>),
    /// The operands are numbers: the host computes the result.
    Host(RequestView),
    /// The operands do not fit the operator.
    Wrong(Seq<char>),
}

/// What the operator `kind` makes of `left` and `right`.
///
/// `+` adds two numbers and joins two strings, and takes nothing else. The
/// other arithmetic operators and the comparisons take two numbers. `==`
/// and `!=` take any two values.
pub open spec fn binary_operation<'a>(kind: TokenKind, left: ValueView<'a>, right: ValueView<'a>) -> Operation<
    'a,
> {
    if kind == TokenKind::Plus {
        match left {
            ValueView::StringV(a) => match right {
                ValueView::StringV(b) => Operation::Value(ValueView::StringV(a + b)),
                _ => Operation::Wrong("Expected string in concatenation operation."@),
            },
            ValueView::Number(a) => match right {
                ValueView::Number(b) => Operation::Host(
                    RequestView::Binary { operator: kind, left: a, right: b },
                ),
                _ => Operation::Wrong("Expected number in expression."@),
            },
            _ => Operation::Wrong("Invalid operation."@),
        }
    } else if kind == TokenKind::EqualEqual || kind == TokenKind::BangEqual {
        match equal(left, right) {
            Some(same) => Operation::Value(ValueView::Boolean(same == (kind == TokenKind::EqualEqual))),
            None => Operation::Host(
                RequestView::Binary {
                    operator: kind,
                    left: left->Number_0,
                    right: right->Number_0,
                },
            ),
        }
    } else if is_arithmetic(kind) || is_comparison(kind) {
        match (left, right) {
            (ValueView::Number(a), ValueView::Number(b)) => Operation::Host(
                RequestView::Binary { operator: kind, left: a, right: b },
            ),
            _ => Operation::Wrong("Expected number in expression."@),
        }
    } else {
        Operation::Wrong("Invalid operation."@)
    }
}

/// What the unary operator `kind` makes of `value`.
pub open spec fn unary_operation<'a>(kind: TokenKind, value: ValueView<'a>) -> Operation<'a> {
    if kind == TokenKind::Minus {
        match value {
            ValueView::Number(n) => Operation::Host(RequestView::Negate(n)),
            _ => Operation::Wrong("Expected number in expression."@),
        }
    } else if kind == TokenKind::Bang {
        Operation::Value(ValueView::Boolean(!truthy(value)))
    } else {
        Operation::Wrong("Invalid operation."@)
    }
}

/// The methods of a class, each closing over `environment`: the first
/// `count` declarations of `list`, a later one in place of an earlier one of
/// the same name. A method named `init` is an initializer.
pub open spec fn method_table<'a>(
    list: &'a Vec<FunDeclarationStruct>,
    environment: Environment,
    count: int,
) -> Map<Seq<char>, UserDefined<'a>>
    decreases count,
{
    if count <= 0 || count > list@.len() {
        Map::empty()
    } else {
        method_table(list, environment, count - 1).insert(
            list@[count - 1].name.content@,
            UserDefined {
                declaration: &list@[count - 1],
                environment,
                is_initializer: list@[count - 1].name.content@ == "init"@,
            },
        )
    }
}

/// The `this` that a call of `function` runs with: what its environment binds, or `nil`.
pub open spec fn this_of<'a>(heap: HeapView<'a>, function: UserDefined<'a>) -> ValueView<'a> {
    match heap.lookup(function.environment.current, "this"@) {
        Some(value) => value,
        None => ValueView::Nil,
    }
}

/// The index of the topmost boundary of a call among `tasks`.
pub open spec fn boundary(tasks: Seq<Task>) -> Option<int>
    decreases tasks.len(),
{
    if tasks.len() == 0 {
        None
    } else if tasks.last() is Boundary {
        Some(tasks.len() - 1)
    } else {
        boundary(tasks.drop_last())
    }
}

impl<'a> MachineView<'a> {
    /// What a variable is bound to: at its depth in `environment`, or among
    /// the globals if it has no depth.
    pub open spec fn variable(self, depth: Depth, environment: Environment, token: Token) -> Result<
        ValueView<'a>,
        InterpErrorView<'a>,
    > {
        let found = match depth {
            Some(d) => self.heap.lookup_at(environment.current, d as nat, token.content@),
            None => self.heap.lookup(self.globals.current, token.content@),
        };
        match found {
            Some(value) => Ok(value),
            None => Err(failure("Variable not found."@, token)),
        }
    }

    /// What the call returns that the topmost boundary belongs to: `this`
    /// from an initializer, else `value`. The tasks of the call are dropped,
    /// and the value stack is cut back to where the call found it. A
    /// `return` outside of any call ends the program.
    pub open spec fn unwind(self, value: ValueView<'a>) -> Step<'a> {
        match boundary(self.tasks) {
            Some(i) => {
                let function = self.tasks[i]->Boundary_function;
                let base = self.tasks[i]->Boundary_base;
                let result = if function.is_initializer {
                    this_of(self.heap, function)
                } else {
                    value
                };
                let kept = if base <= self.values.len() {
                    self.values.take(base as int)
                } else {
                    self.values
                };
                MachineView { tasks: self.tasks.take(i), values: kept.push(result), ..self }.go()
            },
            None => self.halt(InterpErrorView::Return(value)),
        }
    }

    /// Schedules a variable declaration: the initializer, then the binding.
    pub open spec fn var_declaration(self, declaration: &'a VarDeclaration, environment: Environment) -> Step<
        'a,
    > {
        match declaration.initializer {
            Some(e) => self.push_task(Task::Define { name: &declaration.name, environment }).push_task(
                Task::Expr { expr: &declaration.initializer->0, environment },
            ).go(),
            None => self.with_heap(
                self.heap.bind(environment.current, declaration.name.content@, ValueView::Nil),
            ).go(),
        }
    }

    /// Declares a class: its methods close over `environment`, or over a
    /// frame of their own that binds `super` if the class has a superclass.
    pub open spec fn class_declaration(self, class: &'a ClassStruct, environment: Environment) -> Step<
        'a,
    > {
        let inherits = class.superclass is Some && class.superclass->0.kind is Variable;
        if inherits {
            let token = class.superclass->0.token;
            match self.variable(class.superclass->0.kind->Variable_0, environment, token) {
                Ok(value) => match value {
                    ValueView::Class(parent) => {
                        let frame = self.heap.frames.len() as usize;
                        let around = self.heap.with_frame(
                            FrameView {
                                parent: Some(environment.current),
                                vars: Map::empty().insert("super"@, value),
                            },
                        );
                        self.with_heap(
                            around.with_class(
                                ClassModel {
                                    name: class.name.content@,
                                    methods: method_table(
                                        &class.methods,
                                        Environment { current: frame },
                                        class.methods@.len() as int,
                                    ),
                                    superclass: Some(parent),
                                },
                            ).bind(
                                environment.current,
                                class.name.content@,
                                ValueView::Class(IClass { index: self.heap.classes.len() as usize }),
                            ),
                        ).go()
                    },
                    _ => self.halt(failure("Can only inherit from classes"@, token)),
                },
                Err(error) => self.halt(error),
            }
        } else {
            self.with_heap(
                self.heap.with_class(
                    ClassModel {
                        name: class.name.content@,
                        methods: method_table(&class.methods, environment, class.methods@.len() as int),
                        superclass: None,
                    },
                ).bind(
                    environment.current,
                    class.name.content@,
                    ValueView::Class(IClass { index: self.heap.classes.len() as usize }),
                ),
            ).go()
        }
    }

    /// Runs a declaration.
    pub open spec fn declaration(self, declaration: &'a Declaration, environment: Environment) -> Step<
        'a,
    > {
        match *declaration {
            Declaration::Class(class) => self.class_declaration(&declaration->Class_0, environment),
            Declaration::FunDeclaration(f) => self.with_heap(
                self.heap.bind(
                    environment.current,
                    f.name.content@,
                    ValueView::Function(
                        Function::UserDefined(
                            UserDefined {
                                declaration: &declaration->FunDeclaration_0,
                                environment,
                                is_initializer: false,
                            },
                        ),
                    ),
                ),
            ).go(),
            Declaration::Statement(s) => self.statement(&declaration->Statement_0, environment),
            Declaration::VarDeclaration(v) => self.var_declaration(
                &declaration->VarDeclaration_0,
                environment,
            ),
        }
    }

    /// Schedules a `for` statement in the frame `environment` of its own:
    /// the first clause, then the loop.
    pub open spec fn for_statement(self, statement: &'a For, environment: Environment) -> Step<'a> {
        let looping = self.push_task(Task::ForCond { statement, environment });
        match statement.initializer {
            Some(Initializer::VarDeclaration(v)) => looping.var_declaration(
                &statement.initializer->0->VarDeclaration_0,
                environment,
            ),
            Some(Initializer::Expr(e)) => looping.push_task(Task::Discard).push_task(
                Task::Expr { expr: &statement.initializer->0->Expr_0, environment },
            ).go(),
            None => looping.go(),
        }
    }

    /// Runs a statement: schedules its parts.
    pub open spec fn statement(self, statement: &'a Statement, environment: Environment) -> Step<'a> {
        match *statement {
            Statement::Block(declarations) => self.with_heap(
                self.heap.with_frame(
                    FrameView { parent: Some(environment.current), vars: Map::empty() },
                ),
            ).push_task(
                Task::Declarations {
                    list: &statement->Block_0,
                    next: 0,
                    environment: Environment { current: self.heap.frames.len() as usize },
                },
            ).go(),
            Statement::ExprStatement(e) => self.push_task(Task::Discard).push_task(
                Task::Expr { expr: &statement->ExprStatement_0, environment },
            ).go(),
            Statement::For(f) => self.with_heap(
                self.heap.with_frame(
                    FrameView { parent: Some(environment.current), vars: Map::empty() },
                ),
            ).for_statement(
                &*statement->For_0,
                Environment { current: self.heap.frames.len() as usize },
            ),
            Statement::If(i) => self.push_task(
                Task::Branch { statement: &*statement->If_0, environment },
            ).push_task(Task::Expr { expr: &statement->If_0.cond, environment }).go(),
            Statement::Print(e) => self.push_task(Task::Print).push_task(
                Task::Expr { expr: &statement->Print_0, environment },
            ).go(),
            Statement::Return(e) => match e {
                Some(_) => self.push_task(Task::Return).push_task(
                    Task::Expr { expr: &statement->Return_0->0, environment },
                ).go(),
                None => self.push_task(Task::Return).give(ValueView::Nil),
            },
            Statement::While(w) => self.push_task(
                Task::Loop { statement: &*statement->While_0, environment },
            ).push_task(Task::Expr { expr: &statement->While_0.cond, environment }).go(),
        }
    }

    /// What a literal denotes; a number is for the host to read.
    pub open spec fn literal(self, token: Token) -> Step<'a> {
        if token.kind == TokenKind::Number {
            self.ask(RequestView::Parse(token.content@))
        } else if token.kind == TokenKind::StringT {
            self.give(ValueView::StringV(token.content@))
        } else if token.kind == TokenKind::True {
            self.give(ValueView::Boolean(true))
        } else if token.kind == TokenKind::False {
            self.give(ValueView::Boolean(false))
        } else if token.kind == TokenKind::Nil {
            self.give(ValueView::Nil)
        } else {
            self.halt(failure("Invalid literal."@, token))
        }
    }

    /// The method `method` of the superclass, bound to the current instance
    /// in a frame of its own.
    pub open spec fn super_method(
        self,
        depth: Depth,
        environment: Environment,
        method: Token,
        token: Token,
    ) -> Step<'a> {
        match depth {
            Some(d) => if d == 0 {
                self.halt(failure("Cannot access super outside of a class."@, token))
            } else {
                match (
                    self.heap.lookup_at(environment.current, d as nat, token.content@),
                    self.heap.lookup_at(environment.current, (d - 1) as nat, "this"@),
                ) {
                    (Some(ValueView::Class(superclass)), Some(ValueView::Object(object))) => match self.heap.find_method(
                        superclass.index,
                        method.content@,
                    ) {
                        Some(found) => self.with_heap(
                            self.heap.with_frame(
                                FrameView {
                                    parent: Some(found.environment.current),
                                    vars: Map::empty().insert("this"@, ValueView::Object(object)),
                                },
                            ),
                        ).give(
                            ValueView::Function(
                                Function::UserDefined(
                                    UserDefined {
                                        declaration: found.declaration,
                                        environment: Environment {
                                            current: self.heap.frames.len() as usize,
                                        },
                                        is_initializer: found.is_initializer,
                                    },
                                ),
                            ),
                        ),
                        None => self.halt(failure("Method not found on 'super'."@, token)),
                    },
                    _ => self.halt(failure("Variable not found."@, token)),
                }
            },
            None => self.halt(failure("Cannot access super outside of a class."@, token)),
        }
    }

    /// Evaluates an expression: gives its value if it has no parts to
    /// evaluate first, else schedules the parts and what combines them.
    pub open spec fn expression(self, expr: &'a Expr, environment: Environment) -> Step<'a> {
        match expr.kind {
            ExprKind::Assign(assign) => self.push_task(
                Task::Assign { depth: assign.depth, name: &expr.token, environment },
            ).push_task(Task::Expr { expr: &*expr.kind->Assign_0.initializer, environment }).go(),
            ExprKind::Binary(binary) => self.push_task(Task::Binary { operator: &expr.token }).push_task(
                Task::Expr { expr: &expr.kind->Binary_0.right, environment },
            ).push_task(Task::Expr { expr: &expr.kind->Binary_0.left, environment }).go(),
            ExprKind::Call(call) => self.push_task(
                Task::Call { call: &*expr.kind->Call_0, paren: &expr.token, environment, next: 0 },
            ).push_task(Task::Expr { expr: &expr.kind->Call_0.callee, environment }).go(),
            ExprKind::Get(object) => self.push_task(Task::Get { name: &expr.token }).push_task(
                Task::Expr { expr: &*expr.kind->Get_0, environment },
            ).go(),
            ExprKind::Grouping(inner) => self.push_task(
                Task::Expr { expr: &*expr.kind->Grouping_0, environment },
            ).go(),
            ExprKind::Literal => self.literal(expr.token),
            ExprKind::Logical(logical) => self.push_task(
                Task::Logical {
                    operator: &expr.token,
                    right: &expr.kind->Logical_0.right,
                    environment,
                },
            ).push_task(Task::Expr { expr: &expr.kind->Logical_0.left, environment }).go(),
            ExprKind::SetExpr(set) => self.push_task(
                Task::SetTarget { set: &*expr.kind->SetExpr_0, name: &expr.token, environment },
            ).push_task(Task::Expr { expr: &expr.kind->SetExpr_0.object, environment }).go(),
            ExprKind::This(depth) => match depth {
                Some(d) => match self.heap.lookup_at(environment.current, d as nat, expr.token.content@) {
                    Some(value) => self.give(value),
                    None => self.halt(failure("Variable not found."@, expr.token)),
                },
                None => self.halt(failure("Cannot access this in global context."@, expr.token)),
            },
            ExprKind::Unary(operand) => self.push_task(Task::Unary { operator: &expr.token }).push_task(
                Task::Expr { expr: &*expr.kind->Unary_0, environment },
            ).go(),
            ExprKind::Variable(depth) => self.settle(self.variable(depth, environment, expr.token)),
            ExprKind::Super(method, depth) => self.super_method(depth, environment, method, expr.token),
        }
    }

    /// The step that an operation's outcome makes.
    pub open spec fn operate(self, operation: Operation<'a>, token: Token) -> Step<'a> {
        match operation {
            Operation::Value(value) => self.give(value),
            Operation::Host(request) => self.ask(request),
            Operation::Wrong(message) => self.halt(failure(message, token)),
        }
    }

    /// Decides `and` and `or` by the left operand: the result is a truth
    /// value, and the right operand is evaluated only if it counts.
    pub open spec fn logical(
        self,
        operator: &'a Token,
        right: &'a Expr,
        environment: Environment,
        left: ValueView<'a>,
    ) -> Step<'a> {
        if operator.kind == TokenKind::And {
            if truthy(left) {
                self.push_task(Task::Truth).push_task(Task::Expr { expr: right, environment }).go()
            } else {
                self.give(ValueView::Boolean(false))
            }
        } else if operator.kind == TokenKind::Or {
            if truthy(left) {
                self.give(ValueView::Boolean(true))
            } else {
                self.push_task(Task::Truth).push_task(Task::Expr { expr: right, environment }).go()
            }
        } else {
            self.halt(failure("Invalid operation."@, *operator))
        }
    }

    /// Calls the function `function` with `arguments`: the body runs in a
    /// new frame whose parent is the environment that the function closes
    /// over, with the parameters bound to the arguments.
    pub open spec fn call_function(
        self,
        function: UserDefined<'a>,
        arguments: Seq<ValueView<'a>>,
        call: &'a Call,
        paren: &'a Token,
    ) -> Step<'a> {
        if arguments.len() != function.declaration.params@.len() {
            self.halt(
                failure(
                    arity_message(
                        call.callee.token.content@,
                        function.declaration.params@.len(),
                        arguments.len(),
                    ),
                    *paren,
                ),
            )
        } else {
            let frame = self.heap.frames.len() as usize;
            self.with_heap(
                self.heap.with_frame(
                    FrameView { parent: Some(function.environment.current), vars: Map::empty() },
                ).bind_all(frame, arguments, function.declaration.params@, 0),
            ).push_task(Task::Boundary { function, base: self.values.len() as usize }).push_task(
                Task::Declarations {
                    list: &function.declaration.body,
                    next: 0,
                    environment: Environment { current: frame },
                },
            ).go()
        }
    }

    /// Calls the class `class`: makes an object, and runs the class's own
    /// `init` on it, if it has one. Without `init` there are no arguments to take.
    pub open spec fn construct(
        self,
        class: IClass,
        arguments: Seq<ValueView<'a>>,
        call: &'a Call,
        paren: &'a Token,
    ) -> Step<'a> {
        if class.index >= self.heap.classes.len() {
            self.halt(failure("Can only call functions and classes."@, *paren))
        } else {
            let object = Object { index: self.heap.objects.len() as usize };
            let made = self.heap.with_object(ObjectView { class, fields: Map::empty() });
            if self.heap.classes[class.index as int].methods.dom().contains("init"@) {
                let init = self.heap.classes[class.index as int].methods["init"@];
                self.with_heap(
                    made.with_frame(
                        FrameView {
                            parent: Some(init.environment.current),
                            vars: Map::empty().insert("this"@, ValueView::Object(object)),
                        },
                    ),
                ).call_function(
                    UserDefined {
                        declaration: init.declaration,
                        environment: Environment { current: self.heap.frames.len() as usize },
                        is_initializer: init.is_initializer,
                    },
                    arguments,
                    call,
                    paren,
                )
            } else if arguments.len() > 0 {
                self.halt(
                    failure(arity_message(call.callee.token.content@, 0, arguments.len()), *paren),
                )
            } else {
                self.with_heap(made).give(ValueView::Object(object))
            }
        }
    }

    /// Makes the call whose callee and arguments are the topmost values.
    pub open spec fn finish_call(self, call: &'a Call, paren: &'a Token) -> Step<'a> {
        let count = call.arguments@.len();
        if self.values.len() <= count {
            self.halt(failure("Can only call functions and classes."@, *paren))
        } else {
            let callee = self.values[self.values.len() - count - 1];
            let arguments = self.values.subrange(self.values.len() - count, self.values.len() as int);
            let rest = MachineView { values: self.values.take(self.values.len() - count - 1), ..self };
            match callee {
                ValueView::Function(Function::UserDefined(function)) => rest.call_function(
                    function,
                    arguments,
                    call,
                    paren,
                ),
                ValueView::Function(Function::Builtin) => rest.ask(RequestView::Clock),
                ValueView::Class(class) => rest.construct(class, arguments, call, paren),
                _ => self.halt(failure("Can only call functions and classes."@, *paren)),
            }
        }
    }

    /// Assigns `value` to a variable: at its depth in `environment`, where
    /// the name need not be bound yet, or among the globals, where it must be.
    pub open spec fn assign(
        self,
        depth: Depth,
        name: &'a Token,
        environment: Environment,
        value: ValueView<'a>,
    ) -> Step<'a> {
        match depth {
            Some(d) => match self.heap.ancestor(environment.current, d as nat) {
                Some(frame) => self.with_heap(self.heap.bind(frame, name.content@, value)).give(value),
                None => self.halt(failure("Variable not found."@, *name)),
            },
            None => match self.heap.lookup(self.globals.current, name.content@) {
                Some(_) => self.with_heap(
                    self.heap.bind(self.globals.current, name.content@, value),
                ).give(value),
                None => self.halt(failure("Variable not found in scope."@, *name)),
            },
        }
    }

    /// Does the task `task`, which has been taken off the stack.
    pub open spec fn run(self, task: Task<'a>) -> Step<'a> {
        match task {
            Task::Declarations { list, next, environment } => if next < list@.len() {
                self.push_task(
                    Task::Declarations { list, next: (next + 1) as usize, environment },
                ).declaration(&list@[next as int], environment)
            } else {
                self.go()
            },
            Task::Statement { statement, environment } => self.statement(statement, environment),
            Task::Expr { expr, environment } => self.expression(expr, environment),
            Task::Discard => self.pop().go(),
            Task::Print => Step {
                machine: self.pop(),
                action: ActionView::Print(output(self.heap, self.top())),
            },
            Task::Define { name, environment } => self.pop().with_heap(
                self.heap.bind(environment.current, name.content@, self.top()),
            ).go(),
            Task::Branch { statement, environment } => if truthy(self.top()) {
                self.pop().push_task(
                    Task::Statement { statement: &statement.true_branch, environment },
                ).go()
            } else {
                match statement.else_branch {
                    Some(_) => self.pop().push_task(
                        Task::Statement { statement: &statement.else_branch->0, environment },
                    ).go(),
                    None => self.pop().go(),
                }
            },
            Task::Loop { statement, environment } => if truthy(self.top()) {
                self.pop().push_task(Task::Loop { statement, environment }).push_task(
                    Task::Expr { expr: &statement.cond, environment },
                ).push_task(Task::Statement { statement: &statement.body, environment }).go()
            } else {
                self.pop().go()
            },
            Task::ForCond { statement, environment } => match statement.cond {
                Some(_) => self.push_task(Task::ForLoop { statement, environment }).push_task(
                    Task::Expr { expr: &statement.cond->0, environment },
                ).go(),
                None => self.push_task(Task::ForLoop { statement, environment }).give(
                    ValueView::Boolean(true),
                ),
            },
            Task::ForLoop { statement, environment } => if truthy(self.top()) {
                let again = self.pop().push_task(Task::ForCond { statement, environment });
                let stepped = match statement.increment {
                    Some(_) => again.push_task(Task::Discard).push_task(
                        Task::Expr { expr: &statement.increment->0, environment },
                    ),
                    None => again,
                };
                stepped.push_task(Task::Statement { statement: &statement.body, environment }).go()
            } else {
                self.pop().go()
            },
            Task::Return => self.pop().unwind(self.top()),
            Task::Boundary { function, base } => {
                let kept = if base <= self.values.len() {
                    self.values.take(base as int)
                } else {
                    self.values
                };
                MachineView { values: kept, ..self }.give(
                    if function.is_initializer {
                        this_of(self.heap, function)
                    } else {
                        ValueView::Nil
                    },
                )
            },
            Task::Binary { operator } => self.pop().pop().operate(
                binary_operation(operator.kind, self.pop().top(), self.top()),
                *operator,
            ),
            Task::Unary { operator } => self.pop().operate(
                unary_operation(operator.kind, self.top()),
                *operator,
            ),
            Task::Logical { operator, right, environment } => self.pop().logical(
                operator,
                right,
                environment,
                self.top(),
            ),
            Task::Truth => self.pop().give(ValueView::Boolean(truthy(self.top()))),
            Task::Call { call, paren, environment, next } => if next < call.arguments@.len() {
                self.push_task(
                    Task::Call { call, paren, environment, next: (next + 1) as usize },
                ).push_task(Task::Expr { expr: &call.arguments@[next as int], environment }).go()
            } else {
                self.finish_call(call, paren)
            },
            Task::Get { name } => match self.top() {
                ValueView::Object(object) => {
                    let read = property(self.heap, object.index, *name);
                    self.pop().with_heap(read.0).settle(read.1)
                },
                _ => self.halt(failure("Field access should be preceded by object."@, *name)),
            },
            Task::SetTarget { set, name, environment } => match self.top() {
                ValueView::Object(_) => self.push_task(Task::SetField { name }).push_task(
                    Task::Expr { expr: &set.value, environment },
                ).go(),
                _ => self.halt(failure("Can only set properties of objects."@, *name)),
            },
            Task::SetField { name } => match self.pop().top() {
                ValueView::Object(object) => self.pop().pop().with_heap(
                    self.heap.with_field(object.index, name.content@, self.top()),
                ).give(self.top()),
                _ => self.halt(failure("Can only set properties of objects."@, *name)),
            },
            Task::Assign { depth, name, environment } => self.pop().assign(
                depth,
                name,
                environment,
                self.top(),
            ),
        }
    }

    /// One step of the evaluator.
    ///
    /// While a request is pending, the step takes the host's answer and
    /// leaves it as a value; any other reply repeats the request. Else the
    /// step does the topmost task; without a task the program has ended.
    pub open spec fn step(self, reply: Reply) -> Step<'a> {
        match self.pending {
            Some(request) => match answer(request, reply) {
                Some(value) => MachineView { pending: None, ..self }.give(value),
                None => Step { machine: self, action: ActionView::Ask(request) },
            },
            None => if self.tasks.len() == 0 {
                Step { machine: self, action: ActionView::Done(Ok(())) }
            } else {
                MachineView { tasks: self.tasks.drop_last(), ..self }.run(self.tasks.last())
            },
        }
    }
}

} // verus!
