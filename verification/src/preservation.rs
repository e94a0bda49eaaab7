//! Every step of the evaluator keeps the machine sound.

use vstd::prelude::*;

use crate::ast::{
    declarations_view, exprs_view, functions_view, option_expr_view, Call, ClassStruct, Declaration,
    Depth, Expr, ExprKind, For, FunDeclarationStruct, Initializer, Statement, VarDeclaration,
};
use crate::environment::{property, Environment, FrameView, HeapView};
use crate::host::{answer, ActionView, Reply, RequestView};
use crate::interp_error::InterpErrorView;
use crate::safety::{
    after, around_methods, lemma_safe_class, lemma_safe_declaration, lemma_safe_declarations,
    lemma_safe_function, lemma_safe_methods, lemma_safe_statement, safe_class, safe_declarations,
    safe_expr, safe_function, safe_methods, safe_option_expr, safe_statement, safe_var_declaration,
    with_name, with_params, without, Names,
};
use crate::semantics::{
    binary_operation, boundary, method_table, this_of, unary_operation, MachineView, Operation,
    Task,
};
use crate::sound::{
    awaits_this, bound, closes_over, closure_ok, declarations_fit, expr_fits, fits, heap_ok, keeps,
    lemma_heap_ok_grows, lemma_method_ok_grows, lemma_models_fewer, lemma_models_grows,
    lemma_stack_ok_grows, lemma_value_ok_grows, method_ok, models, promise_of, sound, stack_ok,
    statement_fits, task_ok, value_ok, Promises,
};
use crate::resolved::within;
use crate::theorems::{extends, lemma_extends_twice};
use crate::token::Token;
use crate::value::{ClassModel, Function, IClass, Object, ObjectView, UserDefined, ValueView};

verus! {

/// Whether the machine is sound but for its tasks, which may count on the
/// bindings of `promised`.
pub open spec fn ready(m: MachineView, promised: Promises) -> bool {
    &&& m.globals.current < m.heap.frames.len()
    &&& heap_ok(m.heap)
    &&& stack_ok(m.heap, m.tasks, promised)
    &&& forall|i: int| 0 <= i < m.values.len() ==> value_ok(m.heap, #[trigger] m.values[i])
}

/// The promises that the tasks below `task` may count on.
pub open spec fn below(promised: Promises, task: Task) -> Promises {
    if task is Boundary {
        Set::empty()
    } else {
        promised.union(promise_of(task))
    }
}

/// A machine stays ready when a task that can be done is put on its stack.
pub proof fn lemma_push(m: MachineView, task: Task, promised: Promises)
    requires
        ready(m, below(promised, task)),
        task_ok(m.heap, promised, task),
    ensures
        ready(m.push_task(task), promised),
{
    assert(m.push_task(task).tasks.drop_last() =~= m.tasks);
}

/// A task without a promise leaves the promises as they are.
pub proof fn lemma_below_plain(promised: Promises, task: Task)
    requires
        !(task is Define),
        !(task is Boundary),
    ensures
        below(promised, task) == promised,
{
    assert(promised.union(promise_of(task)) =~= promised);
}

/// A machine stays ready when a good value is put on its stack.
pub proof fn lemma_give(m: MachineView, value: ValueView, promised: Promises)
    requires
        ready(m, promised),
        value_ok(m.heap, value),
    ensures
        ready(m.give(value).machine, promised),
        ready(m.push_value(value), promised),
{
}

/// The topmost value of a ready machine is good, and the machine without it is ready.
pub proof fn lemma_pop(m: MachineView, promised: Promises)
    requires
        ready(m, promised),
    ensures
        ready(m.pop(), promised),
        value_ok(m.heap, m.top()),
{
    if m.values.len() > 0 {
        assert forall|i: int| 0 <= i < m.pop().values.len() implies value_ok(
            m.heap,
            #[trigger] m.pop().values[i],
        ) by {
            assert(m.pop().values[i] == m.values[i]);
        }
    }
}

/// A machine that has halted is sound.
pub proof fn lemma_halt(m: MachineView, error: InterpErrorView, promised: Promises)
    requires
        ready(m, promised),
    ensures
        sound(m.halt(error).machine),
{
}

/// A machine that asks its host stays ready.
pub proof fn lemma_ask(m: MachineView, request: RequestView, promised: Promises)
    requires
        ready(m, promised),
    ensures
        ready(m.ask(request).machine, promised),
{
}

/// A machine stays ready in a good heap that extends its heap and keeps its promises.
pub proof fn lemma_ready_grows(m: MachineView, heap: HeapView, before: Promises, after: Promises)
    requires
        ready(m, before),
        extends(heap, m.heap),
        keeps(heap, before, after),
        heap_ok(heap),
    ensures
        ready(m.with_heap(heap), after),
{
    lemma_stack_ok_grows(m.heap, heap, before, after, m.tasks);
    assert forall|i: int| 0 <= i < m.values.len() implies value_ok(heap, #[trigger] m.values[i]) by {
        lemma_value_ok_grows(m.heap, heap, m.values[i]);
    }
}

/// Binding a good value keeps the heap good.
pub proof fn lemma_bind_ok(heap: HeapView, frame: usize, name: Seq<char>, value: ValueView)
    requires
        heap_ok(heap),
        value_ok(heap, value),
    ensures
        heap_ok(heap.bind(frame, name, value)),
        extends(heap.bind(frame, name, value), heap),
{
    let new = heap.bind(frame, name, value);
    assert(extends(new, heap));
    lemma_value_ok_grows(heap, new, value);
    lemma_heap_ok_grows(heap, new);
}

/// Setting a field to a good value keeps the heap good.
pub proof fn lemma_with_field_ok(heap: HeapView, object: usize, name: Seq<char>, value: ValueView)
    requires
        heap_ok(heap),
        value_ok(heap, value),
    ensures
        heap_ok(heap.with_field(object, name, value)),
        extends(heap.with_field(object, name, value), heap),
{
    let new = heap.with_field(object, name, value);
    assert(extends(new, heap));
    lemma_value_ok_grows(heap, new, value);
    lemma_heap_ok_grows(heap, new);
}

/// A new frame of good values keeps the heap good.
pub proof fn lemma_with_frame_ok(heap: HeapView, frame: FrameView)
    requires
        heap_ok(heap),
        frame.parent matches Some(parent) ==> parent < heap.frames.len(),
        forall|name: Seq<char>| frame.vars.dom().contains(name) ==> value_ok(heap, #[trigger] frame.vars[name]),
    ensures
        heap_ok(heap.with_frame(frame)),
        extends(heap.with_frame(frame), heap),
{
    let new = heap.with_frame(frame);
    assert(extends(new, heap));
    assert forall|i: int, name: Seq<char>|
        0 <= i < new.frames.len() && new.frames[i].vars.dom().contains(name) implies (i
        < heap.frames.len() && heap.frames[i].vars.dom().contains(name) && heap.frames[i].vars[name]
        == new.frames[i].vars[name]) || value_ok(new, #[trigger] new.frames[i].vars[name]) by {
        if i == heap.frames.len() {
            lemma_value_ok_grows(heap, new, frame.vars[name]);
        }
    }
    lemma_heap_ok_grows(heap, new);
}

/// A new object without fields keeps the heap good.
pub proof fn lemma_with_object_ok(heap: HeapView, class: IClass)
    requires
        heap_ok(heap),
        class.index < heap.classes.len(),
    ensures
        heap_ok(heap.with_object(ObjectView { class, fields: Map::empty() })),
        extends(heap.with_object(ObjectView { class, fields: Map::empty() }), heap),
{
    let new = heap.with_object(ObjectView { class, fields: Map::empty() });
    assert(extends(new, heap));
    lemma_heap_ok_grows(heap, new);
}

/// Binding parameters to good arguments keeps the heap good.
pub proof fn lemma_bind_all_ok(
    heap: HeapView,
    frame: usize,
    arguments: Seq<ValueView>,
    parameters: Seq<Token>,
    from: int,
)
    requires
        heap_ok(heap),
        forall|i: int| 0 <= i < arguments.len() ==> value_ok(heap, #[trigger] arguments[i]),
    ensures
        heap_ok(heap.bind_all(frame, arguments, parameters, from)),
        extends(heap.bind_all(frame, arguments, parameters, from), heap),
    decreases arguments.len() - from,
{
    if 0 <= from < arguments.len() && from < parameters.len() {
        let next = heap.bind(frame, parameters[from].content@, arguments[from]);
        lemma_bind_ok(heap, frame, parameters[from].content@, arguments[from]);
        assert forall|i: int| 0 <= i < arguments.len() implies value_ok(next, #[trigger] arguments[i]) by {
            lemma_value_ok_grows(heap, next, arguments[i]);
        }
        lemma_bind_all_ok(next, frame, arguments, parameters, from + 1);
        lemma_extends_twice(next.bind_all(frame, arguments, parameters, from + 1), next, heap);
    }
}

/// A frame that binds a name models the names with that name added.
pub proof fn lemma_models_named(
    heap: HeapView,
    promised: Promises,
    frame: usize,
    names: Names,
    name: Seq<char>,
)
    requires
        frame < heap.frames.len(),
        models(heap, promised, frame, names),
        bound(heap, promised, frame, name),
    ensures
        models(heap, promised, frame, with_name(names, name)),
{
    if names.len() > 0 {
        let more = with_name(names, name);
        assert(more.drop_last() =~= names.drop_last());
        assert forall|x: Seq<char>| more.last().contains(x) implies #[trigger] bound(
            heap,
            promised,
            frame,
            x,
        ) by {
            if x != name {
                assert(names.last().contains(x));
            }
        }
    }
}

/// A new frame whose parent models some names models them with one more
/// scope, of names that the frame binds.
pub proof fn lemma_models_opened(
    heap: HeapView,
    promised: Promises,
    parent: usize,
    names: Names,
    frame: FrameView,
    scope: Set<Seq<char>>,
)
    requires
        frame.parent == Some(parent),
        parent < heap.frames.len(),
        models(heap, promised, parent, names),
        scope.subset_of(frame.vars.dom()),
        heap.frames.len() < usize::MAX,
    ensures
        models(heap.with_frame(frame), promised, heap.frames.len() as usize, names.push(scope)),
{
    let new = heap.with_frame(frame);
    assert(extends(new, heap));
    assert(keeps(new, promised, promised)) by {
        assert forall|f: usize, n: Seq<char>| #[trigger] promised.contains((f, n)) implies bound(
            new,
            promised,
            f,
            n,
        ) by {}
    }
    lemma_models_grows(heap, new, promised, promised, parent, names);
    let all = names.push(scope);
    assert(all.drop_last() =~= names);
    assert(all.last() == scope);
    let index = heap.frames.len() as usize;
    assert(new.frames[index as int] == frame);
    assert forall|x: Seq<char>| all.last().contains(x) implies #[trigger] bound(new, promised, index, x) by {
        assert(frame.vars.dom().contains(x));
    }
}

/// In names that an environment models, without promises, a scope at a
/// distance is a frame at that distance, and a name of the scope is bound in the frame.
pub proof fn lemma_models_reach(heap: HeapView, frame: usize, names: Names, depth: nat, name: Seq<char>)
    requires
        models(heap, Set::empty(), frame, names),
        depth < names.len(),
    ensures
        heap.ancestor(frame, depth) is Some,
        names[names.len() - 1 - depth].contains(name) ==> heap.lookup_at(frame, depth, name) is Some,
    decreases depth,
{
    if depth == 0 {
        if names.last().contains(name) {
            assert(bound(heap, Set::empty(), frame, name));
        }
    } else {
        let parent = heap.frames[frame as int].parent->0;
        lemma_models_reach(heap, parent, names.drop_last(), (depth - 1) as nat, name);
        assert(names.drop_last()[names.drop_last().len() - 1 - (depth - 1)] == names[names.len() - 1
            - depth]);
    }
}

/// What a frame holds is good.
pub proof fn lemma_lookup_ok(heap: HeapView, frame: usize, name: Seq<char>)
    requires
        heap_ok(heap),
    ensures
        heap.lookup(frame, name) matches Some(value) ==> value_ok(heap, value),
{
}

/// What a frame at a distance holds is good.
pub proof fn lemma_lookup_at_ok(heap: HeapView, frame: usize, depth: nat, name: Seq<char>)
    requires
        heap_ok(heap),
    ensures
        heap.lookup_at(frame, depth, name) matches Some(value) ==> value_ok(heap, value),
{
}

/// A method that a class or one of its superclasses has is ready to be bound.
pub proof fn lemma_find_method_ok(heap: HeapView, class: usize, name: Seq<char>)
    requires
        heap_ok(heap),
    ensures
        heap.find_method(class, name) matches Some(method) ==> method_ok(heap, method),
    decreases class,
{
    if class < heap.classes.len() && !heap.classes[class as int].methods.dom().contains(name) {
        if let Some(parent) = heap.classes[class as int].superclass {
            if parent.index < class {
                lemma_find_method_ok(heap, parent.index, name);
            }
        }
    }
}

/// Binding a method that is ready to an object gives a function that is
/// ready to be called, in a good heap.
pub proof fn lemma_bound_method_ok(heap: HeapView, method: UserDefined, object: Object)
    requires
        heap_ok(heap),
        method_ok(heap, method),
        object.index < heap.objects.len(),
        heap.frames.len() < usize::MAX,
    ensures
        ({
            let new = heap.with_frame(
                FrameView {
                    parent: Some(method.environment.current),
                    vars: Map::empty().insert("this"@, ValueView::Object(object)),
                },
            );
            let bound_method = UserDefined {
                declaration: method.declaration,
                environment: Environment { current: heap.frames.len() as usize },
                is_initializer: method.is_initializer,
            };
            &&& heap_ok(new)
            &&& extends(new, heap)
            &&& closure_ok(new, bound_method)
        }),
{
    let frame = FrameView {
        parent: Some(method.environment.current),
        vars: Map::empty().insert("this"@, ValueView::Object(object)),
    };
    let new = heap.with_frame(frame);
    lemma_with_frame_ok(heap, frame);
    let names = choose|names: Names| #[trigger] awaits_this(heap, method, names);
    let scope = Set::empty().insert("this"@);
    lemma_models_opened(heap, Set::empty(), method.environment.current, names, frame, scope);
    let bound_method = UserDefined {
        declaration: method.declaration,
        environment: Environment { current: heap.frames.len() as usize },
        is_initializer: method.is_initializer,
    };
    assert(closes_over(new, bound_method, names.push(scope)));
}

/// Binding a value that is good in the heap after the binding keeps the heap good.
pub proof fn lemma_bind_new_ok(heap: HeapView, frame: usize, name: Seq<char>, value: ValueView)
    requires
        heap_ok(heap),
        value_ok(heap.bind(frame, name, value), value),
    ensures
        heap_ok(heap.bind(frame, name, value)),
        extends(heap.bind(frame, name, value), heap),
{
    let new = heap.bind(frame, name, value);
    assert(extends(new, heap));
    lemma_heap_ok_grows(heap, new);
}

/// No promise is kept by anything.
pub proof fn lemma_keeps_none(heap: HeapView, after: Promises)
    ensures
        keeps(heap, Set::empty(), after),
{
}

/// Promises are kept by themselves.
pub proof fn lemma_keeps_same(heap: HeapView, promised: Promises)
    ensures
        keeps(heap, promised, promised),
{
}

/// A heap extends itself.
pub proof fn lemma_extends_self(heap: HeapView)
    ensures
        extends(heap, heap),
{
}

/// What a variable is bound to is good.
pub proof fn lemma_variable_ok(m: MachineView, depth: Depth, environment: Environment, token: Token)
    requires
        ready(m, Set::empty()),
    ensures
        m.variable(depth, environment, token) matches Ok(value) ==> value_ok(m.heap, value),
{
    match depth {
        Some(d) => {
            lemma_lookup_at_ok(m.heap, environment.current, d as nat, token.content@);
        },
        None => {
            lemma_lookup_ok(m.heap, m.globals.current, token.content@);
        },
    }
}

/// `super.m` keeps the machine sound.
pub proof fn lemma_super_method(
    m: MachineView,
    depth: Depth,
    environment: Environment,
    method: Token,
    token: Token,
)
    requires
        ready(m, Set::empty()),
        m.heap.frames.len() < usize::MAX,
    ensures
        sound(m.super_method(depth, environment, method, token).machine),
{
    let step = m.super_method(depth, environment, method, token);
    if step.action is Done {
        lemma_halt(m, step.action->Done_0->Err_0, Set::empty());
    } else {
        let d = depth->0;
        let superclass = m.heap.lookup_at(environment.current, d as nat, token.content@)->0->Class_0;
        let object = m.heap.lookup_at(environment.current, (d - 1) as nat, "this"@)->0->Object_0;
        let found = m.heap.find_method(superclass.index, method.content@)->0;
        lemma_find_method_ok(m.heap, superclass.index, method.content@);
        lemma_bound_method_ok(m.heap, found, object);
        let new = m.heap.with_frame(
            FrameView {
                parent: Some(found.environment.current),
                vars: Map::empty().insert("this"@, ValueView::Object(object)),
            },
        );
        lemma_keeps_same(new, Set::empty());
        lemma_ready_grows(m, new, Set::empty(), Set::empty());
        let bound_method = UserDefined {
            declaration: found.declaration,
            environment: Environment { current: m.heap.frames.len() as usize },
            is_initializer: found.is_initializer,
        };
        lemma_give(
            m.with_heap(new),
            ValueView::Function(Function::UserDefined(bound_method)),
            Set::empty(),
        );
    }
}

/// An expression that fits is a task that can be done.
pub proof fn lemma_expr_task(
    heap: HeapView,
    promised: Promises,
    expr: &Expr,
    environment: Environment,
    names: Names,
)
    requires
        expr_fits(heap, promised, expr, environment, names),
    ensures
        task_ok(heap, promised, Task::Expr { expr, environment }),
{
    let task = Task::Expr { expr, environment };
    assert(task->Expr_environment == environment);
    assert(*task->Expr_expr == *expr);
    assert(expr_fits(heap, promised, task->Expr_expr, task->Expr_environment, names));
}

/// A statement that fits is a task that can be done.
pub proof fn lemma_statement_task(
    heap: HeapView,
    promised: Promises,
    statement: &Statement,
    environment: Environment,
    names: Names,
)
    requires
        statement_fits(heap, promised, statement, environment, names),
    ensures
        task_ok(heap, promised, Task::Statement { statement, environment }),
{
    let task = Task::Statement { statement, environment };
    assert(task->Statement_environment == environment);
    assert(*task->Statement_statement == *statement);
    assert(statement_fits(heap, promised, task->Statement_statement, task->Statement_environment, names));
}

/// Declarations that fit are a task that can be done.
pub proof fn lemma_declarations_task(
    heap: HeapView,
    promised: Promises,
    list: &Vec<Declaration>,
    next: usize,
    environment: Environment,
    names: Names,
)
    requires
        declarations_fit(heap, promised, list, next, environment, names),
    ensures
        task_ok(heap, promised, Task::Declarations { list, next, environment }),
{
    let task = Task::Declarations { list, next, environment };
    assert(task->Declarations_environment == environment);
    assert(task->Declarations_next == next);
    assert(*task->Declarations_list == *list);
    assert(declarations_fit(
        heap,
        promised,
        task->Declarations_list,
        task->Declarations_next,
        task->Declarations_environment,
        names,
    ));
}

/// A call whose remaining arguments are safe is a task that can be done.
pub proof fn lemma_call_task(
    heap: HeapView,
    promised: Promises,
    call: &Call,
    paren: &Token,
    environment: Environment,
    next: usize,
    names: Names,
)
    requires
        fits(heap, promised, environment, names),
        forall|i: int|
            next <= i < call.arguments@.len() ==> safe_expr((#[trigger] call.arguments@[i])@, names),
    ensures
        task_ok(heap, promised, Task::Call { call, paren, environment, next }),
{
    let task = Task::Call { call, paren, environment, next };
    assert(task->Call_environment == environment);
    assert(task->Call_next == next);
    assert(*task->Call_call == *call);
    assert(fits(heap, promised, task->Call_environment, names));
}

/// The right operand of `and` or `or`, if it fits, is a task that can be done.
pub proof fn lemma_logical_task(
    heap: HeapView,
    promised: Promises,
    operator: &Token,
    right: &Expr,
    environment: Environment,
    names: Names,
)
    requires
        expr_fits(heap, promised, right, environment, names),
    ensures
        task_ok(heap, promised, Task::Logical { operator, right, environment }),
{
    let task = Task::Logical { operator, right, environment };
    assert(task->Logical_environment == environment);
    assert(*task->Logical_right == *right);
    assert(expr_fits(heap, promised, task->Logical_right, task->Logical_environment, names));
}

/// The value of a property assignment, if it fits, is a task that can be done.
pub proof fn lemma_set_target_task(
    heap: HeapView,
    promised: Promises,
    set: &crate::ast::SetExpr,
    name: &Token,
    environment: Environment,
    names: Names,
)
    requires
        expr_fits(heap, promised, &set.value, environment, names),
    ensures
        task_ok(heap, promised, Task::SetTarget { set, name, environment }),
{
    let task = Task::SetTarget { set, name, environment };
    assert(task->SetTarget_environment == environment);
    assert(*task->SetTarget_set == *set);
    assert(expr_fits(heap, promised, &task->SetTarget_set.value, task->SetTarget_environment, names));
}

/// Evaluating an expression that fits keeps the machine sound.
pub proof fn lemma_expression(m: MachineView, expr: &Expr, environment: Environment, names: Names)
    requires
        ready(m, Set::empty()),
        expr_fits(m.heap, Set::empty(), expr, environment, names),
        m.heap.frames.len() < usize::MAX,
    ensures
        sound(m.expression(expr, environment).machine),
{
    let none: Promises = Set::empty();
    match expr.kind {
        ExprKind::Assign(assign) => {
            let waiting = Task::Assign { depth: assign.depth, name: &expr.token, environment };
            let part = Task::Expr { expr: &*expr.kind->Assign_0.initializer, environment };
            if let Some(d) = assign.depth {
                lemma_models_reach(m.heap, environment.current, names, d as nat, expr.token.content@);
            }
            lemma_below_plain(none, waiting);
            lemma_push(m, waiting, none);
            lemma_expr_task(m.heap, none, &*expr.kind->Assign_0.initializer, environment, names);
            lemma_below_plain(none, part);
            lemma_push(m.push_task(waiting), part, none);
        },
        ExprKind::Binary(binary) => {
            let waiting = Task::Binary { operator: &expr.token };
            let right = Task::Expr { expr: &expr.kind->Binary_0.right, environment };
            let left = Task::Expr { expr: &expr.kind->Binary_0.left, environment };
            lemma_below_plain(none, waiting);
            lemma_push(m, waiting, none);
            lemma_expr_task(m.heap, none, &expr.kind->Binary_0.right, environment, names);
            lemma_below_plain(none, right);
            lemma_push(m.push_task(waiting), right, none);
            lemma_expr_task(m.heap, none, &expr.kind->Binary_0.left, environment, names);
            lemma_below_plain(none, left);
            lemma_push(m.push_task(waiting).push_task(right), left, none);
        },
        ExprKind::Call(call) => {
            let waiting = Task::Call {
                call: &*expr.kind->Call_0,
                paren: &expr.token,
                environment,
                next: 0,
            };
            let part = Task::Expr { expr: &expr.kind->Call_0.callee, environment };
            assert(expr@->Call_arguments =~= exprs_view(call.arguments@));
            assert forall|i: int| 0 <= i < call.arguments@.len() implies safe_expr(
                (#[trigger] call.arguments@[i])@,
                names,
            ) by {
                assert(exprs_view(call.arguments@)[i] == call.arguments@[i]@);
            }
            lemma_call_task(m.heap, none, &*expr.kind->Call_0, &expr.token, environment, 0, names);
            lemma_below_plain(none, waiting);
            lemma_push(m, waiting, none);
            lemma_expr_task(m.heap, none, &expr.kind->Call_0.callee, environment, names);
            lemma_below_plain(none, part);
            lemma_push(m.push_task(waiting), part, none);
        },
        ExprKind::Get(object) => {
            let waiting = Task::Get { name: &expr.token };
            let part = Task::Expr { expr: &*expr.kind->Get_0, environment };
            lemma_below_plain(none, waiting);
            lemma_push(m, waiting, none);
            lemma_expr_task(m.heap, none, &*expr.kind->Get_0, environment, names);
            lemma_below_plain(none, part);
            lemma_push(m.push_task(waiting), part, none);
        },
        ExprKind::Grouping(inner) => {
            let part = Task::Expr { expr: &*expr.kind->Grouping_0, environment };
            lemma_expr_task(m.heap, none, &*expr.kind->Grouping_0, environment, names);
            lemma_below_plain(none, part);
            lemma_push(m, part, none);
        },
        ExprKind::Literal => {
            let step = m.literal(expr.token);
            if step.action is Done {
                lemma_halt(m, step.action->Done_0->Err_0, none);
            }
        },
        ExprKind::Logical(logical) => {
            let waiting = Task::Logical {
                operator: &expr.token,
                right: &expr.kind->Logical_0.right,
                environment,
            };
            let part = Task::Expr { expr: &expr.kind->Logical_0.left, environment };
            lemma_logical_task(
                m.heap,
                none,
                &expr.token,
                &expr.kind->Logical_0.right,
                environment,
                names,
            );
            lemma_below_plain(none, waiting);
            lemma_push(m, waiting, none);
            lemma_expr_task(m.heap, none, &expr.kind->Logical_0.left, environment, names);
            lemma_below_plain(none, part);
            lemma_push(m.push_task(waiting), part, none);
        },
        ExprKind::SetExpr(set) => {
            let waiting = Task::SetTarget { set: &*expr.kind->SetExpr_0, name: &expr.token, environment };
            let part = Task::Expr { expr: &expr.kind->SetExpr_0.object, environment };
            lemma_set_target_task(
                m.heap,
                none,
                &*expr.kind->SetExpr_0,
                &expr.token,
                environment,
                names,
            );
            lemma_below_plain(none, waiting);
            lemma_push(m, waiting, none);
            lemma_expr_task(m.heap, none, &expr.kind->SetExpr_0.object, environment, names);
            lemma_below_plain(none, part);
            lemma_push(m.push_task(waiting), part, none);
        },
        ExprKind::This(depth) => {
            match depth {
                Some(d) => {
                    lemma_lookup_at_ok(m.heap, environment.current, d as nat, expr.token.content@);
                    match m.heap.lookup_at(environment.current, d as nat, expr.token.content@) {
                        Some(value) => {
                            lemma_give(m, value, none);
                        },
                        None => {
                            lemma_halt(m, m.expression(expr, environment).action->Done_0->Err_0, none);
                        },
                    }
                },
                None => {
                    lemma_halt(m, m.expression(expr, environment).action->Done_0->Err_0, none);
                },
            }
        },
        ExprKind::Unary(operand) => {
            let waiting = Task::Unary { operator: &expr.token };
            let part = Task::Expr { expr: &*expr.kind->Unary_0, environment };
            lemma_below_plain(none, waiting);
            lemma_push(m, waiting, none);
            lemma_expr_task(m.heap, none, &*expr.kind->Unary_0, environment, names);
            lemma_below_plain(none, part);
            lemma_push(m.push_task(waiting), part, none);
        },
        ExprKind::Variable(depth) => {
            lemma_variable_ok(m, depth, environment, expr.token);
            match m.variable(depth, environment, expr.token) {
                Ok(value) => {
                    lemma_give(m, value, none);
                },
                Err(error) => {
                    lemma_halt(m, error, none);
                },
            }
        },
        ExprKind::Super(method, depth) => {
            lemma_super_method(m, depth, environment, method, expr.token);
        },
    }
}

/// The branches of an `if`, if they fit, are a task that can be done.
pub proof fn lemma_branch_task(
    heap: HeapView,
    promised: Promises,
    statement: &crate::ast::If,
    environment: Environment,
    names: Names,
)
    requires
        statement_fits(heap, promised, &statement.true_branch, environment, names),
        statement.else_branch matches Some(other) ==> safe_statement(other@, names),
    ensures
        task_ok(heap, promised, Task::Branch { statement, environment }),
{
    let task = Task::Branch { statement, environment };
    assert(task->Branch_environment == environment);
    assert(*task->Branch_statement == *statement);
    assert(statement_fits(
        heap,
        promised,
        &task->Branch_statement.true_branch,
        task->Branch_environment,
        names,
    ));
}

/// A `while` loop whose parts fit is a task that can be done.
pub proof fn lemma_loop_task(
    heap: HeapView,
    promised: Promises,
    statement: &crate::ast::While,
    environment: Environment,
    names: Names,
)
    requires
        statement_fits(heap, promised, &statement.body, environment, names),
        safe_expr(statement.cond@, names),
    ensures
        task_ok(heap, promised, Task::Loop { statement, environment }),
{
    let task = Task::Loop { statement, environment };
    assert(task->Loop_environment == environment);
    assert(*task->Loop_statement == *statement);
    assert(statement_fits(heap, promised, &task->Loop_statement.body, task->Loop_environment, names));
}

/// A `for` loop whose parts fit is a task that can be done, at its
/// condition and at its body.
pub proof fn lemma_for_tasks(
    heap: HeapView,
    promised: Promises,
    statement: &For,
    environment: Environment,
    names: Names,
)
    requires
        statement_fits(heap, promised, &statement.body, environment, names),
        safe_option_expr(option_expr_view(statement.cond), names),
        safe_option_expr(option_expr_view(statement.increment), names),
    ensures
        task_ok(heap, promised, Task::ForCond { statement, environment }),
        task_ok(heap, promised, Task::ForLoop { statement, environment }),
{
    let task = Task::ForCond { statement, environment };
    assert(task->ForCond_environment == environment);
    assert(*task->ForCond_statement == *statement);
    assert(statement_fits(
        heap,
        promised,
        &task->ForCond_statement.body,
        task->ForCond_environment,
        names,
    ));
    let task = Task::ForLoop { statement, environment };
    assert(task->ForLoop_environment == environment);
    assert(*task->ForLoop_statement == *statement);
    assert(statement_fits(
        heap,
        promised,
        &task->ForLoop_statement.body,
        task->ForLoop_environment,
        names,
    ));
}

/// The promise to bind `name` in the frame of `environment`.
pub open spec fn promise(environment: Environment, name: Seq<char>) -> Promises {
    Set::empty().insert((environment.current, name))
}

/// A machine that is ready stays ready under more promises.
pub proof fn lemma_ready_promised(m: MachineView, promised: Promises)
    requires
        ready(m, Set::empty()),
    ensures
        ready(m, promised),
{
    lemma_extends_self(m.heap);
    lemma_keeps_none(m.heap, promised);
    lemma_ready_grows(m, m.heap, Set::empty(), promised);
}

/// An environment that fits some names fits them with a name added, once
/// the name is promised to be bound in its frame.
pub proof fn lemma_fits_promised(heap: HeapView, environment: Environment, names: Names, name: Seq<char>)
    requires
        fits(heap, Set::empty(), environment, names),
    ensures
        fits(heap, promise(environment, name), environment, with_name(names, name)),
{
    let promised = promise(environment, name);
    lemma_extends_self(heap);
    lemma_keeps_none(heap, promised);
    lemma_models_grows(heap, heap, Set::empty(), promised, environment.current, names);
    assert(promised.contains((environment.current, name)));
    lemma_models_named(heap, promised, environment.current, names, name);
}

/// An environment that fits some names fits them with a name added in a
/// heap that extends its heap and binds the name in its frame.
pub proof fn lemma_fits_bound(
    old: HeapView,
    new: HeapView,
    environment: Environment,
    names: Names,
    name: Seq<char>,
)
    requires
        fits(old, Set::empty(), environment, names),
        extends(new, old),
        new.frames[environment.current as int].vars.dom().contains(name),
    ensures
        fits(new, Set::empty(), environment, with_name(names, name)),
{
    lemma_keeps_same(new, Set::empty());
    lemma_models_grows(old, new, Set::empty(), Set::empty(), environment.current, names);
    lemma_models_named(new, Set::empty(), environment.current, names, name);
}

/// Declaring a variable keeps the machine sound, if the tasks below count
/// on nothing but the variable.
pub proof fn lemma_var_declaration(
    m: MachineView,
    declaration: &VarDeclaration,
    environment: Environment,
    names: Names,
)
    requires
        ready(m, promise(environment, declaration.name.content@)),
        fits(m.heap, Set::empty(), environment, names),
        safe_var_declaration(declaration@, names),
    ensures
        sound(m.var_declaration(declaration, environment).machine),
{
    let none: Promises = Set::empty();
    let name = declaration.name.content@;
    let promised = promise(environment, name);
    match declaration.initializer {
        Some(e) => {
            let binding = Task::Define { name: &declaration.name, environment };
            let part = Task::Expr { expr: &declaration.initializer->0, environment };
            assert(none.union(promise_of(binding)) =~= promised);
            lemma_push(m, binding, none);
            let fewer = without(names, name);
            assert(within(fewer, names)) by {
                assert forall|i: int| 0 <= i < fewer.len() implies (#[trigger] fewer[i]).subset_of(
                    names[i],
                ) by {}
            }
            lemma_models_fewer(m.heap, none, environment.current, names, fewer);
            lemma_expr_task(m.heap, none, &declaration.initializer->0, environment, fewer);
            lemma_below_plain(none, part);
            lemma_push(m.push_task(binding), part, none);
        },
        None => {
            let new = m.heap.bind(environment.current, name, ValueView::Nil);
            lemma_bind_ok(m.heap, environment.current, name, ValueView::Nil);
            assert(keeps(new, promised, none));
            lemma_ready_grows(m, new, promised, none);
        },
    }
}

/// Running a `for` statement in a frame of its own keeps the machine sound.
pub proof fn lemma_for_statement(m: MachineView, statement: &For, environment: Environment, opened: Names)
    requires
        ready(m, Set::empty()),
        fits(m.heap, Set::empty(), environment, opened),
        match statement.initializer {
            Some(Initializer::VarDeclaration(v)) => safe_var_declaration(v@, opened),
            Some(Initializer::Expr(e)) => safe_expr(e@, opened),
            None => true,
        },
        ({
            let inner = match statement.initializer {
                Some(Initializer::VarDeclaration(v)) => with_name(opened, v.name.content@),
                _ => opened,
            };
            &&& safe_option_expr(option_expr_view(statement.cond), inner)
            &&& safe_option_expr(option_expr_view(statement.increment), inner)
            &&& safe_statement(statement.body@, inner)
        }),
    ensures
        sound(m.for_statement(statement, environment).machine),
{
    let none: Promises = Set::empty();
    let looping = Task::ForCond { statement, environment };
    match statement.initializer {
        Some(Initializer::VarDeclaration(v)) => {
            let name = v.name.content@;
            let promised = promise(environment, name);
            let inner = with_name(opened, name);
            lemma_fits_promised(m.heap, environment, opened, name);
            lemma_for_tasks(m.heap, promised, statement, environment, inner);
            lemma_ready_promised(m, promised);
            lemma_below_plain(promised, looping);
            lemma_push(m, looping, promised);
            lemma_var_declaration(
                m.push_task(looping),
                &statement.initializer->0->VarDeclaration_0,
                environment,
                opened,
            );
        },
        Some(Initializer::Expr(e)) => {
            lemma_for_tasks(m.heap, none, statement, environment, opened);
            lemma_below_plain(none, looping);
            lemma_push(m, looping, none);
            lemma_below_plain(none, Task::Discard);
            lemma_push(m.push_task(looping), Task::Discard, none);
            let part = Task::Expr { expr: &statement.initializer->0->Expr_0, environment };
            lemma_expr_task(m.heap, none, &statement.initializer->0->Expr_0, environment, opened);
            lemma_below_plain(none, part);
            lemma_push(m.push_task(looping).push_task(Task::Discard), part, none);
        },
        None => {
            lemma_for_tasks(m.heap, none, statement, environment, opened);
            lemma_below_plain(none, looping);
            lemma_push(m, looping, none);
        },
    }
}

/// A new frame without bindings, inside an environment that fits some
/// names, fits them with an empty scope opened.
pub proof fn lemma_block_frame(m: MachineView, environment: Environment, names: Names)
    requires
        ready(m, Set::empty()),
        fits(m.heap, Set::empty(), environment, names),
        m.heap.frames.len() < usize::MAX,
    ensures
        ({
            let new = m.heap.with_frame(
                FrameView { parent: Some(environment.current), vars: Map::empty() },
            );
            &&& ready(m.with_heap(new), Set::empty())
            &&& fits(
                new,
                Set::empty(),
                Environment { current: m.heap.frames.len() as usize },
                names.push(Set::empty()),
            )
        }),
{
    let frame = FrameView { parent: Some(environment.current), vars: Map::empty() };
    let new = m.heap.with_frame(frame);
    lemma_with_frame_ok(m.heap, frame);
    lemma_keeps_same(new, Set::empty());
    lemma_ready_grows(m, new, Set::empty(), Set::empty());
    lemma_models_opened(m.heap, Set::empty(), environment.current, names, frame, Set::empty());
}

/// Running a statement that fits keeps the machine sound.
pub proof fn lemma_statement(m: MachineView, statement: &Statement, environment: Environment, names: Names)
    requires
        ready(m, Set::empty()),
        statement_fits(m.heap, Set::empty(), statement, environment, names),
        m.heap.frames.len() < usize::MAX,
    ensures
        sound(m.statement(statement, environment).machine),
{
    let none: Promises = Set::empty();
    lemma_safe_statement(statement@, names);
    match *statement {
        Statement::Block(declarations) => {
            lemma_block_frame(m, environment, names);
            let new = m.heap.with_frame(
                FrameView { parent: Some(environment.current), vars: Map::empty() },
            );
            let inside = Environment { current: m.heap.frames.len() as usize };
            let task = Task::Declarations { list: &statement->Block_0, next: 0, environment: inside };
            assert(statement@->Block_0 =~= declarations_view(declarations@));
            lemma_declarations_task(
                new,
                none,
                &statement->Block_0,
                0,
                inside,
                names.push(Set::empty()),
            );
            lemma_below_plain(none, task);
            lemma_push(m.with_heap(new), task, none);
        },
        Statement::ExprStatement(e) => {
            lemma_below_plain(none, Task::Discard);
            lemma_push(m, Task::Discard, none);
            let part = Task::Expr { expr: &statement->ExprStatement_0, environment };
            lemma_expr_task(m.heap, none, &statement->ExprStatement_0, environment, names);
            lemma_below_plain(none, part);
            lemma_push(m.push_task(Task::Discard), part, none);
        },
        Statement::For(f) => {
            lemma_block_frame(m, environment, names);
            let new = m.heap.with_frame(
                FrameView { parent: Some(environment.current), vars: Map::empty() },
            );
            let inside = Environment { current: m.heap.frames.len() as usize };
            lemma_for_statement(m.with_heap(new), &*statement->For_0, inside, names.push(Set::empty()));
        },
        Statement::If(i) => {
            let waiting = Task::Branch { statement: &*statement->If_0, environment };
            lemma_branch_task(m.heap, none, &*statement->If_0, environment, names);
            lemma_below_plain(none, waiting);
            lemma_push(m, waiting, none);
            let part = Task::Expr { expr: &statement->If_0.cond, environment };
            lemma_expr_task(m.heap, none, &statement->If_0.cond, environment, names);
            lemma_below_plain(none, part);
            lemma_push(m.push_task(waiting), part, none);
        },
        Statement::Print(e) => {
            lemma_below_plain(none, Task::Print);
            lemma_push(m, Task::Print, none);
            let part = Task::Expr { expr: &statement->Print_0, environment };
            lemma_expr_task(m.heap, none, &statement->Print_0, environment, names);
            lemma_below_plain(none, part);
            lemma_push(m.push_task(Task::Print), part, none);
        },
        Statement::Return(e) => {
            lemma_below_plain(none, Task::Return);
            lemma_push(m, Task::Return, none);
            match e {
                Some(_) => {
                    let part = Task::Expr { expr: &statement->Return_0->0, environment };
                    lemma_expr_task(m.heap, none, &statement->Return_0->0, environment, names);
                    lemma_below_plain(none, part);
                    lemma_push(m.push_task(Task::Return), part, none);
                },
                None => {
                    lemma_give(m.push_task(Task::Return), ValueView::Nil, none);
                },
            }
        },
        Statement::While(w) => {
            let waiting = Task::Loop { statement: &*statement->While_0, environment };
            lemma_loop_task(m.heap, none, &*statement->While_0, environment, names);
            lemma_below_plain(none, waiting);
            lemma_push(m, waiting, none);
            let part = Task::Expr { expr: &statement->While_0.cond, environment };
            lemma_expr_task(m.heap, none, &statement->While_0.cond, environment, names);
            lemma_below_plain(none, part);
            lemma_push(m.push_task(waiting), part, none);
        },
    }
}

/// After its parameters are bound, a frame models the names with the parameters added.
pub proof fn lemma_bind_all_models(
    heap: HeapView,
    frame: usize,
    arguments: Seq<ValueView>,
    parameters: Seq<Token>,
    from: int,
    names: Names,
)
    requires
        0 <= from,
        arguments.len() == parameters.len(),
        frame < heap.frames.len(),
        models(heap, Set::empty(), frame, names),
    ensures
        models(
            heap.bind_all(frame, arguments, parameters, from),
            Set::empty(),
            frame,
            with_params(names, parameters, from),
        ),
        extends(heap.bind_all(frame, arguments, parameters, from), heap),
    decreases arguments.len() - from,
{
    if from < arguments.len() {
        let name = parameters[from].content@;
        let next = heap.bind(frame, name, arguments[from]);
        assert(extends(next, heap));
        lemma_fits_bound(heap, next, Environment { current: frame }, names, name);
        lemma_bind_all_models(next, frame, arguments, parameters, from + 1, with_name(names, name));
        lemma_extends_twice(next.bind_all(frame, arguments, parameters, from + 1), next, heap);
    } else {
        lemma_extends_self(heap);
    }
}

/// Calling a function that is ready, with good arguments, keeps the machine sound.
pub proof fn lemma_call_function(
    m: MachineView,
    function: UserDefined,
    arguments: Seq<ValueView>,
    call: &Call,
    paren: &Token,
)
    requires
        ready(m, Set::empty()),
        closure_ok(m.heap, function),
        forall|i: int| 0 <= i < arguments.len() ==> value_ok(m.heap, #[trigger] arguments[i]),
        m.heap.frames.len() < usize::MAX,
    ensures
        sound(m.call_function(function, arguments, call, paren).machine),
{
    let none: Promises = Set::empty();
    let step = m.call_function(function, arguments, call, paren);
    if arguments.len() != function.declaration.params@.len() {
        lemma_halt(m, step.action->Done_0->Err_0, none);
    } else {
        let names = choose|names: Names| #[trigger] closes_over(m.heap, function, names);
        let declaration = function.declaration;
        lemma_safe_function(declaration@, names);
        assert(declaration@.body =~= declarations_view(declaration.body@));
        let frame = FrameView { parent: Some(function.environment.current), vars: Map::empty() };
        let index = m.heap.frames.len() as usize;
        let opened = m.heap.with_frame(frame);
        lemma_with_frame_ok(m.heap, frame);
        lemma_models_opened(
            m.heap,
            none,
            function.environment.current,
            names,
            frame,
            Set::empty(),
        );
        assert forall|i: int| 0 <= i < arguments.len() implies value_ok(
            opened,
            #[trigger] arguments[i],
        ) by {
            lemma_value_ok_grows(m.heap, opened, arguments[i]);
        }
        let new = opened.bind_all(index, arguments, declaration.params@, 0);
        lemma_bind_all_ok(opened, index, arguments, declaration.params@, 0);
        lemma_bind_all_models(
            opened,
            index,
            arguments,
            declaration.params@,
            0,
            names.push(Set::empty()),
        );
        lemma_extends_twice(new, opened, m.heap);
        lemma_keeps_same(new, none);
        lemma_ready_grows(m, new, none, none);
        let mark = Task::Boundary { function, base: m.values.len() as usize };
        lemma_push(m.with_heap(new), mark, none);
        let inside = Environment { current: index };
        let body = Task::Declarations { list: &declaration.body, next: 0, environment: inside };
        lemma_declarations_task(
            new,
            none,
            &declaration.body,
            0,
            inside,
            with_params(names.push(Set::empty()), declaration.params@, 0),
        );
        lemma_below_plain(none, body);
        lemma_push(m.with_heap(new).push_task(mark), body, none);
    }
}

/// Calling a class keeps the machine sound.
pub proof fn lemma_construct(
    m: MachineView,
    class: IClass,
    arguments: Seq<ValueView>,
    call: &Call,
    paren: &Token,
)
    requires
        ready(m, Set::empty()),
        forall|i: int| 0 <= i < arguments.len() ==> value_ok(m.heap, #[trigger] arguments[i]),
        m.heap.frames.len() + 1 < usize::MAX,
        m.heap.objects.len() < usize::MAX,
    ensures
        sound(m.construct(class, arguments, call, paren).machine),
{
    let none: Promises = Set::empty();
    let step = m.construct(class, arguments, call, paren);
    if class.index >= m.heap.classes.len() {
        lemma_halt(m, step.action->Done_0->Err_0, none);
    } else {
        let object = Object { index: m.heap.objects.len() as usize };
        let made = m.heap.with_object(ObjectView { class, fields: Map::empty() });
        lemma_with_object_ok(m.heap, class);
        if m.heap.classes[class.index as int].methods.dom().contains("init"@) {
            let init = m.heap.classes[class.index as int].methods["init"@];
            lemma_method_ok_grows(m.heap, made, init);
            lemma_bound_method_ok(made, init, object);
            let new = made.with_frame(
                FrameView {
                    parent: Some(init.environment.current),
                    vars: Map::empty().insert("this"@, ValueView::Object(object)),
                },
            );
            lemma_extends_twice(new, made, m.heap);
            lemma_keeps_same(new, none);
            lemma_ready_grows(m, new, none, none);
            assert forall|i: int| 0 <= i < arguments.len() implies value_ok(
                new,
                #[trigger] arguments[i],
            ) by {
                lemma_value_ok_grows(m.heap, new, arguments[i]);
            }
            let bound_method = UserDefined {
                declaration: init.declaration,
                environment: Environment { current: m.heap.frames.len() as usize },
                is_initializer: init.is_initializer,
            };
            lemma_call_function(m.with_heap(new), bound_method, arguments, call, paren);
        } else if arguments.len() > 0 {
            lemma_halt(m, step.action->Done_0->Err_0, none);
        } else {
            lemma_keeps_same(made, none);
            lemma_ready_grows(m, made, none, none);
            lemma_give(m.with_heap(made), ValueView::Object(object), none);
        }
    }
}

/// Making a call keeps the machine sound.
pub proof fn lemma_finish_call(m: MachineView, call: &Call, paren: &Token)
    requires
        ready(m, Set::empty()),
        m.heap.frames.len() + 1 < usize::MAX,
        m.heap.objects.len() < usize::MAX,
    ensures
        sound(m.finish_call(call, paren).machine),
{
    let none: Promises = Set::empty();
    let step = m.finish_call(call, paren);
    let count = call.arguments@.len();
    if m.values.len() <= count {
        lemma_halt(m, step.action->Done_0->Err_0, none);
    } else {
        let callee = m.values[m.values.len() - count - 1];
        let arguments = m.values.subrange(m.values.len() - count, m.values.len() as int);
        let rest = MachineView { values: m.values.take(m.values.len() - count - 1), ..m };
        assert(ready(rest, none)) by {
            assert forall|i: int| 0 <= i < rest.values.len() implies value_ok(
                rest.heap,
                #[trigger] rest.values[i],
            ) by {
                assert(rest.values[i] == m.values[i]);
            }
        }
        assert forall|i: int| 0 <= i < arguments.len() implies value_ok(
            m.heap,
            #[trigger] arguments[i],
        ) by {
            assert(arguments[i] == m.values[m.values.len() - count + i]);
        }
        match callee {
            ValueView::Function(Function::UserDefined(function)) => {
                assert(value_ok(m.heap, m.values[m.values.len() - count - 1]));
                lemma_call_function(rest, function, arguments, call, paren);
            },
            ValueView::Function(Function::Builtin) => {
                lemma_ask(rest, RequestView::Clock, none);
            },
            ValueView::Class(class) => {
                lemma_construct(rest, class, arguments, call, paren);
            },
            _ => {
                lemma_halt(m, step.action->Done_0->Err_0, none);
            },
        }
    }
}

/// Below the topmost boundary of a stack whose tasks can be done, the
/// tasks can be done without any promise.
pub proof fn lemma_below_boundary(heap: HeapView, tasks: Seq<Task>, promised: Promises)
    requires
        stack_ok(heap, tasks, promised),
    ensures
        boundary(tasks) matches Some(i) ==> 0 <= i < tasks.len() && stack_ok(
            heap,
            tasks.take(i),
            Set::empty(),
        ),
    decreases tasks.len(),
{
    if tasks.len() > 0 {
        if tasks.last() is Boundary {
            assert(tasks.take(tasks.len() - 1) =~= tasks.drop_last());
        } else {
            let rest = tasks.drop_last();
            lemma_below_boundary(heap, rest, promised.union(promise_of(tasks.last())));
            if let Some(i) = boundary(rest) {
                assert(tasks.take(i) =~= rest.take(i));
            }
        }
    }
}

/// The `this` of a function is good.
pub proof fn lemma_this_ok(heap: HeapView, function: UserDefined)
    requires
        heap_ok(heap),
    ensures
        value_ok(heap, this_of(heap, function)),
{
    lemma_lookup_ok(heap, function.environment.current, "this"@);
}

/// Returning from a call keeps the machine sound.
pub proof fn lemma_unwind(m: MachineView, value: ValueView, promised: Promises)
    requires
        ready(m, promised),
        value_ok(m.heap, value),
    ensures
        sound(m.unwind(value).machine),
{
    lemma_below_boundary(m.heap, m.tasks, promised);
    match boundary(m.tasks) {
        Some(i) => {
            let function = m.tasks[i]->Boundary_function;
            let base = m.tasks[i]->Boundary_base;
            lemma_this_ok(m.heap, function);
            let kept = if base <= m.values.len() {
                m.values.take(base as int)
            } else {
                m.values
            };
            assert forall|j: int| 0 <= j < kept.len() implies value_ok(m.heap, #[trigger] kept[j]) by {
                assert(kept[j] == m.values[j]);
            }
        },
        None => {
            lemma_halt(m, InterpErrorView::Return(value), promised);
        },
    }
}

/// Assigning a good value keeps the machine sound.
pub proof fn lemma_assign(
    m: MachineView,
    depth: Depth,
    name: &Token,
    environment: Environment,
    value: ValueView,
)
    requires
        ready(m, Set::empty()),
        value_ok(m.heap, value),
    ensures
        sound(m.assign(depth, name, environment, value).machine),
{
    let none: Promises = Set::empty();
    let step = m.assign(depth, name, environment, value);
    if step.action is Done {
        lemma_halt(m, step.action->Done_0->Err_0, none);
    } else {
        let frame = match depth {
            Some(d) => m.heap.ancestor(environment.current, d as nat)->0,
            None => m.globals.current,
        };
        let new = m.heap.bind(frame, name.content@, value);
        lemma_bind_ok(m.heap, frame, name.content@, value);
        lemma_keeps_same(new, none);
        lemma_ready_grows(m, new, none, none);
        lemma_value_ok_grows(m.heap, new, value);
        lemma_give(m.with_heap(new), value, none);
    }
}

/// Every method of a table is made of a declaration of the list, and
/// closes over the environment of the table.
pub proof fn lemma_method_table(
    list: &Vec<FunDeclarationStruct>,
    environment: Environment,
    count: int,
    name: Seq<char>,
)
    requires
        method_table(list, environment, count).dom().contains(name),
    ensures
        exists|i: int|
            0 <= i < list@.len() && #[trigger] method_table(list, environment, count)[name].declaration@
                == list@[i]@ && method_table(list, environment, count)[name].environment
                == environment,
    decreases count,
{
    if 0 < count <= list@.len() {
        if list@[count - 1].name.content@ == name {
            let method = method_table(list, environment, count)[name];
            assert(0 <= count - 1 < list@.len() && method.declaration@ == list@[count - 1]@
                && method.environment == environment);
        } else {
            lemma_method_table(list, environment, count - 1, name);
            assert(method_table(list, environment, count)[name] == method_table(
                list,
                environment,
                count - 1,
            )[name]);
        }
    }
}

/// Each of a list of safe methods is safe.
pub proof fn lemma_safe_methods_each(
    list: Seq<crate::ast::FunctionView>,
    from: int,
    names: Names,
    i: int,
)
    requires
        0 <= from <= i < list.len(),
        safe_methods(list, from, names),
    ensures
        safe_function(list[i], names),
    decreases i - from,
{
    lemma_safe_methods(list, from, names);
    if from < i {
        lemma_safe_methods_each(list, from + 1, names, i);
    }
}

/// Declaring a class keeps the machine sound, if the tasks below count on
/// nothing but the class.
pub proof fn lemma_class(m: MachineView, class: &ClassStruct, environment: Environment, names: Names)
    requires
        ready(m, promise(environment, class.name.content@)),
        fits(m.heap, Set::empty(), environment, names),
        safe_class(class@, with_name(names, class.name.content@)),
        m.heap.frames.len() < usize::MAX,
        m.heap.classes.len() < usize::MAX,
    ensures
        sound(m.class_declaration(class, environment).machine),
{
    let none: Promises = Set::empty();
    let name = class.name.content@;
    let promised = promise(environment, name);
    let known = with_name(names, name);
    let step = m.class_declaration(class, environment);
    let made = ValueView::Class(IClass { index: m.heap.classes.len() as usize });
    lemma_safe_class(class@, known);
    assert(class@.methods =~= functions_view(class.methods@));
    let this = Set::<Seq<char>>::empty().insert("this"@);
    let inherits = class.superclass is Some && class.superclass->0.kind is Variable;
    if step.action is Done {
        lemma_halt(m, step.action->Done_0->Err_0, promised);
    } else if inherits {
        let token = class.superclass->0.token;
        let value = m.variable(class.superclass->0.kind->Variable_0, environment, token)->Ok_0;
        let parent = value->Class_0;
        let index = m.heap.frames.len() as usize;
        let frame = FrameView {
            parent: Some(environment.current),
            vars: Map::empty().insert("super"@, value),
        };
        let inside = Environment { current: index };
        let table = method_table(&class.methods, inside, class.methods@.len() as int);
        let around = m.heap.with_frame(frame);
        let new = around.with_class(
            ClassModel { name, methods: table, superclass: Some(parent) },
        ).bind(environment.current, name, made);
        assert(extends(around, m.heap));
        assert(extends(new, around));
        assert(extends(new, m.heap));
        let scope = Set::<Seq<char>>::empty().insert("super"@);
        let outer = known.push(scope);
        assert(around_methods(class@, known) == outer);
        lemma_fits_promised(m.heap, environment, names, name);
        lemma_models_opened(m.heap, promised, environment.current, known, frame, scope);
        assert(keeps(new, promised, none));
        lemma_models_grows(around, new, promised, none, index, outer);
        assert forall|i: int, x: Seq<char>|
            m.heap.classes.len() <= i < new.classes.len() && new.classes[i].methods.dom().contains(x)
            implies method_ok(new, #[trigger] new.classes[i].methods[x]) by {
            lemma_method_table(&class.methods, inside, class.methods@.len() as int, x);
            let k = choose|k: int|
                0 <= k < class.methods@.len() && #[trigger] table[x].declaration@
                    == class.methods@[k]@ && table[x].environment == inside;
            lemma_safe_methods_each(class@.methods, 0, outer.push(this), k);
            assert(awaits_this(new, table[x], outer));
        }
        lemma_heap_ok_grows(m.heap, new);
        lemma_ready_grows(m, new, promised, none);
    } else {
        let table = method_table(&class.methods, environment, class.methods@.len() as int);
        let new = m.heap.with_class(ClassModel { name, methods: table, superclass: None }).bind(
            environment.current,
            name,
            made,
        );
        assert(extends(new, m.heap));
        assert(around_methods(class@, known) == known);
        lemma_fits_bound(m.heap, new, environment, names, name);
        assert(keeps(new, promised, none));
        assert forall|i: int, x: Seq<char>|
            m.heap.classes.len() <= i < new.classes.len() && new.classes[i].methods.dom().contains(x)
            implies method_ok(new, #[trigger] new.classes[i].methods[x]) by {
            lemma_method_table(&class.methods, environment, class.methods@.len() as int, x);
            let k = choose|k: int|
                0 <= k < class.methods@.len() && #[trigger] table[x].declaration@
                    == class.methods@[k]@ && table[x].environment == environment;
            lemma_safe_methods_each(class@.methods, 0, known.push(this), k);
            assert(awaits_this(new, table[x], known));
        }
        lemma_heap_ok_grows(m.heap, new);
        lemma_ready_grows(m, new, promised, none);
    }
}

/// Whether the heap has room for what one step may add to it.
pub open spec fn roomy(m: MachineView) -> bool {
    m.heap.frames.len() + 2 < usize::MAX && m.heap.classes.len() + 1 < usize::MAX
        && m.heap.objects.len() + 1 < usize::MAX
}

/// Running the next declaration of a list keeps the machine sound.
pub proof fn lemma_declarations(
    m: MachineView,
    list: &Vec<Declaration>,
    next: usize,
    environment: Environment,
    names: Names,
)
    requires
        ready(m, Set::empty()),
        declarations_fit(m.heap, Set::empty(), list, next, environment, names),
        roomy(m),
    ensures
        sound(m.run(Task::Declarations { list, next, environment }).machine),
{
    let none: Promises = Set::empty();
    assert(list@.len() == list.len());
    if next < list@.len() {
        let views = declarations_view(list@);
        lemma_safe_declarations(views, next as int, names);
        let declaration = &list@[next as int];
        assert(views[next as int] == declaration@);
        lemma_safe_declaration(declaration@, names);
        let later = Task::Declarations { list, next: (next + 1) as usize, environment };
        let left = after(declaration@, names);
        match *declaration {
            Declaration::Class(c) => {
                let name = c.name.content@;
                let promised = promise(environment, name);
                lemma_fits_promised(m.heap, environment, names, name);
                lemma_declarations_task(m.heap, promised, list, (next + 1) as usize, environment, left);
                lemma_ready_promised(m, promised);
                lemma_below_plain(promised, later);
                lemma_push(m, later, promised);
                lemma_class(m.push_task(later), &declaration->Class_0, environment, names);
            },
            Declaration::FunDeclaration(f) => {
                let name = f.name.content@;
                let function = UserDefined {
                    declaration: &declaration->FunDeclaration_0,
                    environment,
                    is_initializer: false,
                };
                let value = ValueView::Function(Function::UserDefined(function));
                let new = m.heap.bind(environment.current, name, value);
                assert(extends(new, m.heap));
                lemma_fits_bound(m.heap, new, environment, names, name);
                assert(closes_over(new, function, left));
                lemma_bind_new_ok(m.heap, environment.current, name, value);
                lemma_keeps_same(new, none);
                lemma_ready_grows(m, new, none, none);
                lemma_declarations_task(new, none, list, (next + 1) as usize, environment, left);
                lemma_below_plain(none, later);
                lemma_push(m.with_heap(new), later, none);
            },
            Declaration::Statement(s) => {
                lemma_declarations_task(m.heap, none, list, (next + 1) as usize, environment, left);
                lemma_below_plain(none, later);
                lemma_push(m, later, none);
                lemma_statement(m.push_task(later), &declaration->Statement_0, environment, names);
            },
            Declaration::VarDeclaration(v) => {
                let name = v.name.content@;
                let promised = promise(environment, name);
                lemma_fits_promised(m.heap, environment, names, name);
                lemma_declarations_task(m.heap, promised, list, (next + 1) as usize, environment, left);
                lemma_ready_promised(m, promised);
                lemma_below_plain(promised, later);
                lemma_push(m, later, promised);
                lemma_var_declaration(
                    m.push_task(later),
                    &declaration->VarDeclaration_0,
                    environment,
                    names,
                );
            },
        }
    }
}

/// An operation's outcome keeps the machine sound.
pub proof fn lemma_operate(m: MachineView, operation: Operation, token: Token)
    requires
        ready(m, Set::empty()),
        operation matches Operation::Value(value) ==> value_ok(m.heap, value),
    ensures
        sound(m.operate(operation, token).machine),
{
    let none: Promises = Set::empty();
    match operation {
        Operation::Value(value) => {
            lemma_give(m, value, none);
        },
        Operation::Host(request) => {
            lemma_ask(m, request, none);
        },
        Operation::Wrong(message) => {
            lemma_halt(m, crate::interp_error::failure(message, token), none);
        },
    }
}

/// Doing a task of this kind that can be done keeps the machine sound.
pub proof fn lemma_run_declarations(m: MachineView, task: Task)
    requires
        task is Declarations,
        ready(m, below(Set::empty(), task)),
        task_ok(m.heap, Set::empty(), task),
        roomy(m),
    ensures
        sound(m.run(task).machine),
{
    let none: Promises = Set::empty();
    if !(task is Define) && !(task is Boundary) {
        lemma_below_plain(none, task);
    }
    lemma_pop(m, below(none, task));
    lemma_pop(m.pop(), below(none, task));
    match task {
        Task::Declarations { list, next, environment } => {
            let names = choose|names: Names| #[trigger]
                declarations_fit(m.heap, none, list, next, environment, names);
            lemma_declarations(m, list, next, environment, names);
        },
        _ => {},
    }
}

/// Doing a task of this kind that can be done keeps the machine sound.
pub proof fn lemma_run_statement(m: MachineView, task: Task)
    requires
        task is Statement,
        ready(m, below(Set::empty(), task)),
        task_ok(m.heap, Set::empty(), task),
        roomy(m),
    ensures
        sound(m.run(task).machine),
{
    let none: Promises = Set::empty();
    if !(task is Define) && !(task is Boundary) {
        lemma_below_plain(none, task);
    }
    lemma_pop(m, below(none, task));
    lemma_pop(m.pop(), below(none, task));
    match task {
        Task::Statement { statement, environment } => {
            let names = choose|names: Names| #[trigger]
                statement_fits(m.heap, none, statement, environment, names);
            lemma_statement(m, statement, environment, names);
        },
        _ => {},
    }
}

/// Doing a task of this kind that can be done keeps the machine sound.
pub proof fn lemma_run_expr(m: MachineView, task: Task)
    requires
        task is Expr,
        ready(m, below(Set::empty(), task)),
        task_ok(m.heap, Set::empty(), task),
        roomy(m),
    ensures
        sound(m.run(task).machine),
{
    let none: Promises = Set::empty();
    if !(task is Define) && !(task is Boundary) {
        lemma_below_plain(none, task);
    }
    lemma_pop(m, below(none, task));
    lemma_pop(m.pop(), below(none, task));
    match task {
        Task::Expr { expr, environment } => {
            let names = choose|names: Names| #[trigger]
                expr_fits(m.heap, none, expr, environment, names);
            lemma_expression(m, expr, environment, names);
        },
        _ => {},
    }
}

/// Doing a task of this kind that can be done keeps the machine sound.
pub proof fn lemma_run_define(m: MachineView, task: Task)
    requires
        task is Define,
        ready(m, below(Set::empty(), task)),
        task_ok(m.heap, Set::empty(), task),
        roomy(m),
    ensures
        sound(m.run(task).machine),
{
    let none: Promises = Set::empty();
    if !(task is Define) && !(task is Boundary) {
        lemma_below_plain(none, task);
    }
    lemma_pop(m, below(none, task));
    lemma_pop(m.pop(), below(none, task));
    match task {
        Task::Define { name, environment } => {
            let promised = promise(environment, name.content@);
            assert(below(none, task) =~= promised);
            let new = m.heap.bind(environment.current, name.content@, m.top());
            lemma_bind_ok(m.heap, environment.current, name.content@, m.top());
            assert(keeps(new, promised, none));
            lemma_ready_grows(m.pop(), new, promised, none);
        },
        _ => {},
    }
}

/// Doing a task of this kind that can be done keeps the machine sound.
pub proof fn lemma_run_branch(m: MachineView, task: Task)
    requires
        task is Branch,
        ready(m, below(Set::empty(), task)),
        task_ok(m.heap, Set::empty(), task),
        roomy(m),
    ensures
        sound(m.run(task).machine),
{
    let none: Promises = Set::empty();
    if !(task is Define) && !(task is Boundary) {
        lemma_below_plain(none, task);
    }
    lemma_pop(m, below(none, task));
    lemma_pop(m.pop(), below(none, task));
    match task {
        Task::Branch { statement, environment } => {
            let names = choose|names: Names| #[trigger]
                statement_fits(m.heap, none, &statement.true_branch, environment, names) && (
                statement.else_branch matches Some(other) ==> safe_statement(other@, names));
            if truthy_top(m) {
                let chosen = Task::Statement { statement: &statement.true_branch, environment };
                lemma_statement_task(m.heap, none, &statement.true_branch, environment, names);
                lemma_below_plain(none, chosen);
                lemma_push(m.pop(), chosen, none);
            } else if statement.else_branch is Some {
                let chosen = Task::Statement { statement: &statement.else_branch->0, environment };
                lemma_statement_task(m.heap, none, &statement.else_branch->0, environment, names);
                lemma_below_plain(none, chosen);
                lemma_push(m.pop(), chosen, none);
            }
        },
        _ => {},
    }
}

/// Doing a task of this kind that can be done keeps the machine sound.
pub proof fn lemma_run_loop(m: MachineView, task: Task)
    requires
        task is Loop,
        ready(m, below(Set::empty(), task)),
        task_ok(m.heap, Set::empty(), task),
        roomy(m),
    ensures
        sound(m.run(task).machine),
{
    let none: Promises = Set::empty();
    if !(task is Define) && !(task is Boundary) {
        lemma_below_plain(none, task);
    }
    lemma_pop(m, below(none, task));
    lemma_pop(m.pop(), below(none, task));
    match task {
        Task::Loop { statement, environment } => {
            let names = choose|names: Names| #[trigger]
                statement_fits(m.heap, none, &statement.body, environment, names) && safe_expr(
                    statement.cond@,
                    names,
                );
            if truthy_top(m) {
                let again = Task::Loop { statement, environment };
                lemma_loop_task(m.heap, none, statement, environment, names);
                lemma_below_plain(none, again);
                lemma_push(m.pop(), again, none);
                let cond = Task::Expr { expr: &statement.cond, environment };
                lemma_expr_task(m.heap, none, &statement.cond, environment, names);
                lemma_below_plain(none, cond);
                lemma_push(m.pop().push_task(again), cond, none);
                let body = Task::Statement { statement: &statement.body, environment };
                lemma_statement_task(m.heap, none, &statement.body, environment, names);
                lemma_below_plain(none, body);
                lemma_push(m.pop().push_task(again).push_task(cond), body, none);
            }
        },
        _ => {},
    }
}

/// Doing a task of this kind that can be done keeps the machine sound.
pub proof fn lemma_run_for_cond(m: MachineView, task: Task)
    requires
        task is ForCond,
        ready(m, below(Set::empty(), task)),
        task_ok(m.heap, Set::empty(), task),
        roomy(m),
    ensures
        sound(m.run(task).machine),
{
    let none: Promises = Set::empty();
    if !(task is Define) && !(task is Boundary) {
        lemma_below_plain(none, task);
    }
    lemma_pop(m, below(none, task));
    lemma_pop(m.pop(), below(none, task));
    match task {
        Task::ForCond { statement, environment } => {
            let names = choose|names: Names| #[trigger]
                statement_fits(m.heap, none, &statement.body, environment, names)
                    && safe_option_expr(option_expr_view(statement.cond), names)
                    && safe_option_expr(option_expr_view(statement.increment), names);
            let test = Task::ForLoop { statement, environment };
            lemma_for_tasks(m.heap, none, statement, environment, names);
            lemma_below_plain(none, test);
            lemma_push(m, test, none);
            match statement.cond {
                Some(_) => {
                    let cond = Task::Expr { expr: &statement.cond->0, environment };
                    lemma_expr_task(m.heap, none, &statement.cond->0, environment, names);
                    lemma_below_plain(none, cond);
                    lemma_push(m.push_task(test), cond, none);
                },
                None => {
                    lemma_give(m.push_task(test), ValueView::Boolean(true), none);
                },
            }
        },
        _ => {},
    }
}

/// Doing a task of this kind that can be done keeps the machine sound.
pub proof fn lemma_run_for_loop(m: MachineView, task: Task)
    requires
        task is ForLoop,
        ready(m, below(Set::empty(), task)),
        task_ok(m.heap, Set::empty(), task),
        roomy(m),
    ensures
        sound(m.run(task).machine),
{
    let none: Promises = Set::empty();
    if !(task is Define) && !(task is Boundary) {
        lemma_below_plain(none, task);
    }
    lemma_pop(m, below(none, task));
    lemma_pop(m.pop(), below(none, task));
    match task {
        Task::ForLoop { statement, environment } => {
            let names = choose|names: Names| #[trigger]
                statement_fits(m.heap, none, &statement.body, environment, names)
                    && safe_option_expr(option_expr_view(statement.cond), names)
                    && safe_option_expr(option_expr_view(statement.increment), names);
            if truthy_top(m) {
                let again = Task::ForCond { statement, environment };
                lemma_for_tasks(m.heap, none, statement, environment, names);
                lemma_below_plain(none, again);
                lemma_push(m.pop(), again, none);
                let body = Task::Statement { statement: &statement.body, environment };
                lemma_statement_task(m.heap, none, &statement.body, environment, names);
                lemma_below_plain(none, body);
                match statement.increment {
                    Some(_) => {
                        lemma_below_plain(none, Task::Discard);
                        lemma_push(m.pop().push_task(again), Task::Discard, none);
                        let step = Task::Expr { expr: &statement.increment->0, environment };
                        lemma_expr_task(m.heap, none, &statement.increment->0, environment, names);
                        lemma_below_plain(none, step);
                        lemma_push(m.pop().push_task(again).push_task(Task::Discard), step, none);
                        lemma_push(
                            m.pop().push_task(again).push_task(Task::Discard).push_task(step),
                            body,
                            none,
                        );
                    },
                    None => {
                        lemma_push(m.pop().push_task(again), body, none);
                    },
                }
            }
        },
        _ => {},
    }
}

/// Doing a task of this kind that can be done keeps the machine sound.
pub proof fn lemma_run_return(m: MachineView, task: Task)
    requires
        task is Return,
        ready(m, below(Set::empty(), task)),
        task_ok(m.heap, Set::empty(), task),
        roomy(m),
    ensures
        sound(m.run(task).machine),
{
    let none: Promises = Set::empty();
    if !(task is Define) && !(task is Boundary) {
        lemma_below_plain(none, task);
    }
    lemma_pop(m, below(none, task));
    lemma_pop(m.pop(), below(none, task));
    match task {
        Task::Return => {
            lemma_unwind(m.pop(), m.top(), none);
        },
        _ => {},
    }
}

/// Doing a task of this kind that can be done keeps the machine sound.
pub proof fn lemma_run_boundary(m: MachineView, task: Task)
    requires
        task is Boundary,
        ready(m, below(Set::empty(), task)),
        task_ok(m.heap, Set::empty(), task),
        roomy(m),
    ensures
        sound(m.run(task).machine),
{
    let none: Promises = Set::empty();
    if !(task is Define) && !(task is Boundary) {
        lemma_below_plain(none, task);
    }
    lemma_pop(m, below(none, task));
    lemma_pop(m.pop(), below(none, task));
    match task {
        Task::Boundary { function, base } => {
            let kept = if base <= m.values.len() {
                m.values.take(base as int)
            } else {
                m.values
            };
            let cut = MachineView { values: kept, ..m };
            assert forall|j: int| 0 <= j < kept.len() implies value_ok(m.heap, #[trigger] kept[j]) by {
                assert(kept[j] == m.values[j]);
            }
            lemma_this_ok(m.heap, function);
            lemma_give(
                cut,
                if function.is_initializer {
                    this_of(m.heap, function)
                } else {
                    ValueView::Nil
                },
                none,
            );
        },
        _ => {},
    }
}

/// Doing a task of this kind that can be done keeps the machine sound.
pub proof fn lemma_run_binary(m: MachineView, task: Task)
    requires
        task is Binary,
        ready(m, below(Set::empty(), task)),
        task_ok(m.heap, Set::empty(), task),
        roomy(m),
    ensures
        sound(m.run(task).machine),
{
    let none: Promises = Set::empty();
    if !(task is Define) && !(task is Boundary) {
        lemma_below_plain(none, task);
    }
    lemma_pop(m, below(none, task));
    lemma_pop(m.pop(), below(none, task));
    match task {
        Task::Binary { operator } => {
            lemma_operate(
                m.pop().pop(),
                binary_operation(operator.kind, m.pop().top(), m.top()),
                *operator,
            );
        },
        _ => {},
    }
}

/// Doing a task of this kind that can be done keeps the machine sound.
pub proof fn lemma_run_unary(m: MachineView, task: Task)
    requires
        task is Unary,
        ready(m, below(Set::empty(), task)),
        task_ok(m.heap, Set::empty(), task),
        roomy(m),
    ensures
        sound(m.run(task).machine),
{
    let none: Promises = Set::empty();
    if !(task is Define) && !(task is Boundary) {
        lemma_below_plain(none, task);
    }
    lemma_pop(m, below(none, task));
    lemma_pop(m.pop(), below(none, task));
    match task {
        Task::Unary { operator } => {
            lemma_operate(m.pop(), unary_operation(operator.kind, m.top()), *operator);
        },
        _ => {},
    }
}

/// Doing a task of this kind that can be done keeps the machine sound.
pub proof fn lemma_run_logical(m: MachineView, task: Task)
    requires
        task is Logical,
        ready(m, below(Set::empty(), task)),
        task_ok(m.heap, Set::empty(), task),
        roomy(m),
    ensures
        sound(m.run(task).machine),
{
    let none: Promises = Set::empty();
    if !(task is Define) && !(task is Boundary) {
        lemma_below_plain(none, task);
    }
    lemma_pop(m, below(none, task));
    lemma_pop(m.pop(), below(none, task));
    match task {
        Task::Logical { operator, right, environment } => {
            let names = choose|names: Names| #[trigger]
                expr_fits(m.heap, none, right, environment, names);
            let step = m.pop().logical(operator, right, environment, m.top());
            if step.action is Done {
                lemma_halt(m.pop(), step.action->Done_0->Err_0, none);
            } else if step.machine.tasks.len() > m.tasks.len() {
                lemma_below_plain(none, Task::Truth);
                lemma_push(m.pop(), Task::Truth, none);
                let part = Task::Expr { expr: right, environment };
                lemma_expr_task(m.heap, none, right, environment, names);
                lemma_below_plain(none, part);
                lemma_push(m.pop().push_task(Task::Truth), part, none);
            } else {
                lemma_give(m.pop(), ValueView::Boolean(false), none);
                lemma_give(m.pop(), ValueView::Boolean(true), none);
            }
        },
        _ => {},
    }
}

/// Doing a task of this kind that can be done keeps the machine sound.
pub proof fn lemma_run_truth(m: MachineView, task: Task)
    requires
        task is Truth,
        ready(m, below(Set::empty(), task)),
        task_ok(m.heap, Set::empty(), task),
        roomy(m),
    ensures
        sound(m.run(task).machine),
{
    let none: Promises = Set::empty();
    if !(task is Define) && !(task is Boundary) {
        lemma_below_plain(none, task);
    }
    lemma_pop(m, below(none, task));
    lemma_pop(m.pop(), below(none, task));
    match task {
        Task::Truth => {
            lemma_give(m.pop(), ValueView::Boolean(crate::value::truthy(m.top())), none);
        },
        _ => {},
    }
}

/// Doing a task of this kind that can be done keeps the machine sound.
pub proof fn lemma_run_call(m: MachineView, task: Task)
    requires
        task is Call,
        ready(m, below(Set::empty(), task)),
        task_ok(m.heap, Set::empty(), task),
        roomy(m),
    ensures
        sound(m.run(task).machine),
{
    let none: Promises = Set::empty();
    if !(task is Define) && !(task is Boundary) {
        lemma_below_plain(none, task);
    }
    lemma_pop(m, below(none, task));
    lemma_pop(m.pop(), below(none, task));
    match task {
        Task::Call { call, paren, environment, next } => {
            let names = choose|names: Names| #[trigger]
                fits(m.heap, none, environment, names) && forall|i: int|
                    next <= i < call.arguments@.len() ==> safe_expr(
                        (#[trigger] call.arguments@[i])@,
                        names,
                    );
            assert(call.arguments@.len() == call.arguments.len());
            if next < call.arguments@.len() {
                let later = Task::Call { call, paren, environment, next: (next + 1) as usize };
                lemma_call_task(m.heap, none, call, paren, environment, (next + 1) as usize, names);
                lemma_below_plain(none, later);
                lemma_push(m, later, none);
                let part = Task::Expr { expr: &call.arguments@[next as int], environment };
                lemma_expr_task(m.heap, none, &call.arguments@[next as int], environment, names);
                lemma_below_plain(none, part);
                lemma_push(m.push_task(later), part, none);
            } else {
                lemma_finish_call(m, call, paren);
            }
        },
        _ => {},
    }
}

/// Doing a task of this kind that can be done keeps the machine sound.
pub proof fn lemma_run_get(m: MachineView, task: Task)
    requires
        task is Get,
        ready(m, below(Set::empty(), task)),
        task_ok(m.heap, Set::empty(), task),
        roomy(m),
    ensures
        sound(m.run(task).machine),
{
    let none: Promises = Set::empty();
    if !(task is Define) && !(task is Boundary) {
        lemma_below_plain(none, task);
    }
    lemma_pop(m, below(none, task));
    lemma_pop(m.pop(), below(none, task));
    match task {
        Task::Get { name } => {
            match m.top() {
                ValueView::Object(object) => {
                    let read = property(m.heap, object.index, *name);
                    if read.1 is Err {
                        lemma_halt(m.pop(), read.1->Err_0, none);
                    } else if object.index < m.heap.objects.len() && m.heap.objects[object.index as int].fields.dom().contains(
                        name.content@,
                    ) {
                        lemma_give(m.pop(), read.1->Ok_0, none);
                    } else {
                        let found = m.heap.find_method(
                            m.heap.objects[object.index as int].class.index,
                            name.content@,
                        )->0;
                        lemma_find_method_ok(
                            m.heap,
                            m.heap.objects[object.index as int].class.index,
                            name.content@,
                        );
                        lemma_bound_method_ok(m.heap, found, Object { index: object.index });
                        lemma_keeps_same(read.0, none);
                        lemma_ready_grows(m.pop(), read.0, none, none);
                        lemma_give(m.pop().with_heap(read.0), read.1->Ok_0, none);
                    }
                },
                _ => {
                    lemma_halt(m, m.run(task).action->Done_0->Err_0, none);
                },
            }
        },
        _ => {},
    }
}

/// Doing a task of this kind that can be done keeps the machine sound.
pub proof fn lemma_run_set_target(m: MachineView, task: Task)
    requires
        task is SetTarget,
        ready(m, below(Set::empty(), task)),
        task_ok(m.heap, Set::empty(), task),
        roomy(m),
    ensures
        sound(m.run(task).machine),
{
    let none: Promises = Set::empty();
    if !(task is Define) && !(task is Boundary) {
        lemma_below_plain(none, task);
    }
    lemma_pop(m, below(none, task));
    lemma_pop(m.pop(), below(none, task));
    match task {
        Task::SetTarget { set, name, environment } => {
            let names = choose|names: Names| #[trigger]
                expr_fits(m.heap, none, &set.value, environment, names);
            match m.top() {
                ValueView::Object(_) => {
                    let store = Task::SetField { name };
                    lemma_below_plain(none, store);
                    lemma_push(m, store, none);
                    let part = Task::Expr { expr: &set.value, environment };
                    lemma_expr_task(m.heap, none, &set.value, environment, names);
                    lemma_below_plain(none, part);
                    lemma_push(m.push_task(store), part, none);
                },
                _ => {
                    lemma_halt(m, m.run(task).action->Done_0->Err_0, none);
                },
            }
        },
        _ => {},
    }
}

/// Doing a task of this kind that can be done keeps the machine sound.
pub proof fn lemma_run_set_field(m: MachineView, task: Task)
    requires
        task is SetField,
        ready(m, below(Set::empty(), task)),
        task_ok(m.heap, Set::empty(), task),
        roomy(m),
    ensures
        sound(m.run(task).machine),
{
    let none: Promises = Set::empty();
    if !(task is Define) && !(task is Boundary) {
        lemma_below_plain(none, task);
    }
    lemma_pop(m, below(none, task));
    lemma_pop(m.pop(), below(none, task));
    match task {
        Task::SetField { name } => {
            match m.pop().top() {
                ValueView::Object(object) => {
                    let new = m.heap.with_field(object.index, name.content@, m.top());
                    lemma_with_field_ok(m.heap, object.index, name.content@, m.top());
                    lemma_keeps_same(new, none);
                    lemma_ready_grows(m.pop().pop(), new, none, none);
                    lemma_value_ok_grows(m.heap, new, m.top());
                    lemma_give(m.pop().pop().with_heap(new), m.top(), none);
                },
                _ => {
                    lemma_halt(m, m.run(task).action->Done_0->Err_0, none);
                },
            }
        },
        _ => {},
    }
}

/// Doing a task of this kind that can be done keeps the machine sound.
pub proof fn lemma_run_assign(m: MachineView, task: Task)
    requires
        task is Assign,
        ready(m, below(Set::empty(), task)),
        task_ok(m.heap, Set::empty(), task),
        roomy(m),
    ensures
        sound(m.run(task).machine),
{
    let none: Promises = Set::empty();
    if !(task is Define) && !(task is Boundary) {
        lemma_below_plain(none, task);
    }
    lemma_pop(m, below(none, task));
    lemma_pop(m.pop(), below(none, task));
    match task {
        Task::Assign { depth, name, environment } => {
            lemma_assign(m.pop(), depth, name, environment, m.top());
        },
        _ => {},
    }
}

/// Doing a task that can be done keeps the machine sound.
pub proof fn lemma_run(m: MachineView, task: Task)
    requires
        ready(m, below(Set::empty(), task)),
        task_ok(m.heap, Set::empty(), task),
        roomy(m),
    ensures
        sound(m.run(task).machine),
{
    let none: Promises = Set::empty();
    if !(task is Define) && !(task is Boundary) {
        lemma_below_plain(none, task);
    }
    lemma_pop(m, below(none, task));
    match task {
        Task::Declarations { .. } => {
            lemma_run_declarations(m, task);
        },
        Task::Statement { .. } => {
            lemma_run_statement(m, task);
        },
        Task::Expr { .. } => {
            lemma_run_expr(m, task);
        },
        Task::Discard => {},
        Task::Print => {},
        Task::Define { .. } => {
            lemma_run_define(m, task);
        },
        Task::Branch { .. } => {
            lemma_run_branch(m, task);
        },
        Task::Loop { .. } => {
            lemma_run_loop(m, task);
        },
        Task::ForCond { .. } => {
            lemma_run_for_cond(m, task);
        },
        Task::ForLoop { .. } => {
            lemma_run_for_loop(m, task);
        },
        Task::Return => {
            lemma_run_return(m, task);
        },
        Task::Boundary { .. } => {
            lemma_run_boundary(m, task);
        },
        Task::Binary { .. } => {
            lemma_run_binary(m, task);
        },
        Task::Unary { .. } => {
            lemma_run_unary(m, task);
        },
        Task::Logical { .. } => {
            lemma_run_logical(m, task);
        },
        Task::Truth => {
            lemma_run_truth(m, task);
        },
        Task::Call { .. } => {
            lemma_run_call(m, task);
        },
        Task::Get { .. } => {
            lemma_run_get(m, task);
        },
        Task::SetTarget { .. } => {
            lemma_run_set_target(m, task);
        },
        Task::SetField { .. } => {
            lemma_run_set_field(m, task);
        },
        Task::Assign { .. } => {
            lemma_run_assign(m, task);
        },
    }
}

/// Whether the topmost value counts as true.
pub open spec fn truthy_top(m: MachineView) -> bool {
    crate::value::truthy(m.top())
}

/// The dynamic half: a step keeps a sound machine sound.
pub proof fn theorem_step_keeps_sound(m: MachineView, reply: Reply)
    requires
        sound(m),
        roomy(m),
    ensures
        sound(m.step(reply).machine),
{
    let none: Promises = Set::empty();
    match m.pending {
        Some(request) => {
            match answer::<'_>(request, reply) {
                Some(value) => {
                    lemma_give(MachineView { pending: None, ..m }, value, none);
                },
                None => {},
            }
        },
        None => {
            if m.tasks.len() > 0 {
                let rest = MachineView { tasks: m.tasks.drop_last(), ..m };
                lemma_run(rest, m.tasks.last());
            }
        },
    }
}

/// An evaluator that has run nothing is sound.
pub proof fn theorem_initial_is_sound()
    ensures
        sound(crate::interpreter::initial()),
{
    let m = crate::interpreter::initial();
    assert forall|i: int, name: Seq<char>|
        0 <= i < m.heap.frames.len() && m.heap.frames[i].vars.dom().contains(name) implies value_ok(
        m.heap,
        #[trigger] m.heap.frames[i].vars[name],
    ) by {}
}

/// Scheduling a program that is safe at top level keeps the machine sound.
pub proof fn theorem_run_keeps_sound(m: MachineView, list: &Vec<Declaration>)
    requires
        sound(m),
        safe_declarations(declarations_view(list@), 0, Seq::empty()),
    ensures
        sound(m.push_task(Task::Declarations { list, next: 0, environment: m.globals })),
{
    let none: Promises = Set::empty();
    let task = Task::Declarations { list, next: 0, environment: m.globals };
    lemma_declarations_task(m.heap, none, list, 0, m.globals, Seq::empty());
    lemma_below_plain(none, task);
    lemma_push(m, task, none);
}

/// A read with a depth, in an expression that fits, finds its name: the
/// frame at that distance exists and binds the name. The target of an
/// assignment with a depth finds its frame.
pub proof fn lemma_read_finds_name(m: MachineView, expr: &Expr, environment: Environment, names: Names)
    requires
        expr_fits(m.heap, Set::empty(), expr, environment, names),
    ensures
        reads_well(m, expr, environment),
{
    match expr.kind {
        ExprKind::Variable(Some(d)) => {
            lemma_models_reach(m.heap, environment.current, names, d as nat, expr.token.content@);
        },
        ExprKind::This(Some(d)) => {
            lemma_models_reach(m.heap, environment.current, names, d as nat, expr.token.content@);
        },
        ExprKind::Super(_, Some(d)) => {
            lemma_models_reach(m.heap, environment.current, names, d as nat, expr.token.content@);
        },
        ExprKind::Assign(assign) => {
            if let Some(d) = assign.depth {
                lemma_models_reach(m.heap, environment.current, names, d as nat, expr.token.content@);
            }
        },
        _ => {},
    }
}

/// Whether the expression `expr`, evaluated in `environment`, finds what
/// its depth points at: for a variable, `this` or `super` with a depth, the
/// frame at that distance exists and binds the name; for an assignment with
/// a depth, the frame at that distance exists.
pub open spec fn reads_well(m: MachineView, expr: &Expr, environment: Environment) -> bool {
    match expr.kind {
        ExprKind::Variable(Some(d)) => m.heap.lookup_at(
            environment.current,
            d as nat,
            expr.token.content@,
        ) is Some,
        ExprKind::This(Some(d)) => m.heap.lookup_at(
            environment.current,
            d as nat,
            expr.token.content@,
        ) is Some,
        ExprKind::Super(_, Some(d)) => m.heap.lookup_at(
            environment.current,
            d as nat,
            expr.token.content@,
        ) is Some,
        ExprKind::Assign(assign) => assign.depth matches Some(d) ==> m.heap.ancestor(
            environment.current,
            d as nat,
        ) is Some,
        _ => true,
    }
}

/// Resolution is sound: when a sound machine is about to evaluate a use of
/// a name that has a depth, there are at least that many frames around the
/// current one, and the frame at that distance binds the name.
pub proof fn theorem_read_finds_name(m: MachineView)
    requires
        sound(m),
        m.tasks.len() > 0,
        m.tasks.last() is Expr,
    ensures
        reads_well(m, m.tasks.last()->Expr_expr, m.tasks.last()->Expr_environment),
{
    let expr = m.tasks.last()->Expr_expr;
    let environment = m.tasks.last()->Expr_environment;
    let names = choose|names: Names| #[trigger]
        expr_fits(m.heap, Set::empty(), expr, environment, names);
    lemma_read_finds_name(m, expr, environment, names);
}

/// A read of a local variable or of `this` cannot fail: in a sound machine
/// the step that evaluates it leaves the value that the name is bound to,
/// and asks the host for nothing.
pub proof fn theorem_local_read_succeeds(m: MachineView, reply: Reply)
    requires
        sound(m),
        m.pending is None,
        m.tasks.len() > 0,
        m.tasks.last() is Expr,
        m.tasks.last()->Expr_expr.kind matches ExprKind::Variable(Some(_))
            || m.tasks.last()->Expr_expr.kind matches ExprKind::This(Some(_)),
    ensures
        ({
            let expr = m.tasks.last()->Expr_expr;
            let environment = m.tasks.last()->Expr_environment;
            let depth = match expr.kind {
                ExprKind::Variable(depth) => depth,
                ExprKind::This(depth) => depth,
                _ => None,
            };
            let found = m.heap.lookup_at(environment.current, depth->0 as nat, expr.token.content@);
            &&& found is Some
            &&& m.step(reply).action == ActionView::Continue
            &&& m.step(reply).machine.values == m.values.push(found->0)
            &&& m.step(reply).machine.tasks == m.tasks.drop_last()
            &&& m.step(reply).machine.heap == m.heap
        }),
{
    theorem_read_finds_name(m);
}

/// Resolution is sound for superclasses too: when a sound machine is about
/// to declare a class whose superclass has a depth, the frame at that
/// distance exists and binds the name of the superclass.
pub proof fn theorem_superclass_is_found(m: MachineView)
    requires
        sound(m),
        m.tasks.len() > 0,
        m.tasks.last() matches Task::Declarations { list, next, .. } && next < list@.len()
            && list@[next as int] is Class,
    ensures
        ({
            let class = m.tasks.last()->Declarations_list@[m.tasks.last()->Declarations_next as int]->Class_0;
            let environment = m.tasks.last()->Declarations_environment;
            class.superclass matches Some(e) ==> (e.kind matches ExprKind::Variable(Some(d))
                ==> m.heap.lookup_at(environment.current, d as nat, e.token.content@) is Some)
        }),
{
    let list = m.tasks.last()->Declarations_list;
    let next = m.tasks.last()->Declarations_next;
    let environment = m.tasks.last()->Declarations_environment;
    let names = choose|names: Names| #[trigger]
        declarations_fit(m.heap, Set::empty(), list, next, environment, names);
    let views = declarations_view(list@);
    let class = list@[next as int]->Class_0;
    lemma_safe_declarations(views, next as int, names);
    assert(views[next as int] == list@[next as int]@);
    lemma_safe_declaration(list@[next as int]@, names);
    lemma_safe_class(class@, with_name(names, class.name.content@));
    if let Some(e) = class.superclass {
        if let ExprKind::Variable(Some(d)) = e.kind {
            let known = with_name(names, class.name.content@);
            assert(known[known.len() - 1 - d].contains(e.token.content@));
            assert(names[names.len() - 1 - d].contains(e.token.content@));
            lemma_models_reach(m.heap, environment.current, names, d as nat, e.token.content@);
        }
    }
}

/// In a sound machine the heap is in order: every class and object that a
/// value on the stack stands for exists, the superclass of a class is older
/// than the class, and the parent of a frame is older than the frame. So
/// inheritance has no cycle, and no chain of scopes comes back to where it began.
pub proof fn theorem_sound_heap_is_in_order(m: MachineView)
    requires
        sound(m),
    ensures
        crate::sound::in_order(m.heap),
        forall|i: int|
            0 <= i < m.values.len() ==> ((#[trigger] m.values[i]) matches ValueView::Class(class)
                ==> class.index < m.heap.classes.len()),
        forall|i: int|
            0 <= i < m.values.len() ==> ((#[trigger] m.values[i]) matches ValueView::Object(object)
                ==> object.index < m.heap.objects.len()),
{
    assert forall|i: int| 0 <= i < m.values.len() implies ((#[trigger] m.values[i]) matches ValueView::Class(
        class,
    ) ==> class.index < m.heap.classes.len()) by {
        assert(value_ok(m.heap, m.values[i]));
    }
    assert forall|i: int| 0 <= i < m.values.len() implies ((#[trigger] m.values[i]) matches ValueView::Object(
        object,
    ) ==> object.index < m.heap.objects.len()) by {
        assert(value_ok(m.heap, m.values[i]));
    }
}

/// The machine after the steps that the replies of `replies` drive, one each.
pub open spec fn after_steps<'a>(m: MachineView<'a>, replies: Seq<Reply>) -> MachineView<'a>
    decreases replies.len(),
{
    if replies.len() == 0 {
        m
    } else {
        after_steps(m, replies.drop_last()).step(replies.last()).machine
    }
}

/// A sound machine stays sound for as long as it runs, whatever its host
/// replies, while the heap has room.
pub proof fn theorem_sound_for_good(m: MachineView, replies: Seq<Reply>)
    requires
        sound(m),
        forall|n: int| 0 <= n < replies.len() ==> roomy(#[trigger] after_steps(m, replies.take(n))),
    ensures
        sound(after_steps(m, replies)),
    decreases replies.len(),
{
    if replies.len() > 0 {
        let earlier = replies.drop_last();
        assert forall|n: int| 0 <= n < earlier.len() implies roomy(
            #[trigger] after_steps(m, earlier.take(n)),
        ) by {
            assert(earlier.take(n) =~= replies.take(n));
        }
        theorem_sound_for_good(m, earlier);
        assert(replies.take(replies.len() - 1) =~= earlier);
        theorem_step_keeps_sound(after_steps(m, earlier), replies.last());
    }
}

} // verus!
