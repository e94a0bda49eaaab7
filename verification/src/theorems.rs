//! What holds of the language, proved from its semantics.

use vstd::prelude::*;

use crate::ast::{Call, Depth, ExprView};
use crate::environment::{property, Environment, FrameView, HeapView};
use crate::host::RequestView;
use crate::scoping::{
    distance, lemma_resolve_expr, lemma_resolve_exprs, resolve_expr, resolve_exprs, resolve_local,
    resolve_use, scope_at, ScopeView,
};
use crate::semantics::{binary_operation, boundary, this_of, MachineView, Operation, Task};
use crate::token::{Token, TokenKind};
use crate::value::{truthy, Function, IClass, Number, Object, UserDefined, ValueView};

verus! {

/// Truthiness: `false` and `nil` are false. Every other value is true:
/// every number, zero included, every string, the empty one included, and
/// every object, function and class.
pub proof fn theorem_truthiness(value: ValueView)
    ensures
        truthy(value) <==> !(value == ValueView::Boolean(false) || value == ValueView::Nil),
        value is Number ==> truthy(value),
        value is StringV ==> truthy(value),
        value is Object ==> truthy(value),
        value is Function ==> truthy(value),
        value is Class ==> truthy(value),
{
}

/// `+` takes two numbers, whose sum the host computes, or two strings,
/// which it joins. Every other pair of operands is an error.
pub proof fn theorem_plus(left: ValueView, right: ValueView)
    ensures
        match (left, right) {
            (ValueView::Number(a), ValueView::Number(b)) => binary_operation(
                TokenKind::Plus,
                left,
                right,
            ) == Operation::Host(RequestView::Binary { operator: TokenKind::Plus, left: a, right: b }),
            (ValueView::StringV(a), ValueView::StringV(b)) => binary_operation(
                TokenKind::Plus,
                left,
                right,
            ) == Operation::Value(ValueView::StringV(a + b)),
            _ => binary_operation(TokenKind::Plus, left, right) is Wrong,
        },
{
}

/// The distance of a name is that of the nearest scope that holds it: the
/// scope at that distance holds the name and no nearer scope does; and a
/// name has no distance exactly if no scope holds it.
pub proof fn theorem_distance_is_nearest(scopes: Seq<ScopeView>, name: Seq<char>)
    ensures
        match distance(scopes, name) {
            Some(d) => d < scopes.len() && scope_at(scopes, d).dom().contains(name) && forall|j: nat|
                j < d ==> !(#[trigger] scope_at(scopes, j)).dom().contains(name),
            None => forall|j: nat|
                j < scopes.len() ==> !(#[trigger] scope_at(scopes, j)).dom().contains(name),
        },
    decreases scopes.len(),
{
    if scopes.len() > 0 && !scopes.last().dom().contains(name) {
        let outer = scopes.drop_last();
        theorem_distance_is_nearest(outer, name);
        match distance(outer, name) {
            Some(d) => {
                assert(scope_at(scopes, d + 1) == scope_at(outer, d));
                assert forall|j: nat| j < d + 1 implies !(#[trigger] scope_at(scopes, j)).dom().contains(
                    name,
                ) by {
                    if j > 0 {
                        assert(scope_at(scopes, j) == scope_at(outer, (j - 1) as nat));
                    }
                }
            },
            None => {
                assert forall|j: nat| j < scopes.len() implies !(#[trigger] scope_at(
                    scopes,
                    j,
                )).dom().contains(name) by {
                    if j > 0 {
                        assert(scope_at(scopes, j) == scope_at(outer, (j - 1) as nat));
                    }
                }
            },
        }
    }
}

/// Whether every use of a name in `e` holds the depth that `scopes` give it.
pub open spec fn depths_agree(e: ExprView, scopes: Seq<ScopeView>) -> bool
    decreases e,
{
    match e {
        ExprView::Assign { name, depth, value } => resolve_local(scopes, name) == Ok::<
            Depth,
            crate::interp_error::ErrorView,
        >(depth) && depths_agree(*value, scopes),
        ExprView::Binary { left, right, .. } => depths_agree(*left, scopes) && depths_agree(
            *right,
            scopes,
        ),
        ExprView::Call { callee, arguments, .. } => depths_agree(*callee, scopes) && forall|i: int|
            0 <= i < arguments.len() ==> depths_agree(#[trigger] arguments[i], scopes),
        ExprView::Get { object, .. } => depths_agree(*object, scopes),
        ExprView::Grouping { inner, .. } => depths_agree(*inner, scopes),
        ExprView::Literal { .. } => true,
        ExprView::Logical { left, right, .. } => depths_agree(*left, scopes) && depths_agree(
            *right,
            scopes,
        ),
        ExprView::SetExpr { object, value, .. } => depths_agree(*object, scopes) && depths_agree(
            *value,
            scopes,
        ),
        ExprView::This { keyword, depth } => resolve_use(scopes, keyword) == Ok::<
            Depth,
            crate::interp_error::ErrorView,
        >(depth),
        ExprView::Unary { operand, .. } => depths_agree(*operand, scopes),
        ExprView::Variable { name, depth } => resolve_use(scopes, name) == Ok::<
            Depth,
            crate::interp_error::ErrorView,
        >(depth),
        ExprView::Super { keyword, depth, .. } => resolve_use(scopes, keyword) == Ok::<
            Depth,
            crate::interp_error::ErrorView,
        >(depth),
    }
}

/// After resolution, every use of a name in an expression holds the
/// distance to the nearest enclosing scope that holds the name, and no
/// depth if none does.
pub proof fn theorem_resolved_depths(e: ExprView, scopes: Seq<ScopeView>)
    ensures
        resolve_expr(e, scopes).error is None ==> depths_agree(resolve_expr(e, scopes).node, scopes),
    decreases e, 0int,
{
    lemma_resolve_expr(e, scopes);
    match e {
        ExprView::Assign { name, depth, value } => {
            theorem_resolved_depths(*value, scopes);
        },
        ExprView::Binary { left, right, .. } => {
            theorem_resolved_depths(*left, scopes);
            theorem_resolved_depths(*right, scopes);
        },
        ExprView::Call { callee, arguments, .. } => {
            theorem_resolved_depths(*callee, scopes);
            lemma_resolved_list(arguments, 0, scopes, Seq::empty());
        },
        ExprView::Get { object, .. } => {
            theorem_resolved_depths(*object, scopes);
        },
        ExprView::Grouping { inner, .. } => {
            theorem_resolved_depths(*inner, scopes);
        },
        ExprView::Literal { .. } => {},
        ExprView::Logical { left, right, .. } => {
            theorem_resolved_depths(*left, scopes);
            theorem_resolved_depths(*right, scopes);
        },
        ExprView::SetExpr { object, value, .. } => {
            theorem_resolved_depths(*object, scopes);
            theorem_resolved_depths(*value, scopes);
        },
        ExprView::This { .. } => {},
        ExprView::Unary { operand, .. } => {
            theorem_resolved_depths(*operand, scopes);
        },
        ExprView::Variable { .. } => {},
        ExprView::Super { .. } => {},
    }
}

/// The same, for the arguments of a call.
pub proof fn lemma_resolved_list(
    list: Seq<ExprView>,
    from: int,
    scopes: Seq<ScopeView>,
    done: Seq<ExprView>,
)
    requires
        0 <= from,
        forall|i: int| 0 <= i < done.len() ==> depths_agree(#[trigger] done[i], scopes),
    ensures
        resolve_exprs(list, from, scopes, done).error is None ==> forall|i: int|
            0 <= i < resolve_exprs(list, from, scopes, done).node.len() ==> depths_agree(
                #[trigger] resolve_exprs(list, from, scopes, done).node[i],
                scopes,
            ),
    decreases list, list.len() - from,
{
    lemma_resolve_exprs(list, from, scopes, done);
    if from < list.len() {
        theorem_resolved_depths(list[from], scopes);
        let one = resolve_expr(list[from], scopes);
        if one.error is None {
            lemma_resolved_list(list, from + 1, scopes, done.push(one.node));
        }
    }
}

/// Lexical scoping: the body of a called function runs in a new frame whose
/// parent is the environment that the function closed over when it was
/// made. The environment of the caller plays no part.
pub proof fn theorem_call_runs_in_closure(
    m: MachineView,
    function: UserDefined,
    arguments: Seq<ValueView>,
    call: &Call,
    paren: &Token,
)
    requires
        arguments.len() == function.declaration.params@.len(),
        m.heap.frames.len() < usize::MAX,
    ensures
        ({
            let after = m.call_function(function, arguments, call, paren).machine;
            let frame = m.heap.frames.len() as usize;
            &&& after.tasks.len() == m.tasks.len() + 2
            &&& after.tasks.last() == (Task::Declarations {
                list: &function.declaration.body,
                next: 0,
                environment: Environment { current: frame },
            })
            &&& after.heap.ancestor(frame, 1) == if function.environment.current
                < after.heap.frames.len() {
                Some(function.environment.current)
            } else {
                None
            }
        }),
{
    let frame = m.heap.frames.len() as usize;
    let opened = m.heap.with_frame(
        FrameView { parent: Some(function.environment.current), vars: Map::empty() },
    );
    lemma_bind_all_shape(opened, frame, arguments, function.declaration.params@, 0);
    let after = m.call_function(function, arguments, call, paren).machine;
    assert(after.heap.frames[frame as int].parent == Some(function.environment.current));
    reveal_with_fuel(HeapView::ancestor, 2);
}

/// Binding parameters changes no parent and adds no frame.
pub proof fn lemma_bind_all_shape(
    heap: HeapView,
    frame: usize,
    arguments: Seq<ValueView>,
    parameters: Seq<Token>,
    from: int,
)
    ensures
        heap.bind_all(frame, arguments, parameters, from).frames.len() == heap.frames.len(),
        forall|i: int|
            0 <= i < heap.frames.len() ==> (#[trigger] heap.bind_all(
                frame,
                arguments,
                parameters,
                from,
            ).frames[i]).parent == heap.frames[i].parent,
    decreases arguments.len() - from,
{
    if 0 <= from < arguments.len() && from < parameters.len() {
        lemma_bind_all_shape(
            heap.bind(frame, parameters[from].content@, arguments[from]),
            frame,
            arguments,
            parameters,
            from + 1,
        );
    }
}

/// Method binding: reading a method off an object gives the method closed
/// over a new frame that binds `this` to that object. The frame belongs to
/// the value, so the method keeps its `this` wherever the value goes.
pub proof fn theorem_method_keeps_this(heap: HeapView, object: usize, name: Token)
    requires
        object < heap.objects.len(),
        !heap.objects[object as int].fields.dom().contains(name.content@),
        heap.find_method(heap.objects[object as int].class.index, name.content@) is Some,
        heap.frames.len() < usize::MAX,
    ensures
        ({
            let method = heap.find_method(heap.objects[object as int].class.index, name.content@)->0;
            let read = property(heap, object, name);
            &&& read.1 matches Ok(ValueView::Function(Function::UserDefined(bound)))
            &&& bound.declaration == method.declaration
            &&& bound.is_initializer == method.is_initializer
            &&& read.0.lookup(bound.environment.current, "this"@) == Some(
                ValueView::Object(Object { index: object }),
            )
            &&& read.0.frames[bound.environment.current as int].parent == Some(
                method.environment.current,
            )
        }),
{
}

/// `super.m` gives the method `m` of the superclass, closed over a new
/// frame that binds `this` to the instance that the running method belongs to.
pub proof fn theorem_super_keeps_this(
    m: MachineView,
    depth: u32,
    environment: Environment,
    method: Token,
    token: Token,
    superclass: IClass,
    object: Object,
)
    requires
        depth > 0,
        m.heap.lookup_at(environment.current, depth as nat, token.content@) == Some(
            ValueView::Class(superclass),
        ),
        m.heap.lookup_at(environment.current, (depth - 1) as nat, "this"@) == Some(
            ValueView::Object(object),
        ),
        m.heap.find_method(superclass.index, method.content@) is Some,
        m.heap.frames.len() < usize::MAX,
    ensures
        ({
            let found = m.heap.find_method(superclass.index, method.content@)->0;
            let after = m.super_method(Some(depth), environment, method, token).machine;
            &&& after.values.len() == m.values.len() + 1
            &&& after.values.last() matches ValueView::Function(Function::UserDefined(bound))
            &&& bound.declaration == found.declaration
            &&& after.heap.lookup(bound.environment.current, "this"@) == Some(ValueView::Object(object))
        }),
{
}

/// A call of an initializer gives `this`, whatever its body returns, and
/// also if the body ends without a `return`.
pub proof fn theorem_initializer_gives_this(m: MachineView, value: ValueView)
    requires
        boundary(m.tasks) is Some,
    ensures
        ({
            let i = boundary(m.tasks)->0;
            let function = m.tasks[i]->Boundary_function;
            let base = m.tasks[i]->Boundary_base;
            let returned = m.unwind(value).machine;
            let ended = m.run(Task::Boundary { function, base }).machine;
            &&& 0 <= i < m.tasks.len()
            &&& m.tasks[i] is Boundary
            &&& returned.values.len() > 0
            &&& ended.values.len() > 0
            &&& function.is_initializer ==> returned.values.last() == this_of(m.heap, function)
                && ended.values.last() == this_of(m.heap, function)
            &&& !function.is_initializer ==> returned.values.last() == value && ended.values.last()
                == ValueView::Nil
        }),
{
    lemma_boundary(m.tasks);
}

/// What `boundary` finds is a boundary, and no task above it is one.
pub proof fn lemma_boundary(tasks: Seq<Task>)
    ensures
        match boundary(tasks) {
            Some(i) => 0 <= i < tasks.len() && tasks[i] is Boundary && forall|j: int|
                i < j < tasks.len() ==> !(#[trigger] tasks[j] is Boundary),
            None => forall|j: int| 0 <= j < tasks.len() ==> !(#[trigger] tasks[j] is Boundary),
        },
    decreases tasks.len(),
{
    if tasks.len() > 0 && !(tasks.last() is Boundary) {
        let rest = tasks.drop_last();
        lemma_boundary(rest);
        assert forall|j: int| 0 <= j < rest.len() implies #[trigger] tasks[j] == rest[j] by {}
    }
}

/// Calling a class that has an `init` runs it as an initializer on the new
/// object: the call that is scheduled gives the object.
pub proof fn theorem_construction_gives_object(
    m: MachineView,
    class: IClass,
    arguments: Seq<ValueView>,
    call: &Call,
    paren: &Token,
)
    requires
        class.index < m.heap.classes.len(),
        m.heap.classes[class.index as int].methods.dom().contains("init"@),
        m.heap.classes[class.index as int].methods["init"@].is_initializer,
        arguments.len() == m.heap.classes[class.index as int].methods["init"@].declaration.params@.len(),
        m.heap.frames.len() + 1 < usize::MAX,
        m.heap.objects.len() < usize::MAX,
    ensures
        ({
            let after = m.construct(class, arguments, call, paren).machine;
            let made = Object { index: m.heap.objects.len() as usize };
            &&& after.heap.objects.len() == m.heap.objects.len() + 1
            &&& after.heap.objects[made.index as int].class == class
            &&& after.tasks.len() == m.tasks.len() + 2
            &&& after.tasks[m.tasks.len() as int] matches Task::Boundary { function, .. }
            &&& function.is_initializer
            &&& this_of(after.heap, function) == ValueView::Object(made)
        }),
{
    let init = m.heap.classes[class.index as int].methods["init"@];
    let made = Object { index: m.heap.objects.len() as usize };
    let this_frame = m.heap.frames.len() as usize;
    let bound = UserDefined {
        declaration: init.declaration,
        environment: Environment { current: this_frame },
        is_initializer: init.is_initializer,
    };
    let heap1 = m.heap.with_object(crate::value::ObjectView { class, fields: Map::empty() }).with_frame(
        FrameView {
            parent: Some(init.environment.current),
            vars: Map::empty().insert("this"@, ValueView::Object(made)),
        },
    );
    let frame = heap1.frames.len() as usize;
    let opened = heap1.with_frame(
        FrameView { parent: Some(bound.environment.current), vars: Map::empty() },
    );
    lemma_bind_all_keeps_other(opened, frame, arguments, bound.declaration.params@, 0, this_frame);
}

/// Binding parameters in one frame changes no other frame.
pub proof fn lemma_bind_all_keeps_other(
    heap: HeapView,
    frame: usize,
    arguments: Seq<ValueView>,
    parameters: Seq<Token>,
    from: int,
    other: usize,
)
    requires
        other != frame,
        other < heap.frames.len(),
    ensures
        heap.bind_all(frame, arguments, parameters, from).frames.len() == heap.frames.len(),
        heap.bind_all(frame, arguments, parameters, from).frames[other as int] == heap.frames[other as int],
        heap.bind_all(frame, arguments, parameters, from).objects == heap.objects,
        heap.bind_all(frame, arguments, parameters, from).classes == heap.classes,
    decreases arguments.len() - from,
{
    if 0 <= from < arguments.len() && from < parameters.len() {
        lemma_bind_all_keeps_other(
            heap.bind(frame, parameters[from].content@, arguments[from]),
            frame,
            arguments,
            parameters,
            from + 1,
            other,
        );
    }
}

/// A class that parses has a variable for its superclass, if it has one.
pub proof fn theorem_superclass_is_variable(t: Seq<Token>, pos: int)
    ensures
        crate::grammar::parse_class(t, pos) matches crate::grammar::Parsed::Value {
            value: crate::ast::DeclarationView::Class(class),
            ..
        } ==> (class.superclass matches Some(e) ==> e is Variable),
{
    crate::grammar::lemma_parse_class(t, pos);
}

/// The methods of a class are initializers exactly if they are named `init`.
pub proof fn theorem_init_is_initializer(
    list: &Vec<crate::ast::FunDeclarationStruct>,
    environment: Environment,
    count: int,
    name: Seq<char>,
)
    requires
        crate::semantics::method_table(list, environment, count).dom().contains(name),
    ensures
        crate::semantics::method_table(list, environment, count)[name].is_initializer == (name
            == "init"@),
        crate::semantics::method_table(list, environment, count)[name].declaration.name.content@
            == name,
    decreases count,
{
    if 0 < count <= list@.len() {
        if list@[count - 1].name.content@ != name {
            theorem_init_is_initializer(list, environment, count - 1, name);
        }
    }
}

/// Whether the heap `new` holds all that the heap `old` holds: every
/// frame, class and object of `old` is still there, frames have kept their
/// parents and every name that they bound, classes are unchanged, and
/// objects have kept their class and every field that they had.
pub open spec fn extends(new: HeapView, old: HeapView) -> bool {
    &&& old.frames.len() <= new.frames.len()
    &&& old.classes.len() <= new.classes.len()
    &&& old.objects.len() <= new.objects.len()
    &&& forall|i: int|
        0 <= i < old.frames.len() ==> (#[trigger] new.frames[i]).parent == old.frames[i].parent
            && old.frames[i].vars.dom().subset_of(new.frames[i].vars.dom())
    &&& forall|i: int| 0 <= i < old.classes.len() ==> #[trigger] new.classes[i] == old.classes[i]
    &&& forall|i: int|
        0 <= i < old.objects.len() ==> (#[trigger] new.objects[i]).class == old.objects[i].class
            && old.objects[i].fields.dom().subset_of(new.objects[i].fields.dom())
}

/// A heap that extends one that extends another extends that other.
pub proof fn lemma_extends_twice(c: HeapView, b: HeapView, a: HeapView)
    requires
        extends(c, b),
        extends(b, a),
    ensures
        extends(c, a),
{
    assert forall|i: int| 0 <= i < a.frames.len() implies (#[trigger] c.frames[i]).parent
        == a.frames[i].parent && a.frames[i].vars.dom().subset_of(c.frames[i].vars.dom()) by {
        assert(b.frames[i].parent == a.frames[i].parent);
    }
    assert forall|i: int| 0 <= i < a.classes.len() implies #[trigger] c.classes[i]
        == a.classes[i] by {
        assert(b.classes[i] == a.classes[i]);
    }
    assert forall|i: int| 0 <= i < a.objects.len() implies (#[trigger] c.objects[i]).class
        == a.objects[i].class && a.objects[i].fields.dom().subset_of(c.objects[i].fields.dom()) by {
        assert(b.objects[i].class == a.objects[i].class);
    }
}

/// Binding parameters extends the heap.
pub proof fn lemma_bind_all_extends(
    heap: HeapView,
    frame: usize,
    arguments: Seq<ValueView>,
    parameters: Seq<Token>,
    from: int,
)
    ensures
        extends(heap.bind_all(frame, arguments, parameters, from), heap),
    decreases arguments.len() - from,
{
    if 0 <= from < arguments.len() && from < parameters.len() {
        let bound = heap.bind(frame, parameters[from].content@, arguments[from]);
        lemma_bind_all_extends(bound, frame, arguments, parameters, from + 1);
        lemma_extends_twice(bound.bind_all(frame, arguments, parameters, from + 1), bound, heap);
    }
}

/// A call extends the heap.
pub proof fn lemma_call_extends(
    m: MachineView,
    function: UserDefined,
    arguments: Seq<ValueView>,
    call: &Call,
    paren: &Token,
)
    ensures
        extends(m.call_function(function, arguments, call, paren).machine.heap, m.heap),
{
    let frame = m.heap.frames.len() as usize;
    let opened = m.heap.with_frame(
        FrameView { parent: Some(function.environment.current), vars: Map::empty() },
    );
    lemma_bind_all_extends(opened, frame, arguments, function.declaration.params@, 0);
    if arguments.len() == function.declaration.params@.len() {
        lemma_extends_twice(
            opened.bind_all(frame, arguments, function.declaration.params@, 0),
            opened,
            m.heap,
        );
    }
}

/// Making a call, of a function or of a class, extends the heap.
pub proof fn lemma_finish_call_extends(m: MachineView, call: &Call, paren: &Token)
    ensures
        extends(m.finish_call(call, paren).machine.heap, m.heap),
{
    let count = call.arguments@.len();
    if m.values.len() > count {
        let callee = m.values[m.values.len() - count - 1];
        let arguments = m.values.subrange(m.values.len() - count, m.values.len() as int);
        let rest = MachineView { values: m.values.take(m.values.len() - count - 1), ..m };
        match callee {
            ValueView::Function(Function::UserDefined(function)) => {
                lemma_call_extends(rest, function, arguments, call, paren);
            },
            ValueView::Class(class) => {
                if class.index < m.heap.classes.len() && m.heap.classes[class.index as int].methods.dom().contains(
                    "init"@,
                ) {
                    let init = m.heap.classes[class.index as int].methods["init"@];
                    let made = m.heap.with_object(
                        crate::value::ObjectView { class, fields: Map::empty() },
                    ).with_frame(
                        FrameView {
                            parent: Some(init.environment.current),
                            vars: Map::empty().insert(
                                "this"@,
                                ValueView::Object(Object { index: m.heap.objects.len() as usize }),
                            ),
                        },
                    );
                    let bound = UserDefined {
                        declaration: init.declaration,
                        environment: Environment { current: m.heap.frames.len() as usize },
                        is_initializer: init.is_initializer,
                    };
                    lemma_call_extends(rest.with_heap(made), bound, arguments, call, paren);
                    lemma_extends_twice(
                        rest.with_heap(made).call_function(bound, arguments, call, paren).machine.heap,
                        made,
                        m.heap,
                    );
                }
            },
            _ => {},
        }
    }
}

/// Nothing is ever taken from the heap: after a step every frame, class
/// and object is still there, and every name that a frame bound is still
/// bound in it. So a closure finds the variables of the scope that made it
/// also after that scope has been left.
pub proof fn theorem_step_keeps_heap(m: MachineView, reply: crate::host::Reply)
    ensures
        extends(m.step(reply).machine.heap, m.heap),
{
    if m.pending is None && m.tasks.len() > 0 {
        let rest = MachineView { tasks: m.tasks.drop_last(), ..m };
        lemma_run_extends(rest, m.tasks.last());
    }
}

/// Doing a task extends the heap.
pub proof fn lemma_run_extends(m: MachineView, task: Task)
    ensures
        extends(m.run(task).machine.heap, m.heap),
{
    match task {
        Task::Declarations { list, next, environment } => {
            if next < list@.len() {
                let pushed = m.push_task(
                    Task::Declarations { list, next: (next + 1) as usize, environment },
                );
                lemma_declaration_extends(pushed, &list@[next as int], environment);
            }
        },
        Task::Statement { statement, environment } => {
            lemma_statement_extends(m, statement, environment);
        },
        Task::Expr { expr, environment } => {
            lemma_expression_extends(m, expr, environment);
        },
        Task::Call { call, paren, environment, next } => {
            if next >= call.arguments@.len() {
                lemma_finish_call_extends(m, call, paren);
            }
        },
        Task::Get { name } => {},
        _ => {},
    }
}

/// Running a declaration extends the heap.
pub proof fn lemma_declaration_extends(
    m: MachineView,
    declaration: &crate::ast::Declaration,
    environment: Environment,
)
    ensures
        extends(m.declaration(declaration, environment).machine.heap, m.heap),
{
    match *declaration {
        crate::ast::Declaration::Statement(s) => {
            lemma_statement_extends(m, &declaration->Statement_0, environment);
        },
        _ => {},
    }
}

/// Running a statement extends the heap.
pub proof fn lemma_statement_extends(
    m: MachineView,
    statement: &crate::ast::Statement,
    environment: Environment,
)
    ensures
        extends(m.statement(statement, environment).machine.heap, m.heap),
{
}

/// Evaluating an expression extends the heap.
pub proof fn lemma_expression_extends(m: MachineView, expr: &crate::ast::Expr, environment: Environment)
    ensures
        extends(m.expression(expr, environment).machine.heap, m.heap),
{
}

} // verus!
