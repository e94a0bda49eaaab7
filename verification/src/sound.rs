//! What the evaluator keeps true while it runs a resolved program.
//!
//! An environment `models` a stack of names if its frames, from the
//! innermost out, bind the names of the scopes, from the innermost out. The
//! machine is `sound` if every piece of code that it is about to run is
//! safe in some names that its environment models, and every function that
//! the program can reach is safe in names that its closure models.

use vstd::prelude::*;

use crate::ast::{declarations_view, Expr, Statement};
use crate::environment::{Environment, HeapView};
use crate::safety::{
    safe_declarations, safe_expr, safe_function, safe_option_expr, safe_statement, Names,
};
use crate::semantics::{MachineView, Task};
use crate::theorems::extends;
use crate::value::{Function, UserDefined, ValueView};

verus! {

/// Bindings that tasks on the stack will make before the tasks below them
/// run: a frame and a name each.
pub type Promises = Set<(usize, Seq<char>)>;

/// Whether the frame `frame` binds `name`, or is promised to.
pub open spec fn bound(heap: HeapView, promised: Promises, frame: usize, name: Seq<char>) -> bool {
    (frame < heap.frames.len() && heap.frames[frame as int].vars.dom().contains(name))
        || promised.contains((frame, name))
}

/// Whether the frames from `frame` out bind the names of `names` from the
/// innermost out: one frame to each scope.
pub open spec fn models(heap: HeapView, promised: Promises, frame: usize, names: Names) -> bool
    decreases names.len(),
{
    names.len() == 0 || (frame < heap.frames.len() && (forall|name: Seq<char>|
        names.last().contains(name) ==> #[trigger] bound(heap, promised, frame, name)) && (names.len()
        == 1 || (heap.frames[frame as int].parent is Some && models(
        heap,
        promised,
        heap.frames[frame as int].parent->0,
        names.drop_last(),
    ))))
}

/// Whether `function` is safe in `names` and its closure models them.
pub open spec fn closes_over(heap: HeapView, function: UserDefined, names: Names) -> bool {
    function.environment.current < heap.frames.len() && safe_function(function.declaration@, names)
        && models(heap, Set::empty(), function.environment.current, names)
}

/// Whether a function is ready to be called: it is safe in some names that
/// its closure models.
pub open spec fn closure_ok(heap: HeapView, function: UserDefined) -> bool {
    exists|names: Names| #[trigger] closes_over(heap, function, names)
}

/// Whether `method` is safe in `names` with a scope for `this` inside, and
/// its closure models `names`.
pub open spec fn awaits_this(heap: HeapView, method: UserDefined, names: Names) -> bool {
    method.environment.current < heap.frames.len() && safe_function(
        method.declaration@,
        names.push(Set::empty().insert("this"@)),
    ) && models(heap, Set::empty(), method.environment.current, names)
}

/// Whether a method of a class is ready to be bound to an object.
pub open spec fn method_ok(heap: HeapView, method: UserDefined) -> bool {
    exists|names: Names| #[trigger] awaits_this(heap, method, names)
}

/// Whether a value is good: a function of the program is ready to be
/// called, and a class or an object is one that the heap holds.
pub open spec fn value_ok(heap: HeapView, value: ValueView) -> bool {
    match value {
        ValueView::Function(Function::UserDefined(function)) => closure_ok(heap, function),
        ValueView::Class(class) => class.index < heap.classes.len(),
        ValueView::Object(object) => object.index < heap.objects.len(),
        _ => true,
    }
}

/// Whether the heap is in order: the parent of a frame and the superclass
/// of a class are older than the frame and the class, and the class of an
/// object is one that the heap holds. So no chain of parents or of
/// superclasses comes back to where it began.
pub open spec fn in_order(heap: HeapView) -> bool {
    &&& forall|i: int|
        0 <= i < heap.frames.len() ==> ((#[trigger] heap.frames[i]).parent matches Some(parent)
            ==> parent < i)
    &&& forall|i: int|
        0 <= i < heap.classes.len() ==> ((#[trigger] heap.classes[i]).superclass matches Some(
            parent,
        ) ==> parent.index < i)
    &&& forall|i: int|
        0 <= i < heap.objects.len() ==> (#[trigger] heap.objects[i]).class.index
            < heap.classes.len()
}

/// Whether all that the heap holds is good: the values of all variables
/// and fields, and the methods of all classes.
pub open spec fn heap_ok(heap: HeapView) -> bool {
    &&& in_order(heap)
    &&& forall|i: int, name: Seq<char>|
        0 <= i < heap.frames.len() && heap.frames[i].vars.dom().contains(name) ==> value_ok(
            heap,
            #[trigger] heap.frames[i].vars[name],
        )
    &&& forall|i: int, name: Seq<char>|
        0 <= i < heap.objects.len() && heap.objects[i].fields.dom().contains(name) ==> value_ok(
            heap,
            #[trigger] heap.objects[i].fields[name],
        )
    &&& forall|i: int, name: Seq<char>|
        0 <= i < heap.classes.len() && heap.classes[i].methods.dom().contains(name) ==> method_ok(
            heap,
            #[trigger] heap.classes[i].methods[name],
        )
}

/// Whether the environment `environment` exists and models `names`.
pub open spec fn fits(heap: HeapView, promised: Promises, environment: Environment, names: Names) -> bool {
    environment.current < heap.frames.len() && models(heap, promised, environment.current, names)
}

/// Whether the declarations of `list` from `next` on are safe in `names`,
/// which `environment` models.
pub open spec fn declarations_fit(
    heap: HeapView,
    promised: Promises,
    list: &Vec<crate::ast::Declaration>,
    next: usize,
    environment: Environment,
    names: Names,
) -> bool {
    fits(heap, promised, environment, names) && safe_declarations(
        declarations_view(list@),
        next as int,
        names,
    )
}

pub open spec fn statement_fits(
    heap: HeapView,
    promised: Promises,
    statement: &Statement,
    environment: Environment,
    names: Names,
) -> bool {
    fits(heap, promised, environment, names) && safe_statement(statement@, names)
}

pub open spec fn expr_fits(
    heap: HeapView,
    promised: Promises,
    expr: &Expr,
    environment: Environment,
    names: Names,
) -> bool {
    fits(heap, promised, environment, names) && safe_expr(expr@, names)
}

/// Whether the task `task` can be done, given that the bindings of
/// `promised` will have been made by the time it is.
pub open spec fn task_ok(heap: HeapView, promised: Promises, task: Task) -> bool {
    match task {
        Task::Declarations { list, next, environment } => exists|names: Names| #[trigger]
            declarations_fit(heap, promised, list, next, environment, names),
        Task::Statement { statement, environment } => exists|names: Names| #[trigger]
            statement_fits(heap, promised, statement, environment, names),
        Task::Expr { expr, environment } => exists|names: Names| #[trigger]
            expr_fits(heap, promised, expr, environment, names),
        Task::Define { name, environment } => environment.current < heap.frames.len(),
        Task::Branch { statement, environment } => exists|names: Names| #[trigger]
            statement_fits(heap, promised, &statement.true_branch, environment, names) && (
            statement.else_branch matches Some(other) ==> safe_statement(other@, names)),
        Task::Loop { statement, environment } => exists|names: Names| #[trigger]
            statement_fits(heap, promised, &statement.body, environment, names) && safe_expr(
                statement.cond@,
                names,
            ),
        Task::ForCond { statement, environment } => exists|names: Names| #[trigger]
            statement_fits(heap, promised, &statement.body, environment, names) && safe_option_expr(
                crate::ast::option_expr_view(statement.cond),
                names,
            ) && safe_option_expr(crate::ast::option_expr_view(statement.increment), names),
        Task::ForLoop { statement, environment } => exists|names: Names| #[trigger]
            statement_fits(heap, promised, &statement.body, environment, names) && safe_option_expr(
                crate::ast::option_expr_view(statement.cond),
                names,
            ) && safe_option_expr(crate::ast::option_expr_view(statement.increment), names),
        Task::Logical { right, environment, .. } => exists|names: Names| #[trigger]
            expr_fits(heap, promised, right, environment, names),
        Task::Call { call, environment, next, .. } => exists|names: Names| #[trigger]
            fits(heap, promised, environment, names) && forall|i: int|
                next <= i < call.arguments@.len() ==> safe_expr(
                    (#[trigger] call.arguments@[i])@,
                    names,
                ),
        Task::SetTarget { set, environment, .. } => exists|names: Names| #[trigger]
            expr_fits(heap, promised, &set.value, environment, names),
        Task::Assign { depth, environment, .. } => depth matches Some(d) ==> heap.ancestor(
            environment.current,
            d as nat,
        ) is Some,
        _ => true,
    }
}

/// The binding that a task will make before the tasks below it run.
pub open spec fn promise_of(task: Task) -> Promises {
    match task {
        Task::Define { name, environment } => Set::empty().insert(
            (environment.current, name.content@),
        ),
        _ => Set::empty(),
    }
}

/// Whether every task of `tasks` can be done when its turn comes. A task
/// may count on the bindings that the tasks above it promise, up to the
/// boundary of the call that it belongs to.
pub open spec fn stack_ok(heap: HeapView, tasks: Seq<Task>, promised: Promises) -> bool
    decreases tasks.len(),
{
    tasks.len() == 0 || (task_ok(heap, promised, tasks.last()) && stack_ok(
        heap,
        tasks.drop_last(),
        if tasks.last() is Boundary {
            Set::empty()
        } else {
            promised.union(promise_of(tasks.last()))
        },
    ))
}

/// The invariant: the globals exist, the heap and the values on the stack
/// are good, and every task can be done when its turn comes.
pub open spec fn sound(m: MachineView) -> bool {
    &&& m.globals.current < m.heap.frames.len()
    &&& heap_ok(m.heap)
    &&& stack_ok(m.heap, m.tasks, Set::empty())
    &&& forall|i: int| 0 <= i < m.values.len() ==> value_ok(m.heap, #[trigger] m.values[i])
}

/// Whether every promise of `before` is kept in `heap` or still made in `after`.
pub open spec fn keeps(heap: HeapView, before: Promises, after: Promises) -> bool {
    forall|frame: usize, name: Seq<char>| #[trigger]
        before.contains((frame, name)) ==> bound(heap, after, frame, name)
}

/// An environment that models some names models them in a heap that
/// extends its heap, under promises that are kept.
pub proof fn lemma_models_grows(
    old: HeapView,
    new: HeapView,
    before: Promises,
    after: Promises,
    frame: usize,
    names: Names,
)
    requires
        extends(new, old),
        keeps(new, before, after),
        models(old, before, frame, names),
    ensures
        models(new, after, frame, names),
    decreases names.len(),
{
    if names.len() > 0 {
        assert(new.frames[frame as int].parent == old.frames[frame as int].parent);
        assert forall|name: Seq<char>| names.last().contains(name) implies #[trigger] bound(
            new,
            after,
            frame,
            name,
        ) by {
            assert(bound(old, before, frame, name));
            if old.frames[frame as int].vars.dom().contains(name) {
                assert(old.frames[frame as int].vars.dom().subset_of(
                    new.frames[frame as int].vars.dom(),
                ));
            } else {
                assert(before.contains((frame, name)));
            }
        }
        if names.len() > 1 {
            lemma_models_grows(
                old,
                new,
                before,
                after,
                old.frames[frame as int].parent->0,
                names.drop_last(),
            );
        }
    }
}

/// An environment that models some names models fewer names.
pub proof fn lemma_models_fewer(heap: HeapView, promised: Promises, frame: usize, more: Names, fewer: Names)
    requires
        crate::resolved::within(fewer, more),
        models(heap, promised, frame, more),
    ensures
        models(heap, promised, frame, fewer),
    decreases more.len(),
{
    if more.len() > 0 {
        assert(fewer.last().subset_of(more.last()));
        assert forall|name: Seq<char>| fewer.last().contains(name) implies #[trigger] bound(
            heap,
            promised,
            frame,
            name,
        ) by {
            assert(more.last().contains(name));
        }
        if more.len() > 1 {
            assert forall|i: int| 0 <= i < fewer.drop_last().len() implies (
            #[trigger] fewer.drop_last()[i]).subset_of(more.drop_last()[i]) by {
                assert(fewer[i].subset_of(more[i]));
            }
            lemma_models_fewer(
                heap,
                promised,
                heap.frames[frame as int].parent->0,
                more.drop_last(),
                fewer.drop_last(),
            );
        }
    }
}

/// A good value is good in a heap that extends its heap.
pub proof fn lemma_value_ok_grows(old: HeapView, new: HeapView, value: ValueView)
    requires
        extends(new, old),
        value_ok(old, value),
    ensures
        value_ok(new, value),
{
    if let ValueView::Function(Function::UserDefined(function)) = value {
        lemma_closure_ok_grows(old, new, function);
    }
}

/// A function that is ready to be called stays so in a heap that extends its heap.
pub proof fn lemma_closure_ok_grows(old: HeapView, new: HeapView, function: UserDefined)
    requires
        extends(new, old),
        closure_ok(old, function),
    ensures
        closure_ok(new, function),
{
    let names = choose|names: Names| #[trigger] closes_over(old, function, names);
    lemma_models_grows(
        old,
        new,
        Set::empty(),
        Set::empty(),
        function.environment.current,
        names,
    );
    assert(closes_over(new, function, names));
}

/// A method that is ready to be bound stays so in a heap that extends its heap.
pub proof fn lemma_method_ok_grows(old: HeapView, new: HeapView, method: UserDefined)
    requires
        extends(new, old),
        method_ok(old, method),
    ensures
        method_ok(new, method),
{
    let names = choose|names: Names| #[trigger] awaits_this(old, method, names);
    lemma_models_grows(old, new, Set::empty(), Set::empty(), method.environment.current, names);
    assert(awaits_this(new, method, names));
}

/// The frame that lies `depth` parents out stays the same in a heap that extends its heap.
pub proof fn lemma_ancestor_grows(old: HeapView, new: HeapView, from: usize, depth: nat)
    requires
        extends(new, old),
        old.ancestor(from, depth) is Some,
    ensures
        new.ancestor(from, depth) == old.ancestor(from, depth),
    decreases depth,
{
    if depth > 0 {
        assert(new.frames[from as int].parent == old.frames[from as int].parent);
        lemma_ancestor_grows(old, new, old.frames[from as int].parent->0, (depth - 1) as nat);
    }
}

/// A task that can be done can be done in a heap that extends its heap,
/// under promises that are kept.
pub proof fn lemma_task_ok_grows(
    old: HeapView,
    new: HeapView,
    before: Promises,
    after: Promises,
    task: Task,
)
    requires
        extends(new, old),
        keeps(new, before, after),
        task_ok(old, before, task),
    ensures
        task_ok(new, after, task),
{
    match task {
        Task::Declarations { list, next, environment } => {
            let names = choose|names: Names| #[trigger]
                declarations_fit(old, before, list, next, environment, names);
            lemma_models_grows(old, new, before, after, environment.current, names);
            assert(declarations_fit(new, after, list, next, environment, names));
        },
        Task::Statement { statement, environment } => {
            let names = choose|names: Names| #[trigger]
                statement_fits(old, before, statement, environment, names);
            lemma_models_grows(old, new, before, after, environment.current, names);
            assert(statement_fits(new, after, statement, environment, names));
        },
        Task::Expr { expr, environment } => {
            let names = choose|names: Names| #[trigger]
                expr_fits(old, before, expr, environment, names);
            lemma_models_grows(old, new, before, after, environment.current, names);
            assert(expr_fits(new, after, expr, environment, names));
        },
        Task::Branch { statement, environment } => {
            let names = choose|names: Names| #[trigger]
                statement_fits(old, before, &statement.true_branch, environment, names) && (
                statement.else_branch matches Some(other) ==> safe_statement(other@, names));
            lemma_models_grows(old, new, before, after, environment.current, names);
            assert(statement_fits(new, after, &statement.true_branch, environment, names));
        },
        Task::Loop { statement, environment } => {
            let names = choose|names: Names| #[trigger]
                statement_fits(old, before, &statement.body, environment, names) && safe_expr(
                    statement.cond@,
                    names,
                );
            lemma_models_grows(old, new, before, after, environment.current, names);
            assert(statement_fits(new, after, &statement.body, environment, names));
        },
        Task::ForCond { statement, environment } => {
            let names = choose|names: Names| #[trigger]
                statement_fits(old, before, &statement.body, environment, names)
                    && safe_option_expr(crate::ast::option_expr_view(statement.cond), names)
                    && safe_option_expr(crate::ast::option_expr_view(statement.increment), names);
            lemma_models_grows(old, new, before, after, environment.current, names);
            assert(statement_fits(new, after, &statement.body, environment, names));
        },
        Task::ForLoop { statement, environment } => {
            let names = choose|names: Names| #[trigger]
                statement_fits(old, before, &statement.body, environment, names)
                    && safe_option_expr(crate::ast::option_expr_view(statement.cond), names)
                    && safe_option_expr(crate::ast::option_expr_view(statement.increment), names);
            lemma_models_grows(old, new, before, after, environment.current, names);
            assert(statement_fits(new, after, &statement.body, environment, names));
        },
        Task::Logical { right, environment, .. } => {
            let names = choose|names: Names| #[trigger]
                expr_fits(old, before, right, environment, names);
            lemma_models_grows(old, new, before, after, environment.current, names);
            assert(expr_fits(new, after, right, environment, names));
        },
        Task::Call { call, environment, next, .. } => {
            let names = choose|names: Names| #[trigger]
                fits(old, before, environment, names) && forall|i: int|
                    next <= i < call.arguments@.len() ==> safe_expr(
                        (#[trigger] call.arguments@[i])@,
                        names,
                    );
            lemma_models_grows(old, new, before, after, environment.current, names);
            assert(fits(new, after, environment, names));
        },
        Task::SetTarget { set, environment, .. } => {
            let names = choose|names: Names| #[trigger]
                expr_fits(old, before, &set.value, environment, names);
            lemma_models_grows(old, new, before, after, environment.current, names);
            assert(expr_fits(new, after, &set.value, environment, names));
        },
        Task::Assign { depth, environment, .. } => {
            if let Some(d) = depth {
                lemma_ancestor_grows(old, new, environment.current, d as nat);
            }
        },
        _ => {},
    }
}

/// A stack whose tasks can be done stays so in a heap that extends its
/// heap, under promises that are kept.
pub proof fn lemma_stack_ok_grows(
    old: HeapView,
    new: HeapView,
    before: Promises,
    after: Promises,
    tasks: Seq<Task>,
)
    requires
        extends(new, old),
        keeps(new, before, after),
        stack_ok(old, tasks, before),
    ensures
        stack_ok(new, tasks, after),
    decreases tasks.len(),
{
    if tasks.len() > 0 {
        lemma_task_ok_grows(old, new, before, after, tasks.last());
        if tasks.last() is Boundary {
            lemma_stack_ok_grows(old, new, Set::empty(), Set::empty(), tasks.drop_last());
        } else {
            let more = promise_of(tasks.last());
            lemma_stack_ok_grows(old, new, before.union(more), after.union(more), tasks.drop_last());
        }
    }
}

/// All that a good heap holds stays good in a heap that extends it and
/// holds nothing else but good values.
pub proof fn lemma_heap_ok_grows(old: HeapView, new: HeapView)
    requires
        extends(new, old),
        heap_ok(old),
        in_order(new),
        forall|i: int, name: Seq<char>|
            0 <= i < new.frames.len() && new.frames[i].vars.dom().contains(name) ==> (i
                < old.frames.len() && old.frames[i].vars.dom().contains(name) && old.frames[i].vars[name]
                == new.frames[i].vars[name]) || value_ok(new, #[trigger] new.frames[i].vars[name]),
        forall|i: int, name: Seq<char>|
            0 <= i < new.objects.len() && new.objects[i].fields.dom().contains(name) ==> (i
                < old.objects.len() && old.objects[i].fields.dom().contains(name)
                && old.objects[i].fields[name] == new.objects[i].fields[name]) || value_ok(
                new,
                #[trigger] new.objects[i].fields[name],
            ),
        forall|i: int, name: Seq<char>|
            old.classes.len() <= i < new.classes.len() && new.classes[i].methods.dom().contains(name)
                ==> method_ok(new, #[trigger] new.classes[i].methods[name]),
    ensures
        heap_ok(new),
{
    assert forall|i: int, name: Seq<char>|
        0 <= i < new.frames.len() && new.frames[i].vars.dom().contains(name) implies value_ok(
        new,
        #[trigger] new.frames[i].vars[name],
    ) by {
        if i < old.frames.len() && old.frames[i].vars.dom().contains(name) && old.frames[i].vars[name]
            == new.frames[i].vars[name] {
            lemma_value_ok_grows(old, new, old.frames[i].vars[name]);
        }
    }
    assert forall|i: int, name: Seq<char>|
        0 <= i < new.objects.len() && new.objects[i].fields.dom().contains(name) implies value_ok(
        new,
        #[trigger] new.objects[i].fields[name],
    ) by {
        if i < old.objects.len() && old.objects[i].fields.dom().contains(name)
            && old.objects[i].fields[name] == new.objects[i].fields[name] {
            lemma_value_ok_grows(old, new, old.objects[i].fields[name]);
        }
    }
    assert forall|i: int, name: Seq<char>|
        0 <= i < new.classes.len() && new.classes[i].methods.dom().contains(name) implies method_ok(
        new,
        #[trigger] new.classes[i].methods[name],
    ) by {
        if i < old.classes.len() {
            assert(new.classes[i] == old.classes[i]);
            lemma_method_ok_grows(old, new, old.classes[i].methods[name]);
        }
    }
}

} // verus!
