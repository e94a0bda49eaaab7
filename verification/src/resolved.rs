//! Resolution is sound: in a program that the resolver has accepted, every
//! use of a local name finds, at run time, the frame that its depth says,
//! and the name bound in it.
//!
//! The proof has two halves. The static half shows that a resolved tree is
//! `safe`: every depth in it points at a scope that holds the name. The
//! dynamic half shows that the evaluator keeps an invariant, `sound`, by
//! which the frames that an environment reaches bind the names of the
//! scopes that the code running in it was resolved in.

use vstd::prelude::*;

use crate::ast::{
    ClassView, DeclarationView, ExprView, FunctionView, InitializerView, StatementView,
    VarDeclarationView,
};
use crate::scoping::{
    declare, define, define_all, lemma_resolve_class, lemma_resolve_declaration,
    lemma_resolve_declarations, lemma_resolve_expr, lemma_resolve_exprs, lemma_resolve_function,
    lemma_resolve_methods, lemma_resolve_option_expr, lemma_resolve_statement,
    lemma_resolve_var_declaration, record, resolve_class, resolve_declaration, resolve_declarations,
    resolve_expr, resolve_exprs, resolve_function, resolve_initializer, resolve_local,
    resolve_methods, resolve_option_expr, resolve_statement, resolve_superclass, resolve_use,
    resolve_var_declaration, scope_at, super_scope, this_scope, ScopeView, Status,
};
use crate::theorems::theorem_distance_is_nearest;
use crate::safety::{
    after, lemma_safe_class, lemma_safe_declaration, lemma_safe_declarations, lemma_safe_function,
    lemma_safe_methods, lemma_safe_statement, safe_class, safe_declaration, safe_declarations,
    safe_expr, safe_function, safe_methods, safe_option_expr, safe_statement, safe_use,
    safe_var_declaration, with_name, with_params, without, Names,
};
use crate::token::Token;

verus! {

/// The names that a stack of scopes holds, whatever their status.
pub open spec fn names_of(scopes: Seq<ScopeView>) -> Names {
    Seq::new(scopes.len(), |i: int| scopes[i].dom())
}

/// The names of a scope that are defined.
pub open spec fn defined_of(scope: ScopeView) -> Set<Seq<char>> {
    Set::new(|name: Seq<char>| scope.dom().contains(name) && scope[name] == Status::Defined)
}

/// The names that an expression may read: all names of the enclosing
/// scopes, and of the innermost those that are defined.
pub open spec fn readable(scopes: Seq<ScopeView>) -> Names {
    if scopes.len() == 0 {
        names_of(scopes)
    } else {
        names_of(scopes).update(scopes.len() - 1, defined_of(scopes.last()))
    }
}

/// Whether `a` holds, scope by scope, no name that `b` does not hold.
pub open spec fn within(a: Names, b: Names) -> bool {
    a.len() == b.len() && forall|i: int| 0 <= i < a.len() ==> (#[trigger] a[i]).subset_of(b[i])
}

/// An expression that is safe in some names is safe in more names.
pub proof fn lemma_safe_expr_grows(e: ExprView, a: Names, b: Names)
    requires
        within(a, b),
        safe_expr(e, a),
    ensures
        safe_expr(e, b),
    decreases e,
{
    match e {
        ExprView::Assign { value, .. } => {
            lemma_safe_expr_grows(*value, a, b);
        },
        ExprView::Binary { left, right, .. } => {
            lemma_safe_expr_grows(*left, a, b);
            lemma_safe_expr_grows(*right, a, b);
        },
        ExprView::Call { callee, arguments, .. } => {
            lemma_safe_expr_grows(*callee, a, b);
            assert forall|i: int| 0 <= i < arguments.len() implies safe_expr(
                #[trigger] arguments[i],
                b,
            ) by {
                lemma_safe_expr_grows(arguments[i], a, b);
            }
        },
        ExprView::Get { object, .. } => {
            lemma_safe_expr_grows(*object, a, b);
        },
        ExprView::Grouping { inner, .. } => {
            lemma_safe_expr_grows(*inner, a, b);
        },
        ExprView::Literal { .. } => {},
        ExprView::Logical { left, right, .. } => {
            lemma_safe_expr_grows(*left, a, b);
            lemma_safe_expr_grows(*right, a, b);
        },
        ExprView::SetExpr { object, value, .. } => {
            lemma_safe_expr_grows(*object, a, b);
            lemma_safe_expr_grows(*value, a, b);
        },
        ExprView::This { keyword, depth } => {
            if let Some(d) = depth {
                assert(a[a.len() - 1 - d].subset_of(b[a.len() - 1 - d]));
            }
        },
        ExprView::Unary { operand, .. } => {
            lemma_safe_expr_grows(*operand, a, b);
        },
        ExprView::Variable { name, depth } => {
            if let Some(d) = depth {
                assert(a[a.len() - 1 - d].subset_of(b[a.len() - 1 - d]));
            }
        },
        ExprView::Super { keyword, depth, .. } => {
            if let Some(d) = depth {
                assert(a[a.len() - 1 - d].subset_of(b[a.len() - 1 - d]));
            }
        },
    }
}

/// A read that resolves is safe among the readable names.
pub proof fn lemma_resolved_use_is_safe(scopes: Seq<ScopeView>, token: Token)
    ensures
        resolve_use(scopes, token) matches Ok(depth) ==> safe_use(
            token.content@,
            depth,
            readable(scopes),
        ),
        resolve_local(scopes, token) matches Ok(Some(d)) ==> d < scopes.len(),
{
    theorem_distance_is_nearest(scopes, token.content@);
    if let Ok(Some(d)) = resolve_use(scopes, token) {
        assert(scope_at(scopes, d as nat).dom().contains(token.content@));
        if d == 0 {
            assert(defined_of(scopes.last()).contains(token.content@));
        }
    }
}

/// A resolved expression is safe among the readable names.
pub proof fn lemma_resolved_expr_is_safe(e: ExprView, scopes: Seq<ScopeView>)
    ensures
        resolve_expr(e, scopes).error is None ==> safe_expr(
            resolve_expr(e, scopes).node,
            readable(scopes),
        ),
    decreases e, 0int,
{
    lemma_resolve_expr(e, scopes);
    match e {
        ExprView::Assign { name, value, .. } => {
            lemma_resolved_expr_is_safe(*value, scopes);
            lemma_resolved_use_is_safe(scopes, name);
        },
        ExprView::Binary { left, right, .. } => {
            lemma_resolved_expr_is_safe(*left, scopes);
            lemma_resolved_expr_is_safe(*right, scopes);
        },
        ExprView::Call { callee, arguments, .. } => {
            lemma_resolved_expr_is_safe(*callee, scopes);
            lemma_resolved_exprs_are_safe(arguments, 0, scopes, Seq::empty());
        },
        ExprView::Get { object, .. } => {
            lemma_resolved_expr_is_safe(*object, scopes);
        },
        ExprView::Grouping { inner, .. } => {
            lemma_resolved_expr_is_safe(*inner, scopes);
        },
        ExprView::Literal { .. } => {},
        ExprView::Logical { left, right, .. } => {
            lemma_resolved_expr_is_safe(*left, scopes);
            lemma_resolved_expr_is_safe(*right, scopes);
        },
        ExprView::SetExpr { object, value, .. } => {
            lemma_resolved_expr_is_safe(*object, scopes);
            lemma_resolved_expr_is_safe(*value, scopes);
        },
        ExprView::This { keyword, .. } => {
            lemma_resolved_use_is_safe(scopes, keyword);
        },
        ExprView::Unary { operand, .. } => {
            lemma_resolved_expr_is_safe(*operand, scopes);
        },
        ExprView::Variable { name, .. } => {
            lemma_resolved_use_is_safe(scopes, name);
        },
        ExprView::Super { keyword, .. } => {
            lemma_resolved_use_is_safe(scopes, keyword);
        },
    }
}

/// The same, for the arguments of a call.
pub proof fn lemma_resolved_exprs_are_safe(
    list: Seq<ExprView>,
    from: int,
    scopes: Seq<ScopeView>,
    done: Seq<ExprView>,
)
    requires
        0 <= from,
        forall|i: int| 0 <= i < done.len() ==> safe_expr(#[trigger] done[i], readable(scopes)),
    ensures
        resolve_exprs(list, from, scopes, done).error is None ==> forall|i: int|
            0 <= i < resolve_exprs(list, from, scopes, done).node.len() ==> safe_expr(
                #[trigger] resolve_exprs(list, from, scopes, done).node[i],
                readable(scopes),
            ),
    decreases list, list.len() - from,
{
    lemma_resolve_exprs(list, from, scopes, done);
    if from < list.len() {
        lemma_resolved_expr_is_safe(list[from], scopes);
        let one = resolve_expr(list[from], scopes);
        if one.error is None {
            lemma_resolved_exprs_are_safe(list, from + 1, scopes, done.push(one.node));
        }
    }
}

/// What is readable is among the names.
pub proof fn lemma_readable_within_names(scopes: Seq<ScopeView>)
    ensures
        within(readable(scopes), names_of(scopes)),
{
}

/// While a variable is being initialized, what is readable leaves it out
/// of the innermost scope.
pub proof fn lemma_readable_while_declared(scopes: Seq<ScopeView>, name: Seq<char>)
    ensures
        within(readable(declare(scopes, name)), without(names_of(scopes), name)),
{
    if scopes.len() > 0 {
        let a = readable(declare(scopes, name));
        let b = without(names_of(scopes), name);
        assert forall|i: int| 0 <= i < a.len() implies (#[trigger] a[i]).subset_of(b[i]) by {}
    }
}

/// Adding a name twice is adding it once.
pub proof fn lemma_with_name_twice(names: Names, name: Seq<char>)
    ensures
        with_name(with_name(names, name), name) == with_name(names, name),
{
    if names.len() > 0 {
        assert(names.last().insert(name).insert(name) =~= names.last().insert(name));
        assert(with_name(with_name(names, name), name) =~= with_name(names, name));
    }
}

/// Recording a name adds it to the names.
pub proof fn lemma_names_of_record(scopes: Seq<ScopeView>, name: Seq<char>, status: Status)
    ensures
        names_of(record(scopes, name, status)) == with_name(names_of(scopes), name),
{
    assert(names_of(record(scopes, name, status)) =~= with_name(names_of(scopes), name));
}

/// Opening a scope opens it among the names.
pub proof fn lemma_names_of_push(scopes: Seq<ScopeView>, scope: ScopeView)
    ensures
        names_of(scopes.push(scope)) == names_of(scopes).push(scope.dom()),
{
    assert(names_of(scopes.push(scope)) =~= names_of(scopes).push(scope.dom()));
}

/// Defining parameters adds them to the names.
pub proof fn lemma_names_of_define_all(scopes: Seq<ScopeView>, params: Seq<Token>, from: int)
    ensures
        names_of(define_all(scopes, params, from)) == with_params(names_of(scopes), params, from),
    decreases params.len() - from,
{
    if 0 <= from < params.len() {
        lemma_names_of_record(scopes, params[from].content@, Status::Defined);
        lemma_names_of_define_all(define(scopes, params[from].content@), params, from + 1);
    }
}

/// A resolved optional expression is safe among the readable names.
pub proof fn lemma_resolved_option_is_safe(e: Option<ExprView>, scopes: Seq<ScopeView>)
    ensures
        resolve_option_expr(e, scopes).error is None ==> safe_option_expr(
            resolve_option_expr(e, scopes).node,
            readable(scopes),
        ),
{
    lemma_resolve_option_expr(e, scopes);
    if let Some(inner) = e {
        lemma_resolved_expr_is_safe(inner, scopes);
    }
}

/// A resolved optional expression is safe among the names.
pub proof fn lemma_resolved_option_is_safe_in_names(e: Option<ExprView>, scopes: Seq<ScopeView>)
    ensures
        resolve_option_expr(e, scopes).error is None ==> safe_option_expr(
            resolve_option_expr(e, scopes).node,
            names_of(scopes),
        ),
{
    lemma_resolved_option_is_safe(e, scopes);
    lemma_readable_within_names(scopes);
    if let Some(inner) = resolve_option_expr(e, scopes).node {
        if resolve_option_expr(e, scopes).error is None {
            lemma_safe_expr_grows(inner, readable(scopes), names_of(scopes));
        }
    }
}

/// A resolved expression is safe among the names.
pub proof fn lemma_resolved_expr_is_safe_in_names(e: ExprView, scopes: Seq<ScopeView>)
    ensures
        resolve_expr(e, scopes).error is None ==> safe_expr(
            resolve_expr(e, scopes).node,
            names_of(scopes),
        ),
{
    lemma_resolved_expr_is_safe(e, scopes);
    lemma_readable_within_names(scopes);
    if resolve_expr(e, scopes).error is None {
        lemma_safe_expr_grows(resolve_expr(e, scopes).node, readable(scopes), names_of(scopes));
    }
}

/// A resolved variable declaration is safe, and adds its name to the names.
pub proof fn lemma_resolved_var_is_safe(d: VarDeclarationView, scopes: Seq<ScopeView>)
    ensures
        resolve_var_declaration(d, scopes).error is None ==> safe_var_declaration(
            resolve_var_declaration(d, scopes).node,
            names_of(scopes),
        ) && names_of(resolve_var_declaration(d, scopes).scopes) == with_name(
            names_of(scopes),
            d.name.content@,
        ) && resolve_var_declaration(d, scopes).node.name == d.name,
{
    lemma_resolve_var_declaration(d, scopes);
    let declared = declare(scopes, d.name.content@);
    lemma_resolved_option_is_safe(d.initializer, declared);
    lemma_readable_while_declared(scopes, d.name.content@);
    lemma_names_of_record(scopes, d.name.content@, Status::Declared);
    lemma_names_of_record(declared, d.name.content@, Status::Defined);
    let out = resolve_var_declaration(d, scopes);
    if out.error is None {
        if let Some(e) = out.node.initializer {
            lemma_safe_expr_grows(e, readable(declared), without(names_of(scopes), d.name.content@));
        }
        lemma_with_name_twice(names_of(scopes), d.name.content@);
    }
}

/// A resolved statement is safe.
pub proof fn lemma_resolved_statement_is_safe(s: StatementView, scopes: Seq<ScopeView>)
    ensures
        resolve_statement(s, scopes).error is None ==> safe_statement(
            resolve_statement(s, scopes).node,
            names_of(scopes),
        ),
    decreases s, 0int,
{
    lemma_resolve_statement(s, scopes);
    let out = resolve_statement(s, scopes);
    if out.error is None {
        lemma_safe_statement(out.node, names_of(scopes));
        match s {
            StatementView::Block(declarations) => {
                lemma_names_of_push(scopes, Map::empty());
                lemma_resolved_declarations_are_safe(
                    declarations,
                    0,
                    scopes.push(Map::empty()),
                    Seq::empty(),
                );
            },
            StatementView::ExprStatement(e) => {
                lemma_resolved_expr_is_safe_in_names(e, scopes);
            },
            StatementView::For { initializer, cond, increment, body } => {
                let opened = scopes.push(Map::empty());
                lemma_names_of_push(scopes, Map::empty());
                match initializer {
                    Some(InitializerView::VarDeclaration(d)) => {
                        lemma_resolved_var_is_safe(d, opened);
                    },
                    Some(InitializerView::Expr(e)) => {
                        lemma_resolved_expr_is_safe_in_names(e, opened);
                    },
                    None => {},
                }
                let inner = resolve_initializer(initializer, opened).scopes;
                lemma_resolved_option_is_safe_in_names(cond, inner);
                lemma_resolved_option_is_safe_in_names(increment, inner);
                lemma_resolved_statement_is_safe(*body, inner);
            },
            StatementView::If { cond, true_branch, else_branch } => {
                lemma_resolved_expr_is_safe_in_names(cond, scopes);
                lemma_resolved_statement_is_safe(*true_branch, scopes);
                if let Some(other) = else_branch {
                    lemma_resolved_statement_is_safe(*other, scopes);
                }
            },
            StatementView::Print(e) => {
                lemma_resolved_expr_is_safe_in_names(e, scopes);
            },
            StatementView::Return(e) => {
                lemma_resolved_option_is_safe_in_names(e, scopes);
            },
            StatementView::While { cond, body } => {
                lemma_resolved_expr_is_safe_in_names(cond, scopes);
                lemma_resolved_statement_is_safe(*body, scopes);
            },
        }
    }
}

/// A resolved function is safe.
pub proof fn lemma_resolved_function_is_safe(f: FunctionView, scopes: Seq<ScopeView>)
    ensures
        resolve_function(f, scopes).error is None ==> safe_function(
            resolve_function(f, scopes).node,
            names_of(scopes),
        ) && resolve_function(f, scopes).node.name == f.name,
    decreases f, 0int,
{
    lemma_resolve_function(f, scopes);
    let out = resolve_function(f, scopes);
    if out.error is None {
        lemma_safe_function(out.node, names_of(scopes));
        let opened = scopes.push(Map::empty());
        lemma_names_of_push(scopes, Map::empty());
        lemma_names_of_define_all(opened, f.params, 0);
        lemma_resolved_declarations_are_safe(f.body, 0, define_all(opened, f.params, 0), Seq::empty());
    }
}

/// Resolved methods are safe.
pub proof fn lemma_resolved_methods_are_safe(
    list: Seq<FunctionView>,
    from: int,
    scopes: Seq<ScopeView>,
    done: Seq<FunctionView>,
)
    requires
        0 <= from <= list.len(),
        done.len() == from,
    ensures
        ({
            let out = resolve_methods(list, from, scopes, done);
            out.error is None ==> out.node.len() == list.len() && out.node.take(from) == done
                && safe_methods(out.node, from, names_of(scopes))
        }),
    decreases list, list.len() - from,
{
    lemma_resolve_methods(list, from, scopes, done);
    let out = resolve_methods(list, from, scopes, done);
    if out.error is None {
        let resolved = out.node;
        lemma_safe_methods(resolved, from, names_of(scopes));
        if from < list.len() {
            lemma_resolved_function_is_safe(list[from], scopes);
            let f = resolve_function(list[from], scopes).node;
            lemma_resolved_methods_are_safe(list, from + 1, scopes, done.push(f));
            assert(resolved.take(from + 1)[from] == f);
            assert(resolved.take(from) =~= resolved.take(from + 1).take(from));
            assert(done.push(f).take(from) =~= done);
        } else {
            assert(resolved.take(from) =~= resolved);
        }
    }
}

/// A resolved class is safe, and leaves the scopes with its name defined.
pub proof fn lemma_resolved_class_is_safe(c: ClassView, scopes: Seq<ScopeView>)
    ensures
        ({
            let out = resolve_class(c, scopes);
            out.error is None ==> safe_class(out.node, with_name(names_of(scopes), c.name.content@))
                && out.node.name == c.name && names_of(out.scopes) == with_name(
                names_of(scopes),
                c.name.content@,
            )
        }),
    decreases c, 0int,
{
    lemma_resolve_class(c, scopes);
    let out = resolve_class(c, scopes);
    if out.error is None {
        let around = with_name(names_of(scopes), c.name.content@);
        lemma_safe_class(out.node, around);
        let defined = define(scopes, c.name.content@);
        lemma_names_of_record(scopes, c.name.content@, Status::Defined);
        lemma_readable_within_names(defined);
        let superclass = resolve_superclass(c.superclass, c.name, defined).node;
        let outer = if superclass is Some {
            defined.push(super_scope())
        } else {
            defined
        };
        if let Some(ExprView::Variable { name, depth }) = superclass {
            theorem_distance_is_nearest(defined, name.content@);
            if let Some(d) = depth {
                assert(scope_at(defined, d as nat).dom().contains(name.content@));
            }
        }
        lemma_names_of_push(defined, super_scope());
        lemma_names_of_push(outer, this_scope());
        assert(super_scope().dom() =~= Set::empty().insert("super"@));
        assert(this_scope().dom() =~= Set::empty().insert("this"@));
        lemma_resolved_methods_are_safe(c.methods, 0, outer.push(this_scope()), Seq::empty());
    }
}

/// A resolved declaration is safe, and leaves the scopes with its name added.
pub proof fn lemma_resolved_declaration_is_safe(d: DeclarationView, scopes: Seq<ScopeView>)
    ensures
        ({
            let out = resolve_declaration(d, scopes);
            out.error is None ==> safe_declaration(out.node, names_of(scopes)) && names_of(out.scopes)
                == after(out.node, names_of(scopes))
        }),
    decreases d, 1int,
{
    lemma_resolve_declaration(d, scopes);
    let out = resolve_declaration(d, scopes);
    if out.error is None {
        lemma_safe_declaration(out.node, names_of(scopes));
        match d {
            DeclarationView::Class(c) => {
                lemma_resolved_class_is_safe(c, scopes);
            },
            DeclarationView::Statement(s) => {
                lemma_resolved_statement_is_safe(s, scopes);
                crate::resolver::lemma_statement_restores(s, scopes);
            },
            DeclarationView::VarDeclaration(v) => {
                lemma_resolved_var_is_safe(v, scopes);
            },
            DeclarationView::FunDeclaration(f) => {
                let declared = declare(scopes, f.name.content@);
                lemma_names_of_record(scopes, f.name.content@, Status::Declared);
                lemma_names_of_record(declared, f.name.content@, Status::Defined);
                lemma_resolved_function_is_safe(f, declared);
                lemma_with_name_twice(names_of(scopes), f.name.content@);
            },
        }
    }
}

/// Resolved declarations are safe.
pub proof fn lemma_resolved_declarations_are_safe(
    list: Seq<DeclarationView>,
    from: int,
    scopes: Seq<ScopeView>,
    done: Seq<DeclarationView>,
)
    requires
        0 <= from <= list.len(),
        done.len() == from,
    ensures
        ({
            let out = resolve_declarations(list, from, scopes, done);
            out.error is None ==> out.node.len() == list.len() && out.node.take(from) == done
                && safe_declarations(out.node, from, names_of(scopes))
        }),
    decreases list, list.len() - from,
{
    lemma_resolve_declarations(list, from, scopes, done);
    let out = resolve_declarations(list, from, scopes, done);
    if out.error is None {
        let resolved = out.node;
        lemma_safe_declarations(resolved, from, names_of(scopes));
        if from < list.len() {
            lemma_resolved_declaration_is_safe(list[from], scopes);
            let one = resolve_declaration(list[from], scopes);
            lemma_resolved_declarations_are_safe(list, from + 1, one.scopes, done.push(one.node));
            assert(resolved.take(from + 1)[from] == one.node);
            assert(resolved.take(from) =~= resolved.take(from + 1).take(from));
            assert(done.push(one.node).take(from) =~= done);
        } else {
            assert(resolved.take(from) =~= resolved);
        }
    }
}

/// The static half: a program that the resolver has accepted at top level is safe.
pub proof fn theorem_resolved_program_is_safe(program: Seq<DeclarationView>)
    ensures
        resolve_declarations(program, 0, Seq::empty(), Seq::empty()).error is None
            ==> safe_declarations(
            resolve_declarations(program, 0, Seq::empty(), Seq::empty()).node,
            0,
            Seq::empty(),
        ),
{
    lemma_resolved_declarations_are_safe(program, 0, Seq::empty(), Seq::empty());
    assert(names_of(Seq::<ScopeView>::empty()) =~= Seq::<Set<Seq<char>>>::empty());
}

} // verus!
