//! What it means for a resolved tree to be safe: every depth in it points
//! at a scope that exists and, for a read, holds the name.
//!
//! The scopes are taken by their names alone, the innermost last.

use vstd::prelude::*;

use crate::ast::{
    ClassView, DeclarationView, Depth, ExprView, FunctionView, InitializerView, StatementView,
    VarDeclarationView,
};
use crate::token::Token;

verus! {

/// The names of a stack of scopes, the innermost last.
pub type Names = Seq<Set<Seq<char>>>;

/// `names` with `name` added to the innermost scope; at top level nothing is added.
pub open spec fn with_name(names: Names, name: Seq<char>) -> Names {
    if names.len() == 0 {
        names
    } else {
        names.update(names.len() - 1, names.last().insert(name))
    }
}

/// `names` without `name` in the innermost scope.
pub open spec fn without(names: Names, name: Seq<char>) -> Names {
    if names.len() == 0 {
        names
    } else {
        names.update(names.len() - 1, names.last().remove(name))
    }
}

/// `names` with the parameters from `from` on added to the innermost scope.
pub open spec fn with_params(names: Names, params: Seq<Token>, from: int) -> Names
    decreases params.len() - from,
{
    if from < 0 || from >= params.len() {
        names
    } else {
        with_params(with_name(names, params[from].content@), params, from + 1)
    }
}

/// Whether a use of `name` at `depth` is safe in `names`: the scope at that
/// distance exists and holds the name. A use without a depth is global, and
/// is not the resolver's to vouch for.
pub open spec fn safe_use(name: Seq<char>, depth: Depth, names: Names) -> bool {
    match depth {
        Some(d) => d < names.len() && names[names.len() - 1 - d].contains(name),
        None => true,
    }
}

/// Whether every depth in `e` is safe in `names`. The target of an
/// assignment need only exist as a scope: assigning binds the name.
pub open spec fn safe_expr(e: ExprView, names: Names) -> bool
    decreases e,
{
    match e {
        ExprView::Assign { name, depth, value } => (depth matches Some(d) ==> d < names.len())
            && safe_expr(*value, names),
        ExprView::Binary { left, right, .. } => safe_expr(*left, names) && safe_expr(*right, names),
        ExprView::Call { callee, arguments, .. } => safe_expr(*callee, names) && forall|i: int|
            0 <= i < arguments.len() ==> safe_expr(#[trigger] arguments[i], names),
        ExprView::Get { object, .. } => safe_expr(*object, names),
        ExprView::Grouping { inner, .. } => safe_expr(*inner, names),
        ExprView::Literal { .. } => true,
        ExprView::Logical { left, right, .. } => safe_expr(*left, names) && safe_expr(*right, names),
        ExprView::SetExpr { object, value, .. } => safe_expr(*object, names) && safe_expr(
            *value,
            names,
        ),
        ExprView::This { keyword, depth } => safe_use(keyword.content@, depth, names),
        ExprView::Unary { operand, .. } => safe_expr(*operand, names),
        ExprView::Variable { name, depth } => safe_use(name.content@, depth, names),
        ExprView::Super { keyword, depth, .. } => safe_use(keyword.content@, depth, names),
    }
}

pub open spec fn safe_option_expr(e: Option<ExprView>, names: Names) -> bool {
    match e {
        Some(e) => safe_expr(e, names),
        None => true,
    }
}

/// Whether the initializer of a variable is safe: it is evaluated before
/// the variable is bound, so it must not count on the variable.
pub open spec fn safe_var_declaration(d: VarDeclarationView, names: Names) -> bool {
    safe_option_expr(d.initializer, without(names, d.name.content@))
}

/// The names after a declaration: those before it, and the name that it declares.
pub open spec fn after(d: DeclarationView, names: Names) -> Names {
    match d {
        DeclarationView::Class(c) => with_name(names, c.name.content@),
        DeclarationView::Statement(_) => names,
        DeclarationView::VarDeclaration(v) => with_name(names, v.name.content@),
        DeclarationView::FunDeclaration(f) => with_name(names, f.name.content@),
    }
}

/// The names in which the methods of a class are resolved, without `this`:
/// those around the class, and `super` in a scope of its own if the class
/// has a superclass.
pub open spec fn around_methods(c: ClassView, names: Names) -> Names {
    if c.superclass matches Some(ExprView::Variable { .. }) {
        names.push(Set::empty().insert("super"@))
    } else {
        names
    }
}

/// Whether every depth in the statement `s` is safe in `names`.
#[verifier::opaque]
pub open spec fn safe_statement(s: StatementView, names: Names) -> bool
    decreases s, 0int, 1int,
{
    statement_is_safe(s, names)
}

/// What `safe_statement` asks of the node itself, given that its parts are safe.
pub open spec fn statement_is_safe(s: StatementView, names: Names) -> bool
    decreases s, 0int, 0int,
{
    match s {
        StatementView::Block(declarations) => safe_declarations(
            declarations,
            0,
            names.push(Set::empty()),
        ),
        StatementView::ExprStatement(e) => safe_expr(e, names),
        StatementView::For { initializer, cond, increment, body } => {
            let opened = names.push(Set::empty());
            let inner = match initializer {
                Some(InitializerView::VarDeclaration(d)) => with_name(opened, d.name.content@),
                _ => opened,
            };
            &&& match initializer {
                Some(InitializerView::VarDeclaration(d)) => safe_var_declaration(d, opened),
                Some(InitializerView::Expr(e)) => safe_expr(e, opened),
                None => true,
            }
            &&& safe_option_expr(cond, inner)
            &&& safe_option_expr(increment, inner)
            &&& safe_statement(*body, inner)
        },
        StatementView::If { cond, true_branch, else_branch } => safe_expr(cond, names)
            && safe_statement(*true_branch, names) && match else_branch {
            Some(else_branch) => safe_statement(*else_branch, names),
            None => true,
        },
        StatementView::Print(e) => safe_expr(e, names),
        StatementView::Return(e) => safe_option_expr(e, names),
        StatementView::While { cond, body } => safe_expr(cond, names) && safe_statement(
            *body,
            names,
        ),
    }
}

/// `safe_statement` is its rule, applied once.
pub proof fn lemma_safe_statement(s: StatementView, names: Names)
    ensures
        safe_statement(s, names) == statement_is_safe(s, names),
{
    reveal(safe_statement);
}

/// Whether every depth in the body of `f` is safe, where `names` are those
/// around the function: the body has a scope of its own that holds the parameters.
#[verifier::opaque]
pub open spec fn safe_function(f: FunctionView, names: Names) -> bool
    decreases f, 0int, 1int,
{
    function_is_safe(f, names)
}

/// What `safe_function` asks of the node itself, given that its parts are safe.
pub open spec fn function_is_safe(f: FunctionView, names: Names) -> bool
    decreases f, 0int, 0int,
{
    safe_declarations(f.body, 0, with_params(names.push(Set::empty()), f.params, 0))
}

/// `safe_function` is its rule, applied once.
pub proof fn lemma_safe_function(f: FunctionView, names: Names)
    ensures
        safe_function(f, names) == function_is_safe(f, names),
{
    reveal(safe_function);
}

/// Whether every depth in the methods of `list` from `from` on is safe,
/// where `names` are those around the methods, `this` included.
#[verifier::opaque]
pub open spec fn safe_methods(list: Seq<FunctionView>, from: int, names: Names) -> bool
    decreases list, list.len() - from, 1int,
{
    methods_is_safe(list, from, names)
}

/// What `safe_methods` asks of the node itself, given that its parts are safe.
pub open spec fn methods_is_safe(list: Seq<FunctionView>, from: int, names: Names) -> bool
    decreases list, list.len() - from, 0int,
{
    if from < 0 || from >= list.len() {
        true
    } else {
        safe_function(list[from], names) && safe_methods(list, from + 1, names)
    }
}

/// `safe_methods` is its rule, applied once.
pub proof fn lemma_safe_methods(list: Seq<FunctionView>, from: int, names: Names)
    ensures
        safe_methods(list, from, names) == methods_is_safe(list, from, names),
{
    reveal(safe_methods);
}

/// Whether every depth in the class `c` is safe, where `names` are those
/// around it, its own name included. The superclass is another class: it
/// is looked up before the class itself is bound.
#[verifier::opaque]
pub open spec fn safe_class(c: ClassView, names: Names) -> bool
    decreases c, 0int, 1int,
{
    class_is_safe(c, names)
}

/// What `safe_class` asks of the node itself, given that its parts are safe.
pub open spec fn class_is_safe(c: ClassView, names: Names) -> bool
    decreases c, 0int, 0int,
{
    &&& c.superclass matches Some(ExprView::Variable { name, depth }) ==> name.content@
        != c.name.content@ && safe_use(name.content@, depth, names)
    &&& safe_methods(c.methods, 0, around_methods(c, names).push(Set::empty().insert("this"@)))
}

/// `safe_class` is its rule, applied once.
pub proof fn lemma_safe_class(c: ClassView, names: Names)
    ensures
        safe_class(c, names) == class_is_safe(c, names),
{
    reveal(safe_class);
}

/// Whether every depth in the declaration `d` is safe in `names`.
#[verifier::opaque]
pub open spec fn safe_declaration(d: DeclarationView, names: Names) -> bool
    decreases d, 0int, 1int,
{
    declaration_is_safe(d, names)
}

/// What `safe_declaration` asks of the node itself, given that its parts are safe.
pub open spec fn declaration_is_safe(d: DeclarationView, names: Names) -> bool
    decreases d, 0int, 0int,
{
    match d {
        DeclarationView::Class(c) => safe_class(c, with_name(names, c.name.content@)),
        DeclarationView::Statement(s) => safe_statement(s, names),
        DeclarationView::VarDeclaration(v) => safe_var_declaration(v, names),
        DeclarationView::FunDeclaration(f) => safe_function(f, with_name(names, f.name.content@)),
    }
}

/// `safe_declaration` is its rule, applied once.
pub proof fn lemma_safe_declaration(d: DeclarationView, names: Names)
    ensures
        safe_declaration(d, names) == declaration_is_safe(d, names),
{
    reveal(safe_declaration);
}

/// Whether every depth in the declarations of `list` from `from` on is
/// safe, each in the names that those before it have left.
#[verifier::opaque]
pub open spec fn safe_declarations(list: Seq<DeclarationView>, from: int, names: Names) -> bool
    decreases list, list.len() - from, 1int,
{
    declarations_is_safe(list, from, names)
}

/// What `safe_declarations` asks of the node itself, given that its parts are safe.
pub open spec fn declarations_is_safe(list: Seq<DeclarationView>, from: int, names: Names) -> bool
    decreases list, list.len() - from, 0int,
{
    if from < 0 || from >= list.len() {
        true
    } else {
        safe_declaration(list[from], names) && safe_declarations(
            list,
            from + 1,
            after(list[from], names),
        )
    }
}

/// `safe_declarations` is its rule, applied once.
pub proof fn lemma_safe_declarations(list: Seq<DeclarationView>, from: int, names: Names)
    ensures
        safe_declarations(list, from, names) == declarations_is_safe(list, from, names),
{
    reveal(safe_declarations);
}


} // verus!
