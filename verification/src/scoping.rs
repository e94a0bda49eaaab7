//! Lexical scoping, as functions on the model of the syntax tree.
//!
//! A stack of scopes maps the names declared so far to their status; the
//! innermost scope is the last. Resolution annotates every use of a name
//! with its distance to the innermost scope that holds it. The resolver is
//! proved to compute these functions.

use vstd::prelude::*;

use crate::ast::{
    ClassView, DeclarationView, Depth, ExprView, FunctionView, InitializerView, StatementView,
    VarDeclarationView,
};
use crate::interp_error::ErrorView;
use crate::token::Token;

verus! {

/// What the resolver knows of a name: declared, or declared and initialized.
#[derive(Clone, Copy, Debug, PartialEq, Eq, Structural)]
pub enum Status {
    Declared,
    Defined,
}

/// A scope: the names declared in it.
pub type ScopeView = Map<Seq<char>, Status>;

/// The scopes with `name` set to `status` in the innermost; without a scope
/// (at top level) nothing is recorded.
pub open spec fn record(scopes: Seq<ScopeView>, name: Seq<char>, status: Status) -> Seq<ScopeView> {
    if scopes.len() == 0 {
        scopes
    } else {
        scopes.update(scopes.len() - 1, scopes.last().insert(name, status))
    }
}

pub open spec fn declare(scopes: Seq<ScopeView>, name: Seq<char>) -> Seq<ScopeView> {
    record(scopes, name, Status::Declared)
}

pub open spec fn define(scopes: Seq<ScopeView>, name: Seq<char>) -> Seq<ScopeView> {
    record(scopes, name, Status::Defined)
}

/// The scopes with the parameters from `from` on defined in the innermost.
pub open spec fn define_all(scopes: Seq<ScopeView>, params: Seq<Token>, from: int) -> Seq<ScopeView>
    decreases params.len() - from,
{
    if from < 0 || from >= params.len() {
        scopes
    } else {
        define_all(define(scopes, params[from].content@), params, from + 1)
    }
}

/// The scope that lies `distance` scopes out from the innermost.
pub open spec fn scope_at(scopes: Seq<ScopeView>, distance: nat) -> ScopeView
    recommends
        distance < scopes.len(),
{
    scopes[scopes.len() - 1 - distance]
}

/// The distance from the innermost scope to the nearest scope that holds
/// `name`, or `None` if no scope holds it.
pub open spec fn distance(scopes: Seq<ScopeView>, name: Seq<char>) -> Option<nat>
    decreases scopes.len(),
{
    if scopes.len() == 0 {
        None
    } else if scopes.last().dom().contains(name) {
        Some(0)
    } else {
        match distance(scopes.drop_last(), name) {
            Some(d) => Some(d + 1),
            None => None,
        }
    }
}

/// The depth that a use of the name of `token` gets: its distance, or `None`
/// for a name that no scope holds. A distance that a `u32` cannot hold is an error.
pub open spec fn resolve_local(scopes: Seq<ScopeView>, token: Token) -> Result<Depth, ErrorView> {
    match distance(scopes, token.content@) {
        Some(d) => if d <= u32::MAX {
            Ok(Some(d as u32))
        } else {
            Err(ErrorView { message: "Exceeded maximum scope depth."@, token })
        },
        None => Ok(None),
    }
}

/// Whether a variable named `name` is read in its own initializer.
pub open spec fn in_own_initializer(scopes: Seq<ScopeView>, name: Seq<char>) -> bool {
    scopes.len() > 0 && scopes.last().dom().contains(name) && scopes.last()[name] == Status::Declared
}

/// The depth that a read of the name of `token` gets. A name that is
/// declared in the innermost scope and not yet defined is being read in its
/// own initializer: that is an error.
pub open spec fn resolve_use(scopes: Seq<ScopeView>, token: Token) -> Result<Depth, ErrorView> {
    if in_own_initializer(scopes, token.content@) {
        Err(ErrorView { message: "Can't read local variable in its own initializer"@, token })
    } else {
        resolve_local(scopes, token)
    }
}

/// The token that an expression hangs on.
pub open spec fn token_of(e: ExprView) -> Token {
    match e {
        ExprView::Assign { name, .. } => name,
        ExprView::Binary { operator, .. } => operator,
        ExprView::Call { paren, .. } => paren,
        ExprView::Get { name, .. } => name,
        ExprView::Grouping { token, .. } => token,
        ExprView::Literal { token } => token,
        ExprView::Logical { operator, .. } => operator,
        ExprView::SetExpr { name, .. } => name,
        ExprView::This { keyword, .. } => keyword,
        ExprView::Unary { operator, .. } => operator,
        ExprView::Variable { name, .. } => name,
        ExprView::Super { keyword, .. } => keyword,
    }
}

/// What resolving an expression gives: the expression with the depths that
/// were written into it, and the error that ended the pass, if one did.
/// After an error the parts that were not reached are as they were.
pub struct Resolved<T> {
    pub node: T,
    pub error: Option<ErrorView>,
}

/// What resolving a statement or a declaration gives: the node with the
/// depths that were written into it, the scopes that the pass has left,
/// and the error that ended the pass, if one did.
pub struct Scoped<T> {
    pub node: T,
    pub scopes: Seq<ScopeView>,
    pub error: Option<ErrorView>,
}

/// The depth of a use after resolution: the new one, or on an error the old one.
pub open spec fn depth_after(resolved: Result<Depth, ErrorView>, depth: Depth) -> Depth {
    match resolved {
        Ok(d) => d,
        Err(_) => depth,
    }
}

/// The error of a result, if it is one.
pub open spec fn error_of<T>(resolved: Result<T, ErrorView>) -> Option<ErrorView> {
    match resolved {
        Ok(_) => None,
        Err(e) => Some(e),
    }
}

/// The scope that a class with a superclass opens around its methods.
pub open spec fn super_scope() -> ScopeView {
    Map::empty().insert("super"@, Status::Defined)
}

/// The scope that a class opens around its methods.
pub open spec fn this_scope() -> ScopeView {
    Map::empty().insert("this"@, Status::Defined)
}

/// The expression `e` with every use of a name in it resolved in `scopes`,
/// operands from left to right, up to the first error.
#[verifier::opaque]
pub open spec fn resolve_expr(e: ExprView, scopes: Seq<ScopeView>) -> Resolved<ExprView>
    decreases e, 0int, 1int,
{
    expr_rule(e, scopes)
}

/// One step of `resolve_expr`: the node itself, given what resolution makes of its parts.
pub open spec fn expr_rule(e: ExprView, scopes: Seq<ScopeView>) -> Resolved<ExprView>
    decreases e, 0int, 0int,
{
    match e {
        ExprView::Assign { name, depth, value } => {
            let inner = resolve_expr(*value, scopes);
            if inner.error is Some {
                Resolved {
                    node: ExprView::Assign { name, depth, value: Box::new(inner.node) },
                    error: inner.error,
                }
            } else {
                Resolved {
                    node: ExprView::Assign {
                        name,
                        depth: depth_after(resolve_local(scopes, name), depth),
                        value: Box::new(inner.node),
                    },
                    error: error_of(resolve_local(scopes, name)),
                }
            }
        },
        ExprView::Binary { left, operator, right } => {
            let first = resolve_expr(*left, scopes);
            if first.error is Some {
                Resolved {
                    node: ExprView::Binary { left: Box::new(first.node), operator, right },
                    error: first.error,
                }
            } else {
                let second = resolve_expr(*right, scopes);
                Resolved {
                    node: ExprView::Binary {
                        left: Box::new(first.node),
                        operator,
                        right: Box::new(second.node),
                    },
                    error: second.error,
                }
            }
        },
        ExprView::Call { callee, arguments, paren } => {
            let first = resolve_expr(*callee, scopes);
            if first.error is Some {
                Resolved {
                    node: ExprView::Call { callee: Box::new(first.node), arguments, paren },
                    error: first.error,
                }
            } else {
                let rest = resolve_exprs(arguments, 0, scopes, Seq::empty());
                Resolved {
                    node: ExprView::Call {
                        callee: Box::new(first.node),
                        arguments: rest.node,
                        paren,
                    },
                    error: rest.error,
                }
            }
        },
        ExprView::Get { object, name } => {
            let inner = resolve_expr(*object, scopes);
            Resolved {
                node: ExprView::Get { object: Box::new(inner.node), name },
                error: inner.error,
            }
        },
        ExprView::Grouping { token, inner } => {
            let within = resolve_expr(*inner, scopes);
            Resolved {
                node: ExprView::Grouping { token, inner: Box::new(within.node) },
                error: within.error,
            }
        },
        ExprView::Literal { token } => Resolved { node: e, error: None },
        ExprView::Logical { left, operator, right } => {
            let first = resolve_expr(*left, scopes);
            if first.error is Some {
                Resolved {
                    node: ExprView::Logical { left: Box::new(first.node), operator, right },
                    error: first.error,
                }
            } else {
                let second = resolve_expr(*right, scopes);
                Resolved {
                    node: ExprView::Logical {
                        left: Box::new(first.node),
                        operator,
                        right: Box::new(second.node),
                    },
                    error: second.error,
                }
            }
        },
        ExprView::SetExpr { object, name, value } => {
            let first = resolve_expr(*object, scopes);
            if first.error is Some {
                Resolved {
                    node: ExprView::SetExpr { object: Box::new(first.node), name, value },
                    error: first.error,
                }
            } else {
                let second = resolve_expr(*value, scopes);
                Resolved {
                    node: ExprView::SetExpr {
                        object: Box::new(first.node),
                        name,
                        value: Box::new(second.node),
                    },
                    error: second.error,
                }
            }
        },
        ExprView::This { keyword, depth } => Resolved {
            node: ExprView::This { keyword, depth: depth_after(resolve_use(scopes, keyword), depth) },
            error: error_of(resolve_use(scopes, keyword)),
        },
        ExprView::Unary { operator, operand } => {
            let inner = resolve_expr(*operand, scopes);
            Resolved {
                node: ExprView::Unary { operator, operand: Box::new(inner.node) },
                error: inner.error,
            }
        },
        ExprView::Variable { name, depth } => Resolved {
            node: ExprView::Variable { name, depth: depth_after(resolve_use(scopes, name), depth) },
            error: error_of(resolve_use(scopes, name)),
        },
        ExprView::Super { keyword, method, depth } => Resolved {
            node: ExprView::Super {
                keyword,
                method,
                depth: depth_after(resolve_use(scopes, keyword), depth),
            },
            error: error_of(resolve_use(scopes, keyword)),
        },
    }
}

/// `resolve_expr` is its rule, applied once.
pub proof fn lemma_resolve_expr(e: ExprView, scopes: Seq<ScopeView>)
    ensures
        resolve_expr(e, scopes) == expr_rule(e, scopes),
{
    reveal(resolve_expr);
}

/// The expressions of `list`, resolved in `scopes` from `from` on, up to
/// the first error; `done` are those before `from`, resolved already.
#[verifier::opaque]
pub open spec fn resolve_exprs(
    list: Seq<ExprView>,
    from: int,
    scopes: Seq<ScopeView>,
    done: Seq<ExprView>,
) -> Resolved<Seq<ExprView>>
    decreases list, list.len() - from, 1int,
{
    exprs_rule(list, from, scopes, done)
}

/// One step of `resolve_exprs`: the node itself, given what resolution makes of its parts.
pub open spec fn exprs_rule(
    list: Seq<ExprView>,
    from: int,
    scopes: Seq<ScopeView>,
    done: Seq<ExprView>,
) -> Resolved<Seq<ExprView>>
    decreases list, list.len() - from, 0int,
{
    if from < 0 || from >= list.len() {
        Resolved { node: done, error: None }
    } else {
        let one = resolve_expr(list[from], scopes);
        if one.error is Some {
            Resolved {
                node: done.push(one.node) + list.subrange(from + 1, list.len() as int),
                error: one.error,
            }
        } else {
            resolve_exprs(list, from + 1, scopes, done.push(one.node))
        }
    }
}

/// `resolve_exprs` is its rule, applied once.
pub proof fn lemma_resolve_exprs(
    list: Seq<ExprView>,
    from: int,
    scopes: Seq<ScopeView>,
    done: Seq<ExprView>,
)
    ensures
        resolve_exprs(list, from, scopes, done) == exprs_rule(list, from, scopes, done),
{
    reveal(resolve_exprs);
}

/// An optional expression, resolved in `scopes`.
#[verifier::opaque]
pub open spec fn resolve_option_expr(e: Option<ExprView>, scopes: Seq<ScopeView>) -> Resolved<
    Option<ExprView>,
>
    decreases e, 0int, 1int,
{
    option_expr_rule(e, scopes)
}

/// One step of `resolve_option_expr`: the node itself, given what resolution makes of its parts.
pub open spec fn option_expr_rule(e: Option<ExprView>, scopes: Seq<ScopeView>) -> Resolved<
    Option<ExprView>,
>
    decreases e, 0int, 0int,
{
    match e {
        Some(e) => {
            let inner = resolve_expr(e, scopes);
            Resolved { node: Some(inner.node), error: inner.error }
        },
        None => Resolved { node: None, error: None },
    }
}

/// `resolve_option_expr` is its rule, applied once.
pub proof fn lemma_resolve_option_expr(e: Option<ExprView>, scopes: Seq<ScopeView>)
    ensures
        resolve_option_expr(e, scopes) == option_expr_rule(e, scopes),
{
    reveal(resolve_option_expr);
}

/// A variable declaration resolved in `scopes`: the name is declared while
/// its initializer is resolved, and defined after.
#[verifier::opaque]
pub open spec fn resolve_var_declaration(d: VarDeclarationView, scopes: Seq<ScopeView>) -> Scoped<
    VarDeclarationView,
>
    decreases d, 0int, 1int,
{
    var_declaration_rule(d, scopes)
}

/// One step of `resolve_var_declaration`: the node itself, given what resolution makes of its parts.
pub open spec fn var_declaration_rule(d: VarDeclarationView, scopes: Seq<ScopeView>) -> Scoped<
    VarDeclarationView,
>
    decreases d, 0int, 0int,
{
    let declared = declare(scopes, d.name.content@);
    let initializer = resolve_option_expr(d.initializer, declared);
    Scoped {
        node: VarDeclarationView { name: d.name, initializer: initializer.node },
        scopes: if initializer.error is Some {
            declared
        } else {
            define(declared, d.name.content@)
        },
        error: initializer.error,
    }
}

/// `resolve_var_declaration` is its rule, applied once.
pub proof fn lemma_resolve_var_declaration(d: VarDeclarationView, scopes: Seq<ScopeView>)
    ensures
        resolve_var_declaration(d, scopes) == var_declaration_rule(d, scopes),
{
    reveal(resolve_var_declaration);
}

/// The first clause of a `for` statement, resolved in `scopes`.
pub open spec fn resolve_initializer(i: Option<InitializerView>, scopes: Seq<ScopeView>) -> Scoped<
    Option<InitializerView>,
> {
    match i {
        Some(InitializerView::VarDeclaration(d)) => {
            let inner = resolve_var_declaration(d, scopes);
            Scoped {
                node: Some(InitializerView::VarDeclaration(inner.node)),
                scopes: inner.scopes,
                error: inner.error,
            }
        },
        Some(InitializerView::Expr(e)) => {
            let inner = resolve_expr(e, scopes);
            Scoped { node: Some(InitializerView::Expr(inner.node)), scopes, error: inner.error }
        },
        None => Scoped { node: None, scopes, error: None },
    }
}

/// The statement `s` resolved in `scopes`. A block and a `for` statement
/// open a scope of their own and close it again, so a statement that
/// resolves leaves the scopes as they were.
#[verifier::opaque]
pub open spec fn resolve_statement(s: StatementView, scopes: Seq<ScopeView>) -> Scoped<StatementView>
    decreases s, 0int, 1int,
{
    statement_rule(s, scopes)
}

/// One step of `resolve_statement`: the node itself, given what resolution makes of its parts.
pub open spec fn statement_rule(s: StatementView, scopes: Seq<ScopeView>) -> Scoped<StatementView>
    decreases s, 0int, 0int,
{
    match s {
        StatementView::Block(declarations) => {
            let inner = resolve_declarations(declarations, 0, scopes.push(Map::empty()), Seq::empty());
            Scoped {
                node: StatementView::Block(inner.node),
                scopes: if inner.error is Some {
                    inner.scopes
                } else {
                    scopes
                },
                error: inner.error,
            }
        },
        StatementView::ExprStatement(e) => {
            let inner = resolve_expr(e, scopes);
            Scoped { node: StatementView::ExprStatement(inner.node), scopes, error: inner.error }
        },
        StatementView::For { initializer, cond, increment, body } => {
            let first = resolve_initializer(initializer, scopes.push(Map::empty()));
            if first.error is Some {
                Scoped {
                    node: StatementView::For { initializer: first.node, cond, increment, body },
                    scopes: first.scopes,
                    error: first.error,
                }
            } else {
                let second = resolve_option_expr(cond, first.scopes);
                if second.error is Some {
                    Scoped {
                        node: StatementView::For {
                            initializer: first.node,
                            cond: second.node,
                            increment,
                            body,
                        },
                        scopes: first.scopes,
                        error: second.error,
                    }
                } else {
                    let third = resolve_option_expr(increment, first.scopes);
                    if third.error is Some {
                        Scoped {
                            node: StatementView::For {
                                initializer: first.node,
                                cond: second.node,
                                increment: third.node,
                                body,
                            },
                            scopes: first.scopes,
                            error: third.error,
                        }
                    } else {
                        let last = resolve_statement(*body, first.scopes);
                        Scoped {
                            node: StatementView::For {
                                initializer: first.node,
                                cond: second.node,
                                increment: third.node,
                                body: Box::new(last.node),
                            },
                            scopes: if last.error is Some {
                                last.scopes
                            } else {
                                scopes
                            },
                            error: last.error,
                        }
                    }
                }
            }
        },
        StatementView::If { cond, true_branch, else_branch } => {
            let first = resolve_expr(cond, scopes);
            if first.error is Some {
                Scoped {
                    node: StatementView::If { cond: first.node, true_branch, else_branch },
                    scopes,
                    error: first.error,
                }
            } else {
                let second = resolve_statement(*true_branch, scopes);
                if second.error is Some {
                    Scoped {
                        node: StatementView::If {
                            cond: first.node,
                            true_branch: Box::new(second.node),
                            else_branch,
                        },
                        scopes: second.scopes,
                        error: second.error,
                    }
                } else {
                    match else_branch {
                        Some(other) => {
                            let third = resolve_statement(*other, scopes);
                            Scoped {
                                node: StatementView::If {
                                    cond: first.node,
                                    true_branch: Box::new(second.node),
                                    else_branch: Some(Box::new(third.node)),
                                },
                                scopes: third.scopes,
                                error: third.error,
                            }
                        },
                        None => Scoped {
                            node: StatementView::If {
                                cond: first.node,
                                true_branch: Box::new(second.node),
                                else_branch: None,
                            },
                            scopes,
                            error: None,
                        },
                    }
                }
            }
        },
        StatementView::Print(e) => {
            let inner = resolve_expr(e, scopes);
            Scoped { node: StatementView::Print(inner.node), scopes, error: inner.error }
        },
        StatementView::Return(e) => {
            let inner = resolve_option_expr(e, scopes);
            Scoped { node: StatementView::Return(inner.node), scopes, error: inner.error }
        },
        StatementView::While { cond, body } => {
            let first = resolve_expr(cond, scopes);
            if first.error is Some {
                Scoped {
                    node: StatementView::While { cond: first.node, body },
                    scopes,
                    error: first.error,
                }
            } else {
                let second = resolve_statement(*body, scopes);
                Scoped {
                    node: StatementView::While { cond: first.node, body: Box::new(second.node) },
                    scopes: second.scopes,
                    error: second.error,
                }
            }
        },
    }
}

/// `resolve_statement` is its rule, applied once.
pub proof fn lemma_resolve_statement(s: StatementView, scopes: Seq<ScopeView>)
    ensures
        resolve_statement(s, scopes) == statement_rule(s, scopes),
{
    reveal(resolve_statement);
}

/// The body of a function resolved in a new scope that holds its
/// parameters; a function that resolves leaves the scopes as they were.
#[verifier::opaque]
pub open spec fn resolve_function(f: FunctionView, scopes: Seq<ScopeView>) -> Scoped<FunctionView>
    decreases f, 0int, 1int,
{
    function_rule(f, scopes)
}

/// One step of `resolve_function`: the node itself, given what resolution makes of its parts.
pub open spec fn function_rule(f: FunctionView, scopes: Seq<ScopeView>) -> Scoped<FunctionView>
    decreases f, 0int, 0int,
{
    let body = resolve_declarations(
        f.body,
        0,
        define_all(scopes.push(Map::empty()), f.params, 0),
        Seq::empty(),
    );
    Scoped {
        node: FunctionView { name: f.name, params: f.params, body: body.node },
        scopes: if body.error is Some {
            body.scopes
        } else {
            scopes
        },
        error: body.error,
    }
}

/// `resolve_function` is its rule, applied once.
pub proof fn lemma_resolve_function(f: FunctionView, scopes: Seq<ScopeView>)
    ensures
        resolve_function(f, scopes) == function_rule(f, scopes),
{
    reveal(resolve_function);
}

/// The methods of `list`, resolved in `scopes` from `from` on, up to the
/// first error; `done` are those before `from`, resolved already.
#[verifier::opaque]
pub open spec fn resolve_methods(
    list: Seq<FunctionView>,
    from: int,
    scopes: Seq<ScopeView>,
    done: Seq<FunctionView>,
) -> Scoped<Seq<FunctionView>>
    decreases list, list.len() - from, 1int,
{
    methods_rule(list, from, scopes, done)
}

/// One step of `resolve_methods`: the node itself, given what resolution makes of its parts.
pub open spec fn methods_rule(
    list: Seq<FunctionView>,
    from: int,
    scopes: Seq<ScopeView>,
    done: Seq<FunctionView>,
) -> Scoped<Seq<FunctionView>>
    decreases list, list.len() - from, 0int,
{
    if from < 0 || from >= list.len() {
        Scoped { node: done, scopes, error: None }
    } else {
        let one = resolve_function(list[from], scopes);
        if one.error is Some {
            Scoped {
                node: done.push(one.node) + list.subrange(from + 1, list.len() as int),
                scopes: one.scopes,
                error: one.error,
            }
        } else {
            resolve_methods(list, from + 1, scopes, done.push(one.node))
        }
    }
}

/// `resolve_methods` is its rule, applied once.
pub proof fn lemma_resolve_methods(
    list: Seq<FunctionView>,
    from: int,
    scopes: Seq<ScopeView>,
    done: Seq<FunctionView>,
)
    ensures
        resolve_methods(list, from, scopes, done) == methods_rule(list, from, scopes, done),
{
    reveal(resolve_methods);
}

/// The superclass of a class named `name`, resolved in `scopes`: a variable
/// of another name.
pub open spec fn resolve_superclass(superclass: Option<ExprView>, name: Token, scopes: Seq<ScopeView>) -> Resolved<
    Option<ExprView>,
> {
    match superclass {
        Some(e) => if token_of(e).content@ == name.content@ {
            Resolved {
                node: superclass,
                error: Some(
                    ErrorView { message: "A class cannot inherit from itself."@, token: token_of(e) },
                ),
            }
        } else {
            match e {
                ExprView::Variable { name: parent, depth } => Resolved {
                    node: Some(
                        ExprView::Variable {
                            name: parent,
                            depth: depth_after(resolve_local(scopes, parent), depth),
                        },
                    ),
                    error: error_of(resolve_local(scopes, parent)),
                },
                _ => Resolved {
                    node: superclass,
                    error: Some(
                        ErrorView { message: "Superclass must be a class name."@, token: token_of(e) },
                    ),
                },
            }
        },
        None => Resolved { node: None, error: None },
    }
}

/// A class resolved in `scopes`: the name is defined, the superclass
/// resolved, and the methods resolved inside a scope that holds `this`,
/// within one that holds `super` if there is a superclass.
#[verifier::opaque]
pub open spec fn resolve_class(c: ClassView, scopes: Seq<ScopeView>) -> Scoped<ClassView>
    decreases c, 0int, 1int,
{
    class_rule(c, scopes)
}

/// One step of `resolve_class`: the node itself, given what resolution makes of its parts.
pub open spec fn class_rule(c: ClassView, scopes: Seq<ScopeView>) -> Scoped<ClassView>
    decreases c, 0int, 0int,
{
    let defined = define(scopes, c.name.content@);
    let superclass = resolve_superclass(c.superclass, c.name, defined);
    if superclass.error is Some {
        Scoped {
            node: ClassView { name: c.name, superclass: superclass.node, methods: c.methods },
            scopes: defined,
            error: superclass.error,
        }
    } else {
        let outer = if superclass.node is Some {
            defined.push(super_scope())
        } else {
            defined
        };
        let methods = resolve_methods(c.methods, 0, outer.push(this_scope()), Seq::empty());
        Scoped {
            node: ClassView { name: c.name, superclass: superclass.node, methods: methods.node },
            scopes: if methods.error is Some {
                methods.scopes
            } else {
                defined
            },
            error: methods.error,
        }
    }
}

/// `resolve_class` is its rule, applied once.
pub proof fn lemma_resolve_class(c: ClassView, scopes: Seq<ScopeView>)
    ensures
        resolve_class(c, scopes) == class_rule(c, scopes),
{
    reveal(resolve_class);
}

/// The declaration `d` resolved in `scopes`.
#[verifier::opaque]
pub open spec fn resolve_declaration(d: DeclarationView, scopes: Seq<ScopeView>) -> Scoped<
    DeclarationView,
>
    decreases d, 0int, 1int,
{
    declaration_rule(d, scopes)
}

/// One step of `resolve_declaration`: the node itself, given what resolution makes of its parts.
pub open spec fn declaration_rule(d: DeclarationView, scopes: Seq<ScopeView>) -> Scoped<
    DeclarationView,
>
    decreases d, 0int, 0int,
{
    match d {
        DeclarationView::Class(c) => {
            let inner = resolve_class(c, scopes);
            Scoped { node: DeclarationView::Class(inner.node), scopes: inner.scopes, error: inner.error }
        },
        DeclarationView::Statement(s) => {
            let inner = resolve_statement(s, scopes);
            Scoped {
                node: DeclarationView::Statement(inner.node),
                scopes: inner.scopes,
                error: inner.error,
            }
        },
        DeclarationView::VarDeclaration(v) => {
            let inner = resolve_var_declaration(v, scopes);
            Scoped {
                node: DeclarationView::VarDeclaration(inner.node),
                scopes: inner.scopes,
                error: inner.error,
            }
        },
        DeclarationView::FunDeclaration(f) => {
            let declared = declare(scopes, f.name.content@);
            let inner = resolve_function(f, declared);
            Scoped {
                node: DeclarationView::FunDeclaration(inner.node),
                scopes: if inner.error is Some {
                    inner.scopes
                } else {
                    define(declared, f.name.content@)
                },
                error: inner.error,
            }
        },
    }
}

/// `resolve_declaration` is its rule, applied once.
pub proof fn lemma_resolve_declaration(d: DeclarationView, scopes: Seq<ScopeView>)
    ensures
        resolve_declaration(d, scopes) == declaration_rule(d, scopes),
{
    reveal(resolve_declaration);
}

/// The declarations of `list`, resolved from `from` on, each in the scopes
/// that the one before it left, up to the first error; `done` are those
/// before `from`, resolved already.
#[verifier::opaque]
pub open spec fn resolve_declarations(
    list: Seq<DeclarationView>,
    from: int,
    scopes: Seq<ScopeView>,
    done: Seq<DeclarationView>,
) -> Scoped<Seq<DeclarationView>>
    decreases list, list.len() - from, 1int,
{
    declarations_rule(list, from, scopes, done)
}

/// One step of `resolve_declarations`: the node itself, given what resolution makes of its parts.
pub open spec fn declarations_rule(
    list: Seq<DeclarationView>,
    from: int,
    scopes: Seq<ScopeView>,
    done: Seq<DeclarationView>,
) -> Scoped<Seq<DeclarationView>>
    decreases list, list.len() - from, 0int,
{
    if from < 0 || from >= list.len() {
        Scoped { node: done, scopes, error: None }
    } else {
        let one = resolve_declaration(list[from], scopes);
        if one.error is Some {
            Scoped {
                node: done.push(one.node) + list.subrange(from + 1, list.len() as int),
                scopes: one.scopes,
                error: one.error,
            }
        } else {
            resolve_declarations(list, from + 1, one.scopes, done.push(one.node))
        }
    }
}

/// `resolve_declarations` is its rule, applied once.
pub proof fn lemma_resolve_declarations(
    list: Seq<DeclarationView>,
    from: int,
    scopes: Seq<ScopeView>,
    done: Seq<DeclarationView>,
)
    ensures
        resolve_declarations(list, from, scopes, done) == declarations_rule(list, from, scopes, done),
{
    reveal(resolve_declarations);
}

} // verus!
