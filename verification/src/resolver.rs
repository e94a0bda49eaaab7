//! The resolver: a pass over the syntax tree that writes into every use of
//! a name its distance to the scope that binds it.

use vstd::prelude::*;

use crate::ast::{
    declarations_view, exprs_view, functions_view, option_expr_view, AssignExpr, Ast, BinaryExpr,
    Call, Class, Declaration, DeclarationView, Expr, ExprKind, ExprView, For, FunctionView,
    FunDeclaration, If, Initializer, SetExpr, Statement, StatementView, VarDeclaration, While,
};
use crate::interp_error::{Error, ErrorView};
use crate::safety::safe_declarations;
use crate::scoping::{
    declare, define, define_all, depth_after, distance, error_of, lemma_resolve_class,
    lemma_resolve_declaration, lemma_resolve_declarations, lemma_resolve_expr, lemma_resolve_exprs,
    lemma_resolve_function, lemma_resolve_methods, lemma_resolve_option_expr,
    lemma_resolve_statement, lemma_resolve_var_declaration, record, resolve_class,
    resolve_declaration, resolve_declarations, resolve_expr, resolve_exprs, resolve_function,
    resolve_initializer, resolve_local, resolve_methods, resolve_option_expr, resolve_statement,
    resolve_superclass, resolve_use, resolve_var_declaration, super_scope, this_scope, ScopeView,
    Status,
};
use crate::table::Table;
use crate::token::Token;

verus! {

pub type ResolverResult = Result<(), Error>;

pub fn error(message: &str, token: Token) -> (r: ResolverResult)
    ensures
        r matches Err(e) && e@.message == message@ && e@.token == token,
{
    Err(Error::new(message, token))
}

/// The models of a stack of scopes, outermost first.
pub open spec fn scopes_view(scopes: Seq<Table<Status>>) -> Seq<ScopeView> {
    Seq::new(scopes.len(), |i: int| scopes[i]@)
}

/// Whether the pass ended as `error` says: well without an error, or with that error.
pub open spec fn ended(r: ResolverResult, error: Option<ErrorView>) -> bool {
    match error {
        None => r is Ok,
        Some(e) => r matches Err(x) && x@ == e,
    }
}

/// Scopes that hold no `name` between `k` and the innermost add their
/// number to the distance found further out.
pub proof fn lemma_distance_skip(scopes: Seq<ScopeView>, name: Seq<char>, k: int)
    requires
        0 <= k <= scopes.len(),
        forall|j: int| k <= j < scopes.len() ==> !(#[trigger] scopes[j]).dom().contains(name),
    ensures
        distance(scopes, name) == match distance(scopes.take(k), name) {
            Some(d) => Some((d + scopes.len() - k) as nat),
            None => None,
        },
    decreases scopes.len() - k,
{
    if k == scopes.len() {
        assert(scopes.take(k) =~= scopes);
    } else {
        let outer = scopes.drop_last();
        lemma_distance_skip(outer, name, k);
        assert(outer.take(k) =~= scopes.take(k));
    }
}

/// Recording a name touches the innermost scope only.
pub proof fn lemma_record_keeps_outer(scopes: Seq<ScopeView>, name: Seq<char>, status: Status)
    ensures
        record(scopes, name, status).len() == scopes.len(),
        record(scopes, name, status).drop_last() == scopes.drop_last(),
{
    if scopes.len() > 0 {
        assert(record(scopes, name, status).drop_last() =~= scopes.drop_last());
    }
}

/// Defining parameters touches the innermost scope only.
pub proof fn lemma_define_all_keeps_outer(scopes: Seq<ScopeView>, params: Seq<Token>, from: int)
    ensures
        define_all(scopes, params, from).len() == scopes.len(),
        define_all(scopes, params, from).drop_last() == scopes.drop_last(),
    decreases params.len() - from,
{
    if 0 <= from < params.len() {
        lemma_record_keeps_outer(scopes, params[from].content@, Status::Defined);
        lemma_define_all_keeps_outer(define(scopes, params[from].content@), params, from + 1);
    }
}

/// A statement that resolves leaves the scopes as they were.
pub proof fn lemma_statement_restores(s: StatementView, scopes: Seq<ScopeView>)
    ensures
        resolve_statement(s, scopes).error is None ==> resolve_statement(s, scopes).scopes == scopes,
    decreases s,
{
    lemma_resolve_statement(s, scopes);
    match s {
        StatementView::If { cond, true_branch, else_branch } => {
            lemma_statement_restores(*true_branch, scopes);
            if let Some(other) = else_branch {
                lemma_statement_restores(*other, scopes);
            }
        },
        StatementView::While { cond, body } => {
            lemma_statement_restores(*body, scopes);
        },
        _ => {},
    }
}

/// A declaration that resolves touches the innermost scope only.
pub proof fn lemma_declaration_keeps_outer(d: DeclarationView, scopes: Seq<ScopeView>)
    ensures
        resolve_declaration(d, scopes).error is None ==> resolve_declaration(d, scopes).scopes.len()
            == scopes.len() && resolve_declaration(d, scopes).scopes.drop_last()
            == scopes.drop_last(),
{
    lemma_resolve_declaration(d, scopes);
    match d {
        DeclarationView::Class(c) => {
            lemma_resolve_class(c, scopes);
            lemma_record_keeps_outer(scopes, c.name.content@, Status::Defined);
        },
        DeclarationView::Statement(s) => {
            lemma_statement_restores(s, scopes);
        },
        DeclarationView::VarDeclaration(v) => {
            lemma_resolve_var_declaration(v, scopes);
            lemma_record_keeps_outer(scopes, v.name.content@, Status::Declared);
            lemma_record_keeps_outer(declare(scopes, v.name.content@), v.name.content@, Status::Defined);
        },
        DeclarationView::FunDeclaration(f) => {
            lemma_record_keeps_outer(scopes, f.name.content@, Status::Declared);
            lemma_record_keeps_outer(declare(scopes, f.name.content@), f.name.content@, Status::Defined);
        },
    }
}

/// A list of declarations that resolves touches the innermost scope only.
pub proof fn lemma_declarations_keep_outer(
    list: Seq<DeclarationView>,
    from: int,
    scopes: Seq<ScopeView>,
    done: Seq<DeclarationView>,
)
    ensures
        resolve_declarations(list, from, scopes, done).error is None ==> resolve_declarations(
            list,
            from,
            scopes,
            done,
        ).scopes.len() == scopes.len() && resolve_declarations(
            list,
            from,
            scopes,
            done,
        ).scopes.drop_last() == scopes.drop_last(),
    decreases list.len() - from,
{
    lemma_resolve_declarations(list, from, scopes, done);
    if 0 <= from < list.len() {
        lemma_declaration_keeps_outer(list[from], scopes);
        let one = resolve_declaration(list[from], scopes);
        if one.error is None {
            lemma_declarations_keep_outer(list, from + 1, one.scopes, done.push(one.node));
        }
    }
}

/// The resolver's state: the scopes that are open, outermost first. The
/// global scope is not among them.
pub struct Resolver {
    scopes: Vec<Table<Status>>,
}

impl Resolver {
    /// The models of the open scopes, outermost first.
    pub closed spec fn scopes(&self) -> Seq<ScopeView> {
        scopes_view(self.scopes@)
    }

    /// A resolver at top level: no scope is open.
    pub fn new() -> (r: Resolver)
        ensures
            r.scopes() == Seq::<ScopeView>::empty(),
    {
        let r = Resolver { scopes: Vec::new() };
        proof {
            assert(r.scopes() =~= Seq::<ScopeView>::empty());
        }
        r
    }

    /// Resolves a program in place, declaration by declaration, up to the
    /// first error.
    ///
    /// Every use of a name that the pass has reached holds its depth, the
    /// rest of the tree is as it was, and the resolver's scopes are what
    /// the pass has left. A program that is accepted at top level is safe:
    /// every depth in it points at a scope that holds the name.
    pub fn run(&mut self, ast: &mut Ast) -> (r: ResolverResult)
        ensures
            ({
                let out = resolve_declarations(
                    old(ast)@.declarations,
                    0,
                    old(self).scopes(),
                    Seq::empty(),
                );
                &&& final(ast)@.declarations == out.node
                &&& final(self).scopes() == out.scopes
                &&& ended(r, out.error)
            }),
            r is Ok && old(self).scopes().len() == 0 ==> safe_declarations(
                final(ast)@.declarations,
                0,
                Seq::empty(),
            ),
    {
        proof {
            if self.scopes().len() == 0 {
                assert(self.scopes() =~= Seq::<ScopeView>::empty());
                crate::resolved::theorem_resolved_program_is_safe(ast@.declarations);
            }
        }
        self.visit_declarations(&mut ast.declarations)
    }

    fn begin_scope(&mut self)
        ensures
            final(self).scopes() == old(self).scopes().push(Map::empty()),
    {
        self.scopes.push(Table::new());
        proof {
            assert(self.scopes() =~= old(self).scopes().push(Map::empty()));
        }
    }

    /// Opens a scope that holds `name`, defined.
    fn begin_scope_with(&mut self, name: &str)
        ensures
            final(self).scopes() == old(self).scopes().push(
                Map::<Seq<char>, Status>::empty().insert(name@, Status::Defined),
            ),
    {
        let mut scope: Table<Status> = Table::new();
        scope.insert(String::from_str(name), Status::Defined);
        self.scopes.push(scope);
        proof {
            assert(self.scopes() =~= old(self).scopes().push(
                Map::<Seq<char>, Status>::empty().insert(name@, Status::Defined),
            ));
        }
    }

    /// Records `status` for the name of `token` in the innermost scope, if one is open.
    fn record(&mut self, token: &Token, status: Status)
        ensures
            final(self).scopes() == record(old(self).scopes(), token.content@, status),
    {
        let n = self.scopes.len();
        if n > 0 {
            let scope = &mut self.scopes[n - 1];
            scope.insert(token.content.clone(), status);
            proof {
                assert(self.scopes() =~= record(old(self).scopes(), token.content@, status));
            }
        }
    }

    fn declare(&mut self, token: &Token)
        ensures
            final(self).scopes() == declare(old(self).scopes(), token.content@),
    {
        self.record(token, Status::Declared)
    }

    fn define(&mut self, token: &Token)
        ensures
            final(self).scopes() == define(old(self).scopes(), token.content@),
    {
        self.record(token, Status::Defined)
    }

    fn end_scope(&mut self)
        ensures
            final(self).scopes() == if old(self).scopes().len() > 0 {
                old(self).scopes().drop_last()
            } else {
                old(self).scopes()
            },
    {
        let _ = self.scopes.pop();
        proof {
            if old(self).scopes().len() > 0 {
                assert(self.scopes() =~= old(self).scopes().drop_last());
            }
        }
    }

    fn visit_assign_expr(&mut self, assign_expr: &mut AssignExpr, token: &Token) -> (r:
        ResolverResult)
        ensures
            final(self).scopes() == old(self).scopes(),
            ({
                let inner = resolve_expr(old(assign_expr).initializer@, old(self).scopes());
                let found = resolve_local(old(self).scopes(), *token);
                &&& final(assign_expr).initializer@ == inner.node
                &&& if inner.error is Some {
                    final(assign_expr).depth == old(assign_expr).depth && ended(r, inner.error)
                } else {
                    final(assign_expr).depth == depth_after(found, old(assign_expr).depth) && ended(
                        r,
                        error_of(found),
                    )
                }
            }),
        decreases *old(assign_expr), 0int,
    {
        self.visit_expr(&mut assign_expr.initializer)?;
        self.resolve_local(&mut assign_expr.depth, token)?;
        Ok(())
    }

    fn visit_binary_expr(&mut self, binary_expr: &mut BinaryExpr) -> (r: ResolverResult)
        ensures
            final(self).scopes() == old(self).scopes(),
            ({
                let first = resolve_expr(old(binary_expr).left@, old(self).scopes());
                let second = resolve_expr(old(binary_expr).right@, old(self).scopes());
                &&& final(binary_expr).left@ == first.node
                &&& if first.error is Some {
                    final(binary_expr).right@ == old(binary_expr).right@ && ended(r, first.error)
                } else {
                    final(binary_expr).right@ == second.node && ended(r, second.error)
                }
            }),
        decreases *old(binary_expr), 0int,
    {
        self.visit_expr(&mut binary_expr.left)?;
        self.visit_expr(&mut binary_expr.right)?;
        Ok(())
    }

    fn visit_block(&mut self, block: &mut Vec<Declaration>) -> (r: ResolverResult)
        ensures
            ({
                let inner = resolve_declarations(
                    declarations_view(old(block)@),
                    0,
                    old(self).scopes().push(Map::empty()),
                    Seq::empty(),
                );
                &&& declarations_view(final(block)@) == inner.node
                &&& ended(r, inner.error)
                &&& final(self).scopes() == if inner.error is Some {
                    inner.scopes
                } else {
                    old(self).scopes()
                }
            }),
        decreases *old(block), 1int,
    {
        let ghost before = self.scopes();
        self.begin_scope();
        proof {
            lemma_declarations_keep_outer(
                declarations_view(block@),
                0,
                before.push(Map::empty()),
                Seq::empty(),
            );
            assert(before.push(Map::empty()).drop_last() =~= before);
        }
        self.visit_declarations(block)?;
        self.end_scope();
        Ok(())
    }

    fn visit_call(&mut self, call: &mut Call) -> (r: ResolverResult)
        ensures
            final(self).scopes() == old(self).scopes(),
            ({
                let first = resolve_expr(old(call).callee@, old(self).scopes());
                let rest = resolve_exprs(
                    exprs_view(old(call).arguments@),
                    0,
                    old(self).scopes(),
                    Seq::empty(),
                );
                &&& final(call).callee@ == first.node
                &&& if first.error is Some {
                    exprs_view(final(call).arguments@) == exprs_view(old(call).arguments@) && ended(
                        r,
                        first.error,
                    )
                } else {
                    exprs_view(final(call).arguments@) == rest.node && ended(r, rest.error)
                }
            }),
        decreases *old(call), 0int,
    {
        let ghost scopes = self.scopes();
        let ghost before = call.arguments@;
        let ghost views = exprs_view(before);
        self.visit_expr(&mut call.callee)?;
        let ghost callee = call.callee;
        let n = call.arguments.len();
        let mut i: usize = 0;
        proof {
            assert(exprs_view(call.arguments@).take(0) =~= Seq::<ExprView>::empty());
        }
        while i < n
            invariant
                i <= n,
                n == before.len(),
                n == call.arguments.len(),
                call.callee == callee,
                self.scopes() == scopes,
                scopes == old(self).scopes(),
                before == old(call).arguments@,
                resolve_expr(old(call).callee@, scopes).error is None,
                resolve_expr(old(call).callee@, scopes).node == callee@,
                views == exprs_view(before),
                forall|j: int| i <= j < n ==> #[trigger] call.arguments@[j] == before[j],
                forall|j: int| 0 <= j < n ==> decreases_to!(*old(call) => #[trigger] before[j]),
                resolve_exprs(views, i as int, scopes, exprs_view(call.arguments@).take(i as int))
                    == resolve_exprs(views, 0, scopes, Seq::empty()),
            decreases n - i,
        {
            let ghost done = exprs_view(call.arguments@).take(i as int);
            proof {
                lemma_resolve_exprs(views, i as int, scopes, done);
            }
            let one = self.visit_expr(&mut call.arguments[i]);
            proof {
                assert(exprs_view(call.arguments@).take(i + 1) =~= done.push(
                    call.arguments@[i as int]@,
                ));
            }
            match one {
                Ok(()) => {},
                Err(error) => {
                    proof {
                        assert(exprs_view(call.arguments@) =~= done.push(call.arguments@[i as int]@)
                            + views.subrange(i + 1, n as int));
                    }
                    return Err(error);
                },
            }
            i += 1;
        }
        proof {
            lemma_resolve_exprs(views, n as int, scopes, exprs_view(call.arguments@).take(n as int));
            assert(exprs_view(call.arguments@).take(n as int) =~= exprs_view(call.arguments@));
        }
        Ok(())
    }

    fn visit_class(&mut self, class: &mut Class) -> (r: ResolverResult)
        ensures
            ({
                let out = resolve_class(old(class)@, old(self).scopes());
                &&& final(class)@ == out.node
                &&& final(self).scopes() == out.scopes
                &&& ended(r, out.error)
            }),
        decreases *old(class), 1int,
    {
        let ghost entry = self.scopes();
        let ghost model = class@;
        proof {
            lemma_resolve_class(model, entry);
            assert(model.methods =~= functions_view(class.methods@));
        }
        self.define(&class.name);
        let ghost defined = self.scopes();
        let mut inherits = false;
        match &mut class.superclass {
            Some(superclass_expr) => {
                if crate::text::same_text(
                    superclass_expr.token.content.as_str(),
                    class.name.content.as_str(),
                ) {
                    return error("A class cannot inherit from itself.", superclass_expr.token.clone());
                }
                match &mut superclass_expr.kind {
                    ExprKind::Variable(depth) => {
                        self.resolve_local(depth, &superclass_expr.token)?;
                    },
                    _ => {
                        return error("Superclass must be a class name.", superclass_expr.token.clone());
                    },
                }
                inherits = true;
            },
            None => {},
        }
        proof {
            assert(resolve_superclass(model.superclass, model.name, defined).node
                == class@.superclass);
            assert(resolve_superclass(model.superclass, model.name, defined).error is None);
        }
        if inherits {
            self.begin_scope_with("super");
        }
        self.begin_scope_with("this");
        let ghost inner = self.scopes();
        let ghost before = class.methods@;
        let ghost views = functions_view(before);
        let ghost name = class.name;
        let ghost superclass = class.superclass;
        let n = class.methods.len();
        let mut i: usize = 0;
        proof {
            assert(functions_view(class.methods@).take(0) =~= Seq::<FunctionView>::empty());
        }
        while i < n
            invariant
                i <= n,
                n == before.len(),
                n == class.methods.len(),
                class.name == name,
                class.superclass == superclass,
                self.scopes() == inner,
                model == old(class)@,
                name == old(class).name,
                entry == old(self).scopes(),
                defined == define(entry, model.name.content@),
                resolve_superclass(model.superclass, model.name, defined).node == option_expr_view(
                    superclass,
                ),
                resolve_superclass(model.superclass, model.name, defined).error is None,
                inner == (if superclass is Some {
                    defined.push(super_scope())
                } else {
                    defined
                }).push(this_scope()),
                model.methods == views,
                views == functions_view(before),
                forall|j: int| i <= j < n ==> #[trigger] class.methods@[j] == before[j],
                forall|j: int| 0 <= j < n ==> decreases_to!(*old(class) => #[trigger] before[j]),
                resolve_methods(views, i as int, inner, functions_view(class.methods@).take(i as int))
                    == resolve_methods(views, 0, inner, Seq::empty()),
            decreases n - i,
        {
            let ghost done = functions_view(class.methods@).take(i as int);
            proof {
                lemma_resolve_methods(views, i as int, inner, done);
                lemma_resolve_class(model, entry);
                lemma_resolve_function(views[i as int], inner);
            }
            let one = self.visit_function(&mut class.methods[i]);
            proof {
                assert(functions_view(class.methods@).take(i + 1) =~= done.push(
                    class.methods@[i as int]@,
                ));
            }
            match one {
                Ok(()) => {},
                Err(error) => {
                    proof {
                        assert(functions_view(class.methods@) =~= done.push(
                            class.methods@[i as int]@,
                        ) + views.subrange(i + 1, n as int));
                        assert(class@.methods =~= functions_view(class.methods@));
                    }
                    return Err(error);
                },
            }
            i += 1;
        }
        proof {
            lemma_resolve_methods(views, n as int, inner, functions_view(class.methods@).take(n as int));
            assert(functions_view(class.methods@).take(n as int) =~= functions_view(class.methods@));
            assert(class@.methods =~= functions_view(class.methods@));
        }
        self.end_scope();
        if inherits {
            self.end_scope();
        }
        proof {
            assert(self.scopes() =~= defined);
        }
        Ok(())
    }

    fn visit_declarations(&mut self, declarations: &mut Vec<Declaration>) -> (r: ResolverResult)
        ensures
            ({
                let out = resolve_declarations(
                    declarations_view(old(declarations)@),
                    0,
                    old(self).scopes(),
                    Seq::empty(),
                );
                &&& declarations_view(final(declarations)@) == out.node
                &&& final(self).scopes() == out.scopes
                &&& ended(r, out.error)
            }),
        decreases *old(declarations), 0int,
    {
        let ghost entry = self.scopes();
        let ghost before = declarations@;
        let ghost views = declarations_view(before);
        let n = declarations.len();
        let mut i: usize = 0;
        proof {
            assert(declarations_view(declarations@).take(0) =~= Seq::<DeclarationView>::empty());
        }
        while i < n
            invariant
                i <= n,
                n == before.len(),
                n == declarations.len(),
                entry == old(self).scopes(),
                before == old(declarations)@,
                views == declarations_view(before),
                forall|j: int| i <= j < n ==> #[trigger] declarations@[j] == before[j],
                forall|j: int|
                    0 <= j < n ==> decreases_to!(*old(declarations) => #[trigger] before[j]),
                resolve_declarations(
                    views,
                    i as int,
                    self.scopes(),
                    declarations_view(declarations@).take(i as int),
                ) == resolve_declarations(views, 0, entry, Seq::empty()),
            decreases n - i,
        {
            let ghost done = declarations_view(declarations@).take(i as int);
            proof {
                lemma_resolve_declarations(views, i as int, self.scopes(), done);
            }
            let one = self.visit_declaration(&mut declarations[i]);
            proof {
                assert(declarations_view(declarations@).take(i + 1) =~= done.push(
                    declarations@[i as int]@,
                ));
            }
            match one {
                Ok(()) => {},
                Err(error) => {
                    proof {
                        assert(declarations_view(declarations@) =~= done.push(
                            declarations@[i as int]@,
                        ) + views.subrange(i + 1, n as int));
                    }
                    return Err(error);
                },
            }
            i += 1;
        }
        proof {
            lemma_resolve_declarations(
                views,
                n as int,
                self.scopes(),
                declarations_view(declarations@).take(n as int),
            );
            assert(declarations_view(declarations@).take(n as int) =~= declarations_view(
                declarations@,
            ));
        }
        Ok(())
    }

    fn visit_declaration(&mut self, declaration: &mut Declaration) -> (r: ResolverResult)
        ensures
            ({
                let out = resolve_declaration(old(declaration)@, old(self).scopes());
                &&& final(declaration)@ == out.node
                &&& final(self).scopes() == out.scopes
                &&& ended(r, out.error)
            }),
        decreases *old(declaration), 0int,
    {
        proof {
            lemma_resolve_declaration(declaration@, self.scopes());
        }
        let r = match declaration {
            Declaration::Class(class) => self.visit_class(class),
            Declaration::FunDeclaration(fun_declaration) => self.visit_fun_declaration(
                fun_declaration,
            ),
            Declaration::Statement(statement) => self.visit_statement(statement),
            Declaration::VarDeclaration(var_declaration) => self.visit_var_declaration(
                var_declaration,
            ),
        };
        proof {
            assert(*old(declaration) is Class ==> *declaration is Class);
        }
        r
    }

    fn visit_expr(&mut self, expr: &mut Expr) -> (r: ResolverResult)
        ensures
            final(self).scopes() == old(self).scopes(),
            final(expr)@ == resolve_expr(old(expr)@, old(self).scopes()).node,
            ended(r, resolve_expr(old(expr)@, old(self).scopes()).error),
        decreases *old(expr), 1int,
    {
        proof {
            lemma_resolve_expr(expr@, self.scopes());
        }
        let r = match &mut expr.kind {
            ExprKind::Assign(assign_expr) => self.visit_assign_expr(assign_expr, &expr.token),
            ExprKind::Binary(binary_expr) => self.visit_binary_expr(binary_expr),
            ExprKind::Call(call) => self.visit_call(call),
            ExprKind::Get(object) => self.visit_expr(object),
            ExprKind::Grouping(inner) => self.visit_expr(inner),
            ExprKind::Literal => Ok(()),
            ExprKind::Logical(binary_expr) => self.visit_binary_expr(binary_expr),
            ExprKind::SetExpr(set) => self.visit_set(set),
            ExprKind::This(depth) => self.visit_this(depth, &expr.token),
            ExprKind::Unary(inner_expr) => self.visit_expr(inner_expr),
            ExprKind::Variable(depth) => self.visit_var_expr(depth, &expr.token),
            ExprKind::Super(_method, depth) => self.visit_super(depth, &expr.token),
        };
        proof {
            if expr.kind is Call {
                assert(expr@->Call_arguments =~= exprs_view(expr.kind->Call_0.arguments@));
                assert(old(expr)@->Call_arguments =~= exprs_view(old(expr).kind->Call_0.arguments@));
            }
        }
        r
    }

    fn visit_for_statement(&mut self, for_statement: &mut For) -> (r: ResolverResult)
        ensures
            ({
                let out = resolve_statement(
                    Statement::For(Box::new(*old(for_statement)))@,
                    old(self).scopes(),
                );
                &&& Statement::For(Box::new(*final(for_statement)))@ == out.node
                &&& final(self).scopes() == out.scopes
                &&& ended(r, out.error)
            }),
        decreases *old(for_statement), 0int,
    {
        let ghost entry = self.scopes();
        proof {
            lemma_resolve_statement(Statement::For(Box::new(*for_statement))@, entry);
            assert(entry.push(Map::empty()).drop_last() =~= entry);
        }
        self.begin_scope();
        let ghost opened = self.scopes();
        if let Some(initializer) = &mut for_statement.initializer {
            proof {
                if *initializer is VarDeclaration {
                    let d = initializer->VarDeclaration_0;
                    lemma_resolve_var_declaration(d@, opened);
                    lemma_record_keeps_outer(opened, d.name.content@, Status::Declared);
                    lemma_record_keeps_outer(
                        declare(opened, d.name.content@),
                        d.name.content@,
                        Status::Defined,
                    );
                }
            }
            self.visit_initializer(initializer)?;
        }
        let ghost inner = self.scopes();
        proof {
            lemma_statement_restores(for_statement.body@, inner);
        }
        self.visit_option_expr(&mut for_statement.cond)?;
        self.visit_option_expr(&mut for_statement.increment)?;
        self.visit_statement(&mut for_statement.body)?;
        self.end_scope();
        Ok(())
    }

    /// Resolves the body of a function or method in a scope of its own that
    /// holds the parameters.
    fn visit_function(&mut self, function: &mut FunDeclaration) -> (r: ResolverResult)
        ensures
            ({
                let out = resolve_function(old(function)@, old(self).scopes());
                &&& final(function)@ == out.node
                &&& final(self).scopes() == out.scopes
                &&& ended(r, out.error)
            }),
        decreases *old(function), 0int,
    {
        let ghost entry = self.scopes();
        let ghost opened = entry.push(Map::empty());
        let ghost params = function.params@;
        proof {
            lemma_resolve_function(function@, entry);
            assert(function@.body =~= declarations_view(function.body@));
        }
        self.begin_scope();
        let n = function.params.len();
        let mut i: usize = 0;
        while i < n
            invariant
                i <= n,
                n == function.params.len(),
                function.params@ == params,
                *function == *old(function),
                define_all(self.scopes(), params, i as int) == define_all(opened, params, 0),
            decreases n - i,
        {
            self.define(&function.params[i]);
            i += 1;
        }
        proof {
            lemma_define_all_keeps_outer(opened, params, 0);
            lemma_declarations_keep_outer(
                declarations_view(function.body@),
                0,
                self.scopes(),
                Seq::empty(),
            );
            assert(opened.drop_last() =~= entry);
        }
        let body = self.visit_declarations(&mut function.body);
        proof {
            assert(function@.body =~= declarations_view(function.body@));
        }
        body?;
        self.end_scope();
        Ok(())
    }

    fn visit_fun_declaration(&mut self, fun_declaration: &mut FunDeclaration) -> (r:
        ResolverResult)
        ensures
            ({
                let declared = declare(old(self).scopes(), old(fun_declaration).name.content@);
                let inner = resolve_function(old(fun_declaration)@, declared);
                &&& final(fun_declaration)@ == inner.node
                &&& ended(r, inner.error)
                &&& final(self).scopes() == if inner.error is Some {
                    inner.scopes
                } else {
                    define(declared, old(fun_declaration).name.content@)
                }
            }),
        decreases *old(fun_declaration), 1int,
    {
        self.declare(&fun_declaration.name);
        proof {
            lemma_resolve_function(fun_declaration@, self.scopes());
        }
        self.visit_function(fun_declaration)?;
        self.define(&fun_declaration.name);
        Ok(())
    }

    fn visit_if_statement(&mut self, if_statement: &mut If) -> (r: ResolverResult)
        ensures
            ({
                let out = resolve_statement(
                    Statement::If(Box::new(*old(if_statement)))@,
                    old(self).scopes(),
                );
                &&& Statement::If(Box::new(*final(if_statement)))@ == out.node
                &&& final(self).scopes() == out.scopes
                &&& ended(r, out.error)
            }),
        decreases *old(if_statement), 0int,
    {
        proof {
            lemma_resolve_statement(Statement::If(Box::new(*if_statement))@, self.scopes());
            lemma_statement_restores(if_statement.true_branch@, self.scopes());
        }
        self.visit_expr(&mut if_statement.cond)?;
        self.visit_statement(&mut if_statement.true_branch)?;
        if let Some(else_branch) = &mut if_statement.else_branch {
            self.visit_statement(else_branch)
        } else {
            Ok(())
        }
    }

    fn visit_initializer(&mut self, initializer: &mut Initializer) -> (r: ResolverResult)
        ensures
            ({
                let out = resolve_initializer(Some(old(initializer)@), old(self).scopes());
                &&& Some(final(initializer)@) == out.node
                &&& final(self).scopes() == out.scopes
                &&& ended(r, out.error)
            }),
        decreases *old(initializer), 2int,
    {
        match initializer {
            Initializer::VarDeclaration(var_declaration) => self.visit_var_declaration(
                var_declaration,
            ),
            Initializer::Expr(expr) => self.visit_expr(expr),
        }
    }

    fn visit_option_expr(&mut self, option_expr: &mut Option<Expr>) -> (r: ResolverResult)
        ensures
            final(self).scopes() == old(self).scopes(),
            option_expr_view(*final(option_expr)) == resolve_option_expr(
                option_expr_view(*old(option_expr)),
                old(self).scopes(),
            ).node,
            ended(
                r,
                resolve_option_expr(option_expr_view(*old(option_expr)), old(self).scopes()).error,
            ),
        decreases *old(option_expr), 2int,
    {
        proof {
            lemma_resolve_option_expr(option_expr_view(*option_expr), self.scopes());
        }
        if let Some(expr) = option_expr {
            self.visit_expr(expr)
        } else {
            Ok(())
        }
    }

    fn visit_set(&mut self, set: &mut SetExpr) -> (r: ResolverResult)
        ensures
            final(self).scopes() == old(self).scopes(),
            ({
                let first = resolve_expr(old(set).object@, old(self).scopes());
                let second = resolve_expr(old(set).value@, old(self).scopes());
                &&& final(set).object@ == first.node
                &&& if first.error is Some {
                    final(set).value@ == old(set).value@ && ended(r, first.error)
                } else {
                    final(set).value@ == second.node && ended(r, second.error)
                }
            }),
        decreases *old(set), 0int,
    {
        self.visit_expr(&mut set.object)?;
        self.visit_expr(&mut set.value)
    }

    fn visit_this(&mut self, depth: &mut Option<u32>, token: &Token) -> (r: ResolverResult)
        ensures
            final(self).scopes() == old(self).scopes(),
            *final(depth) == depth_after(resolve_use(old(self).scopes(), *token), *old(depth)),
            ended(r, error_of(resolve_use(old(self).scopes(), *token))),
    {
        self.visit_var_expr(depth, token)
    }

    fn visit_var_declaration(&mut self, declaration: &mut VarDeclaration) -> (r: ResolverResult)
        ensures
            ({
                let out = resolve_var_declaration(old(declaration)@, old(self).scopes());
                &&& final(declaration)@ == out.node
                &&& final(self).scopes() == out.scopes
                &&& ended(r, out.error)
            }),
        decreases *old(declaration), 3int,
    {
        proof {
            lemma_resolve_var_declaration(declaration@, self.scopes());
        }
        self.declare(&declaration.name);
        self.visit_option_expr(&mut declaration.initializer)?;
        self.define(&declaration.name);
        Ok(())
    }

    fn visit_var_expr(&mut self, depth: &mut Option<u32>, token: &Token) -> (r: ResolverResult)
        ensures
            final(self).scopes() == old(self).scopes(),
            *final(depth) == depth_after(resolve_use(old(self).scopes(), *token), *old(depth)),
            ended(r, error_of(resolve_use(old(self).scopes(), *token))),
    {
        let n = self.scopes.len();
        if n > 0 {
            if let Some(status) = self.scopes[n - 1].get(token.content.as_str()) {
                if *status == Status::Declared {
                    return error("Can't read local variable in its own initializer", token.clone());
                }
            }
        }
        self.resolve_local(depth, token)?;
        Ok(())
    }

    fn visit_return_expr(&mut self, return_expr: &mut Option<Expr>) -> (r: ResolverResult)
        ensures
            final(self).scopes() == old(self).scopes(),
            option_expr_view(*final(return_expr)) == resolve_option_expr(
                option_expr_view(*old(return_expr)),
                old(self).scopes(),
            ).node,
            ended(
                r,
                resolve_option_expr(option_expr_view(*old(return_expr)), old(self).scopes()).error,
            ),
        decreases *old(return_expr), 3int,
    {
        self.visit_option_expr(return_expr)
    }

    fn visit_statement(&mut self, statement: &mut Statement) -> (r: ResolverResult)
        ensures
            ({
                let out = resolve_statement(old(statement)@, old(self).scopes());
                &&& final(statement)@ == out.node
                &&& final(self).scopes() == out.scopes
                &&& ended(r, out.error)
            }),
        decreases *old(statement), 1int,
    {
        proof {
            lemma_resolve_statement(statement@, self.scopes());
        }
        let r = match statement {
            Statement::Block(declarations) => self.visit_block(declarations),
            Statement::ExprStatement(expr) => self.visit_expr(expr),
            Statement::If(if_statement) => self.visit_if_statement(if_statement),
            Statement::For(for_statement) => self.visit_for_statement(for_statement),
            Statement::Print(expr) => self.visit_expr(expr),
            Statement::Return(return_expr) => self.visit_return_expr(return_expr),
            Statement::While(while_statement) => self.visit_while_statement(while_statement),
        };
        proof {
            if *statement is Block {
                assert(statement@->Block_0 =~= declarations_view(statement->Block_0@));
                assert(old(statement)@->Block_0 =~= declarations_view(old(statement)->Block_0@));
            }
        }
        r
    }

    fn visit_super(&mut self, depth: &mut Option<u32>, token: &Token) -> (r: ResolverResult)
        ensures
            final(self).scopes() == old(self).scopes(),
            *final(depth) == depth_after(resolve_use(old(self).scopes(), *token), *old(depth)),
            ended(r, error_of(resolve_use(old(self).scopes(), *token))),
    {
        self.visit_var_expr(depth, token)
    }

    fn visit_while_statement(&mut self, while_statement: &mut While) -> (r: ResolverResult)
        ensures
            ({
                let out = resolve_statement(
                    Statement::While(Box::new(*old(while_statement)))@,
                    old(self).scopes(),
                );
                &&& Statement::While(Box::new(*final(while_statement)))@ == out.node
                &&& final(self).scopes() == out.scopes
                &&& ended(r, out.error)
            }),
        decreases *old(while_statement), 0int,
    {
        proof {
            lemma_resolve_statement(Statement::While(Box::new(*while_statement))@, self.scopes());
        }
        self.visit_expr(&mut while_statement.cond)?;
        self.visit_statement(&mut while_statement.body)
    }

    /// Writes into `depth` the distance from the innermost scope to the
    /// nearest scope that holds the name of `token`, or `None` if none does.
    fn resolve_local(&mut self, depth: &mut Option<u32>, token: &Token) -> (r: ResolverResult)
        ensures
            final(self).scopes() == old(self).scopes(),
            *final(depth) == depth_after(resolve_local(old(self).scopes(), *token), *old(depth)),
            ended(r, error_of(resolve_local(old(self).scopes(), *token))),
    {
        let n = self.scopes.len();
        let mut i = n;
        let ghost scopes = self.scopes();
        proof {
            lemma_distance_skip(scopes, token.content@, n as int);
        }
        while i > 0
            invariant
                i <= n,
                n == self.scopes.len(),
                scopes == self.scopes(),
                self.scopes() == old(self).scopes(),
                *depth == *old(depth),
                forall|j: int| i <= j < n ==> !(#[trigger] scopes[j]).dom().contains(token.content@),
            decreases i,
        {
            i -= 1;
            if self.scopes[i].contains_key(token.content.as_str()) {
                proof {
                    lemma_distance_skip(scopes, token.content@, i + 1);
                    assert(scopes.take(i + 1).last() == scopes[i as int]);
                }
                let found = n - 1 - i;
                if found <= u32::MAX as usize {
                    *depth = Some(found as u32);
                    return Ok(());
                } else {
                    return error("Exceeded maximum scope depth.", token.clone());
                }
            }
        }
        proof {
            lemma_distance_skip(scopes, token.content@, 0);
            assert(scopes.take(0) =~= Seq::<ScopeView>::empty());
        }
        *depth = None;
        Ok(())
    }
}

} // verus!
