//! The syntax tree, and its mathematical model.
//!
//! The executable tree holds its children in `Vec` and `Box`; the model
//! (`ExprView`, `StatementView`, ...) holds them in `Seq`, and is what the
//! contracts of the parser and the resolver speak of.

use vstd::prelude::*;

use crate::token::Token;

verus! {

/// The distance from a use of a name to the scope that binds it; `None` for a global.
pub type Depth = Option<u32>;

pub type Class = ClassStruct;

pub type FunDeclaration = FunDeclarationStruct;

#[derive(Debug)]
pub struct Ast {
    pub declarations: Vec<Declaration>,
}

/// A class declaration. Its methods are kept in the order of their first
/// declaration; the parser lets a later method replace an earlier one of the same name.
#[derive(Debug)]
pub struct ClassStruct {
    pub methods: Vec<FunDeclarationStruct>,
    pub name: Token,
    pub superclass: Option<Expr>,
}

#[derive(Debug)]
pub enum Declaration {
    Class(ClassStruct),
    Statement(Statement),
    VarDeclaration(VarDeclaration),
    FunDeclaration(FunDeclarationStruct),
}

#[derive(Debug)]
pub struct VarDeclaration {
    pub name: Token,
    pub initializer: Option<Expr>,
}

#[derive(Debug)]
pub struct FunDeclarationStruct {
    pub body: Vec<Declaration>,
    pub name: Token,
    pub params: Vec<Token>,
}

#[derive(Debug)]
pub struct If {
    pub cond: Expr,
    pub true_branch: Statement,
    pub else_branch: Option<Statement>,
}

#[derive(Debug)]
pub struct While {
    pub cond: Expr,
    pub body: Statement,
}

#[derive(Debug)]
pub enum Initializer {
    VarDeclaration(VarDeclaration),
    Expr(Expr),
}

#[derive(Debug)]
pub struct For {
    pub initializer: Option<Initializer>,
    pub cond: Option<Expr>,
    pub increment: Option<Expr>,
    pub body: Statement,
}

#[derive(Debug)]
pub enum Statement {
    Block(Vec<Declaration>),
    ExprStatement(Expr),
    For(Box<For>),
    If(Box<If>),
    Print(Expr),
    Return(Option<Expr>),
    While(Box<While>),
}

#[derive(Debug)]
pub struct AssignExpr {
    pub depth: Depth,
    pub initializer: Box<Expr>,
}

/// An expression: its kind and the token it hangs on (the operator, the
/// name, the closing parenthesis of a call, the property of an access).
#[derive(Debug)]
pub struct Expr {
    pub kind: ExprKind,
    pub token: Token,
}

#[derive(Debug)]
pub struct Call {
    pub arguments: Vec<Expr>,
    pub callee: Expr,
}

/// A property assignment: the object and the value stored in it.
#[derive(Debug)]
pub struct SetExpr {
    pub object: Expr,
    pub value: Expr,
}

#[derive(Debug)]
pub enum ExprKind {
    Assign(AssignExpr),
    Binary(Box<BinaryExpr>),
    Call(Box<Call>),
    Get(Box<Expr>),
    Grouping(Box<Expr>),
    Literal,
    Logical(Box<BinaryExpr>),
    SetExpr(Box<SetExpr>),
    This(Option<u32>),
    Unary(Box<Expr>),
    Variable(Option<u32>),
    Super(Token, Option<u32>),
}

#[derive(Debug)]
pub struct BinaryExpr {
    pub left: Expr,
    pub right: Expr,
}

/// The model of an expression.
pub enum ExprView {
    Assign { name: Token, depth: Depth, value: Box<ExprView> },
    Binary { left: Box<ExprView>, operator: Token, right: Box<ExprView> },
    Call { callee: Box<ExprView>, arguments: Seq<ExprView>, paren: Token },
    Get { object: Box<ExprView>, name: Token },
    Grouping { token: Token, inner: Box<ExprView> },
    Literal { token: Token },
    Logical { left: Box<ExprView>, operator: Token, right: Box<ExprView> },
    SetExpr { object: Box<ExprView>, name: Token, value: Box<ExprView> },
    This { keyword: Token, depth: Depth },
    Unary { operator: Token, operand: Box<ExprView> },
    Variable { name: Token, depth: Depth },
    Super { keyword: Token, method: Token, depth: Depth },
}

pub struct VarDeclarationView {
    pub name: Token,
    pub initializer: Option<ExprView>,
}

pub enum InitializerView {
    VarDeclaration(VarDeclarationView),
    Expr(ExprView),
}

/// The model of a statement.
#[allow(inconsistent_fields)]
pub enum StatementView {
    Block(Seq<DeclarationView>),
    ExprStatement(ExprView),
    For {
        initializer: Option<InitializerView>,
        cond: Option<ExprView>,
        increment: Option<ExprView>,
        body: Box<StatementView>,
    },
    If { cond: ExprView, true_branch: Box<StatementView>, else_branch: Option<Box<StatementView>> },
    Print(ExprView),
    Return(Option<ExprView>),
    While { cond: ExprView, body: Box<StatementView> },
}

/// The model of a function or method declaration.
pub struct FunctionView {
    pub name: Token,
    pub params: Seq<Token>,
    pub body: Seq<DeclarationView>,
}

/// The model of a class declaration.
pub struct ClassView {
    pub name: Token,
    pub superclass: Option<ExprView>,
    pub methods: Seq<FunctionView>,
}

/// The model of a declaration.
pub enum DeclarationView {
    Class(ClassView),
    Statement(StatementView),
    VarDeclaration(VarDeclarationView),
    FunDeclaration(FunctionView),
}

/// The model of a program.
pub struct AstView {
    pub declarations: Seq<DeclarationView>,
}

/// The model of the expression `e`.
pub open spec fn expr_view(e: Expr) -> ExprView
    decreases e,
{
    match e.kind {
        ExprKind::Assign(assign) => ExprView::Assign {
            name: e.token,
            depth: assign.depth,
            value: Box::new(expr_view(*assign.initializer)),
        },
        ExprKind::Binary(binary) => ExprView::Binary {
            left: Box::new(expr_view(binary.left)),
            operator: e.token,
            right: Box::new(expr_view(binary.right)),
        },
        ExprKind::Call(call) => ExprView::Call {
            callee: Box::new(expr_view(call.callee)),
            arguments: Seq::new(
                call.arguments.len() as nat,
                |i: int|
                    if 0 <= i < call.arguments.len() {
                        expr_view(call.arguments[i])
                    } else {
                        arbitrary()
                    },
            ),
            paren: e.token,
        },
        ExprKind::Get(object) => ExprView::Get { object: Box::new(expr_view(*object)), name: e.token },
        ExprKind::Grouping(inner) => ExprView::Grouping {
            token: e.token,
            inner: Box::new(expr_view(*inner)),
        },
        ExprKind::Literal => ExprView::Literal { token: e.token },
        ExprKind::Logical(binary) => ExprView::Logical {
            left: Box::new(expr_view(binary.left)),
            operator: e.token,
            right: Box::new(expr_view(binary.right)),
        },
        ExprKind::SetExpr(set) => ExprView::SetExpr {
            object: Box::new(expr_view(set.object)),
            name: e.token,
            value: Box::new(expr_view(set.value)),
        },
        ExprKind::This(depth) => ExprView::This { keyword: e.token, depth },
        ExprKind::Unary(operand) => ExprView::Unary {
            operator: e.token,
            operand: Box::new(expr_view(*operand)),
        },
        ExprKind::Variable(depth) => ExprView::Variable { name: e.token, depth },
        ExprKind::Super(method, depth) => ExprView::Super { keyword: e.token, method, depth },
    }
}

/// The models of a list of expressions, in order.
pub open spec fn exprs_view(list: Seq<Expr>) -> Seq<ExprView> {
    Seq::new(list.len(), |i: int| expr_view(list[i]))
}

/// The model of an optional expression.
pub open spec fn option_expr_view(e: Option<Expr>) -> Option<ExprView> {
    match e {
        Some(e) => Some(expr_view(e)),
        None => None,
    }
}

pub open spec fn var_declaration_view(d: VarDeclaration) -> VarDeclarationView {
    VarDeclarationView { name: d.name, initializer: option_expr_view(d.initializer) }
}

pub open spec fn initializer_view(i: Initializer) -> InitializerView {
    match i {
        Initializer::VarDeclaration(d) => InitializerView::VarDeclaration(var_declaration_view(d)),
        Initializer::Expr(e) => InitializerView::Expr(expr_view(e)),
    }
}

/// The model of the statement `s`.
pub open spec fn statement_view(s: Statement) -> StatementView
    decreases s,
{
    match s {
        Statement::Block(declarations) => StatementView::Block(
            Seq::new(
                declarations.len() as nat,
                |i: int|
                    if 0 <= i < declarations.len() {
                        declaration_view(declarations[i])
                    } else {
                        arbitrary()
                    },
            ),
        ),
        Statement::ExprStatement(e) => StatementView::ExprStatement(expr_view(e)),
        Statement::For(f) => StatementView::For {
            initializer: match f.initializer {
                Some(i) => Some(initializer_view(i)),
                None => None,
            },
            cond: option_expr_view(f.cond),
            increment: option_expr_view(f.increment),
            body: Box::new(statement_view(f.body)),
        },
        Statement::If(i) => StatementView::If {
            cond: expr_view(i.cond),
            true_branch: Box::new(statement_view(i.true_branch)),
            else_branch: match i.else_branch {
                Some(e) => Some(Box::new(statement_view(e))),
                None => None,
            },
        },
        Statement::Print(e) => StatementView::Print(expr_view(e)),
        Statement::Return(e) => StatementView::Return(option_expr_view(e)),
        Statement::While(w) => StatementView::While {
            cond: expr_view(w.cond),
            body: Box::new(statement_view(w.body)),
        },
    }
}

/// The model of the function declaration `f`.
pub open spec fn function_view(f: FunDeclarationStruct) -> FunctionView
    decreases f,
{
    FunctionView {
        name: f.name,
        params: f.params@,
        body: Seq::new(
            f.body.len() as nat,
            |i: int|
                if 0 <= i < f.body.len() {
                    declaration_view(f.body[i])
                } else {
                    arbitrary()
                },
        ),
    }
}

/// The model of the class declaration `c`.
pub open spec fn class_view(c: ClassStruct) -> ClassView
    decreases c,
{
    ClassView {
        name: c.name,
        superclass: option_expr_view(c.superclass),
        methods: Seq::new(
            c.methods.len() as nat,
            |i: int|
                if 0 <= i < c.methods.len() {
                    function_view(c.methods[i])
                } else {
                    arbitrary()
                },
        ),
    }
}

/// The model of the declaration `d`.
pub open spec fn declaration_view(d: Declaration) -> DeclarationView
    decreases d,
{
    match d {
        Declaration::Class(c) => DeclarationView::Class(class_view(c)),
        Declaration::Statement(s) => DeclarationView::Statement(statement_view(s)),
        Declaration::VarDeclaration(v) => DeclarationView::VarDeclaration(var_declaration_view(v)),
        Declaration::FunDeclaration(f) => DeclarationView::FunDeclaration(function_view(f)),
    }
}

/// The models of a list of declarations, in order.
pub open spec fn declarations_view(list: Seq<Declaration>) -> Seq<DeclarationView> {
    Seq::new(list.len(), |i: int| declaration_view(list[i]))
}

/// The models of a list of function declarations, in order.
pub open spec fn functions_view(list: Seq<FunDeclarationStruct>) -> Seq<FunctionView> {
    Seq::new(list.len(), |i: int| function_view(list[i]))
}

impl View for Expr {
    type V = ExprView;

    open spec fn view(&self) -> ExprView {
        expr_view(*self)
    }
}

impl View for Statement {
    type V = StatementView;

    open spec fn view(&self) -> StatementView {
        statement_view(*self)
    }
}

impl View for VarDeclaration {
    type V = VarDeclarationView;

    open spec fn view(&self) -> VarDeclarationView {
        var_declaration_view(*self)
    }
}

impl View for Initializer {
    type V = InitializerView;

    open spec fn view(&self) -> InitializerView {
        initializer_view(*self)
    }
}

impl View for FunDeclarationStruct {
    type V = FunctionView;

    open spec fn view(&self) -> FunctionView {
        function_view(*self)
    }
}

impl View for ClassStruct {
    type V = ClassView;

    open spec fn view(&self) -> ClassView {
        class_view(*self)
    }
}

impl View for Declaration {
    type V = DeclarationView;

    open spec fn view(&self) -> DeclarationView {
        declaration_view(*self)
    }
}

impl View for Ast {
    type V = AstView;

    open spec fn view(&self) -> AstView {
        AstView { declarations: declarations_view(self.declarations@) }
    }
}

impl Declaration {
    pub fn new_class(methods: Vec<FunDeclarationStruct>, name: Token, superclass: Option<Expr>) -> (r:
        Declaration)
        ensures
            r == Declaration::Class(ClassStruct { methods, name, superclass }),
    {
        Declaration::Class(ClassStruct { methods, name, superclass })
    }
}

impl FunDeclarationStruct {
    pub fn new_fun_declaration(name: Token, params: Vec<Token>, body: Vec<Declaration>) -> (r:
        FunDeclaration)
        ensures
            r == (FunDeclarationStruct { body, name, params }),
    {
        FunDeclarationStruct { body, name, params }
    }
}

impl VarDeclaration {
    pub fn new(name: Token, initializer: Option<Expr>) -> (r: VarDeclaration)
        ensures
            r == (VarDeclaration { initializer, name }),
    {
        VarDeclaration { initializer, name }
    }
}

impl Statement {
    pub fn new_print(expr: Expr) -> (r: Statement)
        ensures
            r == Statement::Print(expr),
    {
        Statement::Print(expr)
    }

    pub fn new_expr_statement(expr: Expr) -> (r: Statement)
        ensures
            r == Statement::ExprStatement(expr),
    {
        Statement::ExprStatement(expr)
    }

    pub fn new_block(declarations: Vec<Declaration>) -> (r: Statement)
        ensures
            r == Statement::Block(declarations),
    {
        Statement::Block(declarations)
    }

    pub fn new_if(cond: Expr, true_branch: Statement, else_branch: Option<Statement>) -> (r: Statement)
        ensures
            r == Statement::If(Box::new(If { cond, true_branch, else_branch })),
    {
        Statement::If(Box::new(If { cond, true_branch, else_branch }))
    }

    pub fn new_while(cond: Expr, body: Statement) -> (r: Statement)
        ensures
            r == Statement::While(Box::new(While { cond, body })),
    {
        Statement::While(Box::new(While { cond, body }))
    }

    pub fn new_for(
        initializer: Option<Initializer>,
        cond: Option<Expr>,
        increment: Option<Expr>,
        body: Statement,
    ) -> (r: Statement)
        ensures
            r == Statement::For(Box::new(For { initializer, cond, increment, body })),
    {
        Statement::For(Box::new(For { initializer, cond, increment, body }))
    }
}

impl Expr {
    pub fn new(kind: ExprKind, token: Token) -> (r: Expr)
        ensures
            r == (Expr { kind, token }),
    {
        Expr { kind, token }
    }

    /// An assignment to the variable `token`, not yet resolved.
    pub fn new_assign(token: Token, expr: Expr) -> (r: Expr)
        ensures
            r == (Expr {
                kind: ExprKind::Assign(AssignExpr { depth: None, initializer: Box::new(expr) }),
                token,
            }),
            r@ == (ExprView::Assign { name: token, depth: None, value: Box::new(expr@) }),
    {
        let kind = ExprKind::Assign(AssignExpr { depth: None, initializer: Box::new(expr) });
        Expr::new(kind, token)
    }

    pub fn new_binary(left: Expr, operator: Token, right: Expr) -> (r: Expr)
        ensures
            r == (Expr { kind: ExprKind::Binary(Box::new(BinaryExpr { left, right })), token: operator }),
            r@ == (ExprView::Binary { left: Box::new(left@), operator, right: Box::new(right@) }),
    {
        let kind = ExprKind::Binary(Box::new(BinaryExpr { left, right }));
        Expr::new(kind, operator)
    }

    pub fn new_call(callee: Expr, arguments: Vec<Expr>, closing_paren: Token) -> (r: Expr)
        ensures
            r == (Expr { kind: ExprKind::Call(Box::new(Call { arguments, callee })), token: closing_paren }),
            r@ == (ExprView::Call {
                callee: Box::new(callee@),
                arguments: exprs_view(arguments@),
                paren: closing_paren,
            }),
    {
        let kind = ExprKind::Call(Box::new(Call { arguments, callee }));
        let r = Expr::new(kind, closing_paren);
        proof {
            assert(r@->Call_arguments =~= exprs_view(arguments@));
        }
        r
    }

    pub fn new_get(identifier: Token, object: Expr) -> (r: Expr)
        ensures
            r == (Expr { kind: ExprKind::Get(Box::new(object)), token: identifier }),
            r@ == (ExprView::Get { object: Box::new(object@), name: identifier }),
    {
        let kind = ExprKind::Get(Box::new(object));
        Expr::new(kind, identifier)
    }

    pub fn new_grouping(beginning: Token, expr: Expr) -> (r: Expr)
        ensures
            r == (Expr { kind: ExprKind::Grouping(Box::new(expr)), token: beginning }),
            r@ == (ExprView::Grouping { token: beginning, inner: Box::new(expr@) }),
    {
        let kind = ExprKind::Grouping(Box::new(expr));
        Expr::new(kind, beginning)
    }

    pub fn new_literal(token: Token) -> (r: Expr)
        ensures
            r == (Expr { kind: ExprKind::Literal, token }),
            r@ == (ExprView::Literal { token }),
    {
        Expr::new(ExprKind::Literal, token)
    }

    pub fn new_logical(left: Expr, operator: Token, right: Expr) -> (r: Expr)
        ensures
            r == (Expr { kind: ExprKind::Logical(Box::new(BinaryExpr { left, right })), token: operator }),
            r@ == (ExprView::Logical { left: Box::new(left@), operator, right: Box::new(right@) }),
    {
        let kind = ExprKind::Logical(Box::new(BinaryExpr { left, right }));
        Expr::new(kind, operator)
    }

    pub fn new_set(name: Token, object: Expr, value: Expr) -> (r: Expr)
        ensures
            r == (Expr { kind: ExprKind::SetExpr(Box::new(SetExpr { object, value })), token: name }),
            r@ == (ExprView::SetExpr { object: Box::new(object@), name, value: Box::new(value@) }),
    {
        let kind = ExprKind::SetExpr(Box::new(SetExpr { object, value }));
        Expr::new(kind, name)
    }

    pub fn new_this(token: Token) -> (r: Expr)
        ensures
            r == (Expr { kind: ExprKind::This(None), token }),
            r@ == (ExprView::This { keyword: token, depth: None }),
    {
        let kind = ExprKind::This(None);
        Expr::new(kind, token)
    }

    pub fn new_unary(operator: Token, expr: Expr) -> (r: Expr)
        ensures
            r == (Expr { kind: ExprKind::Unary(Box::new(expr)), token: operator }),
            r@ == (ExprView::Unary { operator, operand: Box::new(expr@) }),
    {
        let kind = ExprKind::Unary(Box::new(expr));
        Expr::new(kind, operator)
    }

    pub fn new_variable(token: Token) -> (r: Expr)
        ensures
            r == (Expr { kind: ExprKind::Variable(None), token }),
            r@ == (ExprView::Variable { name: token, depth: None }),
    {
        let kind = ExprKind::Variable(None);
        Expr::new(kind, token)
    }

    pub fn new_super(method: Token, token: Token) -> (r: Expr)
        ensures
            r == (Expr { kind: ExprKind::Super(method, None), token }),
            r@ == (ExprView::Super { keyword: token, method, depth: None }),
    {
        let kind = ExprKind::Super(method, None);
        Expr::new(kind, token)
    }
}

} // verus!
