//! The middle language: modules of function declarations whose bodies are
//! statements over typed expressions.

use vstd::prelude::*;
use vstd::string::*;

verus! {

/// Whether a function is visible outside its module.
#[derive(Debug, Clone, Copy, PartialEq, Eq, Structural)]
pub enum Visibility {
    Public,
    Private,
}

/// A comparison operator.
#[derive(Debug, Clone, Copy, PartialEq, Eq, Structural)]
pub enum Op {
    Eq,
    Ne,
}

/// A type of the middle language. `Ptr(None)` is the untyped pointer.
#[derive(Debug, PartialEq, Eq)]
pub enum Type {
    Bool,
    Double,
    Int32,
    Int64,
    Ptr(Option<Box<Type>>),
    Str,
}

/// A parameter: its name and its type.
pub type FuncArg = (String, Type);

/// Whether a function takes further arguments after its parameters.
pub type Variadic = bool;

/// One arm of a conditional: its guard and its body.
pub type Case = (Expr, Vec<Stmt>);

/// An expression. A double constant holds the decimal text of its value.
#[derive(Debug, PartialEq)]
pub enum Expr {
    Cmp(Op, Box<Expr>, Box<Expr>),
    ConstBool(bool),
    ConstDouble(String),
    ConstInt32(i32),
    ConstInt64(i64),
    ConstStr(String),
    FuncCall(String, Type, Vec<Expr>),
    Not(Box<Expr>),
    VarRef(String, Type, bool),
}

/// A statement.
#[derive(Debug, PartialEq)]
pub enum Stmt {
    Cond(Vec<Case>),
    FuncCall(String, Vec<Expr>),
    Ret(Option<Expr>),
    VarDecl(String, Expr),
}

/// A declaration of a function: forward, or with its body.
#[derive(Debug, PartialEq)]
pub enum Decl {
    FwdDecl(String, Visibility, Option<Type>, Vec<FuncArg>, Variadic),
    FuncDecl(String, Visibility, Option<Type>, Vec<FuncArg>, Variadic, Vec<Stmt>),
}

/// A module: its name and its declarations in source order.
#[derive(Debug, PartialEq)]
pub struct Module {
    pub name: String,
    pub decls: Vec<Decl>,
}

/// The mathematical value of an expression.
pub enum ExprView {
    Cmp(Op, Box<ExprView>, Box<ExprView>),
    ConstBool(bool),
    ConstDouble(Seq<char>),
    ConstInt32(i32),
    ConstInt64(i64),
    ConstStr(Seq<char>),
    FuncCall(Seq<char>, Type, Seq<ExprView>),
    Not(Box<ExprView>),
    VarRef(Seq<char>, Type, bool),
}

/// The mathematical value of a statement.
pub enum StmtView {
    Cond(Seq<(ExprView, Seq<StmtView>)>),
    FuncCall(Seq<char>, Seq<ExprView>),
    Ret(Option<ExprView>),
    VarDecl(Seq<char>, ExprView),
}

/// The mathematical value of a function's signature.
pub struct SigView {
    pub visibility: Visibility,
    pub ret: Option<Type>,
    pub args: Seq<(Seq<char>, Type)>,
    pub variadic: bool,
}

/// The mathematical value of a declaration.
pub enum DeclView {
    FwdDecl(Seq<char>, SigView),
    FuncDecl(Seq<char>, SigView, Seq<StmtView>),
}

/// The mathematical value of a module.
pub struct ModuleView {
    pub name: Seq<char>,
    pub decls: Seq<DeclView>,
}

/// The mathematical value of an expression.
pub open spec fn expr_view(e: Expr) -> ExprView
    decreases e,
{
    match e {
        Expr::Cmp(op, lhs, rhs) => ExprView::Cmp(
            op,
            Box::new(expr_view(*lhs)),
            Box::new(expr_view(*rhs)),
        ),
        Expr::ConstBool(b) => ExprView::ConstBool(b),
        Expr::ConstDouble(d) => ExprView::ConstDouble(d@),
        Expr::ConstInt32(i) => ExprView::ConstInt32(i),
        Expr::ConstInt64(i) => ExprView::ConstInt64(i),
        Expr::ConstStr(s) => ExprView::ConstStr(s@),
        Expr::FuncCall(name, ty, args) => ExprView::FuncCall(name@, ty, exprs_view(args@)),
        Expr::Not(inner) => ExprView::Not(Box::new(expr_view(*inner))),
        Expr::VarRef(name, ty, by_ref) => ExprView::VarRef(name@, ty, by_ref),
    }
}

/// The mathematical value of expressions.
pub open spec fn exprs_view(es: Seq<Expr>) -> Seq<ExprView>
    decreases es,
{
    Seq::new(
        es.len(),
        |i: int|
            if 0 <= i < es.len() {
                expr_view(es[i])
            } else {
                ExprView::ConstBool(false)
            },
    )
}

/// The mathematical value of a statement.
pub open spec fn stmt_view(s: Stmt) -> StmtView
    decreases s,
{
    match s {
        Stmt::Cond(cases) => StmtView::Cond(cases_view(cases@)),
        Stmt::FuncCall(name, args) => StmtView::FuncCall(name@, exprs_view(args@)),
        Stmt::Ret(None) => StmtView::Ret(None),
        Stmt::Ret(Some(e)) => StmtView::Ret(Some(expr_view(e))),
        Stmt::VarDecl(name, e) => StmtView::VarDecl(name@, expr_view(e)),
    }
}

/// The mathematical value of statements.
pub open spec fn stmts_view(ss: Seq<Stmt>) -> Seq<StmtView>
    decreases ss,
{
    Seq::new(
        ss.len(),
        |i: int|
            if 0 <= i < ss.len() {
                stmt_view(ss[i])
            } else {
                StmtView::Ret(None)
            },
    )
}

/// The mathematical value of the arms of a conditional.
pub open spec fn cases_view(cs: Seq<Case>) -> Seq<(ExprView, Seq<StmtView>)>
    decreases cs,
{
    Seq::new(
        cs.len(),
        |i: int|
            if 0 <= i < cs.len() {
                (expr_view(cs[i].0), stmts_view(cs[i].1@))
            } else {
                (ExprView::ConstBool(false), Seq::empty())
            },
    )
}

/// The mathematical value of parameters.
pub open spec fn args_view(args: Seq<FuncArg>) -> Seq<(Seq<char>, Type)> {
    Seq::new(args.len(), |i: int| (args[i].0@, args[i].1))
}

/// The mathematical value of a declaration.
pub open spec fn decl_view(d: Decl) -> DeclView {
    match d {
        Decl::FwdDecl(name, visibility, ret, args, variadic) => DeclView::FwdDecl(
            name@,
            SigView { visibility, ret, args: args_view(args@), variadic },
        ),
        Decl::FuncDecl(name, visibility, ret, args, variadic, body) => DeclView::FuncDecl(
            name@,
            SigView { visibility, ret, args: args_view(args@), variadic },
            stmts_view(body@),
        ),
    }
}

/// The mathematical value of declarations.
pub open spec fn decls_view(ds: Seq<Decl>) -> Seq<DeclView> {
    Seq::new(ds.len(), |i: int| decl_view(ds[i]))
}

/// The mathematical value of modules.
pub open spec fn modules_view(ms: Seq<Module>) -> Seq<ModuleView> {
    Seq::new(ms.len(), |i: int| ms[i]@)
}

impl View for Expr {
    type V = ExprView;

    open spec fn view(&self) -> ExprView {
        expr_view(*self)
    }
}

impl View for Stmt {
    type V = StmtView;

    open spec fn view(&self) -> StmtView {
        stmt_view(*self)
    }
}

impl View for Decl {
    type V = DeclView;

    open spec fn view(&self) -> DeclView {
        decl_view(*self)
    }
}

impl View for Module {
    type V = ModuleView;

    open spec fn view(&self) -> ModuleView {
        ModuleView { name: self.name@, decls: decls_view(self.decls@) }
    }
}

/// The static type of an expression, read off its head.
pub open spec fn type_of(e: ExprView) -> Type {
    match e {
        ExprView::Cmp(_, _, _) => Type::Bool,
        ExprView::ConstBool(_) => Type::Bool,
        ExprView::ConstDouble(_) => Type::Double,
        ExprView::ConstInt32(_) => Type::Int32,
        ExprView::ConstInt64(_) => Type::Int64,
        ExprView::ConstStr(_) => Type::Str,
        ExprView::FuncCall(_, ty, _) => ty,
        ExprView::Not(_) => Type::Bool,
        ExprView::VarRef(_, ty, _) => ty,
    }
}

/// How an operator is spelled.
pub open spec fn op_text(op: Op) -> Seq<char> {
    match op {
        Op::Eq => "eq"@,
        Op::Ne => "ne"@,
    }
}

impl Op {
    /// How this operator is spelled.
    pub fn to_string(&self) -> (s: String)
        ensures
            s@ == op_text(*self),
    {
        match self {
            Op::Eq => String::from_str("eq"),
            Op::Ne => String::from_str("ne"),
        }
    }
}

impl Type {
    /// Tells whether two types are the same type.
    pub fn same(&self, other: &Type) -> (r: bool)
        ensures
            r == (*self == *other),
        decreases self,
    {
        match (self, other) {
            (Type::Bool, Type::Bool) => true,
            (Type::Double, Type::Double) => true,
            (Type::Int32, Type::Int32) => true,
            (Type::Int64, Type::Int64) => true,
            (Type::Str, Type::Str) => true,
            (Type::Ptr(None), Type::Ptr(None)) => true,
            (Type::Ptr(Some(a)), Type::Ptr(Some(b))) => a.same(b),
            _ => false,
        }
    }
}

impl Expr {
    /// The static type of this expression.
    pub open spec fn type_of_spec(&self) -> &Type {
        &type_of(self@)
    }

    /// The static type of this expression.
    #[verifier::when_used_as_spec(type_of_spec)]
    pub fn type_of(&self) -> (ty: &Type)
        ensures
            *ty == type_of(self@),
    {
        match self {
            Expr::Cmp(_, _, _) => &Type::Bool,
            Expr::ConstBool(_) => &Type::Bool,
            Expr::ConstDouble(_) => &Type::Double,
            Expr::ConstInt32(_) => &Type::Int32,
            Expr::ConstInt64(_) => &Type::Int64,
            Expr::ConstStr(_) => &Type::Str,
            Expr::FuncCall(_, ty, _) => ty,
            Expr::Not(_) => &Type::Bool,
            Expr::VarRef(_, ty, _) => ty,
        }
    }
}

} // verus!
