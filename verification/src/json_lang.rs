//! The JSON form of the middle language: a tree that mirrors the middle
//! language, with the tags and fields of the JSON document.

use vstd::prelude::*;

verus! {

/// A JSON number, as far as the language reads one.
#[derive(Debug, PartialEq)]
pub struct Number {
    /// The number as a signed integer of 64 bits, where it is one.
    pub integer: Option<i64>,
    /// The decimal text of the number as a double, where it is given as one.
    pub double: Option<String>,
}

/// A JSON value, as far as the language reads one: of an array and of an
/// object only that it is one.
#[derive(Debug, PartialEq)]
pub enum Value {
    Null,
    Bool(bool),
    Number(Number),
    String(String),
    Array,
    Object,
}

/// Whether a function is visible outside its module.
#[derive(Debug, Clone, Copy, PartialEq, Eq, Structural)]
pub enum Visibility {
    Public,
    Private,
}

/// A type. `VoidPtr` is the untyped pointer.
#[derive(Debug, PartialEq, Eq)]
pub enum Type {
    Bool,
    Double,
    Int32,
    Int64,
    Ptr { to: Box<Type> },
    Str,
    VoidPtr,
}

/// A parameter.
#[derive(Debug, PartialEq)]
pub struct FuncArg {
    pub name: String,
    pub ty: Type,
}

/// An expression. An absent `byref` is false.
#[derive(Debug, PartialEq)]
pub enum Expr {
    Eq { lhs: Box<Expr>, rhs: Box<Expr> },
    Const { value: Value, ty: Type },
    FuncCall { name: String, ty: Type, args: Vec<Expr> },
    Ne { lhs: Box<Expr>, rhs: Box<Expr> },
    Not { expr: Box<Expr> },
    VarRef { name: String, ty: Type, byref: Option<bool> },
}

/// One arm of a conditional.
#[derive(Debug, PartialEq)]
pub struct Case {
    pub expr: Expr,
    pub stmts: Vec<Stmt>,
}

/// A statement.
#[derive(Debug, PartialEq)]
#[allow(inconsistent_fields)]
pub enum Stmt {
    Cond { cases: Vec<Case> },
    FuncCall { name: String, args: Vec<Expr> },
    Ret { value: Option<Expr> },
    VarDecl { name: String, value: Expr },
}

/// A declaration. An absent `variadic` is false; an absent `ty` is no return type.
#[derive(Debug, PartialEq)]
pub enum Decl {
    FwdDecl {
        name: String,
        visibility: Visibility,
        ty: Option<Type>,
        args: Vec<FuncArg>,
        variadic: Option<bool>,
    },
    FuncDecl {
        name: String,
        visibility: Visibility,
        ty: Option<Type>,
        args: Vec<FuncArg>,
        variadic: Option<bool>,
        stmts: Vec<Stmt>,
    },
}

/// A module.
#[derive(Debug, PartialEq)]
pub struct Module {
    pub name: String,
    pub decls: Vec<Decl>,
}

/// A document.
#[derive(Debug, PartialEq)]
pub enum JSONLang {
    Modules(Vec<Module>),
}

/// The mathematical value of a JSON number.
pub struct NumberView {
    pub integer: Option<i64>,
    pub double: Option<Seq<char>>,
}

/// The mathematical value of a JSON value.
pub enum ValueView {
    Null,
    Bool(bool),
    Number(NumberView),
    String(Seq<char>),
    Array,
    Object,
}

/// The mathematical value of an expression.
pub enum ExprView {
    Eq { lhs: Box<ExprView>, rhs: Box<ExprView> },
    Const { value: ValueView, ty: Type },
    FuncCall { name: Seq<char>, ty: Type, args: Seq<ExprView> },
    Ne { lhs: Box<ExprView>, rhs: Box<ExprView> },
    Not { expr: Box<ExprView> },
    VarRef { name: Seq<char>, ty: Type, byref: Option<bool> },
}

/// The mathematical value of a statement. An arm is its guard and its body.
#[allow(inconsistent_fields)]
pub enum StmtView {
    Cond { cases: Seq<(ExprView, Seq<StmtView>)> },
    FuncCall { name: Seq<char>, args: Seq<ExprView> },
    Ret { value: Option<ExprView> },
    VarDecl { name: Seq<char>, value: ExprView },
}

/// The mathematical value of a declaration. A parameter is its name and its type.
pub enum DeclView {
    FwdDecl {
        name: Seq<char>,
        visibility: Visibility,
        ty: Option<Type>,
        args: Seq<(Seq<char>, Type)>,
        variadic: Option<bool>,
    },
    FuncDecl {
        name: Seq<char>,
        visibility: Visibility,
        ty: Option<Type>,
        args: Seq<(Seq<char>, Type)>,
        variadic: Option<bool>,
        stmts: Seq<StmtView>,
    },
}

/// The mathematical value of a module.
pub struct ModuleView {
    pub name: Seq<char>,
    pub decls: Seq<DeclView>,
}

impl View for Number {
    type V = NumberView;

    open spec fn view(&self) -> NumberView {
        NumberView {
            integer: self.integer,
            double: match self.double {
                Some(text) => Some(text@),
                None => None,
            },
        }
    }
}

impl View for Value {
    type V = ValueView;

    open spec fn view(&self) -> ValueView {
        match self {
            Value::Null => ValueView::Null,
            Value::Bool(b) => ValueView::Bool(*b),
            Value::Number(n) => ValueView::Number(n@),
            Value::String(s) => ValueView::String(s@),
            Value::Array => ValueView::Array,
            Value::Object => ValueView::Object,
        }
    }
}

/// The mathematical value of an expression.
pub open spec fn expr_view(e: Expr) -> ExprView
    decreases e,
{
    match e {
        Expr::Eq { lhs, rhs } => ExprView::Eq {
            lhs: Box::new(expr_view(*lhs)),
            rhs: Box::new(expr_view(*rhs)),
        },
        Expr::Const { value, ty } => ExprView::Const { value: value@, ty },
        Expr::FuncCall { name, ty, args } => ExprView::FuncCall {
            name: name@,
            ty,
            args: exprs_view(args@),
        },
        Expr::Ne { lhs, rhs } => ExprView::Ne {
            lhs: Box::new(expr_view(*lhs)),
            rhs: Box::new(expr_view(*rhs)),
        },
        Expr::Not { expr } => ExprView::Not { expr: Box::new(expr_view(*expr)) },
        Expr::VarRef { name, ty, byref } => ExprView::VarRef { name: name@, ty, byref },
    }
}

/// The mathematical value of expressions.
pub open spec fn exprs_view(es: Seq<Expr>) -> Seq<ExprView>
    decreases es,
{
    Seq::new(
        es.len(),
        |i: int|
            if 0 <= i < es.len() {
                expr_view(es[i])
            } else {
                ExprView::Const { value: ValueView::Null, ty: Type::Bool }
            },
    )
}

/// The mathematical value of a statement.
pub open spec fn stmt_view(s: Stmt) -> StmtView
    decreases s,
{
    match s {
        Stmt::Cond { cases } => StmtView::Cond { cases: cases_view(cases@) },
        Stmt::FuncCall { name, args } => StmtView::FuncCall { name: name@, args: exprs_view(args@) },
        Stmt::Ret { value: None } => StmtView::Ret { value: None },
        Stmt::Ret { value: Some(e) } => StmtView::Ret { value: Some(expr_view(e)) },
        Stmt::VarDecl { name, value } => StmtView::VarDecl { name: name@, value: expr_view(value) },
    }
}

/// The mathematical value of statements.
pub open spec fn stmts_view(ss: Seq<Stmt>) -> Seq<StmtView>
    decreases ss,
{
    Seq::new(
        ss.len(),
        |i: int|
            if 0 <= i < ss.len() {
                stmt_view(ss[i])
            } else {
                StmtView::Ret { value: None }
            },
    )
}

/// The mathematical value of the arms of a conditional.
pub open spec fn cases_view(cs: Seq<Case>) -> Seq<(ExprView, Seq<StmtView>)>
    decreases cs,
{
    Seq::new(
        cs.len(),
        |i: int|
            if 0 <= i < cs.len() {
                (expr_view(cs[i].expr), stmts_view(cs[i].stmts@))
            } else {
                (ExprView::Const { value: ValueView::Null, ty: Type::Bool }, Seq::empty())
            },
    )
}

/// The mathematical value of parameters.
pub open spec fn args_view(args: Seq<FuncArg>) -> Seq<(Seq<char>, Type)> {
    Seq::new(args.len(), |i: int| (args[i].name@, args[i].ty))
}

/// The mathematical value of a declaration.
pub open spec fn decl_view(d: Decl) -> DeclView {
    match d {
        Decl::FwdDecl { name, visibility, ty, args, variadic } => DeclView::FwdDecl {
            name: name@,
            visibility,
            ty,
            args: args_view(args@),
            variadic,
        },
        Decl::FuncDecl { name, visibility, ty, args, variadic, stmts } => DeclView::FuncDecl {
            name: name@,
            visibility,
            ty,
            args: args_view(args@),
            variadic,
            stmts: stmts_view(stmts@),
        },
    }
}

/// The mathematical value of declarations.
pub open spec fn decls_view(ds: Seq<Decl>) -> Seq<DeclView> {
    Seq::new(ds.len(), |i: int| decl_view(ds[i]))
}

/// The mathematical value of modules.
pub open spec fn modules_view(ms: Seq<Module>) -> Seq<ModuleView> {
    Seq::new(ms.len(), |i: int| ms[i]@)
}

impl View for Expr {
    type V = ExprView;

    open spec fn view(&self) -> ExprView {
        expr_view(*self)
    }
}

impl View for Stmt {
    type V = StmtView;

    open spec fn view(&self) -> StmtView {
        stmt_view(*self)
    }
}

impl View for Decl {
    type V = DeclView;

    open spec fn view(&self) -> DeclView {
        decl_view(*self)
    }
}

impl View for Module {
    type V = ModuleView;

    open spec fn view(&self) -> ModuleView {
        ModuleView { name: self.name@, decls: decls_view(self.decls@) }
    }
}

impl View for JSONLang {
    type V = Seq<ModuleView>;

    open spec fn view(&self) -> Seq<ModuleView> {
        match self {
            JSONLang::Modules(modules) => modules_view(modules@),
        }
    }
}

} // verus!
