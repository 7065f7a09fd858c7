//! The core of the middle language: modules of functions over 32-bit
//! integers and strings. The parameters of a function are a fixed list, or a
//! first parameter and further ones of which a variadic function takes at
//! least these.

use vstd::prelude::*;
use vstd::string::*;

verus! {

/// Whether a function is visible outside its module.
#[derive(Debug, Clone, Copy, PartialEq, Eq, Structural)]
pub enum Visibility {
    Public,
    Private,
}

/// A type of the core language.
#[derive(Debug, Clone, Copy, PartialEq, Eq, Structural)]
pub enum Type {
    Int32,
    Str,
}

/// A parameter.
#[derive(Debug, PartialEq)]
pub enum FuncArg {
    Named(String, Type),
}

/// The parameters of a function: all of them, or the first and the further
/// ones of a variadic function.
#[derive(Debug, PartialEq)]
pub enum FuncArgs {
    Fixed(Vec<FuncArg>),
    Variadic(FuncArg, Vec<FuncArg>),
}

/// An expression.
#[derive(Debug, PartialEq)]
pub enum Expr {
    ConstInt32(i32),
    ConstStr(String),
    FuncCall(String, Type, Vec<Expr>),
}

/// A statement.
#[derive(Debug, PartialEq)]
pub enum Stmt {
    Ret(Expr),
    VarDecl(String, Expr),
}

/// A declaration of a function: forward, or with its body.
#[derive(Debug, PartialEq)]
pub enum Decl {
    FwdDecl(String, Visibility, Type, FuncArgs),
    FuncDecl(String, Visibility, Type, FuncArgs, Vec<Stmt>),
}

/// A module: its name and its declarations in source order.
#[derive(Debug, PartialEq)]
pub struct Module {
    pub name: String,
    pub decls: Vec<Decl>,
}

/// The mathematical value of parameters: the named parameters in order, and
/// whether further arguments may follow them.
pub struct FuncArgsView {
    pub named: Seq<(Seq<char>, Type)>,
    pub variadic: bool,
}

/// The mathematical value of an expression.
pub enum ExprView {
    ConstInt32(i32),
    ConstStr(Seq<char>),
    FuncCall(Seq<char>, Type, Seq<ExprView>),
}

/// The mathematical value of a statement.
pub enum StmtView {
    Ret(ExprView),
    VarDecl(Seq<char>, ExprView),
}

/// The mathematical value of a function's signature.
pub struct SigView {
    pub visibility: Visibility,
    pub ret: Type,
    pub args: FuncArgsView,
}

/// The mathematical value of a declaration.
pub enum DeclView {
    FwdDecl(Seq<char>, SigView),
    FuncDecl(Seq<char>, SigView, Seq<StmtView>),
}

/// The mathematical value of a module.
pub struct ModuleView {
    pub name: Seq<char>,
    pub decls: Seq<DeclView>,
}

impl View for FuncArg {
    type V = (Seq<char>, Type);

    open spec fn view(&self) -> (Seq<char>, Type) {
        match self {
            FuncArg::Named(name, ty) => (name@, *ty),
        }
    }
}

/// The mathematical value of a list of parameters.
pub open spec fn named_view(args: Seq<FuncArg>) -> Seq<(Seq<char>, Type)> {
    Seq::new(args.len(), |i: int| args[i]@)
}

impl View for FuncArgs {
    type V = FuncArgsView;

    open spec fn view(&self) -> FuncArgsView {
        match self {
            FuncArgs::Fixed(args) => FuncArgsView { named: named_view(args@), variadic: false },
            FuncArgs::Variadic(first, rest) => FuncArgsView {
                named: seq![first@] + named_view(rest@),
                variadic: true,
            },
        }
    }
}

/// The mathematical value of an expression.
pub open spec fn expr_view(e: Expr) -> ExprView
    decreases e,
{
    match e {
        Expr::ConstInt32(i) => ExprView::ConstInt32(i),
        Expr::ConstStr(s) => ExprView::ConstStr(s@),
        Expr::FuncCall(name, ty, args) => ExprView::FuncCall(name@, ty, exprs_view(args@)),
    }
}

/// The mathematical value of expressions.
pub open spec fn exprs_view(es: Seq<Expr>) -> Seq<ExprView>
    decreases es,
{
    Seq::new(
        es.len(),
        |i: int|
            if 0 <= i < es.len() {
                expr_view(es[i])
            } else {
                ExprView::ConstInt32(0)
            },
    )
}

impl View for Expr {
    type V = ExprView;

    open spec fn view(&self) -> ExprView {
        expr_view(*self)
    }
}

impl View for Stmt {
    type V = StmtView;

    open spec fn view(&self) -> StmtView {
        match self {
            Stmt::Ret(e) => StmtView::Ret(e@),
            Stmt::VarDecl(name, e) => StmtView::VarDecl(name@, e@),
        }
    }
}

/// The mathematical value of statements.
pub open spec fn stmts_view(ss: Seq<Stmt>) -> Seq<StmtView> {
    Seq::new(ss.len(), |i: int| ss[i]@)
}

impl View for Decl {
    type V = DeclView;

    open spec fn view(&self) -> DeclView {
        match self {
            Decl::FwdDecl(name, visibility, ret, args) => DeclView::FwdDecl(
                name@,
                SigView { visibility: *visibility, ret: *ret, args: args@ },
            ),
            Decl::FuncDecl(name, visibility, ret, args, body) => DeclView::FuncDecl(
                name@,
                SigView { visibility: *visibility, ret: *ret, args: args@ },
                stmts_view(body@),
            ),
        }
    }
}

/// The mathematical value of declarations.
pub open spec fn decls_view(ds: Seq<Decl>) -> Seq<DeclView> {
    Seq::new(ds.len(), |i: int| ds[i]@)
}

impl View for Module {
    type V = ModuleView;

    open spec fn view(&self) -> ModuleView {
        ModuleView { name: self.name@, decls: decls_view(self.decls@) }
    }
}

/// The mathematical value of modules.
pub open spec fn modules_view(ms: Seq<Module>) -> Seq<ModuleView> {
    Seq::new(ms.len(), |i: int| ms[i]@)
}

/// The static type of an expression, read off its head.
pub open spec fn type_of(e: ExprView) -> Type {
    match e {
        ExprView::ConstInt32(_) => Type::Int32,
        ExprView::ConstStr(_) => Type::Str,
        ExprView::FuncCall(_, ty, _) => ty,
    }
}

impl Expr {
    /// The static type of this expression.
    pub fn type_of(&self) -> (ty: Type)
        ensures
            ty == type_of(self@),
    {
        match self {
            Expr::ConstInt32(_) => Type::Int32,
            Expr::ConstStr(_) => Type::Str,
            Expr::FuncCall(_, ty, _) => *ty,
        }
    }
}

impl FuncArg {
    /// The name of this parameter.
    pub fn name(&self) -> (name: &str)
        ensures
            name@ == self@.0,
    {
        match self {
            FuncArg::Named(name, _) => name.as_str(),
        }
    }

    /// The type of this parameter.
    pub fn type_of(&self) -> (ty: Type)
        ensures
            ty == self@.1,
    {
        match self {
            FuncArg::Named(_, ty) => *ty,
        }
    }
}

impl FuncArgs {
    /// Tells whether there is no named parameter.
    pub fn is_empty(&self) -> (r: bool)
        ensures
            r == (self@.named.len() == 0),
    {
        match self {
            FuncArgs::Fixed(v) => v.is_empty(),
            FuncArgs::Variadic(_, _) => false,
        }
    }

    /// The number of named parameters.
    pub fn len(&self) -> (n: usize)
        requires
            self@.named.len() <= usize::MAX,
        ensures
            n == self@.named.len(),
    {
        match self {
            FuncArgs::Fixed(v) => v.len(),
            FuncArgs::Variadic(_, v) => v.len() + 1,
        }
    }
}

} // verus!
