//! From the JSON form to the middle language.

use vstd::prelude::*;
use vstd::string::*;
use crate::json_lang::{
    Case, Decl, DeclView, Expr, ExprView, FuncArg, JSONLang, Module, ModuleView, Number,
    NumberView, Stmt, StmtView, Type, Value, ValueView, Visibility, args_view, cases_view,
    decls_view, exprs_view, modules_view, stmts_view,
};
use crate::mir;

verus! {

/// Why a document is not a program of the middle language.
#[derive(Debug, Clone, Copy, PartialEq, Eq, Structural)]
pub enum LowerError {
    /// A constant whose value is not one of its type.
    UnsupportedValue,
    /// A number of type `int32` that is not an integer of 32 bits.
    NotInt32,
    /// A number of type `int64` that is not an integer of 64 bits.
    NotInt64,
    /// A number of type `double` that is not given as a double.
    NotDouble,
    /// A number of a type that is not a type of numbers.
    InvalidNumber,
}

/// The text by which a failure is reported.
pub open spec fn message(e: LowerError) -> Seq<char> {
    match e {
        LowerError::UnsupportedValue => "Unsupported value and type"@,
        LowerError::NotInt32 => "Number is not an Int32"@,
        LowerError::NotInt64 => "Number is not an Int64"@,
        LowerError::NotDouble => "Number is not a Double"@,
        LowerError::InvalidNumber => "Invalid number value and type"@,
    }
}

impl LowerError {
    /// The text by which this failure is reported.
    pub fn message(&self) -> (s: String)
        ensures
            s@ == message(*self),
    {
        match self {
            LowerError::UnsupportedValue => String::from_str("Unsupported value and type"),
            LowerError::NotInt32 => String::from_str("Number is not an Int32"),
            LowerError::NotInt64 => String::from_str("Number is not an Int64"),
            LowerError::NotDouble => String::from_str("Number is not a Double"),
            LowerError::InvalidNumber => String::from_str("Invalid number value and type"),
        }
    }
}

/// The type of the middle language that a type of the document stands for.
pub open spec fn lowered_type(ty: Type) -> mir::Type
    decreases ty,
{
    match ty {
        Type::Bool => mir::Type::Bool,
        Type::Double => mir::Type::Double,
        Type::Int32 => mir::Type::Int32,
        Type::Int64 => mir::Type::Int64,
        Type::Ptr { to } => mir::Type::Ptr(Some(Box::new(lowered_type(*to)))),
        Type::VoidPtr => mir::Type::Ptr(None),
        Type::Str => mir::Type::Str,
    }
}

/// The return type that a return type of the document stands for.
pub open spec fn lowered_opt_type(ty: Option<Type>) -> Option<mir::Type> {
    match ty {
        Some(ty) => Some(lowered_type(ty)),
        None => None,
    }
}

/// The visibility that a visibility of the document stands for.
pub open spec fn lowered_visibility(v: Visibility) -> mir::Visibility {
    match v {
        Visibility::Public => mir::Visibility::Public,
        Visibility::Private => mir::Visibility::Private,
    }
}

/// The parameters that parameters of the document stand for.
pub open spec fn lowered_args(args: Seq<(Seq<char>, Type)>) -> Seq<(Seq<char>, mir::Type)> {
    Seq::new(args.len(), |i: int| (args[i].0, lowered_type(args[i].1)))
}

/// An absent flag is false.
pub open spec fn flag(b: Option<bool>) -> bool {
    match b {
        Some(b) => b,
        None => false,
    }
}

/// The constant that a number of the given type stands for.
pub open spec fn lowered_number(n: NumberView, ty: Type) -> Result<mir::ExprView, LowerError> {
    match ty {
        Type::Double => match n.double {
            Some(d) => Ok(mir::ExprView::ConstDouble(d)),
            None => Err(LowerError::NotDouble),
        },
        Type::Int32 => match n.integer {
            Some(i) => if i32::MIN <= i <= i32::MAX {
                Ok(mir::ExprView::ConstInt32(i as i32))
            } else {
                Err(LowerError::NotInt32)
            },
            None => Err(LowerError::NotInt32),
        },
        Type::Int64 => match n.integer {
            Some(i) => Ok(mir::ExprView::ConstInt64(i)),
            None => Err(LowerError::NotInt64),
        },
        _ => Err(LowerError::InvalidNumber),
    }
}

/// The constant that a value of the given type stands for.
pub open spec fn lowered_const(value: ValueView, ty: Type) -> Result<mir::ExprView, LowerError> {
    match value {
        ValueView::Bool(b) => if ty == Type::Bool {
            Ok(mir::ExprView::ConstBool(b))
        } else {
            Err(LowerError::UnsupportedValue)
        },
        ValueView::Number(n) => lowered_number(n, ty),
        ValueView::String(s) => if ty == Type::Str {
            Ok(mir::ExprView::ConstStr(s))
        } else {
            Err(LowerError::UnsupportedValue)
        },
        _ => Err(LowerError::UnsupportedValue),
    }
}

/// The expression that an expression of the document stands for, or the
/// first failure in it.
pub open spec fn lowered_expr(e: ExprView) -> Result<mir::ExprView, LowerError>
    decreases e,
{
    match e {
        ExprView::Eq { lhs, rhs } => match lowered_expr(*lhs) {
            Err(err) => Err(err),
            Ok(l) => match lowered_expr(*rhs) {
                Err(err) => Err(err),
                Ok(r) => Ok(mir::ExprView::Cmp(mir::Op::Eq, Box::new(l), Box::new(r))),
            },
        },
        ExprView::Ne { lhs, rhs } => match lowered_expr(*lhs) {
            Err(err) => Err(err),
            Ok(l) => match lowered_expr(*rhs) {
                Err(err) => Err(err),
                Ok(r) => Ok(mir::ExprView::Cmp(mir::Op::Ne, Box::new(l), Box::new(r))),
            },
        },
        ExprView::Const { value, ty } => lowered_const(value, ty),
        ExprView::FuncCall { name, ty, args } => match lowered_exprs(args) {
            Err(err) => Err(err),
            Ok(args) => Ok(mir::ExprView::FuncCall(name, lowered_type(ty), args)),
        },
        ExprView::Not { expr } => match lowered_expr(*expr) {
            Err(err) => Err(err),
            Ok(inner) => Ok(mir::ExprView::Not(Box::new(inner))),
        },
        ExprView::VarRef { name, ty, byref } => Ok(
            mir::ExprView::VarRef(name, lowered_type(ty), flag(byref)),
        ),
    }
}

/// The expressions that expressions of the document stand for, or the first
/// failure in them.
pub open spec fn lowered_exprs(es: Seq<ExprView>) -> Result<Seq<mir::ExprView>, LowerError>
    decreases es,
{
    if es.len() == 0 {
        Ok(Seq::empty())
    } else {
        match lowered_exprs(es.drop_last()) {
            Err(err) => Err(err),
            Ok(front) => match lowered_expr(es.last()) {
                Err(err) => Err(err),
                Ok(last) => Ok(front.push(last)),
            },
        }
    }
}

/// The statement that a statement of the document stands for, or the first
/// failure in it.
pub open spec fn lowered_stmt(s: StmtView) -> Result<mir::StmtView, LowerError>
    decreases s,
{
    match s {
        StmtView::Cond { cases } => match lowered_cases(cases) {
            Err(err) => Err(err),
            Ok(cases) => Ok(mir::StmtView::Cond(cases)),
        },
        StmtView::FuncCall { name, args } => match lowered_exprs(args) {
            Err(err) => Err(err),
            Ok(args) => Ok(mir::StmtView::FuncCall(name, args)),
        },
        StmtView::Ret { value: Some(value) } => match lowered_expr(value) {
            Err(err) => Err(err),
            Ok(value) => Ok(mir::StmtView::Ret(Some(value))),
        },
        StmtView::Ret { value: None } => Ok(mir::StmtView::Ret(None)),
        StmtView::VarDecl { name, value } => match lowered_expr(value) {
            Err(err) => Err(err),
            Ok(value) => Ok(mir::StmtView::VarDecl(name, value)),
        },
    }
}

/// The statements that statements of the document stand for, or the first
/// failure in them.
pub open spec fn lowered_stmts(ss: Seq<StmtView>) -> Result<Seq<mir::StmtView>, LowerError>
    decreases ss,
{
    if ss.len() == 0 {
        Ok(Seq::empty())
    } else {
        match lowered_stmts(ss.drop_last()) {
            Err(err) => Err(err),
            Ok(front) => match lowered_stmt(ss.last()) {
                Err(err) => Err(err),
                Ok(last) => Ok(front.push(last)),
            },
        }
    }
}

/// The arms that arms of the document stand for, or the first failure in them.
pub open spec fn lowered_cases(cases: Seq<(ExprView, Seq<StmtView>)>) -> Result<
    Seq<(mir::ExprView, Seq<mir::StmtView>)>,
    LowerError,
>
    decreases cases,
{
    if cases.len() == 0 {
        Ok(Seq::empty())
    } else {
        match lowered_cases(cases.drop_last()) {
            Err(err) => Err(err),
            Ok(front) => match lowered_expr(cases.last().0) {
                Err(err) => Err(err),
                Ok(guard) => match lowered_stmts(cases.last().1) {
                    Err(err) => Err(err),
                    Ok(body) => Ok(front.push((guard, body))),
                },
            },
        }
    }
}

/// The declaration that a declaration of the document stands for, or the
/// first failure in it.
pub open spec fn lowered_decl(d: DeclView) -> Result<mir::DeclView, LowerError> {
    match d {
        DeclView::FwdDecl { name, visibility, ty, args, variadic } => Ok(
            mir::DeclView::FwdDecl(
                name,
                mir::SigView {
                    visibility: lowered_visibility(visibility),
                    ret: lowered_opt_type(ty),
                    args: lowered_args(args),
                    variadic: flag(variadic),
                },
            ),
        ),
        DeclView::FuncDecl { name, visibility, ty, args, variadic, stmts } => match lowered_stmts(
            stmts,
        ) {
            Err(err) => Err(err),
            Ok(body) => Ok(
                mir::DeclView::FuncDecl(
                    name,
                    mir::SigView {
                        visibility: lowered_visibility(visibility),
                        ret: lowered_opt_type(ty),
                        args: lowered_args(args),
                        variadic: flag(variadic),
                    },
                    body,
                ),
            ),
        },
    }
}

/// The declarations that declarations of the document stand for, or the
/// first failure in them.
pub open spec fn lowered_decls(ds: Seq<DeclView>) -> Result<Seq<mir::DeclView>, LowerError>
    decreases ds.len(),
{
    if ds.len() == 0 {
        Ok(Seq::empty())
    } else {
        match lowered_decls(ds.drop_last()) {
            Err(err) => Err(err),
            Ok(front) => match lowered_decl(ds.last()) {
                Err(err) => Err(err),
                Ok(last) => Ok(front.push(last)),
            },
        }
    }
}

/// The modules that a document stands for, or the first failure in it.
pub open spec fn lowered_modules(ms: Seq<ModuleView>) -> Result<Seq<mir::ModuleView>, LowerError>
    decreases ms.len(),
{
    if ms.len() == 0 {
        Ok(Seq::empty())
    } else {
        match lowered_modules(ms.drop_last()) {
            Err(err) => Err(err),
            Ok(front) => match lowered_decls(ms.last().decls) {
                Err(err) => Err(err),
                Ok(decls) => Ok(front.push(mir::ModuleView { name: ms.last().name, decls })),
            },
        }
    }
}

/// `r` is the outcome `want`, taken by its value.
pub open spec fn expr_is(
    r: Result<mir::Expr, LowerError>,
    want: Result<mir::ExprView, LowerError>,
) -> bool {
    match want {
        Ok(v) => r is Ok && r->Ok_0@ == v,
        Err(err) => r is Err && r->Err_0 == err,
    }
}

/// `r` is the outcome `want`, taken by its value.
pub open spec fn exprs_are(
    r: Result<Vec<mir::Expr>, LowerError>,
    want: Result<Seq<mir::ExprView>, LowerError>,
) -> bool {
    match want {
        Ok(v) => r is Ok && mir::exprs_view(r->Ok_0@) == v,
        Err(err) => r is Err && r->Err_0 == err,
    }
}

/// `r` is the outcome `want`, taken by its value.
pub open spec fn stmt_is(
    r: Result<mir::Stmt, LowerError>,
    want: Result<mir::StmtView, LowerError>,
) -> bool {
    match want {
        Ok(v) => r is Ok && r->Ok_0@ == v,
        Err(err) => r is Err && r->Err_0 == err,
    }
}

/// `r` is the outcome `want`, taken by its value.
pub open spec fn stmts_are(
    r: Result<Vec<mir::Stmt>, LowerError>,
    want: Result<Seq<mir::StmtView>, LowerError>,
) -> bool {
    match want {
        Ok(v) => r is Ok && mir::stmts_view(r->Ok_0@) == v,
        Err(err) => r is Err && r->Err_0 == err,
    }
}

/// `r` is the outcome `want`, taken by its value.
pub open spec fn cases_are(
    r: Result<Vec<mir::Case>, LowerError>,
    want: Result<Seq<(mir::ExprView, Seq<mir::StmtView>)>, LowerError>,
) -> bool {
    match want {
        Ok(v) => r is Ok && mir::cases_view(r->Ok_0@) == v,
        Err(err) => r is Err && r->Err_0 == err,
    }
}

/// `r` is the outcome `want`, taken by its value.
pub open spec fn decl_is(
    r: Result<mir::Decl, LowerError>,
    want: Result<mir::DeclView, LowerError>,
) -> bool {
    match want {
        Ok(v) => r is Ok && r->Ok_0@ == v,
        Err(err) => r is Err && r->Err_0 == err,
    }
}

/// `r` is the outcome `want`, taken by its value.
pub open spec fn decls_are(
    r: Result<Vec<mir::Decl>, LowerError>,
    want: Result<Seq<mir::DeclView>, LowerError>,
) -> bool {
    match want {
        Ok(v) => r is Ok && mir::decls_view(r->Ok_0@) == v,
        Err(err) => r is Err && r->Err_0 == err,
    }
}

/// `r` is the outcome `want`, taken by its value.
pub open spec fn modules_are(
    r: Result<Vec<mir::Module>, LowerError>,
    want: Result<Seq<mir::ModuleView>, LowerError>,
) -> bool {
    match want {
        Ok(v) => r is Ok && mir::modules_view(r->Ok_0@) == v,
        Err(err) => r is Err && r->Err_0 == err,
    }
}

fn lower_visibility(visibility: &Visibility) -> (lowered: mir::Visibility)
    ensures
        lowered == lowered_visibility(*visibility),
{
    match visibility {
        Visibility::Public => mir::Visibility::Public,
        Visibility::Private => mir::Visibility::Private,
    }
}

fn lower_type(ty: &Type) -> (lowered: mir::Type)
    ensures
        lowered == lowered_type(*ty),
    decreases ty,
{
    match ty {
        Type::Bool => mir::Type::Bool,
        Type::Double => mir::Type::Double,
        Type::Int32 => mir::Type::Int32,
        Type::Int64 => mir::Type::Int64,
        Type::Ptr { to } => mir::Type::Ptr(Some(Box::new(lower_type(to)))),
        Type::VoidPtr => mir::Type::Ptr(None),
        Type::Str => mir::Type::Str,
    }
}

fn lower_opt_type(ty: &Option<Type>) -> (lowered: Option<mir::Type>)
    ensures
        lowered == lowered_opt_type(*ty),
{
    match ty {
        Some(ty) => Some(lower_type(ty)),
        None => None,
    }
}

fn lower_flag(b: &Option<bool>) -> (lowered: bool)
    ensures
        lowered == flag(*b),
{
    match b {
        Some(b) => *b,
        None => false,
    }
}

fn lower_args(args: &Vec<FuncArg>) -> (lowered: Vec<mir::FuncArg>)
    ensures
        mir::args_view(lowered@) == lowered_args(args_view(args@)),
{
    let ghost target = lowered_args(args_view(args@));
    let mut lowered: Vec<mir::FuncArg> = Vec::new();
    let mut i: usize = 0;
    while i < args.len()
        invariant
            i <= args.len(),
            lowered.len() == i,
            target == lowered_args(args_view(args@)),
            mir::args_view(lowered@) == target.take(i as int),
        decreases args.len() - i,
    {
        let ghost before = lowered@;
        lowered.push((args[i].name.clone(), lower_type(&args[i].ty)));
        proof {
            assert forall|j: int| 0 <= j < i + 1 implies mir::args_view(lowered@)[j]
                == target.take(i + 1)[j] by {
                if j < i {
                    assert(mir::args_view(before)[j] == target.take(i as int)[j]);
                    assert(lowered@[j] == before[j]);
                }
            }
            assert(mir::args_view(lowered@) =~= target.take(i + 1));
        }
        i = i + 1;
    }
    assert(mir::args_view(lowered@) =~= target);
    lowered
}

fn lower_number(num: &Number, ty: &Type) -> (r: Result<mir::Expr, LowerError>)
    ensures
        expr_is(r, lowered_number(num@, *ty)),
{
    match ty {
        Type::Double => match &num.double {
            Some(d) => Ok(mir::Expr::ConstDouble(d.clone())),
            None => Err(LowerError::NotDouble),
        },
        Type::Int32 => match num.integer {
            Some(i) => if -2147483648 <= i && i <= 2147483647 {
                Ok(mir::Expr::ConstInt32(i as i32))
            } else {
                Err(LowerError::NotInt32)
            },
            None => Err(LowerError::NotInt32),
        },
        Type::Int64 => match num.integer {
            Some(i) => Ok(mir::Expr::ConstInt64(i)),
            None => Err(LowerError::NotInt64),
        },
        _ => Err(LowerError::InvalidNumber),
    }
}

fn lower_const(value: &Value, ty: &Type) -> (r: Result<mir::Expr, LowerError>)
    ensures
        expr_is(r, lowered_const(value@, *ty)),
{
    match value {
        Value::Bool(b) => match ty {
            Type::Bool => Ok(mir::Expr::ConstBool(*b)),
            _ => Err(LowerError::UnsupportedValue),
        },
        Value::Number(n) => lower_number(n, ty),
        Value::String(s) => match ty {
            Type::Str => Ok(mir::Expr::ConstStr(s.clone())),
            _ => Err(LowerError::UnsupportedValue),
        },
        _ => Err(LowerError::UnsupportedValue),
    }
}

fn lower_expr(expr: &Expr) -> (r: Result<mir::Expr, LowerError>)
    ensures
        expr_is(r, lowered_expr(expr@)),
    decreases expr,
{
    match expr {
        Expr::Eq { lhs, rhs } => {
            let l = lower_expr(lhs)?;
            let r = lower_expr(rhs)?;
            Ok(mir::Expr::Cmp(mir::Op::Eq, Box::new(l), Box::new(r)))
        },
        Expr::Const { value, ty } => lower_const(value, ty),
        Expr::FuncCall { name, ty, args } => {
            let args = lower_exprs(args)?;
            Ok(mir::Expr::FuncCall(name.clone(), lower_type(ty), args))
        },
        Expr::Ne { lhs, rhs } => {
            let l = lower_expr(lhs)?;
            let r = lower_expr(rhs)?;
            Ok(mir::Expr::Cmp(mir::Op::Ne, Box::new(l), Box::new(r)))
        },
        Expr::Not { expr } => {
            let inner = lower_expr(expr)?;
            Ok(mir::Expr::Not(Box::new(inner)))
        },
        Expr::VarRef { name, ty, byref } => Ok(
            mir::Expr::VarRef(name.clone(), lower_type(ty), lower_flag(byref)),
        ),
    }
}

fn lower_exprs(exprs: &Vec<Expr>) -> (r: Result<Vec<mir::Expr>, LowerError>)
    ensures
        exprs_are(r, lowered_exprs(exprs_view(exprs@))),
    decreases exprs,
{
    let ghost all = exprs_view(exprs@);
    let mut lowered: Vec<mir::Expr> = Vec::new();
    let mut i: usize = 0;
    assert(all.take(0) =~= Seq::<ExprView>::empty());
    assert(mir::exprs_view(lowered@) =~= Seq::<mir::ExprView>::empty());
    while i < exprs.len()
        invariant
            i <= exprs.len(),
            all == exprs_view(exprs@),
            lowered_exprs(all.take(i as int)) == Ok::<Seq<mir::ExprView>, LowerError>(
                mir::exprs_view(lowered@),
            ),
        decreases exprs.len() - i,
    {
        proof {
            assert(all.take(i + 1).drop_last() =~= all.take(i as int));
            assert(all.take(i + 1).last() == exprs@[i as int]@);
            if lowered_exprs(all.take(i + 1)) is Err {
                lemma_exprs_failure(all, i + 1);
            }
        }
        let ghost before = mir::exprs_view(lowered@);
        let e = lower_expr(&exprs[i])?;
        lowered.push(e);
        assert(mir::exprs_view(lowered@) =~= before.push(e@));
        i = i + 1;
    }
    assert(all.take(i as int) =~= all);
    Ok(lowered)
}

/// A failure in the first `n` expressions is the failure of them all.
proof fn lemma_exprs_failure(es: Seq<ExprView>, n: int)
    requires
        0 <= n <= es.len(),
        lowered_exprs(es.take(n)) is Err,
    ensures
        lowered_exprs(es) == lowered_exprs(es.take(n)),
    decreases es.len() - n,
{
    if n < es.len() {
        assert(es.take(n + 1).drop_last() =~= es.take(n));
        lemma_exprs_failure(es, n + 1);
    } else {
        assert(es.take(n) =~= es);
    }
}

/// A failure in the first `n` statements is the failure of them all.
proof fn lemma_stmts_failure(ss: Seq<StmtView>, n: int)
    requires
        0 <= n <= ss.len(),
        lowered_stmts(ss.take(n)) is Err,
    ensures
        lowered_stmts(ss) == lowered_stmts(ss.take(n)),
    decreases ss.len() - n,
{
    if n < ss.len() {
        assert(ss.take(n + 1).drop_last() =~= ss.take(n));
        lemma_stmts_failure(ss, n + 1);
    } else {
        assert(ss.take(n) =~= ss);
    }
}

/// A failure in the first `n` arms is the failure of them all.
proof fn lemma_cases_failure(cases: Seq<(ExprView, Seq<StmtView>)>, n: int)
    requires
        0 <= n <= cases.len(),
        lowered_cases(cases.take(n)) is Err,
    ensures
        lowered_cases(cases) == lowered_cases(cases.take(n)),
    decreases cases.len() - n,
{
    if n < cases.len() {
        assert(cases.take(n + 1).drop_last() =~= cases.take(n));
        lemma_cases_failure(cases, n + 1);
    } else {
        assert(cases.take(n) =~= cases);
    }
}

/// A failure in the first `n` declarations is the failure of them all.
proof fn lemma_decls_failure(ds: Seq<DeclView>, n: int)
    requires
        0 <= n <= ds.len(),
        lowered_decls(ds.take(n)) is Err,
    ensures
        lowered_decls(ds) == lowered_decls(ds.take(n)),
    decreases ds.len() - n,
{
    if n < ds.len() {
        assert(ds.take(n + 1).drop_last() =~= ds.take(n));
        lemma_decls_failure(ds, n + 1);
    } else {
        assert(ds.take(n) =~= ds);
    }
}

/// A failure in the first `n` modules is the failure of them all.
proof fn lemma_modules_failure(ms: Seq<ModuleView>, n: int)
    requires
        0 <= n <= ms.len(),
        lowered_modules(ms.take(n)) is Err,
    ensures
        lowered_modules(ms) == lowered_modules(ms.take(n)),
    decreases ms.len() - n,
{
    if n < ms.len() {
        assert(ms.take(n + 1).drop_last() =~= ms.take(n));
        lemma_modules_failure(ms, n + 1);
    } else {
        assert(ms.take(n) =~= ms);
    }
}

fn lower_stmt(stmt: &Stmt) -> (r: Result<mir::Stmt, LowerError>)
    ensures
        stmt_is(r, lowered_stmt(stmt@)),
    decreases stmt,
{
    match stmt {
        Stmt::Cond { cases } => {
            let cases = lower_cases(cases)?;
            Ok(mir::Stmt::Cond(cases))
        },
        Stmt::FuncCall { name, args } => {
            let args = lower_exprs(args)?;
            Ok(mir::Stmt::FuncCall(name.clone(), args))
        },
        Stmt::Ret { value: Some(value) } => {
            let value = lower_expr(value)?;
            Ok(mir::Stmt::Ret(Some(value)))
        },
        Stmt::Ret { value: None } => Ok(mir::Stmt::Ret(None)),
        Stmt::VarDecl { name, value } => {
            let value = lower_expr(value)?;
            Ok(mir::Stmt::VarDecl(name.clone(), value))
        },
    }
}

fn lower_stmts(stmts: &Vec<Stmt>) -> (r: Result<Vec<mir::Stmt>, LowerError>)
    ensures
        stmts_are(r, lowered_stmts(stmts_view(stmts@))),
    decreases stmts,
{
    let ghost all = stmts_view(stmts@);
    let mut lowered: Vec<mir::Stmt> = Vec::new();
    let mut i: usize = 0;
    assert(all.take(0) =~= Seq::<StmtView>::empty());
    assert(mir::stmts_view(lowered@) =~= Seq::<mir::StmtView>::empty());
    while i < stmts.len()
        invariant
            i <= stmts.len(),
            all == stmts_view(stmts@),
            lowered_stmts(all.take(i as int)) == Ok::<Seq<mir::StmtView>, LowerError>(
                mir::stmts_view(lowered@),
            ),
        decreases stmts.len() - i,
    {
        proof {
            assert(all.take(i + 1).drop_last() =~= all.take(i as int));
            assert(all.take(i + 1).last() == stmts@[i as int]@);
            if lowered_stmts(all.take(i + 1)) is Err {
                lemma_stmts_failure(all, i + 1);
            }
        }
        let ghost before = mir::stmts_view(lowered@);
        let s = lower_stmt(&stmts[i])?;
        lowered.push(s);
        assert(mir::stmts_view(lowered@) =~= before.push(s@));
        i = i + 1;
    }
    assert(all.take(i as int) =~= all);
    Ok(lowered)
}

fn lower_cases(cases: &Vec<Case>) -> (r: Result<Vec<mir::Case>, LowerError>)
    ensures
        cases_are(r, lowered_cases(cases_view(cases@))),
    decreases cases,
{
    let ghost all = cases_view(cases@);
    let mut lowered: Vec<mir::Case> = Vec::new();
    let mut i: usize = 0;
    assert(all.take(0) =~= Seq::<(ExprView, Seq<StmtView>)>::empty());
    assert(mir::cases_view(lowered@) =~= Seq::<(mir::ExprView, Seq<mir::StmtView>)>::empty());
    while i < cases.len()
        invariant
            i <= cases.len(),
            all == cases_view(cases@),
            lowered_cases(all.take(i as int)) == Ok::<
                Seq<(mir::ExprView, Seq<mir::StmtView>)>,
                LowerError,
            >(mir::cases_view(lowered@)),
        decreases cases.len() - i,
    {
        proof {
            assert(all.take(i + 1).drop_last() =~= all.take(i as int));
            assert(all.take(i + 1).last() == (
                cases@[i as int].expr@,
                stmts_view(cases@[i as int].stmts@),
            ));
            if lowered_cases(all.take(i + 1)) is Err {
                lemma_cases_failure(all, i + 1);
            }
        }
        let ghost before = mir::cases_view(lowered@);
        let guard = lower_expr(&cases[i].expr)?;
        let body = lower_stmts(&cases[i].stmts)?;
        let ghost arm = (guard@, mir::stmts_view(body@));
        lowered.push((guard, body));
        assert(mir::cases_view(lowered@) =~= before.push(arm));
        i = i + 1;
    }
    assert(all.take(i as int) =~= all);
    Ok(lowered)
}

fn lower_decl(decl: &Decl) -> (r: Result<mir::Decl, LowerError>)
    ensures
        decl_is(r, lowered_decl(decl@)),
{
    match decl {
        Decl::FwdDecl { name, visibility, ty, args, variadic } => Ok(
            mir::Decl::FwdDecl(
                name.clone(),
                lower_visibility(visibility),
                lower_opt_type(ty),
                lower_args(args),
                lower_flag(variadic),
            ),
        ),
        Decl::FuncDecl { name, visibility, ty, args, variadic, stmts } => {
            let body = lower_stmts(stmts)?;
            Ok(
                mir::Decl::FuncDecl(
                    name.clone(),
                    lower_visibility(visibility),
                    lower_opt_type(ty),
                    lower_args(args),
                    lower_flag(variadic),
                    body,
                ),
            )
        },
    }
}

fn lower_decls(decls: &Vec<Decl>) -> (r: Result<Vec<mir::Decl>, LowerError>)
    ensures
        decls_are(r, lowered_decls(decls_view(decls@))),
{
    let ghost all = decls_view(decls@);
    let mut lowered: Vec<mir::Decl> = Vec::new();
    let mut i: usize = 0;
    assert(all.take(0) =~= Seq::<DeclView>::empty());
    assert(mir::decls_view(lowered@) =~= Seq::<mir::DeclView>::empty());
    while i < decls.len()
        invariant
            i <= decls.len(),
            all == decls_view(decls@),
            lowered_decls(all.take(i as int)) == Ok::<Seq<mir::DeclView>, LowerError>(
                mir::decls_view(lowered@),
            ),
        decreases decls.len() - i,
    {
        proof {
            assert(all.take(i + 1).drop_last() =~= all.take(i as int));
            assert(all.take(i + 1).last() == decls@[i as int]@);
            if lowered_decls(all.take(i + 1)) is Err {
                lemma_decls_failure(all, i + 1);
            }
        }
        let ghost before = mir::decls_view(lowered@);
        let d = lower_decl(&decls[i])?;
        lowered.push(d);
        assert(mir::decls_view(lowered@) =~= before.push(d@));
        i = i + 1;
    }
    assert(all.take(i as int) =~= all);
    Ok(lowered)
}

/// Reads a document as modules of the middle language, or reports the first
/// constant in it whose value is not one of its type.
#[verifier::loop_isolation(false)]
pub fn lower(json_lang: &JSONLang) -> (r: Result<Vec<mir::Module>, LowerError>)
    ensures
        modules_are(r, lowered_modules(json_lang@)),
{
    match json_lang {
        JSONLang::Modules(modules) => {
            let ghost all = modules_view(modules@);
            let mut lowered: Vec<mir::Module> = Vec::new();
            let mut i: usize = 0;
            assert(all.take(0) =~= Seq::<ModuleView>::empty());
            assert(mir::modules_view(lowered@) =~= Seq::<mir::ModuleView>::empty());
            while i < modules.len()
                invariant
                    i <= modules.len(),
                    all == modules_view(modules@),
                    lowered_modules(all.take(i as int)) == Ok::<Seq<mir::ModuleView>, LowerError>(
                        mir::modules_view(lowered@),
                    ),
                decreases modules.len() - i,
            {
                proof {
                    assert(all.take(i + 1).drop_last() =~= all.take(i as int));
                    assert(all.take(i + 1).last() == modules@[i as int]@);
                    if lowered_modules(all.take(i + 1)) is Err {
                        lemma_modules_failure(all, i + 1);
                    }
                }
                let ghost before = mir::modules_view(lowered@);
                let module = &modules[i];
                let decls = lower_decls(&module.decls)?;
                let m = mir::Module { name: module.name.clone(), decls };
                lowered.push(m);
                assert(mir::modules_view(lowered@) =~= before.push(m@));
                i = i + 1;
            }
            assert(all.take(i as int) =~= all);
            Ok(lowered)
        },
    }
}

} // verus!
