//! From the middle language to its JSON form, and the law that the way back
//! gives the program again.

use vstd::prelude::*;
use vstd::string::*;
use crate::json_lang::{
    Case, Decl, DeclView, Expr, ExprView, FuncArg, JSONLang, Module, ModuleView, Number,
    NumberView, Stmt, StmtView, Type, Value, ValueView, Visibility, args_view, cases_view,
    decls_view, exprs_view, modules_view, stmts_view,
};
use crate::json_lower::{
    flag, lowered_args, lowered_cases, lowered_decl, lowered_decls, lowered_expr, lowered_exprs,
    lowered_modules, lowered_stmt, lowered_stmts, lowered_type, LowerError,
};
use crate::mir;

verus! {

/// The text of a double names a number: it is none of the texts of the
/// infinities and of what is not a number.
pub open spec fn double_is_finite(text: Seq<char>) -> bool {
    text != "inf"@ && text != "-inf"@ && text != "NaN"@
}

/// The type of the document that stands for a type of the middle language.
pub open spec fn raised_type(ty: mir::Type) -> Type
    decreases ty,
{
    match ty {
        mir::Type::Bool => Type::Bool,
        mir::Type::Double => Type::Double,
        mir::Type::Int32 => Type::Int32,
        mir::Type::Int64 => Type::Int64,
        mir::Type::Ptr(Some(to)) => Type::Ptr { to: Box::new(raised_type(*to)) },
        mir::Type::Ptr(None) => Type::VoidPtr,
        mir::Type::Str => Type::Str,
    }
}

/// The return type of the document that stands for a return type.
pub open spec fn raised_opt_type(ty: Option<mir::Type>) -> Option<Type> {
    match ty {
        Some(ty) => Some(raised_type(ty)),
        None => None,
    }
}

/// The visibility of the document that stands for a visibility.
pub open spec fn raised_visibility(v: mir::Visibility) -> Visibility {
    match v {
        mir::Visibility::Public => Visibility::Public,
        mir::Visibility::Private => Visibility::Private,
    }
}

/// A flag is written only where it is set.
pub open spec fn raised_flag(b: bool) -> Option<bool> {
    if b {
        Some(true)
    } else {
        None
    }
}

/// The parameters of the document that stand for parameters.
pub open spec fn raised_args(args: Seq<(Seq<char>, mir::Type)>) -> Seq<(Seq<char>, Type)> {
    Seq::new(args.len(), |i: int| (args[i].0, raised_type(args[i].1)))
}

/// The JSON number of an integer.
pub open spec fn int_number(i: i64) -> ValueView {
    ValueView::Number(NumberView { integer: Some(i), double: None })
}

/// The JSON value of a double: its number, or null where its text names no number.
pub open spec fn double_value(text: Seq<char>) -> ValueView {
    if double_is_finite(text) {
        ValueView::Number(NumberView { integer: None, double: Some(text) })
    } else {
        ValueView::Null
    }
}

/// The expression of the document that stands for an expression.
pub open spec fn raised_expr(e: mir::ExprView) -> ExprView
    decreases e,
{
    match e {
        mir::ExprView::Cmp(op, lhs, rhs) => match op {
            mir::Op::Eq => ExprView::Eq {
                lhs: Box::new(raised_expr(*lhs)),
                rhs: Box::new(raised_expr(*rhs)),
            },
            mir::Op::Ne => ExprView::Ne {
                lhs: Box::new(raised_expr(*lhs)),
                rhs: Box::new(raised_expr(*rhs)),
            },
        },
        mir::ExprView::ConstBool(b) => ExprView::Const { value: ValueView::Bool(b), ty: Type::Bool },
        mir::ExprView::ConstDouble(d) => ExprView::Const { value: double_value(d), ty: Type::Double },
        mir::ExprView::ConstInt32(i) => ExprView::Const { value: int_number(i as i64), ty: Type::Int32 },
        mir::ExprView::ConstInt64(i) => ExprView::Const { value: int_number(i), ty: Type::Int64 },
        mir::ExprView::ConstStr(s) => ExprView::Const { value: ValueView::String(s), ty: Type::Str },
        mir::ExprView::FuncCall(name, ty, args) => ExprView::FuncCall {
            name,
            ty: raised_type(ty),
            args: raised_exprs(args),
        },
        mir::ExprView::Not(inner) => ExprView::Not { expr: Box::new(raised_expr(*inner)) },
        mir::ExprView::VarRef(name, ty, by_ref) => ExprView::VarRef {
            name,
            ty: raised_type(ty),
            byref: raised_flag(by_ref),
        },
    }
}

/// The expressions of the document that stand for expressions.
pub open spec fn raised_exprs(es: Seq<mir::ExprView>) -> Seq<ExprView>
    decreases es,
{
    Seq::new(
        es.len(),
        |i: int|
            if 0 <= i < es.len() {
                raised_expr(es[i])
            } else {
                ExprView::Const { value: ValueView::Null, ty: Type::Bool }
            },
    )
}

/// The statement of the document that stands for a statement.
pub open spec fn raised_stmt(s: mir::StmtView) -> StmtView
    decreases s,
{
    match s {
        mir::StmtView::Cond(cases) => StmtView::Cond { cases: raised_cases(cases) },
        mir::StmtView::FuncCall(name, args) => StmtView::FuncCall { name, args: raised_exprs(args) },
        mir::StmtView::Ret(Some(value)) => StmtView::Ret { value: Some(raised_expr(value)) },
        mir::StmtView::Ret(None) => StmtView::Ret { value: None },
        mir::StmtView::VarDecl(name, value) => StmtView::VarDecl { name, value: raised_expr(value) },
    }
}

/// The statements of the document that stand for statements.
pub open spec fn raised_stmts(ss: Seq<mir::StmtView>) -> Seq<StmtView>
    decreases ss,
{
    Seq::new(
        ss.len(),
        |i: int|
            if 0 <= i < ss.len() {
                raised_stmt(ss[i])
            } else {
                StmtView::Ret { value: None }
            },
    )
}

/// The arms of the document that stand for the arms of a conditional.
pub open spec fn raised_cases(cases: Seq<(mir::ExprView, Seq<mir::StmtView>)>) -> Seq<
    (ExprView, Seq<StmtView>),
>
    decreases cases,
{
    Seq::new(
        cases.len(),
        |i: int|
            if 0 <= i < cases.len() {
                (raised_expr(cases[i].0), raised_stmts(cases[i].1))
            } else {
                (ExprView::Const { value: ValueView::Null, ty: Type::Bool }, Seq::empty())
            },
    )
}

/// The declaration of the document that stands for a declaration.
pub open spec fn raised_decl(d: mir::DeclView) -> DeclView {
    match d {
        mir::DeclView::FwdDecl(name, sig) => DeclView::FwdDecl {
            name,
            visibility: raised_visibility(sig.visibility),
            ty: raised_opt_type(sig.ret),
            args: raised_args(sig.args),
            variadic: raised_flag(sig.variadic),
        },
        mir::DeclView::FuncDecl(name, sig, body) => DeclView::FuncDecl {
            name,
            visibility: raised_visibility(sig.visibility),
            ty: raised_opt_type(sig.ret),
            args: raised_args(sig.args),
            variadic: raised_flag(sig.variadic),
            stmts: raised_stmts(body),
        },
    }
}

/// The declarations of the document that stand for declarations.
pub open spec fn raised_decls(ds: Seq<mir::DeclView>) -> Seq<DeclView> {
    Seq::new(ds.len(), |i: int| raised_decl(ds[i]))
}

/// The document that stands for modules of the middle language.
pub open spec fn raised_modules(ms: Seq<mir::ModuleView>) -> Seq<ModuleView> {
    Seq::new(
        ms.len(),
        |i: int| ModuleView { name: ms[i].name, decls: raised_decls(ms[i].decls) },
    )
}

fn raise_opt_bool(value: &bool) -> (raised: Option<bool>)
    ensures
        raised == raised_flag(*value),
{
    if *value {
        Some(true)
    } else {
        None
    }
}

fn raise_visibility(visibility: &mir::Visibility) -> (raised: Visibility)
    ensures
        raised == raised_visibility(*visibility),
{
    match visibility {
        mir::Visibility::Public => Visibility::Public,
        mir::Visibility::Private => Visibility::Private,
    }
}

fn raise_type(ty: &mir::Type) -> (raised: Type)
    ensures
        raised == raised_type(*ty),
    decreases ty,
{
    match ty {
        mir::Type::Bool => Type::Bool,
        mir::Type::Double => Type::Double,
        mir::Type::Int32 => Type::Int32,
        mir::Type::Int64 => Type::Int64,
        mir::Type::Ptr(Some(to)) => Type::Ptr { to: Box::new(raise_type(to)) },
        mir::Type::Ptr(None) => Type::VoidPtr,
        mir::Type::Str => Type::Str,
    }
}

fn raise_opt_type(ty: &Option<mir::Type>) -> (raised: Option<Type>)
    ensures
        raised == raised_opt_type(*ty),
{
    match ty {
        Some(ty) => Some(raise_type(ty)),
        None => None,
    }
}

fn raise_args(args: &Vec<mir::FuncArg>) -> (raised: Vec<FuncArg>)
    ensures
        args_view(raised@) == raised_args(mir::args_view(args@)),
{
    let ghost target = raised_args(mir::args_view(args@));
    let mut raised: Vec<FuncArg> = Vec::new();
    let mut i: usize = 0;
    while i < args.len()
        invariant
            i <= args.len(),
            raised.len() == i,
            target == raised_args(mir::args_view(args@)),
            args_view(raised@) == target.take(i as int),
        decreases args.len() - i,
    {
        let ghost before = raised@;
        raised.push(FuncArg { name: args[i].0.clone(), ty: raise_type(&args[i].1) });
        proof {
            assert forall|j: int| 0 <= j < i + 1 implies args_view(raised@)[j] == target.take(
                i + 1,
            )[j] by {
                if j < i {
                    assert(args_view(before)[j] == target.take(i as int)[j]);
                    assert(raised@[j] == before[j]);
                }
            }
            assert(args_view(raised@) =~= target.take(i + 1));
        }
        i = i + 1;
    }
    assert(args_view(raised@) =~= target);
    raised
}

fn raise_double(text: &String) -> (value: Value)
    ensures
        value@ == double_value(text@),
{
    let finite = !(*text == String::from_str("inf")) && !(*text == String::from_str("-inf")) && !(
    *text == String::from_str("NaN"));
    if finite {
        Value::Number(Number { integer: None, double: Some(text.clone()) })
    } else {
        Value::Null
    }
}

fn raise_expr(expr: &mir::Expr) -> (raised: Expr)
    ensures
        raised@ == raised_expr(expr@),
    decreases expr,
{
    match expr {
        mir::Expr::Cmp(op, lhs, rhs) => match op {
            mir::Op::Eq => Expr::Eq {
                lhs: Box::new(raise_expr(lhs)),
                rhs: Box::new(raise_expr(rhs)),
            },
            mir::Op::Ne => Expr::Ne {
                lhs: Box::new(raise_expr(lhs)),
                rhs: Box::new(raise_expr(rhs)),
            },
        },
        mir::Expr::ConstBool(b) => Expr::Const { value: Value::Bool(*b), ty: Type::Bool },
        mir::Expr::ConstDouble(d) => Expr::Const { value: raise_double(d), ty: Type::Double },
        mir::Expr::ConstInt32(i) => Expr::Const {
            value: Value::Number(Number { integer: Some(*i as i64), double: None }),
            ty: Type::Int32,
        },
        mir::Expr::ConstInt64(i) => Expr::Const {
            value: Value::Number(Number { integer: Some(*i), double: None }),
            ty: Type::Int64,
        },
        mir::Expr::ConstStr(s) => Expr::Const { value: Value::String(s.clone()), ty: Type::Str },
        mir::Expr::FuncCall(name, ty, args) => Expr::FuncCall {
            name: name.clone(),
            ty: raise_type(ty),
            args: raise_exprs(args),
        },
        mir::Expr::Not(inner) => Expr::Not { expr: Box::new(raise_expr(inner)) },
        mir::Expr::VarRef(name, ty, byref) => Expr::VarRef {
            name: name.clone(),
            ty: raise_type(ty),
            byref: raise_opt_bool(byref),
        },
    }
}

fn raise_exprs(exprs: &Vec<mir::Expr>) -> (raised: Vec<Expr>)
    ensures
        exprs_view(raised@) == raised_exprs(mir::exprs_view(exprs@)),
    decreases exprs,
{
    let ghost target = raised_exprs(mir::exprs_view(exprs@));
    let mut raised: Vec<Expr> = Vec::new();
    let mut i: usize = 0;
    assert(exprs_view(raised@) =~= target.take(0));
    while i < exprs.len()
        invariant
            i <= exprs.len(),
            raised.len() == i,
            target == raised_exprs(mir::exprs_view(exprs@)),
            exprs_view(raised@) == target.take(i as int),
        decreases exprs.len() - i,
    {
        let ghost before = exprs_view(raised@);
        let e = raise_expr(&exprs[i]);
        raised.push(e);
        assert(exprs_view(raised@) =~= before.push(e@));
        assert(exprs_view(raised@) =~= target.take(i + 1));
        i = i + 1;
    }
    assert(exprs_view(raised@) =~= target);
    raised
}

fn raise_stmt(stmt: &mir::Stmt) -> (raised: Stmt)
    ensures
        raised@ == raised_stmt(stmt@),
    decreases stmt,
{
    match stmt {
        mir::Stmt::Cond(cases) => Stmt::Cond { cases: raise_cases(cases) },
        mir::Stmt::FuncCall(name, args) => Stmt::FuncCall {
            name: name.clone(),
            args: raise_exprs(args),
        },
        mir::Stmt::Ret(Some(value)) => Stmt::Ret { value: Some(raise_expr(value)) },
        mir::Stmt::Ret(None) => Stmt::Ret { value: None },
        mir::Stmt::VarDecl(name, value) => Stmt::VarDecl {
            name: name.clone(),
            value: raise_expr(value),
        },
    }
}

fn raise_stmts(stmts: &Vec<mir::Stmt>) -> (raised: Vec<Stmt>)
    ensures
        stmts_view(raised@) == raised_stmts(mir::stmts_view(stmts@)),
    decreases stmts,
{
    let ghost target = raised_stmts(mir::stmts_view(stmts@));
    let mut raised: Vec<Stmt> = Vec::new();
    let mut i: usize = 0;
    assert(stmts_view(raised@) =~= target.take(0));
    while i < stmts.len()
        invariant
            i <= stmts.len(),
            raised.len() == i,
            target == raised_stmts(mir::stmts_view(stmts@)),
            stmts_view(raised@) == target.take(i as int),
        decreases stmts.len() - i,
    {
        let ghost before = stmts_view(raised@);
        let s = raise_stmt(&stmts[i]);
        raised.push(s);
        assert(stmts_view(raised@) =~= before.push(s@));
        assert(stmts_view(raised@) =~= target.take(i + 1));
        i = i + 1;
    }
    assert(stmts_view(raised@) =~= target);
    raised
}

fn raise_cases(cases: &Vec<mir::Case>) -> (raised: Vec<Case>)
    ensures
        cases_view(raised@) == raised_cases(mir::cases_view(cases@)),
    decreases cases,
{
    let ghost target = raised_cases(mir::cases_view(cases@));
    let mut raised: Vec<Case> = Vec::new();
    let mut i: usize = 0;
    assert(cases_view(raised@) =~= target.take(0));
    while i < cases.len()
        invariant
            i <= cases.len(),
            raised.len() == i,
            target == raised_cases(mir::cases_view(cases@)),
            cases_view(raised@) == target.take(i as int),
        decreases cases.len() - i,
    {
        let ghost before = cases_view(raised@);
        let case = Case { expr: raise_expr(&cases[i].0), stmts: raise_stmts(&cases[i].1) };
        let ghost arm = (case.expr@, stmts_view(case.stmts@));
        raised.push(case);
        assert(cases_view(raised@) =~= before.push(arm));
        assert(cases_view(raised@) =~= target.take(i + 1));
        i = i + 1;
    }
    assert(cases_view(raised@) =~= target);
    raised
}

fn raise_decl(decl: &mir::Decl) -> (raised: Decl)
    ensures
        raised@ == raised_decl(decl@),
{
    match decl {
        mir::Decl::FwdDecl(name, visibility, ty, args, variadic) => Decl::FwdDecl {
            name: name.clone(),
            visibility: raise_visibility(visibility),
            ty: raise_opt_type(ty),
            args: raise_args(args),
            variadic: raise_opt_bool(variadic),
        },
        mir::Decl::FuncDecl(name, visibility, ty, args, variadic, stmts) => Decl::FuncDecl {
            name: name.clone(),
            visibility: raise_visibility(visibility),
            ty: raise_opt_type(ty),
            args: raise_args(args),
            variadic: raise_opt_bool(variadic),
            stmts: raise_stmts(stmts),
        },
    }
}

fn raise_decls(decls: &Vec<mir::Decl>) -> (raised: Vec<Decl>)
    ensures
        decls_view(raised@) == raised_decls(mir::decls_view(decls@)),
{
    let ghost target = raised_decls(mir::decls_view(decls@));
    let mut raised: Vec<Decl> = Vec::new();
    let mut i: usize = 0;
    assert(decls_view(raised@) =~= target.take(0));
    while i < decls.len()
        invariant
            i <= decls.len(),
            raised.len() == i,
            target == raised_decls(mir::decls_view(decls@)),
            decls_view(raised@) == target.take(i as int),
        decreases decls.len() - i,
    {
        let ghost before = decls_view(raised@);
        let d = raise_decl(&decls[i]);
        raised.push(d);
        assert(decls_view(raised@) =~= before.push(d@));
        assert(decls_view(raised@) =~= target.take(i + 1));
        i = i + 1;
    }
    assert(decls_view(raised@) =~= target);
    raised
}

fn raise_module(module: &mir::Module) -> (raised: Module)
    ensures
        raised@ == (ModuleView { name: module@.name, decls: raised_decls(module@.decls) }),
{
    Module { name: module.name.clone(), decls: raise_decls(&module.decls) }
}

/// Writes modules of the middle language as a document.
pub fn raise(modules: &[mir::Module]) -> (document: JSONLang)
    ensures
        document@ == raised_modules(mir::modules_view(modules@)),
{
    let ghost target = raised_modules(mir::modules_view(modules@));
    let mut raised: Vec<Module> = Vec::new();
    let mut i: usize = 0;
    assert(modules_view(raised@) =~= target.take(0));
    while i < modules.len()
        invariant
            i <= modules.len(),
            raised.len() == i,
            target == raised_modules(mir::modules_view(modules@)),
            modules_view(raised@) == target.take(i as int),
        decreases modules.len() - i,
    {
        let ghost before = modules_view(raised@);
        let m = raise_module(&modules[i]);
        raised.push(m);
        assert(modules_view(raised@) =~= before.push(m@));
        assert(modules_view(raised@) =~= target.take(i + 1));
        i = i + 1;
    }
    assert(modules_view(raised@) =~= target);
    JSONLang::Modules(raised)
}

/// Every double constant in the expression names a number.
pub open spec fn finite_expr(e: mir::ExprView) -> bool
    decreases e,
{
    match e {
        mir::ExprView::Cmp(_, lhs, rhs) => finite_expr(*lhs) && finite_expr(*rhs),
        mir::ExprView::ConstDouble(d) => double_is_finite(d),
        mir::ExprView::FuncCall(_, _, args) => finite_exprs(args),
        mir::ExprView::Not(inner) => finite_expr(*inner),
        _ => true,
    }
}

/// Every double constant in the expressions names a number.
pub open spec fn finite_exprs(es: Seq<mir::ExprView>) -> bool
    decreases es,
{
    forall|i: int| 0 <= i < es.len() ==> finite_expr(es[i])
}

/// Every double constant in the statement names a number.
pub open spec fn finite_stmt(s: mir::StmtView) -> bool
    decreases s,
{
    match s {
        mir::StmtView::Cond(cases) => finite_cases(cases),
        mir::StmtView::FuncCall(_, args) => finite_exprs(args),
        mir::StmtView::Ret(Some(value)) => finite_expr(value),
        mir::StmtView::Ret(None) => true,
        mir::StmtView::VarDecl(_, value) => finite_expr(value),
    }
}

/// Every double constant in the statements names a number.
pub open spec fn finite_stmts(ss: Seq<mir::StmtView>) -> bool
    decreases ss,
{
    forall|i: int| 0 <= i < ss.len() ==> finite_stmt(ss[i])
}

/// Every double constant in the arms names a number.
pub open spec fn finite_cases(cases: Seq<(mir::ExprView, Seq<mir::StmtView>)>) -> bool
    decreases cases,
{
    forall|i: int|
        0 <= i < cases.len() ==> finite_expr(cases[i].0) && finite_stmts(cases[i].1)
}

/// Every double constant in the declaration names a number.
pub open spec fn finite_decl(d: mir::DeclView) -> bool {
    match d {
        mir::DeclView::FwdDecl(_, _) => true,
        mir::DeclView::FuncDecl(_, _, body) => finite_stmts(body),
    }
}

/// Every double constant in the module names a number.
pub open spec fn finite_module(m: mir::ModuleView) -> bool {
    forall|j: int| 0 <= j < m.decls.len() ==> finite_decl(#[trigger] m.decls[j])
}

/// Every double constant in the modules names a number.
pub open spec fn finite_modules(ms: Seq<mir::ModuleView>) -> bool {
    forall|i: int| 0 <= i < ms.len() ==> finite_module(#[trigger] ms[i])
}

proof fn lemma_type_roundtrip(ty: mir::Type)
    ensures
        lowered_type(raised_type(ty)) == ty,
    decreases ty,
{
    match ty {
        mir::Type::Ptr(Some(to)) => {
            lemma_type_roundtrip(*to);
        },
        _ => {},
    }
}

proof fn lemma_args_roundtrip(args: Seq<(Seq<char>, mir::Type)>)
    ensures
        lowered_args(raised_args(args)) == args,
{
    assert forall|i: int| 0 <= i < args.len() implies lowered_args(raised_args(args))[i]
        == args[i] by {
        lemma_type_roundtrip(args[i].1);
    }
    assert(lowered_args(raised_args(args)) =~= args);
}

proof fn lemma_expr_roundtrip(e: mir::ExprView)
    requires
        finite_expr(e),
    ensures
        lowered_expr(raised_expr(e)) == Ok::<mir::ExprView, LowerError>(e),
    decreases e,
{
    match e {
        mir::ExprView::Cmp(op, lhs, rhs) => {
            lemma_expr_roundtrip(*lhs);
            lemma_expr_roundtrip(*rhs);
        },
        mir::ExprView::FuncCall(_, ty, args) => {
            lemma_type_roundtrip(ty);
            lemma_exprs_roundtrip(args);
        },
        mir::ExprView::Not(inner) => {
            lemma_expr_roundtrip(*inner);
        },
        mir::ExprView::VarRef(_, ty, _) => {
            lemma_type_roundtrip(ty);
        },
        _ => {},
    }
}

proof fn lemma_exprs_roundtrip(es: Seq<mir::ExprView>)
    requires
        finite_exprs(es),
    ensures
        lowered_exprs(raised_exprs(es)) == Ok::<Seq<mir::ExprView>, LowerError>(es),
    decreases es,
{
    if es.len() > 0 {
        assert(raised_exprs(es).drop_last() =~= raised_exprs(es.drop_last()));
        lemma_exprs_roundtrip(es.drop_last());
        lemma_expr_roundtrip(es.last());
        assert(es.drop_last().push(es.last()) =~= es);
    } else {
        assert(es =~= Seq::<mir::ExprView>::empty());
    }
}

proof fn lemma_stmt_roundtrip(s: mir::StmtView)
    requires
        finite_stmt(s),
    ensures
        lowered_stmt(raised_stmt(s)) == Ok::<mir::StmtView, LowerError>(s),
    decreases s,
{
    match s {
        mir::StmtView::Cond(cases) => {
            lemma_cases_roundtrip(cases);
        },
        mir::StmtView::FuncCall(_, args) => {
            lemma_exprs_roundtrip(args);
        },
        mir::StmtView::Ret(Some(value)) => {
            lemma_expr_roundtrip(value);
        },
        mir::StmtView::Ret(None) => {},
        mir::StmtView::VarDecl(_, value) => {
            lemma_expr_roundtrip(value);
        },
    }
}

proof fn lemma_stmts_roundtrip(ss: Seq<mir::StmtView>)
    requires
        finite_stmts(ss),
    ensures
        lowered_stmts(raised_stmts(ss)) == Ok::<Seq<mir::StmtView>, LowerError>(ss),
    decreases ss,
{
    if ss.len() > 0 {
        assert(raised_stmts(ss).drop_last() =~= raised_stmts(ss.drop_last()));
        lemma_stmts_roundtrip(ss.drop_last());
        lemma_stmt_roundtrip(ss.last());
        assert(ss.drop_last().push(ss.last()) =~= ss);
    } else {
        assert(ss =~= Seq::<mir::StmtView>::empty());
    }
}

proof fn lemma_cases_roundtrip(cases: Seq<(mir::ExprView, Seq<mir::StmtView>)>)
    requires
        finite_cases(cases),
    ensures
        lowered_cases(raised_cases(cases)) == Ok::<
            Seq<(mir::ExprView, Seq<mir::StmtView>)>,
            LowerError,
        >(cases),
    decreases cases,
{
    if cases.len() > 0 {
        assert(raised_cases(cases).drop_last() =~= raised_cases(cases.drop_last()));
        lemma_cases_roundtrip(cases.drop_last());
        lemma_expr_roundtrip(cases.last().0);
        lemma_stmts_roundtrip(cases.last().1);
        assert(cases.drop_last().push(cases.last()) =~= cases);
    } else {
        assert(cases =~= Seq::<(mir::ExprView, Seq<mir::StmtView>)>::empty());
    }
}

proof fn lemma_decl_roundtrip(d: mir::DeclView)
    requires
        finite_decl(d),
    ensures
        lowered_decl(raised_decl(d)) == Ok::<mir::DeclView, LowerError>(d),
{
    match d {
        mir::DeclView::FwdDecl(_, sig) => {
            lemma_args_roundtrip(sig.args);
            if sig.ret is Some {
                lemma_type_roundtrip(sig.ret->0);
            }
        },
        mir::DeclView::FuncDecl(_, sig, body) => {
            lemma_args_roundtrip(sig.args);
            if sig.ret is Some {
                lemma_type_roundtrip(sig.ret->0);
            }
            lemma_stmts_roundtrip(body);
        },
    }
}

proof fn lemma_decls_roundtrip(ds: Seq<mir::DeclView>)
    requires
        forall|j: int| 0 <= j < ds.len() ==> finite_decl(#[trigger] ds[j]),
    ensures
        lowered_decls(raised_decls(ds)) == Ok::<Seq<mir::DeclView>, LowerError>(ds),
    decreases ds.len(),
{
    if ds.len() > 0 {
        assert(raised_decls(ds).drop_last() =~= raised_decls(ds.drop_last()));
        assert forall|j: int| 0 <= j < ds.drop_last().len() implies finite_decl(
            #[trigger] ds.drop_last()[j],
        ) by {
            assert(ds.drop_last()[j] == ds[j]);
        }
        lemma_decls_roundtrip(ds.drop_last());
        lemma_decl_roundtrip(ds.last());
        assert(ds.drop_last().push(ds.last()) =~= ds);
    } else {
        assert(ds =~= Seq::<mir::DeclView>::empty());
    }
}

/// Raising and then lowering gives the program again: the document of
/// modules whose double constants all name numbers is read back as the same
/// modules.
pub proof fn lemma_raise_lower_roundtrip(ms: Seq<mir::ModuleView>)
    requires
        finite_modules(ms),
    ensures
        lowered_modules(raised_modules(ms)) == Ok::<Seq<mir::ModuleView>, LowerError>(ms),
    decreases ms.len(),
{
    if ms.len() > 0 {
        assert(raised_modules(ms).drop_last() =~= raised_modules(ms.drop_last()));
        assert forall|i: int| 0 <= i < ms.drop_last().len() implies finite_module(
            #[trigger] ms.drop_last()[i],
        ) by {
            assert(ms.drop_last()[i] == ms[i]);
        }
        lemma_raise_lower_roundtrip(ms.drop_last());
        assert(finite_module(ms.last()));
        lemma_decls_roundtrip(ms.last().decls);
        assert(ms.drop_last().push(ms.last()) =~= ms);
    } else {
        assert(ms =~= Seq::<mir::ModuleView>::empty());
    }
}

} // verus!
