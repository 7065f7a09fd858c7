//! The type checker of the middle language.
//!
//! A module is checked declaration by declaration, in source order, against
//! the signatures declared so far. Every call, as an expression or as a
//! statement, must name a function that is declared by then. The first
//! violation found ends the check.

use vstd::prelude::*;
use vstd::string::*;
use crate::mir::{
    Case, Decl, DeclView, Expr, ExprView, FuncArg, Module, ModuleView, SigView, Stmt, StmtView,
    Type, Visibility,
};
use crate::mir::{args_view, decls_view, exprs_view, modules_view, stmts_view, cases_view, type_of};
use crate::assoc::{assoc, lemma_assoc_absent, lemma_assoc_found, lemma_assoc_push};
use crate::text::{append_decimal, decimal};

verus! {

/// A violation of the typing rules.
#[derive(Debug, PartialEq, Eq)]
pub enum TypeError {
    /// A variadic function that declares no parameter.
    VariadicWithoutArgs(String),
    /// A declaration whose signature differs from an earlier one of that name.
    FwdDeclMismatch(String),
    /// A function with two parameters of one name.
    NonUniqueArgNames(String),
    /// A call of a function that no earlier declaration names.
    UnresolvedCall(String),
    /// A return whose value does not have the function's return type.
    RetTypeMismatch,
    /// A reference to a variable that is not in scope.
    VarRefUndeclared(String),
    /// A reference to a variable at another type than it was declared with.
    VarRefTypeMismatch(String),
    /// A call at another type than the function returns.
    CallTypeMismatch(String),
    /// A call with the wrong number of arguments.
    CallArityMismatch(String),
    /// A call whose argument at the given position has the wrong type.
    CallParamTypeMismatch(String, usize),
    /// A conditional whose guard is not of type `Bool`.
    CondNotBool,
}

/// The mathematical value of a violation.
pub enum TypeErrorView {
    VariadicWithoutArgs(Seq<char>),
    FwdDeclMismatch(Seq<char>),
    NonUniqueArgNames(Seq<char>),
    UnresolvedCall(Seq<char>),
    RetTypeMismatch,
    VarRefUndeclared(Seq<char>),
    VarRefTypeMismatch(Seq<char>),
    CallTypeMismatch(Seq<char>),
    CallArityMismatch(Seq<char>),
    CallParamTypeMismatch(Seq<char>, int),
    CondNotBool,
}

impl View for TypeError {
    type V = TypeErrorView;

    open spec fn view(&self) -> TypeErrorView {
        match self {
            TypeError::VariadicWithoutArgs(name) => TypeErrorView::VariadicWithoutArgs(name@),
            TypeError::FwdDeclMismatch(name) => TypeErrorView::FwdDeclMismatch(name@),
            TypeError::NonUniqueArgNames(name) => TypeErrorView::NonUniqueArgNames(name@),
            TypeError::UnresolvedCall(name) => TypeErrorView::UnresolvedCall(name@),
            TypeError::RetTypeMismatch => TypeErrorView::RetTypeMismatch,
            TypeError::VarRefUndeclared(name) => TypeErrorView::VarRefUndeclared(name@),
            TypeError::VarRefTypeMismatch(name) => TypeErrorView::VarRefTypeMismatch(name@),
            TypeError::CallTypeMismatch(name) => TypeErrorView::CallTypeMismatch(name@),
            TypeError::CallArityMismatch(name) => TypeErrorView::CallArityMismatch(name@),
            TypeError::CallParamTypeMismatch(name, i) => TypeErrorView::CallParamTypeMismatch(
                name@,
                *i as int,
            ),
            TypeError::CondNotBool => TypeErrorView::CondNotBool,
        }
    }
}

/// The text by which a violation is reported.
pub open spec fn message(e: TypeErrorView) -> Seq<char> {
    match e {
        TypeErrorView::VariadicWithoutArgs(name) => "Func '"@ + name
            + "' requires at least one argument since it is variadic"@,
        TypeErrorView::FwdDeclMismatch(name) => "FwdDecl mismatch for func '"@ + name + "'"@,
        TypeErrorView::NonUniqueArgNames(name) => "Args for func '"@ + name
            + "' must have unique names"@,
        TypeErrorView::UnresolvedCall(name) => "Calling func '"@ + name
            + "' which does not have a forward declaration"@,
        TypeErrorView::RetTypeMismatch => "Return statment type does not match function type"@,
        TypeErrorView::VarRefUndeclared(name) => "VarRef '"@ + name
            + "' does not have a declaration"@,
        TypeErrorView::VarRefTypeMismatch(name) => "VarRef '"@ + name
            + "' type does not match its declaration"@,
        TypeErrorView::CallTypeMismatch(name) => "FuncCall '"@ + name
            + "' type does not match forward declaration"@,
        TypeErrorView::CallArityMismatch(name) => "FuncCall '"@ + name
            + "' parameter count does not match forward declaration"@,
        TypeErrorView::CallParamTypeMismatch(name, i) => "FuncCall '"@ + name + "' parameter "@
            + decimal(i as nat) + " type does not match forward declaration"@,
        TypeErrorView::CondNotBool => "Cond case expressions must be of type bool"@,
    }
}

/// `head`, then `name`, then `tail`.
fn quoted(head: &str, name: &String, tail: &str) -> (s: String)
    ensures
        s@ == head@ + name@ + tail@,
{
    let mut s = String::from_str(head);
    s.append(name.as_str());
    s.append(tail);
    s
}

impl TypeError {
    /// The text by which this violation is reported.
    pub fn message(&self) -> (s: String)
        ensures
            s@ == message(self@),
    {
        match self {
            TypeError::VariadicWithoutArgs(name) => quoted(
                "Func '",
                name,
                "' requires at least one argument since it is variadic",
            ),
            TypeError::FwdDeclMismatch(name) => quoted("FwdDecl mismatch for func '", name, "'"),
            TypeError::NonUniqueArgNames(name) => quoted(
                "Args for func '",
                name,
                "' must have unique names",
            ),
            TypeError::UnresolvedCall(name) => quoted(
                "Calling func '",
                name,
                "' which does not have a forward declaration",
            ),
            TypeError::RetTypeMismatch => String::from_str(
                "Return statment type does not match function type",
            ),
            TypeError::VarRefUndeclared(name) => quoted(
                "VarRef '",
                name,
                "' does not have a declaration",
            ),
            TypeError::VarRefTypeMismatch(name) => quoted(
                "VarRef '",
                name,
                "' type does not match its declaration",
            ),
            TypeError::CallTypeMismatch(name) => quoted(
                "FuncCall '",
                name,
                "' type does not match forward declaration",
            ),
            TypeError::CallArityMismatch(name) => quoted(
                "FuncCall '",
                name,
                "' parameter count does not match forward declaration",
            ),
            TypeError::CallParamTypeMismatch(name, i) => {
                let mut s = quoted("FuncCall '", name, "' parameter ");
                append_decimal(&mut s, *i as u64);
                s.append(" type does not match forward declaration");
                s
            },
            TypeError::CondNotBool => String::from_str(
                "Cond case expressions must be of type bool",
            ),
        }
    }
}

/// The signatures declared so far, by function name.
pub type Sigs = Map<Seq<char>, SigView>;

/// The variables in scope, each with its type.
pub type Scope = Map<Seq<char>, Type>;

/// An argument fits a parameter where their types are equal, or where the
/// parameter is a pointer to the type of a variable that is passed by reference.
pub open spec fn arg_fits(param: Type, actual: ExprView) -> bool {
    match (param, actual) {
        (Type::Ptr(Some(target)), ExprView::VarRef(_, ty, true)) => *target == ty,
        _ => param == type_of(actual),
    }
}

/// The first position from `from` on at which an argument does not fit its parameter.
pub open spec fn first_misfit(
    params: Seq<(Seq<char>, Type)>,
    actuals: Seq<ExprView>,
    from: int,
) -> Option<int>
    decreases params.len() - from,
{
    if from < 0 || from >= params.len() || from >= actuals.len() {
        None
    } else if !arg_fits(params[from].1, actuals[from]) {
        Some(from)
    } else {
        first_misfit(params, actuals, from + 1)
    }
}

/// What is wrong with the arguments of a call of `name`, a function of the
/// signature `sig`, by their number and by their types only: a function
/// that is not variadic takes as many arguments as it has parameters, a
/// variadic one at least as many, and each argument that stands for a
/// parameter fits it.
pub open spec fn args_error(sig: SigView, name: Seq<char>, actuals: Seq<ExprView>) -> Option<
    TypeErrorView,
> {
    if !sig.variadic && actuals.len() != sig.args.len() {
        Some(TypeErrorView::CallArityMismatch(name))
    } else if sig.variadic && actuals.len() < sig.args.len() {
        Some(TypeErrorView::CallArityMismatch(name))
    } else {
        match first_misfit(sig.args, actuals, 0) {
            Some(i) => Some(TypeErrorView::CallParamTypeMismatch(name, i)),
            None => None,
        }
    }
}

/// What is wrong with a call of `name` at type `ty`, its arguments left
/// unchecked in themselves: the function is declared, returns that type,
/// and takes the arguments by their number and their types.
pub open spec fn call_error(
    sigs: Sigs,
    name: Seq<char>,
    ty: Type,
    actuals: Seq<ExprView>,
) -> Option<TypeErrorView> {
    if !sigs.contains_key(name) {
        Some(TypeErrorView::UnresolvedCall(name))
    } else if sigs[name].ret != Some(ty) {
        Some(TypeErrorView::CallTypeMismatch(name))
    } else {
        args_error(sigs[name], name, actuals)
    }
}

/// What is wrong with a call of `name` as a statement, its arguments left
/// unchecked in themselves: the function is declared, and takes the
/// arguments by their number and their types. A statement declares no
/// type, so the function may return any type or none.
pub open spec fn stmt_call_error(sigs: Sigs, name: Seq<char>, actuals: Seq<ExprView>) -> Option<
    TypeErrorView,
> {
    if !sigs.contains_key(name) {
        Some(TypeErrorView::UnresolvedCall(name))
    } else {
        args_error(sigs[name], name, actuals)
    }
}

/// The first violation in an expression, its operands and arguments included.
pub open spec fn expr_error(e: ExprView, sigs: Sigs, scope: Scope) -> Option<TypeErrorView>
    decreases e,
{
    match e {
        ExprView::Cmp(_, lhs, rhs) => match expr_error(*lhs, sigs, scope) {
            Some(err) => Some(err),
            None => expr_error(*rhs, sigs, scope),
        },
        ExprView::Not(inner) => expr_error(*inner, sigs, scope),
        ExprView::VarRef(name, ty, _) => if !scope.contains_key(name) {
            Some(TypeErrorView::VarRefUndeclared(name))
        } else if scope[name] != ty {
            Some(TypeErrorView::VarRefTypeMismatch(name))
        } else {
            None
        },
        ExprView::FuncCall(name, ty, actuals) => match call_error(sigs, name, ty, actuals) {
            Some(err) => Some(err),
            None => exprs_error(actuals, sigs, scope),
        },
        _ => None,
    }
}

/// The first violation in a sequence of expressions.
pub open spec fn exprs_error(es: Seq<ExprView>, sigs: Sigs, scope: Scope) -> Option<
    TypeErrorView,
>
    decreases es,
{
    if es.len() == 0 {
        None
    } else {
        match expr_error(es[0], sigs, scope) {
            Some(err) => Some(err),
            None => exprs_error(es.drop_first(), sigs, scope),
        }
    }
}

/// Checks one statement of a function that returns `ret`: the scope after
/// it, or the first violation in it. A call names a declared function and
/// gives it arguments that it takes, before its arguments are checked in
/// themselves; a return has the type of the function before its value is
/// checked; a declaration is of a checked value.
pub open spec fn stmt_check(s: StmtView, ret: Option<Type>, sigs: Sigs, scope: Scope) -> Result<
    Scope,
    TypeErrorView,
>
    decreases s,
{
    match s {
        StmtView::Cond(cases) => match cases_error(cases, ret, sigs, scope) {
            Some(err) => Err(err),
            None => Ok(scope),
        },
        StmtView::FuncCall(name, args) => match stmt_call_error(sigs, name, args) {
            Some(err) => Err(err),
            None => match exprs_error(args, sigs, scope) {
                Some(err) => Err(err),
                None => Ok(scope),
            },
        },
        StmtView::Ret(None) => if ret is None {
            Ok(scope)
        } else {
            Err(TypeErrorView::RetTypeMismatch)
        },
        StmtView::Ret(Some(e)) => if ret != Some(type_of(e)) {
            Err(TypeErrorView::RetTypeMismatch)
        } else {
            match expr_error(e, sigs, scope) {
                Some(err) => Err(err),
                None => Ok(scope),
            }
        },
        StmtView::VarDecl(name, e) => match expr_error(e, sigs, scope) {
            Some(err) => Err(err),
            None => Ok(scope.insert(name, type_of(e))),
        },
    }
}

/// Checks statements in order, each in the scope that the ones before it left.
pub open spec fn stmts_check(
    ss: Seq<StmtView>,
    ret: Option<Type>,
    sigs: Sigs,
    scope: Scope,
) -> Result<Scope, TypeErrorView>
    decreases ss,
{
    if ss.len() == 0 {
        Ok(scope)
    } else {
        match stmt_check(ss[0], ret, sigs, scope) {
            Err(err) => Err(err),
            Ok(next) => stmts_check(ss.drop_first(), ret, sigs, next),
        }
    }
}

/// The first violation in the arms of a conditional. Each arm's guard must be
/// of type `Bool`, and each arm's body is checked in the scope of the
/// conditional: what an arm declares is not seen after it.
pub open spec fn cases_error(
    cases: Seq<(ExprView, Seq<StmtView>)>,
    ret: Option<Type>,
    sigs: Sigs,
    scope: Scope,
) -> Option<TypeErrorView>
    decreases cases,
{
    if cases.len() == 0 {
        None
    } else if type_of(cases[0].0) != Type::Bool {
        Some(TypeErrorView::CondNotBool)
    } else {
        match stmts_check(cases[0].1, ret, sigs, scope) {
            Err(err) => Some(err),
            Ok(_) => cases_error(cases.drop_first(), ret, sigs, scope),
        }
    }
}

/// No two parameters have one name.
pub open spec fn distinct_names(args: Seq<(Seq<char>, Type)>) -> bool {
    forall|i: int, j: int| 0 <= i < j < args.len() ==> args[i].0 != args[j].0
}

/// What is wrong with a signature declared for `name` after `sigs`.
pub open spec fn sig_error(name: Seq<char>, sig: SigView, sigs: Sigs) -> Option<TypeErrorView> {
    if sig.variadic && sig.args.len() == 0 {
        Some(TypeErrorView::VariadicWithoutArgs(name))
    } else if sigs.contains_key(name) && sigs[name] != sig {
        Some(TypeErrorView::FwdDeclMismatch(name))
    } else {
        None
    }
}

/// The signatures after a declaration of `name`: the first declaration of a name stays.
pub open spec fn declare(name: Seq<char>, sig: SigView, sigs: Sigs) -> Sigs {
    if sigs.contains_key(name) {
        sigs
    } else {
        sigs.insert(name, sig)
    }
}

/// Checks one declaration: the signatures after it, or the first violation in it.
pub open spec fn decl_check(d: DeclView, sigs: Sigs) -> Result<Sigs, TypeErrorView> {
    match d {
        DeclView::FwdDecl(name, sig) => match sig_error(name, sig, sigs) {
            Some(err) => Err(err),
            None => Ok(declare(name, sig, sigs)),
        },
        DeclView::FuncDecl(name, sig, body) => match sig_error(name, sig, sigs) {
            Some(err) => Err(err),
            None => if !distinct_names(sig.args) {
                Err(TypeErrorView::NonUniqueArgNames(name))
            } else {
                match stmts_check(body, sig.ret, declare(name, sig, sigs), assoc(sig.args)) {
                    Err(err) => Err(err),
                    Ok(_) => Ok(declare(name, sig, sigs)),
                }
            },
        },
    }
}

/// The first violation in the declarations of a module, checked in order after `sigs`.
pub open spec fn decls_error(ds: Seq<DeclView>, sigs: Sigs) -> Option<TypeErrorView>
    decreases ds.len(),
{
    if ds.len() == 0 {
        None
    } else {
        match decl_check(ds[0], sigs) {
            Err(err) => Some(err),
            Ok(next) => decls_error(ds.drop_first(), next),
        }
    }
}

/// The first violation in a sequence of modules, each checked by itself.
pub open spec fn modules_error(ms: Seq<ModuleView>) -> Option<TypeErrorView>
    decreases ms.len(),
{
    if ms.len() == 0 {
        None
    } else {
        match decls_error(ms[0].decls, Map::empty()) {
            Some(err) => Some(err),
            None => modules_error(ms.drop_first()),
        }
    }
}

/// What a check reports: nothing, or the violation it found.
pub open spec fn reported(r: Result<(), TypeError>) -> Option<TypeErrorView> {
    match r {
        Ok(_) => None,
        Err(err) => Some(err@),
    }
}

/// A signature, as a declaration holds it.
pub struct Sig<'a> {
    pub visibility: Visibility,
    pub ret: &'a Option<Type>,
    pub args: &'a Vec<FuncArg>,
    pub variadic: bool,
}

impl<'a> View for Sig<'a> {
    type V = SigView;

    open spec fn view(&self) -> SigView {
        SigView {
            visibility: self.visibility,
            ret: *self.ret,
            args: args_view(self.args@),
            variadic: self.variadic,
        }
    }
}

/// The named signatures that a table holds, in the order of their
/// declaration. The table stands for the map `assoc` of them.
pub open spec fn sig_entries(table: Seq<(&String, Sig)>) -> Seq<(Seq<char>, SigView)> {
    Seq::new(table.len(), |i: int| (table[i].0@, table[i].1@))
}

/// The typed variables that a table holds, in the order of their
/// declaration. The table stands for the map `assoc` of them.
pub open spec fn var_entries(table: Seq<(&String, &Type)>) -> Seq<(Seq<char>, Type)> {
    Seq::new(table.len(), |i: int| (table[i].0@, *table[i].1))
}

fn find_sig<'a, 'b>(table: &'b Vec<(&'a String, Sig<'a>)>, name: &String) -> (found: Option<
    &'b Sig<'a>,
>)
    ensures
        found is Some <==> assoc(sig_entries(table@)).contains_key(name@),
        found matches Some(sig) ==> sig@ == assoc(sig_entries(table@))[name@],
{
    let mut i: usize = table.len();
    while i > 0
        invariant
            i <= table.len(),
            forall|j: int| i <= j < table.len() ==> sig_entries(table@)[j].0 != name@,
        decreases i,
    {
        i = i - 1;
        if *table[i].0 == *name {
            proof {
                lemma_assoc_found(sig_entries(table@), name@, i as int);
            }
            return Some(&table[i].1);
        }
    }
    proof {
        lemma_assoc_absent(sig_entries(table@), name@);
    }
    None
}

fn find_var<'a, 'b>(table: &'b Vec<(&'a String, &'a Type)>, name: &String) -> (found: Option<
    &'a Type,
>)
    ensures
        found is Some <==> assoc(var_entries(table@)).contains_key(name@),
        found matches Some(ty) ==> *ty == assoc(var_entries(table@))[name@],
{
    let mut i: usize = table.len();
    while i > 0
        invariant
            i <= table.len(),
            forall|j: int| i <= j < table.len() ==> var_entries(table@)[j].0 != name@,
        decreases i,
    {
        i = i - 1;
        if *table[i].0 == *name {
            proof {
                lemma_assoc_found(var_entries(table@), name@, i as int);
            }
            return Some(table[i].1);
        }
    }
    proof {
        lemma_assoc_absent(var_entries(table@), name@);
    }
    None
}

fn opt_type_same(a: &Option<Type>, b: &Option<Type>) -> (r: bool)
    ensures
        r == (*a == *b),
{
    match (a, b) {
        (None, None) => true,
        (Some(x), Some(y)) => x.same(y),
        _ => false,
    }
}

fn args_same(a: &Vec<FuncArg>, b: &Vec<FuncArg>) -> (r: bool)
    ensures
        r == (args_view(a@) == args_view(b@)),
{
    if a.len() != b.len() {
        return false;
    }
    let mut i: usize = 0;
    while i < a.len()
        invariant
            i <= a.len(),
            a.len() == b.len(),
            forall|j: int| 0 <= j < i ==> args_view(a@)[j] == args_view(b@)[j],
        decreases a.len() - i,
    {
        if !(a[i].0 == b[i].0 && a[i].1.same(&b[i].1)) {
            assert(args_view(a@)[i as int] != args_view(b@)[i as int]);
            return false;
        }
        i = i + 1;
    }
    assert(args_view(a@) =~= args_view(b@));
    true
}

fn sig_same(a: &Sig, b: &Sig) -> (r: bool)
    ensures
        r == (a@ == b@),
{
    a.visibility == b.visibility && opt_type_same(a.ret, b.ret) && args_same(a.args, b.args)
        && a.variadic == b.variadic
}

fn names_distinct(args: &Vec<FuncArg>) -> (r: bool)
    ensures
        r == distinct_names(args_view(args@)),
{
    let mut j: usize = 0;
    while j < args.len()
        invariant
            j <= args.len(),
            forall|a: int, b: int| 0 <= a < b < j ==> args_view(args@)[a].0 != args_view(args@)[b].0,
        decreases args.len() - j,
    {
        let mut i: usize = 0;
        while i < j
            invariant
                i <= j < args.len(),
                forall|a: int| 0 <= a < i ==> args_view(args@)[a].0 != args_view(args@)[j as int].0,
            decreases j - i,
        {
            if args[i].0 == args[j].0 {
                assert(args_view(args@)[i as int].0 == args_view(args@)[j as int].0);
                return false;
            }
            i = i + 1;
        }
        j = j + 1;
    }
    true
}

fn fits(param: &Type, actual: &Expr) -> (r: bool)
    ensures
        r == arg_fits(*param, actual@),
{
    if let Type::Ptr(Some(target)) = param {
        if let Expr::VarRef(_, ty, by_ref) = actual {
            if *by_ref {
                return target.same(ty);
            }
        }
    }
    param.same(actual.type_of())
}

#[verifier::loop_isolation(false)]
fn check_args(name: &String, sig: &Sig, actuals: &Vec<Expr>) -> (r: Result<(), TypeError>)
    ensures
        reported(r) == args_error(sig@, name@, exprs_view(actuals@)),
{
    if !sig.variadic && actuals.len() != sig.args.len() {
        return Err(TypeError::CallArityMismatch(name.clone()));
    }
    if sig.variadic && actuals.len() < sig.args.len() {
        return Err(TypeError::CallArityMismatch(name.clone()));
    }
    let ghost params = args_view(sig.args@);
    let ghost given = exprs_view(actuals@);
    let mut i: usize = 0;
    while i < sig.args.len()
        invariant
            i <= sig.args.len() <= actuals.len(),
            params == args_view(sig.args@),
            given == exprs_view(actuals@),
            first_misfit(params, given, 0) == first_misfit(params, given, i as int),
        decreases sig.args.len() - i,
    {
        if !fits(&sig.args[i].1, &actuals[i]) {
            return Err(TypeError::CallParamTypeMismatch(name.clone(), i));
        }
        i = i + 1;
    }
    Ok(())
}

fn check_call(name: &String, ty: &Type, actuals: &Vec<Expr>, sigs: &Vec<(&String, Sig)>) -> (r:
    Result<(), TypeError>)
    ensures
        reported(r) == call_error(assoc(sig_entries(sigs@)), name@, *ty, exprs_view(actuals@)),
{
    let sig = match find_sig(sigs, name) {
        None => {
            return Err(TypeError::UnresolvedCall(name.clone()));
        },
        Some(sig) => sig,
    };
    let ret_same = match sig.ret {
        None => false,
        Some(ret) => ret.same(ty),
    };
    if !ret_same {
        return Err(TypeError::CallTypeMismatch(name.clone()));
    }
    check_args(name, sig, actuals)
}

fn check_stmt_call(name: &String, actuals: &Vec<Expr>, sigs: &Vec<(&String, Sig)>) -> (r: Result<
    (),
    TypeError,
>)
    ensures
        reported(r) == stmt_call_error(assoc(sig_entries(sigs@)), name@, exprs_view(actuals@)),
{
    match find_sig(sigs, name) {
        None => Err(TypeError::UnresolvedCall(name.clone())),
        Some(sig) => check_args(name, sig, actuals),
    }
}

/// Checks an expression, its operands and arguments included, against the
/// signatures and the variables in scope.
pub fn check_expr(expr: &Expr, sigs: &Vec<(&String, Sig)>, scope: &Vec<(&String, &Type)>) -> (r:
    Result<(), TypeError>)
    ensures
        reported(r) == expr_error(expr@, assoc(sig_entries(sigs@)), assoc(var_entries(scope@))),
    decreases expr,
{
    match expr {
        Expr::Cmp(_, lhs, rhs) => {
            check_expr(lhs, sigs, scope)?;
            check_expr(rhs, sigs, scope)
        },
        Expr::Not(inner) => check_expr(inner, sigs, scope),
        Expr::VarRef(name, ty, _) => match find_var(scope, name) {
            None => Err(TypeError::VarRefUndeclared(name.clone())),
            Some(declared) => if declared.same(ty) {
                Ok(())
            } else {
                Err(TypeError::VarRefTypeMismatch(name.clone()))
            },
        },
        Expr::FuncCall(name, ty, actuals) => {
            check_call(name, ty, actuals, sigs)?;
            check_exprs(actuals, sigs, scope)
        },
        _ => Ok(()),
    }
}

/// Checks expressions in order.
pub fn check_exprs(exprs: &Vec<Expr>, sigs: &Vec<(&String, Sig)>, scope: &Vec<(&String, &Type)>) -> (r:
    Result<(), TypeError>)
    ensures
        reported(r) == exprs_error(
            exprs_view(exprs@),
            assoc(sig_entries(sigs@)),
            assoc(var_entries(scope@)),
        ),
    decreases exprs,
{
    let ghost all = exprs_view(exprs@);
    let ghost sig_map = assoc(sig_entries(sigs@));
    let ghost var_map = assoc(var_entries(scope@));
    let mut i: usize = 0;
    assert(all.skip(0) =~= all);
    while i < exprs.len()
        invariant
            i <= exprs.len(),
            all == exprs_view(exprs@),
            sig_map == assoc(sig_entries(sigs@)),
            var_map == assoc(var_entries(scope@)),
            exprs_error(all, sig_map, var_map) == exprs_error(all.skip(i as int), sig_map, var_map),
        decreases exprs.len() - i,
    {
        proof {
            assert(all.skip(i as int)[0] == exprs@[i as int]@);
            assert(all.skip(i as int).drop_first() =~= all.skip(i + 1));
        }
        check_expr(&exprs[i], sigs, scope)?;
        i = i + 1;
    }
    Ok(())
}

/// `after` holds the entries of `before`, and then perhaps more.
pub open spec fn extends(before: Seq<(&String, &Type)>, after: Seq<(&String, &Type)>) -> bool {
    before.len() <= after.len() && after.subrange(0, before.len() as int) =~= before
}

proof fn lemma_var_entries_push(table: Seq<(&String, &Type)>, name: &String, ty: &Type)
    ensures
        assoc(var_entries(table.push((name, ty)))) == assoc(var_entries(table)).insert(name@, *ty),
{
    assert(var_entries(table.push((name, ty))) =~= var_entries(table).push((name@, *ty)));
    lemma_assoc_push(var_entries(table), name@, *ty);
}

fn check_stmt<'a>(
    stmt: &'a Stmt,
    ret: &Option<Type>,
    sigs: &Vec<(&String, Sig)>,
    scope: &mut Vec<(&'a String, &'a Type)>,
) -> (r: Result<(), TypeError>)
    ensures
        match stmt_check(
            stmt@,
            *ret,
            assoc(sig_entries(sigs@)),
            assoc(var_entries(old(scope)@)),
        ) {
            Ok(after) => r is Ok && assoc(var_entries(final(scope)@)) == after && extends(
                old(scope)@,
                final(scope)@,
            ),
            Err(err) => reported(r) == Some(err),
        },
    decreases stmt,
{
    match stmt {
        Stmt::Cond(cases) => check_cases(cases, ret, sigs, scope),
        Stmt::FuncCall(name, args) => {
            check_stmt_call(name, args, sigs)?;
            check_exprs(args, sigs, scope)
        },
        Stmt::Ret(None) => match ret {
            None => Ok(()),
            Some(_) => Err(TypeError::RetTypeMismatch),
        },
        Stmt::Ret(Some(value)) => {
            let same = match ret {
                None => false,
                Some(ty) => ty.same(value.type_of()),
            };
            if !same {
                return Err(TypeError::RetTypeMismatch);
            }
            check_expr(value, sigs, scope)
        },
        Stmt::VarDecl(name, value) => {
            check_expr(value, sigs, scope)?;
            proof {
                lemma_var_entries_push(scope@, name, value.type_of_spec());
            }
            scope.push((name, value.type_of()));
            Ok(())
        },
    }
}

/// Checks the statements of a function that returns `ret`, each in the
/// scope that the ones before it left, and adds to the scope what they
/// declare.
pub fn check_stmts<'a>(
    stmts: &'a Vec<Stmt>,
    ret: &Option<Type>,
    sigs: &Vec<(&String, Sig)>,
    scope: &mut Vec<(&'a String, &'a Type)>,
) -> (r: Result<(), TypeError>)
    ensures
        match stmts_check(
            stmts_view(stmts@),
            *ret,
            assoc(sig_entries(sigs@)),
            assoc(var_entries(old(scope)@)),
        ) {
            Ok(after) => r is Ok && assoc(var_entries(final(scope)@)) == after && extends(
                old(scope)@,
                final(scope)@,
            ),
            Err(err) => reported(r) == Some(err),
        },
    decreases stmts,
{
    let ghost all = stmts_view(stmts@);
    let ghost sig_map = assoc(sig_entries(sigs@));
    let mut i: usize = 0;
    assert(all.skip(0) =~= all);
    while i < stmts.len()
        invariant
            i <= stmts.len(),
            all == stmts_view(stmts@),
            sig_map == assoc(sig_entries(sigs@)),
            extends(old(scope)@, scope@),
            stmts_check(all, *ret, sig_map, assoc(var_entries(old(scope)@))) == stmts_check(
                all.skip(i as int),
                *ret,
                sig_map,
                assoc(var_entries(scope@)),
            ),
        decreases stmts.len() - i,
    {
        proof {
            assert(all.skip(i as int)[0] == stmts@[i as int]@);
            assert(all.skip(i as int).drop_first() =~= all.skip(i + 1));
        }
        let ghost before = scope@;
        check_stmt(&stmts[i], ret, sigs, scope)?;
        assert(extends(old(scope)@, scope@)) by {
            assert(scope@.subrange(0, old(scope)@.len() as int) =~= before.subrange(
                0,
                old(scope)@.len() as int,
            ));
        }
        i = i + 1;
    }
    Ok(())
}

fn check_cases<'a>(
    cases: &'a Vec<Case>,
    ret: &Option<Type>,
    sigs: &Vec<(&String, Sig)>,
    scope: &mut Vec<(&'a String, &'a Type)>,
) -> (r: Result<(), TypeError>)
    ensures
        match cases_error(
            cases_view(cases@),
            *ret,
            assoc(sig_entries(sigs@)),
            assoc(var_entries(old(scope)@)),
        ) {
            None => r is Ok && final(scope)@ == old(scope)@,
            Some(err) => reported(r) == Some(err),
        },
    decreases cases,
{
    let ghost all = cases_view(cases@);
    let ghost sig_map = assoc(sig_entries(sigs@));
    let ghost var_map = assoc(var_entries(scope@));
    let mut i: usize = 0;
    assert(all.skip(0) =~= all);
    while i < cases.len()
        invariant
            i <= cases.len(),
            all == cases_view(cases@),
            sig_map == assoc(sig_entries(sigs@)),
            var_map == assoc(var_entries(scope@)),
            scope@ == old(scope)@,
            cases_error(all, *ret, sig_map, var_map) == cases_error(
                all.skip(i as int),
                *ret,
                sig_map,
                var_map,
            ),
        decreases cases.len() - i,
    {
        proof {
            assert(all.skip(i as int)[0] == (cases@[i as int].0@, stmts_view(cases@[i as int].1@)));
            assert(all.skip(i as int).drop_first() =~= all.skip(i + 1));
        }
        let case = &cases[i];
        if !case.0.type_of().same(&Type::Bool) {
            return Err(TypeError::CondNotBool);
        }
        let mark = scope.len();
        check_stmts(&case.1, ret, sigs, scope)?;
        scope.truncate(mark);
        assert(scope@ =~= old(scope)@);
        i = i + 1;
    }
    Ok(())
}

fn check_sig(name: &String, sig: &Sig, sigs: &Vec<(&String, Sig)>) -> (r: Result<(), TypeError>)
    ensures
        reported(r) == sig_error(name@, sig@, assoc(sig_entries(sigs@))),
{
    if sig.variadic && sig.args.len() == 0 {
        return Err(TypeError::VariadicWithoutArgs(name.clone()));
    }
    match find_sig(sigs, name) {
        Some(first) => if sig_same(first, sig) {
            Ok(())
        } else {
            Err(TypeError::FwdDeclMismatch(name.clone()))
        },
        None => Ok(()),
    }
}

fn declare_sig<'a>(name: &'a String, sig: Sig<'a>, sigs: &mut Vec<(&'a String, Sig<'a>)>)
    ensures
        assoc(sig_entries(final(sigs)@)) == declare(name@, sig@, assoc(sig_entries(old(sigs)@))),
{
    if find_sig(sigs, name).is_none() {
        proof {
            assert(sig_entries(sigs@.push((name, sig))) =~= sig_entries(sigs@).push((name@, sig@)));
            lemma_assoc_push(sig_entries(sigs@), name@, sig@);
        }
        sigs.push((name, sig));
    }
}

fn scope_of_args<'a>(args: &'a Vec<FuncArg>) -> (scope: Vec<(&'a String, &'a Type)>)
    ensures
        var_entries(scope@) == args_view(args@),
{
    let mut scope: Vec<(&'a String, &'a Type)> = Vec::new();
    let mut i: usize = 0;
    while i < args.len()
        invariant
            i <= args.len(),
            scope.len() == i,
            forall|j: int| 0 <= j < i ==> var_entries(scope@)[j] == args_view(args@)[j],
        decreases args.len() - i,
    {
        scope.push((&args[i].0, &args[i].1));
        i = i + 1;
    }
    assert(var_entries(scope@) =~= args_view(args@));
    scope
}

fn check_decl<'a>(decl: &'a Decl, sigs: &mut Vec<(&'a String, Sig<'a>)>) -> (r: Result<
    (),
    TypeError,
>)
    ensures
        match decl_check(decl@, assoc(sig_entries(old(sigs)@))) {
            Ok(after) => r is Ok && assoc(sig_entries(final(sigs)@)) == after,
            Err(err) => reported(r) == Some(err),
        },
{
    match decl {
        Decl::FwdDecl(name, visibility, ret, args, variadic) => {
            let sig = Sig { visibility: *visibility, ret, args, variadic: *variadic };
            check_sig(name, &sig, sigs)?;
            declare_sig(name, sig, sigs);
            Ok(())
        },
        Decl::FuncDecl(name, visibility, ret, args, variadic, body) => {
            let sig = Sig { visibility: *visibility, ret, args, variadic: *variadic };
            check_sig(name, &sig, sigs)?;
            declare_sig(name, sig, sigs);
            if !names_distinct(args) {
                return Err(TypeError::NonUniqueArgNames(name.clone()));
            }
            let mut scope = scope_of_args(args);
            check_stmts(body, ret, sigs, &mut scope)
        },
    }
}

/// Checks the declarations of a module in order, each against the
/// signatures declared before it.
pub fn check_decls(decls: &Vec<Decl>) -> (r: Result<(), TypeError>)
    ensures
        reported(r) == decls_error(decls_view(decls@), Map::empty()),
{
    let ghost all = decls_view(decls@);
    let mut sigs: Vec<(&String, Sig)> = Vec::new();
    let mut i: usize = 0;
    assert(all.skip(0) =~= all);
    assert(assoc(sig_entries(sigs@)) == Map::<Seq<char>, SigView>::empty());
    while i < decls.len()
        invariant
            i <= decls.len(),
            all == decls_view(decls@),
            decls_error(all, Map::empty()) == decls_error(
                all.skip(i as int),
                assoc(sig_entries(sigs@)),
            ),
        decreases decls.len() - i,
    {
        proof {
            assert(all.skip(i as int)[0] == decls@[i as int]@);
            assert(all.skip(i as int).drop_first() =~= all.skip(i + 1));
        }
        check_decl(&decls[i], &mut sigs)?;
        i = i + 1;
    }
    Ok(())
}

/// Checks modules in order, each by itself, and reports the first violation
/// of the typing rules, if there is one.
pub fn type_check(modules: &[Module]) -> (r: Result<(), TypeError>)
    ensures
        reported(r) == modules_error(modules_view(modules@)),
{
    let ghost all = modules_view(modules@);
    let mut i: usize = 0;
    assert(all.skip(0) =~= all);
    while i < modules.len()
        invariant
            i <= modules.len(),
            all == modules_view(modules@),
            modules_error(all) == modules_error(all.skip(i as int)),
        decreases modules.len() - i,
    {
        proof {
            assert(all.skip(i as int)[0] == modules@[i as int]@);
            assert(all.skip(i as int).drop_first() =~= all.skip(i + 1));
        }
        check_decls(&modules[i].decls)?;
        i = i + 1;
    }
    Ok(())
}

} // verus!
