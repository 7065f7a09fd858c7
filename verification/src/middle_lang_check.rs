//! The type checker of the core of the middle language.
//!
//! A module is checked declaration by declaration, in source order. A
//! forward declaration replaces what was declared of its name; a function
//! must agree with what was declared of its name. The first violation
//! found ends the check.

use vstd::prelude::*;
use vstd::string::*;
use crate::assoc::{assoc, lemma_assoc_absent, lemma_assoc_found, lemma_assoc_push};
use crate::middle_lang::{
    Decl, DeclView, Expr, ExprView, FuncArg, FuncArgs, Module, ModuleView, SigView, Stmt,
    StmtView, Type, Visibility, decls_view, exprs_view, modules_view, named_view, stmts_view,
    type_of,
};
use crate::type_check::{TypeError, TypeErrorView, reported};

verus! {

/// The signatures declared so far, by function name.
pub type Sigs = Map<Seq<char>, SigView>;

/// The first position from `from` on at which an argument has another type
/// than its parameter.
pub open spec fn first_misfit(
    params: Seq<(Seq<char>, Type)>,
    actuals: Seq<ExprView>,
    from: int,
) -> Option<int>
    decreases params.len() - from,
{
    if from < 0 || from >= params.len() || from >= actuals.len() {
        None
    } else if params[from].1 != type_of(actuals[from]) {
        Some(from)
    } else {
        first_misfit(params, actuals, from + 1)
    }
}

/// What is wrong with a call of `name` at type `ty`, its arguments left unchecked.
pub open spec fn call_error(
    sigs: Sigs,
    name: Seq<char>,
    ty: Type,
    actuals: Seq<ExprView>,
) -> Option<TypeErrorView> {
    if !sigs.contains_key(name) {
        Some(TypeErrorView::UnresolvedCall(name))
    } else if sigs[name].ret != ty {
        Some(TypeErrorView::CallTypeMismatch(name))
    } else if !sigs[name].args.variadic && actuals.len() != sigs[name].args.named.len() {
        Some(TypeErrorView::CallArityMismatch(name))
    } else if sigs[name].args.variadic && actuals.len() < sigs[name].args.named.len() {
        Some(TypeErrorView::CallArityMismatch(name))
    } else {
        match first_misfit(sigs[name].args.named, actuals, 0) {
            Some(i) => Some(TypeErrorView::CallParamTypeMismatch(name, i)),
            None => None,
        }
    }
}

/// The first violation in an expression, its arguments included.
pub open spec fn expr_error(e: ExprView, sigs: Sigs) -> Option<TypeErrorView>
    decreases e,
{
    match e {
        ExprView::FuncCall(name, ty, actuals) => match call_error(sigs, name, ty, actuals) {
            Some(err) => Some(err),
            None => exprs_error(actuals, sigs),
        },
        _ => None,
    }
}

/// The first violation in a sequence of expressions.
pub open spec fn exprs_error(es: Seq<ExprView>, sigs: Sigs) -> Option<TypeErrorView>
    decreases es,
{
    if es.len() == 0 {
        None
    } else {
        match expr_error(es[0], sigs) {
            Some(err) => Some(err),
            None => exprs_error(es.drop_first(), sigs),
        }
    }
}

/// The first violation in a statement of a function that returns `ret`.
pub open spec fn stmt_error(s: StmtView, ret: Type, sigs: Sigs) -> Option<TypeErrorView> {
    match s {
        StmtView::Ret(e) => if type_of(e) != ret {
            Some(TypeErrorView::RetTypeMismatch)
        } else {
            expr_error(e, sigs)
        },
        StmtView::VarDecl(_, e) => expr_error(e, sigs),
    }
}

/// The first violation in statements.
pub open spec fn stmts_error(ss: Seq<StmtView>, ret: Type, sigs: Sigs) -> Option<TypeErrorView>
    decreases ss.len(),
{
    if ss.len() == 0 {
        None
    } else {
        match stmt_error(ss[0], ret, sigs) {
            Some(err) => Some(err),
            None => stmts_error(ss.drop_first(), ret, sigs),
        }
    }
}

/// No two parameters have one name.
pub open spec fn distinct_names(args: Seq<(Seq<char>, Type)>) -> bool {
    forall|i: int, j: int| 0 <= i < j < args.len() ==> args[i].0 != args[j].0
}

/// The signatures after a function of `name` was declared: what was
/// declared of the name stays.
pub open spec fn declare(name: Seq<char>, sig: SigView, sigs: Sigs) -> Sigs {
    if sigs.contains_key(name) {
        sigs
    } else {
        sigs.insert(name, sig)
    }
}

/// Checks one declaration: the signatures after it, or the first violation in it.
pub open spec fn decl_check(d: DeclView, sigs: Sigs) -> Result<Sigs, TypeErrorView> {
    match d {
        DeclView::FwdDecl(name, sig) => Ok(sigs.insert(name, sig)),
        DeclView::FuncDecl(name, sig, body) => if sigs.contains_key(name) && sigs[name] != sig {
            Err(TypeErrorView::FwdDeclMismatch(name))
        } else if !distinct_names(sig.args.named) {
            Err(TypeErrorView::NonUniqueArgNames(name))
        } else {
            match stmts_error(body, sig.ret, declare(name, sig, sigs)) {
                Some(err) => Err(err),
                None => Ok(declare(name, sig, sigs)),
            }
        },
    }
}

/// The first violation in the declarations of a module, checked in order after `sigs`.
pub open spec fn decls_error(ds: Seq<DeclView>, sigs: Sigs) -> Option<TypeErrorView>
    decreases ds.len(),
{
    if ds.len() == 0 {
        None
    } else {
        match decl_check(ds[0], sigs) {
            Err(err) => Some(err),
            Ok(next) => decls_error(ds.drop_first(), next),
        }
    }
}

/// The first violation in a sequence of modules, each checked by itself.
pub open spec fn modules_error(ms: Seq<ModuleView>) -> Option<TypeErrorView>
    decreases ms.len(),
{
    if ms.len() == 0 {
        None
    } else {
        match decls_error(ms[0].decls, Map::empty()) {
            Some(err) => Some(err),
            None => modules_error(ms.drop_first()),
        }
    }
}

/// A signature, as a declaration holds it.
struct Sig<'a> {
    visibility: Visibility,
    ret: Type,
    args: &'a FuncArgs,
}

impl<'a> View for Sig<'a> {
    type V = SigView;

    closed spec fn view(&self) -> SigView {
        SigView { visibility: self.visibility, ret: self.ret, args: self.args@ }
    }
}

/// The named signatures that a table holds, in the order of their declaration.
spec fn sig_entries(table: Seq<(&String, Sig)>) -> Seq<(Seq<char>, SigView)> {
    Seq::new(table.len(), |i: int| (table[i].0@, table[i].1@))
}

fn find_sig<'a, 'b>(table: &'b Vec<(&'a String, Sig<'a>)>, name: &String) -> (found: Option<
    &'b Sig<'a>,
>)
    ensures
        found is Some <==> assoc(sig_entries(table@)).contains_key(name@),
        found matches Some(sig) ==> sig@ == assoc(sig_entries(table@))[name@],
{
    let mut i: usize = table.len();
    while i > 0
        invariant
            i <= table.len(),
            forall|j: int| i <= j < table.len() ==> sig_entries(table@)[j].0 != name@,
        decreases i,
    {
        i = i - 1;
        if *table[i].0 == *name {
            proof {
                lemma_assoc_found(sig_entries(table@), name@, i as int);
            }
            return Some(&table[i].1);
        }
    }
    proof {
        lemma_assoc_absent(sig_entries(table@), name@);
    }
    None
}

fn arg_same(a: &FuncArg, b: &FuncArg) -> (r: bool)
    ensures
        r == (a@ == b@),
{
    match (a, b) {
        (FuncArg::Named(an, at), FuncArg::Named(bn, bt)) => *an == *bn && *at == *bt,
    }
}

fn named_same(a: &Vec<FuncArg>, b: &Vec<FuncArg>) -> (r: bool)
    ensures
        r == (named_view(a@) == named_view(b@)),
{
    if a.len() != b.len() {
        assert(named_view(a@).len() != named_view(b@).len());
        return false;
    }
    let mut i: usize = 0;
    while i < a.len()
        invariant
            i <= a.len(),
            a.len() == b.len(),
            forall|j: int| 0 <= j < i ==> named_view(a@)[j] == named_view(b@)[j],
        decreases a.len() - i,
    {
        if !arg_same(&a[i], &b[i]) {
            assert(named_view(a@)[i as int] != named_view(b@)[i as int]);
            return false;
        }
        i = i + 1;
    }
    assert(named_view(a@) =~= named_view(b@));
    true
}

fn args_same(a: &FuncArgs, b: &FuncArgs) -> (r: bool)
    ensures
        r == (a@ == b@),
{
    match (a, b) {
        (FuncArgs::Fixed(x), FuncArgs::Fixed(y)) => named_same(x, y),
        (FuncArgs::Variadic(xf, xr), FuncArgs::Variadic(yf, yr)) => {
            let same = arg_same(xf, yf) && named_same(xr, yr);
            proof {
                let xs = seq![xf@] + named_view(xr@);
                let ys = seq![yf@] + named_view(yr@);
                if xs == ys {
                    assert(xs[0] == ys[0]);
                    assert(xs.len() == ys.len());
                    assert forall|i: int| 0 <= i < named_view(xr@).len() implies named_view(xr@)[i]
                        == named_view(yr@)[i] by {
                        assert(xs[i + 1] == ys[i + 1]);
                    }
                    assert(named_view(xr@) =~= named_view(yr@));
                }
            }
            same
        },
        _ => false,
    }
}

fn sig_same(a: &Sig, b: &Sig) -> (r: bool)
    ensures
        r == (a@ == b@),
{
    a.visibility == b.visibility && a.ret == b.ret && args_same(a.args, b.args)
}

fn names_distinct_in(args: &Vec<FuncArg>) -> (r: bool)
    ensures
        r == distinct_names(named_view(args@)),
{
    let mut j: usize = 0;
    while j < args.len()
        invariant
            j <= args.len(),
            forall|a: int, b: int|
                0 <= a < b < j ==> named_view(args@)[a].0 != named_view(args@)[b].0,
        decreases args.len() - j,
    {
        let mut i: usize = 0;
        while i < j
            invariant
                i <= j < args.len(),
                forall|a: int|
                    0 <= a < i ==> named_view(args@)[a].0 != named_view(args@)[j as int].0,
            decreases j - i,
        {
            if str_same(args[i].name(), args[j].name()) {
                assert(named_view(args@)[i as int].0 == named_view(args@)[j as int].0);
                return false;
            }
            i = i + 1;
        }
        j = j + 1;
    }
    true
}

fn str_same(a: &str, b: &str) -> (r: bool)
    ensures
        r == (a@ == b@),
{
    String::from_str(a) == String::from_str(b)
}

fn vars_from_args(args: &FuncArgs) -> (unique: bool)
    ensures
        unique == distinct_names(args@.named),
{
    match args {
        FuncArgs::Fixed(named) => names_distinct_in(named),
        FuncArgs::Variadic(first, rest) => {
            let ghost all = seq![first@] + named_view(rest@);
            let mut fresh = true;
            let mut i: usize = 0;
            while i < rest.len()
                invariant
                    i <= rest.len(),
                    fresh == (forall|k: int|
                        0 <= k < i ==> (#[trigger] named_view(rest@)[k]).0 != first@.0),
                decreases rest.len() - i,
            {
                if str_same(rest[i].name(), first.name()) {
                    assert(named_view(rest@)[i as int].0 == first@.0);
                    fresh = false;
                }
                i = i + 1;
            }
            let distinct = names_distinct_in(rest);
            proof {
                if fresh && distinct {
                    assert forall|a: int, b: int| 0 <= a < b < all.len() implies all[a].0
                        != all[b].0 by {
                        assert(all[b] == named_view(rest@)[b - 1]);
                        if a > 0 {
                            assert(all[a] == named_view(rest@)[a - 1]);
                        }
                    }
                } else if !fresh {
                    let k = choose|k: int|
                        0 <= k < rest.len() && (#[trigger] named_view(rest@)[k]).0 == first@.0;
                    assert(all[0] == first@);
                    assert(all[k + 1] == named_view(rest@)[k]);
                } else {
                    let (a, b) = choose|a: int, b: int|
                        0 <= a < b < rest.len() && named_view(rest@)[a].0 == named_view(
                            rest@,
                        )[b].0;
                    assert(all[a + 1] == named_view(rest@)[a]);
                    assert(all[b + 1] == named_view(rest@)[b]);
                }
            }
            fresh && distinct
        },
    }
}

fn has_param(args: &FuncArgs, i: usize) -> (r: bool)
    ensures
        r == (i < args@.named.len()),
{
    match args {
        FuncArgs::Fixed(named) => i < named.len(),
        FuncArgs::Variadic(_, rest) => i <= rest.len(),
    }
}

fn param_at(args: &FuncArgs, i: usize) -> (param: &FuncArg)
    requires
        i < args@.named.len(),
    ensures
        param@ == args@.named[i as int],
{
    match args {
        FuncArgs::Fixed(named) => &named[i],
        FuncArgs::Variadic(first, rest) => if i == 0 {
            first
        } else {
            &rest[i - 1]
        },
    }
}

fn arity_fits(args: &FuncArgs, given: usize) -> (r: bool)
    ensures
        r == if args@.variadic {
            given >= args@.named.len()
        } else {
            given == args@.named.len()
        },
{
    match args {
        FuncArgs::Fixed(named) => given == named.len(),
        FuncArgs::Variadic(_, rest) => given > rest.len(),
    }
}

#[verifier::loop_isolation(false)]
fn check_call(name: &String, ty: Type, actuals: &Vec<Expr>, sigs: &Vec<(&String, Sig)>) -> (r:
    Result<(), TypeError>)
    ensures
        reported(r) == call_error(assoc(sig_entries(sigs@)), name@, ty, exprs_view(actuals@)),
{
    let sig = match find_sig(sigs, name) {
        None => {
            return Err(TypeError::UnresolvedCall(name.clone()));
        },
        Some(sig) => sig,
    };
    if sig.ret != ty {
        return Err(TypeError::CallTypeMismatch(name.clone()));
    }
    if !arity_fits(sig.args, actuals.len()) {
        return Err(TypeError::CallArityMismatch(name.clone()));
    }
    let ghost params = sig.args@.named;
    let ghost given = exprs_view(actuals@);
    let mut i: usize = 0;
    while has_param(sig.args, i)
        invariant
            i <= params.len() <= actuals.len(),
            first_misfit(params, given, 0) == first_misfit(params, given, i as int),
        decreases params.len() - i,
    {
        if param_at(sig.args, i).type_of() != actuals[i].type_of() {
            return Err(TypeError::CallParamTypeMismatch(name.clone(), i));
        }
        i = i + 1;
    }
    Ok(())
}

#[verifier::loop_isolation(false)]
fn check_expr(expr: &Expr, sigs: &Vec<(&String, Sig)>) -> (r: Result<(), TypeError>)
    ensures
        reported(r) == expr_error(expr@, assoc(sig_entries(sigs@))),
    decreases expr,
{
    match expr {
        Expr::ConstInt32(_) | Expr::ConstStr(_) => Ok(()),
        Expr::FuncCall(name, call_type, exprs) => {
            check_call(name, *call_type, exprs, sigs)?;
            let ghost all = exprs_view(exprs@);
            let ghost sig_map = assoc(sig_entries(sigs@));
            let mut i: usize = 0;
            assert(all.skip(0) =~= all);
            while i < exprs.len()
                invariant
                    i <= exprs.len(),
                    all == exprs_view(exprs@),
                    sig_map == assoc(sig_entries(sigs@)),
                    exprs_error(all, sig_map) == exprs_error(all.skip(i as int), sig_map),
                decreases exprs.len() - i,
            {
                proof {
                    assert(all.skip(i as int)[0] == exprs@[i as int]@);
                    assert(all.skip(i as int).drop_first() =~= all.skip(i + 1));
                }
                check_expr(&exprs[i], sigs)?;
                i = i + 1;
            }
            Ok(())
        },
    }
}

fn check_stmts(stmts: &Vec<Stmt>, func_type: Type, sigs: &Vec<(&String, Sig)>) -> (r: Result<
    (),
    TypeError,
>)
    ensures
        reported(r) == stmts_error(stmts_view(stmts@), func_type, assoc(sig_entries(sigs@))),
{
    let ghost all = stmts_view(stmts@);
    let ghost sig_map = assoc(sig_entries(sigs@));
    let mut i: usize = 0;
    assert(all.skip(0) =~= all);
    while i < stmts.len()
        invariant
            i <= stmts.len(),
            all == stmts_view(stmts@),
            sig_map == assoc(sig_entries(sigs@)),
            stmts_error(all, func_type, sig_map) == stmts_error(
                all.skip(i as int),
                func_type,
                sig_map,
            ),
        decreases stmts.len() - i,
    {
        proof {
            assert(all.skip(i as int)[0] == stmts@[i as int]@);
            assert(all.skip(i as int).drop_first() =~= all.skip(i + 1));
        }
        match &stmts[i] {
            Stmt::Ret(expr) => {
                if expr.type_of() != func_type {
                    return Err(TypeError::RetTypeMismatch);
                }
                check_expr(expr, sigs)?;
            },
            Stmt::VarDecl(_, expr) => {
                check_expr(expr, sigs)?;
            },
        }
        i = i + 1;
    }
    Ok(())
}

fn check_decl<'a>(decl: &'a Decl, sigs: &mut Vec<(&'a String, Sig<'a>)>) -> (r: Result<
    (),
    TypeError,
>)
    ensures
        match decl_check(decl@, assoc(sig_entries(old(sigs)@))) {
            Ok(after) => r is Ok && assoc(sig_entries(final(sigs)@)) == after,
            Err(err) => reported(r) == Some(err),
        },
{
    match decl {
        Decl::FwdDecl(name, visibility, ty, args) => {
            let sig = Sig { visibility: *visibility, ret: *ty, args };
            proof {
                assert(sig_entries(sigs@.push((name, sig))) =~= sig_entries(sigs@).push(
                    (name@, sig@),
                ));
                lemma_assoc_push(sig_entries(sigs@), name@, sig@);
            }
            sigs.push((name, sig));
            Ok(())
        },
        Decl::FuncDecl(name, visibility, ty, args, stmts) => {
            let sig = Sig { visibility: *visibility, ret: *ty, args };
            match find_sig(sigs, name) {
                Some(declared) => {
                    if !sig_same(declared, &sig) {
                        return Err(TypeError::FwdDeclMismatch(name.clone()));
                    }
                },
                None => {
                    proof {
                        assert(sig_entries(sigs@.push((name, sig))) =~= sig_entries(sigs@).push(
                            (name@, sig@),
                        ));
                        lemma_assoc_push(sig_entries(sigs@), name@, sig@);
                    }
                    sigs.push((name, sig));
                },
            }
            if !vars_from_args(args) {
                return Err(TypeError::NonUniqueArgNames(name.clone()));
            }
            check_stmts(stmts, *ty, sigs)
        },
    }
}

fn check_decls(decls: &Vec<Decl>) -> (r: Result<(), TypeError>)
    ensures
        reported(r) == decls_error(decls_view(decls@), Map::empty()),
{
    let ghost all = decls_view(decls@);
    let mut sigs: Vec<(&String, Sig)> = Vec::new();
    let mut i: usize = 0;
    assert(all.skip(0) =~= all);
    assert(assoc(sig_entries(sigs@)) == Map::<Seq<char>, SigView>::empty());
    while i < decls.len()
        invariant
            i <= decls.len(),
            all == decls_view(decls@),
            decls_error(all, Map::empty()) == decls_error(
                all.skip(i as int),
                assoc(sig_entries(sigs@)),
            ),
        decreases decls.len() - i,
    {
        proof {
            assert(all.skip(i as int)[0] == decls@[i as int]@);
            assert(all.skip(i as int).drop_first() =~= all.skip(i + 1));
        }
        check_decl(&decls[i], &mut sigs)?;
        i = i + 1;
    }
    Ok(())
}

/// Checks modules in order, each by itself, and reports the first violation
/// of the typing rules, if there is one.
pub fn type_check(modules: &[Module]) -> (r: Result<(), TypeError>)
    ensures
        reported(r) == modules_error(modules_view(modules@)),
{
    let ghost all = modules_view(modules@);
    let mut i: usize = 0;
    assert(all.skip(0) =~= all);
    while i < modules.len()
        invariant
            i <= modules.len(),
            all == modules_view(modules@),
            modules_error(all) == modules_error(all.skip(i as int)),
        decreases modules.len() - i,
    {
        proof {
            assert(all.skip(i as int)[0] == modules@[i as int]@);
            assert(all.skip(i as int).drop_first() =~= all.skip(i + 1));
        }
        check_decls(&modules[i].decls)?;
        i = i + 1;
    }
    Ok(())
}

} // verus!
