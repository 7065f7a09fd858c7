//! Lowering of the middle language to the lower language.
//!
//! Nested expressions are flattened into statements over fresh temporaries,
//! string literals are interned in the module's pool, a variable that is
//! passed by reference goes through a stack slot that is read back after the
//! statement, and a conditional becomes labels and jumps.

use vstd::prelude::*;
use vstd::string::*;
use crate::lower_lang::{
    CompUnit, CompUnitView, Decl, DeclView, Expr, ExprView, FuncArg, Linkage, Op, Scope, Stmt,
    StmtView, Type, Typed, Value, ValueView, args_view, decls_view, stmts_view, units_view,
    values_view,
};
use crate::lowering_context::{
    LoweringCtx, LoweringCtxView, TmpRefView, frame_view, initial, interned, pool_decls, uniq_name,
};
use crate::mir;
use crate::text::{append_decimal, decimal};

verus! {

/// The lower type that holds a value of a type of the middle language.
pub open spec fn type_lowered(ty: mir::Type) -> Type {
    match ty {
        mir::Type::Double => Type::D,
        mir::Type::Bool | mir::Type::Int32 => Type::W,
        mir::Type::Int64 | mir::Type::Ptr(_) | mir::Type::Str => Type::L,
    }
}

/// The lower type of a return type, where there is one.
pub open spec fn opt_type_lowered(ty: Option<mir::Type>) -> Option<Type> {
    match ty {
        Some(ty) => Some(type_lowered(ty)),
        None => None,
    }
}

/// The lower operator.
pub open spec fn op_lowered(op: mir::Op) -> Op {
    match op {
        mir::Op::Eq => Op::Eq,
        mir::Op::Ne => Op::Ne,
    }
}

/// The linkage of a function: a public one is exported.
pub open spec fn visibility_lowered(v: mir::Visibility) -> Option<Linkage> {
    match v {
        mir::Visibility::Public => Some(Linkage::Export),
        mir::Visibility::Private => None,
    }
}

/// The lower parameters.
pub open spec fn args_lowered(args: Seq<(Seq<char>, mir::Type)>) -> Seq<(Seq<char>, Type)> {
    Seq::new(args.len(), |i: int| (args[i].0, type_lowered(args[i].1)))
}

/// The state after one fresh name was handed out.
pub open spec fn bumped(ctx: LoweringCtxView) -> LoweringCtxView {
    LoweringCtxView { uniq: ctx.uniq + 1, ..ctx }
}

/// The state after a frame of by-reference slots was opened.
pub open spec fn framed(ctx: LoweringCtxView) -> LoweringCtxView {
    LoweringCtxView { tmp_refs: ctx.tmp_refs.push(Seq::empty()), ..ctx }
}

/// The state after the innermost frame was closed.
pub open spec fn unframed(ctx: LoweringCtxView) -> LoweringCtxView {
    LoweringCtxView { tmp_refs: ctx.tmp_refs.drop_last(), ..ctx }
}

/// The state after a slot was recorded in the innermost frame.
pub open spec fn with_slot(ctx: LoweringCtxView, slot: TmpRefView) -> LoweringCtxView {
    LoweringCtxView {
        tmp_refs: ctx.tmp_refs.drop_last().push(ctx.tmp_refs.last().push(slot)),
        ..ctx
    }
}

/// A reference to a variable of the function.
pub open spec fn local(name: Seq<char>, ty: Type) -> ValueView {
    ValueView::VarRef(name, ty, Scope::Func)
}

/// The declaration of a variable of the function.
pub open spec fn let_local(name: Seq<char>, e: ExprView) -> StmtView {
    StmtView::VarDecl(name, Scope::Func, e)
}

/// A variable that is passed by reference occurs in the expression.
pub open spec fn passes_by_ref(e: mir::ExprView) -> bool
    decreases e,
{
    match e {
        mir::ExprView::Cmp(_, lhs, rhs) => passes_by_ref(*lhs) || passes_by_ref(*rhs),
        mir::ExprView::FuncCall(_, _, args) => any_passes_by_ref(args),
        mir::ExprView::Not(inner) => passes_by_ref(*inner),
        mir::ExprView::VarRef(_, _, by_ref) => by_ref,
        _ => false,
    }
}

/// A variable that is passed by reference occurs in one of the expressions.
pub open spec fn any_passes_by_ref(es: Seq<mir::ExprView>) -> bool
    decreases es,
{
    exists|i: int| 0 <= i < es.len() && passes_by_ref(#[trigger] es[i])
}

/// Lowers an expression to an operand: the state afterwards, the statements
/// that compute the operand, and the operand. A compound result is spilled
/// into a fresh temporary.
pub open spec fn value_lowered(e: mir::ExprView, ctx: LoweringCtxView) -> (
    LoweringCtxView,
    Seq<StmtView>,
    ValueView,
)
    decreases e,
{
    match e {
        mir::ExprView::Cmp(op, lhs, rhs) => {
            let name = uniq_name("cmp"@, ctx.uniq);
            let (ctx1, code1, l) = value_lowered(*lhs, bumped(ctx));
            let (ctx2, code2, r) = value_lowered(*rhs, ctx1);
            (
                ctx2,
                code1 + code2 + seq![let_local(name, ExprView::Cmp(op_lowered(op), l, r))],
                local(name, Type::W),
            )
        },
        mir::ExprView::ConstBool(b) => (
            ctx,
            Seq::empty(),
            ValueView::ConstW(
                if b {
                    1
                } else {
                    0
                },
            ),
        ),
        mir::ExprView::ConstDouble(d) => (ctx, Seq::empty(), ValueView::ConstD(d)),
        mir::ExprView::ConstInt32(i) => (ctx, Seq::empty(), ValueView::ConstW(i)),
        mir::ExprView::ConstInt64(i) => (ctx, Seq::empty(), ValueView::ConstL(i)),
        mir::ExprView::ConstStr(s) => (
            interned(ctx, s).1,
            Seq::empty(),
            ValueView::VarRef(interned(ctx, s).0, Type::L, Scope::Global),
        ),
        mir::ExprView::FuncCall(name, ty, args) => {
            let (ctx1, code1, values) = values_lowered(args, ctx);
            let tmp = uniq_name("arg"@, ctx1.uniq);
            (
                bumped(ctx1),
                code1.push(let_local(tmp, ExprView::FuncCall(name, type_lowered(ty), values))),
                local(tmp, type_lowered(ty)),
            )
        },
        mir::ExprView::Not(inner) => {
            let name = uniq_name("not"@, ctx.uniq);
            let (ctx1, code1, v) = value_lowered(*inner, bumped(ctx));
            (
                ctx1,
                code1.push(let_local(name, ExprView::Sub(ValueView::ConstW(1), v))),
                local(name, Type::W),
            )
        },
        mir::ExprView::VarRef(name, ty, by_ref) => if by_ref {
            let slot = uniq_name("ref"@, ctx.uniq);
            (
                with_slot(bumped(ctx), (slot, name, type_lowered(ty))),
                seq![
                    let_local(slot, ExprView::Alloc8(8)),
                    StmtView::Store(
                        type_lowered(ty),
                        local(name, type_lowered(ty)),
                        local(slot, Type::L),
                    ),
                ],
                local(slot, Type::L),
            )
        } else {
            (ctx, Seq::empty(), local(name, type_lowered(ty)))
        },
    }
}

/// Lowers expressions to operands, in order.
pub open spec fn values_lowered(es: Seq<mir::ExprView>, ctx: LoweringCtxView) -> (
    LoweringCtxView,
    Seq<StmtView>,
    Seq<ValueView>,
)
    decreases es,
{
    if es.len() == 0 {
        (ctx, Seq::empty(), Seq::empty())
    } else {
        let (ctx1, code1, values) = values_lowered(es.drop_last(), ctx);
        let (ctx2, code2, v) = value_lowered(es.last(), ctx1);
        (ctx2, code1 + code2, values.push(v))
    }
}

/// Lowers an expression to the right-hand side of a declaration: the state
/// afterwards, the statements that compute its operands, and the right-hand
/// side. A comparison, a negation and a call stay as they are, so that the
/// declaration can name their result.
pub open spec fn expr_lowered(e: mir::ExprView, ctx: LoweringCtxView) -> (
    LoweringCtxView,
    Seq<StmtView>,
    ExprView,
) {
    match e {
        mir::ExprView::Cmp(op, lhs, rhs) => {
            let (ctx1, code1, l) = value_lowered(*lhs, ctx);
            let (ctx2, code2, r) = value_lowered(*rhs, ctx1);
            (ctx2, code1 + code2, ExprView::Cmp(op_lowered(op), l, r))
        },
        mir::ExprView::Not(inner) => {
            let (ctx1, code1, v) = value_lowered(*inner, ctx);
            (ctx1, code1, ExprView::Sub(ValueView::ConstW(1), v))
        },
        mir::ExprView::FuncCall(name, ty, args) => {
            let (ctx1, code1, values) = values_lowered(args, ctx);
            (ctx1, code1, ExprView::FuncCall(name, type_lowered(ty), values))
        },
        _ => {
            let (ctx1, code1, v) = value_lowered(e, ctx);
            (ctx1, code1, ExprView::Value(v))
        },
    }
}

/// The statements that read the slots of a frame back into their variables.
pub open spec fn read_back(frame: Seq<TmpRefView>) -> Seq<StmtView> {
    Seq::new(
        frame.len(),
        |i: int|
            let_local(frame[i].1, ExprView::Load(frame[i].2, frame[i].2, local(frame[i].0, Type::L))),
    )
}

/// The label at which the `i`-th arm of a conditional begins.
pub open spec fn case_label(prefix: Seq<char>, i: nat) -> Seq<char> {
    prefix + "_case_"@ + decimal(i)
}

/// The label from which on a label `lbl` is left behind.
pub open spec fn end_label(lbl: Seq<char>) -> Seq<char> {
    lbl + "_end"@
}

/// Lowers what a statement does, inside the frame that was opened for it.
pub open spec fn stmt_body_lowered(s: mir::StmtView, ctx: LoweringCtxView) -> (
    LoweringCtxView,
    Seq<StmtView>,
)
    decreases s, 0nat,
{
    match s {
        mir::StmtView::Cond(cases) => {
            let prefix = uniq_name("cond"@, ctx.uniq);
            let (ctx1, code1) = cases_lowered(cases, prefix, bumped(ctx));
            (ctx1, code1.push(StmtView::Lbl(end_label(prefix))))
        },
        mir::StmtView::FuncCall(name, args) => {
            let (ctx1, code1, values) = values_lowered(args, ctx);
            (ctx1, code1.push(StmtView::FuncCall(name, values)))
        },
        mir::StmtView::Ret(Some(e)) => {
            let (ctx1, code1, v) = value_lowered(e, ctx);
            (ctx1, code1.push(StmtView::Ret(Some(v))))
        },
        mir::StmtView::Ret(None) => (ctx, seq![StmtView::Ret(None)]),
        mir::StmtView::VarDecl(name, e) => {
            let (ctx1, code1, rhs) = expr_lowered(e, ctx);
            (ctx1, code1.push(let_local(name, rhs)))
        },
    }
}

/// Lowers a statement: a frame is opened, the statement is lowered, and the
/// slots that were recorded in the frame are read back.
pub open spec fn stmt_lowered(s: mir::StmtView, ctx: LoweringCtxView) -> (
    LoweringCtxView,
    Seq<StmtView>,
)
    decreases s, 1nat,
{
    let (ctx1, code1) = stmt_body_lowered(s, framed(ctx));
    (unframed(ctx1), code1 + read_back(ctx1.tmp_refs.last()))
}

/// Lowers statements, in order.
pub open spec fn stmts_lowered(ss: Seq<mir::StmtView>, ctx: LoweringCtxView) -> (
    LoweringCtxView,
    Seq<StmtView>,
)
    decreases ss,
{
    if ss.len() == 0 {
        (ctx, Seq::empty())
    } else {
        let (ctx1, code1) = stmts_lowered(ss.drop_last(), ctx);
        let (ctx2, code2) = stmt_lowered(ss.last(), ctx1);
        (ctx2, code1 + code2)
    }
}

/// Lowers the arms of a conditional whose labels begin with `prefix`, in
/// order. An arm evaluates its guard, jumps to its own label where the guard
/// is not zero and past its body otherwise, and leaves its body by a jump to
/// the end of the conditional.
pub open spec fn cases_lowered(
    cases: Seq<(mir::ExprView, Seq<mir::StmtView>)>,
    prefix: Seq<char>,
    ctx: LoweringCtxView,
) -> (LoweringCtxView, Seq<StmtView>)
    decreases cases,
{
    if cases.len() == 0 {
        (ctx, Seq::empty())
    } else {
        let (ctx1, code1) = cases_lowered(cases.drop_last(), prefix, ctx);
        let (ctx2, code2, guard) = value_lowered(cases.last().0, ctx1);
        let (ctx3, code3) = stmts_lowered(cases.last().1, ctx2);
        let yes = case_label(prefix, (cases.len() - 1) as nat);
        (
            ctx3,
            code1 + code2 + seq![StmtView::Jnz(guard, yes, end_label(yes)), StmtView::Lbl(yes)]
                + code3 + seq![StmtView::Jmp(end_label(prefix)), StmtView::Lbl(end_label(yes))],
        )
    }
}

/// Lowers the declarations of a module, in order: the state afterwards and
/// the functions. A forward declaration leaves nothing behind. The body of a
/// function begins with the label `start`.
pub open spec fn decls_lowered(ds: Seq<mir::DeclView>, ctx: LoweringCtxView) -> (
    LoweringCtxView,
    Seq<DeclView>,
)
    decreases ds.len(),
{
    if ds.len() == 0 {
        (ctx, Seq::empty())
    } else {
        let (ctx1, funcs) = decls_lowered(ds.drop_last(), ctx);
        match ds.last() {
            mir::DeclView::FwdDecl(_, _) => (ctx1, funcs),
            mir::DeclView::FuncDecl(name, sig, body) => {
                let (ctx2, code) = stmts_lowered(body, ctx1);
                (
                    ctx2,
                    funcs.push(
                        DeclView::FuncDecl(
                            name,
                            visibility_lowered(sig.visibility),
                            opt_type_lowered(sig.ret),
                            args_lowered(sig.args),
                            sig.variadic,
                            seq![StmtView::Lbl("start"@)] + code,
                        ),
                    ),
                )
            },
        }
    }
}

/// Lowers a module to its compilation unit: the data of its string literals,
/// in the order of the literals, and then its functions.
pub open spec fn module_lowered(m: mir::ModuleView) -> CompUnitView {
    let (ctx, funcs) = decls_lowered(m.decls, initial(m.name));
    CompUnitView { name: m.name, decls: pool_decls(ctx.pool) + funcs }
}

/// Lowers modules, each by itself.
pub open spec fn modules_lowered(ms: Seq<mir::ModuleView>) -> Seq<CompUnitView> {
    Seq::new(ms.len(), |i: int| module_lowered(ms[i]))
}

/// Lowering a statement leaves the frames and the prefix as they were.
pub proof fn lemma_stmt_lowered_keeps(s: mir::StmtView, ctx: LoweringCtxView)
    ensures
        stmt_lowered(s, ctx).0.tmp_refs == ctx.tmp_refs,
        stmt_lowered(s, ctx).0.prefix == ctx.prefix,
        stmt_body_lowered(s, framed(ctx)).0.tmp_refs.len() == ctx.tmp_refs.len() + 1,
        stmt_body_lowered(s, framed(ctx)).0.tmp_refs.drop_last() == ctx.tmp_refs,
    decreases s,
{
    let inner = framed(ctx);
    assert(inner.tmp_refs.drop_last() =~= ctx.tmp_refs);
    match s {
        mir::StmtView::Cond(cases) => {
            lemma_cases_lowered_keeps(cases, uniq_name("cond"@, inner.uniq), bumped(inner));
        },
        mir::StmtView::FuncCall(_, args) => {
            lemma_values_lowered_outer(args, inner);
        },
        mir::StmtView::Ret(Some(e)) => {
            lemma_value_lowered_outer(e, inner);
        },
        mir::StmtView::Ret(None) => {},
        mir::StmtView::VarDecl(_, e) => {
            lemma_expr_lowered_outer(e, inner);
        },
    }
}

/// Lowering statements leaves the frames and the prefix as they were.
pub proof fn lemma_stmts_lowered_keeps(ss: Seq<mir::StmtView>, ctx: LoweringCtxView)
    ensures
        stmts_lowered(ss, ctx).0.tmp_refs == ctx.tmp_refs,
        stmts_lowered(ss, ctx).0.prefix == ctx.prefix,
    decreases ss,
{
    if ss.len() > 0 {
        lemma_stmts_lowered_keeps(ss.drop_last(), ctx);
        lemma_stmt_lowered_keeps(ss.last(), stmts_lowered(ss.drop_last(), ctx).0);
    }
}

/// Lowering the arms of a conditional leaves the outer frames and the prefix
/// as they were.
pub proof fn lemma_cases_lowered_keeps(
    cases: Seq<(mir::ExprView, Seq<mir::StmtView>)>,
    prefix: Seq<char>,
    ctx: LoweringCtxView,
)
    requires
        ctx.tmp_refs.len() > 0,
    ensures
        cases_lowered(cases, prefix, ctx).0.tmp_refs.len() == ctx.tmp_refs.len(),
        cases_lowered(cases, prefix, ctx).0.tmp_refs.drop_last() == ctx.tmp_refs.drop_last(),
        cases_lowered(cases, prefix, ctx).0.prefix == ctx.prefix,
    decreases cases,
{
    if cases.len() > 0 {
        lemma_cases_lowered_keeps(cases.drop_last(), prefix, ctx);
        let ctx1 = cases_lowered(cases.drop_last(), prefix, ctx).0;
        lemma_value_lowered_outer(cases.last().0, ctx1);
        let ctx2 = value_lowered(cases.last().0, ctx1).0;
        lemma_stmts_lowered_keeps(cases.last().1, ctx2);
    }
}

/// Lowering an expression to an operand touches the innermost frame only,
/// and no frame where no variable is passed by reference.
pub proof fn lemma_value_lowered_outer(e: mir::ExprView, ctx: LoweringCtxView)
    requires
        passes_by_ref(e) ==> ctx.tmp_refs.len() > 0,
    ensures
        value_lowered(e, ctx).0.tmp_refs.len() == ctx.tmp_refs.len(),
        value_lowered(e, ctx).0.tmp_refs.drop_last() == ctx.tmp_refs.drop_last(),
        value_lowered(e, ctx).0.prefix == ctx.prefix,
        !passes_by_ref(e) ==> value_lowered(e, ctx).0.tmp_refs == ctx.tmp_refs,
    decreases e,
{
    match e {
        mir::ExprView::Cmp(_, lhs, rhs) => {
            lemma_value_lowered_outer(*lhs, bumped(ctx));
            lemma_value_lowered_outer(*rhs, value_lowered(*lhs, bumped(ctx)).0);
        },
        mir::ExprView::FuncCall(_, _, args) => {
            lemma_values_lowered_outer(args, ctx);
        },
        mir::ExprView::Not(inner) => {
            lemma_value_lowered_outer(*inner, bumped(ctx));
        },
        mir::ExprView::VarRef(name, ty, by_ref) => {
            if by_ref {
                let slot = (uniq_name("ref"@, ctx.uniq), name, type_lowered(ty));
                assert(with_slot(bumped(ctx), slot).tmp_refs.drop_last()
                    =~= ctx.tmp_refs.drop_last());
            }
        },
        _ => {},
    }
}

/// Lowering expressions to operands touches the innermost frame only, and
/// no frame where no variable is passed by reference.
pub proof fn lemma_values_lowered_outer(es: Seq<mir::ExprView>, ctx: LoweringCtxView)
    requires
        any_passes_by_ref(es) ==> ctx.tmp_refs.len() > 0,
    ensures
        values_lowered(es, ctx).0.tmp_refs.len() == ctx.tmp_refs.len(),
        values_lowered(es, ctx).0.tmp_refs.drop_last() == ctx.tmp_refs.drop_last(),
        values_lowered(es, ctx).0.prefix == ctx.prefix,
        values_lowered(es, ctx).2.len() == es.len(),
        !any_passes_by_ref(es) ==> values_lowered(es, ctx).0.tmp_refs == ctx.tmp_refs,
    decreases es,
{
    if es.len() > 0 {
        let front = es.drop_last();
        assert(passes_by_ref(es.last()) ==> any_passes_by_ref(es));
        if any_passes_by_ref(front) {
            let i = choose|i: int| 0 <= i < front.len() && passes_by_ref(#[trigger] front[i]);
            assert(es[i] == front[i]);
        }
        lemma_values_lowered_outer(front, ctx);
        lemma_value_lowered_outer(es.last(), values_lowered(front, ctx).0);
    }
}

/// A variable that is passed by reference in some of the expressions is
/// passed by reference in all of them taken together.
pub proof fn lemma_any_passes_by_ref(es: Seq<mir::ExprView>, n: int)
    requires
        0 <= n <= es.len(),
    ensures
        any_passes_by_ref(es.take(n)) ==> any_passes_by_ref(es),
        n < es.len() && passes_by_ref(es[n]) ==> any_passes_by_ref(es),
{
    if any_passes_by_ref(es.take(n)) {
        let i = choose|i: int| 0 <= i < es.take(n).len() && passes_by_ref(#[trigger] es.take(n)[i]);
        assert(es[i] == es.take(n)[i]);
    }
}

/// Lowering to a right-hand side touches the innermost frame only, and no
/// frame where no variable is passed by reference.
pub proof fn lemma_expr_lowered_outer(e: mir::ExprView, ctx: LoweringCtxView)
    requires
        passes_by_ref(e) ==> ctx.tmp_refs.len() > 0,
    ensures
        expr_lowered(e, ctx).0.tmp_refs.len() == ctx.tmp_refs.len(),
        expr_lowered(e, ctx).0.tmp_refs.drop_last() == ctx.tmp_refs.drop_last(),
        expr_lowered(e, ctx).0.prefix == ctx.prefix,
        !passes_by_ref(e) ==> expr_lowered(e, ctx).0.tmp_refs == ctx.tmp_refs,
{
    match e {
        mir::ExprView::Cmp(_, lhs, rhs) => {
            lemma_value_lowered_outer(*lhs, ctx);
            lemma_value_lowered_outer(*rhs, value_lowered(*lhs, ctx).0);
        },
        mir::ExprView::FuncCall(_, _, args) => {
            lemma_values_lowered_outer(args, ctx);
        },
        mir::ExprView::Not(inner) => {
            lemma_value_lowered_outer(*inner, ctx);
        },
        _ => {
            lemma_value_lowered_outer(e, ctx);
        },
    }
}

fn emit(stmts: &mut Vec<Stmt>, stmt: Stmt)
    ensures
        stmts_view(final(stmts)@) == stmts_view(old(stmts)@).push(stmt@),
{
    stmts.push(stmt);
    assert(stmts_view(stmts@) =~= stmts_view(old(stmts)@).push(stmt@));
}

fn lbl(name: &str) -> (stmt: Stmt)
    ensures
        stmt@ == StmtView::Lbl(name@),
{
    Stmt::Lbl(String::from_str(name))
}

/// The lower type that holds a value of a type of the middle language.
pub fn lower_type(ty: &mir::Type) -> (lowered: Type)
    ensures
        lowered == type_lowered(*ty),
{
    match ty {
        mir::Type::Double => Type::D,
        mir::Type::Bool | mir::Type::Int32 => Type::W,
        mir::Type::Int64 | mir::Type::Ptr(_) | mir::Type::Str => Type::L,
    }
}

/// The lower type of a return type, where there is one.
pub fn lower_opt_type(ty: &Option<mir::Type>) -> (lowered: Option<Type>)
    ensures
        lowered == opt_type_lowered(*ty),
{
    match ty {
        Some(ty) => Some(lower_type(ty)),
        None => None,
    }
}

/// The lower operator.
pub fn lower_op(op: &mir::Op) -> (lowered: Op)
    ensures
        lowered == op_lowered(*op),
{
    match op {
        mir::Op::Eq => Op::Eq,
        mir::Op::Ne => Op::Ne,
    }
}

/// The linkage of a function: a public one is exported.
pub fn lower_visibility(visibility: &mir::Visibility) -> (linkage: Option<Linkage>)
    ensures
        linkage == visibility_lowered(*visibility),
{
    match visibility {
        mir::Visibility::Public => Some(Linkage::Export),
        mir::Visibility::Private => None,
    }
}

/// The lower parameters.
pub fn lower_args(args: &Vec<mir::FuncArg>) -> (lowered: Vec<FuncArg>)
    ensures
        args_view(lowered@) == args_lowered(mir::args_view(args@)),
{
    let mut lowered: Vec<FuncArg> = Vec::new();
    let mut i: usize = 0;
    while i < args.len()
        invariant
            i <= args.len(),
            lowered.len() == i,
            args_view(lowered@) == args_lowered(mir::args_view(args@)).take(i as int),
        decreases args.len() - i,
    {
        let ghost before = lowered@;
        lowered.push((args[i].0.clone(), lower_type(&args[i].1)));
        proof {
            let target = args_lowered(mir::args_view(args@));
            assert forall|j: int| 0 <= j < i + 1 implies args_view(lowered@)[j] == target.take(
                i + 1,
            )[j] by {
                if j < i {
                    assert(args_view(before)[j] == target.take(i as int)[j]);
                    assert(lowered@[j] == before[j]);
                }
            }
            assert(args_view(lowered@) =~= target.take(i + 1));
        }
        i = i + 1;
    }
    assert(args_view(lowered@) =~= args_lowered(mir::args_view(args@)));
    lowered
}

/// Lowers an expression to an operand, and appends to `stmts` the
/// statements that compute it. A frame is needed only where a variable is
/// passed by reference.
pub fn lower_expr_to_value(expr: &mir::Expr, stmts: &mut Vec<Stmt>, ctx: &mut LoweringCtx) -> (value:
    Value)
    requires
        old(ctx).wf(),
        passes_by_ref(expr@) ==> old(ctx)@.tmp_refs.len() > 0,
    ensures
        final(ctx).wf(),
        final(ctx)@ == value_lowered(expr@, old(ctx)@).0,
        stmts_view(final(stmts)@) == stmts_view(old(stmts)@) + value_lowered(expr@, old(ctx)@).1,
        value@ == value_lowered(expr@, old(ctx)@).2,
    decreases expr,
{
    let ghost start = stmts_view(stmts@);
    match expr {
        mir::Expr::Cmp(op, lhs, rhs) => {
            let var_name = ctx.uniq_name("cmp");
            let ghost ctx0 = ctx@;
            let l = lower_expr_to_value(lhs, stmts, ctx);
            proof {
                lemma_value_lowered_outer(lhs@, ctx0);
            }
            let r = lower_expr_to_value(rhs, stmts, ctx);
            let rhs_expr = Expr::Cmp(lower_op(op), l, r);
            emit(stmts, Stmt::VarDecl(var_name.clone(), Scope::Func, rhs_expr));
            assert(stmts_view(stmts@) =~= start + value_lowered(expr@, old(ctx)@).1);
            Value::VarRef(var_name, Type::W, Scope::Func)
        },
        mir::Expr::ConstBool(b) => {
            assert(start =~= start + Seq::<StmtView>::empty());
            if *b {
                Value::ConstW(1)
            } else {
                Value::ConstW(0)
            }
        },
        mir::Expr::ConstDouble(d) => {
            assert(start =~= start + Seq::<StmtView>::empty());
            Value::ConstD(d.clone())
        },
        mir::Expr::ConstInt32(i) => {
            assert(start =~= start + Seq::<StmtView>::empty());
            Value::ConstW(*i)
        },
        mir::Expr::ConstInt64(i) => {
            assert(start =~= start + Seq::<StmtView>::empty());
            Value::ConstL(*i)
        },
        mir::Expr::ConstStr(s) => {
            assert(start =~= start + Seq::<StmtView>::empty());
            let name = ctx.name_for_str(s.as_str());
            Value::VarRef(name, Type::L, Scope::Global)
        },
        mir::Expr::FuncCall(name, ty, exprs) => {
            let call = lower_func_call(name, ty, exprs, stmts, ctx);
            proof {
                lemma_values_lowered_outer(mir::exprs_view(exprs@), old(ctx)@);
            }
            let call_type = call.type_of();
            let tmp = ctx.uniq_name("arg");
            emit(stmts, Stmt::VarDecl(tmp.clone(), Scope::Func, call));
            assert(stmts_view(stmts@) =~= start + value_lowered(expr@, old(ctx)@).1);
            Value::VarRef(tmp, call_type, Scope::Func)
        },
        mir::Expr::Not(inner) => {
            let var_name = ctx.uniq_name("not");
            let value = lower_expr_to_value(inner, stmts, ctx);
            let rhs_expr = Expr::Sub(Value::ConstW(1), value);
            emit(stmts, Stmt::VarDecl(var_name.clone(), Scope::Func, rhs_expr));
            assert(stmts_view(stmts@) =~= start + value_lowered(expr@, old(ctx)@).1);
            Value::VarRef(var_name, Type::W, Scope::Func)
        },
        mir::Expr::VarRef(name, ty, by_ref) => {
            if *by_ref {
                let slot = ctx.uniq_name("ref");
                let lowered = lower_type(ty);
                ctx.add_tmp_ref((slot.clone(), name.clone(), lowered));
                emit(stmts, Stmt::VarDecl(slot.clone(), Scope::Func, Expr::Alloc8(8)));
                emit(
                    stmts,
                    Stmt::Store(
                        lowered,
                        Value::VarRef(name.clone(), lowered, Scope::Func),
                        Value::VarRef(slot.clone(), Type::L, Scope::Func),
                    ),
                );
                assert(stmts_view(stmts@) =~= start + value_lowered(expr@, old(ctx)@).1);
                Value::VarRef(slot, Type::L, Scope::Func)
            } else {
                assert(start =~= start + Seq::<StmtView>::empty());
                Value::VarRef(name.clone(), lower_type(ty), Scope::Func)
            }
        },
    }
}

/// Lowers expressions to operands, in order, and appends to `stmts` the
/// statements that compute them.
pub fn lower_exprs_to_values(exprs: &Vec<mir::Expr>, stmts: &mut Vec<Stmt>, ctx: &mut LoweringCtx) -> (values:
    Vec<Value>)
    requires
        old(ctx).wf(),
        any_passes_by_ref(mir::exprs_view(exprs@)) ==> old(ctx)@.tmp_refs.len() > 0,
    ensures
        final(ctx).wf(),
        final(ctx)@ == values_lowered(mir::exprs_view(exprs@), old(ctx)@).0,
        stmts_view(final(stmts)@) == stmts_view(old(stmts)@) + values_lowered(
            mir::exprs_view(exprs@),
            old(ctx)@,
        ).1,
        values_view(values@) == values_lowered(mir::exprs_view(exprs@), old(ctx)@).2,
    decreases exprs, 0nat,
{
    let ghost all = mir::exprs_view(exprs@);
    let ghost start = stmts_view(stmts@);
    let mut values: Vec<Value> = Vec::new();
    let mut i: usize = 0;
    assert(all.take(0) =~= Seq::<mir::ExprView>::empty());
    assert(start =~= start + Seq::<StmtView>::empty());
    assert(values_view(values@) =~= Seq::<ValueView>::empty());
    while i < exprs.len()
        invariant
            i <= exprs.len(),
            all == mir::exprs_view(exprs@),
            ctx.wf(),
            any_passes_by_ref(all) ==> old(ctx)@.tmp_refs.len() > 0,
            ctx@ == values_lowered(all.take(i as int), old(ctx)@).0,
            stmts_view(stmts@) == start + values_lowered(all.take(i as int), old(ctx)@).1,
            values_view(values@) == values_lowered(all.take(i as int), old(ctx)@).2,
        decreases exprs.len() - i,
    {
        proof {
            assert(all.take(i + 1).drop_last() =~= all.take(i as int));
            assert(all.take(i + 1).last() == exprs@[i as int]@);
            lemma_any_passes_by_ref(all, i as int);
            lemma_values_lowered_outer(all.take(i as int), old(ctx)@);
        }
        let ghost before = values_view(values@);
        let value = lower_expr_to_value(&exprs[i], stmts, ctx);
        values.push(value);
        assert(values_view(values@) =~= before.push(value@));
        assert(stmts_view(stmts@) =~= start + values_lowered(all.take(i + 1), old(ctx)@).1);
        i = i + 1;
    }
    assert(all.take(i as int) =~= all);
    values
}

/// Lowers a call to a right-hand side, and appends to `stmts` the
/// statements that compute its operands.
pub fn lower_func_call(
    name: &String,
    ty: &mir::Type,
    exprs: &Vec<mir::Expr>,
    stmts: &mut Vec<Stmt>,
    ctx: &mut LoweringCtx,
) -> (call: Expr)
    requires
        old(ctx).wf(),
        any_passes_by_ref(mir::exprs_view(exprs@)) ==> old(ctx)@.tmp_refs.len() > 0,
    ensures
        final(ctx).wf(),
        final(ctx)@ == values_lowered(mir::exprs_view(exprs@), old(ctx)@).0,
        stmts_view(final(stmts)@) == stmts_view(old(stmts)@) + values_lowered(
            mir::exprs_view(exprs@),
            old(ctx)@,
        ).1,
        call@ == ExprView::FuncCall(
            name@,
            type_lowered(*ty),
            values_lowered(mir::exprs_view(exprs@), old(ctx)@).2,
        ),
    decreases exprs, 1nat,
{
    let values = lower_exprs_to_values(exprs, stmts, ctx);
    Expr::FuncCall(name.clone(), lower_type(ty), values)
}

/// Lowers an expression to the right-hand side of a declaration, and
/// appends to `stmts` the statements that compute its operands. A frame is
/// needed only where a variable is passed by reference.
pub fn lower_expr(expr: &mir::Expr, stmts: &mut Vec<Stmt>, ctx: &mut LoweringCtx) -> (lowered: Expr)
    requires
        old(ctx).wf(),
        passes_by_ref(expr@) ==> old(ctx)@.tmp_refs.len() > 0,
    ensures
        final(ctx).wf(),
        final(ctx)@ == expr_lowered(expr@, old(ctx)@).0,
        stmts_view(final(stmts)@) == stmts_view(old(stmts)@) + expr_lowered(expr@, old(ctx)@).1,
        lowered@ == expr_lowered(expr@, old(ctx)@).2,
{
    let ghost start = stmts_view(stmts@);
    match expr {
        mir::Expr::Cmp(op, lhs, rhs) => {
            let l = lower_expr_to_value(lhs, stmts, ctx);
            proof {
                lemma_value_lowered_outer(lhs@, old(ctx)@);
            }
            let r = lower_expr_to_value(rhs, stmts, ctx);
            assert(stmts_view(stmts@) =~= start + expr_lowered(expr@, old(ctx)@).1);
            Expr::Cmp(lower_op(op), l, r)
        },
        mir::Expr::Not(inner) => {
            let value = lower_expr_to_value(inner, stmts, ctx);
            Expr::Sub(Value::ConstW(1), value)
        },
        mir::Expr::FuncCall(name, ty, exprs) => lower_func_call(name, ty, exprs, stmts, ctx),
        _ => {
            let value = lower_expr_to_value(expr, stmts, ctx);
            Expr::Value(value)
        },
    }
}

/// Closes the innermost frame and appends to `stmts` the statements that
/// read its slots back into their variables.
pub fn deref_tmp_refs(stmts: &mut Vec<Stmt>, ctx: &mut LoweringCtx)
    requires
        old(ctx).wf(),
        old(ctx)@.tmp_refs.len() > 0,
    ensures
        final(ctx).wf(),
        final(ctx)@ == unframed(old(ctx)@),
        stmts_view(final(stmts)@) == stmts_view(old(stmts)@) + read_back(
            old(ctx)@.tmp_refs.last(),
        ),
{
    let ghost start = stmts_view(stmts@);
    let ghost frame = old(ctx)@.tmp_refs.last();
    let tmp_refs = ctx.pop_tmp_refs();
    let mut i: usize = 0;
    assert(start =~= start + read_back(frame).take(0));
    while i < tmp_refs.len()
        invariant
            i <= tmp_refs.len(),
            frame == frame_view(tmp_refs@),
            stmts_view(stmts@) == start + read_back(frame).take(i as int),
        decreases tmp_refs.len() - i,
    {
        let slot = &tmp_refs[i];
        let load = Expr::Load(slot.2, slot.2, Value::VarRef(slot.0.clone(), Type::L, Scope::Func));
        emit(stmts, Stmt::VarDecl(slot.1.clone(), Scope::Func, load));
        assert(stmts_view(stmts@) =~= start + read_back(frame).take(i + 1));
        i = i + 1;
    }
    assert(read_back(frame).take(i as int) =~= read_back(frame));
}

fn case_label_of(prefix: &String, i: usize) -> (label: String)
    ensures
        label@ == case_label(prefix@, i as nat),
{
    let mut label = prefix.clone();
    label.append("_case_");
    append_decimal(&mut label, i as u64);
    assert(label@ =~= case_label(prefix@, i as nat));
    label
}

fn end_label_of(label: &String) -> (end: String)
    ensures
        end@ == end_label(label@),
{
    let mut end = label.clone();
    end.append("_end");
    end
}

fn lower_stmt(stmt: &mir::Stmt, stmts: &mut Vec<Stmt>, ctx: &mut LoweringCtx)
    requires
        old(ctx).wf(),
    ensures
        final(ctx).wf(),
        final(ctx)@ == stmt_lowered(stmt@, old(ctx)@).0,
        stmts_view(final(stmts)@) == stmts_view(old(stmts)@) + stmt_lowered(stmt@, old(ctx)@).1,
    decreases stmt,
{
    let ghost start = stmts_view(stmts@);
    ctx.push_tmp_refs();
    let ghost inner = ctx@;
    assert(inner == framed(old(ctx)@));
    proof {
        lemma_stmt_lowered_keeps(stmt@, old(ctx)@);
    }
    match stmt {
        mir::Stmt::Cond(cases) => {
            let lbl_prefix = ctx.uniq_name("cond");
            let end_lbl = end_label_of(&lbl_prefix);
            lower_cases(cases, &lbl_prefix, &end_lbl, stmts, ctx);
            emit(stmts, Stmt::Lbl(end_lbl));
        },
        mir::Stmt::FuncCall(name, exprs) => {
            let values = lower_exprs_to_values(exprs, stmts, ctx);
            emit(stmts, Stmt::FuncCall(name.clone(), values));
        },
        mir::Stmt::Ret(Some(expr)) => {
            let value = lower_expr_to_value(expr, stmts, ctx);
            emit(stmts, Stmt::Ret(Some(value)));
        },
        mir::Stmt::Ret(None) => {
            emit(stmts, Stmt::Ret(None));
        },
        mir::Stmt::VarDecl(name, expr) => {
            let rhs = lower_expr(expr, stmts, ctx);
            emit(stmts, Stmt::VarDecl(name.clone(), Scope::Func, rhs));
        },
    }
    assert(ctx@ == stmt_body_lowered(stmt@, inner).0);
    assert(stmts_view(stmts@) =~= start + stmt_body_lowered(stmt@, inner).1);
    deref_tmp_refs(stmts, ctx);
    assert(stmts_view(stmts@) =~= start + stmt_lowered(stmt@, old(ctx)@).1);
}

/// Lowers statements, in order, and appends their code to `stmts`. Each
/// statement gets a frame of its own, which is closed after it.
pub fn lower_stmts(m_stmts: &Vec<mir::Stmt>, stmts: &mut Vec<Stmt>, ctx: &mut LoweringCtx)
    requires
        old(ctx).wf(),
    ensures
        final(ctx).wf(),
        final(ctx)@ == stmts_lowered(mir::stmts_view(m_stmts@), old(ctx)@).0,
        stmts_view(final(stmts)@) == stmts_view(old(stmts)@) + stmts_lowered(
            mir::stmts_view(m_stmts@),
            old(ctx)@,
        ).1,
    decreases m_stmts,
{
    let ghost all = mir::stmts_view(m_stmts@);
    let ghost start = stmts_view(stmts@);
    let mut i: usize = 0;
    assert(all.take(0) =~= Seq::<mir::StmtView>::empty());
    assert(start =~= start + Seq::<StmtView>::empty());
    while i < m_stmts.len()
        invariant
            i <= m_stmts.len(),
            all == mir::stmts_view(m_stmts@),
            ctx.wf(),
            ctx@ == stmts_lowered(all.take(i as int), old(ctx)@).0,
            stmts_view(stmts@) == start + stmts_lowered(all.take(i as int), old(ctx)@).1,
        decreases m_stmts.len() - i,
    {
        proof {
            assert(all.take(i + 1).drop_last() =~= all.take(i as int));
            assert(all.take(i + 1).last() == m_stmts@[i as int]@);
        }
        lower_stmt(&m_stmts[i], stmts, ctx);
        assert(stmts_view(stmts@) =~= start + stmts_lowered(all.take(i + 1), old(ctx)@).1);
        i = i + 1;
    }
    assert(all.take(i as int) =~= all);
}

fn lower_cases(
    cases: &Vec<mir::Case>,
    lbl_prefix: &String,
    end_lbl: &String,
    stmts: &mut Vec<Stmt>,
    ctx: &mut LoweringCtx,
)
    requires
        old(ctx).wf(),
        old(ctx)@.tmp_refs.len() > 0,
        end_lbl@ == end_label(lbl_prefix@),
    ensures
        final(ctx).wf(),
        final(ctx)@ == cases_lowered(mir::cases_view(cases@), lbl_prefix@, old(ctx)@).0,
        stmts_view(final(stmts)@) == stmts_view(old(stmts)@) + cases_lowered(
            mir::cases_view(cases@),
            lbl_prefix@,
            old(ctx)@,
        ).1,
    decreases cases,
{
    let ghost all = mir::cases_view(cases@);
    let ghost start = stmts_view(stmts@);
    let mut i: usize = 0;
    assert(all.take(0) =~= Seq::<(mir::ExprView, Seq<mir::StmtView>)>::empty());
    assert(start =~= start + Seq::<StmtView>::empty());
    while i < cases.len()
        invariant
            i <= cases.len(),
            all == mir::cases_view(cases@),
            ctx.wf(),
            old(ctx)@.tmp_refs.len() > 0,
            end_lbl@ == end_label(lbl_prefix@),
            ctx@ == cases_lowered(all.take(i as int), lbl_prefix@, old(ctx)@).0,
            stmts_view(stmts@) == start + cases_lowered(
                all.take(i as int),
                lbl_prefix@,
                old(ctx)@,
            ).1,
        decreases cases.len() - i,
    {
        proof {
            assert(all.take(i + 1).drop_last() =~= all.take(i as int));
            assert(all.take(i + 1).last() == (
                cases@[i as int].0@,
                mir::stmts_view(cases@[i as int].1@),
            ));
            lemma_cases_lowered_keeps(all.take(i as int), lbl_prefix@, old(ctx)@);
        }
        let case = &cases[i];
        let value = lower_expr_to_value(&case.0, stmts, ctx);
        let true_lbl = case_label_of(lbl_prefix, i);
        let false_lbl = end_label_of(&true_lbl);
        emit(stmts, Stmt::Jnz(value, true_lbl.clone(), false_lbl.clone()));
        emit(stmts, lbl(true_lbl.as_str()));
        lower_stmts(&case.1, stmts, ctx);
        emit(stmts, Stmt::Jmp(end_lbl.clone()));
        emit(stmts, lbl(false_lbl.as_str()));
        assert(stmts_view(stmts@) =~= start + cases_lowered(
            all.take(i + 1),
            lbl_prefix@,
            old(ctx)@,
        ).1);
        i = i + 1;
    }
    assert(all.take(i as int) =~= all);
}

/// Lowers the declarations of a module, in order, to its functions.
pub fn lower_decls(decls: &Vec<mir::Decl>, ctx: &mut LoweringCtx) -> (lowered: Vec<Decl>)
    requires
        old(ctx).wf(),
    ensures
        final(ctx).wf(),
        final(ctx)@ == decls_lowered(mir::decls_view(decls@), old(ctx)@).0,
        decls_view(lowered@) == decls_lowered(mir::decls_view(decls@), old(ctx)@).1,
{
    let ghost all = mir::decls_view(decls@);
    let mut lowered: Vec<Decl> = Vec::new();
    let mut i: usize = 0;
    assert(all.take(0) =~= Seq::<mir::DeclView>::empty());
    assert(decls_view(lowered@) =~= Seq::<DeclView>::empty());
    while i < decls.len()
        invariant
            i <= decls.len(),
            all == mir::decls_view(decls@),
            ctx.wf(),
            ctx@ == decls_lowered(all.take(i as int), old(ctx)@).0,
            decls_view(lowered@) == decls_lowered(all.take(i as int), old(ctx)@).1,
        decreases decls.len() - i,
    {
        proof {
            assert(all.take(i + 1).drop_last() =~= all.take(i as int));
            assert(all.take(i + 1).last() == decls@[i as int]@);
        }
        match &decls[i] {
            mir::Decl::FuncDecl(name, visibility, ty, args, variadic, m_stmts) => {
                let mut stmts: Vec<Stmt> = Vec::new();
                emit(&mut stmts, lbl("start"));
                lower_stmts(m_stmts, &mut stmts, ctx);
                let ghost before = decls_view(lowered@);
                let func = Decl::FuncDecl(
                    name.clone(),
                    lower_visibility(visibility),
                    lower_opt_type(ty),
                    lower_args(args),
                    *variadic,
                    stmts,
                );
                proof {
                    let code = stmts_lowered(
                        mir::stmts_view(m_stmts@),
                        decls_lowered(all.take(i as int), old(ctx)@).0,
                    ).1;
                    assert(stmts_view(stmts@) =~= seq![StmtView::Lbl("start"@)] + code);
                }
                lowered.push(func);
                assert(decls_view(lowered@) =~= before.push(func@));
            },
            mir::Decl::FwdDecl(_, _, _, _, _) => {},
        }
        i = i + 1;
    }
    assert(all.take(i as int) =~= all);
    lowered
}

fn lower_module(module: &mir::Module) -> (unit: CompUnit)
    ensures
        unit@ == module_lowered(module@),
{
    let mut ctx = LoweringCtx::new(module.name.as_str());
    let mut funcs = lower_decls(&module.decls, &mut ctx);
    let mut decls = ctx.decls();
    let ghost data = decls_view(decls@);
    let ghost code = decls_view(funcs@);
    decls.append(&mut funcs);
    assert(decls_view(decls@) =~= data + code);
    CompUnit { name: module.name.clone(), decls }
}

/// Lowers modules to compilation units, one for each module, in order.
pub fn lower(modules: &[mir::Module]) -> (units: Vec<CompUnit>)
    ensures
        units_view(units@) == modules_lowered(mir::modules_view(modules@)),
{
    let mut units: Vec<CompUnit> = Vec::new();
    let mut i: usize = 0;
    while i < modules.len()
        invariant
            i <= modules.len(),
            units.len() == i,
            forall|j: int| 0 <= j < i ==> units@[j]@ == module_lowered(modules@[j]@),
        decreases modules.len() - i,
    {
        units.push(lower_module(&modules[i]));
        i = i + 1;
    }
    assert(units_view(units@) =~= modules_lowered(mir::modules_view(modules@)));
    units
}

} // verus!
