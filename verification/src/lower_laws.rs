//! Laws of lowering: what is passed by reference goes through a slot and is
//! read back after the statement that passed it.

use vstd::prelude::*;
use crate::lower::{
    bumped, framed, lemma_values_lowered_outer, let_local, local, read_back, stmt_lowered,
    type_lowered, value_lowered, values_lowered,
};
use crate::lower_lang::{ExprView, Scope, StmtView, Type, value_type};
use crate::lowering_context::{
    LoweringCtxView, TmpRefView, lemma_uniq_names_differ, uniq_name,
};
use crate::mir;

verus! {

/// The innermost frame of `after` begins with the innermost frame of `before`.
pub open spec fn frame_grew(before: LoweringCtxView, after: LoweringCtxView) -> bool {
    &&& before.tmp_refs.len() > 0
    &&& after.tmp_refs.len() == before.tmp_refs.len()
    &&& before.tmp_refs.last().len() <= after.tmp_refs.last().len()
    &&& after.tmp_refs.last().take(before.tmp_refs.last().len() as int) =~= before.tmp_refs.last()
}

proof fn lemma_frame_grew_step(a: LoweringCtxView, b: LoweringCtxView, c: LoweringCtxView)
    requires
        frame_grew(a, b),
        frame_grew(b, c),
    ensures
        frame_grew(a, c),
{
    let fa = a.tmp_refs.last();
    let fb = b.tmp_refs.last();
    let fc = c.tmp_refs.last();
    assert forall|i: int| 0 <= i < fa.len() implies fc[i] == fa[i] by {
        assert(fb.take(fa.len() as int)[i] == fa[i]);
        assert(fc.take(fb.len() as int)[i] == fb[i]);
    }
}

/// Lowering an expression to an operand only adds slots to the innermost frame.
pub proof fn lemma_value_frame(e: mir::ExprView, ctx: LoweringCtxView)
    requires
        ctx.tmp_refs.len() > 0,
    ensures
        frame_grew(ctx, value_lowered(e, ctx).0),
    decreases e,
{
    match e {
        mir::ExprView::Cmp(_, lhs, rhs) => {
            let ctx0 = bumped(ctx);
            let ctx1 = value_lowered(*lhs, ctx0).0;
            lemma_value_frame(*lhs, ctx0);
            lemma_value_frame(*rhs, ctx1);
            lemma_frame_grew_step(ctx0, ctx1, value_lowered(*rhs, ctx1).0);
        },
        mir::ExprView::FuncCall(_, _, args) => {
            lemma_values_frame(args, ctx);
        },
        mir::ExprView::Not(inner) => {
            lemma_value_frame(*inner, bumped(ctx));
        },
        _ => {},
    }
}

/// Lowering expressions to operands only adds slots to the innermost frame.
pub proof fn lemma_values_frame(es: Seq<mir::ExprView>, ctx: LoweringCtxView)
    requires
        ctx.tmp_refs.len() > 0,
    ensures
        frame_grew(ctx, values_lowered(es, ctx).0),
    decreases es,
{
    if es.len() > 0 {
        let ctx1 = values_lowered(es.drop_last(), ctx).0;
        lemma_values_frame(es.drop_last(), ctx);
        lemma_value_frame(es.last(), ctx1);
        lemma_frame_grew_step(ctx, ctx1, value_lowered(es.last(), ctx1).0);
    }
}

/// The operand of an argument that is a variable passed by reference is
/// the address of a slot that the frame holds for that variable.
pub proof fn lemma_by_ref_slot(es: Seq<mir::ExprView>, k: int, ctx: LoweringCtxView) -> (j: int)
    requires
        ctx.tmp_refs.len() > 0,
        0 <= k < es.len(),
        es[k] matches mir::ExprView::VarRef(_, _, by_ref) && by_ref,
    ensures
        ({
            let frame = values_lowered(es, ctx).0.tmp_refs.last();
            let values = values_lowered(es, ctx).2;
            &&& values.len() == es.len()
            &&& 0 <= j < frame.len()
            &&& es[k] matches mir::ExprView::VarRef(x, ty, _) && frame[j].1 == x && frame[j].2
                == type_lowered(ty)
            &&& values[k] == local(frame[j].0, Type::L)
        }),
    decreases es.len(),
{
    let front = es.drop_last();
    let ctx1 = values_lowered(front, ctx).0;
    lemma_values_lowered_outer(es, ctx);
    lemma_values_lowered_outer(front, ctx);
    lemma_value_frame(es.last(), ctx1);
    if k == es.len() - 1 {
        ctx1.tmp_refs.last().len() as int
    } else {
        let j = lemma_by_ref_slot(front, k, ctx);
        let frame1 = ctx1.tmp_refs.last();
        let frame = values_lowered(es, ctx).0.tmp_refs.last();
        assert(frame.take(frame1.len() as int)[j] == frame1[j]);
        j
    }
}

/// In `code`, the call at `call` passes the address of `slot` as its `k`-th
/// argument, and the statement at `load`, after the call, loads `slot` into
/// the variable `x` of type `ty`.
pub open spec fn read_back_after_call(
    code: Seq<StmtView>,
    call: int,
    load: int,
    name: Seq<char>,
    k: int,
    slot: Seq<char>,
    x: Seq<char>,
    ty: Type,
) -> bool {
    &&& 0 <= call < load < code.len()
    &&& code[call] matches StmtView::FuncCall(callee, values)
    &&& callee == name
    &&& 0 <= k < values.len()
    &&& values[k] == local(slot, Type::L)
    &&& code[load] == let_local(x, ExprView::Load(ty, ty, local(slot, Type::L)))
}

/// A variable that a call statement passes by reference is read back after
/// the call: the statement is lowered to the code of its arguments, the
/// call, and the loads of the slots of its frame; the operand at the
/// variable's place is the address of one of those slots, and the load of
/// that slot declares the variable anew.
pub proof fn lemma_by_ref_read_back(
    name: Seq<char>,
    args: Seq<mir::ExprView>,
    k: int,
    x: Seq<char>,
    ty: mir::Type,
    ctx: LoweringCtxView,
)
    requires
        0 <= k < args.len(),
        args[k] == mir::ExprView::VarRef(x, ty, true),
    ensures
        exists|call: int, load: int, slot: Seq<char>|
            read_back_after_call(
                stmt_lowered(mir::StmtView::FuncCall(name, args), ctx).1,
                call,
                load,
                name,
                k,
                slot,
                x,
                type_lowered(ty),
            ),
{
    let inner = framed(ctx);
    let j = lemma_by_ref_slot(args, k, inner);
    let code1 = values_lowered(args, inner).1;
    let values = values_lowered(args, inner).2;
    let frame = values_lowered(args, inner).0.tmp_refs.last();
    let code = stmt_lowered(mir::StmtView::FuncCall(name, args), ctx).1;
    assert(code =~= code1.push(StmtView::FuncCall(name, values)) + read_back(frame));
    assert(read_back_after_call(
        code,
        code1.len() as int,
        code1.len() + 1 + j,
        name,
        k,
        frame[j].0,
        x,
        type_lowered(ty),
    ));
}

/// In `code`, the declaration at `call` is of the result of a call that
/// passes the address of `slot` as its `k`-th argument, and the statement at
/// `load`, after the declaration, loads `slot` into the variable `x` of type `ty`.
pub open spec fn read_back_after_decl(
    code: Seq<StmtView>,
    call: int,
    load: int,
    name: Seq<char>,
    k: int,
    slot: Seq<char>,
    x: Seq<char>,
    ty: Type,
) -> bool {
    &&& 0 <= call < load < code.len()
    &&& code[call] matches StmtView::VarDecl(_, _, rhs)
    &&& rhs matches ExprView::FuncCall(callee, _, values)
    &&& callee == name
    &&& 0 <= k < values.len()
    &&& values[k] == local(slot, Type::L)
    &&& code[load] == let_local(x, ExprView::Load(ty, ty, local(slot, Type::L)))
}

/// A variable that the call of a declaration passes by reference is read
/// back after the declaration: the operand at the variable's place is the
/// address of a slot of the statement's frame, and the load of that slot,
/// after the declaration, declares the variable anew.
pub proof fn lemma_by_ref_read_back_decl(
    target: Seq<char>,
    name: Seq<char>,
    ret: mir::Type,
    args: Seq<mir::ExprView>,
    k: int,
    x: Seq<char>,
    ty: mir::Type,
    ctx: LoweringCtxView,
)
    requires
        0 <= k < args.len(),
        args[k] == mir::ExprView::VarRef(x, ty, true),
    ensures
        exists|call: int, load: int, slot: Seq<char>|
            read_back_after_decl(
                stmt_lowered(
                    mir::StmtView::VarDecl(target, mir::ExprView::FuncCall(name, ret, args)),
                    ctx,
                ).1,
                call,
                load,
                name,
                k,
                slot,
                x,
                type_lowered(ty),
            ),
{
    let inner = framed(ctx);
    let j = lemma_by_ref_slot(args, k, inner);
    let code1 = values_lowered(args, inner).1;
    let values = values_lowered(args, inner).2;
    let frame = values_lowered(args, inner).0.tmp_refs.last();
    let decl = let_local(target, ExprView::FuncCall(name, type_lowered(ret), values));
    let code = stmt_lowered(
        mir::StmtView::VarDecl(target, mir::ExprView::FuncCall(name, ret, args)),
        ctx,
    ).1;
    assert(code =~= code1.push(decl) + read_back(frame));
    assert(read_back_after_decl(
        code,
        code1.len() as int,
        code1.len() + 1 + j,
        name,
        k,
        frame[j].0,
        x,
        type_lowered(ty),
    ));
}

/// A variable that the call of a return passes by reference is read back
/// after the declaration of the call's result: the operand at the
/// variable's place is the address of a slot of the statement's frame, and
/// the load of that slot stands after the declaration.
pub proof fn lemma_by_ref_read_back_ret(
    name: Seq<char>,
    ret: mir::Type,
    args: Seq<mir::ExprView>,
    k: int,
    x: Seq<char>,
    ty: mir::Type,
    ctx: LoweringCtxView,
)
    requires
        0 <= k < args.len(),
        args[k] == mir::ExprView::VarRef(x, ty, true),
    ensures
        exists|call: int, load: int, slot: Seq<char>|
            read_back_after_decl(
                stmt_lowered(
                    mir::StmtView::Ret(Some(mir::ExprView::FuncCall(name, ret, args))),
                    ctx,
                ).1,
                call,
                load,
                name,
                k,
                slot,
                x,
                type_lowered(ty),
            ),
{
    let inner = framed(ctx);
    let j = lemma_by_ref_slot(args, k, inner);
    let (ctx1, code1, values) = values_lowered(args, inner);
    let frame = ctx1.tmp_refs.last();
    let tmp = uniq_name("arg"@, ctx1.uniq);
    let decl = let_local(tmp, ExprView::FuncCall(name, type_lowered(ret), values));
    let back = StmtView::Ret(Some(local(tmp, type_lowered(ret))));
    let code = stmt_lowered(
        mir::StmtView::Ret(Some(mir::ExprView::FuncCall(name, ret, args))),
        ctx,
    ).1;
    assert(code =~= code1.push(decl).push(back) + read_back(frame));
    assert(read_back_after_decl(
        code,
        code1.len() as int,
        code1.len() + 2 + j,
        name,
        k,
        frame[j].0,
        x,
        type_lowered(ty),
    ));
}

/// The argument is a constant or a variable: it is an operand as it stands.
pub open spec fn simple_arg(e: mir::ExprView) -> bool {
    !(e is Cmp) && !(e is Not) && !(e is FuncCall)
}

/// Every argument is a constant or a variable.
pub open spec fn simple_args(es: Seq<mir::ExprView>) -> bool {
    forall|i: int| 0 <= i < es.len() ==> simple_arg(#[trigger] es[i])
}

/// The slots of the variables that the arguments pass by reference, in the
/// order of the arguments, where `first` fresh names were handed out before.
pub open spec fn slots_of(es: Seq<mir::ExprView>, first: nat) -> Seq<TmpRefView>
    decreases es.len(),
{
    if es.len() == 0 {
        Seq::empty()
    } else {
        let front = slots_of(es.drop_last(), first);
        match es.last() {
            mir::ExprView::VarRef(x, ty, by_ref) => if by_ref {
                front.push((uniq_name("ref"@, first + front.len()), x, type_lowered(ty)))
            } else {
                front
            },
            _ => front,
        }
    }
}

/// The statements that make the slots: for each, in order, its allocation
/// and the store of its variable into it.
pub open spec fn slots_code(frame: Seq<TmpRefView>) -> Seq<StmtView>
    decreases frame.len(),
{
    if frame.len() == 0 {
        Seq::empty()
    } else {
        slots_code(frame.drop_last()) + seq![
            let_local(frame.last().0, ExprView::Alloc8(8)),
            StmtView::Store(
                frame.last().2,
                local(frame.last().1, frame.last().2),
                local(frame.last().0, Type::L),
            ),
        ]
    }
}

/// The slot at the place `j` has the fresh name with the number `first + j`.
pub proof fn lemma_slot_names(es: Seq<mir::ExprView>, first: nat, j: int)
    requires
        0 <= j < slots_of(es, first).len(),
    ensures
        slots_of(es, first)[j].0 == uniq_name("ref"@, (first + j) as nat),
    decreases es.len(),
{
    let front = slots_of(es.drop_last(), first);
    if j < front.len() {
        lemma_slot_names(es.drop_last(), first, j);
    }
}

/// No two slots of the arguments of a call have one name.
pub proof fn lemma_slots_distinct(es: Seq<mir::ExprView>, first: nat, i: int, j: int)
    requires
        0 <= i < j < slots_of(es, first).len(),
    ensures
        slots_of(es, first)[i].0 != slots_of(es, first)[j].0,
{
    lemma_slot_names(es, first, i);
    lemma_slot_names(es, first, j);
    lemma_uniq_names_differ("ref"@, (first + i) as nat, "ref"@, (first + j) as nat);
}

/// Arguments that are constants and variables are lowered to the code of
/// the slots of those that are passed by reference, and to nothing else:
/// the frame gets these slots, one fresh name is handed out for each, and
/// the operand of an argument that is passed by reference is the address
/// of its slot.
pub proof fn lemma_simple_args_lowered(es: Seq<mir::ExprView>, ctx: LoweringCtxView)
    requires
        simple_args(es),
        ctx.tmp_refs.len() > 0,
    ensures
        ({
            let slots = slots_of(es, ctx.uniq);
            let (after, code, values) = values_lowered(es, ctx);
            &&& code == slots_code(slots)
            &&& after.uniq == ctx.uniq + slots.len()
            &&& after.tmp_refs.len() == ctx.tmp_refs.len()
            &&& after.tmp_refs.last() == ctx.tmp_refs.last() + slots
            &&& values.len() == es.len()
            &&& forall|k: int|
                0 <= k < es.len() && (#[trigger] es[k] matches mir::ExprView::VarRef(_, _, by_ref)
                    && by_ref) ==> values[k] == local(
                    uniq_name("ref"@, ctx.uniq + slots_of(es.take(k), ctx.uniq).len()),
                    Type::L,
                )
        }),
    decreases es.len(),
{
    let slots = slots_of(es, ctx.uniq);
    let (after, code, values) = values_lowered(es, ctx);
    if es.len() == 0 {
        assert(ctx.tmp_refs.last() + slots =~= ctx.tmp_refs.last());
    } else {
        let front = es.drop_last();
        let last = es.last();
        assert(simple_args(front)) by {
            assert forall|i: int| 0 <= i < front.len() implies simple_arg(#[trigger] front[i]) by {
                assert(front[i] == es[i]);
            }
        }
        assert(simple_arg(last));
        lemma_simple_args_lowered(front, ctx);
        let front_slots = slots_of(front, ctx.uniq);
        let (ctx1, code1, values1) = values_lowered(front, ctx);
        let (ctx2, code2, v) = value_lowered(last, ctx1);
        assert(values == values1.push(v));
        match last {
            mir::ExprView::VarRef(x, ty, by_ref) => {
                if by_ref {
                    let slot = (uniq_name("ref"@, ctx1.uniq), x, type_lowered(ty));
                    assert(slots == front_slots.push(slot));
                    assert(slots.drop_last() =~= front_slots);
                    assert(code =~= slots_code(slots));
                    assert(after.tmp_refs.last() =~= ctx.tmp_refs.last() + slots);
                } else {
                    assert(code =~= code1);
                }
            },
            _ => {
                assert(code =~= code1);
            },
        }
        assert forall|k: int|
            0 <= k < es.len() && (#[trigger] es[k] matches mir::ExprView::VarRef(_, _, by_ref)
                && by_ref) implies values[k] == local(
            uniq_name("ref"@, ctx.uniq + slots_of(es.take(k), ctx.uniq).len()),
            Type::L,
        ) by {
            if k < es.len() - 1 {
                assert(front[k] == es[k]);
                assert(front.take(k) =~= es.take(k));
                assert(values[k] == values1[k]);
            } else {
                assert(es.take(k) =~= front);
            }
        }
    }
}

/// A call statement whose arguments are constants and variables is lowered
/// to the slots of the variables that it passes by reference, in the order
/// of the arguments, the call, and the loads of those slots in the same
/// order.
pub proof fn lemma_call_by_ref_shape(name: Seq<char>, args: Seq<mir::ExprView>, ctx: LoweringCtxView)
    requires
        simple_args(args),
    ensures
        ({
            let slots = slots_of(args, ctx.uniq);
            let values = values_lowered(args, framed(ctx)).2;
            stmt_lowered(mir::StmtView::FuncCall(name, args), ctx).1 == slots_code(slots) + seq![
                StmtView::FuncCall(name, values),
            ] + read_back(slots)
        }),
{
    let inner = framed(ctx);
    lemma_simple_args_lowered(args, inner);
    let slots = slots_of(args, ctx.uniq);
    let (after, code1, values) = values_lowered(args, inner);
    assert(after.tmp_refs.last() =~= slots);
    assert(stmt_lowered(mir::StmtView::FuncCall(name, args), ctx).1 =~= slots_code(slots) + seq![
        StmtView::FuncCall(name, values),
    ] + read_back(slots));
}

/// A declaration of the result of a call whose arguments are constants and
/// variables is lowered to the slots of the variables that the call passes
/// by reference, in the order of the arguments, the declaration, and the
/// loads of those slots in the same order.
pub proof fn lemma_decl_by_ref_shape(
    target: Seq<char>,
    name: Seq<char>,
    ret: mir::Type,
    args: Seq<mir::ExprView>,
    ctx: LoweringCtxView,
)
    requires
        simple_args(args),
    ensures
        ({
            let slots = slots_of(args, ctx.uniq);
            let values = values_lowered(args, framed(ctx)).2;
            stmt_lowered(
                mir::StmtView::VarDecl(target, mir::ExprView::FuncCall(name, ret, args)),
                ctx,
            ).1 == slots_code(slots) + seq![
                let_local(target, ExprView::FuncCall(name, type_lowered(ret), values)),
            ] + read_back(slots)
        }),
{
    let inner = framed(ctx);
    lemma_simple_args_lowered(args, inner);
    let slots = slots_of(args, ctx.uniq);
    let (after, code1, values) = values_lowered(args, inner);
    assert(after.tmp_refs.last() =~= slots);
    assert(stmt_lowered(
        mir::StmtView::VarDecl(target, mir::ExprView::FuncCall(name, ret, args)),
        ctx,
    ).1 =~= slots_code(slots) + seq![
        let_local(target, ExprView::FuncCall(name, type_lowered(ret), values)),
    ] + read_back(slots));
}

/// The expression is a variable that is passed by reference.
pub open spec fn is_by_ref(e: mir::ExprView) -> bool {
    e matches mir::ExprView::VarRef(_, _, by_ref) && by_ref
}

/// The operand of an expression has the lower type of the expression, or,
/// for a variable that is passed by reference, the type of an address. The
/// operand of a string constant is a name of the unit; every other operand
/// that is a name is one of the function. A constant and a variable that
/// is passed by value are operands as they stand: no statement is written
/// for them and no fresh name is handed out.
pub proof fn lemma_operand(e: mir::ExprView, ctx: LoweringCtxView)
    ensures
        ({
            let (after, code, v) = value_lowered(e, ctx);
            &&& value_type(v) == if is_by_ref(e) {
                Type::L
            } else {
                type_lowered(mir::type_of(e))
            }
            &&& e is ConstStr ==> v is VarRef && v->VarRef_2 == Scope::Global
            &&& !(e is ConstStr) && v is VarRef ==> v->VarRef_2 == Scope::Func
            &&& simple_arg(e) && !is_by_ref(e) ==> code == Seq::<StmtView>::empty() && after.uniq
                == ctx.uniq && after.tmp_refs == ctx.tmp_refs
        }),
{
}

} // verus!
