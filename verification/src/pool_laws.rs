//! Laws of the string pool: lowering a module gives every string literal of
//! the module one symbol and one data declaration.

use vstd::prelude::*;
use crate::lower::{
    bumped, cases_lowered, decls_lowered, expr_lowered, framed, lemma_cases_lowered_keeps,
    lemma_value_lowered_outer, lemma_values_lowered_outer, module_lowered, stmt_lowered,
    stmts_lowered, value_lowered, values_lowered,
};
use crate::lower_lang::DeclView;
use crate::lowering_context::{
    LoweringCtxView, initial, interned, lemma_interned, lemma_sorted_distinct, pool_decls,
    pool_distinct, pool_extends, pool_numbered, pool_sorted, pool_symbol, uniq_name,
};
use crate::mir;

verus! {

/// The literal occurs in the expression as a string constant.
pub open spec fn expr_mentions(e: mir::ExprView, lit: Seq<char>) -> bool
    decreases e,
{
    match e {
        mir::ExprView::Cmp(_, lhs, rhs) => expr_mentions(*lhs, lit) || expr_mentions(*rhs, lit),
        mir::ExprView::ConstStr(s) => s == lit,
        mir::ExprView::FuncCall(_, _, args) => exprs_mention(args, lit),
        mir::ExprView::Not(inner) => expr_mentions(*inner, lit),
        _ => false,
    }
}

/// The literal occurs in one of the expressions as a string constant.
pub open spec fn exprs_mention(es: Seq<mir::ExprView>, lit: Seq<char>) -> bool
    decreases es,
{
    exists|i: int| 0 <= i < es.len() && expr_mentions(#[trigger] es[i], lit)
}

/// The literal occurs in the statement as a string constant.
pub open spec fn stmt_mentions(s: mir::StmtView, lit: Seq<char>) -> bool
    decreases s,
{
    match s {
        mir::StmtView::Cond(cases) => cases_mention(cases, lit),
        mir::StmtView::FuncCall(_, args) => exprs_mention(args, lit),
        mir::StmtView::Ret(Some(value)) => expr_mentions(value, lit),
        mir::StmtView::Ret(None) => false,
        mir::StmtView::VarDecl(_, value) => expr_mentions(value, lit),
    }
}

/// The literal occurs in one of the statements as a string constant.
pub open spec fn stmts_mention(ss: Seq<mir::StmtView>, lit: Seq<char>) -> bool
    decreases ss,
{
    exists|i: int| 0 <= i < ss.len() && stmt_mentions(#[trigger] ss[i], lit)
}

/// The literal occurs in an arm, in its guard or in its body, as a string
/// constant.
pub open spec fn cases_mention(cases: Seq<(mir::ExprView, Seq<mir::StmtView>)>, lit: Seq<char>) -> bool
    decreases cases,
{
    exists|i: int|
        0 <= i < cases.len() && (expr_mentions((#[trigger] cases[i]).0, lit) || stmts_mention(
            cases[i].1,
            lit,
        ))
}

/// The literal occurs in the body of a function of the declarations.
pub open spec fn decls_mention(ds: Seq<mir::DeclView>, lit: Seq<char>) -> bool {
    exists|i: int|
        0 <= i < ds.len() && (#[trigger] ds[i] matches mir::DeclView::FuncDecl(_, _, body)
            && stmts_mention(body, lit))
}

/// The pool of the state is in order and its symbols are numbered.
pub open spec fn pool_ok(ctx: LoweringCtxView) -> bool {
    pool_sorted(ctx.pool) && pool_numbered(ctx.prefix, ctx.pool)
}

/// From `before` to `after` the pool stayed in order and numbered, and kept
/// every literal that it held under its symbol.
pub open spec fn pool_kept(before: LoweringCtxView, after: LoweringCtxView) -> bool {
    &&& pool_ok(after)
    &&& after.prefix == before.prefix
    &&& pool_extends(before.pool, after.pool)
}

proof fn lemma_pool_kept_step(a: LoweringCtxView, b: LoweringCtxView, c: LoweringCtxView)
    requires
        pool_kept(a, b),
        pool_kept(b, c),
    ensures
        pool_kept(a, c),
{
    assert forall|lit: Seq<char>| #[trigger]
        pool_symbol(a.pool, lit) is Some implies pool_symbol(c.pool, lit) == pool_symbol(
        a.pool,
        lit,
    ) by {
        assert(pool_symbol(b.pool, lit) == pool_symbol(a.pool, lit));
    }
}

/// What a pool holds, a pool that came of it holds.
proof fn lemma_pool_holds_on(a: LoweringCtxView, b: LoweringCtxView, lit: Seq<char>)
    requires
        pool_kept(a, b),
        pool_symbol(a.pool, lit) is Some,
    ensures
        pool_symbol(b.pool, lit) is Some,
{
}

proof fn lemma_value_pool(e: mir::ExprView, ctx: LoweringCtxView)
    requires
        pool_ok(ctx),
        ctx.tmp_refs.len() > 0,
    ensures
        pool_kept(ctx, value_lowered(e, ctx).0),
        forall|lit: Seq<char>| #[trigger]
            expr_mentions(e, lit) ==> pool_symbol(value_lowered(e, ctx).0.pool, lit) is Some,
    decreases e,
{
    let after = value_lowered(e, ctx).0;
    match e {
        mir::ExprView::Cmp(_, lhs, rhs) => {
            let ctx0 = bumped(ctx);
            let ctx1 = value_lowered(*lhs, ctx0).0;
            lemma_value_pool(*lhs, ctx0);
            lemma_value_lowered_outer(*lhs, ctx0);
            lemma_value_pool(*rhs, ctx1);
            lemma_pool_kept_step(ctx0, ctx1, after);
            assert forall|lit: Seq<char>| #[trigger] expr_mentions(e, lit) implies pool_symbol(
                after.pool,
                lit,
            ) is Some by {
                assert(expr_mentions(*lhs, lit) || expr_mentions(*rhs, lit));
                if expr_mentions(*lhs, lit) {
                    lemma_pool_holds_on(ctx1, after, lit);
                }
            }
        },
        mir::ExprView::ConstStr(s) => {
            lemma_interned(ctx, s);
            assert forall|lit: Seq<char>| #[trigger] expr_mentions(e, lit) implies pool_symbol(
                after.pool,
                lit,
            ) is Some by {
                assert(lit == s);
            }
        },
        mir::ExprView::FuncCall(_, _, args) => {
            lemma_values_pool(args, ctx);
            assert forall|lit: Seq<char>| #[trigger] expr_mentions(e, lit) implies pool_symbol(
                after.pool,
                lit,
            ) is Some by {
                assert(exprs_mention(args, lit));
            }
        },
        mir::ExprView::Not(inner) => {
            lemma_value_pool(*inner, bumped(ctx));
            assert forall|lit: Seq<char>| #[trigger] expr_mentions(e, lit) implies pool_symbol(
                after.pool,
                lit,
            ) is Some by {
                assert(expr_mentions(*inner, lit));
            }
        },
        _ => {
            assert forall|lit: Seq<char>| #[trigger] expr_mentions(e, lit) implies pool_symbol(
                after.pool,
                lit,
            ) is Some by {
                assert(!expr_mentions(e, lit));
            }
        },
    }
}

proof fn lemma_values_pool(es: Seq<mir::ExprView>, ctx: LoweringCtxView)
    requires
        pool_ok(ctx),
        ctx.tmp_refs.len() > 0,
    ensures
        pool_kept(ctx, values_lowered(es, ctx).0),
        forall|lit: Seq<char>| #[trigger]
            exprs_mention(es, lit) ==> pool_symbol(values_lowered(es, ctx).0.pool, lit) is Some,
    decreases es,
{
    if es.len() > 0 {
        let front = es.drop_last();
        let ctx1 = values_lowered(front, ctx).0;
        let after = values_lowered(es, ctx).0;
        lemma_values_pool(front, ctx);
        lemma_values_lowered_outer(front, ctx);
        lemma_value_pool(es.last(), ctx1);
        lemma_pool_kept_step(ctx, ctx1, after);
        assert forall|lit: Seq<char>| #[trigger] exprs_mention(es, lit) implies pool_symbol(
            after.pool,
            lit,
        ) is Some by {
            let i = choose|i: int| 0 <= i < es.len() && expr_mentions(#[trigger] es[i], lit);
            if i < es.len() - 1 {
                assert(front[i] == es[i]);
                assert(exprs_mention(front, lit));
                lemma_pool_holds_on(ctx1, after, lit);
            }
        }
    }
}

proof fn lemma_expr_pool(e: mir::ExprView, ctx: LoweringCtxView)
    requires
        pool_ok(ctx),
        ctx.tmp_refs.len() > 0,
    ensures
        pool_kept(ctx, expr_lowered(e, ctx).0),
        forall|lit: Seq<char>| #[trigger]
            expr_mentions(e, lit) ==> pool_symbol(expr_lowered(e, ctx).0.pool, lit) is Some,
{
    let after = expr_lowered(e, ctx).0;
    match e {
        mir::ExprView::Cmp(_, lhs, rhs) => {
            let ctx1 = value_lowered(*lhs, ctx).0;
            lemma_value_pool(*lhs, ctx);
            lemma_value_lowered_outer(*lhs, ctx);
            lemma_value_pool(*rhs, ctx1);
            lemma_pool_kept_step(ctx, ctx1, after);
            assert forall|lit: Seq<char>| #[trigger] expr_mentions(e, lit) implies pool_symbol(
                after.pool,
                lit,
            ) is Some by {
                assert(expr_mentions(*lhs, lit) || expr_mentions(*rhs, lit));
                if expr_mentions(*lhs, lit) {
                    lemma_pool_holds_on(ctx1, after, lit);
                }
            }
        },
        mir::ExprView::FuncCall(_, _, args) => {
            lemma_values_pool(args, ctx);
            assert forall|lit: Seq<char>| #[trigger] expr_mentions(e, lit) implies pool_symbol(
                after.pool,
                lit,
            ) is Some by {
                assert(exprs_mention(args, lit));
            }
        },
        mir::ExprView::Not(inner) => {
            lemma_value_pool(*inner, ctx);
            assert forall|lit: Seq<char>| #[trigger] expr_mentions(e, lit) implies pool_symbol(
                after.pool,
                lit,
            ) is Some by {
                assert(expr_mentions(*inner, lit));
            }
        },
        _ => {
            lemma_value_pool(e, ctx);
        },
    }
}

proof fn lemma_stmt_pool(s: mir::StmtView, ctx: LoweringCtxView)
    requires
        pool_ok(ctx),
    ensures
        pool_kept(ctx, stmt_lowered(s, ctx).0),
        forall|lit: Seq<char>| #[trigger]
            stmt_mentions(s, lit) ==> pool_symbol(stmt_lowered(s, ctx).0.pool, lit) is Some,
    decreases s,
{
    let inner = framed(ctx);
    let after = stmt_lowered(s, ctx).0;
    match s {
        mir::StmtView::Cond(cases) => {
            lemma_cases_pool(cases, uniq_name("cond"@, inner.uniq), bumped(inner));
            assert forall|lit: Seq<char>| #[trigger] stmt_mentions(s, lit) implies pool_symbol(
                after.pool,
                lit,
            ) is Some by {
                assert(cases_mention(cases, lit));
            }
        },
        mir::StmtView::FuncCall(_, args) => {
            lemma_values_pool(args, inner);
            assert forall|lit: Seq<char>| #[trigger] stmt_mentions(s, lit) implies pool_symbol(
                after.pool,
                lit,
            ) is Some by {
                assert(exprs_mention(args, lit));
            }
        },
        mir::StmtView::Ret(Some(value)) => {
            lemma_value_pool(value, inner);
            assert forall|lit: Seq<char>| #[trigger] stmt_mentions(s, lit) implies pool_symbol(
                after.pool,
                lit,
            ) is Some by {
                assert(expr_mentions(value, lit));
            }
        },
        mir::StmtView::Ret(None) => {},
        mir::StmtView::VarDecl(_, value) => {
            lemma_expr_pool(value, inner);
            assert forall|lit: Seq<char>| #[trigger] stmt_mentions(s, lit) implies pool_symbol(
                after.pool,
                lit,
            ) is Some by {
                assert(expr_mentions(value, lit));
            }
        },
    }
}

proof fn lemma_stmts_pool(ss: Seq<mir::StmtView>, ctx: LoweringCtxView)
    requires
        pool_ok(ctx),
    ensures
        pool_kept(ctx, stmts_lowered(ss, ctx).0),
        forall|lit: Seq<char>| #[trigger]
            stmts_mention(ss, lit) ==> pool_symbol(stmts_lowered(ss, ctx).0.pool, lit) is Some,
    decreases ss,
{
    if ss.len() > 0 {
        let front = ss.drop_last();
        let ctx1 = stmts_lowered(front, ctx).0;
        let after = stmts_lowered(ss, ctx).0;
        lemma_stmts_pool(front, ctx);
        lemma_stmt_pool(ss.last(), ctx1);
        lemma_pool_kept_step(ctx, ctx1, after);
        assert forall|lit: Seq<char>| #[trigger] stmts_mention(ss, lit) implies pool_symbol(
            after.pool,
            lit,
        ) is Some by {
            let i = choose|i: int| 0 <= i < ss.len() && stmt_mentions(#[trigger] ss[i], lit);
            if i < ss.len() - 1 {
                assert(front[i] == ss[i]);
                assert(stmts_mention(front, lit));
                lemma_pool_holds_on(ctx1, after, lit);
            }
        }
    }
}

proof fn lemma_cases_pool(
    cases: Seq<(mir::ExprView, Seq<mir::StmtView>)>,
    prefix: Seq<char>,
    ctx: LoweringCtxView,
)
    requires
        pool_ok(ctx),
        ctx.tmp_refs.len() > 0,
    ensures
        pool_kept(ctx, cases_lowered(cases, prefix, ctx).0),
        forall|lit: Seq<char>| #[trigger]
            cases_mention(cases, lit) ==> pool_symbol(
                cases_lowered(cases, prefix, ctx).0.pool,
                lit,
            ) is Some,
    decreases cases,
{
    if cases.len() > 0 {
        let front = cases.drop_last();
        let ctx1 = cases_lowered(front, prefix, ctx).0;
        lemma_cases_pool(front, prefix, ctx);
        lemma_cases_lowered_keeps(front, prefix, ctx);
        let ctx2 = value_lowered(cases.last().0, ctx1).0;
        lemma_value_pool(cases.last().0, ctx1);
        let ctx3 = stmts_lowered(cases.last().1, ctx2).0;
        lemma_stmts_pool(cases.last().1, ctx2);
        lemma_pool_kept_step(ctx1, ctx2, ctx3);
        lemma_pool_kept_step(ctx, ctx1, ctx3);
        assert forall|lit: Seq<char>| #[trigger] cases_mention(cases, lit) implies pool_symbol(
            ctx3.pool,
            lit,
        ) is Some by {
            let i = choose|i: int|
                0 <= i < cases.len() && (expr_mentions((#[trigger] cases[i]).0, lit)
                    || stmts_mention(cases[i].1, lit));
            if i < cases.len() - 1 {
                assert(front[i] == cases[i]);
                assert(cases_mention(front, lit));
                lemma_pool_holds_on(ctx1, ctx3, lit);
            } else if expr_mentions(cases.last().0, lit) {
                lemma_pool_holds_on(ctx2, ctx3, lit);
            }
        }
    }
}

proof fn lemma_decls_pool(ds: Seq<mir::DeclView>, ctx: LoweringCtxView)
    requires
        pool_ok(ctx),
    ensures
        pool_kept(ctx, decls_lowered(ds, ctx).0),
        forall|lit: Seq<char>| #[trigger]
            decls_mention(ds, lit) ==> pool_symbol(decls_lowered(ds, ctx).0.pool, lit) is Some,
    decreases ds.len(),
{
    if ds.len() > 0 {
        let front = ds.drop_last();
        let ctx1 = decls_lowered(front, ctx).0;
        let after = decls_lowered(ds, ctx).0;
        lemma_decls_pool(front, ctx);
        match ds.last() {
            mir::DeclView::FwdDecl(_, _) => {},
            mir::DeclView::FuncDecl(_, _, body) => {
                lemma_stmts_pool(body, ctx1);
                lemma_pool_kept_step(ctx, ctx1, after);
            },
        }
        assert forall|lit: Seq<char>| #[trigger] decls_mention(ds, lit) implies pool_symbol(
            after.pool,
            lit,
        ) is Some by {
            let i = choose|i: int|
                0 <= i < ds.len() && (#[trigger] ds[i] matches mir::DeclView::FuncDecl(_, _, body)
                    && stmts_mention(body, lit));
            if i < ds.len() - 1 {
                assert(front[i] == ds[i]);
                assert(decls_mention(front, lit));
                lemma_pool_holds_on(ctx1, after, lit);
            }
        }
    }
}

/// Every string literal of a module gets exactly one data declaration: the
/// unit of the module begins with the data of its pool, one declaration for
/// each entry; the pool is in the order of its literals, and holds no
/// literal twice and no symbol twice; and it holds every literal that occurs
/// in a function of the module.
pub proof fn lemma_pool_uniqueness(m: mir::ModuleView)
    ensures
        ({
            let ctx = decls_lowered(m.decls, initial(m.name)).0;
            &&& module_lowered(m).decls.take(ctx.pool.len() as int) == pool_decls(ctx.pool)
            &&& pool_sorted(ctx.pool)
            &&& pool_distinct(ctx.pool)
            &&& pool_numbered(m.name, ctx.pool)
            &&& forall|lit: Seq<char>| #[trigger]
                decls_mention(m.decls, lit) ==> pool_symbol(ctx.pool, lit) is Some
        }),
{
    let start = initial(m.name);
    lemma_decls_pool(m.decls, start);
    let ctx = decls_lowered(m.decls, start).0;
    let funcs = decls_lowered(m.decls, start).1;
    assert((pool_decls(ctx.pool) + funcs).take(ctx.pool.len() as int) =~= pool_decls(ctx.pool));
    lemma_sorted_distinct(ctx.pool);
}

/// Identical literals share a symbol: a literal that a pool holds is
/// interned, in that pool and in every pool that came of it, under the
/// symbol that it has.
pub proof fn lemma_literal_shares_symbol(
    before: Seq<(Seq<char>, Seq<char>)>,
    later: LoweringCtxView,
    lit: Seq<char>,
)
    requires
        pool_symbol(before, lit) is Some,
        pool_extends(before, later.pool),
    ensures
        Some(interned(later, lit).0) == pool_symbol(before, lit),
        interned(later, lit).1 == later,
{
}

} // verus!
