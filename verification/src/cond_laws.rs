//! Laws of conditionals: the labels of lowered code are all different, so
//! every jump has one target, and the jumps of a conditional lead where its
//! arms say.

use vstd::prelude::*;
use crate::lower::{
    bumped, case_label, cases_lowered, end_label, expr_lowered, framed, read_back,
    stmt_body_lowered, stmt_lowered, stmts_lowered, value_lowered, values_lowered,
};
use crate::lower_lang::StmtView;
use crate::lowering_context::{LoweringCtxView, uniq_name};
use crate::mir;
use crate::text::{
    decimal, is_digit, lemma_decimal_digits, lemma_decimal_injective, lemma_digits_at_start,
    lemma_same_beginning,
};

verus! {

/// Which label of a conditional: its end, the beginning of an arm, or the
/// end of an arm.
pub enum Which {
    End,
    Case(nat),
    CaseEnd(nat),
}

/// The label of the conditional whose fresh name has the number `n`.
pub open spec fn cond_label(n: nat, which: Which) -> Seq<char> {
    match which {
        Which::End => end_label(uniq_name("cond"@, n)),
        Which::Case(i) => case_label(uniq_name("cond"@, n), i),
        Which::CaseEnd(i) => end_label(case_label(uniq_name("cond"@, n), i)),
    }
}

/// What follows the number in a label of a conditional.
pub open spec fn label_tail(which: Which) -> Seq<char> {
    match which {
        Which::End => "_end"@,
        Which::Case(i) => "_case_"@ + decimal(i),
        Which::CaseEnd(i) => "_case_"@ + decimal(i) + "_end"@,
    }
}

proof fn lemma_cond_label_parts(n: nat, which: Which)
    ensures
        cond_label(n, which) == (".."@ + "cond"@ + ".."@) + (decimal(n) + label_tail(which)),
        label_tail(which).len() > 0,
        label_tail(which)[0] == '_',
{
    reveal_strlit("_end");
    reveal_strlit("_case_");
    let head = ".."@ + "cond"@ + ".."@;
    assert(cond_label(n, which) =~= head + (decimal(n) + label_tail(which)));
}

proof fn lemma_label_tail_injective(w1: Which, w2: Which)
    requires
        label_tail(w1) == label_tail(w2),
    ensures
        w1 == w2,
{
    reveal_strlit("_end");
    reveal_strlit("_case_");
    let case = "_case_"@;
    let end = "_end"@;
    match (w1, w2) {
        (Which::End, Which::End) => {},
        (Which::End, Which::Case(j)) => {
            assert(label_tail(w1)[1] == 'e');
            assert(label_tail(w2)[1] == 'c');
        },
        (Which::End, Which::CaseEnd(j)) => {
            assert(label_tail(w1)[1] == 'e');
            assert(label_tail(w2)[1] == 'c');
        },
        (Which::Case(i), Which::End) => {
            assert(label_tail(w2)[1] == 'e');
            assert(label_tail(w1)[1] == 'c');
        },
        (Which::CaseEnd(i), Which::End) => {
            assert(label_tail(w2)[1] == 'e');
            assert(label_tail(w1)[1] == 'c');
        },
        (Which::Case(i), Which::Case(j)) => {
            lemma_same_beginning(case, decimal(i), decimal(j));
            lemma_decimal_injective(i, j);
        },
        (Which::Case(i), Which::CaseEnd(j)) => {
            assert(label_tail(w2) =~= case + (decimal(j) + end));
            lemma_same_beginning(case, decimal(i), decimal(j) + end);
            lemma_decimal_digits(i);
            let whole = decimal(j) + end;
            assert(whole.last() == 'd');
            assert(is_digit(decimal(i)[decimal(i).len() - 1]));
        },
        (Which::CaseEnd(i), Which::Case(j)) => {
            assert(label_tail(w1) =~= case + (decimal(i) + end));
            lemma_same_beginning(case, decimal(i) + end, decimal(j));
            lemma_decimal_digits(j);
            let whole = decimal(i) + end;
            assert(whole.last() == 'd');
            assert(is_digit(decimal(j)[decimal(j).len() - 1]));
        },
        (Which::CaseEnd(i), Which::CaseEnd(j)) => {
            assert(label_tail(w1) =~= case + (decimal(i) + end));
            assert(label_tail(w2) =~= case + (decimal(j) + end));
            lemma_same_beginning(case, decimal(i) + end, decimal(j) + end);
            lemma_decimal_digits(i);
            lemma_decimal_digits(j);
            lemma_digits_at_start(decimal(i), end, decimal(j), end);
            lemma_decimal_injective(i, j);
        },
    }
}

/// Different labels of conditionals are different texts: a label tells the
/// number of its conditional and which of its labels it is.
pub proof fn lemma_cond_label_injective(n1: nat, w1: Which, n2: nat, w2: Which)
    requires
        cond_label(n1, w1) == cond_label(n2, w2),
    ensures
        n1 == n2,
        w1 == w2,
{
    lemma_cond_label_parts(n1, w1);
    lemma_cond_label_parts(n2, w2);
    let head = ".."@ + "cond"@ + ".."@;
    lemma_same_beginning(head, decimal(n1) + label_tail(w1), decimal(n2) + label_tail(w2));
    lemma_decimal_digits(n1);
    lemma_decimal_digits(n2);
    lemma_digits_at_start(decimal(n1), label_tail(w1), decimal(n2), label_tail(w2));
    lemma_decimal_injective(n1, n2);
    lemma_label_tail_injective(w1, w2);
}

/// No label of a conditional is the label at which a function starts.
pub proof fn lemma_cond_label_not_start(n: nat, which: Which)
    ensures
        cond_label(n, which) != "start"@,
{
    lemma_cond_label_parts(n, which);
    reveal_strlit("..");
    reveal_strlit("start");
    let head = ".."@ + "cond"@ + ".."@;
    assert(cond_label(n, which)[0] == head[0]);
    assert(head[0] == '.');
}

/// The text is a label of a conditional.
pub open spec fn is_cond_label(l: Seq<char>) -> bool {
    exists|id: (nat, Which)| l == cond_label(id.0, id.1)
}

/// The number of the conditional of a label, and which of its labels it is.
pub open spec fn label_id(l: Seq<char>) -> (nat, Which) {
    choose|id: (nat, Which)| l == cond_label(id.0, id.1)
}

/// A label of a conditional tells its number and which label it is.
pub proof fn lemma_label_id(n: nat, which: Which)
    ensures
        is_cond_label(cond_label(n, which)),
        label_id(cond_label(n, which)) == (n, which),
{
    let l = cond_label(n, which);
    let id = (n, which);
    assert(l == cond_label(id.0, id.1));
    let got = label_id(l);
    lemma_cond_label_injective(got.0, got.1, n, which);
}

/// The label of a conditional with a number from `lo` up to, but not, `hi`.
pub open spec fn nested_label(l: Seq<char>, lo: nat, hi: nat) -> bool {
    is_cond_label(l) && lo <= label_id(l).0 < hi
}

/// Where a label of an arm stands among the labels of the arms of its
/// conditional, in the order in which lowering writes them.
pub open spec fn arm_index(which: Which) -> int {
    match which {
        Which::End => -1,
        Which::Case(i) => 2 * (i as int),
        Which::CaseEnd(i) => 2 * (i as int) + 1,
    }
}

/// The label of an arm of the conditional with the number `n`, one of those
/// that stand at `from` up to, but not at, `to`.
pub open spec fn arm_label(l: Seq<char>, n: nat, from: int, to: int) -> bool {
    is_cond_label(l) && label_id(l).0 == n && 0 <= from <= arm_index(label_id(l).1) < to
}

/// The statement keeps to the straight line: it declares, stores or calls.
pub open spec fn is_plain(s: StmtView) -> bool {
    s is VarDecl || s is Store || s is FuncCall
}

/// Every statement of the code keeps to the straight line.
pub open spec fn all_plain(code: Seq<StmtView>) -> bool {
    forall|p: int| 0 <= p < code.len() ==> is_plain(#[trigger] code[p])
}

/// Every label in the code is of a conditional numbered from `lo` up to `hi`.
pub open spec fn labels_within(code: Seq<StmtView>, lo: nat, hi: nat) -> bool {
    forall|p: int|
        0 <= p < code.len() && (#[trigger] code[p]) is Lbl ==> nested_label(code[p]->Lbl_0, lo, hi)
}

/// Every label in the code is of an arm, from `from` up to `to`, of the
/// conditional numbered `n`, or of a conditional numbered from `lo` up to `hi`.
pub open spec fn arm_labels_within(
    code: Seq<StmtView>,
    n: nat,
    from: int,
    to: int,
    lo: nat,
    hi: nat,
) -> bool {
    forall|p: int|
        0 <= p < code.len() && (#[trigger] code[p]) is Lbl ==> nested_label(code[p]->Lbl_0, lo, hi)
            || arm_label(code[p]->Lbl_0, n, from, to)
}

/// No statement of the code is a label.
pub open spec fn no_labels(code: Seq<StmtView>) -> bool {
    forall|p: int| 0 <= p < code.len() ==> !((#[trigger] code[p]) is Lbl)
}

/// No two labels in the code are the same.
pub open spec fn labels_unique(code: Seq<StmtView>) -> bool {
    forall|p: int, q: int|
        0 <= p < q < code.len() && (#[trigger] code[p]) is Lbl && (#[trigger] code[q]) is Lbl
            ==> code[p] != code[q]
}

proof fn lemma_plain_has_no_labels(code: Seq<StmtView>)
    requires
        all_plain(code),
    ensures
        no_labels(code),
{
}

proof fn lemma_no_labels(code: Seq<StmtView>, n: nat, from: int, to: int, lo: nat, hi: nat)
    requires
        no_labels(code),
    ensures
        labels_within(code, lo, hi),
        arm_labels_within(code, n, from, to, lo, hi),
        labels_unique(code),
{
}

proof fn lemma_no_labels_concat(a: Seq<StmtView>, b: Seq<StmtView>)
    requires
        no_labels(a),
        no_labels(b),
    ensures
        no_labels(a + b),
{
    assert forall|p: int| 0 <= p < (a + b).len() implies !((#[trigger] (a + b)[p]) is Lbl) by {
        if p < a.len() {
            assert((a + b)[p] == a[p]);
        } else {
            assert((a + b)[p] == b[p - a.len()]);
        }
    }
}

proof fn lemma_all_plain_concat(a: Seq<StmtView>, b: Seq<StmtView>)
    requires
        all_plain(a),
        all_plain(b),
    ensures
        all_plain(a + b),
{
    assert forall|p: int| 0 <= p < (a + b).len() implies is_plain(#[trigger] (a + b)[p]) by {
        if p < a.len() {
            assert((a + b)[p] == a[p]);
        } else {
            assert((a + b)[p] == b[p - a.len()]);
        }
    }
}

/// Code whose second part has later labels than its first has no label
/// twice: the labels of the arms of the second part stand after those of the
/// first, and its other labels have numbers after those of the first.
proof fn lemma_arm_labels_concat(
    a: Seq<StmtView>,
    b: Seq<StmtView>,
    n: nat,
    from: int,
    mid_arm: int,
    to: int,
    lo: nat,
    mid: nat,
    hi: nat,
)
    requires
        n < lo <= mid <= hi,
        0 <= from <= mid_arm <= to,
        arm_labels_within(a, n, from, mid_arm, lo, mid),
        arm_labels_within(b, n, mid_arm, to, mid, hi),
        labels_unique(a),
        labels_unique(b),
    ensures
        arm_labels_within(a + b, n, from, to, lo, hi),
        labels_unique(a + b),
{
    let c = a + b;
    assert forall|p: int| 0 <= p < c.len() && (#[trigger] c[p]) is Lbl implies nested_label(
        c[p]->Lbl_0,
        lo,
        hi,
    ) || arm_label(c[p]->Lbl_0, n, from, to) by {
        if p < a.len() {
            assert(c[p] == a[p]);
        } else {
            assert(c[p] == b[p - a.len()]);
        }
    }
    assert forall|p: int, q: int|
        0 <= p < q < c.len() && (#[trigger] c[p]) is Lbl && (#[trigger] c[q]) is Lbl implies c[p]
        != c[q] by {
        if q < a.len() {
            assert(c[p] == a[p] && c[q] == a[q]);
        } else if p >= a.len() {
            assert(c[p] == b[p - a.len()] && c[q] == b[q - a.len()]);
        } else {
            assert(c[p] == a[p] && c[q] == b[q - a.len()]);
            let la = a[p]->Lbl_0;
            let lb = b[q - a.len()]->Lbl_0;
            assert(nested_label(la, lo, mid) || arm_label(la, n, from, mid_arm));
            assert(nested_label(lb, mid, hi) || arm_label(lb, n, mid_arm, to));
        }
    }
}

/// Code whose parts have their labels in ranges that follow each other has
/// its labels in the whole range, and no label twice.
proof fn lemma_labels_concat(a: Seq<StmtView>, b: Seq<StmtView>, lo: nat, mid: nat, hi: nat)
    requires
        lo <= mid <= hi,
        labels_within(a, lo, mid),
        labels_within(b, mid, hi),
        labels_unique(a),
        labels_unique(b),
    ensures
        labels_within(a + b, lo, hi),
        labels_unique(a + b),
{
    let c = a + b;
    assert forall|p: int| 0 <= p < c.len() && (#[trigger] c[p]) is Lbl implies nested_label(
        c[p]->Lbl_0,
        lo,
        hi,
    ) by {
        if p < a.len() {
            assert(c[p] == a[p]);
        } else {
            assert(c[p] == b[p - a.len()]);
        }
    }
    assert forall|p: int, q: int|
        0 <= p < q < c.len() && (#[trigger] c[p]) is Lbl && (#[trigger] c[q]) is Lbl implies c[p]
        != c[q] by {
        if q < a.len() {
            assert(c[p] == a[p] && c[q] == a[q]);
        } else if p >= a.len() {
            assert(c[p] == b[p - a.len()] && c[q] == b[q - a.len()]);
        } else {
            assert(c[p] == a[p] && c[q] == b[q - a.len()]);
            assert(nested_label(a[p]->Lbl_0, lo, mid));
            assert(nested_label(b[q - a.len()]->Lbl_0, mid, hi));
        }
    }
}

/// The code of an operand keeps to the straight line, and fresh names are
/// only handed out, never taken back.
pub proof fn lemma_value_code(e: mir::ExprView, ctx: LoweringCtxView)
    ensures
        all_plain(value_lowered(e, ctx).1),
        ctx.uniq <= value_lowered(e, ctx).0.uniq,
    decreases e,
{
    match e {
        mir::ExprView::Cmp(_, lhs, rhs) => {
            let ctx1 = value_lowered(*lhs, bumped(ctx)).0;
            lemma_value_code(*lhs, bumped(ctx));
            lemma_value_code(*rhs, ctx1);
            let code1 = value_lowered(*lhs, bumped(ctx)).1;
            let code2 = value_lowered(*rhs, ctx1).1;
            lemma_all_plain_concat(code1, code2);
            let last = value_lowered(e, ctx).1.last();
            assert(is_plain(last));
            lemma_all_plain_concat(code1 + code2, seq![last]);
            assert(value_lowered(e, ctx).1 =~= code1 + code2 + seq![last]);
        },
        mir::ExprView::FuncCall(_, _, args) => {
            lemma_values_code(args, ctx);
            let code1 = values_lowered(args, ctx).1;
            let last = value_lowered(e, ctx).1.last();
            assert(is_plain(last));
            lemma_all_plain_concat(code1, seq![last]);
            assert(value_lowered(e, ctx).1 =~= code1 + seq![last]);
        },
        mir::ExprView::Not(inner) => {
            lemma_value_code(*inner, bumped(ctx));
            let code1 = value_lowered(*inner, bumped(ctx)).1;
            let last = value_lowered(e, ctx).1.last();
            assert(is_plain(last));
            lemma_all_plain_concat(code1, seq![last]);
            assert(value_lowered(e, ctx).1 =~= code1 + seq![last]);
        },
        _ => {},
    }
}

/// The code of operands keeps to the straight line.
pub proof fn lemma_values_code(es: Seq<mir::ExprView>, ctx: LoweringCtxView)
    ensures
        all_plain(values_lowered(es, ctx).1),
        ctx.uniq <= values_lowered(es, ctx).0.uniq,
    decreases es,
{
    if es.len() > 0 {
        let ctx1 = values_lowered(es.drop_last(), ctx).0;
        lemma_values_code(es.drop_last(), ctx);
        lemma_value_code(es.last(), ctx1);
        lemma_all_plain_concat(values_lowered(es.drop_last(), ctx).1, value_lowered(es.last(), ctx1).1);
    }
}

/// The code of the operands of a right-hand side keeps to the straight line.
pub proof fn lemma_expr_code(e: mir::ExprView, ctx: LoweringCtxView)
    ensures
        all_plain(expr_lowered(e, ctx).1),
        ctx.uniq <= expr_lowered(e, ctx).0.uniq,
{
    match e {
        mir::ExprView::Cmp(_, lhs, rhs) => {
            let ctx1 = value_lowered(*lhs, ctx).0;
            lemma_value_code(*lhs, ctx);
            lemma_value_code(*rhs, ctx1);
            lemma_all_plain_concat(value_lowered(*lhs, ctx).1, value_lowered(*rhs, ctx1).1);
        },
        mir::ExprView::FuncCall(_, _, args) => {
            lemma_values_code(args, ctx);
        },
        mir::ExprView::Not(inner) => {
            lemma_value_code(*inner, ctx);
        },
        _ => {
            lemma_value_code(e, ctx);
        },
    }
}

/// The labels of the code of a statement are of conditionals whose numbers
/// were handed out while it was lowered, and no two of them are the same.
pub proof fn lemma_stmt_labels(s: mir::StmtView, ctx: LoweringCtxView)
    ensures
        ctx.uniq <= stmt_lowered(s, ctx).0.uniq,
        labels_within(stmt_lowered(s, ctx).1, ctx.uniq, stmt_lowered(s, ctx).0.uniq),
        labels_unique(stmt_lowered(s, ctx).1),
    decreases s,
{
    let inner = framed(ctx);
    let after = stmt_body_lowered(s, inner).0;
    let body = stmt_body_lowered(s, inner).1;
    let loads = read_back(after.tmp_refs.last());
    let code = stmt_lowered(s, ctx).1;
    assert(code == body + loads);
    assert(no_labels(loads));
    match s {
        mir::StmtView::Cond(cases) => {
            let n = inner.uniq;
            lemma_cases_labels(cases, n, bumped(inner));
            let arms = cases_lowered(cases, uniq_name("cond"@, n), bumped(inner)).1;
            let end = seq![StmtView::Lbl(cond_label(n, Which::End))];
            lemma_label_id(n, Which::End);
            assert(body =~= arms + end);
            assert(labels_unique(end));
            assert forall|p: int, q: int|
                0 <= p < q < body.len() && (#[trigger] body[p]) is Lbl && (#[trigger] body[q]) is Lbl
                implies body[p] != body[q] by {
                if q < arms.len() {
                    assert(body[p] == arms[p] && body[q] == arms[q]);
                } else {
                    assert(body[p] == arms[p]);
                    let l = arms[p]->Lbl_0;
                    assert(nested_label(l, (n + 1) as nat, after.uniq) || arm_label(
                        l,
                        n,
                        0,
                        2 * (cases.len() as int),
                    ));
                }
            }
            assert forall|p: int| 0 <= p < body.len() && (#[trigger] body[p]) is Lbl implies nested_label(
                body[p]->Lbl_0,
                n,
                after.uniq,
            ) by {
                if p < arms.len() {
                    assert(body[p] == arms[p]);
                    let l = arms[p]->Lbl_0;
                    assert(nested_label(l, (n + 1) as nat, after.uniq) || arm_label(
                        l,
                        n,
                        0,
                        2 * (cases.len() as int),
                    ));
                }
            }
            lemma_no_labels(loads, 0, 0, 0, after.uniq, after.uniq);
            lemma_labels_concat(body, loads, n, after.uniq, after.uniq);
        },
        mir::StmtView::FuncCall(_, args) => {
            lemma_values_code(args, inner);
            lemma_plain_has_no_labels(values_lowered(args, inner).1);
            assert(no_labels(body));
            lemma_no_labels_concat(body, loads);
            lemma_no_labels(code, 0, 0, 0, ctx.uniq, stmt_lowered(s, ctx).0.uniq);
        },
        mir::StmtView::Ret(Some(value)) => {
            lemma_value_code(value, inner);
            lemma_plain_has_no_labels(value_lowered(value, inner).1);
            assert(no_labels(body));
            lemma_no_labels_concat(body, loads);
            lemma_no_labels(code, 0, 0, 0, ctx.uniq, stmt_lowered(s, ctx).0.uniq);
        },
        mir::StmtView::Ret(None) => {
            assert(no_labels(body));
            lemma_no_labels_concat(body, loads);
            lemma_no_labels(code, 0, 0, 0, ctx.uniq, stmt_lowered(s, ctx).0.uniq);
        },
        mir::StmtView::VarDecl(_, value) => {
            lemma_expr_code(value, inner);
            lemma_plain_has_no_labels(expr_lowered(value, inner).1);
            assert(no_labels(body));
            lemma_no_labels_concat(body, loads);
            lemma_no_labels(code, 0, 0, 0, ctx.uniq, stmt_lowered(s, ctx).0.uniq);
        },
    }
}

/// The labels of the code of statements are of conditionals whose numbers
/// were handed out while they were lowered, and no two of them are the same.
pub proof fn lemma_stmts_labels(ss: Seq<mir::StmtView>, ctx: LoweringCtxView)
    ensures
        ctx.uniq <= stmts_lowered(ss, ctx).0.uniq,
        labels_within(stmts_lowered(ss, ctx).1, ctx.uniq, stmts_lowered(ss, ctx).0.uniq),
        labels_unique(stmts_lowered(ss, ctx).1),
    decreases ss,
{
    if ss.len() > 0 {
        let ctx1 = stmts_lowered(ss.drop_last(), ctx).0;
        lemma_stmts_labels(ss.drop_last(), ctx);
        lemma_stmt_labels(ss.last(), ctx1);
        lemma_labels_concat(
            stmts_lowered(ss.drop_last(), ctx).1,
            stmt_lowered(ss.last(), ctx1).1,
            ctx.uniq,
            ctx1.uniq,
            stmt_lowered(ss.last(), ctx1).0.uniq,
        );
    }
}

/// The labels of the code of the arms of the conditional numbered `n` are
/// those of its arms, and those of the conditionals inside them.
pub proof fn lemma_cases_labels(
    cases: Seq<(mir::ExprView, Seq<mir::StmtView>)>,
    n: nat,
    ctx: LoweringCtxView,
)
    requires
        n < ctx.uniq,
    ensures
        ctx.uniq <= cases_lowered(cases, uniq_name("cond"@, n), ctx).0.uniq,
        arm_labels_within(
            cases_lowered(cases, uniq_name("cond"@, n), ctx).1,
            n,
            0,
            2 * (cases.len() as int),
            ctx.uniq,
            cases_lowered(cases, uniq_name("cond"@, n), ctx).0.uniq,
        ),
        labels_unique(cases_lowered(cases, uniq_name("cond"@, n), ctx).1),
    decreases cases,
{
    let prefix = uniq_name("cond"@, n);
    if cases.len() > 0 {
        let i = (cases.len() - 1) as nat;
        let k: int = 2 * (i as int);
        let front = cases.drop_last();
        let (ctx1, code1) = cases_lowered(front, prefix, ctx);
        lemma_cases_labels(front, n, ctx);
        let (ctx2, code2, guard) = value_lowered(cases.last().0, ctx1);
        lemma_value_code(cases.last().0, ctx1);
        let (ctx3, code3) = stmts_lowered(cases.last().1, ctx2);
        lemma_stmts_labels(cases.last().1, ctx2);
        let yes = cond_label(n, Which::Case(i));
        let no = cond_label(n, Which::CaseEnd(i));
        let enter = seq![StmtView::Jnz(guard, yes, no), StmtView::Lbl(yes)];
        let leave = seq![StmtView::Jmp(end_label(prefix)), StmtView::Lbl(no)];
        lemma_label_id(n, Which::Case(i));
        lemma_label_id(n, Which::CaseEnd(i));
        lemma_plain_has_no_labels(code2);
        lemma_no_labels(code2, n, k, k, ctx1.uniq, ctx2.uniq);
        lemma_arm_labels_concat(code1, code2, n, 0, k, k, ctx.uniq, ctx1.uniq, ctx2.uniq);
        let acc1 = code1 + code2;
        assert(arm_labels_within(enter, n, k, k + 1, ctx2.uniq, ctx2.uniq));
        assert(labels_unique(enter));
        lemma_arm_labels_concat(
            acc1,
            enter,
            n,
            0,
            k,
            k + 1,
            ctx.uniq,
            ctx2.uniq,
            ctx2.uniq,
        );
        let acc2 = acc1 + enter;
        assert(arm_labels_within(code3, n, k + 1, k + 1, ctx2.uniq, ctx3.uniq));
        lemma_arm_labels_concat(
            acc2,
            code3,
            n,
            0,
            k + 1,
            k + 1,
            ctx.uniq,
            ctx2.uniq,
            ctx3.uniq,
        );
        let acc3 = acc2 + code3;
        assert(arm_labels_within(leave, n, k + 1, k + 2, ctx3.uniq, ctx3.uniq));
        assert(labels_unique(leave));
        lemma_arm_labels_concat(
            acc3,
            leave,
            n,
            0,
            k + 1,
            k + 2,
            ctx.uniq,
            ctx3.uniq,
            ctx3.uniq,
        );
        assert(cases_lowered(cases, prefix, ctx).1 == acc3 + leave);
    }
}

/// The labels of the code of a function are all different: the label at
/// which it starts, and those of its conditionals.
pub proof fn lemma_function_labels_unique(body: Seq<mir::StmtView>, ctx: LoweringCtxView)
    ensures
        labels_unique(seq![StmtView::Lbl("start"@)] + stmts_lowered(body, ctx).1),
{
    let start = seq![StmtView::Lbl("start"@)];
    let code = stmts_lowered(body, ctx).1;
    let whole = start + code;
    lemma_stmts_labels(body, ctx);
    assert forall|p: int, q: int|
        0 <= p < q < whole.len() && (#[trigger] whole[p]) is Lbl && (#[trigger] whole[q]) is Lbl
        implies whole[p] != whole[q] by {
        assert(whole[q] == code[q - 1]);
        if p > 0 {
            assert(whole[p] == code[p - 1]);
        } else {
            let l = code[q - 1]->Lbl_0;
            assert(nested_label(l, ctx.uniq, stmts_lowered(body, ctx).0.uniq));
            let id = label_id(l);
            lemma_cond_label_not_start(id.0, id.1);
        }
    }
}

/// The place of a label in the code: where a jump to it leads.
pub open spec fn label_at(code: Seq<StmtView>, l: Seq<char>) -> int {
    choose|p: int| 0 <= p < code.len() && code[p] == StmtView::Lbl(l)
}

/// In code without a label twice, a label is found where it stands.
pub proof fn lemma_label_at(code: Seq<StmtView>, p: int)
    requires
        labels_unique(code),
        0 <= p < code.len(),
        code[p] is Lbl,
    ensures
        label_at(code, code[p]->Lbl_0) == p,
{
    let l = code[p]->Lbl_0;
    let q = label_at(code, l);
    assert(code[p] == StmtView::Lbl(l));
    if q != p {
        if q < p {
            assert(code[q] != code[p]);
        } else {
            assert(code[p] != code[q]);
        }
    }
}

/// The place to which control goes from the statement at `pc`: to the
/// label of a jump, to one of the two labels of a branch, as its operand is
/// not zero or zero, out of the code from a return, and else to the next place.
pub open spec fn next(code: Seq<StmtView>, pc: int, nonzero: bool) -> int {
    match code[pc] {
        StmtView::Jmp(l) => label_at(code, l),
        StmtView::Jnz(_, yes, no) => if nonzero {
            label_at(code, yes)
        } else {
            label_at(code, no)
        },
        StmtView::Ret(_) => code.len() as int,
        _ => pc + 1,
    }
}

/// `part` stands in `whole` from the place `at` on.
pub open spec fn stands_at(whole: Seq<StmtView>, at: int, part: Seq<StmtView>) -> bool {
    &&& 0 <= at
    &&& at + part.len() <= whole.len()
    &&& forall|p: int| 0 <= p < part.len() ==> whole[at + p] == #[trigger] part[p]
}

/// The code of the first `upto` arms of the conditional numbered `n`.
pub open spec fn arms_code(
    cases: Seq<(mir::ExprView, Seq<mir::StmtView>)>,
    n: nat,
    ctx: LoweringCtxView,
    upto: int,
) -> Seq<StmtView> {
    cases_lowered(cases.take(upto), uniq_name("cond"@, n), ctx).1
}

/// The state after the first `upto` arms of the conditional numbered `n`.
pub open spec fn arms_ctx(
    cases: Seq<(mir::ExprView, Seq<mir::StmtView>)>,
    n: nat,
    ctx: LoweringCtxView,
    upto: int,
) -> LoweringCtxView {
    cases_lowered(cases.take(upto), uniq_name("cond"@, n), ctx).0
}

/// The code of the guard of the arm `i`.
pub open spec fn guard_code(
    cases: Seq<(mir::ExprView, Seq<mir::StmtView>)>,
    n: nat,
    ctx: LoweringCtxView,
    i: int,
) -> Seq<StmtView> {
    value_lowered(cases[i].0, arms_ctx(cases, n, ctx, i)).1
}

/// The code of the body of the arm `i`.
pub open spec fn body_code(
    cases: Seq<(mir::ExprView, Seq<mir::StmtView>)>,
    n: nat,
    ctx: LoweringCtxView,
    i: int,
) -> Seq<StmtView> {
    stmts_lowered(cases[i].1, value_lowered(cases[i].0, arms_ctx(cases, n, ctx, i)).0).1
}

/// The code of the arms up to and with the arm `i` is the code of the arms
/// before it, the code of its guard, the branch, the label of the arm, the
/// code of its body, the jump to the end, and the label of the arm's end.
pub proof fn lemma_arm_code(
    cases: Seq<(mir::ExprView, Seq<mir::StmtView>)>,
    n: nat,
    ctx: LoweringCtxView,
    i: int,
)
    requires
        0 <= i < cases.len(),
    ensures
        ({
            let guard = value_lowered(cases[i].0, arms_ctx(cases, n, ctx, i)).2;
            let yes = cond_label(n, Which::Case(i as nat));
            let no = cond_label(n, Which::CaseEnd(i as nat));
            arms_code(cases, n, ctx, i + 1) == arms_code(cases, n, ctx, i) + guard_code(
                cases,
                n,
                ctx,
                i,
            ) + seq![StmtView::Jnz(guard, yes, no), StmtView::Lbl(yes)] + body_code(cases, n, ctx, i)
                + seq![StmtView::Jmp(cond_label(n, Which::End)), StmtView::Lbl(no)]
        }),
{
    let upto = cases.take(i + 1);
    assert(upto.drop_last() =~= cases.take(i));
    assert(upto.last() == cases[i]);
    assert(upto.len() - 1 == i);
}

/// The code of the first arms begins the code of more arms.
pub proof fn lemma_arms_code_begins(
    cases: Seq<(mir::ExprView, Seq<mir::StmtView>)>,
    n: nat,
    ctx: LoweringCtxView,
    j: int,
    k: int,
)
    requires
        0 <= j <= k <= cases.len(),
    ensures
        stands_at(arms_code(cases, n, ctx, k), 0, arms_code(cases, n, ctx, j)),
    decreases k - j,
{
    if j < k {
        lemma_arms_code_begins(cases, n, ctx, j, k - 1);
        lemma_arm_code(cases, n, ctx, k - 1);
        let shorter = arms_code(cases, n, ctx, j);
        let before = arms_code(cases, n, ctx, k - 1);
        let longer = arms_code(cases, n, ctx, k);
        assert forall|p: int| 0 <= p < shorter.len() implies longer[0 + p] == #[trigger] shorter[p] by {
            assert(before[0 + p] == shorter[p]);
        }
    }
}

/// The place at which the arm `i` begins in the code of its conditional;
/// for the number of the arms, the place of the label of the end.
pub open spec fn arm_begin(
    cases: Seq<(mir::ExprView, Seq<mir::StmtView>)>,
    ctx: LoweringCtxView,
    i: int,
) -> int {
    arms_code(cases, ctx.uniq, bumped(ctx), i).len() as int
}

/// The place of the branch of the arm `i` in the code of its conditional.
pub open spec fn branch_at(
    cases: Seq<(mir::ExprView, Seq<mir::StmtView>)>,
    ctx: LoweringCtxView,
    i: int,
) -> int {
    arm_begin(cases, ctx, i) + guard_code(cases, ctx.uniq, bumped(ctx), i).len()
}

/// Where the code of a conditional stands in code whose labels are all
/// different, its jumps lead as follows. The code of the guard of an arm
/// keeps to the straight line, up to the branch of the arm. Where the
/// guard is not zero, the branch leads to the label before the body of the
/// arm; after the body stands a jump, which leads to the label of the end
/// of the conditional, its last statement. Where the guard is zero, the
/// branch leads past the body and that jump, to the label after which the
/// next arm begins or, after the last arm, the label of the end stands.
pub proof fn lemma_cond_jumps(
    cases: Seq<(mir::ExprView, Seq<mir::StmtView>)>,
    ctx: LoweringCtxView,
    i: int,
    whole: Seq<StmtView>,
    at: int,
)
    requires
        0 <= i < cases.len(),
        labels_unique(whole),
        stands_at(whole, at, stmt_body_lowered(mir::StmtView::Cond(cases), ctx).1),
    ensures
        ({
            let begin = at + arm_begin(cases, ctx, i);
            let branch = at + branch_at(cases, ctx, i);
            let after = at + arm_begin(cases, ctx, i + 1);
            let end = at + arm_begin(cases, ctx, cases.len() as int);
            &&& 0 <= begin <= branch
            &&& branch + 2 <= after - 2
            &&& after <= end < whole.len()
            &&& forall|p: int| begin <= p < branch ==> is_plain(#[trigger] whole[p])
            &&& whole[branch] is Jnz
            &&& next(whole, branch, true) == branch + 1
            &&& stands_at(whole, branch + 2, body_code(cases, ctx.uniq, bumped(ctx), i))
            &&& branch + 2 + body_code(cases, ctx.uniq, bumped(ctx), i).len() == after - 2
            &&& whole[after - 2] is Jmp
            &&& next(whole, after - 2, true) == end
            &&& next(whole, after - 2, false) == end
            &&& next(whole, branch, false) == after - 1
            &&& whole[after - 1] is Lbl
            &&& whole[end] is Lbl
            &&& end == at + stmt_body_lowered(mir::StmtView::Cond(cases), ctx).1.len() - 1
        }),
{
    let n = ctx.uniq;
    let inner = bumped(ctx);
    let count = cases.len() as int;
    let cond = stmt_body_lowered(mir::StmtView::Cond(cases), ctx).1;
    let all = arms_code(cases, n, inner, count);
    assert(cases.take(count) =~= cases);
    assert(cond == all.push(StmtView::Lbl(cond_label(n, Which::End))));
    let arms = arms_code(cases, n, inner, i + 1);
    let before = arms_code(cases, n, inner, i);
    let guard = guard_code(cases, n, inner, i);
    let body = body_code(cases, n, inner, i);
    let value = value_lowered(cases[i].0, arms_ctx(cases, n, inner, i)).2;
    let yes = cond_label(n, Which::Case(i as nat));
    let no = cond_label(n, Which::CaseEnd(i as nat));
    let enter = seq![StmtView::Jnz(value, yes, no), StmtView::Lbl(yes)];
    let leave = seq![StmtView::Jmp(cond_label(n, Which::End)), StmtView::Lbl(no)];
    lemma_arm_code(cases, n, inner, i);
    lemma_arms_code_begins(cases, n, inner, i + 1, count);
    lemma_value_code(cases[i].0, arms_ctx(cases, n, inner, i));
    assert(arms == before + guard + enter + body + leave);
    let b = before.len() as int;
    let g = guard.len() as int;
    let len = arms.len() as int;
    assert(len == b + g + 2 + body.len() + 2);
    // What stands in the code of the arms stands in the whole code.
    assert forall|p: int| 0 <= p < len implies whole[at + p] == #[trigger] arms[p] by {
        assert(all[0 + p] == arms[p]);
        assert(cond[p] == all[p]);
        assert(whole[at + p] == cond[p]);
    }
    assert forall|p: int| at + b <= p < at + b + g implies is_plain(#[trigger] whole[p]) by {
        assert(whole[at + (p - at)] == arms[p - at]);
        assert(arms[p - at] == guard[p - at - b]);
    }
    assert(arms[b + g] == enter[0]);
    assert(arms[b + g + 1] == enter[1]);
    assert(arms[len - 2] == leave[0]);
    assert(arms[len - 1] == leave[1]);
    assert(whole[at + (b + g)] == arms[b + g]);
    assert(whole[at + (b + g + 1)] == arms[b + g + 1]);
    assert(whole[at + (len - 2)] == arms[len - 2]);
    assert(whole[at + (len - 1)] == arms[len - 1]);
    assert(whole[at + all.len()] == cond[all.len() as int]);
    lemma_label_at(whole, at + b + g + 1);
    lemma_label_at(whole, at + len - 1);
    lemma_label_at(whole, at + all.len());
    assert forall|p: int| 0 <= p < body.len() implies whole[at + b + g + 2 + p] == #[trigger] body[p] by {
        assert(whole[at + (b + g + 2 + p)] == arms[b + g + 2 + p]);
        assert(arms[b + g + 2 + p] == body[p]);
    }
}

/// The place that control has reached after `steps` statements from `pc`,
/// where `nonzero_at` tells of the branch at each place whether its operand
/// is not zero.
pub open spec fn run(
    code: Seq<StmtView>,
    pc: int,
    nonzero_at: spec_fn(int) -> bool,
    steps: nat,
) -> int
    decreases steps,
{
    if steps == 0 {
        pc
    } else {
        run(code, next(code, pc, nonzero_at(pc)), nonzero_at, (steps - 1) as nat)
    }
}

proof fn lemma_run_add(
    code: Seq<StmtView>,
    pc: int,
    nonzero_at: spec_fn(int) -> bool,
    a: nat,
    b: nat,
)
    ensures
        run(code, pc, nonzero_at, a + b) == run(code, run(code, pc, nonzero_at, a), nonzero_at, b),
    decreases a,
{
    if a > 0 {
        lemma_run_add(code, next(code, pc, nonzero_at(pc)), nonzero_at, (a - 1) as nat, b);
    }
}

proof fn lemma_run_plain(
    code: Seq<StmtView>,
    pc: int,
    nonzero_at: spec_fn(int) -> bool,
    len: int,
    k: nat,
)
    requires
        0 <= pc,
        pc + len <= code.len(),
        forall|p: int| pc <= p < pc + len ==> is_plain(#[trigger] code[p]),
        k <= len,
    ensures
        run(code, pc, nonzero_at, k) == pc + k,
    decreases k,
{
    if k > 0 {
        assert(is_plain(code[pc]));
        lemma_run_plain(code, pc + 1, nonzero_at, len - 1, (k - 1) as nat);
    }
}

/// The number of statements that control passes from the beginning of a
/// conditional to the beginning of its arm `i`, where the guards before it
/// are zero: the code of each guard, its branch, and the label of its end.
pub open spec fn steps_to_arm(
    cases: Seq<(mir::ExprView, Seq<mir::StmtView>)>,
    ctx: LoweringCtxView,
    i: int,
) -> nat
    decreases i,
{
    if i <= 0 {
        0
    } else {
        steps_to_arm(cases, ctx, i - 1) + guard_code(cases, ctx.uniq, bumped(ctx), i - 1).len() + 2
    }
}

/// The place `pc` is in the body of no arm of the conditional that stands at `at`.
pub open spec fn in_no_body(
    cases: Seq<(mir::ExprView, Seq<mir::StmtView>)>,
    ctx: LoweringCtxView,
    at: int,
    pc: int,
) -> bool {
    forall|j: int|
        0 <= j < cases.len() ==> !(at + #[trigger] branch_at(cases, ctx, j) + 2 <= pc < at
            + arm_begin(cases, ctx, j + 1) - 2)
}

/// The arms of a conditional follow each other: each begins where the one
/// before it ends, with its guard, its branch and its body in this order.
proof fn lemma_arms_in_order(
    cases: Seq<(mir::ExprView, Seq<mir::StmtView>)>,
    ctx: LoweringCtxView,
    j: int,
    k: int,
)
    requires
        0 <= j <= k <= cases.len(),
    ensures
        0 <= arm_begin(cases, ctx, j) <= arm_begin(cases, ctx, k),
        j < cases.len() ==> arm_begin(cases, ctx, j) <= branch_at(cases, ctx, j) && branch_at(
            cases,
            ctx,
            j,
        ) + 4 <= arm_begin(cases, ctx, j + 1),
{
    lemma_arms_code_begins(cases, ctx.uniq, bumped(ctx), j, k);
    if j < cases.len() {
        lemma_arm_code(cases, ctx.uniq, bumped(ctx), j);
    }
}

/// A place in the guard of an arm, at its branch, or at the label of its
/// end is in the body of no arm.
proof fn lemma_in_no_body(
    cases: Seq<(mir::ExprView, Seq<mir::StmtView>)>,
    ctx: LoweringCtxView,
    at: int,
    i: int,
    pc: int,
)
    requires
        0 <= i < cases.len(),
        at + arm_begin(cases, ctx, i) <= pc <= at + branch_at(cases, ctx, i) || pc == at + arm_begin(
            cases,
            ctx,
            i + 1,
        ) - 1 || pc == at + arm_begin(cases, ctx, i + 1),
    ensures
        in_no_body(cases, ctx, at, pc),
{
    assert forall|j: int| 0 <= j < cases.len() implies !(at + #[trigger] branch_at(cases, ctx, j) + 2
        <= pc < at + arm_begin(cases, ctx, j + 1) - 2) by {
        lemma_arms_in_order(cases, ctx, i, i + 1);
        lemma_arms_in_order(cases, ctx, j, j + 1);
        if j < i {
            lemma_arms_in_order(cases, ctx, j + 1, i);
        } else if j > i {
            lemma_arms_in_order(cases, ctx, i + 1, j);
        }
    }
}

/// Where the guards of the arms before the arm `i` are all zero, control
/// goes from the beginning of the conditional to the beginning of the arm
/// `i` (for the number of the arms: to the label of the end), and on its
/// way it is in the body of no arm.
pub proof fn lemma_cond_guards_zero(
    cases: Seq<(mir::ExprView, Seq<mir::StmtView>)>,
    ctx: LoweringCtxView,
    i: int,
    whole: Seq<StmtView>,
    at: int,
    nonzero_at: spec_fn(int) -> bool,
)
    requires
        0 <= i <= cases.len(),
        labels_unique(whole),
        stands_at(whole, at, stmt_body_lowered(mir::StmtView::Cond(cases), ctx).1),
        forall|j: int| 0 <= j < i ==> !nonzero_at(at + #[trigger] branch_at(cases, ctx, j)),
    ensures
        run(whole, at, nonzero_at, steps_to_arm(cases, ctx, i)) == at + arm_begin(cases, ctx, i),
        forall|k: nat|
            k <= steps_to_arm(cases, ctx, i) ==> in_no_body(
                cases,
                ctx,
                at,
                #[trigger] run(whole, at, nonzero_at, k),
            ),
    decreases i,
{
    if i == 0 {
        assert(cases.take(0) =~= Seq::<(mir::ExprView, Seq<mir::StmtView>)>::empty());
        assert(arm_begin(cases, ctx, 0) == 0);
        if cases.len() > 0 {
            lemma_arms_in_order(cases, ctx, 0, 1);
            lemma_in_no_body(cases, ctx, at, 0, at);
        }
    } else {
        let j = i - 1;
        lemma_cond_guards_zero(cases, ctx, j, whole, at, nonzero_at);
        lemma_cond_jumps(cases, ctx, j, whole, at);
        let before = steps_to_arm(cases, ctx, j);
        let begin = at + arm_begin(cases, ctx, j);
        let branch = at + branch_at(cases, ctx, j);
        let after = at + arm_begin(cases, ctx, i);
        let g = (branch - begin) as nat;
        assert(!nonzero_at(at + branch_at(cases, ctx, j)));
        assert forall|k: nat| k <= g implies run(whole, begin, nonzero_at, k) == begin + k by {
            lemma_run_plain(whole, begin, nonzero_at, branch - begin, k);
        }
        assert(run(whole, begin, nonzero_at, g) == branch);
        lemma_run_add(whole, begin, nonzero_at, g, 1);
        assert(run(whole, branch, nonzero_at, 1) == run(
            whole,
            next(whole, branch, nonzero_at(branch)),
            nonzero_at,
            0,
        ));
        assert(run(whole, begin, nonzero_at, g + 1) == after - 1);
        lemma_run_add(whole, begin, nonzero_at, g + 1, 1);
        assert(run(whole, after - 1, nonzero_at, 1) == run(
            whole,
            next(whole, after - 1, nonzero_at(after - 1)),
            nonzero_at,
            0,
        ));
        assert(run(whole, begin, nonzero_at, g + 2) == after);
        lemma_run_add(whole, at, nonzero_at, before, g + 2);
        assert forall|k: nat| k <= steps_to_arm(cases, ctx, i) implies in_no_body(
            cases,
            ctx,
            at,
            #[trigger] run(whole, at, nonzero_at, k),
        ) by {
            if k > before {
                let more = (k - before) as nat;
                lemma_run_add(whole, at, nonzero_at, before, more);
                let pc = run(whole, begin, nonzero_at, more);
                assert(run(whole, at, nonzero_at, k) == pc);
                if more <= g {
                    assert(pc == begin + more);
                }
                lemma_in_no_body(cases, ctx, at, j, pc);
            }
        }
    }
}

/// A conditional whose guards are all zero runs to the label of its end
/// and is on its way in the body of no arm.
pub proof fn lemma_cond_all_zero(
    cases: Seq<(mir::ExprView, Seq<mir::StmtView>)>,
    ctx: LoweringCtxView,
    whole: Seq<StmtView>,
    at: int,
    nonzero_at: spec_fn(int) -> bool,
)
    requires
        labels_unique(whole),
        stands_at(whole, at, stmt_body_lowered(mir::StmtView::Cond(cases), ctx).1),
        forall|j: int| 0 <= j < cases.len() ==> !nonzero_at(at + #[trigger] branch_at(cases, ctx, j)),
    ensures
        ({
            let steps = steps_to_arm(cases, ctx, cases.len() as int);
            let end = at + stmt_body_lowered(mir::StmtView::Cond(cases), ctx).1.len() - 1;
            &&& run(whole, at, nonzero_at, steps) == end
            &&& whole[end] == StmtView::Lbl(cond_label(ctx.uniq, Which::End))
            &&& forall|k: nat|
                k <= steps ==> in_no_body(cases, ctx, at, #[trigger] run(whole, at, nonzero_at, k))
        }),
{
    lemma_cond_guards_zero(cases, ctx, cases.len() as int, whole, at, nonzero_at);
    let cond = stmt_body_lowered(mir::StmtView::Cond(cases), ctx).1;
    assert(cases.take(cases.len() as int) =~= cases);
    assert(whole[at + (cond.len() - 1)] == cond[cond.len() - 1]);
}

/// A conditional whose first guard that is not zero is that of the arm `i`
/// runs to the label of that arm, after which the body of the arm stands;
/// and the jump that stands after the body leads to the label of the end.
pub proof fn lemma_cond_first_nonzero(
    cases: Seq<(mir::ExprView, Seq<mir::StmtView>)>,
    ctx: LoweringCtxView,
    i: int,
    whole: Seq<StmtView>,
    at: int,
    nonzero_at: spec_fn(int) -> bool,
)
    requires
        0 <= i < cases.len(),
        labels_unique(whole),
        stands_at(whole, at, stmt_body_lowered(mir::StmtView::Cond(cases), ctx).1),
        forall|j: int| 0 <= j < i ==> !nonzero_at(at + #[trigger] branch_at(cases, ctx, j)),
        nonzero_at(at + branch_at(cases, ctx, i)),
    ensures
        ({
            let branch = at + branch_at(cases, ctx, i);
            let steps = steps_to_arm(cases, ctx, i) + guard_code(
                cases,
                ctx.uniq,
                bumped(ctx),
                i,
            ).len() + 1;
            let body = body_code(cases, ctx.uniq, bumped(ctx), i);
            let end = at + stmt_body_lowered(mir::StmtView::Cond(cases), ctx).1.len() - 1;
            &&& run(whole, at, nonzero_at, steps) == branch + 1
            &&& whole[branch + 1] == StmtView::Lbl(cond_label(ctx.uniq, Which::Case(i as nat)))
            &&& stands_at(whole, branch + 2, body)
            &&& whole[branch + 2 + body.len()] == StmtView::Jmp(cond_label(ctx.uniq, Which::End))
            &&& next(whole, branch + 2 + body.len(), nonzero_at(branch + 2 + body.len())) == end
            &&& whole[end] == StmtView::Lbl(cond_label(ctx.uniq, Which::End))
        }),
{
    lemma_cond_guards_zero(cases, ctx, i, whole, at, nonzero_at);
    lemma_cond_jumps(cases, ctx, i, whole, at);
    let n = ctx.uniq;
    let inner = bumped(ctx);
    let before = steps_to_arm(cases, ctx, i);
    let begin = at + arm_begin(cases, ctx, i);
    let branch = at + branch_at(cases, ctx, i);
    let g = (branch - begin) as nat;
    lemma_run_plain(whole, begin, nonzero_at, branch - begin, g);
    lemma_run_add(whole, begin, nonzero_at, g, 1);
    assert(run(whole, branch, nonzero_at, 1) == run(
        whole,
        next(whole, branch, nonzero_at(branch)),
        nonzero_at,
        0,
    ));
    lemma_run_add(whole, at, nonzero_at, before, g + 1);
    // The statements of the arm, as they stand in the whole code.
    let cond = stmt_body_lowered(mir::StmtView::Cond(cases), ctx).1;
    let all = arms_code(cases, n, inner, cases.len() as int);
    let arms = arms_code(cases, n, inner, i + 1);
    assert(cases.take(cases.len() as int) =~= cases);
    lemma_arm_code(cases, n, inner, i);
    lemma_arms_code_begins(cases, n, inner, i + 1, cases.len() as int);
    let b = arms_code(cases, n, inner, i).len() as int;
    let body = body_code(cases, n, inner, i);
    let yes_at = b + g + 1;
    let jmp_at = b + g + 2 + body.len();
    assert(arms[yes_at] == StmtView::Lbl(cond_label(n, Which::Case(i as nat))));
    assert(arms[jmp_at] == StmtView::Jmp(cond_label(n, Which::End)));
    assert(all[0 + yes_at] == arms[yes_at]);
    assert(all[0 + jmp_at] == arms[jmp_at]);
    assert(cond[yes_at] == all[yes_at]);
    assert(cond[jmp_at] == all[jmp_at]);
    assert(whole[at + yes_at] == cond[yes_at]);
    assert(whole[at + jmp_at] == cond[jmp_at]);
    assert(whole[at + (cond.len() - 1)] == cond[cond.len() - 1]);
}

/// What stands in a part of the code stands in the code.
pub proof fn lemma_stands_within(
    whole: Seq<StmtView>,
    at: int,
    part: Seq<StmtView>,
    off: int,
    inner: Seq<StmtView>,
)
    requires
        stands_at(whole, at, part),
        stands_at(part, off, inner),
    ensures
        stands_at(whole, at + off, inner),
{
    assert forall|p: int| 0 <= p < inner.len() implies whole[at + off + p] == #[trigger] inner[p] by {
        assert(part[off + p] == inner[p]);
        assert(whole[at + (off + p)] == part[off + p]);
    }
}

/// The code of the first statements begins the code of more statements.
proof fn lemma_stmts_code_begins(ss: Seq<mir::StmtView>, ctx: LoweringCtxView, j: int, k: int)
    requires
        0 <= j <= k <= ss.len(),
    ensures
        stands_at(stmts_lowered(ss.take(k), ctx).1, 0, stmts_lowered(ss.take(j), ctx).1),
    decreases k - j,
{
    if j < k {
        lemma_stmts_code_begins(ss, ctx, j, k - 1);
        assert(ss.take(k).drop_last() =~= ss.take(k - 1));
        let shorter = stmts_lowered(ss.take(j), ctx).1;
        let before = stmts_lowered(ss.take(k - 1), ctx).1;
        let longer = stmts_lowered(ss.take(k), ctx).1;
        assert forall|p: int| 0 <= p < shorter.len() implies longer[0 + p] == #[trigger] shorter[p] by {
            assert(before[0 + p] == shorter[p]);
        }
    }
}

/// In the code of a function, the code of each statement of its body
/// stands after the label of the start and the code of the statements
/// before it; and what a conditional does stands at the beginning of its code.
pub proof fn lemma_statement_stands(body: Seq<mir::StmtView>, k: int, ctx: LoweringCtxView)
    requires
        0 <= k < body.len(),
    ensures
        ({
            let whole = seq![StmtView::Lbl("start"@)] + stmts_lowered(body, ctx).1;
            let (before, code) = stmts_lowered(body.take(k), ctx);
            &&& stands_at(whole, 1 + code.len() as int, stmt_lowered(body[k], before).1)
            &&& stands_at(whole, 1 + code.len() as int, stmt_body_lowered(body[k], framed(before)).1)
        }),
{
    let start = seq![StmtView::Lbl("start"@)];
    let all = stmts_lowered(body, ctx).1;
    let whole = start + all;
    let (before, code) = stmts_lowered(body.take(k), ctx);
    let upto = stmts_lowered(body.take(k + 1), ctx).1;
    let this = stmt_lowered(body[k], before).1;
    let does = stmt_body_lowered(body[k], framed(before)).1;
    assert(body.take(body.len() as int) =~= body);
    assert(body.take(k + 1).drop_last() =~= body.take(k));
    assert(body.take(k + 1).last() == body[k]);
    assert(upto == code + this);
    lemma_stmts_code_begins(body, ctx, k + 1, body.len() as int);
    assert forall|p: int| 0 <= p < this.len() implies whole[1 + code.len() + p] == #[trigger] this[p] by {
        assert(upto[code.len() + p] == this[p]);
        assert(all[0 + (code.len() + p)] == upto[code.len() + p]);
        assert(whole[1 + (code.len() + p)] == all[code.len() + p]);
    }
    assert forall|p: int| 0 <= p < does.len() implies whole[1 + code.len() + p] == #[trigger] does[p] by {
        assert(this[p] == does[p]);
    }
}

/// The code holds the label `l`.
pub open spec fn has_label(code: Seq<StmtView>, l: Seq<char>) -> bool {
    exists|q: int| 0 <= q < code.len() && #[trigger] code[q] == StmtView::Lbl(l)
}

/// The label `l` is a label of `whole`, or the label `end` that is still to come.
pub open spec fn target_lands(l: Seq<char>, whole: Seq<StmtView>, end: Option<Seq<char>>) -> bool {
    end == Some(l) || has_label(whole, l)
}

/// Where the statement jumps or branches, it does so to labels of `whole`,
/// or to the label `end` that is still to come.
pub open spec fn stmt_lands(s: StmtView, whole: Seq<StmtView>, end: Option<Seq<char>>) -> bool {
    match s {
        StmtView::Jmp(l) => target_lands(l, whole, end),
        StmtView::Jnz(_, yes, no) => target_lands(yes, whole, end) && target_lands(no, whole, end),
        _ => true,
    }
}

/// Every jump and every branch of `code` leads to a label of `whole`, or to
/// the label `end` that is still to come.
pub open spec fn jumps_land(code: Seq<StmtView>, whole: Seq<StmtView>, end: Option<Seq<char>>) -> bool {
    forall|p: int| 0 <= p < code.len() ==> stmt_lands(#[trigger] code[p], whole, end)
}

proof fn lemma_has_label_concat(a: Seq<StmtView>, b: Seq<StmtView>, l: Seq<char>)
    ensures
        has_label(a, l) ==> has_label(a + b, l),
        has_label(b, l) ==> has_label(a + b, l),
{
    if has_label(a, l) {
        let q = choose|q: int| 0 <= q < a.len() && #[trigger] a[q] == StmtView::Lbl(l);
        assert((a + b)[q] == StmtView::Lbl(l));
    }
    if has_label(b, l) {
        let q = choose|q: int| 0 <= q < b.len() && #[trigger] b[q] == StmtView::Lbl(l);
        assert((a + b)[a.len() + q] == StmtView::Lbl(l));
    }
}

proof fn lemma_jumps_land_wider(
    code: Seq<StmtView>,
    a: Seq<StmtView>,
    b: Seq<StmtView>,
    end: Option<Seq<char>>,
)
    ensures
        jumps_land(code, a, end) ==> jumps_land(code, a + b, end),
        jumps_land(code, b, end) ==> jumps_land(code, a + b, end),
{
    if jumps_land(code, a, end) {
        assert forall|p: int| 0 <= p < code.len() implies stmt_lands(
            #[trigger] code[p],
            a + b,
            end,
        ) by {
            assert(stmt_lands(code[p], a, end));
            match code[p] {
                StmtView::Jmp(l) => {
                    lemma_has_label_concat(a, b, l);
                },
                StmtView::Jnz(_, yes, no) => {
                    lemma_has_label_concat(a, b, yes);
                    lemma_has_label_concat(a, b, no);
                },
                _ => {},
            }
        }
    }
    if jumps_land(code, b, end) {
        assert forall|p: int| 0 <= p < code.len() implies stmt_lands(
            #[trigger] code[p],
            a + b,
            end,
        ) by {
            assert(stmt_lands(code[p], b, end));
            match code[p] {
                StmtView::Jmp(l) => {
                    lemma_has_label_concat(a, b, l);
                },
                StmtView::Jnz(_, yes, no) => {
                    lemma_has_label_concat(a, b, yes);
                    lemma_has_label_concat(a, b, no);
                },
                _ => {},
            }
        }
    }
}

proof fn lemma_jumps_land_concat(
    a: Seq<StmtView>,
    b: Seq<StmtView>,
    whole: Seq<StmtView>,
    end: Option<Seq<char>>,
)
    requires
        jumps_land(a, whole, end),
        jumps_land(b, whole, end),
    ensures
        jumps_land(a + b, whole, end),
{
    assert forall|p: int| 0 <= p < (a + b).len() implies stmt_lands(
        #[trigger] (a + b)[p],
        whole,
        end,
    ) by {
        if p < a.len() {
            assert((a + b)[p] == a[p]);
        } else {
            assert((a + b)[p] == b[p - a.len()]);
        }
    }
}

proof fn lemma_plain_jumps_land(code: Seq<StmtView>, whole: Seq<StmtView>, end: Option<Seq<char>>)
    requires
        all_plain(code),
    ensures
        jumps_land(code, whole, end),
{
    assert forall|p: int| 0 <= p < code.len() implies stmt_lands(#[trigger] code[p], whole, end) by {
        assert(is_plain(code[p]));
    }
}

/// Every jump and every branch in the code of a statement leads to a label
/// of that code.
pub proof fn lemma_stmt_jumps_land(s: mir::StmtView, ctx: LoweringCtxView)
    ensures
        jumps_land(stmt_lowered(s, ctx).1, stmt_lowered(s, ctx).1, None),
    decreases s,
{
    let inner = framed(ctx);
    let after = stmt_body_lowered(s, inner).0;
    let body = stmt_body_lowered(s, inner).1;
    let loads = read_back(after.tmp_refs.last());
    let code = stmt_lowered(s, ctx).1;
    assert(code == body + loads);
    assert(all_plain(loads));
    lemma_plain_jumps_land(loads, code, None);
    match s {
        mir::StmtView::Cond(cases) => {
            let n = inner.uniq;
            let end = cond_label(n, Which::End);
            lemma_cases_jumps_land(cases, n, bumped(inner));
            let arms = cases_lowered(cases, uniq_name("cond"@, n), bumped(inner)).1;
            let last = seq![StmtView::Lbl(end)];
            assert(body =~= arms + last);
            assert(last[0] == StmtView::Lbl(end));
            assert(has_label(last, end));
            lemma_has_label_concat(arms, last, end);
            lemma_jumps_land_wider(arms, arms, last, Some(end));
            assert forall|p: int| 0 <= p < arms.len() implies stmt_lands(
                #[trigger] arms[p],
                body,
                None,
            ) by {
                assert(stmt_lands(arms[p], body, Some(end)));
            }
            assert(jumps_land(last, body, None));
            lemma_jumps_land_concat(arms, last, body, None);
        },
        mir::StmtView::FuncCall(_, args) => {
            lemma_values_code(args, inner);
            let code1 = values_lowered(args, inner).1;
            lemma_plain_jumps_land(code1, body, None);
            let last = seq![body.last()];
            assert(body =~= code1 + last);
            assert(jumps_land(last, body, None));
            lemma_jumps_land_concat(code1, last, body, None);
        },
        mir::StmtView::Ret(Some(value)) => {
            lemma_value_code(value, inner);
            let code1 = value_lowered(value, inner).1;
            lemma_plain_jumps_land(code1, body, None);
            let last = seq![body.last()];
            assert(body =~= code1 + last);
            assert(jumps_land(last, body, None));
            lemma_jumps_land_concat(code1, last, body, None);
        },
        mir::StmtView::Ret(None) => {
            assert(jumps_land(body, body, None));
        },
        mir::StmtView::VarDecl(_, value) => {
            lemma_expr_code(value, inner);
            let code1 = expr_lowered(value, inner).1;
            lemma_plain_jumps_land(code1, body, None);
            let last = seq![body.last()];
            assert(body =~= code1 + last);
            assert(jumps_land(last, body, None));
            lemma_jumps_land_concat(code1, last, body, None);
        },
    }
    lemma_jumps_land_wider(body, body, loads, None);
    lemma_jumps_land_concat(body, loads, code, None);
}

/// Every jump and every branch in the code of statements leads to a label
/// of that code.
pub proof fn lemma_stmts_jumps_land(ss: Seq<mir::StmtView>, ctx: LoweringCtxView)
    ensures
        jumps_land(stmts_lowered(ss, ctx).1, stmts_lowered(ss, ctx).1, None),
    decreases ss,
{
    if ss.len() > 0 {
        let (ctx1, code1) = stmts_lowered(ss.drop_last(), ctx);
        let code2 = stmt_lowered(ss.last(), ctx1).1;
        lemma_stmts_jumps_land(ss.drop_last(), ctx);
        lemma_stmt_jumps_land(ss.last(), ctx1);
        lemma_jumps_land_wider(code1, code1, code2, None);
        lemma_jumps_land_wider(code2, code1, code2, None);
        lemma_jumps_land_concat(code1, code2, code1 + code2, None);
    }
}

/// Every branch in the code of the arms of a conditional leads to labels
/// of that code, and every jump to a label of that code or to the label of
/// the end of the conditional.
pub proof fn lemma_cases_jumps_land(
    cases: Seq<(mir::ExprView, Seq<mir::StmtView>)>,
    n: nat,
    ctx: LoweringCtxView,
)
    ensures
        jumps_land(
            cases_lowered(cases, uniq_name("cond"@, n), ctx).1,
            cases_lowered(cases, uniq_name("cond"@, n), ctx).1,
            Some(cond_label(n, Which::End)),
        ),
    decreases cases,
{
    let prefix = uniq_name("cond"@, n);
    let end = Some(cond_label(n, Which::End));
    if cases.len() > 0 {
        let i = (cases.len() - 1) as nat;
        let front = cases.drop_last();
        let (ctx1, code1) = cases_lowered(front, prefix, ctx);
        lemma_cases_jumps_land(front, n, ctx);
        let (ctx2, code2, guard) = value_lowered(cases.last().0, ctx1);
        lemma_value_code(cases.last().0, ctx1);
        let (ctx3, code3) = stmts_lowered(cases.last().1, ctx2);
        lemma_stmts_jumps_land(cases.last().1, ctx2);
        let yes = cond_label(n, Which::Case(i));
        let no = cond_label(n, Which::CaseEnd(i));
        let enter = seq![StmtView::Jnz(guard, yes, no), StmtView::Lbl(yes)];
        let leave = seq![StmtView::Jmp(end_label(prefix)), StmtView::Lbl(no)];
        let acc1 = code1 + code2;
        let acc2 = acc1 + enter;
        let acc3 = acc2 + code3;
        let whole = acc3 + leave;
        assert(cases_lowered(cases, prefix, ctx).1 == whole);
        // The arms before this one.
        lemma_jumps_land_wider(code1, code1, code2, end);
        lemma_jumps_land_wider(code1, acc1, enter, end);
        lemma_jumps_land_wider(code1, acc2, code3, end);
        lemma_jumps_land_wider(code1, acc3, leave, end);
        // The guard.
        lemma_plain_jumps_land(code2, whole, end);
        // The branch and the label of the arm.
        assert(enter[1] == StmtView::Lbl(yes));
        assert(has_label(enter, yes));
        lemma_has_label_concat(acc1, enter, yes);
        lemma_has_label_concat(acc2, code3, yes);
        lemma_has_label_concat(acc3, leave, yes);
        assert(leave[1] == StmtView::Lbl(no));
        assert(has_label(leave, no));
        lemma_has_label_concat(acc3, leave, no);
        assert(jumps_land(enter, whole, end));
        // The body.
        assert forall|p: int| 0 <= p < code3.len() implies stmt_lands(
            #[trigger] code3[p],
            code3,
            end,
        ) by {
            assert(stmt_lands(code3[p], code3, None));
        }
        lemma_jumps_land_wider(code3, acc2, code3, end);
        lemma_jumps_land_wider(code3, acc3, leave, end);
        // The jump to the end and the label of the end of the arm.
        assert(jumps_land(leave, whole, end));
        lemma_jumps_land_concat(code1, code2, whole, end);
        lemma_jumps_land_concat(acc1, enter, whole, end);
        lemma_jumps_land_concat(acc2, code3, whole, end);
        lemma_jumps_land_concat(acc3, leave, whole, end);
    }
}

/// In the code of a function every jump and every branch leads to a label
/// of that code.
pub proof fn lemma_function_jumps_land(body: Seq<mir::StmtView>, ctx: LoweringCtxView)
    ensures
        ({
            let whole = seq![StmtView::Lbl("start"@)] + stmts_lowered(body, ctx).1;
            jumps_land(whole, whole, None)
        }),
{
    let start = seq![StmtView::Lbl("start"@)];
    let code = stmts_lowered(body, ctx).1;
    lemma_stmts_jumps_land(body, ctx);
    lemma_jumps_land_wider(code, start, code, None);
    assert(jumps_land(start, start + code, None));
    lemma_jumps_land_concat(start, code, start + code, None);
}

} // verus!
