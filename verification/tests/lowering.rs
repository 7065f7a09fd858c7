use midlang::lower::{
    deref_tmp_refs, lower_args, lower_decls, lower_expr, lower_expr_to_value,
    lower_exprs_to_values, lower_func_call, lower_op, lower_opt_type, lower_stmts, lower_type,
    lower_visibility,
};
use midlang::lower_lang::{Decl, Expr, Linkage, Op, Scope, Stmt, Type, Value};
use midlang::lowering_context::LoweringCtx;
use midlang::mir;

fn local(name: &str, ty: Type) -> Value {
    Value::VarRef(name.to_string(), ty, Scope::Func)
}

fn declare(name: &str, rhs: Expr) -> Stmt {
    Stmt::VarDecl(name.to_string(), Scope::Func, rhs)
}

#[test]
fn a_call_as_an_operand_needs_no_frame() {
    let mut ctx = LoweringCtx::new("m");
    let mut stmts = vec![];
    let call = mir::Expr::FuncCall(
        "puts".to_string(),
        mir::Type::Int32,
        vec![mir::Expr::ConstStr("hi".to_string())],
    );
    let value = lower_expr_to_value(&call, &mut stmts, &mut ctx);
    assert_eq!(value, local("..arg..0", Type::W));
    assert_eq!(
        stmts,
        vec![declare(
            "..arg..0",
            Expr::FuncCall(
                "puts".to_string(),
                Type::W,
                vec![Value::VarRef("m_str0".to_string(), Type::L, Scope::Global)],
            ),
        )]
    );
    assert_eq!(ctx.decls_len(), 1);
}

#[test]
fn a_comparison_of_constants_as_an_operand() {
    let mut ctx = LoweringCtx::new("m");
    let mut stmts = vec![];
    let twelve = || Box::new(mir::Expr::ConstInt64(12));
    let value = lower_expr_to_value(
        &mir::Expr::Cmp(mir::Op::Eq, twelve(), twelve()),
        &mut stmts,
        &mut ctx,
    );
    assert_eq!(value, local("..cmp..0", Type::W));
    assert_eq!(
        stmts,
        vec![declare(
            "..cmp..0",
            Expr::Cmp(Op::Eq, Value::ConstL(12), Value::ConstL(12)),
        )]
    );
}

#[test]
fn a_negation_as_a_right_hand_side_subtracts_once() {
    let mut ctx = LoweringCtx::new("m");
    let mut stmts = vec![];
    let rhs = lower_expr(
        &mir::Expr::Not(Box::new(mir::Expr::ConstBool(true))),
        &mut stmts,
        &mut ctx,
    );
    assert_eq!(rhs, Expr::Sub(Value::ConstW(1), Value::ConstW(1)));
    assert_eq!(stmts, vec![]);
    assert_eq!(ctx.uniq_name("x"), "..x..0");
}

#[test]
fn operands_that_are_as_they_stand() {
    let mut ctx = LoweringCtx::new("m");
    let mut stmts = vec![];
    let exprs = vec![
        mir::Expr::ConstBool(true),
        mir::Expr::ConstBool(false),
        mir::Expr::ConstDouble("2.5".to_string()),
        mir::Expr::ConstInt32(-3),
        mir::Expr::ConstInt64(4),
        mir::Expr::ConstStr("s".to_string()),
        mir::Expr::VarRef("b".to_string(), mir::Type::Bool, false),
        mir::Expr::VarRef("d".to_string(), mir::Type::Double, false),
        mir::Expr::VarRef("p".to_string(), mir::Type::Ptr(None), false),
        mir::Expr::VarRef("s".to_string(), mir::Type::Str, false),
    ];
    let values = lower_exprs_to_values(&exprs, &mut stmts, &mut ctx);
    assert_eq!(
        values,
        vec![
            Value::ConstW(1),
            Value::ConstW(0),
            Value::ConstD("2.5".to_string()),
            Value::ConstW(-3),
            Value::ConstL(4),
            Value::VarRef("m_str0".to_string(), Type::L, Scope::Global),
            local("b", Type::W),
            local("d", Type::D),
            local("p", Type::L),
            local("s", Type::L),
        ]
    );
    assert_eq!(stmts, vec![]);
    assert_eq!(ctx.uniq_name("x"), "..x..0");
}

#[test]
fn a_variable_passed_by_reference_goes_through_a_slot() {
    let mut ctx = LoweringCtx::new("m");
    let mut stmts = vec![];
    ctx.push_tmp_refs();
    let call = lower_func_call(
        &"f".to_string(),
        &mir::Type::Double,
        &vec![
            mir::Expr::VarRef("x".to_string(), mir::Type::Int32, true),
            mir::Expr::ConstInt32(1),
            mir::Expr::VarRef("y".to_string(), mir::Type::Double, true),
        ],
        &mut stmts,
        &mut ctx,
    );
    assert_eq!(
        call,
        Expr::FuncCall(
            "f".to_string(),
            Type::D,
            vec![local("..ref..0", Type::L), Value::ConstW(1), local("..ref..1", Type::L)],
        )
    );
    let slots = vec![
        declare("..ref..0", Expr::Alloc8(8)),
        Stmt::Store(Type::W, local("x", Type::W), local("..ref..0", Type::L)),
        declare("..ref..1", Expr::Alloc8(8)),
        Stmt::Store(Type::D, local("y", Type::D), local("..ref..1", Type::L)),
    ];
    assert_eq!(stmts, slots);
    deref_tmp_refs(&mut stmts, &mut ctx);
    assert_eq!(
        stmts[4..],
        [
            declare("x", Expr::Load(Type::W, Type::W, local("..ref..0", Type::L))),
            declare("y", Expr::Load(Type::D, Type::D, local("..ref..1", Type::L))),
        ]
    );
}

#[test]
fn a_declaration_of_a_call_reads_its_slots_back_after_it() {
    let mut ctx = LoweringCtx::new("m");
    let mut stmts = vec![Stmt::Lbl("start".to_string())];
    lower_stmts(
        &vec![mir::Stmt::VarDecl(
            "r".to_string(),
            mir::Expr::FuncCall(
                "frexp".to_string(),
                mir::Type::Double,
                vec![
                    mir::Expr::ConstDouble("2560".to_string()),
                    mir::Expr::VarRef("exp".to_string(), mir::Type::Int32, true),
                ],
            ),
        )],
        &mut stmts,
        &mut ctx,
    );
    assert_eq!(
        stmts,
        vec![
            Stmt::Lbl("start".to_string()),
            declare("..ref..0", Expr::Alloc8(8)),
            Stmt::Store(Type::W, local("exp", Type::W), local("..ref..0", Type::L)),
            declare(
                "r",
                Expr::FuncCall(
                    "frexp".to_string(),
                    Type::D,
                    vec![Value::ConstD("2560".to_string()), local("..ref..0", Type::L)],
                ),
            ),
            declare("exp", Expr::Load(Type::W, Type::W, local("..ref..0", Type::L))),
        ]
    );
}

#[test]
fn every_jump_leads_to_a_label_and_no_label_stands_twice() {
    let arm = |body: Vec<mir::Stmt>| (mir::Expr::ConstBool(true), body);
    let nested = mir::Stmt::Cond(vec![
        arm(vec![mir::Stmt::Cond(vec![arm(vec![]), arm(vec![])])]),
        arm(vec![mir::Stmt::Cond(vec![])]),
    ]);
    let mut ctx = LoweringCtx::new("m");
    let mut stmts = vec![Stmt::Lbl("start".to_string())];
    lower_stmts(&vec![nested, mir::Stmt::Cond(vec![arm(vec![])])], &mut stmts, &mut ctx);
    let labels: Vec<&String> = stmts
        .iter()
        .filter_map(|s| match s {
            Stmt::Lbl(l) => Some(l),
            _ => None,
        })
        .collect();
    for (i, l) in labels.iter().enumerate() {
        assert!(!labels[..i].contains(l));
    }
    let mut jumps = 0;
    for s in &stmts {
        match s {
            Stmt::Jmp(l) => {
                assert!(labels.contains(&l));
                jumps += 1;
            }
            Stmt::Jnz(_, yes, no) => {
                assert!(labels.contains(&yes));
                assert!(labels.contains(&no));
                jumps += 1;
            }
            _ => {}
        }
    }
    assert_eq!(jumps, 10);
    assert_eq!(labels.len(), 15);
}

#[test]
fn types_operators_and_linkage() {
    assert_eq!(lower_type(&mir::Type::Double), Type::D);
    assert_eq!(lower_type(&mir::Type::Bool), Type::W);
    assert_eq!(lower_type(&mir::Type::Int32), Type::W);
    assert_eq!(lower_type(&mir::Type::Int64), Type::L);
    assert_eq!(lower_type(&mir::Type::Str), Type::L);
    assert_eq!(lower_type(&mir::Type::Ptr(None)), Type::L);
    assert_eq!(
        lower_type(&mir::Type::Ptr(Some(Box::new(mir::Type::Double)))),
        Type::L
    );
    assert_eq!(lower_opt_type(&None), None);
    assert_eq!(lower_opt_type(&Some(mir::Type::Bool)), Some(Type::W));
    assert_eq!(lower_op(&mir::Op::Eq), Op::Eq);
    assert_eq!(lower_op(&mir::Op::Ne), Op::Ne);
    assert_eq!(lower_visibility(&mir::Visibility::Public), Some(Linkage::Export));
    assert_eq!(lower_visibility(&mir::Visibility::Private), None);
    assert_eq!(
        lower_args(&vec![
            ("a".to_string(), mir::Type::Str),
            ("b".to_string(), mir::Type::Double),
        ]),
        vec![("a".to_string(), Type::L), ("b".to_string(), Type::D)]
    );
}

#[test]
fn forward_declarations_leave_nothing_behind() {
    let mut ctx = LoweringCtx::new("m");
    let decls = lower_decls(
        &vec![
            mir::Decl::FwdDecl(
                "g".to_string(),
                mir::Visibility::Public,
                None,
                vec![],
                false,
            ),
            mir::Decl::FuncDecl(
                "f".to_string(),
                mir::Visibility::Private,
                Some(mir::Type::Int64),
                vec![("a".to_string(), mir::Type::Bool)],
                false,
                vec![mir::Stmt::Ret(Some(mir::Expr::ConstInt64(1)))],
            ),
        ],
        &mut ctx,
    );
    assert_eq!(
        decls,
        vec![Decl::FuncDecl(
            "f".to_string(),
            None,
            Some(Type::L),
            vec![("a".to_string(), Type::W)],
            false,
            vec![Stmt::Lbl("start".to_string()), Stmt::Ret(Some(Value::ConstL(1)))],
        )]
    );
}
