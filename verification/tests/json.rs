use midlang::json_lang::{Case, Decl, Expr, FuncArg, JSONLang, Module, Number, Stmt, Type, Value, Visibility};
use midlang::json_lower::{lower, LowerError};
use midlang::json_raise::raise;
use midlang::mir;

fn document(stmts: Vec<Stmt>) -> JSONLang {
    JSONLang::Modules(vec![Module {
        name: "m".to_string(),
        decls: vec![Decl::FuncDecl {
            name: "main".to_string(),
            visibility: Visibility::Private,
            ty: None,
            args: vec![],
            variadic: None,
            stmts,
        }],
    }])
}

fn program(stmts: Vec<mir::Stmt>) -> Vec<mir::Module> {
    vec![mir::Module {
        name: "m".to_string(),
        decls: vec![mir::Decl::FuncDecl(
            "main".to_string(),
            mir::Visibility::Private,
            None,
            vec![],
            false,
            stmts,
        )],
    }]
}

fn constant(value: Value, ty: Type) -> Stmt {
    Stmt::VarDecl { name: "v".to_string(), value: Expr::Const { value, ty } }
}

fn whole(i: i64) -> Value {
    Value::Number(Number { integer: Some(i), double: None })
}

fn lowered_constant(value: Value, ty: Type) -> Result<mir::Expr, LowerError> {
    lower(&document(vec![constant(value, ty)])).map(|mut modules| {
        match modules.remove(0).decls.remove(0) {
            mir::Decl::FuncDecl(_, _, _, _, _, mut body) => match body.remove(0) {
                mir::Stmt::VarDecl(_, e) => e,
                _ => unreachable!(),
            },
            _ => unreachable!(),
        }
    })
}

#[test]
fn constants_of_their_types() {
    assert_eq!(lowered_constant(Value::Bool(true), Type::Bool), Ok(mir::Expr::ConstBool(true)));
    assert_eq!(lowered_constant(whole(-7), Type::Int32), Ok(mir::Expr::ConstInt32(-7)));
    assert_eq!(
        lowered_constant(whole(2147483647), Type::Int32),
        Ok(mir::Expr::ConstInt32(i32::MAX))
    );
    assert_eq!(
        lowered_constant(whole(-2147483648), Type::Int32),
        Ok(mir::Expr::ConstInt32(i32::MIN))
    );
    assert_eq!(
        lowered_constant(whole(1 << 40), Type::Int64),
        Ok(mir::Expr::ConstInt64(1 << 40))
    );
    assert_eq!(
        lowered_constant(
            Value::Number(Number { integer: None, double: Some("2.5".to_string()) }),
            Type::Double
        ),
        Ok(mir::Expr::ConstDouble("2.5".to_string()))
    );
    assert_eq!(
        lowered_constant(
            Value::Number(Number { integer: Some(3), double: Some("3".to_string()) }),
            Type::Double
        ),
        Ok(mir::Expr::ConstDouble("3".to_string()))
    );
    assert_eq!(
        lowered_constant(Value::String("s".to_string()), Type::Str),
        Ok(mir::Expr::ConstStr("s".to_string()))
    );
}

#[test]
fn each_failure_of_a_constant() {
    assert_eq!(lowered_constant(Value::Bool(true), Type::Int32), Err(LowerError::UnsupportedValue));
    assert_eq!(
        lowered_constant(Value::String("s".to_string()), Type::Bool),
        Err(LowerError::UnsupportedValue)
    );
    assert_eq!(lowered_constant(Value::Null, Type::Double), Err(LowerError::UnsupportedValue));
    assert_eq!(lowered_constant(Value::Array, Type::Str), Err(LowerError::UnsupportedValue));
    assert_eq!(lowered_constant(Value::Object, Type::Str), Err(LowerError::UnsupportedValue));
    assert_eq!(lowered_constant(whole(2147483648), Type::Int32), Err(LowerError::NotInt32));
    assert_eq!(lowered_constant(whole(-2147483649), Type::Int32), Err(LowerError::NotInt32));
    assert_eq!(
        lowered_constant(
            Value::Number(Number { integer: None, double: Some("1.5".to_string()) }),
            Type::Int32
        ),
        Err(LowerError::NotInt32)
    );
    assert_eq!(
        lowered_constant(
            Value::Number(Number { integer: None, double: Some("1.5".to_string()) }),
            Type::Int64
        ),
        Err(LowerError::NotInt64)
    );
    assert_eq!(lowered_constant(whole(1), Type::Double), Err(LowerError::NotDouble));
    assert_eq!(lowered_constant(whole(1), Type::Str), Err(LowerError::InvalidNumber));
    assert_eq!(lowered_constant(whole(1), Type::Bool), Err(LowerError::InvalidNumber));
    assert_eq!(lowered_constant(whole(1), Type::VoidPtr), Err(LowerError::InvalidNumber));
}

#[test]
fn failure_messages() {
    assert_eq!(LowerError::UnsupportedValue.message(), "Unsupported value and type");
    assert_eq!(LowerError::NotInt32.message(), "Number is not an Int32");
    assert_eq!(LowerError::NotInt64.message(), "Number is not an Int64");
    assert_eq!(LowerError::NotDouble.message(), "Number is not a Double");
    assert_eq!(LowerError::InvalidNumber.message(), "Invalid number value and type");
}

#[test]
fn the_first_failure_is_the_one_reported() {
    let doc = document(vec![
        constant(Value::Bool(true), Type::Bool),
        Stmt::Cond {
            cases: vec![Case {
                expr: Expr::Not {
                    expr: Box::new(Expr::Eq {
                        lhs: Box::new(Expr::Const { value: whole(1), ty: Type::Str }),
                        rhs: Box::new(Expr::Const { value: Value::Null, ty: Type::Bool }),
                    }),
                },
                stmts: vec![constant(whole(1), Type::Double)],
            }],
        },
        constant(Value::Null, Type::Bool),
    ]);
    assert_eq!(lower(&doc), Err(LowerError::InvalidNumber));
}

#[test]
fn absent_flags_are_false_and_set_flags_are_written() {
    let doc = JSONLang::Modules(vec![Module {
        name: "m".to_string(),
        decls: vec![
            Decl::FwdDecl {
                name: "f".to_string(),
                visibility: Visibility::Public,
                ty: Some(Type::Ptr { to: Box::new(Type::VoidPtr) }),
                args: vec![FuncArg { name: "a".to_string(), ty: Type::Int64 }],
                variadic: Some(false),
            },
            Decl::FuncDecl {
                name: "g".to_string(),
                visibility: Visibility::Private,
                ty: None,
                args: vec![FuncArg { name: "p".to_string(), ty: Type::Double }],
                variadic: Some(true),
                stmts: vec![
                    Stmt::FuncCall {
                        name: "f".to_string(),
                        args: vec![
                            Expr::VarRef { name: "x".to_string(), ty: Type::Int64, byref: None },
                            Expr::VarRef {
                                name: "y".to_string(),
                                ty: Type::Int64,
                                byref: Some(false),
                            },
                            Expr::VarRef {
                                name: "z".to_string(),
                                ty: Type::Int64,
                                byref: Some(true),
                            },
                        ],
                    },
                    Stmt::Ret { value: None },
                ],
            },
        ],
    }]);
    let modules = lower(&doc).unwrap();
    let by_value = |n: &str| mir::Expr::VarRef(n.to_string(), mir::Type::Int64, false);
    assert_eq!(
        modules,
        vec![mir::Module {
            name: "m".to_string(),
            decls: vec![
                mir::Decl::FwdDecl(
                    "f".to_string(),
                    mir::Visibility::Public,
                    Some(mir::Type::Ptr(Some(Box::new(mir::Type::Ptr(None))))),
                    vec![("a".to_string(), mir::Type::Int64)],
                    false,
                ),
                mir::Decl::FuncDecl(
                    "g".to_string(),
                    mir::Visibility::Private,
                    None,
                    vec![("p".to_string(), mir::Type::Double)],
                    true,
                    vec![
                        mir::Stmt::FuncCall(
                            "f".to_string(),
                            vec![
                                by_value("x"),
                                by_value("y"),
                                mir::Expr::VarRef("z".to_string(), mir::Type::Int64, true),
                            ],
                        ),
                        mir::Stmt::Ret(None),
                    ],
                ),
            ],
        }]
    );
    // Raised again, false flags are left out.
    match raise(&modules) {
        JSONLang::Modules(raised) => match &raised[0].decls[0] {
            Decl::FwdDecl { variadic, .. } => assert_eq!(*variadic, None),
            _ => unreachable!(),
        },
    }
    assert_eq!(lower(&raise(&modules)).unwrap(), modules);
}

#[test]
fn raised_constants() {
    let raised = raise(&program(vec![
        mir::Stmt::VarDecl("a".to_string(), mir::Expr::ConstInt32(-3)),
        mir::Stmt::VarDecl("b".to_string(), mir::Expr::ConstDouble("0.5".to_string())),
        mir::Stmt::VarDecl(
            "c".to_string(),
            mir::Expr::Not(Box::new(mir::Expr::Cmp(
                mir::Op::Ne,
                Box::new(mir::Expr::ConstBool(false)),
                Box::new(mir::Expr::ConstInt64(9)),
            ))),
        ),
    ]));
    let named = |name: &str, value: Expr| Stmt::VarDecl { name: name.to_string(), value };
    assert_eq!(
        raised,
        document(vec![
            named("a", Expr::Const { value: whole(-3), ty: Type::Int32 }),
            named(
                "b",
                Expr::Const {
                    value: Value::Number(Number { integer: None, double: Some("0.5".to_string()) }),
                    ty: Type::Double,
                }
            ),
            named(
                "c",
                Expr::Not {
                    expr: Box::new(Expr::Ne {
                        lhs: Box::new(Expr::Const { value: Value::Bool(false), ty: Type::Bool }),
                        rhs: Box::new(Expr::Const { value: whole(9), ty: Type::Int64 }),
                    }),
                }
            ),
        ])
    );
}

#[test]
fn a_double_that_names_no_number_is_raised_to_null() {
    for text in ["inf", "-inf", "NaN"] {
        let modules = program(vec![mir::Stmt::Ret(Some(mir::Expr::ConstDouble(
            text.to_string(),
        )))]);
        let raised = raise(&modules);
        assert_eq!(
            raised,
            document(vec![Stmt::Ret {
                value: Some(Expr::Const { value: Value::Null, ty: Type::Double }),
            }])
        );
        assert_eq!(lower(&raised), Err(LowerError::UnsupportedValue));
    }
    assert_eq!(format!("{}", f64::INFINITY), "inf");
    assert_eq!(format!("{}", f64::NEG_INFINITY), "-inf");
    assert_eq!(format!("{}", f64::NAN), "NaN");
}
