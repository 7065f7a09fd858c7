use midlang::mir::{Decl, Expr, Module, Stmt, Type, Visibility};
use midlang::type_check::{check_stmts, type_check, TypeError};

#[test]
#[should_panic(expected = "FwdDecl mismatch for func 'main'")]
fn type_check_func_decl_fwd_decl_mismatch() {
    let modules = [Module {
        name: "".to_string(),
        decls: vec![
            Decl::FwdDecl(
                "main".to_string(),
                Visibility::Public,
                Some(Type::Str),
                vec![("s".to_string(), Type::Str)],
                false,
            ),
            Decl::FuncDecl(
                "main".to_string(),
                Visibility::Public,
                Some(Type::Int32),
                vec![],
                false,
                vec![Stmt::Ret(Some(Expr::ConstInt32(0)))],
            ),
        ],
    }];

    type_check(&modules).map_err(|e| e.message()).unwrap();
}

#[test]
#[should_panic(expected = "FwdDecl mismatch for func 'main'")]
fn func_decl_fwd_decl_mismatch2() {
    let modules = [Module {
        name: "".to_string(),
        decls: vec![
            Decl::FwdDecl(
                "main".to_string(),
                Visibility::Public,
                None,
                vec![("s".to_string(), Type::Str)],
                false,
            ),
            Decl::FuncDecl(
                "main".to_string(),
                Visibility::Public,
                Some(Type::Int32),
                vec![],
                false,
                vec![Stmt::Ret(Some(Expr::ConstInt32(0)))],
            ),
        ],
    }];

    type_check(&modules).map_err(|e| e.message()).unwrap();
}

#[test]
#[should_panic(expected = "Args for func 'main' must have unique names")]
fn type_check_func_decl_non_uniq_arg_names() {
    let modules = [Module {
        name: "".to_string(),
        decls: vec![Decl::FuncDecl(
            "main".to_string(),
            Visibility::Public,
            Some(Type::Int32),
            vec![("s".to_string(), Type::Str), ("s".to_string(), Type::Str)],
            false,
            vec![Stmt::Ret(Some(Expr::ConstInt32(0)))],
        )],
    }];

    type_check(&modules).map_err(|e| e.message()).unwrap();
}

#[test]
#[should_panic(expected = "Calling func 'puts' which does not have a forward declaration")]
fn type_check_func_call_no_fwd_decl() {
    let modules = [Module {
        name: "".to_string(),
        decls: vec![Decl::FuncDecl(
            "main".to_string(),
            Visibility::Public,
            Some(Type::Int32),
            vec![],
            false,
            vec![
                Stmt::VarDecl(
                    "r".to_string(),
                    Expr::FuncCall(
                        "puts".to_string(),
                        Type::Int32,
                        vec![Expr::ConstStr("hello world".to_string())],
                    ),
                ),
                Stmt::Ret(Some(Expr::ConstInt32(0))),
            ],
        )],
    }];

    type_check(&modules).map_err(|e| e.message()).unwrap();
}

#[test]
#[should_panic(expected = "Return statment type does not match function type")]
fn type_check_func_ret_type_mismatch() {
    let modules = [Module {
        name: "".to_string(),
        decls: vec![Decl::FuncDecl(
            "main".to_string(),
            Visibility::Public,
            Some(Type::Int32),
            vec![],
            false,
            vec![Stmt::Ret(Some(Expr::ConstStr("hello world".to_string())))],
        )],
    }];

    type_check(&modules).map_err(|e| e.message()).unwrap();
}

#[test]
#[should_panic(expected = "Return statment type does not match function type")]
fn func_ret_type_mismatch2() {
    let modules = [Module {
        name: "".to_string(),
        decls: vec![Decl::FuncDecl(
            "main".to_string(),
            Visibility::Public,
            Some(Type::Int32),
            vec![],
            false,
            vec![Stmt::Ret(None)],
        )],
    }];

    type_check(&modules).map_err(|e| e.message()).unwrap();
}

#[test]
#[should_panic(expected = "VarRef 'missing' does not have a declaration")]
fn var_ref_no_decl() {
    let modules = [Module {
        name: "".to_string(),
        decls: vec![Decl::FuncDecl(
            "main".to_string(),
            Visibility::Public,
            Some(Type::Int32),
            vec![],
            false,
            vec![Stmt::Ret(Some(Expr::VarRef(
                "missing".to_string(),
                Type::Int32,
                false,
            )))],
        )],
    }];

    type_check(&modules).map_err(|e| e.message()).unwrap();
}

#[test]
#[should_panic(expected = "VarRef 'x' type does not match its declaration")]
fn var_ref_decl_mismatch() {
    let modules = [Module {
        name: "".to_string(),
        decls: vec![Decl::FuncDecl(
            "main".to_string(),
            Visibility::Public,
            Some(Type::Int32),
            vec![],
            false,
            vec![
                Stmt::VarDecl("x".to_string(), Expr::ConstBool(true)),
                Stmt::Ret(Some(Expr::VarRef("x".to_string(), Type::Int32, false))),
            ],
        )],
    }];

    type_check(&modules).map_err(|e| e.message()).unwrap();
}

#[test]
#[should_panic(expected = "FuncCall 'puts' parameter count does not match forward declaration")]
fn type_check_func_call_fewer_fixed_params() {
    let modules = [Module {
        name: "".to_string(),
        decls: vec![
            Decl::FwdDecl(
                "puts".to_string(),
                Visibility::Public,
                Some(Type::Int32),
                vec![("s".to_string(), Type::Str)],
                false,
            ),
            Decl::FuncDecl(
                "main".to_string(),
                Visibility::Public,
                Some(Type::Int32),
                vec![],
                false,
                vec![
                    Stmt::VarDecl(
                        "r".to_string(),
                        Expr::FuncCall("puts".to_string(), Type::Int32, vec![]),
                    ),
                    Stmt::Ret(Some(Expr::ConstInt32(0))),
                ],
            ),
        ],
    }];

    type_check(&modules).map_err(|e| e.message()).unwrap();
}

#[test]
#[should_panic(expected = "FuncCall 'puts' parameter count does not match forward declaration")]
fn type_check_func_call_more_fixed_params() {
    let modules = [Module {
        name: "".to_string(),
        decls: vec![
            Decl::FwdDecl(
                "puts".to_string(),
                Visibility::Public,
                Some(Type::Int32),
                vec![("s".to_string(), Type::Str)],
                false,
            ),
            Decl::FuncDecl(
                "main".to_string(),
                Visibility::Public,
                Some(Type::Int32),
                vec![],
                false,
                vec![
                    Stmt::VarDecl(
                        "r".to_string(),
                        Expr::FuncCall(
                            "puts".to_string(),
                            Type::Int32,
                            vec![
                                Expr::ConstStr("hello world".to_string()),
                                Expr::ConstStr("err?".to_string()),
                            ],
                        ),
                    ),
                    Stmt::Ret(Some(Expr::ConstInt32(0))),
                ],
            ),
        ],
    }];

    type_check(&modules).map_err(|e| e.message()).unwrap();
}

#[test]
#[should_panic(
    expected = "FuncCall 'puts' parameter 0 type does not match forward declaration"
)]
fn type_check_func_call_fixed_param_type_mismatch() {
    let modules = [Module {
        name: "".to_string(),
        decls: vec![
            Decl::FwdDecl(
                "puts".to_string(),
                Visibility::Public,
                Some(Type::Int32),
                vec![("s".to_string(), Type::Str)],
                false,
            ),
            Decl::FuncDecl(
                "main".to_string(),
                Visibility::Public,
                Some(Type::Int32),
                vec![],
                false,
                vec![
                    Stmt::VarDecl(
                        "r".to_string(),
                        Expr::FuncCall(
                            "puts".to_string(),
                            Type::Int32,
                            vec![Expr::ConstInt32(1)],
                        ),
                    ),
                    Stmt::Ret(Some(Expr::ConstInt32(0))),
                ],
            ),
        ],
    }];

    type_check(&modules).map_err(|e| e.message()).unwrap();
}

#[test]
#[should_panic(
    expected = "FuncCall 'frexp' parameter 1 type does not match forward declaration"
)]
fn func_call_by_ref_type_mismatch() {
    let modules = [Module {
        name: "".to_string(),
        decls: vec![
            Decl::FwdDecl(
                "frexp".to_string(),
                Visibility::Public,
                Some(Type::Double),
                vec![
                    ("x".to_string(), Type::Double),
                    ("exp".to_string(), Type::Ptr(Some(Box::new(Type::Int32)))),
                ],
                false,
            ),
            Decl::FuncDecl(
                "main".to_string(),
                Visibility::Public,
                Some(Type::Int32),
                vec![],
                false,
                vec![
                    Stmt::VarDecl("bad_exp".to_string(), Expr::ConstBool(false)),
                    Stmt::VarDecl(
                        "r".to_string(),
                        Expr::FuncCall(
                            "frexp".to_string(),
                            Type::Double,
                            vec![
                                Expr::ConstDouble(format!("{}", 2560.0)),
                                Expr::VarRef("bad_exp".to_string(), Type::Bool, true),
                            ],
                        ),
                    ),
                    Stmt::Ret(Some(Expr::ConstInt32(0))),
                ],
            ),
        ],
    }];

    type_check(&modules).map_err(|e| e.message()).unwrap();
}

#[test]
#[should_panic(
    expected = "FuncCall 'not_ok' parameter 0 type does not match forward declaration"
)]
fn type_check_nested_func_call_type_mismatch() {
    let modules = [Module {
        name: "hello_world".to_string(),
        decls: vec![
            Decl::FwdDecl(
                "puts".to_string(),
                Visibility::Public,
                Some(Type::Int32),
                vec![("s".to_string(), Type::Str)],
                false,
            ),
            Decl::FwdDecl(
                "not_ok".to_string(),
                Visibility::Public,
                Some(Type::Int32),
                vec![("s".to_string(), Type::Str)],
                false,
            ),
            Decl::FuncDecl(
                "main".to_string(),
                Visibility::Public,
                Some(Type::Int32),
                vec![],
                false,
                vec![Stmt::Ret(Some(Expr::FuncCall(
                    "not_ok".to_string(),
                    Type::Int32,
                    vec![Expr::FuncCall(
                        "puts".to_string(),
                        Type::Int32,
                        vec![Expr::ConstStr("hello world".to_string())],
                    )],
                )))],
            ),
        ],
    }];

    type_check(&modules).map_err(|e| e.message()).unwrap();
}

#[test]
#[should_panic(
    expected = "FuncCall 'printf' parameter count does not match forward declaration"
)]
fn func_call_variadic_params_just_one_too_few() {
    let modules = [Module {
        name: "".to_string(),
        decls: vec![
            Decl::FwdDecl(
                "printf".to_string(),
                Visibility::Public,
                Some(Type::Int32),
                vec![("fmt".to_string(), Type::Str)],
                true,
            ),
            Decl::FuncDecl(
                "main".to_string(),
                Visibility::Public,
                Some(Type::Int32),
                vec![],
                false,
                vec![
                    Stmt::VarDecl(
                        "r1".to_string(),
                        Expr::FuncCall("printf".to_string(), Type::Int32, vec![]),
                    ),
                    Stmt::Ret(Some(Expr::ConstInt32(0))),
                ],
            ),
        ],
    }];

    type_check(&modules).map_err(|e| e.message()).unwrap();
}

#[test]
#[should_panic(expected = "Func 'printf' requires at least one argument since it is variadic")]
fn fwd_decl_variadic_no_params() {
    let modules = [Module {
        name: "".to_string(),
        decls: vec![
            Decl::FwdDecl(
                "printf".to_string(),
                Visibility::Public,
                Some(Type::Int32),
                vec![],
                true,
            ),
            Decl::FuncDecl(
                "main".to_string(),
                Visibility::Public,
                Some(Type::Int32),
                vec![],
                false,
                vec![
                    Stmt::VarDecl(
                        "r1".to_string(),
                        Expr::FuncCall("printf".to_string(), Type::Int32, vec![]),
                    ),
                    Stmt::Ret(Some(Expr::ConstInt32(0))),
                ],
            ),
        ],
    }];

    type_check(&modules).map_err(|e| e.message()).unwrap();
}

#[test]
#[should_panic(expected = "Func 'main' requires at least one argument since it is variadic")]
fn func_decl_variadic_no_params() {
    let modules = [Module {
        name: "".to_string(),
        decls: vec![
            Decl::FwdDecl(
                "printf".to_string(),
                Visibility::Public,
                Some(Type::Int32),
                vec![],
                false,
            ),
            Decl::FuncDecl(
                "main".to_string(),
                Visibility::Public,
                Some(Type::Int32),
                vec![],
                true,
                vec![
                    Stmt::VarDecl(
                        "r1".to_string(),
                        Expr::FuncCall("printf".to_string(), Type::Int32, vec![]),
                    ),
                    Stmt::Ret(Some(Expr::ConstInt32(0))),
                ],
            ),
        ],
    }];

    type_check(&modules).map_err(|e| e.message()).unwrap();
}

#[test]
#[should_panic(
    expected = "FuncCall 'printf' parameter 0 type does not match forward declaration"
)]
fn func_call_variadic_params_just_one_type_mismatch() {
    let modules = [Module {
        name: "".to_string(),
        decls: vec![
            Decl::FwdDecl(
                "printf".to_string(),
                Visibility::Public,
                Some(Type::Int32),
                vec![("fmt".to_string(), Type::Str)],
                true,
            ),
            Decl::FuncDecl(
                "main".to_string(),
                Visibility::Public,
                Some(Type::Int32),
                vec![],
                false,
                vec![
                    Stmt::VarDecl(
                        "r1".to_string(),
                        Expr::FuncCall(
                            "printf".to_string(),
                            Type::Int32,
                            vec![Expr::ConstInt32(1)],
                        ),
                    ),
                    Stmt::Ret(Some(Expr::ConstInt32(0))),
                ],
            ),
        ],
    }];

    type_check(&modules).map_err(|e| e.message()).unwrap();
}

#[test]
#[should_panic(
    expected = "FuncCall 'printnf' parameter count does not match forward declaration"
)]
fn func_call_variadic_params_with_many_too_few() {
    let modules = [Module {
        name: "".to_string(),
        decls: vec![
            Decl::FwdDecl(
                "printnf".to_string(),
                Visibility::Public,
                Some(Type::Int32),
                vec![
                    ("fmt".to_string(), Type::Str),
                    ("n".to_string(), Type::Int32),
                ],
                true,
            ),
            Decl::FuncDecl(
                "main".to_string(),
                Visibility::Public,
                Some(Type::Int32),
                vec![],
                false,
                vec![
                    Stmt::VarDecl(
                        "r1".to_string(),
                        Expr::FuncCall(
                            "printnf".to_string(),
                            Type::Int32,
                            vec![Expr::ConstStr("hello world".to_string())],
                        ),
                    ),
                    Stmt::Ret(Some(Expr::ConstInt32(0))),
                ],
            ),
        ],
    }];

    type_check(&modules).map_err(|e| e.message()).unwrap();
}

#[test]
#[should_panic(
    expected = "FuncCall 'printnf' parameter 1 type does not match forward declaration"
)]
fn func_call_variadic_params_with_many_type_mismatch() {
    let modules = [Module {
        name: "".to_string(),
        decls: vec![
            Decl::FwdDecl(
                "printnf".to_string(),
                Visibility::Public,
                Some(Type::Int32),
                vec![
                    ("fmt".to_string(), Type::Str),
                    ("n".to_string(), Type::Int32),
                ],
                true,
            ),
            Decl::FuncDecl(
                "main".to_string(),
                Visibility::Public,
                Some(Type::Int32),
                vec![],
                false,
                vec![
                    Stmt::VarDecl(
                        "r1".to_string(),
                        Expr::FuncCall(
                            "printnf".to_string(),
                            Type::Int32,
                            vec![
                                Expr::ConstStr("hello world".to_string()),
                                Expr::ConstStr("hello world".to_string()),
                            ],
                        ),
                    ),
                    Stmt::Ret(Some(Expr::ConstInt32(0))),
                ],
            ),
        ],
    }];

    type_check(&modules).map_err(|e| e.message()).unwrap();
}

#[test]
#[should_panic(expected = "Cond case expressions must be of type bool")]
fn func_cond_case_not_bool() {
    let modules = [Module {
        name: "".to_string(),
        decls: vec![
            Decl::FwdDecl(
                "printnf".to_string(),
                Visibility::Public,
                Some(Type::Int32),
                vec![
                    ("fmt".to_string(), Type::Str),
                    ("n".to_string(), Type::Int32),
                ],
                true,
            ),
            Decl::FuncDecl(
                "main".to_string(),
                Visibility::Public,
                Some(Type::Int32),
                vec![],
                false,
                vec![
                    Stmt::Cond(vec![(
                        Expr::ConstInt32(3),
                        vec![Stmt::VarDecl(
                            "r1".to_string(),
                            Expr::FuncCall(
                                "printnf".to_string(),
                                Type::Int32,
                                vec![
                                    Expr::ConstStr("hello world".to_string()),
                                    Expr::ConstStr("hello world".to_string()),
                                ],
                            ),
                        )],
                    )]),
                    Stmt::Ret(Some(Expr::ConstInt32(0))),
                ],
            ),
        ],
    }];

    type_check(&modules).map_err(|e| e.message()).unwrap();
}

fn main_with(body: Vec<Stmt>) -> Decl {
    Decl::FuncDecl(
        "main".to_string(),
        Visibility::Public,
        Some(Type::Int32),
        vec![],
        false,
        body,
    )
}

fn fwd(name: &str, ret: Option<Type>, args: Vec<(String, Type)>, variadic: bool) -> Decl {
    Decl::FwdDecl(name.to_string(), Visibility::Public, ret, args, variadic)
}

fn check(decls: Vec<Decl>) -> Result<(), TypeError> {
    type_check(&[Module { name: "m".to_string(), decls }])
}

#[test]
fn each_violation_is_reported_as_its_variant() {
    assert_eq!(
        check(vec![fwd("f", None, vec![], true)]),
        Err(TypeError::VariadicWithoutArgs("f".to_string()))
    );
    assert_eq!(
        check(vec![
            fwd("main", None, vec![], false),
            main_with(vec![Stmt::Ret(Some(Expr::ConstInt32(0)))]),
        ]),
        Err(TypeError::FwdDeclMismatch("main".to_string()))
    );
    assert_eq!(
        check(vec![Decl::FuncDecl(
            "f".to_string(),
            Visibility::Private,
            None,
            vec![("a".to_string(), Type::Bool), ("a".to_string(), Type::Str)],
            false,
            vec![],
        )]),
        Err(TypeError::NonUniqueArgNames("f".to_string()))
    );
    assert_eq!(
        check(vec![main_with(vec![Stmt::Ret(Some(Expr::FuncCall(
            "g".to_string(),
            Type::Int32,
            vec![],
        )))])]),
        Err(TypeError::UnresolvedCall("g".to_string()))
    );
    assert_eq!(
        check(vec![main_with(vec![Stmt::Ret(None)])]),
        Err(TypeError::RetTypeMismatch)
    );
    assert_eq!(
        check(vec![main_with(vec![Stmt::Ret(Some(Expr::VarRef(
            "x".to_string(),
            Type::Int32,
            false,
        )))])]),
        Err(TypeError::VarRefUndeclared("x".to_string()))
    );
    assert_eq!(
        check(vec![main_with(vec![
            Stmt::VarDecl("x".to_string(), Expr::ConstInt64(1)),
            Stmt::Ret(Some(Expr::VarRef("x".to_string(), Type::Int32, false))),
        ])]),
        Err(TypeError::VarRefTypeMismatch("x".to_string()))
    );
    assert_eq!(
        check(vec![
            fwd("g", Some(Type::Str), vec![], false),
            main_with(vec![Stmt::Ret(Some(Expr::FuncCall(
                "g".to_string(),
                Type::Int32,
                vec![],
            )))]),
        ]),
        Err(TypeError::CallTypeMismatch("g".to_string()))
    );
    assert_eq!(
        check(vec![
            fwd("g", None, vec![], false),
            main_with(vec![Stmt::Ret(Some(Expr::FuncCall(
                "g".to_string(),
                Type::Int32,
                vec![],
            )))]),
        ]),
        Err(TypeError::CallTypeMismatch("g".to_string()))
    );
    assert_eq!(
        check(vec![
            fwd("g", Some(Type::Int32), vec![], false),
            main_with(vec![Stmt::Ret(Some(Expr::FuncCall(
                "g".to_string(),
                Type::Int32,
                vec![Expr::ConstBool(true)],
            )))]),
        ]),
        Err(TypeError::CallArityMismatch("g".to_string()))
    );
    assert_eq!(
        check(vec![
            fwd(
                "g",
                Some(Type::Int32),
                vec![("a".to_string(), Type::Bool), ("b".to_string(), Type::Str)],
                false,
            ),
            main_with(vec![Stmt::Ret(Some(Expr::FuncCall(
                "g".to_string(),
                Type::Int32,
                vec![Expr::ConstBool(true), Expr::ConstInt32(2)],
            )))]),
        ]),
        Err(TypeError::CallParamTypeMismatch("g".to_string(), 1))
    );
    assert_eq!(
        check(vec![main_with(vec![Stmt::Cond(vec![(Expr::ConstInt32(1), vec![])])])]),
        Err(TypeError::CondNotBool)
    );
}

#[test]
fn messages_are_the_literal_texts() {
    let name = "f".to_string();
    assert_eq!(
        TypeError::VariadicWithoutArgs(name.clone()).message(),
        "Func 'f' requires at least one argument since it is variadic"
    );
    assert_eq!(
        TypeError::FwdDeclMismatch(name.clone()).message(),
        "FwdDecl mismatch for func 'f'"
    );
    assert_eq!(
        TypeError::NonUniqueArgNames(name.clone()).message(),
        "Args for func 'f' must have unique names"
    );
    assert_eq!(
        TypeError::UnresolvedCall(name.clone()).message(),
        "Calling func 'f' which does not have a forward declaration"
    );
    assert_eq!(
        TypeError::RetTypeMismatch.message(),
        "Return statment type does not match function type"
    );
    assert_eq!(
        TypeError::VarRefUndeclared(name.clone()).message(),
        "VarRef 'f' does not have a declaration"
    );
    assert_eq!(
        TypeError::VarRefTypeMismatch(name.clone()).message(),
        "VarRef 'f' type does not match its declaration"
    );
    assert_eq!(
        TypeError::CallTypeMismatch(name.clone()).message(),
        "FuncCall 'f' type does not match forward declaration"
    );
    assert_eq!(
        TypeError::CallArityMismatch(name.clone()).message(),
        "FuncCall 'f' parameter count does not match forward declaration"
    );
    assert_eq!(
        TypeError::CallParamTypeMismatch(name.clone(), 12).message(),
        "FuncCall 'f' parameter 12 type does not match forward declaration"
    );
    assert_eq!(
        TypeError::CondNotBool.message(),
        "Cond case expressions must be of type bool"
    );
}

#[test]
fn the_first_declaration_of_a_name_stays() {
    // The same signature may be declared again, before or after the function.
    assert_eq!(
        check(vec![
            fwd("main", Some(Type::Int32), vec![], false),
            main_with(vec![Stmt::Ret(Some(Expr::ConstInt32(0)))]),
            fwd("main", Some(Type::Int32), vec![], false),
        ]),
        Ok(())
    );
    // Another signature after the function is a mismatch.
    assert_eq!(
        check(vec![
            main_with(vec![Stmt::Ret(Some(Expr::ConstInt32(0)))]),
            fwd("main", Some(Type::Str), vec![], false),
        ]),
        Err(TypeError::FwdDeclMismatch("main".to_string()))
    );
    // So is another signature after a forward declaration.
    assert_eq!(
        check(vec![
            fwd("g", Some(Type::Str), vec![], false),
            fwd("g", Some(Type::Str), vec![("a".to_string(), Type::Bool)], false),
        ]),
        Err(TypeError::FwdDeclMismatch("g".to_string()))
    );
}

#[test]
fn what_an_arm_declares_is_not_seen_after_it() {
    let uses_x = Stmt::Ret(Some(Expr::VarRef("x".to_string(), Type::Int32, false)));
    assert_eq!(
        check(vec![main_with(vec![
            Stmt::Cond(vec![(
                Expr::ConstBool(true),
                vec![Stmt::VarDecl("x".to_string(), Expr::ConstInt32(1))],
            )]),
            uses_x,
        ])]),
        Err(TypeError::VarRefUndeclared("x".to_string()))
    );
    assert_eq!(
        check(vec![main_with(vec![Stmt::Cond(vec![(
            Expr::ConstBool(true),
            vec![
                Stmt::VarDecl("x".to_string(), Expr::ConstInt32(1)),
                Stmt::Ret(Some(Expr::VarRef("x".to_string(), Type::Int32, false))),
            ],
        )])])]),
        Ok(())
    );
}

#[test]
fn arguments_seed_the_scope_and_a_later_binding_replaces_an_earlier() {
    assert_eq!(
        check(vec![Decl::FuncDecl(
            "f".to_string(),
            Visibility::Private,
            Some(Type::Str),
            vec![("a".to_string(), Type::Bool)],
            false,
            vec![
                Stmt::VarDecl("b".to_string(), Expr::VarRef("a".to_string(), Type::Bool, false)),
                Stmt::VarDecl("a".to_string(), Expr::ConstStr("s".to_string())),
                Stmt::Ret(Some(Expr::VarRef("a".to_string(), Type::Str, false))),
            ],
        )]),
        Ok(())
    );
}

#[test]
fn the_variadic_tail_is_not_held_to_a_type_but_is_checked() {
    let printf = fwd(
        "printf",
        Some(Type::Int32),
        vec![("fmt".to_string(), Type::Str)],
        true,
    );
    let call = |tail: Expr| {
        Stmt::VarDecl(
            "r".to_string(),
            Expr::FuncCall(
                "printf".to_string(),
                Type::Int32,
                vec![Expr::ConstStr("%d".to_string()), tail],
            ),
        )
    };
    let ret = || Stmt::Ret(Some(Expr::ConstInt32(0)));
    assert_eq!(
        check(vec![
            fwd("printf", Some(Type::Int32), vec![("fmt".to_string(), Type::Str)], true),
            main_with(vec![call(Expr::ConstBool(true)), ret()]),
        ]),
        Ok(())
    );
    assert_eq!(
        check(vec![
            printf,
            main_with(vec![
                call(Expr::VarRef("nowhere".to_string(), Type::Int32, false)),
                ret(),
            ]),
        ]),
        Err(TypeError::VarRefUndeclared("nowhere".to_string()))
    );
}

#[test]
fn a_pointer_parameter_takes_a_variable_by_reference() {
    let frexp = || {
        fwd(
            "frexp",
            Some(Type::Double),
            vec![
                ("x".to_string(), Type::Double),
                ("exp".to_string(), Type::Ptr(Some(Box::new(Type::Int32)))),
            ],
            false,
        )
    };
    let call = |actual: Expr| {
        main_with(vec![
            Stmt::VarDecl("e".to_string(), Expr::ConstInt32(0)),
            Stmt::VarDecl("p".to_string(), Expr::ConstInt64(0)),
            Stmt::VarDecl(
                "r".to_string(),
                Expr::FuncCall(
                    "frexp".to_string(),
                    Type::Double,
                    vec![Expr::ConstDouble("1.5".to_string()), actual],
                ),
            ),
            Stmt::Ret(Some(Expr::ConstInt32(0))),
        ])
    };
    assert_eq!(
        check(vec![frexp(), call(Expr::VarRef("e".to_string(), Type::Int32, true))]),
        Ok(())
    );
    // By value, the variable's own type must be the pointer type.
    assert_eq!(
        check(vec![frexp(), call(Expr::VarRef("e".to_string(), Type::Int32, false))]),
        Err(TypeError::CallParamTypeMismatch("frexp".to_string(), 1))
    );
    assert_eq!(
        check(vec![frexp(), call(Expr::VarRef("p".to_string(), Type::Int64, true))]),
        Err(TypeError::CallParamTypeMismatch("frexp".to_string(), 1))
    );
}

#[test]
fn the_first_violation_in_source_order_is_the_one_reported() {
    let bad_module = Module {
        name: "b".to_string(),
        decls: vec![fwd("v", None, vec![], true)],
    };
    let worse_module = Module {
        name: "w".to_string(),
        decls: vec![main_with(vec![Stmt::Ret(None)])],
    };
    assert_eq!(
        type_check(&[worse_module, bad_module]),
        Err(TypeError::RetTypeMismatch)
    );
    assert_eq!(type_check(&[]), Ok(()));
}

#[test]
fn a_call_as_a_statement_names_a_declared_function() {
    let ret = || Stmt::Ret(Some(Expr::ConstInt32(0)));
    let nope = Stmt::FuncCall("nope".to_string(), vec![]);
    let err = check(vec![main_with(vec![nope, ret()])]).unwrap_err();
    assert_eq!(err, TypeError::UnresolvedCall("nope".to_string()));
    assert_eq!(
        err.message(),
        "Calling func 'nope' which does not have a forward declaration"
    );
    // In a function without return type and with nothing declared.
    assert_eq!(
        check(vec![Decl::FuncDecl(
            "f".to_string(),
            Visibility::Private,
            None,
            vec![],
            false,
            vec![Stmt::FuncCall("nope".to_string(), vec![]), Stmt::Ret(None)],
        )]),
        Err(TypeError::UnresolvedCall("nope".to_string()))
    );
    // The callee is looked for before the arguments are.
    assert_eq!(
        check(vec![main_with(vec![
            Stmt::FuncCall(
                "nope".to_string(),
                vec![Expr::VarRef("x".to_string(), Type::Int32, false)],
            ),
            ret(),
        ])]),
        Err(TypeError::UnresolvedCall("nope".to_string()))
    );
}

#[test]
fn a_call_as_a_statement_is_held_to_the_parameters_but_to_no_type() {
    let ret = || Stmt::Ret(Some(Expr::ConstInt32(0)));
    let call = |args: Vec<Expr>| Stmt::FuncCall("g".to_string(), args);
    let g = |ret: Option<Type>, variadic: bool| {
        fwd(
            "g",
            ret,
            vec![("a".to_string(), Type::Str), ("b".to_string(), Type::Bool)],
            variadic,
        )
    };
    let s = || Expr::ConstStr("s".to_string());
    let b = || Expr::ConstBool(true);
    // Whatever the function returns, or nothing.
    for ty in [None, Some(Type::Int32), Some(Type::Str)] {
        assert_eq!(
            check(vec![g(ty, false), main_with(vec![call(vec![s(), b()]), ret()])]),
            Ok(())
        );
    }
    assert_eq!(
        check(vec![g(None, false), main_with(vec![call(vec![s()]), ret()])]),
        Err(TypeError::CallArityMismatch("g".to_string()))
    );
    assert_eq!(
        check(vec![g(None, false), main_with(vec![call(vec![s(), b(), b()]), ret()])]),
        Err(TypeError::CallArityMismatch("g".to_string()))
    );
    assert_eq!(
        check(vec![g(None, true), main_with(vec![call(vec![s(), b(), s()]), ret()])]),
        Ok(())
    );
    assert_eq!(
        check(vec![g(None, true), main_with(vec![call(vec![s()]), ret()])]),
        Err(TypeError::CallArityMismatch("g".to_string()))
    );
    assert_eq!(
        check(vec![g(None, false), main_with(vec![call(vec![s(), s()]), ret()])]),
        Err(TypeError::CallParamTypeMismatch("g".to_string(), 1))
    );
    // The arguments are checked in themselves after that.
    assert_eq!(
        check(vec![
            g(None, false),
            main_with(vec![
                call(vec![s(), Expr::VarRef("x".to_string(), Type::Bool, false)]),
                ret(),
            ]),
        ]),
        Err(TypeError::VarRefUndeclared("x".to_string()))
    );
}

#[test]
fn statements_are_checked_against_the_tables_they_are_given() {
    let stmts = vec![Stmt::FuncCall("nope".to_string(), vec![]), Stmt::Ret(None)];
    let err = check_stmts(&stmts, &None, &vec![], &mut vec![]).unwrap_err();
    assert_eq!(
        err.message(),
        "Calling func 'nope' which does not have a forward declaration"
    );
    let declared = vec![Stmt::VarDecl("x".to_string(), Expr::ConstInt32(1)), Stmt::Ret(None)];
    let mut scope = vec![];
    assert_eq!(check_stmts(&declared, &None, &vec![], &mut scope), Ok(()));
    assert_eq!(scope, vec![(&"x".to_string(), &Type::Int32)]);
}
