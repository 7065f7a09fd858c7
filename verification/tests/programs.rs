use midlang::il::generate_il;
use midlang::json_lower::lower as json_lower;
use midlang::json_raise::raise as json_raise;
use midlang::lower::lower;
use midlang::mir::{Decl, Expr, Module, Op, Stmt, Type, Visibility};
use midlang::type_check::type_check;

fn mtc_hello_world() -> Vec<Module> {
    vec![Module {
        name: "hello_world".to_string(),
        decls: vec![
            Decl::FwdDecl(
                "puts".to_string(),
                Visibility::Public,
                Some(Type::Int32),
                vec![("s".to_string(), Type::Str)],
                false,
            ),
            Decl::FuncDecl(
                "main".to_string(),
                Visibility::Public,
                Some(Type::Int32),
                vec![],
                false,
                vec![
                    Stmt::VarDecl(
                        "r".to_string(),
                        Expr::FuncCall(
                            "puts".to_string(),
                            Type::Int32,
                            vec![Expr::ConstStr("hello world".to_string())],
                        ),
                    ),
                    Stmt::Ret(Some(Expr::ConstInt32(0))),
                ],
            ),
        ],
    }]
}

fn mtc_hello_world2() -> Vec<Module> {
    vec![
        Module {
            name: "hello_world2".to_string(),
            decls: vec![
                Decl::FwdDecl(
                    "say_hello_world".to_string(),
                    Visibility::Public,
                    Some(Type::Int32),
                    vec![],
                    false,
                ),
                Decl::FuncDecl(
                    "main".to_string(),
                    Visibility::Public,
                    Some(Type::Int32),
                    vec![],
                    false,
                    vec![
                        Stmt::VarDecl(
                            "r".to_string(),
                            Expr::FuncCall("say_hello_world".to_string(), Type::Int32, vec![]),
                        ),
                        Stmt::Ret(Some(Expr::ConstInt32(0))),
                    ],
                ),
            ],
        },
        Module {
            name: "hello_world2_sayer".to_string(),
            decls: vec![
                Decl::FwdDecl(
                    "puts".to_string(),
                    Visibility::Public,
                    Some(Type::Int32),
                    vec![("s".to_string(), Type::Str)],
                    false,
                ),
                Decl::FuncDecl(
                    "say_hello_world".to_string(),
                    Visibility::Public,
                    Some(Type::Int32),
                    vec![],
                    false,
                    vec![
                        Stmt::VarDecl(
                            "r".to_string(),
                            Expr::FuncCall(
                                "puts".to_string(),
                                Type::Int32,
                                vec![Expr::ConstStr("hello world".to_string())],
                            ),
                        ),
                        Stmt::Ret(Some(Expr::ConstInt32(0))),
                    ],
                ),
            ],
        },
    ]
}

fn mtc_hello_world_cond() -> Vec<Module> {
    vec![Module {
        name: "hello_world_cond".to_string(),
        decls: vec![
            Decl::FwdDecl(
                "puts".to_string(),
                Visibility::Public,
                Some(Type::Int32),
                vec![("s".to_string(), Type::Str)],
                false,
            ),
            Decl::FwdDecl(
                "exit".to_string(),
                Visibility::Public,
                Some(Type::Int32),
                vec![("status".to_string(), Type::Int32)],
                false,
            ),
            Decl::FuncDecl(
                "main".to_string(),
                Visibility::Public,
                Some(Type::Int32),
                vec![],
                false,
                vec![
                    Stmt::Cond(vec![
                        (
                            Expr::ConstBool(false),
                            vec![Stmt::VarDecl(
                                "r".to_string(),
                                Expr::FuncCall(
                                    "exit".to_string(),
                                    Type::Int32,
                                    vec![Expr::ConstInt32(1)],
                                ),
                            )],
                        ),
                        (
                            Expr::ConstBool(true),
                            vec![Stmt::VarDecl(
                                "r".to_string(),
                                Expr::FuncCall(
                                    "puts".to_string(),
                                    Type::Int32,
                                    vec![Expr::ConstStr("hello world".to_string())],
                                ),
                            )],
                        ),
                    ]),
                    Stmt::Ret(Some(Expr::ConstInt32(0))),
                ],
            ),
        ],
    }]
}

fn mtc_func_call_variadic_params_multiple() -> Vec<Module> {
    vec![Module {
        name: "func_call_variadic_params_multiple".to_string(),
        decls: vec![
            Decl::FwdDecl(
                "printnf".to_string(),
                Visibility::Public,
                Some(Type::Int32),
                vec![
                    ("fmt".to_string(), Type::Str),
                    ("n".to_string(), Type::Int32),
                ],
                true,
            ),
            Decl::FuncDecl(
                "main".to_string(),
                Visibility::Public,
                Some(Type::Int32),
                vec![],
                false,
                vec![
                    Stmt::VarDecl(
                        "r1".to_string(),
                        Expr::FuncCall(
                            "printnf".to_string(),
                            Type::Int32,
                            vec![
                                Expr::ConstStr("hello world".to_string()),
                                Expr::ConstInt32(0),
                            ],
                        ),
                    ),
                    Stmt::VarDecl(
                        "r2".to_string(),
                        Expr::FuncCall(
                            "printnf".to_string(),
                            Type::Int32,
                            vec![
                                Expr::ConstStr("hello %s %d".to_string()),
                                Expr::ConstInt32(1),
                                Expr::ConstStr("world".to_string()),
                                Expr::ConstInt32(11),
                            ],
                        ),
                    ),
                    Stmt::Ret(Some(Expr::ConstInt32(0))),
                ],
            ),
        ],
    }]
}

fn mtc_nested_func_call() -> Vec<Module> {
    vec![Module {
        name: "nested_func_call".to_string(),
        decls: vec![
            Decl::FwdDecl(
                "puts".to_string(),
                Visibility::Public,
                Some(Type::Int32),
                vec![("s".to_string(), Type::Str)],
                false,
            ),
            Decl::FwdDecl(
                "ok".to_string(),
                Visibility::Public,
                Some(Type::Int32),
                vec![("n".to_string(), Type::Int32)],
                false,
            ),
            Decl::FuncDecl(
                "main".to_string(),
                Visibility::Public,
                Some(Type::Int32),
                vec![],
                false,
                vec![Stmt::Ret(Some(Expr::FuncCall(
                    "ok".to_string(),
                    Type::Int32,
                    vec![Expr::FuncCall(
                        "puts".to_string(),
                        Type::Int32,
                        vec![Expr::ConstStr("hello world".to_string())],
                    )],
                )))],
            ),
        ],
    }]
}

fn mtc_func_call_variadic_params_just_one() -> Vec<Module> {
    vec![Module {
        name: "func_call_variadic_params_just_one".to_string(),
        decls: vec![
            Decl::FwdDecl(
                "printf".to_string(),
                Visibility::Public,
                Some(Type::Int32),
                vec![("fmt".to_string(), Type::Str)],
                true,
            ),
            Decl::FuncDecl(
                "main".to_string(),
                Visibility::Public,
                Some(Type::Int32),
                vec![],
                false,
                vec![
                    Stmt::VarDecl(
                        "r1".to_string(),
                        Expr::FuncCall(
                            "printf".to_string(),
                            Type::Int32,
                            vec![Expr::ConstStr("hello world".to_string())],
                        ),
                    ),
                    Stmt::VarDecl(
                        "r2".to_string(),
                        Expr::FuncCall(
                            "printf".to_string(),
                            Type::Int32,
                            vec![
                                Expr::ConstStr("hello %s".to_string()),
                                Expr::ConstStr("world".to_string()),
                            ],
                        ),
                    ),
                    Stmt::Ret(Some(Expr::ConstInt32(0))),
                ],
            ),
        ],
    }]
}

fn mtc_var_ref() -> Vec<Module> {
    vec![Module {
        name: "var_ref".to_string(),
        decls: vec![Decl::FuncDecl(
            "main".to_string(),
            Visibility::Public,
            Some(Type::Int32),
            vec![],
            false,
            vec![
                Stmt::VarDecl("x".to_string(), Expr::ConstInt32(0)),
                Stmt::Ret(Some(Expr::VarRef("x".to_string(), Type::Int32, false))),
            ],
        )],
    }]
}

fn mtc_void_main() -> Vec<Module> {
    vec![Module {
        name: "void_main".to_string(),
        decls: vec![Decl::FuncDecl(
            "main".to_string(),
            Visibility::Public,
            None,
            vec![],
            false,
            vec![Stmt::Ret(None)],
        )],
    }]
}

fn mtc_fabs() -> Vec<Module> {
    vec![Module {
        name: "fabs".to_string(),
        decls: vec![
            Decl::FwdDecl(
                "printf".to_string(),
                Visibility::Public,
                Some(Type::Int32),
                vec![("fmt".to_string(), Type::Str)],
                true,
            ),
            Decl::FwdDecl(
                "fabs".to_string(),
                Visibility::Public,
                Some(Type::Double),
                vec![("x".to_string(), Type::Double)],
                false,
            ),
            Decl::FuncDecl(
                "main".to_string(),
                Visibility::Public,
                Some(Type::Int32),
                vec![],
                false,
                vec![
                    Stmt::FuncCall(
                        "printf".to_string(),
                        vec![
                            Expr::ConstStr("The fabs of -1.23 is %f\n".to_string()),
                            Expr::FuncCall(
                                "fabs".to_string(),
                                Type::Double,
                                vec![Expr::ConstDouble(format!("{}", -1.23))],
                            ),
                        ],
                    ),
                    Stmt::Ret(Some(Expr::ConstInt32(0))),
                ],
            ),
        ],
    }]
}

fn mtc_frexp() -> Vec<Module> {
    vec![Module {
        name: "frexp".to_string(),
        decls: vec![
            Decl::FwdDecl(
                "printf".to_string(),
                Visibility::Public,
                Some(Type::Int32),
                vec![("fmt".to_string(), Type::Str)],
                true,
            ),
            Decl::FwdDecl(
                "frexp".to_string(),
                Visibility::Public,
                Some(Type::Double),
                vec![
                    ("x".to_string(), Type::Double),
                    ("exp".to_string(), Type::Ptr(Some(Box::new(Type::Int32)))),
                ],
                true,
            ),
            Decl::FuncDecl(
                "main".to_string(),
                Visibility::Public,
                Some(Type::Int32),
                vec![],
                false,
                vec![
                    Stmt::VarDecl("exp".to_string(), Expr::ConstInt32(0)),
                    Stmt::FuncCall(
                        "frexp".to_string(),
                        vec![
                            Expr::ConstDouble(format!("{}", 2560.0)),
                            Expr::VarRef("exp".to_string(), Type::Int32, true),
                        ],
                    ),
                    Stmt::FuncCall(
                        "printf".to_string(),
                        vec![
                            Expr::ConstStr("frexp(2560.0, &e); e = %d\n".to_string()),
                            Expr::VarRef("exp".to_string(), Type::Int32, false),
                        ],
                    ),
                    Stmt::Ret(Some(Expr::ConstInt32(0))),
                ],
            ),
        ],
    }]
}

fn mtc_cond() -> Vec<Module> {
    vec![Module {
        name: "cond".to_string(),
        decls: vec![
            Decl::FwdDecl(
                "puts".to_string(),
                Visibility::Public,
                Some(Type::Int32),
                vec![("s".to_string(), Type::Str)],
                false,
            ),
            Decl::FwdDecl(
                "exit".to_string(),
                Visibility::Public,
                None,
                vec![("status".to_string(), Type::Int32)],
                false,
            ),
            Decl::FuncDecl(
                "main".to_string(),
                Visibility::Public,
                Some(Type::Int32),
                vec![],
                false,
                vec![
                    Stmt::Cond(vec![
                        (
                            Expr::ConstBool(false),
                            vec![Stmt::Cond(vec![(
                                Expr::ConstBool(true),
                                vec![Stmt::FuncCall(
                                    "exit".to_string(),
                                    vec![Expr::ConstInt32(1)],
                                )],
                            )])],
                        ),
                        (
                            Expr::ConstBool(true),
                            vec![Stmt::VarDecl(
                                "r".to_string(),
                                Expr::FuncCall(
                                    "puts".to_string(),
                                    Type::Int32,
                                    vec![Expr::ConstStr("cond".to_string())],
                                ),
                            )],
                        ),
                    ]),
                    Stmt::Cond(vec![
                        (
                            Expr::ConstBool(true),
                            vec![Stmt::VarDecl(
                                "r".to_string(),
                                Expr::FuncCall(
                                    "puts".to_string(),
                                    Type::Int32,
                                    vec![Expr::ConstStr("works".to_string())],
                                ),
                            )],
                        ),
                        (
                            Expr::ConstBool(true),
                            vec![Stmt::Cond(vec![(
                                Expr::ConstBool(true),
                                vec![Stmt::FuncCall(
                                    "exit".to_string(),
                                    vec![Expr::ConstInt32(1)],
                                )],
                            )])],
                        ),
                    ]),
                    Stmt::FuncCall("puts".to_string(), vec![Expr::ConstStr("ok".to_string())]),
                    Stmt::Ret(Some(Expr::ConstInt32(0))),
                ],
            ),
        ],
    }]
}

fn mtc_cmp() -> Vec<Module> {
    vec![Module {
        name: "cmp".to_string(),
        decls: vec![
            Decl::FwdDecl(
                "puts".to_string(),
                Visibility::Public,
                Some(Type::Int32),
                vec![("s".to_string(), Type::Str)],
                false,
            ),
            Decl::FwdDecl(
                "exit".to_string(),
                Visibility::Public,
                None,
                vec![("status".to_string(), Type::Int32)],
                false,
            ),
            Decl::FuncDecl(
                "main".to_string(),
                Visibility::Public,
                Some(Type::Int32),
                vec![],
                false,
                vec![
                    Stmt::Cond(vec![
                        (
                            Expr::Cmp(
                                Op::Eq,
                                Box::new(Expr::ConstBool(false)),
                                Box::new(Expr::ConstBool(true)),
                            ),
                            vec![Stmt::FuncCall(
                                "exit".to_string(),
                                vec![Expr::ConstInt32(1)],
                            )],
                        ),
                        (
                            Expr::Cmp(
                                Op::Eq,
                                Box::new(Expr::ConstInt32(12)),
                                Box::new(Expr::ConstInt32(21)),
                            ),
                            vec![Stmt::FuncCall(
                                "exit".to_string(),
                                vec![Expr::ConstInt32(2)],
                            )],
                        ),
                        (
                            Expr::Cmp(
                                Op::Ne,
                                Box::new(Expr::ConstInt64(12)),
                                Box::new(Expr::ConstInt64(12)),
                            ),
                            vec![Stmt::FuncCall(
                                "exit".to_string(),
                                vec![Expr::ConstInt32(3)],
                            )],
                        ),
                    ]),
                    Stmt::FuncCall(
                        "puts".to_string(),
                        vec![Expr::ConstStr("cmp works!".to_string())],
                    ),
                    Stmt::Ret(Some(Expr::ConstInt32(0))),
                ],
            ),
        ],
    }]
}

fn mtc_not() -> Vec<Module> {
    vec![Module {
        name: "not".to_string(),
        decls: vec![
            Decl::FwdDecl(
                "puts".to_string(),
                Visibility::Public,
                Some(Type::Int32),
                vec![("s".to_string(), Type::Str)],
                false,
            ),
            Decl::FwdDecl(
                "exit".to_string(),
                Visibility::Public,
                None,
                vec![("status".to_string(), Type::Int32)],
                false,
            ),
            Decl::FuncDecl(
                "main".to_string(),
                Visibility::Public,
                Some(Type::Int32),
                vec![],
                false,
                vec![
                    Stmt::Cond(vec![
                        (
                            Expr::Not(Box::new(Expr::ConstBool(true))),
                            vec![Stmt::FuncCall(
                                "exit".to_string(),
                                vec![Expr::ConstInt32(1)],
                            )],
                        ),
                        (
                            Expr::Not(Box::new(Expr::Cmp(
                                Op::Ne,
                                Box::new(Expr::ConstInt32(12)),
                                Box::new(Expr::ConstInt32(21)),
                            ))),
                            vec![Stmt::FuncCall(
                                "exit".to_string(),
                                vec![Expr::ConstInt32(2)],
                            )],
                        ),
                        (
                            Expr::Not(Box::new(Expr::Cmp(
                                Op::Eq,
                                Box::new(Expr::ConstInt64(12)),
                                Box::new(Expr::ConstInt64(12)),
                            ))),
                            vec![Stmt::FuncCall(
                                "exit".to_string(),
                                vec![Expr::ConstInt32(3)],
                            )],
                        ),
                    ]),
                    Stmt::FuncCall(
                        "puts".to_string(),
                        vec![Expr::ConstStr("not works!".to_string())],
                    ),
                    Stmt::Ret(Some(Expr::ConstInt32(0))),
                ],
            ),
        ],
    }]
}

fn il_of(modules: &[Module]) -> Vec<(String, String)> {
    generate_il(&lower(modules)).unwrap()
}

fn round_trip(modules: Vec<Module>) {
    let document = json_raise(&modules);
    let read_back = json_lower(&document).unwrap();
    assert_eq!(read_back, modules);
}

#[test]
fn type_check_hello_world() {
    let modules = mtc_hello_world();

    type_check(&modules).unwrap();
}

#[test]
fn hello_world_cond() {
    let modules = mtc_hello_world_cond();

    type_check(&modules).unwrap();
}

#[test]
fn type_check_nested_func_call() {
    let modules = mtc_nested_func_call();

    type_check(&modules).unwrap();
}

#[test]
fn func_call_variadic_params_just_one() {
    let modules = mtc_func_call_variadic_params_just_one();

    type_check(&modules).unwrap();
}

#[test]
fn func_call_variadic_params_multiple() {
    let modules = mtc_func_call_variadic_params_multiple();

    type_check(&modules).unwrap();
}

#[test]
fn var_ref() {
    let modules = mtc_var_ref();

    type_check(&modules).unwrap();
}

#[test]
fn void_main() {
    let modules = mtc_void_main();

    type_check(&modules).unwrap();
}

#[test]
fn type_check_fabs() {
    let modules = mtc_fabs();

    type_check(&modules).unwrap();
}

#[test]
fn type_check_frexp() {
    let modules = mtc_frexp();

    type_check(&modules).unwrap();
}

#[test]
fn type_check_cond_cmp_not_hello_world2() {
    type_check(&mtc_cond()).unwrap();
    type_check(&mtc_cmp()).unwrap();
    type_check(&mtc_not()).unwrap();
    type_check(&mtc_hello_world2()).unwrap();
}

#[test]
fn lib_hello_world() {
    round_trip(mtc_hello_world());
}

#[test]
fn lib_hello_world2() {
    round_trip(mtc_hello_world2());
}

#[test]
fn lib_cond() {
    round_trip(mtc_cond());
}

#[test]
fn lib_fabs() {
    round_trip(mtc_fabs());
}

#[test]
fn lib_frexp() {
    round_trip(mtc_frexp());
}

#[test]
fn lib_cmp() {
    round_trip(mtc_cmp());
}

#[test]
fn lib_not() {
    round_trip(mtc_not());
}

#[test]
fn round_trip_of_the_other_programs() {
    round_trip(mtc_hello_world_cond());
    round_trip(mtc_nested_func_call());
    round_trip(mtc_func_call_variadic_params_just_one());
    round_trip(mtc_func_call_variadic_params_multiple());
    round_trip(mtc_var_ref());
    round_trip(mtc_void_main());
}

#[test]
fn il_hello_world() {
    let files = il_of(&mtc_hello_world());
    assert_eq!(files.len(), 1);
    assert_eq!(files[0].0, "hello_world.il");
    assert_eq!(
        files[0].1,
        r#"data $hello_world_str0 = { b "hello world", b 0 }
export function w $main() {
@start
    %r =w call $puts(l $hello_world_str0)
    ret 0
}
"#
    );
}

#[test]
fn il_hello_world2() {
    let files = il_of(&mtc_hello_world2());
    assert_eq!(files.len(), 2);
    assert_eq!(files[0].0, "hello_world2.il");
    assert_eq!(files[1].0, "hello_world2_sayer.il");
}

#[test]
fn il_void_main() {
    let files = il_of(&mtc_void_main());
    assert_eq!(files.len(), 1);
    assert_eq!(files[0].0, "void_main.il");
    assert_eq!(files[0].1, "export function $main() {\n@start\n    ret\n}\n");
}

#[test]
fn il_frexp() {
    let files = il_of(&mtc_frexp());
    assert_eq!(files.len(), 1);
    assert_eq!(files[0].0, "frexp.il");
    assert_eq!(
        files[0].1,
        r#"data $frexp_str0 = { b "frexp(2560.0, &e); e = %d\n", b 0 }
export function w $main() {
@start
    %exp =w copy 0
    %..ref..0 =l alloc8 8
    storew %exp, %..ref..0
    call $frexp(d d_2560, l %..ref..0)
    %exp =w loadw %..ref..0
    call $printf(l $frexp_str0, w %exp)
    ret 0
}
"#
    );
}

#[test]
fn il_fabs() {
    let files = il_of(&mtc_fabs());
    assert_eq!(files.len(), 1);
    assert_eq!(files[0].0, "fabs.il");
    assert_eq!(
        files[0].1,
        r#"data $fabs_str0 = { b "The fabs of -1.23 is %f\n", b 0 }
export function w $main() {
@start
    %..arg..0 =d call $fabs(d d_-1.23)
    call $printf(l $fabs_str0, d %..arg..0)
    ret 0
}
"#
    );
}

#[test]
fn il_cond() {
    let files = il_of(&mtc_cond());
    assert_eq!(files.len(), 1);
    assert_eq!(files[0].0, "cond.il");
    assert_eq!(
        files[0].1,
        r#"data $cond_str0 = { b "cond", b 0 }
data $cond_str2 = { b "ok", b 0 }
data $cond_str1 = { b "works", b 0 }
export function w $main() {
@start
    jnz 0, @..cond..0_case_0, @..cond..0_case_0_end
@..cond..0_case_0
    jnz 1, @..cond..1_case_0, @..cond..1_case_0_end
@..cond..1_case_0
    call $exit(w 1)
    jmp @..cond..1_end
@..cond..1_case_0_end
@..cond..1_end
    jmp @..cond..0_end
@..cond..0_case_0_end
    jnz 1, @..cond..0_case_1, @..cond..0_case_1_end
@..cond..0_case_1
    %r =w call $puts(l $cond_str0)
    jmp @..cond..0_end
@..cond..0_case_1_end
@..cond..0_end
    jnz 1, @..cond..2_case_0, @..cond..2_case_0_end
@..cond..2_case_0
    %r =w call $puts(l $cond_str1)
    jmp @..cond..2_end
@..cond..2_case_0_end
    jnz 1, @..cond..2_case_1, @..cond..2_case_1_end
@..cond..2_case_1
    jnz 1, @..cond..3_case_0, @..cond..3_case_0_end
@..cond..3_case_0
    call $exit(w 1)
    jmp @..cond..3_end
@..cond..3_case_0_end
@..cond..3_end
    jmp @..cond..2_end
@..cond..2_case_1_end
@..cond..2_end
    call $puts(l $cond_str2)
    ret 0
}
"#
    );
}

#[test]
fn il_cmp() {
    let files = il_of(&mtc_cmp());
    assert_eq!(files.len(), 1);
    assert_eq!(files[0].0, "cmp.il");
    assert_eq!(
        files[0].1,
        r#"data $cmp_str0 = { b "cmp works!", b 0 }
export function w $main() {
@start
    %..cmp..1 =w ceqw 0, 1
    jnz %..cmp..1, @..cond..0_case_0, @..cond..0_case_0_end
@..cond..0_case_0
    call $exit(w 1)
    jmp @..cond..0_end
@..cond..0_case_0_end
    %..cmp..2 =w ceqw 12, 21
    jnz %..cmp..2, @..cond..0_case_1, @..cond..0_case_1_end
@..cond..0_case_1
    call $exit(w 2)
    jmp @..cond..0_end
@..cond..0_case_1_end
    %..cmp..3 =w cnel 12, 12
    jnz %..cmp..3, @..cond..0_case_2, @..cond..0_case_2_end
@..cond..0_case_2
    call $exit(w 3)
    jmp @..cond..0_end
@..cond..0_case_2_end
@..cond..0_end
    call $puts(l $cmp_str0)
    ret 0
}
"#
    );
}

#[test]
fn il_not() {
    let files = il_of(&mtc_not());
    assert_eq!(files.len(), 1);
    assert_eq!(files[0].0, "not.il");
    assert_eq!(
        files[0].1,
        r#"data $not_str0 = { b "not works!", b 0 }
export function w $main() {
@start
    %..not..1 =w sub 1, 1
    jnz %..not..1, @..cond..0_case_0, @..cond..0_case_0_end
@..cond..0_case_0
    call $exit(w 1)
    jmp @..cond..0_end
@..cond..0_case_0_end
    %..cmp..3 =w cnew 12, 21
    %..not..2 =w sub 1, %..cmp..3
    jnz %..not..2, @..cond..0_case_1, @..cond..0_case_1_end
@..cond..0_case_1
    call $exit(w 2)
    jmp @..cond..0_end
@..cond..0_case_1_end
    %..cmp..5 =w ceql 12, 12
    %..not..4 =w sub 1, %..cmp..5
    jnz %..not..4, @..cond..0_case_2, @..cond..0_case_2_end
@..cond..0_case_2
    call $exit(w 3)
    jmp @..cond..0_end
@..cond..0_case_2_end
@..cond..0_end
    call $puts(l $not_str0)
    ret 0
}
"#
    );
}

#[test]
fn lowering_is_the_same_each_time() {
    let modules = mtc_cond();
    assert_eq!(lower(&modules), lower(&modules));
    assert_eq!(il_of(&modules), il_of(&modules));
}

fn one_function(body: Vec<Stmt>) -> Vec<Module> {
    vec![Module {
        name: "m".to_string(),
        decls: vec![Decl::FuncDecl(
            "f".to_string(),
            Visibility::Private,
            Some(Type::Int64),
            vec![("a".to_string(), Type::Bool), ("p".to_string(), Type::Ptr(None))],
            true,
            body,
        )],
    }]
}

#[test]
fn a_declaration_names_its_right_hand_side() {
    let x = || Expr::VarRef("x".to_string(), Type::Int64, false);
    let files = il_of(&one_function(vec![
        Stmt::VarDecl("a".to_string(), Expr::ConstBool(true)),
        Stmt::VarDecl("b".to_string(), Expr::ConstInt64(-5)),
        Stmt::VarDecl("c".to_string(), Expr::ConstDouble("1.5".to_string())),
        Stmt::VarDecl("d".to_string(), Expr::ConstStr("s".to_string())),
        Stmt::VarDecl("e".to_string(), x()),
        Stmt::VarDecl(
            "f".to_string(),
            Expr::Cmp(Op::Ne, Box::new(x()), Box::new(Expr::ConstInt64(0))),
        ),
        Stmt::VarDecl("g".to_string(), Expr::Not(Box::new(x()))),
        Stmt::VarDecl(
            "h".to_string(),
            Expr::Not(Box::new(Expr::Not(Box::new(Expr::ConstBool(false))))),
        ),
        Stmt::VarDecl("i".to_string(), Expr::VarRef("x".to_string(), Type::Double, true)),
        Stmt::Ret(Some(Expr::Cmp(Op::Eq, Box::new(x()), Box::new(x())))),
    ]));
    assert_eq!(
        files[0].1,
        r#"data $m_str0 = { b "s", b 0 }
function l $f(w %a, l %p, ...) {
@start
    %a =w copy 1
    %b =l copy -5
    %c =d copy d_1.5
    %d =l $m_str0
    %e =l %x
    %f =w cnel %x, 0
    %g =w sub 1, %x
    %..not..0 =w sub 1, 0
    %h =w sub 1, %..not..0
    %..ref..1 =l alloc8 8
    stored %x, %..ref..1
    %i =l %..ref..1
    %x =d loadd %..ref..1
    %..cmp..2 =w ceql %x, %x
    ret %..cmp..2
}
"#
    );
}

#[test]
fn a_conditional_without_arms_is_the_label_of_its_end() {
    let files = il_of(&one_function(vec![Stmt::Cond(vec![]), Stmt::Ret(None)]));
    assert_eq!(
        files[0].1,
        "function l $f(w %a, l %p, ...) {\n@start\n@..cond..0_end\n    ret\n}\n"
    );
}

#[test]
fn slots_of_a_guard_are_read_back_after_the_conditional() {
    let files = il_of(&one_function(vec![Stmt::Cond(vec![(
        Expr::FuncCall(
            "test".to_string(),
            Type::Bool,
            vec![Expr::VarRef("n".to_string(), Type::Int32, true)],
        ),
        vec![Stmt::FuncCall(
            "use".to_string(),
            vec![Expr::VarRef("n".to_string(), Type::Int32, true)],
        )],
    )])]));
    assert_eq!(
        files[0].1,
        r#"function l $f(w %a, l %p, ...) {
@start
    %..ref..1 =l alloc8 8
    storew %n, %..ref..1
    %..arg..2 =w call $test(l %..ref..1)
    jnz %..arg..2, @..cond..0_case_0, @..cond..0_case_0_end
@..cond..0_case_0
    %..ref..3 =l alloc8 8
    storew %n, %..ref..3
    call $use(l %..ref..3)
    %n =w loadw %..ref..3
    jmp @..cond..0_end
@..cond..0_case_0_end
@..cond..0_end
    %n =w loadw %..ref..1
}
"#
    );
}

#[test]
fn each_module_has_its_own_pool_and_its_own_names() {
    let module = |name: &str| Module {
        name: name.to_string(),
        decls: vec![
            Decl::FuncDecl(
                "f".to_string(),
                Visibility::Private,
                None,
                vec![],
                false,
                vec![Stmt::FuncCall(
                    "g".to_string(),
                    vec![
                        Expr::ConstStr("twice".to_string()),
                        Expr::Not(Box::new(Expr::ConstBool(true))),
                        Expr::ConstStr("once".to_string()),
                        Expr::ConstStr("twice".to_string()),
                    ],
                )],
            ),
            Decl::FuncDecl(
                "h".to_string(),
                Visibility::Public,
                None,
                vec![],
                false,
                vec![Stmt::FuncCall(
                    "g".to_string(),
                    vec![
                        Expr::Not(Box::new(Expr::ConstBool(false))),
                        Expr::ConstStr("twice".to_string()),
                    ],
                )],
            ),
        ],
    };
    let files = il_of(&[module("a"), module("b")]);
    let text = |m: &str| {
        format!(
            r#"data ${m}_str1 = {{ b "once", b 0 }}
data ${m}_str0 = {{ b "twice", b 0 }}
function $f() {{
@start
    %..not..0 =w sub 1, 1
    call $g(l ${m}_str0, w %..not..0, l ${m}_str1, l ${m}_str0)
}}
export function $h() {{
@start
    %..not..1 =w sub 1, 0
    call $g(w %..not..1, l ${m}_str0)
}}
"#
        )
    };
    assert_eq!(files[0], ("a.il".to_string(), text("a")));
    assert_eq!(files[1], ("b.il".to_string(), text("b")));
}
