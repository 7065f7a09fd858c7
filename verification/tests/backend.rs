use midlang::backend::new;
use midlang::compiler::{compile, CompileError};
use midlang::mir::{Decl, Expr, Module, Stmt, Type, Visibility};
use midlang::type_check::TypeError;
use ninja_writer::Ninja;

fn greeter(name: &str) -> Module {
    Module {
        name: name.to_string(),
        decls: vec![
            Decl::FwdDecl(
                "puts".to_string(),
                Visibility::Public,
                Some(Type::Int32),
                vec![("s".to_string(), Type::Str)],
                false,
            ),
            Decl::FuncDecl(
                "main".to_string(),
                Visibility::Public,
                Some(Type::Int32),
                vec![],
                false,
                vec![
                    Stmt::VarDecl(
                        "r".to_string(),
                        Expr::FuncCall(
                            "puts".to_string(),
                            Type::Int32,
                            vec![Expr::ConstStr("hello world".to_string())],
                        ),
                    ),
                    Stmt::Ret(Some(Expr::ConstInt32(0))),
                ],
            ),
        ],
    }
}

#[test]
fn build_artifacts_of_one_module() {
    let modules = vec![greeter("hello_world")];
    let libraries = vec![];
    let library_paths = vec![];
    let output = "a.out".to_string();

    let mut ninja_writer = Ninja::new();
    let ba = new(&libraries, &library_paths, &output)
        .generate_build_artifacts(&modules, &mut ninja_writer)
        .unwrap();
    assert_eq!(ba.len(), 1);
    assert_eq!(ba[0].0, "hello_world.il");
    assert!(ba[0].1.starts_with("data $hello_world_str0 = { b \"hello world\", b 0 }\n"));

    let ninja_build = ninja_writer.to_string();
    assert!(ninja_build.contains("hello_world.il"));
    assert!(ninja_build.contains("hello_world.s"));
    assert!(ninja_build.contains("hello_world.o"));
    assert!(ninja_build.contains("a.out"));
}

#[test]
fn the_build_file_of_two_modules() {
    let modules = vec![greeter("first"), greeter("second")];
    let libraries = vec!["m".to_string(), "c".to_string()];
    let library_paths = vec!["/usr/lib".to_string()];
    let output = "prog".to_string();

    let mut ninja_writer = Ninja::new();
    let ba = new(&libraries, &library_paths, &output)
        .generate_build_artifacts(&modules, &mut ninja_writer)
        .unwrap();
    assert_eq!(ba.len(), 2);
    assert_eq!(ba[0].0, "first.il");
    assert_eq!(ba[1].0, "second.il");
    assert_eq!(
        ninja_writer.to_string(),
        "
link_flags = -lm -lc -L/usr/lib

rule qbe
  command = qbe -o $out $in

rule cc
  command = cc -o $out -c $in

rule link
  command = cc -o $out $in $link_flags

build first.s: qbe first.il
build first.o: cc first.s
build second.s: qbe second.il
build second.o: cc second.s
build prog: link first.o second.o

default prog
"
    );
}

#[test]
fn the_backend_adds_to_what_the_build_file_holds() {
    let libraries = vec![];
    let library_paths = vec!["lib".to_string(), "more".to_string()];
    let output = "a.out".to_string();

    let mut ninja_writer = Ninja::new();
    ninja_writer.comment("made by hand");
    let ba = new(&libraries, &library_paths, &output)
        .generate_build_artifacts(&[], &mut ninja_writer)
        .unwrap();
    assert!(ba.is_empty());
    assert_eq!(
        ninja_writer.to_string(),
        "
# made by hand

link_flags = -Llib -Lmore

rule qbe
  command = qbe -o $out $in

rule cc
  command = cc -o $out -c $in

rule link
  command = cc -o $out $in $link_flags

build a.out: link

default a.out
"
    );
}

#[test]
fn compile_gives_the_il_files_and_then_the_build_file() {
    let modules = vec![greeter("hello_world")];
    let libraries = vec!["m".to_string()];
    let library_paths = vec!["/usr/lib".to_string()];
    let output = "a.out".to_string();

    let files = compile(&modules, &new(&libraries, &library_paths, &output)).unwrap();
    assert_eq!(files.len(), 2);
    assert_eq!(files[0].0, "hello_world.il");
    assert_eq!(
        files[0].1,
        "data $hello_world_str0 = { b \"hello world\", b 0 }
export function w $main() {
@start
    %r =w call $puts(l $hello_world_str0)
    ret 0
}
"
    );
    assert_eq!(files[1].0, "build.ninja");
    assert_eq!(
        files[1].1,
        "
link_flags = -lm -L/usr/lib

rule qbe
  command = qbe -o $out $in

rule cc
  command = cc -o $out -c $in

rule link
  command = cc -o $out $in $link_flags

build hello_world.s: qbe hello_world.il
build hello_world.o: cc hello_world.s
build a.out: link hello_world.o

default a.out
"
    );
}

#[test]
fn compile_reports_the_first_violation_and_builds_nothing() {
    let mut module = greeter("hello_world");
    module.decls.remove(0);
    let libraries = vec![];
    let library_paths = vec![];
    let output = "a.out".to_string();

    assert_eq!(
        compile(&[module], &new(&libraries, &library_paths, &output)),
        Err(CompileError::Type(TypeError::UnresolvedCall("puts".to_string())))
    );
}

#[test]
fn the_extension_of_a_dotted_module_name() {
    let modules = vec![greeter("a.b")];
    let libraries = vec![];
    let library_paths = vec![];
    let output = "a.out".to_string();

    let mut ninja_writer = Ninja::new();
    new(&libraries, &library_paths, &output)
        .generate_build_artifacts(&modules, &mut ninja_writer)
        .unwrap();
    let text = ninja_writer.to_string();
    assert!(text.contains("build a.b.s: qbe a.b.il\n"));
    assert!(text.contains("build a.b.o: cc a.b.s\n"));
}
