//! The printer of the lower language: QBE IL text, one file for each
//! compilation unit.

use vstd::prelude::*;
use vstd::string::*;
use crate::lower_lang::{
    CompUnit, CompUnitView, DataField, Decl, DeclView, Expr, ExprView, FuncArg, Linkage, Stmt,
    StmtView, Type, Typed, Value, ValueView, args_view, decls_view, expr_type, fields_view,
    linkage_text, op_text, scope_text, stmts_view, type_text, units_view, value_type, values_view,
};
use crate::text::{append_decimal, append_signed_decimal, decimal, signed_decimal};

verus! {

/// The files of a build: each a name and its contents.
pub type BuildArtifacts = Vec<(String, String)>;

/// What keeps IL text from being printed. The printer writes to memory, where
/// nothing does.
#[derive(Debug, Clone, Copy, PartialEq, Eq)]
pub struct PrintError;

/// The mathematical value of the files of a build.
pub open spec fn artifacts_view(files: Seq<(String, String)>) -> Seq<(Seq<char>, Seq<char>)> {
    Seq::new(files.len(), |i: int| (files[i].0@, files[i].1@))
}

/// The text of an operand. With `types` its type comes first; with `copy` a
/// constant is written as a copy, which is how IL assigns a constant.
pub open spec fn value_text(v: ValueView, types: bool, copy: bool) -> Seq<char> {
    let typed = if types {
        type_text(value_type(v)) + " "@
    } else {
        Seq::empty()
    };
    let copied = if copy {
        "copy "@
    } else {
        Seq::empty()
    };
    match v {
        ValueView::ConstD(d) => typed + copied + "d_"@ + d,
        ValueView::ConstL(i) => typed + copied + signed_decimal(i as int),
        ValueView::ConstW(i) => typed + copied + signed_decimal(i as int),
        ValueView::VarRef(name, _, scope) => typed + scope_text(scope) + name,
    }
}

/// The text of the arguments of a call: each with its type, a comma and a
/// space between two of them.
pub open spec fn call_args_text(vs: Seq<ValueView>) -> Seq<char>
    decreases vs.len(),
{
    if vs.len() == 0 {
        Seq::empty()
    } else if vs.len() == 1 {
        value_text(vs[0], true, false)
    } else {
        call_args_text(vs.drop_last()) + ", "@ + value_text(vs.last(), true, false)
    }
}

/// The text of a call.
pub open spec fn call_text(name: Seq<char>, vs: Seq<ValueView>) -> Seq<char> {
    "call $"@ + name + "("@ + call_args_text(vs) + ")"@
}

/// The text of a right-hand side. Only a bare operand is written as a copy.
pub open spec fn expr_text(e: ExprView) -> Seq<char> {
    match e {
        ExprView::Alloc8(bytes) => "alloc8 "@ + decimal(bytes as nat),
        ExprView::Cmp(op, lhs, rhs) => "c"@ + op_text(op) + type_text(value_type(lhs)) + " "@
            + value_text(lhs, false, false) + ", "@ + value_text(rhs, false, false),
        ExprView::Load(_, mem, addr) => "load"@ + type_text(mem) + " "@ + value_text(
            addr,
            false,
            false,
        ),
        ExprView::Sub(lhs, rhs) => "sub "@ + value_text(lhs, false, false) + ", "@ + value_text(
            rhs,
            false,
            false,
        ),
        ExprView::Value(v) => value_text(v, false, true),
        ExprView::FuncCall(name, _, args) => call_text(name, args),
    }
}

/// The line of a statement, without its line feed. A label stands at the
/// margin; every other statement is indented by four spaces.
pub open spec fn stmt_text(s: StmtView) -> Seq<char> {
    match s {
        StmtView::FuncCall(name, args) => "    "@ + call_text(name, args),
        StmtView::Jmp(lbl) => "    "@ + "jmp @"@ + lbl,
        StmtView::Jnz(v, yes, no) => "    "@ + "jnz "@ + value_text(v, false, false) + ", @"@ + yes
            + ", @"@ + no,
        StmtView::Lbl(name) => "@"@ + name,
        StmtView::Ret(Some(v)) => "    "@ + "ret "@ + value_text(v, false, false),
        StmtView::Ret(None) => "    "@ + "ret"@,
        StmtView::Store(ty, src, dest) => "    "@ + "store"@ + type_text(ty) + " "@ + value_text(
            src,
            false,
            false,
        ) + ", "@ + value_text(dest, false, false),
        StmtView::VarDecl(name, scope, e) => "    "@ + scope_text(scope) + name + " ="@
            + type_text(expr_type(e)) + " "@ + expr_text(e),
    }
}

/// The lines of statements, each ended by a line feed.
pub open spec fn stmts_text(ss: Seq<StmtView>) -> Seq<char>
    decreases ss.len(),
{
    if ss.len() == 0 {
        Seq::empty()
    } else {
        stmts_text(ss.drop_last()) + stmt_text(ss.last()) + "\n"@
    }
}

/// The text of the parameters of a function, without the variadic mark.
pub open spec fn params_text(args: Seq<(Seq<char>, Type)>) -> Seq<char>
    decreases args.len(),
{
    if args.len() == 0 {
        Seq::empty()
    } else if args.len() == 1 {
        type_text(args[0].1) + " %"@ + args[0].0
    } else {
        params_text(args.drop_last()) + ", "@ + type_text(args.last().1) + " %"@ + args.last().0
    }
}

/// The text between the parentheses of a function's head.
pub open spec fn func_args_text(args: Seq<(Seq<char>, Type)>, variadic: bool) -> Seq<char> {
    if variadic {
        params_text(args) + ", ..."@
    } else {
        params_text(args)
    }
}

/// The text of the fields of a data declaration.
pub open spec fn fields_text(fields: Seq<(Type, Seq<char>)>) -> Seq<char>
    decreases fields.len(),
{
    if fields.len() == 0 {
        Seq::empty()
    } else if fields.len() == 1 {
        type_text(fields[0].0) + " "@ + fields[0].1
    } else {
        fields_text(fields.drop_last()) + ", "@ + type_text(fields.last().0) + " "@
            + fields.last().1
    }
}

/// The text of a declaration.
pub open spec fn decl_text(d: DeclView) -> Seq<char> {
    match d {
        DeclView::Data(name, fields) => "data $"@ + name + " = { "@ + fields_text(fields)
            + " }\n"@,
        DeclView::FuncDecl(name, linkage, ty, args, variadic, body) => {
            let linked = match linkage {
                Some(l) => linkage_text(l) + " "@,
                None => Seq::empty(),
            };
            let typed = match ty {
                Some(ty) => type_text(ty) + " "@,
                None => Seq::empty(),
            };
            linked + "function "@ + typed + "$"@ + name + "("@ + func_args_text(args, variadic)
                + ") {\n"@ + stmts_text(body) + "}\n"@
        },
    }
}

/// The text of declarations, one after the other.
pub open spec fn decls_text(ds: Seq<DeclView>) -> Seq<char>
    decreases ds.len(),
{
    if ds.len() == 0 {
        Seq::empty()
    } else {
        decls_text(ds.drop_last()) + decl_text(ds.last())
    }
}

/// The name of the file of the unit named `name`.
pub open spec fn il_filename(name: Seq<char>) -> Seq<char> {
    name + ".il"@
}

/// The files of compilation units: one for each unit, in order.
pub open spec fn il_files(units: Seq<CompUnitView>) -> Seq<(Seq<char>, Seq<char>)> {
    Seq::new(units.len(), |i: int| (il_filename(units[i].name), decls_text(units[i].decls)))
}

fn append_value_il(value: &Value, types: bool, copy: bool, il: &mut String)
    ensures
        final(il)@ == old(il)@ + value_text(value@, types, copy),
{
    if types {
        il.append(value.type_of().as_str());
        il.append(" ");
    }
    match value {
        Value::ConstD(v) => {
            if copy {
                il.append("copy ");
            }
            il.append("d_");
            il.append(v.as_str());
        },
        Value::ConstL(v) => {
            if copy {
                il.append("copy ");
            }
            append_signed_decimal(il, *v);
        },
        Value::ConstW(v) => {
            if copy {
                il.append("copy ");
            }
            append_signed_decimal(il, *v as i64);
        },
        Value::VarRef(name, _, scope) => {
            il.append(scope.as_str());
            il.append(name.as_str());
        },
    }
    assert(il@ =~= old(il)@ + value_text(value@, types, copy));
}

fn append_func_call_il(name: &String, values: &Vec<Value>, indent: bool, il: &mut String)
    ensures
        final(il)@ == old(il)@ + (if indent {
            "    "@
        } else {
            Seq::empty()
        }) + call_text(name@, values_view(values@)),
{
    if indent {
        il.append("    ");
    }
    il.append("call $");
    il.append(name.as_str());
    il.append("(");
    let ghost start = il@;
    let ghost all = values_view(values@);
    let mut i: usize = 0;
    assert(all.take(0) =~= Seq::<ValueView>::empty());
    assert(start =~= start + Seq::<char>::empty());
    while i < values.len()
        invariant
            i <= values.len(),
            all == values_view(values@),
            il@ == start + call_args_text(all.take(i as int)),
        decreases values.len() - i,
    {
        proof {
            assert(all.take(i + 1).drop_last() =~= all.take(i as int));
            assert(all.take(i + 1).last() == values@[i as int]@);
            assert(all.take(i + 1)[0] == all[0]);
            if i == 0 {
                assert(all.take(0).len() == 0);
            }
        }
        if i > 0 {
            il.append(", ");
        }
        append_value_il(&values[i], true, false, il);
        assert(il@ =~= start + call_args_text(all.take(i + 1)));
        i = i + 1;
    }
    assert(all.take(i as int) =~= all);
    il.append(")");
    assert(il@ =~= old(il)@ + (if indent {
        "    "@
    } else {
        Seq::empty()
    }) + call_text(name@, values_view(values@)));
}

fn append_expr_il(expr: &Expr, il: &mut String)
    ensures
        final(il)@ == old(il)@ + expr_text(expr@),
{
    match expr {
        Expr::Alloc8(bytes) => {
            il.append("alloc8 ");
            append_decimal(il, *bytes as u64);
        },
        Expr::Cmp(op, lhs, rhs) => {
            il.append("c");
            il.append(op.as_str());
            il.append(lhs.type_of().as_str());
            il.append(" ");
            append_value_il(lhs, false, false, il);
            il.append(", ");
            append_value_il(rhs, false, false, il);
        },
        Expr::Load(_, mem, addr) => {
            il.append("load");
            il.append(mem.as_str());
            il.append(" ");
            append_value_il(addr, false, false, il);
        },
        Expr::Sub(lhs, rhs) => {
            il.append("sub ");
            append_value_il(lhs, false, false, il);
            il.append(", ");
            append_value_il(rhs, false, false, il);
        },
        Expr::Value(value) => {
            append_value_il(value, false, true, il);
        },
        Expr::FuncCall(name, _, values) => {
            append_func_call_il(name, values, false, il);
        },
    }
    assert(il@ =~= old(il)@ + expr_text(expr@));
}

fn append_stmt_il(stmt: &Stmt, il: &mut String)
    ensures
        final(il)@ == old(il)@ + stmt_text(stmt@),
{
    match stmt {
        Stmt::FuncCall(name, values) => {
            append_func_call_il(name, values, true, il);
        },
        Stmt::Jmp(lbl) => {
            il.append("    ");
            il.append("jmp @");
            il.append(lbl.as_str());
        },
        Stmt::Jnz(value, true_lbl, false_lbl) => {
            il.append("    ");
            il.append("jnz ");
            append_value_il(value, false, false, il);
            il.append(", @");
            il.append(true_lbl.as_str());
            il.append(", @");
            il.append(false_lbl.as_str());
        },
        Stmt::Lbl(name) => {
            il.append("@");
            il.append(name.as_str());
        },
        Stmt::Ret(Some(value)) => {
            il.append("    ");
            il.append("ret ");
            append_value_il(value, false, false, il);
        },
        Stmt::Ret(None) => {
            il.append("    ");
            il.append("ret");
        },
        Stmt::Store(ty, src, dest) => {
            il.append("    ");
            il.append("store");
            il.append(ty.as_str());
            il.append(" ");
            append_value_il(src, false, false, il);
            il.append(", ");
            append_value_il(dest, false, false, il);
        },
        Stmt::VarDecl(name, scope, expr) => {
            il.append("    ");
            il.append(scope.as_str());
            il.append(name.as_str());
            il.append(" =");
            il.append(expr.type_of().as_str());
            il.append(" ");
            append_expr_il(expr, il);
        },
    }
    assert(il@ =~= old(il)@ + stmt_text(stmt@));
}

fn append_stmts_il(stmts: &Vec<Stmt>, il: &mut String)
    ensures
        final(il)@ == old(il)@ + stmts_text(stmts_view(stmts@)),
{
    let ghost all = stmts_view(stmts@);
    let mut i: usize = 0;
    assert(all.take(0) =~= Seq::<StmtView>::empty());
    assert(il@ =~= old(il)@ + Seq::<char>::empty());
    while i < stmts.len()
        invariant
            i <= stmts.len(),
            all == stmts_view(stmts@),
            il@ == old(il)@ + stmts_text(all.take(i as int)),
        decreases stmts.len() - i,
    {
        proof {
            assert(all.take(i + 1).drop_last() =~= all.take(i as int));
            assert(all.take(i + 1).last() == stmts@[i as int]@);
        }
        append_stmt_il(&stmts[i], il);
        il.append("\n");
        assert(il@ =~= old(il)@ + stmts_text(all.take(i + 1)));
        i = i + 1;
    }
    assert(all.take(i as int) =~= all);
}

fn append_func_args_il(args: &Vec<FuncArg>, variadic: bool, il: &mut String)
    ensures
        final(il)@ == old(il)@ + func_args_text(args_view(args@), variadic),
{
    let ghost all = args_view(args@);
    let mut i: usize = 0;
    assert(all.take(0) =~= Seq::<(Seq<char>, Type)>::empty());
    assert(il@ =~= old(il)@ + Seq::<char>::empty());
    while i < args.len()
        invariant
            i <= args.len(),
            all == args_view(args@),
            il@ == old(il)@ + params_text(all.take(i as int)),
        decreases args.len() - i,
    {
        proof {
            assert(all.take(i + 1).drop_last() =~= all.take(i as int));
            assert(all.take(i + 1).last() == (args@[i as int].0@, args@[i as int].1));
            assert(all.take(i + 1)[0] == all[0]);
        }
        if i > 0 {
            il.append(", ");
        }
        il.append(args[i].1.as_str());
        il.append(" %");
        il.append(args[i].0.as_str());
        assert(il@ =~= old(il)@ + params_text(all.take(i + 1)));
        i = i + 1;
    }
    assert(all.take(i as int) =~= all);
    if variadic {
        il.append(", ...");
        assert(il@ =~= old(il)@ + func_args_text(args_view(args@), variadic));
    }
}

fn append_fields_il(fields: &Vec<DataField>, il: &mut String)
    ensures
        final(il)@ == old(il)@ + fields_text(fields_view(fields@)),
{
    let ghost all = fields_view(fields@);
    let mut i: usize = 0;
    assert(all.take(0) =~= Seq::<(Type, Seq<char>)>::empty());
    assert(il@ =~= old(il)@ + Seq::<char>::empty());
    while i < fields.len()
        invariant
            i <= fields.len(),
            all == fields_view(fields@),
            il@ == old(il)@ + fields_text(all.take(i as int)),
        decreases fields.len() - i,
    {
        proof {
            assert(all.take(i + 1).drop_last() =~= all.take(i as int));
            assert(all.take(i + 1).last() == (fields@[i as int].0, fields@[i as int].1@));
            assert(all.take(i + 1)[0] == all[0]);
        }
        if i > 0 {
            il.append(", ");
        }
        il.append(fields[i].0.as_str());
        il.append(" ");
        il.append(fields[i].1.as_str());
        assert(il@ =~= old(il)@ + fields_text(all.take(i + 1)));
        i = i + 1;
    }
    assert(all.take(i as int) =~= all);
}

fn append_data_il(name: &String, fields: &Vec<DataField>, il: &mut String)
    ensures
        final(il)@ == old(il)@ + decl_text(DeclView::Data(name@, fields_view(fields@))),
{
    il.append("data $");
    il.append(name.as_str());
    il.append(" = { ");
    append_fields_il(fields, il);
    il.append(" }\n");
    assert(il@ =~= old(il)@ + decl_text(DeclView::Data(name@, fields_view(fields@))));
}

/// The head of a function, up to the parenthesis that opens its parameters.
spec fn func_head_text(name: Seq<char>, linkage: Option<Linkage>, ty: Option<Type>) -> Seq<char> {
    let linked = match linkage {
        Some(l) => linkage_text(l) + " "@,
        None => Seq::empty(),
    };
    let typed = match ty {
        Some(ty) => type_text(ty) + " "@,
        None => Seq::empty(),
    };
    linked + "function "@ + typed + "$"@ + name + "("@
}

fn append_func_head_il(name: &String, linkage: &Option<Linkage>, ty: &Option<Type>, il: &mut String)
    ensures
        final(il)@ == old(il)@ + func_head_text(name@, *linkage, *ty),
{
    if let Some(linkage) = linkage {
        il.append(linkage.as_str());
        il.append(" ");
    }
    il.append("function ");
    if let Some(ty) = ty {
        il.append(ty.as_str());
        il.append(" ");
    }
    il.append("$");
    il.append(name.as_str());
    il.append("(");
    assert(il@ =~= old(il)@ + func_head_text(name@, *linkage, *ty));
}

fn append_decl_il(decl: &Decl, il: &mut String)
    ensures
        final(il)@ == old(il)@ + decl_text(decl@),
{
    match decl {
        Decl::Data(name, fields) => {
            append_data_il(name, fields, il);
        },
        Decl::FuncDecl(name, linkage, ty, args, variadic, stmts) => {
            append_func_head_il(name, linkage, ty, il);
            let ghost head = il@;
            append_func_args_il(args, *variadic, il);
            il.append(") {\n");
            let ghost opened = il@;
            append_stmts_il(stmts, il);
            il.append("}\n");
            proof {
                let args_text = func_args_text(args_view(args@), *variadic);
                let body_text = stmts_text(stmts_view(stmts@));
                assert(opened =~= head + args_text + ") {\n"@);
                assert(il@ =~= opened + body_text + "}\n"@);
                assert(decl_text(decl@) =~= func_head_text(name@, *linkage, *ty) + args_text
                    + ") {\n"@ + body_text + "}\n"@);
                assert(il@ =~= old(il)@ + decl_text(decl@));
            }
        },
    }
}

fn decls_il(decls: &Vec<Decl>) -> (il: String)
    ensures
        il@ == decls_text(decls_view(decls@)),
{
    let ghost all = decls_view(decls@);
    let mut il = String::new();
    let mut i: usize = 0;
    assert(all.take(0) =~= Seq::<DeclView>::empty());
    while i < decls.len()
        invariant
            i <= decls.len(),
            all == decls_view(decls@),
            il@ == decls_text(all.take(i as int)),
        decreases decls.len() - i,
    {
        proof {
            assert(all.take(i + 1).drop_last() =~= all.take(i as int));
            assert(all.take(i + 1).last() == decls@[i as int]@);
        }
        append_decl_il(&decls[i], &mut il);
        i = i + 1;
    }
    assert(all.take(i as int) =~= all);
    il
}

fn filename(name: &String) -> (file: String)
    ensures
        file@ == il_filename(name@),
{
    let mut file = name.clone();
    file.append(".il");
    file
}

/// Prints compilation units: for each unit, in order, a file that is named
/// after the unit and holds the text of its declarations.
pub fn generate_il(comp_units: &[CompUnit]) -> (r: Result<BuildArtifacts, PrintError>)
    ensures
        r matches Ok(files) && artifacts_view(files@) == il_files(units_view(comp_units@)),
{
    let mut build_artifacts: BuildArtifacts = Vec::new();
    let mut i: usize = 0;
    while i < comp_units.len()
        invariant
            i <= comp_units.len(),
            build_artifacts.len() == i,
            artifacts_view(build_artifacts@) == il_files(units_view(comp_units@)).take(i as int),
        decreases comp_units.len() - i,
    {
        let ghost before = build_artifacts@;
        let comp_unit = &comp_units[i];
        build_artifacts.push((filename(&comp_unit.name), decls_il(&comp_unit.decls)));
        proof {
            let target = il_files(units_view(comp_units@));
            assert forall|j: int| 0 <= j < i + 1 implies artifacts_view(build_artifacts@)[j]
                == target.take(i + 1)[j] by {
                if j < i {
                    assert(artifacts_view(before)[j] == target.take(i as int)[j]);
                    assert(build_artifacts@[j] == before[j]);
                }
            }
            assert(artifacts_view(build_artifacts@) =~= target.take(i + 1));
        }
        i = i + 1;
    }
    assert(artifacts_view(build_artifacts@) =~= il_files(units_view(comp_units@)));
    Ok(build_artifacts)
}

} // verus!
