//! The lower language, shaped after QBE's intermediate language: compilation
//! units of data and function declarations over basic statements and values.

use vstd::prelude::*;
use vstd::string::*;

verus! {

/// How a function is linked. A function without linkage is private.
#[derive(Debug, Clone, Copy, PartialEq, Eq, Structural)]
pub enum Linkage {
    Export,
}

/// A base type: byte, double, long (also an address), word.
#[derive(Debug, Clone, Copy, PartialEq, Eq, Structural)]
pub enum Type {
    B,
    D,
    L,
    W,
}

/// Where a name lives: in its function, or in the whole unit.
#[derive(Debug, Clone, Copy, PartialEq, Eq, Structural)]
pub enum Scope {
    Func,
    Global,
}

/// A comparison operator.
#[derive(Debug, Clone, Copy, PartialEq, Eq, Structural)]
pub enum Op {
    Eq,
    Ne,
}

/// A field of a data declaration: its type and its literal text.
pub type DataField = (Type, String);

/// A parameter: its name and its type.
pub type FuncArg = (String, Type);

/// Whether a function takes further arguments after its parameters.
pub type Variadic = bool;

/// An operand. A double constant holds the decimal text of its value.
#[derive(Debug, PartialEq)]
pub enum Value {
    ConstD(String),
    ConstL(i64),
    ConstW(i32),
    VarRef(String, Type, Scope),
}

/// The right-hand side of a variable declaration. `Sub` is how a negation is
/// written: one minus the operand.
#[derive(Debug, PartialEq)]
pub enum Expr {
    Alloc8(usize),
    Cmp(Op, Value, Value),
    Load(Type, Type, Value),
    Sub(Value, Value),
    Value(Value),
    FuncCall(String, Type, Vec<Value>),
}

/// A basic statement.
#[derive(Debug, PartialEq)]
pub enum Stmt {
    FuncCall(String, Vec<Value>),
    Jmp(String),
    Jnz(Value, String, String),
    Lbl(String),
    Ret(Option<Value>),
    Store(Type, Value, Value),
    VarDecl(String, Scope, Expr),
}

/// A declaration: named data, or a function with its body.
#[derive(Debug, PartialEq)]
pub enum Decl {
    Data(String, Vec<DataField>),
    FuncDecl(String, Option<Linkage>, Option<Type>, Vec<FuncArg>, Variadic, Vec<Stmt>),
}

/// A compilation unit: what one module is lowered to, and one file of IL text.
#[derive(Debug, PartialEq)]
pub struct CompUnit {
    pub name: String,
    pub decls: Vec<Decl>,
}

/// The mathematical value of an operand.
pub enum ValueView {
    ConstD(Seq<char>),
    ConstL(i64),
    ConstW(i32),
    VarRef(Seq<char>, Type, Scope),
}

/// The mathematical value of a right-hand side.
pub enum ExprView {
    Alloc8(usize),
    Cmp(Op, ValueView, ValueView),
    Load(Type, Type, ValueView),
    Sub(ValueView, ValueView),
    Value(ValueView),
    FuncCall(Seq<char>, Type, Seq<ValueView>),
}

/// The mathematical value of a statement.
pub enum StmtView {
    FuncCall(Seq<char>, Seq<ValueView>),
    Jmp(Seq<char>),
    Jnz(ValueView, Seq<char>, Seq<char>),
    Lbl(Seq<char>),
    Ret(Option<ValueView>),
    Store(Type, ValueView, ValueView),
    VarDecl(Seq<char>, Scope, ExprView),
}

/// The mathematical value of a declaration.
pub enum DeclView {
    Data(Seq<char>, Seq<(Type, Seq<char>)>),
    FuncDecl(
        Seq<char>,
        Option<Linkage>,
        Option<Type>,
        Seq<(Seq<char>, Type)>,
        bool,
        Seq<StmtView>,
    ),
}

/// The mathematical value of a compilation unit.
pub struct CompUnitView {
    pub name: Seq<char>,
    pub decls: Seq<DeclView>,
}

impl View for Value {
    type V = ValueView;

    open spec fn view(&self) -> ValueView {
        match self {
            Value::ConstD(d) => ValueView::ConstD(d@),
            Value::ConstL(i) => ValueView::ConstL(*i),
            Value::ConstW(i) => ValueView::ConstW(*i),
            Value::VarRef(name, ty, scope) => ValueView::VarRef(name@, *ty, *scope),
        }
    }
}

/// The mathematical value of operands.
pub open spec fn values_view(vs: Seq<Value>) -> Seq<ValueView> {
    Seq::new(vs.len(), |i: int| vs[i]@)
}

impl View for Expr {
    type V = ExprView;

    open spec fn view(&self) -> ExprView {
        match self {
            Expr::Alloc8(bytes) => ExprView::Alloc8(*bytes),
            Expr::Cmp(op, lhs, rhs) => ExprView::Cmp(*op, lhs@, rhs@),
            Expr::Load(ty, mem, addr) => ExprView::Load(*ty, *mem, addr@),
            Expr::Sub(lhs, rhs) => ExprView::Sub(lhs@, rhs@),
            Expr::Value(v) => ExprView::Value(v@),
            Expr::FuncCall(name, ty, args) => ExprView::FuncCall(name@, *ty, values_view(args@)),
        }
    }
}

impl View for Stmt {
    type V = StmtView;

    open spec fn view(&self) -> StmtView {
        match self {
            Stmt::FuncCall(name, args) => StmtView::FuncCall(name@, values_view(args@)),
            Stmt::Jmp(lbl) => StmtView::Jmp(lbl@),
            Stmt::Jnz(v, yes, no) => StmtView::Jnz(v@, yes@, no@),
            Stmt::Lbl(name) => StmtView::Lbl(name@),
            Stmt::Ret(None) => StmtView::Ret(None),
            Stmt::Ret(Some(v)) => StmtView::Ret(Some(v@)),
            Stmt::Store(ty, src, dest) => StmtView::Store(*ty, src@, dest@),
            Stmt::VarDecl(name, scope, e) => StmtView::VarDecl(name@, *scope, e@),
        }
    }
}

/// The mathematical value of statements.
pub open spec fn stmts_view(ss: Seq<Stmt>) -> Seq<StmtView> {
    Seq::new(ss.len(), |i: int| ss[i]@)
}

/// The mathematical value of the fields of a data declaration.
pub open spec fn fields_view(fs: Seq<DataField>) -> Seq<(Type, Seq<char>)> {
    Seq::new(fs.len(), |i: int| (fs[i].0, fs[i].1@))
}

/// The mathematical value of parameters.
pub open spec fn args_view(args: Seq<FuncArg>) -> Seq<(Seq<char>, Type)> {
    Seq::new(args.len(), |i: int| (args[i].0@, args[i].1))
}

impl View for Decl {
    type V = DeclView;

    open spec fn view(&self) -> DeclView {
        match self {
            Decl::Data(name, fields) => DeclView::Data(name@, fields_view(fields@)),
            Decl::FuncDecl(name, linkage, ty, args, variadic, body) => DeclView::FuncDecl(
                name@,
                *linkage,
                *ty,
                args_view(args@),
                *variadic,
                stmts_view(body@),
            ),
        }
    }
}

/// The mathematical value of declarations.
pub open spec fn decls_view(ds: Seq<Decl>) -> Seq<DeclView> {
    Seq::new(ds.len(), |i: int| ds[i]@)
}

impl View for CompUnit {
    type V = CompUnitView;

    open spec fn view(&self) -> CompUnitView {
        CompUnitView { name: self.name@, decls: decls_view(self.decls@) }
    }
}

/// The mathematical value of compilation units.
pub open spec fn units_view(us: Seq<CompUnit>) -> Seq<CompUnitView> {
    Seq::new(us.len(), |i: int| us[i]@)
}

/// The type of an operand.
pub open spec fn value_type(v: ValueView) -> Type {
    match v {
        ValueView::ConstD(_) => Type::D,
        ValueView::ConstL(_) => Type::L,
        ValueView::ConstW(_) => Type::W,
        ValueView::VarRef(_, ty, _) => ty,
    }
}

/// The type of a right-hand side, and so of the variable declared with it.
pub open spec fn expr_type(e: ExprView) -> Type {
    match e {
        ExprView::Alloc8(_) => Type::L,
        ExprView::Cmp(_, _, _) => Type::W,
        ExprView::Load(ty, _, _) => ty,
        ExprView::Sub(lhs, _) => value_type(lhs),
        ExprView::Value(v) => value_type(v),
        ExprView::FuncCall(_, ty, _) => ty,
    }
}

/// What has a type that can be read off it.
pub trait Typed {
    /// The type, as the mathematical value gives it.
    spec fn type_spec(&self) -> Type;

    /// The type.
    fn type_of(&self) -> (ty: Type)
        ensures
            ty == self.type_spec(),
    ;
}

impl Typed for Expr {
    open spec fn type_spec(&self) -> Type {
        expr_type(self@)
    }

    fn type_of(&self) -> (ty: Type) {
        match self {
            Expr::Alloc8(_) => Type::L,
            Expr::Cmp(_, _, _) => Type::W,
            Expr::Load(ty, _, _) => *ty,
            Expr::Sub(value, _) => value.type_of(),
            Expr::Value(value) => value.type_of(),
            Expr::FuncCall(_, ty, _) => *ty,
        }
    }
}

impl Typed for Value {
    open spec fn type_spec(&self) -> Type {
        value_type(self@)
    }

    fn type_of(&self) -> (ty: Type) {
        match self {
            Value::ConstD(_) => Type::D,
            Value::ConstL(_) => Type::L,
            Value::ConstW(_) => Type::W,
            Value::VarRef(_, ty, _) => *ty,
        }
    }
}

/// How a linkage is spelled in IL text.
pub open spec fn linkage_text(l: Linkage) -> Seq<char> {
    "export"@
}

/// How an operator is spelled in IL text.
pub open spec fn op_text(op: Op) -> Seq<char> {
    match op {
        Op::Eq => "eq"@,
        Op::Ne => "ne"@,
    }
}

/// The sigil that a scope puts before a name in IL text.
pub open spec fn scope_text(s: Scope) -> Seq<char> {
    match s {
        Scope::Func => "%"@,
        Scope::Global => "$"@,
    }
}

/// How a type is spelled in IL text.
pub open spec fn type_text(ty: Type) -> Seq<char> {
    match ty {
        Type::B => "b"@,
        Type::D => "d"@,
        Type::L => "l"@,
        Type::W => "w"@,
    }
}

impl Linkage {
    /// How this linkage is spelled in IL text.
    pub fn as_str(&self) -> (s: &'static str)
        ensures
            s@ == linkage_text(*self),
    {
        "export"
    }

    /// How this linkage is spelled in IL text.
    pub fn to_string(&self) -> (s: String)
        ensures
            s@ == linkage_text(*self),
    {
        String::from_str(self.as_str())
    }
}

impl Op {
    /// How this operator is spelled in IL text.
    pub fn as_str(&self) -> (s: &'static str)
        ensures
            s@ == op_text(*self),
    {
        match self {
            Op::Eq => "eq",
            Op::Ne => "ne",
        }
    }

    /// How this operator is spelled in IL text.
    pub fn to_string(&self) -> (s: String)
        ensures
            s@ == op_text(*self),
    {
        String::from_str(self.as_str())
    }
}

impl Scope {
    /// The sigil that this scope puts before a name in IL text.
    pub fn as_str(&self) -> (s: &'static str)
        ensures
            s@ == scope_text(*self),
    {
        match self {
            Scope::Func => "%",
            Scope::Global => "$",
        }
    }

    /// The sigil that this scope puts before a name in IL text.
    pub fn to_string(&self) -> (s: String)
        ensures
            s@ == scope_text(*self),
    {
        String::from_str(self.as_str())
    }
}

impl Type {
    /// How this type is spelled in IL text.
    pub fn as_str(&self) -> (s: &'static str)
        ensures
            s@ == type_text(*self),
    {
        match self {
            Type::B => "b",
            Type::D => "d",
            Type::L => "l",
            Type::W => "w",
        }
    }

    /// How this type is spelled in IL text.
    pub fn to_string(&self) -> (s: String)
        ensures
            s@ == type_text(*self),
    {
        String::from_str(self.as_str())
    }
}

} // verus!
