use midlang::lower_lang::{Expr, Linkage, Op, Scope, Type, Typed, Value};
use midlang::mir;

#[test]
fn spellings_of_the_lower_language() {
    assert_eq!(Linkage::Export.to_string(), "export");
    assert_eq!(Op::Eq.to_string(), "eq");
    assert_eq!(Op::Ne.to_string(), "ne");
    assert_eq!(Scope::Func.to_string(), "%");
    assert_eq!(Scope::Global.to_string(), "$");
    assert_eq!(Type::B.to_string(), "b");
    assert_eq!(Type::D.to_string(), "d");
    assert_eq!(Type::L.to_string(), "l");
    assert_eq!(Type::W.to_string(), "w");
    assert_eq!(Type::W.as_str(), "w");
    assert_eq!(mir::Op::Eq.to_string(), "eq");
    assert_eq!(mir::Op::Ne.to_string(), "ne");
}

#[test]
fn types_of_operands_and_right_hand_sides() {
    let x = || Value::VarRef("x".to_string(), Type::D, Scope::Func);
    assert_eq!(Value::ConstD("1.5".to_string()).type_of(), Type::D);
    assert_eq!(Value::ConstL(1).type_of(), Type::L);
    assert_eq!(Value::ConstW(1).type_of(), Type::W);
    assert_eq!(x().type_of(), Type::D);
    assert_eq!(Expr::Alloc8(8).type_of(), Type::L);
    assert_eq!(Expr::Cmp(Op::Eq, x(), x()).type_of(), Type::W);
    assert_eq!(Expr::Load(Type::B, Type::W, x()).type_of(), Type::B);
    assert_eq!(Expr::Sub(Value::ConstL(1), x()).type_of(), Type::L);
    assert_eq!(Expr::Sub(x(), Value::ConstL(1)).type_of(), Type::D);
    assert_eq!(Expr::Value(x()).type_of(), Type::D);
    assert_eq!(Expr::FuncCall("f".to_string(), Type::W, vec![x()]).type_of(), Type::W);
}

#[test]
fn types_of_expressions_of_the_middle_language() {
    let one = || Box::new(mir::Expr::ConstInt32(1));
    assert_eq!(*mir::Expr::Cmp(mir::Op::Ne, one(), one()).type_of(), mir::Type::Bool);
    assert_eq!(*mir::Expr::Not(one()).type_of(), mir::Type::Bool);
    assert_eq!(*mir::Expr::ConstBool(true).type_of(), mir::Type::Bool);
    assert_eq!(*mir::Expr::ConstDouble("1".to_string()).type_of(), mir::Type::Double);
    assert_eq!(*mir::Expr::ConstInt32(1).type_of(), mir::Type::Int32);
    assert_eq!(*mir::Expr::ConstInt64(1).type_of(), mir::Type::Int64);
    assert_eq!(*mir::Expr::ConstStr("s".to_string()).type_of(), mir::Type::Str);
    assert_eq!(
        *mir::Expr::FuncCall("f".to_string(), mir::Type::Ptr(None), vec![]).type_of(),
        mir::Type::Ptr(None)
    );
    assert_eq!(
        *mir::Expr::VarRef("v".to_string(), mir::Type::Int64, true).type_of(),
        mir::Type::Int64
    );
}

#[test]
fn the_same_type() {
    let ptr = |to: mir::Type| mir::Type::Ptr(Some(Box::new(to)));
    assert!(mir::Type::Bool.same(&mir::Type::Bool));
    assert!(!mir::Type::Int32.same(&mir::Type::Int64));
    assert!(mir::Type::Ptr(None).same(&mir::Type::Ptr(None)));
    assert!(!mir::Type::Ptr(None).same(&ptr(mir::Type::Str)));
    assert!(ptr(ptr(mir::Type::Str)).same(&ptr(ptr(mir::Type::Str))));
    assert!(!ptr(ptr(mir::Type::Str)).same(&ptr(ptr(mir::Type::Double))));
    assert!(!ptr(mir::Type::Str).same(&mir::Type::Str));
}
