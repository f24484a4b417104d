use compiler::ast::{BinaryOp, Expression, Type};

fn lit(t: Type, v: &str) -> Expression {
    Expression::Literal { expr_type: t, value: v.to_string() }
}

#[test]
fn precision_of_each_numeric_type() {
    assert_eq!(Type::Int.get_precision(), 64);
    assert_eq!(Type::Float32.get_precision(), 32);
    assert_eq!(Type::Float64.get_precision(), 64);
    assert_eq!(Type::Bool.get_precision(), 1);
}

#[test]
fn get_type_returns_the_tag() {
    assert_eq!(*lit(Type::Float32, "1.5").get_type(), Type::Float32);
    let name = Expression::Name { expr_type: Type::GoString, name: "s".to_string() };
    assert_eq!(*name.get_type(), Type::GoString);
    let bin = Expression::BinaryOp {
        expr_type: Type::Bool,
        op: BinaryOp::Leq,
        left: Box::new(lit(Type::Int, "1")),
        right: Box::new(lit(Type::Int, "2")),
    };
    assert_eq!(*bin.get_type(), Type::Bool);
    let call = Expression::Call { expr_type: Some(Type::Int), func: "add".to_string(), args: vec![] };
    assert_eq!(*call.get_type(), Type::Int);
}
