use compiler::ast::{BinaryOp, Expression, FuncDef, Program, Statement, Type};
use compiler::pretty_printer::format_program;

fn lit(t: Type, v: &str) -> Expression {
    Expression::Literal { expr_type: t, value: v.to_string() }
}

fn print_call(s: &str) -> Statement {
    Statement::Expression {
        expr: Expression::Call {
            expr_type: None,
            func: "__print_gostring".to_string(),
            args: vec![lit(Type::GoString, s)],
        },
    }
}

#[test]
fn formats_package_functions_and_statements() {
    let program = Program {
        package_name: "main".to_string(),
        imports: vec!["fmt".to_string(), "os".to_string()],
        functions: vec![
            FuncDef {
                name: "twice".to_string(),
                params: vec![("a".to_string(), Type::Int), ("b".to_string(), Type::Float64)],
                return_type: Some(Type::Int),
                code: vec![Statement::Return {
                    expr: Expression::BinaryOp {
                        expr_type: Type::Int,
                        op: BinaryOp::Mul,
                        left: Box::new(Expression::Name { expr_type: Type::Int, name: "a".to_string() }),
                        right: Box::new(lit(Type::Int, "2")),
                    },
                }],
            },
            FuncDef {
                name: "main".to_string(),
                params: vec![],
                return_type: None,
                code: vec![
                    Statement::Assignment { name: "ok".to_string(), var_type: Type::Bool, expr: lit(Type::Bool, "1") },
                    Statement::If {
                        cond: Expression::Name { expr_type: Type::Bool, name: "ok".to_string() },
                        then_block: vec![print_call("good")],
                        else_block: vec![print_call("oops")],
                    },
                    Statement::If {
                        cond: lit(Type::Bool, "0"),
                        then_block: vec![],
                        else_block: vec![],
                    },
                ],
            },
        ],
    };
    let expected = "package main\n\nimport (\"fmt\"; \"os\")\n\n\
func twice(a int, b float64) int {\n    return a * 2\n}\n\n\
func main() {\n    var ok bool = true\n    if ok {\n        __print_gostring(\"good\")\n    } else {\n        __print_gostring(\"oops\")\n    }\n    if false {\n    }\n}\n";
    assert_eq!(format_program(&program), expected);
}

#[test]
fn formats_program_without_imports_or_functions() {
    let program = Program { package_name: "p".to_string(), imports: vec![], functions: vec![] };
    assert_eq!(format_program(&program), "package p\n\n");
}

#[test]
fn formats_calls_with_several_arguments_and_each_operator() {
    let ops = [
        (BinaryOp::Add, "+"),
        (BinaryOp::Sub, "-"),
        (BinaryOp::Div, "/"),
        (BinaryOp::Eq, "=="),
        (BinaryOp::Neq, "!="),
        (BinaryOp::Ge, ">"),
        (BinaryOp::Le, "<"),
        (BinaryOp::Geq, ">="),
    ];
    for (op, text) in ops {
        let program = Program {
            package_name: "main".to_string(),
            imports: vec![],
            functions: vec![FuncDef {
                name: "f".to_string(),
                params: vec![],
                return_type: None,
                code: vec![Statement::Expression {
                    expr: Expression::Call {
                        expr_type: Some(Type::Int),
                        func: "add".to_string(),
                        args: vec![
                            lit(Type::Float32, "1.5"),
                            Expression::BinaryOp {
                                expr_type: Type::Int,
                                op,
                                left: Box::new(lit(Type::Int, "3")),
                                right: Box::new(lit(Type::Int, "4")),
                            },
                        ],
                    },
                }],
            }],
        };
        let expected = format!("package main\n\nfunc f() {{\n    add(1.5, 3 {} 4)\n}}\n", text);
        assert_eq!(format_program(&program), expected);
    }
}

fn name(n: &str) -> Expression {
    Expression::Name { expr_type: Type::Int, name: n.to_string() }
}

fn sub(l: Expression, r: Expression) -> Expression {
    Expression::BinaryOp { expr_type: Type::Int, op: BinaryOp::Sub, left: Box::new(l), right: Box::new(r) }
}

fn returning(e: Expression) -> Program {
    Program {
        package_name: "main".to_string(),
        imports: vec![],
        functions: vec![FuncDef {
            name: "f".to_string(),
            params: vec![],
            return_type: Some(Type::Int),
            code: vec![Statement::Return { expr: e }],
        }],
    }
}

#[test]
fn nested_operands_keep_their_grouping() {
    let right_nested = format_program(&returning(sub(name("a"), sub(name("b"), name("c")))));
    let left_nested = format_program(&returning(sub(sub(name("a"), name("b")), name("c"))));
    assert_eq!(right_nested, "package main\n\nfunc f() int {\n    return a - (b - c)\n}\n");
    assert_eq!(left_nested, "package main\n\nfunc f() int {\n    return (a - b) - c\n}\n");
    assert_ne!(right_nested, left_nested);
}

#[test]
fn single_import_prints_in_parentheses() {
    let program = Program { package_name: "util".to_string(), imports: vec!["fmt".to_string()], functions: vec![] };
    assert_eq!(format_program(&program), "package util\n\nimport (\"fmt\")\n\n");
}
