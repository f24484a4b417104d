use std::cmp::Ordering;
use std::collections::HashMap;

use compiler::ast::{BinaryOp, Expression, FuncDef, Program, Statement, Type};
use compiler::codegen::CodeGen;
use compiler::literal::{is_float_literal, parse_int_literal};
use compiler::rules::CodegenError;
use compiler::ir::{ArithOp, Instruction, Module, Predicate};

#[derive(Clone, Debug, PartialEq)]
enum Val {
    Int(i64),
    Bool(bool),
    F32(f32),
    F64(f64),
    Str(String),
}

/// What running a generated function gave: its result, or the message of
/// a panic, and what it printed.
struct Run {
    result: Result<Option<Val>, String>,
    output: String,
}

fn call(m: &Module, name: &str, args: Vec<Val>, out: &mut String) -> Result<Option<Val>, String> {
    let f = m.functions.iter().find(|f| f.name == name).expect("no such function");
    if f.external {
        return match (name, args.as_slice()) {
            ("__gopanic", [Val::Str(s)]) => Err(format!("panic: {}", s)),
            ("__print_int", [Val::Int(i)]) => {
                out.push_str(&i.to_string());
                Ok(None)
            }
            ("__print_bool", [Val::Bool(b)]) => {
                out.push_str(&b.to_string());
                Ok(None)
            }
            ("__print_float32", [Val::F32(x)]) => {
                out.push_str(&x.to_string());
                Ok(None)
            }
            ("__print_float64", [Val::F64(x)]) => {
                out.push_str(&x.to_string());
                Ok(None)
            }
            ("__print_gostring", [Val::Str(s)]) => {
                out.push_str(s);
                Ok(None)
            }
            ("__flush_stdout", []) => Ok(None),
            ("add", [Val::Int(a), Val::Int(b)]) => Ok(Some(Val::Int(a.wrapping_add(*b)))),
            _ => panic!("bad runtime call {}", name),
        };
    }
    let mut vals: HashMap<usize, Val> = HashMap::new();
    for (i, a) in args.into_iter().enumerate() {
        vals.insert(i, a);
    }
    let mut slots: HashMap<usize, Val> = HashMap::new();
    let mut block = f.blocks[0].id;
    'blocks: loop {
        let b = f.blocks.iter().find(|b| b.id == block).expect("no such block");
        for inst in &b.instructions {
            match inst {
                Instruction::ConstInt { dest, value } => {
                    vals.insert(*dest, Val::Int(*value));
                }
                Instruction::ConstBool { dest, value } => {
                    vals.insert(*dest, Val::Bool(*value));
                }
                Instruction::ConstFloat { dest, ty, value } => {
                    let v = match ty {
                        Type::Float32 => Val::F32(value.parse().unwrap()),
                        _ => Val::F64(value.parse().unwrap()),
                    };
                    vals.insert(*dest, v);
                }
                Instruction::GlobalString { dest, value } => {
                    vals.insert(*dest, Val::Str(value.clone()));
                }
                Instruction::Alloca { .. } => {}
                Instruction::Store { slot, value } => {
                    slots.insert(*slot, vals[value].clone());
                }
                Instruction::Load { dest, slot, .. } => {
                    vals.insert(*dest, slots[slot].clone());
                }
                Instruction::IntArith { dest, op, lhs, rhs } => {
                    let (Val::Int(a), Val::Int(b)) = (vals[lhs].clone(), vals[rhs].clone()) else {
                        panic!("integer operands expected")
                    };
                    let r = match op {
                        ArithOp::Add => a.wrapping_add(b),
                        ArithOp::Sub => a.wrapping_sub(b),
                        ArithOp::Mul => a.wrapping_mul(b),
                        ArithOp::Div => a / b,
                    };
                    vals.insert(*dest, Val::Int(r));
                }
                Instruction::IntCompare { dest, pred, lhs, rhs } => {
                    let key = |v: &Val| match v {
                        Val::Int(i) => *i,
                        Val::Bool(b) => *b as i64,
                        _ => panic!("integer operands expected"),
                    };
                    let (a, b) = (key(&vals[lhs]), key(&vals[rhs]));
                    vals.insert(*dest, Val::Bool(cmp(*pred, a.partial_cmp(&b))));
                }
                Instruction::FloatArith { dest, op, lhs, rhs } => {
                    let r = match (vals[lhs].clone(), vals[rhs].clone()) {
                        (Val::F32(a), Val::F32(b)) => Val::F32(farith(*op, a as f64, b as f64) as f32),
                        (Val::F64(a), Val::F64(b)) => Val::F64(farith(*op, a, b)),
                        _ => panic!("float operands of one width expected"),
                    };
                    vals.insert(*dest, r);
                }
                Instruction::FloatCompare { dest, pred, lhs, rhs } => {
                    let ord = match (vals[lhs].clone(), vals[rhs].clone()) {
                        (Val::F32(a), Val::F32(b)) => a.partial_cmp(&b),
                        (Val::F64(a), Val::F64(b)) => a.partial_cmp(&b),
                        _ => panic!("float operands of one width expected"),
                    };
                    vals.insert(*dest, Val::Bool(cmp(*pred, ord)));
                }
                Instruction::Call { dest, func, args } => {
                    let args: Vec<Val> = args.iter().map(|a| vals[a].clone()).collect();
                    let r = call(m, func, args, out)?;
                    if let Some(d) = dest {
                        vals.insert(*d, r.expect("callee returned nothing"));
                    }
                }
                Instruction::Branch { target } => {
                    block = *target;
                    continue 'blocks;
                }
                Instruction::CondBranch { cond, then_block, else_block } => {
                    block = if vals[cond] == Val::Bool(true) { *then_block } else { *else_block };
                    continue 'blocks;
                }
                Instruction::Return { value } => {
                    return Ok(value.map(|v| vals[&v].clone()));
                }
                Instruction::Unreachable => panic!("reached an unreachable point"),
            }
        }
        panic!("block {} has no terminator", block);
    }
}

fn cmp(pred: Predicate, ord: Option<Ordering>) -> bool {
    match (pred, ord) {
        (Predicate::Ne, None) => false,
        (_, None) => false,
        (Predicate::Eq, Some(o)) => o == Ordering::Equal,
        (Predicate::Ne, Some(o)) => o != Ordering::Equal,
        (Predicate::Gt, Some(o)) => o == Ordering::Greater,
        (Predicate::Lt, Some(o)) => o == Ordering::Less,
        (Predicate::Ge, Some(o)) => o != Ordering::Less,
        (Predicate::Le, Some(o)) => o != Ordering::Greater,
    }
}

fn farith(op: ArithOp, a: f64, b: f64) -> f64 {
    match op {
        ArithOp::Add => a + b,
        ArithOp::Sub => a - b,
        ArithOp::Mul => a * b,
        ArithOp::Div => a / b,
    }
}

fn generate(functions: Vec<FuncDef>) -> Result<Module, CodegenError> {
    let program = Program { package_name: "main".to_string(), imports: vec![], functions };
    let mut cg = CodeGen::new();
    cg.add_runtime();
    cg.gen_program(&program)?;
    Ok(cg.module)
}

fn run(functions: Vec<FuncDef>, entry: &str, args: Vec<Val>) -> Run {
    let m = generate(functions).expect("generation failed");
    let mut output = String::new();
    let result = call(&m, entry, args, &mut output);
    Run { result, output }
}

fn lit(t: Type, v: &str) -> Expression {
    Expression::Literal { expr_type: t, value: v.to_string() }
}

fn name(t: Type, n: &str) -> Expression {
    Expression::Name { expr_type: t, name: n.to_string() }
}

fn bin(t: Type, op: BinaryOp, l: Expression, r: Expression) -> Expression {
    Expression::BinaryOp { expr_type: t, op, left: Box::new(l), right: Box::new(r) }
}

fn assign(n: &str, t: Type, e: Expression) -> Statement {
    Statement::Assignment { name: n.to_string(), var_type: t, expr: e }
}

fn print_str(s: &str) -> Statement {
    Statement::Expression {
        expr: Expression::Call { expr_type: None, func: "__print_gostring".to_string(), args: vec![lit(Type::GoString, s)] },
    }
}

fn func(n: &str, params: Vec<(&str, Type)>, ret: Option<Type>, code: Vec<Statement>) -> FuncDef {
    FuncDef {
        name: n.to_string(),
        params: params.into_iter().map(|(p, t)| (p.to_string(), t)).collect(),
        return_type: ret,
        code,
    }
}

fn error_of(e: Expression) -> CodegenError {
    generate(vec![func("main", vec![], None, vec![Statement::Expression { expr: e }])]).unwrap_err()
}

#[test]
fn multiplication_of_a_variable_returns_four() {
    let f = func(
        "main",
        vec![],
        Some(Type::Int),
        vec![
            assign("x", Type::Int, lit(Type::Int, "2")),
            assign("y", Type::Int, bin(Type::Int, BinaryOp::Mul, name(Type::Int, "x"), lit(Type::Int, "2"))),
            Statement::Return { expr: name(Type::Int, "y") },
        ],
    );
    assert_eq!(run(vec![f], "main", vec![]).result, Ok(Some(Val::Int(4))));
}

fn divide(x: &str) -> Vec<FuncDef> {
    vec![func(
        "main",
        vec![],
        Some(Type::Int),
        vec![
            assign("x", Type::Int, lit(Type::Int, x)),
            assign("y", Type::Int, bin(Type::Int, BinaryOp::Div, lit(Type::Int, "5"), name(Type::Int, "x"))),
            Statement::Expression {
                expr: Expression::Call { expr_type: None, func: "__print_int".to_string(), args: vec![name(Type::Int, "y")] },
            },
            Statement::Return { expr: name(Type::Int, "y") },
        ],
    )]
}

#[test]
fn division_by_zero_panics_without_a_result() {
    let r = run(divide("0"), "main", vec![]);
    assert_eq!(r.result, Err("panic: division by zero".to_string()));
    assert_eq!(r.output, "");
}

#[test]
fn division_by_nonzero_truncates() {
    assert_eq!(run(divide("2"), "main", vec![]).result, Ok(Some(Val::Int(2))));
    assert_eq!(run(divide("-2"), "main", vec![]).result, Ok(Some(Val::Int(-2))));
    let f = func(
        "q",
        vec![("a", Type::Int), ("b", Type::Int)],
        Some(Type::Int),
        vec![Statement::Return { expr: bin(Type::Int, BinaryOp::Div, name(Type::Int, "a"), name(Type::Int, "b")) }],
    );
    assert_eq!(run(vec![f], "q", vec![Val::Int(-7), Val::Int(2)]).result, Ok(Some(Val::Int(-3))));
}

#[test]
fn division_guard_has_three_blocks() {
    let m = generate(divide("3")).unwrap();
    let f = m.functions.last().unwrap();
    assert_eq!(f.blocks.len(), 3);
    let panic_block = &f.blocks[1];
    assert!(matches!(&panic_block.instructions[0], Instruction::GlobalString { value, .. } if value == "division by zero"));
    assert!(matches!(&panic_block.instructions[1], Instruction::Call { dest: None, func, .. } if func == "__gopanic"));
    assert!(matches!(panic_block.instructions[2], Instruction::Unreachable));
}

#[test]
fn equal_float_literals_take_the_then_branch() {
    let f = func(
        "main",
        vec![],
        None,
        vec![Statement::If {
            cond: bin(Type::Bool, BinaryOp::Eq, lit(Type::Float32, "5.0"), lit(Type::Float32, "5.0")),
            then_block: vec![print_str("good")],
            else_block: vec![print_str("oops")],
        }],
    );
    let r = run(vec![f], "main", vec![]);
    assert_eq!(r.result, Ok(None));
    assert_eq!(r.output, "good");
}

#[test]
fn void_function_without_return_returns() {
    let greet = func("greet", vec![], None, vec![print_str("hi")]);
    let main = func(
        "main",
        vec![],
        None,
        vec![
            Statement::Expression { expr: Expression::Call { expr_type: None, func: "greet".to_string(), args: vec![] } },
            print_str("!"),
        ],
    );
    let m = generate(vec![greet, main]).unwrap();
    let g = m.functions.iter().find(|f| f.name == "greet").unwrap();
    assert!(matches!(g.blocks.last().unwrap().instructions.last(), Some(Instruction::Return { value: None })));
    let mut out = String::new();
    assert_eq!(call(&m, "main", vec![], &mut out), Ok(None));
    assert_eq!(out, "hi!");
}

#[test]
fn if_without_else_merges_into_one_continuation() {
    let f = func(
        "pick",
        vec![("c", Type::Bool)],
        Some(Type::Int),
        vec![
            assign("r", Type::Int, lit(Type::Int, "1")),
            Statement::If {
                cond: name(Type::Bool, "c"),
                then_block: vec![assign("r", Type::Int, lit(Type::Int, "2"))],
                else_block: vec![],
            },
            Statement::Return { expr: name(Type::Int, "r") },
        ],
    );
    let m = generate(vec![f]).unwrap();
    let g = m.functions.last().unwrap();
    let cont = g.blocks.last().unwrap().id;
    let else_block = &g.blocks[g.blocks.len() - 2];
    assert!(matches!(else_block.instructions.as_slice(), [Instruction::Branch { target }] if *target == cont));
    let then_block = &g.blocks[g.blocks.len() - 3];
    assert!(matches!(then_block.instructions.last(), Some(Instruction::Branch { target }) if *target == cont));
    let mut out = String::new();
    assert_eq!(call(&m, "pick", vec![Val::Bool(true)], &mut out), Ok(Some(Val::Int(2))));
    assert_eq!(call(&m, "pick", vec![Val::Bool(false)], &mut out), Ok(Some(Val::Int(1))));
}

#[test]
fn rebinding_a_name_at_its_type_reuses_its_slot() {
    let f = func(
        "main",
        vec![],
        Some(Type::Int),
        vec![
            assign("x", Type::Int, lit(Type::Int, "1")),
            assign("x", Type::Int, bin(Type::Int, BinaryOp::Add, name(Type::Int, "x"), lit(Type::Int, "1"))),
            Statement::Return { expr: name(Type::Int, "x") },
        ],
    );
    let m = generate(vec![f]).unwrap();
    let g = m.functions.last().unwrap();
    assert_eq!(g.slots.len(), 1);
    let mut out = String::new();
    assert_eq!(call(&m, "main", vec![], &mut out), Ok(Some(Val::Int(2))));
}

#[test]
fn float_operands_of_one_width_keep_it() {
    for (t, v) in [(Type::Float32, Val::F32(1.75)), (Type::Float64, Val::F64(1.75))] {
        let f = func(
            "main",
            vec![],
            Some(t),
            vec![Statement::Return { expr: bin(t, BinaryOp::Add, lit(t, "1.5"), lit(t, "0.25")) }],
        );
        assert_eq!(run(vec![f], "main", vec![]).result, Ok(Some(v)));
    }
}

#[test]
fn mixed_float_widths_are_a_type_mismatch() {
    let e = bin(Type::Float64, BinaryOp::Add, lit(Type::Float32, "1.0"), lit(Type::Float64, "1.0"));
    assert_eq!(error_of(e), CodegenError::TypeMismatch);
    let e = bin(Type::Bool, BinaryOp::Le, lit(Type::Float64, "1.0"), lit(Type::Float32, "1.0"));
    assert_eq!(error_of(e), CodegenError::TypeMismatch);
    let e = bin(Type::Int, BinaryOp::Add, lit(Type::Int, "1"), lit(Type::Bool, "1"));
    assert_eq!(error_of(e), CodegenError::TypeMismatch);
}

#[test]
fn strings_and_mixed_kinds_are_unsupported() {
    let e = bin(Type::GoString, BinaryOp::Add, lit(Type::GoString, "a"), lit(Type::GoString, "b"));
    assert_eq!(error_of(e), CodegenError::UnsupportedOperation);
    let e = bin(Type::Int, BinaryOp::Add, lit(Type::Int, "1"), lit(Type::Float64, "1.0"));
    assert_eq!(error_of(e), CodegenError::UnsupportedOperation);
}

#[test]
fn undefined_names_and_functions_are_reported() {
    assert_eq!(error_of(name(Type::Int, "nope")), CodegenError::UndefinedVariable);
    let e = Expression::Call { expr_type: None, func: "nope".to_string(), args: vec![] };
    assert_eq!(error_of(e), CodegenError::UndefinedFunction);
}

#[test]
fn bad_literals_are_reported() {
    assert_eq!(error_of(lit(Type::Int, "12a")), CodegenError::LiteralParseFailure);
    assert_eq!(error_of(lit(Type::Int, "")), CodegenError::LiteralParseFailure);
    assert_eq!(error_of(lit(Type::Int, "-")), CodegenError::LiteralParseFailure);
    assert_eq!(error_of(lit(Type::Int, "9223372036854775808")), CodegenError::LiteralParseFailure);
    assert_eq!(error_of(lit(Type::Bool, "2")), CodegenError::LiteralParseFailure);
}

#[test]
fn int_literals_cover_the_whole_range() {
    assert_eq!(parse_int_literal(&"9223372036854775807".to_string()), Some(i64::MAX));
    assert_eq!(parse_int_literal(&"-9223372036854775808".to_string()), Some(i64::MIN));
    assert_eq!(parse_int_literal(&"+42".to_string()), Some(42));
    assert_eq!(parse_int_literal(&"007".to_string()), Some(7));
    assert_eq!(parse_int_literal(&"99999999999999999999999".to_string()), None);
    assert_eq!(parse_int_literal(&"1 ".to_string()), None);
}

#[test]
fn string_literals_unescape_newlines() {
    let f = func("main", vec![], None, vec![print_str("a\\nb\\\\c")]);
    let r = run(vec![f], "main", vec![]);
    assert_eq!(r.output, "a\nb\\\\c");
}

#[test]
fn each_function_gets_a_fresh_symbol_table() {
    let first = func("first", vec![], None, vec![assign("x", Type::Int, lit(Type::Int, "1"))]);
    let second = func(
        "second",
        vec![],
        Some(Type::Int),
        vec![Statement::Return { expr: name(Type::Int, "x") }],
    );
    assert_eq!(generate(vec![first, second]).unwrap_err(), CodegenError::UndefinedVariable);
}

#[test]
fn names_bound_in_a_branch_end_with_it() {
    let f = func(
        "main",
        vec![],
        Some(Type::Int),
        vec![
            Statement::If {
                cond: lit(Type::Bool, "1"),
                then_block: vec![assign("y", Type::Int, lit(Type::Int, "1"))],
                else_block: vec![],
            },
            Statement::Return { expr: name(Type::Int, "y") },
        ],
    );
    assert_eq!(generate(vec![f]).unwrap_err(), CodegenError::UndefinedVariable);
}

#[test]
fn functions_call_earlier_ones_and_themselves() {
    let later = Expression::Call { expr_type: Some(Type::Int), func: "later".to_string(), args: vec![] };
    let early = func("early", vec![], Some(Type::Int), vec![Statement::Return { expr: later }]);
    let later_def = func("later", vec![], Some(Type::Int), vec![Statement::Return { expr: lit(Type::Int, "1") }]);
    assert_eq!(generate(vec![early, later_def]).unwrap_err(), CodegenError::UndefinedFunction);

    // n! by recursion, with the runtime's add for the accumulation
    let n = || name(Type::Int, "n");
    let fact = func(
        "fact",
        vec![("n", Type::Int)],
        Some(Type::Int),
        vec![
            Statement::If {
                cond: bin(Type::Bool, BinaryOp::Leq, n(), lit(Type::Int, "1")),
                then_block: vec![Statement::Return { expr: lit(Type::Int, "1") }],
                else_block: vec![],
            },
            Statement::Return {
                expr: bin(
                    Type::Int,
                    BinaryOp::Mul,
                    n(),
                    Expression::Call {
                        expr_type: Some(Type::Int),
                        func: "fact".to_string(),
                        args: vec![Expression::Call {
                            expr_type: Some(Type::Int),
                            func: "add".to_string(),
                            args: vec![n(), lit(Type::Int, "-1")],
                        }],
                    },
                ),
            },
        ],
    );
    assert_eq!(run(vec![fact], "fact", vec![Val::Int(5)]).result, Ok(Some(Val::Int(120))));
}

#[test]
fn well_typed_program_generates() {
    let f = func(
        "main",
        vec![("a", Type::Float64), ("b", Type::Bool)],
        Some(Type::Bool),
        vec![
            assign("c", Type::Bool, bin(Type::Bool, BinaryOp::Geq, name(Type::Float64, "a"), lit(Type::Float64, "2.5"))),
            Statement::Return { expr: bin(Type::Bool, BinaryOp::Neq, name(Type::Bool, "c"), name(Type::Bool, "b")) },
        ],
    );
    assert_eq!(run(vec![f], "main", vec![Val::F64(3.0), Val::Bool(false)]).result, Ok(Some(Val::Bool(true))));
}

#[test]
fn runtime_routines_are_declared_first() {
    let m = generate(vec![]).unwrap();
    let names: Vec<&str> = m.functions.iter().map(|f| f.name.as_str()).collect();
    assert_eq!(
        names,
        ["__flush_stdout", "__gopanic", "add", "__print_int", "__print_bool", "__print_float32", "__print_float64", "__print_gostring"]
    );
    assert!(m.functions.iter().all(|f| f.external && f.blocks.is_empty()));
}

#[test]
fn error_messages_name_the_failure() {
    assert_eq!(CodegenError::TypeMismatch.message(), "binary operation on operands of different types");
    assert_eq!(CodegenError::UndefinedFunction.message(), "call of undefined function");
}

fn is_terminator(i: &Instruction) -> bool {
    matches!(
        i,
        Instruction::Branch { .. } | Instruction::CondBranch { .. } | Instruction::Return { .. } | Instruction::Unreachable
    )
}

/// Each block of each generated function ends in its only terminator.
fn assert_blocks_terminated(m: &Module) {
    for f in m.functions.iter().filter(|f| !f.external) {
        assert!(!f.blocks.is_empty());
        for b in &f.blocks {
            let n = b.instructions.len();
            assert!(n > 0 && is_terminator(&b.instructions[n - 1]), "block {} of {} is open", b.id, f.name);
            assert!(b.instructions[..n - 1].iter().all(|i| !is_terminator(i)));
        }
    }
}

#[test]
fn statements_after_a_return_are_set_apart() {
    let f = func(
        "main",
        vec![],
        Some(Type::Int),
        vec![
            Statement::Return { expr: lit(Type::Int, "7") },
            assign("x", Type::Int, lit(Type::Int, "1")),
        ],
    );
    let m = generate(vec![f]).unwrap();
    assert_blocks_terminated(&m);
    let g = m.functions.last().unwrap();
    assert_eq!(g.blocks.len(), 2);
    assert!(matches!(g.blocks[1].instructions.last(), Some(Instruction::Unreachable)));
    let mut out = String::new();
    assert_eq!(call(&m, "main", vec![], &mut out), Ok(Some(Val::Int(7))));
}

#[test]
fn typed_function_returning_from_both_branches_is_complete() {
    let f = func(
        "sign",
        vec![("n", Type::Int)],
        Some(Type::Int),
        vec![Statement::If {
            cond: bin(Type::Bool, BinaryOp::Le, name(Type::Int, "n"), lit(Type::Int, "0")),
            then_block: vec![Statement::Return { expr: lit(Type::Int, "-1") }],
            else_block: vec![Statement::Return { expr: lit(Type::Int, "1") }],
        }],
    );
    let m = generate(vec![f]).unwrap();
    assert_blocks_terminated(&m);
    let mut out = String::new();
    assert_eq!(call(&m, "sign", vec![Val::Int(-5)], &mut out), Ok(Some(Val::Int(-1))));
    assert_eq!(call(&m, "sign", vec![Val::Int(5)], &mut out), Ok(Some(Val::Int(1))));
}

#[test]
fn nested_conditionals_and_divisions_stay_well_formed() {
    let x = || name(Type::Int, "x");
    let f = func(
        "main",
        vec![("x", Type::Int)],
        None,
        vec![Statement::If {
            cond: bin(Type::Bool, BinaryOp::Geq, x(), lit(Type::Int, "0")),
            then_block: vec![Statement::If {
                cond: bin(Type::Bool, BinaryOp::Eq, bin(Type::Int, BinaryOp::Div, lit(Type::Int, "10"), x()), lit(Type::Int, "5")),
                then_block: vec![print_str("five")],
                else_block: vec![print_str("other")],
            }],
            else_block: vec![print_str("negative")],
        }],
    );
    let m = generate(vec![f]).unwrap();
    assert_blocks_terminated(&m);
    for (arg, expected) in [(2, Ok(None)), (3, Ok(None)), (-1, Ok(None)), (0, Err("panic: division by zero".to_string()))] {
        let mut out = String::new();
        assert_eq!(call(&m, "main", vec![Val::Int(arg)], &mut out), expected);
        let printed = match arg {
            2 => "five",
            3 => "other",
            -1 => "negative",
            _ => "",
        };
        assert_eq!(out, printed);
    }
}

#[test]
fn generate_module_declares_runtime_then_program() {
    let f = func("main", vec![], None, vec![print_str("x")]);
    let program = Program { package_name: "main".to_string(), imports: vec![], functions: vec![f] };
    let m = compiler::codegen::generate_module(&program).unwrap();
    assert_eq!(m.functions.len(), 9);
    assert_eq!(m.functions[1].name, "__gopanic");
    assert_eq!(m.functions[8].name, "main");
    assert_blocks_terminated(&m);
    let bad = Program {
        package_name: "main".to_string(),
        imports: vec![],
        functions: vec![func("main", vec![], None, vec![assign("x", Type::Int, lit(Type::Int, "x"))])],
    };
    assert_eq!(compiler::codegen::generate_module(&bad).unwrap_err(), CodegenError::LiteralParseFailure);
}

#[test]
fn empty_void_function_is_one_returning_block() {
    let m = generate(vec![func("f", vec![], None, vec![])]).unwrap();
    let f = m.functions.last().unwrap();
    assert_eq!(f.blocks.len(), 1);
    assert!(matches!(f.blocks[0].instructions.as_slice(), [Instruction::Return { value: None }]));
    assert_eq!(f.block_kinds[f.blocks[0].id].label(), "entry");
}

#[test]
fn parameters_are_stored_to_their_own_slots_on_entry() {
    let f = func("f", vec![("a", Type::Int), ("b", Type::Bool)], None, vec![]);
    let m = generate(vec![f]).unwrap();
    let g = m.functions.last().unwrap();
    let insts = &g.blocks[0].instructions;
    assert!(matches!(&insts[0], Instruction::Alloca { slot: 0, ty: Type::Int, name } if name == "a"));
    assert!(matches!(insts[1], Instruction::Store { slot: 0, value: 0 }));
    assert!(matches!(&insts[2], Instruction::Alloca { slot: 1, ty: Type::Bool, name } if name == "b"));
    assert!(matches!(insts[3], Instruction::Store { slot: 1, value: 1 }));
    assert!(matches!(insts[4], Instruction::Return { value: None }));
}

#[test]
fn float_literal_text_is_checked() {
    for ok in ["5", "5.0", "-1.5", "+.25", "3.", "1e10", "2.5E-3", "7e+2"] {
        assert!(is_float_literal(&ok.to_string()), "{}", ok);
    }
    for bad in ["", ".", "-", "1.2.3", "e5", "1e", "1e+", "abc", "1,5", "inf"] {
        assert!(!is_float_literal(&bad.to_string()), "{}", bad);
    }
    assert_eq!(error_of(lit(Type::Float64, "1.2.3")), CodegenError::LiteralParseFailure);
    assert_eq!(error_of(lit(Type::Float32, "x")), CodegenError::LiteralParseFailure);
}

#[test]
fn a_condition_must_be_a_boolean() {
    let f = func(
        "main",
        vec![],
        None,
        vec![Statement::If { cond: lit(Type::Float64, "1.0"), then_block: vec![], else_block: vec![] }],
    );
    assert_eq!(generate(vec![f]).unwrap_err(), CodegenError::TypeMismatch);
}

#[test]
fn boolean_division_compares_with_a_boolean_zero() {
    let f = func(
        "main",
        vec![("a", Type::Bool), ("b", Type::Bool)],
        Some(Type::Bool),
        vec![Statement::Return { expr: bin(Type::Bool, BinaryOp::Div, name(Type::Bool, "a"), name(Type::Bool, "b")) }],
    );
    let m = generate(vec![f]).unwrap();
    let g = m.functions.last().unwrap();
    assert!(g.blocks[0].instructions.iter().any(|i| matches!(i, Instruction::ConstBool { value: false, .. })));
    assert!(!g.blocks[0].instructions.iter().any(|i| matches!(i, Instruction::ConstInt { .. })));
}

#[test]
fn a_failing_function_adds_nothing_and_stops_generation() {
    let good = func("good", vec![], None, vec![]);
    let bad = func("bad", vec![], None, vec![Statement::Expression { expr: name(Type::Int, "nope") }]);
    let later = func("later", vec![], None, vec![]);
    let program = Program { package_name: "main".to_string(), imports: vec![], functions: vec![good, bad, later] };
    let mut cg = CodeGen::new();
    cg.add_runtime();
    assert_eq!(cg.gen_program(&program), Err(CodegenError::UndefinedVariable));
    let names: Vec<&str> = cg.module.functions.iter().map(|f| f.name.as_str()).collect();
    assert_eq!(names.len(), 9);
    assert_eq!(names[8], "good");
}
