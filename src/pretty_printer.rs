//! Prints a syntax tree back as Go source.

use vstd::prelude::*;
use crate::ast::{BinaryOp, Expression, FuncDef, Params, Program, Statement, Type};

verus! {

pub open spec fn type_text(t: Type) -> Seq<char> {
    match t {
        Type::Int => "int"@,
        Type::Float32 => "float32"@,
        Type::Float64 => "float64"@,
        Type::Bool => "bool"@,
        Type::GoString => "string"@,
    }
}

pub open spec fn name_type_text(p: (String, Type)) -> Seq<char> {
    p.0@ + " "@ + type_text(p.1)
}

/// The parts, with `sep` between each two.
pub open spec fn join(parts: Seq<Seq<char>>, sep: Seq<char>) -> Seq<char>
    decreases parts.len(),
{
    if parts.len() == 0 {
        Seq::empty()
    } else if parts.len() == 1 {
        parts[0]
    } else {
        join(parts.drop_last(), sep) + sep + parts.last()
    }
}

pub open spec fn params_text(ps: Seq<(String, Type)>) -> Seq<char> {
    join(ps.map_values(|p: (String, Type)| name_type_text(p)), ", "@)
}

pub open spec fn bop_text(op: BinaryOp) -> Seq<char> {
    match op {
        BinaryOp::Add => "+"@,
        BinaryOp::Sub => "-"@,
        BinaryOp::Mul => "*"@,
        BinaryOp::Div => "/"@,
        BinaryOp::Eq => "=="@,
        BinaryOp::Neq => "!="@,
        BinaryOp::Ge => ">"@,
        BinaryOp::Le => "<"@,
        BinaryOp::Geq => ">="@,
        BinaryOp::Leq => "<="@,
    }
}

pub open spec fn spaces(n: nat) -> Seq<char> {
    Seq::new(n, |i: int| ' ')
}

/// The indentation of the statements inside a block indented by `n`.
pub open spec fn deeper(n: nat) -> nat {
    if n + 4 <= usize::MAX {
        n + 4
    } else {
        usize::MAX as nat
    }
}

/// An operand of a binary operator: in parentheses when it is itself a
/// binary operation, so that the grouping of the tree is kept.
pub open spec fn grouped(e: Expression, text: Seq<char>) -> Seq<char> {
    if e is BinaryOp {
        "("@ + text + ")"@
    } else {
        text
    }
}

/// An expression as Go source: a boolean literal as `true` or `false`, a
/// string literal in quotes, operators with a space on each side, and an
/// operand that is itself a binary operation in parentheses.
pub open spec fn expr_text(e: Expression) -> Seq<char>
    decreases e,
{
    match e {
        Expression::Name { name, .. } => name@,
        Expression::Literal { expr_type, value } => match expr_type {
            Type::Bool => if value@ == "1"@ {
                "true"@
            } else {
                "false"@
            },
            Type::GoString => "\""@ + value@ + "\""@,
            _ => value@,
        },
        Expression::BinaryOp { op, left, right, .. } => grouped(*left, expr_text(*left)) + " "@ + bop_text(
            op,
        ) + " "@ + grouped(*right, expr_text(*right)),
        Expression::Call { func, args, .. } => func@ + "("@ + args_text(args@) + ")"@,
    }
}

/// Arguments, separated by `, `.
pub open spec fn args_text(args: Seq<Expression>) -> Seq<char>
    decreases args,
{
    if args.len() == 0 {
        Seq::empty()
    } else if args.len() == 1 {
        expr_text(args[0])
    } else {
        args_text(args.drop_last()) + ", "@ + expr_text(args.last())
    }
}

/// A statement indented by `indent`, without a line break after it. A
/// conditional with an empty else-block is printed without `else`.
pub open spec fn stmt_text(s: Statement, indent: nat) -> Seq<char>
    decreases s,
{
    spaces(indent) + match s {
        Statement::Assignment { name, var_type, expr } => "var "@ + name@ + " "@ + type_text(var_type)
            + " = "@ + expr_text(expr),
        Statement::If { cond, then_block, else_block } => "if "@ + expr_text(cond) + " "@ + "{\n"@
            + stmts_text(then_block@, deeper(indent)) + spaces(indent) + "}"@ + if else_block@.len()
            == 0 {
            Seq::empty()
        } else {
            " else "@ + "{\n"@ + stmts_text(else_block@, deeper(indent)) + spaces(indent) + "}"@
        },
        Statement::Return { expr } => "return "@ + expr_text(expr),
        Statement::Expression { expr } => expr_text(expr),
    }
}

/// Statements, each indented by `indent` and followed by a line break.
pub open spec fn stmts_text(b: Seq<Statement>, indent: nat) -> Seq<char>
    decreases b,
{
    if b.len() == 0 {
        Seq::empty()
    } else {
        stmts_text(b.drop_last(), indent) + stmt_text(b.last(), indent) + "\n"@
    }
}

/// A block whose closing brace is indented by `indent`.
pub open spec fn block_text(b: Seq<Statement>, indent: nat) -> Seq<char> {
    "{\n"@ + stmts_text(b, deeper(indent)) + spaces(indent) + "}"@
}

pub open spec fn funcdef_text(f: FuncDef) -> Seq<char> {
    "func "@ + f.name@ + "("@ + params_text(f.params@) + ") "@ + match f.return_type {
        Some(t) => type_text(t) + " "@,
        None => Seq::empty(),
    } + block_text(f.code@, 0) + "\n"@
}

/// Import paths, each quoted, separated by `; `.
pub open spec fn imports_text(imports: Seq<String>) -> Seq<char>
    decreases imports.len(),
{
    if imports.len() == 0 {
        Seq::empty()
    } else if imports.len() == 1 {
        "\""@ + imports[0]@ + "\""@
    } else {
        imports_text(imports.drop_last()) + "; \""@ + imports.last()@ + "\""@
    }
}

/// A program as Go source: the package clause, the imports if there are
/// any (`import ("fmt")`, or `import ("fmt"; "os")`), and the functions
/// separated by blank lines.
pub open spec fn program_text(p: Program) -> Seq<char> {
    "package "@ + p.package_name@ + "\n\n"@ + if p.imports@.len() == 0 {
        Seq::empty()
    } else {
        "import ("@ + imports_text(p.imports@) + ")\n\n"@
    } + join(p.functions@.map_values(|f: FuncDef| funcdef_text(f)), "\n"@)
}

fn format_type(t: &Type) -> (r: String)
    ensures
        r@ == type_text(*t),
{
    match t {
        Type::Int => String::from_str("int"),
        Type::Float32 => String::from_str("float32"),
        Type::Float64 => String::from_str("float64"),
        Type::Bool => String::from_str("bool"),
        Type::GoString => String::from_str("string"),
    }
}

fn format_name_type(p: &(String, Type)) -> (r: String)
    ensures
        r@ == name_type_text(*p),
{
    let mut s = p.0.clone();
    s.append(" ");
    s.append(format_type(&p.1).as_str());
    s
}

fn format_params(params: &Params) -> (r: String)
    ensures
        r@ == params_text(params@),
{
    let ghost parts = params@.map_values(|p: (String, Type)| name_type_text(p));
    let mut s = String::new();
    let mut i: usize = 0;
    while i < params.len()
        invariant
            i <= params@.len(),
            parts == params@.map_values(|p: (String, Type)| name_type_text(p)),
            s@ == join(parts.take(i as int), ", "@),
        decreases params@.len() - i,
    {
        if i > 0 {
            s.append(", ");
        }
        let part = format_name_type(&params[i]);
        s.append(part.as_str());
        proof {
            assert(parts.take(i + 1).drop_last() =~= parts.take(i as int));
            if i == 0 {
                assert(s@ =~= join(parts.take(1), ", "@));
            } else {
                assert(s@ =~= join(parts.take(i + 1), ", "@));
            }
        }
        i += 1;
    }
    proof {
        assert(parts.take(params@.len() as int) =~= parts);
    }
    s
}

fn format_bop(bop: &BinaryOp) -> (r: String)
    ensures
        r@ == bop_text(*bop),
{
    match bop {
        BinaryOp::Add => String::from_str("+"),
        BinaryOp::Sub => String::from_str("-"),
        BinaryOp::Mul => String::from_str("*"),
        BinaryOp::Div => String::from_str("/"),
        BinaryOp::Eq => String::from_str("=="),
        BinaryOp::Neq => String::from_str("!="),
        BinaryOp::Ge => String::from_str(">"),
        BinaryOp::Le => String::from_str("<"),
        BinaryOp::Geq => String::from_str(">="),
        BinaryOp::Leq => String::from_str("<="),
    }
}

fn push_indent(indent: usize, s: &mut String)
    ensures
        final(s)@ == old(s)@ + spaces(indent as nat),
{
    let mut i: usize = 0;
    while i < indent
        invariant
            i <= indent,
            s@ == old(s)@ + spaces(i as nat),
        decreases indent - i,
    {
        s.append(" ");
        proof {
            reveal_strlit(" ");
            assert(s@ =~= old(s)@ + spaces((i + 1) as nat));
        }
        i += 1;
    }
}

/// Prints the program as Go source.
pub fn format_program(program: &Program) -> (r: String)
    ensures
        r@ == program_text(*program),
{
    let mut s = String::from_str("package ");
    s.append(program.package_name.as_str());
    s.append("\n\n");
    let ghost head = s@;
    if program.imports.len() > 0 {
        s.append("import (");
        let mut i: usize = 0;
        let ghost start = s@;
        while i < program.imports.len()
            invariant
                i <= program.imports@.len(),
                s@ == start + imports_text(program.imports@.take(i as int)),
            decreases program.imports@.len() - i,
        {
            if i > 0 {
                s.append("; \"");
            } else {
                s.append("\"");
            }
            s.append(program.imports[i].as_str());
            s.append("\"");
            proof {
                let pre = program.imports@.take(i + 1);
                assert(pre.drop_last() =~= program.imports@.take(i as int));
                assert(pre.last() == program.imports@[i as int]);
                if i == 0 {
                    assert(program.imports@.take(0).len() == 0);
                    assert(imports_text(program.imports@.take(0)) == Seq::<char>::empty());
                    assert(pre.len() == 1);
                    assert(pre[0] == program.imports@[0]);
                    assert(imports_text(pre) == "\""@ + pre[0]@ + "\""@);
                    assert(s@ == start + "\""@ + program.imports@[0]@ + "\""@);
                    vstd::seq_lib::lemma_concat_associative(start, "\""@ + program.imports@[0]@, "\""@);
                    vstd::seq_lib::lemma_concat_associative(start, "\""@, program.imports@[0]@);
                    assert(s@ =~= start + imports_text(pre));
                } else {
                    assert(s@ =~= start + imports_text(pre));
                }
            }
            i += 1;
        }
        proof {
            assert(program.imports@.take(program.imports@.len() as int) =~= program.imports@);
        }
        s.append(")\n\n");
    }
    let ghost mid = s@;
    let ghost parts = program.functions@.map_values(|f: FuncDef| funcdef_text(f));
    let mut i: usize = 0;
    while i < program.functions.len()
        invariant
            i <= program.functions@.len(),
            parts == program.functions@.map_values(|f: FuncDef| funcdef_text(f)),
            s@ == mid + join(parts.take(i as int), "\n"@),
        decreases program.functions@.len() - i,
    {
        if i > 0 {
            s.append("\n");
        }
        let part = format_funcdef(&program.functions[i]);
        s.append(part.as_str());
        proof {
            assert(parts.take(i + 1).drop_last() =~= parts.take(i as int));
            if i == 0 {
                assert(s@ =~= mid + join(parts.take(1), "\n"@));
            } else {
                assert(s@ =~= mid + join(parts.take(i + 1), "\n"@));
            }
        }
        i += 1;
    }
    proof {
        assert(parts.take(program.functions@.len() as int) =~= parts);
        assert(s@ =~= program_text(*program));
    }
    s
}

fn format_funcdef(funcdef: &FuncDef) -> (r: String)
    ensures
        r@ == funcdef_text(*funcdef),
{
    let mut s = String::from_str("func ");
    s.append(funcdef.name.as_str());
    s.append("(");
    s.append(format_params(&funcdef.params).as_str());
    s.append(") ");
    match &funcdef.return_type {
        Some(t) => {
            s.append(format_type(t).as_str());
            s.append(" ");
        },
        None => {},
    }
    s.append(format_code_block(&funcdef.code, 0).as_str());
    s.append("\n");
    proof {
        assert(s@ =~= funcdef_text(*funcdef));
    }
    s
}

fn format_code_block(code: &Vec<Statement>, indent: usize) -> (r: String)
    ensures
        r@ == block_text(code@, indent as nat),
    decreases code,
{
    let inner = indent.saturating_add(4);
    let mut s = String::from_str("{\n");
    let ghost start = s@;
    let mut i: usize = 0;
    while i < code.len()
        invariant
            i <= code@.len(),
            inner as nat == deeper(indent as nat),
            s@ == start + stmts_text(code@.take(i as int), inner as nat),
        decreases code@.len() - i,
    {
        let line = format_statement(&code[i], inner);
        s.append(line.as_str());
        s.append("\n");
        proof {
            assert(code@.take(i + 1).drop_last() =~= code@.take(i as int));
            assert(code@.take(i + 1).last() == code@[i as int]);
            assert(s@ =~= start + stmts_text(code@.take(i + 1), inner as nat));
        }
        i += 1;
    }
    proof {
        assert(code@.take(code@.len() as int) =~= code@);
    }
    push_indent(indent, &mut s);
    s.append("}");
    proof {
        assert(s@ =~= block_text(code@, indent as nat));
    }
    s
}

fn format_statement(statement: &Statement, indent: usize) -> (r: String)
    ensures
        r@ == stmt_text(*statement, indent as nat),
    decreases statement,
{
    let mut s = String::new();
    push_indent(indent, &mut s);
    let ghost pad = s@;
    match statement {
        Statement::Assignment { name, var_type, expr } => {
            s.append("var ");
            s.append(name.as_str());
            s.append(" ");
            s.append(format_type(var_type).as_str());
            s.append(" = ");
            s.append(format_expression(expr).as_str());
        },
        Statement::If { cond, then_block, else_block } => {
            s.append("if ");
            s.append(format_expression(cond).as_str());
            s.append(" ");
            s.append(format_code_block(then_block, indent).as_str());
            if else_block.len() > 0 {
                s.append(" else ");
                s.append(format_code_block(else_block, indent).as_str());
            }
        },
        Statement::Return { expr } => {
            s.append("return ");
            s.append(format_expression(expr).as_str());
        },
        Statement::Expression { expr } => {
            s.append(format_expression(expr).as_str());
        },
    }
    proof {
        assert(s@ =~= stmt_text(*statement, indent as nat));
    }
    s
}

fn format_expression(expr: &Expression) -> (r: String)
    ensures
        r@ == expr_text(*expr),
    decreases expr, 1nat,
{
    match expr {
        Expression::Name { name, .. } => name.clone(),
        Expression::Literal { expr_type, value } => {
            match expr_type {
                Type::Bool => {
                    if *value == String::from_str("1") {
                        String::from_str("true")
                    } else {
                        String::from_str("false")
                    }
                },
                Type::GoString => {
                    let mut s = String::from_str("\"");
                    s.append(value.as_str());
                    s.append("\"");
                    s
                },
                _ => value.clone(),
            }
        },
        Expression::BinaryOp { op, left, right, .. } => {
            let mut s = format_operand(left);
            s.append(" ");
            s.append(format_bop(op).as_str());
            s.append(" ");
            s.append(format_operand(right).as_str());
            proof {
                assert(s@ =~= expr_text(*expr));
            }
            s
        },
        Expression::Call { func, args, .. } => {
            let mut s = func.clone();
            s.append("(");
            s.append(format_args(args).as_str());
            s.append(")");
            proof {
                assert(s@ =~= expr_text(*expr));
            }
            s
        },
    }
}

/// An operand of a binary operator, in parentheses when it is itself a
/// binary operation.
fn format_operand(e: &Expression) -> (r: String)
    ensures
        r@ == grouped(*e, expr_text(*e)),
    decreases e, 2nat,
{
    let text = format_expression(e);
    match e {
        Expression::BinaryOp { .. } => {
            let mut s = String::from_str("(");
            s.append(text.as_str());
            s.append(")");
            s
        },
        _ => text,
    }
}

/// Arguments, separated by `, `.
fn format_args(args: &Vec<Expression>) -> (r: String)
    ensures
        r@ == args_text(args@),
    decreases args, 0nat,
{
    let mut s = String::new();
    let mut i: usize = 0;
    while i < args.len()
        invariant
            i <= args@.len(),
            s@ == args_text(args@.take(i as int)),
        decreases args@.len() - i,
    {
        if i > 0 {
            s.append(", ");
        }
        let part = format_expression(&args[i]);
        s.append(part.as_str());
        proof {
            assert(args@.take(i + 1).drop_last() =~= args@.take(i as int));
            assert(args@.take(i + 1).last() == args@[i as int]);
            if i == 0 {
                assert(s@ =~= args_text(args@.take(1)));
            } else {
                assert(s@ =~= args_text(args@.take(i + 1)));
            }
        }
        i += 1;
    }
    proof {
        assert(args@.take(args@.len() as int) =~= args@);
    }
    s
}

} // verus!
