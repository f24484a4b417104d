//! Well-typed programs, and what generation owes them.

use vstd::prelude::*;
use crate::ast::{tag_of, Expression, FuncDef, Statement, Type};
use crate::rules::{
    args_result, binop_type, block_result, def_signature, expr_result, find_sig, funcs_result,
    is_comparison, is_float, is_integer, literal_ok, lookup, params_env, stmt_result, CodegenError,
    Env, Sigs,
};
use crate::ast::BinaryOp;

verus! {

/// The type of the value that generating an expression yields: its tag, or
/// the boolean placeholder of a call that returns nothing.
pub open spec fn value_type(e: Expression) -> Type {
    match tag_of(e) {
        Some(t) => t,
        None => Type::Bool,
    }
}

/// Whether an expression is well typed: names are bound at their tagged
/// type, literals denote values of theirs, callees exist and return the
/// tagged type, and each binary operator has two operands of one numeric
/// type and the type the operator gives them.
pub open spec fn well_typed(e: Expression, env: Env, fs: Sigs) -> bool
    decreases e,
{
    match e {
        Expression::Name { expr_type, name } => lookup(env, name@) == Some(expr_type),
        Expression::Literal { expr_type, value } => literal_ok(expr_type, value@),
        Expression::BinaryOp { expr_type, op, left, right } => {
            &&& well_typed(*left, env, fs)
            &&& well_typed(*right, env, fs)
            &&& tag_of(*left) is Some
            &&& tag_of(*left) == tag_of(*right)
            &&& (is_integer(value_type(*left)) || is_float(value_type(*left)))
            &&& expr_type == (if is_comparison(op) {
                Type::Bool
            } else {
                value_type(*left)
            })
        },
        Expression::Call { expr_type, func, args } => find_sig(fs, func@) == Some(expr_type)
            && all_well_typed(args@, env, fs),
    }
}

pub open spec fn all_well_typed(args: Seq<Expression>, env: Env, fs: Sigs) -> bool
    decreases args,
{
    args.len() == 0 || (well_typed(args[0], env, fs) && all_well_typed(
        args.subrange(1, args.len() as int),
        env,
        fs,
    ))
}

/// The names in scope after a statement that generates without failure.
pub open spec fn env_after(s: Statement, env: Env) -> Env {
    match s {
        Statement::Assignment { name, var_type, .. } => env.push((name@, var_type)),
        _ => env,
    }
}

/// Whether a statement is well typed: its expressions are, an assignment
/// stores a value of the declared type, and a condition is a boolean.
pub open spec fn well_typed_stmt(s: Statement, env: Env, fs: Sigs) -> bool
    decreases s,
{
    match s {
        Statement::Assignment { var_type, expr, .. } => well_typed(expr, env, fs) && value_type(expr)
            == var_type,
        Statement::If { cond, then_block, else_block } => {
            &&& well_typed(cond, env, fs)
            &&& value_type(cond) == Type::Bool
            &&& well_typed_block(then_block@, env, fs)
            &&& well_typed_block(else_block@, env, fs)
        },
        Statement::Return { expr } => well_typed(expr, env, fs),
        Statement::Expression { expr } => well_typed(expr, env, fs),
    }
}

pub open spec fn well_typed_block(b: Seq<Statement>, env: Env, fs: Sigs) -> bool
    decreases b,
{
    b.len() == 0 || (well_typed_stmt(b[0], env, fs) && well_typed_block(
        b.subrange(1, b.len() as int),
        env_after(b[0], env),
        fs,
    ))
}

/// Whether each function's body is well typed, given its parameters and
/// the functions up to and including itself.
pub open spec fn well_typed_funcs(fs: Seq<FuncDef>, sigs: Sigs) -> bool
    decreases fs.len(),
{
    fs.len() == 0 || ({
        let sigs2 = sigs.push(def_signature(fs[0]));
        well_typed_block(fs[0].code@, params_env(fs[0].params@), sigs2) && well_typed_funcs(
            fs.subrange(1, fs.len() as int),
            sigs2,
        )
    })
}

proof fn lemma_expr(e: Expression, env: Env, fs: Sigs)
    requires
        well_typed(e, env, fs),
    ensures
        expr_result(e, env, fs) == Ok::<Type, CodegenError>(value_type(e)),
    decreases e,
{
    match e {
        Expression::BinaryOp { left, right, .. } => {
            lemma_expr(*left, env, fs);
            lemma_expr(*right, env, fs);
        },
        Expression::Call { args, .. } => {
            lemma_args(args@, env, fs);
        },
        _ => {},
    }
}

proof fn lemma_args(args: Seq<Expression>, env: Env, fs: Sigs)
    requires
        all_well_typed(args, env, fs),
    ensures
        args_result(args, env, fs) is None,
    decreases args,
{
    if args.len() > 0 {
        lemma_expr(args[0], env, fs);
        lemma_args(args.subrange(1, args.len() as int), env, fs);
    }
}

proof fn lemma_stmt(s: Statement, env: Env, fs: Sigs)
    requires
        well_typed_stmt(s, env, fs),
    ensures
        stmt_result(s, env, fs) == Ok::<Env, CodegenError>(env_after(s, env)),
    decreases s,
{
    match s {
        Statement::Assignment { expr, .. } => lemma_expr(expr, env, fs),
        Statement::If { cond, then_block, else_block } => {
            lemma_expr(cond, env, fs);
            lemma_block(then_block@, env, fs);
            lemma_block(else_block@, env, fs);
        },
        Statement::Return { expr } => lemma_expr(expr, env, fs),
        Statement::Expression { expr } => lemma_expr(expr, env, fs),
    }
}

proof fn lemma_block(b: Seq<Statement>, env: Env, fs: Sigs)
    requires
        well_typed_block(b, env, fs),
    ensures
        block_result(b, env, fs) is Ok,
    decreases b,
{
    if b.len() > 0 {
        lemma_stmt(b[0], env, fs);
        lemma_block(b.subrange(1, b.len() as int), env_after(b[0], env), fs);
    }
}

/// A well-typed expression generates without failure, to a value of its
/// tagged type: never a type mismatch, never an unsupported operation.
pub proof fn well_typed_expression_generates(e: Expression, env: Env, fs: Sigs)
    requires
        well_typed(e, env, fs),
    ensures
        expr_result(e, env, fs) == Ok::<Type, CodegenError>(value_type(e)),
{
    lemma_expr(e, env, fs);
}

/// A program whose functions are well typed generates without failure, so
/// never with a type mismatch or an unsupported operation.
pub proof fn well_typed_program_generates(fs: Seq<FuncDef>, sigs: Sigs)
    requires
        well_typed_funcs(fs, sigs),
    ensures
        funcs_result(fs, sigs) is None,
    decreases fs.len(),
{
    if fs.len() > 0 {
        let sigs2 = sigs.push(def_signature(fs[0]));
        lemma_block(fs[0].code@, params_env(fs[0].params@), sigs2);
        well_typed_program_generates(fs.subrange(1, fs.len() as int), sigs2);
    }
}

/// Two operands of one float type combine into that type under arithmetic
/// and into a boolean under comparison; `float32` with `float64`, in either
/// order, is a type mismatch. There is no implicit widening.
pub proof fn float_operand_types(op: BinaryOp, l: Type, r: Type)
    requires
        is_float(l),
        is_float(r),
    ensures
        l == r && !is_comparison(op) ==> binop_type(op, l, r) == Ok::<Type, CodegenError>(l),
        l == r && is_comparison(op) ==> binop_type(op, l, r) == Ok::<Type, CodegenError>(Type::Bool),
        l != r ==> binop_type(op, l, r) == Err::<Type, CodegenError>(CodegenError::TypeMismatch),
{
}

} // verus!
