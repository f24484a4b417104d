//! What generating a program yields: the type of each expression's value,
//! the names in scope after each statement, and the first failure met.

use vstd::prelude::*;
use crate::ast::{BinaryOp, Expression, FuncDef, Statement, Type};
use crate::literal::{bool_literal, float_literal_ok, int_literal};

verus! {

/// Why generation stopped.
#[derive(Clone, Copy, Debug, PartialEq, Eq, Structural)]
pub enum CodegenError {
    /// A name that no parameter or assignment bound.
    UndefinedVariable,
    /// A call of a function that the module does not hold.
    UndefinedFunction,
    /// A binary operator on two integers of different widths or two floats
    /// of different widths, or a condition that is not a boolean.
    TypeMismatch,
    /// A binary operator on a pairing with no lowering (a string, or an
    /// integer with a float).
    UnsupportedOperation,
    /// A literal whose text does not denote a value of its type.
    LiteralParseFailure,
}

/// The message that reports an error.
pub open spec fn message_of(e: CodegenError) -> Seq<char> {
    match e {
        CodegenError::UndefinedVariable => "reference to undefined variable"@,
        CodegenError::UndefinedFunction => "call of undefined function"@,
        CodegenError::TypeMismatch => "binary operation on operands of different types"@,
        CodegenError::UnsupportedOperation => "binary operation on unsupported types"@,
        CodegenError::LiteralParseFailure => "literal does not denote a value of its type"@,
    }
}

impl CodegenError {
    pub fn message(&self) -> (r: &'static str)
        ensures
            r@ == message_of(*self),
    {
        match self {
            CodegenError::UndefinedVariable => "reference to undefined variable",
            CodegenError::UndefinedFunction => "call of undefined function",
            CodegenError::TypeMismatch => "binary operation on operands of different types",
            CodegenError::UnsupportedOperation => "binary operation on unsupported types",
            CodegenError::LiteralParseFailure => "literal does not denote a value of its type",
        }
    }
}

/// What the symbol table says of names: `(name, type)` in binding order.
pub type Env = Seq<(Seq<char>, Type)>;

/// The signatures that calls are resolved against.
pub type Sigs = Seq<(Seq<char>, Option<Type>)>;

/// The type of the latest of the first `n` bindings of `name`.
pub open spec fn lookup_upto(env: Env, name: Seq<char>, n: int) -> Option<Type>
    decreases n,
{
    if n <= 0 {
        None
    } else if env[n - 1].0 == name {
        Some(env[n - 1].1)
    } else {
        lookup_upto(env, name, n - 1)
    }
}

/// The type bound to `name` by its latest binding.
pub open spec fn lookup(env: Env, name: Seq<char>) -> Option<Type> {
    lookup_upto(env, name, env.len() as int)
}

/// The return type of the first function named `name`, from index `i` on.
pub open spec fn find_sig_from(fs: Sigs, name: Seq<char>, i: int) -> Option<Option<Type>>
    decreases fs.len() - i,
{
    if i < 0 || i >= fs.len() {
        None
    } else if fs[i].0 == name {
        Some(fs[i].1)
    } else {
        find_sig_from(fs, name, i + 1)
    }
}

/// The return type of the first function named `name`; `None` when there is
/// no such function.
pub open spec fn find_sig(fs: Sigs, name: Seq<char>) -> Option<Option<Type>> {
    find_sig_from(fs, name, 0)
}

pub open spec fn is_integer(t: Type) -> bool {
    t == Type::Int || t == Type::Bool
}

pub open spec fn is_float(t: Type) -> bool {
    t == Type::Float32 || t == Type::Float64
}

pub open spec fn is_comparison(op: BinaryOp) -> bool {
    !(op == BinaryOp::Add || op == BinaryOp::Sub || op == BinaryOp::Mul || op == BinaryOp::Div)
}

/// The type of `l op r`, or why there is none. Two integers or two floats of
/// the same type combine; a comparison yields a boolean, arithmetic the
/// operands' type. There is no implicit widening.
pub open spec fn binop_type(op: BinaryOp, l: Type, r: Type) -> Result<Type, CodegenError> {
    if (is_integer(l) && is_integer(r)) || (is_float(l) && is_float(r)) {
        if l != r {
            Err(CodegenError::TypeMismatch)
        } else if is_comparison(op) {
            Ok(Type::Bool)
        } else {
            Ok(l)
        }
    } else {
        Err(CodegenError::UnsupportedOperation)
    }
}

/// Whether the text of a literal denotes a value of its type. Any text is
/// a string.
pub open spec fn literal_ok(t: Type, s: Seq<char>) -> bool {
    match t {
        Type::Int => int_literal(s) is Some,
        Type::Bool => bool_literal(s) is Some,
        Type::Float32 | Type::Float64 => float_literal_ok(s),
        Type::GoString => true,
    }
}

/// The type of the value an expression generates, or the first error that
/// its generation meets (operands left to right). A call of a function that
/// returns nothing yields a boolean placeholder, which nothing consumes.
pub open spec fn expr_result(e: Expression, env: Env, fs: Sigs) -> Result<Type, CodegenError>
    decreases e,
{
    match e {
        Expression::Name { name, .. } => match lookup(env, name@) {
            Some(t) => Ok(t),
            None => Err(CodegenError::UndefinedVariable),
        },
        Expression::Literal { expr_type, value } => if literal_ok(expr_type, value@) {
            Ok(expr_type)
        } else {
            Err(CodegenError::LiteralParseFailure)
        },
        Expression::BinaryOp { op, left, right, .. } => match expr_result(*left, env, fs) {
            Err(x) => Err(x),
            Ok(l) => match expr_result(*right, env, fs) {
                Err(x) => Err(x),
                Ok(r) => binop_type(op, l, r),
            },
        },
        Expression::Call { func, args, .. } => match find_sig(fs, func@) {
            None => Err(CodegenError::UndefinedFunction),
            Some(ret) => match args_result(args@, env, fs) {
                Some(x) => Err(x),
                None => Ok(
                    match ret {
                        Some(t) => t,
                        None => Type::Bool,
                    },
                ),
            },
        },
    }
}

/// The first error among the arguments, generated left to right.
pub open spec fn args_result(args: Seq<Expression>, env: Env, fs: Sigs) -> Option<CodegenError>
    decreases args,
{
    if args.len() == 0 {
        None
    } else {
        match expr_result(args[0], env, fs) {
            Err(x) => Some(x),
            Ok(_) => args_result(args.subrange(1, args.len() as int), env, fs),
        }
    }
}

/// The names in scope after a statement, or the first error that its
/// generation meets. The condition of a conditional must be a boolean;
/// names bound inside a branch do not outlive the branch.
pub open spec fn stmt_result(s: Statement, env: Env, fs: Sigs) -> Result<Env, CodegenError>
    decreases s,
{
    match s {
        Statement::Assignment { name, var_type, expr } => match expr_result(expr, env, fs) {
            Err(x) => Err(x),
            Ok(_) => Ok(env.push((name@, var_type))),
        },
        Statement::If { cond, then_block, else_block } => match expr_result(cond, env, fs) {
            Err(x) => Err(x),
            Ok(t) => if t != Type::Bool {
                Err(CodegenError::TypeMismatch)
            } else {
                match block_result(then_block@, env, fs) {
                Err(x) => Err(x),
                    Ok(_) => match block_result(else_block@, env, fs) {
                        Err(x) => Err(x),
                        Ok(_) => Ok(env),
                    },
                }
            },
        },
        Statement::Return { expr } => match expr_result(expr, env, fs) {
            Err(x) => Err(x),
            Ok(_) => Ok(env),
        },
        Statement::Expression { expr } => match expr_result(expr, env, fs) {
            Err(x) => Err(x),
            Ok(_) => Ok(env),
        },
    }
}

/// The names in scope after a list of statements, or the first error.
pub open spec fn block_result(b: Seq<Statement>, env: Env, fs: Sigs) -> Result<Env, CodegenError>
    decreases b,
{
    if b.len() == 0 {
        Ok(env)
    } else {
        match stmt_result(b[0], env, fs) {
            Err(x) => Err(x),
            Ok(env2) => block_result(b.subrange(1, b.len() as int), env2, fs),
        }
    }
}

/// The names a function's parameters bring into scope.
pub open spec fn params_env(ps: Seq<(String, Type)>) -> Env {
    ps.map_values(|p: (String, Type)| (p.0@, p.1))
}

/// The signature a function definition adds to the module.
pub open spec fn def_signature(f: FuncDef) -> (Seq<char>, Option<Type>) {
    (f.name@, f.return_type)
}

/// The first error that generating the functions meets, in order. Each
/// function can call the functions before it and itself.
pub open spec fn funcs_result(fs: Seq<FuncDef>, sigs: Sigs) -> Option<CodegenError>
    decreases fs.len(),
{
    if fs.len() == 0 {
        None
    } else {
        let sigs2 = sigs.push(def_signature(fs[0]));
        match block_result(fs[0].code@, params_env(fs[0].params@), sigs2) {
            Err(x) => Some(x),
            Ok(_) => funcs_result(fs.subrange(1, fs.len() as int), sigs2),
        }
    }
}

/// The routines of the runtime that generated code links against, with
/// their return types.
pub open spec fn runtime_signatures() -> Sigs {
    seq![
        ("__flush_stdout"@, None),
        ("__gopanic"@, None),
        ("add"@, Some(Type::Int)),
        ("__print_int"@, None),
        ("__print_bool"@, None),
        ("__print_float32"@, None),
        ("__print_float64"@, None),
        ("__print_gostring"@, None),
    ]
}

} // verus!
