//! The typed syntax tree of one Go package.

use vstd::prelude::*;

verus! {

/// A block of code: an ordered list of statements.
pub type CodeBlock = Vec<Statement>;

/// Parameters, of the form `[(name, type), ...]`.
pub type Params = Vec<(String, Type)>;

/// The top-level Go package.
#[derive(Debug)]
pub struct Program {
    /// `package package_name`
    pub package_name: String,
    /// `import (mod_1, ..)`
    pub imports: Vec<String>,
    pub functions: Vec<FuncDef>,
}

/// A function of the package. A `return_type` of `None` makes it a
/// function that produces no value.
#[derive(Debug)]
pub struct FuncDef {
    pub name: String,
    /// `(name1 type1, name2 type2, ..)`
    pub params: Params,
    pub return_type: Option<Type>,
    pub code: CodeBlock,
}

/// The value types of the language, with their machine representation:
/// `int` (`i64`), `bool` (`i1`), `float32` (`f32`), `float64` (`f64`)
/// and `string` (`i8*`).
#[derive(Clone, Copy, Debug, PartialEq, Eq, Structural)]
pub enum Type {
    Int,
    Bool,
    Float32,
    Float64,
    GoString,
}

#[derive(Debug)]
pub enum Expression {
    Name { expr_type: Type, name: String },
    /// A constant. Numbers are written in decimal; a boolean is `0` for
    /// false and `1` for true; a string is its raw text.
    Literal { expr_type: Type, value: String },
    BinaryOp { expr_type: Type, op: BinaryOp, left: Box<Expression>, right: Box<Expression> },
    /// A call of a named function. `expr_type` is `None` exactly when the
    /// callee returns nothing.
    Call { expr_type: Option<Type>, func: String, args: Vec<Expression> },
}

#[derive(Clone, Copy, Debug, PartialEq, Eq, Structural)]
pub enum BinaryOp {
    /// `+`
    Add,
    /// `-`
    Sub,
    /// `*`
    Mul,
    /// `/`
    Div,
    /// `==`
    Eq,
    /// `!=`
    Neq,
    /// `>`
    Ge,
    /// `<`
    Le,
    /// `>=`
    Geq,
    /// `<=`
    Leq,
}

#[derive(Debug)]
pub enum Statement {
    /// `var <name> <var_type> = <expr>`
    Assignment { name: String, var_type: Type, expr: Expression },
    /// `if <cond> { <then_block> } else { <else_block> }`
    If { cond: Expression, then_block: CodeBlock, else_block: CodeBlock },
    /// `return <expr>`
    Return { expr: Expression },
    /// `<expr>`, evaluated for its effect
    Expression { expr: Expression },
}

/// The bit width used when a constant of this type is lowered; a string
/// has none.
pub open spec fn precision_of(t: Type) -> Option<nat> {
    match t {
        Type::Int => Some(64),
        Type::Float32 => Some(32),
        Type::Float64 => Some(64),
        Type::Bool => Some(1),
        Type::GoString => None,
    }
}

/// The type an expression is tagged with; `None` for a call of a function
/// that returns nothing.
pub open spec fn tag_of(e: Expression) -> Option<Type> {
    match e {
        Expression::Name { expr_type, .. } => Some(expr_type),
        Expression::Literal { expr_type, .. } => Some(expr_type),
        Expression::BinaryOp { expr_type, .. } => Some(expr_type),
        Expression::Call { expr_type, .. } => expr_type,
    }
}

impl Type {
    /// The bit width of the type. A string has no precision.
    pub fn get_precision(&self) -> (r: usize)
        requires
            precision_of(*self) is Some,
        ensures
            precision_of(*self) == Some(r as nat),
    {
        match self {
            Type::Int => 64,
            Type::Float32 => 32,
            Type::Float64 => 64,
            Type::Bool => 1,
            Type::GoString => 0,
        }
    }
}

impl Expression {
    /// The type the expression is tagged with. A call of a function that
    /// returns nothing has none.
    pub fn get_type(&self) -> (r: &Type)
        requires
            tag_of(*self) is Some,
        ensures
            tag_of(*self) == Some(*r),
    {
        match self {
            Expression::Name { expr_type, .. } => expr_type,
            Expression::Literal { expr_type, .. } => expr_type,
            Expression::BinaryOp { expr_type, .. } => expr_type,
            Expression::Call { expr_type, .. } => {
                match expr_type {
                    Some(t) => t,
                    None => &Type::Int,
                }
            },
        }
    }
}

} // verus!
