//! Lowers a typed program into the intermediate form of `crate::ir`.
//!
//! Generation is one depth-first walk per function. The generator owns the
//! build cursor (the block that instructions are appended to), the symbol
//! table of the function being generated, and the module that collects the
//! finished functions.

use vstd::prelude::*;
use crate::ast::{BinaryOp, Expression, FuncDef, Program, Statement, Type};
use crate::literal::{bool_literal, int_literal, is_float_literal, parse_int_literal, replace_newline_escapes, unescape_newlines};
use crate::rules::{
    args_result, binop_type, block_result, def_signature, expr_result, find_sig, find_sig_from,
    funcs_result, is_integer, literal_ok, lookup, lookup_upto, params_env, runtime_signatures,
    is_float, stmt_result, CodegenError, Env, Sigs,
};
use crate::ir::{
    block_complete, body_within, is_terminated, is_terminator, refs_within, signature_of, signatures,
    well_formed, ArithOp, BasicBlock, BlockKind, Function, Instruction, Module, Predicate,
};

verus! {

/// The parameter types of the runtime's routines, in the order of
/// `runtime_signatures`.
pub open spec fn runtime_param_types() -> Seq<Seq<Type>> {
    seq![
        seq![],
        seq![Type::GoString],
        seq![Type::Int, Type::Int],
        seq![Type::Int],
        seq![Type::Bool],
        seq![Type::Float32],
        seq![Type::Float64],
        seq![Type::GoString],
    ]
}

/// A generated function with no return type hands control back at the end
/// of its last block.
pub open spec fn returns_at_end(f: Function) -> bool {
    f.return_type is None ==> f.blocks@.len() > 0 && f.blocks@.last().instructions@.len() > 0
        && f.blocks@.last().instructions@.last() is Return
}

/// The type of an operand's value, and that the block under the cursor is
/// still open to appending.
pub open spec fn operand_ok(g: CodeGen, op: Operand) -> bool {
    op.id < g.func.values@.len() && g.func.values@[op.id as int] == op.ty && !is_terminated(g.func.current)
}

/// The state of the function being generated is well formed: the blocks
/// the cursor left are complete, and the cursor's block is a valid block
/// whose instructions refer only to what exists.
pub open spec fn state_ok(st: FunctionState) -> bool {
    let nv = st.values@.len();
    let ns = st.slots@.len();
    let nb = st.block_kinds@.len();
    &&& forall|j: int| 0 <= j < st.finished@.len() ==> block_complete(#[trigger] st.finished@[j], nv, ns, nb)
    &&& st.current.id < nb
    &&& body_within(st.current.instructions@, nv, ns, nb)
}

/// Every binding names an existing slot.
pub open spec fn table_ok(t: Seq<Binding>, ns: nat) -> bool {
    forall|k: int| 0 <= k < t.len() ==> #[trigger] t[k].slot < ns
}

proof fn lemma_refs_grow(i: Instruction, nv: nat, ns: nat, nb: nat, nv2: nat, ns2: nat, nb2: nat)
    requires
        refs_within(i, nv, ns, nb),
        nv <= nv2,
        ns <= ns2,
        nb <= nb2,
    ensures
        refs_within(i, nv2, ns2, nb2),
{
}

proof fn lemma_body_grows(insts: Seq<Instruction>, nv: nat, ns: nat, nb: nat, nv2: nat, ns2: nat, nb2: nat)
    requires
        body_within(insts, nv, ns, nb),
        nv <= nv2,
        ns <= ns2,
        nb <= nb2,
    ensures
        body_within(insts, nv2, ns2, nb2),
{
    assert forall|k: int| 0 <= k < insts.len() implies refs_within(#[trigger] insts[k], nv2, ns2, nb2) by {
        lemma_refs_grow(insts[k], nv, ns, nb, nv2, ns2, nb2);
    }
}

/// A well-formed state stays well formed when values, slots or blocks are
/// added.
proof fn lemma_state_grows(old: FunctionState, new: FunctionState)
    requires
        state_ok(old),
        new.finished == old.finished,
        new.current == old.current,
        old.values@.len() <= new.values@.len(),
        old.slots@.len() <= new.slots@.len(),
        old.block_kinds@.len() <= new.block_kinds@.len(),
    ensures
        state_ok(new),
{
    let (nv, ns, nb) = (old.values@.len(), old.slots@.len(), old.block_kinds@.len());
    let (nv2, ns2, nb2) = (new.values@.len(), new.slots@.len(), new.block_kinds@.len());
    assert forall|j: int| 0 <= j < new.finished@.len() implies block_complete(#[trigger] new.finished@[j], nv2, ns2, nb2) by {
        assert(block_complete(old.finished@[j], nv, ns, nb));
        lemma_body_grows(new.finished@[j].instructions@, nv, ns, nb, nv2, ns2, nb2);
    }
    lemma_body_grows(new.current.instructions@, nv, ns, nb, nv2, ns2, nb2);
}

/// `new` continues `old`: the blocks the cursor left stay as they were,
/// and the next block to be left (or the cursor's block) is the one the
/// cursor was in.
pub open spec fn grows_from(old: FunctionState, new: FunctionState) -> bool {
    &&& extends(old.finished@, new.finished@)
    &&& if new.finished@.len() > old.finished@.len() {
        new.finished@[old.finished@.len() as int].id == old.current.id
    } else {
        new.current.id == old.current.id
    }
}

/// The blocks of a conditional whose test ended block `j` with the value
/// `c`: block `j` branches on `c` to the then-block `j + 1` or to the
/// else-block; the then-path ends in block `m` and the else-path in the
/// last block, each jumping to the cursor's fresh continuation block or
/// returning. An empty else-block does nothing but jump there, right after
/// the end of the then-path.
pub open spec fn conditional_shape(
    f: Seq<BasicBlock>,
    cur: BasicBlock,
    j: int,
    m: int,
    c: usize,
    else_len: nat,
) -> bool {
    let n = f.len();
    &&& 0 <= j && j + 1 <= m && m + 2 <= n
    &&& f[j].instructions@.len() > 0
    &&& cur.instructions@.len() == 0
    &&& flows_to(f[m], cur.id)
    &&& flows_to(f[n - 1], cur.id)
    &&& (f[j].instructions@.last() matches Instruction::CondBranch { cond, then_block, else_block }
        && cond == c && then_block == f[j + 1].id && (else_len == 0 ==> m == n - 2 && else_block
        == f[n - 1].id && f[n - 1].instructions@ == seq![Instruction::Branch { target: cur.id }]))
}

/// What generating an expression may change: it adds values, instructions
/// and blocks, and leaves the module, the symbol table and the slots alone.
pub open spec fn expr_frame(old: CodeGen, new: CodeGen) -> bool {
    &&& new.module == old.module
    &&& new.symbol_table == old.symbol_table
    &&& new.func.slots == old.func.slots
    &&& extends(old.func.values@, new.func.values@)
    &&& grows_from(old.func, new.func)
    &&& old.func.block_kinds@.len() <= new.func.block_kinds@.len()
}

/// A generated value: its number within the function and its type.
#[derive(Clone, Copy, Debug, PartialEq, Eq, Structural)]
pub struct Operand {
    pub id: usize,
    pub ty: Type,
}

/// An entry of the symbol table: a name, the stack slot that holds its
/// value, and its type.
#[derive(Debug)]
pub struct Binding {
    pub name: String,
    pub slot: usize,
    pub ty: Type,
}

/// The state of the function being generated.
#[derive(Debug)]
pub struct FunctionState {
    pub block_kinds: Vec<BlockKind>,
    /// The blocks that the cursor has left, in the order it left them.
    pub finished: Vec<BasicBlock>,
    /// The block under the build cursor.
    pub current: BasicBlock,
    pub values: Vec<Type>,
    pub slots: Vec<Type>,
}

/// The code generator: the module it fills, and the state of the function
/// it is generating.
pub struct CodeGen {
    pub module: Module,
    /// The bindings of the function being generated, oldest first.
    pub symbol_table: Vec<Binding>,
    pub func: FunctionState,
}

/// `new` starts with `old` as a prefix.
pub open spec fn extends<T>(old: Seq<T>, new: Seq<T>) -> bool {
    old.len() <= new.len() && forall|i: int| 0 <= i < old.len() ==> new[i] == old[i]
}

/// The last instruction of the block under the cursor, if it ends the
/// block, is a return.
pub open spec fn cursor_open(b: BasicBlock) -> bool {
    is_terminated(b) ==> b.instructions@.last() is Return
}

/// Whether a block jumps to block `target` or returns from the function.
pub open spec fn flows_to(b: BasicBlock, target: usize) -> bool {
    b.instructions@.len() > 0 && match b.instructions@.last() {
        Instruction::Branch { target: t } => t == target,
        Instruction::Return { .. } => true,
        _ => false,
    }
}

/// The zero of an integer type, into value `dest`.
pub open spec fn zero_of(ty: Type, dest: usize) -> Instruction {
    if ty == Type::Bool {
        Instruction::ConstBool { dest, value: false }
    } else {
        Instruction::ConstInt { dest, value: 0 }
    }
}

/// The blocks of a checked division of `lhs` by `rhs` (of type `ty`) into `q`, begun
/// with the cursor in `old.current` and ended in `new`: that block goes on
/// to compare the divisor with a zero constant, and branches on the result
/// of that comparison to the continuation (the new cursor) when they
/// differ, else to the panic block; the continuation divides.
pub open spec fn checked_division_shape(old: FunctionState, new: FunctionState, ty: Type, lhs: usize, rhs: usize, q: usize) -> bool {
    let k = old.finished@.len() as int;
    let f = new.finished@;
    let guard = f[k].instructions@;
    let n = old.current.instructions@.len() as int;
    &&& f.len() == k + 2
    &&& f.subrange(0, k) == old.finished@
    &&& f[k].id == old.current.id
    &&& guard.len() == n + 3
    &&& guard.subrange(0, n) == old.current.instructions@
    &&& (guard[n + 1] matches Instruction::IntCompare { dest: c, pred, lhs: l, rhs: z } && pred
        == Predicate::Ne && l == rhs && guard[n] == zero_of(ty, z)
        && guard[n + 2] == (Instruction::CondBranch {
        cond: c,
        then_block: new.current.id,
        else_block: f[k + 1].id,
    }))
    &&& is_div_panic_block(f[k + 1])
    &&& new.current.instructions@ == seq![
        Instruction::IntArith { dest: q, op: ArithOp::Div, lhs: lhs, rhs: rhs },
    ]
}

/// What a list of bindings says of names.
pub open spec fn bindings_env(t: Seq<Binding>) -> Env {
    t.map_values(|b: Binding| (b.name@, b.ty))
}

/// Value `a.id` of state `s` exists and has type `a.ty`.
pub open spec fn holds_value(s: FunctionState, a: Operand) -> bool {
    a.id < s.values@.len() && s.values@[a.id as int] == a.ty
}

/// `s1` is `s0` with one value of type `ty` added and one instruction
/// appended to the cursor's block, and nothing else changed.
pub open spec fn appends_one(s0: FunctionState, s1: FunctionState, ty: Type) -> bool {
    &&& s1.values@ == s0.values@.push(ty)
    &&& s1.slots == s0.slots
    &&& s1.block_kinds == s0.block_kinds
    &&& s1.finished == s0.finished
    &&& s1.current.id == s0.current.id
    &&& s1.current.instructions@.len() == s0.current.instructions@.len() + 1
    &&& s1.current.instructions@.drop_last() == s0.current.instructions@
}

/// `i` is the constant instruction for a literal of type `t` with text
/// `text`, defining value `dest`.
pub open spec fn literal_lowered(t: Type, text: Seq<char>, i: Instruction, dest: usize) -> bool {
    match t {
        Type::Int => int_literal(text) matches Some(v) && i == (Instruction::ConstInt { dest, value: v as i64 }),
        Type::Bool => bool_literal(text) matches Some(b) && i == (Instruction::ConstBool { dest, value: b }),
        Type::GoString => i matches Instruction::GlobalString { dest: d, value } && d == dest && value@
            == unescape_newlines(text),
        _ => i matches Instruction::ConstFloat { dest: d, ty, value } && d == dest && ty == t && value@
            == text,
    }
}

/// The slot of the latest of the first `n` bindings of `name`.
pub open spec fn slot_upto(t: Seq<Binding>, name: Seq<char>, n: int) -> Option<usize>
    decreases n,
{
    if n <= 0 {
        None
    } else if t[n - 1].name@ == name {
        Some(t[n - 1].slot)
    } else {
        slot_upto(t, name, n - 1)
    }
}

/// The arithmetic a binary operator performs, if it is not a comparison.
pub open spec fn arith_of(op: BinaryOp) -> Option<ArithOp> {
    match op {
        BinaryOp::Add => Some(ArithOp::Add),
        BinaryOp::Sub => Some(ArithOp::Sub),
        BinaryOp::Mul => Some(ArithOp::Mul),
        BinaryOp::Div => Some(ArithOp::Div),
        _ => None,
    }
}

/// The comparison a binary operator performs (`Ge` is `>`, `Le` is `<`).
pub open spec fn predicate_of(op: BinaryOp) -> Predicate {
    match op {
        BinaryOp::Eq => Predicate::Eq,
        BinaryOp::Neq => Predicate::Ne,
        BinaryOp::Ge => Predicate::Gt,
        BinaryOp::Le => Predicate::Lt,
        BinaryOp::Geq => Predicate::Ge,
        _ => Predicate::Le,
    }
}

/// The instruction for `l op r` into `dest`, on integers or on floats.
pub open spec fn binop_inst(op: BinaryOp, float: bool, dest: usize, l: usize, r: usize) -> Instruction {
    match arith_of(op) {
        Some(a) => if float {
            Instruction::FloatArith { dest, op: a, lhs: l, rhs: r }
        } else {
            Instruction::IntArith { dest, op: a, lhs: l, rhs: r }
        },
        None => if float {
            Instruction::FloatCompare { dest, pred: predicate_of(op), lhs: l, rhs: r }
        } else {
            Instruction::IntCompare { dest, pred: predicate_of(op), lhs: l, rhs: r }
        },
    }
}

/// The code for `l op r` into `o`, from `s0` to `s1`: a checked division
/// for an integer division, else the one instruction of the operator.
pub open spec fn binop_lowered(op: BinaryOp, l: Operand, r: Operand, s0: FunctionState, s1: FunctionState, o: Operand) -> bool {
    if is_integer(l.ty) && op == BinaryOp::Div {
        checked_division_shape(s0, s1, l.ty, l.id, r.id, o.id)
    } else {
        &&& appends_one(s0, s1, o.ty)
        &&& o.id == s0.values@.len()
        &&& s1.current.instructions@.last() == binop_inst(op, is_float(l.ty), o.id, l.id, r.id)
    }
}

/// The code for a call of `name` on the values `ids`, from `s0` to `s1`,
/// yielding `o`: the call itself, and for a callee that returns nothing a
/// boolean `true` placeholder after it.
pub open spec fn call_lowered(name: Seq<char>, sig: Option<Option<Type>>, ids: Seq<usize>, s0: FunctionState, s1: FunctionState, o: Operand) -> bool {
    let n = s0.current.instructions@.len() as int;
    let insts = s1.current.instructions@;
    let ret = sig->0;
    &&& sig is Some
    &&& s1.values@ == s0.values@.push(o.ty)
    &&& o.id == s0.values@.len()
    &&& s1.slots == s0.slots
    &&& s1.block_kinds == s0.block_kinds
    &&& s1.finished == s0.finished
    &&& s1.current.id == s0.current.id
    &&& insts.subrange(0, n) == s0.current.instructions@
    &&& insts[n] matches Instruction::Call { dest, func, args } && func@ == name && args@ == ids && match ret {
        Some(t) => dest == Some(o.id) && insts.len() == n + 1 && o.ty == t,
        None => dest is None && insts.len() == n + 2 && insts[n + 1] == (Instruction::ConstBool {
            dest: o.id,
            value: true,
        }),
    }
}

/// The code that generating `e` appends, from state `s0` to state `s1`,
/// with the bindings `table` and the signatures `fs`, yielding `o`: the
/// operands' code left to right, then the instructions of `e` itself on
/// the operands' values.
pub open spec fn lowers_expr(e: Expression, table: Seq<Binding>, fs: Sigs, s0: FunctionState, s1: FunctionState, o: Operand) -> bool
    decreases e,
{
    match e {
        Expression::Name { name, .. } => {
            &&& appends_one(s0, s1, o.ty)
            &&& o.id == s0.values@.len()
            &&& slot_upto(table, name@, table.len() as int) matches Some(slot)
            &&& s1.current.instructions@.last() == (Instruction::Load { dest: o.id, slot, name })
        },
        Expression::Literal { expr_type, value } => {
            &&& appends_one(s0, s1, expr_type)
            &&& o.ty == expr_type
            &&& o.id == s0.values@.len()
            &&& literal_lowered(expr_type, value@, s1.current.instructions@.last(), o.id)
        },
        Expression::BinaryOp { op, left, right, .. } => exists|m1: FunctionState, m2: FunctionState, l: Operand, r: Operand|
            #![trigger grows_from(m1, m2), binop_lowered(op, l, r, m2, s1, o)]
            grows_from(m1, m2) && lowers_expr(*left, table, fs, s0, m1, l) && lowers_expr(*right, table, fs, m1, m2, r)
                && binop_lowered(op, l, r, m2, s1, o),
        Expression::Call { func, args, .. } => exists|m: FunctionState, ids: Seq<usize>|
            #[trigger] call_lowered(func@, find_sig(fs, func@), ids, m, s1, o) && args_lowered(args@, table, fs, s0, m, ids),
    }
}

/// The code of the arguments, left to right, yielding the values `ids`.
pub open spec fn args_lowered(args: Seq<Expression>, table: Seq<Binding>, fs: Sigs, s0: FunctionState, s1: FunctionState, ids: Seq<usize>) -> bool
    decreases args,
{
    if args.len() == 0 {
        s1 == s0 && ids.len() == 0
    } else {
        exists|m: FunctionState, a: Operand|
            #![trigger grows_from(m, s1), holds_value(s1, a)]
            grows_from(m, s1) && holds_value(s1, a) && lowers_expr(args.last(), table, fs, m, s1, a)
                && ids.len() == args.len() && ids.last() == a.id && args_lowered(
                args.drop_last(),
                table,
                fs,
                s0,
                m,
                ids.drop_last(),
            )
    }
}

proof fn lemma_binop_lowers(
    e: Expression,
    table: Seq<Binding>,
    fs: Sigs,
    s0: FunctionState,
    s1: FunctionState,
    o: Operand,
    m1: FunctionState,
    m2: FunctionState,
    l: Operand,
    r: Operand,
)
    requires
        e matches Expression::BinaryOp { op, left, right, .. } && grows_from(m1, m2) && lowers_expr(*left, table, fs, s0, m1, l)
            && lowers_expr(*right, table, fs, m1, m2, r) && binop_lowered(op, l, r, m2, s1, o),
    ensures
        lowers_expr(e, table, fs, s0, s1, o),
{
}

proof fn lemma_call_lowers(
    e: Expression,
    table: Seq<Binding>,
    fs: Sigs,
    s0: FunctionState,
    s1: FunctionState,
    o: Operand,
    m: FunctionState,
    ids: Seq<usize>,
)
    requires
        e matches Expression::Call { func, args, .. } && args_lowered(args@, table, fs, s0, m, ids)
            && call_lowered(func@, find_sig(fs, func@), ids, m, s1, o),
    ensures
        lowers_expr(e, table, fs, s0, s1, o),
{
}

proof fn lemma_args_step(
    args: Seq<Expression>,
    table: Seq<Binding>,
    fs: Sigs,
    s0: FunctionState,
    m: FunctionState,
    s1: FunctionState,
    ids: Seq<usize>,
    a: Operand,
)
    requires
        args.len() > 0,
        grows_from(m, s1),
        holds_value(s1, a),
        lowers_expr(args.last(), table, fs, m, s1, a),
        ids.len() == args.len(),
        ids.last() == a.id,
        args_lowered(args.drop_last(), table, fs, s0, m, ids.drop_last()),
    ensures
        args_lowered(args, table, fs, s0, s1, ids),
{
}

/// The slot an assignment of `name` at type `ty` reuses: that of the latest
/// of the first `n` bindings of `name`, when it has type `ty`.
pub open spec fn reuse_upto(t: Seq<Binding>, name: Seq<char>, ty: Type, n: int) -> Option<usize>
    decreases n,
{
    if n <= 0 {
        None
    } else if t[n - 1].name@ == name {
        if t[n - 1].ty == ty {
            Some(t[n - 1].slot)
        } else {
            None
        }
    } else {
        reuse_upto(t, name, ty, n - 1)
    }
}

/// From `m` to `s1`, an assignment of value `v` to `name` at type `ty`:
/// a store to the reused slot, or to a fresh slot reserved just before.
pub open spec fn stores_assignment(name: String, ty: Type, reuse: Option<usize>, v: Operand, m: FunctionState, s1: FunctionState, slot: usize) -> bool {
    let n = m.current.instructions@;
    &&& s1.values == m.values
    &&& s1.finished == m.finished
    &&& s1.block_kinds == m.block_kinds
    &&& s1.current.id == m.current.id
    &&& match reuse {
        Some(x) => slot == x && s1.slots == m.slots && s1.current.instructions@ == n.push(
            Instruction::Store { slot, value: v.id },
        ),
        None => slot == m.slots@.len() && s1.slots@ == m.slots@.push(ty) && s1.current.instructions@
            == n.push(Instruction::Alloca { slot, ty, name }).push(Instruction::Store { slot, value: v.id }),
    }
}

/// From `m` to `s1`, a return of value `v`.
pub open spec fn returns_value(m: FunctionState, s1: FunctionState, v: Operand) -> bool {
    &&& s1.values == m.values
    &&& s1.slots == m.slots
    &&& s1.finished == m.finished
    &&& s1.block_kinds == m.block_kinds
    &&& s1.current.id == m.current.id
    &&& s1.current.instructions@ == m.current.instructions@.push(Instruction::Return { value: Some(v.id) })
}

/// From `m`, whose cursor block computed the condition `c`, to `p`: three
/// fresh blocks (then, else, continuation), the cursor block ended by a
/// branch on `c` to the first two, and the cursor on the then-block.
pub open spec fn opens_conditional(m: FunctionState, p: FunctionState, c: Operand) -> bool {
    let nb = m.block_kinds@.len();
    let last = p.finished@.last().instructions@;
    &&& p.block_kinds@ == m.block_kinds@ + seq![BlockKind::Then, BlockKind::Else, BlockKind::Cont]
    &&& p.values == m.values
    &&& p.slots == m.slots
    &&& p.finished@.len() == m.finished@.len() + 1
    &&& p.finished@.drop_last() == m.finished@
    &&& p.finished@.last().id == m.current.id
    &&& last.len() == m.current.instructions@.len() + 1
    &&& last.drop_last() == m.current.instructions@
    &&& (last.last() matches Instruction::CondBranch { cond, then_block, else_block } && cond == c.id
        && then_block == nb && else_block == nb + 1)
    &&& p.current.id == nb
    &&& p.current.instructions@.len() == 0
}

/// From `e`, the end of a branch, to `p`: the cursor block ended by a jump
/// to `target` unless it already ended, and the cursor on block `next`.
pub open spec fn closes_branch(e: FunctionState, p: FunctionState, target: int, next: int) -> bool {
    let last = p.finished@.last().instructions@;
    &&& p.block_kinds == e.block_kinds
    &&& p.values == e.values
    &&& p.slots == e.slots
    &&& p.finished@.len() == e.finished@.len() + 1
    &&& p.finished@.drop_last() == e.finished@
    &&& p.finished@.last().id == e.current.id
    &&& if is_terminated(e.current) {
        last == e.current.instructions@
    } else {
        last.len() == e.current.instructions@.len() + 1 && last.drop_last() == e.current.instructions@
            && (last.last() matches Instruction::Branch { target: t } && t == target)
    }
    &&& p.current.id == next
    &&& p.current.instructions@.len() == 0
}

/// The then-path of the conditional opened in `m` ends in `e`; `p` follows.
pub open spec fn closes_then(m: FunctionState, e: FunctionState, p: FunctionState) -> bool {
    closes_branch(e, p, m.block_kinds@.len() as int + 2, m.block_kinds@.len() as int + 1)
}

/// The else-path of the conditional opened in `m` ends in `e`; the cursor
/// then moves to the continuation block in `p`.
pub open spec fn closes_else(m: FunctionState, e: FunctionState, p: FunctionState) -> bool {
    closes_branch(e, p, m.block_kinds@.len() as int + 2, m.block_kinds@.len() as int + 2)
}

/// The bindings at the ends of both branches name existing slots.
pub open spec fn branch_tables(u1: Seq<Binding>, u2: Seq<Binding>, e1: FunctionState, e2: FunctionState) -> bool {
    table_ok(u1, e1.slots@.len()) && table_ok(u2, e2.slots@.len())
}

/// From `m` to `d`: when the cursor block has ended, the cursor moves to a
/// fresh block for unreachable code; otherwise nothing changes.
pub open spec fn skips_dead(m: FunctionState, d: FunctionState) -> bool {
    if is_terminated(m.current) {
        &&& d.block_kinds@ == m.block_kinds@.push(BlockKind::Unreachable)
        &&& d.values == m.values
        &&& d.slots == m.slots
        &&& d.finished@ == m.finished@.push(m.current)
        &&& d.current.id == m.block_kinds@.len()
        &&& d.current.instructions@.len() == 0
    } else {
        d == m
    }
}

/// The code that generating statement `st` appends, from `s0` with the
/// bindings `t0` to `s1` with the bindings `t1`.
pub open spec fn lowers_stmt(st: Statement, t0: Seq<Binding>, fs: Sigs, s0: FunctionState, s1: FunctionState, t1: Seq<Binding>) -> bool
    decreases st,
{
    match st {
        Statement::Assignment { name, var_type, expr } => exists|m: FunctionState, v: Operand, slot: usize|
            #[trigger] stores_assignment(name, var_type, reuse_upto(t0, name@, var_type, t0.len() as int), v, m, s1, slot)
                && lowers_expr(expr, t0, fs, s0, m, v) && t1 == t0.push(Binding { name, slot, ty: var_type }),
        Statement::Return { expr } => t1 == t0 && exists|m: FunctionState, v: Operand|
            #[trigger] returns_value(m, s1, v) && lowers_expr(expr, t0, fs, s0, m, v),
        Statement::Expression { expr } => t1 == t0 && exists|v: Operand|
            #[trigger] holds_value(s1, v) && lowers_expr(expr, t0, fs, s0, s1, v),
        Statement::If { cond, then_block, else_block } => t1 == t0 && exists|
            m: FunctionState,
            c: Operand,
            p1: FunctionState,
            e1: FunctionState,
            u1: Seq<Binding>,
            p2: FunctionState,
            e2: FunctionState,
            u2: Seq<Binding>,
        |
            #![trigger opens_conditional(m, p1, c), closes_then(m, e1, p2), closes_else(m, e2, s1), branch_tables(u1, u2, e1, e2)]
            lowers_expr(cond, t0, fs, s0, m, c) && opens_conditional(m, p1, c) && lowers_block(then_block@, t0, fs, p1, e1, u1)
                && closes_then(m, e1, p2) && lowers_block(else_block@, t0, fs, p2, e2, u2) && closes_else(m, e2, s1)
                && branch_tables(u1, u2, e1, e2),
    }
}

/// The code that generating a list of statements appends, in order; a
/// statement that follows an ended block starts a block for unreachable
/// code.
pub open spec fn lowers_block(b: Seq<Statement>, t0: Seq<Binding>, fs: Sigs, s0: FunctionState, s1: FunctionState, t1: Seq<Binding>) -> bool
    decreases b,
{
    if b.len() == 0 {
        s1 == s0 && t1 == t0
    } else {
        exists|m: FunctionState, tm: Seq<Binding>, d: FunctionState|
            #![trigger skips_dead(m, d), table_ok(tm, m.slots@.len())]
            table_ok(tm, m.slots@.len()) && lowers_block(b.drop_last(), t0, fs, s0, m, tm) && skips_dead(m, d)
                && lowers_stmt(b.last(), tm, fs, d, s1, t1)
    }
}

proof fn lemma_assign_lowers(st: Statement, t0: Seq<Binding>, fs: Sigs, s0: FunctionState, s1: FunctionState, t1: Seq<Binding>, m: FunctionState, v: Operand, slot: usize)
    requires
        st matches Statement::Assignment { name, var_type, expr } && stores_assignment(
            name,
            var_type,
            reuse_upto(t0, name@, var_type, t0.len() as int),
            v,
            m,
            s1,
            slot,
        ) && lowers_expr(expr, t0, fs, s0, m, v) && t1 == t0.push(Binding { name, slot, ty: var_type }),
    ensures
        lowers_stmt(st, t0, fs, s0, s1, t1),
{
}

proof fn lemma_return_lowers(st: Statement, t0: Seq<Binding>, fs: Sigs, s0: FunctionState, s1: FunctionState, m: FunctionState, v: Operand)
    requires
        st matches Statement::Return { expr } && returns_value(m, s1, v) && lowers_expr(expr, t0, fs, s0, m, v),
    ensures
        lowers_stmt(st, t0, fs, s0, s1, t0),
{
}

proof fn lemma_expr_stmt_lowers(st: Statement, t0: Seq<Binding>, fs: Sigs, s0: FunctionState, s1: FunctionState, v: Operand)
    requires
        st matches Statement::Expression { expr } && holds_value(s1, v) && lowers_expr(expr, t0, fs, s0, s1, v),
    ensures
        lowers_stmt(st, t0, fs, s0, s1, t0),
{
}

proof fn lemma_if_lowers(
    st: Statement,
    t0: Seq<Binding>,
    fs: Sigs,
    s0: FunctionState,
    s1: FunctionState,
    m: FunctionState,
    c: Operand,
    p1: FunctionState,
    e1: FunctionState,
    u1: Seq<Binding>,
    p2: FunctionState,
    e2: FunctionState,
    u2: Seq<Binding>,
)
    requires
        st matches Statement::If { cond, then_block, else_block } && lowers_expr(cond, t0, fs, s0, m, c)
            && opens_conditional(m, p1, c) && lowers_block(then_block@, t0, fs, p1, e1, u1) && closes_then(m, e1, p2)
            && lowers_block(else_block@, t0, fs, p2, e2, u2) && closes_else(m, e2, s1) && branch_tables(u1, u2, e1, e2),
    ensures
        lowers_stmt(st, t0, fs, s0, s1, t0),
{
}

proof fn lemma_block_step(
    b: Seq<Statement>,
    t0: Seq<Binding>,
    fs: Sigs,
    s0: FunctionState,
    s1: FunctionState,
    t1: Seq<Binding>,
    m: FunctionState,
    tm: Seq<Binding>,
    d: FunctionState,
)
    requires
        b.len() > 0,
        table_ok(tm, m.slots@.len()),
        lowers_block(b.drop_last(), t0, fs, s0, m, tm),
        skips_dead(m, d),
        lowers_stmt(b.last(), tm, fs, d, s1, t1),
    ensures
        lowers_block(b, t0, fs, s0, s1, t1),
{
}

/// The bindings a function's parameters start with: parameter `i` in
/// slot `i`.
pub open spec fn param_table(ps: Seq<(String, Type)>) -> Seq<Binding> {
    Seq::new(ps.len(), |i: int| Binding { name: ps[i].0, slot: i as usize, ty: ps[i].1 })
}

/// The entry code that stores each parameter `i` to its own slot `i`.
pub open spec fn prologue(ps: Seq<(String, Type)>) -> Seq<Instruction>
    decreases ps.len(),
{
    if ps.len() == 0 {
        Seq::empty()
    } else {
        let i = (ps.len() - 1) as usize;
        prologue(ps.drop_last()) + seq![
            Instruction::Alloca { slot: i, ty: ps.last().1, name: ps.last().0 },
            Instruction::Store { slot: i, value: i },
        ]
    }
}

/// The state in which a function's body starts: the entry block holds the
/// prologue, the parameters are the first values and fill the first slots.
pub open spec fn enters(ps: Seq<(String, Type)>, s: FunctionState) -> bool {
    &&& s.finished@.len() == 0
    &&& s.current.id == 0
    &&& s.current.instructions@ == prologue(ps)
    &&& s.values@ == ps.map_values(|p: (String, Type)| p.1)
    &&& s.slots@ == ps.map_values(|p: (String, Type)| p.1)
    &&& s.block_kinds@ == seq![BlockKind::Entry]
}

/// The function `f` made from the state `e` at the end of its body: the
/// last block gets a return with no value (no return type) or an
/// unreachable mark (a return type) where the body left it open.
pub open spec fn finishes(e: FunctionState, f: Function) -> bool {
    let last = f.blocks@.last().instructions@;
    &&& f.blocks@.len() == e.finished@.len() + 1
    &&& f.blocks@.drop_last() == e.finished@
    &&& f.blocks@.last().id == e.current.id
    &&& if is_terminated(e.current) {
        last == e.current.instructions@
    } else {
        last == e.current.instructions@.push(
            if f.return_type is None {
                Instruction::Return { value: None }
            } else {
                Instruction::Unreachable
            },
        )
    }
    &&& f.values == e.values
    &&& f.slots == e.slots
    &&& f.block_kinds == e.block_kinds
}

/// `f` is the lowering of the definition `d`, with the signatures `fs`: a
/// function with a body, of `d`'s name, parameters and return type, whose
/// blocks are the prologue, then the code of `d`'s body from the
/// parameters' bindings, then the closing of the last block.
pub open spec fn lowers_function(d: FuncDef, f: Function, fs: Sigs) -> bool {
    &&& !f.external
    &&& f.name == d.name
    &&& f.params@ == d.params@
    &&& f.return_type == d.return_type
    &&& exists|entry: FunctionState, e: FunctionState, t: Seq<Binding>|
        #![trigger enters(d.params@, entry), finishes(e, f), table_ok(t, e.slots@.len())]
        enters(d.params@, entry) && finishes(e, f) && table_ok(t, e.slots@.len()) && lowers_block(
            d.code@,
            param_table(d.params@),
            fs,
            entry,
            e,
            t,
        )
}

proof fn lemma_function_lowers(d: FuncDef, f: Function, fs: Sigs, entry: FunctionState, e: FunctionState, t: Seq<Binding>)
    requires
        !f.external,
        f.name == d.name,
        f.params@ == d.params@,
        f.return_type == d.return_type,
        enters(d.params@, entry),
        finishes(e, f),
        table_ok(t, e.slots@.len()),
        lowers_block(d.code@, param_table(d.params@), fs, entry, e, t),
    ensures
        lowers_function(d, f, fs),
{
}

/// The panic block of a checked division: the message, the call of the
/// runtime's panic routine, and a point that control never reaches.
pub open spec fn is_div_panic_block(b: BasicBlock) -> bool {
    b.instructions@.len() == 3 && match b.instructions@[0] {
        Instruction::GlobalString { dest, value } => value@ == "division by zero"@ && match b.instructions@[1] {
            Instruction::Call { dest: d, func, args } => d is None && func@ == "__gopanic"@
                && args@ == seq![dest],
            _ => false,
        },
        _ => false,
    } && b.instructions@[2] is Unreachable
}

impl CodeGen {
    /// A generator with an empty module and no function under way.
    pub fn new() -> (r: CodeGen)
        ensures
            r.module.functions@.len() == 0,
            r.symbol_table@.len() == 0,
    {
        CodeGen {
            module: Module { functions: Vec::new() },
            symbol_table: Vec::new(),
            func: FunctionState {
                block_kinds: Vec::new(),
                finished: Vec::new(),
                current: BasicBlock { id: 0, instructions: Vec::new() },
                values: Vec::new(),
                slots: Vec::new(),
            },
        }
    }

    /// The names in scope, with their types.
    pub open spec fn env(&self) -> Env {
        bindings_env(self.symbol_table@)
    }

    /// The functions that calls can reach.
    pub open spec fn sigs(&self) -> Sigs {
        signatures(self.module.functions@)
    }

    /// The function under way is well formed and its bindings name existing
    /// slots.
    pub open spec fn ready(&self) -> bool {
        state_ok(self.func) && table_ok(self.symbol_table@, self.func.slots@.len())
    }

    // -----------------------------------------------------------------------
    // Checking: each function below decides, without emitting anything,
    // whether generation succeeds, and with which first error.
    // -----------------------------------------------------------------------

    /// Whether the text of a literal denotes a value of its type.
    fn check_literal(t: Type, value: &String) -> (r: bool)
        ensures
            r == literal_ok(t, value@),
    {
        proof {
            reveal_strlit("0");
            reveal_strlit("1");
            assert("0"@ =~= seq!['0']);
            assert("1"@ =~= seq!['1']);
        }
        match t {
            Type::Int => parse_int_literal(value).is_some(),
            Type::Bool => *value == String::from_str("1") || *value == String::from_str("0"),
            Type::Float32 | Type::Float64 => is_float_literal(value),
            Type::GoString => true,
        }
    }

    /// The type of `l op r`, or why there is none.
    fn check_binop(op: BinaryOp, l: Type, r: Type) -> (res: Result<Type, CodegenError>)
        ensures
            res == binop_type(op, l, r),
    {
        let l_int = l == Type::Int || l == Type::Bool;
        let r_int = r == Type::Int || r == Type::Bool;
        let l_float = l == Type::Float32 || l == Type::Float64;
        let r_float = r == Type::Float32 || r == Type::Float64;
        if (l_int && r_int) || (l_float && r_float) {
            if l != r {
                Err(CodegenError::TypeMismatch)
            } else {
                match op {
                    BinaryOp::Add | BinaryOp::Sub | BinaryOp::Mul | BinaryOp::Div => Ok(l),
                    _ => Ok(Type::Bool),
                }
            }
        } else {
            Err(CodegenError::UnsupportedOperation)
        }
    }

    /// The type of the latest binding of `name`.
    fn check_lookup(env: &Vec<Binding>, name: &String) -> (r: Option<Type>)
        ensures
            r == lookup(bindings_env(env@), name@),
    {
        let mut i = env.len();
        while i > 0
            invariant
                i <= env@.len(),
                lookup(bindings_env(env@), name@) == lookup_upto(bindings_env(env@), name@, i as int),
            decreases i,
        {
            i -= 1;
            proof {
                assert(bindings_env(env@)[i as int] == (env@[i as int].name@, env@[i as int].ty));
            }
            if env[i].name == *name {
                return Some(env[i].ty);
            }
        }
        None
    }

    /// The return type of the first function of the module named `func`;
    /// `None` when there is none.
    fn find_return(&self, func: &String) -> (r: Option<Option<Type>>)
        ensures
            r == find_sig(self.sigs(), func@),
    {
        let ghost sigs = self.sigs();
        let mut j: usize = 0;
        while j < self.module.functions.len()
            invariant
                sigs == self.sigs(),
                j <= self.module.functions@.len(),
                sigs.len() == self.module.functions@.len(),
                find_sig(sigs, func@) == find_sig_from(sigs, func@, j as int),
            decreases self.module.functions@.len() - j,
        {
            proof {
                assert(sigs[j as int] == (self.module.functions@[j as int].name@, self.module.functions@[j as int].return_type));
            }
            if self.module.functions[j].name == *func {
                return Some(self.module.functions[j].return_type);
            }
            j += 1;
        }
        None
    }

    /// The type of the value that generating `e` with the bindings `env`
    /// yields, or the first error it meets.
    fn check_expr(&self, e: &Expression, env: &Vec<Binding>) -> (r: Result<Type, CodegenError>)
        ensures
            r == expr_result(*e, bindings_env(env@), self.sigs()),
        decreases e, 1nat,
    {
        match e {
            Expression::Name { name, .. } => match Self::check_lookup(env, name) {
                Some(t) => Ok(t),
                None => Err(CodegenError::UndefinedVariable),
            },
            Expression::Literal { expr_type, value } => if Self::check_literal(*expr_type, value) {
                Ok(*expr_type)
            } else {
                Err(CodegenError::LiteralParseFailure)
            },
            Expression::BinaryOp { op, left, right, .. } => {
                let l = match self.check_expr(left, env) {
                    Ok(l) => l,
                    Err(x) => {
                        return Err(x);
                    },
                };
                let r = match self.check_expr(right, env) {
                    Ok(r) => r,
                    Err(x) => {
                        return Err(x);
                    },
                };
                Self::check_binop(*op, l, r)
            },
            Expression::Call { func, args, .. } => match self.find_return(func) {
                None => Err(CodegenError::UndefinedFunction),
                Some(ret) => match self.check_args(args, env) {
                    Some(x) => Err(x),
                    None => Ok(
                        match ret {
                            Some(t) => t,
                            None => Type::Bool,
                        },
                    ),
                },
            },
        }
    }

    /// The first error among the arguments, checked left to right.
    fn check_args(&self, args: &Vec<Expression>, env: &Vec<Binding>) -> (r: Option<CodegenError>)
        ensures
            r == args_result(args@, bindings_env(env@), self.sigs()),
        decreases args, 0nat,
    {
        let mut i: usize = 0;
        proof {
            assert(args@.subrange(0, args@.len() as int) =~= args@);
        }
        while i < args.len()
            invariant
                i <= args@.len(),
                args_result(args@, bindings_env(env@), self.sigs()) == args_result(
                    args@.subrange(i as int, args@.len() as int),
                    bindings_env(env@),
                    self.sigs(),
                ),
            decreases args@.len() - i,
        {
            let ghost tail = args@.subrange(i as int, args@.len() as int);
            proof {
                assert(tail[0] == args@[i as int]);
                assert(tail.subrange(1, tail.len() as int) =~= args@.subrange(i + 1, args@.len() as int));
            }
            match self.check_expr(&args[i], env) {
                Ok(_) => {},
                Err(x) => {
                    return Some(x);
                },
            }
            i += 1;
        }
        None
    }

    /// Checks a statement with the bindings `env`, and adds what it binds.
    fn check_stmt(&self, s: &Statement, env: &mut Vec<Binding>) -> (r: Result<(), CodegenError>)
        ensures
            extends(old(env)@, final(env)@),
            match stmt_result(*s, bindings_env(old(env)@), self.sigs()) {
                Ok(env2) => r is Ok && bindings_env(final(env)@) == env2,
                Err(x) => r == Err::<(), CodegenError>(x),
            },
        decreases s,
    {
        let ghost env0 = bindings_env(env@);
        match s {
            Statement::Assignment { name, var_type, expr } => {
                match self.check_expr(expr, env) {
                    Ok(_) => {},
                    Err(x) => {
                        return Err(x);
                    },
                }
                env.push(Binding { name: name.clone(), slot: 0, ty: *var_type });
                proof {
                    assert(bindings_env(env@) =~= env0.push((name@, *var_type)));
                }
                Ok(())
            },
            Statement::Return { expr } => match self.check_expr(expr, env) {
                Ok(_) => Ok(()),
                Err(x) => Err(x),
            },
            Statement::Expression { expr } => match self.check_expr(expr, env) {
                Ok(_) => Ok(()),
                Err(x) => Err(x),
            },
            Statement::If { cond, then_block, else_block } => {
                match self.check_expr(cond, env) {
                    Ok(t) => {
                        if t != Type::Bool {
                            return Err(CodegenError::TypeMismatch);
                        }
                    },
                    Err(x) => {
                        return Err(x);
                    },
                }
                let ghost table0 = env@;
                let saved = env.len();
                match self.check_block(then_block, env) {
                    Ok(()) => {},
                    Err(x) => {
                        env.truncate(saved);
                        proof {
                            assert(env@ =~= table0);
                        }
                        return Err(x);
                    },
                }
                env.truncate(saved);
                proof {
                    assert(env@ =~= table0);
                }
                match self.check_block(else_block, env) {
                    Ok(()) => {},
                    Err(x) => {
                        env.truncate(saved);
                        proof {
                            assert(env@ =~= table0);
                        }
                        return Err(x);
                    },
                }
                env.truncate(saved);
                proof {
                    assert(env@ =~= table0);
                }
                Ok(())
            },
        }
    }

    /// Checks a list of statements in order with the bindings `env`.
    fn check_block(&self, b: &Vec<Statement>, env: &mut Vec<Binding>) -> (r: Result<(), CodegenError>)
        ensures
            extends(old(env)@, final(env)@),
            match block_result(b@, bindings_env(old(env)@), self.sigs()) {
                Ok(env2) => r is Ok && bindings_env(final(env)@) == env2,
                Err(x) => r == Err::<(), CodegenError>(x),
            },
        decreases b,
    {
        let ghost env0 = bindings_env(env@);
        let mut i: usize = 0;
        proof {
            assert(b@.subrange(0, b@.len() as int) =~= b@);
        }
        while i < b.len()
            invariant
                i <= b@.len(),
                extends(old(env)@, env@),
                env0 == bindings_env(old(env)@),
                block_result(b@, env0, self.sigs()) == block_result(
                    b@.subrange(i as int, b@.len() as int),
                    bindings_env(env@),
                    self.sigs(),
                ),
            decreases b@.len() - i,
        {
            let ghost tail = b@.subrange(i as int, b@.len() as int);
            let ghost env_i = bindings_env(env@);
            proof {
                assert(tail[0] == b@[i as int]);
                assert(tail.subrange(1, tail.len() as int) =~= b@.subrange(i + 1, b@.len() as int));
            }
            match self.check_stmt(&b[i], env) {
                Ok(()) => {},
                Err(x) => {
                    assert(block_result(tail, env_i, self.sigs()) == Err::<Env, CodegenError>(x));
                    return Err(x);
                },
            }
            i += 1;
        }
        Ok(())
    }

    /// A copy of the symbol table, to check against without touching it.
    fn scope_copy(&self) -> (r: Vec<Binding>)
        ensures
            r@ == self.symbol_table@,
    {
        let mut r: Vec<Binding> = Vec::new();
        let mut i: usize = 0;
        while i < self.symbol_table.len()
            invariant
                i <= self.symbol_table@.len(),
                r@ =~= self.symbol_table@.take(i as int),
            decreases self.symbol_table@.len() - i,
        {
            let b = &self.symbol_table[i];
            r.push(Binding { name: b.name.clone(), slot: b.slot, ty: b.ty });
            proof {
                assert(self.symbol_table@.take(i + 1) =~= self.symbol_table@.take(i as int).push(self.symbol_table@[i as int]));
            }
            i += 1;
        }
        proof {
            assert(self.symbol_table@.take(self.symbol_table@.len() as int) =~= self.symbol_table@);
        }
        r
    }

    fn emit(&mut self, inst: Instruction)
        requires
            old(self).ready(),
            !is_terminated(old(self).func.current),
            refs_within(
                inst,
                old(self).func.values@.len(),
                old(self).func.slots@.len(),
                old(self).func.block_kinds@.len(),
            ),
        ensures
            final(self).ready(),
            final(self).func.current.instructions@ == old(self).func.current.instructions@.push(inst),
            final(self).func.current.id == old(self).func.current.id,
            final(self).func.values == old(self).func.values,
            final(self).func.slots == old(self).func.slots,
            final(self).func.finished == old(self).func.finished,
            final(self).func.block_kinds == old(self).func.block_kinds,
            final(self).module == old(self).module,
            final(self).symbol_table == old(self).symbol_table,
    {
        self.func.current.instructions.push(inst);
        proof {
            let old_insts = old(self).func.current.instructions@;
            let insts = self.func.current.instructions@;
            assert forall|k: int| 0 <= k < insts.len() implies refs_within(
                #[trigger] insts[k],
                self.func.values@.len(),
                self.func.slots@.len(),
                self.func.block_kinds@.len(),
            ) && (k + 1 < insts.len() ==> !is_terminator(insts[k])) by {
                if k + 1 < insts.len() {
                    assert(insts[k] == old_insts[k]);
                    if k + 1 == old_insts.len() {
                        assert(!is_terminated(old(self).func.current));
                    }
                }
            }
        }
    }

    fn new_value(&mut self, ty: Type) -> (id: usize)
        requires
            old(self).ready(),
        ensures
            final(self).ready(),
            id == old(self).func.values@.len(),
            final(self).func.values@ == old(self).func.values@.push(ty),
            final(self).func.current == old(self).func.current,
            final(self).func.slots == old(self).func.slots,
            final(self).func.finished == old(self).func.finished,
            final(self).func.block_kinds == old(self).func.block_kinds,
            final(self).module == old(self).module,
            final(self).symbol_table == old(self).symbol_table,
    {
        let id = self.func.values.len();
        self.func.values.push(ty);
        proof {
            lemma_state_grows(old(self).func, self.func);
        }
        id
    }

    fn new_block(&mut self, kind: BlockKind) -> (id: usize)
        requires
            old(self).ready(),
        ensures
            final(self).ready(),
            id == old(self).func.block_kinds@.len(),
            final(self).func.block_kinds@ == old(self).func.block_kinds@.push(kind),
            final(self).func.current == old(self).func.current,
            final(self).func.values == old(self).func.values,
            final(self).func.slots == old(self).func.slots,
            final(self).func.finished == old(self).func.finished,
            final(self).module == old(self).module,
            final(self).symbol_table == old(self).symbol_table,
    {
        let id = self.func.block_kinds.len();
        self.func.block_kinds.push(kind);
        proof {
            lemma_state_grows(old(self).func, self.func);
        }
        id
    }

    /// Moves the cursor to the end of the fresh block `id`.
    fn position_at_end(&mut self, id: usize)
        requires
            old(self).ready(),
            is_terminated(old(self).func.current),
            id < old(self).func.block_kinds@.len(),
        ensures
            final(self).ready(),
            final(self).func.finished@ == old(self).func.finished@.push(old(self).func.current),
            final(self).func.current.id == id,
            final(self).func.current.instructions@ == Seq::<Instruction>::empty(),
            final(self).func.values == old(self).func.values,
            final(self).func.slots == old(self).func.slots,
            final(self).func.block_kinds == old(self).func.block_kinds,
            final(self).module == old(self).module,
            final(self).symbol_table == old(self).symbol_table,
    {
        let mut blk = BasicBlock { id, instructions: Vec::new() };
        std::mem::swap(&mut self.func.current, &mut blk);
        self.func.finished.push(blk);
        proof {
            let f = self.func.finished@;
            assert forall|j: int| 0 <= j < f.len() implies block_complete(
                #[trigger] f[j],
                self.func.values@.len(),
                self.func.slots@.len(),
                self.func.block_kinds@.len(),
            ) by {
                if j < f.len() - 1 {
                    assert(f[j] == old(self).func.finished@[j]);
                }
            }
        }
    }

    /// Signed division of `lhs` by `rhs`, guarded against a zero divisor:
    /// the cursor block compares the divisor with zero and branches to a
    /// fresh panic block that calls the runtime's panic routine with
    /// "division by zero" and never returns, or to a fresh continuation
    /// block that divides and keeps the cursor.
    fn build_checked_div(&mut self, lhs: Operand, rhs: Operand) -> (r: Operand)
        requires
            old(self).ready(),
            !is_terminated(old(self).func.current),
            lhs.id < old(self).func.values@.len(),
            rhs.id < old(self).func.values@.len(),
        ensures
            final(self).ready(),
            r.ty == lhs.ty,
            r.id < final(self).func.values@.len(),
            final(self).func.values@[r.id as int] == r.ty,
            extends(old(self).func.values@, final(self).func.values@),
            final(self).module == old(self).module,
            final(self).symbol_table == old(self).symbol_table,
            final(self).func.slots == old(self).func.slots,
            grows_from(old(self).func, final(self).func),
            old(self).func.block_kinds@.len() <= final(self).func.block_kinds@.len(),
            checked_division_shape(old(self).func, final(self).func, lhs.ty, lhs.id, rhs.id, r.id),
    {
        let zero = self.new_value(lhs.ty);
        if lhs.ty == Type::Bool {
            self.emit(Instruction::ConstBool { dest: zero, value: false });
        } else {
            self.emit(Instruction::ConstInt { dest: zero, value: 0 });
        }
        let is_not_zero = self.new_value(Type::Bool);
        self.emit(Instruction::IntCompare { dest: is_not_zero, pred: Predicate::Ne, lhs: rhs.id, rhs: zero });
        let panic_bb = self.new_block(BlockKind::Panic);
        let cont_bb = self.new_block(BlockKind::Cont);
        self.emit(Instruction::CondBranch { cond: is_not_zero, then_block: cont_bb, else_block: panic_bb });
        self.position_at_end(panic_bb);
        let msg = self.new_value(Type::GoString);
        self.emit(Instruction::GlobalString { dest: msg, value: String::from_str("division by zero") });
        let mut args: Vec<usize> = Vec::new();
        args.push(msg);
        self.emit(Instruction::Call { dest: None, func: String::from_str("__gopanic"), args });
        self.emit(Instruction::Unreachable);
        self.position_at_end(cont_bb);
        let q = self.new_value(lhs.ty);
        self.emit(Instruction::IntArith { dest: q, op: ArithOp::Div, lhs: lhs.id, rhs: rhs.id });
        proof {
            let k = old(self).func.finished@.len() as int;
            let f = self.func.finished@;
            assert(f.subrange(0, k) =~= old(self).func.finished@);
            assert(f[k].instructions@.subrange(0, old(self).func.current.instructions@.len() as int)
                =~= old(self).func.current.instructions@);
            assert(self.func.current.instructions@ =~= seq![
                Instruction::IntArith { dest: q, op: ArithOp::Div, lhs: lhs.id, rhs: rhs.id },
            ]);
        }
        Operand { id: q, ty: lhs.ty }
    }

    fn gen_literal(&mut self, expr_type: Type, value: &String) -> (r: Result<Operand, CodegenError>)
        requires
            old(self).ready(),
            !is_terminated(old(self).func.current),
        ensures
            r is Err ==> *final(self) == *old(self),
            final(self).ready(),
            expr_frame(*old(self), *final(self)),
            match r {
                Ok(op) => literal_ok(expr_type, value@) && op.ty == expr_type && operand_ok(*final(self), op),
                Err(x) => !literal_ok(expr_type, value@) && x == CodegenError::LiteralParseFailure,
            },
            r matches Ok(op) ==> {
                &&& appends_one(old(self).func, final(self).func, expr_type)
                &&& op.id == old(self).func.values@.len()
                &&& literal_lowered(expr_type, value@, final(self).func.current.instructions@.last(), op.id)
            },
    {
        let inst = match expr_type {
            Type::Int => {
                match parse_int_literal(value) {
                    Some(v) => {
                        let d = self.new_value(Type::Int);
                        Instruction::ConstInt { dest: d, value: v }
                    },
                    None => {
                        return Err(CodegenError::LiteralParseFailure);
                    },
                }
            },
            Type::Bool => {
                let b = if *value == String::from_str("1") {
                    true
                } else if *value == String::from_str("0") {
                    false
                } else {
                    proof {
                        reveal_strlit("0");
                        reveal_strlit("1");
                        assert("0"@ =~= seq!['0']);
                        assert("1"@ =~= seq!['1']);
                        assert(value@ != seq!['0']);
                        assert(value@ != seq!['1']);
                    }
                    return Err(CodegenError::LiteralParseFailure);
                };
                proof {
                    reveal_strlit("0");
                    reveal_strlit("1");
                    assert("0"@ =~= seq!['0']);
                    assert("1"@ =~= seq!['1']);
                }
                let d = self.new_value(Type::Bool);
                Instruction::ConstBool { dest: d, value: b }
            },
            Type::Float32 | Type::Float64 => {
                if !is_float_literal(value) {
                    return Err(CodegenError::LiteralParseFailure);
                }
                let d = self.new_value(expr_type);
                Instruction::ConstFloat { dest: d, ty: expr_type, value: value.clone() }
            },
            Type::GoString => {
                let d = self.new_value(Type::GoString);
                Instruction::GlobalString { dest: d, value: replace_newline_escapes(value.as_str()) }
            },
        };
        let d = self.func.values.len() - 1;
        self.emit(inst);
        proof {
            assert(self.func.current.instructions@.drop_last() =~= old(self).func.current.instructions@);
        }
        Ok(Operand { id: d, ty: expr_type })
    }

    fn gen_var_ref(&mut self, name: &String) -> (r: Result<Operand, CodegenError>)
        requires
            old(self).ready(),
            !is_terminated(old(self).func.current),
        ensures
            r is Err ==> *final(self) == *old(self),
            final(self).ready(),
            expr_frame(*old(self), *final(self)),
            match r {
                Ok(op) => lookup(old(self).env(), name@) == Some(op.ty) && operand_ok(*final(self), op),
                Err(x) => lookup(old(self).env(), name@) is None && x == CodegenError::UndefinedVariable,
            },
            r matches Ok(op) ==> {
                &&& appends_one(old(self).func, final(self).func, op.ty)
                &&& op.id == old(self).func.values@.len()
                &&& slot_upto(old(self).symbol_table@, name@, old(self).symbol_table@.len() as int) matches Some(slot)
                &&& final(self).func.current.instructions@.last() == (Instruction::Load { dest: op.id, slot, name: *name })
            },
    {
        let mut i = self.symbol_table.len();
        while i > 0
            invariant
                i <= self.symbol_table@.len(),
                *self == *old(self),
                self.ready(),
                !is_terminated(self.func.current),
                lookup(self.env(), name@) == lookup_upto(self.env(), name@, i as int),
                slot_upto(self.symbol_table@, name@, self.symbol_table@.len() as int) == slot_upto(self.symbol_table@, name@, i as int),
            decreases i,
        {
            i -= 1;
            proof {
                assert(self.env()[i as int] == (self.symbol_table@[i as int].name@, self.symbol_table@[i as int].ty));
            }
            if self.symbol_table[i].name == *name {
                let slot = self.symbol_table[i].slot;
                let ty = self.symbol_table[i].ty;
                proof {
                    assert(self.symbol_table@[i as int].slot < self.func.slots@.len());
                }
                let d = self.new_value(ty);
                self.emit(Instruction::Load { dest: d, slot, name: name.clone() });
                proof {
                    assert(self.func.current.instructions@.drop_last() =~= old(self).func.current.instructions@);
                }
                return Ok(Operand { id: d, ty });
            }
        }
        Err(CodegenError::UndefinedVariable)
    }

    /// Combines two generated operands. Dispatch goes by the kinds of the
    /// operands' values: two integers, two floats, or neither.
    fn gen_binop(&mut self, op: BinaryOp, l: Operand, r: Operand) -> (res: Result<Operand, CodegenError>)
        requires
            old(self).ready(),
            !is_terminated(old(self).func.current),
            l.id < old(self).func.values@.len(),
            r.id < old(self).func.values@.len(),
        ensures
            res is Err ==> *final(self) == *old(self),
            final(self).ready(),
            expr_frame(*old(self), *final(self)),
            match res {
                Ok(o) => binop_type(op, l.ty, r.ty) == Ok::<Type, CodegenError>(o.ty) && operand_ok(*final(self), o),
                Err(x) => binop_type(op, l.ty, r.ty) == Err::<Type, CodegenError>(x),
            },
            res matches Ok(o) ==> binop_lowered(op, l, r, old(self).func, final(self).func, o),
    {
        let l_int = l.ty == Type::Int || l.ty == Type::Bool;
        let r_int = r.ty == Type::Int || r.ty == Type::Bool;
        let l_float = l.ty == Type::Float32 || l.ty == Type::Float64;
        let r_float = r.ty == Type::Float32 || r.ty == Type::Float64;
        if l_int && r_int {
            if l.ty != r.ty {
                return Err(CodegenError::TypeMismatch);
            }
            if op == BinaryOp::Div {
                return Ok(self.build_checked_div(l, r));
            }
            let inst_ty = match op {
                BinaryOp::Add | BinaryOp::Sub | BinaryOp::Mul | BinaryOp::Div => l.ty,
                _ => Type::Bool,
            };
            let d = self.new_value(inst_ty);
            let inst = match op {
                BinaryOp::Add => Instruction::IntArith { dest: d, op: ArithOp::Add, lhs: l.id, rhs: r.id },
                BinaryOp::Sub => Instruction::IntArith { dest: d, op: ArithOp::Sub, lhs: l.id, rhs: r.id },
                BinaryOp::Mul => Instruction::IntArith { dest: d, op: ArithOp::Mul, lhs: l.id, rhs: r.id },
                BinaryOp::Div => Instruction::IntArith { dest: d, op: ArithOp::Div, lhs: l.id, rhs: r.id },
                BinaryOp::Eq => Instruction::IntCompare { dest: d, pred: Predicate::Eq, lhs: l.id, rhs: r.id },
                BinaryOp::Neq => Instruction::IntCompare { dest: d, pred: Predicate::Ne, lhs: l.id, rhs: r.id },
                BinaryOp::Ge => Instruction::IntCompare { dest: d, pred: Predicate::Gt, lhs: l.id, rhs: r.id },
                BinaryOp::Le => Instruction::IntCompare { dest: d, pred: Predicate::Lt, lhs: l.id, rhs: r.id },
                BinaryOp::Geq => Instruction::IntCompare { dest: d, pred: Predicate::Ge, lhs: l.id, rhs: r.id },
                BinaryOp::Leq => Instruction::IntCompare { dest: d, pred: Predicate::Le, lhs: l.id, rhs: r.id },
            };
            self.emit(inst);
            proof {
                assert(self.func.current.instructions@.drop_last() =~= old(self).func.current.instructions@);
            }
            Ok(Operand { id: d, ty: inst_ty })
        } else if l_float && r_float {
            if l.ty != r.ty {
                return Err(CodegenError::TypeMismatch);
            }
            let inst_ty = match op {
                BinaryOp::Add | BinaryOp::Sub | BinaryOp::Mul | BinaryOp::Div => l.ty,
                _ => Type::Bool,
            };
            let d = self.new_value(inst_ty);
            let inst = match op {
                BinaryOp::Add => Instruction::FloatArith { dest: d, op: ArithOp::Add, lhs: l.id, rhs: r.id },
                BinaryOp::Sub => Instruction::FloatArith { dest: d, op: ArithOp::Sub, lhs: l.id, rhs: r.id },
                BinaryOp::Mul => Instruction::FloatArith { dest: d, op: ArithOp::Mul, lhs: l.id, rhs: r.id },
                BinaryOp::Div => Instruction::FloatArith { dest: d, op: ArithOp::Div, lhs: l.id, rhs: r.id },
                BinaryOp::Eq => Instruction::FloatCompare { dest: d, pred: Predicate::Eq, lhs: l.id, rhs: r.id },
                BinaryOp::Neq => Instruction::FloatCompare { dest: d, pred: Predicate::Ne, lhs: l.id, rhs: r.id },
                BinaryOp::Ge => Instruction::FloatCompare { dest: d, pred: Predicate::Gt, lhs: l.id, rhs: r.id },
                BinaryOp::Le => Instruction::FloatCompare { dest: d, pred: Predicate::Lt, lhs: l.id, rhs: r.id },
                BinaryOp::Geq => Instruction::FloatCompare { dest: d, pred: Predicate::Ge, lhs: l.id, rhs: r.id },
                BinaryOp::Leq => Instruction::FloatCompare { dest: d, pred: Predicate::Le, lhs: l.id, rhs: r.id },
            };
            self.emit(inst);
            proof {
                assert(self.func.current.instructions@.drop_last() =~= old(self).func.current.instructions@);
            }
            Ok(Operand { id: d, ty: inst_ty })
        } else {
            Err(CodegenError::UnsupportedOperation)
        }
    }

    /// Generates a value for an expression.
    fn gen_expr(&mut self, e: &Expression) -> (r: Result<Operand, CodegenError>)
        requires
            old(self).ready(),
            !is_terminated(old(self).func.current),
        ensures
            r is Err ==> *final(self) == *old(self),
            final(self).ready(),
            expr_frame(*old(self), *final(self)),
            match r {
                Ok(op) => expr_result(*e, old(self).env(), old(self).sigs()) == Ok::<Type, CodegenError>(op.ty)
                    && operand_ok(*final(self), op),
                Err(x) => expr_result(*e, old(self).env(), old(self).sigs()) == Err::<Type, CodegenError>(x),
            },
            r matches Ok(op) ==> lowers_expr(*e, old(self).symbol_table@, old(self).sigs(), old(self).func, final(self).func, op),
        decreases e,
    {
        match e {
            Expression::Literal { expr_type, value } => {
                let r = self.gen_literal(*expr_type, value);
                proof {
                    if let Ok(op) = r {
                        assert(lowers_expr(*e, old(self).symbol_table@, old(self).sigs(), old(self).func, self.func, op));
                    }
                }
                r
            },
            Expression::Name { name, .. } => {
                let r = self.gen_var_ref(name);
                proof {
                    if let Ok(op) = r {
                        assert(lowers_expr(*e, old(self).symbol_table@, old(self).sigs(), old(self).func, self.func, op));
                    }
                }
                r
            },
            Expression::BinaryOp { op, left, right, .. } => {
                match self.check_expr(e, &self.symbol_table) {
                    Ok(_) => {},
                    Err(x) => {
                        return Err(x);
                    },
                }
                let ghost f0 = self.func;
                let l = match self.gen_expr(left) {
                    Ok(l) => l,
                    Err(x) => {
                        return Err(x);
                    },
                };
                let ghost f1 = self.func;
                let r = match self.gen_expr(right) {
                    Ok(r) => r,
                    Err(x) => {
                        return Err(x);
                    },
                };
                let ghost f2 = self.func;
                let res = self.gen_binop(*op, l, r);
                proof {
                    if let Ok(o) = res {
                        assert(lowers_expr(**left, old(self).symbol_table@, old(self).sigs(), f0, f1, l));
                        assert(lowers_expr(**right, old(self).symbol_table@, old(self).sigs(), f1, f2, r));
                        assert(binop_lowered(*op, l, r, f2, self.func, o));
                        lemma_binop_lowers(*e, old(self).symbol_table@, old(self).sigs(), old(self).func, self.func, o, f1, f2, l, r);
                    }
                }
                res
            },
            Expression::Call { func, args, .. } => {
                let r = self.gen_call(func, args);
                proof {
                    if let Ok(op) = r {
                        let table = old(self).symbol_table@;
                        let fs = old(self).sigs();
                        let (m, ids) = choose|m: FunctionState, ids: Seq<usize>|
                            #[trigger] call_lowered(func@, find_sig(fs, func@), ids, m, self.func, op)
                                && args_lowered(args@, table, fs, old(self).func, m, ids);
                        assert(args_lowered(args@, table, fs, old(self).func, m, ids));

                        assert(lowers_expr(*e, table, fs, old(self).func, self.func, op));
                    }
                }
                r
            },
        }
    }

    /// Generates a call: resolves the callee by name, generates the
    /// arguments left to right, and calls. A callee that returns nothing
    /// yields a boolean `true` placeholder.
    fn gen_call(&mut self, func: &String, args: &Vec<Expression>) -> (r: Result<Operand, CodegenError>)
        requires
            old(self).ready(),
            !is_terminated(old(self).func.current),
        ensures
            r is Err ==> *final(self) == *old(self),
            final(self).ready(),
            expr_frame(*old(self), *final(self)),
            match r {
                Ok(op) => find_sig(old(self).sigs(), func@) matches Some(ret) && args_result(args@, old(self).env(), old(self).sigs()) is None
                    && op.ty == (match ret {
                        Some(t) => t,
                        None => Type::Bool,
                    }) && operand_ok(*final(self), op),
                Err(x) => match find_sig(old(self).sigs(), func@) {
                    None => x == CodegenError::UndefinedFunction,
                    Some(_) => args_result(args@, old(self).env(), old(self).sigs()) == Some(x),
                },
            },
            r matches Ok(op) ==> exists|m: FunctionState, ids: Seq<usize>|
                #[trigger] call_lowered(func@, find_sig(old(self).sigs(), func@), ids, m, final(self).func, op)
                    && args_lowered(args@, old(self).symbol_table@, old(self).sigs(), old(self).func, m, ids),
        decreases args,
    {
        let ghost sigs = self.sigs();
        let ghost env = self.env();
        let ret = match self.find_return(func) {
            Some(t) => t,
            None => {
                return Err(CodegenError::UndefinedFunction);
            },
        };
        match self.check_args(args, &self.symbol_table) {
            Some(x) => {
                return Err(x);
            },
            None => {},
        }
        let mut compiled: Vec<usize> = Vec::new();
        let mut i: usize = 0;
        let ghost f0 = self.func;
        let ghost table = self.symbol_table@;
        proof {
            assert(args@.subrange(0, args@.len() as int) =~= args@);
            assert(args@.take(0) =~= Seq::<Expression>::empty());
            assert(compiled@ =~= Seq::<usize>::empty());
        }
        while i < args.len()
            invariant
                i <= args@.len(),
                expr_frame(*old(self), *self),
                self.ready(),
                !is_terminated(self.func.current),
                forall|k: int| 0 <= k < compiled@.len() ==> #[trigger] compiled@[k] < self.func.values@.len(),
                env == self.env(),
                sigs == self.sigs(),
                find_sig(sigs, func@) == Some(ret),
                args_result(args@, env, sigs) is None,
                args_result(args@, env, sigs) == args_result(args@.subrange(i as int, args@.len() as int), env, sigs),
                table == self.symbol_table@,
                f0 == old(self).func,
                compiled@.len() == i,
                args_lowered(args@.take(i as int), table, sigs, f0, self.func, compiled@),
            decreases args@.len() - i,
        {
            let ghost tail = args@.subrange(i as int, args@.len() as int);
            proof {
                assert(tail[0] == args@[i as int]);
                assert(tail.subrange(1, tail.len() as int) =~= args@.subrange(i + 1, args@.len() as int));
            }
            let ghost fi = self.func;
            let ghost ids_i = compiled@;
            match self.gen_expr(&args[i]) {
                Ok(a) => {
                    compiled.push(a.id);
                    proof {
                        let pre = args@.take(i + 1);
                        assert(pre.drop_last() =~= args@.take(i as int));
                        assert(pre.last() == args@[i as int]);
                        assert(compiled@.drop_last() =~= ids_i);
                        assert(lowers_expr(pre.last(), table, sigs, fi, self.func, a));
                        lemma_args_step(pre, table, sigs, f0, fi, self.func, compiled@, a);
                    }
                },
                Err(x) => {
                    return Err(x);
                },
            }
            i += 1;
        }
        proof {
            assert(args@.subrange(i as int, args@.len() as int).len() == 0);
            assert(args@.take(i as int) =~= args@);
        }
        let ghost m = self.func;
        let ghost ids = compiled@;
        match ret {
            Some(t) => {
                let d = self.new_value(t);
                self.emit(Instruction::Call { dest: Some(d), func: func.clone(), args: compiled });
                proof {
                    assert(self.func.current.instructions@.subrange(0, m.current.instructions@.len() as int)
                        =~= m.current.instructions@);
                    assert(call_lowered(func@, find_sig(sigs, func@), ids, m, self.func, Operand { id: d, ty: t }));
                }
                Ok(Operand { id: d, ty: t })
            },
            None => {
                self.emit(Instruction::Call { dest: None, func: func.clone(), args: compiled });
                let d = self.new_value(Type::Bool);
                self.emit(Instruction::ConstBool { dest: d, value: true });
                proof {
                    assert(self.func.current.instructions@.subrange(0, m.current.instructions@.len() as int)
                        =~= m.current.instructions@);
                    assert(call_lowered(func@, find_sig(sigs, func@), ids, m, self.func, Operand { id: d, ty: Type::Bool }));
                }
                Ok(Operand { id: d, ty: Type::Bool })
            },
        }
    }

    fn cursor_terminated(&self) -> (r: bool)
        ensures
            r == is_terminated(self.func.current),
    {
        let n = self.func.current.instructions.len();
        n > 0 && self.func.current.instructions[n - 1].is_terminator()
    }

    /// Ends the block under the cursor with a jump to `target`, unless it
    /// already ends in a terminator.
    fn close_branch(&mut self, target: usize)
        requires
            old(self).ready(),
            target < old(self).func.block_kinds@.len(),
        ensures
            final(self).ready(),
            is_terminated(final(self).func.current),
            cursor_open(old(self).func.current) ==> flows_to(final(self).func.current, target),
            final(self).func.current.id == old(self).func.current.id,
            final(self).func.values == old(self).func.values,
            final(self).func.slots == old(self).func.slots,
            final(self).func.block_kinds == old(self).func.block_kinds,
            final(self).func.finished == old(self).func.finished,
            final(self).module == old(self).module,
            final(self).symbol_table == old(self).symbol_table,
            is_terminated(old(self).func.current) ==> final(self).func.current == old(self).func.current,
            !is_terminated(old(self).func.current) ==> final(self).func.current.instructions@
                == old(self).func.current.instructions@.push(Instruction::Branch { target }),
    {
        if !self.cursor_terminated() {
            self.emit(Instruction::Branch { target });
        }
    }

    /// Generates the effects of one statement.
    #[verifier::rlimit(100)]
    fn gen_statement(&mut self, s: &Statement) -> (r: Result<(), CodegenError>)
        requires
            old(self).ready(),
            !is_terminated(old(self).func.current),
        ensures
            r is Err ==> *final(self) == *old(self),
            final(self).ready(),
            final(self).module == old(self).module,
            extends(old(self).func.values@, final(self).func.values@),
            extends(old(self).symbol_table@, final(self).symbol_table@),
            grows_from(old(self).func, final(self).func),
            old(self).func.block_kinds@.len() <= final(self).func.block_kinds@.len(),
            match r {
                Ok(()) => stmt_result(*s, old(self).env(), old(self).sigs()) == Ok::<Env, CodegenError>(final(self).env())
                    && cursor_open(final(self).func.current),
                Err(x) => stmt_result(*s, old(self).env(), old(self).sigs()) == Err::<Env, CodegenError>(x),
            },
            r is Ok ==> lowers_stmt(*s, old(self).symbol_table@, old(self).sigs(), old(self).func, final(self).func, final(self).symbol_table@),
            r is Ok ==> (s matches Statement::If { else_block, .. } ==> exists|j: int, m: int, c: usize|
                #[trigger] conditional_shape(final(self).func.finished@, final(self).func.current, j, m, c, else_block@.len())),
        decreases s,
    {
        let ghost env0 = self.env();
        let ghost t0 = self.symbol_table@;
        let ghost fs = self.sigs();
        let ghost f0 = self.func;
        let mut scope = self.scope_copy();
        match self.check_stmt(s, &mut scope) {
            Ok(()) => {},
            Err(x) => {
                return Err(x);
            },
        }
        match s {
            Statement::Assignment { name, var_type, expr } => {
                let v = match self.gen_expr(expr) {
                    Ok(v) => v,
                    Err(x) => {
                        return Err(x);
                    },
                };
                let ghost m = self.func;
                // A name rebound at its type keeps its storage.
                let mut reuse: Option<usize> = None;
                let mut i = self.symbol_table.len();
                let ghost before = *self;
                while i > 0
                    invariant_except_break
                        reuse is None,
                        reuse_upto(t0, name@, *var_type, t0.len() as int) == reuse_upto(t0, name@, *var_type, i as int),
                    invariant
                        i <= self.symbol_table@.len(),
                        *self == before,
                        t0 == self.symbol_table@,
                        self.ready(),
                        reuse matches Some(x) ==> x < self.func.slots@.len(),
                    ensures
                        reuse == reuse_upto(t0, name@, *var_type, t0.len() as int),
                    decreases i,
                {
                    i -= 1;
                    if self.symbol_table[i].name == *name {
                        proof {
                            assert(self.symbol_table@[i as int].slot < self.func.slots@.len());
                        }
                        if self.symbol_table[i].ty == *var_type {
                            reuse = Some(self.symbol_table[i].slot);
                        }
                        break;
                    }
                }
                let slot = match reuse {
                    Some(slot) => slot,
                    None => {
                        let slot = self.func.slots.len();
                        let ghost pre = self.func;
                        self.func.slots.push(*var_type);
                        proof {
                            lemma_state_grows(pre, self.func);
                        }
                        self.emit(Instruction::Alloca { slot, ty: *var_type, name: name.clone() });
                        slot
                    },
                };
                self.emit(Instruction::Store { slot, value: v.id });
                let ghost table = self.symbol_table@;
                self.symbol_table.push(Binding { name: name.clone(), slot, ty: *var_type });
                proof {
                    if reuse is None {
                        assert(self.func.current.instructions@ =~= m.current.instructions@.push(
                            Instruction::Alloca { slot, ty: *var_type, name: *name },
                        ).push(Instruction::Store { slot, value: v.id }));
                    }
                    assert(stores_assignment(*name, *var_type, reuse, v, m, self.func, slot));
                    lemma_assign_lowers(*s, t0, fs, f0, self.func, self.symbol_table@, m, v, slot);
                    assert(self.env() =~= env0.push((name@, *var_type)));
                    assert forall|k: int| 0 <= k < self.symbol_table@.len() implies #[trigger] self.symbol_table@[k].slot
                        < self.func.slots@.len() by {
                        if k < table.len() {
                            assert(self.symbol_table@[k] == table[k]);
                        }
                    }
                }
                Ok(())
            },
            Statement::Return { expr } => {
                let v = match self.gen_expr(expr) {
                    Ok(v) => v,
                    Err(x) => {
                        return Err(x);
                    },
                };
                let ghost m = self.func;
                self.emit(Instruction::Return { value: Some(v.id) });
                proof {
                    lemma_return_lowers(*s, t0, fs, f0, self.func, m, v);
                }
                Ok(())
            },
            Statement::Expression { expr } => {
                match self.gen_expr(expr) {
                    Ok(v) => {
                        proof {
                            lemma_expr_stmt_lowers(*s, t0, fs, f0, self.func, v);
                        }
                        Ok(())
                    },
                    Err(x) => Err(x),
                }
            },
            Statement::If { cond, then_block, else_block } => {
                let c = match self.gen_expr(cond) {
                    Ok(c) => c,
                    Err(x) => {
                        return Err(x);
                    },
                };
                let ghost table0 = self.symbol_table@;
                let ghost mc = self.func;
                let saved = self.symbol_table.len();
                let then_bb = self.new_block(BlockKind::Then);
                let else_bb = self.new_block(BlockKind::Else);
                let cont_bb = self.new_block(BlockKind::Cont);
                self.emit(Instruction::CondBranch { cond: c.id, then_block: then_bb, else_block: else_bb });
                let ghost j = self.func.finished@.len() as int;
                self.position_at_end(then_bb);
                let ghost p1 = self.func;
                match self.gen_block(then_block) {
                    Ok(()) => {},
                    Err(x) => {
                        return Err(x);
                    },
                }
                let ghost e1 = self.func;
                let ghost u1 = self.symbol_table@;
                self.close_branch(cont_bb);
                self.symbol_table.truncate(saved);
                proof {
                    assert(self.symbol_table@ =~= table0);
                }
                let ghost m = self.func.finished@.len() as int;
                self.position_at_end(else_bb);
                let ghost p2 = self.func;
                match self.gen_block(else_block) {
                    Ok(()) => {},
                    Err(x) => {
                        return Err(x);
                    },
                }
                let ghost e2 = self.func;
                let ghost u2 = self.symbol_table@;
                self.close_branch(cont_bb);
                self.symbol_table.truncate(saved);
                proof {
                    assert(self.symbol_table@ =~= table0);
                }
                self.position_at_end(cont_bb);
                proof {
                    let f = self.func.finished@;
                    assert(f[j].instructions@.last() == (Instruction::CondBranch {
                        cond: c.id,
                        then_block: then_bb,
                        else_block: else_bb,
                    }));
                    assert(f[j + 1].id == then_bb);
                    assert(flows_to(f[m], cont_bb));
                    if else_block@.len() == 0 {
                        assert(f[m + 1].instructions@ =~= seq![Instruction::Branch { target: cont_bb }]);
                    }
                    assert(conditional_shape(f, self.func.current, j, m, c.id, else_block@.len()));
                    assert(p1.block_kinds@ =~= mc.block_kinds@ + seq![BlockKind::Then, BlockKind::Else, BlockKind::Cont]);
                    assert(p1.finished@.drop_last() =~= mc.finished@);
                    assert(p1.finished@.last().instructions@.drop_last() =~= mc.current.instructions@);
                    assert(opens_conditional(mc, p1, c));
                    assert(p2.finished@.drop_last() =~= e1.finished@);
                    if !is_terminated(e1.current) {
                        assert(p2.finished@.last().instructions@.drop_last() =~= e1.current.instructions@);
                    }
                    assert(closes_then(mc, e1, p2));
                    assert(self.func.finished@.drop_last() =~= e2.finished@);
                    if !is_terminated(e2.current) {
                        assert(self.func.finished@.last().instructions@.drop_last() =~= e2.current.instructions@);
                    }
                    assert(closes_else(mc, e2, self.func));
                    lemma_if_lowers(*s, t0, fs, f0, self.func, mc, c, p1, e1, u1, p2, e2, u2);
                }
                Ok(())
            },
        }
    }

    /// Generates a list of statements in order.
    fn gen_block(&mut self, b: &Vec<Statement>) -> (r: Result<(), CodegenError>)
        requires
            old(self).ready(),
            cursor_open(old(self).func.current),
        ensures
            r is Err ==> *final(self) == *old(self),
            final(self).ready(),
            final(self).module == old(self).module,
            extends(old(self).func.values@, final(self).func.values@),
            extends(old(self).symbol_table@, final(self).symbol_table@),
            grows_from(old(self).func, final(self).func),
            old(self).func.block_kinds@.len() <= final(self).func.block_kinds@.len(),
            match r {
                Ok(()) => block_result(b@, old(self).env(), old(self).sigs()) == Ok::<Env, CodegenError>(final(self).env())
                    && cursor_open(final(self).func.current),
                Err(x) => block_result(b@, old(self).env(), old(self).sigs()) == Err::<Env, CodegenError>(x),
            },
            b@.len() == 0 ==> *final(self) == *old(self),
            r is Ok ==> lowers_block(b@, old(self).symbol_table@, old(self).sigs(), old(self).func, final(self).func, final(self).symbol_table@),
        decreases b,
    {
        let ghost env0 = self.env();
        let ghost sigs = self.sigs();
        let ghost t_start = self.symbol_table@;
        let mut scope = self.scope_copy();
        match self.check_block(b, &mut scope) {
            Ok(()) => {},
            Err(x) => {
                return Err(x);
            },
        }
        let ghost f_start = self.func;
        proof {
            assert(b@.take(0) =~= Seq::<Statement>::empty());
        }
        let mut i: usize = 0;
        proof {
            assert(b@.subrange(0, b@.len() as int) =~= b@);
        }
        while i < b.len()
            invariant
                i <= b@.len(),
                self.module == old(self).module,
                sigs == self.sigs(),
                env0 == old(self).env(),
                sigs == old(self).sigs(),
                extends(old(self).func.values@, self.func.values@),
                extends(old(self).symbol_table@, self.symbol_table@),
                grows_from(old(self).func, self.func),
                old(self).func.block_kinds@.len() <= self.func.block_kinds@.len(),
                self.ready(),
                cursor_open(self.func.current),
                b@.len() == 0 ==> *self == *old(self),
                t_start == old(self).symbol_table@,
                f_start == old(self).func,
                lowers_block(b@.take(i as int), t_start, sigs, f_start, self.func, self.symbol_table@),
                block_result(b@, env0, sigs) is Ok,
                block_result(b@, env0, sigs) == block_result(b@.subrange(i as int, b@.len() as int), self.env(), sigs),
            decreases b@.len() - i,
        {
            let ghost tail = b@.subrange(i as int, b@.len() as int);
            proof {
                assert(tail[0] == b@[i as int]);
                assert(tail.subrange(1, tail.len() as int) =~= b@.subrange(i + 1, b@.len() as int));
            }
            let ghost m = self.func;
            let ghost tm = self.symbol_table@;
            if self.cursor_terminated() {
                // What follows a return is unreachable; it gets a block of its own.
                let dead = self.new_block(BlockKind::Unreachable);
                self.position_at_end(dead);
            }
            let ghost d = self.func;
            proof {
                assert(skips_dead(m, d));
            }
            let ghost env_i = self.env();
            match self.gen_statement(&b[i]) {
                Ok(()) => {
                    proof {
                        let pre = b@.take(i + 1);
                        assert(pre.drop_last() =~= b@.take(i as int));
                        assert(pre.last() == b@[i as int]);
                        lemma_block_step(pre, t_start, sigs, f_start, self.func, self.symbol_table@, m, tm, d);
                    }
                },
                Err(x) => {
                    assert(block_result(tail, env_i, sigs) == Err::<Env, CodegenError>(x));
                    return Err(x);
                },
            }
            i += 1;
        }
        proof {
            assert(b@.take(b@.len() as int) =~= b@);
        }
        Ok(())
    }

    /// Declares a routine whose body lives outside the module.
    fn declare_external(&mut self, name: &str, param_types: Vec<Type>, return_type: Option<Type>)
        ensures
            final(self).module.functions@.len() == old(self).module.functions@.len() + 1,
            extends(old(self).module.functions@, final(self).module.functions@),
            signature_of(final(self).module.functions@.last()) == (name@, return_type),
            final(self).module.functions@.last().external,
            final(self).module.functions@.last().params@.map_values(|p: (String, Type)| p.1) == param_types@,
            final(self).symbol_table == old(self).symbol_table,
    {
        let mut params: Vec<(String, Type)> = Vec::new();
        let mut i: usize = 0;
        while i < param_types.len()
            invariant
                i <= param_types@.len(),
                params@.map_values(|p: (String, Type)| p.1) =~= param_types@.take(i as int),
            decreases param_types@.len() - i,
        {
            params.push((String::new(), param_types[i]));
            proof {
                assert(param_types@.take(i + 1) =~= param_types@.take(i as int).push(param_types@[i as int]));
            }
            i += 1;
        }
        proof {
            assert(param_types@.take(param_types@.len() as int) =~= param_types@);
        }
        self.module.functions.push(
            Function {
                name: String::from_str(name),
                params,
                return_type,
                external: true,
                blocks: Vec::new(),
                block_kinds: Vec::new(),
                values: Vec::new(),
                slots: Vec::new(),
            },
        );
    }

    /// Declares the runtime's routines, so that calls of them resolve and
    /// the final link finds them.
    pub fn add_runtime(&mut self)
        ensures
            final(self).sigs() == old(self).sigs() + runtime_signatures(),
            final(self).symbol_table == old(self).symbol_table,
            extends(old(self).module.functions@, final(self).module.functions@),
            forall|k: int|
                old(self).module.functions@.len() <= k < final(self).module.functions@.len()
                    ==> (#[trigger] final(self).module.functions@[k]).external,
            forall|k: int|
                0 <= k < runtime_param_types().len() ==> (#[trigger] final(self).module.functions@[old(self).module.functions@.len() + k]).params@.map_values(
                    |p: (String, Type)| p.1,
                ) == runtime_param_types()[k],
    {
        let ghost sigs0 = self.sigs();
        let ghost n = self.module.functions@.len();
        self.declare_external("__flush_stdout", Vec::new(), None);
        self.declare_external("__gopanic", vec![Type::GoString], None);
        self.declare_external("add", vec![Type::Int, Type::Int], Some(Type::Int));
        self.declare_external("__print_int", vec![Type::Int], None);
        self.declare_external("__print_bool", vec![Type::Bool], None);
        self.declare_external("__print_float32", vec![Type::Float32], None);
        self.declare_external("__print_float64", vec![Type::Float64], None);
        self.declare_external("__print_gostring", vec![Type::GoString], None);
        proof {
            let fs = self.module.functions@;
            assert forall|k: int| 0 <= k < runtime_param_types().len() implies (#[trigger] fs[n + k]).params@.map_values(
                |p: (String, Type)| p.1,
            ) == runtime_param_types()[k] by {
                assert(runtime_param_types()[k] =~= fs[n + k].params@.map_values(|p: (String, Type)| p.1));
            }
            let n = sigs0.len();
            let fs = self.module.functions@;
            assert(self.sigs().len() == n + 8);
            assert forall|k: int| 0 <= k < n + 8 implies #[trigger] self.sigs()[k] == (sigs0 + runtime_signatures())[k] by {
                assert(self.sigs()[k] == signature_of(fs[k]));
            }
            assert(self.sigs() =~= sigs0 + runtime_signatures());
        }
    }

    /// Generates one function: its signature joins the module (so that its
    /// body can call it), its parameters are stored to fresh stack slots,
    /// its body is generated from a fresh symbol table, and a function with
    /// no return type gets a return with no value where its body leaves the
    /// last block open.
    fn gen_function(&mut self, f: &FuncDef) -> (r: Result<(), CodegenError>)
        ensures
            match r {
                Ok(()) => {
                    &&& block_result(f.code@, params_env(f.params@), old(self).sigs().push(def_signature(*f))) is Ok
                    &&& final(self).sigs() == old(self).sigs().push(def_signature(*f))
                    &&& extends(old(self).module.functions@, final(self).module.functions@)
                    &&& !final(self).module.functions@.last().external
                    &&& final(self).module.functions@.last().blocks@.len() > 0
                    &&& final(self).module.functions@.last().blocks@[0].id == 0
                    &&& returns_at_end(final(self).module.functions@.last())
                    &&& well_formed(final(self).module.functions@.last())
                    &&& lowers_function(*f, final(self).module.functions@.last(), old(self).sigs().push(def_signature(*f)))
                },
                Err(x) => block_result(f.code@, params_env(f.params@), old(self).sigs().push(def_signature(*f)))
                    == Err::<Env, CodegenError>(x),
            },
            r is Err ==> final(self).module.functions@ == old(self).module.functions@,
    {
        let ghost sigs0 = self.sigs();
        let mut entry_kinds: Vec<BlockKind> = Vec::new();
        entry_kinds.push(BlockKind::Entry);
        self.symbol_table = Vec::new();
        self.func = FunctionState {
            block_kinds: entry_kinds,
            finished: Vec::new(),
            current: BasicBlock { id: 0, instructions: Vec::new() },
            values: Vec::new(),
            slots: Vec::new(),
        };
        let mut params: Vec<(String, Type)> = Vec::new();
        let mut i: usize = 0;
        while i < f.params.len()
            invariant
                i <= f.params@.len(),
                self.func.values@.len() == i,
                self.module.functions@ == old(self).module.functions@,
                self.func.current.id == 0,
                self.func.current.instructions@.len() == 0,
                self.func.finished@.len() == 0,
                self.symbol_table@.len() == 0,
                self.func.block_kinds@.len() == 1,
                self.func.slots@.len() == 0,
                self.func.block_kinds@ == seq![BlockKind::Entry],
                self.func.values@ =~= f.params@.take(i as int).map_values(|p: (String, Type)| p.1),
                params@ =~= f.params@.take(i as int),
            decreases f.params@.len() - i,
        {
            self.func.values.push(f.params[i].1);
            params.push((f.params[i].0.clone(), f.params[i].1));
            proof {
                assert(f.params@.take(i + 1) =~= f.params@.take(i as int).push(f.params@[i as int]));
            }
            i += 1;
        }
        proof {
            assert(f.params@.take(f.params@.len() as int) =~= f.params@);
            assert(self.func.current.instructions@ =~= prologue(f.params@.take(0)));
            assert(self.symbol_table@ =~= param_table(f.params@.take(0)));
        }
        self.module.functions.push(
            Function {
                name: f.name.clone(),
                params,
                return_type: f.return_type,
                external: false,
                blocks: Vec::new(),
                block_kinds: Vec::new(),
                values: Vec::new(),
                slots: Vec::new(),
            },
        );
        proof {
            assert(self.sigs() =~= sigs0.push(def_signature(*f)));
            assert(self.ready());
        }
        let ghost sigs1 = self.sigs();
        let ghost fs0 = self.module.functions@;
        let mut i: usize = 0;
        while i < f.params.len()
            invariant
                i <= f.params@.len(),
                self.func.values@.len() == f.params@.len(),
                self.sigs() == sigs1,
                self.module.functions@ == fs0,
                self.func.current.id == 0,
                self.func.finished@.len() == 0,
                !is_terminated(self.func.current),
                self.ready(),
                self.env() =~= params_env(f.params@).subrange(0, i as int),
                self.func.values@ == f.params@.map_values(|p: (String, Type)| p.1),
                self.func.slots@ =~= f.params@.take(i as int).map_values(|p: (String, Type)| p.1),
                self.func.current.instructions@ == prologue(f.params@.take(i as int)),
                self.symbol_table@ == param_table(f.params@.take(i as int)),
                self.func.block_kinds@ == seq![BlockKind::Entry],
                self.module.functions@.last().params@ == f.params@,
                self.module.functions@.last().name == f.name,
                self.module.functions@.last().return_type == f.return_type,
            decreases f.params@.len() - i,
        {
            let ghost env_i = self.env();
            let ty = f.params[i].1;
            let slot = self.func.slots.len();
            let ghost pre = self.func;
            self.func.slots.push(ty);
            proof {
                lemma_state_grows(pre, self.func);
            }
            self.emit(Instruction::Alloca { slot, ty, name: f.params[i].0.clone() });
            self.emit(Instruction::Store { slot, value: i });
            let ghost table = self.symbol_table@;
            self.symbol_table.push(Binding { name: f.params[i].0.clone(), slot, ty });
            proof {
                assert forall|k: int| 0 <= k < self.symbol_table@.len() implies #[trigger] self.symbol_table@[k].slot
                    < self.func.slots@.len() by {
                    if k < table.len() {
                        assert(self.symbol_table@[k] == table[k]);
                    }
                }
                assert(self.env() =~= env_i.push((f.params@[i as int].0@, ty)));
                assert(params_env(f.params@)[i as int] == (f.params@[i as int].0@, ty));
                let pre = f.params@.take(i + 1);
                assert(pre.drop_last() =~= f.params@.take(i as int));
                assert(pre.last() == f.params@[i as int]);
                assert(self.func.current.instructions@ =~= prologue(pre));
                assert(self.symbol_table@ =~= param_table(pre));
                assert(self.func.slots@ =~= pre.map_values(|p: (String, Type)| p.1));
            }
            i += 1;
        }
        proof {
            assert(params_env(f.params@).subrange(0, f.params@.len() as int) =~= params_env(f.params@));
            assert(f.params@.take(f.params@.len() as int) =~= f.params@);
        }
        let ghost entry = self.func;
        let mut scope = self.scope_copy();
        match self.check_block(&f.code, &mut scope) {
            Ok(()) => {},
            Err(x) => {
                let _ = self.module.functions.pop();
                proof {
                    assert(self.module.functions@ =~= old(self).module.functions@);
                }
                return Err(x);
            },
        }
        match self.gen_block(&f.code) {
            Ok(()) => {},
            Err(x) => {
                return Err(x);
            },
        }
        let ghost e = self.func;
        let ghost t = self.symbol_table@;
        if !self.cursor_terminated() {
            match f.return_type {
                None => self.emit(Instruction::Return { value: None }),
                // A typed body that falls off its end is a path the type
                // checker has ruled out.
                Some(_) => self.emit(Instruction::Unreachable),
            }
        }
        proof {
            let st = self.func;
            assert forall|k: int| 0 <= k < st.finished@.len() + 1 implies block_complete(
                #[trigger] st.finished@.push(st.current)[k],
                st.values@.len(),
                st.slots@.len(),
                st.block_kinds@.len(),
            ) by {
                if k < st.finished@.len() {
                    assert(st.finished@.push(st.current)[k] == st.finished@[k]);
                }
            }
        }
        let mut st = FunctionState {
            block_kinds: Vec::new(),
            finished: Vec::new(),
            current: BasicBlock { id: 0, instructions: Vec::new() },
            values: Vec::new(),
            slots: Vec::new(),
        };
        std::mem::swap(&mut self.func, &mut st);
        let FunctionState { block_kinds, finished, current, values, slots } = st;
        let mut blocks = finished;
        blocks.push(current);
        let ghost fs1 = self.module.functions@;
        let decl = self.module.functions.pop().unwrap();
        self.module.functions.push(
            Function {
                name: decl.name,
                params: decl.params,
                return_type: decl.return_type,
                external: false,
                blocks,
                block_kinds,
                values,
                slots,
            },
        );
        proof {
            assert(self.module.functions@ =~= fs1.drop_last().push(self.module.functions@.last()));
            assert(self.sigs() =~= sigs0.push(def_signature(*f)));
            assert(well_formed(self.module.functions@.last()));
            let func = self.module.functions@.last();
            assert(func.blocks@.drop_last() =~= e.finished@);
            assert(finishes(e, func));
            lemma_function_lowers(*f, func, sigs1, entry, e, t);
        }
        Ok(())
    }

    /// Generates every function of the program, in order. The first failure
    /// ends generation.
    pub fn gen_program(&mut self, program: &Program) -> (r: Result<(), CodegenError>)
        ensures
            r == (match funcs_result(program.functions@, old(self).sigs()) {
                None => Ok::<(), CodegenError>(()),
                Some(x) => Err(x),
            }),
            r is Ok ==> final(self).sigs() == old(self).sigs() + program.functions@.map_values(|f: FuncDef| def_signature(f)),
            r is Ok ==> extends(old(self).module.functions@, final(self).module.functions@),
            r is Ok ==> forall|k: int|
                old(self).module.functions@.len() <= k < final(self).module.functions@.len() ==> well_formed(
                    #[trigger] final(self).module.functions@[k],
                ),
            r is Ok ==> final(self).module.functions@.len() == old(self).module.functions@.len() + program.functions@.len(),
            r is Err ==> {
                let i = final(self).module.functions@.len() - old(self).module.functions@.len();
                &&& 0 <= i < program.functions@.len()
                &&& extends(old(self).module.functions@, final(self).module.functions@)
                &&& forall|k: int|
                    0 <= k < i ==> lowers_function(
                        #[trigger] program.functions@[k],
                        final(self).module.functions@[old(self).module.functions@.len() + k],
                        old(self).sigs() + program.functions@.take(k + 1).map_values(|f: FuncDef| def_signature(f)),
                    )
                &&& block_result(
                    program.functions@[i].code@,
                    params_env(program.functions@[i].params@),
                    old(self).sigs() + program.functions@.take(i + 1).map_values(|f: FuncDef| def_signature(f)),
                ) is Err
            },
            r is Ok ==> forall|k: int|
                0 <= k < program.functions@.len() ==> lowers_function(
                    #[trigger] program.functions@[k],
                    final(self).module.functions@[old(self).module.functions@.len() + k],
                    old(self).sigs() + program.functions@.take(k + 1).map_values(|f: FuncDef| def_signature(f)),
                ),
    {
        let ghost sigs0 = self.sigs();
        let ghost fs = program.functions@;
        let mut i: usize = 0;
        proof {
            assert(fs.subrange(0, fs.len() as int) =~= fs);
            assert(sigs0 + fs.subrange(0, 0).map_values(|f: FuncDef| def_signature(f)) =~= sigs0);
        }
        while i < program.functions.len()
            invariant
                i <= fs.len(),
                fs == program.functions@,
                sigs0 == old(self).sigs(),
                funcs_result(fs, sigs0) == funcs_result(fs.subrange(i as int, fs.len() as int), self.sigs()),
                self.sigs() == sigs0 + fs.subrange(0, i as int).map_values(|f: FuncDef| def_signature(f)),
                extends(old(self).module.functions@, self.module.functions@),
                forall|k: int|
                    old(self).module.functions@.len() <= k < self.module.functions@.len() ==> well_formed(
                        #[trigger] self.module.functions@[k],
                    ),
                self.module.functions@.len() == old(self).module.functions@.len() + i,
                forall|k: int|
                    0 <= k < i ==> lowers_function(
                        #[trigger] fs[k],
                        self.module.functions@[old(self).module.functions@.len() + k],
                        sigs0 + fs.take(k + 1).map_values(|f: FuncDef| def_signature(f)),
                    ),
            decreases fs.len() - i,
        {
            let ghost tail = fs.subrange(i as int, fs.len() as int);
            proof {
                assert(tail[0] == fs[i as int]);
                assert(tail.subrange(1, tail.len() as int) =~= fs.subrange(i + 1, fs.len() as int));
            }
            let ghost before = self.module.functions@;
            let ghost sigs_i = self.sigs();
            proof {
                assert(sigs0 + fs.subrange(0, i + 1).map_values(|f: FuncDef| def_signature(f))
                    =~= (sigs0 + fs.subrange(0, i as int).map_values(|f: FuncDef| def_signature(f))).push(def_signature(fs[i as int])));
                assert(fs.take(i + 1) =~= fs.subrange(0, i + 1));
            }
            match self.gen_function(&program.functions[i]) {
                Ok(()) => {},
                Err(x) => {
                    return Err(x);
                },
            }
            proof {
                assert(sigs0 + fs.subrange(0, i + 1).map_values(|f: FuncDef| def_signature(f))
                    =~= (sigs0 + fs.subrange(0, i as int).map_values(|f: FuncDef| def_signature(f))).push(def_signature(fs[i as int])));
                assert(fs.take(i + 1) =~= fs.subrange(0, i + 1));
                let n0 = old(self).module.functions@.len();
                assert(self.module.functions@.len() == before.len() + 1);
                assert forall|k: int| 0 <= k < i + 1 implies lowers_function(
                    #[trigger] fs[k],
                    self.module.functions@[n0 + k],
                    sigs0 + fs.take(k + 1).map_values(|f: FuncDef| def_signature(f)),
                ) by {
                    if k < i {
                        assert(self.module.functions@[n0 + k] == before[n0 + k]);
                    } else {
                        assert(self.module.functions@[n0 + k] == self.module.functions@.last());
                    }
                }
            }
            i += 1;
        }
        proof {
            assert(fs.subrange(0, fs.len() as int) =~= fs);
        }
        Ok(())
    }
}

/// Generates the module of a program: the runtime's routines, declared
/// first, then each function of the program in order, each well formed.
/// Fails with the first error that generation meets.
pub fn generate_module(program: &Program) -> (r: Result<Module, CodegenError>)
    ensures
        match funcs_result(program.functions@, runtime_signatures()) {
            None => r matches Ok(m) && signatures(m.functions@) == runtime_signatures()
                + program.functions@.map_values(|f: FuncDef| def_signature(f)) && (forall|k: int|
                0 <= k < m.functions@.len() ==> well_formed(#[trigger] m.functions@[k])) && (forall|k: int|
                0 <= k < runtime_signatures().len() ==> (#[trigger] m.functions@[k]).external
                    && m.functions@[k].params@.map_values(|p: (String, Type)| p.1) == runtime_param_types()[k])
                && (forall|k: int|
                0 <= k < program.functions@.len() ==> lowers_function(
                    #[trigger] program.functions@[k],
                    m.functions@[runtime_signatures().len() + k],
                    runtime_signatures() + program.functions@.take(k + 1).map_values(|f: FuncDef| def_signature(f)),
                )),
            Some(x) => r == Err::<Module, CodegenError>(x),
        },
{
    let mut codegen = CodeGen::new();
    codegen.add_runtime();
    proof {
        assert(codegen.sigs() =~= runtime_signatures());
    }
    let ghost n = codegen.module.functions@.len();
    match codegen.gen_program(program) {
        Ok(()) => {
            proof {
                let fs = codegen.module.functions@;
                assert forall|k: int| 0 <= k < fs.len() implies well_formed(#[trigger] fs[k]) by {
                    if k < n {
                        assert(fs[k].external);
                    }
                }
                assert(n == runtime_signatures().len());
                assert forall|k: int| 0 <= k < runtime_signatures().len() implies (#[trigger] fs[k]).external
                    && fs[k].params@.map_values(|p: (String, Type)| p.1) == runtime_param_types()[k] by {
                    assert(fs[k] == fs[0 + k]);
                }
            }
            Ok(codegen.module)
        },
        Err(x) => Err(x),
    }
}

/// A function with no parameters, no return type and an empty body is
/// lowered to a single block that returns with no value.
pub proof fn empty_void_function_returns(d: FuncDef, f: Function, fs: Sigs)
    requires
        lowers_function(d, f, fs),
        d.params@.len() == 0,
        d.code@.len() == 0,
        d.return_type is None,
    ensures
        f.blocks@.len() == 1,
        f.blocks@[0].instructions@ == seq![Instruction::Return { value: None }],
{
    let (entry, e, t) = choose|entry: FunctionState, e: FunctionState, t: Seq<Binding>|
        #![trigger enters(d.params@, entry), finishes(e, f), table_ok(t, e.slots@.len())]
        enters(d.params@, entry) && finishes(e, f) && table_ok(t, e.slots@.len()) && lowers_block(
            d.code@,
            param_table(d.params@),
            fs,
            entry,
            e,
            t,
        );
    assert(e == entry);
    assert(prologue(d.params@) =~= Seq::<Instruction>::empty());
    assert(f.blocks@[0] == f.blocks@.last());
    assert(f.blocks@[0].instructions@ =~= seq![Instruction::Return { value: None }]);
}

} // verus!
