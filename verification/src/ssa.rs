//! Static single assignment form: the stack machine of a disassembled
//! function is simulated, and every value it produces gets a variable of
//! its own.
use vstd::prelude::*;
use std::collections::{BTreeMap, HashMap};
use std::collections::VecDeque;

use crate::constants::{DataAddress, SymbolAddress};
use crate::disassembler::{BlockView, DisassemblyFunction, DisassemblyTerminator};
use crate::opcodes::Opcode;
use crate::ordered_set::{index_get, index_insert, index_remove};
use crate::text::{prefixed_decimal, spec_decimal};
use crate::traits::{GenericTerminator, TBlock, TFunction, TInstruction};

verus! {

broadcast use vstd::std_specs::hash::group_hash_axioms;

/// A value of the simulated machine: a local slot, a stack slot, or the
/// internal register, each with the number of its assignment.
#[derive(Debug, Clone, Copy, PartialEq, Eq, Hash, Structural)]
pub enum Variable {
    Local { addr: u8, unique: u32 },
    Stack { addr: u32, unique: u32 },
    Internal { unique: u32 },
}

/// A constant operand. `Float` and `Double` hold IEEE-754 bit patterns.
#[derive(Debug, Clone, Copy, PartialEq, Eq, Structural)]
pub enum ImmediateValue {
    Null,
    Integer(i32),
    Long(u64),
    Float(u32),
    Double(u64),
    Char(char),
    String(DataAddress),
    Symbol(SymbolAddress),
    Boolean(bool),
}

#[derive(Debug, Clone, Copy, PartialEq, Eq, Structural)]
pub enum UnaryOperator {
    IsNull,
    IsNotNull,
    Inv,
    NewDictionary,
    NewClass,
    NewArray,
    NewByteArray,
}

#[derive(Debug, Clone, Copy, PartialEq, Eq, Structural)]
pub enum BinaryOperator {
    Add,
    Sub,
    Mul,
    Div,
    And,
    Or,
    Mod,
    Shl,
    Shr,
    Xor,
    Eq,
    Lt,
    Lte,
    Gt,
    Gte,
    Ne,
    Isa,
    Has,
}

/// An operation of the SSA form.
pub enum OP {
    Move { src: Variable, dest: Variable },
    MoveImm { src: ImmediateValue, dest: Variable },
    BinaryOperation { op: BinaryOperator, src1: Variable, src2: Variable, dest: Variable },
    UnaryOperation { op: UnaryOperator, src: Variable, dest: Variable },
    Getv { base: Variable, symbol: Variable, dest: Variable },
    Getm { symbol: Variable, dest: Variable },
    Aputv { src: Variable, idx: Variable, value: Variable },
    Agetv { src: Variable, idx: Variable, dest: Variable },
    Putv { src: Variable, base: Variable, symbol: Variable },
    Call { function: Variable, arguments: Vec<Variable>, dest: Variable },
}

/// The abstract value of an operation.
pub enum OPView {
    Move { src: Variable, dest: Variable },
    MoveImm { src: ImmediateValue, dest: Variable },
    BinaryOperation { op: BinaryOperator, src1: Variable, src2: Variable, dest: Variable },
    UnaryOperation { op: UnaryOperator, src: Variable, dest: Variable },
    Getv { base: Variable, symbol: Variable, dest: Variable },
    Getm { symbol: Variable, dest: Variable },
    Aputv { src: Variable, idx: Variable, value: Variable },
    Agetv { src: Variable, idx: Variable, dest: Variable },
    Putv { src: Variable, base: Variable, symbol: Variable },
    Call { function: Variable, arguments: Seq<Variable>, dest: Variable },
}

impl View for OP {
    type V = OPView;

    open spec fn view(&self) -> OPView {
        match self {
            OP::Move { src, dest } => OPView::Move { src: *src, dest: *dest },
            OP::MoveImm { src, dest } => OPView::MoveImm { src: *src, dest: *dest },
            OP::BinaryOperation { op, src1, src2, dest } => OPView::BinaryOperation { op: *op, src1: *src1, src2: *src2, dest: *dest },
            OP::UnaryOperation { op, src, dest } => OPView::UnaryOperation { op: *op, src: *src, dest: *dest },
            OP::Getv { base, symbol, dest } => OPView::Getv { base: *base, symbol: *symbol, dest: *dest },
            OP::Getm { symbol, dest } => OPView::Getm { symbol: *symbol, dest: *dest },
            OP::Aputv { src, idx, value } => OPView::Aputv { src: *src, idx: *idx, value: *value },
            OP::Agetv { src, idx, dest } => OPView::Agetv { src: *src, idx: *idx, dest: *dest },
            OP::Putv { src, base, symbol } => OPView::Putv { src: *src, base: *base, symbol: *symbol },
            OP::Call { function, arguments, dest } => OPView::Call { function: *function, arguments: arguments@, dest: *dest },
        }
    }
}

/// The abstract values of a list of operations.
pub open spec fn ops_view(v: Seq<OP>) -> Seq<OPView> {
    v.map_values(|o: OP| o@)
}

/// Why a function could not be put into SSA form. All but `UnbalancedStack`
/// are programs that the simulation cannot run: it aborts on them.
#[derive(Debug, PartialEq, Eq, Clone, Copy, Structural)]
pub enum SSAError {
    /// A block is entered with two different stack depths.
    UnbalancedStack,
    /// A value is read or popped below the bottom of the stack.
    StackUnderflow,
    /// The internal register is read before it is written.
    InternalNotSet,
    /// An instruction that the simulation does not handle.
    UnsupportedOpcode(Opcode),
    /// A stack depth or an assignment number exceeds 32 bits.
    CounterOverflow,
    /// A jump leads to a block that the function does not have.
    BlockOutOfRange,
}

/// The assignment counters shared by all blocks of a function.
pub struct FunctionVariableContext {
    stack_unique: HashMap<u32, u32>,
    local_unique: HashMap<u8, u32>,
    internal_unique: Option<u32>,
}

/// The abstract value of the counters: the last assignment number of each
/// stack slot and local, and of the internal register.
pub struct CtxView {
    pub stack: Map<u32, u32>,
    pub local: Map<u8, u32>,
    pub internal: Option<u32>,
}

impl View for FunctionVariableContext {
    type V = CtxView;

    closed spec fn view(&self) -> CtxView {
        CtxView { stack: self.stack_unique@, local: self.local_unique@, internal: self.internal_unique }
    }
}

/// The counters, and the stack depth within the block being simulated.
pub struct BlockVariableContext {
    ctx: FunctionVariableContext,
    cur_sp: u32,
}

/// The abstract state of the simulation.
pub struct SsaState {
    pub ctx: CtxView,
    pub sp: u32,
}

impl View for BlockVariableContext {
    type V = SsaState;

    closed spec fn view(&self) -> SsaState {
        SsaState { ctx: self.ctx@, sp: self.cur_sp }
    }
}

pub open spec fn with_stack(s: SsaState, stack: Map<u32, u32>, sp: u32) -> SsaState {
    SsaState { ctx: CtxView { stack, local: s.ctx.local, internal: s.ctx.internal }, sp }
}

pub open spec fn with_local(s: SsaState, local: Map<u8, u32>) -> SsaState {
    SsaState { ctx: CtxView { stack: s.ctx.stack, local, internal: s.ctx.internal }, sp: s.sp }
}

pub open spec fn with_internal(s: SsaState, internal: Option<u32>) -> SsaState {
    SsaState { ctx: CtxView { stack: s.ctx.stack, local: s.ctx.local, internal }, sp: s.sp }
}

/// A step of the simulation that yields a variable.
pub type VarStep = Result<(SsaState, Variable), SSAError>;

/// A step of the simulation that emits operations.
pub type Emit = Result<(SsaState, Seq<OPView>), SSAError>;

/// Pushing a new stack slot: the depth grows by one and the slot gets its
/// next assignment number (0 the first time).
pub open spec fn spec_push(s: SsaState) -> VarStep {
    if s.sp == u32::MAX {
        Err(SSAError::CounterOverflow)
    } else {
        let a = (s.sp + 1) as u32;
        if s.ctx.stack.contains_key(a) && s.ctx.stack[a] == u32::MAX {
            Err(SSAError::CounterOverflow)
        } else {
            let u: u32 = if s.ctx.stack.contains_key(a) { (s.ctx.stack[a] + 1) as u32 } else { 0 };
            Ok((with_stack(s, s.ctx.stack.insert(a, u), a), Variable::Stack { addr: a, unique: u }))
        }
    }
}

/// Reading the stack slot `off` below the top: its current assignment (0,
/// recorded, where it has none yet).
pub open spec fn spec_top_offset(s: SsaState, off: u32) -> VarStep {
    if off > s.sp {
        Err(SSAError::StackUnderflow)
    } else {
        let a = (s.sp - off) as u32;
        let u: u32 = if s.ctx.stack.contains_key(a) { s.ctx.stack[a] } else { 0 };
        Ok((with_stack(s, s.ctx.stack.insert(a, u), s.sp), Variable::Stack { addr: a, unique: u }))
    }
}

/// Popping: the top slot is read, and the depth, which must be positive,
/// shrinks by one.
pub open spec fn spec_pop(s: SsaState) -> VarStep {
    match spec_top_offset(s, 0) {
        Err(e) => Err(e),
        Ok((s1, v)) => if s1.sp == 0 {
            Err(SSAError::StackUnderflow)
        } else {
            Ok((with_stack(s1, s1.ctx.stack, (s1.sp - 1) as u32), v))
        },
    }
}

/// Reading local `idx`: its current assignment (0, recorded, where it has
/// none yet).
pub open spec fn spec_get_local(s: SsaState, idx: u8) -> (SsaState, Variable) {
    let u: u32 = if s.ctx.local.contains_key(idx) { s.ctx.local[idx] } else { 0 };
    (with_local(s, s.ctx.local.insert(idx, u)), Variable::Local { addr: idx, unique: u })
}

/// Assigning local `idx`: its next assignment number (0 the first time).
pub open spec fn spec_new_local(s: SsaState, idx: u8) -> VarStep {
    if s.ctx.local.contains_key(idx) && s.ctx.local[idx] == u32::MAX {
        Err(SSAError::CounterOverflow)
    } else {
        let u: u32 = if s.ctx.local.contains_key(idx) { (s.ctx.local[idx] + 1) as u32 } else { 0 };
        Ok((with_local(s, s.ctx.local.insert(idx, u)), Variable::Local { addr: idx, unique: u }))
    }
}

/// Assigning the internal register: its next assignment number.
pub open spec fn spec_set_internal(s: SsaState) -> VarStep {
    match s.ctx.internal {
        Some(u) => if u == u32::MAX {
            Err(SSAError::CounterOverflow)
        } else {
            Ok((with_internal(s, Some((u + 1) as u32)), Variable::Internal { unique: (u + 1) as u32 }))
        },
        None => Ok((with_internal(s, Some(0)), Variable::Internal { unique: 0 })),
    }
}

/// Reading the internal register, which must have been assigned.
pub open spec fn spec_get_internal(s: SsaState) -> VarStep {
    match s.ctx.internal {
        Some(u) => Ok((s, Variable::Internal { unique: u })),
        None => Err(SSAError::InternalNotSet),
    }
}

/// Every step of the simulation only lets the counters grow and covers the
/// variable it gives; a push, a new local and a new internal assignment give
/// a variable that was not covered before. The counters pass from block
/// context to block context of one function, so no two pushes (nor two
/// assignments of a local or of the internal register) of one function give
/// the same variable.
pub proof fn lemma_steps_grow_counters(s: SsaState, idx: u8, off: u32)
    ensures
        spec_push(s) matches Ok((s1, v)) ==> ctx_le(s.ctx, s1.ctx) && covered(s1.ctx, v) && !covered(s.ctx, v),
        spec_new_local(s, idx) matches Ok((s1, v)) ==> ctx_le(s.ctx, s1.ctx) && covered(s1.ctx, v) && !covered(s.ctx, v),
        spec_set_internal(s) matches Ok((s1, v)) ==> ctx_le(s.ctx, s1.ctx) && covered(s1.ctx, v) && !covered(s.ctx, v),
        spec_top_offset(s, off) matches Ok((s1, v)) ==> ctx_le(s.ctx, s1.ctx) && covered(s1.ctx, v),
        spec_pop(s) matches Ok((s1, v)) ==> ctx_le(s.ctx, s1.ctx) && covered(s1.ctx, v),
        ctx_le(s.ctx, spec_get_local(s, idx).0.ctx) && covered(spec_get_local(s, idx).0.ctx, spec_get_local(s, idx).1),
        spec_get_internal(s) matches Ok((s1, v)) ==> s1 == s && covered(s.ctx, v),
{
}

/// What the counters cover stays covered as they grow.
pub proof fn lemma_covered_stays(a: CtxView, b: CtxView, v: Variable)
    requires
        ctx_le(a, b),
    ensures
        covered(a, v) ==> covered(b, v),
{
}

/// One step after another, their operations in order.
pub open spec fn chain(first: Emit, next: spec_fn(SsaState) -> Emit) -> Emit {
    match first {
        Err(e) => Err(e),
        Ok((s1, a)) => match next(s1) {
            Err(e) => Err(e),
            Ok((s2, b)) => Ok((s2, a + b)),
        },
    }
}

/// `dest = src`, where `dest` is pushed after `src` is read.
pub open spec fn emit_move_push(src: VarStep) -> Emit {
    match src {
        Err(e) => Err(e),
        Ok((s1, v)) => match spec_push(s1) {
            Err(e) => Err(e),
            Ok((s2, d)) => Ok((s2, seq![OPView::Move { src: v, dest: d }])),
        },
    }
}

/// `dest = value` into a pushed slot.
pub open spec fn spec_imm(s: SsaState, value: ImmediateValue) -> Emit {
    match spec_push(s) {
        Err(e) => Err(e),
        Ok((s1, d)) => Ok((s1, seq![OPView::MoveImm { src: value, dest: d }])),
    }
}

pub open spec fn spec_lgetv(s: SsaState, idx: u8) -> Emit {
    emit_move_push(Ok(spec_get_local(s, idx)))
}

pub open spec fn spec_spush(s: SsaState, symbol: SymbolAddress) -> Emit {
    spec_imm(s, ImmediateValue::Symbol(symbol))
}

/// `op`: two operands popped (the second first), the result pushed.
pub open spec fn spec_binary(s: SsaState, op: BinaryOperator) -> Emit {
    match spec_pop(s) {
        Err(e) => Err(e),
        Ok((s1, src2)) => match spec_pop(s1) {
            Err(e) => Err(e),
            Ok((s2, src1)) => match spec_push(s2) {
                Err(e) => Err(e),
                Ok((s3, dest)) => Ok((s3, seq![OPView::BinaryOperation { op, src1, src2, dest }])),
            },
        },
    }
}

/// `op`: one operand popped, the result pushed.
pub open spec fn spec_unary(s: SsaState, op: UnaryOperator) -> Emit {
    match spec_pop(s) {
        Err(e) => Err(e),
        Ok((s1, src)) => match spec_push(s1) {
            Err(e) => Err(e),
            Ok((s2, dest)) => Ok((s2, seq![OPView::UnaryOperation { op, src, dest }])),
        },
    }
}

/// A field read: the object (one below the top) is saved in the internal
/// register, then symbol and object are popped and the value pushed.
pub open spec fn spec_getv(s: SsaState) -> Emit {
    match spec_top_offset(s, 1) {
        Err(e) => Err(e),
        Ok((s1, src)) => match spec_set_internal(s1) {
            Err(e) => Err(e),
            Ok((s2, d1)) => match spec_pop(s2) {
                Err(e) => Err(e),
                Ok((s3, symbol)) => match spec_pop(s3) {
                    Err(e) => Err(e),
                    Ok((s4, base)) => match spec_push(s4) {
                        Err(e) => Err(e),
                        Ok((s5, dest)) => Ok((s5, seq![
                            OPView::Move { src, dest: d1 },
                            OPView::Getv { base, symbol, dest },
                        ])),
                    },
                },
            },
        },
    }
}

/// `n` pops, the values in the order they were popped.
pub open spec fn spec_pop_n(s: SsaState, n: nat) -> Result<(SsaState, Seq<Variable>), SSAError>
    decreases n,
{
    if n == 0 {
        Ok((s, seq![]))
    } else {
        match spec_pop_n(s, (n - 1) as nat) {
            Err(e) => Err(e),
            Ok((s1, vs)) => match spec_pop(s1) {
                Err(e) => Err(e),
                Ok((s2, v)) => Ok((s2, vs.push(v))),
            },
        }
    }
}

/// A call: `count` arguments popped (the last first), then the function;
/// the result pushed.
pub open spec fn spec_invokem(s: SsaState, count: u8) -> Emit {
    match spec_pop_n(s, count as nat) {
        Err(e) => Err(e),
        Ok((s1, popped)) => match spec_pop(s1) {
            Err(e) => Err(e),
            Ok((s2, function)) => match spec_push(s2) {
                Err(e) => Err(e),
                Ok((s3, dest)) => Ok((s3, seq![OPView::Call { function, arguments: popped.reverse(), dest }])),
            },
        },
    }
}

pub open spec fn spec_getm(s: SsaState) -> Emit {
    match spec_pop(s) {
        Err(e) => Err(e),
        Ok((s1, symbol)) => match spec_push(s1) {
            Err(e) => Err(e),
            Ok((s2, dest)) => Ok((s2, seq![OPView::Getm { symbol, dest }])),
        },
    }
}

/// An array store: value, index and array popped in that order.
pub open spec fn spec_aputv(s: SsaState) -> Emit {
    match spec_pop(s) {
        Err(e) => Err(e),
        Ok((s1, value)) => match spec_pop(s1) {
            Err(e) => Err(e),
            Ok((s2, idx)) => match spec_pop(s2) {
                Err(e) => Err(e),
                Ok((s3, src)) => Ok((s3, seq![OPView::Aputv { src, idx, value }])),
            },
        },
    }
}

pub open spec fn spec_dup(s: SsaState, offset: u8) -> Emit {
    emit_move_push(spec_top_offset(s, offset as u32))
}

/// An array read: index and array popped, the element pushed.
pub open spec fn spec_agetv(s: SsaState) -> Emit {
    match spec_pop(s) {
        Err(e) => Err(e),
        Ok((s1, idx)) => match spec_pop(s1) {
            Err(e) => Err(e),
            Ok((s2, src)) => match spec_push(s2) {
                Err(e) => Err(e),
                Ok((s3, dest)) => Ok((s3, seq![OPView::Agetv { src, idx, dest }])),
            },
        },
    }
}

/// A field store: value, symbol and object popped in that order.
pub open spec fn spec_putv(s: SsaState) -> Emit {
    match spec_pop(s) {
        Err(e) => Err(e),
        Ok((s1, src)) => match spec_pop(s1) {
            Err(e) => Err(e),
            Ok((s2, symbol)) => match spec_pop(s2) {
                Err(e) => Err(e),
                Ok((s3, base)) => Ok((s3, seq![OPView::Putv { src, base, symbol }])),
            },
        },
    }
}

/// A local store: the top popped into the next assignment of the local.
pub open spec fn spec_lputv(s: SsaState, idx: u8) -> Emit {
    match spec_pop(s) {
        Err(e) => Err(e),
        Ok((s1, src)) => match spec_new_local(s1, idx) {
            Err(e) => Err(e),
            Ok((s2, dest)) => Ok((s2, seq![OPView::Move { src, dest }])),
        },
    }
}

/// The assignment number that stack slot `a` holds in state `s` (0 where it
/// has none yet).
pub open spec fn slot_unique(s: SsaState, a: u32) -> u32 {
    if s.ctx.stack.contains_key(a) { s.ctx.stack[a] } else { 0 }
}

/// The variable that stack slot `a` holds in state `s`.
pub open spec fn slot_variable(s: SsaState, a: u32) -> Variable {
    Variable::Stack { addr: a, unique: slot_unique(s, a) }
}

/// The instructions that combine the two values on top of the stack.
pub open spec fn is_binary_opcode(op: Opcode) -> bool {
    match op {
        Opcode::ADD | Opcode::SUB | Opcode::MUL | Opcode::DIV | Opcode::AND | Opcode::OR
        | Opcode::MOD | Opcode::SHL | Opcode::SHR | Opcode::XOR | Opcode::EQ | Opcode::LT
        | Opcode::LTE | Opcode::GT | Opcode::GTE | Opcode::NE | Opcode::ISA
        | Opcode::CANHAZPLZ => true,
        _ => false,
    }
}

/// What an instruction does to the simulation, and the operations it emits.
#[verifier::opaque]
pub open spec fn spec_op(op: Opcode, s: SsaState) -> Emit {
    match op {
        Opcode::LGETV(idx) => spec_lgetv(s, idx),
        Opcode::GETSELF => spec_lgetv(s, 0),
        Opcode::LPUTV(idx) => spec_lputv(s, idx),
        Opcode::SPUSH(symbol) => spec_spush(s, symbol),
        Opcode::NPUSH => spec_imm(s, ImmediateValue::Null),
        Opcode::BPUSH(x) => spec_imm(s, ImmediateValue::Boolean(x == 1)),
        Opcode::NEWS(string) => spec_imm(s, ImmediateValue::String(string)),
        Opcode::IPUSH(imm) => spec_imm(s, ImmediateValue::Integer(imm)),
        Opcode::IPUSH1(imm) => spec_imm(s, ImmediateValue::Integer(imm as i32)),
        Opcode::IPUSH2(imm) => spec_imm(s, ImmediateValue::Integer(imm as i32)),
        Opcode::IPUSH3(imm) => spec_imm(s, ImmediateValue::Integer(imm)),
        Opcode::IPUSHZ => spec_imm(s, ImmediateValue::Integer(0)),
        Opcode::DPUSH(imm) => spec_imm(s, ImmediateValue::Double(imm)),
        Opcode::DPUSHZ => spec_imm(s, ImmediateValue::Double(0)),
        Opcode::LPUSH(imm) => spec_imm(s, ImmediateValue::Long(imm)),
        Opcode::LPUSHZ => spec_imm(s, ImmediateValue::Long(0)),
        Opcode::CPUSH(imm) => spec_imm(s, ImmediateValue::Char(imm)),
        Opcode::FPUSH(imm) => spec_imm(s, ImmediateValue::Float(imm)),
        Opcode::FPUSHZ => spec_imm(s, ImmediateValue::Float(0)),
        Opcode::BTPUSH => spec_imm(s, ImmediateValue::Boolean(true)),
        Opcode::BFPUSH => spec_imm(s, ImmediateValue::Boolean(false)),
        Opcode::ADD => spec_binary(s, BinaryOperator::Add),
        Opcode::SUB => spec_binary(s, BinaryOperator::Sub),
        Opcode::MUL => spec_binary(s, BinaryOperator::Mul),
        Opcode::DIV => spec_binary(s, BinaryOperator::Div),
        Opcode::AND => spec_binary(s, BinaryOperator::And),
        Opcode::OR => spec_binary(s, BinaryOperator::Or),
        Opcode::MOD => spec_binary(s, BinaryOperator::Mod),
        Opcode::SHL => spec_binary(s, BinaryOperator::Shl),
        Opcode::SHR => spec_binary(s, BinaryOperator::Shr),
        Opcode::XOR => spec_binary(s, BinaryOperator::Xor),
        Opcode::EQ => spec_binary(s, BinaryOperator::Eq),
        Opcode::LT => spec_binary(s, BinaryOperator::Lt),
        Opcode::LTE => spec_binary(s, BinaryOperator::Lte),
        Opcode::GT => spec_binary(s, BinaryOperator::Gt),
        Opcode::GTE => spec_binary(s, BinaryOperator::Gte),
        Opcode::NE => spec_binary(s, BinaryOperator::Ne),
        Opcode::ISA => spec_binary(s, BinaryOperator::Isa),
        Opcode::CANHAZPLZ => spec_binary(s, BinaryOperator::Has),
        Opcode::INV => spec_unary(s, UnaryOperator::Inv),
        Opcode::ISNULL => spec_unary(s, UnaryOperator::IsNull),
        Opcode::ISNOTNULL => spec_unary(s, UnaryOperator::IsNotNull),
        Opcode::NEWD => spec_unary(s, UnaryOperator::NewDictionary),
        Opcode::NEWA => spec_unary(s, UnaryOperator::NewArray),
        Opcode::NEWBA => spec_unary(s, UnaryOperator::NewByteArray),
        Opcode::NEWC => spec_unary(s, UnaryOperator::NewClass),
        Opcode::AGETV => spec_agetv(s),
        Opcode::APUTV => spec_aputv(s),
        Opcode::DUP(offset) => spec_dup(s, offset),
        Opcode::GETV => spec_getv(s),
        Opcode::PUTV => spec_putv(s),
        Opcode::FRPUSH => emit_move_push(spec_get_internal(s)),
        Opcode::INVOKEM(count) => spec_invokem(s, count),
        Opcode::INVOKEMZ => chain(spec_lgetv(s, 0), |s1: SsaState| spec_invokem(s1, 1)),
        Opcode::GETM => spec_getm(s),
        Opcode::POPV => match spec_pop(s) {
            Err(e) => Err(e),
            Ok((s1, _)) => Ok((s1, seq![])),
        },
        Opcode::GETSELFV(symbol) => chain(
            spec_lgetv(s, 0),
            |s1: SsaState| chain(spec_spush(s1, symbol), |s2: SsaState| spec_getv(s2)),
        ),
        Opcode::GETMV(symbol1, symbol2) => chain(
            spec_spush(s, symbol1),
            |s1: SsaState| chain(
                spec_getm(s1),
                |s2: SsaState| chain(spec_spush(s2, symbol2), |s3: SsaState| spec_getv(s3)),
            ),
        ),
        Opcode::GETSV(symbol) => chain(spec_spush(s, symbol), |s1: SsaState| spec_getv(s1)),
        Opcode::GETLOCALV(idx, symbol) => chain(
            spec_lgetv(s, idx),
            |s1: SsaState| chain(spec_spush(s1, symbol), |s2: SsaState| spec_getv(s2)),
        ),
        Opcode::APUTVDUP => chain(spec_aputv(s), |s1: SsaState| spec_dup(s1, 1)),
        Opcode::ARGC(_) | Opcode::INCSP(_) | Opcode::ARGCINCSP(_, _) => Ok((s, seq![])),
        Opcode::BT(_) | Opcode::BF(_) | Opcode::RETURN | Opcode::GOTO(_) => Ok((s, seq![])),
        _ => Err(SSAError::UnsupportedOpcode(op)),
    }
}

/// The simulation `spec` ended in state `st` having appended its operations
/// to `before`, giving `after`; or it failed, and so did `r`.
pub open spec fn emitted(spec: Emit, r: Result<(), SSAError>, st: SsaState, before: Seq<OPView>, after: Seq<OPView>) -> bool {
    match spec {
        Ok((s, e)) => r is Ok && st == s && after == before + e,
        Err(e) => r == Err::<(), SSAError>(e),
    }
}

/// The variable step `spec` ended in state `st` with variable `v`, or failed
/// as `r` did.
pub open spec fn stepped(spec: VarStep, r: Result<Variable, SSAError>, st: SsaState) -> bool {
    match spec {
        Ok((s, v)) => r == Ok::<Variable, SSAError>(v) && st == s,
        Err(e) => r == Err::<Variable, SSAError>(e),
    }
}

impl FunctionVariableContext {
    pub fn new_ctx() -> (c: FunctionVariableContext)
        ensures
            c@.stack == Map::<u32, u32>::empty(),
            c@.local == Map::<u8, u32>::empty(),
            c@.internal is None,
    {
        FunctionVariableContext { stack_unique: HashMap::new(), local_unique: HashMap::new(), internal_unique: None }
    }

    /// Starts the simulation of a block at stack depth `sp`.
    pub fn new_block_context(self, sp: u32) -> (b: BlockVariableContext)
        ensures
            b@ == (SsaState { ctx: self@, sp }),
    {
        BlockVariableContext { ctx: self, cur_sp: sp }
    }
}

impl BlockVariableContext {
    /// Ends the simulation of a block, handing back the counters.
    pub fn into_function_context(self) -> (c: FunctionVariableContext)
        ensures
            c@ == self@.ctx,
    {
        self.ctx
    }

    pub fn get_sp(&self) -> (sp: u32)
        ensures
            sp == self@.sp,
    {
        self.cur_sp
    }

    /// `set_internal`, reporting where the step cannot be taken (a slot below the
    /// stack, an unset register, a counter past 32 bits) as an error.
    pub fn try_set_internal(&mut self) -> (r: Result<Variable, SSAError>)
        ensures
            stepped(spec_set_internal(old(self)@), r, final(self)@),
    {
        match self.ctx.internal_unique {
            Some(u) => {
                if u == u32::MAX {
                    return Err(SSAError::CounterOverflow);
                }
                self.ctx.internal_unique = Some(u + 1);
                Ok(Variable::Internal { unique: u + 1 })
            },
            None => {
                self.ctx.internal_unique = Some(0);
                Ok(Variable::Internal { unique: 0 })
            },
        }
    }

    /// `get_internal`, reporting where the step cannot be taken (a slot below the
    /// stack, an unset register, a counter past 32 bits) as an error.
    pub fn try_get_internal(&mut self) -> (r: Result<Variable, SSAError>)
        ensures
            stepped(spec_get_internal(old(self)@), r, final(self)@),
    {
        match self.ctx.internal_unique {
            Some(unique) => Ok(Variable::Internal { unique }),
            None => Err(SSAError::InternalNotSet),
        }
    }

    /// `new_local_at_idx`, reporting where the step cannot be taken (a slot below the
    /// stack, an unset register, a counter past 32 bits) as an error.
    pub fn try_new_local_at_idx(&mut self, idx: u8) -> (r: Result<Variable, SSAError>)
        ensures
            stepped(spec_new_local(old(self)@, idx), r, final(self)@),
    {
        let unique = match self.ctx.local_unique.get(&idx) {
            Some(u) => {
                if *u == u32::MAX {
                    return Err(SSAError::CounterOverflow);
                }
                *u + 1
            },
            None => 0,
        };
        self.ctx.local_unique.insert(idx, unique);
        Ok(Variable::Local { addr: idx, unique })
    }

    pub fn get_local(&mut self, idx: u8) -> (v: Variable)
        ensures
            (final(self)@, v) == spec_get_local(old(self)@, idx),
    {
        let unique = match self.ctx.local_unique.get(&idx) {
            Some(u) => *u,
            None => 0,
        };
        self.ctx.local_unique.insert(idx, unique);
        Variable::Local { addr: idx, unique }
    }

    /// `push_stack_variable`, reporting where the step cannot be taken (a slot below the
    /// stack, an unset register, a counter past 32 bits) as an error.
    pub fn try_push_stack_variable(&mut self) -> (r: Result<Variable, SSAError>)
        ensures
            stepped(spec_push(old(self)@), r, final(self)@),
    {
        if self.cur_sp == u32::MAX {
            return Err(SSAError::CounterOverflow);
        }
        let addr = self.cur_sp + 1;
        let unique = match self.ctx.stack_unique.get(&addr) {
            Some(u) => {
                if *u == u32::MAX {
                    return Err(SSAError::CounterOverflow);
                }
                *u + 1
            },
            None => 0,
        };
        self.cur_sp = addr;
        self.ctx.stack_unique.insert(addr, unique);
        Ok(Variable::Stack { addr, unique })
    }

    /// `get_stack_variable_top_offset`, reporting where the step cannot be taken (a slot below the
    /// stack, an unset register, a counter past 32 bits) as an error.
    pub fn try_get_stack_variable_top_offset(&mut self, offset: u32) -> (r: Result<Variable, SSAError>)
        ensures
            stepped(spec_top_offset(old(self)@, offset), r, final(self)@),
    {
        let addr = match self.cur_sp.checked_sub(offset) {
            Some(a) => a,
            None => return Err(SSAError::StackUnderflow),
        };
        let unique = match self.ctx.stack_unique.get(&addr) {
            Some(u) => *u,
            None => 0,
        };
        self.ctx.stack_unique.insert(addr, unique);
        Ok(Variable::Stack { addr, unique })
    }

    /// `get_stack_variable_top`, reporting where the step cannot be taken (a slot below the
    /// stack, an unset register, a counter past 32 bits) as an error.
    pub fn try_get_stack_variable_top(&mut self) -> (r: Result<Variable, SSAError>)
        ensures
            stepped(spec_top_offset(old(self)@, 0), r, final(self)@),
    {
        self.try_get_stack_variable_top_offset(0)
    }

    /// `pop_stack_variable_top`, reporting where the step cannot be taken (a slot below the
    /// stack, an unset register, a counter past 32 bits) as an error.
    pub fn try_pop_stack_variable_top(&mut self) -> (r: Result<Variable, SSAError>)
        ensures
            stepped(spec_pop(old(self)@), r, final(self)@),
    {
        let ret = self.try_get_stack_variable_top()?;
        self.cur_sp = match self.cur_sp.checked_sub(1) {
            Some(sp) => sp,
            None => return Err(SSAError::StackUnderflow),
        };
        Ok(ret)
    }
}

impl BlockVariableContext {
    /// Assigns the internal register anew.
    pub fn set_internal(&mut self) -> (v: Variable)
        requires
            spec_set_internal(old(self)@) is Ok,
        ensures
            spec_set_internal(old(self)@) == Ok::<(SsaState, Variable), SSAError>((final(self)@, v)),
    {
        match self.try_set_internal() {
            Ok(v) => v,
            Err(_) => vstd::pervasive::unreached(),
        }
    }

    /// The current assignment of the internal register, which must have been set.
    pub fn get_internal(&mut self) -> (v: Variable)
        requires
            spec_get_internal(old(self)@) is Ok,
        ensures
            spec_get_internal(old(self)@) == Ok::<(SsaState, Variable), SSAError>((final(self)@, v)),
    {
        match self.try_get_internal() {
            Ok(v) => v,
            Err(_) => vstd::pervasive::unreached(),
        }
    }

    /// Assigns local slot `idx` anew.
    pub fn new_local_at_idx(&mut self, idx: u8) -> (v: Variable)
        requires
            spec_new_local(old(self)@, idx) is Ok,
        ensures
            spec_new_local(old(self)@, idx) == Ok::<(SsaState, Variable), SSAError>((final(self)@, v)),
    {
        match self.try_new_local_at_idx(idx) {
            Ok(v) => v,
            Err(_) => vstd::pervasive::unreached(),
        }
    }

    /// Pushes a new stack slot and assigns it.
    pub fn push_stack_variable(&mut self) -> (v: Variable)
        requires
            spec_push(old(self)@) is Ok,
        ensures
            spec_push(old(self)@) == Ok::<(SsaState, Variable), SSAError>((final(self)@, v)),
    {
        match self.try_push_stack_variable() {
            Ok(v) => v,
            Err(_) => vstd::pervasive::unreached(),
        }
    }

    /// The current assignment of the stack slot `offset` below the top, which must exist.
    pub fn get_stack_variable_top_offset(&mut self, offset: u32) -> (v: Variable)
        requires
            spec_top_offset(old(self)@, offset) is Ok,
        ensures
            spec_top_offset(old(self)@, offset) == Ok::<(SsaState, Variable), SSAError>((final(self)@, v)),
    {
        match self.try_get_stack_variable_top_offset(offset) {
            Ok(v) => v,
            Err(_) => vstd::pervasive::unreached(),
        }
    }

    /// The current assignment of the top stack slot, which must exist.
    pub fn get_stack_variable_top(&mut self) -> (v: Variable)
        requires
            spec_top_offset(old(self)@, 0) is Ok,
        ensures
            spec_top_offset(old(self)@, 0) == Ok::<(SsaState, Variable), SSAError>((final(self)@, v)),
    {
        match self.try_get_stack_variable_top() {
            Ok(v) => v,
            Err(_) => vstd::pervasive::unreached(),
        }
    }

    /// Pops the top stack slot, which must exist, giving its current assignment.
    pub fn pop_stack_variable_top(&mut self) -> (v: Variable)
        requires
            spec_pop(old(self)@) is Ok,
        ensures
            spec_pop(old(self)@) == Ok::<(SsaState, Variable), SSAError>((final(self)@, v)),
    {
        match self.try_pop_stack_variable_top() {
            Ok(v) => v,
            Err(_) => vstd::pervasive::unreached(),
        }
    }
}

/// A binary instruction takes its second operand from the top of the stack
/// and its first from the slot just below (so `a b SUB` computes `a - b`),
/// and leaves its result in a new assignment of that lower slot, which
/// becomes the top.
pub proof fn lemma_binary_operands(op: Opcode, s: SsaState)
    requires
        is_binary_opcode(op),
    ensures
        spec_op(op, s) matches Ok((s2, ops)) ==> {
            &&& s.sp >= 2
            &&& s2.sp == s.sp - 1
            &&& ops.len() == 1
            &&& ops[0] matches OPView::BinaryOperation { src1, src2, dest, .. }
                && src2 == slot_variable(s, s.sp)
                && src1 == slot_variable(s, (s.sp - 1) as u32)
                && dest == Variable::Stack { addr: (s.sp - 1) as u32, unique: (slot_unique(s, (s.sp - 1) as u32) + 1) as u32 }
        },
{
    reveal(spec_op);
}

/// The assignment number that the next push onto slot `a` gives.
pub open spec fn next_unique(s: SsaState, a: u32) -> u32 {
    if s.ctx.stack.contains_key(a) { (s.ctx.stack[a] + 1) as u32 } else { 0 }
}

/// Where the other stack instructions take their operands from: the top
/// of the stack is slot `sp`, the one below it `sp - 1`, and so on, and a
/// result goes into a new assignment of the slot it is pushed onto.
/// A unary instruction reads the top and replaces it; `AGETV` reads the
/// index from the top and the array below it; `APUTV` pops the value, then
/// the index, then the array; `PUTV` pops the value, then the symbol, then
/// the object; `GETV` reads the symbol from the top and the object below
/// it (keeping the object in the internal register); `GETM` reads the
/// symbol on top; `DUP(k)` pushes a copy of the slot `k` below the top;
/// `LPUTV` pops the top into a new assignment of the local; `LGETV` pushes
/// the local's current assignment; `IPUSH` pushes its integer.
pub proof fn lemma_stack_operands(op: Opcode, s: SsaState, k: u8, idx: u8, v: i32)
    ensures
        (match op {
            Opcode::INV | Opcode::ISNULL | Opcode::ISNOTNULL | Opcode::NEWD | Opcode::NEWA
            | Opcode::NEWBA | Opcode::NEWC => true,
            _ => false,
        }) ==> (spec_op(op, s) matches Ok((s2, ops)) ==> {
            &&& s.sp >= 1 && s2.sp == s.sp
            &&& ops.len() == 1
            &&& ops[0] matches OPView::UnaryOperation { src, dest, .. }
                && src == slot_variable(s, s.sp)
                && dest == Variable::Stack { addr: s.sp, unique: (slot_unique(s, s.sp) + 1) as u32 }
        }),
        spec_op(Opcode::AGETV, s) matches Ok((s2, ops)) ==> s.sp >= 2 && s2.sp == s.sp - 1 && ops == seq![OPView::Agetv {
            src: slot_variable(s, (s.sp - 1) as u32),
            idx: slot_variable(s, s.sp),
            dest: Variable::Stack { addr: (s.sp - 1) as u32, unique: (slot_unique(s, (s.sp - 1) as u32) + 1) as u32 },
        }],
        spec_op(Opcode::APUTV, s) matches Ok((s2, ops)) ==> s.sp >= 3 && s2.sp == s.sp - 3 && ops == seq![OPView::Aputv {
            src: slot_variable(s, (s.sp - 2) as u32),
            idx: slot_variable(s, (s.sp - 1) as u32),
            value: slot_variable(s, s.sp),
        }],
        spec_op(Opcode::PUTV, s) matches Ok((s2, ops)) ==> s.sp >= 3 && s2.sp == s.sp - 3 && ops == seq![OPView::Putv {
            src: slot_variable(s, s.sp),
            base: slot_variable(s, (s.sp - 2) as u32),
            symbol: slot_variable(s, (s.sp - 1) as u32),
        }],
        spec_op(Opcode::GETV, s) matches Ok((s2, ops)) ==> {
            &&& s.sp >= 2 && s2.sp == s.sp - 1
            &&& ops.len() == 2
            &&& ops[0] matches OPView::Move { src, dest: Variable::Internal { .. } } && src == slot_variable(s, (s.sp - 1) as u32)
            &&& ops[1] == OPView::Getv {
                base: slot_variable(s, (s.sp - 1) as u32),
                symbol: slot_variable(s, s.sp),
                dest: Variable::Stack { addr: (s.sp - 1) as u32, unique: (slot_unique(s, (s.sp - 1) as u32) + 1) as u32 },
            }
        },
        spec_op(Opcode::GETM, s) matches Ok((s2, ops)) ==> s.sp >= 1 && s2.sp == s.sp && ops == seq![OPView::Getm {
            symbol: slot_variable(s, s.sp),
            dest: Variable::Stack { addr: s.sp, unique: (slot_unique(s, s.sp) + 1) as u32 },
        }],
        spec_op(Opcode::DUP(k), s) matches Ok((s2, ops)) ==> k <= s.sp && s2.sp == s.sp + 1 && ops == seq![OPView::Move {
            src: slot_variable(s, (s.sp - k) as u32),
            dest: Variable::Stack { addr: (s.sp + 1) as u32, unique: next_unique(s, (s.sp + 1) as u32) },
        }],
        spec_op(Opcode::LPUTV(idx), s) matches Ok((s2, ops)) ==> s.sp >= 1 && s2.sp == s.sp - 1 && ops == seq![OPView::Move {
            src: slot_variable(s, s.sp),
            dest: Variable::Local {
                addr: idx,
                unique: if s.ctx.local.contains_key(idx) { (s.ctx.local[idx] + 1) as u32 } else { 0 },
            },
        }],
        spec_op(Opcode::LGETV(idx), s) matches Ok((s2, ops)) ==> s2.sp == s.sp + 1 && ops == seq![OPView::Move {
            src: Variable::Local { addr: idx, unique: if s.ctx.local.contains_key(idx) { s.ctx.local[idx] } else { 0 } },
            dest: Variable::Stack { addr: (s.sp + 1) as u32, unique: next_unique(s, (s.sp + 1) as u32) },
        }],
        spec_op(Opcode::IPUSH(v), s) matches Ok((s2, ops)) ==> s2.sp == s.sp + 1 && ops == seq![OPView::MoveImm {
            src: ImmediateValue::Integer(v),
            dest: Variable::Stack { addr: (s.sp + 1) as u32, unique: next_unique(s, (s.sp + 1) as u32) },
        }],
{
    reveal(spec_op);
}

/// Popping `n` values reads the slots from the top down and leaves every
/// slot's assignment as it was.
pub proof fn lemma_pop_n_slots(s: SsaState, n: nat)
    ensures
        spec_pop_n(s, n) matches Ok((s1, vs)) ==> {
            &&& n <= s.sp
            &&& s1.sp == s.sp - n
            &&& vs.len() == n
            &&& forall|i: int| 0 <= i < n ==> #[trigger] vs[i] == slot_variable(s, (s.sp - i) as u32)
            &&& forall|a: u32| #[trigger] slot_unique(s1, a) == slot_unique(s, a)
        },
    decreases n,
{
    if n > 0 {
        lemma_pop_n_slots(s, (n - 1) as nat);
        match spec_pop_n(s, (n - 1) as nat) {
            Ok((s1, vs)) => {
                match spec_pop(s1) {
                    Ok((s2, v)) => {
                        assert(v == slot_variable(s1, s1.sp));
                        assert forall|a: u32| #[trigger] slot_unique(s2, a) == slot_unique(s, a) by {
                            assert(slot_unique(s2, a) == slot_unique(s1, a));
                        }
                        assert forall|i: int| 0 <= i < n implies #[trigger] vs.push(v)[i] == slot_variable(s, (s.sp - i) as u32) by {
                            if i < n - 1 {
                                assert(vs.push(v)[i] == vs[i]);
                            }
                        }
                    },
                    Err(_) => {},
                }
            },
            Err(_) => {},
        }
    }
}

/// A call with `count` arguments takes them from the `count` slots on top,
/// the deepest first, and the function from the slot below them; its result
/// goes into a new assignment of the function's slot, which becomes the top.
pub proof fn lemma_call_operands(s: SsaState, count: u8)
    ensures
        spec_op(Opcode::INVOKEM(count), s) matches Ok((s2, ops)) ==> {
            &&& count < s.sp
            &&& s2.sp == s.sp - count
            &&& ops.len() == 1
            &&& ops[0] matches OPView::Call { function, arguments, dest }
                && function == slot_variable(s, (s.sp - count) as u32)
                && arguments.len() == count
                && (forall|j: int| 0 <= j < count ==> #[trigger] arguments[j] == slot_variable(s, (s.sp - count + 1 + j) as u32))
                && dest == Variable::Stack { addr: (s.sp - count) as u32, unique: (slot_unique(s, (s.sp - count) as u32) + 1) as u32 }
        },
{
    reveal(spec_op);
    lemma_pop_n_slots(s, count as nat);
    match spec_pop_n(s, count as nat) {
        Ok((s1, popped)) => {
            assert(slot_unique(s1, s1.sp) == slot_unique(s, s1.sp));
            match spec_pop(s1) {
                Ok((s2, f)) => {
                    assert forall|j: int| 0 <= j < count implies #[trigger] popped.reverse()[j] == slot_variable(s, (s.sp - count + 1 + j) as u32) by {
                        assert(popped.reverse()[j] == popped[count - 1 - j]);
                    }
                },
                Err(_) => {},
            }
        },
        Err(_) => {},
    }
}

/// Appends an operation.
fn emit_op(ops: &mut Vec<OP>, o: OP)
    ensures
        ops_view(final(ops)@) == ops_view(old(ops)@) + seq![o@],
{
    let ghost before = ops@;
    ops.push(o);
    assert(ops_view(ops@) =~= ops_view(before) + seq![o@]);
}

impl OP {
    fn from_binaryop(op: BinaryOperator, ctx: &mut BlockVariableContext, ops: &mut Vec<OP>) -> (r: Result<(), SSAError>)
        ensures
            emitted(spec_binary(old(ctx)@, op), r, final(ctx)@, ops_view(old(ops)@), ops_view(final(ops)@)),
    {
        let src2 = ctx.try_pop_stack_variable_top()?;
        let src1 = ctx.try_pop_stack_variable_top()?;
        let dest = ctx.try_push_stack_variable()?;
        emit_op(ops, OP::BinaryOperation { op, src1, src2, dest });
        Ok(())
    }

    fn from_unaryop(op: UnaryOperator, ctx: &mut BlockVariableContext, ops: &mut Vec<OP>) -> (r: Result<(), SSAError>)
        ensures
            emitted(spec_unary(old(ctx)@, op), r, final(ctx)@, ops_view(old(ops)@), ops_view(final(ops)@)),
    {
        let src = ctx.try_pop_stack_variable_top()?;
        let dest = ctx.try_push_stack_variable()?;
        emit_op(ops, OP::UnaryOperation { op, src, dest });
        Ok(())
    }

    fn imm_primitive(ctx: &mut BlockVariableContext, value: ImmediateValue, ops: &mut Vec<OP>) -> (r: Result<(), SSAError>)
        ensures
            emitted(spec_imm(old(ctx)@, value), r, final(ctx)@, ops_view(old(ops)@), ops_view(final(ops)@)),
    {
        let dest = ctx.try_push_stack_variable()?;
        emit_op(ops, OP::MoveImm { src: value, dest });
        Ok(())
    }

    fn lgetv_primitive(ctx: &mut BlockVariableContext, idx: u8, ops: &mut Vec<OP>) -> (r: Result<(), SSAError>)
        ensures
            emitted(spec_lgetv(old(ctx)@, idx), r, final(ctx)@, ops_view(old(ops)@), ops_view(final(ops)@)),
    {
        let src = ctx.get_local(idx);
        let dest = ctx.try_push_stack_variable()?;
        emit_op(ops, OP::Move { src, dest });
        Ok(())
    }

    fn spush_primitive(ctx: &mut BlockVariableContext, symbol: SymbolAddress, ops: &mut Vec<OP>) -> (r: Result<(), SSAError>)
        ensures
            emitted(spec_spush(old(ctx)@, symbol), r, final(ctx)@, ops_view(old(ops)@), ops_view(final(ops)@)),
    {
        OP::imm_primitive(ctx, ImmediateValue::Symbol(symbol), ops)
    }

    fn getv_primitive(ctx: &mut BlockVariableContext, ops: &mut Vec<OP>) -> (r: Result<(), SSAError>)
        ensures
            emitted(spec_getv(old(ctx)@), r, final(ctx)@, ops_view(old(ops)@), ops_view(final(ops)@)),
    {
        let ghost before = ops_view(ops@);
        let src = ctx.try_get_stack_variable_top_offset(1)?;
        let d1 = ctx.try_set_internal()?;
        let symbol = ctx.try_pop_stack_variable_top()?;
        let base = ctx.try_pop_stack_variable_top()?;
        let dest = ctx.try_push_stack_variable()?;
        emit_op(ops, OP::Move { src, dest: d1 });
        emit_op(ops, OP::Getv { base, symbol, dest });
        assert(ops_view(ops@) =~= before + seq![OPView::Move { src, dest: d1 }, OPView::Getv { base, symbol, dest }]);
        Ok(())
    }

    fn invokem_primitive(ctx: &mut BlockVariableContext, count: u8, ops: &mut Vec<OP>) -> (r: Result<(), SSAError>)
        ensures
            emitted(spec_invokem(old(ctx)@, count), r, final(ctx)@, ops_view(old(ops)@), ops_view(final(ops)@)),
    {
        let ghost s0 = ctx@;
        let mut popped: Vec<Variable> = Vec::new();
        let mut i: u8 = 0;
        while i < count
            invariant
                i <= count,
                s0 == old(ctx)@,
                spec_pop_n(s0, i as nat) == Ok::<(SsaState, Seq<Variable>), SSAError>((ctx@, popped@)),
            decreases count - i,
        {
            let v = match ctx.try_pop_stack_variable_top() {
                Ok(v) => v,
                Err(e) => {
                    assert(spec_pop_n(s0, (i + 1) as nat) == Err::<(SsaState, Seq<Variable>), SSAError>(e));
                    proof { lemma_pop_n_err(s0, (i + 1) as nat, count as nat); }
                    return Err(e);
                },
            };
            popped.push(v);
            i = i + 1;
        }
        let mut args: Vec<Variable> = Vec::new();
        let n = popped.len();
        let mut k: usize = 0;
        while k < n
            invariant
                n == popped@.len(),
                k <= n,
                args@.len() == k,
                forall|j: int| 0 <= j < k ==> args@[j] == popped@[n - 1 - j],
            decreases n - k,
        {
            args.push(popped[n - 1 - k]);
            k = k + 1;
        }
        assert(args@ =~= popped@.reverse());
        let function = ctx.try_pop_stack_variable_top()?;
        let dest = ctx.try_push_stack_variable()?;
        let ghost av = args@;
        emit_op(ops, OP::Call { function, arguments: args, dest });
        Ok(())
    }

    fn getm_primitive(ctx: &mut BlockVariableContext, ops: &mut Vec<OP>) -> (r: Result<(), SSAError>)
        ensures
            emitted(spec_getm(old(ctx)@), r, final(ctx)@, ops_view(old(ops)@), ops_view(final(ops)@)),
    {
        let symbol = ctx.try_pop_stack_variable_top()?;
        let dest = ctx.try_push_stack_variable()?;
        emit_op(ops, OP::Getm { symbol, dest });
        Ok(())
    }

    fn aputv_primitive(ctx: &mut BlockVariableContext, ops: &mut Vec<OP>) -> (r: Result<(), SSAError>)
        ensures
            emitted(spec_aputv(old(ctx)@), r, final(ctx)@, ops_view(old(ops)@), ops_view(final(ops)@)),
    {
        let value = ctx.try_pop_stack_variable_top()?;
        let idx = ctx.try_pop_stack_variable_top()?;
        let src = ctx.try_pop_stack_variable_top()?;
        emit_op(ops, OP::Aputv { src, idx, value });
        Ok(())
    }

    fn dup_primitive(ctx: &mut BlockVariableContext, offset: u8, ops: &mut Vec<OP>) -> (r: Result<(), SSAError>)
        ensures
            emitted(spec_dup(old(ctx)@, offset), r, final(ctx)@, ops_view(old(ops)@), ops_view(final(ops)@)),
    {
        let src = ctx.try_get_stack_variable_top_offset(offset as u32)?;
        let dest = ctx.try_push_stack_variable()?;
        emit_op(ops, OP::Move { src, dest });
        Ok(())
    }

    fn agetv_primitive(ctx: &mut BlockVariableContext, ops: &mut Vec<OP>) -> (r: Result<(), SSAError>)
        ensures
            emitted(spec_agetv(old(ctx)@), r, final(ctx)@, ops_view(old(ops)@), ops_view(final(ops)@)),
    {
        let idx = ctx.try_pop_stack_variable_top()?;
        let src = ctx.try_pop_stack_variable_top()?;
        let dest = ctx.try_push_stack_variable()?;
        emit_op(ops, OP::Agetv { src, idx, dest });
        Ok(())
    }

    fn putv_primitive(ctx: &mut BlockVariableContext, ops: &mut Vec<OP>) -> (r: Result<(), SSAError>)
        ensures
            emitted(spec_putv(old(ctx)@), r, final(ctx)@, ops_view(old(ops)@), ops_view(final(ops)@)),
    {
        let src = ctx.try_pop_stack_variable_top()?;
        let symbol = ctx.try_pop_stack_variable_top()?;
        let base = ctx.try_pop_stack_variable_top()?;
        emit_op(ops, OP::Putv { src, base, symbol });
        Ok(())
    }

    fn lputv_primitive(ctx: &mut BlockVariableContext, idx: u8, ops: &mut Vec<OP>) -> (r: Result<(), SSAError>)
        ensures
            emitted(spec_lputv(old(ctx)@, idx), r, final(ctx)@, ops_view(old(ops)@), ops_view(final(ops)@)),
    {
        let src = ctx.try_pop_stack_variable_top()?;
        let dest = ctx.try_new_local_at_idx(idx)?;
        emit_op(ops, OP::Move { src, dest });
        Ok(())
    }

    fn frpush_primitive(ctx: &mut BlockVariableContext, ops: &mut Vec<OP>) -> (r: Result<(), SSAError>)
        ensures
            emitted(emit_move_push(spec_get_internal(old(ctx)@)), r, final(ctx)@, ops_view(old(ops)@), ops_view(final(ops)@)),
    {
        let src = ctx.try_get_internal()?;
        let dest = ctx.try_push_stack_variable()?;
        emit_op(ops, OP::Move { src, dest });
        Ok(())
    }

    fn popv_primitive(ctx: &mut BlockVariableContext) -> (r: Result<(), SSAError>)
        ensures
            match spec_pop(old(ctx)@) {
                Ok((s, _)) => r is Ok && final(ctx)@ == s,
                Err(e) => r == Err::<(), SSAError>(e),
            },
    {
        ctx.try_pop_stack_variable_top()?;
        Ok(())
    }
}

/// Once `n` pops fail, so do any more.
proof fn lemma_pop_n_err(s: SsaState, n: nat, m: nat)
    requires
        n <= m,
        spec_pop_n(s, n) is Err,
    ensures
        spec_pop_n(s, m) == spec_pop_n(s, n),
    decreases m - n,
{
    if n < m {
        lemma_pop_n_err(s, n, (m - 1) as nat);
    }
}

/// Two steps in a row: the operations of the second follow those of the
/// first.
proof fn lemma_chain(a: Emit, f: spec_fn(SsaState) -> Emit, r1: Result<(), SSAError>, st1: SsaState, r2: Result<(), SSAError>, st2: SsaState, o0: Seq<OPView>, o1: Seq<OPView>, o2: Seq<OPView>)
    requires
        emitted(a, r1, st1, o0, o1),
        r1 is Ok ==> emitted(f(st1), r2, st2, o1, o2),
    ensures
        r1 is Ok ==> emitted(chain(a, f), r2, st2, o0, o2),
        r1 is Err ==> emitted(chain(a, f), r1, st1, o0, o1),
{
    if r1 is Ok {
        match a {
            Ok((s1, e1)) => {
                match f(s1) {
                    Ok((s2, e2)) => {
                        assert(o2 =~= o0 + (e1 + e2));
                    },
                    Err(_) => {},
                }
            },
            Err(_) => {},
        }
    }
}

/// Simulates one instruction, appending its operations to `ops`.
fn get_operation(opcode: &Opcode, ctx: &mut BlockVariableContext, ops: &mut Vec<OP>) -> (r: Result<(), SSAError>)
    ensures
        emitted(spec_op(*opcode, old(ctx)@), r, final(ctx)@, ops_view(old(ops)@), ops_view(final(ops)@)),
{
    proof { reveal(spec_op); }
    match *opcode {
        Opcode::LGETV(idx) => OP::lgetv_primitive(ctx, idx, ops),
        Opcode::GETSELF => OP::lgetv_primitive(ctx, 0, ops),
        Opcode::LPUTV(idx) => OP::lputv_primitive(ctx, idx, ops),
        Opcode::SPUSH(symbol) => OP::spush_primitive(ctx, symbol, ops),
        Opcode::NPUSH => OP::imm_primitive(ctx, ImmediateValue::Null, ops),
        Opcode::BPUSH(x) => OP::imm_primitive(ctx, ImmediateValue::Boolean(x == 1), ops),
        Opcode::NEWS(string) => OP::imm_primitive(ctx, ImmediateValue::String(string), ops),
        Opcode::IPUSH(imm) => OP::imm_primitive(ctx, ImmediateValue::Integer(imm), ops),
        Opcode::IPUSH1(imm) => OP::imm_primitive(ctx, ImmediateValue::Integer(imm as i32), ops),
        Opcode::IPUSH2(imm) => OP::imm_primitive(ctx, ImmediateValue::Integer(imm as i32), ops),
        Opcode::IPUSH3(imm) => OP::imm_primitive(ctx, ImmediateValue::Integer(imm), ops),
        Opcode::IPUSHZ => OP::imm_primitive(ctx, ImmediateValue::Integer(0), ops),
        Opcode::DPUSH(imm) => OP::imm_primitive(ctx, ImmediateValue::Double(imm), ops),
        Opcode::DPUSHZ => OP::imm_primitive(ctx, ImmediateValue::Double(0), ops),
        Opcode::LPUSH(imm) => OP::imm_primitive(ctx, ImmediateValue::Long(imm), ops),
        Opcode::LPUSHZ => OP::imm_primitive(ctx, ImmediateValue::Long(0), ops),
        Opcode::CPUSH(imm) => OP::imm_primitive(ctx, ImmediateValue::Char(imm), ops),
        Opcode::FPUSH(imm) => OP::imm_primitive(ctx, ImmediateValue::Float(imm), ops),
        Opcode::FPUSHZ => OP::imm_primitive(ctx, ImmediateValue::Float(0), ops),
        Opcode::BTPUSH => OP::imm_primitive(ctx, ImmediateValue::Boolean(true), ops),
        Opcode::BFPUSH => OP::imm_primitive(ctx, ImmediateValue::Boolean(false), ops),
        Opcode::ADD => OP::from_binaryop(BinaryOperator::Add, ctx, ops),
        Opcode::SUB => OP::from_binaryop(BinaryOperator::Sub, ctx, ops),
        Opcode::MUL => OP::from_binaryop(BinaryOperator::Mul, ctx, ops),
        Opcode::DIV => OP::from_binaryop(BinaryOperator::Div, ctx, ops),
        Opcode::AND => OP::from_binaryop(BinaryOperator::And, ctx, ops),
        Opcode::OR => OP::from_binaryop(BinaryOperator::Or, ctx, ops),
        Opcode::MOD => OP::from_binaryop(BinaryOperator::Mod, ctx, ops),
        Opcode::SHL => OP::from_binaryop(BinaryOperator::Shl, ctx, ops),
        Opcode::SHR => OP::from_binaryop(BinaryOperator::Shr, ctx, ops),
        Opcode::XOR => OP::from_binaryop(BinaryOperator::Xor, ctx, ops),
        Opcode::EQ => OP::from_binaryop(BinaryOperator::Eq, ctx, ops),
        Opcode::LT => OP::from_binaryop(BinaryOperator::Lt, ctx, ops),
        Opcode::LTE => OP::from_binaryop(BinaryOperator::Lte, ctx, ops),
        Opcode::GT => OP::from_binaryop(BinaryOperator::Gt, ctx, ops),
        Opcode::GTE => OP::from_binaryop(BinaryOperator::Gte, ctx, ops),
        Opcode::NE => OP::from_binaryop(BinaryOperator::Ne, ctx, ops),
        Opcode::ISA => OP::from_binaryop(BinaryOperator::Isa, ctx, ops),
        Opcode::CANHAZPLZ => OP::from_binaryop(BinaryOperator::Has, ctx, ops),
        Opcode::INV => OP::from_unaryop(UnaryOperator::Inv, ctx, ops),
        Opcode::ISNULL => OP::from_unaryop(UnaryOperator::IsNull, ctx, ops),
        Opcode::ISNOTNULL => OP::from_unaryop(UnaryOperator::IsNotNull, ctx, ops),
        Opcode::NEWD => OP::from_unaryop(UnaryOperator::NewDictionary, ctx, ops),
        Opcode::NEWA => OP::from_unaryop(UnaryOperator::NewArray, ctx, ops),
        Opcode::NEWBA => OP::from_unaryop(UnaryOperator::NewByteArray, ctx, ops),
        Opcode::NEWC => OP::from_unaryop(UnaryOperator::NewClass, ctx, ops),
        Opcode::AGETV => OP::agetv_primitive(ctx, ops),
        Opcode::APUTV => OP::aputv_primitive(ctx, ops),
        Opcode::DUP(offset) => OP::dup_primitive(ctx, offset, ops),
        Opcode::GETV => OP::getv_primitive(ctx, ops),
        Opcode::PUTV => OP::putv_primitive(ctx, ops),
        Opcode::FRPUSH => OP::frpush_primitive(ctx, ops),
        Opcode::INVOKEM(count) => OP::invokem_primitive(ctx, count, ops),
        Opcode::GETM => OP::getm_primitive(ctx, ops),
        Opcode::POPV => {
            let ghost o = ops_view(ops@);
            let r = OP::popv_primitive(ctx);
            assert(o + seq![] =~= o);
            r
        },
        Opcode::INVOKEMZ | Opcode::GETSELFV(_) | Opcode::GETMV(_, _) | Opcode::GETSV(_) | Opcode::GETLOCALV(_, _) | Opcode::APUTVDUP => {
            composite_operation(*opcode, ctx, ops)
        },
        Opcode::ARGC(_) | Opcode::INCSP(_) | Opcode::ARGCINCSP(_, _) | Opcode::BT(_) | Opcode::BF(_) | Opcode::RETURN | Opcode::GOTO(_) => {
            assert(ops_view(ops@) + seq![] =~= ops_view(ops@));
            Ok(())
        },
        _ => Err(SSAError::UnsupportedOpcode(*opcode)),
    }
}

/// The instructions that stand for several primitive steps.
fn composite_operation(opcode: Opcode, ctx: &mut BlockVariableContext, ops: &mut Vec<OP>) -> (r: Result<(), SSAError>)
    requires
        opcode is INVOKEMZ || opcode is GETSELFV || opcode is GETMV || opcode is GETSV || opcode is GETLOCALV || opcode is APUTVDUP,
    ensures
        emitted(spec_op(opcode, old(ctx)@), r, final(ctx)@, ops_view(old(ops)@), ops_view(final(ops)@)),
{
    proof { reveal(spec_op); }
    let ghost s0 = ctx@;
    let ghost o0 = ops_view(ops@);
    match opcode {
        Opcode::INVOKEMZ => {
            let r1 = OP::lgetv_primitive(ctx, 0, ops);
            let ghost s1 = ctx@;
            let ghost o1 = ops_view(ops@);
            if r1.is_err() {
                proof { lemma_chain(spec_lgetv(s0, 0), |x: SsaState| spec_invokem(x, 1), r1, s1, r1, s1, o0, o1, o1); }
                return r1;
            }
            let r2 = OP::invokem_primitive(ctx, 1, ops);
            proof { lemma_chain(spec_lgetv(s0, 0), |x: SsaState| spec_invokem(x, 1), r1, s1, r2, ctx@, o0, o1, ops_view(ops@)); }
            r2
        },
        Opcode::GETSELFV(symbol) => {
            let ghost g: spec_fn(SsaState) -> Emit = |x: SsaState| spec_getv(x);
            let ghost f: spec_fn(SsaState) -> Emit = |x: SsaState| chain(spec_spush(x, symbol), g);
            let r1 = OP::lgetv_primitive(ctx, 0, ops);
            let ghost s1 = ctx@;
            let ghost o1 = ops_view(ops@);
            if r1.is_err() {
                proof { lemma_chain(spec_lgetv(s0, 0), f, r1, s1, r1, s1, o0, o1, o1); }
                return r1;
            }
            let r2 = OP::spush_primitive(ctx, symbol, ops);
            let ghost s2 = ctx@;
            let ghost o2 = ops_view(ops@);
            if r2.is_err() {
                proof {
                    lemma_chain(spec_spush(s1, symbol), g, r2, s2, r2, s2, o1, o2, o2);
                    lemma_chain(spec_lgetv(s0, 0), f, r1, s1, r2, s2, o0, o1, o2);
                }
                return r2;
            }
            let r3 = OP::getv_primitive(ctx, ops);
            proof {
                lemma_chain(spec_spush(s1, symbol), g, r2, s2, r3, ctx@, o1, o2, ops_view(ops@));
                lemma_chain(spec_lgetv(s0, 0), f, r1, s1, r3, ctx@, o0, o1, ops_view(ops@));
            }
            r3
        },
        Opcode::GETSV(symbol) => {
            let ghost g: spec_fn(SsaState) -> Emit = |x: SsaState| spec_getv(x);
            let r1 = OP::spush_primitive(ctx, symbol, ops);
            let ghost s1 = ctx@;
            let ghost o1 = ops_view(ops@);
            if r1.is_err() {
                proof { lemma_chain(spec_spush(s0, symbol), g, r1, s1, r1, s1, o0, o1, o1); }
                return r1;
            }
            let r2 = OP::getv_primitive(ctx, ops);
            proof { lemma_chain(spec_spush(s0, symbol), g, r1, s1, r2, ctx@, o0, o1, ops_view(ops@)); }
            r2
        },
        Opcode::GETLOCALV(idx, symbol) => {
            let ghost g: spec_fn(SsaState) -> Emit = |x: SsaState| spec_getv(x);
            let ghost f: spec_fn(SsaState) -> Emit = |x: SsaState| chain(spec_spush(x, symbol), g);
            let r1 = OP::lgetv_primitive(ctx, idx, ops);
            let ghost s1 = ctx@;
            let ghost o1 = ops_view(ops@);
            if r1.is_err() {
                proof { lemma_chain(spec_lgetv(s0, idx), f, r1, s1, r1, s1, o0, o1, o1); }
                return r1;
            }
            let r2 = OP::spush_primitive(ctx, symbol, ops);
            let ghost s2 = ctx@;
            let ghost o2 = ops_view(ops@);
            if r2.is_err() {
                proof {
                    lemma_chain(spec_spush(s1, symbol), g, r2, s2, r2, s2, o1, o2, o2);
                    lemma_chain(spec_lgetv(s0, idx), f, r1, s1, r2, s2, o0, o1, o2);
                }
                return r2;
            }
            let r3 = OP::getv_primitive(ctx, ops);
            proof {
                lemma_chain(spec_spush(s1, symbol), g, r2, s2, r3, ctx@, o1, o2, ops_view(ops@));
                lemma_chain(spec_lgetv(s0, idx), f, r1, s1, r3, ctx@, o0, o1, ops_view(ops@));
            }
            r3
        },
        Opcode::GETMV(symbol1, symbol2) => {
            let ghost h: spec_fn(SsaState) -> Emit = |x: SsaState| spec_getv(x);
            let ghost g: spec_fn(SsaState) -> Emit = |x: SsaState| chain(spec_spush(x, symbol2), h);
            let ghost f: spec_fn(SsaState) -> Emit = |x: SsaState| chain(spec_getm(x), g);
            let r1 = OP::spush_primitive(ctx, symbol1, ops);
            let ghost s1 = ctx@;
            let ghost o1 = ops_view(ops@);
            if r1.is_err() {
                proof { lemma_chain(spec_spush(s0, symbol1), f, r1, s1, r1, s1, o0, o1, o1); }
                return r1;
            }
            let r2 = OP::getm_primitive(ctx, ops);
            let ghost s2 = ctx@;
            let ghost o2 = ops_view(ops@);
            if r2.is_err() {
                proof {
                    lemma_chain(spec_getm(s1), g, r2, s2, r2, s2, o1, o2, o2);
                    lemma_chain(spec_spush(s0, symbol1), f, r1, s1, r2, s2, o0, o1, o2);
                }
                return r2;
            }
            let r3 = OP::spush_primitive(ctx, symbol2, ops);
            let ghost s3 = ctx@;
            let ghost o3 = ops_view(ops@);
            if r3.is_err() {
                proof {
                    lemma_chain(spec_spush(s2, symbol2), h, r3, s3, r3, s3, o2, o3, o3);
                    lemma_chain(spec_getm(s1), g, r2, s2, r3, s3, o1, o2, o3);
                    lemma_chain(spec_spush(s0, symbol1), f, r1, s1, r3, s3, o0, o1, o3);
                }
                return r3;
            }
            let r4 = OP::getv_primitive(ctx, ops);
            proof {
                lemma_chain(spec_spush(s2, symbol2), h, r3, s3, r4, ctx@, o2, o3, ops_view(ops@));
                lemma_chain(spec_getm(s1), g, r2, s2, r4, ctx@, o1, o2, ops_view(ops@));
                lemma_chain(spec_spush(s0, symbol1), f, r1, s1, r4, ctx@, o0, o1, ops_view(ops@));
            }
            r4
        },
        _ => {
            let ghost g: spec_fn(SsaState) -> Emit = |x: SsaState| spec_dup(x, 1);
            let r1 = OP::aputv_primitive(ctx, ops);
            let ghost s1 = ctx@;
            let ghost o1 = ops_view(ops@);
            if r1.is_err() {
                proof { lemma_chain(spec_aputv(s0), g, r1, s1, r1, s1, o0, o1, o1); }
                return r1;
            }
            let r2 = OP::dup_primitive(ctx, 1, ops);
            proof { lemma_chain(spec_aputv(s0), g, r1, s1, r2, ctx@, o0, o1, ops_view(ops@)); }
            r2
        },
    }
}

/// How control leaves an SSA block; targets are block indices.
#[derive(Debug, Clone, Copy, PartialEq, Eq, Structural)]
pub enum SSATerminator {
    Jump { target: usize },
    BranchTrue { test: Variable, target_true: usize, target_false: usize },
    Return { var: Variable },
}

/// A block in SSA form.
pub struct SSABlock {
    pub name: String,
    pub start_depth: u32,
    pub ops: Vec<OP>,
    pub terminator: SSATerminator,
}

/// The abstract value of an SSA block.
pub struct SSABlockView {
    pub name: Seq<char>,
    pub start_depth: u32,
    pub ops: Seq<OPView>,
    pub terminator: SSATerminator,
}

impl View for SSABlock {
    type V = SSABlockView;

    open spec fn view(&self) -> SSABlockView {
        SSABlockView { name: self.name@, start_depth: self.start_depth, ops: ops_view(self.ops@), terminator: self.terminator }
    }
}

/// A function in SSA form: the blocks that are reached from the first one,
/// in the order of the disassembly.
pub struct SSAFunction {
    pub blocks: Vec<SSABlock>,
}

impl View for SSAFunction {
    type V = Seq<SSABlockView>;

    open spec fn view(&self) -> Seq<SSABlockView> {
        self.blocks@.map_values(|b: SSABlock| b@)
    }
}

/// The instructions of a block simulated from position `i` on.
pub open spec fn spec_block_ops(items: Seq<Opcode>, s: SsaState, i: int) -> Emit
    decreases items.len() - i,
{
    if i < 0 || i >= items.len() {
        Ok((s, seq![]))
    } else {
        match spec_op(items[i], s) {
            Err(e) => Err(e),
            Ok((s1, e1)) => match spec_block_ops(items, s1, i + 1) {
                Err(e) => Err(e),
                Ok((s2, e2)) => Ok((s2, e1 + e2)),
            },
        }
    }
}

/// A simulated block keeps the disassembly block's exits and reads them off
/// the stack as its instructions leave it: a branch tests the value on top
/// and enters both its targets one slot lower, the true target first; a
/// return gives back the value on top; a jump enters its target at the
/// depth the instructions leave. The block is entered at `depth`.
pub proof fn lemma_block_exits_from_stack(d: Seq<BlockView>, b: usize, depth: u32, c: CtxView)
    ensures
        spec_simulate_block(d, b, depth, c) matches Ok((c2, blk, pushes)) ==> {
            &&& spec_block_emit(d[b as int].container.items, b == 0, SsaState { ctx: c, sp: depth }) is Ok
            &&& blk.start_depth == depth
            &&& blk.ops == spec_block_emit(d[b as int].container.items, b == 0, SsaState { ctx: c, sp: depth })->Ok_0.1
            &&& ({
                let s1 = spec_block_emit(d[b as int].container.items, b == 0, SsaState { ctx: c, sp: depth })->Ok_0.0;
                match d[b as int].terminator {
                    DisassemblyTerminator::Jump { target } => blk.terminator == SSATerminator::Jump { target }
                        && pushes == seq![(target, s1.sp)],
                    DisassemblyTerminator::BranchTrue { target_true, target_false } => s1.sp >= 1
                        && blk.terminator == (SSATerminator::BranchTrue { test: slot_variable(s1, s1.sp), target_true, target_false })
                        && pushes == seq![(target_true, (s1.sp - 1) as u32), (target_false, (s1.sp - 1) as u32)],
                    DisassemblyTerminator::Return => s1.sp >= 1
                        && blk.terminator == (SSATerminator::Return { var: slot_variable(s1, s1.sp) })
                        && pushes.len() == 0,
                }
            })
        },
{
    reveal(spec_simulate_block);
}

/// The name of the SSA block made of disassembly block `b`.
pub open spec fn ssa_block_name(b: usize) -> Seq<char> {
    seq!['b', 'l', 'o', 'c', 'k', '_'] + spec_decimal(b as nat)
}

#[verifier::opaque]
/// Simulating disassembly block `b`, entered at stack depth `depth` with
/// counters `c`: the first block starts by pushing a null; the instructions
/// follow; a branch pops its test and a return its value. Yields the
/// counters after it, the SSA block, and the blocks it leads to with the
/// depth they are entered at.
pub open spec fn spec_simulate_block(d: Seq<BlockView>, b: usize, depth: u32, c: CtxView) -> Result<(CtxView, SSABlockView, Seq<(usize, u32)>), SSAError> {
    match spec_block_emit(d[b as int].container.items, b == 0, SsaState { ctx: c, sp: depth }) {
        Err(e) => Err(e),
        Ok((s1, ops)) => match d[b as int].terminator {
            DisassemblyTerminator::Jump { target } => Ok((
                s1.ctx,
                SSABlockView { name: ssa_block_name(b), start_depth: depth, ops, terminator: SSATerminator::Jump { target } },
                seq![(target, s1.sp)],
            )),
            DisassemblyTerminator::BranchTrue { target_true, target_false } => match spec_pop(s1) {
                Err(e) => Err(e),
                Ok((s2, test)) => Ok((
                    s2.ctx,
                    SSABlockView {
                        name: ssa_block_name(b),
                        start_depth: depth,
                        ops,
                        terminator: SSATerminator::BranchTrue { test, target_true, target_false },
                    },
                    seq![(target_true, s2.sp), (target_false, s2.sp)],
                )),
            },
            DisassemblyTerminator::Return => match spec_pop(s1) {
                Err(e) => Err(e),
                Ok((s2, var)) => Ok((
                    s2.ctx,
                    SSABlockView { name: ssa_block_name(b), start_depth: depth, ops, terminator: SSATerminator::Return { var } },
                    seq![],
                )),
            },
        },
    }
}

/// The operations of a block's instructions, after a pushed null in the
/// first block.
pub open spec fn spec_block_emit(items: Seq<Opcode>, first: bool, s0: SsaState) -> Emit {
    let pre: Emit = if first { spec_imm(s0, ImmediateValue::Null) } else { Ok((s0, seq![])) };
    match pre {
        Err(e) => Err(e),
        Ok((s1, a)) => match spec_block_ops(items, s1, 0) {
            Err(e) => Err(e),
            Ok((s2, b)) => Ok((s2, a + b)),
        },
    }
}

/// The state of the search: the blocks done so far (by index), the blocks
/// still to visit with their entry depths, and the counters.
pub struct Worklist {
    pub done: Seq<Option<SSABlockView>>,
    pub queue: Seq<(usize, u32)>,
    pub ctx: CtxView,
}

/// The number of blocks not done yet.
pub open spec fn count_none<T>(s: Seq<Option<T>>) -> nat
    decreases s.len(),
{
    if s.len() == 0 {
        0
    } else {
        count_none(s.drop_last()) + if s.last() is None { 1nat } else { 0nat }
    }
}

/// The number of blocks done among the first `s.len()`.
pub open spec fn count_some<T>(s: Seq<Option<T>>) -> nat
    decreases s.len(),
{
    if s.len() == 0 {
        0
    } else {
        count_some(s.drop_last()) + if s.last() is Some { 1nat } else { 0nat }
    }
}

/// One step of the search: the first queued block is checked against its
/// earlier visit, or simulated.
pub open spec fn spec_step(d: Seq<BlockView>, w: Worklist) -> Result<Worklist, SSAError> {
    let b = w.queue[0].0;
    let depth = w.queue[0].1;
    let rest = w.queue.drop_first();
    if b < w.done.len() && w.done[b as int] is Some {
        if w.done[b as int]->0.start_depth != depth {
            Err(SSAError::UnbalancedStack)
        } else {
            Ok(Worklist { done: w.done, queue: rest, ctx: w.ctx })
        }
    } else if b >= d.len() || b >= w.done.len() {
        Err(SSAError::BlockOutOfRange)
    } else {
        match spec_simulate_block(d, b, depth, w.ctx) {
            Err(e) => Err(e),
            Ok((c, blk, pushes)) => Ok(Worklist { done: w.done.update(b as int, Some(blk)), queue: rest + pushes, ctx: c }),
        }
    }
}

/// What the search measures its progress by.
pub open spec fn measure(w: Worklist) -> nat {
    3 * count_none(w.done) + w.queue.len()
}

pub proof fn lemma_count_none_update<T>(s: Seq<Option<T>>, i: int, x: T)
    requires
        0 <= i < s.len(),
        s[i] is None,
    ensures
        count_none(s.update(i, Some(x))) + 1 == count_none(s),
    decreases s.len(),
{
    let t = s.update(i, Some(x));
    if i == s.len() - 1 {
        assert(t.drop_last() =~= s.drop_last());
    } else {
        assert(t.drop_last() =~= s.drop_last().update(i, Some(x)));
        lemma_count_none_update(s.drop_last(), i, x);
    }
}

/// A block leads to at most two others.
pub proof fn lemma_simulate_pushes(d: Seq<BlockView>, b: usize, depth: u32, c: CtxView)
    ensures
        spec_simulate_block(d, b, depth, c) matches Ok((_, _, p)) ==> p.len() <= 2,
{
    reveal(spec_simulate_block);
}

/// Each step of the search brings it closer to its end.
pub proof fn lemma_step_decreases(d: Seq<BlockView>, w: Worklist)
    requires
        w.queue.len() > 0,
    ensures
        spec_step(d, w) matches Ok(w2) ==> measure(w2) < measure(w),
{
    let b = w.queue[0].0;
    if !(b < w.done.len() && w.done[b as int] is Some) && b < d.len() && b < w.done.len() {
        match spec_simulate_block(d, b, w.queue[0].1, w.ctx) {
            Ok((c, blk, pushes)) => {
                lemma_simulate_pushes(d, b, w.queue[0].1, w.ctx);
                lemma_count_none_update(w.done, b as int, blk);
            },
            Err(_) => {},
        }
    }
}

/// The search run to its end: the blocks done, by index.
pub open spec fn spec_run(d: Seq<BlockView>, w: Worklist) -> Result<Seq<Option<SSABlockView>>, SSAError>
    decreases measure(w),
{
    if w.queue.len() == 0 {
        Ok(w.done)
    } else {
        match spec_step(d, w) {
            Err(e) => Err(e),
            Ok(w2) => {
                proof { lemma_step_decreases(d, w); }
                spec_run(d, w2)
            },
        }
    }
}

/// Where a block done at index `t` lands once the blocks never reached are
/// left out.
pub open spec fn remap_target(done: Seq<Option<SSABlockView>>, t: usize) -> Option<usize> {
    if t < done.len() && done[t as int] is Some {
        Some(count_some(done.take(t as int)) as usize)
    } else {
        None
    }
}

pub open spec fn remap_terminator(done: Seq<Option<SSABlockView>>, t: SSATerminator) -> Option<SSATerminator> {
    match t {
        SSATerminator::Jump { target } => match remap_target(done, target) {
            Some(n) => Some(SSATerminator::Jump { target: n }),
            None => None,
        },
        SSATerminator::BranchTrue { test, target_true, target_false } => match (remap_target(done, target_true), remap_target(done, target_false)) {
            (Some(a), Some(b)) => Some(SSATerminator::BranchTrue { test, target_true: a, target_false: b }),
            _ => None,
        },
        SSATerminator::Return { var } => Some(t),
    }
}

/// The blocks done from index `i` on, in index order, their targets remapped.
pub open spec fn spec_finalize(done: Seq<Option<SSABlockView>>, i: int) -> Result<Seq<SSABlockView>, SSAError>
    decreases done.len() - i,
{
    if i < 0 || i >= done.len() {
        Ok(seq![])
    } else {
        match done[i] {
            None => spec_finalize(done, i + 1),
            Some(blk) => match remap_terminator(done, blk.terminator) {
                None => Err(SSAError::BlockOutOfRange),
                Some(t) => match spec_finalize(done, i + 1) {
                    Err(e) => Err(e),
                    Ok(rest) => Ok(seq![SSABlockView { name: blk.name, start_depth: blk.start_depth, ops: blk.ops, terminator: t }] + rest),
                },
            },
        }
    }
}

proof fn lemma_count_some_front<T>(s: Seq<Option<T>>)
    requires
        s.len() > 0,
    ensures
        count_some(s) == (if s[0] is Some { 1nat } else { 0nat }) + count_some(s.drop_first()),
    decreases s.len(),
{
    if s.len() > 1 {
        lemma_count_some_front(s.drop_last());
        assert(s.drop_last().drop_first() =~= s.drop_first().drop_last());
        assert(s.drop_first().last() == s.last());
        assert(s.drop_last()[0] == s[0]);
        assert(count_some(s) == count_some(s.drop_last()) + if s.last() is Some { 1nat } else { 0nat });
        assert(count_some(s.drop_first()) == count_some(s.drop_first().drop_last()) + if s.drop_first().last() is Some { 1nat } else { 0nat });
    } else {
        assert(s.drop_first().len() == 0);
        assert(s.drop_last().len() == 0);
        assert(s.last() == s[0]);
        assert(count_some(s) == count_some(s.drop_last()) + if s.last() is Some { 1nat } else { 0nat });
    }
}

proof fn lemma_count_some_le<T>(s: Seq<Option<T>>)
    ensures
        count_some(s) <= s.len(),
    decreases s.len(),
{
    if s.len() > 0 {
        lemma_count_some_le(s.drop_last());
    }
}

/// The block done at `k` and the block at `n` of the result agree: the same
/// name, entry depth and operations, and the terminator remapped.
pub open spec fn lands_at(done: Seq<Option<SSABlockView>>, out: Seq<SSABlockView>, k: int, n: int) -> bool {
    &&& 0 <= n < out.len()
    &&& out[n].name == done[k]->0.name
    &&& out[n].start_depth == done[k]->0.start_depth
    &&& out[n].ops == done[k]->0.ops
    &&& remap_terminator(done, done[k]->0.terminator) == Some(out[n].terminator)
}

proof fn lemma_finalize_from(done: Seq<Option<SSABlockView>>, i: int)
    requires
        0 <= i <= done.len(),
    ensures
        spec_finalize(done, i) matches Ok(out) ==> {
            &&& out.len() == count_some(done.subrange(i, done.len() as int))
            &&& forall|k: int| i <= k < done.len() && (#[trigger] done[k]) is Some
                ==> lands_at(done, out, k, count_some(done.subrange(i, k)) as int)
        },
    decreases done.len() - i,
{
    if i < done.len() {
        lemma_finalize_from(done, i + 1);
        let whole = done.subrange(i, done.len() as int);
        lemma_count_some_front(whole);
        assert(whole.drop_first() =~= done.subrange(i + 1, done.len() as int));
        if let Ok(out) = spec_finalize(done, i) {
            assert forall|k: int| i <= k < done.len() && (#[trigger] done[k]) is Some
                implies lands_at(done, out, k, count_some(done.subrange(i, k)) as int) by {
                if k == i {
                    assert(done.subrange(i, k).len() == 0);
                } else {
                    let part = done.subrange(i, k);
                    lemma_count_some_front(part);
                    assert(part.drop_first() =~= done.subrange(i + 1, k));
                }
            }
        }
    } else {
        assert(done.subrange(i, done.len() as int).len() == 0);
    }
}

/// The SSA form lists the blocks the search reached, in their order in the
/// disassembly and renumbered by it: the block reached at index `k` stands
/// at the place that `remap_target` gives `k`, with its name, entry depth
/// and operations, and its terminator's targets renumbered the same way.
#[verifier::rlimit(50)]
pub proof fn lemma_ssa_renumbers(d: Seq<BlockView>)
    ensures
        spec_ssa(d) matches Ok(out) ==> {
            let done = spec_run(d, initial_worklist(d.len()))->Ok_0;
            &&& out.len() == count_some(done)
            &&& forall|k: usize| (k as int) < done.len() && (#[trigger] done[k as int]) is Some
                ==> (remap_target(done, k) matches Some(n) && lands_at(done, out, k as int, n as int))
        },
{
    let r = spec_run(d, initial_worklist(d.len()));
    if let Ok(done) = r {
        lemma_finalize_from(done, 0);
        assert(done.subrange(0, done.len() as int) =~= done);
        if let Ok(out) = spec_finalize(done, 0) {
            assert forall|k: usize| (k as int) < done.len() && (#[trigger] done[k as int]) is Some
                implies (remap_target(done, k) matches Some(n) && lands_at(done, out, k as int, n as int)) by {
                assert(done.take(k as int) =~= done.subrange(0, k as int));
                lemma_count_some_le(done.take(k as int));
                assert(lands_at(done, out, k as int, count_some(done.subrange(0, k as int)) as int));
            }
        }
    }
}

/// The empty counters.
pub open spec fn empty_ctx() -> CtxView {
    CtxView { stack: Map::empty(), local: Map::empty(), internal: None }
}

/// The search before its first step: nothing done, the first block queued
/// at depth 0, no counters.
pub open spec fn initial_worklist(n: nat) -> Worklist {
    Worklist { done: Seq::new(n, |i: int| None::<SSABlockView>), queue: seq![(0usize, 0u32)], ctx: empty_ctx() }
}

/// The SSA form of a disassembled function: a search from the first block,
/// entered at depth 0, through the blocks each one leads to, with counters
/// shared by all blocks; every block must be entered at one depth only.
pub open spec fn spec_ssa(d: Seq<BlockView>) -> Result<Seq<SSABlockView>, SSAError> {
    match spec_run(d, initial_worklist(d.len())) {
        Err(e) => Err(e),
        Ok(done) => spec_finalize(done, 0),
    }
}

/// The simulation aborts on this function rather than reporting an error.
pub open spec fn ssa_aborts(r: Result<Seq<SSABlockView>, SSAError>) -> bool {
    r matches Err(e) && e != SSAError::UnbalancedStack
}

/// The blocks done so far, by index, as the search records them.
pub open spec fn done_view(m: Map<usize, SSABlock>, n: nat) -> Seq<Option<SSABlockView>> {
    Seq::new(n, |i: int| if m.contains_key(i as usize) { Some(m[i as usize]@) } else { None })
}

/// Simulates disassembly block `b`, entered at depth `depth`.
fn simulate_block(disassembly_function: &DisassemblyFunction, b: usize, depth: u32, ctx: FunctionVariableContext) -> (r: Result<(FunctionVariableContext, SSABlock, Vec<(usize, u32)>), SSAError>)
    requires
        b < disassembly_function@.len(),
    ensures
        match spec_simulate_block(disassembly_function@, b, depth, ctx@) {
            Ok((c, blk, pushes)) => r matches Ok((c2, blk2, p2)) && c2@ == c && blk2@ == blk && p2@ == pushes,
            Err(e) => r matches Err(e2) && e2 == e,
        },
{
    proof { reveal(spec_simulate_block); }
    let ghost d = disassembly_function@;
    let disas_block = &disassembly_function.blocks[b];
    assert(disas_block@ == d[b as int]);
    let ghost items = d[b as int].container.items;
    let mut block_ctx = ctx.new_block_context(depth);
    let mut ops: Vec<OP> = Vec::new();
    let ghost s0 = block_ctx@;
    let ghost pre: Emit = if b == 0 { spec_imm(s0, ImmediateValue::Null) } else { Ok((s0, seq![])) };
    if b == 0 {
        let r0 = OP::imm_primitive(&mut block_ctx, ImmediateValue::Null, &mut ops);
        if let Err(e) = r0 {
            return Err(e);
        }
        assert(ops_view(ops@) =~= seq![] + ops_view(ops@));
    } else {
        assert(ops_view(ops@) =~= seq![]);
    }
    assert(pre matches Ok((s1, e1)) && s1 == block_ctx@ && e1 == ops_view(ops@));
    let entries = disas_block.container.iter();
    assert(forall|j: int| 0 <= j < entries@.len() ==> *entries@[j].1 == disas_block.container@.items[j]);
    let mut i: usize = 0;
    while i < entries.len()
        invariant
            items == disas_block@.container.items,
            entries@.len() == items.len(),
            forall|j: int| 0 <= j < entries@.len() ==> *entries@[j].1 == items[j],
            i <= entries@.len(),
            s0 == (SsaState { ctx: ctx@, sp: depth }),
            d == disassembly_function@,
            b < d.len(),
            disas_block@ == d[b as int],
            spec_block_emit(items, b == 0, s0) == (match spec_block_ops(items, block_ctx@, i as int) {
                Ok((sf, rest)) => Ok((sf, ops_view(ops@) + rest)),
                Err(e) => Err::<(SsaState, Seq<OPView>), SSAError>(e),
            }),
        decreases entries@.len() - i,
    {
        let ghost st = block_ctx@;
        let ghost o = ops_view(ops@);
        let r = get_operation(entries[i].1, &mut block_ctx, &mut ops);
        if let Err(e) = r {
            assert(spec_block_ops(items, st, i as int) == Err::<(SsaState, Seq<OPView>), SSAError>(e));
            proof { reveal(spec_simulate_block); }
            return Err(e);
        }
        proof {
            match spec_op(items[i as int], st) {
                Ok((s1, e1)) => {
                    match spec_block_ops(items, s1, i + 1) {
                        Ok((s2, e2)) => {
                            assert(o + (e1 + e2) =~= (o + e1) + e2);
                        },
                        Err(_) => {},
                    }
                },
                Err(_) => {},
            }
        }
        i = i + 1;
    }
    assert(ops_view(ops@) + seq![] =~= ops_view(ops@));
    let ghost body = ops_view(ops@);
    let (terminator, pushes) = match disas_block.terminator {
        DisassemblyTerminator::Jump { target } => {
            let sp = block_ctx.get_sp();
            (SSATerminator::Jump { target }, vec![(target, sp)])
        },
        DisassemblyTerminator::BranchTrue { target_true, target_false } => {
            let test = block_ctx.try_pop_stack_variable_top()?;
            let sp = block_ctx.get_sp();
            (SSATerminator::BranchTrue { test, target_true, target_false }, vec![(target_true, sp), (target_false, sp)])
        },
        DisassemblyTerminator::Return => {
            let var = block_ctx.try_pop_stack_variable_top()?;
            (SSATerminator::Return { var }, vec![])
        },
    };
    let name = prefixed_decimal("block_", b);
    proof {
        reveal_strlit("block_");
        assert(name@ =~= ssa_block_name(b));
    }
    let block = SSABlock { name, start_depth: depth, ops, terminator };
    Ok((block_ctx.into_function_context(), block, pushes))
}

/// Puts a disassembled function into SSA form, where the simulation does
/// not abort.
pub fn perform_ssa_function(disassembly_function: &DisassemblyFunction) -> (r: Result<SSAFunction, SSAError>)
    requires
        !ssa_aborts(spec_ssa(disassembly_function@)),
    ensures
        match spec_ssa(disassembly_function@) {
            Ok(bs) => r matches Ok(f) && f@ == bs,
            Err(e) => r matches Err(e2) && e2 == e,
        },
{
    try_perform_ssa_function(disassembly_function)
}

/// Puts a disassembled function into SSA form; a program that the
/// simulation cannot run is reported by the error that stops it.
pub fn try_perform_ssa_function(disassembly_function: &DisassemblyFunction) -> (r: Result<SSAFunction, SSAError>)
    ensures
        match spec_ssa(disassembly_function@) {
            Ok(bs) => r matches Ok(f) && f@ == bs,
            Err(e) => r matches Err(e2) && e2 == e,
        },
{
    let ghost d = disassembly_function@;
    let n = disassembly_function.blocks.len();
    let mut ssa_blocks: BTreeMap<usize, SSABlock> = BTreeMap::new();
    let mut search_deque: VecDeque<(usize, u32)> = VecDeque::new();
    search_deque.push_back((0, 0));
    let mut function_ctx = FunctionVariableContext::new_ctx();
    let ghost init = initial_worklist(d.len());
    assert(done_view(ssa_blocks@, n as nat) =~= init.done);
    assert(search_deque@ =~= seq![(0usize, 0u32)]);
    assert(function_ctx@ == empty_ctx());
    while search_deque.len() > 0
        invariant
            d == disassembly_function@,
            n == d.len(),
            forall|k: usize| ssa_blocks@.contains_key(k) ==> k < n,
            init == initial_worklist(d.len()),
            spec_run(d, init) == spec_run(d, Worklist { done: done_view(ssa_blocks@, n as nat), queue: search_deque@, ctx: function_ctx@ }),
        decreases measure(Worklist { done: done_view(ssa_blocks@, n as nat), queue: search_deque@, ctx: function_ctx@ }),
    {
        let ghost w = Worklist { done: done_view(ssa_blocks@, n as nat), queue: search_deque@, ctx: function_ctx@ };
        proof { lemma_step_decreases(d, w); }
        let (b, depth) = search_deque.pop_front().unwrap();
        assert(search_deque@ =~= w.queue.drop_first());
        assert((b, depth) == w.queue[0]);
        match index_get(&ssa_blocks, b) {
            Some(existing) => {
                assert(b < n);
                assert(w.done[b as int] == Some(existing@));
                if existing.start_depth != depth {
                    assert(spec_step(d, w) == Err::<Worklist, SSAError>(SSAError::UnbalancedStack));
                    assert(spec_run(d, w) == Err::<Seq<Option<SSABlockView>>, SSAError>(SSAError::UnbalancedStack));
                    return Err(SSAError::UnbalancedStack);
                }
                assert(spec_step(d, w) == Ok::<Worklist, SSAError>(Worklist { done: w.done, queue: search_deque@, ctx: w.ctx }));
                continue;
            },
            None => {},
        }
        assert(b < n ==> w.done[b as int] is None);
        if b >= n {
            assert(spec_step(d, w) == Err::<Worklist, SSAError>(SSAError::BlockOutOfRange));
            assert(spec_run(d, w) == Err::<Seq<Option<SSABlockView>>, SSAError>(SSAError::BlockOutOfRange));
            return Err(SSAError::BlockOutOfRange);
        }
        let sim = simulate_block(disassembly_function, b, depth, function_ctx);
        let (c, blk, pushes) = match sim {
            Ok(x) => x,
            Err(e) => {
                assert(spec_step(d, w) == Err::<Worklist, SSAError>(e));
                assert(spec_run(d, w) == Err::<Seq<Option<SSABlockView>>, SSAError>(e));
                return Err(e);
            },
        };
        function_ctx = c;
        let ghost bv = blk@;
        index_insert(&mut ssa_blocks, b, blk);
        assert(done_view(ssa_blocks@, n as nat) =~= w.done.update(b as int, Some(bv)));
        let ghost q0 = search_deque@;
        let mut j: usize = 0;
        while j < pushes.len()
            invariant
                j <= pushes@.len(),
                search_deque@ == q0 + pushes@.subrange(0, j as int),
            decreases pushes@.len() - j,
        {
            search_deque.push_back(pushes[j]);
            assert(q0 + pushes@.subrange(0, j + 1) =~= (q0 + pushes@.subrange(0, j as int)).push(pushes@[j as int]));
            j = j + 1;
        }
        assert(pushes@.subrange(0, pushes@.len() as int) =~= pushes@);
    }
    let ghost done = done_view(ssa_blocks@, n as nat);
    assert(spec_run(d, init) == Ok::<Seq<Option<SSABlockView>>, SSAError>(done));
    assert(spec_ssa(d) == spec_finalize(done, 0));
    let mut mapper: Vec<Option<usize>> = Vec::new();
    let mut count: usize = 0;
    let mut i: usize = 0;
    while i < n
        invariant
            n == done.len(),
            done == done_view(ssa_blocks@, n as nat),
            i <= n,
            count <= i,
            count == count_some(done.take(i as int)),
            mapper@.len() == i,
            forall|j: int| 0 <= j < i ==> mapper@[j] == remap_target(done, j as usize),
        decreases n - i,
    {
        assert(done.take(i + 1).drop_last() =~= done.take(i as int));
        if index_get(&ssa_blocks, i).is_some() {
            mapper.push(Some(count));
            count = count + 1;
        } else {
            mapper.push(None);
        }
        i = i + 1;
    }
    let mut mapped_blocks: Vec<SSABlock> = Vec::new();
    let mut i: usize = 0;
    while i < n
        invariant
            n == done.len(),
            mapper@.len() == n,
            forall|j: int| 0 <= j < n ==> mapper@[j] == remap_target(done, j as usize),
            d == disassembly_function@,
            spec_ssa(d) == spec_finalize(done, 0),
            i <= n,
            forall|j: int| i <= j < n ==> done_view(ssa_blocks@, n as nat)[j] == done[j],
            spec_finalize(done, 0) == (match spec_finalize(done, i as int) {
                Ok(rest) => Ok(mapped_blocks@.map_values(|b: SSABlock| b@) + rest),
                Err(e) => Err::<Seq<SSABlockView>, SSAError>(e),
            }),
        decreases n - i,
    {
        let ghost sb = ssa_blocks@;
        assert(done_view(sb, n as nat)[i as int] == done[i as int]);
        let slot = index_remove(&mut ssa_blocks, i);
        assert forall|j: int| i + 1 <= j < n implies done_view(ssa_blocks@, n as nat)[j] == done[j] by {
            assert(done_view(sb, n as nat)[j] == done[j]);
            assert(ssa_blocks@.contains_key(j as usize) == sb.contains_key(j as usize));
        }
        match slot {
            None => {},
            Some(block) => {
                let ghost bv = block@;
                assert(done[i as int] == Some(bv));
                let terminator = match block.terminator {
                    SSATerminator::Jump { target } => {
                        let t = if target < n { mapper[target] } else { None };
                        match t {
                            Some(t) => SSATerminator::Jump { target: t },
                            None => return Err(SSAError::BlockOutOfRange),
                        }
                    },
                    SSATerminator::BranchTrue { test, target_true, target_false } => {
                        let a = if target_true < n { mapper[target_true] } else { None };
                        let c = if target_false < n { mapper[target_false] } else { None };
                        match (a, c) {
                            (Some(a), Some(c)) => SSATerminator::BranchTrue { test, target_true: a, target_false: c },
                            _ => return Err(SSAError::BlockOutOfRange),
                        }
                    },
                    SSATerminator::Return { var } => SSATerminator::Return { var },
                };
                let ghost before = mapped_blocks@.map_values(|b: SSABlock| b@);
                let nb = SSABlock { name: block.name, start_depth: block.start_depth, ops: block.ops, terminator };
                let ghost nbv = nb@;
                mapped_blocks.push(nb);
                proof {
                    assert(mapped_blocks@.map_values(|b: SSABlock| b@) =~= before.push(nbv));
                    match spec_finalize(done, i + 1) {
                        Ok(rest) => {
                            assert(before + (seq![nbv] + rest) =~= before.push(nbv) + rest);
                        },
                        Err(_) => {},
                    }
                }
            },
        }
        i = i + 1;
    }
    assert(mapped_blocks@.map_values(|b: SSABlock| b@) + seq![] =~= mapped_blocks@.map_values(|b: SSABlock| b@));
    Ok(SSAFunction { blocks: mapped_blocks })
}

impl TInstruction for OP {}

/// The IL-independent form of an SSA terminator.
pub open spec fn ssa_generic_of(t: SSATerminator) -> GenericTerminator {
    match t {
        SSATerminator::Jump { target } => GenericTerminator::Jump { target },
        SSATerminator::BranchTrue { target_true, target_false, .. } => GenericTerminator::BranchTrue { target_true, target_false },
        SSATerminator::Return { .. } => GenericTerminator::Return,
    }
}

impl TBlock<OP> for SSABlock {
    open spec fn spec_name(&self) -> Seq<char> {
        self.name@
    }

    open spec fn spec_terminator(&self) -> GenericTerminator {
        ssa_generic_of(self.terminator)
    }

    open spec fn spec_bounds(&self) -> Option<(usize, usize)> {
        None
    }

    open spec fn spec_instructions(&self) -> Seq<(Option<usize>, OP)> {
        Seq::new(self.ops@.len(), |i: int| (None::<usize>, self.ops@[i]))
    }

    fn get_block_name(&self) -> (s: &String)
        ensures
            s@ == self.name@,
    {
        &self.name
    }

    fn len(&self) -> (n: usize)
        ensures
            n == self.ops@.len(),
    {
        self.ops.len()
    }

    fn get_block_terminator(&self) -> (t: GenericTerminator)
        ensures
            t == ssa_generic_of(self.terminator),
    {
        match self.terminator {
            SSATerminator::Jump { target } => GenericTerminator::Jump { target },
            SSATerminator::BranchTrue { target_true, target_false, .. } => GenericTerminator::BranchTrue { target_true, target_false },
            SSATerminator::Return { .. } => GenericTerminator::Return,
        }
    }

    fn get_block_address_bounds(&self) -> (r: Option<(usize, usize)>)
        ensures
            r is None,
    {
        None
    }

    fn get_instructions_for_block(&self) -> (v: Vec<(Option<usize>, &OP)>)
        ensures
            v@.len() == self.ops@.len(),
            forall|i: int| 0 <= i < v@.len() ==> (#[trigger] v@[i]).0 is None && *v@[i].1 == self.ops@[i],
    {
        let mut v: Vec<(Option<usize>, &OP)> = Vec::new();
        let mut i: usize = 0;
        while i < self.ops.len()
            invariant
                i <= self.ops@.len(),
                v@.len() == i,
                forall|j: int| 0 <= j < i ==> (#[trigger] v@[j]).0 is None && *v@[j].1 == self.ops@[j],
            decreases self.ops@.len() - i,
        {
            v.push((None, &self.ops[i]));
            i = i + 1;
        }
        v
    }
}

impl TFunction<SSABlock> for SSAFunction {
    open spec fn spec_blocks(&self) -> Seq<SSABlock> {
        self.blocks@
    }

    fn get_blocks_for_function(&self) -> (v: Vec<&SSABlock>)
        ensures
            v@.len() == self.blocks@.len(),
            forall|i: int| 0 <= i < v@.len() ==> *v@[i] == self.blocks@[i],
    {
        let mut v: Vec<&SSABlock> = Vec::new();
        let mut i: usize = 0;
        while i < self.blocks.len()
            invariant
                i <= self.blocks@.len(),
                v@.len() == i,
                forall|j: int| 0 <= j < i ==> *v@[j] == self.blocks@[j],
            decreases self.blocks@.len() - i,
        {
            v.push(&self.blocks[i]);
            i = i + 1;
        }
        v
    }
}

/// The variable an operation assigns, if it assigns one.
pub open spec fn op_dest(o: OPView) -> Option<Variable> {
    match o {
        OPView::Move { dest, .. } => Some(dest),
        OPView::MoveImm { dest, .. } => Some(dest),
        OPView::BinaryOperation { dest, .. } => Some(dest),
        OPView::UnaryOperation { dest, .. } => Some(dest),
        OPView::Getv { dest, .. } => Some(dest),
        OPView::Getm { dest, .. } => Some(dest),
        OPView::Agetv { dest, .. } => Some(dest),
        OPView::Call { dest, .. } => Some(dest),
        OPView::Aputv { .. } => None,
        OPView::Putv { .. } => None,
    }
}

/// The counters account for a variable: its number is not above the
/// counter of its slot.
pub open spec fn covered(c: CtxView, v: Variable) -> bool {
    match v {
        Variable::Stack { addr, unique } => c.stack.contains_key(addr) && unique <= c.stack[addr],
        Variable::Local { addr, unique } => c.local.contains_key(addr) && unique <= c.local[addr],
        Variable::Internal { unique } => c.internal matches Some(u) && unique <= u,
    }
}

/// Counters only grow.
pub open spec fn ctx_le(a: CtxView, b: CtxView) -> bool {
    &&& forall|k: u32| #[trigger] a.stack.contains_key(k) ==> b.stack.contains_key(k) && a.stack[k] <= b.stack[k]
    &&& forall|k: u8| #[trigger] a.local.contains_key(k) ==> b.local.contains_key(k) && a.local[k] <= b.local[k]
    &&& (a.internal matches Some(u) ==> b.internal matches Some(w) && u <= w)
}

/// Operations assign fresh variables: each one new to the counters before
/// them, accounted for by the counters after them, and assigned once.
pub open spec fn fresh_ops(ops: Seq<OPView>, before: CtxView, after: CtxView) -> bool {
    &&& ctx_le(before, after)
    &&& forall|p: int| 0 <= p < ops.len() && (#[trigger] op_dest(ops[p])) is Some
        ==> !covered(before, op_dest(ops[p])->0) && covered(after, op_dest(ops[p])->0)
    &&& forall|p: int, q: int| 0 <= p < q < ops.len() && (#[trigger] op_dest(ops[p])) is Some
        ==> op_dest(ops[p]) != #[trigger] op_dest(ops[q])
}

/// A step that emits assigns fresh variables.
pub open spec fn emit_fresh(e: Emit, s: SsaState) -> bool {
    e matches Ok((s2, ops)) ==> fresh_ops(ops, s.ctx, s2.ctx)
}

/// A step that reads only lets the counters grow.
pub open spec fn step_grows(r: VarStep, s: SsaState) -> bool {
    r matches Ok((s2, _)) ==> ctx_le(s.ctx, s2.ctx)
}

/// A step that assigns yields a fresh variable.
pub open spec fn step_fresh(r: VarStep, s: SsaState) -> bool {
    r matches Ok((s2, v)) ==> ctx_le(s.ctx, s2.ctx) && !covered(s.ctx, v) && covered(s2.ctx, v)
}

pub proof fn lemma_ctx_le_refl(a: CtxView)
    ensures
        ctx_le(a, a),
{
}

pub proof fn lemma_ctx_le_trans(a: CtxView, b: CtxView, c: CtxView)
    requires
        ctx_le(a, b),
        ctx_le(b, c),
    ensures
        ctx_le(a, c),
{
}

pub proof fn lemma_covered_mono(a: CtxView, b: CtxView, v: Variable)
    requires
        ctx_le(a, b),
        covered(a, v),
    ensures
        covered(b, v),
{
}

pub proof fn lemma_primitive_steps(s: SsaState, off: u32, idx: u8)
    ensures
        step_fresh(spec_push(s), s),
        step_grows(spec_top_offset(s, off), s),
        step_grows(spec_pop(s), s),
        ctx_le(s.ctx, spec_get_local(s, idx).0.ctx),
        step_fresh(spec_new_local(s, idx), s),
        step_fresh(spec_set_internal(s), s),
        step_grows(spec_get_internal(s), s),
{
}

/// No operations assign nothing twice.
pub proof fn lemma_fresh_empty(a: CtxView, b: CtxView)
    requires
        ctx_le(a, b),
    ensures
        fresh_ops(seq![], a, b),
{
}

/// One operation assigning a variable fresh after reads that only grew
/// the counters.
pub proof fn lemma_fresh_one(o: OPView, a: CtxView, m: CtxView, b: CtxView)
    requires
        ctx_le(a, m),
        ctx_le(m, b),
        op_dest(o) is Some ==> !covered(m, op_dest(o)->0) && covered(b, op_dest(o)->0),
    ensures
        fresh_ops(seq![o], a, b),
{
    lemma_ctx_le_trans(a, m, b);
    if op_dest(o) is Some {
        if covered(a, op_dest(o)->0) {
            lemma_covered_mono(a, m, op_dest(o)->0);
        }
    }
    assert(seq![o][0] == o);
}

/// Fresh operations followed by fresh operations are fresh.
pub proof fn lemma_fresh_concat(o1: Seq<OPView>, o2: Seq<OPView>, a: CtxView, b: CtxView, c: CtxView)
    requires
        fresh_ops(o1, a, b),
        fresh_ops(o2, b, c),
    ensures
        fresh_ops(o1 + o2, a, c),
{
    lemma_ctx_le_trans(a, b, c);
    let o = o1 + o2;
    assert forall|p: int| 0 <= p < o.len() && (#[trigger] op_dest(o[p])) is Some
        implies !covered(a, op_dest(o[p])->0) && covered(c, op_dest(o[p])->0) by {
        if p < o1.len() {
            assert(o[p] == o1[p]);
            assert(op_dest(o1[p]) is Some);
            lemma_covered_mono(b, c, op_dest(o[p])->0);
        } else {
            assert(o[p] == o2[p - o1.len()]);
            assert(op_dest(o2[p - o1.len()]) is Some);
            if covered(a, op_dest(o[p])->0) {
                lemma_covered_mono(a, b, op_dest(o[p])->0);
            }
        }
    }
    assert forall|p: int, q: int| 0 <= p < q < o.len() && (#[trigger] op_dest(o[p])) is Some
        implies op_dest(o[p]) != #[trigger] op_dest(o[q]) by {
        if q < o1.len() {
            assert(o[p] == o1[p] && o[q] == o1[q]);
            assert(op_dest(o1[p]) is Some);
        } else if p >= o1.len() {
            assert(o[p] == o2[p - o1.len()] && o[q] == o2[q - o1.len()]);
            assert(op_dest(o2[p - o1.len()]) is Some);
        } else {
            assert(o[p] == o1[p] && o[q] == o2[q - o1.len()]);
            assert(op_dest(o1[p]) is Some);
            if op_dest(o2[q - o1.len()]) is Some {
                assert(!covered(b, op_dest(o2[q - o1.len()])->0));
            }
        }
    }
}

/// Chaining two fresh steps is fresh.
pub proof fn lemma_chain_fresh(first: Emit, next: spec_fn(SsaState) -> Emit, s: SsaState)
    requires
        emit_fresh(first, s),
        first matches Ok((s1, _)) ==> emit_fresh(next(s1), s1),
    ensures
        emit_fresh(chain(first, next), s),
{
    match first {
        Ok((s1, a)) => match next(s1) {
            Ok((s2, b)) => {
                lemma_fresh_concat(a, b, s.ctx, s1.ctx, s2.ctx);
            },
            Err(_) => {},
        },
        Err(_) => {},
    }
}

/// `dest = src` into a pushed slot is fresh when `src` only read.
pub proof fn lemma_move_push_fresh(src: VarStep, s: SsaState)
    requires
        step_grows(src, s),
    ensures
        emit_fresh(emit_move_push(src), s),
{
    match src {
        Ok((s1, v)) => {
            lemma_primitive_steps(s1, 0, 0);
            match spec_push(s1) {
                Ok((s2, d)) => {
                    lemma_fresh_one(OPView::Move { src: v, dest: d }, s.ctx, s1.ctx, s2.ctx);
                },
                Err(_) => {},
            }
        },
        Err(_) => {},
    }
}

/// `n` pops only read.
pub proof fn lemma_pop_n_grows(s: SsaState, n: nat)
    ensures
        spec_pop_n(s, n) matches Ok((s2, _)) ==> ctx_le(s.ctx, s2.ctx),
    decreases n,
{
    lemma_ctx_le_refl(s.ctx);
    if n > 0 {
        lemma_pop_n_grows(s, (n - 1) as nat);
        match spec_pop_n(s, (n - 1) as nat) {
            Ok((s1, _)) => {
                lemma_primitive_steps(s1, 0, 0);
                match spec_pop(s1) {
                    Ok((s2, _)) => {
                        lemma_ctx_le_trans(s.ctx, s1.ctx, s2.ctx);
                    },
                    Err(_) => {},
                }
            },
            Err(_) => {},
        }
    }
}

/// The steps that push one value assign fresh variables.
pub proof fn lemma_push_steps_fresh(s: SsaState, idx: u8, off: u8, value: ImmediateValue)
    ensures
        emit_fresh(spec_imm(s, value), s),
        emit_fresh(spec_lgetv(s, idx), s),
        emit_fresh(spec_dup(s, off), s),
        emit_fresh(emit_move_push(spec_get_internal(s)), s),
{
    lemma_primitive_steps(s, off as u32, idx);
    lemma_ctx_le_refl(s.ctx);
    lemma_move_push_fresh(Ok(spec_get_local(s, idx)), s);
    lemma_move_push_fresh(spec_top_offset(s, off as u32), s);
    lemma_move_push_fresh(spec_get_internal(s), s);
    match spec_push(s) {
        Ok((s1, d)) => {
            lemma_fresh_one(OPView::MoveImm { src: value, dest: d }, s.ctx, s.ctx, s1.ctx);
        },
        Err(_) => {},
    }
}

/// The steps that pop one value assign fresh variables.
pub proof fn lemma_pop1_steps_fresh(s: SsaState, idx: u8, uop: UnaryOperator)
    ensures
        emit_fresh(spec_unary(s, uop), s),
        emit_fresh(spec_getm(s), s),
        emit_fresh(spec_lputv(s, idx), s),
{
    lemma_primitive_steps(s, 0, idx);
    match spec_pop(s) {
        Ok((s1, a)) => {
            lemma_primitive_steps(s1, 0, idx);
            match spec_push(s1) {
                Ok((s2, d)) => {
                    lemma_fresh_one(OPView::UnaryOperation { op: uop, src: a, dest: d }, s.ctx, s1.ctx, s2.ctx);
                    lemma_fresh_one(OPView::Getm { symbol: a, dest: d }, s.ctx, s1.ctx, s2.ctx);
                },
                Err(_) => {},
            }
            match spec_new_local(s1, idx) {
                Ok((s2, d)) => {
                    lemma_fresh_one(OPView::Move { src: a, dest: d }, s.ctx, s1.ctx, s2.ctx);
                },
                Err(_) => {},
            }
        },
        Err(_) => {},
    }
}

/// The steps that pop two or three values assign fresh variables.
pub proof fn lemma_pop2_steps_fresh(s: SsaState, bop: BinaryOperator)
    ensures
        emit_fresh(spec_binary(s, bop), s),
        emit_fresh(spec_agetv(s), s),
        emit_fresh(spec_aputv(s), s),
        emit_fresh(spec_putv(s), s),
{
    lemma_primitive_steps(s, 0, 0);
    match spec_pop(s) {
        Ok((s1, a)) => {
            lemma_primitive_steps(s1, 0, 0);
            match spec_pop(s1) {
                Ok((s2, b)) => {
                    lemma_primitive_steps(s2, 0, 0);
                    lemma_ctx_le_trans(s.ctx, s1.ctx, s2.ctx);
                    match spec_push(s2) {
                        Ok((s3, d)) => {
                            lemma_fresh_one(OPView::BinaryOperation { op: bop, src1: b, src2: a, dest: d }, s.ctx, s2.ctx, s3.ctx);
                            lemma_fresh_one(OPView::Agetv { src: b, idx: a, dest: d }, s.ctx, s2.ctx, s3.ctx);
                        },
                        Err(_) => {},
                    }
                    match spec_pop(s2) {
                        Ok((s3, c)) => {
                            lemma_ctx_le_trans(s.ctx, s2.ctx, s3.ctx);
                            lemma_ctx_le_refl(s3.ctx);
                            lemma_fresh_one(OPView::Aputv { src: c, idx: b, value: a }, s.ctx, s3.ctx, s3.ctx);
                            lemma_fresh_one(OPView::Putv { src: a, base: c, symbol: b }, s.ctx, s3.ctx, s3.ctx);
                        },
                        Err(_) => {},
                    }
                },
                Err(_) => {},
            }
        },
        Err(_) => {},
    }
}

/// A field read assigns fresh variables.
pub proof fn lemma_getv_fresh(s: SsaState)
    ensures
        emit_fresh(spec_getv(s), s),
{
    lemma_primitive_steps(s, 1, 0);
    match spec_top_offset(s, 1) {
        Ok((s1, src)) => {
            lemma_primitive_steps(s1, 0, 0);
            match spec_set_internal(s1) {
                Ok((s2, d1)) => {
                    lemma_primitive_steps(s2, 0, 0);
                    match spec_pop(s2) {
                        Ok((s3, symbol)) => {
                            lemma_primitive_steps(s3, 0, 0);
                            match spec_pop(s3) {
                                Ok((s4, base)) => {
                                    lemma_primitive_steps(s4, 0, 0);
                                    match spec_push(s4) {
                                        Ok((s5, dest)) => {
                                            lemma_ctx_le_trans(s2.ctx, s3.ctx, s4.ctx);
                                            lemma_fresh_one(OPView::Move { src, dest: d1 }, s.ctx, s1.ctx, s2.ctx);
                                            lemma_fresh_one(OPView::Getv { base, symbol, dest }, s2.ctx, s4.ctx, s5.ctx);
                                            lemma_fresh_concat(seq![OPView::Move { src, dest: d1 }], seq![OPView::Getv { base, symbol, dest }], s.ctx, s2.ctx, s5.ctx);
                                            assert(seq![OPView::Move { src, dest: d1 }] + seq![OPView::Getv { base, symbol, dest }]
                                                =~= seq![OPView::Move { src, dest: d1 }, OPView::Getv { base, symbol, dest }]);
                                        },
                                        Err(_) => {},
                                    }
                                },
                                Err(_) => {},
                            }
                        },
                        Err(_) => {},
                    }
                },
                Err(_) => {},
            }
        },
        Err(_) => {},
    }
}

/// A call assigns a fresh variable.
pub proof fn lemma_invokem_fresh(s: SsaState, count: u8)
    ensures
        emit_fresh(spec_invokem(s, count), s),
{
    lemma_pop_n_grows(s, count as nat);
    match spec_pop_n(s, count as nat) {
        Ok((s1, popped)) => {
            lemma_primitive_steps(s1, 0, 0);
            match spec_pop(s1) {
                Ok((s2, function)) => {
                    lemma_primitive_steps(s2, 0, 0);
                    lemma_ctx_le_trans(s.ctx, s1.ctx, s2.ctx);
                    match spec_push(s2) {
                        Ok((s3, dest)) => {
                            lemma_fresh_one(OPView::Call { function, arguments: popped.reverse(), dest }, s.ctx, s2.ctx, s3.ctx);
                        },
                        Err(_) => {},
                    }
                },
                Err(_) => {},
            }
        },
        Err(_) => {},
    }
}

/// Every primitive step of the simulation assigns fresh variables.
pub proof fn lemma_primitives_fresh(s: SsaState, idx: u8, off: u8, count: u8, value: ImmediateValue, bop: BinaryOperator, uop: UnaryOperator)
    ensures
        emit_fresh(spec_imm(s, value), s),
        emit_fresh(spec_lgetv(s, idx), s),
        emit_fresh(spec_binary(s, bop), s),
        emit_fresh(spec_unary(s, uop), s),
        emit_fresh(spec_getv(s), s),
        emit_fresh(spec_invokem(s, count), s),
        emit_fresh(spec_getm(s), s),
        emit_fresh(spec_aputv(s), s),
        emit_fresh(spec_dup(s, off), s),
        emit_fresh(spec_agetv(s), s),
        emit_fresh(spec_putv(s), s),
        emit_fresh(spec_lputv(s, idx), s),
        emit_fresh(emit_move_push(spec_get_internal(s)), s),
{
    lemma_push_steps_fresh(s, idx, off, value);
    lemma_pop1_steps_fresh(s, idx, uop);
    lemma_pop2_steps_fresh(s, bop);
    lemma_getv_fresh(s);
    lemma_invokem_fresh(s, count);
}

/// Every instruction assigns fresh variables.
pub proof fn lemma_op_fresh(op: Opcode, s: SsaState)
    ensures
        emit_fresh(spec_op(op, s), s),
{
    reveal(spec_op);
    lemma_ctx_le_refl(s.ctx);
    lemma_fresh_empty(s.ctx, s.ctx);
    match op {
        Opcode::LGETV(idx) => lemma_primitives_fresh(s, idx, 0, 0, ImmediateValue::Null, BinaryOperator::Add, UnaryOperator::Inv),
        Opcode::LPUTV(idx) => lemma_primitives_fresh(s, idx, 0, 0, ImmediateValue::Null, BinaryOperator::Add, UnaryOperator::Inv),
        Opcode::DUP(off) => lemma_primitives_fresh(s, 0, off, 0, ImmediateValue::Null, BinaryOperator::Add, UnaryOperator::Inv),
        Opcode::INVOKEM(count) => lemma_primitives_fresh(s, 0, 0, count, ImmediateValue::Null, BinaryOperator::Add, UnaryOperator::Inv),
        Opcode::SPUSH(symbol) => lemma_primitives_fresh(s, 0, 0, 0, ImmediateValue::Symbol(symbol), BinaryOperator::Add, UnaryOperator::Inv),
        Opcode::BPUSH(x) => lemma_primitives_fresh(s, 0, 0, 0, ImmediateValue::Boolean(x == 1), BinaryOperator::Add, UnaryOperator::Inv),
        Opcode::NEWS(a) => lemma_primitives_fresh(s, 0, 0, 0, ImmediateValue::String(a), BinaryOperator::Add, UnaryOperator::Inv),
        Opcode::IPUSH(v) => lemma_primitives_fresh(s, 0, 0, 0, ImmediateValue::Integer(v), BinaryOperator::Add, UnaryOperator::Inv),
        Opcode::IPUSH1(v) => lemma_primitives_fresh(s, 0, 0, 0, ImmediateValue::Integer(v as i32), BinaryOperator::Add, UnaryOperator::Inv),
        Opcode::IPUSH2(v) => lemma_primitives_fresh(s, 0, 0, 0, ImmediateValue::Integer(v as i32), BinaryOperator::Add, UnaryOperator::Inv),
        Opcode::IPUSH3(v) => lemma_primitives_fresh(s, 0, 0, 0, ImmediateValue::Integer(v), BinaryOperator::Add, UnaryOperator::Inv),
        Opcode::IPUSHZ => lemma_primitives_fresh(s, 0, 0, 0, ImmediateValue::Integer(0), BinaryOperator::Add, UnaryOperator::Inv),
        Opcode::DPUSH(v) => lemma_primitives_fresh(s, 0, 0, 0, ImmediateValue::Double(v), BinaryOperator::Add, UnaryOperator::Inv),
        Opcode::DPUSHZ => lemma_primitives_fresh(s, 0, 0, 0, ImmediateValue::Double(0), BinaryOperator::Add, UnaryOperator::Inv),
        Opcode::LPUSH(v) => lemma_primitives_fresh(s, 0, 0, 0, ImmediateValue::Long(v), BinaryOperator::Add, UnaryOperator::Inv),
        Opcode::LPUSHZ => lemma_primitives_fresh(s, 0, 0, 0, ImmediateValue::Long(0), BinaryOperator::Add, UnaryOperator::Inv),
        Opcode::CPUSH(v) => lemma_primitives_fresh(s, 0, 0, 0, ImmediateValue::Char(v), BinaryOperator::Add, UnaryOperator::Inv),
        Opcode::FPUSH(v) => lemma_primitives_fresh(s, 0, 0, 0, ImmediateValue::Float(v), BinaryOperator::Add, UnaryOperator::Inv),
        Opcode::FPUSHZ => lemma_primitives_fresh(s, 0, 0, 0, ImmediateValue::Float(0), BinaryOperator::Add, UnaryOperator::Inv),
        Opcode::BTPUSH => lemma_primitives_fresh(s, 0, 0, 0, ImmediateValue::Boolean(true), BinaryOperator::Add, UnaryOperator::Inv),
        Opcode::BFPUSH => lemma_primitives_fresh(s, 0, 0, 0, ImmediateValue::Boolean(false), BinaryOperator::Add, UnaryOperator::Inv),
        Opcode::NPUSH => lemma_primitives_fresh(s, 0, 0, 0, ImmediateValue::Null, BinaryOperator::Add, UnaryOperator::Inv),
        Opcode::ADD => lemma_primitives_fresh(s, 0, 0, 0, ImmediateValue::Null, BinaryOperator::Add, UnaryOperator::Inv),
        Opcode::SUB => lemma_primitives_fresh(s, 0, 0, 0, ImmediateValue::Null, BinaryOperator::Sub, UnaryOperator::Inv),
        Opcode::MUL => lemma_primitives_fresh(s, 0, 0, 0, ImmediateValue::Null, BinaryOperator::Mul, UnaryOperator::Inv),
        Opcode::DIV => lemma_primitives_fresh(s, 0, 0, 0, ImmediateValue::Null, BinaryOperator::Div, UnaryOperator::Inv),
        Opcode::AND => lemma_primitives_fresh(s, 0, 0, 0, ImmediateValue::Null, BinaryOperator::And, UnaryOperator::Inv),
        Opcode::OR => lemma_primitives_fresh(s, 0, 0, 0, ImmediateValue::Null, BinaryOperator::Or, UnaryOperator::Inv),
        Opcode::MOD => lemma_primitives_fresh(s, 0, 0, 0, ImmediateValue::Null, BinaryOperator::Mod, UnaryOperator::Inv),
        Opcode::SHL => lemma_primitives_fresh(s, 0, 0, 0, ImmediateValue::Null, BinaryOperator::Shl, UnaryOperator::Inv),
        Opcode::SHR => lemma_primitives_fresh(s, 0, 0, 0, ImmediateValue::Null, BinaryOperator::Shr, UnaryOperator::Inv),
        Opcode::XOR => lemma_primitives_fresh(s, 0, 0, 0, ImmediateValue::Null, BinaryOperator::Xor, UnaryOperator::Inv),
        Opcode::EQ => lemma_primitives_fresh(s, 0, 0, 0, ImmediateValue::Null, BinaryOperator::Eq, UnaryOperator::Inv),
        Opcode::LT => lemma_primitives_fresh(s, 0, 0, 0, ImmediateValue::Null, BinaryOperator::Lt, UnaryOperator::Inv),
        Opcode::LTE => lemma_primitives_fresh(s, 0, 0, 0, ImmediateValue::Null, BinaryOperator::Lte, UnaryOperator::Inv),
        Opcode::GT => lemma_primitives_fresh(s, 0, 0, 0, ImmediateValue::Null, BinaryOperator::Gt, UnaryOperator::Inv),
        Opcode::GTE => lemma_primitives_fresh(s, 0, 0, 0, ImmediateValue::Null, BinaryOperator::Gte, UnaryOperator::Inv),
        Opcode::NE => lemma_primitives_fresh(s, 0, 0, 0, ImmediateValue::Null, BinaryOperator::Ne, UnaryOperator::Inv),
        Opcode::ISA => lemma_primitives_fresh(s, 0, 0, 0, ImmediateValue::Null, BinaryOperator::Isa, UnaryOperator::Inv),
        Opcode::CANHAZPLZ => lemma_primitives_fresh(s, 0, 0, 0, ImmediateValue::Null, BinaryOperator::Has, UnaryOperator::Inv),
        Opcode::INV => lemma_primitives_fresh(s, 0, 0, 0, ImmediateValue::Null, BinaryOperator::Add, UnaryOperator::Inv),
        Opcode::ISNULL => lemma_primitives_fresh(s, 0, 0, 0, ImmediateValue::Null, BinaryOperator::Add, UnaryOperator::IsNull),
        Opcode::ISNOTNULL => lemma_primitives_fresh(s, 0, 0, 0, ImmediateValue::Null, BinaryOperator::Add, UnaryOperator::IsNotNull),
        Opcode::NEWD => lemma_primitives_fresh(s, 0, 0, 0, ImmediateValue::Null, BinaryOperator::Add, UnaryOperator::NewDictionary),
        Opcode::NEWA => lemma_primitives_fresh(s, 0, 0, 0, ImmediateValue::Null, BinaryOperator::Add, UnaryOperator::NewArray),
        Opcode::NEWBA => lemma_primitives_fresh(s, 0, 0, 0, ImmediateValue::Null, BinaryOperator::Add, UnaryOperator::NewByteArray),
        Opcode::NEWC => lemma_primitives_fresh(s, 0, 0, 0, ImmediateValue::Null, BinaryOperator::Add, UnaryOperator::NewClass),
        Opcode::POPV => {
            lemma_primitive_steps(s, 0, 0);
            match spec_pop(s) {
                Ok((s1, _)) => lemma_fresh_empty(s.ctx, s1.ctx),
                Err(_) => {},
            }
        },
        Opcode::INVOKEMZ => {
            lemma_primitives_fresh(s, 0, 0, 0, ImmediateValue::Null, BinaryOperator::Add, UnaryOperator::Inv);
            match spec_lgetv(s, 0) {
                Ok((s1, _)) => lemma_primitives_fresh(s1, 0, 0, 1, ImmediateValue::Null, BinaryOperator::Add, UnaryOperator::Inv),
                Err(_) => {},
            }
            lemma_chain_fresh(spec_lgetv(s, 0), |s1: SsaState| spec_invokem(s1, 1), s);
        },
        Opcode::GETSELFV(symbol) | Opcode::GETLOCALV(_, symbol) => {
            let idx: u8 = match op {
                Opcode::GETLOCALV(i, _) => i,
                _ => 0,
            };
            let g: spec_fn(SsaState) -> Emit = |s2: SsaState| spec_getv(s2);
            let f: spec_fn(SsaState) -> Emit = |s1: SsaState| chain(spec_spush(s1, symbol), g);
            lemma_primitives_fresh(s, idx, 0, 0, ImmediateValue::Null, BinaryOperator::Add, UnaryOperator::Inv);
            match spec_lgetv(s, idx) {
                Ok((s1, _)) => {
                    lemma_primitives_fresh(s1, 0, 0, 0, ImmediateValue::Symbol(symbol), BinaryOperator::Add, UnaryOperator::Inv);
                    match spec_spush(s1, symbol) {
                        Ok((s2, _)) => lemma_primitives_fresh(s2, 0, 0, 0, ImmediateValue::Null, BinaryOperator::Add, UnaryOperator::Inv),
                        Err(_) => {},
                    }
                    lemma_chain_fresh(spec_spush(s1, symbol), g, s1);
                },
                Err(_) => {},
            }
            lemma_chain_fresh(spec_lgetv(s, idx), f, s);
        },
        Opcode::GETSV(symbol) => {
            let g: spec_fn(SsaState) -> Emit = |s1: SsaState| spec_getv(s1);
            lemma_primitives_fresh(s, 0, 0, 0, ImmediateValue::Symbol(symbol), BinaryOperator::Add, UnaryOperator::Inv);
            match spec_spush(s, symbol) {
                Ok((s1, _)) => lemma_primitives_fresh(s1, 0, 0, 0, ImmediateValue::Null, BinaryOperator::Add, UnaryOperator::Inv),
                Err(_) => {},
            }
            lemma_chain_fresh(spec_spush(s, symbol), g, s);
        },
        Opcode::GETMV(symbol1, symbol2) => {
            let h: spec_fn(SsaState) -> Emit = |x: SsaState| spec_getv(x);
            let g: spec_fn(SsaState) -> Emit = |x: SsaState| chain(spec_spush(x, symbol2), h);
            let f: spec_fn(SsaState) -> Emit = |x: SsaState| chain(spec_getm(x), g);
            lemma_primitives_fresh(s, 0, 0, 0, ImmediateValue::Symbol(symbol1), BinaryOperator::Add, UnaryOperator::Inv);
            match spec_spush(s, symbol1) {
                Ok((s1, _)) => {
                    lemma_primitives_fresh(s1, 0, 0, 0, ImmediateValue::Null, BinaryOperator::Add, UnaryOperator::Inv);
                    match spec_getm(s1) {
                        Ok((s2, _)) => {
                            lemma_primitives_fresh(s2, 0, 0, 0, ImmediateValue::Symbol(symbol2), BinaryOperator::Add, UnaryOperator::Inv);
                            match spec_spush(s2, symbol2) {
                                Ok((s3, _)) => lemma_primitives_fresh(s3, 0, 0, 0, ImmediateValue::Null, BinaryOperator::Add, UnaryOperator::Inv),
                                Err(_) => {},
                            }
                            lemma_chain_fresh(spec_spush(s2, symbol2), h, s2);
                        },
                        Err(_) => {},
                    }
                    lemma_chain_fresh(spec_getm(s1), g, s1);
                },
                Err(_) => {},
            }
            lemma_chain_fresh(spec_spush(s, symbol1), f, s);
        },
        Opcode::APUTVDUP => {
            let g: spec_fn(SsaState) -> Emit = |x: SsaState| spec_dup(x, 1);
            lemma_primitives_fresh(s, 0, 0, 0, ImmediateValue::Null, BinaryOperator::Add, UnaryOperator::Inv);
            match spec_aputv(s) {
                Ok((s1, _)) => lemma_primitives_fresh(s1, 0, 1, 0, ImmediateValue::Null, BinaryOperator::Add, UnaryOperator::Inv),
                Err(_) => {},
            }
            lemma_chain_fresh(spec_aputv(s), g, s);
        },
        _ => {
            lemma_primitives_fresh(s, 0, 0, 0, ImmediateValue::Null, BinaryOperator::Add, UnaryOperator::Inv);
        },
    }
}

/// The instructions of a block assign fresh variables.
pub proof fn lemma_block_ops_fresh(items: Seq<Opcode>, s: SsaState, i: int)
    ensures
        emit_fresh(spec_block_ops(items, s, i), s),
    decreases items.len() - i,
{
    lemma_ctx_le_refl(s.ctx);
    lemma_fresh_empty(s.ctx, s.ctx);
    if 0 <= i < items.len() {
        lemma_op_fresh(items[i], s);
        match spec_op(items[i], s) {
            Ok((s1, e1)) => {
                lemma_block_ops_fresh(items, s1, i + 1);
                match spec_block_ops(items, s1, i + 1) {
                    Ok((s2, e2)) => {
                        lemma_fresh_concat(e1, e2, s.ctx, s1.ctx, s2.ctx);
                    },
                    Err(_) => {},
                }
            },
            Err(_) => {},
        }
    }
}

/// Fresh operations stay fresh when the counters grow further.
pub proof fn lemma_fresh_extend(ops: Seq<OPView>, a: CtxView, b: CtxView, c: CtxView)
    requires
        fresh_ops(ops, a, b),
        ctx_le(b, c),
    ensures
        fresh_ops(ops, a, c),
{
    lemma_ctx_le_trans(a, b, c);
    assert forall|p: int| 0 <= p < ops.len() && (#[trigger] op_dest(ops[p])) is Some
        implies !covered(a, op_dest(ops[p])->0) && covered(c, op_dest(ops[p])->0) by {
        lemma_covered_mono(b, c, op_dest(ops[p])->0);
    }
}

/// Simulating a block assigns fresh variables.
pub proof fn lemma_simulate_fresh(d: Seq<BlockView>, b: usize, depth: u32, c: CtxView)
    ensures
        spec_simulate_block(d, b, depth, c) matches Ok((c2, blk, _)) ==> fresh_ops(blk.ops, c, c2),
{
    reveal(spec_simulate_block);
    let s0 = SsaState { ctx: c, sp: depth };
    let items = d[b as int].container.items;
    lemma_ctx_le_refl(c);
    lemma_fresh_empty(c, c);
    lemma_primitives_fresh(s0, 0, 0, 0, ImmediateValue::Null, BinaryOperator::Add, UnaryOperator::Inv);
    let pre: Emit = if b == 0 { spec_imm(s0, ImmediateValue::Null) } else { Ok((s0, seq![])) };
    match pre {
        Ok((s1, a)) => {
            lemma_block_ops_fresh(items, s1, 0);
            match spec_block_ops(items, s1, 0) {
                Ok((s2, e)) => {
                    lemma_fresh_concat(a, e, c, s1.ctx, s2.ctx);
                    lemma_primitive_steps(s2, 0, 0);
                    match spec_pop(s2) {
                        Ok((s3, _)) => {
                            lemma_fresh_extend(a + e, c, s2.ctx, s3.ctx);
                        },
                        Err(_) => {},
                    }
                },
                Err(_) => {},
            }
        },
        Err(_) => {},
    }
}

/// The variable assigned by operation `p` of done block `i`, if any.
pub open spec fn done_dest(done: Seq<Option<SSABlockView>>, i: int, p: int) -> Option<Variable> {
    if 0 <= i < done.len() && done[i] is Some && 0 <= p < done[i]->0.ops.len() {
        op_dest(done[i]->0.ops[p])
    } else {
        None
    }
}

/// The counters account for every variable the done blocks assign.
pub open spec fn done_covered(done: Seq<Option<SSABlockView>>, c: CtxView) -> bool {
    forall|i: int, p: int| (#[trigger] done_dest(done, i, p)) is Some ==> covered(c, done_dest(done, i, p)->0)
}

/// No variable is assigned by two operations of the done blocks.
pub open spec fn done_distinct(done: Seq<Option<SSABlockView>>) -> bool {
    forall|i: int, p: int, j: int, q: int| (i != j || p != q) && (#[trigger] done_dest(done, i, p)) is Some
        ==> done_dest(done, i, p) != #[trigger] done_dest(done, j, q)
}

/// Each step of the search keeps the assignments of the done blocks
/// distinct and accounted for.
pub proof fn lemma_step_fresh(d: Seq<BlockView>, w: Worklist)
    requires
        w.queue.len() > 0,
        done_covered(w.done, w.ctx),
        done_distinct(w.done),
    ensures
        spec_step(d, w) matches Ok(w2) ==> done_covered(w2.done, w2.ctx) && done_distinct(w2.done),
{
    let b = w.queue[0].0;
    let depth = w.queue[0].1;
    if !(b < w.done.len() && w.done[b as int] is Some) && b < d.len() && b < w.done.len() {
        lemma_simulate_fresh(d, b, depth, w.ctx);
        match spec_simulate_block(d, b, depth, w.ctx) {
            Ok((c2, blk, pushes)) => {
                let done2 = w.done.update(b as int, Some(blk));
                assert forall|i: int, p: int| (#[trigger] done_dest(done2, i, p)) is Some implies covered(c2, done_dest(done2, i, p)->0) by {
                    if i == b {
                        assert(done_dest(done2, i, p) == op_dest(blk.ops[p]));
                    } else {
                        assert(done_dest(done2, i, p) == done_dest(w.done, i, p));
                        lemma_covered_mono(w.ctx, c2, done_dest(w.done, i, p)->0);
                    }
                }
                assert forall|i: int, p: int, j: int, q: int| (i != j || p != q) && (#[trigger] done_dest(done2, i, p)) is Some
                    implies done_dest(done2, i, p) != #[trigger] done_dest(done2, j, q) by {
                    if i == b && j == b {
                        assert(done_dest(done2, i, p) == op_dest(blk.ops[p]));
                        if done_dest(done2, j, q) is Some {
                            assert(done_dest(done2, j, q) == op_dest(blk.ops[q]));
                            if p < q {
                                assert(op_dest(blk.ops[p]) != op_dest(blk.ops[q]));
                            } else {
                                assert(op_dest(blk.ops[q]) is Some);
                                assert(op_dest(blk.ops[q]) != op_dest(blk.ops[p]));
                            }
                        }
                    } else if i == b {
                        assert(done_dest(done2, i, p) == op_dest(blk.ops[p]));
                        assert(!covered(w.ctx, op_dest(blk.ops[p])->0));
                        if done_dest(done2, j, q) is Some {
                            assert(done_dest(done2, j, q) == done_dest(w.done, j, q));
                        }
                    } else if j == b {
                        assert(done_dest(done2, i, p) == done_dest(w.done, i, p));
                        if done_dest(done2, j, q) is Some {
                            assert(done_dest(done2, j, q) == op_dest(blk.ops[q]));
                            assert(op_dest(blk.ops[q]) is Some);
                            assert(!covered(w.ctx, op_dest(blk.ops[q])->0));
                        }
                    } else {
                        assert(done_dest(done2, i, p) == done_dest(w.done, i, p));
                        assert(done_dest(done2, j, q) == done_dest(w.done, j, q));
                    }
                }
            },
            Err(_) => {},
        }
    }
}

/// The search, run to its end, assigns no variable twice.
pub proof fn lemma_run_fresh(d: Seq<BlockView>, w: Worklist)
    requires
        done_covered(w.done, w.ctx),
        done_distinct(w.done),
    ensures
        spec_run(d, w) matches Ok(done) ==> done_distinct(done),
    decreases measure(w),
{
    if w.queue.len() > 0 {
        lemma_step_decreases(d, w);
        lemma_step_fresh(d, w);
        match spec_step(d, w) {
            Ok(w2) => {
                lemma_run_fresh(d, w2);
            },
            Err(_) => {},
        }
    }
}

/// The variable assigned by operation `p` of block `k`, if any.
pub open spec fn block_dest(bs: Seq<SSABlockView>, k: int, p: int) -> Option<Variable> {
    if 0 <= k < bs.len() && 0 <= p < bs[k].ops.len() {
        op_dest(bs[k].ops[p])
    } else {
        None
    }
}

/// The blocks left after the unreached ones are dropped assign what the
/// done blocks from `i` on assign, and nothing twice.
pub proof fn lemma_finalize_fresh(done: Seq<Option<SSABlockView>>, i: int)
    requires
        0 <= i,
        done_distinct(done),
    ensures
        spec_finalize(done, i) matches Ok(bs) ==> {
            &&& forall|k: int, p: int| (#[trigger] block_dest(bs, k, p)) is Some
                ==> exists|j: int, q: int| i <= j && #[trigger] done_dest(done, j, q) == block_dest(bs, k, p)
            &&& forall|k: int, p: int, l: int, q: int| (k != l || p != q) && (#[trigger] block_dest(bs, k, p)) is Some
                ==> block_dest(bs, k, p) != #[trigger] block_dest(bs, l, q)
        },
    decreases done.len() - i,
{
    if i < done.len() {
        lemma_finalize_fresh(done, i + 1);
        match done[i] {
            None => {
                match spec_finalize(done, i + 1) {
                    Ok(bs) => {
                        assert forall|k: int, p: int| (#[trigger] block_dest(bs, k, p)) is Some
                            implies exists|j: int, q: int| i <= j && #[trigger] done_dest(done, j, q) == block_dest(bs, k, p) by {
                            let (j, q) = choose|j: int, q: int| i + 1 <= j && #[trigger] done_dest(done, j, q) == block_dest(bs, k, p);
                        }
                    },
                    Err(_) => {},
                }
            },
            Some(blk) => match remap_terminator(done, blk.terminator) {
                None => {},
                Some(t) => match spec_finalize(done, i + 1) {
                    Err(_) => {},
                    Ok(rest) => {
                        let nb = SSABlockView { name: blk.name, start_depth: blk.start_depth, ops: blk.ops, terminator: t };
                        let bs = seq![nb] + rest;
                        assert forall|k: int, p: int| (#[trigger] block_dest(bs, k, p)) is Some
                            implies exists|j: int, q: int| i <= j && #[trigger] done_dest(done, j, q) == block_dest(bs, k, p) by {
                            if k == 0 {
                                assert(done_dest(done, i, p) == block_dest(bs, k, p));
                            } else {
                                assert(block_dest(bs, k, p) == block_dest(rest, k - 1, p));
                                let (j, q) = choose|j: int, q: int| i + 1 <= j && #[trigger] done_dest(done, j, q) == block_dest(rest, k - 1, p);
                            }
                        }
                        assert forall|k: int, p: int, l: int, q: int| (k != l || p != q) && (#[trigger] block_dest(bs, k, p)) is Some
                            implies block_dest(bs, k, p) != #[trigger] block_dest(bs, l, q) by {
                            if k == 0 && l == 0 {
                                assert(block_dest(bs, k, p) == done_dest(done, i, p));
                                assert(block_dest(bs, l, q) == done_dest(done, i, q));
                            } else if k == 0 {
                                assert(block_dest(bs, k, p) == done_dest(done, i, p));
                                if block_dest(bs, l, q) is Some {
                                    assert(block_dest(bs, l, q) == block_dest(rest, l - 1, q));
                                    let (j, r) = choose|j: int, r: int| i + 1 <= j && #[trigger] done_dest(done, j, r) == block_dest(rest, l - 1, q);
                                    assert(done_dest(done, i, p) != done_dest(done, j, r));
                                }
                            } else if l == 0 {
                                assert(block_dest(bs, k, p) == block_dest(rest, k - 1, p));
                                let (j, r) = choose|j: int, r: int| i + 1 <= j && #[trigger] done_dest(done, j, r) == block_dest(rest, k - 1, p);
                                assert(block_dest(bs, l, q) == done_dest(done, i, q));
                                assert(done_dest(done, j, r) != done_dest(done, i, q));
                            } else {
                                assert(block_dest(bs, k, p) == block_dest(rest, k - 1, p));
                                assert(block_dest(bs, l, q) == block_dest(rest, l - 1, q));
                            }
                        }
                    },
                },
            },
        }
    }
}

/// Static single assignment: in the SSA form of a function no variable is
/// assigned by two operations, whichever blocks they are in.
pub proof fn lemma_ssa_single_assignment(d: Seq<BlockView>)
    ensures
        spec_ssa(d) matches Ok(bs) ==> forall|k: int, p: int, l: int, q: int|
            (k != l || p != q) && (#[trigger] block_dest(bs, k, p)) is Some
            ==> block_dest(bs, k, p) != #[trigger] block_dest(bs, l, q),
{
    let init = initial_worklist(d.len());
    assert forall|i: int, p: int| (#[trigger] done_dest(init.done, i, p)) is Some implies covered(init.ctx, done_dest(init.done, i, p)->0) by {
    }
    lemma_run_fresh(d, init);
    match spec_run(d, init) {
        Ok(done) => {
            lemma_finalize_fresh(done, 0);
        },
        Err(_) => {},
    }
}

} // verus!
