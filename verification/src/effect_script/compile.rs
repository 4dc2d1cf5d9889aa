//! Compiling a sample effect to bytecode.
//!
//! The compiler walks the statements of a sample entrypoint once, allocating a
//! register for every value it computes. It trusts the type checker: where a
//! program that type checks could not reach (an unknown name, an operand of the
//! wrong type, a generator builtin), compilation gives `None`.
use vstd::prelude::*;
use crate::text::str_eq;
use crate::effect_script::ast::{EffectAst, EffectEntrypoint, EffectParamSchema, Expr, Stmt};
use crate::effect_script::builtins::{
    BuiltinConstant, BuiltinContext, BuiltinFunction, function_named, spec_return_type_for_kind,
};
use crate::effect_script::bytecode::{
    BinaryInstruction, BoolSlot, ColorSlot, ContextSlot, FixtureSlot, FloatSlot, Instruction, IntSlot,
    MarkSearchInstruction, PixelSlot, RefSlot, RegisterCounts, UnaryFloatInstruction, ValueSlot,
    context_slot, is_float_compare,
};
use crate::effect_script::specialize::{
    BytecodeProgram, ConstantValue, SpecConst, consts_view, initial_known, instruction_in_range, jump_target,
    jumps_in_bounds, lemma_specialize_keeps_jumps_in_bounds, slot_in_range, spec_compact, specialize_for_params,
    specialize_from,
};
use crate::effect_script::types::{
    binary_result_type, is_float_compatible, spec_binary_result_type, spec_is_float_compatible, BinaryOp,
    EffectScriptKind, ScriptType, UnaryOp,
};

verus! {

/// What a name stands for while compiling.
#[derive(Debug, Clone, Copy, PartialEq, Eq, Structural)]
pub enum CompileBinding {
    Context(BuiltinContext),
    Constant(usize),
    Param { index: usize, value_type: ScriptType },
    Local(ValueSlot),
}

/// The state of a compilation: the instructions and constants so far, the
/// names in scope (the innermost last), and the registers allocated.
#[verifier::ext_equal]
pub struct CState {
    pub instrs: Seq<Instruction>,
    pub consts: Seq<SpecConst>,
    pub binds: Seq<(Seq<char>, CompileBinding)>,
    pub regs: RegisterCounts,
}

/// The innermost binding of `name`.
pub open spec fn find_binding(bs: Seq<(Seq<char>, CompileBinding)>, name: Seq<char>) -> Option<CompileBinding>
    decreases bs.len(),
{
    if bs.len() == 0 {
        None
    } else if bs.last().0 == name {
        Some(bs.last().1)
    } else {
        find_binding(bs.drop_last(), name)
    }
}

/// The type of a constant.
pub open spec fn const_type(c: SpecConst) -> ScriptType {
    match c {
        SpecConst::Float(_) => ScriptType::Float,
        SpecConst::Int(_) => ScriptType::Int,
        SpecConst::Bool(_) => ScriptType::Bool,
        SpecConst::Color(_) => ScriptType::Color,
        SpecConst::Enum(_) => ScriptType::Enum,
        SpecConst::Flags(_) => ScriptType::Void,
        SpecConst::Other => ScriptType::Void,
    }
}

pub open spec fn context_type(c: BuiltinContext) -> ScriptType {
    match c {
        BuiltinContext::Progress | BuiltinContext::Seconds => ScriptType::Float,
        BuiltinContext::Fixture => ScriptType::Fixture,
        BuiltinContext::Pixel => ScriptType::Pixel,
    }
}

pub open spec fn spec_context_slot(c: BuiltinContext) -> ContextSlot {
    match c {
        BuiltinContext::Progress => ContextSlot::Progress,
        BuiltinContext::Seconds => ContextSlot::Seconds,
        BuiltinContext::Fixture => ContextSlot::Fixture,
        BuiltinContext::Pixel => ContextSlot::Pixel,
    }
}

pub open spec fn slot_type(s: ValueSlot) -> ScriptType {
    match s {
        ValueSlot::Float(_) => ScriptType::Float,
        ValueSlot::Int(_) => ScriptType::Int,
        ValueSlot::Bool(_) => ScriptType::Bool,
        ValueSlot::Color(_) => ScriptType::Color,
        ValueSlot::Ref(_, t) => t,
        ValueSlot::Fixture(_) => ScriptType::Fixture,
        ValueSlot::Pixel(_) => ScriptType::Pixel,
    }
}

pub open spec fn with_regs(st: CState, regs: RegisterCounts) -> CState {
    CState { instrs: st.instrs, consts: st.consts, binds: st.binds, regs }
}

pub open spec fn with_binds(st: CState, binds: Seq<(Seq<char>, CompileBinding)>) -> CState {
    CState { instrs: st.instrs, consts: st.consts, binds, regs: st.regs }
}

/// `s` cut back to its first `n` entries, when it has that many.
pub open spec fn truncated<A>(s: Seq<A>, n: int) -> Seq<A> {
    if 0 <= n <= s.len() {
        s.subrange(0, n)
    } else {
        s
    }
}

/// Closes the scopes opened since there were `mark` bindings.
pub open spec fn close_scope(st: CState, mark: int) -> CState {
    with_binds(st, truncated(st.binds, mark))
}

pub open spec fn emit(st: CState, ins: Instruction) -> CState {
    CState { instrs: st.instrs.push(ins), consts: st.consts, binds: st.binds, regs: st.regs }
}

pub open spec fn define(st: CState, name: Seq<char>, b: CompileBinding) -> CState {
    CState { instrs: st.instrs, consts: st.consts, binds: st.binds.push((name, b)), regs: st.regs }
}

pub open spec fn add_const(st: CState, c: SpecConst) -> CState {
    CState { instrs: st.instrs, consts: st.consts.push(c), binds: st.binds, regs: st.regs }
}

/// The next float register.
pub open spec fn alloc_float(st: CState) -> Option<(CState, FloatSlot)> {
    let r = st.regs;
    if r.floats < usize::MAX {
        Some((with_regs(st, RegisterCounts { floats: (r.floats + 1) as usize, ..r }), FloatSlot(r.floats)))
    } else {
        None
    }
}

pub open spec fn alloc_int(st: CState) -> Option<(CState, IntSlot)> {
    let r = st.regs;
    if r.ints < usize::MAX {
        Some((with_regs(st, RegisterCounts { ints: (r.ints + 1) as usize, ..r }), IntSlot(r.ints)))
    } else {
        None
    }
}

pub open spec fn alloc_bool(st: CState) -> Option<(CState, BoolSlot)> {
    let r = st.regs;
    if r.bools < usize::MAX {
        Some((with_regs(st, RegisterCounts { bools: (r.bools + 1) as usize, ..r }), BoolSlot(r.bools)))
    } else {
        None
    }
}

pub open spec fn alloc_color(st: CState) -> Option<(CState, ColorSlot)> {
    let r = st.regs;
    if r.colors < usize::MAX {
        Some((with_regs(st, RegisterCounts { colors: (r.colors + 1) as usize, ..r }), ColorSlot(r.colors)))
    } else {
        None
    }
}

/// A register for a value of type `t`; values that sample bytecode does not
/// hold (generator values, arrays, nothing) have none.
pub open spec fn alloc_slot(st: CState, t: ScriptType) -> Option<(CState, ValueSlot)> {
    let r = st.regs;
    match t {
        ScriptType::Float => match alloc_float(st) {
            Some((s, d)) => Some((s, ValueSlot::Float(d))),
            None => None,
        },
        ScriptType::Int => match alloc_int(st) {
            Some((s, d)) => Some((s, ValueSlot::Int(d))),
            None => None,
        },
        ScriptType::Bool => match alloc_bool(st) {
            Some((s, d)) => Some((s, ValueSlot::Bool(d))),
            None => None,
        },
        ScriptType::Color => match alloc_color(st) {
            Some((s, d)) => Some((s, ValueSlot::Color(d))),
            None => None,
        },
        ScriptType::Marks | ScriptType::CurveFloat | ScriptType::CurveColor | ScriptType::Enum
        | ScriptType::Flags => if r.refs < usize::MAX {
            Some((with_regs(st, RegisterCounts { refs: (r.refs + 1) as usize, ..r }), ValueSlot::Ref(RefSlot(r.refs), t)))
        } else {
            None
        },
        ScriptType::Fixture => if r.fixtures < usize::MAX {
            Some(
                (
                    with_regs(st, RegisterCounts { fixtures: (r.fixtures + 1) as usize, ..r }),
                    ValueSlot::Fixture(FixtureSlot(r.fixtures)),
                ),
            )
        } else {
            None
        },
        ScriptType::Pixel => if r.pixels < usize::MAX {
            Some(
                (
                    with_regs(st, RegisterCounts { pixels: (r.pixels + 1) as usize, ..r }),
                    ValueSlot::Pixel(PixelSlot(r.pixels)),
                ),
            )
        } else {
            None
        },
        _ => None,
    }
}

/// Sets the target of the jump at `index` to the end of the code so far.
pub open spec fn patch(st: CState, index: int) -> Option<CState> {
    let target = st.instrs.len() as usize;
    if 0 <= index < st.instrs.len() {
        match st.instrs[index] {
            Instruction::JumpIfFalse(c, _) => Some(
                CState { instrs: st.instrs.update(index, Instruction::JumpIfFalse(c, target)), ..st },
            ),
            Instruction::JumpIfTrue(c, _) => Some(
                CState { instrs: st.instrs.update(index, Instruction::JumpIfTrue(c, target)), ..st },
            ),
            Instruction::Jump(_) => Some(CState { instrs: st.instrs.update(index, Instruction::Jump(target)), ..st }),
            _ => None,
        }
    } else {
        None
    }
}

/// Loads a new constant into a new register.
pub open spec fn load_constant(st: CState, c: SpecConst) -> Option<(CState, ValueSlot)> {
    let index = st.consts.len() as usize;
    match alloc_slot(add_const(st, c), const_type(c)) {
        Some((s, dest)) => Some((emit(s, Instruction::LoadConst(dest, index)), dest)),
        None => None,
    }
}

/// Stores `source` into `dest`, promoting an int to a float.
pub open spec fn emit_assign(st: CState, dest: ValueSlot, source: ValueSlot) -> Option<CState> {
    match (dest, source) {
        (ValueSlot::Float(d), ValueSlot::Int(s)) => Some(emit(st, Instruction::IntToFloat(d, s))),
        _ => if slot_type(dest) == slot_type(source) {
            Some(emit(st, Instruction::Copy(dest, source)))
        } else {
            None
        },
    }
}

pub open spec fn float_compare(l: ScriptType, r: ScriptType) -> bool {
    spec_is_float_compatible(l) && spec_is_float_compatible(r) && (l == ScriptType::Float || r == ScriptType::Float)
}

/// The instruction that applies `op` to operands of types `l` and `r`.
pub open spec fn spec_binary_instruction(l: ScriptType, op: BinaryOp, r: ScriptType) -> Option<BinaryInstruction> {
    let mixed = (l == ScriptType::Float && r == ScriptType::Float) || (l == ScriptType::Float && r == ScriptType::Int)
        || (l == ScriptType::Int && r == ScriptType::Float);
    let ints = l == ScriptType::Int && r == ScriptType::Int;
    let fc = float_compare(l, r);
    if op == BinaryOp::Add && mixed {
        Some(BinaryInstruction::FloatAdd)
    } else if op == BinaryOp::Subtract && mixed {
        Some(BinaryInstruction::FloatSubtract)
    } else if op == BinaryOp::Multiply && mixed {
        Some(BinaryInstruction::FloatMultiply)
    } else if op == BinaryOp::Divide && mixed {
        Some(BinaryInstruction::FloatDivide)
    } else if op == BinaryOp::Add && ints {
        Some(BinaryInstruction::IntAdd)
    } else if op == BinaryOp::Subtract && ints {
        Some(BinaryInstruction::IntSubtract)
    } else if op == BinaryOp::Multiply && ints {
        Some(BinaryInstruction::IntMultiply)
    } else if op == BinaryOp::Divide && ints {
        Some(BinaryInstruction::IntDivide)
    } else if op == BinaryOp::Less && fc {
        Some(BinaryInstruction::FloatLess)
    } else if op == BinaryOp::LessEqual && fc {
        Some(BinaryInstruction::FloatLessEqual)
    } else if op == BinaryOp::Greater && fc {
        Some(BinaryInstruction::FloatGreater)
    } else if op == BinaryOp::GreaterEqual && fc {
        Some(BinaryInstruction::FloatGreaterEqual)
    } else if op == BinaryOp::Less && ints {
        Some(BinaryInstruction::IntLess)
    } else if op == BinaryOp::LessEqual && ints {
        Some(BinaryInstruction::IntLessEqual)
    } else if op == BinaryOp::Greater && ints {
        Some(BinaryInstruction::IntGreater)
    } else if op == BinaryOp::GreaterEqual && ints {
        Some(BinaryInstruction::IntGreaterEqual)
    } else if op == BinaryOp::Equal && fc {
        Some(BinaryInstruction::FloatEqual)
    } else if op == BinaryOp::NotEqual && fc {
        Some(BinaryInstruction::FloatNotEqual)
    } else if op == BinaryOp::Equal && ints {
        Some(BinaryInstruction::IntEqual)
    } else if op == BinaryOp::NotEqual && ints {
        Some(BinaryInstruction::IntNotEqual)
    } else if op == BinaryOp::Equal && l == ScriptType::Bool && r == ScriptType::Bool {
        Some(BinaryInstruction::BoolEqual)
    } else if op == BinaryOp::NotEqual && l == ScriptType::Bool && r == ScriptType::Bool {
        Some(BinaryInstruction::BoolNotEqual)
    } else if op == BinaryOp::Equal && l == ScriptType::Enum && r == ScriptType::Enum {
        Some(BinaryInstruction::EnumEqual)
    } else if op == BinaryOp::NotEqual && l == ScriptType::Enum && r == ScriptType::Enum {
        Some(BinaryInstruction::EnumNotEqual)
    } else if op == BinaryOp::Multiply && l == ScriptType::Color && spec_is_float_compatible(r) {
        Some(BinaryInstruction::ColorMultiplyFloat)
    } else if op == BinaryOp::Multiply && r == ScriptType::Color && spec_is_float_compatible(l) {
        Some(BinaryInstruction::FloatMultiplyColor)
    } else {
        None
    }
}

/// Whether the operand on the given side of `ins` must be a float.
pub open spec fn needs_float(ins: BinaryInstruction, is_left: bool) -> bool {
    match ins {
        BinaryInstruction::FloatAdd | BinaryInstruction::FloatSubtract | BinaryInstruction::FloatMultiply
        | BinaryInstruction::FloatDivide | BinaryInstruction::FloatLess | BinaryInstruction::FloatLessEqual
        | BinaryInstruction::FloatGreater | BinaryInstruction::FloatGreaterEqual | BinaryInstruction::FloatEqual
        | BinaryInstruction::FloatNotEqual => true,
        BinaryInstruction::ColorMultiplyFloat => !is_left,
        BinaryInstruction::FloatMultiplyColor => is_left,
        _ => false,
    }
}

/// An int operand that `ins` reads as a float is first converted.
pub open spec fn promote(st: CState, slot: ValueSlot, ins: BinaryInstruction, is_left: bool) -> Option<
    (CState, ValueSlot),
> {
    match slot {
        ValueSlot::Int(s) => if needs_float(ins, is_left) {
            match alloc_float(st) {
                Some((st1, d)) => Some((emit(st1, Instruction::IntToFloat(d, s)), ValueSlot::Float(d))),
                None => None,
            }
        } else {
            Some((st, slot))
        },
        _ => Some((st, slot)),
    }
}

/// The type of `e` as the compiler sees it.
pub open spec fn c_expr_type(st: CState, e: Expr) -> Option<ScriptType>
    decreases e, 2int,
{
    match e {
        Expr::Float(_) => Some(ScriptType::Float),
        Expr::Int(_) => Some(ScriptType::Int),
        Expr::Bool(_) => Some(ScriptType::Bool),
        Expr::Color(_) => Some(ScriptType::Color),
        Expr::Ident(name) => match find_binding(st.binds, name@) {
            Some(CompileBinding::Context(c)) => Some(context_type(c)),
            Some(CompileBinding::Constant(i)) => if i < st.consts.len() {
                Some(const_type(st.consts[i as int]))
            } else {
                None
            },
            Some(CompileBinding::Param { value_type, .. }) => Some(value_type),
            Some(CompileBinding::Local(slot)) => Some(slot_type(slot)),
            None => None,
        },
        Expr::Unary { op, expr } => match op {
            UnaryOp::Negate => c_expr_type(st, *expr),
            UnaryOp::Not => Some(ScriptType::Bool),
        },
        Expr::Binary { left, op, right } => match (c_expr_type(st, *left), c_expr_type(st, *right)) {
            (Some(l), Some(r)) => spec_binary_result_type(l, op, r),
            _ => None,
        },
        Expr::Call { name, args } => c_call_type(st, name@, args@),
        _ => None,
    }
}

/// The type a call of `name` gives.
pub open spec fn c_call_type(st: CState, name: Seq<char>, args: Seq<Expr>) -> Option<ScriptType>
    decreases args, 1int,
{
    match find_binding(st.binds, name) {
        Some(CompileBinding::Param { value_type, .. }) => if value_type == ScriptType::CurveFloat {
            Some(ScriptType::Float)
        } else if value_type == ScriptType::CurveColor {
            Some(ScriptType::Color)
        } else {
            None
        },
        _ => match c_args_types(st, args) {
            Some(ts) => match function_named(name) {
                Some(f) => spec_return_type_for_kind(f, ts, EffectScriptKind::Sample),
                None => None,
            },
            None => None,
        },
    }
}

/// The types of call arguments, left to right.
pub open spec fn c_args_types(st: CState, args: Seq<Expr>) -> Option<Seq<ScriptType>>
    decreases args, 0int,
{
    if args.len() == 0 {
        Some(seq![])
    } else {
        match (c_args_types(st, args.drop_last()), c_expr_type(st, args.last())) {
            (Some(ts), Some(t)) => Some(ts.push(t)),
            _ => None,
        }
    }
}

/// Reads the value a name stands for into a register; a local already is one.
pub open spec fn load_binding(st: CState, b: Option<CompileBinding>) -> Option<(CState, ValueSlot)> {
    match b {
        Some(CompileBinding::Context(c)) => match alloc_slot(st, context_type(c)) {
            Some((s, dest)) => Some((emit(s, Instruction::LoadContext(dest, spec_context_slot(c))), dest)),
            None => None,
        },
        Some(CompileBinding::Constant(i)) => if i < st.consts.len() {
            match alloc_slot(st, const_type(st.consts[i as int])) {
                Some((s, dest)) => Some((emit(s, Instruction::LoadConst(dest, i)), dest)),
                None => None,
            }
        } else {
            None
        },
        Some(CompileBinding::Param { index, value_type }) => match alloc_slot(st, value_type) {
            Some((s, dest)) => Some((emit(s, Instruction::LoadParam(dest, index)), dest)),
            None => None,
        },
        Some(CompileBinding::Local(slot)) => Some((st, slot)),
        None => None,
    }
}

/// Applies a unary operator to the value in `v`.
pub open spec fn compile_unary(st: CState, op: UnaryOp, v: ValueSlot) -> Option<(CState, ValueSlot)> {
    match (op, v) {
        (UnaryOp::Negate, ValueSlot::Float(s)) => match alloc_float(st) {
            Some((st1, d)) => Some(
                (emit(st1, Instruction::FloatUnary(d, UnaryFloatInstruction::Negate, s)), ValueSlot::Float(d)),
            ),
            None => None,
        },
        (UnaryOp::Negate, ValueSlot::Int(s)) => match alloc_int(st) {
            Some((st1, d)) => Some((emit(st1, Instruction::IntNegate(d, s)), ValueSlot::Int(d))),
            None => None,
        },
        (UnaryOp::Not, ValueSlot::Bool(s)) => match alloc_bool(st) {
            Some((st1, d)) => Some((emit(st1, Instruction::BoolNot(d, s)), ValueSlot::Bool(d))),
            None => None,
        },
        _ => None,
    }
}

/// The last step of an arithmetic or comparison operator, once both operands
/// are in registers.
pub open spec fn finish_binary(
    st: CState,
    lt: ScriptType,
    op: BinaryOp,
    rt: ScriptType,
    l: ValueSlot,
    r: ValueSlot,
) -> Option<(CState, ValueSlot)> {
    match (spec_binary_instruction(lt, op, rt), spec_binary_result_type(lt, op, rt)) {
        (Some(ins), Some(rty)) => match alloc_slot(st, rty) {
            Some((st1, dest)) => match promote(st1, l, ins, true) {
                Some((st2, l2)) => match promote(st2, r, ins, false) {
                    Some((st3, r2)) => Some((emit(st3, Instruction::Binary(dest, ins, l2, r2)), dest)),
                    None => None,
                },
                None => None,
            },
            None => None,
        },
        _ => None,
    }
}

/// Compiles `e`: the state after it and the register that holds its value.
pub open spec fn spec_compile_expr(st: CState, e: Expr) -> Option<(CState, ValueSlot)>
    decreases e, 4int,
{
    match e {
        Expr::Float(bits) => load_constant(st, SpecConst::Float(bits)),
        Expr::Int(v) => load_constant(st, SpecConst::Int(v)),
        Expr::Bool(b) => load_constant(st, SpecConst::Bool(b)),
        Expr::Color(c) => load_constant(st, SpecConst::Color(c)),
        Expr::Ident(name) => load_binding(st, find_binding(st.binds, name@)),
        Expr::Unary { op, expr } => match spec_compile_expr(st, *expr) {
            Some((st1, v)) => compile_unary(st1, op, v),
            None => None,
        },
        Expr::Binary { .. } => spec_compile_binary(st, e),
        Expr::Call { name, args } => spec_compile_call(st, name@, args@),
        _ => None,
    }
}

/// Compiles a binary expression; `&&` and `||` skip their right operand.
pub open spec fn spec_compile_binary(st: CState, e: Expr) -> Option<(CState, ValueSlot)>
    decreases e, 3int,
{
    match e {
        Expr::Binary { left, op, right } => if op == BinaryOp::LogicalAnd || op == BinaryOp::LogicalOr {
            match alloc_bool(st) {
                Some((st1, dest)) => match spec_compile_expr(st1, *left) {
                    Some((st2, ValueSlot::Bool(l))) => {
                        let st3 = emit(st2, Instruction::Copy(ValueSlot::Bool(dest), ValueSlot::Bool(l)));
                        let j = st3.instrs.len() as int;
                        let st4 = emit(
                            st3,
                            if op == BinaryOp::LogicalAnd {
                                Instruction::JumpIfFalse(dest, usize::MAX)
                            } else {
                                Instruction::JumpIfTrue(dest, usize::MAX)
                            },
                        );
                        match spec_compile_expr(st4, *right) {
                            Some((st5, ValueSlot::Bool(r))) => match patch(
                                emit(st5, Instruction::Copy(ValueSlot::Bool(dest), ValueSlot::Bool(r))),
                                j,
                            ) {
                                Some(st6) => Some((st6, ValueSlot::Bool(dest))),
                                None => None,
                            },
                            _ => None,
                        }
                    },
                    _ => None,
                },
                None => None,
            }
        } else {
            match (c_expr_type(st, *left), c_expr_type(st, *right)) {
                (Some(lt), Some(rt)) => match spec_compile_expr(st, *left) {
                    Some((st1, l)) => match spec_compile_expr(st1, *right) {
                        Some((st2, r)) => finish_binary(st2, lt, op, rt, l, r),
                        None => None,
                    },
                    None => None,
                },
                _ => None,
            }
        },
        _ => None,
    }
}

/// Compiles an argument that a builtin reads as a float.
pub open spec fn spec_compile_float_arg(st: CState, e: Expr) -> Option<(CState, FloatSlot)>
    decreases e, 5int,
{
    match spec_compile_expr(st, e) {
        Some((st1, ValueSlot::Float(f))) => Some((st1, f)),
        Some((st1, ValueSlot::Int(i))) => match alloc_float(st1) {
            Some((st2, d)) => Some((emit(st2, Instruction::IntToFloat(d, i)), d)),
            None => None,
        },
        _ => None,
    }
}

/// A call of `name`: a curve parameter, or a builtin function.
pub open spec fn spec_compile_call(st: CState, name: Seq<char>, args: Seq<Expr>) -> Option<(CState, ValueSlot)>
    decreases args, 3int,
{
    match find_binding(st.binds, name) {
        Some(CompileBinding::Param { index, value_type }) if value_type == ScriptType::CurveFloat || value_type
            == ScriptType::CurveColor => if args.len() == 0 {
            None
        } else {
            match spec_compile_float_arg(st, args[0]) {
                Some((st1, amount)) => if value_type == ScriptType::CurveFloat {
                    match alloc_float(st1) {
                        Some((st2, d)) => Some(
                            (emit(st2, Instruction::CallFloatCurveParam(d, index, amount)), ValueSlot::Float(d)),
                        ),
                        None => None,
                    }
                } else {
                    match alloc_color(st1) {
                        Some((st2, d)) => Some(
                            (emit(st2, Instruction::CallColorCurveParam(d, index, amount)), ValueSlot::Color(d)),
                        ),
                        None => None,
                    }
                },
                None => None,
            }
        },
        _ => match function_named(name) {
            Some(f) => spec_compile_builtin(st, f, name, args),
            None => None,
        },
    }
}

/// The first two arguments, compiled as floats, left to right.
pub open spec fn spec_compile_float2(st: CState, args: Seq<Expr>) -> Option<(CState, FloatSlot, FloatSlot)>
    decreases args, 1int,
{
    if args.len() < 2 {
        None
    } else {
        match spec_compile_float_arg(st, args[0]) {
            Some((st1, a)) => match spec_compile_float_arg(st1, args[1]) {
                Some((st2, b)) => Some((st2, a, b)),
                None => None,
            },
            None => None,
        }
    }
}

/// The first three arguments, compiled as floats, left to right.
pub open spec fn spec_compile_float3(st: CState, args: Seq<Expr>) -> Option<
    (CState, FloatSlot, FloatSlot, FloatSlot),
>
    decreases args, 1int,
{
    if args.len() < 3 {
        None
    } else {
        match spec_compile_float_arg(st, args[0]) {
            Some((st1, a)) => match spec_compile_float_arg(st1, args[1]) {
                Some((st2, b)) => match spec_compile_float_arg(st2, args[2]) {
                    Some((st3, c)) => Some((st3, a, b, c)),
                    None => None,
                },
                None => None,
            },
            None => None,
        }
    }
}

/// The instruction of a builtin that maps one float to a float.
pub open spec fn float1_instruction(f: BuiltinFunction, d: FloatSlot, a: FloatSlot) -> Instruction {
    match f {
        BuiltinFunction::Cos => Instruction::Cos(d, a),
        BuiltinFunction::Abs => Instruction::Abs(d, a),
        BuiltinFunction::Floor => Instruction::Floor(d, a),
        BuiltinFunction::Srand => Instruction::Srand(d, a),
        _ => Instruction::Sin(d, a),
    }
}

/// The search a mark builtin makes.
pub open spec fn mark_search(f: BuiltinFunction) -> MarkSearchInstruction {
    match f {
        BuiltinFunction::MarkNext => MarkSearchInstruction::Next,
        BuiltinFunction::MarkNearest => MarkSearchInstruction::Nearest,
        BuiltinFunction::MarkPhase => MarkSearchInstruction::Phase,
        BuiltinFunction::MarkElapsed => MarkSearchInstruction::Elapsed,
        _ => MarkSearchInstruction::Prev,
    }
}

/// Emits `ins` made for a new float register.
pub open spec fn to_float(st: CState, ins: spec_fn(FloatSlot) -> Instruction) -> Option<(CState, ValueSlot)> {
    match alloc_float(st) {
        Some((st1, d)) => Some((emit(st1, ins(d)), ValueSlot::Float(d))),
        None => None,
    }
}

/// Emits `ins` made for a new color register.
pub open spec fn to_color(st: CState, ins: spec_fn(ColorSlot) -> Instruction) -> Option<(CState, ValueSlot)> {
    match alloc_color(st) {
        Some((st1, d)) => Some((emit(st1, ins(d)), ValueSlot::Color(d))),
        None => None,
    }
}

/// Emits `ins` made for a new int register.
pub open spec fn to_int(st: CState, ins: spec_fn(IntSlot) -> Instruction) -> Option<(CState, ValueSlot)> {
    match alloc_int(st) {
        Some((st1, d)) => Some((emit(st1, ins(d)), ValueSlot::Int(d))),
        None => None,
    }
}

/// A call of the builtin function `f`.
pub open spec fn spec_compile_builtin(st: CState, f: BuiltinFunction, name: Seq<char>, args: Seq<Expr>) -> Option<
    (CState, ValueSlot),
>
    decreases args, 2int,
{
    match f {
        BuiltinFunction::Sin | BuiltinFunction::Cos | BuiltinFunction::Abs | BuiltinFunction::Floor
        | BuiltinFunction::Srand => if args.len() < 1 {
            None
        } else {
            match spec_compile_float_arg(st, args[0]) {
                Some((st1, a)) => to_float(st1, |d: FloatSlot| float1_instruction(f, d, a)),
                None => None,
            }
        },
        BuiltinFunction::Rand => to_float(st, |d: FloatSlot| Instruction::Rand(d)),
        BuiltinFunction::PixelIndex | BuiltinFunction::PixelCount => if args.len() < 1 {
            None
        } else {
            match spec_compile_expr(st, args[0]) {
                Some((st1, ValueSlot::Pixel(p))) => to_int(
                    st1,
                    |d: IntSlot|
                        if f == BuiltinFunction::PixelIndex {
                            Instruction::PixelIndex(d, p)
                        } else {
                            Instruction::PixelCount(d, p)
                        },
                ),
                _ => None,
            }
        },
        BuiltinFunction::MarkCount => if args.len() < 1 {
            None
        } else {
            match spec_compile_expr(st, args[0]) {
                Some((st1, ValueSlot::Ref(m, _))) => to_int(st1, |d: IntSlot| Instruction::MarkCount(d, m)),
                _ => None,
            }
        },
        BuiltinFunction::MarkAt => if args.len() < 3 {
            None
        } else {
            match spec_compile_expr(st, args[0]) {
                Some((st1, ValueSlot::Ref(m, _))) => match spec_compile_expr(st1, args[1]) {
                    Some((st2, ValueSlot::Int(i))) => match spec_compile_float_arg(st2, args[2]) {
                        Some((st3, fb)) => to_float(st3, |d: FloatSlot| Instruction::MarkAt(d, m, i, fb)),
                        None => None,
                    },
                    _ => None,
                },
                _ => None,
            }
        },
        BuiltinFunction::MarkPrev | BuiltinFunction::MarkNext | BuiltinFunction::MarkNearest
        | BuiltinFunction::MarkPhase | BuiltinFunction::MarkElapsed => if args.len() < 3 {
            None
        } else {
            match spec_compile_expr(st, args[0]) {
                Some((st1, ValueSlot::Ref(m, _))) => match spec_compile_float_arg(st1, args[1]) {
                    Some((st2, t)) => match spec_compile_float_arg(st2, args[2]) {
                        Some((st3, fb)) => to_float(
                            st3,
                            |d: FloatSlot| Instruction::MarkSearch(d, mark_search(f), m, t, fb),
                        ),
                        None => None,
                    },
                    None => None,
                },
                _ => None,
            }
        },
        BuiltinFunction::CurveCrossing => if args.len() < 3 {
            None
        } else {
            match curve_float_param(st, args[0]) {
                Some(index) => match spec_compile_float_arg(st, args[1]) {
                    Some((st1, v)) => match spec_compile_float_arg(st1, args[2]) {
                        Some((st2, fb)) => to_float(
                            st2,
                            |d: FloatSlot| Instruction::CurveParamCrossing(d, index, v, fb),
                        ),
                        None => None,
                    },
                    None => None,
                },
                None => match spec_compile_expr(st, args[0]) {
                    Some((st1, ValueSlot::Ref(c, _))) => match spec_compile_float_arg(st1, args[1]) {
                        Some((st2, v)) => match spec_compile_float_arg(st2, args[2]) {
                            Some((st3, fb)) => to_float(st3, |d: FloatSlot| Instruction::CurveCrossing(d, c, v, fb)),
                            None => None,
                        },
                        None => None,
                    },
                    _ => None,
                },
            }
        },
        BuiltinFunction::Min | BuiltinFunction::Max => match spec_compile_float2(st, args) {
            Some((st1, a, b)) => to_float(
                st1,
                |d: FloatSlot|
                    if f == BuiltinFunction::Min {
                        Instruction::Min(d, a, b)
                    } else {
                        Instruction::Max(d, a, b)
                    },
            ),
            None => None,
        },
        BuiltinFunction::Clamp | BuiltinFunction::Smoothstep => match spec_compile_float3(st, args) {
            Some((st1, a, b, c)) => to_float(
                st1,
                |d: FloatSlot|
                    if f == BuiltinFunction::Clamp {
                        Instruction::Clamp(d, a, b, c)
                    } else {
                        Instruction::Smoothstep(d, a, b, c)
                    },
            ),
            None => None,
        },
        BuiltinFunction::Mix => match c_call_type(st, name, args) {
            Some(ScriptType::Color) => if args.len() < 3 {
                None
            } else {
                match spec_compile_expr(st, args[0]) {
                    Some((st1, ValueSlot::Color(a))) => match spec_compile_expr(st1, args[1]) {
                        Some((st2, ValueSlot::Color(b))) => match spec_compile_float_arg(st2, args[2]) {
                            Some((st3, t)) => to_color(st3, |d: ColorSlot| Instruction::MixColor(d, a, b, t)),
                            None => None,
                        },
                        _ => None,
                    },
                    _ => None,
                }
            },
            Some(_) => match spec_compile_float3(st, args) {
                Some((st1, a, b, c)) => to_float(st1, |d: FloatSlot| Instruction::MixFloat(d, a, b, c)),
                None => None,
            },
            None => None,
        },
        BuiltinFunction::Rgb | BuiltinFunction::Hsv => match spec_compile_float3(st, args) {
            Some((st1, a, b, c)) => to_color(
                st1,
                |d: ColorSlot|
                    if f == BuiltinFunction::Rgb {
                        Instruction::Rgb(d, a, b, c)
                    } else {
                        Instruction::Hsv(d, a, b, c)
                    },
            ),
            None => None,
        },
        _ => None,
    }
}

/// The index of the float curve parameter that `e` names, when it is one.
pub open spec fn curve_float_param(st: CState, e: Expr) -> Option<usize> {
    match e {
        Expr::Ident(name) => match find_binding(st.binds, name@) {
            Some(CompileBinding::Param { index, value_type }) => if value_type == ScriptType::CurveFloat {
                Some(index)
            } else {
                None
            },
            _ => None,
        },
        _ => None,
    }
}

/// Compiles one statement of a sample entrypoint.
pub open spec fn spec_compile_stmt(st: CState, s: Stmt) -> Option<CState>
    decreases s,
{
    match s {
        Stmt::Let { name, value_type, expr } => match alloc_slot(st, value_type) {
            Some((st1, local)) => match spec_compile_expr(st1, expr) {
                Some((st2, value)) => match emit_assign(st2, local, value) {
                    Some(st3) => Some(define(st3, name@, CompileBinding::Local(local))),
                    None => None,
                },
                None => None,
            },
            None => None,
        },
        Stmt::Assign { name, expr } => match find_binding(st.binds, name@) {
            Some(CompileBinding::Local(local)) => match spec_compile_expr(st, expr) {
                Some((st1, value)) => emit_assign(st1, local, value),
                None => None,
            },
            _ => None,
        },
        Stmt::Expr(e) => match spec_compile_expr(st, e) {
            Some((st1, _)) => Some(st1),
            None => None,
        },
        Stmt::For { name, value_type, initializer, condition, update, body } => {
            let mark = st.binds.len() as int;
            match alloc_slot(st, value_type) {
                Some((st1, local)) => match spec_compile_expr(st1, initializer) {
                    Some((st2, init)) => match emit_assign(st2, local, init) {
                        Some(st3) => {
                            let st4 = define(st3, name@, CompileBinding::Local(local));
                            let loop_start = st4.instrs.len() as usize;
                            match spec_compile_expr(st4, condition) {
                                Some((st5, ValueSlot::Bool(c))) => {
                                    let exit = st5.instrs.len() as int;
                                    let st6 = emit(
                                        emit(st5, Instruction::JumpIfFalse(c, usize::MAX)),
                                        Instruction::LoopTick,
                                    );
                                    let inner = st6.binds.len() as int;
                                    match spec_compile_stmts(st6, body@) {
                                        Some(st7) => match spec_compile_stmt(close_scope(st7, inner), *update) {
                                            Some(st8) => match patch(emit(st8, Instruction::Jump(loop_start)), exit) {
                                                Some(st9) => Some(close_scope(st9, mark)),
                                                None => None,
                                            },
                                            None => None,
                                        },
                                        None => None,
                                    }
                                },
                                _ => None,
                            }
                        },
                        None => None,
                    },
                    None => None,
                },
                None => None,
            }
        },
        Stmt::If { condition, then_body, else_body } => match spec_compile_expr(st, condition) {
            Some((st1, ValueSlot::Bool(c))) => {
                let j = st1.instrs.len() as int;
                let st2 = emit(st1, Instruction::JumpIfFalse(c, usize::MAX));
                let m = st2.binds.len() as int;
                match spec_compile_stmts(st2, then_body@) {
                    Some(st3) => {
                        let st4 = close_scope(st3, m);
                        let end = st4.instrs.len() as int;
                        match patch(emit(st4, Instruction::Jump(usize::MAX)), j) {
                            Some(st5) => {
                                let m2 = st5.binds.len() as int;
                                match spec_compile_stmts(st5, else_body@) {
                                    Some(st6) => patch(close_scope(st6, m2), end),
                                    None => None,
                                }
                            },
                            None => None,
                        }
                    },
                    None => None,
                }
            },
            _ => None,
        },
        Stmt::Return(e) => match spec_compile_expr(st, e) {
            Some((st1, ValueSlot::Color(c))) => Some(emit(st1, Instruction::ReturnColor(c))),
            _ => None,
        },
        Stmt::Emit(_) => None,
    }
}

/// Compiles statements in order.
pub open spec fn spec_compile_stmts(st: CState, ss: Seq<Stmt>) -> Option<CState>
    decreases ss,
{
    if ss.len() == 0 {
        Some(st)
    } else {
        match spec_compile_stmts(st, ss.drop_last()) {
            Some(st1) => spec_compile_stmt(st1, ss.last()),
            None => None,
        }
    }
}

/// The bit pattern of the float value of a builtin constant.
pub open spec fn constant_bits(c: BuiltinConstant) -> u64 {
    match c {
        BuiltinConstant::Pi => 0x400921FB54442D18u64,
        BuiltinConstant::Tau => 0x401921FB54442D18u64,
    }
}

/// Defines a builtin constant as a new float constant.
pub open spec fn define_constant(st: CState, name: Seq<char>, c: BuiltinConstant) -> CState {
    let index = st.consts.len() as usize;
    define(add_const(st, SpecConst::Float(constant_bits(c))), name, CompileBinding::Constant(index))
}

/// Defines each enum option as a constant of its own name.
pub open spec fn define_options(st: CState, options: Seq<Seq<char>>) -> CState
    decreases options.len(),
{
    if options.len() == 0 {
        st
    } else {
        let st1 = define_options(st, options.drop_last());
        let index = st1.consts.len() as usize;
        define(add_const(st1, SpecConst::Enum(options.last())), options.last(), CompileBinding::Constant(index))
    }
}

pub open spec fn options_view(options: Seq<String>) -> Seq<Seq<char>> {
    options.map_values(|o: String| o@)
}

/// Defines the parameters, in order, with the options of enum parameters.
pub open spec fn define_params(st: CState, params: Seq<EffectParamSchema>) -> CState
    decreases params.len(),
{
    if params.len() == 0 {
        st
    } else {
        let st1 = define_params(st, params.drop_last());
        let p = params.last();
        let st2 = define(
            st1,
            p.name@,
            CompileBinding::Param { index: (params.len() - 1) as usize, value_type: p.value_type },
        );
        if p.value_type == ScriptType::Enum {
            define_options(st2, options_view(p.options@))
        } else {
            st2
        }
    }
}

/// The names every sample starts with: the context values, the constants, and
/// the parameters.
pub open spec fn initial_state(params: Seq<EffectParamSchema>) -> CState {
    let empty = CState {
        instrs: seq![],
        consts: seq![],
        binds: seq![],
        regs: RegisterCounts { floats: 0, ints: 0, bools: 0, colors: 0, refs: 0, fixtures: 0, pixels: 0 },
    };
    let st1 = define(
        define(
            define(
                define(empty, "progress"@, CompileBinding::Context(BuiltinContext::Progress)),
                "seconds"@,
                CompileBinding::Context(BuiltinContext::Seconds),
            ),
            "fixture"@,
            CompileBinding::Context(BuiltinContext::Fixture),
        ),
        "pixel"@,
        CompileBinding::Context(BuiltinContext::Pixel),
    );
    let st2 = define_constant(define_constant(st1, "PI"@, BuiltinConstant::Pi), "TAU"@, BuiltinConstant::Tau);
    define_params(st2, params)
}

/// What compiling `effect` gives: the final state, or `None` when it is not a
/// sample or its body is not one that type checks.
pub open spec fn spec_compile_effect(effect: EffectAst) -> Option<CState> {
    match effect.entrypoint {
        EffectEntrypoint::Sample(ss) => spec_compile_stmts(initial_state(effect.params@), ss@),
        EffectEntrypoint::Generator(_) => None,
    }
}

/// A step's outcome against what the specification gives: the same value and
/// the same state after, or `None` where the specification has none.
pub open spec fn matches_outcome<T>(r: Option<T>, after: CState, expected: Option<(CState, T)>) -> bool {
    match expected {
        Some((st, v)) => r == Some(v) && after == st,
        None => r is None,
    }
}

pub open spec fn cbinds_view(bs: Seq<(String, CompileBinding)>) -> Seq<(Seq<char>, CompileBinding)> {
    bs.map_values(|e: (String, CompileBinding)| (e.0@, e.1))
}

/// The compiler: the program so far and the names in scope.
struct Compiler {
    instructions: Vec<Instruction>,
    constants: Vec<ConstantValue>,
    bindings: Vec<(String, CompileBinding)>,
    registers: RegisterCounts,
}

impl Compiler {
    spec fn state(&self) -> CState {
        CState {
            instrs: self.instructions@,
            consts: consts_view(self.constants@),
            binds: cbinds_view(self.bindings@),
            regs: self.registers,
        }
    }

    fn lookup(&self, name: &str) -> (r: Option<CompileBinding>)
        ensures
            r == find_binding(self.state().binds, name@),
    {
        let ghost bs = self.state().binds;
        let mut i = self.bindings.len();
        assert(bs.subrange(0, i as int) =~= bs);
        while i > 0
            invariant
                i <= self.bindings@.len(),
                bs == self.state().binds,
                find_binding(bs, name@) == find_binding(bs.subrange(0, i as int), name@),
            decreases i,
        {
            let ghost sub = bs.subrange(0, i as int);
            assert(sub.drop_last() =~= bs.subrange(0, i - 1));
            assert(sub.last() == (self.bindings@[i - 1].0@, self.bindings@[i - 1].1));
            if str_eq(self.bindings[i - 1].0.as_str(), name) {
                return Some(self.bindings[i - 1].1);
            }
            i -= 1;
        }
        None
    }

    fn emit(&mut self, ins: Instruction)
        ensures
            final(self).state() == emit(old(self).state(), ins),
    {
        self.instructions.push(ins);
        assert(self.state() =~= emit(old(self).state(), ins));
    }

    fn define(&mut self, name: &str, b: CompileBinding)
        ensures
            final(self).state() == define(old(self).state(), name@, b),
    {
        let ghost before = self.bindings@;
        self.bindings.push((String::from_str(name), b));
        assert(cbinds_view(self.bindings@) =~= cbinds_view(before).push((name@, b)));
        assert(self.state() =~= define(old(self).state(), name@, b));
    }

    fn add_const(&mut self, c: ConstantValue) -> (index: usize)
        ensures
            final(self).state() == add_const(old(self).state(), c@),
            index == old(self).state().consts.len(),
    {
        let index = self.constants.len();
        let ghost before = self.constants@;
        self.constants.push(c);
        assert(consts_view(self.constants@) =~= consts_view(before).push(c@));
        assert(self.state() =~= add_const(old(self).state(), c@));
        index
    }

    fn alloc_float(&mut self) -> (r: Option<FloatSlot>)
        ensures
            matches_outcome(r, final(self).state(), alloc_float(old(self).state())),
    {
        if self.registers.floats == usize::MAX {
            return None;
        }
        let slot = FloatSlot(self.registers.floats);
        self.registers.floats = self.registers.floats + 1;
        assert(self.state() =~= alloc_float(old(self).state()).unwrap().0);
        Some(slot)
    }

    fn alloc_int(&mut self) -> (r: Option<IntSlot>)
        ensures
            matches_outcome(r, final(self).state(), alloc_int(old(self).state())),
    {
        if self.registers.ints == usize::MAX {
            return None;
        }
        let slot = IntSlot(self.registers.ints);
        self.registers.ints = self.registers.ints + 1;
        assert(self.state() =~= alloc_int(old(self).state()).unwrap().0);
        Some(slot)
    }

    fn alloc_bool(&mut self) -> (r: Option<BoolSlot>)
        ensures
            matches_outcome(r, final(self).state(), alloc_bool(old(self).state())),
    {
        if self.registers.bools == usize::MAX {
            return None;
        }
        let slot = BoolSlot(self.registers.bools);
        self.registers.bools = self.registers.bools + 1;
        assert(self.state() =~= alloc_bool(old(self).state()).unwrap().0);
        Some(slot)
    }

    fn alloc_color(&mut self) -> (r: Option<ColorSlot>)
        ensures
            matches_outcome(r, final(self).state(), alloc_color(old(self).state())),
    {
        if self.registers.colors == usize::MAX {
            return None;
        }
        let slot = ColorSlot(self.registers.colors);
        self.registers.colors = self.registers.colors + 1;
        assert(self.state() =~= alloc_color(old(self).state()).unwrap().0);
        Some(slot)
    }

    /// A register for a value of type `value_type`.
    fn allocate_slot(&mut self, value_type: ScriptType) -> (r: Option<ValueSlot>)
        ensures
            matches_outcome(r, final(self).state(), alloc_slot(old(self).state(), value_type)),
    {
        match value_type {
            ScriptType::Float => match self.alloc_float() {
                Some(d) => Some(ValueSlot::Float(d)),
                None => None,
            },
            ScriptType::Int => match self.alloc_int() {
                Some(d) => Some(ValueSlot::Int(d)),
                None => None,
            },
            ScriptType::Bool => match self.alloc_bool() {
                Some(d) => Some(ValueSlot::Bool(d)),
                None => None,
            },
            ScriptType::Color => match self.alloc_color() {
                Some(d) => Some(ValueSlot::Color(d)),
                None => None,
            },
            ScriptType::Marks | ScriptType::CurveFloat | ScriptType::CurveColor | ScriptType::Enum
            | ScriptType::Flags => {
                if self.registers.refs == usize::MAX {
                    return None;
                }
                let slot = RefSlot(self.registers.refs);
                self.registers.refs = self.registers.refs + 1;
                assert(self.state() =~= alloc_slot(old(self).state(), value_type).unwrap().0);
                Some(ValueSlot::Ref(slot, value_type))
            },
            ScriptType::Fixture => {
                if self.registers.fixtures == usize::MAX {
                    return None;
                }
                let slot = FixtureSlot(self.registers.fixtures);
                self.registers.fixtures = self.registers.fixtures + 1;
                assert(self.state() =~= alloc_slot(old(self).state(), value_type).unwrap().0);
                Some(ValueSlot::Fixture(slot))
            },
            ScriptType::Pixel => {
                if self.registers.pixels == usize::MAX {
                    return None;
                }
                let slot = PixelSlot(self.registers.pixels);
                self.registers.pixels = self.registers.pixels + 1;
                assert(self.state() =~= alloc_slot(old(self).state(), value_type).unwrap().0);
                Some(ValueSlot::Pixel(slot))
            },
            _ => None,
        }
    }

    /// Points the jump at `index` at the end of the code so far.
    fn patch_jump(&mut self, index: usize) -> (ok: bool)
        ensures
            match patch(old(self).state(), index as int) {
                Some(st) => ok && final(self).state() == st,
                None => !ok,
            },
    {
        let target = self.instructions.len();
        if index >= target {
            return false;
        }
        let patched = match self.instructions[index] {
            Instruction::JumpIfFalse(c, _) => Instruction::JumpIfFalse(c, target),
            Instruction::JumpIfTrue(c, _) => Instruction::JumpIfTrue(c, target),
            Instruction::Jump(_) => Instruction::Jump(target),
            _ => {
                return false;
            },
        };
        self.instructions.set(index, patched);
        assert(self.state() =~= patch(old(self).state(), index as int).unwrap());
        true
    }

    /// Loads a new constant into a new register.
    fn load_constant(&mut self, c: ConstantValue) -> (r: Option<ValueSlot>)
        ensures
            matches_outcome(r, final(self).state(), load_constant(old(self).state(), c@)),
    {
        let value_type = constant_type(&c);
        let index = self.add_const(c);
        match self.allocate_slot(value_type) {
            Some(dest) => {
                self.emit(Instruction::LoadConst(dest, index));
                Some(dest)
            },
            None => None,
        }
    }

    /// Stores `source` into `dest`.
    fn emit_assign(&mut self, dest: ValueSlot, source: ValueSlot) -> (ok: bool)
        ensures
            match emit_assign(old(self).state(), dest, source) {
                Some(st) => ok && final(self).state() == st,
                None => !ok,
            },
    {
        match (dest, source) {
            (ValueSlot::Float(d), ValueSlot::Int(s)) => {
                self.emit(Instruction::IntToFloat(d, s));
                true
            },
            _ => {
                if dest.value_type() == source.value_type() {
                    self.emit(Instruction::Copy(dest, source));
                    true
                } else {
                    false
                }
            },
        }
    }

    /// Converts an int operand that `ins` reads as a float.
    fn promote(&mut self, slot: ValueSlot, ins: BinaryInstruction, is_left: bool) -> (r: Option<ValueSlot>)
        ensures
            matches_outcome(r, final(self).state(), promote(old(self).state(), slot, ins, is_left)),
    {
        match slot {
            ValueSlot::Int(s) => {
                if needs_float_exec(ins, is_left) {
                    match self.alloc_float() {
                        Some(d) => {
                            self.emit(Instruction::IntToFloat(d, s));
                            Some(ValueSlot::Float(d))
                        },
                        None => None,
                    }
                } else {
                    Some(slot)
                }
            },
            _ => Some(slot),
        }
    }
}

fn constant_type(c: &ConstantValue) -> (t: ScriptType)
    ensures
        t == const_type(c@),
{
    match c {
        ConstantValue::Float(_) => ScriptType::Float,
        ConstantValue::Int(_) => ScriptType::Int,
        ConstantValue::Bool(_) => ScriptType::Bool,
        ConstantValue::Color(_) => ScriptType::Color,
        ConstantValue::Enum(_) => ScriptType::Enum,
        ConstantValue::Flags(_) | ConstantValue::Other => ScriptType::Void,
    }
}

fn needs_float_exec(ins: BinaryInstruction, is_left: bool) -> (b: bool)
    ensures
        b == needs_float(ins, is_left),
{
    match ins {
        BinaryInstruction::FloatAdd | BinaryInstruction::FloatSubtract | BinaryInstruction::FloatMultiply
        | BinaryInstruction::FloatDivide | BinaryInstruction::FloatLess | BinaryInstruction::FloatLessEqual
        | BinaryInstruction::FloatGreater | BinaryInstruction::FloatGreaterEqual | BinaryInstruction::FloatEqual
        | BinaryInstruction::FloatNotEqual => true,
        BinaryInstruction::ColorMultiplyFloat => !is_left,
        BinaryInstruction::FloatMultiplyColor => is_left,
        _ => false,
    }
}

/// The instruction that applies `op` to operands of types `left` and `right`.
pub fn binary_instruction(left: ScriptType, op: BinaryOp, right: ScriptType) -> (r: Option<BinaryInstruction>)
    ensures
        r == spec_binary_instruction(left, op, right),
{
    let mixed = (left == ScriptType::Float && right == ScriptType::Float) || (left == ScriptType::Float && right
        == ScriptType::Int) || (left == ScriptType::Int && right == ScriptType::Float);
    let ints = left == ScriptType::Int && right == ScriptType::Int;
    let fc = is_float_compare(left, right);
    if op == BinaryOp::Add && mixed {
        Some(BinaryInstruction::FloatAdd)
    } else if op == BinaryOp::Subtract && mixed {
        Some(BinaryInstruction::FloatSubtract)
    } else if op == BinaryOp::Multiply && mixed {
        Some(BinaryInstruction::FloatMultiply)
    } else if op == BinaryOp::Divide && mixed {
        Some(BinaryInstruction::FloatDivide)
    } else if op == BinaryOp::Add && ints {
        Some(BinaryInstruction::IntAdd)
    } else if op == BinaryOp::Subtract && ints {
        Some(BinaryInstruction::IntSubtract)
    } else if op == BinaryOp::Multiply && ints {
        Some(BinaryInstruction::IntMultiply)
    } else if op == BinaryOp::Divide && ints {
        Some(BinaryInstruction::IntDivide)
    } else if op == BinaryOp::Less && fc {
        Some(BinaryInstruction::FloatLess)
    } else if op == BinaryOp::LessEqual && fc {
        Some(BinaryInstruction::FloatLessEqual)
    } else if op == BinaryOp::Greater && fc {
        Some(BinaryInstruction::FloatGreater)
    } else if op == BinaryOp::GreaterEqual && fc {
        Some(BinaryInstruction::FloatGreaterEqual)
    } else if op == BinaryOp::Less && ints {
        Some(BinaryInstruction::IntLess)
    } else if op == BinaryOp::LessEqual && ints {
        Some(BinaryInstruction::IntLessEqual)
    } else if op == BinaryOp::Greater && ints {
        Some(BinaryInstruction::IntGreater)
    } else if op == BinaryOp::GreaterEqual && ints {
        Some(BinaryInstruction::IntGreaterEqual)
    } else if op == BinaryOp::Equal && fc {
        Some(BinaryInstruction::FloatEqual)
    } else if op == BinaryOp::NotEqual && fc {
        Some(BinaryInstruction::FloatNotEqual)
    } else if op == BinaryOp::Equal && ints {
        Some(BinaryInstruction::IntEqual)
    } else if op == BinaryOp::NotEqual && ints {
        Some(BinaryInstruction::IntNotEqual)
    } else if op == BinaryOp::Equal && left == ScriptType::Bool && right == ScriptType::Bool {
        Some(BinaryInstruction::BoolEqual)
    } else if op == BinaryOp::NotEqual && left == ScriptType::Bool && right == ScriptType::Bool {
        Some(BinaryInstruction::BoolNotEqual)
    } else if op == BinaryOp::Equal && left == ScriptType::Enum && right == ScriptType::Enum {
        Some(BinaryInstruction::EnumEqual)
    } else if op == BinaryOp::NotEqual && left == ScriptType::Enum && right == ScriptType::Enum {
        Some(BinaryInstruction::EnumNotEqual)
    } else if op == BinaryOp::Multiply && left == ScriptType::Color && is_float_compatible(right) {
        Some(BinaryInstruction::ColorMultiplyFloat)
    } else if op == BinaryOp::Multiply && right == ScriptType::Color && is_float_compatible(left) {
        Some(BinaryInstruction::FloatMultiplyColor)
    } else {
        None
    }
}

impl Compiler {
    /// The type of `e` as the compiler sees it.
    fn expr_type(&self, e: &Expr) -> (r: Option<ScriptType>)
        ensures
            r == c_expr_type(self.state(), *e),
        decreases *e, 2int,
    {
        match e {
            Expr::Float(_) => Some(ScriptType::Float),
            Expr::Int(_) => Some(ScriptType::Int),
            Expr::Bool(_) => Some(ScriptType::Bool),
            Expr::Color(_) => Some(ScriptType::Color),
            Expr::Ident(name) => match self.lookup(name.as_str()) {
                Some(CompileBinding::Context(c)) => Some(c.value_type()),
                Some(CompileBinding::Constant(i)) => {
                    if i < self.constants.len() {
                        Some(constant_type(&self.constants[i]))
                    } else {
                        None
                    }
                },
                Some(CompileBinding::Param { value_type, .. }) => Some(value_type),
                Some(CompileBinding::Local(slot)) => Some(slot.value_type()),
                None => None,
            },
            Expr::Unary { op, expr } => match op {
                UnaryOp::Negate => self.expr_type(expr),
                UnaryOp::Not => Some(ScriptType::Bool),
            },
            Expr::Binary { left, op, right } => match (self.expr_type(left), self.expr_type(right)) {
                (Some(l), Some(r)) => binary_result_type(l, *op, r),
                _ => None,
            },
            Expr::Call { name, args } => self.call_type(name.as_str(), args),
            _ => None,
        }
    }

    /// The type a call of `name` gives.
    fn call_type(&self, name: &str, args: &Vec<Expr>) -> (r: Option<ScriptType>)
        ensures
            r == c_call_type(self.state(), name@, args@),
        decreases *args, 1int,
    {
        match self.lookup(name) {
            Some(CompileBinding::Param { value_type, .. }) => {
                return if value_type == ScriptType::CurveFloat {
                    Some(ScriptType::Float)
                } else if value_type == ScriptType::CurveColor {
                    Some(ScriptType::Color)
                } else {
                    None
                };
            },
            _ => {},
        }
        let mut types: Vec<ScriptType> = Vec::new();
        let mut i: usize = 0;
        while i < args.len()
            invariant
                i <= args@.len(),
                !(find_binding(self.state().binds, name@) matches Some(CompileBinding::Param { .. })),
                c_args_types(self.state(), args@.subrange(0, i as int)) == Some(types@),
            decreases args@.len() - i,
        {
            assert(args@.subrange(0, i + 1).drop_last() =~= args@.subrange(0, i as int));
            assert(args@.subrange(0, i + 1).last() == args@[i as int]);
            match self.expr_type(&args[i]) {
                Some(t) => types.push(t),
                None => {
                    assert(c_args_types(self.state(), args@.subrange(0, i + 1)) is None);
                    proof {
                        lemma_args_types_none_extends(self.state(), args@, i as int + 1);
                    }
                    assert(args@.subrange(0, args@.len() as int) =~= args@);
                    return None;
                },
            }
            i += 1;
        }
        assert(args@.subrange(0, args@.len() as int) =~= args@);
        match BuiltinFunction::from_name(name) {
            Some(f) => f.return_type(types.as_slice()),
            None => None,
        }
    }
}

/// Once some argument has no type, no longer prefix has types either.
proof fn lemma_args_types_none_extends(st: CState, args: Seq<Expr>, k: int)
    requires
        0 <= k <= args.len(),
        c_args_types(st, args.subrange(0, k)) is None,
    ensures
        c_args_types(st, args) is None,
    decreases args.len() - k,
{
    if k < args.len() {
        assert(args.subrange(0, k + 1).drop_last() =~= args.subrange(0, k));
        lemma_args_types_none_extends(st, args, k + 1);
    } else {
        assert(args.subrange(0, k) =~= args);
    }
}

impl Compiler {
    /// Reads the value that the binding `b` stands for.
    fn load_binding(&mut self, b: Option<CompileBinding>) -> (r: Option<ValueSlot>)
        ensures
            matches_outcome(r, final(self).state(), load_binding(old(self).state(), b)),
    {
        match b {
            Some(CompileBinding::Context(c)) => match self.allocate_slot(c.value_type()) {
                Some(dest) => {
                    self.emit(Instruction::LoadContext(dest, context_slot(c)));
                    Some(dest)
                },
                None => None,
            },
            Some(CompileBinding::Constant(i)) => {
                if i >= self.constants.len() {
                    return None;
                }
                let value_type = constant_type(&self.constants[i]);
                match self.allocate_slot(value_type) {
                    Some(dest) => {
                        self.emit(Instruction::LoadConst(dest, i));
                        Some(dest)
                    },
                    None => None,
                }
            },
            Some(CompileBinding::Param { index, value_type }) => match self.allocate_slot(value_type) {
                Some(dest) => {
                    self.emit(Instruction::LoadParam(dest, index));
                    Some(dest)
                },
                None => None,
            },
            Some(CompileBinding::Local(slot)) => Some(slot),
            None => None,
        }
    }

    /// Applies a unary operator to the value in `v`.
    fn compile_unary(&mut self, op: UnaryOp, v: ValueSlot) -> (r: Option<ValueSlot>)
        ensures
            matches_outcome(r, final(self).state(), compile_unary(old(self).state(), op, v)),
    {
        match (op, v) {
            (UnaryOp::Negate, ValueSlot::Float(s)) => match self.alloc_float() {
                Some(d) => {
                    self.emit(Instruction::FloatUnary(d, UnaryFloatInstruction::Negate, s));
                    Some(ValueSlot::Float(d))
                },
                None => None,
            },
            (UnaryOp::Negate, ValueSlot::Int(s)) => match self.alloc_int() {
                Some(d) => {
                    self.emit(Instruction::IntNegate(d, s));
                    Some(ValueSlot::Int(d))
                },
                None => None,
            },
            (UnaryOp::Not, ValueSlot::Bool(s)) => match self.alloc_bool() {
                Some(d) => {
                    self.emit(Instruction::BoolNot(d, s));
                    Some(ValueSlot::Bool(d))
                },
                None => None,
            },
            _ => None,
        }
    }

    /// The last step of an arithmetic or comparison operator.
    fn finish_binary(
        &mut self,
        lt: ScriptType,
        op: BinaryOp,
        rt: ScriptType,
        l: ValueSlot,
        r: ValueSlot,
    ) -> (res: Option<ValueSlot>)
        ensures
            matches_outcome(res, final(self).state(), finish_binary(old(self).state(), lt, op, rt, l, r)),
    {
        let ins = match binary_instruction(lt, op, rt) {
            Some(ins) => ins,
            None => {
                return None;
            },
        };
        let rty = match binary_result_type(lt, op, rt) {
            Some(t) => t,
            None => {
                return None;
            },
        };
        let dest = match self.allocate_slot(rty) {
            Some(d) => d,
            None => {
                return None;
            },
        };
        let l2 = match self.promote(l, ins, true) {
            Some(v) => v,
            None => {
                return None;
            },
        };
        let r2 = match self.promote(r, ins, false) {
            Some(v) => v,
            None => {
                return None;
            },
        };
        self.emit(Instruction::Binary(dest, ins, l2, r2));
        Some(dest)
    }

    /// Compiles `e` into a register.
    fn compile_expr(&mut self, e: &Expr) -> (r: Option<ValueSlot>)
        ensures
            matches_outcome(r, final(self).state(), spec_compile_expr(old(self).state(), *e)),
        decreases *e, 4int,
    {
        match e {
            Expr::Float(bits) => self.load_constant(ConstantValue::Float(*bits)),
            Expr::Int(v) => self.load_constant(ConstantValue::Int(*v)),
            Expr::Bool(b) => self.load_constant(ConstantValue::Bool(*b)),
            Expr::Color(c) => self.load_constant(ConstantValue::Color(*c)),
            Expr::Ident(name) => {
                let b = self.lookup(name.as_str());
                self.load_binding(b)
            },
            Expr::Unary { op, expr } => match self.compile_expr(expr) {
                Some(v) => self.compile_unary(*op, v),
                None => None,
            },
            Expr::Binary { .. } => self.compile_binary(e),
            Expr::Call { name, args } => self.compile_call(name, args),
            _ => None,
        }
    }

    /// Compiles a binary expression.
    fn compile_binary(&mut self, e: &Expr) -> (r: Option<ValueSlot>)
        ensures
            matches_outcome(r, final(self).state(), spec_compile_binary(old(self).state(), *e)),
        decreases *e, 3int,
    {
        match e {
            Expr::Binary { left, op, right } => {
                if *op == BinaryOp::LogicalAnd || *op == BinaryOp::LogicalOr {
                    let dest = match self.alloc_bool() {
                        Some(d) => d,
                        None => {
                            return None;
                        },
                    };
                    let l = match self.compile_expr(left) {
                        Some(ValueSlot::Bool(l)) => l,
                        _ => {
                            return None;
                        },
                    };
                    self.emit(Instruction::Copy(ValueSlot::Bool(dest), ValueSlot::Bool(l)));
                    let j = self.instructions.len();
                    if *op == BinaryOp::LogicalAnd {
                        self.emit(Instruction::JumpIfFalse(dest, usize::MAX));
                    } else {
                        self.emit(Instruction::JumpIfTrue(dest, usize::MAX));
                    }
                    let r = match self.compile_expr(right) {
                        Some(ValueSlot::Bool(r)) => r,
                        _ => {
                            return None;
                        },
                    };
                    self.emit(Instruction::Copy(ValueSlot::Bool(dest), ValueSlot::Bool(r)));
                    if self.patch_jump(j) {
                        Some(ValueSlot::Bool(dest))
                    } else {
                        None
                    }
                } else {
                    let lt = match self.expr_type(left) {
                        Some(t) => t,
                        None => {
                            return None;
                        },
                    };
                    let rt = match self.expr_type(right) {
                        Some(t) => t,
                        None => {
                            return None;
                        },
                    };
                    let l = match self.compile_expr(left) {
                        Some(v) => v,
                        None => {
                            return None;
                        },
                    };
                    let r = match self.compile_expr(right) {
                        Some(v) => v,
                        None => {
                            return None;
                        },
                    };
                    self.finish_binary(lt, *op, rt, l, r)
                }
            },
            _ => None,
        }
    }

    /// Compiles an argument that is read as a float.
    fn compile_float_arg(&mut self, e: &Expr) -> (r: Option<FloatSlot>)
        ensures
            matches_outcome(r, final(self).state(), spec_compile_float_arg(old(self).state(), *e)),
        decreases *e, 5int,
    {
        match self.compile_expr(e) {
            Some(ValueSlot::Float(f)) => Some(f),
            Some(ValueSlot::Int(i)) => match self.alloc_float() {
                Some(d) => {
                    self.emit(Instruction::IntToFloat(d, i));
                    Some(d)
                },
                None => None,
            },
            _ => None,
        }
    }
}

fn float1_instr(f: BuiltinFunction, d: FloatSlot, a: FloatSlot) -> (r: Instruction)
    ensures
        r == float1_instruction(f, d, a),
{
    match f {
        BuiltinFunction::Cos => Instruction::Cos(d, a),
        BuiltinFunction::Abs => Instruction::Abs(d, a),
        BuiltinFunction::Floor => Instruction::Floor(d, a),
        BuiltinFunction::Srand => Instruction::Srand(d, a),
        _ => Instruction::Sin(d, a),
    }
}

fn mark_search_exec(f: BuiltinFunction) -> (r: MarkSearchInstruction)
    ensures
        r == mark_search(f),
{
    match f {
        BuiltinFunction::MarkNext => MarkSearchInstruction::Next,
        BuiltinFunction::MarkNearest => MarkSearchInstruction::Nearest,
        BuiltinFunction::MarkPhase => MarkSearchInstruction::Phase,
        BuiltinFunction::MarkElapsed => MarkSearchInstruction::Elapsed,
        _ => MarkSearchInstruction::Prev,
    }
}

impl Compiler {
    /// Compiles the first two arguments as floats.
    fn compile_float2(&mut self, args: &Vec<Expr>) -> (r: Option<(FloatSlot, FloatSlot)>)
        ensures
            match spec_compile_float2(old(self).state(), args@) {
                Some((st, a, b)) => r == Some((a, b)) && final(self).state() == st,
                None => r is None,
            },
        decreases *args, 1int,
    {
        if args.len() < 2 {
            return None;
        }
        let a = match self.compile_float_arg(&args[0]) {
            Some(a) => a,
            None => {
                return None;
            },
        };
        let b = match self.compile_float_arg(&args[1]) {
            Some(b) => b,
            None => {
                return None;
            },
        };
        Some((a, b))
    }

    /// Compiles the first three arguments as floats.
    fn compile_float3(&mut self, args: &Vec<Expr>) -> (r: Option<(FloatSlot, FloatSlot, FloatSlot)>)
        ensures
            match spec_compile_float3(old(self).state(), args@) {
                Some((st, a, b, c)) => r == Some((a, b, c)) && final(self).state() == st,
                None => r is None,
            },
        decreases *args, 1int,
    {
        if args.len() < 3 {
            return None;
        }
        let a = match self.compile_float_arg(&args[0]) {
            Some(a) => a,
            None => {
                return None;
            },
        };
        let b = match self.compile_float_arg(&args[1]) {
            Some(b) => b,
            None => {
                return None;
            },
        };
        let c = match self.compile_float_arg(&args[2]) {
            Some(c) => c,
            None => {
                return None;
            },
        };
        Some((a, b, c))
    }
}

impl Compiler {
    /// Compiles a call of a curve parameter or a builtin function.
    fn compile_call(&mut self, name: &String, args: &Vec<Expr>) -> (r: Option<ValueSlot>)
        ensures
            matches_outcome(r, final(self).state(), spec_compile_call(old(self).state(), name@, args@)),
        decreases *args, 3int,
    {
        match self.lookup(name.as_str()) {
            Some(CompileBinding::Param { index, value_type }) => {
                if value_type == ScriptType::CurveFloat || value_type == ScriptType::CurveColor {
                    if args.len() == 0 {
                        return None;
                    }
                    let amount = match self.compile_float_arg(&args[0]) {
                        Some(a) => a,
                        None => {
                            return None;
                        },
                    };
                    if value_type == ScriptType::CurveFloat {
                        return match self.alloc_float() {
                            Some(d) => {
                                self.emit(Instruction::CallFloatCurveParam(d, index, amount));
                                Some(ValueSlot::Float(d))
                            },
                            None => None,
                        };
                    } else {
                        return match self.alloc_color() {
                            Some(d) => {
                                self.emit(Instruction::CallColorCurveParam(d, index, amount));
                                Some(ValueSlot::Color(d))
                            },
                            None => None,
                        };
                    }
                }
            },
            _ => {},
        }
        match BuiltinFunction::from_name(name.as_str()) {
            Some(f) => self.compile_builtin(f, name, args),
            None => None,
        }
    }

    /// The float curve parameter that `e` names, when it is one.
    fn curve_float_param(&self, e: &Expr) -> (r: Option<usize>)
        ensures
            r == curve_float_param(self.state(), *e),
    {
        match e {
            Expr::Ident(name) => match self.lookup(name.as_str()) {
                Some(CompileBinding::Param { index, value_type }) => {
                    if value_type == ScriptType::CurveFloat {
                        Some(index)
                    } else {
                        None
                    }
                },
                _ => None,
            },
            _ => None,
        }
    }

    /// Emits a float-valued instruction into a new float register.
    fn finish_float(&mut self, d: FloatSlot, ins: Instruction) -> (r: Option<ValueSlot>)
        ensures
            r == Some(ValueSlot::Float(d)),
            final(self).state() == emit(old(self).state(), ins),
    {
        self.emit(ins);
        Some(ValueSlot::Float(d))
    }

    /// A call of the builtin function `f`.
    fn compile_builtin(&mut self, f: BuiltinFunction, name: &String, args: &Vec<Expr>) -> (r: Option<ValueSlot>)
        ensures
            matches_outcome(r, final(self).state(), spec_compile_builtin(old(self).state(), f, name@, args@)),
        decreases *args, 2int,
    {
        match f {
            BuiltinFunction::Sin | BuiltinFunction::Cos | BuiltinFunction::Abs | BuiltinFunction::Floor
            | BuiltinFunction::Srand => {
                if args.len() < 1 {
                    return None;
                }
                let a = match self.compile_float_arg(&args[0]) {
                    Some(a) => a,
                    None => {
                        return None;
                    },
                };
                match self.alloc_float() {
                    Some(d) => self.finish_float(d, float1_instr(f, d, a)),
                    None => None,
                }
            },
            BuiltinFunction::Rand => match self.alloc_float() {
                Some(d) => self.finish_float(d, Instruction::Rand(d)),
                None => None,
            },
            BuiltinFunction::PixelIndex | BuiltinFunction::PixelCount => {
                if args.len() < 1 {
                    return None;
                }
                let p = match self.compile_expr(&args[0]) {
                    Some(ValueSlot::Pixel(p)) => p,
                    _ => {
                        return None;
                    },
                };
                match self.alloc_int() {
                    Some(d) => {
                        if f == BuiltinFunction::PixelIndex {
                            self.emit(Instruction::PixelIndex(d, p));
                        } else {
                            self.emit(Instruction::PixelCount(d, p));
                        }
                        Some(ValueSlot::Int(d))
                    },
                    None => None,
                }
            },
            BuiltinFunction::MarkCount => {
                if args.len() < 1 {
                    return None;
                }
                let m = match self.compile_expr(&args[0]) {
                    Some(ValueSlot::Ref(m, _)) => m,
                    _ => {
                        return None;
                    },
                };
                match self.alloc_int() {
                    Some(d) => {
                        self.emit(Instruction::MarkCount(d, m));
                        Some(ValueSlot::Int(d))
                    },
                    None => None,
                }
            },
            BuiltinFunction::MarkAt => {
                if args.len() < 3 {
                    return None;
                }
                let m = match self.compile_expr(&args[0]) {
                    Some(ValueSlot::Ref(m, _)) => m,
                    _ => {
                        return None;
                    },
                };
                let i = match self.compile_expr(&args[1]) {
                    Some(ValueSlot::Int(i)) => i,
                    _ => {
                        return None;
                    },
                };
                let fb = match self.compile_float_arg(&args[2]) {
                    Some(v) => v,
                    None => {
                        return None;
                    },
                };
                match self.alloc_float() {
                    Some(d) => self.finish_float(d, Instruction::MarkAt(d, m, i, fb)),
                    None => None,
                }
            },
            BuiltinFunction::MarkPrev | BuiltinFunction::MarkNext | BuiltinFunction::MarkNearest
            | BuiltinFunction::MarkPhase | BuiltinFunction::MarkElapsed => {
                if args.len() < 3 {
                    return None;
                }
                let m = match self.compile_expr(&args[0]) {
                    Some(ValueSlot::Ref(m, _)) => m,
                    _ => {
                        return None;
                    },
                };
                let t = match self.compile_float_arg(&args[1]) {
                    Some(v) => v,
                    None => {
                        return None;
                    },
                };
                let fb = match self.compile_float_arg(&args[2]) {
                    Some(v) => v,
                    None => {
                        return None;
                    },
                };
                match self.alloc_float() {
                    Some(d) => self.finish_float(d, Instruction::MarkSearch(d, mark_search_exec(f), m, t, fb)),
                    None => None,
                }
            },
            BuiltinFunction::CurveCrossing => {
                if args.len() < 3 {
                    return None;
                }
                match self.curve_float_param(&args[0]) {
                    Some(index) => {
                        let v = match self.compile_float_arg(&args[1]) {
                            Some(v) => v,
                            None => {
                                return None;
                            },
                        };
                        let fb = match self.compile_float_arg(&args[2]) {
                            Some(v) => v,
                            None => {
                                return None;
                            },
                        };
                        match self.alloc_float() {
                            Some(d) => self.finish_float(d, Instruction::CurveParamCrossing(d, index, v, fb)),
                            None => None,
                        }
                    },
                    None => {
                        let c = match self.compile_expr(&args[0]) {
                            Some(ValueSlot::Ref(c, _)) => c,
                            _ => {
                                return None;
                            },
                        };
                        let v = match self.compile_float_arg(&args[1]) {
                            Some(v) => v,
                            None => {
                                return None;
                            },
                        };
                        let fb = match self.compile_float_arg(&args[2]) {
                            Some(v) => v,
                            None => {
                                return None;
                            },
                        };
                        match self.alloc_float() {
                            Some(d) => self.finish_float(d, Instruction::CurveCrossing(d, c, v, fb)),
                            None => None,
                        }
                    },
                }
            },
            BuiltinFunction::Min | BuiltinFunction::Max => {
                let (a, b) = match self.compile_float2(args) {
                    Some(p) => p,
                    None => {
                        return None;
                    },
                };
                match self.alloc_float() {
                    Some(d) => {
                        if f == BuiltinFunction::Min {
                            self.finish_float(d, Instruction::Min(d, a, b))
                        } else {
                            self.finish_float(d, Instruction::Max(d, a, b))
                        }
                    },
                    None => None,
                }
            },
            BuiltinFunction::Clamp | BuiltinFunction::Smoothstep => {
                let (a, b, c) = match self.compile_float3(args) {
                    Some(p) => p,
                    None => {
                        return None;
                    },
                };
                match self.alloc_float() {
                    Some(d) => {
                        if f == BuiltinFunction::Clamp {
                            self.finish_float(d, Instruction::Clamp(d, a, b, c))
                        } else {
                            self.finish_float(d, Instruction::Smoothstep(d, a, b, c))
                        }
                    },
                    None => None,
                }
            },
            BuiltinFunction::Mix => match self.call_type(name.as_str(), args) {
                Some(ScriptType::Color) => {
                    if args.len() < 3 {
                        return None;
                    }
                    let a = match self.compile_expr(&args[0]) {
                        Some(ValueSlot::Color(a)) => a,
                        _ => {
                            return None;
                        },
                    };
                    let b = match self.compile_expr(&args[1]) {
                        Some(ValueSlot::Color(b)) => b,
                        _ => {
                            return None;
                        },
                    };
                    let t = match self.compile_float_arg(&args[2]) {
                        Some(t) => t,
                        None => {
                            return None;
                        },
                    };
                    match self.alloc_color() {
                        Some(d) => {
                            self.emit(Instruction::MixColor(d, a, b, t));
                            Some(ValueSlot::Color(d))
                        },
                        None => None,
                    }
                },
                Some(_) => {
                    let (a, b, c) = match self.compile_float3(args) {
                        Some(p) => p,
                        None => {
                            return None;
                        },
                    };
                    match self.alloc_float() {
                        Some(d) => self.finish_float(d, Instruction::MixFloat(d, a, b, c)),
                        None => None,
                    }
                },
                None => None,
            },
            BuiltinFunction::Rgb | BuiltinFunction::Hsv => {
                let (a, b, c) = match self.compile_float3(args) {
                    Some(p) => p,
                    None => {
                        return None;
                    },
                };
                match self.alloc_color() {
                    Some(d) => {
                        if f == BuiltinFunction::Rgb {
                            self.emit(Instruction::Rgb(d, a, b, c));
                        } else {
                            self.emit(Instruction::Hsv(d, a, b, c));
                        }
                        Some(ValueSlot::Color(d))
                    },
                    None => None,
                }
            },
            _ => None,
        }
    }
}

/// Once a prefix of the statements fails to compile, all of them do.
proof fn lemma_stmts_none_extends(st: CState, ss: Seq<Stmt>, k: int)
    requires
        0 <= k <= ss.len(),
        spec_compile_stmts(st, ss.subrange(0, k)) is None,
    ensures
        spec_compile_stmts(st, ss) is None,
    decreases ss.len() - k,
{
    if k < ss.len() {
        assert(ss.subrange(0, k + 1).drop_last() =~= ss.subrange(0, k));
        lemma_stmts_none_extends(st, ss, k + 1);
    } else {
        assert(ss.subrange(0, k) =~= ss);
    }
}

impl Compiler {
    /// Closes the scopes opened since there were `mark` bindings.
    fn close_scope(&mut self, mark: usize)
        ensures
            final(self).state() == close_scope(old(self).state(), mark as int),
    {
        let ghost before = self.bindings@;
        self.bindings.truncate(mark);
        assert(cbinds_view(self.bindings@) =~= truncated(cbinds_view(before), mark as int));
        assert(self.state() =~= close_scope(old(self).state(), mark as int));
    }

    /// Compiles one statement.
    fn compile_stmt(&mut self, s: &Stmt) -> (ok: bool)
        ensures
            match spec_compile_stmt(old(self).state(), *s) {
                Some(st) => ok && final(self).state() == st,
                None => !ok,
            },
        decreases *s,
    {
        match s {
            Stmt::Let { name, value_type, expr } => {
                let local = match self.allocate_slot(*value_type) {
                    Some(l) => l,
                    None => {
                        return false;
                    },
                };
                let value = match self.compile_expr(expr) {
                    Some(v) => v,
                    None => {
                        return false;
                    },
                };
                if !self.emit_assign(local, value) {
                    return false;
                }
                self.define(name.as_str(), CompileBinding::Local(local));
                true
            },
            Stmt::Assign { name, expr } => {
                let local = match self.lookup(name.as_str()) {
                    Some(CompileBinding::Local(l)) => l,
                    _ => {
                        return false;
                    },
                };
                let value = match self.compile_expr(expr) {
                    Some(v) => v,
                    None => {
                        return false;
                    },
                };
                self.emit_assign(local, value)
            },
            Stmt::Expr(e) => self.compile_expr(e).is_some(),
            Stmt::For { name, value_type, initializer, condition, update, body } => {
                let mark = self.bindings.len();
                let local = match self.allocate_slot(*value_type) {
                    Some(l) => l,
                    None => {
                        return false;
                    },
                };
                let init = match self.compile_expr(initializer) {
                    Some(v) => v,
                    None => {
                        return false;
                    },
                };
                if !self.emit_assign(local, init) {
                    return false;
                }
                self.define(name.as_str(), CompileBinding::Local(local));
                let loop_start = self.instructions.len();
                let c = match self.compile_expr(condition) {
                    Some(ValueSlot::Bool(c)) => c,
                    _ => {
                        return false;
                    },
                };
                let exit = self.instructions.len();
                self.emit(Instruction::JumpIfFalse(c, usize::MAX));
                self.emit(Instruction::LoopTick);
                let inner = self.bindings.len();
                if !self.compile_stmts(body) {
                    return false;
                }
                self.close_scope(inner);
                if !self.compile_stmt(update) {
                    return false;
                }
                self.emit(Instruction::Jump(loop_start));
                if !self.patch_jump(exit) {
                    return false;
                }
                self.close_scope(mark);
                true
            },
            Stmt::If { condition, then_body, else_body } => {
                let c = match self.compile_expr(condition) {
                    Some(ValueSlot::Bool(c)) => c,
                    _ => {
                        return false;
                    },
                };
                let j = self.instructions.len();
                self.emit(Instruction::JumpIfFalse(c, usize::MAX));
                let m = self.bindings.len();
                if !self.compile_stmts(then_body) {
                    return false;
                }
                self.close_scope(m);
                let end = self.instructions.len();
                self.emit(Instruction::Jump(usize::MAX));
                if !self.patch_jump(j) {
                    return false;
                }
                let m2 = self.bindings.len();
                if !self.compile_stmts(else_body) {
                    return false;
                }
                self.close_scope(m2);
                self.patch_jump(end)
            },
            Stmt::Return(e) => match self.compile_expr(e) {
                Some(ValueSlot::Color(c)) => {
                    self.emit(Instruction::ReturnColor(c));
                    true
                },
                _ => false,
            },
            Stmt::Emit(_) => false,
        }
    }

    /// Compiles statements in order.
    fn compile_stmts(&mut self, ss: &Vec<Stmt>) -> (ok: bool)
        ensures
            match spec_compile_stmts(old(self).state(), ss@) {
                Some(st) => ok && final(self).state() == st,
                None => !ok,
            },
        decreases *ss,
    {
        let ghost st0 = self.state();
        let mut i: usize = 0;
        assert(ss@.subrange(0, 0) =~= Seq::<Stmt>::empty());
        while i < ss.len()
            invariant
                i <= ss@.len(),
                st0 == old(self).state(),
                spec_compile_stmts(st0, ss@.subrange(0, i as int)) == Some(self.state()),
            decreases ss@.len() - i,
        {
            assert(ss@.subrange(0, i + 1).drop_last() =~= ss@.subrange(0, i as int));
            assert(ss@.subrange(0, i + 1).last() == ss@[i as int]);
            if !self.compile_stmt(&ss[i]) {
                proof {
                    lemma_stmts_none_extends(st0, ss@, i as int + 1);
                }
                return false;
            }
            i += 1;
        }
        assert(ss@.subrange(0, ss@.len() as int) =~= ss@);
        true
    }
}

impl Compiler {
    /// Defines a builtin constant as a new float constant.
    fn define_constant(&mut self, name: &str, c: BuiltinConstant)
        ensures
            final(self).state() == define_constant(old(self).state(), name@, c),
    {
        let bits: u64 = match c {
            BuiltinConstant::Pi => 0x400921FB54442D18u64,
            BuiltinConstant::Tau => 0x401921FB54442D18u64,
        };
        let index = self.add_const(ConstantValue::Float(bits));
        self.define(name, CompileBinding::Constant(index));
    }

    /// A compiler whose scope holds the context values, the constants and the
    /// parameters `params`.
    fn new(params: &Vec<EffectParamSchema>) -> (c: Self)
        ensures
            c.state() == initial_state(params@),
    {
        let mut c = Compiler {
            instructions: Vec::new(),
            constants: Vec::new(),
            bindings: Vec::new(),
            registers: RegisterCounts { floats: 0, ints: 0, bools: 0, colors: 0, refs: 0, fixtures: 0, pixels: 0 },
        };
        let ghost empty = CState {
            instrs: seq![],
            consts: seq![],
            binds: seq![],
            regs: RegisterCounts { floats: 0, ints: 0, bools: 0, colors: 0, refs: 0, fixtures: 0, pixels: 0 },
        };
        assert(c.state() =~= empty);
        c.define(BuiltinContext::Progress.name(), CompileBinding::Context(BuiltinContext::Progress));
        c.define(BuiltinContext::Seconds.name(), CompileBinding::Context(BuiltinContext::Seconds));
        c.define(BuiltinContext::Fixture.name(), CompileBinding::Context(BuiltinContext::Fixture));
        c.define(BuiltinContext::Pixel.name(), CompileBinding::Context(BuiltinContext::Pixel));
        c.define_constant(BuiltinConstant::Pi.name(), BuiltinConstant::Pi);
        c.define_constant(BuiltinConstant::Tau.name(), BuiltinConstant::Tau);
        let ghost st2 = c.state();
        let mut k: usize = 0;
        assert(params@.subrange(0, 0) =~= Seq::<EffectParamSchema>::empty());
        while k < params.len()
            invariant
                k <= params@.len(),
                c.state() == define_params(st2, params@.subrange(0, k as int)),
            decreases params@.len() - k,
        {
            let ghost pre = params@.subrange(0, k as int);
            assert(params@.subrange(0, k + 1).drop_last() =~= pre);
            assert(params@.subrange(0, k + 1).last() == params@[k as int]);
            let p = &params[k];
            c.define(p.name.as_str(), CompileBinding::Param { index: k, value_type: p.value_type });
            if p.value_type == ScriptType::Enum {
                let ghost st3 = c.state();
                let ghost opts = options_view(p.options@);
                let mut o: usize = 0;
                assert(opts.subrange(0, 0) =~= Seq::<Seq<char>>::empty());
                while o < p.options.len()
                    invariant
                        o <= p.options@.len(),
                        opts == options_view(p.options@),
                        c.state() == define_options(st3, opts.subrange(0, o as int)),
                    decreases p.options@.len() - o,
                {
                    assert(opts.subrange(0, o + 1).drop_last() =~= opts.subrange(0, o as int));
                    assert(opts.subrange(0, o + 1).last() == p.options@[o as int]@);
                    let option = &p.options[o];
                    let index = c.add_const(ConstantValue::Enum(option.clone()));
                    c.define(option.as_str(), CompileBinding::Constant(index));
                    o += 1;
                }
                assert(opts.subrange(0, opts.len() as int) =~= opts);
            }
            k += 1;
        }
        assert(params@.subrange(0, params@.len() as int) =~= params@);
        c
    }
}

/// Compiles a sample effect to bytecode; `None` for a generator, and for a
/// body that no effect which type checks has.
pub fn compile_effect(effect: &EffectAst) -> (r: Option<BytecodeProgram>)
    ensures
        match spec_compile_effect(*effect) {
            Some(st) => r matches Some(p) && p.instructions@ == st.instrs && consts_view(p.constants@) == st.consts
                && p.registers == st.regs,
            None => r is None,
        },
{
    let statements = match &effect.entrypoint {
        EffectEntrypoint::Sample(ss) => ss,
        EffectEntrypoint::Generator(_) => {
            return None;
        },
    };
    let mut c = Compiler::new(&effect.params);
    if !c.compile_stmts(statements) {
        return None;
    }
    Some(BytecodeProgram { instructions: c.instructions, constants: c.constants, registers: c.registers })
}

/// `after` extends the code of `before`: the instructions that were there are
/// kept, and every jump among the new ones lands within `after`.
pub open spec fn grows(before: CState, after: CState) -> bool {
    &&& before.instrs.len() <= after.instrs.len()
    &&& after.instrs.subrange(0, before.instrs.len() as int) == before.instrs
    &&& forall|i: int|
        before.instrs.len() <= i < after.instrs.len() ==> (jump_target(#[trigger] after.instrs[i]) matches Some(
            t,
        ) ==> t <= after.instrs.len())
}

proof fn lemma_grows_same(a: CState, b: CState)
    requires
        a.instrs == b.instrs,
    ensures
        grows(a, b),
{
    assert(b.instrs.subrange(0, a.instrs.len() as int) =~= a.instrs);
}

proof fn lemma_grows_trans(a: CState, b: CState, c: CState)
    requires
        grows(a, b),
        grows(b, c),
    ensures
        grows(a, c),
{
    let la = a.instrs.len() as int;
    let lb = b.instrs.len() as int;
    assert forall|i: int| 0 <= i < la implies c.instrs[i] == a.instrs[i] by {
        assert(c.instrs.subrange(0, lb)[i] == b.instrs[i]);
        assert(b.instrs.subrange(0, la)[i] == a.instrs[i]);
    }
    assert(c.instrs.subrange(0, la) =~= a.instrs);
    assert forall|i: int| la <= i < c.instrs.len() implies (jump_target(#[trigger] c.instrs[i]) matches Some(t)
        ==> t <= c.instrs.len()) by {
        if i < lb {
            assert(c.instrs.subrange(0, lb)[i] == b.instrs[i]);
        }
    }
}

proof fn lemma_emit_grows(st: CState, ins: Instruction)
    requires
        jump_target(ins) matches Some(t) ==> t <= st.instrs.len() + 1,
    ensures
        grows(st, emit(st, ins)),
{
    assert(emit(st, ins).instrs.subrange(0, st.instrs.len() as int) =~= st.instrs);
}

/// A jump emitted as a placeholder at `a`'s end, code that grows after it, and
/// the patch of the placeholder: all of it grows from `a`.
proof fn lemma_placeholder_grows(a: CState, ph: Instruction, b: CState, c: CState)
    requires
        jump_target(ph) is Some,
        grows(emit(a, ph), b),
        patch(b, a.instrs.len() as int) == Some(c),
    ensures
        grows(a, c),
{
    let la = a.instrs.len() as int;
    let a1 = emit(a, ph);
    assert(b.instrs.subrange(0, la + 1)[la] == a1.instrs[la]);
    assert forall|i: int| 0 <= i < la implies c.instrs[i] == a.instrs[i] by {
        assert(b.instrs.subrange(0, la + 1)[i] == a1.instrs[i]);
    }
    assert(c.instrs.subrange(0, la) =~= a.instrs);
    assert forall|i: int| la <= i < c.instrs.len() implies (jump_target(#[trigger] c.instrs[i]) matches Some(t)
        ==> t <= c.instrs.len()) by {
        if i > la {
            assert(c.instrs[i] == b.instrs[i]);
        }
    }
}

proof fn lemma_alloc_keeps(st: CState, t: ScriptType)
    ensures
        alloc_slot(st, t) matches Some((s, _)) ==> s.instrs == st.instrs,
        alloc_float(st) matches Some((s, _)) ==> s.instrs == st.instrs,
        alloc_int(st) matches Some((s, _)) ==> s.instrs == st.instrs,
        alloc_bool(st) matches Some((s, _)) ==> s.instrs == st.instrs,
        alloc_color(st) matches Some((s, _)) ==> s.instrs == st.instrs,
{
}

proof fn lemma_load_constant_grows(st: CState, c: SpecConst)
    ensures
        load_constant(st, c) matches Some((st2, _)) ==> grows(st, st2),
{
    let s0 = add_const(st, c);
    lemma_alloc_keeps(s0, const_type(c));
    if let Some((s, dest)) = alloc_slot(s0, const_type(c)) {
        lemma_emit_grows(s, Instruction::LoadConst(dest, st.consts.len() as usize));
        lemma_grows_same(st, s);
        lemma_grows_trans(st, s, emit(s, Instruction::LoadConst(dest, st.consts.len() as usize)));
    }
}

proof fn lemma_load_binding_grows(st: CState, b: Option<CompileBinding>)
    ensures
        load_binding(st, b) matches Some((st2, _)) ==> grows(st, st2),
{
    match b {
        Some(CompileBinding::Context(c)) => {
            lemma_alloc_keeps(st, context_type(c));
            if let Some((s, dest)) = alloc_slot(st, context_type(c)) {
                let ins = Instruction::LoadContext(dest, spec_context_slot(c));
                lemma_emit_grows(s, ins);
                lemma_grows_same(st, s);
                lemma_grows_trans(st, s, emit(s, ins));
            }
        },
        Some(CompileBinding::Constant(i)) => {
            if i < st.consts.len() {
                lemma_alloc_keeps(st, const_type(st.consts[i as int]));
                if let Some((s, dest)) = alloc_slot(st, const_type(st.consts[i as int])) {
                    let ins = Instruction::LoadConst(dest, i);
                    lemma_emit_grows(s, ins);
                    lemma_grows_same(st, s);
                    lemma_grows_trans(st, s, emit(s, ins));
                }
            }
        },
        Some(CompileBinding::Param { index, value_type }) => {
            lemma_alloc_keeps(st, value_type);
            if let Some((s, dest)) = alloc_slot(st, value_type) {
                let ins = Instruction::LoadParam(dest, index);
                lemma_emit_grows(s, ins);
                lemma_grows_same(st, s);
                lemma_grows_trans(st, s, emit(s, ins));
            }
        },
        Some(CompileBinding::Local(_)) => {
            lemma_grows_same(st, st);
        },
        None => {},
    }
}

/// A register allocation followed by one instruction that is not a jump.
proof fn lemma_alloc_emit_grows(st: CState, s: CState, ins: Instruction)
    requires
        s.instrs == st.instrs,
        jump_target(ins) is None,
    ensures
        grows(st, emit(s, ins)),
{
    lemma_emit_grows(s, ins);
    lemma_grows_same(st, s);
    lemma_grows_trans(st, s, emit(s, ins));
}

proof fn lemma_unary_grows(st: CState, op: UnaryOp, v: ValueSlot)
    ensures
        compile_unary(st, op, v) matches Some((st2, _)) ==> grows(st, st2),
{
    lemma_alloc_keeps(st, ScriptType::Float);
    match (op, v) {
        (UnaryOp::Negate, ValueSlot::Float(s)) => {
            if let Some((s1, d)) = alloc_float(st) {
                lemma_alloc_emit_grows(st, s1, Instruction::FloatUnary(d, UnaryFloatInstruction::Negate, s));
            }
        },
        (UnaryOp::Negate, ValueSlot::Int(s)) => {
            if let Some((s1, d)) = alloc_int(st) {
                lemma_alloc_emit_grows(st, s1, Instruction::IntNegate(d, s));
            }
        },
        (UnaryOp::Not, ValueSlot::Bool(s)) => {
            if let Some((s1, d)) = alloc_bool(st) {
                lemma_alloc_emit_grows(st, s1, Instruction::BoolNot(d, s));
            }
        },
        _ => {},
    }
}

proof fn lemma_promote_grows(st: CState, slot: ValueSlot, ins: BinaryInstruction, is_left: bool)
    ensures
        promote(st, slot, ins, is_left) matches Some((st2, _)) ==> grows(st, st2),
{
    lemma_alloc_keeps(st, ScriptType::Float);
    lemma_grows_same(st, st);
    if let ValueSlot::Int(s) = slot {
        if needs_float(ins, is_left) {
            if let Some((s1, d)) = alloc_float(st) {
                lemma_alloc_emit_grows(st, s1, Instruction::IntToFloat(d, s));
            }
        }
    }
}

proof fn lemma_finish_binary_grows(
    st: CState,
    lt: ScriptType,
    op: BinaryOp,
    rt: ScriptType,
    l: ValueSlot,
    r: ValueSlot,
)
    ensures
        finish_binary(st, lt, op, rt, l, r) matches Some((st2, _)) ==> grows(st, st2),
{
    if let (Some(ins), Some(rty)) = (spec_binary_instruction(lt, op, rt), spec_binary_result_type(lt, op, rt)) {
        lemma_alloc_keeps(st, rty);
        if let Some((st1, dest)) = alloc_slot(st, rty) {
            lemma_grows_same(st, st1);
            lemma_promote_grows(st1, l, ins, true);
            if let Some((st2, l2)) = promote(st1, l, ins, true) {
                lemma_grows_trans(st, st1, st2);
                lemma_promote_grows(st2, r, ins, false);
                if let Some((st3, r2)) = promote(st2, r, ins, false) {
                    lemma_grows_trans(st, st2, st3);
                    let i = Instruction::Binary(dest, ins, l2, r2);
                    lemma_emit_grows(st3, i);
                    lemma_grows_trans(st, st3, emit(st3, i));
                }
            }
        }
    }
}

proof fn lemma_to_float_grows(st: CState, f: spec_fn(FloatSlot) -> Instruction)
    requires
        forall|d: FloatSlot| jump_target(#[trigger] f(d)) is None,
    ensures
        to_float(st, f) matches Some((st2, _)) ==> grows(st, st2),
{
    lemma_alloc_keeps(st, ScriptType::Float);
    if let Some((s1, d)) = alloc_float(st) {
        lemma_alloc_emit_grows(st, s1, f(d));
    }
}

proof fn lemma_to_int_grows(st: CState, f: spec_fn(IntSlot) -> Instruction)
    requires
        forall|d: IntSlot| jump_target(#[trigger] f(d)) is None,
    ensures
        to_int(st, f) matches Some((st2, _)) ==> grows(st, st2),
{
    lemma_alloc_keeps(st, ScriptType::Int);
    if let Some((s1, d)) = alloc_int(st) {
        lemma_alloc_emit_grows(st, s1, f(d));
    }
}

proof fn lemma_to_color_grows(st: CState, f: spec_fn(ColorSlot) -> Instruction)
    requires
        forall|d: ColorSlot| jump_target(#[trigger] f(d)) is None,
    ensures
        to_color(st, f) matches Some((st2, _)) ==> grows(st, st2),
{
    lemma_alloc_keeps(st, ScriptType::Color);
    if let Some((s1, d)) = alloc_color(st) {
        lemma_alloc_emit_grows(st, s1, f(d));
    }
}

/// Compiling an expression only adds code, and the jumps it adds stay within
/// the code.
proof fn lemma_expr_grows(st: CState, e: Expr)
    ensures
        spec_compile_expr(st, e) matches Some((st2, _)) ==> grows(st, st2),
    decreases e, 4int,
{
    match e {
        Expr::Float(bits) => lemma_load_constant_grows(st, SpecConst::Float(bits)),
        Expr::Int(v) => lemma_load_constant_grows(st, SpecConst::Int(v)),
        Expr::Bool(b) => lemma_load_constant_grows(st, SpecConst::Bool(b)),
        Expr::Color(c) => lemma_load_constant_grows(st, SpecConst::Color(c)),
        Expr::Ident(name) => lemma_load_binding_grows(st, find_binding(st.binds, name@)),
        Expr::Unary { op, expr } => {
            lemma_expr_grows(st, *expr);
            if let Some((st1, v)) = spec_compile_expr(st, *expr) {
                lemma_unary_grows(st1, op, v);
                if let Some((st2, _)) = compile_unary(st1, op, v) {
                    lemma_grows_trans(st, st1, st2);
                }
            }
        },
        Expr::Binary { .. } => lemma_binary_grows(st, e),
        Expr::Call { name, args } => lemma_call_grows(st, name@, args@),
        _ => {},
    }
}

proof fn lemma_binary_grows(st: CState, e: Expr)
    ensures
        spec_compile_binary(st, e) matches Some((st2, _)) ==> grows(st, st2),
    decreases e, 3int,
{
    if let Expr::Binary { left, op, right } = e {
        if op == BinaryOp::LogicalAnd || op == BinaryOp::LogicalOr {
            lemma_alloc_keeps(st, ScriptType::Bool);
            if let Some((st1, dest)) = alloc_bool(st) {
                lemma_grows_same(st, st1);
                lemma_expr_grows(st1, *left);
                if let Some((st2, ValueSlot::Bool(l))) = spec_compile_expr(st1, *left) {
                    lemma_grows_trans(st, st1, st2);
                    let st3 = emit(st2, Instruction::Copy(ValueSlot::Bool(dest), ValueSlot::Bool(l)));
                    lemma_emit_grows(st2, Instruction::Copy(ValueSlot::Bool(dest), ValueSlot::Bool(l)));
                    lemma_grows_trans(st, st2, st3);
                    let ph = if op == BinaryOp::LogicalAnd {
                        Instruction::JumpIfFalse(dest, usize::MAX)
                    } else {
                        Instruction::JumpIfTrue(dest, usize::MAX)
                    };
                    let st4 = emit(st3, ph);
                    lemma_expr_grows(st4, *right);
                    if let Some((st5, ValueSlot::Bool(r))) = spec_compile_expr(st4, *right) {
                        let cp = Instruction::Copy(ValueSlot::Bool(dest), ValueSlot::Bool(r));
                        lemma_emit_grows(st5, cp);
                        lemma_grows_trans(st4, st5, emit(st5, cp));
                        if let Some(st6) = patch(emit(st5, cp), st3.instrs.len() as int) {
                            lemma_placeholder_grows(st3, ph, emit(st5, cp), st6);
                            lemma_grows_trans(st, st3, st6);
                        }
                    }
                }
            }
        } else {
            if let (Some(lt), Some(rt)) = (c_expr_type(st, *left), c_expr_type(st, *right)) {
                lemma_expr_grows(st, *left);
                if let Some((st1, l)) = spec_compile_expr(st, *left) {
                    lemma_expr_grows(st1, *right);
                    if let Some((st2, r)) = spec_compile_expr(st1, *right) {
                        lemma_grows_trans(st, st1, st2);
                        lemma_finish_binary_grows(st2, lt, op, rt, l, r);
                        if let Some((st3, _)) = finish_binary(st2, lt, op, rt, l, r) {
                            lemma_grows_trans(st, st2, st3);
                        }
                    }
                }
            }
        }
    }
}

proof fn lemma_float_arg_grows(st: CState, e: Expr)
    ensures
        spec_compile_float_arg(st, e) matches Some((st2, _)) ==> grows(st, st2),
    decreases e, 5int,
{
    lemma_expr_grows(st, e);
    if let Some((st1, ValueSlot::Int(i))) = spec_compile_expr(st, e) {
        lemma_alloc_keeps(st1, ScriptType::Float);
        if let Some((st2, d)) = alloc_float(st1) {
            lemma_alloc_emit_grows(st1, st2, Instruction::IntToFloat(d, i));
            lemma_grows_trans(st, st1, emit(st2, Instruction::IntToFloat(d, i)));
        }
    }
}

proof fn lemma_float2_grows(st: CState, args: Seq<Expr>)
    ensures
        spec_compile_float2(st, args) matches Some((st2, _, _)) ==> grows(st, st2),
    decreases args, 1int,
{
    if args.len() >= 2 {
        lemma_float_arg_grows(st, args[0]);
        if let Some((st1, _)) = spec_compile_float_arg(st, args[0]) {
            lemma_float_arg_grows(st1, args[1]);
            if let Some((st2, _)) = spec_compile_float_arg(st1, args[1]) {
                lemma_grows_trans(st, st1, st2);
            }
        }
    }
}

proof fn lemma_float3_grows(st: CState, args: Seq<Expr>)
    ensures
        spec_compile_float3(st, args) matches Some((st2, _, _, _)) ==> grows(st, st2),
    decreases args, 1int,
{
    if args.len() >= 3 {
        lemma_float_arg_grows(st, args[0]);
        if let Some((st1, _)) = spec_compile_float_arg(st, args[0]) {
            lemma_float_arg_grows(st1, args[1]);
            if let Some((st2, _)) = spec_compile_float_arg(st1, args[1]) {
                lemma_grows_trans(st, st1, st2);
                lemma_float_arg_grows(st2, args[2]);
                if let Some((st3, _)) = spec_compile_float_arg(st2, args[2]) {
                    lemma_grows_trans(st, st2, st3);
                }
            }
        }
    }
}

proof fn lemma_call_grows(st: CState, name: Seq<char>, args: Seq<Expr>)
    ensures
        spec_compile_call(st, name, args) matches Some((st2, _)) ==> grows(st, st2),
    decreases args, 3int,
{
    match find_binding(st.binds, name) {
        Some(CompileBinding::Param { index, value_type }) if value_type == ScriptType::CurveFloat || value_type
            == ScriptType::CurveColor => {
            if args.len() > 0 {
                lemma_float_arg_grows(st, args[0]);
                if let Some((st1, amount)) = spec_compile_float_arg(st, args[0]) {
                    lemma_alloc_keeps(st1, ScriptType::Float);
                    if value_type == ScriptType::CurveFloat {
                        if let Some((st2, d)) = alloc_float(st1) {
                            lemma_alloc_emit_grows(st1, st2, Instruction::CallFloatCurveParam(d, index, amount));
                            lemma_grows_trans(st, st1, emit(st2, Instruction::CallFloatCurveParam(d, index, amount)));
                        }
                    } else {
                        if let Some((st2, d)) = alloc_color(st1) {
                            lemma_alloc_emit_grows(st1, st2, Instruction::CallColorCurveParam(d, index, amount));
                            lemma_grows_trans(st, st1, emit(st2, Instruction::CallColorCurveParam(d, index, amount)));
                        }
                    }
                }
            }
        },
        _ => {
            if let Some(f) = function_named(name) {
                lemma_builtin_grows(st, f, name, args);
            }
        },
    }
}

proof fn lemma_builtin_grows(st: CState, f: BuiltinFunction, name: Seq<char>, args: Seq<Expr>)
    ensures
        spec_compile_builtin(st, f, name, args) matches Some((st2, _)) ==> grows(st, st2),
    decreases args, 2int,
{
    match f {
        BuiltinFunction::Sin | BuiltinFunction::Cos | BuiltinFunction::Abs | BuiltinFunction::Floor
        | BuiltinFunction::Srand => {
            if args.len() >= 1 {
                lemma_float_arg_grows(st, args[0]);
                if let Some((st1, a)) = spec_compile_float_arg(st, args[0]) {
                    let g = |d: FloatSlot| float1_instruction(f, d, a);
                    lemma_to_float_grows(st1, g);
                    if let Some((st2, _)) = to_float(st1, g) {
                        lemma_grows_trans(st, st1, st2);
                    }
                }
            }
        },
        BuiltinFunction::Rand => {
            lemma_to_float_grows(st, |d: FloatSlot| Instruction::Rand(d));
        },
        BuiltinFunction::PixelIndex | BuiltinFunction::PixelCount => {
            if args.len() >= 1 {
                lemma_expr_grows(st, args[0]);
                if let Some((st1, ValueSlot::Pixel(p))) = spec_compile_expr(st, args[0]) {
                    let g = |d: IntSlot|
                        if f == BuiltinFunction::PixelIndex {
                            Instruction::PixelIndex(d, p)
                        } else {
                            Instruction::PixelCount(d, p)
                        };
                    lemma_to_int_grows(st1, g);
                    if let Some((st2, _)) = to_int(st1, g) {
                        lemma_grows_trans(st, st1, st2);
                    }
                }
            }
        },
        BuiltinFunction::MarkCount => {
            if args.len() >= 1 {
                lemma_expr_grows(st, args[0]);
                if let Some((st1, ValueSlot::Ref(m, _))) = spec_compile_expr(st, args[0]) {
                    let g = |d: IntSlot| Instruction::MarkCount(d, m);
                    lemma_to_int_grows(st1, g);
                    if let Some((st2, _)) = to_int(st1, g) {
                        lemma_grows_trans(st, st1, st2);
                    }
                }
            }
        },
        BuiltinFunction::MarkAt => {
            if args.len() >= 3 {
                lemma_expr_grows(st, args[0]);
                if let Some((st1, ValueSlot::Ref(m, _))) = spec_compile_expr(st, args[0]) {
                    lemma_expr_grows(st1, args[1]);
                    if let Some((st2, ValueSlot::Int(i))) = spec_compile_expr(st1, args[1]) {
                        lemma_grows_trans(st, st1, st2);
                        lemma_float_arg_grows(st2, args[2]);
                        if let Some((st3, fb)) = spec_compile_float_arg(st2, args[2]) {
                            lemma_grows_trans(st, st2, st3);
                            let g = |d: FloatSlot| Instruction::MarkAt(d, m, i, fb);
                            lemma_to_float_grows(st3, g);
                            if let Some((st4, _)) = to_float(st3, g) {
                                lemma_grows_trans(st, st3, st4);
                            }
                        }
                    }
                }
            }
        },
        BuiltinFunction::MarkPrev | BuiltinFunction::MarkNext | BuiltinFunction::MarkNearest
        | BuiltinFunction::MarkPhase | BuiltinFunction::MarkElapsed => {
            if args.len() >= 3 {
                lemma_expr_grows(st, args[0]);
                if let Some((st1, ValueSlot::Ref(m, _))) = spec_compile_expr(st, args[0]) {
                    lemma_float_arg_grows(st1, args[1]);
                    if let Some((st2, t)) = spec_compile_float_arg(st1, args[1]) {
                        lemma_grows_trans(st, st1, st2);
                        lemma_float_arg_grows(st2, args[2]);
                        if let Some((st3, fb)) = spec_compile_float_arg(st2, args[2]) {
                            lemma_grows_trans(st, st2, st3);
                            let g = |d: FloatSlot| Instruction::MarkSearch(d, mark_search(f), m, t, fb);
                            lemma_to_float_grows(st3, g);
                            if let Some((st4, _)) = to_float(st3, g) {
                                lemma_grows_trans(st, st3, st4);
                            }
                        }
                    }
                }
            }
        },
        BuiltinFunction::CurveCrossing => {
            if args.len() >= 3 {
                match curve_float_param(st, args[0]) {
                    Some(index) => {
                        lemma_float_arg_grows(st, args[1]);
                        if let Some((st1, v)) = spec_compile_float_arg(st, args[1]) {
                            lemma_float_arg_grows(st1, args[2]);
                            if let Some((st2, fb)) = spec_compile_float_arg(st1, args[2]) {
                                lemma_grows_trans(st, st1, st2);
                                let g = |d: FloatSlot| Instruction::CurveParamCrossing(d, index, v, fb);
                                lemma_to_float_grows(st2, g);
                                if let Some((st3, _)) = to_float(st2, g) {
                                    lemma_grows_trans(st, st2, st3);
                                }
                            }
                        }
                    },
                    None => {
                        lemma_expr_grows(st, args[0]);
                        if let Some((st1, ValueSlot::Ref(c, _))) = spec_compile_expr(st, args[0]) {
                            lemma_float_arg_grows(st1, args[1]);
                            if let Some((st2, v)) = spec_compile_float_arg(st1, args[1]) {
                                lemma_grows_trans(st, st1, st2);
                                lemma_float_arg_grows(st2, args[2]);
                                if let Some((st3, fb)) = spec_compile_float_arg(st2, args[2]) {
                                    lemma_grows_trans(st, st2, st3);
                                    let g = |d: FloatSlot| Instruction::CurveCrossing(d, c, v, fb);
                                    lemma_to_float_grows(st3, g);
                                    if let Some((st4, _)) = to_float(st3, g) {
                                        lemma_grows_trans(st, st3, st4);
                                    }
                                }
                            }
                        }
                    },
                }
            }
        },
        BuiltinFunction::Min | BuiltinFunction::Max => {
            lemma_float2_grows(st, args);
            if let Some((st1, a, b)) = spec_compile_float2(st, args) {
                let g = |d: FloatSlot|
                    if f == BuiltinFunction::Min {
                        Instruction::Min(d, a, b)
                    } else {
                        Instruction::Max(d, a, b)
                    };
                lemma_to_float_grows(st1, g);
                if let Some((st2, _)) = to_float(st1, g) {
                    lemma_grows_trans(st, st1, st2);
                }
            }
        },
        BuiltinFunction::Clamp | BuiltinFunction::Smoothstep => {
            lemma_float3_grows(st, args);
            if let Some((st1, a, b, c)) = spec_compile_float3(st, args) {
                let g = |d: FloatSlot|
                    if f == BuiltinFunction::Clamp {
                        Instruction::Clamp(d, a, b, c)
                    } else {
                        Instruction::Smoothstep(d, a, b, c)
                    };
                lemma_to_float_grows(st1, g);
                if let Some((st2, _)) = to_float(st1, g) {
                    lemma_grows_trans(st, st1, st2);
                }
            }
        },
        BuiltinFunction::Mix => {
            match c_call_type(st, name, args) {
                Some(ScriptType::Color) => {
                    if args.len() >= 3 {
                        lemma_expr_grows(st, args[0]);
                        if let Some((st1, ValueSlot::Color(a))) = spec_compile_expr(st, args[0]) {
                            lemma_expr_grows(st1, args[1]);
                            if let Some((st2, ValueSlot::Color(b))) = spec_compile_expr(st1, args[1]) {
                                lemma_grows_trans(st, st1, st2);
                                lemma_float_arg_grows(st2, args[2]);
                                if let Some((st3, t)) = spec_compile_float_arg(st2, args[2]) {
                                    lemma_grows_trans(st, st2, st3);
                                    let g = |d: ColorSlot| Instruction::MixColor(d, a, b, t);
                                    lemma_to_color_grows(st3, g);
                                    if let Some((st4, _)) = to_color(st3, g) {
                                        lemma_grows_trans(st, st3, st4);
                                    }
                                }
                            }
                        }
                    }
                },
                Some(_) => {
                    lemma_float3_grows(st, args);
                    if let Some((st1, a, b, c)) = spec_compile_float3(st, args) {
                        let g = |d: FloatSlot| Instruction::MixFloat(d, a, b, c);
                        lemma_to_float_grows(st1, g);
                        if let Some((st2, _)) = to_float(st1, g) {
                            lemma_grows_trans(st, st1, st2);
                        }
                    }
                },
                None => {},
            }
        },
        BuiltinFunction::Rgb | BuiltinFunction::Hsv => {
            lemma_float3_grows(st, args);
            if let Some((st1, a, b, c)) = spec_compile_float3(st, args) {
                let g = |d: ColorSlot|
                    if f == BuiltinFunction::Rgb {
                        Instruction::Rgb(d, a, b, c)
                    } else {
                        Instruction::Hsv(d, a, b, c)
                    };
                lemma_to_color_grows(st1, g);
                if let Some((st2, _)) = to_color(st1, g) {
                    lemma_grows_trans(st, st1, st2);
                }
            }
        },
        _ => {},
    }
}

proof fn lemma_builtin_ok(st: CState, f: BuiltinFunction, name: Seq<char>, args: Seq<Expr>, n: nat)
    requires
        in_range(st, n),
        function_named(name) == Some(f),
    ensures
        spec_compile_builtin(st, f, name, args) matches Some((st2, v)) ==> value_ok(st, st2, v, n) && (!(find_binding(
            st.binds,
            name,
        ) matches Some(CompileBinding::Param { .. })) ==> (c_call_type(st, name, args) matches Some(t) ==> slot_type(v)
            == t)),
    decreases args, 3int,
{
    lemma_builtin_result_type(st, f, name, args);
    match f {
        BuiltinFunction::Sin | BuiltinFunction::Cos | BuiltinFunction::Abs | BuiltinFunction::Floor
        | BuiltinFunction::Srand | BuiltinFunction::Rand | BuiltinFunction::PixelIndex | BuiltinFunction::PixelCount
        | BuiltinFunction::MarkCount => lemma_builtin_simple_ok(st, f, name, args, n),
        BuiltinFunction::MarkAt | BuiltinFunction::MarkPrev | BuiltinFunction::MarkNext
        | BuiltinFunction::MarkNearest | BuiltinFunction::MarkPhase | BuiltinFunction::MarkElapsed
        | BuiltinFunction::CurveCrossing => lemma_builtin_marks_ok(st, f, name, args, n),
        BuiltinFunction::Min | BuiltinFunction::Max | BuiltinFunction::Clamp | BuiltinFunction::Smoothstep
        | BuiltinFunction::Rgb | BuiltinFunction::Hsv => lemma_builtin_math_ok(st, f, name, args, n),
        BuiltinFunction::Mix => lemma_builtin_mix_ok(st, f, name, args, n),
        _ => {},
    }
}

proof fn lemma_builtin_simple_ok(st: CState, f: BuiltinFunction, name: Seq<char>, args: Seq<Expr>, n: nat)
    requires
        in_range(st, n),
        function_named(name) == Some(f),
        f == BuiltinFunction::Sin || f == BuiltinFunction::Cos || f == BuiltinFunction::Abs || f
            == BuiltinFunction::Floor || f == BuiltinFunction::Srand || f == BuiltinFunction::Rand || f
            == BuiltinFunction::PixelIndex || f == BuiltinFunction::PixelCount || f == BuiltinFunction::MarkCount,
    ensures
        spec_compile_builtin(st, f, name, args) matches Some((st2, v)) ==> value_ok(st, st2, v, n) && slot_type(v)
            == builtin_result_type(f),
    decreases args, 2int,
{
    lemma_extends_refl(st);
    match f {
        BuiltinFunction::Sin | BuiltinFunction::Cos | BuiltinFunction::Abs | BuiltinFunction::Floor
        | BuiltinFunction::Srand => {
            if args.len() >= 1 {
                lemma_float_arg_ok(st, args[0], n);
                if let Some((st1, a)) = spec_compile_float_arg(st, args[0]) {
                    let g = |d: FloatSlot| float1_instruction(f, d, a);
                    lemma_to_float_ok(st, st1, g, n);
                }
            }
        },
        BuiltinFunction::Rand => {
            lemma_to_float_ok(st, st, |d: FloatSlot| Instruction::Rand(d), n);
        },
        BuiltinFunction::PixelIndex | BuiltinFunction::PixelCount => {
            if args.len() >= 1 {
                lemma_expr_ok(st, args[0], n);
                if let Some((st1, ValueSlot::Pixel(p))) = spec_compile_expr(st, args[0]) {
                    let g = |d: IntSlot|
                        if f == BuiltinFunction::PixelIndex {
                            Instruction::PixelIndex(d, p)
                        } else {
                            Instruction::PixelCount(d, p)
                        };
                    lemma_to_int_ok(st, st1, g, n);
                }
            }
        },
        BuiltinFunction::MarkCount => {
            if args.len() >= 1 {
                lemma_expr_ok(st, args[0], n);
                if let Some((st1, ValueSlot::Ref(m, _))) = spec_compile_expr(st, args[0]) {
                    let g = |d: IntSlot| Instruction::MarkCount(d, m);
                    lemma_to_int_ok(st, st1, g, n);
                }
            }
        },
        _ => {},
    }
}

proof fn lemma_builtin_marks_ok(st: CState, f: BuiltinFunction, name: Seq<char>, args: Seq<Expr>, n: nat)
    requires
        in_range(st, n),
        function_named(name) == Some(f),
        f == BuiltinFunction::MarkAt || f == BuiltinFunction::MarkPrev || f == BuiltinFunction::MarkNext
            || f == BuiltinFunction::MarkNearest || f == BuiltinFunction::MarkPhase || f == BuiltinFunction::MarkElapsed
            || f == BuiltinFunction::CurveCrossing,
    ensures
        spec_compile_builtin(st, f, name, args) matches Some((st2, v)) ==> value_ok(st, st2, v, n) && slot_type(v)
            == builtin_result_type(f),
    decreases args, 2int,
{
    lemma_extends_refl(st);
    match f {
        BuiltinFunction::MarkAt => {
            if args.len() >= 3 {
                lemma_expr_ok(st, args[0], n);
                if let Some((st1, ValueSlot::Ref(m, _))) = spec_compile_expr(st, args[0]) {
                    lemma_expr_ok(st1, args[1], n);
                    if let Some((st2, ValueSlot::Int(i))) = spec_compile_expr(st1, args[1]) {
                        lemma_extends_trans(st, st1, st2);
                        lemma_float_arg_ok(st2, args[2], n);
                        if let Some((st3, fb)) = spec_compile_float_arg(st2, args[2]) {
                            lemma_extends_trans(st, st2, st3);
                            let g = |d: FloatSlot| Instruction::MarkAt(d, m, i, fb);
                            lemma_to_float_ok(st, st3, g, n);
                        }
                    }
                }
            }
        },
        BuiltinFunction::MarkPrev | BuiltinFunction::MarkNext | BuiltinFunction::MarkNearest
        | BuiltinFunction::MarkPhase | BuiltinFunction::MarkElapsed => {
            if args.len() >= 3 {
                lemma_expr_ok(st, args[0], n);
                if let Some((st1, ValueSlot::Ref(m, _))) = spec_compile_expr(st, args[0]) {
                    lemma_float_arg_ok(st1, args[1], n);
                    if let Some((st2, t)) = spec_compile_float_arg(st1, args[1]) {
                        lemma_extends_trans(st, st1, st2);
                        lemma_float_arg_ok(st2, args[2], n);
                        if let Some((st3, fb)) = spec_compile_float_arg(st2, args[2]) {
                            lemma_extends_trans(st, st2, st3);
                            let g = |d: FloatSlot| Instruction::MarkSearch(d, mark_search(f), m, t, fb);
                            lemma_to_float_ok(st, st3, g, n);
                        }
                    }
                }
            }
        },
        BuiltinFunction::CurveCrossing => {
            if args.len() >= 3 {
                match curve_float_param(st, args[0]) {
                    Some(index) => {
                        lemma_float_arg_ok(st, args[1], n);
                        if let Some((st1, v)) = spec_compile_float_arg(st, args[1]) {
                            lemma_float_arg_ok(st1, args[2], n);
                            if let Some((st2, fb)) = spec_compile_float_arg(st1, args[2]) {
                                lemma_extends_trans(st, st1, st2);
                                let g = |d: FloatSlot| Instruction::CurveParamCrossing(d, index, v, fb);
                                lemma_to_float_ok(st, st2, g, n);
                            }
                        }
                    },
                    None => {
                        lemma_expr_ok(st, args[0], n);
                        if let Some((st1, ValueSlot::Ref(c, _))) = spec_compile_expr(st, args[0]) {
                            lemma_float_arg_ok(st1, args[1], n);
                            if let Some((st2, v)) = spec_compile_float_arg(st1, args[1]) {
                                lemma_extends_trans(st, st1, st2);
                                lemma_float_arg_ok(st2, args[2], n);
                                if let Some((st3, fb)) = spec_compile_float_arg(st2, args[2]) {
                                    lemma_extends_trans(st, st2, st3);
                                    let g = |d: FloatSlot| Instruction::CurveCrossing(d, c, v, fb);
                                    lemma_to_float_ok(st, st3, g, n);
                                }
                            }
                        }
                    },
                }
            }
        },
        _ => {},
    }
}

proof fn lemma_builtin_math_ok(st: CState, f: BuiltinFunction, name: Seq<char>, args: Seq<Expr>, n: nat)
    requires
        in_range(st, n),
        function_named(name) == Some(f),
        f == BuiltinFunction::Min || f == BuiltinFunction::Max || f == BuiltinFunction::Clamp || f
            == BuiltinFunction::Smoothstep || f == BuiltinFunction::Rgb || f == BuiltinFunction::Hsv,
    ensures
        spec_compile_builtin(st, f, name, args) matches Some((st2, v)) ==> value_ok(st, st2, v, n) && slot_type(v)
            == builtin_result_type(f),
    decreases args, 2int,
{
    lemma_extends_refl(st);
    match f {
        BuiltinFunction::Min | BuiltinFunction::Max => {
            lemma_float2_ok(st, args, n);
            if let Some((st1, a, b)) = spec_compile_float2(st, args) {
                let g = |d: FloatSlot|
                    if f == BuiltinFunction::Min {
                        Instruction::Min(d, a, b)
                    } else {
                        Instruction::Max(d, a, b)
                    };
                lemma_to_float_ok(st, st1, g, n);
            }
        },
        BuiltinFunction::Clamp | BuiltinFunction::Smoothstep => {
            lemma_float3_ok(st, args, n);
            if let Some((st1, a, b, c)) = spec_compile_float3(st, args) {
                let g = |d: FloatSlot|
                    if f == BuiltinFunction::Clamp {
                        Instruction::Clamp(d, a, b, c)
                    } else {
                        Instruction::Smoothstep(d, a, b, c)
                    };
                lemma_to_float_ok(st, st1, g, n);
            }
        },
        BuiltinFunction::Rgb | BuiltinFunction::Hsv => {
            lemma_float3_ok(st, args, n);
            if let Some((st1, a, b, c)) = spec_compile_float3(st, args) {
                let g = |d: ColorSlot|
                    if f == BuiltinFunction::Rgb {
                        Instruction::Rgb(d, a, b, c)
                    } else {
                        Instruction::Hsv(d, a, b, c)
                    };
                lemma_to_color_ok(st, st1, g, n);
            }
        },
        _ => {},
    }
}

proof fn lemma_builtin_mix_ok(st: CState, f: BuiltinFunction, name: Seq<char>, args: Seq<Expr>, n: nat)
    requires
        in_range(st, n),
        function_named(name) == Some(f),
        f == BuiltinFunction::Mix,
    ensures
        spec_compile_builtin(st, f, name, args) matches Some((st2, v)) ==> value_ok(st, st2, v, n) && (c_call_type(
            st,
            name,
            args,
        ) matches Some(t) ==> slot_type(v) == t),
    decreases args, 2int,
{
    lemma_extends_refl(st);
    match f {
        BuiltinFunction::Mix => {
            match c_call_type(st, name, args) {
                Some(ScriptType::Color) => {
                    if args.len() >= 3 {
                        lemma_expr_ok(st, args[0], n);
                        if let Some((st1, ValueSlot::Color(a))) = spec_compile_expr(st, args[0]) {
                            lemma_expr_ok(st1, args[1], n);
                            if let Some((st2, ValueSlot::Color(b))) = spec_compile_expr(st1, args[1]) {
                                lemma_extends_trans(st, st1, st2);
                                lemma_float_arg_ok(st2, args[2], n);
                                if let Some((st3, t)) = spec_compile_float_arg(st2, args[2]) {
                                    lemma_extends_trans(st, st2, st3);
                                    let g = |d: ColorSlot| Instruction::MixColor(d, a, b, t);
                                    lemma_to_color_ok(st, st3, g, n);
                                }
                            }
                        }
                    }
                },
                Some(_) => {
                    lemma_float3_ok(st, args, n);
                    if let Some((st1, a, b, c)) = spec_compile_float3(st, args) {
                        let g = |d: FloatSlot| Instruction::MixFloat(d, a, b, c);
                        lemma_to_float_ok(st, st1, g, n);
                    }
                },
                None => {},
            }
        },
        _ => {},
    }
}

proof fn lemma_stmt_grows(st: CState, s: Stmt)
    ensures
        spec_compile_stmt(st, s) matches Some(st2) ==> grows(st, st2),
    decreases s, 1int,
{
    match s {
        Stmt::Let { name, value_type, expr } => {
            lemma_alloc_keeps(st, value_type);
            if let Some((st1, local)) = alloc_slot(st, value_type) {
                lemma_grows_same(st, st1);
                lemma_expr_grows(st1, expr);
                if let Some((st2, value)) = spec_compile_expr(st1, expr) {
                    lemma_grows_trans(st, st1, st2);
                    if let Some(st3) = emit_assign(st2, local, value) {
                        lemma_emit_grows(st2, st3.instrs.last());
                        assert(st3 == emit(st2, st3.instrs.last()));
                        lemma_grows_trans(st, st2, st3);
                        lemma_grows_same(st3, define(st3, name@, CompileBinding::Local(local)));
                        lemma_grows_trans(st, st3, define(st3, name@, CompileBinding::Local(local)));
                    }
                }
            }
        },
        Stmt::Assign { name, expr } => {
            if let Some(CompileBinding::Local(local)) = find_binding(st.binds, name@) {
                lemma_expr_grows(st, expr);
                if let Some((st1, value)) = spec_compile_expr(st, expr) {
                    if let Some(st2) = emit_assign(st1, local, value) {
                        lemma_emit_grows(st1, st2.instrs.last());
                        assert(st2 == emit(st1, st2.instrs.last()));
                        lemma_grows_trans(st, st1, st2);
                    }
                }
            }
        },
        Stmt::Expr(e) => {
            lemma_expr_grows(st, e);
        },
        Stmt::For { .. } => lemma_for_grows(st, s),
        Stmt::If { .. } => lemma_if_stmt_grows(st, s),
        Stmt::Return(e) => {
            lemma_expr_grows(st, e);
            if let Some((st1, ValueSlot::Color(c))) = spec_compile_expr(st, e) {
                lemma_emit_grows(st1, Instruction::ReturnColor(c));
                lemma_grows_trans(st, st1, emit(st1, Instruction::ReturnColor(c)));
            }
        },
        Stmt::Emit(_) => {},
    }
}

proof fn lemma_for_grows(st: CState, s: Stmt)
    requires
        s is For,
    ensures
        spec_compile_stmt(st, s) matches Some(st2) ==> grows(st, st2),
    decreases s, 0int,
{
    if let Stmt::For { name, value_type, initializer, condition, update, body } = s {
            let mark = st.binds.len() as int;
            lemma_alloc_keeps(st, value_type);
            if let Some((st1, local)) = alloc_slot(st, value_type) {
                lemma_grows_same(st, st1);
                lemma_expr_grows(st1, initializer);
                if let Some((st2, init)) = spec_compile_expr(st1, initializer) {
                    lemma_grows_trans(st, st1, st2);
                    if let Some(st3) = emit_assign(st2, local, init) {
                        lemma_emit_grows(st2, st3.instrs.last());
                        assert(st3 == emit(st2, st3.instrs.last()));
                        lemma_grows_trans(st, st2, st3);
                        let st4 = define(st3, name@, CompileBinding::Local(local));
                        lemma_grows_same(st3, st4);
                        lemma_grows_trans(st, st3, st4);
                        let loop_start = st4.instrs.len() as usize;
                        lemma_expr_grows(st4, condition);
                        if let Some((st5, ValueSlot::Bool(c))) = spec_compile_expr(st4, condition) {
                            lemma_grows_trans(st, st4, st5);
                            let exit = st5.instrs.len() as int;
                            let ph = Instruction::JumpIfFalse(c, usize::MAX);
                            let a1 = emit(st5, ph);
                            let st6 = emit(a1, Instruction::LoopTick);
                            lemma_emit_grows(a1, Instruction::LoopTick);
                            let inner = st6.binds.len() as int;
                            lemma_stmts_grows(st6, body@);
                            if let Some(st7) = spec_compile_stmts(st6, body@) {
                                lemma_grows_trans(a1, st6, st7);
                                let st7c = close_scope(st7, inner);
                                lemma_grows_same(st7, st7c);
                                lemma_grows_trans(a1, st7, st7c);
                                lemma_stmt_grows(st7c, *update);
                                if let Some(st8) = spec_compile_stmt(st7c, *update) {
                                    lemma_grows_trans(a1, st7c, st8);
                                    let jb = Instruction::Jump(loop_start);
                                    lemma_emit_grows(st8, jb);
                                    lemma_grows_trans(a1, st8, emit(st8, jb));
                                    if let Some(st9) = patch(emit(st8, jb), exit) {
                                        lemma_placeholder_grows(st5, ph, emit(st8, jb), st9);
                                        lemma_grows_trans(st, st5, st9);
                                        lemma_grows_same(st9, close_scope(st9, mark));
                                        lemma_grows_trans(st, st9, close_scope(st9, mark));
                                    }
                                }
                            }
                        }
                    }
                }
            }
        
    }
}

proof fn lemma_if_stmt_grows(st: CState, s: Stmt)
    requires
        s is If,
    ensures
        spec_compile_stmt(st, s) matches Some(st2) ==> grows(st, st2),
    decreases s, 0int,
{
    if let Stmt::If { condition, then_body, else_body } = s {
            lemma_expr_grows(st, condition);
            if let Some((st1, ValueSlot::Bool(c))) = spec_compile_expr(st, condition) {
                let ph = Instruction::JumpIfFalse(c, usize::MAX);
                let st2 = emit(st1, ph);
                let m = st2.binds.len() as int;
                lemma_stmts_grows(st2, then_body@);
                if let Some(st3) = spec_compile_stmts(st2, then_body@) {
                    let st4 = close_scope(st3, m);
                    lemma_grows_same(st3, st4);
                    lemma_grows_trans(st2, st3, st4);
                    let end = st4.instrs.len() as int;
                    let ph2 = Instruction::Jump(usize::MAX);
                    let st4j = emit(st4, ph2);
                    if let Some(st5) = patch(st4j, st1.instrs.len() as int) {
                        let m2 = st5.binds.len() as int;
                        lemma_stmts_grows(st5, else_body@);
                        if let Some(st6) = spec_compile_stmts(st5, else_body@) {
                            let st6c = close_scope(st6, m2);
                            lemma_grows_same(st6, st6c);
                            lemma_grows_trans(st5, st6, st6c);
                            if let Some(st7) = patch(st6c, end) {
                                lemma_if_grows(st1, ph, st3, st4, ph2, st5, st6c, st7);
                                lemma_grows_trans(st, st1, st7);
                            }
                        }
                    }
                }
            }
        
    }
}

/// The two placeholders of an `if`: the jump past the `then` branch, patched
/// once that branch is compiled, and the jump past the `else` branch.
proof fn lemma_if_grows(
    st1: CState,
    ph: Instruction,
    st3: CState,
    st4: CState,
    ph2: Instruction,
    st5: CState,
    st6: CState,
    st7: CState,
)
    requires
        ph matches Instruction::JumpIfFalse(_, _),
        ph2 matches Instruction::Jump(_),
        grows(emit(st1, ph), st3),
        st4.instrs == st3.instrs,
        patch(emit(st4, ph2), st1.instrs.len() as int) == Some(st5),
        grows(st5, st6),
        patch(st6, st4.instrs.len() as int) == Some(st7),
    ensures
        grows(st1, st7),
{
    let l1 = st1.instrs.len() as int;
    let l4 = st4.instrs.len() as int;
    let a1 = emit(st1, ph);
    let s4j = emit(st4, ph2);
    assert(st3.instrs.subrange(0, l1 + 1)[l1] == a1.instrs[l1]);
    assert(st5.instrs.len() == l4 + 1);
    assert(st6.instrs.subrange(0, l4 + 1)[l1] == st5.instrs[l1]);
    assert forall|i: int| 0 <= i < l1 implies st7.instrs[i] == st1.instrs[i] by {
        assert(st3.instrs.subrange(0, l1 + 1)[i] == a1.instrs[i]);
        assert(st6.instrs.subrange(0, l4 + 1)[i] == st5.instrs[i]);
    }
    assert(st7.instrs.subrange(0, l1) =~= st1.instrs);
    assert forall|i: int| l1 <= i < st7.instrs.len() implies (jump_target(#[trigger] st7.instrs[i]) matches Some(t)
        ==> t <= st7.instrs.len()) by {
        if l1 < i < l4 {
            assert(st6.instrs.subrange(0, l4 + 1)[i] == st5.instrs[i]);
            assert(st5.instrs[i] == s4j.instrs[i]);
            assert(s4j.instrs[i] == st3.instrs[i]);
        } else if i > l4 {
            assert(st7.instrs[i] == st6.instrs[i]);
        }
    }
}

proof fn lemma_stmts_grows(st: CState, ss: Seq<Stmt>)
    ensures
        spec_compile_stmts(st, ss) matches Some(st2) ==> grows(st, st2),
    decreases ss, 1int,
{
    if ss.len() == 0 {
        lemma_grows_same(st, st);
    } else {
        lemma_stmts_grows(st, ss.drop_last());
        if let Some(st1) = spec_compile_stmts(st, ss.drop_last()) {
            lemma_stmt_grows(st1, ss.last());
            if let Some(st2) = spec_compile_stmt(st1, ss.last()) {
                lemma_grows_trans(st, st1, st2);
            }
        }
    }
}

proof fn lemma_define_options_keeps(st: CState, options: Seq<Seq<char>>)
    ensures
        define_options(st, options).instrs == st.instrs,
    decreases options.len(),
{
    if options.len() > 0 {
        lemma_define_options_keeps(st, options.drop_last());
    }
}

proof fn lemma_define_params_keeps(st: CState, params: Seq<EffectParamSchema>)
    ensures
        define_params(st, params).instrs == st.instrs,
    decreases params.len(),
{
    if params.len() > 0 {
        lemma_define_params_keeps(st, params.drop_last());
        let st1 = define_params(st, params.drop_last());
        let p = params.last();
        let st2 = define(
            st1,
            p.name@,
            CompileBinding::Param { index: (params.len() - 1) as usize, value_type: p.value_type },
        );
        lemma_define_options_keeps(st2, options_view(p.options@));
    }
}

/// Every jump of a compiled sample lands within its code (at most one past its
/// last instruction), so the program can be specialized and compacted.
pub proof fn lemma_compiled_jumps_in_bounds(effect: EffectAst)
    ensures
        spec_compile_effect(effect) matches Some(st) ==> jumps_in_bounds(st.instrs),
{
    if let EffectEntrypoint::Sample(ss) = effect.entrypoint {
        let st0 = initial_state(effect.params@);
        lemma_define_params_keeps(
            define_constant(
                define_constant(
                    define(
                        define(
                            define(
                                define(
                                    CState {
                                        instrs: seq![],
                                        consts: seq![],
                                        binds: seq![],
                                        regs: RegisterCounts {
                                            floats: 0,
                                            ints: 0,
                                            bools: 0,
                                            colors: 0,
                                            refs: 0,
                                            fixtures: 0,
                                            pixels: 0,
                                        },
                                    },
                                    "progress"@,
                                    CompileBinding::Context(BuiltinContext::Progress),
                                ),
                                "seconds"@,
                                CompileBinding::Context(BuiltinContext::Seconds),
                            ),
                            "fixture"@,
                            CompileBinding::Context(BuiltinContext::Fixture),
                        ),
                        "pixel"@,
                        CompileBinding::Context(BuiltinContext::Pixel),
                    ),
                    "PI"@,
                    BuiltinConstant::Pi,
                ),
                "TAU"@,
                BuiltinConstant::Tau,
            ),
            effect.params@,
        );
        assert(st0.instrs.len() == 0);
        lemma_stmts_grows(st0, ss@);
        if let Some(st) = spec_compile_stmts(st0, ss@) {
            assert forall|i: int| 0 <= i < st.instrs.len() implies (jump_target(#[trigger] st.instrs[i]) matches Some(
                t,
            ) ==> t <= st.instrs.len()) by {}
        }
    }
}

/// Later state `b` keeps what `a` allocated: no register count goes down, and
/// the constants of `a` stay where they are.
pub open spec fn extends(a: CState, b: CState) -> bool {
    &&& a.regs.refs <= b.regs.refs
    &&& a.regs.bools <= b.regs.bools
    &&& a.consts.len() <= b.consts.len()
    &&& b.consts.subrange(0, a.consts.len() as int) == a.consts
}

/// What a binding names exists: its register, its constant, or its parameter
/// among `n` parameters.
pub open spec fn binding_in_range(b: CompileBinding, st: CState, n: nat) -> bool {
    match b {
        CompileBinding::Local(s) => slot_in_range(s, st.regs.refs as nat, st.regs.bools as nat),
        CompileBinding::Constant(c) => c < st.consts.len(),
        CompileBinding::Param { index, .. } => index < n,
        CompileBinding::Context(_) => true,
    }
}

/// Every instruction and every binding of `st` names only what exists, for a
/// sample with `n` parameters.
pub open spec fn in_range(st: CState, n: nat) -> bool {
    &&& forall|i: int|
        0 <= i < st.instrs.len() ==> instruction_in_range(
            #[trigger] st.instrs[i],
            st.regs.refs as nat,
            st.regs.bools as nat,
            st.consts.len(),
            n,
        )
    &&& forall|i: int| 0 <= i < st.binds.len() ==> binding_in_range(#[trigger] st.binds[i].1, st, n)
}

proof fn lemma_extends_refl(a: CState)
    ensures
        extends(a, a),
{
    assert(a.consts.subrange(0, a.consts.len() as int) =~= a.consts);
}

proof fn lemma_extends_trans(a: CState, b: CState, c: CState)
    requires
        extends(a, b),
        extends(b, c),
    ensures
        extends(a, c),
{
    let la = a.consts.len() as int;
    assert forall|i: int| 0 <= i < la implies c.consts[i] == a.consts[i] by {
        assert(c.consts.subrange(0, b.consts.len() as int)[i] == b.consts[i]);
        assert(b.consts.subrange(0, la)[i] == a.consts[i]);
    }
    assert(c.consts.subrange(0, la) =~= a.consts);
}

/// Moving to a state that extends this one, with the same code and names,
/// keeps everything in range.
proof fn lemma_in_range_extend(a: CState, b: CState, n: nat)
    requires
        in_range(a, n),
        extends(a, b),
        b.instrs == a.instrs,
        b.binds == a.binds,
    ensures
        in_range(b, n),
{
    assert forall|i: int| 0 <= i < b.instrs.len() implies instruction_in_range(
        #[trigger] b.instrs[i],
        b.regs.refs as nat,
        b.regs.bools as nat,
        b.consts.len(),
        n,
    ) by {
        assert(instruction_in_range(a.instrs[i], a.regs.refs as nat, a.regs.bools as nat, a.consts.len(), n));
    }
    assert forall|i: int| 0 <= i < b.binds.len() implies binding_in_range(#[trigger] b.binds[i].1, b, n) by {
        assert(binding_in_range(a.binds[i].1, a, n));
    }
}

proof fn lemma_in_range_emit(a: CState, ins: Instruction, n: nat)
    requires
        in_range(a, n),
        instruction_in_range(ins, a.regs.refs as nat, a.regs.bools as nat, a.consts.len(), n),
    ensures
        in_range(emit(a, ins), n),
        extends(a, emit(a, ins)),
{
    lemma_extends_refl(a);
    let b = emit(a, ins);
    assert forall|i: int| 0 <= i < b.instrs.len() implies instruction_in_range(
        #[trigger] b.instrs[i],
        b.regs.refs as nat,
        b.regs.bools as nat,
        b.consts.len(),
        n,
    ) by {
        if i < a.instrs.len() {
            assert(b.instrs[i] == a.instrs[i]);
        }
    }
    assert forall|i: int| 0 <= i < b.binds.len() implies binding_in_range(#[trigger] b.binds[i].1, b, n) by {
        assert(binding_in_range(a.binds[i].1, a, n));
    }
}

/// A new register exists in the state that allocated it, which extends the
/// old one and keeps everything in range.
proof fn lemma_alloc_in_range(st: CState, t: ScriptType, n: nat)
    requires
        in_range(st, n),
    ensures
        alloc_slot(st, t) matches Some((s, v)) ==> {
            &&& in_range(s, n)
            &&& extends(st, s)
            &&& s.instrs == st.instrs
            &&& s.binds == st.binds
            &&& s.consts == st.consts
            &&& slot_in_range(v, s.regs.refs as nat, s.regs.bools as nat)
            &&& slot_type(v) == t
        },
        alloc_float(st) matches Some((s, _)) ==> in_range(s, n) && extends(st, s) && s.instrs == st.instrs && s.binds
            == st.binds && s.consts == st.consts,
        alloc_int(st) matches Some((s, _)) ==> in_range(s, n) && extends(st, s) && s.instrs == st.instrs && s.binds
            == st.binds && s.consts == st.consts,
        alloc_bool(st) matches Some((s, d)) ==> in_range(s, n) && extends(st, s) && s.instrs == st.instrs && s.binds
            == st.binds && s.consts == st.consts && d.0 < s.regs.bools,
        alloc_color(st) matches Some((s, _)) ==> in_range(s, n) && extends(st, s) && s.instrs == st.instrs && s.binds
            == st.binds && s.consts == st.consts,
{
    lemma_extends_refl(st);
    if let Some((s, v)) = alloc_slot(st, t) {
        assert(s.consts.subrange(0, st.consts.len() as int) =~= st.consts);
        lemma_in_range_extend(st, s, n);
    }
    if let Some((s, v)) = alloc_float(st) {
        assert(s.consts.subrange(0, st.consts.len() as int) =~= st.consts);
        lemma_in_range_extend(st, s, n);
    }
    if let Some((s, v)) = alloc_int(st) {
        assert(s.consts.subrange(0, st.consts.len() as int) =~= st.consts);
        lemma_in_range_extend(st, s, n);
    }
    if let Some((s, v)) = alloc_bool(st) {
        assert(s.consts.subrange(0, st.consts.len() as int) =~= st.consts);
        lemma_in_range_extend(st, s, n);
    }
    if let Some((s, v)) = alloc_color(st) {
        assert(s.consts.subrange(0, st.consts.len() as int) =~= st.consts);
        lemma_in_range_extend(st, s, n);
    }
}

/// The innermost binding of a name is one of the bindings.
proof fn lemma_find_binding_in(bs: Seq<(Seq<char>, CompileBinding)>, name: Seq<char>)
    ensures
        find_binding(bs, name) matches Some(b) ==> exists|i: int| 0 <= i < bs.len() && #[trigger] bs[i].1 == b,
    decreases bs.len(),
{
    if bs.len() > 0 {
        if bs.last().0 == name {
            assert(bs[bs.len() - 1].1 == bs.last().1);
        } else {
            lemma_find_binding_in(bs.drop_last(), name);
            if let Some(b) = find_binding(bs.drop_last(), name) {
                let i = choose|i: int| 0 <= i < bs.drop_last().len() && #[trigger] bs.drop_last()[i].1 == b;
                assert(bs[i].1 == b);
            }
        }
    }
}

/// The type of an expression does not change as the compilation adds
/// registers and constants.
proof fn lemma_expr_type_stable(a: CState, b: CState, e: Expr)
    requires
        extends(a, b),
        b.binds == a.binds,
        c_expr_type(a, e) is Some,
    ensures
        c_expr_type(b, e) == c_expr_type(a, e),
    decreases e, 2int,
{
    match e {
        Expr::Ident(name) => {
            if let Some(CompileBinding::Constant(i)) = find_binding(a.binds, name@) {
                assert(b.consts.subrange(0, a.consts.len() as int)[i as int] == a.consts[i as int]);
            }
        },
        Expr::Unary { op, expr } => {
            if op == UnaryOp::Negate {
                lemma_expr_type_stable(a, b, *expr);
            }
        },
        Expr::Binary { left, op, right } => {
            lemma_expr_type_stable(a, b, *left);
            lemma_expr_type_stable(a, b, *right);
        },
        Expr::Call { name, args } => {
            lemma_call_type_stable(a, b, name@, args@);
        },
        _ => {},
    }
}

proof fn lemma_call_type_stable(a: CState, b: CState, name: Seq<char>, args: Seq<Expr>)
    requires
        extends(a, b),
        b.binds == a.binds,
        c_call_type(a, name, args) is Some,
    ensures
        c_call_type(b, name, args) == c_call_type(a, name, args),
    decreases args, 1int,
{
    if !(find_binding(a.binds, name) matches Some(CompileBinding::Param { .. })) {
        lemma_args_types_stable(a, b, args);
    }
}

proof fn lemma_args_types_stable(a: CState, b: CState, args: Seq<Expr>)
    requires
        extends(a, b),
        b.binds == a.binds,
        c_args_types(a, args) is Some,
    ensures
        c_args_types(b, args) == c_args_types(a, args),
    decreases args, 0int,
{
    if args.len() > 0 {
        lemma_args_types_stable(a, b, args.drop_last());
        lemma_expr_type_stable(a, b, args.last());
    }
}

/// A compiled value: the state after it keeps everything in range, extends
/// the state before, has the same names, and holds the value in a register
/// that exists.
pub open spec fn value_ok(st: CState, st2: CState, v: ValueSlot, n: nat) -> bool {
    &&& in_range(st2, n)
    &&& extends(st, st2)
    &&& st2.binds == st.binds
    &&& slot_in_range(v, st2.regs.refs as nat, st2.regs.bools as nat)
}

proof fn lemma_add_const_in_range(st: CState, c: SpecConst, n: nat)
    requires
        in_range(st, n),
    ensures
        in_range(add_const(st, c), n),
        extends(st, add_const(st, c)),
{
    let b = add_const(st, c);
    assert(b.consts.subrange(0, st.consts.len() as int) =~= st.consts);
    lemma_in_range_extend(st, b, n);
}

proof fn lemma_emit_after(st: CState, s: CState, ins: Instruction, n: nat)
    requires
        in_range(s, n),
        extends(st, s),
        instruction_in_range(ins, s.regs.refs as nat, s.regs.bools as nat, s.consts.len(), n),
    ensures
        in_range(emit(s, ins), n),
        extends(st, emit(s, ins)),
{
    lemma_in_range_emit(s, ins, n);
    lemma_extends_trans(st, s, emit(s, ins));
}

proof fn lemma_load_constant_ok(st: CState, c: SpecConst, n: nat)
    requires
        in_range(st, n),
    ensures
        load_constant(st, c) matches Some((st2, v)) ==> value_ok(st, st2, v, n) && slot_type(v) == const_type(c),
{
    let s0 = add_const(st, c);
    lemma_add_const_in_range(st, c, n);
    lemma_alloc_in_range(s0, const_type(c), n);
    if let Some((s, dest)) = alloc_slot(s0, const_type(c)) {
        lemma_extends_trans(st, s0, s);
        lemma_emit_after(st, s, Instruction::LoadConst(dest, st.consts.len() as usize), n);
    }
}

/// The type of the value a binding stands for.
pub open spec fn binding_type(st: CState, b: CompileBinding) -> ScriptType {
    match b {
        CompileBinding::Context(c) => context_type(c),
        CompileBinding::Constant(i) => const_type(st.consts[i as int]),
        CompileBinding::Param { value_type, .. } => value_type,
        CompileBinding::Local(slot) => slot_type(slot),
    }
}

proof fn lemma_load_binding_ok(st: CState, b: Option<CompileBinding>, n: nat)
    requires
        in_range(st, n),
        b matches Some(x) ==> binding_in_range(x, st, n),
    ensures
        load_binding(st, b) matches Some((st2, v)) ==> value_ok(st, st2, v, n) && (b matches Some(x)
            && slot_type(v) == binding_type(st, x)),
{
    lemma_extends_refl(st);
    match b {
        Some(CompileBinding::Context(c)) => {
            lemma_alloc_in_range(st, context_type(c), n);
            if let Some((s, dest)) = alloc_slot(st, context_type(c)) {
                lemma_emit_after(st, s, Instruction::LoadContext(dest, spec_context_slot(c)), n);
            }
        },
        Some(CompileBinding::Constant(i)) => {
            if i < st.consts.len() {
                lemma_alloc_in_range(st, const_type(st.consts[i as int]), n);
                if let Some((s, dest)) = alloc_slot(st, const_type(st.consts[i as int])) {
                    lemma_emit_after(st, s, Instruction::LoadConst(dest, i), n);
                }
            }
        },
        Some(CompileBinding::Param { index, value_type }) => {
            lemma_alloc_in_range(st, value_type, n);
            if let Some((s, dest)) = alloc_slot(st, value_type) {
                lemma_emit_after(st, s, Instruction::LoadParam(dest, index), n);
            }
        },
        _ => {},
    }
}

proof fn lemma_binding_found_in_range(st: CState, name: Seq<char>, n: nat)
    requires
        in_range(st, n),
    ensures
        find_binding(st.binds, name) matches Some(x) ==> binding_in_range(x, st, n),
{
    lemma_find_binding_in(st.binds, name);
    if let Some(x) = find_binding(st.binds, name) {
        let i = choose|i: int| 0 <= i < st.binds.len() && #[trigger] st.binds[i].1 == x;
        assert(binding_in_range(st.binds[i].1, st, n));
    }
}

proof fn lemma_unary_ok(st: CState, st1: CState, op: UnaryOp, v: ValueSlot, n: nat)
    requires
        value_ok(st, st1, v, n),
    ensures
        compile_unary(st1, op, v) matches Some((st2, w)) ==> value_ok(st, st2, w, n) && slot_type(w) == (
        if op == UnaryOp::Not {
            ScriptType::Bool
        } else {
            slot_type(v)
        }),
{
    lemma_alloc_in_range(st1, ScriptType::Float, n);
    match (op, v) {
        (UnaryOp::Negate, ValueSlot::Float(s)) => {
            if let Some((s1, d)) = alloc_float(st1) {
                lemma_extends_trans(st, st1, s1);
                lemma_emit_after(st, s1, Instruction::FloatUnary(d, UnaryFloatInstruction::Negate, s), n);
            }
        },
        (UnaryOp::Negate, ValueSlot::Int(s)) => {
            if let Some((s1, d)) = alloc_int(st1) {
                lemma_extends_trans(st, st1, s1);
                lemma_emit_after(st, s1, Instruction::IntNegate(d, s), n);
            }
        },
        (UnaryOp::Not, ValueSlot::Bool(s)) => {
            if let Some((s1, d)) = alloc_bool(st1) {
                lemma_extends_trans(st, st1, s1);
                lemma_emit_after(st, s1, Instruction::BoolNot(d, s), n);
            }
        },
        _ => {},
    }
}

proof fn lemma_promote_ok(st: CState, st1: CState, slot: ValueSlot, ins: BinaryInstruction, is_left: bool, n: nat)
    requires
        value_ok(st, st1, slot, n),
    ensures
        promote(st1, slot, ins, is_left) matches Some((st2, w)) ==> value_ok(st, st2, w, n) && (!(slot is Int)
            ==> w == slot),
{
    lemma_alloc_in_range(st1, ScriptType::Float, n);
    if let ValueSlot::Int(s) = slot {
        if needs_float(ins, is_left) {
            if let Some((s1, d)) = alloc_float(st1) {
                lemma_extends_trans(st, st1, s1);
                lemma_emit_after(st, s1, Instruction::IntToFloat(d, s), n);
            }
        }
    }
}

proof fn lemma_finish_binary_ok(
    st: CState,
    st0: CState,
    lt: ScriptType,
    op: BinaryOp,
    rt: ScriptType,
    l: ValueSlot,
    r: ValueSlot,
    n: nat,
)
    requires
        value_ok(st, st0, l, n),
        slot_in_range(r, st0.regs.refs as nat, st0.regs.bools as nat),
        slot_type(l) == lt,
        slot_type(r) == rt,
    ensures
        finish_binary(st0, lt, op, rt, l, r) matches Some((st2, v)) ==> value_ok(st, st2, v, n) && Some(
            slot_type(v),
        ) == spec_binary_result_type(lt, op, rt),
{
    if let (Some(ins), Some(rty)) = (spec_binary_instruction(lt, op, rt), spec_binary_result_type(lt, op, rt)) {
        lemma_alloc_in_range(st0, rty, n);
        if let Some((st1, dest)) = alloc_slot(st0, rty) {
            lemma_extends_trans(st, st0, st1);
            lemma_promote_ok(st, st1, l, ins, true, n);
            if let Some((st2, l2)) = promote(st1, l, ins, true) {
                assert(value_ok(st0, st1, r, n));
                lemma_extends_trans(st0, st1, st2);
                lemma_promote_ok(st0, st2, r, ins, false, n);
                if let Some((st3, r2)) = promote(st2, r, ins, false) {
                    lemma_extends_trans(st, st0, st3);
                    let i = Instruction::Binary(dest, ins, l2, r2);
                    assert(instruction_in_range(i, st3.regs.refs as nat, st3.regs.bools as nat, st3.consts.len(), n));
                    lemma_emit_after(st, st3, i, n);
                }
            }
        }
    }
}

proof fn lemma_to_float_ok(st: CState, s1: CState, f: spec_fn(FloatSlot) -> Instruction, n: nat)
    requires
        in_range(s1, n),
        extends(st, s1),
        s1.binds == st.binds,
        forall|d: FloatSlot|
            instruction_in_range(#[trigger] f(d), s1.regs.refs as nat, s1.regs.bools as nat, s1.consts.len(), n),
    ensures
        to_float(s1, f) matches Some((st2, v)) ==> value_ok(st, st2, v, n) && slot_type(v) == ScriptType::Float,
{
    lemma_alloc_in_range(s1, ScriptType::Float, n);
    if let Some((s2, d)) = alloc_float(s1) {
        lemma_extends_trans(st, s1, s2);
        lemma_emit_after(st, s2, f(d), n);
    }
}

proof fn lemma_to_int_ok(st: CState, s1: CState, f: spec_fn(IntSlot) -> Instruction, n: nat)
    requires
        in_range(s1, n),
        extends(st, s1),
        s1.binds == st.binds,
        forall|d: IntSlot|
            instruction_in_range(#[trigger] f(d), s1.regs.refs as nat, s1.regs.bools as nat, s1.consts.len(), n),
    ensures
        to_int(s1, f) matches Some((st2, v)) ==> value_ok(st, st2, v, n) && slot_type(v) == ScriptType::Int,
{
    lemma_alloc_in_range(s1, ScriptType::Int, n);
    if let Some((s2, d)) = alloc_int(s1) {
        lemma_extends_trans(st, s1, s2);
        lemma_emit_after(st, s2, f(d), n);
    }
}

proof fn lemma_to_color_ok(st: CState, s1: CState, f: spec_fn(ColorSlot) -> Instruction, n: nat)
    requires
        in_range(s1, n),
        extends(st, s1),
        s1.binds == st.binds,
        forall|d: ColorSlot|
            instruction_in_range(#[trigger] f(d), s1.regs.refs as nat, s1.regs.bools as nat, s1.consts.len(), n),
    ensures
        to_color(s1, f) matches Some((st2, v)) ==> value_ok(st, st2, v, n) && slot_type(v) == ScriptType::Color,
{
    lemma_alloc_in_range(s1, ScriptType::Color, n);
    if let Some((s2, d)) = alloc_color(s1) {
        lemma_extends_trans(st, s1, s2);
        lemma_emit_after(st, s2, f(d), n);
    }
}

/// Compiling an expression keeps everything in range, and the register it
/// gives holds a value of the expression's type.
proof fn lemma_expr_ok(st: CState, e: Expr, n: nat)
    requires
        in_range(st, n),
    ensures
        spec_compile_expr(st, e) matches Some((st2, v)) ==> value_ok(st, st2, v, n) && (c_expr_type(st, e) matches Some(
            t,
        ) ==> slot_type(v) == t),
    decreases e, 5int,
{
    match e {
        Expr::Float(bits) => lemma_load_constant_ok(st, SpecConst::Float(bits), n),
        Expr::Int(v) => lemma_load_constant_ok(st, SpecConst::Int(v), n),
        Expr::Bool(b) => lemma_load_constant_ok(st, SpecConst::Bool(b), n),
        Expr::Color(c) => lemma_load_constant_ok(st, SpecConst::Color(c), n),
        Expr::Ident(name) => {
            lemma_binding_found_in_range(st, name@, n);
            lemma_load_binding_ok(st, find_binding(st.binds, name@), n);
        },
        Expr::Unary { op, expr } => {
            lemma_expr_ok(st, *expr, n);
            if let Some((st1, v)) = spec_compile_expr(st, *expr) {
                lemma_unary_ok(st, st1, op, v, n);
            }
        },
        Expr::Binary { .. } => lemma_binary_ok(st, e, n),
        Expr::Call { name, args } => lemma_call_ok(st, name@, args@, n),
        _ => {},
    }
}

proof fn lemma_binary_ok(st: CState, e: Expr, n: nat)
    requires
        in_range(st, n),
    ensures
        spec_compile_binary(st, e) matches Some((st2, v)) ==> value_ok(st, st2, v, n) && (c_expr_type(st, e) matches Some(
            t,
        ) ==> slot_type(v) == t),
    decreases e, 4int,
{
    if let Expr::Binary { left, op, right } = e {
        if op == BinaryOp::LogicalAnd || op == BinaryOp::LogicalOr {
            lemma_alloc_in_range(st, ScriptType::Bool, n);
            if let Some((st1, dest)) = alloc_bool(st) {
                lemma_expr_ok(st1, *left, n);
                if let Some((st2, ValueSlot::Bool(l))) = spec_compile_expr(st1, *left) {
                    lemma_extends_trans(st, st1, st2);
                    let c1 = Instruction::Copy(ValueSlot::Bool(dest), ValueSlot::Bool(l));
                    lemma_emit_after(st, st2, c1, n);
                    let st3 = emit(st2, c1);
                    let ph = if op == BinaryOp::LogicalAnd {
                        Instruction::JumpIfFalse(dest, usize::MAX)
                    } else {
                        Instruction::JumpIfTrue(dest, usize::MAX)
                    };
                    lemma_emit_after(st, st3, ph, n);
                    let st4 = emit(st3, ph);
                    lemma_expr_ok(st4, *right, n);
                    if let Some((st5, ValueSlot::Bool(r))) = spec_compile_expr(st4, *right) {
                        lemma_extends_trans(st, st4, st5);
                        let c2 = Instruction::Copy(ValueSlot::Bool(dest), ValueSlot::Bool(r));
                        lemma_emit_after(st, st5, c2, n);
                        if let Some(st6) = patch(emit(st5, c2), st3.instrs.len() as int) {
                            lemma_patch_in_range(emit(st5, c2), st3.instrs.len() as int, n);
                            lemma_extends_trans(st, emit(st5, c2), st6);
                        }
                    }
                }
            }
        } else {
            if let (Some(lt), Some(rt)) = (c_expr_type(st, *left), c_expr_type(st, *right)) {
                lemma_expr_ok(st, *left, n);
                if let Some((st1, l)) = spec_compile_expr(st, *left) {
                    lemma_expr_ok(st1, *right, n);
                    lemma_expr_type_stable(st, st1, *right);
                    if let Some((st2, r)) = spec_compile_expr(st1, *right) {
                        lemma_extends_trans(st, st1, st2);
                        assert(slot_in_range(l, st2.regs.refs as nat, st2.regs.bools as nat));
                        lemma_finish_binary_ok(st, st2, lt, op, rt, l, r, n);
                    }
                }
            }
        }
    }
}

/// Patching a jump changes only where it goes.
proof fn lemma_patch_in_range(st: CState, j: int, n: nat)
    requires
        in_range(st, n),
    ensures
        patch(st, j) matches Some(st2) ==> in_range(st2, n) && extends(st, st2) && st2.binds == st.binds && st2.regs
            == st.regs && st2.consts == st.consts,
{
    lemma_extends_refl(st);
    if let Some(st2) = patch(st, j) {
        assert forall|i: int| 0 <= i < st2.instrs.len() implies instruction_in_range(
            #[trigger] st2.instrs[i],
            st2.regs.refs as nat,
            st2.regs.bools as nat,
            st2.consts.len(),
            n,
        ) by {
            assert(instruction_in_range(st.instrs[i], st.regs.refs as nat, st.regs.bools as nat, st.consts.len(), n));
        }
        assert forall|i: int| 0 <= i < st2.binds.len() implies binding_in_range(#[trigger] st2.binds[i].1, st2, n) by {
            assert(binding_in_range(st.binds[i].1, st, n));
        }
    }
}

proof fn lemma_float_arg_ok(st: CState, e: Expr, n: nat)
    requires
        in_range(st, n),
    ensures
        spec_compile_float_arg(st, e) matches Some((st2, f)) ==> value_ok(st, st2, ValueSlot::Float(f), n),
    decreases e, 6int,
{
    lemma_expr_ok(st, e, n);
    if let Some((st1, ValueSlot::Int(i))) = spec_compile_expr(st, e) {
        lemma_alloc_in_range(st1, ScriptType::Float, n);
        if let Some((st2, d)) = alloc_float(st1) {
            lemma_extends_trans(st, st1, st2);
            lemma_emit_after(st, st2, Instruction::IntToFloat(d, i), n);
        }
    }
}

proof fn lemma_float2_ok(st: CState, args: Seq<Expr>, n: nat)
    requires
        in_range(st, n),
    ensures
        spec_compile_float2(st, args) matches Some((st2, _, _)) ==> in_range(st2, n) && extends(st, st2) && st2.binds
            == st.binds,
    decreases args, 1int,
{
    if args.len() >= 2 {
        lemma_float_arg_ok(st, args[0], n);
        if let Some((st1, _)) = spec_compile_float_arg(st, args[0]) {
            lemma_float_arg_ok(st1, args[1], n);
            if let Some((st2, _)) = spec_compile_float_arg(st1, args[1]) {
                lemma_extends_trans(st, st1, st2);
            }
        }
    }
}

proof fn lemma_float3_ok(st: CState, args: Seq<Expr>, n: nat)
    requires
        in_range(st, n),
    ensures
        spec_compile_float3(st, args) matches Some((st2, _, _, _)) ==> in_range(st2, n) && extends(st, st2)
            && st2.binds == st.binds,
    decreases args, 1int,
{
    if args.len() >= 3 {
        lemma_float_arg_ok(st, args[0], n);
        if let Some((st1, _)) = spec_compile_float_arg(st, args[0]) {
            lemma_float_arg_ok(st1, args[1], n);
            if let Some((st2, _)) = spec_compile_float_arg(st1, args[1]) {
                lemma_extends_trans(st, st1, st2);
                lemma_float_arg_ok(st2, args[2], n);
                if let Some((st3, _)) = spec_compile_float_arg(st2, args[2]) {
                    lemma_extends_trans(st, st2, st3);
                }
            }
        }
    }
}

proof fn lemma_call_ok(st: CState, name: Seq<char>, args: Seq<Expr>, n: nat)
    requires
        in_range(st, n),
    ensures
        spec_compile_call(st, name, args) matches Some((st2, v)) ==> value_ok(st, st2, v, n) && (c_call_type(
            st,
            name,
            args,
        ) matches Some(t) ==> slot_type(v) == t),
    decreases args, 4int,
{
    match find_binding(st.binds, name) {
        Some(CompileBinding::Param { index, value_type }) if value_type == ScriptType::CurveFloat || value_type
            == ScriptType::CurveColor => {
            if args.len() > 0 {
                lemma_float_arg_ok(st, args[0], n);
                if let Some((st1, amount)) = spec_compile_float_arg(st, args[0]) {
                    lemma_alloc_in_range(st1, ScriptType::Float, n);
                    if value_type == ScriptType::CurveFloat {
                        if let Some((st2, d)) = alloc_float(st1) {
                            lemma_extends_trans(st, st1, st2);
                            lemma_emit_after(st, st2, Instruction::CallFloatCurveParam(d, index, amount), n);
                        }
                    } else {
                        if let Some((st2, d)) = alloc_color(st1) {
                            lemma_extends_trans(st, st1, st2);
                            lemma_emit_after(st, st2, Instruction::CallColorCurveParam(d, index, amount), n);
                        }
                    }
                }
            }
        },
        _ => {
            if let Some(f) = function_named(name) {
                lemma_builtin_ok(st, f, name, args, n);
            }
        },
    }
}

/// The type of the value that a builtin other than `mix` gives in a sample.
pub open spec fn builtin_result_type(f: BuiltinFunction) -> ScriptType {
    match f {
        BuiltinFunction::PixelIndex | BuiltinFunction::PixelCount | BuiltinFunction::MarkCount => ScriptType::Int,
        BuiltinFunction::Rgb | BuiltinFunction::Hsv => ScriptType::Color,
        _ => ScriptType::Float,
    }
}

proof fn lemma_builtin_result_type(st: CState, f: BuiltinFunction, name: Seq<char>, args: Seq<Expr>)
    requires
        function_named(name) == Some(f),
    ensures
        !(find_binding(st.binds, name) matches Some(CompileBinding::Param { .. })) && f != BuiltinFunction::Mix
            && f != BuiltinFunction::Fixtures && f != BuiltinFunction::Pixels && f != BuiltinFunction::Sections && f
            != BuiltinFunction::Count && f != BuiltinFunction::Pick ==> (c_call_type(st, name, args) matches Some(t)
            ==> t == builtin_result_type(f)),
{
}

/// The state after a statement: everything in range, and extending the state
/// before.
pub open spec fn stmt_ok(st: CState, st2: CState, n: nat) -> bool {
    in_range(st2, n) && extends(st, st2)
}

proof fn lemma_in_range_define(st: CState, name: Seq<char>, b: CompileBinding, n: nat)
    requires
        in_range(st, n),
        binding_in_range(b, st, n),
    ensures
        stmt_ok(st, define(st, name, b), n),
{
    lemma_extends_refl(st);
    let d = define(st, name, b);
    assert forall|i: int| 0 <= i < d.binds.len() implies binding_in_range(#[trigger] d.binds[i].1, d, n) by {
        if i < st.binds.len() {
            assert(binding_in_range(st.binds[i].1, st, n));
        }
    }
    assert forall|i: int| 0 <= i < d.instrs.len() implies instruction_in_range(
        #[trigger] d.instrs[i],
        d.regs.refs as nat,
        d.regs.bools as nat,
        d.consts.len(),
        n,
    ) by {
        assert(instruction_in_range(st.instrs[i], st.regs.refs as nat, st.regs.bools as nat, st.consts.len(), n));
    }
}

proof fn lemma_in_range_close(st: CState, mark: int, n: nat)
    requires
        in_range(st, n),
    ensures
        stmt_ok(st, close_scope(st, mark), n),
{
    lemma_extends_refl(st);
    let d = close_scope(st, mark);
    assert forall|i: int| 0 <= i < d.binds.len() implies binding_in_range(#[trigger] d.binds[i].1, d, n) by {
        assert(d.binds[i] == st.binds[i]);
        assert(binding_in_range(st.binds[i].1, st, n));
    }
    assert forall|i: int| 0 <= i < d.instrs.len() implies instruction_in_range(
        #[trigger] d.instrs[i],
        d.regs.refs as nat,
        d.regs.bools as nat,
        d.consts.len(),
        n,
    ) by {
        assert(instruction_in_range(st.instrs[i], st.regs.refs as nat, st.regs.bools as nat, st.consts.len(), n));
    }
}

proof fn lemma_stmt_ok_trans(a: CState, b: CState, c: CState, n: nat)
    requires
        extends(a, b),
        stmt_ok(b, c, n),
    ensures
        stmt_ok(a, c, n),
{
    lemma_extends_trans(a, b, c);
}

proof fn lemma_emit_assign_ok(st: CState, st2: CState, dest: ValueSlot, source: ValueSlot, n: nat)
    requires
        in_range(st2, n),
        extends(st, st2),
        slot_in_range(dest, st2.regs.refs as nat, st2.regs.bools as nat),
        slot_in_range(source, st2.regs.refs as nat, st2.regs.bools as nat),
    ensures
        emit_assign(st2, dest, source) matches Some(st3) ==> stmt_ok(st, st3, n) && st3.binds == st2.binds
            && st3.regs == st2.regs && st3.consts == st2.consts,
{
    if let Some(st3) = emit_assign(st2, dest, source) {
        lemma_emit_after(st, st2, st3.instrs.last(), n);
        assert(st3 == emit(st2, st3.instrs.last()));
    }
}

proof fn lemma_stmt_ok(st: CState, s: Stmt, n: nat)
    requires
        in_range(st, n),
    ensures
        spec_compile_stmt(st, s) matches Some(st2) ==> stmt_ok(st, st2, n),
    decreases s, 1int,
{
    lemma_extends_refl(st);
    match s {
        Stmt::Let { name, value_type, expr } => {
            lemma_alloc_in_range(st, value_type, n);
            if let Some((st1, local)) = alloc_slot(st, value_type) {
                lemma_expr_ok(st1, expr, n);
                if let Some((st2, value)) = spec_compile_expr(st1, expr) {
                    lemma_extends_trans(st, st1, st2);
                    lemma_emit_assign_ok(st, st2, local, value, n);
                    if let Some(st3) = emit_assign(st2, local, value) {
                        lemma_in_range_define(st3, name@, CompileBinding::Local(local), n);
                        lemma_stmt_ok_trans(st, st3, define(st3, name@, CompileBinding::Local(local)), n);
                    }
                }
            }
        },
        Stmt::Assign { name, expr } => {
            lemma_binding_found_in_range(st, name@, n);
            if let Some(CompileBinding::Local(local)) = find_binding(st.binds, name@) {
                lemma_expr_ok(st, expr, n);
                if let Some((st1, value)) = spec_compile_expr(st, expr) {
                    lemma_emit_assign_ok(st, st1, local, value, n);
                }
            }
        },
        Stmt::Expr(e) => {
            lemma_expr_ok(st, e, n);
        },
        Stmt::For { .. } => lemma_for_ok(st, s, n),
        Stmt::If { .. } => lemma_if_ok(st, s, n),
        Stmt::Return(e) => {
            lemma_expr_ok(st, e, n);
            if let Some((st1, ValueSlot::Color(c))) = spec_compile_expr(st, e) {
                lemma_emit_after(st, st1, Instruction::ReturnColor(c), n);
            }
        },
        Stmt::Emit(_) => {},
    }
}

proof fn lemma_for_ok(st: CState, s: Stmt, n: nat)
    requires
        in_range(st, n),
        s is For,
    ensures
        spec_compile_stmt(st, s) matches Some(st2) ==> stmt_ok(st, st2, n),
    decreases s, 0int,
{
    if let Stmt::For { name, value_type, initializer, condition, update, body } = s {
        let mark = st.binds.len() as int;
        lemma_alloc_in_range(st, value_type, n);
        if let Some((st1, local)) = alloc_slot(st, value_type) {
            lemma_expr_ok(st1, initializer, n);
            if let Some((st2, init)) = spec_compile_expr(st1, initializer) {
                lemma_extends_trans(st, st1, st2);
                lemma_emit_assign_ok(st, st2, local, init, n);
                if let Some(st3) = emit_assign(st2, local, init) {
                    lemma_in_range_define(st3, name@, CompileBinding::Local(local), n);
                    let st4 = define(st3, name@, CompileBinding::Local(local));
                    lemma_extends_trans(st, st3, st4);
                    let loop_start = st4.instrs.len() as usize;
                    lemma_expr_ok(st4, condition, n);
                    if let Some((st5, ValueSlot::Bool(c))) = spec_compile_expr(st4, condition) {
                        lemma_extends_trans(st, st4, st5);
                        let exit = st5.instrs.len() as int;
                        let ph = Instruction::JumpIfFalse(c, usize::MAX);
                        lemma_emit_after(st, st5, ph, n);
                        let a1 = emit(st5, ph);
                        lemma_emit_after(st, a1, Instruction::LoopTick, n);
                        let st6 = emit(a1, Instruction::LoopTick);
                        let inner = st6.binds.len() as int;
                        lemma_stmts_ok(st6, body@, n);
                        if let Some(st7) = spec_compile_stmts(st6, body@) {
                            lemma_extends_trans(st, st6, st7);
                            lemma_in_range_close(st7, inner, n);
                            let st7c = close_scope(st7, inner);
                            lemma_extends_trans(st, st7, st7c);
                            lemma_stmt_ok(st7c, *update, n);
                            if let Some(st8) = spec_compile_stmt(st7c, *update) {
                                lemma_extends_trans(st, st7c, st8);
                                let jb = Instruction::Jump(loop_start);
                                lemma_emit_after(st, st8, jb, n);
                                if let Some(st9) = patch(emit(st8, jb), exit) {
                                    lemma_patch_in_range(emit(st8, jb), exit, n);
                                    lemma_extends_trans(st, emit(st8, jb), st9);
                                    lemma_in_range_close(st9, mark, n);
                                    lemma_extends_trans(st, st9, close_scope(st9, mark));
                                }
                            }
                        }
                    }
                }
            }
        }
    }
}

proof fn lemma_if_ok(st: CState, s: Stmt, n: nat)
    requires
        in_range(st, n),
        s is If,
    ensures
        spec_compile_stmt(st, s) matches Some(st2) ==> stmt_ok(st, st2, n),
    decreases s, 0int,
{
    if let Stmt::If { condition, then_body, else_body } = s {
        lemma_expr_ok(st, condition, n);
        if let Some((st1, ValueSlot::Bool(c))) = spec_compile_expr(st, condition) {
            let ph = Instruction::JumpIfFalse(c, usize::MAX);
            lemma_emit_after(st, st1, ph, n);
            let st2 = emit(st1, ph);
            let m = st2.binds.len() as int;
            lemma_stmts_ok(st2, then_body@, n);
            if let Some(st3) = spec_compile_stmts(st2, then_body@) {
                lemma_extends_trans(st, st2, st3);
                lemma_in_range_close(st3, m, n);
                let st4 = close_scope(st3, m);
                lemma_extends_trans(st, st3, st4);
                let end = st4.instrs.len() as int;
                let ph2 = Instruction::Jump(usize::MAX);
                lemma_emit_after(st, st4, ph2, n);
                if let Some(st5) = patch(emit(st4, ph2), st1.instrs.len() as int) {
                    lemma_patch_in_range(emit(st4, ph2), st1.instrs.len() as int, n);
                    lemma_extends_trans(st, emit(st4, ph2), st5);
                    let m2 = st5.binds.len() as int;
                    lemma_stmts_ok(st5, else_body@, n);
                    if let Some(st6) = spec_compile_stmts(st5, else_body@) {
                        lemma_extends_trans(st, st5, st6);
                        lemma_in_range_close(st6, m2, n);
                        let st6c = close_scope(st6, m2);
                        lemma_extends_trans(st, st6, st6c);
                        if let Some(st7) = patch(st6c, end) {
                            lemma_patch_in_range(st6c, end, n);
                            lemma_extends_trans(st, st6c, st7);
                        }
                    }
                }
            }
        }
    }
}

proof fn lemma_stmts_ok(st: CState, ss: Seq<Stmt>, n: nat)
    requires
        in_range(st, n),
    ensures
        spec_compile_stmts(st, ss) matches Some(st2) ==> stmt_ok(st, st2, n),
    decreases ss, 1int,
{
    lemma_extends_refl(st);
    if ss.len() > 0 {
        lemma_stmts_ok(st, ss.drop_last(), n);
        if let Some(st1) = spec_compile_stmts(st, ss.drop_last()) {
            lemma_stmt_ok(st1, ss.last(), n);
            if let Some(st2) = spec_compile_stmt(st1, ss.last()) {
                lemma_extends_trans(st, st1, st2);
            }
        }
    }
}

proof fn lemma_define_constant_in_range(st: CState, name: Seq<char>, c: BuiltinConstant, n: nat)
    requires
        in_range(st, n),
    ensures
        in_range(define_constant(st, name, c), n),
{
    lemma_add_const_in_range(st, SpecConst::Float(constant_bits(c)), n);
    let s1 = add_const(st, SpecConst::Float(constant_bits(c)));
    lemma_in_range_define(s1, name, CompileBinding::Constant(st.consts.len() as usize), n);
}

proof fn lemma_define_options_in_range(st: CState, options: Seq<Seq<char>>, n: nat)
    requires
        in_range(st, n),
    ensures
        in_range(define_options(st, options), n),
    decreases options.len(),
{
    if options.len() > 0 {
        lemma_define_options_in_range(st, options.drop_last(), n);
        let st1 = define_options(st, options.drop_last());
        lemma_add_const_in_range(st1, SpecConst::Enum(options.last()), n);
        let s2 = add_const(st1, SpecConst::Enum(options.last()));
        lemma_in_range_define(s2, options.last(), CompileBinding::Constant(st1.consts.len() as usize), n);
    }
}

proof fn lemma_define_params_in_range(st: CState, params: Seq<EffectParamSchema>, n: nat)
    requires
        in_range(st, n),
        params.len() <= n,
    ensures
        in_range(define_params(st, params), n),
    decreases params.len(),
{
    if params.len() > 0 {
        lemma_define_params_in_range(st, params.drop_last(), n);
        let st1 = define_params(st, params.drop_last());
        let p = params.last();
        let b = CompileBinding::Param { index: (params.len() - 1) as usize, value_type: p.value_type };
        lemma_in_range_define(st1, p.name@, b, n);
        lemma_define_options_in_range(define(st1, p.name@, b), options_view(p.options@), n);
    }
}

proof fn lemma_initial_in_range(params: Seq<EffectParamSchema>)
    ensures
        in_range(initial_state(params), params.len()),
{
    let n = params.len();
    let empty = CState {
        instrs: seq![],
        consts: seq![],
        binds: seq![],
        regs: RegisterCounts { floats: 0, ints: 0, bools: 0, colors: 0, refs: 0, fixtures: 0, pixels: 0 },
    };
    let c1 = CompileBinding::Context(BuiltinContext::Progress);
    let c2 = CompileBinding::Context(BuiltinContext::Seconds);
    let c3 = CompileBinding::Context(BuiltinContext::Fixture);
    let c4 = CompileBinding::Context(BuiltinContext::Pixel);
    let s1 = define(empty, "progress"@, c1);
    let s2 = define(s1, "seconds"@, c2);
    let s3 = define(s2, "fixture"@, c3);
    let s4 = define(s3, "pixel"@, c4);
    lemma_in_range_define(empty, "progress"@, c1, n);
    lemma_in_range_define(s1, "seconds"@, c2, n);
    lemma_in_range_define(s2, "fixture"@, c3, n);
    lemma_in_range_define(s3, "pixel"@, c4, n);
    lemma_define_constant_in_range(s4, "PI"@, BuiltinConstant::Pi, n);
    let s5 = define_constant(s4, "PI"@, BuiltinConstant::Pi);
    lemma_define_constant_in_range(s5, "TAU"@, BuiltinConstant::Tau, n);
    lemma_define_params_in_range(define_constant(s5, "TAU"@, BuiltinConstant::Tau), params, n);
}

/// Every register, constant and parameter that a compiled sample names
/// exists: its reference and boolean registers are below the counts it
/// allocated, its constants are among its constants, and its parameters are
/// among the effect's.
pub proof fn lemma_compiled_program_in_range(effect: EffectAst)
    ensures
        spec_compile_effect(effect) matches Some(st) ==> forall|i: int|
            0 <= i < st.instrs.len() ==> instruction_in_range(
                #[trigger] st.instrs[i],
                st.regs.refs as nat,
                st.regs.bools as nat,
                st.consts.len(),
                effect.params@.len(),
            ),
{
    if let EffectEntrypoint::Sample(ss) = effect.entrypoint {
        lemma_initial_in_range(effect.params@);
        lemma_stmts_ok(initial_state(effect.params@), ss@, effect.params@.len());
    }
}

/// The compiled sample `st` specialized for the parameter values `params`:
/// its code with the enum comparisons and branches that the values decide
/// folded, then compacted, and its constants.
pub open spec fn specialized(st: CState, params: Seq<SpecConst>) -> (Seq<Instruction>, Seq<SpecConst>) {
    let s = specialize_from(st.instrs, params, 0, initial_known(st.regs), st.consts);
    (spec_compact(s.0), s.1)
}

/// Compiles a sample and specializes it for `param_values`, a value for each
/// of its parameters; `None` where compilation gives none.
pub fn compile_specialized(effect: &EffectAst, param_values: &Vec<ConstantValue>) -> (r: Option<BytecodeProgram>)
    requires
        effect.params@.len() <= param_values@.len(),
    ensures
        match spec_compile_effect(*effect) {
            Some(st) => st.instrs.len() < usize::MAX ==> (r matches Some(p) && (p.instructions@, consts_view(
                p.constants@,
            )) == specialized(st, consts_view(param_values@)) && p.registers == st.regs),
            None => r is None,
        },
{
    let program = match compile_effect(effect) {
        Some(p) => p,
        None => {
            return None;
        },
    };
    if program.instructions.len() == usize::MAX {
        return None;
    }
    proof {
        lemma_compiled_jumps_in_bounds(*effect);
        lemma_compiled_program_in_range(*effect);
        lemma_specialize_keeps_jumps_in_bounds(program, consts_view(param_values@));
        let st = spec_compile_effect(*effect).unwrap();
        assert forall|i: int| 0 <= i < program.instructions@.len() implies instruction_in_range(
            #[trigger] program.instructions@[i],
            program.registers.refs as nat,
            program.registers.bools as nat,
            program.constants@.len(),
            param_values@.len(),
        ) by {
            assert(instruction_in_range(
                st.instrs[i],
                st.regs.refs as nat,
                st.regs.bools as nat,
                st.consts.len(),
                effect.params@.len(),
            ));
        }
    }
    Some(specialize_for_params(&program, param_values))
}

} // verus!
