//! Register bytecode of sample effects: instruction shapes, slot types,
//! statistics, and the specialization of a program for fixed parameter values.
use vstd::prelude::*;
use crate::effect_script::types::{is_float_compatible, spec_is_float_compatible, ScriptType};
use crate::effect_script::builtins::BuiltinContext;

verus! {

/// Sizes of a compiled program, as reported to tools.
#[derive(Debug, Clone, Copy, PartialEq, Eq, Default, Structural)]
pub struct BytecodeStats {
    pub instruction_count: usize,
    pub constant_count: usize,
    pub param_slots: usize,
    pub float_slots: usize,
    pub int_slots: usize,
    pub bool_slots: usize,
    pub color_slots: usize,
    pub ref_slots: usize,
    pub fixture_slots: usize,
    pub pixel_slots: usize,
    pub total_slots: usize,
}

impl BytecodeStats {
    pub fn instruction_count(&self) -> (n: usize)
        ensures
            n == self.instruction_count,
    {
        self.instruction_count
    }

    pub fn constant_count(&self) -> (n: usize)
        ensures
            n == self.constant_count,
    {
        self.constant_count
    }

    pub fn param_slots(&self) -> (n: usize)
        ensures
            n == self.param_slots,
    {
        self.param_slots
    }

    pub fn total_slots(&self) -> (n: usize)
        ensures
            n == self.total_slots,
    {
        self.total_slots
    }
}

#[derive(Debug, Clone, Copy, PartialEq, Eq, Structural)]
pub struct FloatSlot(pub usize);

#[derive(Debug, Clone, Copy, PartialEq, Eq, Structural)]
pub struct IntSlot(pub usize);

#[derive(Debug, Clone, Copy, PartialEq, Eq, Structural)]
pub struct BoolSlot(pub usize);

#[derive(Debug, Clone, Copy, PartialEq, Eq, Structural)]
pub struct ColorSlot(pub usize);

#[derive(Debug, Clone, Copy, PartialEq, Eq, Structural)]
pub struct RefSlot(pub usize);

#[derive(Debug, Clone, Copy, PartialEq, Eq, Structural)]
pub struct FixtureSlot(pub usize);

#[derive(Debug, Clone, Copy, PartialEq, Eq, Structural)]
pub struct PixelSlot(pub usize);

/// Where a context value comes from.
#[derive(Debug, Clone, Copy, PartialEq, Eq, Structural)]
pub enum ContextSlot {
    Progress,
    Seconds,
    Fixture,
    Pixel,
}

/// A register of any type; reference registers carry the type they refer to.
#[derive(Debug, Clone, Copy, PartialEq, Eq, Structural)]
pub enum ValueSlot {
    Float(FloatSlot),
    Int(IntSlot),
    Bool(BoolSlot),
    Color(ColorSlot),
    Ref(RefSlot, ScriptType),
    Fixture(FixtureSlot),
    Pixel(PixelSlot),
}

impl ValueSlot {
    pub fn value_type(self) -> (t: ScriptType)
        ensures
            t == (match self {
                ValueSlot::Float(_) => ScriptType::Float,
                ValueSlot::Int(_) => ScriptType::Int,
                ValueSlot::Bool(_) => ScriptType::Bool,
                ValueSlot::Color(_) => ScriptType::Color,
                ValueSlot::Ref(_, t) => t,
                ValueSlot::Fixture(_) => ScriptType::Fixture,
                ValueSlot::Pixel(_) => ScriptType::Pixel,
            }),
    {
        match self {
            ValueSlot::Float(_) => ScriptType::Float,
            ValueSlot::Int(_) => ScriptType::Int,
            ValueSlot::Bool(_) => ScriptType::Bool,
            ValueSlot::Color(_) => ScriptType::Color,
            ValueSlot::Ref(_, value_type) => value_type,
            ValueSlot::Fixture(_) => ScriptType::Fixture,
            ValueSlot::Pixel(_) => ScriptType::Pixel,
        }
    }

    pub fn float(self) -> (s: FloatSlot)
        requires
            self is Float,
        ensures
            self == ValueSlot::Float(s),
    {
        match self {
            ValueSlot::Float(slot) => slot,
            _ => FloatSlot(0),
        }
    }

    pub fn int_slot(self) -> (s: IntSlot)
        requires
            self is Int,
        ensures
            self == ValueSlot::Int(s),
    {
        match self {
            ValueSlot::Int(slot) => slot,
            _ => IntSlot(0),
        }
    }

    pub fn bool(self) -> (s: BoolSlot)
        requires
            self is Bool,
        ensures
            self == ValueSlot::Bool(s),
    {
        match self {
            ValueSlot::Bool(slot) => slot,
            _ => BoolSlot(0),
        }
    }

    pub fn color(self) -> (s: ColorSlot)
        requires
            self is Color,
        ensures
            self == ValueSlot::Color(s),
    {
        match self {
            ValueSlot::Color(slot) => slot,
            _ => ColorSlot(0),
        }
    }

    pub fn reference(self) -> (s: RefSlot)
        requires
            self is Ref,
        ensures
            self matches ValueSlot::Ref(r, _) && r == s,
    {
        match self {
            ValueSlot::Ref(slot, _) => slot,
            _ => RefSlot(0),
        }
    }

    pub fn pixel(self) -> (s: PixelSlot)
        requires
            self is Pixel,
        ensures
            self == ValueSlot::Pixel(s),
    {
        match self {
            ValueSlot::Pixel(slot) => slot,
            _ => PixelSlot(0),
        }
    }
}

/// How many registers of each type a program uses.
#[derive(Debug, Clone, Copy, PartialEq, Eq, Default, Structural)]
pub struct RegisterCounts {
    pub floats: usize,
    pub ints: usize,
    pub bools: usize,
    pub colors: usize,
    pub refs: usize,
    pub fixtures: usize,
    pub pixels: usize,
}

impl RegisterCounts {
    pub open spec fn spec_total(self) -> int {
        self.floats + self.ints + self.bools + self.colors + self.refs + self.fixtures + self.pixels
    }

    pub fn total(self) -> (n: usize)
        requires
            self.spec_total() <= usize::MAX,
        ensures
            n == self.spec_total(),
    {
        self.floats + self.ints + self.bools + self.colors + self.refs + self.fixtures + self.pixels
    }
}

/// The statistics of a program with `instruction_count` instructions,
/// `constant_count` constants, the given registers and `param_slots` parameters.
pub fn stats_for_counts(
    instruction_count: usize,
    constant_count: usize,
    registers: RegisterCounts,
    param_slots: usize,
) -> (s: BytecodeStats)
    requires
        registers.spec_total() <= usize::MAX,
    ensures
        s == (BytecodeStats {
            instruction_count,
            constant_count,
            param_slots,
            float_slots: registers.floats,
            int_slots: registers.ints,
            bool_slots: registers.bools,
            color_slots: registers.colors,
            ref_slots: registers.refs,
            fixture_slots: registers.fixtures,
            pixel_slots: registers.pixels,
            total_slots: registers.spec_total() as usize,
        }),
{
    BytecodeStats {
        instruction_count,
        constant_count,
        param_slots,
        float_slots: registers.floats,
        int_slots: registers.ints,
        bool_slots: registers.bools,
        color_slots: registers.colors,
        ref_slots: registers.refs,
        fixture_slots: registers.fixtures,
        pixel_slots: registers.pixels,
        total_slots: registers.total(),
    }
}

/// A comparison of numbers that must be made in floating point: both sides are
/// numbers and at least one is a float.
pub fn is_float_compare(left: ScriptType, right: ScriptType) -> (b: bool)
    ensures
        b == (spec_is_float_compatible(left) && spec_is_float_compatible(right) && (left
            == ScriptType::Float || right == ScriptType::Float)),
{
    is_float_compatible(left) && is_float_compatible(right) && (left == ScriptType::Float || right
        == ScriptType::Float)
}

/// The context register that holds a builtin context value.
pub fn context_slot(context: BuiltinContext) -> (s: ContextSlot)
    ensures
        s == (match context {
            BuiltinContext::Progress => ContextSlot::Progress,
            BuiltinContext::Seconds => ContextSlot::Seconds,
            BuiltinContext::Fixture => ContextSlot::Fixture,
            BuiltinContext::Pixel => ContextSlot::Pixel,
        }),
{
    match context {
        BuiltinContext::Progress => ContextSlot::Progress,
        BuiltinContext::Seconds => ContextSlot::Seconds,
        BuiltinContext::Fixture => ContextSlot::Fixture,
        BuiltinContext::Pixel => ContextSlot::Pixel,
    }
}

#[derive(Debug, Clone, Copy, PartialEq, Eq, Structural)]
pub enum UnaryFloatInstruction {
    Negate,
}

#[derive(Debug, Clone, Copy, PartialEq, Eq, Structural)]
pub enum BinaryInstruction {
    FloatAdd,
    FloatSubtract,
    FloatMultiply,
    FloatDivide,
    IntAdd,
    IntSubtract,
    IntMultiply,
    IntDivide,
    FloatLess,
    FloatLessEqual,
    FloatGreater,
    FloatGreaterEqual,
    IntLess,
    IntLessEqual,
    IntGreater,
    IntGreaterEqual,
    FloatEqual,
    FloatNotEqual,
    IntEqual,
    IntNotEqual,
    BoolEqual,
    BoolNotEqual,
    EnumEqual,
    EnumNotEqual,
    ColorMultiplyFloat,
    FloatMultiplyColor,
}

#[derive(Debug, Clone, Copy, PartialEq, Eq, Structural)]
pub enum MarkSearchInstruction {
    Prev,
    Next,
    Nearest,
    Phase,
    Elapsed,
}

/// One bytecode instruction.
#[derive(Debug, Clone, Copy, PartialEq, Eq, Structural)]
pub enum Instruction {
    LoadConst(ValueSlot, usize),
    LoadContext(ValueSlot, ContextSlot),
    LoadParam(ValueSlot, usize),
    Copy(ValueSlot, ValueSlot),
    IntToFloat(FloatSlot, IntSlot),
    FloatUnary(FloatSlot, UnaryFloatInstruction, FloatSlot),
    IntNegate(IntSlot, IntSlot),
    BoolNot(BoolSlot, BoolSlot),
    Binary(ValueSlot, BinaryInstruction, ValueSlot, ValueSlot),
    JumpIfFalse(BoolSlot, usize),
    JumpIfTrue(BoolSlot, usize),
    Jump(usize),
    LoopTick,
    Sin(FloatSlot, FloatSlot),
    Cos(FloatSlot, FloatSlot),
    Abs(FloatSlot, FloatSlot),
    Floor(FloatSlot, FloatSlot),
    Srand(FloatSlot, FloatSlot),
    Rand(FloatSlot),
    PixelIndex(IntSlot, PixelSlot),
    PixelCount(IntSlot, PixelSlot),
    PixelPosition(FloatSlot, PixelSlot),
    SectionPosition(FloatSlot, PixelSlot, FloatSlot),
    MarkCount(IntSlot, RefSlot),
    MarkAt(FloatSlot, RefSlot, IntSlot, FloatSlot),
    MarkSearch(FloatSlot, MarkSearchInstruction, RefSlot, FloatSlot, FloatSlot),
    CurveCrossing(FloatSlot, RefSlot, FloatSlot, FloatSlot),
    CurveParamCrossing(FloatSlot, usize, FloatSlot, FloatSlot),
    Min(FloatSlot, FloatSlot, FloatSlot),
    Max(FloatSlot, FloatSlot, FloatSlot),
    Clamp(FloatSlot, FloatSlot, FloatSlot, FloatSlot),
    Smoothstep(FloatSlot, FloatSlot, FloatSlot, FloatSlot),
    MixFloat(FloatSlot, FloatSlot, FloatSlot, FloatSlot),
    MixColor(ColorSlot, ColorSlot, ColorSlot, FloatSlot),
    Rgb(ColorSlot, FloatSlot, FloatSlot, FloatSlot),
    Hsv(ColorSlot, FloatSlot, FloatSlot, FloatSlot),
    CallFloatCurveParam(FloatSlot, usize, FloatSlot),
    CallColorCurveParam(ColorSlot, usize, FloatSlot),
    CurveFloatClamped(FloatSlot, usize, FloatSlot, FloatSlot, FloatSlot),
    CurveColorScaled(ColorSlot, usize, FloatSlot, FloatSlot),
    ReturnColor(ColorSlot),
}

} // verus!
