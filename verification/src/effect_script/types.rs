//! Script value types and the typing rules of operators.
use vstd::prelude::*;
use crate::model::kinds::{ArrayElementType, CurveValueType};
use crate::text::{concat3, string_from_chars};

verus! {

/// Whether an effect samples one color per pixel or generates a sequence of work.
#[derive(Debug, Clone, Copy, PartialEq, Eq, Structural)]
pub enum EffectScriptKind {
    Sample,
    Generator,
}

/// The types of script values.
#[derive(Debug, Clone, Copy, PartialEq, Eq, Structural)]
pub enum ScriptType {
    Float,
    Int,
    Bool,
    Color,
    Marks,
    CurveFloat,
    CurveColor,
    Array(ArrayElementType),
    Enum,
    Flags,
    Fixture,
    Pixel,
    Timeline,
    Target,
    TargetItems,
    TargetItem,
    Void,
}

/// Binary operators of the script language.
#[derive(Debug, Clone, Copy, PartialEq, Eq, Structural)]
pub enum BinaryOp {
    Add,
    Subtract,
    Multiply,
    Divide,
    Modulo,
    Less,
    LessEqual,
    Greater,
    GreaterEqual,
    Equal,
    NotEqual,
    LogicalAnd,
    LogicalOr,
}

/// Unary operators of the script language.
#[derive(Debug, Clone, Copy, PartialEq, Eq, Structural)]
pub enum UnaryOp {
    Negate,
    Not,
}

/// Numbers: a float or an int (which promotes to float).
pub open spec fn spec_is_float_compatible(t: ScriptType) -> bool {
    t == ScriptType::Float || t == ScriptType::Int
}

pub fn is_float_compatible(value_type: ScriptType) -> (b: bool)
    ensures
        b == spec_is_float_compatible(value_type),
{
    match value_type {
        ScriptType::Float | ScriptType::Int => true,
        _ => false,
    }
}

/// A value of type `actual` may be stored where `expected` is declared: the
/// same type, or an int where a float is declared.
pub open spec fn spec_is_assignable(expected: ScriptType, actual: ScriptType) -> bool {
    expected == actual || (expected == ScriptType::Float && actual == ScriptType::Int)
}

pub fn is_assignable(expected: ScriptType, actual: ScriptType) -> (b: bool)
    ensures
        b == spec_is_assignable(expected, actual),
{
    expected == actual || (expected == ScriptType::Float && actual == ScriptType::Int)
}

pub open spec fn is_arithmetic(op: BinaryOp) -> bool {
    op == BinaryOp::Add || op == BinaryOp::Subtract || op == BinaryOp::Multiply || op
        == BinaryOp::Divide
}

pub open spec fn is_ordering(op: BinaryOp) -> bool {
    op == BinaryOp::Less || op == BinaryOp::LessEqual || op == BinaryOp::Greater || op
        == BinaryOp::GreaterEqual
}

/// The type of `left op right`, when the operator applies to those types:
/// logic on bools; equality on numbers, bools or enums; ordering on numbers;
/// arithmetic on numbers (int only when both are ints); a color scaled by a
/// number; and `%` on ints.
pub open spec fn spec_binary_result_type(left: ScriptType, op: BinaryOp, right: ScriptType) -> Option<ScriptType> {
    if op == BinaryOp::LogicalAnd || op == BinaryOp::LogicalOr {
        if left == ScriptType::Bool && right == ScriptType::Bool {
            Some(ScriptType::Bool)
        } else {
            None
        }
    } else if op == BinaryOp::Equal || op == BinaryOp::NotEqual {
        if (spec_is_float_compatible(left) && spec_is_float_compatible(right)) || (left
            == ScriptType::Bool && right == ScriptType::Bool) || (left == ScriptType::Enum && right
            == ScriptType::Enum) {
            Some(ScriptType::Bool)
        } else {
            None
        }
    } else if is_ordering(op) {
        if spec_is_float_compatible(left) && spec_is_float_compatible(right) {
            Some(ScriptType::Bool)
        } else {
            None
        }
    } else if is_arithmetic(op) && left == ScriptType::Int && right == ScriptType::Int {
        Some(ScriptType::Int)
    } else if is_arithmetic(op) && spec_is_float_compatible(left) && spec_is_float_compatible(
        right,
    ) {
        Some(ScriptType::Float)
    } else if op == BinaryOp::Multiply && ((left == ScriptType::Color && spec_is_float_compatible(
        right,
    )) || (right == ScriptType::Color && spec_is_float_compatible(left))) {
        Some(ScriptType::Color)
    } else if op == BinaryOp::Modulo && left == ScriptType::Int && right == ScriptType::Int {
        Some(ScriptType::Int)
    } else {
        None
    }
}

pub fn binary_result_type(left: ScriptType, op: BinaryOp, right: ScriptType) -> (r: Option<
    ScriptType,
>)
    ensures
        r == spec_binary_result_type(left, op, right),
{
    match op {
        BinaryOp::LogicalAnd | BinaryOp::LogicalOr => {
            return if left == ScriptType::Bool && right == ScriptType::Bool {
                Some(ScriptType::Bool)
            } else {
                None
            };
        },
        BinaryOp::Equal | BinaryOp::NotEqual => {
            return if (is_float_compatible(left) && is_float_compatible(right)) || (left
                == ScriptType::Bool && right == ScriptType::Bool) || (left == ScriptType::Enum
                && right == ScriptType::Enum) {
                Some(ScriptType::Bool)
            } else {
                None
            };
        },
        BinaryOp::Less | BinaryOp::LessEqual | BinaryOp::Greater | BinaryOp::GreaterEqual => {
            return if is_float_compatible(left) && is_float_compatible(right) {
                Some(ScriptType::Bool)
            } else {
                None
            };
        },
        _ => {},
    }
    match (left, op, right) {
        (
            ScriptType::Float,
            BinaryOp::Add | BinaryOp::Subtract | BinaryOp::Multiply | BinaryOp::Divide,
            ScriptType::Float,
        )
        | (
            ScriptType::Float,
            BinaryOp::Add | BinaryOp::Subtract | BinaryOp::Multiply | BinaryOp::Divide,
            ScriptType::Int,
        )
        | (
            ScriptType::Int,
            BinaryOp::Add | BinaryOp::Subtract | BinaryOp::Multiply | BinaryOp::Divide,
            ScriptType::Float,
        ) => Some(ScriptType::Float),
        (
            ScriptType::Int,
            BinaryOp::Add | BinaryOp::Subtract | BinaryOp::Multiply | BinaryOp::Divide,
            ScriptType::Int,
        ) => Some(ScriptType::Int),
        (ScriptType::Color, BinaryOp::Multiply, factor) if is_float_compatible(factor) => Some(
            ScriptType::Color,
        ),
        (factor, BinaryOp::Multiply, ScriptType::Color) if is_float_compatible(factor) => Some(
            ScriptType::Color,
        ),
        (ScriptType::Int, BinaryOp::Modulo, ScriptType::Int) => Some(ScriptType::Int),
        _ => None,
    }
}

/// The name of an array element type as scripts write it.
pub open spec fn spec_array_element_type_label(t: ArrayElementType) -> Seq<char> {
    match t {
        ArrayElementType::Int => "int"@,
        ArrayElementType::Float => "float"@,
        ArrayElementType::Bool => "bool"@,
        ArrayElementType::Color => "color"@,
        ArrayElementType::CurveFloat => "curve<float>"@,
        ArrayElementType::CurveColor => "curve<color>"@,
    }
}

pub fn array_element_type_label(element_type: ArrayElementType) -> (s: &'static str)
    ensures
        s@ == spec_array_element_type_label(element_type),
{
    match element_type {
        ArrayElementType::Int => "int",
        ArrayElementType::Float => "float",
        ArrayElementType::Bool => "bool",
        ArrayElementType::Color => "color",
        ArrayElementType::CurveFloat => "curve<float>",
        ArrayElementType::CurveColor => "curve<color>",
    }
}

/// The name of a type as scripts and messages write it.
pub open spec fn spec_script_type_label(t: ScriptType) -> Seq<char> {
    match t {
        ScriptType::Float => "float"@,
        ScriptType::Int => "int"@,
        ScriptType::Bool => "bool"@,
        ScriptType::Color => "color"@,
        ScriptType::Marks => "marks"@,
        ScriptType::CurveFloat => "curve<float>"@,
        ScriptType::CurveColor => "curve<color>"@,
        ScriptType::Array(e) => "array<"@ + spec_array_element_type_label(e) + ">"@,
        ScriptType::Enum => "enum"@,
        ScriptType::Flags => "flags"@,
        ScriptType::Fixture => "Fixture"@,
        ScriptType::Pixel => "Pixel"@,
        ScriptType::Timeline => "Timeline"@,
        ScriptType::Target => "Target"@,
        ScriptType::TargetItems => "TargetItems"@,
        ScriptType::TargetItem => "TargetItem"@,
        ScriptType::Void => "void"@,
    }
}

impl ScriptType {
    /// The name of this type (what `Display` prints).
    pub fn label(self) -> (s: String)
        ensures
            s@ == spec_script_type_label(self),
    {
        match self {
            ScriptType::Float => String::from_str("float"),
            ScriptType::Int => String::from_str("int"),
            ScriptType::Bool => String::from_str("bool"),
            ScriptType::Color => String::from_str("color"),
            ScriptType::Marks => String::from_str("marks"),
            ScriptType::CurveFloat => String::from_str("curve<float>"),
            ScriptType::CurveColor => String::from_str("curve<color>"),
            ScriptType::Array(e) => concat3("array<", array_element_type_label(e), ">"),
            ScriptType::Enum => String::from_str("enum"),
            ScriptType::Flags => String::from_str("flags"),
            ScriptType::Fixture => String::from_str("Fixture"),
            ScriptType::Pixel => String::from_str("Pixel"),
            ScriptType::Timeline => String::from_str("Timeline"),
            ScriptType::Target => String::from_str("Target"),
            ScriptType::TargetItems => String::from_str("TargetItems"),
            ScriptType::TargetItem => String::from_str("TargetItem"),
            ScriptType::Void => String::from_str("void"),
        }
    }
}

/// The fixture that a sample call is for.
#[derive(Debug, Clone, Copy, PartialEq, Eq, Structural)]
pub struct FixtureContext {
    pub index: usize,
}

/// The pixel that a sample call is for, and how many pixels its fixture has.
#[derive(Debug, Clone, Copy, PartialEq, Eq, Structural)]
pub struct PixelContext {
    pub index: usize,
    pub count: usize,
}

/// One pixel of a generator's target.
#[derive(Debug, Clone, Copy, PartialEq, Eq, Structural)]
pub struct GeneratorTargetPixel {
    pub fixture_index: usize,
    pub pixel_index: usize,
    pub pixel_count: usize,
}

/// The pixels a generator effect writes.
#[derive(Debug, Clone, PartialEq, Eq)]
pub struct GeneratorTarget {
    pub pixels: Vec<GeneratorTargetPixel>,
}

/// One item of a generator's target split into fixtures, pixels or sections.
#[derive(Debug, Clone, PartialEq, Eq)]
pub struct GeneratorTargetItem {
    pub target: GeneratorTarget,
    pub index: usize,
    pub count: usize,
    pub position: usize,
    pub fixture_index: usize,
    pub pixel_start: usize,
    pub pixel_count: usize,
}

/// What the schema checks read of one element of a resolved array parameter:
/// its kind, and for a curve the value type of an inline curve (`None` for a
/// reference to a curve definition).
#[derive(Debug, Clone, Copy, PartialEq, Eq, Structural)]
pub enum ArrayElementShape {
    Integer,
    Float,
    Boolean,
    Color,
    Curve { value_type: Option<CurveValueType> },
}

/// What the schema checks read of a resolved effect parameter: its kind, the
/// option, flags or mark collection key that it names, the elements of an
/// array, and for a curve the value type of an inline curve (`None` for a
/// reference to a curve definition).
#[derive(Debug, Clone)]
pub enum EffectParamShape {
    Integer,
    Float,
    Boolean,
    Color,
    Enum { value: String },
    Flags { values: Vec<String> },
    Curve { value_type: Option<CurveValueType> },
    Array { element_type: ArrayElementType, values: Vec<ArrayElementShape> },
    Marks { key: String },
}

/// Whether an array element fits arrays of `expected` (an integer fits float
/// arrays too).
pub open spec fn spec_array_value_matches(expected: ArrayElementType, value: ArrayElementShape) -> bool {
    match expected {
        ArrayElementType::Int => value == ArrayElementShape::Integer,
        ArrayElementType::Float => value == ArrayElementShape::Float || value == ArrayElementShape::Integer,
        ArrayElementType::Bool => value == ArrayElementShape::Boolean,
        ArrayElementType::Color => value == ArrayElementShape::Color,
        ArrayElementType::CurveFloat => value == ArrayElementShape::Curve { value_type: Some(CurveValueType::Float) },
        ArrayElementType::CurveColor => value == ArrayElementShape::Curve { value_type: Some(CurveValueType::Color) },
    }
}

/// Whether a parameter value fits a parameter of type `t`.
pub open spec fn spec_matches_param(t: ScriptType, param: EffectParamShape) -> bool {
    match (t, param) {
        (ScriptType::Float, EffectParamShape::Float) => true,
        (ScriptType::Int, EffectParamShape::Integer) => true,
        (ScriptType::Bool, EffectParamShape::Boolean) => true,
        (ScriptType::Color, EffectParamShape::Color) => true,
        (ScriptType::Marks, EffectParamShape::Marks { .. }) => true,
        (ScriptType::Enum, EffectParamShape::Enum { .. }) => true,
        (ScriptType::Flags, EffectParamShape::Flags { .. }) => true,
        (ScriptType::CurveFloat, EffectParamShape::Curve { value_type }) => value_type == Some(CurveValueType::Float),
        (ScriptType::CurveColor, EffectParamShape::Curve { value_type }) => value_type == Some(CurveValueType::Color),
        (ScriptType::Array(expected), EffectParamShape::Array { element_type, values }) => expected == element_type
            && forall|i: int| 0 <= i < values@.len() ==> spec_array_value_matches(expected, #[trigger] values@[i]),
        _ => false,
    }
}

fn array_value_matches(expected: ArrayElementType, value: ArrayElementShape) -> (b: bool)
    ensures
        b == spec_array_value_matches(expected, value),
{
    match expected {
        ArrayElementType::Int => value == ArrayElementShape::Integer,
        ArrayElementType::Float => value == ArrayElementShape::Float || value == ArrayElementShape::Integer,
        ArrayElementType::Bool => value == ArrayElementShape::Boolean,
        ArrayElementType::Color => value == ArrayElementShape::Color,
        ArrayElementType::CurveFloat => value == ArrayElementShape::Curve { value_type: Some(CurveValueType::Float) },
        ArrayElementType::CurveColor => value == ArrayElementShape::Curve { value_type: Some(CurveValueType::Color) },
    }
}

impl ScriptType {
    /// Whether `param` is a value of this type.
    pub fn matches_param(self, param: &EffectParamShape) -> (b: bool)
        ensures
            b == spec_matches_param(self, *param),
    {
        match (self, param) {
            (ScriptType::Float, EffectParamShape::Float) => true,
            (ScriptType::Int, EffectParamShape::Integer) => true,
            (ScriptType::Bool, EffectParamShape::Boolean) => true,
            (ScriptType::Color, EffectParamShape::Color) => true,
            (ScriptType::Marks, EffectParamShape::Marks { .. }) => true,
            (ScriptType::Enum, EffectParamShape::Enum { .. }) => true,
            (ScriptType::Flags, EffectParamShape::Flags { .. }) => true,
            (ScriptType::CurveFloat, EffectParamShape::Curve { value_type }) => *value_type == Some(
                CurveValueType::Float,
            ),
            (ScriptType::CurveColor, EffectParamShape::Curve { value_type }) => *value_type == Some(
                CurveValueType::Color,
            ),
            (ScriptType::Array(expected), EffectParamShape::Array { element_type, values }) => {
                if !(expected == *element_type) {
                    return false;
                }
                let mut i: usize = 0;
                while i < values.len()
                    invariant
                        i <= values@.len(),
                        spec_matches_param(self, *param) == (forall|j: int|
                            0 <= j < values@.len() ==> spec_array_value_matches(expected, #[trigger] values@[j])),
                        forall|j: int| 0 <= j < i ==> spec_array_value_matches(expected, #[trigger] values@[j]),
                    decreases values@.len() - i,
                {
                    if !array_value_matches(expected, values[i]) {
                        return false;
                    }
                    i += 1;
                }
                true
            },
            _ => false,
        }
    }
}

/// The type whose values look like `shape`, for a shape that is not an
/// array: an integer is an `int`, a float a `float`, a boolean a `bool`, a
/// color a `color`, an option an `enum`, a set of options `flags`, a mark
/// collection `marks`, and an inline curve a curve of its values (a curve
/// given by reference has no type until it is resolved).
pub open spec fn shape_type(shape: EffectParamShape) -> Option<ScriptType> {
    match shape {
        EffectParamShape::Integer => Some(ScriptType::Int),
        EffectParamShape::Float => Some(ScriptType::Float),
        EffectParamShape::Boolean => Some(ScriptType::Bool),
        EffectParamShape::Color => Some(ScriptType::Color),
        EffectParamShape::Enum { .. } => Some(ScriptType::Enum),
        EffectParamShape::Flags { .. } => Some(ScriptType::Flags),
        EffectParamShape::Marks { .. } => Some(ScriptType::Marks),
        EffectParamShape::Curve { value_type: Some(CurveValueType::Float) } => Some(ScriptType::CurveFloat),
        EffectParamShape::Curve { value_type: Some(CurveValueType::Color) } => Some(ScriptType::CurveColor),
        EffectParamShape::Curve { value_type: None } => None,
        EffectParamShape::Array { .. } => None,
    }
}

/// A value that is not an array fits exactly the type it is a value of:
/// a boolean fits `bool` and nothing else, an integer `int` (not `float`),
/// and so on; a curve given by reference fits no type.
pub proof fn lemma_value_fits_its_own_type(t: ScriptType, shape: EffectParamShape)
    requires
        !(shape is Array),
    ensures
        spec_matches_param(t, shape) <==> shape_type(shape) == Some(t),
{
}

/// An array fits only arrays of its own element type; an empty one always
/// does, and integers fit arrays of floats.
pub proof fn lemma_array_fits(t: ScriptType, element_type: ArrayElementType, values: Vec<ArrayElementShape>)
    ensures
        spec_matches_param(t, EffectParamShape::Array { element_type, values }) ==> t == ScriptType::Array(
            element_type,
        ),
        values@.len() == 0 ==> spec_matches_param(
            ScriptType::Array(element_type),
            EffectParamShape::Array { element_type, values },
        ),
        (forall|i: int| 0 <= i < values@.len() ==> (#[trigger] values@[i]) == ArrayElementShape::Integer)
            && element_type == ArrayElementType::Float ==> spec_matches_param(
            ScriptType::Array(element_type),
            EffectParamShape::Array { element_type, values },
        ),
{
}

/// Every type can be stored where it is declared, an int can be stored
/// where a float is, and nothing else crosses types.
pub proof fn lemma_assignable(expected: ScriptType, actual: ScriptType)
    ensures
        spec_is_assignable(actual, actual),
        spec_is_assignable(ScriptType::Float, ScriptType::Int),
        expected != actual && !(expected == ScriptType::Float && actual == ScriptType::Int) ==> !spec_is_assignable(
            expected,
            actual,
        ),
{
}

/// The operators on numbers: arithmetic on two ints is an int and on two
/// numbers one of which is a float is a float; comparisons of numbers are
/// bools; the result type of a symmetric operator does not depend on the
/// order of its operands; logic applies to bools only.
pub proof fn lemma_binary_operators(left: ScriptType, op: BinaryOp, right: ScriptType)
    ensures
        (op == BinaryOp::Add || op == BinaryOp::Subtract || op == BinaryOp::Multiply || op == BinaryOp::Divide)
            ==> spec_binary_result_type(ScriptType::Int, op, ScriptType::Int) == Some(ScriptType::Int)
            && spec_binary_result_type(ScriptType::Float, op, ScriptType::Int) == Some(ScriptType::Float)
            && spec_binary_result_type(ScriptType::Int, op, ScriptType::Float) == Some(ScriptType::Float)
            && spec_binary_result_type(ScriptType::Float, op, ScriptType::Float) == Some(ScriptType::Float),
        (op == BinaryOp::Less || op == BinaryOp::LessEqual || op == BinaryOp::Greater || op == BinaryOp::GreaterEqual
            || op == BinaryOp::Equal || op == BinaryOp::NotEqual) && (left == ScriptType::Int || left
            == ScriptType::Float) && (right == ScriptType::Int || right == ScriptType::Float)
            ==> spec_binary_result_type(left, op, right) == Some(ScriptType::Bool),
        (op == BinaryOp::Add || op == BinaryOp::Multiply || op == BinaryOp::Equal || op == BinaryOp::NotEqual || op
            == BinaryOp::LogicalAnd || op == BinaryOp::LogicalOr) ==> spec_binary_result_type(left, op, right)
            == spec_binary_result_type(right, op, left),
        (op == BinaryOp::LogicalAnd || op == BinaryOp::LogicalOr) ==> (spec_binary_result_type(left, op, right)
            is Some <==> left == ScriptType::Bool && right == ScriptType::Bool),
        spec_binary_result_type(ScriptType::Color, BinaryOp::Multiply, ScriptType::Float) == Some(ScriptType::Color),
        spec_binary_result_type(ScriptType::Int, BinaryOp::Modulo, ScriptType::Int) == Some(ScriptType::Int),
{
}

} // verus!
