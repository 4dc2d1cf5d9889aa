//! The names that every script can use: context values, constants and functions.
use vstd::prelude::*;
use crate::text::str_eq;
use crate::effect_script::types::{
    is_float_compatible, spec_is_float_compatible, EffectScriptKind, ScriptType,
};

verus! {

/// The arguments that a sample entrypoint receives.
#[derive(Debug, Clone, Copy, PartialEq, Eq, Structural)]
pub enum BuiltinContext {
    Progress,
    Seconds,
    Fixture,
    Pixel,
}

impl BuiltinContext {
    pub fn name(self) -> (s: &'static str)
        ensures
            s@ == (match self {
                BuiltinContext::Progress => "progress"@,
                BuiltinContext::Seconds => "seconds"@,
                BuiltinContext::Fixture => "fixture"@,
                BuiltinContext::Pixel => "pixel"@,
            }),
    {
        match self {
            BuiltinContext::Progress => "progress",
            BuiltinContext::Seconds => "seconds",
            BuiltinContext::Fixture => "fixture",
            BuiltinContext::Pixel => "pixel",
        }
    }

    pub fn value_type(self) -> (t: ScriptType)
        ensures
            t == (match self {
                BuiltinContext::Progress | BuiltinContext::Seconds => ScriptType::Float,
                BuiltinContext::Fixture => ScriptType::Fixture,
                BuiltinContext::Pixel => ScriptType::Pixel,
            }),
    {
        match self {
            BuiltinContext::Progress | BuiltinContext::Seconds => ScriptType::Float,
            BuiltinContext::Fixture => ScriptType::Fixture,
            BuiltinContext::Pixel => ScriptType::Pixel,
        }
    }
}

/// Named float constants.
#[derive(Debug, Clone, Copy, PartialEq, Eq, Structural)]
pub enum BuiltinConstant {
    Pi,
    Tau,
}

impl BuiltinConstant {
    pub fn name(self) -> (s: &'static str)
        ensures
            s@ == (match self {
                BuiltinConstant::Pi => "PI"@,
                BuiltinConstant::Tau => "TAU"@,
            }),
    {
        match self {
            BuiltinConstant::Pi => "PI",
            BuiltinConstant::Tau => "TAU",
        }
    }
}

/// The builtin functions.
#[derive(Debug, Clone, Copy, PartialEq, Eq, Structural)]
pub enum BuiltinFunction {
    Sin,
    Cos,
    Abs,
    Floor,
    Srand,
    Rand,
    PixelIndex,
    PixelCount,
    Fixtures,
    Pixels,
    Sections,
    Count,
    Pick,
    CurveCrossing,
    MarkCount,
    MarkAt,
    MarkPrev,
    MarkNext,
    MarkNearest,
    MarkPhase,
    MarkElapsed,
    Min,
    Max,
    Clamp,
    Smoothstep,
    Mix,
    Rgb,
    Hsv,
}

/// The name under which scripts call each builtin function.
pub open spec fn spec_builtin_name(f: BuiltinFunction) -> Seq<char> {
    match f {
        BuiltinFunction::Sin => "sin"@,
        BuiltinFunction::Cos => "cos"@,
        BuiltinFunction::Abs => "abs"@,
        BuiltinFunction::Floor => "floor"@,
        BuiltinFunction::Srand => "srand"@,
        BuiltinFunction::Rand => "rand"@,
        BuiltinFunction::PixelIndex => "pixel_index"@,
        BuiltinFunction::PixelCount => "pixel_count"@,
        BuiltinFunction::Fixtures => "fixtures"@,
        BuiltinFunction::Pixels => "pixels"@,
        BuiltinFunction::Sections => "sections"@,
        BuiltinFunction::Count => "count"@,
        BuiltinFunction::Pick => "pick"@,
        BuiltinFunction::CurveCrossing => "curve_crossing"@,
        BuiltinFunction::MarkCount => "mark_count"@,
        BuiltinFunction::MarkAt => "mark_at"@,
        BuiltinFunction::MarkPrev => "mark_prev"@,
        BuiltinFunction::MarkNext => "mark_next"@,
        BuiltinFunction::MarkNearest => "mark_nearest"@,
        BuiltinFunction::MarkPhase => "mark_phase"@,
        BuiltinFunction::MarkElapsed => "mark_elapsed"@,
        BuiltinFunction::Min => "min"@,
        BuiltinFunction::Max => "max"@,
        BuiltinFunction::Clamp => "clamp"@,
        BuiltinFunction::Smoothstep => "smoothstep"@,
        BuiltinFunction::Mix => "mix"@,
        BuiltinFunction::Rgb => "rgb"@,
        BuiltinFunction::Hsv => "hsv"@,
    }
}

/// All builtin functions, in declaration order.
pub open spec fn all_builtins() -> Seq<BuiltinFunction> {
    seq![
        BuiltinFunction::Sin,
        BuiltinFunction::Cos,
        BuiltinFunction::Abs,
        BuiltinFunction::Floor,
        BuiltinFunction::Srand,
        BuiltinFunction::Rand,
        BuiltinFunction::PixelIndex,
        BuiltinFunction::PixelCount,
        BuiltinFunction::Fixtures,
        BuiltinFunction::Pixels,
        BuiltinFunction::Sections,
        BuiltinFunction::Count,
        BuiltinFunction::Pick,
        BuiltinFunction::CurveCrossing,
        BuiltinFunction::MarkCount,
        BuiltinFunction::MarkAt,
        BuiltinFunction::MarkPrev,
        BuiltinFunction::MarkNext,
        BuiltinFunction::MarkNearest,
        BuiltinFunction::MarkPhase,
        BuiltinFunction::MarkElapsed,
        BuiltinFunction::Min,
        BuiltinFunction::Max,
        BuiltinFunction::Clamp,
        BuiltinFunction::Smoothstep,
        BuiltinFunction::Mix,
        BuiltinFunction::Rgb,
        BuiltinFunction::Hsv,
    ]
}

/// The types a builtin accepts and the type it returns, in a sample or a
/// generator effect.
pub open spec fn spec_return_type_for_kind(f: BuiltinFunction, args: Seq<ScriptType>, kind: EffectScriptKind) -> Option<ScriptType> {
    let n = args.len();
    let gen = kind == EffectScriptKind::Generator;
    let num = |i: int| spec_is_float_compatible(args[i]);
    if f == BuiltinFunction::Floor && n == 1 && gen && num(0) {
        Some(ScriptType::Int)
    } else if (f == BuiltinFunction::Sin || f == BuiltinFunction::Cos || f == BuiltinFunction::Abs
        || f == BuiltinFunction::Floor || f == BuiltinFunction::Srand) && n == 1 && num(0) {
        Some(ScriptType::Float)
    } else if f == BuiltinFunction::Rand && n == 0 {
        Some(ScriptType::Float)
    } else if f == BuiltinFunction::Rand && n == 2 && args[1] == ScriptType::Int && gen && num(0) {
        Some(ScriptType::Float)
    } else if (f == BuiltinFunction::PixelIndex || f == BuiltinFunction::PixelCount) && n == 1
        && args[0] == ScriptType::Pixel {
        Some(ScriptType::Int)
    } else if (f == BuiltinFunction::Fixtures || f == BuiltinFunction::Pixels) && n == 1 && args[0]
        == ScriptType::Target && gen {
        Some(ScriptType::TargetItems)
    } else if f == BuiltinFunction::Sections && n == 2 && args[0] == ScriptType::Target && args[1]
        == ScriptType::Int && gen {
        Some(ScriptType::TargetItems)
    } else if f == BuiltinFunction::Count && n == 1 && args[0] == ScriptType::TargetItems && gen {
        Some(ScriptType::Int)
    } else if f == BuiltinFunction::Pick && n == 2 && args[0] == ScriptType::TargetItems && args[1]
        == ScriptType::Int && gen {
        Some(ScriptType::TargetItem)
    } else if f == BuiltinFunction::CurveCrossing && n == 3 && args[0] == ScriptType::CurveFloat
        && num(1) && num(2) {
        Some(ScriptType::Float)
    } else if f == BuiltinFunction::MarkCount && n == 1 && args[0] == ScriptType::Marks {
        Some(ScriptType::Int)
    } else if f == BuiltinFunction::MarkAt && n == 3 && args[0] == ScriptType::Marks && args[1]
        == ScriptType::Int && num(2) {
        Some(ScriptType::Float)
    } else if (f == BuiltinFunction::MarkPrev || f == BuiltinFunction::MarkNext || f
        == BuiltinFunction::MarkNearest || f == BuiltinFunction::MarkPhase || f
        == BuiltinFunction::MarkElapsed) && n == 3 && args[0] == ScriptType::Marks && num(1) && num(
        2,
    ) {
        Some(ScriptType::Float)
    } else if (f == BuiltinFunction::Min || f == BuiltinFunction::Max) && n == 2 && num(0) && num(
        1,
    ) {
        Some(ScriptType::Float)
    } else if (f == BuiltinFunction::Clamp || f == BuiltinFunction::Smoothstep || f
        == BuiltinFunction::Mix) && n == 3 && num(0) && num(1) && num(2) {
        Some(ScriptType::Float)
    } else if (f == BuiltinFunction::Rgb || f == BuiltinFunction::Hsv) && n == 3 && num(0) && num(1)
        && num(2) {
        Some(ScriptType::Color)
    } else if f == BuiltinFunction::Mix && n == 3 && args[0] == ScriptType::Color && args[1]
        == ScriptType::Color && num(2) {
        Some(ScriptType::Color)
    } else {
        None
    }
}

/// The first builtin, in declaration order from `k` on, called `name`.
pub open spec fn first_named_from(name: Seq<char>, k: int) -> Option<BuiltinFunction>
    decreases 28 - k,
{
    if k < 0 || k >= 28 {
        None
    } else if spec_builtin_name(all_builtins()[k]) == name {
        Some(all_builtins()[k])
    } else {
        first_named_from(name, k + 1)
    }
}

/// The builtin function that a call of `name` means.
pub open spec fn function_named(name: Seq<char>) -> Option<BuiltinFunction> {
    first_named_from(name, 0)
}

/// Position of each builtin in `all_builtins`.
pub open spec fn builtin_index(f: BuiltinFunction) -> int {
    match f {
        BuiltinFunction::Sin => 0,
        BuiltinFunction::Cos => 1,
        BuiltinFunction::Abs => 2,
        BuiltinFunction::Floor => 3,
        BuiltinFunction::Srand => 4,
        BuiltinFunction::Rand => 5,
        BuiltinFunction::PixelIndex => 6,
        BuiltinFunction::PixelCount => 7,
        BuiltinFunction::Fixtures => 8,
        BuiltinFunction::Pixels => 9,
        BuiltinFunction::Sections => 10,
        BuiltinFunction::Count => 11,
        BuiltinFunction::Pick => 12,
        BuiltinFunction::CurveCrossing => 13,
        BuiltinFunction::MarkCount => 14,
        BuiltinFunction::MarkAt => 15,
        BuiltinFunction::MarkPrev => 16,
        BuiltinFunction::MarkNext => 17,
        BuiltinFunction::MarkNearest => 18,
        BuiltinFunction::MarkPhase => 19,
        BuiltinFunction::MarkElapsed => 20,
        BuiltinFunction::Min => 21,
        BuiltinFunction::Max => 22,
        BuiltinFunction::Clamp => 23,
        BuiltinFunction::Smoothstep => 24,
        BuiltinFunction::Mix => 25,
        BuiltinFunction::Rgb => 26,
        BuiltinFunction::Hsv => 27,
    }
}

impl BuiltinFunction {
    /// The builtin function called `name`, if there is one.
    pub fn from_name(name: &str) -> (r: Option<Self>)
        ensures
            r == function_named(name@),
            r matches Some(f) ==> spec_builtin_name(f) == name@,
            r is None ==> forall|f: BuiltinFunction| spec_builtin_name(f) != name@,
    {
        let table: [(&'static str, BuiltinFunction); 28] = [
            ("sin", BuiltinFunction::Sin),
            ("cos", BuiltinFunction::Cos),
            ("abs", BuiltinFunction::Abs),
            ("floor", BuiltinFunction::Floor),
            ("srand", BuiltinFunction::Srand),
            ("rand", BuiltinFunction::Rand),
            ("pixel_index", BuiltinFunction::PixelIndex),
            ("pixel_count", BuiltinFunction::PixelCount),
            ("fixtures", BuiltinFunction::Fixtures),
            ("pixels", BuiltinFunction::Pixels),
            ("sections", BuiltinFunction::Sections),
            ("count", BuiltinFunction::Count),
            ("pick", BuiltinFunction::Pick),
            ("curve_crossing", BuiltinFunction::CurveCrossing),
            ("mark_count", BuiltinFunction::MarkCount),
            ("mark_at", BuiltinFunction::MarkAt),
            ("mark_prev", BuiltinFunction::MarkPrev),
            ("mark_next", BuiltinFunction::MarkNext),
            ("mark_nearest", BuiltinFunction::MarkNearest),
            ("mark_phase", BuiltinFunction::MarkPhase),
            ("mark_elapsed", BuiltinFunction::MarkElapsed),
            ("min", BuiltinFunction::Min),
            ("max", BuiltinFunction::Max),
            ("clamp", BuiltinFunction::Clamp),
            ("smoothstep", BuiltinFunction::Smoothstep),
            ("mix", BuiltinFunction::Mix),
            ("rgb", BuiltinFunction::Rgb),
            ("hsv", BuiltinFunction::Hsv),
        ];
        assert(forall|k: int| 0 <= k < 28 ==> spec_builtin_name(#[trigger] table@[k].1) == table@[k].0@);
        assert forall|f: BuiltinFunction| 0 <= #[trigger] builtin_index(f) < 28 && table@[builtin_index(f)].1 == f by {
            match f {
                _ => {},
            }
        }
        assert forall|j: int| 0 <= j < 28 implies #[trigger] table@[j].1 == all_builtins()[j] by {
        }
        let mut k: usize = 0;
        while k < 28
            invariant
                k <= 28,
                forall|j: int| 0 <= j < 28 ==> #[trigger] table@[j].1 == all_builtins()[j],
                function_named(name@) == first_named_from(name@, k as int),
                forall|j: int| 0 <= j < k ==> table@[j].0@ != name@,
                forall|j: int| 0 <= j < 28 ==> spec_builtin_name(#[trigger] table@[j].1) == table@[j].0@,
            decreases 28 - k,
        {
            if str_eq(table[k].0, name) {
                return Some(table[k].1);
            }
            assert(table@[k as int].1 == all_builtins()[k as int]);
            assert(spec_builtin_name(all_builtins()[k as int]) != name@);
            k += 1;
        }
        assert forall|f: BuiltinFunction| spec_builtin_name(f) != name@ by {
            let j = builtin_index(f);
            assert(spec_builtin_name(table@[j].1) == table@[j].0@);
        }
        None
    }

    /// The return type for `args` in a sample effect.
    pub fn return_type(self, args: &[ScriptType]) -> (r: Option<ScriptType>)
        ensures
            r == spec_return_type_for_kind(self, args@, EffectScriptKind::Sample),
    {
        self.return_type_for_kind(args, EffectScriptKind::Sample)
    }

    /// The return type for `args` in an effect of `kind`, when this builtin
    /// accepts them.
    pub fn return_type_for_kind(self, args: &[ScriptType], kind: EffectScriptKind) -> (r: Option<
        ScriptType,
    >)
        ensures
            r == spec_return_type_for_kind(self, args@, kind),
    {
        let n = args.len();
        let gen = kind == EffectScriptKind::Generator;
        let f = self;
        if f == BuiltinFunction::Floor && n == 1 && gen && is_float_compatible(args[0]) {
            Some(ScriptType::Int)
        } else if (f == BuiltinFunction::Sin || f == BuiltinFunction::Cos || f
            == BuiltinFunction::Abs || f == BuiltinFunction::Floor || f == BuiltinFunction::Srand)
            && n == 1 && is_float_compatible(args[0]) {
            Some(ScriptType::Float)
        } else if f == BuiltinFunction::Rand && n == 0 {
            Some(ScriptType::Float)
        } else if f == BuiltinFunction::Rand && n == 2 && args[1] == ScriptType::Int && gen
            && is_float_compatible(args[0]) {
            Some(ScriptType::Float)
        } else if (f == BuiltinFunction::PixelIndex || f == BuiltinFunction::PixelCount) && n == 1
            && args[0] == ScriptType::Pixel {
            Some(ScriptType::Int)
        } else if (f == BuiltinFunction::Fixtures || f == BuiltinFunction::Pixels) && n == 1
            && args[0] == ScriptType::Target && gen {
            Some(ScriptType::TargetItems)
        } else if f == BuiltinFunction::Sections && n == 2 && args[0] == ScriptType::Target
            && args[1] == ScriptType::Int && gen {
            Some(ScriptType::TargetItems)
        } else if f == BuiltinFunction::Count && n == 1 && args[0] == ScriptType::TargetItems
            && gen {
            Some(ScriptType::Int)
        } else if f == BuiltinFunction::Pick && n == 2 && args[0] == ScriptType::TargetItems
            && args[1] == ScriptType::Int && gen {
            Some(ScriptType::TargetItem)
        } else if f == BuiltinFunction::CurveCrossing && n == 3 && args[0]
            == ScriptType::CurveFloat && is_float_compatible(args[1]) && is_float_compatible(
            args[2],
        ) {
            Some(ScriptType::Float)
        } else if f == BuiltinFunction::MarkCount && n == 1 && args[0] == ScriptType::Marks {
            Some(ScriptType::Int)
        } else if f == BuiltinFunction::MarkAt && n == 3 && args[0] == ScriptType::Marks && args[1]
            == ScriptType::Int && is_float_compatible(args[2]) {
            Some(ScriptType::Float)
        } else if (f == BuiltinFunction::MarkPrev || f == BuiltinFunction::MarkNext || f
            == BuiltinFunction::MarkNearest || f == BuiltinFunction::MarkPhase || f
            == BuiltinFunction::MarkElapsed) && n == 3 && args[0] == ScriptType::Marks
            && is_float_compatible(args[1]) && is_float_compatible(args[2]) {
            Some(ScriptType::Float)
        } else if (f == BuiltinFunction::Min || f == BuiltinFunction::Max) && n == 2
            && is_float_compatible(args[0]) && is_float_compatible(args[1]) {
            Some(ScriptType::Float)
        } else if (f == BuiltinFunction::Clamp || f == BuiltinFunction::Smoothstep || f
            == BuiltinFunction::Mix) && n == 3 && is_float_compatible(args[0])
            && is_float_compatible(args[1]) && is_float_compatible(args[2]) {
            Some(ScriptType::Float)
        } else if (f == BuiltinFunction::Rgb || f == BuiltinFunction::Hsv) && n == 3
            && is_float_compatible(args[0]) && is_float_compatible(args[1]) && is_float_compatible(
            args[2],
        ) {
            Some(ScriptType::Color)
        } else if f == BuiltinFunction::Mix && n == 3 && args[0] == ScriptType::Color && args[1]
            == ScriptType::Color && is_float_compatible(args[2]) {
            Some(ScriptType::Color)
        } else {
            None
        }
    }
}

/// A number is a float or an int.
pub open spec fn is_number(t: ScriptType) -> bool {
    t == ScriptType::Float || t == ScriptType::Int
}

/// `rgb` and `hsv` of three numbers make a color, in either kind of effect;
/// with any other number of arguments they are refused.
pub proof fn lemma_color_constructors(f: BuiltinFunction, args: Seq<ScriptType>, kind: EffectScriptKind)
    requires
        f == BuiltinFunction::Rgb || f == BuiltinFunction::Hsv,
    ensures
        args.len() == 3 && is_number(args[0]) && is_number(args[1]) && is_number(args[2])
            ==> spec_return_type_for_kind(f, args, kind) == Some(ScriptType::Color),
        args.len() != 3 ==> spec_return_type_for_kind(f, args, kind) is None,
{
}

/// `sin`, `cos` and `abs` of a number are floats; `floor` of a number is a
/// float in a sample and an int in a generator.
pub proof fn lemma_unary_math(f: BuiltinFunction, t: ScriptType, kind: EffectScriptKind)
    requires
        is_number(t),
    ensures
        (f == BuiltinFunction::Sin || f == BuiltinFunction::Cos || f == BuiltinFunction::Abs)
            ==> spec_return_type_for_kind(f, seq![t], kind) == Some(ScriptType::Float),
        spec_return_type_for_kind(BuiltinFunction::Floor, seq![t], EffectScriptKind::Sample) == Some(ScriptType::Float),
        spec_return_type_for_kind(BuiltinFunction::Floor, seq![t], EffectScriptKind::Generator) == Some(ScriptType::Int),
{
}

/// `min` and `max` of two numbers, and `clamp`, `smoothstep` and `mix` of
/// three, are floats; `mix` of two colors by a number is a color.
pub proof fn lemma_numeric_blends(a: ScriptType, b: ScriptType, c: ScriptType, kind: EffectScriptKind)
    ensures
        is_number(a) && is_number(b) ==> spec_return_type_for_kind(BuiltinFunction::Min, seq![a, b], kind)
            == Some(ScriptType::Float) && spec_return_type_for_kind(BuiltinFunction::Max, seq![a, b], kind) == Some(
            ScriptType::Float,
        ),
        is_number(a) && is_number(b) && is_number(c) ==> spec_return_type_for_kind(
            BuiltinFunction::Clamp,
            seq![a, b, c],
            kind,
        ) == Some(ScriptType::Float) && spec_return_type_for_kind(BuiltinFunction::Smoothstep, seq![a, b, c], kind)
            == Some(ScriptType::Float) && spec_return_type_for_kind(BuiltinFunction::Mix, seq![a, b, c], kind)
            == Some(ScriptType::Float),
        is_number(c) ==> spec_return_type_for_kind(
            BuiltinFunction::Mix,
            seq![ScriptType::Color, ScriptType::Color, c],
            kind,
        ) == Some(ScriptType::Color),
{
}

/// The mark functions: the count of a mark collection is an int; the mark at
/// an int index of it (with a time) and the previous, next or nearest mark,
/// the phase and the time elapsed (at a time, with a number) are floats.
pub proof fn lemma_mark_functions(f: BuiltinFunction, a: ScriptType, b: ScriptType, kind: EffectScriptKind)
    ensures
        spec_return_type_for_kind(BuiltinFunction::MarkCount, seq![ScriptType::Marks], kind) == Some(ScriptType::Int),
        is_number(b) ==> spec_return_type_for_kind(
            BuiltinFunction::MarkAt,
            seq![ScriptType::Marks, ScriptType::Int, b],
            kind,
        ) == Some(ScriptType::Float),
        (f == BuiltinFunction::MarkPrev || f == BuiltinFunction::MarkNext || f == BuiltinFunction::MarkNearest || f
            == BuiltinFunction::MarkPhase || f == BuiltinFunction::MarkElapsed) && is_number(a) && is_number(b)
            ==> spec_return_type_for_kind(f, seq![ScriptType::Marks, a, b], kind) == Some(ScriptType::Float),
{
}

/// The functions that split a generator's target work in generators only: a
/// sample effect cannot call them, whatever it passes.
pub proof fn lemma_generator_only(f: BuiltinFunction, args: Seq<ScriptType>)
    requires
        f == BuiltinFunction::Fixtures || f == BuiltinFunction::Pixels || f == BuiltinFunction::Sections || f
            == BuiltinFunction::Count || f == BuiltinFunction::Pick,
    ensures
        spec_return_type_for_kind(f, args, EffectScriptKind::Sample) is None,
{
}

/// Apart from `floor`, `rand` and the generator-only functions, what a
/// builtin accepts and returns is the same in a sample and in a generator.
pub proof fn lemma_kind_independent(f: BuiltinFunction, args: Seq<ScriptType>)
    requires
        f != BuiltinFunction::Floor && f != BuiltinFunction::Rand && f != BuiltinFunction::Fixtures && f
            != BuiltinFunction::Pixels && f != BuiltinFunction::Sections && f != BuiltinFunction::Count && f
            != BuiltinFunction::Pick,
    ensures
        spec_return_type_for_kind(f, args, EffectScriptKind::Sample) == spec_return_type_for_kind(
            f,
            args,
            EffectScriptKind::Generator,
        ),
{
}

} // verus!
