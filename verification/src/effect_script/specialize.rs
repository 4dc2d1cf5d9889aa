//! Specializing a sample program for fixed parameter values: enum comparisons
//! whose operands are known become constants, branches on known booleans
//! become plain jumps, and instructions that can no longer run are dropped.
use vstd::prelude::*;
use crate::text::str_eq;
use crate::counting::{count_true, lemma_count_all_false, lemma_count_true_bound, lemma_count_true_set};
use crate::effect_script::types::ScriptType;
use crate::model::color::Color;
use crate::effect_script::bytecode::{
    stats_for_counts, BytecodeStats, BinaryInstruction, BoolSlot, Instruction, RegisterCounts, RefSlot, ValueSlot,
};

verus! {

/// A constant of a program, or a parameter value: a float (by its bits), an
/// integer, a boolean, a color, an enum option, the options of a flags
/// value, or a value of another kind.
#[derive(Debug, Clone, PartialEq, Eq)]
pub enum ConstantValue {
    Float(u64),
    Int(i64),
    Bool(bool),
    Color(Color),
    Enum(String),
    Flags(Vec<String>),
    Other,
}

pub enum SpecConst {
    Float(u64),
    Int(i64),
    Bool(bool),
    Color(Color),
    Enum(Seq<char>),
    Flags(Seq<Seq<char>>),
    Other,
}

impl View for ConstantValue {
    type V = SpecConst;

    open spec fn view(&self) -> SpecConst {
        match self {
            ConstantValue::Float(bits) => SpecConst::Float(*bits),
            ConstantValue::Int(v) => SpecConst::Int(*v),
            ConstantValue::Bool(b) => SpecConst::Bool(*b),
            ConstantValue::Color(c) => SpecConst::Color(*c),
            ConstantValue::Enum(s) => SpecConst::Enum(s@),
            ConstantValue::Flags(values) => SpecConst::Flags(values@.map_values(|v: String| v@)),
            ConstantValue::Other => SpecConst::Other,
        }
    }
}

pub open spec fn consts_view(cs: Seq<ConstantValue>) -> Seq<SpecConst> {
    cs.map_values(|c: ConstantValue| c@)
}

/// A program as specialization sees it: its instructions, what its constants
/// are, and its register counts.
#[derive(Debug, Clone)]
pub struct BytecodeProgram {
    pub instructions: Vec<Instruction>,
    pub constants: Vec<ConstantValue>,
    pub registers: RegisterCounts,
}

/// The statistics of `program` with `param_slots` parameter slots: its
/// instruction and constant counts, its registers of each kind, and their
/// total (the parameter slots not counted).
pub fn stats_for_program(program: &BytecodeProgram, param_slots: usize) -> (s: BytecodeStats)
    requires
        program.registers.spec_total() <= usize::MAX,
    ensures
        s.instruction_count == program.instructions@.len(),
        s.constant_count == program.constants@.len(),
        s.param_slots == param_slots,
        s.float_slots == program.registers.floats,
        s.int_slots == program.registers.ints,
        s.bool_slots == program.registers.bools,
        s.color_slots == program.registers.colors,
        s.ref_slots == program.registers.refs,
        s.fixture_slots == program.registers.fixtures,
        s.pixel_slots == program.registers.pixels,
        s.total_slots == program.registers.spec_total(),
        s.total_slots == s.float_slots + s.int_slots + s.bool_slots + s.color_slots + s.ref_slots
            + s.fixture_slots + s.pixel_slots,
{
    stats_for_counts(program.instructions.len(), program.constants.len(), program.registers, param_slots)
}

/// Where the value of a reference register came from, when it is a known enum
/// option.
#[derive(Debug, Clone)]
enum RefSource {
    EnumParameterValue(String),
    EnumConstant(String),
    Unknown,
}

impl View for RefSource {
    type V = Option<Seq<char>>;

    closed spec fn view(&self) -> Option<Seq<char>> {
        match self {
            RefSource::EnumParameterValue(s) => Some(s@),
            RefSource::EnumConstant(s) => Some(s@),
            RefSource::Unknown => None,
        }
    }
}

spec fn refs_view(rs: Seq<RefSource>) -> Seq<Option<Seq<char>>> {
    rs.map_values(|r: RefSource| r@)
}

/// Known values of the reference and boolean registers.
pub struct KnownState {
    pub refs: Seq<Option<Seq<char>>>,
    pub bools: Seq<Option<bool>>,
}

/// The register of `v` exists in `regs`, for the two register kinds tracked.
pub open spec fn slot_in_range(v: ValueSlot, refs: nat, bools: nat) -> bool {
    match v {
        ValueSlot::Ref(r, _) => r.0 < refs,
        ValueSlot::Bool(b) => b.0 < bools,
        _ => true,
    }
}

pub open spec fn is_enum_comparison(op: BinaryInstruction) -> bool {
    op == BinaryInstruction::EnumEqual || op == BinaryInstruction::EnumNotEqual
}

/// The registers and indices that an instruction names exist.
pub open spec fn instruction_in_range(ins: Instruction, refs: nat, bools: nat, consts: nat, params: nat) -> bool {
    match ins {
        Instruction::LoadConst(d, c) => slot_in_range(d, refs, bools) && c < consts,
        Instruction::LoadParam(d, p) => slot_in_range(d, refs, bools) && p < params,
        Instruction::Copy(d, s) => slot_in_range(d, refs, bools) && slot_in_range(s, refs, bools),
        Instruction::BoolNot(d, s) => d.0 < bools && s.0 < bools,
        Instruction::Binary(d, op, l, r) => slot_in_range(d, refs, bools) && (is_enum_comparison(op)
            ==> (l is Ref && r is Ref && slot_in_range(l, refs, bools) && slot_in_range(
            r,
            refs,
            bools,
        ))),
        Instruction::JumpIfFalse(c, _) => c.0 < bools,
        Instruction::JumpIfTrue(c, _) => c.0 < bools,
        _ => true,
    }
}

/// Every instruction of `p` is in range for `params` parameter values.
pub open spec fn program_in_range(p: BytecodeProgram, params: nat) -> bool {
    forall|i: int| 0 <= i < p.instructions@.len() ==> instruction_in_range(
        #[trigger] p.instructions@[i],
        p.registers.refs as nat,
        p.registers.bools as nat,
        p.constants@.len(),
        params,
    )
}

/// Forgets what was known of the register that `dest` names.
pub open spec fn clear_known(dest: ValueSlot, st: KnownState) -> KnownState {
    match dest {
        ValueSlot::Ref(r, _) => KnownState { refs: st.refs.update(r.0 as int, None), bools: st.bools },
        ValueSlot::Bool(b) => KnownState { refs: st.refs, bools: st.bools.update(b.0 as int, None) },
        _ => st,
    }
}

pub open spec fn known_enum(c: SpecConst) -> Option<Seq<char>> {
    match c {
        SpecConst::Enum(v) => Some(v),
        _ => None,
    }
}

pub open spec fn known_bool(c: SpecConst) -> Option<bool> {
    match c {
        SpecConst::Bool(b) => Some(b),
        _ => None,
    }
}

pub open spec fn ref_of(v: ValueSlot) -> int {
    match v {
        ValueSlot::Ref(r, _) => r.0 as int,
        _ => 0,
    }
}

/// One step of specialization at `index`: the state after the instruction, the
/// instruction that replaces it, and the boolean constant it adds, if any.
pub open spec fn specialize_step(
    st: KnownState,
    consts: Seq<SpecConst>,
    params: Seq<SpecConst>,
    index: int,
    ins: Instruction,
) -> (KnownState, Instruction, Option<bool>) {
    match ins {
        Instruction::LoadConst(dest, c) => match dest {
            ValueSlot::Ref(r, ScriptType::Enum) => (
                KnownState { refs: st.refs.update(r.0 as int, known_enum(consts[c as int])), bools: st.bools },
                ins,
                None,
            ),
            ValueSlot::Bool(b) => (
                KnownState { refs: st.refs, bools: st.bools.update(b.0 as int, known_bool(consts[c as int])) },
                ins,
                None,
            ),
            _ => (clear_known(dest, st), ins, None),
        },
        Instruction::LoadParam(dest, p) => match dest {
            ValueSlot::Ref(r, ScriptType::Enum) => (
                KnownState { refs: st.refs.update(r.0 as int, known_enum(params[p as int])), bools: st.bools },
                ins,
                None,
            ),
            _ => (clear_known(dest, st), ins, None),
        },
        Instruction::Copy(dest, source) => match (dest, source) {
            (ValueSlot::Ref(d, ScriptType::Enum), ValueSlot::Ref(s, ScriptType::Enum)) => (
                KnownState { refs: st.refs.update(d.0 as int, st.refs[s.0 as int]), bools: st.bools },
                ins,
                None,
            ),
            (ValueSlot::Bool(d), ValueSlot::Bool(s)) => (
                KnownState { refs: st.refs, bools: st.bools.update(d.0 as int, st.bools[s.0 as int]) },
                ins,
                None,
            ),
            _ => (clear_known(dest, st), ins, None),
        },
        Instruction::BoolNot(d, s) => (
            KnownState {
                refs: st.refs,
                bools: st.bools.update(
                    d.0 as int,
                    match st.bools[s.0 as int] {
                        Some(v) => Some(!v),
                        None => None,
                    },
                ),
            },
            ins,
            None,
        ),
        Instruction::Binary(dest, op, left, right) => if is_enum_comparison(op) {
            let l = st.refs[ref_of(left)];
            let r = st.refs[ref_of(right)];
            if l is Some && r is Some && dest is Bool {
                let v = if op == BinaryInstruction::EnumEqual {
                    l->0 == r->0
                } else {
                    l->0 != r->0
                };
                (
                    KnownState { refs: st.refs, bools: st.bools.update(dest->Bool_0.0 as int, Some(v)) },
                    Instruction::LoadConst(dest, consts.len() as usize),
                    Some(v),
                )
            } else {
                (clear_known(dest, st), ins, None)
            }
        } else {
            (clear_known(dest, st), ins, None)
        },
        Instruction::JumpIfFalse(c, target) => match st.bools[c.0 as int] {
            Some(v) => (st, Instruction::Jump(if v { (index + 1) as usize } else { target }), None),
            None => (st, ins, None),
        },
        Instruction::JumpIfTrue(c, target) => match st.bools[c.0 as int] {
            Some(v) => (st, Instruction::Jump(if v { target } else { (index + 1) as usize }), None),
            None => (st, ins, None),
        },
        _ => (st, ins, None),
    }
}

/// The instructions and constants that specialization produces from `i` on.
pub open spec fn specialize_from(
    instrs: Seq<Instruction>,
    params: Seq<SpecConst>,
    i: int,
    st: KnownState,
    consts: Seq<SpecConst>,
) -> (Seq<Instruction>, Seq<SpecConst>)
    decreases instrs.len() - i,
{
    if i < 0 || i >= instrs.len() {
        (Seq::empty(), consts)
    } else {
        let (st2, ins2, pushed) = specialize_step(st, consts, params, i, instrs[i]);
        let consts2 = match pushed {
            Some(b) => consts.push(SpecConst::Bool(b)),
            None => consts,
        };
        let rest = specialize_from(instrs, params, i + 1, st2, consts2);
        (seq![ins2] + rest.0, rest.1)
    }
}

pub open spec fn initial_known(regs: RegisterCounts) -> KnownState {
    KnownState {
        refs: Seq::new(regs.refs as nat, |i: int| None),
        bools: Seq::new(regs.bools as nat, |i: int| None),
    }
}

/// The instructions and constants of `p` specialized for `params`, before
/// unreachable instructions are dropped.
pub open spec fn spec_specialize(p: BytecodeProgram, params: Seq<SpecConst>) -> (Seq<Instruction>, Seq<SpecConst>) {
    specialize_from(p.instructions@, params, 0, initial_known(p.registers), consts_view(p.constants@))
}

fn clear_dest(dest: ValueSlot, ref_sources: &mut Vec<RefSource>, bool_values: &mut Vec<Option<bool>>)
    requires
        slot_in_range(dest, old(ref_sources)@.len(), old(bool_values)@.len()),
    ensures
        ({
            let after = clear_known(
                dest,
                KnownState { refs: refs_view(old(ref_sources)@), bools: old(bool_values)@ },
            );
            refs_view(final(ref_sources)@) == after.refs && final(bool_values)@ == after.bools
        }),
        final(ref_sources)@.len() == old(ref_sources)@.len(),
        final(bool_values)@.len() == old(bool_values)@.len(),
{
    match dest {
        ValueSlot::Ref(slot, _) => {
            ref_sources.set(slot.0, RefSource::Unknown);
            assert(refs_view(ref_sources@) =~= refs_view(old(ref_sources)@).update(slot.0 as int, None));
        },
        ValueSlot::Bool(slot) => {
            bool_values.set(slot.0, None);
        },
        _ => {},
    }
}

fn enum_source_value(slot: ValueSlot, ref_sources: &Vec<RefSource>) -> (r: Option<&str>)
    requires
        slot is Ref,
        slot_in_range(slot, ref_sources@.len(), 0),
    ensures
        r matches Some(s) ==> refs_view(ref_sources@)[ref_of(slot)] == Some(s@),
        r is None ==> refs_view(ref_sources@)[ref_of(slot)] is None,
{
    match &ref_sources[slot.reference().0] {
        RefSource::EnumParameterValue(value) => Some(value.as_str()),
        RefSource::EnumConstant(value) => Some(value.as_str()),
        RefSource::Unknown => None,
    }
}

fn clone_ref_source(r: &RefSource) -> (c: RefSource)
    ensures
        c@ == r@,
{
    match r {
        RefSource::EnumParameterValue(s) => RefSource::EnumParameterValue(s.clone()),
        RefSource::EnumConstant(s) => RefSource::EnumConstant(s.clone()),
        RefSource::Unknown => RefSource::Unknown,
    }
}

fn clone_constant(c: &ConstantValue) -> (r: ConstantValue)
    ensures
        r@ == c@,
{
    match c {
        ConstantValue::Float(bits) => ConstantValue::Float(*bits),
        ConstantValue::Int(v) => ConstantValue::Int(*v),
        ConstantValue::Bool(b) => ConstantValue::Bool(*b),
        ConstantValue::Color(c) => ConstantValue::Color(*c),
        ConstantValue::Enum(s) => ConstantValue::Enum(clone_string(s)),
        ConstantValue::Flags(v) => ConstantValue::Flags(clone_strings(v)),
        ConstantValue::Other => ConstantValue::Other,
    }
}

fn clone_strings(v: &Vec<String>) -> (r: Vec<String>)
    ensures
        r@.map_values(|x: String| x@) == v@.map_values(|x: String| x@),
{
    let mut r: Vec<String> = Vec::new();
    let mut i: usize = 0;
    while i < v.len()
        invariant
            i <= v@.len(),
            r@.len() == i,
            forall|j: int| 0 <= j < i ==> #[trigger] r@[j]@ == v@[j]@,
        decreases v@.len() - i,
    {
        r.push(clone_string(&v[i]));
        i += 1;
    }
    assert(r@.map_values(|x: String| x@) =~= v@.map_values(|x: String| x@));
    r
}

fn clone_string(s: &String) -> (c: String)
    ensures
        c@ == s@,
{
    s.clone()
}

/// Replaces known enum comparisons and branches on known booleans in `program`
/// for the parameter values `param_values`.
pub fn specialize_instructions(program: &BytecodeProgram, param_values: &Vec<ConstantValue>) -> (r: (
    Vec<Instruction>,
    Vec<ConstantValue>,
))
    requires
        program_in_range(*program, param_values@.len()),
    ensures
        (r.0@, consts_view(r.1@)) == spec_specialize(*program, consts_view(param_values@)),
        r.0@.len() == program.instructions@.len(),
{
    let n = program.instructions.len();
    let mut constants: Vec<ConstantValue> = Vec::new();
    let mut c: usize = 0;
    while c < program.constants.len()
        invariant
            c <= program.constants@.len(),
            constants@.len() == c,
            consts_view(constants@) == consts_view(program.constants@.subrange(0, c as int)),
        decreases program.constants@.len() - c,
    {
        let value = clone_constant(&program.constants[c]);
        let ghost before = constants@;
        constants.push(value);
        proof {
            assert forall|j: int| 0 <= j <= c implies #[trigger] consts_view(constants@)[j]
                == consts_view(program.constants@.subrange(0, c + 1))[j] by {
                if j < c {
                    assert(consts_view(before)[j] == consts_view(program.constants@.subrange(0, c as int))[j]);
                    assert(constants@[j] == before[j]);
                } else {
                    assert(constants@[j] == value);
                }
            }
        }
        c += 1;
        assert(consts_view(constants@) =~= consts_view(program.constants@.subrange(0, c as int)));
    }
    assert(program.constants@.subrange(0, program.constants@.len() as int) =~= program.constants@);
    let mut ref_sources: Vec<RefSource> = Vec::new();
    let mut k: usize = 0;
    while k < program.registers.refs
        invariant
            k <= program.registers.refs,
            ref_sources@.len() == k,
            refs_view(ref_sources@) =~= Seq::new(k as nat, |i: int| None::<Seq<char>>),
        decreases program.registers.refs - k,
    {
        let ghost before = ref_sources@;
        ref_sources.push(RefSource::Unknown);
        proof {
            assert forall|j: int| 0 <= j <= k implies #[trigger] refs_view(ref_sources@)[j] is None by {
                if j < k {
                    assert(refs_view(before)[j] == Seq::new(k as nat, |i: int| None::<Seq<char>>)[j]);
                    assert(ref_sources@[j] == before[j]);
                }
            }
        }
        k += 1;
        assert(refs_view(ref_sources@) =~= Seq::new(k as nat, |i: int| None::<Seq<char>>));
    }
    let mut bool_values: Vec<Option<bool>> = Vec::new();
    let mut k: usize = 0;
    while k < program.registers.bools
        invariant
            k <= program.registers.bools,
            bool_values@.len() == k,
            forall|j: int| 0 <= j < k ==> bool_values@[j] is None,
        decreases program.registers.bools - k,
    {
        bool_values.push(None);
        k += 1;
    }
    let ghost params = consts_view(param_values@);
    let ghost instrs = program.instructions@;
    proof {
        assert(refs_view(ref_sources@) =~= initial_known(program.registers).refs);
        assert(bool_values@ =~= initial_known(program.registers).bools);
    }
    let mut out: Vec<Instruction> = Vec::new();
    let mut index: usize = 0;
    while index < n
        invariant
            n == instrs.len(),
            instrs == program.instructions@,
            params == consts_view(param_values@),
            program_in_range(*program, param_values@.len()),
            index <= n,
            out@.len() == index,
            ref_sources@.len() == program.registers.refs,
            bool_values@.len() == program.registers.bools,
            constants@.len() >= program.constants@.len(),
            spec_specialize(*program, params) == ({
                let rest = specialize_from(
                    instrs,
                    params,
                    index as int,
                    KnownState { refs: refs_view(ref_sources@), bools: bool_values@ },
                    consts_view(constants@),
                );
                (out@ + rest.0, rest.1)
            }),
        decreases n - index,
    {
        let instruction = program.instructions[index];
        let ghost st = KnownState { refs: refs_view(ref_sources@), bools: bool_values@ };
        let ghost cs = consts_view(constants@);
        let ghost step = specialize_step(st, cs, params, index as int, instruction);
        assert(instruction_in_range(
            instrs[index as int],
            program.registers.refs as nat,
            program.registers.bools as nat,
            program.constants@.len(),
            param_values@.len(),
        ));
        let mut replacement = instruction;
        match instruction {
            Instruction::LoadConst(dest, constant_index) => match dest {
                ValueSlot::Ref(slot, ScriptType::Enum) => {
                    let source = match &constants[constant_index] {
                        ConstantValue::Enum(value) => RefSource::EnumConstant(clone_string(value)),
                        _ => RefSource::Unknown,
                    };
                    ref_sources.set(slot.0, source);
                },
                ValueSlot::Bool(slot) => {
                    let known = match &constants[constant_index] {
                        ConstantValue::Bool(value) => Some(*value),
                        _ => None,
                    };
                    bool_values.set(slot.0, known);
                },
                _ => clear_dest(dest, &mut ref_sources, &mut bool_values),
            },
            Instruction::LoadParam(dest, param_index) => match dest {
                ValueSlot::Ref(slot, ScriptType::Enum) => {
                    let source = match &param_values[param_index] {
                        ConstantValue::Enum(value) => RefSource::EnumParameterValue(
                            clone_string(value),
                        ),
                        _ => RefSource::Unknown,
                    };
                    ref_sources.set(slot.0, source);
                },
                _ => clear_dest(dest, &mut ref_sources, &mut bool_values),
            },
            Instruction::Copy(dest, source) => match (dest, source) {
                (ValueSlot::Ref(d, ScriptType::Enum), ValueSlot::Ref(s, ScriptType::Enum)) => {
                    let copied = clone_ref_source(&ref_sources[s.0]);
                    ref_sources.set(d.0, copied);
                },
                (ValueSlot::Bool(d), ValueSlot::Bool(s)) => {
                    let v = bool_values[s.0];
                    bool_values.set(d.0, v);
                },
                (dest, _) => clear_dest(dest, &mut ref_sources, &mut bool_values),
            },
            Instruction::BoolNot(dest, source) => {
                let v = match bool_values[source.0] {
                    Some(value) => Some(!value),
                    None => None,
                };
                bool_values.set(dest.0, v);
            },
            Instruction::Binary(dest, op, left, right) => {
                if op == BinaryInstruction::EnumEqual || op == BinaryInstruction::EnumNotEqual {
                    let known = match (
                        enum_source_value(left, &ref_sources),
                        enum_source_value(right, &ref_sources),
                    ) {
                        (Some(l), Some(r)) => Some(
                            if op == BinaryInstruction::EnumEqual {
                                str_eq(l, r)
                            } else {
                                !str_eq(l, r)
                            },
                        ),
                        _ => None,
                    };
                    match (dest, known) {
                        (ValueSlot::Bool(slot), Some(value)) => {
                            bool_values.set(slot.0, Some(value));
                            let constant_index = constants.len();
                            constants.push(ConstantValue::Bool(value));
                            replacement = Instruction::LoadConst(dest, constant_index);
                        },
                        _ => clear_dest(dest, &mut ref_sources, &mut bool_values),
                    }
                } else {
                    clear_dest(dest, &mut ref_sources, &mut bool_values);
                }
            },
            Instruction::JumpIfFalse(condition, target) => {
                match bool_values[condition.0] {
                    Some(value) => {
                        replacement = Instruction::Jump(
                            if value {
                                index + 1
                            } else {
                                target
                            },
                        );
                    },
                    None => {},
                }
            },
            Instruction::JumpIfTrue(condition, target) => {
                match bool_values[condition.0] {
                    Some(value) => {
                        replacement = Instruction::Jump(
                            if value {
                                target
                            } else {
                                index + 1
                            },
                        );
                    },
                    None => {},
                }
            },
            _ => {},
        }
        proof {
            assert(refs_view(ref_sources@) =~= step.0.refs);
            assert(bool_values@ =~= step.0.bools);
            assert(replacement == step.1);
            let cs2 = match step.2 {
                Some(b) => cs.push(SpecConst::Bool(b)),
                None => cs,
            };
            assert(consts_view(constants@) =~= cs2);
        }
        out.push(replacement);
        index += 1;
        proof {
            let rest = specialize_from(
                instrs,
                params,
                index as int,
                KnownState { refs: refs_view(ref_sources@), bools: bool_values@ },
                consts_view(constants@),
            );
            assert(out@ + rest.0 =~= out@.drop_last() + (seq![replacement] + rest.0));
        }
    }
    proof {
        assert(out@ + Seq::<Instruction>::empty() =~= out@);
    }
    (out, constants)
}

/// The instruction at `from` can pass control to the instruction at `to`.
pub open spec fn flows_to(instrs: Seq<Instruction>, from: int, to: int) -> bool {
    &&& 0 <= from < instrs.len()
    &&& 0 <= to < instrs.len()
    &&& match instrs[from] {
        Instruction::Jump(target) => to == target,
        Instruction::JumpIfFalse(_, target) => to == from + 1 || to == target,
        Instruction::JumpIfTrue(_, target) => to == from + 1 || to == target,
        Instruction::ReturnColor(_) => false,
        _ => to == from + 1,
    }
}

/// The instruction at `i` is reached from the entry in at most `steps`
/// transfers of control.
pub open spec fn reached_within(instrs: Seq<Instruction>, i: int, steps: nat) -> bool
    decreases steps,
{
    if steps == 0 {
        i == 0 && instrs.len() > 0
    } else {
        reached_within(instrs, i, (steps - 1) as nat) || exists|j: int|
            reached_within(instrs, j, (steps - 1) as nat) && #[trigger] flows_to(instrs, j, i)
    }
}

/// The instruction at `i` can run.
pub open spec fn reachable(instrs: Seq<Instruction>, i: int) -> bool {
    exists|steps: nat| reached_within(instrs, i, steps)
}

/// The instructions before `end` that can run, in order.
pub open spec fn kept_prefix(instrs: Seq<Instruction>, end: int) -> Seq<Instruction>
    decreases end,
{
    if end <= 0 {
        Seq::empty()
    } else if reachable(instrs, end - 1) {
        kept_prefix(instrs, end - 1).push(instrs[end - 1])
    } else {
        kept_prefix(instrs, end - 1)
    }
}

/// The new position of instruction `index` once unreachable instructions are
/// dropped: the number of reachable instructions before it.
pub open spec fn rank(instrs: Seq<Instruction>, index: int) -> int {
    kept_prefix(instrs, index).len() as int
}

pub open spec fn jump_target(ins: Instruction) -> Option<usize> {
    match ins {
        Instruction::Jump(target) => Some(target),
        Instruction::JumpIfFalse(_, target) => Some(target),
        Instruction::JumpIfTrue(_, target) => Some(target),
        _ => None,
    }
}

/// `ins` with its jump target moved to where that target lands after
/// compaction.
pub open spec fn retarget(instrs: Seq<Instruction>, ins: Instruction) -> Instruction {
    match ins {
        Instruction::Jump(target) => Instruction::Jump(rank(instrs, target as int) as usize),
        Instruction::JumpIfFalse(c, target) => Instruction::JumpIfFalse(c, rank(instrs, target as int) as usize),
        Instruction::JumpIfTrue(c, target) => Instruction::JumpIfTrue(c, rank(instrs, target as int) as usize),
        _ => ins,
    }
}

/// Every instruction that can run jumps at most to the end of the program.
pub open spec fn reachable_jumps_in_bounds(instrs: Seq<Instruction>) -> bool {
    forall|i: int|
        0 <= i < instrs.len() && #[trigger] reachable(instrs, i) ==> (jump_target(instrs[i]) matches Some(t)
            ==> t <= instrs.len())
}

/// The instructions of `instrs` that can run, in order, with their jumps
/// retargeted.
pub open spec fn spec_compact(instrs: Seq<Instruction>) -> Seq<Instruction> {
    kept_prefix(instrs, instrs.len() as int).map_values(|ins: Instruction| retarget(instrs, ins))
}

proof fn lemma_reached_in_range(instrs: Seq<Instruction>, i: int, steps: nat)
    requires
        reached_within(instrs, i, steps),
    ensures
        0 <= i < instrs.len(),
    decreases steps,
{
    if steps > 0 && reached_within(instrs, i, (steps - 1) as nat) {
        lemma_reached_in_range(instrs, i, (steps - 1) as nat);
    }
}

proof fn lemma_reachable_step(instrs: Seq<Instruction>, from: int, to: int)
    requires
        reachable(instrs, from),
        flows_to(instrs, from, to),
    ensures
        reachable(instrs, to),
{
    let steps = choose|steps: nat| reached_within(instrs, from, steps);
    assert(reached_within(instrs, to, steps + 1));
}

proof fn lemma_closed_marks_reachable(instrs: Seq<Instruction>, marked: Seq<bool>, i: int, steps: nat)
    requires
        marked.len() == instrs.len(),
        instrs.len() > 0 ==> marked[0],
        forall|a: int, t: int| #[trigger] flows_to(instrs, a, t) && marked[a] ==> marked[t],
        reached_within(instrs, i, steps),
    ensures
        0 <= i < instrs.len(),
        marked[i],
    decreases steps,
{
    if steps > 0 {
        if reached_within(instrs, i, (steps - 1) as nat) {
            lemma_closed_marks_reachable(instrs, marked, i, (steps - 1) as nat);
        } else {
            let j = choose|j: int| reached_within(instrs, j, (steps - 1) as nat) && #[trigger] flows_to(instrs, j, i);
            lemma_closed_marks_reachable(instrs, marked, j, (steps - 1) as nat);
        }
    }
}

/// Marks `to` and queues it when it is an instruction not marked yet.
fn visit(to: usize, marked: &mut Vec<bool>, work: &mut Vec<usize>)
    ensures
        final(marked)@.len() == old(marked)@.len(),
        to < old(marked)@.len() && !old(marked)@[to as int] ==> final(marked)@ == old(marked)@.update(to as int, true)
            && final(work)@ == old(work)@.push(to),
        !(to < old(marked)@.len() && !old(marked)@[to as int]) ==> final(marked)@ == old(marked)@ && final(work)@
            == old(work)@,
        forall|i: int| 0 <= i < old(marked)@.len() && #[trigger] old(marked)@[i] ==> final(marked)@[i],
        to < old(marked)@.len() ==> final(marked)@[to as int],
        forall|i: int|
            0 <= i < old(marked)@.len() && #[trigger] final(marked)@[i] && !old(marked)@[i] ==> final(work)@.contains(
                i as usize,
            ),
        forall|w: int| 0 <= w < old(work)@.len() ==> #[trigger] final(work)@[w] == old(work)@[w],
        final(work)@.len() >= old(work)@.len(),
        forall|w: int|
            old(work)@.len() <= w < final(work)@.len() ==> #[trigger] final(work)@[w] == to && to < old(marked)@.len(),
{
    if to < marked.len() && !marked[to] {
        marked.set(to, true);
        work.push(to);
        assert(work@[work@.len() - 1] == to);
    }
}

/// Which instructions of `instrs` can run.
fn reachable_marks(instrs: &Vec<Instruction>) -> (marked: Vec<bool>)
    ensures
        marked@.len() == instrs@.len(),
        forall|i: int| 0 <= i < instrs@.len() ==> (marked@[i] <==> reachable(instrs@, i)),
{
    let n = instrs.len();
    let ghost code = instrs@;
    let mut marked: Vec<bool> = Vec::new();
    let mut k: usize = 0;
    while k < n
        invariant
            k <= n,
            n == code.len(),
            marked@ =~= Seq::new(k as nat, |i: int| false),
        decreases n - k,
    {
        marked.push(false);
        k += 1;
    }
    proof {
        lemma_count_all_false(marked@);
    }
    let mut work: Vec<usize> = Vec::new();
    if n > 0 {
        proof {
            lemma_count_true_set(marked@, 0);
            assert(reached_within(code, 0, 0));
        }
        marked.set(0, true);
        work.push(0);
        assert(work@[0] == 0);
    }
    proof {
        assert forall|a: int, t: int|
            #[trigger] flows_to(code, a, t) && marked@[a] && !work@.contains(a as usize) implies marked@[t] by {
            assert(a == 0);
            assert(work@[0] == 0);
        }
    }
    while work.len() > 0
        invariant
            n == code.len(),
            code == instrs@,
            marked@.len() == n,
            n > 0 ==> marked@[0],
            forall|i: int| 0 <= i < n && #[trigger] marked@[i] ==> reachable(code, i),
            forall|w: int| 0 <= w < work@.len() ==> #[trigger] work@[w] < n && marked@[work@[w] as int],
            forall|a: int, t: int|
                #[trigger] flows_to(code, a, t) && marked@[a] && !work@.contains(a as usize) ==> marked@[t],
            count_true(marked@) <= n,
        decreases 2 * (n - count_true(marked@)) + work@.len(),
    {
        let ghost pending = work@;
        let from = work.pop().unwrap();
        let ghost popped = work@;
        assert(pending == popped.push(from));
        let ghost before = marked@;
        assert(from < n && marked@[from as int]);
        match instrs[from] {
            Instruction::Jump(target) => {
                proof {
                    if target < n && !marked@[target as int] {
                        lemma_reachable_step(code, from as int, target as int);
                        lemma_count_true_set(marked@, target as int);
                    }
                }
                visit(target, &mut marked, &mut work);
            },
            Instruction::JumpIfFalse(_, target) | Instruction::JumpIfTrue(_, target) => {
                let next = from + 1;
                proof {
                    if next < n && !marked@[next as int] {
                        lemma_reachable_step(code, from as int, next as int);
                        lemma_count_true_set(marked@, next as int);
                    }
                }
                visit(next, &mut marked, &mut work);
                let ghost marked1 = marked@;
                let ghost work1 = work@;
                proof {
                    if target < n && !marked@[target as int] {
                        lemma_reachable_step(code, from as int, target as int);
                        lemma_count_true_set(marked@, target as int);
                    }
                }
                visit(target, &mut marked, &mut work);
                proof {
                    assert forall|i: int| 0 <= i < n && #[trigger] marked@[i] && !before[i] implies work@.contains(
                        i as usize,
                    ) by {
                        if marked1[i] {
                            let w = choose|w: int| 0 <= w < work1.len() && work1[w] == i as usize;
                            assert(work@[w] == i as usize);
                        }
                    }
                }
            },
            Instruction::ReturnColor(_) => {},
            _ => {
                let next = from + 1;
                proof {
                    if next < n && !marked@[next as int] {
                        lemma_reachable_step(code, from as int, next as int);
                        lemma_count_true_set(marked@, next as int);
                    }
                }
                visit(next, &mut marked, &mut work);
            },
        }
        proof {
            lemma_count_true_bound(marked@);
            assert(forall|i: int| 0 <= i < n && #[trigger] marked@[i] && !before[i] ==> work@.contains(i as usize));
            assert(forall|w: int| 0 <= w < popped.len() ==> #[trigger] work@[w] == popped[w]);
            assert(forall|i: int| 0 <= i < n && #[trigger] before[i] ==> marked@[i]);
            assert(forall|t: int| #[trigger] flows_to(code, from as int, t) ==> marked@[t]);
            assert forall|a: int, t: int|
                #[trigger] flows_to(code, a, t) && marked@[a] && !work@.contains(a as usize) implies marked@[t] by {
                if a != from as int {
                    if !before[a] {
                    } else {
                        assert(before[t] || pending.contains(a as usize));
                        if popped.push(from).contains(a as usize) {
                            let w = choose|w: int| 0 <= w < popped.push(from).len() && popped.push(from)[w] == a as usize;
                            assert(w < popped.len());
                            assert(work@[w] == popped[w]);
                        }
                    }
                }
            }
        }
    }
    proof {
        assert forall|i: int| 0 <= i < n implies (marked@[i] <==> reachable(code, i)) by {
            if reachable(code, i) {
                let steps = choose|steps: nat| reached_within(code, i, steps);
                lemma_closed_marks_reachable(code, marked@, i, steps);
            }
        }
    }
    marked
}

/// Every jump target of `instrs` is at most its length.
pub open spec fn jumps_in_bounds(instrs: Seq<Instruction>) -> bool {
    forall|i: int|
        0 <= i < instrs.len() ==> (jump_target(#[trigger] instrs[i]) matches Some(t) ==> t <= instrs.len())
}

proof fn lemma_kept_prefix_facts(instrs: Seq<Instruction>, end: int)
    requires
        0 <= end <= instrs.len(),
        reachable_jumps_in_bounds(instrs),
    ensures
        kept_prefix(instrs, end).len() <= end,
        forall|j: int|
            0 <= j < kept_prefix(instrs, end).len() ==> (jump_target(#[trigger] kept_prefix(instrs, end)[j]) matches Some(
                t,
            ) ==> t <= instrs.len()),
    decreases end,
{
    if end > 0 {
        lemma_kept_prefix_facts(instrs, end - 1);
    }
}

/// Drops the instructions of `program` that can never run and moves every jump
/// target to where its instruction lands.
pub fn compact_reachable(program: BytecodeProgram) -> (r: BytecodeProgram)
    requires
        reachable_jumps_in_bounds(program.instructions@),
        program.instructions@.len() < usize::MAX,
    ensures
        r.instructions@ == spec_compact(program.instructions@),
        r.constants == program.constants,
        r.registers == program.registers,
{
    let ghost code = program.instructions@;
    let n = program.instructions.len();
    let marked = reachable_marks(&program.instructions);
    let mut remap: Vec<usize> = Vec::new();
    let mut kept: Vec<Instruction> = Vec::new();
    let mut i: usize = 0;
    while i < n
        invariant
            n == code.len(),
            code == program.instructions@,
            n < usize::MAX,
            reachable_jumps_in_bounds(code),
            marked@.len() == n,
            forall|j: int| 0 <= j < n ==> (marked@[j] <==> reachable(code, j)),
            i <= n,
            remap@.len() == i,
            forall|j: int| 0 <= j < i ==> #[trigger] remap@[j] == rank(code, j),
            kept@ == kept_prefix(code, i as int),
        decreases n - i,
    {
        proof {
            lemma_kept_prefix_facts(code, i as int);
        }
        remap.push(kept.len());
        if marked[i] {
            kept.push(program.instructions[i]);
        }
        i += 1;
    }
    proof {
        lemma_kept_prefix_facts(code, n as int);
    }
    remap.push(kept.len());
    let mut out: Vec<Instruction> = Vec::new();
    let mut j: usize = 0;
    while j < kept.len()
        invariant
            n == code.len(),
            remap@.len() == n + 1,
            forall|k: int| 0 <= k <= n ==> #[trigger] remap@[k] == rank(code, k),
            kept@ == kept_prefix(code, n as int),
            forall|k: int|
                0 <= k < kept@.len() ==> (jump_target(#[trigger] kept@[k]) matches Some(t) ==> t <= n),
            j <= kept@.len(),
            out@ == kept@.subrange(0, j as int).map_values(|ins: Instruction| retarget(code, ins)),
        decreases kept@.len() - j,
    {
        let moved = match kept[j] {
            Instruction::Jump(target) => Instruction::Jump(remap[target]),
            Instruction::JumpIfFalse(c, target) => Instruction::JumpIfFalse(c, remap[target]),
            Instruction::JumpIfTrue(c, target) => Instruction::JumpIfTrue(c, remap[target]),
            other => other,
        };
        out.push(moved);
        j += 1;
        assert(out@ =~= kept@.subrange(0, j as int).map_values(|ins: Instruction| retarget(code, ins)));
    }
    assert(kept@.subrange(0, kept@.len() as int) =~= kept@);
    BytecodeProgram { instructions: out, constants: program.constants, registers: program.registers }
}

/// The instructions and constants of `program` specialized for `params`, with
/// the instructions that can no longer run dropped.
/// Specializing only appends constants, and only booleans: the constants it
/// starts from come through unchanged.
pub proof fn lemma_specialize_keeps_constants(
    instrs: Seq<Instruction>,
    params: Seq<SpecConst>,
    i: int,
    st: KnownState,
    consts: Seq<SpecConst>,
)
    ensures
        specialize_from(instrs, params, i, st, consts).1.len() >= consts.len(),
        specialize_from(instrs, params, i, st, consts).1.subrange(0, consts.len() as int) == consts,
        forall|k: int|
            consts.len() <= k < specialize_from(instrs, params, i, st, consts).1.len() ==> (#[trigger] specialize_from(
                instrs,
                params,
                i,
                st,
                consts,
            ).1[k]) is Bool,
    decreases instrs.len() - i,
{
    if i >= 0 && i < instrs.len() {
        let (st2, ins2, pushed) = specialize_step(st, consts, params, i, instrs[i]);
        let consts2 = match pushed {
            Some(b) => consts.push(SpecConst::Bool(b)),
            None => consts,
        };
        lemma_specialize_keeps_constants(instrs, params, i + 1, st2, consts2);
        let out = specialize_from(instrs, params, i + 1, st2, consts2).1;
        assert(out.subrange(0, consts2.len() as int) == consts2);
        assert forall|k: int| 0 <= k < consts.len() implies out[k] == consts[k] by {
            assert(out.subrange(0, consts2.len() as int)[k] == consts2[k]);
        }
        assert(out.subrange(0, consts.len() as int) =~= consts);
        assert forall|k: int| consts.len() <= k < out.len() implies (#[trigger] out[k]) is Bool by {
            if k < consts2.len() {
                assert(out.subrange(0, consts2.len() as int)[k] == consts2[k]);
            }
        }
    } else {
        assert(consts.subrange(0, consts.len() as int) =~= consts);
    }
}

pub open spec fn spec_specialize_for_params(program: BytecodeProgram, params: Seq<SpecConst>) -> (
    Seq<Instruction>,
    Seq<SpecConst>,
) {
    let s = spec_specialize(program, params);
    (spec_compact(s.0), s.1)
}

/// Specializes `program` for the parameter values `param_values`: enum
/// comparisons of known operands become constants, branches on known booleans
/// become plain jumps, and what can no longer run is dropped.
pub fn specialize_for_params(program: &BytecodeProgram, param_values: &Vec<ConstantValue>) -> (r:
    BytecodeProgram)
    requires
        program_in_range(*program, param_values@.len()),
        program.instructions@.len() < usize::MAX,
        reachable_jumps_in_bounds(spec_specialize(*program, consts_view(param_values@)).0),
    ensures
        (r.instructions@, consts_view(r.constants@)) == spec_specialize_for_params(
            *program,
            consts_view(param_values@),
        ),
        r.registers == program.registers,
        consts_view(r.constants@).subrange(0, program.constants@.len() as int) == consts_view(program.constants@),
        forall|k: int|
            program.constants@.len() <= k < r.constants@.len() ==> (#[trigger] r.constants@[k]) is Bool,
{
    proof {
        lemma_specialize_keeps_constants(
            program.instructions@,
            consts_view(param_values@),
            0,
            initial_known(program.registers),
            consts_view(program.constants@),
        );
    }
    let (instructions, constants) = specialize_instructions(program, param_values);
    let r = compact_reachable(BytecodeProgram { instructions, constants, registers: program.registers });
    assert forall|k: int| program.constants@.len() <= k < r.constants@.len() implies (
    #[trigger] r.constants@[k]) is Bool by {
        assert(consts_view(r.constants@)[k] == r.constants@[k]@);
    }
    r
}

proof fn lemma_specialize_from_shape(
    instrs: Seq<Instruction>,
    params: Seq<SpecConst>,
    i: int,
    st: KnownState,
    consts: Seq<SpecConst>,
)
    requires
        0 <= i <= instrs.len(),
        jumps_in_bounds(instrs),
    ensures
        specialize_from(instrs, params, i, st, consts).0.len() == instrs.len() - i,
        jumps_in_bounds_of(specialize_from(instrs, params, i, st, consts).0, instrs.len() as int),
    decreases instrs.len() - i,
{
    if i < instrs.len() {
        let (st2, ins2, pushed) = specialize_step(st, consts, params, i, instrs[i]);
        let consts2 = match pushed {
            Some(b) => consts.push(SpecConst::Bool(b)),
            None => consts,
        };
        lemma_specialize_from_shape(instrs, params, i + 1, st2, consts2);
        let rest = specialize_from(instrs, params, i + 1, st2, consts2);
        assert(jump_target(instrs[i]) matches Some(t) ==> t <= instrs.len());
        let whole = seq![ins2] + rest.0;
        assert forall|k: int| 0 <= k < whole.len() implies (jump_target(#[trigger] whole[k]) matches Some(t)
            ==> t <= instrs.len()) by {
            if k > 0 {
                assert(whole[k] == rest.0[k - 1]);
            }
        }
    }
}

/// Every jump target of `instrs` is at most `len`.
pub open spec fn jumps_in_bounds_of(instrs: Seq<Instruction>, len: int) -> bool {
    forall|i: int| 0 <= i < instrs.len() ==> (jump_target(#[trigger] instrs[i]) matches Some(t) ==> t <= len)
}

/// Specialization keeps the length of the instruction list, and a program
/// whose jumps stay within it keeps that property, so its compaction is
/// defined.
pub proof fn lemma_specialize_keeps_jumps_in_bounds(program: BytecodeProgram, params: Seq<SpecConst>)
    requires
        jumps_in_bounds(program.instructions@),
    ensures
        spec_specialize(program, params).0.len() == program.instructions@.len(),
        jumps_in_bounds(spec_specialize(program, params).0),
        reachable_jumps_in_bounds(spec_specialize(program, params).0),
{
    lemma_specialize_from_shape(
        program.instructions@,
        params,
        0,
        initial_known(program.registers),
        consts_view(program.constants@),
    );
}

proof fn lemma_rank_monotone(instrs: Seq<Instruction>, a: int, b: int)
    requires
        0 <= a <= b,
    ensures
        rank(instrs, a) <= rank(instrs, b),
    decreases b - a,
{
    if a < b {
        lemma_rank_monotone(instrs, a, b - 1);
    }
}

proof fn lemma_kept_prefix_first(instrs: Seq<Instruction>, end: int)
    requires
        1 <= end,
        reachable(instrs, 0),
    ensures
        kept_prefix(instrs, end).len() >= 1,
        kept_prefix(instrs, end)[0] == instrs[0],
    decreases end,
{
    if end > 1 {
        lemma_kept_prefix_first(instrs, end - 1);
    } else {
        assert(kept_prefix(instrs, 0) =~= Seq::<Instruction>::empty());
    }
}

/// Compaction never lengthens a program, keeps its first instruction first,
/// and every jump of the result lands within the result.
pub proof fn lemma_compact_shape(instrs: Seq<Instruction>)
    requires
        reachable_jumps_in_bounds(instrs),
    ensures
        spec_compact(instrs).len() <= instrs.len(),
        jumps_in_bounds(spec_compact(instrs)),
        instrs.len() > 0 ==> spec_compact(instrs).len() > 0 && spec_compact(instrs)[0] == retarget(instrs, instrs[0]),
{
    let n = instrs.len() as int;
    lemma_kept_prefix_facts(instrs, n);
    let kept = kept_prefix(instrs, n);
    let out = spec_compact(instrs);
    assert forall|k: int| 0 <= k < out.len() implies (jump_target(#[trigger] out[k]) matches Some(t) ==> t
        <= out.len()) by {
        assert(out[k] == retarget(instrs, kept[k]));
        if let Some(t) = jump_target(kept[k]) {
            lemma_rank_monotone(instrs, t as int, n);
        }
    }
    if n > 0 {
        assert(reached_within(instrs, 0, 0));
        lemma_kept_prefix_first(instrs, n);
    }
}

/// The values that the enum and boolean registers hold at some point of a
/// run: the option text of each reference register that holds an enum
/// option, and each boolean.
pub struct TrackedRegs {
    pub refs: Seq<Seq<char>>,
    pub bools: Seq<bool>,
}

/// What is known agrees with the run: every known enum register holds the
/// known option, and every known boolean has the known value.
pub open spec fn known_agrees(st: KnownState, run: TrackedRegs) -> bool {
    &&& st.refs.len() == run.refs.len()
    &&& st.bools.len() == run.bools.len()
    &&& forall|i: int| 0 <= i < st.refs.len() ==> (#[trigger] st.refs[i] matches Some(v) ==> run.refs[i] == v)
    &&& forall|i: int| 0 <= i < st.bools.len() ==> (#[trigger] st.bools[i] matches Some(b) ==> run.bools[i] == b)
}

/// The instructions whose effect on the enum and boolean registers can be
/// told without running the rest of the program: negating or copying a
/// boolean, copying an enum, comparing two enums into a boolean, and loading
/// an enum option or a boolean constant, or an enum parameter.
pub open spec fn is_tracked(ins: Instruction, consts: Seq<SpecConst>, params: Seq<SpecConst>) -> bool {
    match ins {
        Instruction::BoolNot(_, _) => true,
        Instruction::Copy(ValueSlot::Bool(_), ValueSlot::Bool(_)) => true,
        Instruction::Copy(ValueSlot::Ref(_, ScriptType::Enum), ValueSlot::Ref(_, ScriptType::Enum)) => true,
        Instruction::Binary(ValueSlot::Bool(_), op, ValueSlot::Ref(_, _), ValueSlot::Ref(_, _)) => is_enum_comparison(op),
        Instruction::LoadConst(ValueSlot::Ref(_, ScriptType::Enum), c) => consts[c as int] is Enum,
        Instruction::LoadConst(ValueSlot::Bool(_), c) => consts[c as int] is Bool,
        Instruction::LoadParam(ValueSlot::Ref(_, ScriptType::Enum), p) => params[p as int] is Enum,
        _ => false,
    }
}

/// What running a tracked instruction does to the registers: `!` negates,
/// a copy copies, `==` and `!=` of two enum options compare their texts, and
/// a load stores the constant's or parameter's value.
pub open spec fn run_tracked(run: TrackedRegs, consts: Seq<SpecConst>, params: Seq<SpecConst>, ins: Instruction) -> TrackedRegs {
    match ins {
        Instruction::BoolNot(d, s) => TrackedRegs { refs: run.refs, bools: run.bools.update(d.0 as int, !run.bools[s.0 as int]) },
        Instruction::Copy(ValueSlot::Bool(d), ValueSlot::Bool(s)) => TrackedRegs {
            refs: run.refs,
            bools: run.bools.update(d.0 as int, run.bools[s.0 as int]),
        },
        Instruction::Copy(ValueSlot::Ref(d, _), ValueSlot::Ref(s, _)) => TrackedRegs {
            refs: run.refs.update(d.0 as int, run.refs[s.0 as int]),
            bools: run.bools,
        },
        Instruction::Binary(ValueSlot::Bool(d), op, ValueSlot::Ref(l, _), ValueSlot::Ref(r, _)) => TrackedRegs {
            refs: run.refs,
            bools: run.bools.update(
                d.0 as int,
                if op == BinaryInstruction::EnumEqual {
                    run.refs[l.0 as int] == run.refs[r.0 as int]
                } else {
                    run.refs[l.0 as int] != run.refs[r.0 as int]
                },
            ),
        },
        Instruction::LoadConst(ValueSlot::Ref(r, _), c) => TrackedRegs {
            refs: run.refs.update(r.0 as int, consts[c as int]->Enum_0),
            bools: run.bools,
        },
        Instruction::LoadConst(ValueSlot::Bool(b), c) => TrackedRegs {
            refs: run.refs,
            bools: run.bools.update(b.0 as int, consts[c as int]->Bool_0),
        },
        Instruction::LoadParam(ValueSlot::Ref(r, _), p) => TrackedRegs {
            refs: run.refs.update(r.0 as int, params[p as int]->Enum_0),
            bools: run.bools,
        },
        _ => run,
    }
}

/// Specialization only keeps true knowledge: if what is known agrees with a
/// run before a tracked instruction, what specialization knows after it
/// agrees with the run after it; a comparison it folds becomes the constant
/// that the run computes.
pub proof fn lemma_specialize_step_sound(
    st: KnownState,
    consts: Seq<SpecConst>,
    params: Seq<SpecConst>,
    index: int,
    ins: Instruction,
    run: TrackedRegs,
)
    requires
        known_agrees(st, run),
        is_tracked(ins, consts, params),
        instruction_in_range(ins, st.refs.len(), st.bools.len(), consts.len(), params.len()),
    ensures
        known_agrees(specialize_step(st, consts, params, index, ins).0, run_tracked(run, consts, params, ins)),
        specialize_step(st, consts, params, index, ins).2 matches Some(v) ==> (ins matches Instruction::Binary(
            ValueSlot::Bool(d),
            _,
            _,
            _,
        ) && run_tracked(run, consts, params, ins).bools[d.0 as int] == v),
{
    let after = specialize_step(st, consts, params, index, ins).0;
    let run2 = run_tracked(run, consts, params, ins);
    assert forall|i: int| 0 <= i < after.refs.len() implies (#[trigger] after.refs[i] matches Some(v) ==> run2.refs[i]
        == v) by {
        assert(st.refs[i] matches Some(v) ==> run.refs[i] == v);
    }
    assert forall|i: int| 0 <= i < after.bools.len() implies (#[trigger] after.bools[i] matches Some(b)
        ==> run2.bools[i] == b) by {
        assert(st.bools[i] matches Some(b) ==> run.bools[i] == b);
        match ins {
            Instruction::BoolNot(d, s) => {
                assert(st.bools[s.0 as int] matches Some(b) ==> run.bools[s.0 as int] == b);
            },
            Instruction::Copy(ValueSlot::Bool(d), ValueSlot::Bool(s)) => {
                assert(st.bools[s.0 as int] matches Some(b) ==> run.bools[s.0 as int] == b);
            },
            Instruction::Binary(ValueSlot::Bool(d), op, ValueSlot::Ref(l, _), ValueSlot::Ref(r, _)) => {
                assert(st.refs[l.0 as int] matches Some(v) ==> run.refs[l.0 as int] == v);
                assert(st.refs[r.0 as int] matches Some(v) ==> run.refs[r.0 as int] == v);
            },
            _ => {},
        }
    }
    match ins {
        Instruction::Binary(ValueSlot::Bool(d), op, ValueSlot::Ref(l, _), ValueSlot::Ref(r, _)) => {
            assert(st.refs[l.0 as int] matches Some(v) ==> run.refs[l.0 as int] == v);
            assert(st.refs[r.0 as int] matches Some(v) ==> run.refs[r.0 as int] == v);
        },
        _ => {},
    }
}

/// A branch on a boolean whose value is known becomes a plain jump to where
/// the run goes: on to the next instruction or to the branch target.
pub proof fn lemma_specialized_branch_goes_where_the_run_goes(
    st: KnownState,
    consts: Seq<SpecConst>,
    params: Seq<SpecConst>,
    index: int,
    ins: Instruction,
    run: TrackedRegs,
)
    requires
        known_agrees(st, run),
        0 <= index < usize::MAX,
        instruction_in_range(ins, st.refs.len(), st.bools.len(), consts.len(), params.len()),
    ensures
        ins matches Instruction::JumpIfFalse(c, t) ==> (specialize_step(st, consts, params, index, ins).1 matches Instruction::Jump(
            to,
        ) ==> to == if run.bools[c.0 as int] { (index + 1) as usize } else { t }),
        ins matches Instruction::JumpIfTrue(c, t) ==> (specialize_step(st, consts, params, index, ins).1 matches Instruction::Jump(
            to,
        ) ==> to == if run.bools[c.0 as int] { t } else { (index + 1) as usize }),
        (ins is JumpIfFalse || ins is JumpIfTrue) ==> specialize_step(st, consts, params, index, ins).0 == st,
{
    match ins {
        Instruction::JumpIfFalse(c, t) => {
            assert(st.bools[c.0 as int] matches Some(b) ==> run.bools[c.0 as int] == b);
        },
        Instruction::JumpIfTrue(c, t) => {
            assert(st.bools[c.0 as int] matches Some(b) ==> run.bools[c.0 as int] == b);
        },
        _ => {},
    }
}

} // verus!