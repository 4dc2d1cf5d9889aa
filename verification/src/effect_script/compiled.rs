//! A compiled effect: its name, kind and parameters, with the bytecode of a
//! sample effect or the statements of a generator.
use vstd::prelude::*;
use crate::effect_script::ast::{kind_for_entrypoint, spec_kind_for_entrypoint, EffectAst, EffectEntrypoint, EffectParamSchema, Stmt};
use crate::effect_script::compile::{compile_effect, spec_compile_effect};
use crate::effect_script::specialize::{consts_view, BytecodeProgram};
use crate::effect_script::types::EffectScriptKind;
use crate::text::str_eq;

verus! {

/// An effect ready to run.
pub struct CompiledEffect {
    pub name: String,
    pub kind: EffectScriptKind,
    pub params: Vec<EffectParamSchema>,
    pub bytecode: Option<BytecodeProgram>,
    pub generator: Option<Vec<Stmt>>,
}

/// Compiles a type-checked effect: a sample effect gets its bytecode, a
/// generator keeps its statements.
pub fn compile_ast(effect: EffectAst) -> (c: CompiledEffect)
    ensures
        c.name == effect.name,
        c.params == effect.params,
        c.kind == spec_kind_for_entrypoint(effect.entrypoint),
        match effect.entrypoint {
            EffectEntrypoint::Sample(_) => c.generator is None && match spec_compile_effect(effect) {
                Some(st) => c.bytecode matches Some(p) && p.instructions@ == st.instrs && consts_view(p.constants@)
                    == st.consts && p.registers == st.regs,
                None => c.bytecode is None,
            },
            EffectEntrypoint::Generator(ss) => c.bytecode is None && c.generator == Some(ss),
        },
{
    let kind = kind_for_entrypoint(&effect.entrypoint);
    let bytecode = match &effect.entrypoint {
        EffectEntrypoint::Sample(_) => compile_effect(&effect),
        EffectEntrypoint::Generator(_) => None,
    };
    let EffectAst { name, params, entrypoint } = effect;
    let generator = match entrypoint {
        EffectEntrypoint::Sample(_) => None,
        EffectEntrypoint::Generator(ss) => Some(ss),
    };
    CompiledEffect { name, kind, params, bytecode, generator }
}

/// The position of the first parameter at or after `i` named `name`.
pub open spec fn find_param(params: Seq<EffectParamSchema>, name: Seq<char>, i: int) -> Option<int>
    decreases params.len() - i,
{
    if i < 0 || i >= params.len() {
        None
    } else if params[i].name@ == name {
        Some(i)
    } else {
        find_param(params, name, i + 1)
    }
}

impl CompiledEffect {
    /// The first parameter named `name`.
    pub fn param(&self, name: &str) -> (r: Option<&EffectParamSchema>)
        ensures
            match find_param(self.params@, name@, 0) {
                Some(i) => r == Some(&self.params@[i]),
                None => r is None,
            },
    {
        let mut i: usize = 0;
        while i < self.params.len()
            invariant
                i <= self.params@.len(),
                find_param(self.params@, name@, 0) == find_param(self.params@, name@, i as int),
            decreases self.params@.len() - i,
        {
            if str_eq(self.params[i].name.as_str(), name) {
                return Some(&self.params[i]);
            }
            i += 1;
        }
        None
    }
}

} // verus!
