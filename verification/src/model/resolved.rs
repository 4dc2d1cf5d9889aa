//! Markers and records of the resolved project model: where a resolved object
//! came from, the definition sources of effects, resolved asset paths, and
//! the kinds of names that definition keys stand for.
use vstd::prelude::*;
use crate::model::kinds::{GroupInstantiationId, RgbChannelOrder, Universe};
use crate::model::refs::AssetPath;
use crate::model::units::{Distance, Time};

verus! {

/// The authored form of the model: objects as written. The markers here are
/// unit structs, since the verifier needs every datatype to have a value.
#[derive(Debug, Clone, Copy)]
pub struct Authored;

/// The resolved form of the model: references followed.
#[derive(Debug, Clone, Copy)]
pub struct Resolved;

/// Where a resolved object came from.
#[derive(Debug, Clone)]
pub enum ResolvedProvenance {
    Inline,
    Named { path: String, symbol: String },
    ExternalEffect { path: String, effect_name: String },
}

/// A resolved value and where it came from.
#[derive(Debug, Clone)]
pub struct ResolvedObject<T> {
    pub value: T,
    pub provenance: ResolvedProvenance,
}

/// Kinds of definitions that a definition key can name.
#[derive(Debug, Clone, PartialEq, Eq)]
pub struct ProjectDefinitionName;

#[derive(Debug, Clone, PartialEq, Eq)]
pub struct DisplayDefinitionName;

#[derive(Debug, Clone, PartialEq, Eq)]
pub struct SequenceDefinitionName;

#[derive(Debug, Clone, PartialEq, Eq)]
pub struct ControllerDefinitionName;

#[derive(Debug, Clone, PartialEq, Eq)]
pub struct PatchDefinitionName;

#[derive(Debug, Clone, PartialEq, Eq)]
pub struct LayoutDefinitionName;

#[derive(Debug, Clone, PartialEq, Eq)]
pub struct FixtureDefinitionName;

#[derive(Debug, Clone, PartialEq, Eq)]
pub struct CurveDefinitionName;

#[derive(Debug, Clone, PartialEq, Eq)]
pub struct EffectDefinitionName;

/// An authored effect definition has nothing compiled yet.
#[derive(Debug, Clone, Default)]
pub struct NoCompiledEffect;

/// The script text of an authored effect definition.
#[derive(Debug, Clone)]
pub struct AuthoredEffectDefinitionSource {
    pub text: String,
}

/// Where a resolved effect definition is defined.
#[derive(Debug, Clone)]
pub struct ResolvedEffectDefinitionSource {
    pub path: String,
    pub effect_name: String,
}

/// An asset path as written and the file it resolves to.
#[derive(Debug, Clone)]
pub struct ResolvedAssetPath {
    pub path: String,
    pub source: AssetPath,
}

/// An authored project has no resolved stores.
#[derive(Debug, Clone, Default)]
pub struct NoProjectStores;

/// How a controller drives its pixels.
#[derive(Debug, Clone)]
pub enum ControllerOutput {
    PatchedDmx { channel_order: RgbChannelOrder, universes: Vec<Universe> },
    LinearRgb {
        channel_order: RgbChannelOrder,
        group: GroupInstantiationId,
        output_count: usize,
        pixels_per_output: usize,
        first_universe: u32,
        slots_per_universe: usize,
    },
}

/// A point in space.
#[derive(Debug, Clone, Copy, PartialEq, Eq)]
pub struct Point3 {
    pub x: Distance,
    pub y: Distance,
    pub z: Distance,
}

/// A named, colored collection of marks of a sequence.
#[derive(Debug, Clone)]
pub struct SequenceMarkCollection {
    pub key: String,
    pub name: String,
    pub color: String,
    pub marks: Vec<Time>,
}

} // verus!
