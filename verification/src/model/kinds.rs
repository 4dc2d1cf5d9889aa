//! Object kinds, identifiers and the small enumerations of the Dawn model.
use vstd::prelude::*;
use crate::model::color::ChannelRange;

verus! {

/// The kinds of object a Dawn file may export.
#[derive(Debug, Clone, Copy, PartialEq, Eq, Hash, Structural)]
pub enum ObjectKind {
    Project,
    Display,
    Controller,
    Layout,
    Fixture,
    Patch,
    Sequence,
    Curve,
    Effect,
}

/// The lowercase name of an object kind (its `type` tag in a Dawn file).
pub open spec fn spec_object_kind_label(kind: ObjectKind) -> Seq<char> {
    match kind {
        ObjectKind::Project => "project"@,
        ObjectKind::Display => "display"@,
        ObjectKind::Controller => "controller"@,
        ObjectKind::Layout => "layout"@,
        ObjectKind::Fixture => "fixture"@,
        ObjectKind::Patch => "patch"@,
        ObjectKind::Sequence => "sequence"@,
        ObjectKind::Curve => "curve"@,
        ObjectKind::Effect => "effect"@,
    }
}

impl ObjectKind {
    /// The lowercase name of this kind.
    pub fn label(self) -> (s: &'static str)
        ensures
            s@ == spec_object_kind_label(self),
    {
        match self {
            ObjectKind::Project => "project",
            ObjectKind::Display => "display",
            ObjectKind::Controller => "controller",
            ObjectKind::Layout => "layout",
            ObjectKind::Fixture => "fixture",
            ObjectKind::Patch => "patch",
            ObjectKind::Sequence => "sequence",
            ObjectKind::Curve => "curve",
            ObjectKind::Effect => "effect",
        }
    }
}

/// Identifier of an effect within a sequence.
#[derive(Debug, Clone, Copy, PartialEq, Eq, PartialOrd, Ord, Hash, Structural)]
pub struct SequenceEffectId(pub u32);

/// Identifier of a group instantiated in a layout.
#[derive(Debug, Clone, Copy, PartialEq, Eq, PartialOrd, Ord, Hash, Structural)]
pub struct GroupInstantiationId(pub u32);

/// Position of a fixture placement within a resolved layout.
#[derive(Debug, Clone, Copy, PartialEq, Eq, Hash, Structural)]
pub struct FixtureIndex(pub usize);

/// Identifier of a fixture placement.
#[derive(Debug, Clone, Copy, PartialEq, Eq, PartialOrd, Ord, Hash, Structural)]
pub struct FixtureId(pub u32);

/// Position of a controller within a resolved display.
#[derive(Debug, Clone, Copy, PartialEq, Eq, Hash, Structural)]
pub struct ControllerIndex(pub usize);

#[derive(Debug, Clone, Copy, PartialEq, Eq, Hash, Structural)]
pub enum Protocol {
    Artnet,
    Sacn,
}

#[derive(Debug, Clone, Copy, PartialEq, Eq, Hash, Structural)]
pub enum RgbChannelOrder {
    Rgb,
    Rbg,
    Grb,
    Gbr,
    Brg,
    Bgr,
}

#[derive(Debug, Clone, Copy, PartialEq, Eq, Hash, Structural)]
pub enum ColorModel {
    Rgb,
    Rgba,
    Rgbw,
    Rgbaw,
    White,
}

#[derive(Debug, Clone, Copy, PartialEq, Eq, Hash, Structural)]
pub enum LayoutTargetKind {
    Group,
    Fixture,
}

/// An entry of a layout's target order: a group or a fixture, by id.
#[derive(Debug, Clone, Copy, PartialEq, Eq, Hash, Structural)]
pub struct LayoutTargetRef {
    pub kind: LayoutTargetKind,
    pub id: u32,
}

#[derive(Debug, Clone, Copy, PartialEq, Eq, Hash, Structural)]
pub enum SequenceEffectScope {
    PerFixture,
    WholeTarget,
}

#[derive(Debug, Clone, Copy, PartialEq, Eq, Structural)]
pub enum CurveValueType {
    Float,
    Color,
}

#[derive(Debug, Clone, Copy, PartialEq, Eq, Hash, Structural)]
pub enum ArrayElementType {
    Int,
    Float,
    Bool,
    Color,
    CurveFloat,
    CurveColor,
}

/// The selected options of a `flags` parameter.
#[derive(Debug, Clone, PartialEq, Eq)]
pub struct Flags {
    pub values: Vec<String>,
}

/// `from: path` imported `as: alias`.
#[derive(Debug, Clone, PartialEq, Eq, Default)]
pub struct DawnImport {
    pub from: String,
    pub alias: String,
}

/// A DMX universe that a controller drives, with its channel range.
#[derive(Debug, Clone, Copy, PartialEq, Eq)]
pub struct Universe {
    pub id: u32,
    pub range: ChannelRange,
}

} // verus!
