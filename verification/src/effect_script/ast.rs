//! The syntax tree of an effect script.
use vstd::prelude::*;
use crate::effect_script::specialize::ConstantValue;
use crate::effect_script::types::{BinaryOp, EffectScriptKind, ScriptType, UnaryOp};
use crate::model::color::Color;

verus! {

/// An expression. A float literal is held by its IEEE 754 bits.
#[derive(Debug)]
pub enum Expr {
    Float(u64),
    Int(i64),
    Bool(bool),
    Color(Color),
    Ident(String),
    Unary { op: UnaryOp, expr: Box<Expr> },
    Binary { left: Box<Expr>, op: BinaryOp, right: Box<Expr> },
    Call { name: String, args: Vec<Expr> },
    Member { object: Box<Expr>, member: String },
    Qualified { alias: String, name: String },
}

/// A parameter value given to an emitted child effect.
#[derive(Debug)]
pub struct EmitParam {
    pub name: String,
    pub expr: Expr,
}

/// `emit alias.effect(params) on target at start for duration`.
#[derive(Debug)]
pub struct EmitStmt {
    pub target: Expr,
    pub start: Expr,
    pub duration: Expr,
    pub alias: String,
    pub effect: String,
    pub params: Vec<EmitParam>,
}

/// A statement.
#[derive(Debug)]
pub enum Stmt {
    Let { name: String, value_type: ScriptType, expr: Expr },
    Assign { name: String, expr: Expr },
    Expr(Expr),
    For {
        name: String,
        value_type: ScriptType,
        initializer: Expr,
        condition: Expr,
        update: Box<Stmt>,
        body: Vec<Stmt>,
    },
    If { condition: Expr, then_body: Vec<Stmt>, else_body: Vec<Stmt> },
    Return(Expr),
    Emit(EmitStmt),
}

/// The body of an effect: a sample function or a generator.
#[derive(Debug)]
pub enum EffectEntrypoint {
    Sample(Vec<Stmt>),
    Generator(Vec<Stmt>),
}

/// A declared parameter: its name, type, options (for enums and flags) and
/// default value, if any.
#[derive(Debug, Clone)]
pub struct EffectParamSchema {
    pub name: String,
    pub value_type: ScriptType,
    pub options: Vec<String>,
    pub default: Option<ConstantValue>,
}

/// A parsed effect.
#[derive(Debug)]
pub struct EffectAst {
    pub name: String,
    pub params: Vec<EffectParamSchema>,
    pub entrypoint: EffectEntrypoint,
}

/// An effect that a script imports under `alias`.
#[derive(Debug, Clone)]
pub struct ImportedEffect {
    pub alias: String,
    pub name: String,
    pub kind: EffectScriptKind,
    pub params: Vec<EffectParamSchema>,
}

/// The kind of effect an entrypoint makes.
pub open spec fn spec_kind_for_entrypoint(e: EffectEntrypoint) -> EffectScriptKind {
    match e {
        EffectEntrypoint::Sample(_) => EffectScriptKind::Sample,
        EffectEntrypoint::Generator(_) => EffectScriptKind::Generator,
    }
}

pub fn kind_for_entrypoint(e: &EffectEntrypoint) -> (k: EffectScriptKind)
    ensures
        k == spec_kind_for_entrypoint(*e),
{
    match e {
        EffectEntrypoint::Sample(_) => EffectScriptKind::Sample,
        EffectEntrypoint::Generator(_) => EffectScriptKind::Generator,
    }
}

} // verus!
