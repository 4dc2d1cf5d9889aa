//! The type checker of effect scripts: the type of every expression, the
//! scoping of locals, and the rules for statements, returns and emitted child
//! effects. Every error found is reported, in the order the checker meets it.
use vstd::prelude::*;
use crate::effect_script::ast::{
    EffectAst, EffectEntrypoint, EffectParamSchema, EmitParam, EmitStmt, Expr, ImportedEffect, Stmt,
    kind_for_entrypoint, spec_kind_for_entrypoint,
};
use crate::effect_script::builtins::{BuiltinFunction, function_named, spec_return_type_for_kind};
use crate::effect_script::diag::ScriptDiagnostic;
use crate::effect_script::types::{
    EffectScriptKind, ScriptType, UnaryOp, binary_result_type, is_assignable, is_float_compatible,
    spec_binary_result_type, spec_is_assignable, spec_is_float_compatible, spec_script_type_label,
};
use crate::text::{concat, concat3, str_eq};

verus! {

/// What a name stands for in a script: a value of a type, which locals may
/// reassign.
#[derive(Debug, Clone, Copy, PartialEq, Eq, Structural)]
pub struct Binding {
    pub value_type: ScriptType,
    pub mutable: bool,
}

pub open spec fn readonly(value_type: ScriptType) -> Binding {
    Binding { value_type, mutable: false }
}

/// The binding of `name`: the latest one made and not yet out of scope.
pub open spec fn lookup(bs: Seq<(Seq<char>, Binding)>, name: Seq<char>) -> Option<Binding>
    decreases bs.len(),
{
    if bs.len() == 0 {
        None
    } else if bs.last().0 == name {
        Some(bs.last().1)
    } else {
        lookup(bs.drop_last(), name)
    }
}

pub open spec fn label(t: ScriptType) -> Seq<char> {
    spec_script_type_label(t)
}

/// What typing an expression gives: its type and the errors found, in order.
pub open spec fn spec_expr_type(
    kind: EffectScriptKind,
    imports: Seq<ImportedEffect>,
    bs: Seq<(Seq<char>, Binding)>,
    e: Expr,
) -> (ScriptType, Seq<Seq<char>>)
    decreases e,
{
    match e {
        Expr::Float(_) => (ScriptType::Float, seq![]),
        Expr::Int(_) => (ScriptType::Int, seq![]),
        Expr::Bool(_) => (ScriptType::Bool, seq![]),
        Expr::Color(_) => (ScriptType::Color, seq![]),
        Expr::Ident(name) => match lookup(bs, name@) {
            Some(b) => (b.value_type, seq![]),
            None => (ScriptType::Void, seq!["unknown identifier `"@ + name@ + "`"@]),
        },
        Expr::Unary { op, expr } => {
            let (inner, errs) = spec_expr_type(kind, imports, bs, *expr);
            match op {
                UnaryOp::Negate => if spec_is_float_compatible(inner) {
                    (inner, errs)
                } else {
                    (ScriptType::Void, errs.push("cannot negate "@ + label(inner)))
                },
                UnaryOp::Not => if inner == ScriptType::Bool {
                    (ScriptType::Bool, errs)
                } else {
                    (ScriptType::Void, errs.push("cannot apply ! to "@ + label(inner)))
                },
            }
        },
        Expr::Binary { left, op, right } => {
            let (l, errs1) = spec_expr_type(kind, imports, bs, *left);
            let (r, errs2) = spec_expr_type(kind, imports, bs, *right);
            match spec_binary_result_type(l, op, r) {
                Some(t) => (t, errs1 + errs2),
                None => (
                    ScriptType::Void,
                    (errs1 + errs2).push("cannot apply binary operator to "@ + label(l) + " and "@ + label(r)),
                ),
            }
        },
        Expr::Call { name, args } => match lookup(bs, name@) {
            Some(b) => if args@.len() != 1 {
                (ScriptType::Void, seq!["curve parameter `"@ + name@ + "` expects one argument"@])
            } else if b.value_type == ScriptType::CurveFloat || b.value_type == ScriptType::CurveColor {
                let (arg, errs) = spec_expr_type(kind, imports, bs, args@[0]);
                let errs2 = if spec_is_float_compatible(arg) {
                    errs
                } else {
                    errs.push("curve parameter `"@ + name@ + "` expects a float argument"@)
                };
                (if b.value_type == ScriptType::CurveFloat {
                    ScriptType::Float
                } else {
                    ScriptType::Color
                }, errs2)
            } else {
                (ScriptType::Void, seq!["`"@ + name@ + "` is not callable"@])
            },
            None => {
                let (types, errs) = spec_args_types(kind, imports, bs, args@);
                match builtin_call_type(name@, types, kind) {
                    Some(t) => (t, errs),
                    None => (ScriptType::Void, errs.push("unknown function or invalid call `"@ + name@ + "`"@)),
                }
            },
        },
        Expr::Member { object, member } => {
            let (t, errs) = spec_expr_type(kind, imports, bs, *object);
            match member_type(t, member@) {
                Some(m) => (m, errs),
                None => (ScriptType::Void, errs.push("type "@ + label(t) + " has no member `"@ + member@ + "`"@)),
            }
        },
        Expr::Qualified { alias, name } => if imports_effect(imports, alias@, name@) {
            (ScriptType::Void, seq![])
        } else {
            (ScriptType::Void, seq!["unresolved effect `"@ + alias@ + "."@ + name@ + "`"@])
        },
    }
}

/// Typing the arguments of a call, left to right.
pub open spec fn spec_args_types(
    kind: EffectScriptKind,
    imports: Seq<ImportedEffect>,
    bs: Seq<(Seq<char>, Binding)>,
    args: Seq<Expr>,
) -> (Seq<ScriptType>, Seq<Seq<char>>)
    decreases args,
{
    if args.len() == 0 {
        (seq![], seq![])
    } else {
        let (ts, errs) = spec_args_types(kind, imports, bs, args.drop_last());
        let (t, errs2) = spec_expr_type(kind, imports, bs, args.last());
        (ts.push(t), errs + errs2)
    }
}

/// The type a builtin function called `name` returns for the argument types,
/// when it accepts them.
pub open spec fn builtin_call_type(name: Seq<char>, args: Seq<ScriptType>, kind: EffectScriptKind) -> Option<
    ScriptType,
> {
    match function_named(name) {
        Some(f) => spec_return_type_for_kind(f, args, kind),
        None => None,
    }
}

/// The type of a member of a value of type `t`.
pub open spec fn member_type(t: ScriptType, member: Seq<char>) -> Option<ScriptType> {
    if t == ScriptType::TargetItem && member == "target"@ {
        Some(ScriptType::Target)
    } else if t == ScriptType::TargetItem && (member == "index"@ || member == "count"@ || member == "position"@
        || member == "fixture_index"@ || member == "pixel_start"@ || member == "pixel_count"@) {
        Some(ScriptType::Int)
    } else {
        None
    }
}

/// Some import is the effect `name` under `alias`.
pub open spec fn imports_effect(imports: Seq<ImportedEffect>, alias: Seq<char>, name: Seq<char>) -> bool {
    exists|i: int| 0 <= i < imports.len() && #[trigger] imports[i].alias@ == alias && imports[i].name@ == name
}

pub open spec fn bindings_view(bs: Seq<(String, Binding)>) -> Seq<(Seq<char>, Binding)> {
    bs.map_values(|e: (String, Binding)| (e.0@, e.1))
}

pub open spec fn messages_view(ms: Seq<String>) -> Seq<Seq<char>> {
    ms.map_values(|m: String| m@)
}

/// The state of a type check: the kind of effect, the bindings in scope (the
/// outermost first), where each open inner scope starts, and the errors so
/// far.
pub struct TypeChecker {
    pub kind: EffectScriptKind,
    pub bindings: Vec<(String, Binding)>,
    pub scope_starts: Vec<usize>,
    pub errors: Vec<String>,
}

impl TypeChecker {
    pub open spec fn bs(&self) -> Seq<(Seq<char>, Binding)> {
        bindings_view(self.bindings@)
    }

    pub open spec fn errs(&self) -> Seq<Seq<char>> {
        messages_view(self.errors@)
    }

    fn lookup_binding(&self, name: &str) -> (r: Option<Binding>)
        ensures
            r == lookup(self.bs(), name@),
    {
        let mut i = self.bindings.len();
        assert(self.bs().subrange(0, i as int) =~= self.bs());
        while i > 0
            invariant
                i <= self.bindings@.len(),
                lookup(self.bs(), name@) == lookup(self.bs().subrange(0, i as int), name@),
            decreases i,
        {
            let ghost sub = self.bs().subrange(0, i as int);
            assert(sub.drop_last() =~= self.bs().subrange(0, i - 1));
            assert(sub.last() == (self.bindings@[i - 1].0@, self.bindings@[i - 1].1));
            if str_eq(self.bindings[i - 1].0.as_str(), name) {
                return Some(self.bindings[i - 1].1);
            }
            i -= 1;
        }
        None
    }

    fn error(&mut self, message: String)
        ensures
            final(self).errs() == old(self).errs().push(message@),
            final(self).bindings == old(self).bindings,
            final(self).scope_starts == old(self).scope_starts,
            final(self).kind == old(self).kind,
    {
        self.errors.push(message);
        assert(self.errs() =~= old(self).errs().push(message@));
    }

    /// The type of `expr`; errors found are added.
    fn expr_type(&mut self, imports: &Vec<ImportedEffect>, expr: &Expr) -> (t: ScriptType)
        ensures
            ({
                let (st, errs) = spec_expr_type(old(self).kind, imports@, old(self).bs(), *expr);
                t == st && final(self).errs() == old(self).errs() + errs
            }),
            final(self).bindings == old(self).bindings,
            final(self).scope_starts == old(self).scope_starts,
            final(self).kind == old(self).kind,
        decreases *expr,
    {
        let ghost e0 = old(self).errs();
        match expr {
            Expr::Float(_) => {
                assert(self.errs() =~= e0 + seq![]);
                ScriptType::Float
            },
            Expr::Int(_) => {
                assert(self.errs() =~= e0 + seq![]);
                ScriptType::Int
            },
            Expr::Bool(_) => {
                assert(self.errs() =~= e0 + seq![]);
                ScriptType::Bool
            },
            Expr::Color(_) => {
                assert(self.errs() =~= e0 + seq![]);
                ScriptType::Color
            },
            Expr::Ident(name) => match self.lookup_binding(name.as_str()) {
                Some(b) => {
                    assert(self.errs() =~= e0 + seq![]);
                    b.value_type
                },
                None => {
                    let m = concat3("unknown identifier `", name.as_str(), "`");
                    self.error(m);
                    assert(self.errs() =~= e0 + seq!["unknown identifier `"@ + name@ + "`"@]);
                    ScriptType::Void
                },
            },
            Expr::Unary { op, expr: inner_expr } => {
                let inner = self.expr_type(imports, inner_expr);
                match op {
                    UnaryOp::Negate => {
                        if is_float_compatible(inner) {
                            inner
                        } else {
                            let m = concat("cannot negate ", inner.label().as_str());
                            self.error(m);
                            assert(self.errs() =~= e0 + spec_expr_type(old(self).kind, imports@, old(self).bs(), *expr).1);
                            ScriptType::Void
                        }
                    },
                    UnaryOp::Not => {
                        if inner == ScriptType::Bool {
                            ScriptType::Bool
                        } else {
                            let m = concat("cannot apply ! to ", inner.label().as_str());
                            self.error(m);
                            assert(self.errs() =~= e0 + spec_expr_type(old(self).kind, imports@, old(self).bs(), *expr).1);
                            ScriptType::Void
                        }
                    },
                }
            },
            Expr::Binary { left, op, right } => {
                let l = self.expr_type(imports, left);
                let r = self.expr_type(imports, right);
                match binary_result_type(l, *op, r) {
                    Some(t) => {
                        assert(self.errs() =~= e0 + spec_expr_type(old(self).kind, imports@, old(self).bs(), *expr).1);
                        t
                    },
                    None => {
                        let ll = l.label();
                        let rl = r.label();
                        let head = concat3("cannot apply binary operator to ", ll.as_str(), " and ");
                        let m = concat(head.as_str(), rl.as_str());
                        self.error(m);
                        assert(self.errs() =~= e0 + spec_expr_type(old(self).kind, imports@, old(self).bs(), *expr).1);
                        ScriptType::Void
                    },
                }
            },
            Expr::Call { name, args } => self.call_type(imports, name, args),
            Expr::Member { object, member } => {
                let t = self.expr_type(imports, object);
                match member_type_exec(t, member.as_str()) {
                    Some(m) => m,
                    None => {
                        let head = concat3("type ", t.label().as_str(), " has no member `");
                        let m = concat(head.as_str(), member.as_str());
                        let m = concat(m.as_str(), "`");
                        self.error(m);
                        assert(self.errs() =~= e0 + spec_expr_type(old(self).kind, imports@, old(self).bs(), *expr).1);
                        ScriptType::Void
                    },
                }
            },
            Expr::Qualified { alias, name } => {
                if has_import(imports, alias.as_str(), name.as_str()) {
                    assert(self.errs() =~= e0 + seq![]);
                } else {
                    let head = concat3("unresolved effect `", alias.as_str(), ".");
                    let m = concat3(head.as_str(), name.as_str(), "`");
                    self.error(m);
                    assert(self.errs() =~= e0 + spec_expr_type(old(self).kind, imports@, old(self).bs(), *expr).1);
                }
                ScriptType::Void
            },
        }
    }

    /// The type of a call of `name`; errors found are added.
    fn call_type(&mut self, imports: &Vec<ImportedEffect>, name: &String, args: &Vec<Expr>) -> (t: ScriptType)
        ensures
            ({
                let (st, errs) = spec_expr_type(
                    old(self).kind,
                    imports@,
                    old(self).bs(),
                    Expr::Call { name: *name, args: *args },
                );
                t == st && final(self).errs() == old(self).errs() + errs
            }),
            final(self).bindings == old(self).bindings,
            final(self).scope_starts == old(self).scope_starts,
            final(self).kind == old(self).kind,
        decreases *args, 1int,
    {
        let ghost e0 = old(self).errs();
        let ghost whole = Expr::Call { name: *name, args: *args };
        let ghost spec = spec_expr_type(old(self).kind, imports@, old(self).bs(), whole);
        match self.lookup_binding(name.as_str()) {
            Some(b) => {
                if args.len() != 1 {
                    let m = concat3("curve parameter `", name.as_str(), "` expects one argument");
                    self.error(m);
                    assert(self.errs() =~= e0 + spec.1);
                    return ScriptType::Void;
                }
                if b.value_type == ScriptType::CurveFloat || b.value_type == ScriptType::CurveColor {
                    let arg = self.expr_type(imports, &args[0]);
                    if !is_float_compatible(arg) {
                        let m = concat3("curve parameter `", name.as_str(), "` expects a float argument");
                        self.error(m);
                    }
                    assert(self.errs() =~= e0 + spec.1);
                    if b.value_type == ScriptType::CurveFloat {
                        ScriptType::Float
                    } else {
                        ScriptType::Color
                    }
                } else {
                    let m = concat3("`", name.as_str(), "` is not callable");
                    self.error(m);
                    assert(self.errs() =~= e0 + spec.1);
                    ScriptType::Void
                }
            },
            None => {
                let mut types: Vec<ScriptType> = Vec::new();
                let mut i: usize = 0;
                while i < args.len()
                    invariant
                        i <= args@.len(),
                        self.bindings == old(self).bindings,
                        self.scope_starts == old(self).scope_starts,
                        self.kind == old(self).kind,
                        ({
                            let (ts, errs) = spec_args_types(
                                old(self).kind,
                                imports@,
                                old(self).bs(),
                                args@.subrange(0, i as int),
                            );
                            types@ == ts && self.errs() == e0 + errs
                        }),
                    decreases args@.len() - i,
                {
                    assert(args@.subrange(0, i + 1).drop_last() =~= args@.subrange(0, i as int));
                    assert(args@.subrange(0, i + 1).last() == args@[i as int]);
                    let ghost before = self.errs();
                    let t = self.expr_type(imports, &args[i]);
                    types.push(t);
                    i += 1;
                    proof {
                        let (ts, errs) = spec_args_types(
                            old(self).kind,
                            imports@,
                            old(self).bs(),
                            args@.subrange(0, i as int),
                        );
                        assert(self.errs() =~= e0 + errs);
                    }
                }
                assert(args@.subrange(0, args@.len() as int) =~= args@);
                let value_type = match BuiltinFunction::from_name(name.as_str()) {
                    Some(f) => f.return_type_for_kind(types.as_slice(), self.kind),
                    None => None,
                };
                match value_type {
                    Some(t) => t,
                    None => {
                        let m = concat3("unknown function or invalid call `", name.as_str(), "`");
                        self.error(m);
                        assert(self.errs() =~= e0 + spec.1);
                        ScriptType::Void
                    },
                }
            },
        }
    }
}

fn member_type_exec(t: ScriptType, member: &str) -> (r: Option<ScriptType>)
    ensures
        r == member_type(t, member@),
{
    if t == ScriptType::TargetItem {
        if str_eq(member, "target") {
            return Some(ScriptType::Target);
        }
        if str_eq(member, "index") || str_eq(member, "count") || str_eq(member, "position") || str_eq(
            member,
            "fixture_index",
        ) || str_eq(member, "pixel_start") || str_eq(member, "pixel_count") {
            return Some(ScriptType::Int);
        }
    }
    None
}

fn has_import(imports: &Vec<ImportedEffect>, alias: &str, name: &str) -> (r: bool)
    ensures
        r == imports_effect(imports@, alias@, name@),
{
    let mut i: usize = 0;
    while i < imports.len()
        invariant
            i <= imports@.len(),
            forall|j: int| 0 <= j < i ==> !(#[trigger] imports@[j].alias@ == alias@ && imports@[j].name@ == name@),
        decreases imports@.len() - i,
    {
        if str_eq(imports[i].alias.as_str(), alias) && str_eq(imports[i].name.as_str(), name) {
            return true;
        }
        i += 1;
    }
    false
}

/// The state a statement is checked in and leaves: the bindings in scope, where
/// each open inner scope starts, the errors so far, and whether a return was
/// seen.
pub struct TcState {
    pub bs: Seq<(Seq<char>, Binding)>,
    pub starts: Seq<usize>,
    pub errs: Seq<Seq<char>>,
    pub saw_return: bool,
}

pub open spec fn with_errs(st: TcState, errs: Seq<Seq<char>>) -> TcState {
    TcState { bs: st.bs, starts: st.starts, errs, saw_return: st.saw_return }
}

pub open spec fn push_scope(st: TcState) -> TcState {
    TcState { bs: st.bs, starts: st.starts.push(st.bs.len() as usize), errs: st.errs, saw_return: st.saw_return }
}

/// Closing the innermost scope drops the bindings made in it.
pub open spec fn pop_scope(st: TcState) -> TcState {
    if st.starts.len() == 0 {
        st
    } else {
        let start = st.starts.last();
        TcState {
            bs: if start <= st.bs.len() {
                st.bs.subrange(0, start as int)
            } else {
                st.bs
            },
            starts: st.starts.drop_last(),
            errs: st.errs,
            saw_return: st.saw_return,
        }
    }
}

/// Adds the errors of typing `e` and gives its type.
pub open spec fn typed(kind: EffectScriptKind, imports: Seq<ImportedEffect>, st: TcState, e: Expr) -> (
    ScriptType,
    TcState,
) {
    let (t, errs) = spec_expr_type(kind, imports, st.bs, e);
    (t, with_errs(st, st.errs + errs))
}

pub open spec fn spec_check_let(
    kind: EffectScriptKind,
    imports: Seq<ImportedEffect>,
    st: TcState,
    name: Seq<char>,
    value_type: ScriptType,
    e: Expr,
) -> TcState {
    let (actual, st1) = typed(kind, imports, st, e);
    let errs = if spec_is_assignable(value_type, actual) {
        st1.errs
    } else {
        st1.errs.push(
            "local `"@ + name + "` is declared as "@ + label(value_type) + ", but expression is "@ + label(actual),
        )
    };
    TcState {
        bs: st1.bs.push((name, Binding { value_type, mutable: true })),
        starts: st1.starts,
        errs,
        saw_return: st1.saw_return,
    }
}

pub open spec fn spec_check_assign(
    kind: EffectScriptKind,
    imports: Seq<ImportedEffect>,
    st: TcState,
    name: Seq<char>,
    e: Expr,
) -> TcState {
    let (actual, st1) = typed(kind, imports, st, e);
    match lookup(st1.bs, name) {
        None => with_errs(st1, st1.errs.push("unknown local `"@ + name + "`"@)),
        Some(b) => if !b.mutable {
            with_errs(st1, st1.errs.push("`"@ + name + "` cannot be assigned"@))
        } else if !spec_is_assignable(b.value_type, actual) {
            with_errs(
                st1,
                st1.errs.push(
                    "local `"@ + name + "` is declared as "@ + label(b.value_type) + ", but assignment is "@ + label(
                        actual,
                    ),
                ),
            )
        } else {
            st1
        },
    }
}

/// The first import that is the effect `name` under `alias`.
pub open spec fn find_import(imports: Seq<ImportedEffect>, alias: Seq<char>, name: Seq<char>, i: int) -> Option<
    ImportedEffect,
>
    decreases imports.len() - i,
{
    if i < 0 || i >= imports.len() {
        None
    } else if imports[i].alias@ == alias && imports[i].name@ == name {
        Some(imports[i])
    } else {
        find_import(imports, alias, name, i + 1)
    }
}

/// The first parameter schema called `name`.
pub open spec fn find_schema(schemas: Seq<EffectParamSchema>, name: Seq<char>, i: int) -> Option<EffectParamSchema>
    decreases schemas.len() - i,
{
    if i < 0 || i >= schemas.len() {
        None
    } else if schemas[i].name@ == name {
        Some(schemas[i])
    } else {
        find_schema(schemas, name, i + 1)
    }
}

pub open spec fn emitted_name(emit: EmitStmt) -> Seq<char> {
    emit.alias@ + "."@ + emit.effect@
}

/// Checking the parameter values given to an emitted child against its
/// schemas, left to right.
pub open spec fn spec_check_emit_params(
    kind: EffectScriptKind,
    imports: Seq<ImportedEffect>,
    st: TcState,
    emit: EmitStmt,
    schemas: Seq<EffectParamSchema>,
    params: Seq<EmitParam>,
) -> TcState
    decreases params.len(),
{
    if params.len() == 0 {
        st
    } else {
        let st1 = spec_check_emit_params(kind, imports, st, emit, schemas, params.drop_last());
        let param = params.last();
        match find_schema(schemas, param.name@, 0) {
            None => with_errs(
                st1,
                st1.errs.push(
                    "emitted effect `"@ + emitted_name(emit) + "` has no parameter `"@ + param.name@ + "`"@,
                ),
            ),
            Some(schema) => {
                let (actual, st2) = typed(kind, imports, st1, param.expr);
                if spec_is_assignable(schema.value_type, actual) {
                    st2
                } else {
                    with_errs(
                        st2,
                        st2.errs.push(
                            "emitted parameter `"@ + param.name@ + "` must be "@ + label(schema.value_type)
                                + ", but found "@ + label(actual),
                        ),
                    )
                }
            },
        }
    }
}

pub open spec fn emit_gives(params: Seq<EmitParam>, name: Seq<char>) -> bool {
    exists|i: int| 0 <= i < params.len() && #[trigger] params[i].name@ == name
}

/// Reporting each parameter without a default that the emit does not give.
pub open spec fn spec_check_required(st: TcState, schemas: Seq<EffectParamSchema>, params: Seq<EmitParam>) -> TcState
    decreases schemas.len(),
{
    if schemas.len() == 0 {
        st
    } else {
        let st1 = spec_check_required(st, schemas.drop_last(), params);
        let schema = schemas.last();
        if schema.default is None && !emit_gives(params, schema.name@) {
            with_errs(st1, st1.errs.push("emitted effect is missing required parameter `"@ + schema.name@ + "`"@))
        } else {
            st1
        }
    }
}

pub open spec fn spec_check_emit(kind: EffectScriptKind, imports: Seq<ImportedEffect>, st: TcState, emit: EmitStmt) -> TcState {
    if kind != EffectScriptKind::Generator {
        with_errs(st, st.errs.push("only generator effects can emit child effects"@))
    } else {
        let (t, st1) = typed(kind, imports, st, emit.target);
        let st2 = if t != ScriptType::Target {
            with_errs(st1, st1.errs.push("emit target must be Target"@))
        } else {
            st1
        };
        let (ts, st3) = typed(kind, imports, st2, emit.start);
        let st4 = if !spec_is_float_compatible(ts) {
            with_errs(st3, st3.errs.push("emit start must be float"@))
        } else {
            st3
        };
        let (td, st5) = typed(kind, imports, st4, emit.duration);
        let st6 = if !spec_is_float_compatible(td) {
            with_errs(st5, st5.errs.push("emit duration must be float"@))
        } else {
            st5
        };
        match find_import(imports, emit.alias@, emit.effect@, 0) {
            None => with_errs(st6, st6.errs.push("unresolved emitted effect `"@ + emitted_name(emit) + "`"@)),
            Some(child) => if child.kind != EffectScriptKind::Sample {
                with_errs(
                    st6,
                    st6.errs.push("generator cannot emit generator effect `"@ + emitted_name(emit) + "`"@),
                )
            } else {
                let st7 = spec_check_emit_params(kind, imports, st6, emit, child.params@, emit.params@);
                spec_check_required(st7, child.params@, emit.params@)
            },
        }
    }
}

/// Checking one statement.
pub open spec fn spec_check_stmt(kind: EffectScriptKind, imports: Seq<ImportedEffect>, st: TcState, s: Stmt) -> TcState
    decreases s,
{
    match s {
        Stmt::Let { name, value_type, expr } => spec_check_let(kind, imports, st, name@, value_type, expr),
        Stmt::Assign { name, expr } => spec_check_assign(kind, imports, st, name@, expr),
        Stmt::Expr(e) => typed(kind, imports, st, e).1,
        Stmt::For { name, value_type, initializer, condition, update, body } => {
            let st1 = spec_check_let(kind, imports, push_scope(st), name@, value_type, initializer);
            let (t, st2) = typed(kind, imports, st1, condition);
            let st3 = if t != ScriptType::Bool {
                with_errs(st2, st2.errs.push("for loop condition must be bool, but found "@ + label(t)))
            } else {
                st2
            };
            let st4 = spec_check_stmt(kind, imports, st3, *update);
            let st5 = spec_check_stmts(kind, imports, push_scope(st4), body@);
            pop_scope(pop_scope(st5))
        },
        Stmt::If { condition, then_body, else_body } => {
            let (t, st1) = typed(kind, imports, st, condition);
            let st2 = if t != ScriptType::Bool {
                with_errs(st1, st1.errs.push("if condition must be bool, but found "@ + label(t)))
            } else {
                st1
            };
            let st3 = pop_scope(spec_check_stmts(kind, imports, push_scope(st2), then_body@));
            pop_scope(spec_check_stmts(kind, imports, push_scope(st3), else_body@))
        },
        Stmt::Return(e) => if kind == EffectScriptKind::Generator {
            with_errs(st, st.errs.push("generator entrypoints cannot return values"@))
        } else {
            let (t, st1) = typed(kind, imports, st, e);
            let st2 = TcState { bs: st1.bs, starts: st1.starts, errs: st1.errs, saw_return: true };
            if t != ScriptType::Color {
                with_errs(st2, st2.errs.push("sample must return color, but returned "@ + label(t)))
            } else {
                st2
            }
        },
        Stmt::Emit(emit) => spec_check_emit(kind, imports, st, emit),
    }
}

/// Checking statements in order.
pub open spec fn spec_check_stmts(
    kind: EffectScriptKind,
    imports: Seq<ImportedEffect>,
    st: TcState,
    ss: Seq<Stmt>,
) -> TcState
    decreases ss,
{
    if ss.len() == 0 {
        st
    } else {
        spec_check_stmt(kind, imports, spec_check_stmts(kind, imports, st, ss.drop_last()), ss.last())
    }
}

fn find_import_index(imports: &Vec<ImportedEffect>, alias: &str, name: &str) -> (r: Option<usize>)
    ensures
        r matches Some(i) ==> i < imports@.len() && find_import(imports@, alias@, name@, 0) == Some(imports@[i as int]),
        r is None ==> find_import(imports@, alias@, name@, 0) is None,
{
    let mut i: usize = 0;
    while i < imports.len()
        invariant
            i <= imports@.len(),
            find_import(imports@, alias@, name@, 0) == find_import(imports@, alias@, name@, i as int),
        decreases imports@.len() - i,
    {
        if str_eq(imports[i].alias.as_str(), alias) && str_eq(imports[i].name.as_str(), name) {
            return Some(i);
        }
        i += 1;
    }
    None
}

fn find_schema_index(schemas: &Vec<EffectParamSchema>, name: &str) -> (r: Option<usize>)
    ensures
        r matches Some(i) ==> i < schemas@.len() && find_schema(schemas@, name@, 0) == Some(schemas@[i as int]),
        r is None ==> find_schema(schemas@, name@, 0) is None,
{
    let mut i: usize = 0;
    while i < schemas.len()
        invariant
            i <= schemas@.len(),
            find_schema(schemas@, name@, 0) == find_schema(schemas@, name@, i as int),
        decreases schemas@.len() - i,
    {
        if str_eq(schemas[i].name.as_str(), name) {
            return Some(i);
        }
        i += 1;
    }
    None
}

fn gives_param(params: &Vec<EmitParam>, name: &str) -> (r: bool)
    ensures
        r == emit_gives(params@, name@),
{
    let mut i: usize = 0;
    while i < params.len()
        invariant
            i <= params@.len(),
            forall|j: int| 0 <= j < i ==> #[trigger] params@[j].name@ != name@,
        decreases params@.len() - i,
    {
        if str_eq(params[i].name.as_str(), name) {
            return true;
        }
        i += 1;
    }
    false
}

impl TypeChecker {
    pub open spec fn state(&self, saw: bool) -> TcState {
        TcState { bs: self.bs(), starts: self.scope_starts@, errs: self.errs(), saw_return: saw }
    }

    fn push_scope(&mut self)
        ensures
            final(self).state(false) == push_scope(old(self).state(false)),
            final(self).kind == old(self).kind,
    {
        let n = self.bindings.len();
        self.scope_starts.push(n);
    }

    fn pop_scope(&mut self)
        ensures
            final(self).state(false) == pop_scope(old(self).state(false)),
            final(self).kind == old(self).kind,
    {
        match self.scope_starts.pop() {
            Some(start) => {
                let ghost before = self.bindings@;
                self.bindings.truncate(start);
                proof {
                    if start <= before.len() {
                        assert(self.bs() =~= bindings_view(before).subrange(0, start as int));
                    }
                }
            },
            None => {},
        }
    }

    fn type_of(&mut self, imports: &Vec<ImportedEffect>, expr: &Expr, saw: bool) -> (t: ScriptType)
        ensures
            (t, final(self).state(saw)) == typed(old(self).kind, imports@, old(self).state(saw), *expr),
            final(self).kind == old(self).kind,
    {
        self.expr_type(imports, expr)
    }

    fn report(&mut self, message: String, saw: bool)
        ensures
            final(self).state(saw) == with_errs(old(self).state(saw), old(self).state(saw).errs.push(message@)),
            final(self).kind == old(self).kind,
    {
        self.error(message);
    }

    fn check_let(&mut self, imports: &Vec<ImportedEffect>, name: &String, value_type: ScriptType, expr: &Expr, saw: bool)
        ensures
            final(self).state(saw) == spec_check_let(old(self).kind, imports@, old(self).state(saw), name@, value_type, *expr),
            final(self).kind == old(self).kind,
    {
        let actual = self.type_of(imports, expr, saw);
        if !is_assignable(value_type, actual) {
            let head = concat3("local `", name.as_str(), "` is declared as ");
            let mid = concat3(head.as_str(), value_type.label().as_str(), ", but expression is ");
            let m = concat(mid.as_str(), actual.label().as_str());
            self.report(m, saw);
        }
        let ghost before = self.bindings@;
        self.bindings.push((name.clone(), Binding { value_type, mutable: true }));
        assert(self.bs() =~= bindings_view(before).push((name@, Binding { value_type, mutable: true })));
    }

    fn check_assign(&mut self, imports: &Vec<ImportedEffect>, name: &String, expr: &Expr, saw: bool)
        ensures
            final(self).state(saw) == spec_check_assign(old(self).kind, imports@, old(self).state(saw), name@, *expr),
            final(self).kind == old(self).kind,
    {
        let actual = self.type_of(imports, expr, saw);
        match self.lookup_binding(name.as_str()) {
            None => {
                let m = concat3("unknown local `", name.as_str(), "`");
                self.report(m, saw);
            },
            Some(b) => {
                if !b.mutable {
                    let m = concat3("`", name.as_str(), "` cannot be assigned");
                    self.report(m, saw);
                } else if !is_assignable(b.value_type, actual) {
                    let head = concat3("local `", name.as_str(), "` is declared as ");
                    let mid = concat3(head.as_str(), b.value_type.label().as_str(), ", but assignment is ");
                    let m = concat(mid.as_str(), actual.label().as_str());
                    self.report(m, saw);
                }
            },
        }
    }

    fn check_emit(&mut self, imports: &Vec<ImportedEffect>, emit: &EmitStmt, saw: bool)
        ensures
            final(self).state(saw) == spec_check_emit(old(self).kind, imports@, old(self).state(saw), *emit),
            final(self).kind == old(self).kind,
    {
        if self.kind != EffectScriptKind::Generator {
            self.report(String::from_str("only generator effects can emit child effects"), saw);
            return;
        }
        let t = self.type_of(imports, &emit.target, saw);
        if t != ScriptType::Target {
            self.report(String::from_str("emit target must be Target"), saw);
        }
        let ts = self.type_of(imports, &emit.start, saw);
        if !is_float_compatible(ts) {
            self.report(String::from_str("emit start must be float"), saw);
        }
        let td = self.type_of(imports, &emit.duration, saw);
        if !is_float_compatible(td) {
            self.report(String::from_str("emit duration must be float"), saw);
        }
        let head = concat3(emit.alias.as_str(), ".", emit.effect.as_str());
        let child_index = match find_import_index(imports, emit.alias.as_str(), emit.effect.as_str()) {
            Some(i) => i,
            None => {
                let m = concat3("unresolved emitted effect `", head.as_str(), "`");
                self.report(m, saw);
                return;
            },
        };
        let child = &imports[child_index];
        if child.kind != EffectScriptKind::Sample {
            let m = concat3("generator cannot emit generator effect `", head.as_str(), "`");
            self.report(m, saw);
            return;
        }
        let ghost st6 = self.state(saw);
        let mut i: usize = 0;
        while i < emit.params.len()
            invariant
                i <= emit.params@.len(),
                self.kind == old(self).kind,
                head@ == emitted_name(*emit),
                child == imports@[child_index as int],
                self.state(saw) == spec_check_emit_params(
                    self.kind,
                    imports@,
                    st6,
                    *emit,
                    child.params@,
                    emit.params@.subrange(0, i as int),
                ),
            decreases emit.params@.len() - i,
        {
            assert(emit.params@.subrange(0, i + 1).drop_last() =~= emit.params@.subrange(0, i as int));
            assert(emit.params@.subrange(0, i + 1).last() == emit.params@[i as int]);
            let param = &emit.params[i];
            match find_schema_index(&child.params, param.name.as_str()) {
                None => {
                    let a = concat3("emitted effect `", head.as_str(), "` has no parameter `");
                    let m = concat3(a.as_str(), param.name.as_str(), "`");
                    self.report(m, saw);
                },
                Some(k) => {
                    let schema = &child.params[k];
                    let actual = self.type_of(imports, &param.expr, saw);
                    if !is_assignable(schema.value_type, actual) {
                        let a = concat3("emitted parameter `", param.name.as_str(), "` must be ");
                        let b = concat3(a.as_str(), schema.value_type.label().as_str(), ", but found ");
                        let m = concat(b.as_str(), actual.label().as_str());
                        self.report(m, saw);
                    }
                },
            }
            i += 1;
        }
        assert(emit.params@.subrange(0, emit.params@.len() as int) =~= emit.params@);
        let ghost st7 = self.state(saw);
        let mut k: usize = 0;
        while k < child.params.len()
            invariant
                k <= child.params@.len(),
                self.kind == old(self).kind,
                self.state(saw) == spec_check_required(st7, child.params@.subrange(0, k as int), emit.params@),
            decreases child.params@.len() - k,
        {
            assert(child.params@.subrange(0, k + 1).drop_last() =~= child.params@.subrange(0, k as int));
            assert(child.params@.subrange(0, k + 1).last() == child.params@[k as int]);
            let schema = &child.params[k];
            if schema.default.is_none() && !gives_param(&emit.params, schema.name.as_str()) {
                let m = concat3("emitted effect is missing required parameter `", schema.name.as_str(), "`");
                self.report(m, saw);
            }
            k += 1;
        }
        assert(child.params@.subrange(0, child.params@.len() as int) =~= child.params@);
    }
}

impl TypeChecker {
    fn check_statement(&mut self, imports: &Vec<ImportedEffect>, statement: &Stmt, saw_return: &mut bool)
        ensures
            final(self).state(*final(saw_return)) == spec_check_stmt(
                old(self).kind,
                imports@,
                old(self).state(*old(saw_return)),
                *statement,
            ),
            final(self).kind == old(self).kind,
        decreases *statement,
    {
        let ghost saw0 = *saw_return;
        match statement {
            Stmt::Let { name, value_type, expr } => self.check_let(imports, name, *value_type, expr, *saw_return),
            Stmt::Assign { name, expr } => self.check_assign(imports, name, expr, *saw_return),
            Stmt::Expr(expr) => {
                self.type_of(imports, expr, *saw_return);
            },
            Stmt::For { name, value_type, initializer, condition, update, body } => {
                self.push_scope();
                self.check_let(imports, name, *value_type, initializer, *saw_return);
                let t = self.type_of(imports, condition, *saw_return);
                if t != ScriptType::Bool {
                    let m = concat("for loop condition must be bool, but found ", t.label().as_str());
                    self.report(m, *saw_return);
                }
                self.check_statement(imports, update, saw_return);
                self.push_scope();
                self.check_statements(imports, body, saw_return);
                self.pop_scope();
                self.pop_scope();
            },
            Stmt::If { condition, then_body, else_body } => {
                let t = self.type_of(imports, condition, *saw_return);
                if t != ScriptType::Bool {
                    let m = concat("if condition must be bool, but found ", t.label().as_str());
                    self.report(m, *saw_return);
                }
                self.push_scope();
                self.check_statements(imports, then_body, saw_return);
                self.pop_scope();
                self.push_scope();
                self.check_statements(imports, else_body, saw_return);
                self.pop_scope();
            },
            Stmt::Return(expr) => {
                if self.kind == EffectScriptKind::Generator {
                    self.report(String::from_str("generator entrypoints cannot return values"), *saw_return);
                    return;
                }
                *saw_return = true;
                let t = self.type_of(imports, expr, true);
                if t != ScriptType::Color {
                    let m = concat("sample must return color, but returned ", t.label().as_str());
                    self.report(m, true);
                }
            },
            Stmt::Emit(emit) => self.check_emit(imports, emit, *saw_return),
        }
    }

    fn check_statements(&mut self, imports: &Vec<ImportedEffect>, statements: &Vec<Stmt>, saw_return: &mut bool)
        ensures
            final(self).state(*final(saw_return)) == spec_check_stmts(
                old(self).kind,
                imports@,
                old(self).state(*old(saw_return)),
                statements@,
            ),
            final(self).kind == old(self).kind,
        decreases *statements,
    {
        let mut i: usize = 0;
        while i < statements.len()
            invariant
                i <= statements@.len(),
                self.kind == old(self).kind,
                self.state(*saw_return) == spec_check_stmts(
                    old(self).kind,
                    imports@,
                    old(self).state(*old(saw_return)),
                    statements@.subrange(0, i as int),
                ),
            decreases statements@.len() - i,
        {
            assert(statements@.subrange(0, i + 1).drop_last() =~= statements@.subrange(0, i as int));
            assert(statements@.subrange(0, i + 1).last() == statements@[i as int]);
            self.check_statement(imports, &statements[i], saw_return);
            i += 1;
        }
        assert(statements@.subrange(0, statements@.len() as int) =~= statements@);
    }
}

/// The bindings a parameter adds: itself, and for an enum each option.
pub open spec fn param_bindings(params: Seq<EffectParamSchema>) -> Seq<(Seq<char>, Binding)>
    decreases params.len(),
{
    if params.len() == 0 {
        seq![]
    } else {
        let p = params.last();
        let own = param_bindings(params.drop_last()).push((p.name@, readonly(p.value_type)));
        if p.value_type == ScriptType::Enum {
            own + p.options@.map_values(|o: String| (o@, readonly(ScriptType::Enum)))
        } else {
            own
        }
    }
}

/// What a script of `kind` with `params` can name before its first statement:
/// the context values, the constants, the parameters (and enum options), and
/// for a generator its timeline, target and duration.
pub open spec fn initial_bindings(kind: EffectScriptKind, params: Seq<EffectParamSchema>) -> Seq<(Seq<char>, Binding)> {
    let builtins = seq![
        ("progress"@, readonly(ScriptType::Float)),
        ("seconds"@, readonly(ScriptType::Float)),
        ("fixture"@, readonly(ScriptType::Fixture)),
        ("pixel"@, readonly(ScriptType::Pixel)),
        ("PI"@, readonly(ScriptType::Float)),
        ("TAU"@, readonly(ScriptType::Float)),
    ];
    let with_params = builtins + param_bindings(params);
    if kind == EffectScriptKind::Generator {
        with_params + seq![
            ("timeline"@, readonly(ScriptType::Timeline)),
            ("target"@, readonly(ScriptType::Target)),
            ("duration"@, readonly(ScriptType::Float)),
        ]
    } else {
        with_params
    }
}

pub open spec fn entry_statements(e: EffectEntrypoint) -> Seq<Stmt> {
    match e {
        EffectEntrypoint::Sample(ss) => ss@,
        EffectEntrypoint::Generator(ss) => ss@,
    }
}

/// Every error that type checking `effect` finds, in order.
pub open spec fn spec_type_errors(effect: EffectAst, imports: Seq<ImportedEffect>) -> Seq<Seq<char>> {
    let kind = spec_kind_for_entrypoint(effect.entrypoint);
    let st0 = TcState { bs: initial_bindings(kind, effect.params@), starts: seq![], errs: seq![], saw_return: false };
    let st = spec_check_stmts(kind, imports, st0, entry_statements(effect.entrypoint));
    if kind == EffectScriptKind::Sample && !st.saw_return {
        st.errs.push("sample must contain an explicit return"@)
    } else {
        st.errs
    }
}

pub open spec fn diagnostics_match(ds: Seq<ScriptDiagnostic>, messages: Seq<Seq<char>>) -> bool {
    &&& ds.len() == messages.len()
    &&& forall|i: int| 0 <= i < ds.len() ==> #[trigger] ds[i].message@ == messages[i] && ds[i].range is None
}

impl TypeChecker {
    fn bind(&mut self, name: &str, binding: Binding)
        ensures
            final(self).bs() == old(self).bs().push((name@, binding)),
            final(self).scope_starts == old(self).scope_starts,
            final(self).errors == old(self).errors,
            final(self).kind == old(self).kind,
    {
        let ghost before = self.bindings@;
        self.bindings.push((String::from_str(name), binding));
        assert(self.bs() =~= bindings_view(before).push((name@, binding)));
    }

    /// A checker for `effect`, with its initial names bound.
    pub fn new(effect: &EffectAst) -> (c: Self)
        ensures
            c.kind == spec_kind_for_entrypoint(effect.entrypoint),
            c.state(false) == (TcState {
                bs: initial_bindings(c.kind, effect.params@),
                starts: seq![],
                errs: seq![],
                saw_return: false,
            }),
    {
        let kind = kind_for_entrypoint(&effect.entrypoint);
        let mut c = TypeChecker { kind, bindings: Vec::new(), scope_starts: Vec::new(), errors: Vec::new() };
        assert(c.bs() =~= seq![]);
        assert(c.errs() =~= seq![]);
        c.bind("progress", readonly_binding(ScriptType::Float));
        c.bind("seconds", readonly_binding(ScriptType::Float));
        c.bind("fixture", readonly_binding(ScriptType::Fixture));
        c.bind("pixel", readonly_binding(ScriptType::Pixel));
        c.bind("PI", readonly_binding(ScriptType::Float));
        c.bind("TAU", readonly_binding(ScriptType::Float));
        let ghost builtins = c.bs();
        let mut i: usize = 0;
        while i < effect.params.len()
            invariant
                i <= effect.params@.len(),
                c.kind == kind,
                c.scope_starts@ == Seq::<usize>::empty(),
                c.errs() == Seq::<Seq<char>>::empty(),
                c.bs() == builtins + param_bindings(effect.params@.subrange(0, i as int)),
            decreases effect.params@.len() - i,
        {
            assert(effect.params@.subrange(0, i + 1).drop_last() =~= effect.params@.subrange(0, i as int));
            assert(effect.params@.subrange(0, i + 1).last() == effect.params@[i as int]);
            let param = &effect.params[i];
            c.bind(param.name.as_str(), readonly_binding(param.value_type));
            if param.value_type == ScriptType::Enum {
                let ghost own = c.bs();
                let mut k: usize = 0;
                while k < param.options.len()
                    invariant
                        k <= param.options@.len(),
                        c.kind == kind,
                        c.scope_starts@ == Seq::<usize>::empty(),
                        c.errs() == Seq::<Seq<char>>::empty(),
                        c.bs() == own + param.options@.subrange(0, k as int).map_values(
                            |o: String| (o@, readonly(ScriptType::Enum)),
                        ),
                    decreases param.options@.len() - k,
                {
                    c.bind(param.options[k].as_str(), readonly_binding(ScriptType::Enum));
                    k += 1;
                    assert(c.bs() =~= own + param.options@.subrange(0, k as int).map_values(
                        |o: String| (o@, readonly(ScriptType::Enum)),
                    ));
                }
                assert(param.options@.subrange(0, param.options@.len() as int) =~= param.options@);
            }
            i += 1;
            assert(c.bs() =~= builtins + param_bindings(effect.params@.subrange(0, i as int)));
        }
        assert(effect.params@.subrange(0, effect.params@.len() as int) =~= effect.params@);
        if kind == EffectScriptKind::Generator {
            c.bind("timeline", readonly_binding(ScriptType::Timeline));
            c.bind("target", readonly_binding(ScriptType::Target));
            c.bind("duration", readonly_binding(ScriptType::Float));
        }
        assert(c.bs() =~= initial_bindings(kind, effect.params@));
        c
    }
}

fn readonly_binding(value_type: ScriptType) -> (b: Binding)
    ensures
        b == readonly(value_type),
{
    Binding { value_type, mutable: false }
}

/// Type checks `effect` against the effects it imports; every error found is
/// reported, in order.
pub fn type_check_with_imports(effect: &EffectAst, imports: &Vec<ImportedEffect>) -> (r: Result<
    (),
    Vec<ScriptDiagnostic>,
>)
    ensures
        r is Ok <==> spec_type_errors(*effect, imports@).len() == 0,
        r matches Err(ds) ==> diagnostics_match(ds@, spec_type_errors(*effect, imports@)),
{
    let mut checker = TypeChecker::new(effect);
    let mut saw_return = false;
    match &effect.entrypoint {
        EffectEntrypoint::Sample(statements) => checker.check_statements(imports, statements, &mut saw_return),
        EffectEntrypoint::Generator(statements) => checker.check_statements(imports, statements, &mut saw_return),
    }
    if checker.kind == EffectScriptKind::Sample && !saw_return {
        checker.report(String::from_str("sample must contain an explicit return"), saw_return);
    }
    let errors = checker.errors;
    let ghost msgs = messages_view(errors@);
    assert(msgs == spec_type_errors(*effect, imports@));
    if errors.len() == 0 {
        return Ok(());
    }
    let mut ds: Vec<ScriptDiagnostic> = Vec::new();
    let mut i: usize = 0;
    while i < errors.len()
        invariant
            i <= errors@.len(),
            msgs == messages_view(errors@),
            ds@.len() == i,
            forall|j: int| 0 <= j < i ==> #[trigger] ds@[j].message@ == msgs[j] && ds@[j].range is None,
        decreases errors@.len() - i,
    {
        ds.push(ScriptDiagnostic { range: None, message: errors[i].clone() });
        i += 1;
    }
    assert(msgs.len() == errors@.len());
    assert(diagnostics_match(ds@, msgs));
    Err(ds)
}

/// Type checks an effect that imports nothing.
pub fn type_check(effect: &EffectAst) -> (r: Result<(), Vec<ScriptDiagnostic>>)
    ensures
        r is Ok <==> spec_type_errors(*effect, Seq::empty()).len() == 0,
        r matches Err(ds) ==> diagnostics_match(ds@, spec_type_errors(*effect, Seq::empty())),
{
    let imports: Vec<ImportedEffect> = Vec::new();
    assert(imports@ =~= Seq::<ImportedEffect>::empty());
    type_check_with_imports(effect, &imports)
}

} // verus!