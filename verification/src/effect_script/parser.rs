//! Parsing the tokens of a sample effect script into its syntax tree.
//!
//! A script is `effect Name { ... }` holding `param` declarations and one
//! `color sample(float progress, float seconds, Fixture fixture, Pixel pixel)`
//! function. Expressions bind, loosest first: `||`, `&&`, `==` `!=`,
//! `<` `<=` `>` `>=`, `+` `-`, `*` `/`, then prefix `-` and `!`.
//!
//! Turning the text of a number into an IEEE 754 double is not done here:
//! the parser is given, for each token, the bits of the `f64` that its text
//! denotes (`None` where it denotes none).
use vstd::prelude::*;
use crate::effect_script::ast::{EffectAst, EffectEntrypoint, EffectParamSchema, Expr, Stmt};
use crate::effect_script::diag::{ScriptDiagnostic, SpecDiagnostic};
use crate::effect_script::lexer::{tokens_view, SpecToken, SpecTokenKind, Token, TokenKind};
use crate::effect_script::specialize::ConstantValue;
use crate::effect_script::types::{
    is_assignable, spec_is_assignable, spec_script_type_label, BinaryOp, ScriptType, UnaryOp,
};
use crate::model::color::{spec_parse_color, Color};
use crate::model::units::{parse_i64_range, spec_parse_i64};
use crate::text::{chars_of, concat, concat3, push_char, str_eq};

verus! {

/// An expression as the parser states it.
pub enum PExpr {
    Float(u64),
    Int(i64),
    Bool(bool),
    Color(Color),
    Ident(Seq<char>),
    Unary(UnaryOp, Box<PExpr>),
    Binary(Box<PExpr>, BinaryOp, Box<PExpr>),
    Call(Seq<char>, Seq<PExpr>),
    Other,
}

/// A statement as the parser states it.
pub enum PStmt {
    Let(Seq<char>, ScriptType, PExpr),
    Assign(Seq<char>, PExpr),
    Expr(PExpr),
    For(Seq<char>, ScriptType, PExpr, PExpr, Box<PStmt>, Seq<PStmt>),
    If(PExpr, Seq<PStmt>, Seq<PStmt>),
    Return(PExpr),
    Other,
}

/// A parameter default as the parser states it.
pub enum PConst {
    Float(u64),
    Int(i64),
    Bool(bool),
    Color(Color),
    Enum(Seq<char>),
    Flags(Seq<Seq<char>>),
    Other,
}

pub struct PSchema {
    pub name: Seq<char>,
    pub value_type: ScriptType,
    pub options: Seq<Seq<char>>,
    pub default: Option<PConst>,
}

pub struct PEffect {
    pub name: Seq<char>,
    pub params: Seq<PSchema>,
    pub samples: bool,
    pub body: Seq<PStmt>,
}

pub open spec fn pexpr(e: Expr) -> PExpr
    decreases e, 1int,
{
    match e {
        Expr::Float(b) => PExpr::Float(b),
        Expr::Int(v) => PExpr::Int(v),
        Expr::Bool(b) => PExpr::Bool(b),
        Expr::Color(c) => PExpr::Color(c),
        Expr::Ident(n) => PExpr::Ident(n@),
        Expr::Unary { op, expr } => PExpr::Unary(op, Box::new(pexpr(*expr))),
        Expr::Binary { left, op, right } => PExpr::Binary(Box::new(pexpr(*left)), op, Box::new(pexpr(*right))),
        Expr::Call { name, args } => PExpr::Call(name@, pexprs(args@)),
        _ => PExpr::Other,
    }
}

pub open spec fn pexprs(es: Seq<Expr>) -> Seq<PExpr>
    decreases es, 0int,
{
    if es.len() == 0 {
        seq![]
    } else {
        pexprs(es.drop_last()).push(pexpr(es.last()))
    }
}

pub open spec fn pstmt(s: Stmt) -> PStmt
    decreases s, 1int,
{
    match s {
        Stmt::Let { name, value_type, expr } => PStmt::Let(name@, value_type, pexpr(expr)),
        Stmt::Assign { name, expr } => PStmt::Assign(name@, pexpr(expr)),
        Stmt::Expr(e) => PStmt::Expr(pexpr(e)),
        Stmt::For { name, value_type, initializer, condition, update, body } => PStmt::For(
            name@,
            value_type,
            pexpr(initializer),
            pexpr(condition),
            Box::new(pstmt(*update)),
            pstmts(body@),
        ),
        Stmt::If { condition, then_body, else_body } => PStmt::If(
            pexpr(condition),
            pstmts(then_body@),
            pstmts(else_body@),
        ),
        Stmt::Return(e) => PStmt::Return(pexpr(e)),
        _ => PStmt::Other,
    }
}

pub open spec fn pstmts(ss: Seq<Stmt>) -> Seq<PStmt>
    decreases ss, 0int,
{
    if ss.len() == 0 {
        seq![]
    } else {
        pstmts(ss.drop_last()).push(pstmt(ss.last()))
    }
}

pub open spec fn string_views(v: Seq<String>) -> Seq<Seq<char>> {
    v.map_values(|s: String| s@)
}

pub open spec fn pconst(c: ConstantValue) -> PConst {
    match c {
        ConstantValue::Float(b) => PConst::Float(b),
        ConstantValue::Int(v) => PConst::Int(v),
        ConstantValue::Bool(b) => PConst::Bool(b),
        ConstantValue::Color(c) => PConst::Color(c),
        ConstantValue::Enum(s) => PConst::Enum(s@),
        ConstantValue::Flags(v) => PConst::Flags(string_views(v@)),
        ConstantValue::Other => PConst::Other,
    }
}

pub open spec fn pschema(s: EffectParamSchema) -> PSchema {
    PSchema {
        name: s.name@,
        value_type: s.value_type,
        options: string_views(s.options@),
        default: match s.default {
            Some(c) => Some(pconst(c)),
            None => None,
        },
    }
}

pub open spec fn pschemas(ss: Seq<EffectParamSchema>) -> Seq<PSchema> {
    ss.map_values(|s: EffectParamSchema| pschema(s))
}

pub open spec fn peffect(a: EffectAst) -> PEffect {
    PEffect {
        name: a.name@,
        params: pschemas(a.params@),
        samples: a.entrypoint is Sample,
        body: match a.entrypoint {
            EffectEntrypoint::Sample(b) => pstmts(b@),
            EffectEntrypoint::Generator(b) => pstmts(b@),
        },
    }
}

/// A token stream as the lexer makes it: it ends with `Eof`.
pub open spec fn well_formed(ts: Seq<SpecToken>) -> bool {
    ts.len() > 0 && ts.last().kind is Eof
}

pub open spec fn err_at(ts: Seq<SpecToken>, i: int, m: Seq<char>) -> SpecDiagnostic {
    SpecDiagnostic { range: Some(ts[i].range), message: m }
}

pub open spec fn is_sym(ts: Seq<SpecToken>, i: int, c: char) -> bool {
    ts[i].kind == SpecTokenKind::Symbol(c)
}

pub open spec fn is_kw(ts: Seq<SpecToken>, i: int, k: Seq<char>) -> bool {
    ts[i].kind == SpecTokenKind::Ident(k)
}

pub open spec fn is_eof(ts: Seq<SpecToken>, i: int) -> bool {
    ts[i].kind is Eof
}

/// Two symbol tokens, `a` then `b`, at `i`.
pub open spec fn is_pair(ts: Seq<SpecToken>, i: int, a: char, b: char) -> bool {
    is_sym(ts, i, a) && i + 1 < ts.len() && is_sym(ts, i + 1, b)
}

pub open spec fn spec_identifier(ts: Seq<SpecToken>, i: int, label: Seq<char>) -> Result<Seq<char>, SpecDiagnostic> {
    match ts[i].kind {
        SpecTokenKind::Ident(v) => Ok(v),
        _ => Err(err_at(ts, i, "expected "@ + label)),
    }
}

pub open spec fn symbol_message(c: char) -> Seq<char> {
    "expected `"@ + seq![c] + "`"@
}

pub open spec fn spec_symbol(ts: Seq<SpecToken>, i: int, c: char) -> Result<(), SpecDiagnostic> {
    if is_sym(ts, i, c) {
        Ok(())
    } else {
        Err(err_at(ts, i, symbol_message(c)))
    }
}

pub open spec fn simple_type(n: Seq<char>) -> Option<ScriptType> {
    if n == "float"@ {
        Some(ScriptType::Float)
    } else if n == "int"@ {
        Some(ScriptType::Int)
    } else if n == "bool"@ {
        Some(ScriptType::Bool)
    } else if n == "color"@ {
        Some(ScriptType::Color)
    } else if n == "marks"@ {
        Some(ScriptType::Marks)
    } else if n == "enum"@ {
        Some(ScriptType::Enum)
    } else if n == "flags"@ {
        Some(ScriptType::Flags)
    } else if n == "Fixture"@ {
        Some(ScriptType::Fixture)
    } else if n == "Pixel"@ {
        Some(ScriptType::Pixel)
    } else {
        None
    }
}

/// A type name at `i`, and how many tokens it takes.
pub open spec fn spec_type_name(ts: Seq<SpecToken>, i: int) -> Result<(ScriptType, nat), SpecDiagnostic> {
    match spec_identifier(ts, i, "type"@) {
        Err(e) => Err(e),
        Ok(n) => match simple_type(n) {
            Some(t) => Ok((t, 1)),
            None => if n == "curve"@ {
                match spec_symbol(ts, i + 1, '<') {
                    Err(e) => Err(e),
                    Ok(_) => match spec_identifier(ts, i + 2, "curve value type"@) {
                        Err(e) => Err(e),
                        Ok(inner) => match spec_symbol(ts, i + 3, '>') {
                            Err(e) => Err(e),
                            Ok(_) => if inner == "float"@ {
                                Ok((ScriptType::CurveFloat, 4))
                            } else if inner == "color"@ {
                                Ok((ScriptType::CurveColor, 4))
                            } else {
                                Err(err_at(ts, i + 4, "curve value type must be float or color"@))
                            },
                        },
                    },
                }
            } else {
                Err(err_at(ts, i + 1, "unknown type `"@ + n + "`"@))
            },
        },
    }
}

/// Whether a type name starts at `i`.
pub open spec fn spec_peek_type_name(ts: Seq<SpecToken>, i: int) -> bool {
    match ts[i].kind {
        SpecTokenKind::Ident(v) => simple_type(v) is Some || v == "curve"@,
        _ => false,
    }
}

/// The name assigned by `name = ...` at `i` (not `name == ...`).
pub open spec fn spec_peek_assignment_name(ts: Seq<SpecToken>, i: int) -> Option<Seq<char>> {
    match ts[i].kind {
        SpecTokenKind::Ident(name) => if i + 1 < ts.len() && is_sym(ts, i + 1, '=') && !(i + 2 < ts.len() && is_sym(
            ts,
            i + 2,
            '=',
        )) {
            Some(name)
        } else {
            None
        },
        _ => None,
    }
}

/// Position `p`, or the end of the stream if `p` is past it.
pub open spec fn cl(ts: Seq<SpecToken>, p: int) -> int {
    if p <= ts.len() {
        p
    } else {
        ts.len() as int
    }
}

pub open spec fn has_dot(raw: Seq<char>) -> bool {
    raw.contains('.')
}

/// An expression at `i`, and how many tokens it takes.
pub open spec fn spec_expr(ts: Seq<SpecToken>, fl: Seq<Option<u64>>, i: int) -> Result<(PExpr, nat), SpecDiagnostic>
    decreases ts.len() - i, 20int,
    when 0 <= i <= ts.len()
{
    spec_or(ts, fl, i)
}

pub open spec fn spec_or(ts: Seq<SpecToken>, fl: Seq<Option<u64>>, i: int) -> Result<(PExpr, nat), SpecDiagnostic>
    decreases ts.len() - i, 19int,
    when 0 <= i <= ts.len()
{
    match spec_and(ts, fl, i) {
        Err(e) => Err(e),
        Ok((e, d)) => match spec_or_rest(ts, fl, e, cl(ts, i + d)) {
            Err(x) => Err(x),
            Ok((r, d2)) => Ok((r, d + d2)),
        },
    }
}

pub open spec fn spec_or_rest(ts: Seq<SpecToken>, fl: Seq<Option<u64>>, acc: PExpr, i: int) -> Result<
    (PExpr, nat),
    SpecDiagnostic,
>
    decreases ts.len() - i, 18int,
    when 0 <= i <= ts.len()
{
    if i < ts.len() && is_pair(ts, i, '|', '|') {
        match spec_and(ts, fl, i + 2) {
            Err(e) => Err(e),
            Ok((r, d)) => match spec_or_rest(
                ts,
                fl,
                PExpr::Binary(Box::new(acc), BinaryOp::LogicalOr, Box::new(r)),
                cl(ts, i + 2 + d),
            ) {
                Err(x) => Err(x),
                Ok((x, d2)) => Ok((x, 2 + d + d2)),
            },
        }
    } else {
        Ok((acc, 0))
    }
}

pub open spec fn spec_and(ts: Seq<SpecToken>, fl: Seq<Option<u64>>, i: int) -> Result<(PExpr, nat), SpecDiagnostic>
    decreases ts.len() - i, 17int,
    when 0 <= i <= ts.len()
{
    match spec_equality(ts, fl, i) {
        Err(e) => Err(e),
        Ok((e, d)) => match spec_and_rest(ts, fl, e, cl(ts, i + d)) {
            Err(x) => Err(x),
            Ok((r, d2)) => Ok((r, d + d2)),
        },
    }
}

pub open spec fn spec_and_rest(ts: Seq<SpecToken>, fl: Seq<Option<u64>>, acc: PExpr, i: int) -> Result<
    (PExpr, nat),
    SpecDiagnostic,
>
    decreases ts.len() - i, 16int,
    when 0 <= i <= ts.len()
{
    if i < ts.len() && is_pair(ts, i, '&', '&') {
        match spec_equality(ts, fl, i + 2) {
            Err(e) => Err(e),
            Ok((r, d)) => match spec_and_rest(
                ts,
                fl,
                PExpr::Binary(Box::new(acc), BinaryOp::LogicalAnd, Box::new(r)),
                cl(ts, i + 2 + d),
            ) {
                Err(x) => Err(x),
                Ok((x, d2)) => Ok((x, 2 + d + d2)),
            },
        }
    } else {
        Ok((acc, 0))
    }
}

pub open spec fn spec_equality(ts: Seq<SpecToken>, fl: Seq<Option<u64>>, i: int) -> Result<(PExpr, nat), SpecDiagnostic>
    decreases ts.len() - i, 15int,
    when 0 <= i <= ts.len()
{
    match spec_comparison(ts, fl, i) {
        Err(e) => Err(e),
        Ok((e, d)) => match spec_equality_rest(ts, fl, e, cl(ts, i + d)) {
            Err(x) => Err(x),
            Ok((r, d2)) => Ok((r, d + d2)),
        },
    }
}

/// The equality operator at `i`, if any.
pub open spec fn equality_op(ts: Seq<SpecToken>, i: int) -> Option<BinaryOp> {
    if is_pair(ts, i, '=', '=') {
        Some(BinaryOp::Equal)
    } else if is_pair(ts, i, '!', '=') {
        Some(BinaryOp::NotEqual)
    } else {
        None
    }
}

pub open spec fn spec_equality_rest(ts: Seq<SpecToken>, fl: Seq<Option<u64>>, acc: PExpr, i: int) -> Result<
    (PExpr, nat),
    SpecDiagnostic,
>
    decreases ts.len() - i, 14int,
    when 0 <= i <= ts.len()
{
    if i < ts.len() {
        match equality_op(ts, i) {
            Some(op) => match spec_comparison(ts, fl, i + 2) {
                Err(e) => Err(e),
                Ok((r, d)) => match spec_equality_rest(
                    ts,
                    fl,
                    PExpr::Binary(Box::new(acc), op, Box::new(r)),
                    cl(ts, i + 2 + d),
                ) {
                    Err(x) => Err(x),
                    Ok((x, d2)) => Ok((x, 2 + d + d2)),
                },
            },
            None => Ok((acc, 0)),
        }
    } else {
        Ok((acc, 0))
    }
}

pub open spec fn spec_comparison(ts: Seq<SpecToken>, fl: Seq<Option<u64>>, i: int) -> Result<
    (PExpr, nat),
    SpecDiagnostic,
>
    decreases ts.len() - i, 13int,
    when 0 <= i <= ts.len()
{
    match spec_additive(ts, fl, i) {
        Err(e) => Err(e),
        Ok((e, d)) => match spec_comparison_rest(ts, fl, e, cl(ts, i + d)) {
            Err(x) => Err(x),
            Ok((r, d2)) => Ok((r, d + d2)),
        },
    }
}

/// The comparison operator at `i`, if any, and how many tokens it takes.
pub open spec fn comparison_op(ts: Seq<SpecToken>, i: int) -> Option<(BinaryOp, nat)> {
    if is_pair(ts, i, '<', '=') {
        Some((BinaryOp::LessEqual, 2))
    } else if is_pair(ts, i, '>', '=') {
        Some((BinaryOp::GreaterEqual, 2))
    } else if is_sym(ts, i, '<') {
        Some((BinaryOp::Less, 1))
    } else if is_sym(ts, i, '>') {
        Some((BinaryOp::Greater, 1))
    } else {
        None
    }
}

pub open spec fn spec_comparison_rest(ts: Seq<SpecToken>, fl: Seq<Option<u64>>, acc: PExpr, i: int) -> Result<
    (PExpr, nat),
    SpecDiagnostic,
>
    decreases ts.len() - i, 12int,
    when 0 <= i <= ts.len()
{
    if i < ts.len() {
        match comparison_op(ts, i) {
            Some((op, w)) => match spec_additive(ts, fl, i + w) {
                Err(e) => Err(e),
                Ok((r, d)) => match spec_comparison_rest(
                    ts,
                    fl,
                    PExpr::Binary(Box::new(acc), op, Box::new(r)),
                    cl(ts, i + w + d),
                ) {
                    Err(x) => Err(x),
                    Ok((x, d2)) => Ok((x, w + d + d2)),
                },
            },
            None => Ok((acc, 0)),
        }
    } else {
        Ok((acc, 0))
    }
}

pub open spec fn spec_additive(ts: Seq<SpecToken>, fl: Seq<Option<u64>>, i: int) -> Result<(PExpr, nat), SpecDiagnostic>
    decreases ts.len() - i, 11int,
    when 0 <= i <= ts.len()
{
    match spec_multiplicative(ts, fl, i) {
        Err(e) => Err(e),
        Ok((e, d)) => match spec_additive_rest(ts, fl, e, cl(ts, i + d)) {
            Err(x) => Err(x),
            Ok((r, d2)) => Ok((r, d + d2)),
        },
    }
}

pub open spec fn additive_op(ts: Seq<SpecToken>, i: int) -> Option<BinaryOp> {
    if is_sym(ts, i, '+') {
        Some(BinaryOp::Add)
    } else if is_sym(ts, i, '-') {
        Some(BinaryOp::Subtract)
    } else {
        None
    }
}

pub open spec fn spec_additive_rest(ts: Seq<SpecToken>, fl: Seq<Option<u64>>, acc: PExpr, i: int) -> Result<
    (PExpr, nat),
    SpecDiagnostic,
>
    decreases ts.len() - i, 10int,
    when 0 <= i <= ts.len()
{
    if i < ts.len() {
        match additive_op(ts, i) {
            Some(op) => match spec_multiplicative(ts, fl, i + 1) {
                Err(e) => Err(e),
                Ok((r, d)) => match spec_additive_rest(
                    ts,
                    fl,
                    PExpr::Binary(Box::new(acc), op, Box::new(r)),
                    cl(ts, i + 1 + d),
                ) {
                    Err(x) => Err(x),
                    Ok((x, d2)) => Ok((x, 1 + d + d2)),
                },
            },
            None => Ok((acc, 0)),
        }
    } else {
        Ok((acc, 0))
    }
}

pub open spec fn spec_multiplicative(ts: Seq<SpecToken>, fl: Seq<Option<u64>>, i: int) -> Result<
    (PExpr, nat),
    SpecDiagnostic,
>
    decreases ts.len() - i, 9int,
    when 0 <= i <= ts.len()
{
    match spec_unary(ts, fl, i) {
        Err(e) => Err(e),
        Ok((e, d)) => match spec_multiplicative_rest(ts, fl, e, cl(ts, i + d)) {
            Err(x) => Err(x),
            Ok((r, d2)) => Ok((r, d + d2)),
        },
    }
}

pub open spec fn multiplicative_op(ts: Seq<SpecToken>, i: int) -> Option<BinaryOp> {
    if is_sym(ts, i, '*') {
        Some(BinaryOp::Multiply)
    } else if is_sym(ts, i, '/') {
        Some(BinaryOp::Divide)
    } else {
        None
    }
}

pub open spec fn spec_multiplicative_rest(ts: Seq<SpecToken>, fl: Seq<Option<u64>>, acc: PExpr, i: int) -> Result<
    (PExpr, nat),
    SpecDiagnostic,
>
    decreases ts.len() - i, 8int,
    when 0 <= i <= ts.len()
{
    if i < ts.len() {
        match multiplicative_op(ts, i) {
            Some(op) => match spec_unary(ts, fl, i + 1) {
                Err(e) => Err(e),
                Ok((r, d)) => match spec_multiplicative_rest(
                    ts,
                    fl,
                    PExpr::Binary(Box::new(acc), op, Box::new(r)),
                    cl(ts, i + 1 + d),
                ) {
                    Err(x) => Err(x),
                    Ok((x, d2)) => Ok((x, 1 + d + d2)),
                },
            },
            None => Ok((acc, 0)),
        }
    } else {
        Ok((acc, 0))
    }
}

pub open spec fn spec_unary(ts: Seq<SpecToken>, fl: Seq<Option<u64>>, i: int) -> Result<(PExpr, nat), SpecDiagnostic>
    decreases ts.len() - i, 7int,
    when 0 <= i <= ts.len()
{
    if i < ts.len() && is_sym(ts, i, '-') {
        match spec_unary(ts, fl, i + 1) {
            Err(e) => Err(e),
            Ok((e, d)) => Ok((PExpr::Unary(UnaryOp::Negate, Box::new(e)), d + 1)),
        }
    } else if i < ts.len() && is_sym(ts, i, '!') {
        match spec_unary(ts, fl, i + 1) {
            Err(e) => Err(e),
            Ok((e, d)) => Ok((PExpr::Unary(UnaryOp::Not, Box::new(e)), d + 1)),
        }
    } else {
        spec_primary(ts, fl, i)
    }
}

/// A number literal token at `i`: a float when its text has a `.`, read
/// from `fl`; else an integer.
pub open spec fn number_literal(ts: Seq<SpecToken>, fl: Seq<Option<u64>>, i: int, raw: Seq<char>) -> Result<
    (PExpr, nat),
    SpecDiagnostic,
> {
    if has_dot(raw) {
        match fl[i] {
            Some(b) => Ok((PExpr::Float(b), 1)),
            None => Err(err_at(ts, i, "invalid float literal"@)),
        }
    } else {
        match spec_parse_i64(raw) {
            Some(v) => Ok((PExpr::Int(v), 1)),
            None => Err(err_at(ts, i, "invalid integer literal"@)),
        }
    }
}

pub open spec fn spec_primary(ts: Seq<SpecToken>, fl: Seq<Option<u64>>, i: int) -> Result<(PExpr, nat), SpecDiagnostic>
    decreases ts.len() - i, 6int,
    when 0 <= i <= ts.len()
{
    if i < 0 || i >= ts.len() {
        Err(err_at(ts, i, "expected expression"@))
    } else {
        match ts[i].kind {
            SpecTokenKind::Number(raw) => number_literal(ts, fl, i, raw),
            SpecTokenKind::Color(raw) => match spec_parse_color(raw) {
                Ok(c) => Ok((PExpr::Color(c), 1)),
                Err(m) => Err(err_at(ts, i, m)),
            },
            SpecTokenKind::Ident(n) => if n == "true"@ {
                Ok((PExpr::Bool(true), 1))
            } else if n == "false"@ {
                Ok((PExpr::Bool(false), 1))
            } else if i + 1 < ts.len() && is_sym(ts, i + 1, '(') {
                if i + 2 < ts.len() && is_sym(ts, i + 2, ')') {
                    Ok((PExpr::Call(n, seq![]), 3))
                } else {
                    match spec_args(ts, fl, seq![], i + 2) {
                        Err(e) => Err(e),
                        Ok((args, d)) => match spec_symbol(ts, i + 2 + d, ')') {
                            Err(e) => Err(e),
                            Ok(_) => Ok((PExpr::Call(n, args), d + 3)),
                        },
                    }
                }
            } else {
                Ok((PExpr::Ident(n), 1))
            },
            SpecTokenKind::Symbol(c) => if c == '(' {
                match spec_expr(ts, fl, i + 1) {
                    Err(e) => Err(e),
                    Ok((e, d)) => match spec_symbol(ts, i + 1 + d, ')') {
                        Err(x) => Err(x),
                        Ok(_) => Ok((e, d + 2)),
                    },
                }
            } else {
                Err(err_at(ts, i, "expected expression"@))
            },
            _ => Err(err_at(ts, i, "expected expression"@)),
        }
    }
}

/// The arguments of a call from `i`, each followed by `,` but the last,
/// after the arguments `acc` already read.
pub open spec fn spec_args(ts: Seq<SpecToken>, fl: Seq<Option<u64>>, acc: Seq<PExpr>, i: int) -> Result<
    (Seq<PExpr>, nat),
    SpecDiagnostic,
>
    decreases ts.len() - i, 21int,
    when 0 <= i <= ts.len()
{
    match spec_expr(ts, fl, i) {
        Err(e) => Err(e),
        Ok((e, d)) => if i + d < ts.len() && is_sym(ts, i + d, ',') {
            match spec_args(ts, fl, acc.push(e), i + d + 1) {
                Err(x) => Err(x),
                Ok((a, d2)) => Ok((a, d + 1 + d2)),
            }
        } else {
            Ok((acc.push(e), d))
        },
    }
}

fn kind_at(ts: &Vec<Token>, i: usize) -> (k: &TokenKind)
    requires
        i < ts@.len(),
    ensures
        k@ == tokens_view(ts@)[i as int].kind,
        *k == ts@[i as int].kind,
{
    &ts[i].kind
}

fn sym_at(ts: &Vec<Token>, i: usize, c: char) -> (b: bool)
    ensures
        b == (i < ts@.len() && is_sym(tokens_view(ts@), i as int, c)),
{
    if i >= ts.len() {
        return false;
    }
    match kind_at(ts, i) {
        TokenKind::Symbol(x) => *x == c,
        _ => false,
    }
}

fn pair_at(ts: &Vec<Token>, i: usize, a: char, b: char) -> (r: bool)
    requires
        i < ts@.len(),
    ensures
        r == is_pair(tokens_view(ts@), i as int, a, b),
{
    sym_at(ts, i, a) && i < ts.len() - 1 && sym_at(ts, i + 1, b)
}

fn kw_at(ts: &Vec<Token>, i: usize, k: &str) -> (b: bool)
    requires
        i < ts@.len(),
    ensures
        b == is_kw(tokens_view(ts@), i as int, k@),
{
    match kind_at(ts, i) {
        TokenKind::Ident(x) => str_eq(x.as_str(), k),
        _ => false,
    }
}

fn eof_at(ts: &Vec<Token>, i: usize) -> (b: bool)
    requires
        i < ts@.len(),
    ensures
        b == is_eof(tokens_view(ts@), i as int),
{
    match kind_at(ts, i) {
        TokenKind::Eof => true,
        _ => false,
    }
}

fn error_at(ts: &Vec<Token>, i: usize, message: String) -> (d: ScriptDiagnostic)
    requires
        i < ts@.len(),
    ensures
        d@ == err_at(tokens_view(ts@), i as int, message@),
{
    ScriptDiagnostic { range: Some(ts[i].range), message }
}

fn expect_symbol(ts: &Vec<Token>, i: usize, c: char) -> (r: Result<(), ScriptDiagnostic>)
    requires
        i < ts@.len(),
    ensures
        match r {
            Ok(()) => spec_symbol(tokens_view(ts@), i as int, c) is Ok,
            Err(x) => spec_symbol(tokens_view(ts@), i as int, c) == Err::<(), SpecDiagnostic>(x@),
        },
{
    if sym_at(ts, i, c) {
        Ok(())
    } else {
        let mut m = String::from_str("expected `");
        push_char(&mut m, c);
        m.append("`");
        assert(m@ =~= symbol_message(c));
        Err(error_at(ts, i, m))
    }
}

fn expect_identifier(ts: &Vec<Token>, i: usize, label: &str) -> (r: Result<String, ScriptDiagnostic>)
    requires
        i < ts@.len(),
    ensures
        match r {
            Ok(v) => spec_identifier(tokens_view(ts@), i as int, label@) == Ok::<Seq<char>, SpecDiagnostic>(v@),
            Err(x) => spec_identifier(tokens_view(ts@), i as int, label@) == Err::<Seq<char>, SpecDiagnostic>(x@),
        },
{
    match kind_at(ts, i) {
        TokenKind::Ident(v) => Ok(v.clone()),
        _ => Err(error_at(ts, i, concat("expected ", label))),
    }
}

fn contains_dot(raw: &String) -> (b: bool)
    ensures
        b == has_dot(raw@),
{
    let chars = chars_of(raw.as_str());
    let mut k: usize = 0;
    while k < chars.len()
        invariant
            chars@ == raw@,
            k <= chars@.len(),
            forall|m: int| 0 <= m < k ==> chars@[m] != '.',
        decreases chars@.len() - k,
    {
        if chars[k] == '.' {
            assert(raw@[k as int] == '.');
            return true;
        }
        k += 1;
    }
    false
}

fn p_number(ts: &Vec<Token>, fl: &Vec<Option<u64>>, i: usize, raw: &String) -> (r: Result<(Expr, usize), ScriptDiagnostic>)
    requires
        i < ts@.len(),
        fl@.len() == ts@.len(),
    ensures
        match r {
            Ok((e, d)) => number_literal(tokens_view(ts@), fl@, i as int, raw@) == Ok::<(PExpr, nat), SpecDiagnostic>(
                (pexpr(e), d as nat),
            ) && d == 1,
            Err(x) => number_literal(tokens_view(ts@), fl@, i as int, raw@) == Err::<(PExpr, nat), SpecDiagnostic>(
                x@,
            ),
        },
{
    if contains_dot(raw) {
        match fl[i] {
            Some(b) => Ok((Expr::Float(b), 1)),
            None => Err(error_at(ts, i, String::from_str("invalid float literal"))),
        }
    } else {
        let chars = chars_of(raw.as_str());
        assert(chars@.subrange(0, chars@.len() as int) =~= raw@);
        match parse_i64_range(&chars, 0, chars.len()) {
            Some(v) => Ok((Expr::Int(v), 1)),
            None => Err(error_at(ts, i, String::from_str("invalid integer literal"))),
        }
    }
}

/// The name, type and initial value of `type name = expr` at `i`, then `;`
/// when `semicolon`.
pub open spec fn spec_let_parts(ts: Seq<SpecToken>, fl: Seq<Option<u64>>, i: int, semicolon: bool) -> Result<
    ((Seq<char>, ScriptType, PExpr), nat),
    SpecDiagnostic,
> {
    match spec_type_name(ts, i) {
        Err(e) => Err(e),
        Ok((t, d1)) => match spec_identifier(ts, i + d1, "local name"@) {
            Err(e) => Err(e),
            Ok(n) => match spec_symbol(ts, i + d1 + 1, '=') {
                Err(e) => Err(e),
                Ok(_) => match spec_expr(ts, fl, i + d1 + 2) {
                    Err(e) => Err(e),
                    Ok((e, d2)) => if semicolon {
                        match spec_symbol(ts, i + d1 + 2 + d2, ';') {
                            Err(x) => Err(x),
                            Ok(_) => Ok(((n, t, e), d1 + 2 + d2 + 1)),
                        }
                    } else {
                        Ok(((n, t, e), d1 + 2 + d2))
                    },
                },
            },
        },
    }
}

/// `name = expr` at `i`, with no `;`.
pub open spec fn spec_assignment(ts: Seq<SpecToken>, fl: Seq<Option<u64>>, i: int) -> Result<(PStmt, nat), SpecDiagnostic> {
    match spec_identifier(ts, i, "local name"@) {
        Err(e) => Err(e),
        Ok(n) => match spec_symbol(ts, i + 1, '=') {
            Err(e) => Err(e),
            Ok(_) => match spec_expr(ts, fl, i + 2) {
                Err(e) => Err(e),
                Ok((e, d)) => Ok((PStmt::Assign(n, e), d + 2)),
            },
        },
    }
}

/// A statement at `i`, and how many tokens it takes.
pub open spec fn spec_statement(ts: Seq<SpecToken>, fl: Seq<Option<u64>>, i: int) -> Result<(PStmt, nat), SpecDiagnostic>
    decreases ts.len() - i, 29int,
    when 0 <= i <= ts.len()
{
    if i >= ts.len() {
        Err(err_at(ts, i, "expected expression"@))
    } else if is_kw(ts, i, "return"@) {
        match spec_expr(ts, fl, i + 1) {
            Err(e) => Err(e),
            Ok((e, d)) => match spec_symbol(ts, i + 1 + d, ';') {
                Err(x) => Err(x),
                Ok(_) => Ok((PStmt::Return(e), d + 2)),
            },
        }
    } else if is_kw(ts, i, "for"@) {
        match spec_for(ts, fl, i + 1) {
            Err(e) => Err(e),
            Ok((s, d)) => Ok((s, d + 1)),
        }
    } else if is_kw(ts, i, "if"@) {
        match spec_if(ts, fl, i + 1) {
            Err(e) => Err(e),
            Ok((s, d)) => Ok((s, d + 1)),
        }
    } else if spec_peek_type_name(ts, i) {
        match spec_let_parts(ts, fl, i, true) {
            Err(e) => Err(e),
            Ok(((n, t, e), d)) => Ok((PStmt::Let(n, t, e), d)),
        }
    } else {
        match spec_peek_assignment_name(ts, i) {
            Some(name) => match spec_expr(ts, fl, i + 2) {
                Err(e) => Err(e),
                Ok((e, d)) => match spec_symbol(ts, i + 2 + d, ';') {
                    Err(x) => Err(x),
                    Ok(_) => Ok((PStmt::Assign(name, e), d + 3)),
                },
            },
            None => match spec_expr(ts, fl, i) {
                Err(e) => Err(e),
                Ok((e, d)) => match spec_symbol(ts, i + d, ';') {
                    Err(x) => Err(x),
                    Ok(_) => Ok((PStmt::Expr(e), d + 1)),
                },
            },
        }
    }
}

/// `(type name = init; condition; name = update) { body }` at `i`, after
/// `for`.
pub open spec fn spec_for(ts: Seq<SpecToken>, fl: Seq<Option<u64>>, i: int) -> Result<(PStmt, nat), SpecDiagnostic>
    decreases ts.len() - i, 28int,
    when 0 <= i <= ts.len()
{
    if i >= ts.len() {
        Err(err_at(ts, i, symbol_message('(')))
    } else {
        match spec_symbol(ts, i, '(') {
            Err(e) => Err(e),
            Ok(_) => match spec_let_parts(ts, fl, i + 1, false) {
                Err(e) => Err(e),
                Ok(((n, t, init), d1)) => {
                    let a = i + 1 + d1;
                    match spec_symbol(ts, a, ';') {
                        Err(e) => Err(e),
                        Ok(_) => match spec_expr(ts, fl, a + 1) {
                            Err(e) => Err(e),
                            Ok((cond, d2)) => {
                                let b = a + 1 + d2;
                                match spec_symbol(ts, b, ';') {
                                    Err(e) => Err(e),
                                    Ok(_) => match spec_assignment(ts, fl, b + 1) {
                                        Err(e) => Err(e),
                                        Ok((upd, d3)) => {
                                            let c = b + 1 + d3;
                                            match spec_symbol(ts, c, ')') {
                                                Err(e) => Err(e),
                                                Ok(_) => match spec_symbol(ts, c + 1, '{') {
                                                    Err(e) => Err(e),
                                                    Ok(_) => match spec_block(ts, fl, seq![], cl(ts, c + 2)) {
                                                        Err(e) => Err(e),
                                                        Ok((body, d4)) => {
                                                            let e = c + 2 + d4;
                                                            match spec_symbol(ts, e, '}') {
                                                                Err(x) => Err(x),
                                                                Ok(_) => Ok(
                                                                    (
                                                                        PStmt::For(n, t, init, cond, Box::new(upd), body),
                                                                        (e + 1 - i) as nat,
                                                                    ),
                                                                ),
                                                            }
                                                        },
                                                    },
                                                },
                                            }
                                        },
                                    },
                                }
                            },
                        },
                    }
                },
            },
        }
    }
}

/// `(condition) { ... }`, then `else if ...` or `else { ... }` if present,
/// at `i`, after `if`.
pub open spec fn spec_if(ts: Seq<SpecToken>, fl: Seq<Option<u64>>, i: int) -> Result<(PStmt, nat), SpecDiagnostic>
    decreases ts.len() - i, 27int,
    when 0 <= i <= ts.len()
{
    if i >= ts.len() {
        Err(err_at(ts, i, symbol_message('(')))
    } else {
        match spec_symbol(ts, i, '(') {
            Err(e) => Err(e),
            Ok(_) => match spec_expr(ts, fl, i + 1) {
                Err(e) => Err(e),
                Ok((c, d)) => {
                    let a = i + 1 + d;
                    match spec_symbol(ts, a, ')') {
                        Err(e) => Err(e),
                        Ok(_) => match spec_braced(ts, fl, cl(ts, a + 1)) {
                            Err(e) => Err(e),
                            Ok((then_body, d2)) => {
                                let k = a + 1 + d2;
                                match spec_else(ts, fl, cl(ts, k)) {
                                    Err(e) => Err(e),
                                    Ok((else_body, d3)) => Ok(
                                        (PStmt::If(c, then_body, else_body), (k + d3 - i) as nat),
                                    ),
                                }
                            },
                        },
                    }
                },
            },
        }
    }
}

/// What follows the first branch of an `if` at `k`: `else if ...`, `else
/// { ... }`, or nothing.
pub open spec fn spec_else(ts: Seq<SpecToken>, fl: Seq<Option<u64>>, k: int) -> Result<(Seq<PStmt>, nat), SpecDiagnostic>
    decreases ts.len() - k, 25int,
    when 0 <= k <= ts.len()
{
    if k < ts.len() && is_kw(ts, k, "else"@) {
        if k + 1 < ts.len() && is_kw(ts, k + 1, "if"@) {
            match spec_if(ts, fl, k + 2) {
                Err(e) => Err(e),
                Ok((s, d)) => Ok((seq![s], d + 2)),
            }
        } else {
            match spec_braced(ts, fl, k + 1) {
                Err(e) => Err(e),
                Ok((b, d)) => Ok((b, d + 1)),
            }
        }
    } else {
        Ok((seq![], 0))
    }
}

/// `{ statements }` at `i`.
pub open spec fn spec_braced(ts: Seq<SpecToken>, fl: Seq<Option<u64>>, i: int) -> Result<(Seq<PStmt>, nat), SpecDiagnostic>
    decreases ts.len() - i, 26int,
    when 0 <= i <= ts.len()
{
    if i >= ts.len() {
        Err(err_at(ts, i, symbol_message('{')))
    } else {
        match spec_symbol(ts, i, '{') {
            Err(e) => Err(e),
            Ok(_) => match spec_block(ts, fl, seq![], i + 1) {
                Err(e) => Err(e),
                Ok((b, d)) => match spec_symbol(ts, i + 1 + d, '}') {
                    Err(x) => Err(x),
                    Ok(_) => Ok((b, d + 2)),
                },
            },
        }
    }
}

/// The statements from `i` up to a `}` or the end, after `acc`. A statement
/// that took no token would stop the loop; none does.
pub open spec fn spec_block(ts: Seq<SpecToken>, fl: Seq<Option<u64>>, acc: Seq<PStmt>, i: int) -> Result<
    (Seq<PStmt>, nat),
    SpecDiagnostic,
>
    decreases ts.len() - i, 30int,
    when 0 <= i <= ts.len()
{
    if i >= ts.len() || is_sym(ts, i, '}') || is_eof(ts, i) {
        Ok((acc, 0))
    } else {
        match spec_statement(ts, fl, i) {
            Err(e) => Err(e),
            Ok((s, d)) => if d == 0 {
                Err(err_at(ts, i, "expected expression"@))
            } else {
                match spec_block(ts, fl, acc.push(s), cl(ts, i + d)) {
                    Err(x) => Err(x),
                    Ok((b, d2)) => Ok((b, d + d2)),
                }
            },
        }
    }
}

/// Identifiers from `i`, each followed by `,` but the last, up to a `}` or
/// the end, after `acc`; one read before is an error (`dup` and the name).
pub open spec fn spec_names(ts: Seq<SpecToken>, acc: Seq<Seq<char>>, i: int, label: Seq<char>, dup: Seq<char>) -> Result<
    (Seq<Seq<char>>, nat),
    SpecDiagnostic,
>
    decreases ts.len() - i,
    when 0 <= i <= ts.len()
{
    if i >= ts.len() || is_sym(ts, i, '}') || is_eof(ts, i) {
        Ok((acc, 0))
    } else {
        match spec_identifier(ts, i, label) {
            Err(e) => Err(e),
            Ok(o) => if acc.contains(o) {
                Err(err_at(ts, i + 1, dup + o + "`"@))
            } else if i + 1 < ts.len() && is_sym(ts, i + 1, ',') {
                match spec_names(ts, acc.push(o), i + 2, label, dup) {
                    Err(e) => Err(e),
                    Ok((a, d)) => Ok((a, d + 2)),
                }
            } else {
                Ok((acc.push(o), 1))
            },
        }
    }
}

/// `{ a, b, ... }` at `i`: the options of an enum or flags parameter, or
/// the flags of a flags default.
pub open spec fn spec_name_list(ts: Seq<SpecToken>, i: int, label: Seq<char>, dup: Seq<char>) -> Result<
    (Seq<Seq<char>>, nat),
    SpecDiagnostic,
> {
    match spec_symbol(ts, i, '{') {
        Err(e) => Err(e),
        Ok(_) => match spec_names(ts, seq![], i + 1, label, dup) {
            Err(e) => Err(e),
            Ok((names, d)) => match spec_symbol(ts, i + 1 + d, '}') {
                Err(e) => Err(e),
                Ok(_) => Ok((names, d + 2)),
            },
        },
    }
}

/// The constant a literal expression denotes, and its type.
pub open spec fn literal_const(e: PExpr) -> Option<(PConst, ScriptType)> {
    match e {
        PExpr::Float(b) => Some((PConst::Float(b), ScriptType::Float)),
        PExpr::Int(v) => Some((PConst::Int(v), ScriptType::Int)),
        PExpr::Bool(b) => Some((PConst::Bool(b), ScriptType::Bool)),
        PExpr::Color(c) => Some((PConst::Color(c), ScriptType::Color)),
        _ => None,
    }
}

/// The first number token at or after `i`.
pub open spec fn first_number_from(ts: Seq<SpecToken>, i: int) -> int
    decreases ts.len() - i,
{
    if i < 0 || i >= ts.len() {
        i
    } else if ts[i].kind is Number {
        i
    } else {
        first_number_from(ts, i + 1)
    }
}

/// The first of `vs` that `opts` lacks.
pub open spec fn first_undeclared(vs: Seq<Seq<char>>, opts: Seq<Seq<char>>) -> Option<Seq<char>>
    decreases vs.len(),
{
    if vs.len() == 0 {
        None
    } else if !opts.contains(vs[0]) {
        Some(vs[0])
    } else {
        first_undeclared(vs.drop_first(), opts)
    }
}

/// The default of a parameter of type `t` with options `opts`, at `i`
/// after `=`: an option, a list of flags, or a literal that a value of type
/// `t` may hold (an integer given for a float becomes that float).
pub open spec fn spec_param_default(
    ts: Seq<SpecToken>,
    fl: Seq<Option<u64>>,
    t: ScriptType,
    opts: Seq<Seq<char>>,
    i: int,
) -> Result<(PConst, nat), SpecDiagnostic> {
    if t == ScriptType::Enum {
        match spec_identifier(ts, i, "enum default"@) {
            Err(e) => Err(e),
            Ok(v) => if opts.contains(v) {
                Ok((PConst::Enum(v), 1))
            } else {
                Err(err_at(ts, i + 1, "enum default `"@ + v + "` is not declared in the option list"@))
            },
        }
    } else if t == ScriptType::Flags {
        match spec_name_list(ts, i, "flag default"@, "duplicate flag default `"@) {
            Err(e) => Err(e),
            Ok((vs, d)) => match first_undeclared(vs, opts) {
                Some(v) => Err(err_at(ts, i + d, "flags default `"@ + v + "` is not declared in the option list"@)),
                None => Ok((PConst::Flags(vs), d)),
            },
        }
    } else {
        match spec_expr(ts, fl, i) {
            Err(e) => Err(e),
            Ok((e, d)) => match literal_const(e) {
                None => Err(SpecDiagnostic { range: None, message: "parameter defaults must be literals in Dawn v1"@ }),
                Some((c, vt)) => if !spec_is_assignable(t, vt) {
                    Err(
                        err_at(
                            ts,
                            i + d,
                            "default value must be "@ + spec_script_type_label(t) + ", but found "@
                                + spec_script_type_label(vt),
                        ),
                    )
                } else if t == ScriptType::Float && vt == ScriptType::Int {
                    let k = first_number_from(ts, i);
                    if 0 <= k < fl.len() && fl[k] is Some {
                        Ok((PConst::Float(fl[k]->0), d))
                    } else {
                        Err(err_at(ts, i + d, "invalid float literal"@))
                    }
                } else {
                    Ok((c, d))
                },
            },
        }
    }
}

/// `tyname name` at `i`, one argument of the sample function.
pub open spec fn spec_expect_arg(ts: Seq<SpecToken>, i: int, ty: ScriptType, tyname: Seq<char>, name: Seq<char>) -> Result<
    nat,
    SpecDiagnostic,
> {
    match spec_type_name(ts, i) {
        Err(e) => Err(e),
        Ok((t, d)) => if t != ty {
            Err(err_at(ts, i + d, "expected `"@ + tyname + " "@ + name + "`"@))
        } else {
            match spec_identifier(ts, i + d, "argument name"@) {
                Err(e) => Err(e),
                Ok(n) => if n != name {
                    Err(err_at(ts, i + d + 1, "expected argument `"@ + name + "`"@))
                } else {
                    Ok(d + 1)
                },
            }
        },
    }
}

/// `color sample(float progress, float seconds, Fixture fixture, Pixel
/// pixel) { ... }` at `i`: its statements.
pub open spec fn spec_sample(ts: Seq<SpecToken>, fl: Seq<Option<u64>>, i: int) -> Result<(Seq<PStmt>, nat), SpecDiagnostic> {
    match spec_type_name(ts, i) {
        Err(e) => Err(e),
        Ok((rt, d1)) => if rt != ScriptType::Color {
            Err(err_at(ts, i + d1, "sample must return color"@))
        } else {
            match spec_identifier(ts, i + d1, "function name"@) {
                Err(e) => Err(e),
                Ok(n) => if n != "sample"@ {
                    Err(err_at(ts, i + d1 + 1, "only sample entrypoint functions are supported"@))
                } else {
                    let a = i + d1 + 1;
                    match spec_symbol(ts, a, '(') {
                        Err(e) => Err(e),
                        Ok(_) => match spec_expect_arg(ts, a + 1, ScriptType::Float, "float"@, "progress"@) {
                            Err(e) => Err(e),
                            Ok(d2) => {
                                let b = a + 1 + d2;
                                match spec_symbol(ts, b, ',') {
                                    Err(e) => Err(e),
                                    Ok(_) => match spec_expect_arg(ts, b + 1, ScriptType::Float, "float"@, "seconds"@) {
                                        Err(e) => Err(e),
                                        Ok(d3) => {
                                            let c = b + 1 + d3;
                                            match spec_symbol(ts, c, ',') {
                                                Err(e) => Err(e),
                                                Ok(_) => match spec_expect_arg(
                                                    ts,
                                                    c + 1,
                                                    ScriptType::Fixture,
                                                    "Fixture"@,
                                                    "fixture"@,
                                                ) {
                                                    Err(e) => Err(e),
                                                    Ok(d4) => {
                                                        let e = c + 1 + d4;
                                                        match spec_symbol(ts, e, ',') {
                                                            Err(x) => Err(x),
                                                            Ok(_) => match spec_expect_arg(
                                                                ts,
                                                                e + 1,
                                                                ScriptType::Pixel,
                                                                "Pixel"@,
                                                                "pixel"@,
                                                            ) {
                                                                Err(x) => Err(x),
                                                                Ok(d5) => spec_sample_body(ts, fl, i, e + 1 + d5),
                                                            },
                                                        }
                                                    },
                                                },
                                            }
                                        },
                                    },
                                }
                            },
                        },
                    }
                },
            }
        },
    }
}

/// `) { statements }` at `f`, closing a sample function that starts at `i`.
pub open spec fn spec_sample_body(ts: Seq<SpecToken>, fl: Seq<Option<u64>>, i: int, f: int) -> Result<
    (Seq<PStmt>, nat),
    SpecDiagnostic,
> {
    match spec_symbol(ts, f, ')') {
        Err(e) => Err(e),
        Ok(_) => match spec_symbol(ts, f + 1, '{') {
            Err(e) => Err(e),
            Ok(_) => match spec_block(ts, fl, seq![], f + 2) {
                Err(e) => Err(e),
                Ok((b, d)) => match spec_symbol(ts, f + 2 + d, '}') {
                    Err(x) => Err(x),
                    Ok(_) => Ok((b, (f + 3 + d - i) as nat)),
                },
            },
        },
    }
}

/// The default part of a parameter declaration at `m`, where `=` may
/// follow: the default, if any, and where the declaration goes on.
pub open spec fn spec_default_part(
    ts: Seq<SpecToken>,
    fl: Seq<Option<u64>>,
    t: ScriptType,
    opts: Seq<Seq<char>>,
    m: int,
) -> Result<(Option<PConst>, int), SpecDiagnostic> {
    if m < ts.len() && is_sym(ts, m, '=') {
        if t == ScriptType::Marks {
            Err(err_at(ts, m + 1, "marks parameters cannot declare defaults"@))
        } else if is_kw(ts, m + 1, "import"@) {
            Err(err_at(ts, m + 1, "effect parameter defaults cannot import files"@))
        } else {
            match spec_param_default(ts, fl, t, opts, m + 1) {
                Err(e) => Err(e),
                Ok((c, d)) => Ok((Some(c), m + 1 + d)),
            }
        }
    } else {
        Ok((None, m))
    }
}

pub open spec fn has_options(t: ScriptType) -> bool {
    t == ScriptType::Enum || t == ScriptType::Flags
}

/// `param type name {options} = default;` at `i`.
pub open spec fn spec_param(ts: Seq<SpecToken>, fl: Seq<Option<u64>>, i: int) -> Result<(PSchema, nat), SpecDiagnostic> {
    if !is_kw(ts, i, "param"@) {
        Err(err_at(ts, i, "expected `param`"@))
    } else {
        match spec_type_name(ts, i + 1) {
            Err(e) => Err(e),
            Ok((t, d1)) => match spec_identifier(ts, i + 1 + d1, "parameter name"@) {
                Err(e) => Err(e),
                Ok(name) => {
                    let k = i + 2 + d1;
                    match (if has_options(t) {
                        spec_name_list(ts, k, "option"@, "duplicate option `"@)
                    } else {
                        Ok((seq![], 0))
                    }) {
                        Err(e) => Err(e),
                        Ok((opts, d2)) => match spec_default_part(ts, fl, t, opts, k + d2) {
                            Err(e) => Err(e),
                            Ok((default, n)) => if has_options(t) && opts.len() == 0 {
                                Err(err_at(ts, n, "enum and flags parameters must declare options"@))
                            } else {
                                match spec_symbol(ts, n, ';') {
                                    Err(e) => Err(e),
                                    Ok(_) => Ok(
                                        (
                                            PSchema { name, value_type: t, options: opts, default },
                                            (n + 1 - i) as nat,
                                        ),
                                    ),
                                }
                            },
                        },
                    }
                },
            },
        }
    }
}

/// The declarations of an effect from `i` up to `}` or the end: parameters,
/// and the sample function (a later one replaces an earlier).
pub open spec fn spec_body(
    ts: Seq<SpecToken>,
    fl: Seq<Option<u64>>,
    params: Seq<PSchema>,
    sample: Option<Seq<PStmt>>,
    i: int,
) -> Result<(Seq<PSchema>, Option<Seq<PStmt>>, nat), SpecDiagnostic>
    decreases ts.len() - i,
    when 0 <= i <= ts.len()
{
    if i >= ts.len() || is_sym(ts, i, '}') || is_eof(ts, i) {
        Ok((params, sample, 0))
    } else if is_kw(ts, i, "param"@) {
        match spec_param(ts, fl, i) {
            Err(e) => Err(e),
            Ok((p, d)) => if d == 0 {
                Err(err_at(ts, i, "expected `param`"@))
            } else {
                match spec_body(ts, fl, params.push(p), sample, cl(ts, i + d)) {
                    Err(e) => Err(e),
                    Ok((ps, sm, d2)) => Ok((ps, sm, d + d2)),
                }
            },
        }
    } else {
        match spec_sample(ts, fl, i) {
            Err(e) => Err(e),
            Ok((b, d)) => if d == 0 {
                Err(err_at(ts, i, "expected `param`"@))
            } else {
                match spec_body(ts, fl, params, Some(b), cl(ts, i + d)) {
                    Err(e) => Err(e),
                    Ok((ps, sm, d2)) => Ok((ps, sm, d + d2)),
                }
            },
        }
    }
}

/// What parsing the tokens `ts` of a script gives, with `fl` holding the
/// value of each number token as a double: `effect Name { declarations }`
/// and nothing after it.
pub open spec fn spec_parse(ts: Seq<SpecToken>, fl: Seq<Option<u64>>) -> Result<PEffect, SpecDiagnostic> {
    if ts.len() == 0 {
        Err(SpecDiagnostic { range: None, message: "script did not produce tokens"@ })
    } else if !is_kw(ts, 0, "effect"@) {
        Err(err_at(ts, 0, "expected `effect`"@))
    } else {
        match spec_identifier(ts, 1, "effect name"@) {
            Err(e) => Err(e),
            Ok(name) => match spec_symbol(ts, 2, '{') {
                Err(e) => Err(e),
                Ok(_) => match spec_body(ts, fl, seq![], None, 3) {
                    Err(e) => Err(e),
                    Ok((params, sample, d)) => {
                        let p = 3 + d as int;
                        match spec_symbol(ts, p, '}') {
                            Err(e) => Err(e),
                            Ok(_) => if !is_eof(ts, p + 1) {
                                Err(err_at(ts, p + 1, "expected exactly one effect declaration per file"@))
                            } else {
                                match sample {
                                    Some(b) => Ok(PEffect { name, params, samples: true, body: b }),
                                    None => Err(err_at(ts, p + 1, "missing sample entrypoint"@)),
                                }
                            },
                        }
                    },
                },
            },
        }
    }
}

/// What an expression parser returns, stated against the spec parser's
/// result `s` at `i`: the same tree and length, inside the stream, or the
/// same error.
pub open spec fn parsed_expr(
    ts: Seq<Token>,
    r: Result<(Expr, usize), ScriptDiagnostic>,
    i: int,
    s: Result<(PExpr, nat), SpecDiagnostic>,
) -> bool {
    match r {
        Ok((e, d)) => i + d < ts.len() && s == Ok::<(PExpr, nat), SpecDiagnostic>((pexpr(e), d as nat)),
        Err(x) => s == Err::<(PExpr, nat), SpecDiagnostic>(x@),
    }
}

/// A token that is not the stream's final `Eof` has one after it.
proof fn lemma_not_last(ts: Seq<Token>, i: int)
    requires
        well_formed(tokens_view(ts)),
        0 <= i < ts.len(),
        !is_eof(tokens_view(ts), i),
    ensures
        i + 1 < ts.len(),
        tokens_view(ts).len() == ts.len(),
{
    assert(tokens_view(ts).len() == ts.len());
}

fn p_expr(ts: &Vec<Token>, fl: &Vec<Option<u64>>, i: usize) -> (r: Result<(Expr, usize), ScriptDiagnostic>)
    requires
        well_formed(tokens_view(ts@)),
        fl@.len() == ts@.len(),
        i < ts@.len() <= usize::MAX,
    ensures
        parsed_expr(ts@, r, i as int, spec_expr(tokens_view(ts@), fl@, i as int)),
    decreases ts@.len() - i, 20int,
{
    p_or(ts, fl, i)
}

fn p_or(ts: &Vec<Token>, fl: &Vec<Option<u64>>, i: usize) -> (r: Result<(Expr, usize), ScriptDiagnostic>)
    requires
        well_formed(tokens_view(ts@)),
        fl@.len() == ts@.len(),
        i < ts@.len() <= usize::MAX,
    ensures
        parsed_expr(ts@, r, i as int, spec_or(tokens_view(ts@), fl@, i as int)),
    decreases ts@.len() - i, 19int,
{
    match p_and(ts, fl, i) {
        Err(x) => Err(x),
        Ok((e, d)) => match p_or_rest(ts, fl, e, i + d) {
            Err(x) => Err(x),
            Ok((r, d2)) => Ok((r, d + d2)),
        },
    }
}

fn p_or_rest(ts: &Vec<Token>, fl: &Vec<Option<u64>>, acc: Expr, i: usize) -> (r: Result<(Expr, usize), ScriptDiagnostic>)
    requires
        well_formed(tokens_view(ts@)),
        fl@.len() == ts@.len(),
        i < ts@.len() <= usize::MAX,
    ensures
        parsed_expr(ts@, r, i as int, spec_or_rest(tokens_view(ts@), fl@, pexpr(acc), i as int)),
    decreases ts@.len() - i, 18int,
{
    if pair_at(ts, i, '|', '|') {
        proof {
            lemma_not_last(ts@, i as int + 1);
        }
        match p_and(ts, fl, i + 2) {
            Err(x) => Err(x),
            Ok((r, d)) => {
                let bin = Expr::Binary { left: Box::new(acc), op: BinaryOp::LogicalOr, right: Box::new(r) };
                match p_or_rest(ts, fl, bin, i + 2 + d) {
                    Err(x) => Err(x),
                    Ok((x, d2)) => Ok((x, 2 + d + d2)),
                }
            },
        }
    } else {
        Ok((acc, 0))
    }
}

fn p_and(ts: &Vec<Token>, fl: &Vec<Option<u64>>, i: usize) -> (r: Result<(Expr, usize), ScriptDiagnostic>)
    requires
        well_formed(tokens_view(ts@)),
        fl@.len() == ts@.len(),
        i < ts@.len() <= usize::MAX,
    ensures
        parsed_expr(ts@, r, i as int, spec_and(tokens_view(ts@), fl@, i as int)),
    decreases ts@.len() - i, 17int,
{
    match p_equality(ts, fl, i) {
        Err(x) => Err(x),
        Ok((e, d)) => match p_and_rest(ts, fl, e, i + d) {
            Err(x) => Err(x),
            Ok((r, d2)) => Ok((r, d + d2)),
        },
    }
}

fn p_and_rest(ts: &Vec<Token>, fl: &Vec<Option<u64>>, acc: Expr, i: usize) -> (r: Result<(Expr, usize), ScriptDiagnostic>)
    requires
        well_formed(tokens_view(ts@)),
        fl@.len() == ts@.len(),
        i < ts@.len() <= usize::MAX,
    ensures
        parsed_expr(ts@, r, i as int, spec_and_rest(tokens_view(ts@), fl@, pexpr(acc), i as int)),
    decreases ts@.len() - i, 16int,
{
    if pair_at(ts, i, '&', '&') {
        proof {
            lemma_not_last(ts@, i as int + 1);
        }
        match p_equality(ts, fl, i + 2) {
            Err(x) => Err(x),
            Ok((r, d)) => {
                let bin = Expr::Binary { left: Box::new(acc), op: BinaryOp::LogicalAnd, right: Box::new(r) };
                match p_and_rest(ts, fl, bin, i + 2 + d) {
                    Err(x) => Err(x),
                    Ok((x, d2)) => Ok((x, 2 + d + d2)),
                }
            },
        }
    } else {
        Ok((acc, 0))
    }
}

fn p_equality(ts: &Vec<Token>, fl: &Vec<Option<u64>>, i: usize) -> (r: Result<(Expr, usize), ScriptDiagnostic>)
    requires
        well_formed(tokens_view(ts@)),
        fl@.len() == ts@.len(),
        i < ts@.len() <= usize::MAX,
    ensures
        parsed_expr(ts@, r, i as int, spec_equality(tokens_view(ts@), fl@, i as int)),
    decreases ts@.len() - i, 15int,
{
    match p_comparison(ts, fl, i) {
        Err(x) => Err(x),
        Ok((e, d)) => match p_equality_rest(ts, fl, e, i + d) {
            Err(x) => Err(x),
            Ok((r, d2)) => Ok((r, d + d2)),
        },
    }
}

fn p_equality_rest(ts: &Vec<Token>, fl: &Vec<Option<u64>>, acc: Expr, i: usize) -> (r: Result<(Expr, usize), ScriptDiagnostic>)
    requires
        well_formed(tokens_view(ts@)),
        fl@.len() == ts@.len(),
        i < ts@.len() <= usize::MAX,
    ensures
        parsed_expr(ts@, r, i as int, spec_equality_rest(tokens_view(ts@), fl@, pexpr(acc), i as int)),
    decreases ts@.len() - i, 14int,
{
    let op = if pair_at(ts, i, '=', '=') {
        BinaryOp::Equal
    } else if pair_at(ts, i, '!', '=') {
        BinaryOp::NotEqual
    } else {
        return Ok((acc, 0));
    };
    proof {
        lemma_not_last(ts@, i as int + 1);
    }
    match p_comparison(ts, fl, i + 2) {
        Err(x) => Err(x),
        Ok((r, d)) => {
            let bin = Expr::Binary { left: Box::new(acc), op, right: Box::new(r) };
            match p_equality_rest(ts, fl, bin, i + 2 + d) {
                Err(x) => Err(x),
                Ok((x, d2)) => Ok((x, 2 + d + d2)),
            }
        },
    }
}

fn p_comparison(ts: &Vec<Token>, fl: &Vec<Option<u64>>, i: usize) -> (r: Result<(Expr, usize), ScriptDiagnostic>)
    requires
        well_formed(tokens_view(ts@)),
        fl@.len() == ts@.len(),
        i < ts@.len() <= usize::MAX,
    ensures
        parsed_expr(ts@, r, i as int, spec_comparison(tokens_view(ts@), fl@, i as int)),
    decreases ts@.len() - i, 13int,
{
    match p_additive(ts, fl, i) {
        Err(x) => Err(x),
        Ok((e, d)) => match p_comparison_rest(ts, fl, e, i + d) {
            Err(x) => Err(x),
            Ok((r, d2)) => Ok((r, d + d2)),
        },
    }
}

fn p_comparison_rest(ts: &Vec<Token>, fl: &Vec<Option<u64>>, acc: Expr, i: usize) -> (r: Result<(Expr, usize), ScriptDiagnostic>)
    requires
        well_formed(tokens_view(ts@)),
        fl@.len() == ts@.len(),
        i < ts@.len() <= usize::MAX,
    ensures
        parsed_expr(ts@, r, i as int, spec_comparison_rest(tokens_view(ts@), fl@, pexpr(acc), i as int)),
    decreases ts@.len() - i, 12int,
{
    let (op, w): (BinaryOp, usize) = if pair_at(ts, i, '<', '=') {
        (BinaryOp::LessEqual, 2)
    } else if pair_at(ts, i, '>', '=') {
        (BinaryOp::GreaterEqual, 2)
    } else if sym_at(ts, i, '<') {
        (BinaryOp::Less, 1)
    } else if sym_at(ts, i, '>') {
        (BinaryOp::Greater, 1)
    } else {
        return Ok((acc, 0));
    };
    proof {
        lemma_not_last(ts@, i + w - 1);
    }
    match p_additive(ts, fl, i + w) {
        Err(x) => Err(x),
        Ok((r, d)) => {
            let bin = Expr::Binary { left: Box::new(acc), op, right: Box::new(r) };
            match p_comparison_rest(ts, fl, bin, i + w + d) {
                Err(x) => Err(x),
                Ok((x, d2)) => Ok((x, w + d + d2)),
            }
        },
    }
}

fn p_additive(ts: &Vec<Token>, fl: &Vec<Option<u64>>, i: usize) -> (r: Result<(Expr, usize), ScriptDiagnostic>)
    requires
        well_formed(tokens_view(ts@)),
        fl@.len() == ts@.len(),
        i < ts@.len() <= usize::MAX,
    ensures
        parsed_expr(ts@, r, i as int, spec_additive(tokens_view(ts@), fl@, i as int)),
    decreases ts@.len() - i, 11int,
{
    match p_multiplicative(ts, fl, i) {
        Err(x) => Err(x),
        Ok((e, d)) => match p_additive_rest(ts, fl, e, i + d) {
            Err(x) => Err(x),
            Ok((r, d2)) => Ok((r, d + d2)),
        },
    }
}

fn p_additive_rest(ts: &Vec<Token>, fl: &Vec<Option<u64>>, acc: Expr, i: usize) -> (r: Result<(Expr, usize), ScriptDiagnostic>)
    requires
        well_formed(tokens_view(ts@)),
        fl@.len() == ts@.len(),
        i < ts@.len() <= usize::MAX,
    ensures
        parsed_expr(ts@, r, i as int, spec_additive_rest(tokens_view(ts@), fl@, pexpr(acc), i as int)),
    decreases ts@.len() - i, 10int,
{
    let op = if sym_at(ts, i, '+') {
        BinaryOp::Add
    } else if sym_at(ts, i, '-') {
        BinaryOp::Subtract
    } else {
        return Ok((acc, 0));
    };
    proof {
        lemma_not_last(ts@, i as int);
    }
    match p_multiplicative(ts, fl, i + 1) {
        Err(x) => Err(x),
        Ok((r, d)) => {
            let bin = Expr::Binary { left: Box::new(acc), op, right: Box::new(r) };
            match p_additive_rest(ts, fl, bin, i + 1 + d) {
                Err(x) => Err(x),
                Ok((x, d2)) => Ok((x, 1 + d + d2)),
            }
        },
    }
}

fn p_multiplicative(ts: &Vec<Token>, fl: &Vec<Option<u64>>, i: usize) -> (r: Result<(Expr, usize), ScriptDiagnostic>)
    requires
        well_formed(tokens_view(ts@)),
        fl@.len() == ts@.len(),
        i < ts@.len() <= usize::MAX,
    ensures
        parsed_expr(ts@, r, i as int, spec_multiplicative(tokens_view(ts@), fl@, i as int)),
    decreases ts@.len() - i, 9int,
{
    match p_unary(ts, fl, i) {
        Err(x) => Err(x),
        Ok((e, d)) => match p_multiplicative_rest(ts, fl, e, i + d) {
            Err(x) => Err(x),
            Ok((r, d2)) => Ok((r, d + d2)),
        },
    }
}

fn p_multiplicative_rest(ts: &Vec<Token>, fl: &Vec<Option<u64>>, acc: Expr, i: usize) -> (r: Result<(Expr, usize), ScriptDiagnostic>)
    requires
        well_formed(tokens_view(ts@)),
        fl@.len() == ts@.len(),
        i < ts@.len() <= usize::MAX,
    ensures
        parsed_expr(ts@, r, i as int, spec_multiplicative_rest(tokens_view(ts@), fl@, pexpr(acc), i as int)),
    decreases ts@.len() - i, 8int,
{
    let op = if sym_at(ts, i, '*') {
        BinaryOp::Multiply
    } else if sym_at(ts, i, '/') {
        BinaryOp::Divide
    } else {
        return Ok((acc, 0));
    };
    proof {
        lemma_not_last(ts@, i as int);
    }
    match p_unary(ts, fl, i + 1) {
        Err(x) => Err(x),
        Ok((r, d)) => {
            let bin = Expr::Binary { left: Box::new(acc), op, right: Box::new(r) };
            match p_multiplicative_rest(ts, fl, bin, i + 1 + d) {
                Err(x) => Err(x),
                Ok((x, d2)) => Ok((x, 1 + d + d2)),
            }
        },
    }
}

fn p_unary(ts: &Vec<Token>, fl: &Vec<Option<u64>>, i: usize) -> (r: Result<(Expr, usize), ScriptDiagnostic>)
    requires
        well_formed(tokens_view(ts@)),
        fl@.len() == ts@.len(),
        i < ts@.len() <= usize::MAX,
    ensures
        parsed_expr(ts@, r, i as int, spec_unary(tokens_view(ts@), fl@, i as int)),
    decreases ts@.len() - i, 7int,
{
    let op = if sym_at(ts, i, '-') {
        UnaryOp::Negate
    } else if sym_at(ts, i, '!') {
        UnaryOp::Not
    } else {
        return p_primary(ts, fl, i);
    };
    proof {
        lemma_not_last(ts@, i as int);
    }
    match p_unary(ts, fl, i + 1) {
        Err(x) => Err(x),
        Ok((e, d)) => Ok((Expr::Unary { op, expr: Box::new(e) }, d + 1)),
    }
}

#[verifier::rlimit(80)]
fn p_primary(ts: &Vec<Token>, fl: &Vec<Option<u64>>, i: usize) -> (r: Result<(Expr, usize), ScriptDiagnostic>)
    requires
        well_formed(tokens_view(ts@)),
        fl@.len() == ts@.len(),
        i < ts@.len() <= usize::MAX,
    ensures
        parsed_expr(ts@, r, i as int, spec_primary(tokens_view(ts@), fl@, i as int)),
    decreases ts@.len() - i, 6int,
{
    let ghost tv = tokens_view(ts@);
    match kind_at(ts, i) {
        TokenKind::Number(raw) => {
            proof {
                lemma_not_last(ts@, i as int);
            }
            p_number(ts, fl, i, raw)
        },
        TokenKind::Color(raw) => {
            proof {
                lemma_not_last(ts@, i as int);
            }
            match Color::parse(raw.as_str()) {
                Ok(c) => Ok((Expr::Color(c), 1)),
                Err(m) => Err(error_at(ts, i, m)),
            }
        },
        TokenKind::Ident(n) => {
            proof {
                lemma_not_last(ts@, i as int);
            }
            if str_eq(n.as_str(), "true") {
                Ok((Expr::Bool(true), 1))
            } else if str_eq(n.as_str(), "false") {
                Ok((Expr::Bool(false), 1))
            } else if sym_at(ts, i + 1, '(') {
                proof {
                    lemma_not_last(ts@, i + 1);
                }
                let none: Vec<Expr> = Vec::new();
                assert(pexprs(none@) =~= Seq::<PExpr>::empty());
                if sym_at(ts, i + 2, ')') {
                    proof {
                        lemma_not_last(ts@, i + 2);
                    }
                    return Ok((Expr::Call { name: n.clone(), args: none }, 3));
                }
                match p_args(ts, fl, none, i + 2) {
                    Err(x) => Err(x),
                    Ok((args, d)) => match expect_symbol(ts, i + 2 + d, ')') {
                        Err(x) => Err(x),
                        Ok(()) => {
                            proof {
                                lemma_not_last(ts@, i + 2 + d);
                            }
                            Ok((Expr::Call { name: n.clone(), args }, d + 3))
                        },
                    },
                }
            } else {
                Ok((Expr::Ident(n.clone()), 1))
            }
        },
        TokenKind::Symbol(c) => {
            if *c == '(' {
                proof {
                    lemma_not_last(ts@, i as int);
                }
                match p_expr(ts, fl, i + 1) {
                    Err(x) => Err(x),
                    Ok((e, d)) => match expect_symbol(ts, i + 1 + d, ')') {
                        Err(x) => Err(x),
                        Ok(()) => {
                            proof {
                                lemma_not_last(ts@, i + 1 + d);
                            }
                            Ok((e, d + 2))
                        },
                    },
                }
            } else {
                Err(error_at(ts, i, String::from_str("expected expression")))
            }
        },
        _ => Err(error_at(ts, i, String::from_str("expected expression"))),
    }
}

#[verifier::rlimit(40)]
fn p_args(ts: &Vec<Token>, fl: &Vec<Option<u64>>, acc: Vec<Expr>, i: usize) -> (r: Result<(Vec<Expr>, usize), ScriptDiagnostic>)
    requires
        well_formed(tokens_view(ts@)),
        fl@.len() == ts@.len(),
        i < ts@.len() <= usize::MAX,
    ensures
        match r {
            Ok((a, d)) => i + d < ts@.len() && spec_args(tokens_view(ts@), fl@, pexprs(acc@), i as int) == Ok::<
                (Seq<PExpr>, nat),
                SpecDiagnostic,
            >((pexprs(a@), d as nat)),
            Err(x) => spec_args(tokens_view(ts@), fl@, pexprs(acc@), i as int) == Err::<(Seq<PExpr>, nat), SpecDiagnostic>(
                x@,
            ),
        },
    decreases ts@.len() - i, 21int,
{
    match p_expr(ts, fl, i) {
        Err(x) => Err(x),
        Ok((e, d)) => {
            let mut acc = acc;
            let ghost before = acc@;
            let ghost pe = pexpr(e);
            acc.push(e);
            proof {
                assert(acc@.drop_last() =~= before);
                assert(pexprs(acc@) == pexprs(before).push(pe));
            }
            if sym_at(ts, i + d, ',') {
                proof {
                    lemma_not_last(ts@, i + d);
                }
                match p_args(ts, fl, acc, i + d + 1) {
                    Err(x) => Err(x),
                    Ok((a, d2)) => Ok((a, d + 1 + d2)),
                }
            } else {
                Ok((acc, d))
            }
        },
    }
}

pub open spec fn parsed_stmt(
    ts: Seq<Token>,
    r: Result<(Stmt, usize), ScriptDiagnostic>,
    i: int,
    s: Result<(PStmt, nat), SpecDiagnostic>,
) -> bool {
    match r {
        Ok((st, d)) => i + d < ts.len() && s == Ok::<(PStmt, nat), SpecDiagnostic>((pstmt(st), d as nat)),
        Err(x) => s == Err::<(PStmt, nat), SpecDiagnostic>(x@),
    }
}

pub open spec fn parsed_stmts(
    ts: Seq<Token>,
    r: Result<(Vec<Stmt>, usize), ScriptDiagnostic>,
    i: int,
    s: Result<(Seq<PStmt>, nat), SpecDiagnostic>,
) -> bool {
    match r {
        Ok((b, d)) => i + d < ts.len() && s == Ok::<(Seq<PStmt>, nat), SpecDiagnostic>((pstmts(b@), d as nat)),
        Err(x) => s == Err::<(Seq<PStmt>, nat), SpecDiagnostic>(x@),
    }
}

fn simple_type_of(n: &str) -> (r: Option<ScriptType>)
    ensures
        r == simple_type(n@),
{
    if str_eq(n, "float") {
        Some(ScriptType::Float)
    } else if str_eq(n, "int") {
        Some(ScriptType::Int)
    } else if str_eq(n, "bool") {
        Some(ScriptType::Bool)
    } else if str_eq(n, "color") {
        Some(ScriptType::Color)
    } else if str_eq(n, "marks") {
        Some(ScriptType::Marks)
    } else if str_eq(n, "enum") {
        Some(ScriptType::Enum)
    } else if str_eq(n, "flags") {
        Some(ScriptType::Flags)
    } else if str_eq(n, "Fixture") {
        Some(ScriptType::Fixture)
    } else if str_eq(n, "Pixel") {
        Some(ScriptType::Pixel)
    } else {
        None
    }
}

#[verifier::rlimit(40)]
fn p_type_name(ts: &Vec<Token>, i: usize) -> (r: Result<(ScriptType, usize), ScriptDiagnostic>)
    requires
        well_formed(tokens_view(ts@)),
        i < ts@.len() <= usize::MAX,
    ensures
        match r {
            Ok((t, d)) => i + d < ts@.len() && spec_type_name(tokens_view(ts@), i as int) == Ok::<
                (ScriptType, nat),
                SpecDiagnostic,
            >((t, d as nat)),
            Err(x) => spec_type_name(tokens_view(ts@), i as int) == Err::<(ScriptType, nat), SpecDiagnostic>(x@),
        },
{
    let n = match expect_identifier(ts, i, "type") {
        Err(x) => {
            return Err(x);
        },
        Ok(n) => n,
    };
    proof {
        lemma_not_last(ts@, i as int);
    }
    if let Some(t) = simple_type_of(n.as_str()) {
        return Ok((t, 1));
    }
    if !str_eq(n.as_str(), "curve") {
        return Err(error_at(ts, i + 1, concat3("unknown type `", n.as_str(), "`")));
    }
    if let Err(x) = expect_symbol(ts, i + 1, '<') {
        return Err(x);
    }
    proof {
        lemma_not_last(ts@, i + 1);
    }
    let inner = match expect_identifier(ts, i + 2, "curve value type") {
        Err(x) => {
            return Err(x);
        },
        Ok(v) => v,
    };
    proof {
        lemma_not_last(ts@, i + 2);
    }
    if let Err(x) = expect_symbol(ts, i + 3, '>') {
        return Err(x);
    }
    proof {
        lemma_not_last(ts@, i + 3);
    }
    if str_eq(inner.as_str(), "float") {
        Ok((ScriptType::CurveFloat, 4))
    } else if str_eq(inner.as_str(), "color") {
        Ok((ScriptType::CurveColor, 4))
    } else {
        Err(error_at(ts, i + 4, String::from_str("curve value type must be float or color")))
    }
}

fn p_peek_type_name(ts: &Vec<Token>, i: usize) -> (b: bool)
    requires
        i < ts@.len(),
    ensures
        b == spec_peek_type_name(tokens_view(ts@), i as int),
{
    match kind_at(ts, i) {
        TokenKind::Ident(v) => simple_type_of(v.as_str()).is_some() || str_eq(v.as_str(), "curve"),
        _ => false,
    }
}

fn p_peek_assignment_name(ts: &Vec<Token>, i: usize) -> (r: Option<String>)
    requires
        i < ts@.len() <= usize::MAX,
    ensures
        match r {
            Some(n) => spec_peek_assignment_name(tokens_view(ts@), i as int) == Some(n@),
            None => spec_peek_assignment_name(tokens_view(ts@), i as int) is None,
        },
{
    match kind_at(ts, i) {
        TokenKind::Ident(name) => if i + 1 < ts.len() && sym_at(ts, i + 1, '=') && !(i + 2 < ts.len() && sym_at(
            ts,
            i + 2,
            '=',
        )) {
            Some(name.clone())
        } else {
            None
        },
        _ => None,
    }
}

#[verifier::rlimit(40)]
fn p_let_parts(ts: &Vec<Token>, fl: &Vec<Option<u64>>, i: usize, semicolon: bool) -> (r: Result<
    ((String, ScriptType, Expr), usize),
    ScriptDiagnostic,
>)
    requires
        well_formed(tokens_view(ts@)),
        fl@.len() == ts@.len(),
        i < ts@.len() <= usize::MAX,
    ensures
        match r {
            Ok(((n, t, e), d)) => i + d < ts@.len() && spec_let_parts(tokens_view(ts@), fl@, i as int, semicolon)
                == Ok::<((Seq<char>, ScriptType, PExpr), nat), SpecDiagnostic>(((n@, t, pexpr(e)), d as nat)),
            Err(x) => spec_let_parts(tokens_view(ts@), fl@, i as int, semicolon) == Err::<
                ((Seq<char>, ScriptType, PExpr), nat),
                SpecDiagnostic,
            >(x@),
        },
{
    let (t, d1) = match p_type_name(ts, i) {
        Err(x) => {
            return Err(x);
        },
        Ok(v) => v,
    };
    let n = match expect_identifier(ts, i + d1, "local name") {
        Err(x) => {
            return Err(x);
        },
        Ok(n) => n,
    };
    proof {
        lemma_not_last(ts@, i + d1);
    }
    if let Err(x) = expect_symbol(ts, i + d1 + 1, '=') {
        return Err(x);
    }
    proof {
        lemma_not_last(ts@, i + d1 + 1);
    }
    let (e, d2) = match p_expr(ts, fl, i + d1 + 2) {
        Err(x) => {
            return Err(x);
        },
        Ok(v) => v,
    };
    if semicolon {
        if let Err(x) = expect_symbol(ts, i + d1 + 2 + d2, ';') {
            return Err(x);
        }
        proof {
            lemma_not_last(ts@, i + d1 + 2 + d2);
        }
        Ok(((n, t, e), d1 + 2 + d2 + 1))
    } else {
        Ok(((n, t, e), d1 + 2 + d2))
    }
}

fn p_assignment(ts: &Vec<Token>, fl: &Vec<Option<u64>>, i: usize) -> (r: Result<(Stmt, usize), ScriptDiagnostic>)
    requires
        well_formed(tokens_view(ts@)),
        fl@.len() == ts@.len(),
        i < ts@.len() <= usize::MAX,
    ensures
        parsed_stmt(ts@, r, i as int, spec_assignment(tokens_view(ts@), fl@, i as int)),
{
    let n = match expect_identifier(ts, i, "local name") {
        Err(x) => {
            return Err(x);
        },
        Ok(n) => n,
    };
    proof {
        lemma_not_last(ts@, i as int);
    }
    if let Err(x) = expect_symbol(ts, i + 1, '=') {
        return Err(x);
    }
    proof {
        lemma_not_last(ts@, i + 1);
    }
    match p_expr(ts, fl, i + 2) {
        Err(x) => Err(x),
        Ok((e, d)) => Ok((Stmt::Assign { name: n, expr: e }, d + 2)),
    }
}

#[verifier::rlimit(80)]
fn p_statement(ts: &Vec<Token>, fl: &Vec<Option<u64>>, i: usize) -> (r: Result<(Stmt, usize), ScriptDiagnostic>)
    requires
        well_formed(tokens_view(ts@)),
        fl@.len() == ts@.len(),
        i < ts@.len() <= usize::MAX,
    ensures
        parsed_stmt(ts@, r, i as int, spec_statement(tokens_view(ts@), fl@, i as int)),
    decreases ts@.len() - i, 29int,
{
    if kw_at(ts, i, "return") {
        proof {
            lemma_not_last(ts@, i as int);
        }
        return match p_expr(ts, fl, i + 1) {
            Err(x) => Err(x),
            Ok((e, d)) => match expect_symbol(ts, i + 1 + d, ';') {
                Err(x) => Err(x),
                Ok(()) => {
                    proof {
                        lemma_not_last(ts@, i + 1 + d);
                    }
                    Ok((Stmt::Return(e), d + 2))
                },
            },
        };
    }
    if kw_at(ts, i, "for") {
        proof {
            lemma_not_last(ts@, i as int);
        }
        return match p_for(ts, fl, i + 1) {
            Err(x) => Err(x),
            Ok((st, d)) => Ok((st, d + 1)),
        };
    }
    if kw_at(ts, i, "if") {
        proof {
            lemma_not_last(ts@, i as int);
        }
        return match p_if(ts, fl, i + 1) {
            Err(x) => Err(x),
            Ok((st, d)) => Ok((st, d + 1)),
        };
    }
    if p_peek_type_name(ts, i) {
        return match p_let_parts(ts, fl, i, true) {
            Err(x) => Err(x),
            Ok(((n, t, e), d)) => Ok((Stmt::Let { name: n, value_type: t, expr: e }, d)),
        };
    }
    match p_peek_assignment_name(ts, i) {
        Some(name) => {
            proof {
                lemma_not_last(ts@, i + 1);
            }
            match p_expr(ts, fl, i + 2) {
                Err(x) => Err(x),
                Ok((e, d)) => match expect_symbol(ts, i + 2 + d, ';') {
                    Err(x) => Err(x),
                    Ok(()) => {
                        proof {
                            lemma_not_last(ts@, i + 2 + d);
                        }
                        Ok((Stmt::Assign { name, expr: e }, d + 3))
                    },
                },
            }
        },
        None => match p_expr(ts, fl, i) {
            Err(x) => Err(x),
            Ok((e, d)) => match expect_symbol(ts, i + d, ';') {
                Err(x) => Err(x),
                Ok(()) => {
                    proof {
                        lemma_not_last(ts@, i + d);
                    }
                    Ok((Stmt::Expr(e), d + 1))
                },
            },
        },
    }
}

#[verifier::rlimit(100)]
fn p_for(ts: &Vec<Token>, fl: &Vec<Option<u64>>, i: usize) -> (r: Result<(Stmt, usize), ScriptDiagnostic>)
    requires
        well_formed(tokens_view(ts@)),
        fl@.len() == ts@.len(),
        i < ts@.len() <= usize::MAX,
    ensures
        parsed_stmt(ts@, r, i as int, spec_for(tokens_view(ts@), fl@, i as int)),
    decreases ts@.len() - i, 28int,
{
    if let Err(x) = expect_symbol(ts, i, '(') {
        return Err(x);
    }
    proof {
        lemma_not_last(ts@, i as int);
    }
    let ((n, t, init), d1) = match p_let_parts(ts, fl, i + 1, false) {
        Err(x) => {
            return Err(x);
        },
        Ok(v) => v,
    };
    let a = i + 1 + d1;
    if let Err(x) = expect_symbol(ts, a, ';') {
        return Err(x);
    }
    proof {
        lemma_not_last(ts@, a as int);
    }
    let (cond, d2) = match p_expr(ts, fl, a + 1) {
        Err(x) => {
            return Err(x);
        },
        Ok(v) => v,
    };
    let b = a + 1 + d2;
    if let Err(x) = expect_symbol(ts, b, ';') {
        return Err(x);
    }
    proof {
        lemma_not_last(ts@, b as int);
    }
    let (upd, d3) = match p_assignment(ts, fl, b + 1) {
        Err(x) => {
            return Err(x);
        },
        Ok(v) => v,
    };
    let c = b + 1 + d3;
    if let Err(x) = expect_symbol(ts, c, ')') {
        return Err(x);
    }
    proof {
        lemma_not_last(ts@, c as int);
    }
    if let Err(x) = expect_symbol(ts, c + 1, '{') {
        return Err(x);
    }
    proof {
        lemma_not_last(ts@, c + 1);
    }
    let empty: Vec<Stmt> = Vec::new();
    assert(pstmts(empty@) =~= Seq::<PStmt>::empty());
    let (body, d4) = match p_block(ts, fl, empty, c + 2) {
        Err(x) => {
            return Err(x);
        },
        Ok(v) => v,
    };
    let e = c + 2 + d4;
    if let Err(x) = expect_symbol(ts, e, '}') {
        return Err(x);
    }
    proof {
        lemma_not_last(ts@, e as int);
    }
    Ok((
        Stmt::For {
            name: n,
            value_type: t,
            initializer: init,
            condition: cond,
            update: Box::new(upd),
            body,
        },
        e + 1 - i,
    ))
}

#[verifier::rlimit(100)]
fn p_if(ts: &Vec<Token>, fl: &Vec<Option<u64>>, i: usize) -> (r: Result<(Stmt, usize), ScriptDiagnostic>)
    requires
        well_formed(tokens_view(ts@)),
        fl@.len() == ts@.len(),
        i < ts@.len() <= usize::MAX,
    ensures
        parsed_stmt(ts@, r, i as int, spec_if(tokens_view(ts@), fl@, i as int)),
    decreases ts@.len() - i, 27int,
{
    if let Err(x) = expect_symbol(ts, i, '(') {
        return Err(x);
    }
    proof {
        lemma_not_last(ts@, i as int);
    }
    let (c, d) = match p_expr(ts, fl, i + 1) {
        Err(x) => {
            return Err(x);
        },
        Ok(v) => v,
    };
    let a = i + 1 + d;
    if let Err(x) = expect_symbol(ts, a, ')') {
        return Err(x);
    }
    proof {
        lemma_not_last(ts@, a as int);
    }
    let (then_body, d2) = match p_braced(ts, fl, a + 1) {
        Err(x) => {
            return Err(x);
        },
        Ok(v) => v,
    };
    let k = a + 1 + d2;
    match p_else(ts, fl, k) {
        Err(x) => Err(x),
        Ok((else_body, d3)) => Ok((Stmt::If { condition: c, then_body, else_body }, k + d3 - i)),
    }
}

#[verifier::rlimit(80)]
fn p_else(ts: &Vec<Token>, fl: &Vec<Option<u64>>, k: usize) -> (r: Result<(Vec<Stmt>, usize), ScriptDiagnostic>)
    requires
        well_formed(tokens_view(ts@)),
        fl@.len() == ts@.len(),
        k < ts@.len() <= usize::MAX,
    ensures
        match r {
            Ok((b, d)) => k + d < ts@.len() && spec_else(tokens_view(ts@), fl@, k as int) == Ok::<
                (Seq<PStmt>, nat),
                SpecDiagnostic,
            >((pstmts(b@), d as nat)),
            Err(x) => spec_else(tokens_view(ts@), fl@, k as int) == Err::<(Seq<PStmt>, nat), SpecDiagnostic>(x@),
        },
    decreases ts@.len() - k, 25int,
{
    if kw_at(ts, k, "else") {
        proof {
            lemma_not_last(ts@, k as int);
        }
        if kw_at(ts, k + 1, "if") {
            proof {
                lemma_not_last(ts@, k + 1);
            }
            match p_if(ts, fl, k + 2) {
                Err(x) => Err(x),
                Ok((st, d)) => {
                    let mut body: Vec<Stmt> = Vec::new();
                    let ghost ps = pstmt(st);
                    body.push(st);
                    proof {
                        assert(body@.drop_last() =~= Seq::<Stmt>::empty());
                        assert(pstmts(Seq::<Stmt>::empty()) =~= Seq::<PStmt>::empty());
                        assert(pstmts(body@) =~= seq![ps]);
                    }
                    Ok((body, d + 2))
                },
            }
        } else {
            match p_braced(ts, fl, k + 1) {
                Err(x) => Err(x),
                Ok((b, d)) => Ok((b, d + 1)),
            }
        }
    } else {
        let body: Vec<Stmt> = Vec::new();
        assert(pstmts(body@) =~= Seq::<PStmt>::empty());
        Ok((body, 0))
    }
}

fn p_braced(ts: &Vec<Token>, fl: &Vec<Option<u64>>, i: usize) -> (r: Result<(Vec<Stmt>, usize), ScriptDiagnostic>)
    requires
        well_formed(tokens_view(ts@)),
        fl@.len() == ts@.len(),
        i < ts@.len() <= usize::MAX,
    ensures
        parsed_stmts(ts@, r, i as int, spec_braced(tokens_view(ts@), fl@, i as int)),
    decreases ts@.len() - i, 26int,
{
    if let Err(x) = expect_symbol(ts, i, '{') {
        return Err(x);
    }
    proof {
        lemma_not_last(ts@, i as int);
    }
    let empty: Vec<Stmt> = Vec::new();
    assert(pstmts(empty@) =~= Seq::<PStmt>::empty());
    match p_block(ts, fl, empty, i + 1) {
        Err(x) => Err(x),
        Ok((b, d)) => match expect_symbol(ts, i + 1 + d, '}') {
            Err(x) => Err(x),
            Ok(()) => {
                proof {
                    lemma_not_last(ts@, i + 1 + d);
                }
                Ok((b, d + 2))
            },
        },
    }
}

#[verifier::rlimit(40)]
fn p_block(ts: &Vec<Token>, fl: &Vec<Option<u64>>, acc: Vec<Stmt>, i: usize) -> (r: Result<(Vec<Stmt>, usize), ScriptDiagnostic>)
    requires
        well_formed(tokens_view(ts@)),
        fl@.len() == ts@.len(),
        i < ts@.len() <= usize::MAX,
    ensures
        parsed_stmts(ts@, r, i as int, spec_block(tokens_view(ts@), fl@, pstmts(acc@), i as int)),
    decreases ts@.len() - i, 30int,
{
    if sym_at(ts, i, '}') || eof_at(ts, i) {
        return Ok((acc, 0));
    }
    match p_statement(ts, fl, i) {
        Err(x) => Err(x),
        Ok((st, d)) => {
            if d == 0 {
                return Err(error_at(ts, i, String::from_str("expected expression")));
            }
            let mut acc = acc;
            let ghost before = acc@;
            let ghost ps = pstmt(st);
            acc.push(st);
            proof {
                assert(acc@.drop_last() =~= before);
                assert(pstmts(acc@) == pstmts(before).push(ps));
            }
            match p_block(ts, fl, acc, i + d) {
                Err(x) => Err(x),
                Ok((b, d2)) => Ok((b, d + d2)),
            }
        },
    }
}

pub open spec fn opt_pconst(c: Option<ConstantValue>) -> Option<PConst> {
    match c {
        Some(c) => Some(pconst(c)),
        None => None,
    }
}

pub open spec fn opt_pstmts(b: Option<Vec<Stmt>>) -> Option<Seq<PStmt>> {
    match b {
        Some(b) => Some(pstmts(b@)),
        None => None,
    }
}

fn contains_name(names: &Vec<String>, o: &str) -> (b: bool)
    ensures
        b == string_views(names@).contains(o@),
{
    let ghost views = string_views(names@);
    let mut k: usize = 0;
    while k < names.len()
        invariant
            k <= names@.len(),
            views == string_views(names@),
            forall|m: int| 0 <= m < k ==> names@[m]@ != o@,
        decreases names@.len() - k,
    {
        if str_eq(names[k].as_str(), o) {
            assert(views[k as int] == o@);
            return true;
        }
        k += 1;
    }
    assert forall|m: int| 0 <= m < views.len() implies views[m] != o@ by {
        assert(views[m] == names@[m]@);
    }
    false
}

fn p_names(ts: &Vec<Token>, acc: Vec<String>, i: usize, label: &str, dup: &str) -> (r: Result<
    (Vec<String>, usize),
    ScriptDiagnostic,
>)
    requires
        well_formed(tokens_view(ts@)),
        i < ts@.len() <= usize::MAX,
    ensures
        match r {
            Ok((a, d)) => i + d < ts@.len() && spec_names(tokens_view(ts@), string_views(acc@), i as int, label@, dup@)
                == Ok::<(Seq<Seq<char>>, nat), SpecDiagnostic>((string_views(a@), d as nat)),
            Err(x) => spec_names(tokens_view(ts@), string_views(acc@), i as int, label@, dup@) == Err::<
                (Seq<Seq<char>>, nat),
                SpecDiagnostic,
            >(x@),
        },
    decreases ts@.len() - i,
{
    if sym_at(ts, i, '}') || eof_at(ts, i) {
        return Ok((acc, 0));
    }
    let o = match expect_identifier(ts, i, label) {
        Err(x) => {
            return Err(x);
        },
        Ok(o) => o,
    };
    proof {
        lemma_not_last(ts@, i as int);
    }
    if contains_name(&acc, o.as_str()) {
        return Err(error_at(ts, i + 1, concat3(dup, o.as_str(), "`")));
    }
    let mut acc = acc;
    let ghost before = acc@;
    let ghost ov = o@;
    acc.push(o);
    assert(string_views(acc@) =~= string_views(before).push(ov));
    if sym_at(ts, i + 1, ',') {
        proof {
            lemma_not_last(ts@, i + 1);
        }
        match p_names(ts, acc, i + 2, label, dup) {
            Err(x) => Err(x),
            Ok((a, d)) => Ok((a, d + 2)),
        }
    } else {
        Ok((acc, 1))
    }
}

fn p_name_list(ts: &Vec<Token>, i: usize, label: &str, dup: &str) -> (r: Result<(Vec<String>, usize), ScriptDiagnostic>)
    requires
        well_formed(tokens_view(ts@)),
        i < ts@.len() <= usize::MAX,
    ensures
        match r {
            Ok((a, d)) => i + d < ts@.len() && spec_name_list(tokens_view(ts@), i as int, label@, dup@) == Ok::<
                (Seq<Seq<char>>, nat),
                SpecDiagnostic,
            >((string_views(a@), d as nat)),
            Err(x) => spec_name_list(tokens_view(ts@), i as int, label@, dup@) == Err::<
                (Seq<Seq<char>>, nat),
                SpecDiagnostic,
            >(x@),
        },
{
    if let Err(x) = expect_symbol(ts, i, '{') {
        return Err(x);
    }
    proof {
        lemma_not_last(ts@, i as int);
    }
    let empty: Vec<String> = Vec::new();
    assert(string_views(empty@) =~= Seq::<Seq<char>>::empty());
    let (names, d) = match p_names(ts, empty, i + 1, label, dup) {
        Err(x) => {
            return Err(x);
        },
        Ok(v) => v,
    };
    if let Err(x) = expect_symbol(ts, i + 1 + d, '}') {
        return Err(x);
    }
    proof {
        lemma_not_last(ts@, i + 1 + d);
    }
    Ok((names, d + 2))
}

fn literal_of(e: &Expr) -> (r: Option<(ConstantValue, ScriptType)>)
    ensures
        match r {
            Some((c, t)) => literal_const(pexpr(*e)) == Some((pconst(c), t)),
            None => literal_const(pexpr(*e)) is None,
        },
{
    match e {
        Expr::Float(b) => Some((ConstantValue::Float(*b), ScriptType::Float)),
        Expr::Int(v) => Some((ConstantValue::Int(*v), ScriptType::Int)),
        Expr::Bool(b) => Some((ConstantValue::Bool(*b), ScriptType::Bool)),
        Expr::Color(c) => Some((ConstantValue::Color(*c), ScriptType::Color)),
        _ => None,
    }
}

fn first_number(ts: &Vec<Token>, i: usize) -> (k: usize)
    requires
        i < ts@.len(),
    ensures
        k == first_number_from(tokens_view(ts@), i as int),
        k <= ts@.len(),
{
    let ghost tv = tokens_view(ts@);
    let mut k = i;
    while k < ts.len()
        invariant
            i <= k <= ts@.len(),
            tv == tokens_view(ts@),
            first_number_from(tv, i as int) == first_number_from(tv, k as int),
        decreases ts@.len() - k,
    {
        match kind_at(ts, k) {
            TokenKind::Number(_) => {
                return k;
            },
            _ => {},
        }
        k += 1;
    }
    k
}

fn first_undeclared_exec(vs: &Vec<String>, opts: &Vec<String>) -> (r: Option<String>)
    ensures
        match r {
            Some(v) => first_undeclared(string_views(vs@), string_views(opts@)) == Some(v@),
            None => first_undeclared(string_views(vs@), string_views(opts@)) is None,
        },
{
    let ghost all = string_views(vs@);
    let mut k: usize = 0;
    assert(all.subrange(0, all.len() as int) =~= all);
    while k < vs.len()
        invariant
            k <= vs@.len(),
            all == string_views(vs@),
            first_undeclared(all, string_views(opts@)) == first_undeclared(
                all.subrange(k as int, all.len() as int),
                string_views(opts@),
            ),
        decreases vs@.len() - k,
    {
        let ghost rest = all.subrange(k as int, all.len() as int);
        assert(rest[0] == vs@[k as int]@);
        assert(rest.drop_first() =~= all.subrange(k + 1, all.len() as int));
        if !contains_name(opts, vs[k].as_str()) {
            return Some(vs[k].clone());
        }
        k += 1;
    }
    None
}

#[verifier::rlimit(80)]
fn p_param_default(ts: &Vec<Token>, fl: &Vec<Option<u64>>, t: ScriptType, opts: &Vec<String>, i: usize) -> (r: Result<
    (ConstantValue, usize),
    ScriptDiagnostic,
>)
    requires
        well_formed(tokens_view(ts@)),
        fl@.len() == ts@.len(),
        i < ts@.len() <= usize::MAX,
    ensures
        match r {
            Ok((c, d)) => i + d < ts@.len() && spec_param_default(tokens_view(ts@), fl@, t, string_views(opts@), i as int)
                == Ok::<(PConst, nat), SpecDiagnostic>((pconst(c), d as nat)),
            Err(x) => spec_param_default(tokens_view(ts@), fl@, t, string_views(opts@), i as int) == Err::<
                (PConst, nat),
                SpecDiagnostic,
            >(x@),
        },
{
    if t == ScriptType::Enum {
        let v = match expect_identifier(ts, i, "enum default") {
            Err(x) => {
                return Err(x);
            },
            Ok(v) => v,
        };
        proof {
            lemma_not_last(ts@, i as int);
        }
        if contains_name(opts, v.as_str()) {
            return Ok((ConstantValue::Enum(v), 1));
        }
        return Err(error_at(ts, i + 1, concat3("enum default `", v.as_str(), "` is not declared in the option list")));
    }
    if t == ScriptType::Flags {
        let (vs, d) = match p_name_list(ts, i, "flag default", "duplicate flag default `") {
            Err(x) => {
                return Err(x);
            },
            Ok(v) => v,
        };
        return match first_undeclared_exec(&vs, opts) {
            Some(v) => Err(
                error_at(ts, i + d, concat3("flags default `", v.as_str(), "` is not declared in the option list")),
            ),
            None => Ok((ConstantValue::Flags(vs), d)),
        };
    }
    let (e, d) = match p_expr(ts, fl, i) {
        Err(x) => {
            return Err(x);
        },
        Ok(v) => v,
    };
    let (c, vt) = match literal_of(&e) {
        None => {
            return Err(
                ScriptDiagnostic { range: None, message: String::from_str("parameter defaults must be literals in Dawn v1") },
            );
        },
        Some(v) => v,
    };
    if !is_assignable(t, vt) {
        let mut m = String::from_str("default value must be ");
        let expected = t.label();
        let found = vt.label();
        m.append(expected.as_str());
        m.append(", but found ");
        m.append(found.as_str());
        return Err(error_at(ts, i + d, m));
    }
    if t == ScriptType::Float && vt == ScriptType::Int {
        let k = first_number(ts, i);
        if k < fl.len() {
            if let Some(b) = fl[k] {
                return Ok((ConstantValue::Float(b), d));
            }
        }
        return Err(error_at(ts, i + d, String::from_str("invalid float literal")));
    }
    Ok((c, d))
}

fn p_expect_arg(ts: &Vec<Token>, i: usize, ty: ScriptType, tyname: &str, name: &str) -> (r: Result<usize, ScriptDiagnostic>)
    requires
        well_formed(tokens_view(ts@)),
        i < ts@.len() <= usize::MAX,
    ensures
        match r {
            Ok(d) => i + d < ts@.len() && spec_expect_arg(tokens_view(ts@), i as int, ty, tyname@, name@) == Ok::<
                nat,
                SpecDiagnostic,
            >(d as nat),
            Err(x) => spec_expect_arg(tokens_view(ts@), i as int, ty, tyname@, name@) == Err::<nat, SpecDiagnostic>(
                x@,
            ),
        },
{
    let (t, d) = match p_type_name(ts, i) {
        Err(x) => {
            return Err(x);
        },
        Ok(v) => v,
    };
    if !(t == ty) {
        let mut m = String::from_str("expected `");
        m.append(tyname);
        m.append(" ");
        m.append(name);
        m.append("`");
        return Err(error_at(ts, i + d, m));
    }
    let n = match expect_identifier(ts, i + d, "argument name") {
        Err(x) => {
            return Err(x);
        },
        Ok(n) => n,
    };
    proof {
        lemma_not_last(ts@, i + d);
    }
    if !str_eq(n.as_str(), name) {
        return Err(error_at(ts, i + d + 1, concat3("expected argument `", name, "`")));
    }
    Ok(d + 1)
}

fn p_sample_body(ts: &Vec<Token>, fl: &Vec<Option<u64>>, i: usize, f: usize) -> (r: Result<(Vec<Stmt>, usize), ScriptDiagnostic>)
    requires
        well_formed(tokens_view(ts@)),
        fl@.len() == ts@.len(),
        i <= f < ts@.len() <= usize::MAX,
    ensures
        match r {
            Ok((b, d)) => i + d < ts@.len() && spec_sample_body(tokens_view(ts@), fl@, i as int, f as int) == Ok::<
                (Seq<PStmt>, nat),
                SpecDiagnostic,
            >((pstmts(b@), d as nat)),
            Err(x) => spec_sample_body(tokens_view(ts@), fl@, i as int, f as int) == Err::<
                (Seq<PStmt>, nat),
                SpecDiagnostic,
            >(x@),
        },
{
    if let Err(x) = expect_symbol(ts, f, ')') {
        return Err(x);
    }
    proof {
        lemma_not_last(ts@, f as int);
    }
    if let Err(x) = expect_symbol(ts, f + 1, '{') {
        return Err(x);
    }
    proof {
        lemma_not_last(ts@, f + 1);
    }
    let empty: Vec<Stmt> = Vec::new();
    assert(pstmts(empty@) =~= Seq::<PStmt>::empty());
    let (b, d) = match p_block(ts, fl, empty, f + 2) {
        Err(x) => {
            return Err(x);
        },
        Ok(v) => v,
    };
    if let Err(x) = expect_symbol(ts, f + 2 + d, '}') {
        return Err(x);
    }
    proof {
        lemma_not_last(ts@, f + 2 + d);
    }
    Ok((b, f + 3 + d - i))
}

#[verifier::rlimit(100)]
fn p_sample(ts: &Vec<Token>, fl: &Vec<Option<u64>>, i: usize) -> (r: Result<(Vec<Stmt>, usize), ScriptDiagnostic>)
    requires
        well_formed(tokens_view(ts@)),
        fl@.len() == ts@.len(),
        i < ts@.len() <= usize::MAX,
    ensures
        match r {
            Ok((b, d)) => i + d < ts@.len() && spec_sample(tokens_view(ts@), fl@, i as int) == Ok::<
                (Seq<PStmt>, nat),
                SpecDiagnostic,
            >((pstmts(b@), d as nat)),
            Err(x) => spec_sample(tokens_view(ts@), fl@, i as int) == Err::<(Seq<PStmt>, nat), SpecDiagnostic>(x@),
        },
{
    let (rt, d1) = match p_type_name(ts, i) {
        Err(x) => {
            return Err(x);
        },
        Ok(v) => v,
    };
    if !(rt == ScriptType::Color) {
        return Err(error_at(ts, i + d1, String::from_str("sample must return color")));
    }
    let n = match expect_identifier(ts, i + d1, "function name") {
        Err(x) => {
            return Err(x);
        },
        Ok(n) => n,
    };
    proof {
        lemma_not_last(ts@, i + d1);
    }
    if !str_eq(n.as_str(), "sample") {
        return Err(error_at(ts, i + d1 + 1, String::from_str("only sample entrypoint functions are supported")));
    }
    let a = i + d1 + 1;
    if let Err(x) = expect_symbol(ts, a, '(') {
        return Err(x);
    }
    proof {
        lemma_not_last(ts@, a as int);
    }
    let d2 = match p_expect_arg(ts, a + 1, ScriptType::Float, "float", "progress") {
        Err(x) => {
            return Err(x);
        },
        Ok(d) => d,
    };
    let b = a + 1 + d2;
    if let Err(x) = expect_symbol(ts, b, ',') {
        return Err(x);
    }
    proof {
        lemma_not_last(ts@, b as int);
    }
    let d3 = match p_expect_arg(ts, b + 1, ScriptType::Float, "float", "seconds") {
        Err(x) => {
            return Err(x);
        },
        Ok(d) => d,
    };
    let c = b + 1 + d3;
    if let Err(x) = expect_symbol(ts, c, ',') {
        return Err(x);
    }
    proof {
        lemma_not_last(ts@, c as int);
    }
    let d4 = match p_expect_arg(ts, c + 1, ScriptType::Fixture, "Fixture", "fixture") {
        Err(x) => {
            return Err(x);
        },
        Ok(d) => d,
    };
    let e = c + 1 + d4;
    if let Err(x) = expect_symbol(ts, e, ',') {
        return Err(x);
    }
    proof {
        lemma_not_last(ts@, e as int);
    }
    let d5 = match p_expect_arg(ts, e + 1, ScriptType::Pixel, "Pixel", "pixel") {
        Err(x) => {
            return Err(x);
        },
        Ok(d) => d,
    };
    p_sample_body(ts, fl, i, e + 1 + d5)
}

fn p_default_part(ts: &Vec<Token>, fl: &Vec<Option<u64>>, t: ScriptType, opts: &Vec<String>, m: usize) -> (r: Result<
    (Option<ConstantValue>, usize),
    ScriptDiagnostic,
>)
    requires
        well_formed(tokens_view(ts@)),
        fl@.len() == ts@.len(),
        m < ts@.len() <= usize::MAX,
    ensures
        match r {
            Ok((c, n)) => n < ts@.len() && spec_default_part(tokens_view(ts@), fl@, t, string_views(opts@), m as int)
                == Ok::<(Option<PConst>, int), SpecDiagnostic>((opt_pconst(c), n as int)),
            Err(x) => spec_default_part(tokens_view(ts@), fl@, t, string_views(opts@), m as int) == Err::<
                (Option<PConst>, int),
                SpecDiagnostic,
            >(x@),
        },
{
    if !sym_at(ts, m, '=') {
        return Ok((None, m));
    }
    proof {
        lemma_not_last(ts@, m as int);
    }
    if t == ScriptType::Marks {
        return Err(error_at(ts, m + 1, String::from_str("marks parameters cannot declare defaults")));
    }
    if kw_at(ts, m + 1, "import") {
        return Err(error_at(ts, m + 1, String::from_str("effect parameter defaults cannot import files")));
    }
    match p_param_default(ts, fl, t, opts, m + 1) {
        Err(x) => Err(x),
        Ok((c, d)) => Ok((Some(c), m + 1 + d)),
    }
}

fn has_options_exec(t: ScriptType) -> (b: bool)
    ensures
        b == has_options(t),
{
    t == ScriptType::Enum || t == ScriptType::Flags
}

#[verifier::rlimit(80)]
fn p_param(ts: &Vec<Token>, fl: &Vec<Option<u64>>, i: usize) -> (r: Result<(EffectParamSchema, usize), ScriptDiagnostic>)
    requires
        well_formed(tokens_view(ts@)),
        fl@.len() == ts@.len(),
        i < ts@.len() <= usize::MAX,
    ensures
        match r {
            Ok((sc, d)) => i + d < ts@.len() && spec_param(tokens_view(ts@), fl@, i as int) == Ok::<
                (PSchema, nat),
                SpecDiagnostic,
            >((pschema(sc), d as nat)),
            Err(x) => spec_param(tokens_view(ts@), fl@, i as int) == Err::<(PSchema, nat), SpecDiagnostic>(x@),
        },
{
    if !kw_at(ts, i, "param") {
        return Err(error_at(ts, i, String::from_str("expected `param`")));
    }
    proof {
        lemma_not_last(ts@, i as int);
    }
    let (t, d1) = match p_type_name(ts, i + 1) {
        Err(x) => {
            return Err(x);
        },
        Ok(v) => v,
    };
    let name = match expect_identifier(ts, i + 1 + d1, "parameter name") {
        Err(x) => {
            return Err(x);
        },
        Ok(n) => n,
    };
    proof {
        lemma_not_last(ts@, i + 1 + d1);
    }
    let k = i + 2 + d1;
    let (options, d2) = if has_options_exec(t) {
        match p_name_list(ts, k, "option", "duplicate option `") {
            Err(x) => {
                return Err(x);
            },
            Ok(v) => v,
        }
    } else {
        let none: Vec<String> = Vec::new();
        assert(string_views(none@) =~= Seq::<Seq<char>>::empty());
        (none, 0)
    };
    let (default, n) = match p_default_part(ts, fl, t, &options, k + d2) {
        Err(x) => {
            return Err(x);
        },
        Ok(v) => v,
    };
    if has_options_exec(t) && options.len() == 0 {
        return Err(error_at(ts, n, String::from_str("enum and flags parameters must declare options")));
    }
    if let Err(x) = expect_symbol(ts, n, ';') {
        return Err(x);
    }
    proof {
        lemma_not_last(ts@, n as int);
    }
    Ok((EffectParamSchema { name, value_type: t, options, default }, n + 1 - i))
}

#[verifier::rlimit(60)]
fn p_body(
    ts: &Vec<Token>,
    fl: &Vec<Option<u64>>,
    params: Vec<EffectParamSchema>,
    sample: Option<Vec<Stmt>>,
    i: usize,
) -> (r: Result<(Vec<EffectParamSchema>, Option<Vec<Stmt>>, usize), ScriptDiagnostic>)
    requires
        well_formed(tokens_view(ts@)),
        fl@.len() == ts@.len(),
        i < ts@.len() <= usize::MAX,
    ensures
        match r {
            Ok((ps, sm, d)) => i + d < ts@.len() && spec_body(
                tokens_view(ts@),
                fl@,
                pschemas(params@),
                opt_pstmts(sample),
                i as int,
            ) == Ok::<(Seq<PSchema>, Option<Seq<PStmt>>, nat), SpecDiagnostic>(
                (pschemas(ps@), opt_pstmts(sm), d as nat),
            ),
            Err(x) => spec_body(tokens_view(ts@), fl@, pschemas(params@), opt_pstmts(sample), i as int) == Err::<
                (Seq<PSchema>, Option<Seq<PStmt>>, nat),
                SpecDiagnostic,
            >(x@),
        },
    decreases ts@.len() - i,
{
    if sym_at(ts, i, '}') || eof_at(ts, i) {
        return Ok((params, sample, 0));
    }
    if kw_at(ts, i, "param") {
        let (p, d) = match p_param(ts, fl, i) {
            Err(x) => {
                return Err(x);
            },
            Ok(v) => v,
        };
        if d == 0 {
            return Err(error_at(ts, i, String::from_str("expected `param`")));
        }
        let mut params = params;
        let ghost before = params@;
        let ghost ps = pschema(p);
        params.push(p);
        assert(pschemas(params@) =~= pschemas(before).push(ps));
        match p_body(ts, fl, params, sample, i + d) {
            Err(x) => Err(x),
            Ok((ps, sm, d2)) => Ok((ps, sm, d + d2)),
        }
    } else {
        let (b, d) = match p_sample(ts, fl, i) {
            Err(x) => {
                return Err(x);
            },
            Ok(v) => v,
        };
        if d == 0 {
            return Err(error_at(ts, i, String::from_str("expected `param`")));
        }
        match p_body(ts, fl, params, Some(b), i + d) {
            Err(x) => Err(x),
            Ok((ps, sm, d2)) => Ok((ps, sm, d + d2)),
        }
    }
}

/// Parses the tokens of a sample effect script. `float_bits[k]` is, for a
/// number token `k`, the bits of the `f64` that its text denotes, and
/// `None` when it denotes none; the entries of other tokens are not read.
/// The tokens are those `lex` makes: unless there are none, they end with
/// `Eof`.
pub fn parse(tokens: &Vec<Token>, float_bits: &Vec<Option<u64>>) -> (r: Result<EffectAst, Vec<ScriptDiagnostic>>)
    requires
        float_bits@.len() == tokens@.len(),
        tokens@.len() > 0 ==> well_formed(tokens_view(tokens@)),
    ensures
        match r {
            Ok(ast) => spec_parse(tokens_view(tokens@), float_bits@) == Ok::<PEffect, SpecDiagnostic>(peffect(ast)),
            Err(ds) => ds@.len() == 1 && spec_parse(tokens_view(tokens@), float_bits@) == Err::<PEffect, SpecDiagnostic>(
                ds@[0]@,
            ),
        },
{
    let ts = tokens;
    let fl = float_bits;
    let n = ts.len();
    if n == 0 {
        assert(tokens_view(ts@).len() == 0);
        return Err(vec![ScriptDiagnostic { range: None, message: String::from_str("script did not produce tokens") }]);
    }
    assert(tokens_view(ts@).len() == n);
    if !kw_at(ts, 0, "effect") {
        return Err(vec![error_at(ts, 0, String::from_str("expected `effect`"))]);
    }
    proof {
        lemma_not_last(ts@, 0);
    }
    let name = match expect_identifier(ts, 1, "effect name") {
        Err(x) => {
            return Err(vec![x]);
        },
        Ok(v) => v,
    };
    proof {
        lemma_not_last(ts@, 1);
    }
    if let Err(x) = expect_symbol(ts, 2, '{') {
        return Err(vec![x]);
    }
    proof {
        lemma_not_last(ts@, 2);
    }
    let no_params: Vec<EffectParamSchema> = Vec::new();
    assert(pschemas(no_params@) =~= Seq::<PSchema>::empty());
    let (params, sample, d) = match p_body(ts, fl, no_params, None, 3) {
        Err(x) => {
            return Err(vec![x]);
        },
        Ok(v) => v,
    };
    let p = 3 + d;
    if let Err(x) = expect_symbol(ts, p, '}') {
        return Err(vec![x]);
    }
    proof {
        lemma_not_last(ts@, p as int);
    }
    if !eof_at(ts, p + 1) {
        return Err(vec![error_at(ts, p + 1, String::from_str("expected exactly one effect declaration per file"))]);
    }
    match sample {
        Some(body) => Ok(EffectAst { name, params, entrypoint: EffectEntrypoint::Sample(body) }),
        None => Err(vec![error_at(ts, p + 1, String::from_str("missing sample entrypoint"))]),
    }
}

} // verus!
