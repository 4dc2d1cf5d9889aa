use dawn_project::effect_script::ast::{EffectAst, EffectEntrypoint, Expr, Stmt};
use dawn_project::effect_script::lexer::{lex, Token, TokenKind};
use dawn_project::effect_script::parser::parse;
use dawn_project::effect_script::specialize::ConstantValue;
use dawn_project::effect_script::type_check::type_check;
use dawn_project::effect_script::types::{BinaryOp, ScriptType, UnaryOp};

fn float_bits(tokens: &[Token]) -> Vec<Option<u64>> {
    tokens
        .iter()
        .map(|t| match &t.kind {
            TokenKind::Number(raw) => raw.parse::<f64>().ok().map(f64::to_bits),
            _ => None,
        })
        .collect()
}

fn parse_text(text: &str) -> Result<EffectAst, Vec<String>> {
    let tokens = lex(text).map_err(|ds| ds.into_iter().map(|d| d.message).collect::<Vec<_>>())?;
    let bits = float_bits(&tokens);
    parse(&tokens, &bits).map_err(|ds| ds.into_iter().map(|d| d.message).collect())
}

const HEADER: &str = "color sample(float progress, float seconds, Fixture fixture, Pixel pixel)";

#[test]
fn a_sample_effect_parses_into_its_tree() {
    let text = format!(
        "effect Glow {{ param float speed = 2; param enum mode {{ calm, wild }} = wild; {HEADER} {{ float x = 1.5 + speed * 2; return rgb(x, 0, -x); }} }}"
    );
    let effect = parse_text(&text).unwrap();
    assert_eq!(effect.name, "Glow");
    assert_eq!(effect.params.len(), 2);
    assert_eq!(effect.params[0].name, "speed");
    assert_eq!(effect.params[0].value_type, ScriptType::Float);
    // An integer default of a float parameter becomes that float.
    assert_eq!(effect.params[0].default, Some(ConstantValue::Float(2.0f64.to_bits())));
    assert_eq!(effect.params[1].options, vec!["calm".to_string(), "wild".to_string()]);
    assert_eq!(effect.params[1].default, Some(ConstantValue::Enum("wild".to_string())));
    let EffectEntrypoint::Sample(body) = &effect.entrypoint else {
        panic!("expected a sample entrypoint");
    };
    assert_eq!(body.len(), 2);
    match &body[0] {
        Stmt::Let { name, value_type: ScriptType::Float, expr } => {
            assert_eq!(name, "x");
            // `*` binds tighter than `+`.
            match expr {
                Expr::Binary { left, op: BinaryOp::Add, right } => {
                    assert!(matches!(**left, Expr::Float(bits) if bits == 1.5f64.to_bits()));
                    assert!(matches!(**right, Expr::Binary { op: BinaryOp::Multiply, .. }));
                }
                other => panic!("unexpected {other:?}"),
            }
        }
        other => panic!("unexpected {other:?}"),
    }
    match &body[1] {
        Stmt::Return(Expr::Call { name, args }) => {
            assert_eq!(name, "rgb");
            assert_eq!(args.len(), 3);
            assert!(matches!(args[1], Expr::Int(0)));
            assert!(matches!(&args[2], Expr::Unary { op: UnaryOp::Negate, .. }));
        }
        other => panic!("unexpected {other:?}"),
    }
    assert!(type_check(&effect).is_ok());
}

#[test]
fn statements_parse_with_their_blocks() {
    let text = format!(
        "effect Loop {{ {HEADER} {{ int n = 0; for (int i = 0; i < 3; i = i + 1) {{ n = n + i; }} if (n == 3 && !false) {{ return rgb(1, 1, 1); }} else if (n > 3) {{ n = 1; }} else {{ n = 2; }} return rgb(0, 0, 0); }} }}"
    );
    let effect = parse_text(&text).unwrap();
    let EffectEntrypoint::Sample(body) = &effect.entrypoint else {
        panic!("expected a sample entrypoint");
    };
    assert_eq!(body.len(), 4);
    match &body[1] {
        Stmt::For { name, body, update, .. } => {
            assert_eq!(name, "i");
            assert_eq!(body.len(), 1);
            assert!(matches!(**update, Stmt::Assign { .. }));
        }
        other => panic!("unexpected {other:?}"),
    }
    match &body[2] {
        Stmt::If { condition, then_body, else_body } => {
            assert!(matches!(condition, Expr::Binary { op: BinaryOp::LogicalAnd, .. }));
            assert_eq!(then_body.len(), 1);
            assert_eq!(else_body.len(), 1);
            assert!(matches!(&else_body[0], Stmt::If { else_body, .. } if else_body.len() == 1));
        }
        other => panic!("unexpected {other:?}"),
    }
}

#[test]
fn parse_errors_name_what_was_expected() {
    assert_eq!(parse_text("effect Empty { }").unwrap_err(), vec!["missing sample entrypoint".to_string()]);
    assert_eq!(
        parse_text("effect A { param enum mode {}; }").unwrap_err(),
        vec!["enum and flags parameters must declare options".to_string()]
    );
    assert_eq!(parse_text("effect A { param enum mode; }").unwrap_err(), vec!["expected `{`".to_string()]);
    assert_eq!(
        parse_text("effect A { param marks beat = 1; }").unwrap_err(),
        vec!["marks parameters cannot declare defaults".to_string()]
    );
    assert_eq!(
        parse_text("effect A { param bool on = 1; }").unwrap_err(),
        vec!["default value must be bool, but found int".to_string()]
    );
    assert_eq!(
        parse_text("effect A { param float f = -1; }").unwrap_err(),
        vec!["parameter defaults must be literals in Dawn v1".to_string()]
    );
    assert_eq!(
        parse_text("effect A { param flags f { a, a }; }").unwrap_err(),
        vec!["duplicate option `a`".to_string()]
    );
    assert_eq!(
        parse_text("effect A { param flags f { a } = { b }; }").unwrap_err(),
        vec!["flags default `b` is not declared in the option list".to_string()]
    );
    assert_eq!(parse_text("effect A { param vec3 v; }").unwrap_err(), vec!["unknown type `vec3`".to_string()]);
    assert_eq!(
        parse_text(&format!("effect A {{ {HEADER} {{ return 1 +; }} }}")).unwrap_err(),
        vec!["expected expression".to_string()]
    );
    assert_eq!(
        parse_text(&format!("effect A {{ {HEADER} {{ }} }} effect B {{ }}")).unwrap_err(),
        vec!["expected exactly one effect declaration per file".to_string()]
    );
    assert_eq!(
        parse_text("effect A { float sample(float progress) { } }").unwrap_err(),
        vec!["sample must return color".to_string()]
    );
    assert_eq!(
        parse_text("effect A { color sample(float time) { } }").unwrap_err(),
        vec!["expected argument `progress`".to_string()]
    );
    assert_eq!(parse_text("shader A { }").unwrap_err(), vec!["expected `effect`".to_string()]);
    assert_eq!(
        parse(&Vec::new(), &Vec::new()).unwrap_err()[0].message,
        "script did not produce tokens"
    );
    assert_eq!(
        parse_text(&format!("effect A {{ {HEADER} {{ return 99999999999999999999; }} }}")).unwrap_err(),
        vec!["invalid integer literal".to_string()]
    );
}

#[test]
fn flags_defaults_and_curve_types_parse() {
    let effect = parse_text(&format!(
        "effect A {{ param flags parts {{ a, b, c }} = {{ c, a }}; param curve<color> fade; param int n = 3; {HEADER} {{ return rgb(0, 0, 0); }} }}"
    ))
    .unwrap();
    assert_eq!(
        effect.params[0].default,
        Some(ConstantValue::Flags(vec!["c".to_string(), "a".to_string()]))
    );
    assert_eq!(effect.params[1].value_type, ScriptType::CurveColor);
    assert_eq!(effect.params[1].default, None);
    assert_eq!(effect.params[2].default, Some(ConstantValue::Int(3)));
}

#[test]
fn compiled_effects_keep_their_parameters_and_bytecode() {
    let text = format!("effect Glow {{ param float speed = 2; {HEADER} {{ return rgb(speed, 0, 0); }} }}");
    let effect = parse_text(&text).unwrap();
    type_check(&effect).unwrap();
    let compiled = dawn_project::effect_script::compiled::compile_ast(effect);
    assert_eq!(compiled.name, "Glow");
    assert_eq!(compiled.kind, dawn_project::effect_script::types::EffectScriptKind::Sample);
    assert!(compiled.bytecode.is_some());
    assert!(compiled.generator.is_none());
    assert_eq!(compiled.param("speed").map(|p| p.value_type), Some(ScriptType::Float));
    assert!(compiled.param("size").is_none());
}
