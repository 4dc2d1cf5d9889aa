use dawn_project::analysis::effect_params::{
    inline_script_diagnostics, script_diagnostics, script_diagnostics_message, validate_effect_params,
};
use dawn_project::analysis::project_key::infer_project_key;
use dawn_project::effect_script::diag::{ScriptDiagnostic, SourcePosition, SourceRange};
use dawn_project::diagnostics::{DiagnosticCode, TextPosition, TextRange};
use dawn_project::effect_script::ast::EffectParamSchema;
use dawn_project::effect_script::specialize::ConstantValue;
use dawn_project::effect_script::types::{ArrayElementShape, EffectParamShape, ScriptType};
use dawn_project::model::kinds::{ArrayElementType, CurveValueType, ObjectKind};

const EFFECTS: &str = "effects:\n  - id: 3\n    script: fx.glow\n    params:\n      speed:\n        type: float\n        value: 2\n      mode:\n        type: enum\n        value: sparkle\n";

fn at(line: u32, start: u32, end: u32) -> Option<TextRange> {
    Some(TextRange {
        start: TextPosition { line, character: start },
        end: TextPosition { line, character: end },
    })
}

fn schema(name: &str, value_type: ScriptType, options: &[&str], default: Option<ConstantValue>) -> EffectParamSchema {
    EffectParamSchema {
        name: name.to_string(),
        value_type,
        options: options.iter().map(|o| o.to_string()).collect(),
        default,
    }
}

fn check(
    schemas: &Vec<EffectParamSchema>,
    params: &Vec<(String, EffectParamShape)>,
    marks: &Vec<String>,
) -> Vec<(String, Option<TextRange>, String)> {
    let files = vec![("show.dawn".to_string(), EFFECTS.to_string())];
    let mut diagnostics = Vec::new();
    validate_effect_params("root.dawn", &files, 3, "fx.glow", schemas, params, marks, &mut diagnostics);
    assert!(diagnostics.iter().all(|d| d.code == DiagnosticCode::Script));
    diagnostics.into_iter().map(|d| (d.path, d.range, d.message)).collect()
}

#[test]
fn parameters_are_checked_against_the_script() {
    let schemas = vec![
        schema("speed", ScriptType::Float, &[], None),
        schema("mode", ScriptType::Enum, &["calm"], None),
        schema("color", ScriptType::Color, &[], None),
        schema("size", ScriptType::Int, &[], Some(ConstantValue::Int(4))),
    ];
    let params = vec![
        ("speed".to_string(), EffectParamShape::Integer),
        ("mode".to_string(), EffectParamShape::Enum { value: "sparkle".to_string() }),
        ("extra".to_string(), EffectParamShape::Boolean),
    ];
    assert_eq!(
        check(&schemas, &params, &Vec::new()),
        vec![
            (
                "root.dawn".to_string(),
                None,
                "effect `3` passes unknown parameter `extra` to script `fx.glow`".to_string()
            ),
            ("show.dawn".to_string(), at(5, 14, 19), "effect `3` parameter `speed` must be float".to_string()),
            (
                "show.dawn".to_string(),
                at(9, 15, 22),
                "effect `3` parameter `mode` value `sparkle` is not declared by script `fx.glow`".to_string()
            ),
            (
                "show.dawn".to_string(),
                at(3, 4, 10),
                "effect `3` is missing required parameter `color`".to_string()
            ),
        ]
    );
}

#[test]
fn flags_marks_arrays_and_curves_are_checked() {
    let schemas = vec![
        schema("parts", ScriptType::Flags, &["a", "b"], None),
        schema("beat", ScriptType::Marks, &[], None),
        schema("levels", ScriptType::Array(ArrayElementType::Float), &[], None),
        schema("fade", ScriptType::CurveColor, &[], None),
    ];
    let params = vec![
        (
            "parts".to_string(),
            EffectParamShape::Flags { values: vec!["a".to_string(), "z".to_string()] },
        ),
        ("beat".to_string(), EffectParamShape::Marks { key: "drops".to_string() }),
        (
            "levels".to_string(),
            EffectParamShape::Array {
                element_type: ArrayElementType::Float,
                values: vec![ArrayElementShape::Integer, ArrayElementShape::Float],
            },
        ),
        ("fade".to_string(), EffectParamShape::Curve { value_type: Some(CurveValueType::Float) }),
    ];
    assert_eq!(
        check(&schemas, &params, &vec!["beats".to_string()]),
        vec![
            (
                "root.dawn".to_string(),
                None,
                "effect `3` parameter `parts` flag `z` is not declared by script `fx.glow`".to_string()
            ),
            (
                "root.dawn".to_string(),
                None,
                "effect `3` parameter `beat` references unknown mark collection `drops` for script `fx.glow`"
                    .to_string()
            ),
            ("root.dawn".to_string(), None, "effect `3` parameter `fade` must be curve<color>".to_string()),
        ]
    );
    let fine = vec![("beat".to_string(), EffectParamShape::Marks { key: "beats".to_string() })];
    assert!(check(&vec![schema("beat", ScriptType::Marks, &[], None)], &fine, &vec!["beats".to_string()]).is_empty());
}

#[test]
fn parameter_values_match_their_types() {
    assert!(ScriptType::Float.matches_param(&EffectParamShape::Float));
    assert!(!ScriptType::Float.matches_param(&EffectParamShape::Integer));
    assert!(ScriptType::CurveFloat.matches_param(&EffectParamShape::Curve { value_type: Some(CurveValueType::Float) }));
    assert!(!ScriptType::CurveFloat.matches_param(&EffectParamShape::Curve { value_type: None }));
    let ints = EffectParamShape::Array {
        element_type: ArrayElementType::Int,
        values: vec![ArrayElementShape::Integer, ArrayElementShape::Float],
    };
    assert!(!ScriptType::Array(ArrayElementType::Int).matches_param(&ints));
    assert!(!ScriptType::Array(ArrayElementType::Float).matches_param(&ints));
}

#[test]
fn script_errors_become_project_diagnostics() {
    let diagnostics = vec![
        ScriptDiagnostic {
            range: Some(SourceRange {
                start: SourcePosition { line: 0, character: 7 },
                end: SourcePosition { line: 1, character: 1 },
            }),
            message: "unknown function `rgbb`".to_string(),
        },
        ScriptDiagnostic { range: None, message: "sample must return color".to_string() },
    ];
    let found = script_diagnostics("fx/glow.dawn-effect", &diagnostics);
    assert_eq!(found.len(), 2);
    assert_eq!(found[0].range, at(0, 7, 1).map(|r| TextRange { end: TextPosition { line: 1, character: 1 }, ..r }));
    assert_eq!(found[1].range, None);
    assert!(found.iter().all(|d| d.path == "fx/glow.dawn-effect" && d.code == DiagnosticCode::Script));
    assert_eq!(script_diagnostics_message(&diagnostics), "unknown function `rgbb`");
    assert_eq!(script_diagnostics_message(&Vec::new()), "effect script did not compile");

    let files = vec![(
        "show.dawn".to_string(),
        "- id: 5\n  script: |\n    return rgb(1, 0, 0);\n    x\n".to_string(),
    )];
    let inline = inline_script_diagnostics(&files, "root.dawn", 5, &diagnostics);
    assert_eq!(inline[0].path, "show.dawn");
    assert_eq!(
        inline[0].range,
        Some(TextRange { start: TextPosition { line: 2, character: 11 }, end: TextPosition { line: 3, character: 5 } })
    );
    assert_eq!(inline[1].path, "root.dawn");
    assert_eq!(inline[1].range, None);
    assert_eq!(inline[1].message, "sample must return color");
}

#[test]
fn the_root_file_needs_exactly_one_project() {
    let mut diagnostics = Vec::new();
    let one = vec![("show".to_string(), ObjectKind::Project), ("rig".to_string(), ObjectKind::Layout)];
    assert_eq!(infer_project_key("main.dawn", Some(&one), &mut diagnostics), Some("show".to_string()));
    assert!(diagnostics.is_empty());
    assert_eq!(infer_project_key("main.dawn", None, &mut diagnostics), None);
    assert!(diagnostics.is_empty());
    let none = vec![("rig".to_string(), ObjectKind::Layout)];
    assert_eq!(infer_project_key("main.dawn", Some(&none), &mut diagnostics), None);
    let two = vec![("a".to_string(), ObjectKind::Project), ("b".to_string(), ObjectKind::Project)];
    assert_eq!(infer_project_key("main.dawn", Some(&two), &mut diagnostics), None);
    let messages: Vec<&str> = diagnostics.iter().map(|d| d.message.as_str()).collect();
    assert_eq!(
        messages,
        vec![
            "root file must contain one project object, but found none",
            "root file must contain one project object, but found 2"
        ]
    );
    assert!(diagnostics.iter().all(|d| d.code == DiagnosticCode::ProjectKey && d.range.is_none()));
}
