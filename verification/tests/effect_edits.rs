use dawn_project::document::params::{
    check_param_edit, marks_key_for, param_fits, sources_after_edit, sources_for_script, ParamEditValue,
    ParamSource,
};
use dawn_project::document::imports::{fixture_import_string, module_import};
use dawn_project::document::timeline::SequenceMarkCollectionDocument;
use dawn_project::model::kinds::DawnImport;
use dawn_project::effect_script::ast::EffectParamSchema;
use dawn_project::effect_script::types::{EffectParamShape, ScriptType};
use dawn_project::model::kinds::CurveValueType;

fn schema(name: &str, value_type: ScriptType, options: &[&str]) -> EffectParamSchema {
    EffectParamSchema {
        name: name.to_string(),
        value_type,
        options: options.iter().map(|o| o.to_string()).collect(),
        default: None,
    }
}

fn script_params() -> Vec<EffectParamSchema> {
    vec![
        schema("speed", ScriptType::Float, &[]),
        schema("mode", ScriptType::Enum, &["pulse", "sparkle"]),
        schema("beats", ScriptType::Marks, &[]),
        schema("fade", ScriptType::CurveFloat, &[]),
    ]
}

#[test]
fn switching_scripts_keeps_values_that_still_fit() {
    let current = vec![
        ("speed".to_string(), Some(EffectParamShape::Float)),
        ("mode".to_string(), Some(EffectParamShape::Enum { value: "strobe".to_string() })),
        ("fade".to_string(), Some(EffectParamShape::Curve { value_type: Some(CurveValueType::Float) })),
        ("extra".to_string(), Some(EffectParamShape::Integer)),
    ];
    let sources = sources_for_script(&script_params(), &current, "drums");
    assert_eq!(
        sources,
        vec![
            ParamSource::Keep(0),
            ParamSource::Default,
            ParamSource::Marks("drums".to_string()),
            ParamSource::Keep(2),
        ]
    );
}

#[test]
fn values_that_do_not_resolve_are_replaced() {
    let current = vec![("speed".to_string(), None), ("speed".to_string(), Some(EffectParamShape::Float))];
    let sources = sources_for_script(&vec![schema("speed", ScriptType::Float, &[])], &current, "marks");
    assert_eq!(sources, vec![ParamSource::Default]);
    assert!(!param_fits(&schema("speed", ScriptType::Float, &[]), &None));
    assert!(param_fits(
        &schema("tags", ScriptType::Flags, &["a", "b"]),
        &Some(EffectParamShape::Flags { values: vec!["b".to_string(), "a".to_string()] })
    ));
    assert!(!param_fits(
        &schema("tags", ScriptType::Flags, &["a", "b"]),
        &Some(EffectParamShape::Flags { values: vec!["c".to_string()] })
    ));
}

#[test]
fn new_mark_parameters_point_at_the_first_collection() {
    assert_eq!(marks_key_for(&vec![]), "marks");
    let collections = vec![
        SequenceMarkCollectionDocument {
            key: "drums".to_string(),
            name: "Drums".to_string(),
            color: "#ff0000".to_string(),
            marks_ms: vec![],
        },
        SequenceMarkCollectionDocument {
            key: "vocals".to_string(),
            name: "Vocals".to_string(),
            color: "#00ff00".to_string(),
            marks_ms: vec![],
        },
    ];
    assert_eq!(marks_key_for(&collections), "drums");
}

#[test]
fn editing_a_parameter_keeps_the_others() {
    let current = vec![
        ("speed".to_string(), Some(EffectParamShape::Float)),
        ("mode".to_string(), Some(EffectParamShape::Enum { value: "pulse".to_string() })),
    ];
    let sources = sources_after_edit(&script_params(), &current, "mode").unwrap();
    assert_eq!(
        sources,
        vec![
            ParamSource::Keep(0),
            ParamSource::Edited,
            ParamSource::Marks("marks".to_string()),
            ParamSource::Default,
        ]
    );
    assert_eq!(
        sources_after_edit(&script_params(), &current, "size"),
        Err("effect parameter `size` was not found".to_string())
    );
}

#[test]
fn edits_must_fit_the_parameter() {
    let mode = schema("mode", ScriptType::Enum, &["pulse", "sparkle"]);
    assert_eq!(check_param_edit(&mode, &ParamEditValue::Enum("pulse".to_string())), Ok(()));
    assert_eq!(
        check_param_edit(&mode, &ParamEditValue::Enum("strobe".to_string())),
        Err("`strobe` is not a valid option for `mode`".to_string())
    );
    assert_eq!(
        check_param_edit(&mode, &ParamEditValue::Integer),
        Err("`mode` expects a enum parameter value".to_string())
    );
    let tags = schema("tags", ScriptType::Flags, &["a", "b"]);
    assert_eq!(
        check_param_edit(&tags, &ParamEditValue::Flags(vec!["a".to_string(), "z".to_string()])),
        Err("`z` is not a valid flag for `tags`".to_string())
    );
    let speed = schema("speed", ScriptType::Float, &[]);
    assert_eq!(check_param_edit(&speed, &ParamEditValue::Float { finite: true }), Ok(()));
    assert_eq!(
        check_param_edit(&speed, &ParamEditValue::Float { finite: false }),
        Err("`speed` expects a float parameter value".to_string())
    );
    let tint = schema("tint", ScriptType::Color, &[]);
    assert_eq!(check_param_edit(&tint, &ParamEditValue::Color("#00ff00".to_string())), Ok(()));
    assert_eq!(
        check_param_edit(&tint, &ParamEditValue::Color("green".to_string())),
        Err("color literal must start with `#`".to_string())
    );
    let beats = schema("beats", ScriptType::Marks, &[]);
    assert_eq!(check_param_edit(&beats, &ParamEditValue::Marks("drums".to_string())), Ok(()));
    assert_eq!(
        check_param_edit(&beats, &ParamEditValue::Marks(String::new())),
        Err("mark collection key cannot be empty".to_string())
    );
}

#[test]
fn a_changed_script_is_reached_through_an_import() {
    let imports = vec![
        DawnImport { from: "../fx".to_string(), alias: "fx".to_string() },
        DawnImport { from: "lib".to_string(), alias: "glow".to_string() },
    ];
    let resolved = vec!["fx".to_string(), "show/lib".to_string()];
    assert_eq!(
        module_import(&imports, &resolved, "fx", "../fx", Some("fx")),
        ("fx".to_string(), None)
    );
    let (alias, import) = module_import(&imports, &resolved, "effects/glow", "../effects/glow", Some("glow"));
    assert_eq!(alias, "glow2");
    assert_eq!(import, Some(DawnImport { from: "../effects/glow".to_string(), alias: "glow2".to_string() }));
    let (alias, _) = module_import(&imports, &resolved, "x", "x", Some("my-effects"));
    assert_eq!(alias, "my_effects");
    let (alias, _) = module_import(&imports, &resolved, "x", "x", None);
    assert_eq!(alias, "module");
}

fn script(name: &str, path: &str) -> dawn_project::document::inspect::SequenceEffectScriptDocument {
    dawn_project::document::inspect::SequenceEffectScriptDocument {
        name: name.to_string(),
        path: path.to_string(),
        import: format!("../{path}"),
        params: vec![],
    }
}

#[test]
fn the_script_catalog_lists_each_file_once_by_name_then_path() {
    let catalog = dawn_project::document::catalog::script_catalog(vec![
        script("wave", "fx/wave.effect.dawn"),
        script("glow", "lib/glow.effect.dawn"),
        script("glow", "fx/glow.effect.dawn"),
        script("wave2", "fx/wave.effect.dawn"),
        script("Zap", "fx/zap.effect.dawn"),
    ]);
    let listed: Vec<(String, String)> = catalog.iter().map(|s| (s.name.clone(), s.path.clone())).collect();
    assert_eq!(
        listed,
        vec![
            ("Zap".to_string(), "fx/zap.effect.dawn".to_string()),
            ("glow".to_string(), "fx/glow.effect.dawn".to_string()),
            ("glow".to_string(), "lib/glow.effect.dawn".to_string()),
            ("wave".to_string(), "fx/wave.effect.dawn".to_string()),
        ]
    );
}

#[test]
fn fixtures_are_named_through_a_visible_import() {
    let imports = vec![
        DawnImport { from: "../rigs".to_string(), alias: "rigs".to_string() },
        DawnImport { from: "lamp.dawn".to_string(), alias: "lamp".to_string() },
    ];
    let resolved = vec!["rigs".to_string(), "show/lamp.dawn".to_string()];
    assert_eq!(
        fixture_import_string(&imports, &resolved, "rigs/par.dawn", Some("rigs"), "../rigs/par.dawn", "par"),
        "rigs.par"
    );
    assert_eq!(
        fixture_import_string(&imports, &resolved, "show/lamp.dawn", Some("show"), "lamp.dawn", "spot"),
        "lamp.spot"
    );
    assert_eq!(
        fixture_import_string(&imports, &resolved, "other/x.dawn", Some("other"), "../other/x.dawn", "x"),
        "../other/x.dawn::x"
    );
}

#[test]
fn the_fixture_catalog_is_ordered_by_name_path_and_key() {
    let keys = vec![
        ("Spot".to_string(), "rigs/b.dawn".to_string(), "s1".to_string()),
        ("Par".to_string(), "rigs/z.dawn".to_string(), "p".to_string()),
        ("Spot".to_string(), "rigs/a.dawn".to_string(), "s2".to_string()),
        ("Spot".to_string(), "rigs/a.dawn".to_string(), "s0".to_string()),
    ];
    assert_eq!(dawn_project::document::catalog::fixture_catalog_order(&keys), vec![1, 3, 2, 0]);
}
