use dawn_project::analysis::locate::{
    locate_effect_id, locate_effect_param, locate_effect_param_field, locate_effect_param_value,
    locate_effect_params_block, locate_inline_script_range,
};
use dawn_project::analysis::declarations::validate_module_declarations;
use dawn_project::analysis::mark_checks::validate_sequence_marks;
use dawn_project::diagnostics::{DiagnosticCode, TextPosition, TextRange};
use dawn_project::document::blocks::{replace_top_level_objects, top_level_object_blocks};
use dawn_project::document::marks::is_mark_collection_key;
use dawn_project::document::timeline::SequenceMarkCollectionDocument;
use dawn_project::document::inspect::{
    inspect_document, sanitize_alias, DocumentObjectDescriptor, DocumentViewId,
};
use dawn_project::effect_script::diag::{ScriptDiagnostic, SourcePosition, SourceRange};
use dawn_project::load::LoadProjectError;
use dawn_project::lower::{single_match, LowerError};
use dawn_project::model::kinds::{DawnImport, FixtureId, ObjectKind};
use dawn_project::model::refs::SymbolRef;
use dawn_project::parse::builder::{
    build_source_map_from_events, object_message, serde_error_path, ErrorPathSegment, MarkedEvent,
    YamlEvent,
};
use dawn_project::parse::source_map::YamlPath;

fn range(line: u32, start: u32, end: u32) -> TextRange {
    TextRange {
        start: TextPosition { line, character: start },
        end: TextPosition { line, character: end },
    }
}

const SEQUENCE: &str = "effects:\n  - id: 3\n    script: fx.glow\n    params:\n      speed:\n        type: float\n        value: 2\n  - id: 4\n    script: fx.other\n";

#[test]
fn effect_fields_are_located_in_yaml_text() {
    assert_eq!(locate_effect_id(SEQUENCE, 3), Some(range(1, 8, 9)));
    assert_eq!(locate_effect_id(SEQUENCE, 4), Some(range(7, 8, 9)));
    assert_eq!(locate_effect_id(SEQUENCE, 5), None);
    assert_eq!(locate_effect_params_block(SEQUENCE, 3), Some(range(3, 4, 10)));
    // Without a params block the id is reported instead.
    assert_eq!(locate_effect_params_block(SEQUENCE, 4), Some(range(7, 8, 9)));
    assert_eq!(locate_effect_param(SEQUENCE, 3, "speed"), Some(range(4, 6, 11)));
    assert_eq!(locate_effect_param_field(SEQUENCE, 3, "speed", "type", None), Some(range(5, 14, 19)));
    assert_eq!(locate_effect_param_value(SEQUENCE, 3, "speed", "2"), Some(range(6, 15, 16)));
    assert_eq!(locate_effect_param(SEQUENCE, 3, "width"), None);
}

#[test]
fn inline_script_positions_map_into_the_block_scalar() {
    let text = "- id: 5\n  script: |\n    return rgb(1, 0, 0);\n    x\n";
    let source = SourceRange {
        start: SourcePosition { line: 0, character: 7 },
        end: SourcePosition { line: 1, character: 1 },
    };
    assert_eq!(
        locate_inline_script_range(text, 5, source),
        Some(TextRange {
            start: TextPosition { line: 2, character: 11 },
            end: TextPosition { line: 3, character: 5 },
        })
    );
}

const DOCUMENT: &str = "a:\n  x: 1\n\n# about b\nb:\n  y: 2\n";

#[test]
fn top_level_blocks_leave_leading_comments_to_the_next_object() {
    let blocks = top_level_object_blocks(DOCUMENT);
    let spans: Vec<(String, usize, usize)> =
        blocks.into_iter().map(|b| (b.key, b.start, b.end)).collect();
    assert_eq!(spans, vec![("a".to_string(), 0, 10), ("b".to_string(), 21, 31)]);
}

#[test]
fn replacing_objects_rewrites_removes_and_appends() {
    assert_eq!(replace_top_level_objects(DOCUMENT, &vec![]), DOCUMENT);
    let replaced = replace_top_level_objects(
        DOCUMENT,
        &vec![
            ("b".to_string(), Some("b:\n  y: 3\n".to_string())),
            ("c".to_string(), Some("c: 1".to_string())),
        ],
    );
    assert_eq!(replaced, "a:\n  x: 1\n\n# about b\nb:\n  y: 3\n\nc: 1\n");
    let removed = replace_top_level_objects(DOCUMENT, &vec![("a".to_string(), None)]);
    assert_eq!(removed, "\n# about b\nb:\n  y: 2\n");
}

#[test]
fn documents_offer_views_for_their_objects() {
    let script = inspect_document("fx/glow.dawnfx".to_string(), None);
    assert_eq!(script.available_views, vec![DocumentViewId::Text]);
    let file = inspect_document(
        "show.dawn".to_string(),
        Some(vec![
            DocumentObjectDescriptor { key: "main".to_string(), kind: ObjectKind::Sequence },
            DocumentObjectDescriptor { key: "rig".to_string(), kind: ObjectKind::Layout },
            DocumentObjectDescriptor { key: "intro".to_string(), kind: ObjectKind::Sequence },
        ]),
    );
    assert_eq!(
        file.available_views,
        vec![DocumentViewId::Text, DocumentViewId::Layout, DocumentViewId::Sequence]
    );
    assert_eq!(
        file.default_object_keys,
        vec![
            (DocumentViewId::Layout, "rig".to_string()),
            (DocumentViewId::Sequence, "main".to_string()),
        ]
    );
}

#[test]
fn aliases_are_sanitized_to_identifiers() {
    assert_eq!(sanitize_alias("my-effects.v2"), "my_effectsv2");
    assert_eq!(sanitize_alias("2fx"), "_2fx");
    assert_eq!(sanitize_alias(""), "_");
}

fn event(event: YamlEvent, line: usize, col: usize) -> MarkedEvent {
    MarkedEvent { event, line, col }
}

#[test]
fn source_map_records_where_each_node_is_written() {
    let events = vec![
        event(YamlEvent::StreamStart, 1, 0),
        event(YamlEvent::DocumentStart, 1, 0),
        event(YamlEvent::MappingStart, 1, 0),
        event(YamlEvent::Scalar("a".to_string()), 1, 0),
        event(YamlEvent::Scalar("1".to_string()), 1, 3),
        event(YamlEvent::Scalar("b".to_string()), 2, 0),
        event(YamlEvent::SequenceStart, 3, 2),
        event(YamlEvent::Scalar("x".to_string()), 3, 4),
        event(YamlEvent::SequenceEnd, 4, 0),
        event(YamlEvent::MappingEnd, 4, 0),
        event(YamlEvent::DocumentEnd, 4, 0),
        event(YamlEvent::StreamEnd, 4, 0),
    ];
    let map = build_source_map_from_events(&events).unwrap();
    assert_eq!(map.value_range(YamlPath::root()), Some(range(0, 0, 1)));
    assert_eq!(map.key_range(YamlPath::root().field("a".to_string())), Some(range(0, 0, 1)));
    assert_eq!(map.value_range(YamlPath::root().field("a".to_string())), Some(range(0, 3, 4)));
    assert_eq!(map.value_range(YamlPath::root().field("b".to_string())), Some(range(2, 2, 3)));
    assert_eq!(
        map.value_range(YamlPath::root().field("b".to_string()).index(0)),
        Some(range(2, 4, 5))
    );
    assert_eq!(map.value_range(YamlPath::root().field("c".to_string())), None);
}

#[test]
fn malformed_event_streams_are_reported() {
    let events = vec![
        event(YamlEvent::MappingStart, 1, 0),
        event(YamlEvent::SequenceStart, 2, 4),
    ];
    let error = build_source_map_from_events(&events).unwrap_err();
    assert_eq!(error.message, "mapping keys must be scalars");
    assert_eq!(error.range, Some(range(1, 4, 5)));
    let events = vec![event(YamlEvent::MappingStart, 1, 0)];
    let error = build_source_map_from_events(&events).unwrap_err();
    assert_eq!(error.message, "unexpected end of YAML events");
    assert_eq!(error.range, None);
}

#[test]
fn serde_error_paths_extend_the_object_path() {
    let base = YamlPath::root().field("main".to_string());
    let path = serde_error_path(
        &base,
        &vec![
            ErrorPathSegment::Key { key: "effects".to_string() },
            ErrorPathSegment::Index { index: 2 },
            ErrorPathSegment::Unknown,
        ],
    );
    assert!(path.same_as(&base.duplicate().field("effects".to_string()).index(2)));
    assert_eq!(object_message("main", "missing field `x`"), "main: missing field `x`");
    assert_eq!(object_message("main", "main: bad"), "main: bad");
}

#[test]
fn lowering_and_loading_errors_have_messages() {
    let missing = LowerError::MissingProject { key: "project".to_string() };
    assert_eq!(missing.message(), "project object `project` was not found");
    let wrong = LowerError::WrongObjectKind {
        key: "rig".to_string(),
        expected: ObjectKind::Layout,
        actual: ObjectKind::Fixture,
    };
    assert_eq!(wrong.message(), "object `rig` must be a layout, but found a fixture");
    let duplicate = LowerError::DuplicateFixtureId { id: FixtureId(12) };
    assert_eq!(duplicate.message(), "duplicate fixture id `12`");
    let compile = LowerError::EffectCompile {
        reference: "fx.glow".to_string(),
        source_path: "fx/glow.dawnfx".to_string(),
        diagnostics: vec![ScriptDiagnostic { range: None, message: "bad token".to_string() }],
    };
    assert_eq!(compile.message(), "failed to compile effect `fx.glow`: bad token");
    let io = LoadProjectError::Io { path: "show.dawn".to_string(), reason: "denied".to_string() };
    assert_eq!(io.message(), "failed to read `show.dawn`: denied");
    assert_eq!(LoadProjectError::from_lower(missing).message(), "project object `project` was not found");
}

#[test]
fn module_declarations_report_bad_and_duplicate_names() {
    let events = vec![
        event(YamlEvent::StreamStart, 1, 0),
        event(YamlEvent::DocumentStart, 1, 0),
        event(YamlEvent::MappingStart, 1, 0),
        event(YamlEvent::Scalar("imports".to_string()), 1, 0),
        event(YamlEvent::SequenceStart, 2, 2),
        event(YamlEvent::MappingStart, 2, 4),
        event(YamlEvent::Scalar("as".to_string()), 2, 4),
        event(YamlEvent::Scalar("lib".to_string()), 2, 8),
        event(YamlEvent::MappingEnd, 3, 0),
        event(YamlEvent::MappingStart, 3, 4),
        event(YamlEvent::Scalar("as".to_string()), 3, 4),
        event(YamlEvent::Scalar("lib".to_string()), 3, 8),
        event(YamlEvent::MappingEnd, 4, 0),
        event(YamlEvent::SequenceEnd, 4, 0),
        event(YamlEvent::MappingEnd, 4, 0),
        event(YamlEvent::DocumentEnd, 4, 0),
        event(YamlEvent::StreamEnd, 4, 0),
    ];
    let map = build_source_map_from_events(&events).unwrap();
    let imports = vec![
        DawnImport { from: "a".to_string(), alias: "lib".to_string() },
        DawnImport { from: "b".to_string(), alias: "lib".to_string() },
        DawnImport { from: "c".to_string(), alias: "2bad".to_string() },
    ];
    let keys = vec!["main".to_string(), "bad-name".to_string()];
    let mut diagnostics = Vec::new();
    validate_module_declarations("show.dawn", &map, &imports, &keys, &mut diagnostics);
    let found: Vec<(Option<TextRange>, String)> =
        diagnostics.iter().map(|d| (d.range, d.message.clone())).collect();
    assert_eq!(
        found,
        vec![
            (Some(range(2, 8, 9)), "duplicate import alias `lib`".to_string()),
            (None, "import alias must start with a letter or underscore".to_string()),
            (
                None,
                "exported object name may only contain letters, numbers, and underscores".to_string()
            ),
        ]
    );
    assert!(diagnostics.iter().all(|d| d.path == "show.dawn" && d.code == DiagnosticCode::Import));
}

#[test]
fn lookups_need_exactly_one_match() {
    let reference = SymbolRef::new("lib.wash").unwrap();
    assert_eq!(single_match(vec![7], &reference).unwrap(), 7);
    match single_match(Vec::<u8>::new(), &reference) {
        Err(LowerError::Import { reference, message }) => {
            assert_eq!(reference, "lib.wash");
            assert_eq!(message, "symbol `wash` was not found");
        }
        _ => panic!("expected an import error"),
    }
    match single_match(vec![1, 2], &reference) {
        Err(error) => assert_eq!(
            error.message(),
            "failed to resolve reference `lib.wash`: symbol `wash` is exported more than once"
        ),
        Ok(_) => panic!("expected an import error"),
    }
}

#[test]
fn mark_collection_keys_are_lower_snake_case() {
    assert!(is_mark_collection_key("beats"));
    assert!(is_mark_collection_key("drop_2"));
    assert!(!is_mark_collection_key(""));
    assert!(!is_mark_collection_key("2drop"));
    assert!(!is_mark_collection_key("Beats"));
    assert!(!is_mark_collection_key("big-drop"));
}

fn collection(key: &str, color: &str) -> SequenceMarkCollectionDocument {
    SequenceMarkCollectionDocument {
        key: key.to_string(),
        name: key.to_string(),
        color: color.to_string(),
        marks_ms: vec![0, 500],
    }
}

#[test]
fn sequence_marks_report_bad_keys_duplicates_and_colors() {
    let events = vec![
        event(YamlEvent::StreamStart, 1, 0),
        event(YamlEvent::DocumentStart, 1, 0),
        event(YamlEvent::MappingStart, 1, 0),
        event(YamlEvent::Scalar("intro".to_string()), 1, 0),
        event(YamlEvent::MappingStart, 2, 2),
        event(YamlEvent::Scalar("mark_collections".to_string()), 2, 2),
        event(YamlEvent::SequenceStart, 3, 4),
        event(YamlEvent::MappingStart, 3, 6),
        event(YamlEvent::Scalar("key".to_string()), 3, 6),
        event(YamlEvent::Scalar("beats".to_string()), 3, 11),
        event(YamlEvent::MappingEnd, 4, 0),
        event(YamlEvent::MappingStart, 4, 6),
        event(YamlEvent::Scalar("key".to_string()), 4, 6),
        event(YamlEvent::Scalar("beats".to_string()), 4, 11),
        event(YamlEvent::Scalar("color".to_string()), 5, 6),
        event(YamlEvent::Scalar("red".to_string()), 5, 13),
        event(YamlEvent::MappingEnd, 6, 0),
        event(YamlEvent::SequenceEnd, 6, 0),
        event(YamlEvent::MappingEnd, 6, 0),
        event(YamlEvent::MappingEnd, 6, 0),
        event(YamlEvent::DocumentEnd, 6, 0),
        event(YamlEvent::StreamEnd, 6, 0),
    ];
    let map = build_source_map_from_events(&events).unwrap();
    let sequences = vec![
        ("intro".to_string(), vec![collection("beats", "#ff0000"), collection("beats", "red")]),
        ("outro".to_string(), vec![collection("Drop", "#00ff00")]),
    ];
    let mut diagnostics = Vec::new();
    validate_sequence_marks("show.dawn", &map, &sequences, &mut diagnostics);
    let found: Vec<(Option<TextRange>, String)> =
        diagnostics.iter().map(|d| (d.range, d.message.clone())).collect();
    assert_eq!(
        found,
        vec![
            (
                Some(range(3, 11, 12)),
                "sequence `intro` has duplicate mark collection key `beats`".to_string()
            ),
            (
                Some(range(4, 13, 14)),
                "sequence `intro` mark collection `beats` color is invalid: color literal must start with `#`"
                    .to_string()
            ),
            (None, "sequence `outro` mark collection key `Drop` must match [a-z][a-z0-9_]*".to_string()),
        ]
    );
    assert!(diagnostics.iter().all(|d| d.path == "show.dawn" && d.code == DiagnosticCode::Sequence));
}

#[test]
fn unmatched_objects_are_appended_in_key_order() {
    let replaced = replace_top_level_objects(
        "a: 1\nb: 2\n",
        &vec![
            ("a".to_string(), Some("a: 9\n".to_string())),
            ("c".to_string(), Some("c: 3".to_string())),
            ("d".to_string(), Some("d: 4\n".to_string())),
        ],
    );
    assert_eq!(replaced, "a: 9\nb: 2\n\nc: 3\n\nd: 4\n");
}

#[test]
fn whitespace_is_the_unicode_white_space_set() {
    for c in (0u32..=0x10ffff).filter_map(char::from_u32) {
        assert_eq!(dawn_project::text::is_whitespace(c), c.is_whitespace(), "{:?}", c);
    }
    assert!(dawn_project::text::is_whitespace('\u{3000}'));
    assert!(!dawn_project::text::is_whitespace('\u{200b}'));
}

#[test]
fn document_text_comes_from_an_overlay_or_the_disk() {
    use_overlays();
}

fn use_overlays() {
    let overlays = vec![
        dawn_project::diagnostics::ProjectOverlay { path: "show/a.dawn".to_string(), content: "a: {}\n".to_string() },
        dawn_project::diagnostics::ProjectOverlay { path: "show/a.dawn".to_string(), content: "later".to_string() },
    ];
    assert_eq!(
        dawn_project::document::inspect::document_source("show/a.dawn", &overlays),
        dawn_project::document::inspect::DocumentSource::Overlay("a: {}\n".to_string())
    );
    assert_eq!(
        dawn_project::document::inspect::document_source("show/b.dawn", &overlays),
        dawn_project::document::inspect::DocumentSource::Disk
    );
    assert_eq!(
        dawn_project::document::inspect::document_source("fx/glow.effect.dawn", &overlays),
        dawn_project::document::inspect::DocumentSource::Script
    );
}
