use dawn_project::diagnostics::{TextPosition, TextRange};
use dawn_project::model::kinds::ObjectKind;
use dawn_project::parse::dawn_file::{object_kind_for_tag, object_kind_of, read_dawn_top_level, split_imports};
use dawn_project::parse::source_map::YamlPath;
use dawn_project::parse::yaml_events::build_source_map;

fn range(line: u32, start: u32, end: u32) -> TextRange {
    TextRange {
        start: TextPosition { line, character: start },
        end: TextPosition { line, character: end },
    }
}

#[test]
fn source_maps_come_from_the_text() {
    let map = build_source_map("a: 1\nb:\n  - x\n").unwrap();
    assert_eq!(map.key_range(YamlPath::root().field("a".to_string())), Some(range(0, 0, 1)));
    assert_eq!(map.value_range(YamlPath::root().field("a".to_string())), Some(range(0, 3, 4)));
    assert_eq!(
        map.value_range(YamlPath::root().field("b".to_string()).index(0)),
        Some(range(2, 4, 5))
    );
    assert_eq!(map.value_range(YamlPath::root().field("c".to_string())), None);
}

#[test]
fn yaml_syntax_errors_are_placed_at_the_parser_mark() {
    let error = build_source_map("a: [1, 2\n").unwrap_err();
    assert!(!error.message.is_empty());
    let placed = error.range.unwrap();
    assert_eq!(placed.end.character, placed.start.character + 1);
    let key = build_source_map("[a]: 1\n").unwrap_err();
    assert_eq!(key.message, "mapping keys must be scalars");
}

#[test]
fn the_top_level_sets_imports_apart() {
    let top = read_dawn_top_level("imports:\n  - from: lib\n    as: lib\nshow:\n  kind: project\nrig: {}\n").unwrap();
    assert!(top.imports.is_some());
    let keys: Vec<String> = top.objects.iter().map(|(k, _)| k.clone()).collect();
    assert_eq!(keys, vec!["show".to_string(), "rig".to_string()]);
    assert_eq!(top.source_map.value_range(YamlPath::root().field("rig".to_string())), Some(range(5, 5, 6)));
    let plain = read_dawn_top_level("show: {}\n").unwrap();
    assert!(plain.imports.is_none());
    assert!(read_dawn_top_level("- 1\n- 2\n").is_err());
    let (imports, objects) = split_imports(vec![
        ("a".to_string(), serde_yaml::Value::Null),
        ("imports".to_string(), serde_yaml::Value::Bool(true)),
    ]);
    assert_eq!(imports, Some(serde_yaml::Value::Bool(true)));
    assert_eq!(objects.len(), 1);
}

#[test]
fn objects_are_sorted_by_their_type_tag() {
    let text = "rig:\n  type: layout\nodd:\n  type: banana\nbare:\n  x: 1\n";
    let top = read_dawn_top_level(text).unwrap();
    let base = |key: &str| YamlPath::root().field(key.to_string());
    assert_eq!(object_kind_of(&top.objects[0].1, &top.source_map, &base("rig")).unwrap(), ObjectKind::Layout);
    let unknown = object_kind_of(&top.objects[1].1, &top.source_map, &base("odd")).unwrap_err();
    assert_eq!(unknown.message, "unknown Dawn object type `banana`");
    assert_eq!(unknown.range, Some(range(3, 8, 9)));
    let missing = object_kind_of(&top.objects[2].1, &top.source_map, &base("bare")).unwrap_err();
    assert_eq!(missing.message, "missing field `type`");
    assert_eq!(
        object_kind_for_tag(Some("effect".to_string()), &top.source_map, &base("rig")).unwrap_err().message,
        "unknown Dawn object type `effect`"
    );
    assert_eq!(
        object_kind_for_tag(Some("curve".to_string()), &top.source_map, &base("rig")).unwrap(),
        ObjectKind::Curve
    );
}
