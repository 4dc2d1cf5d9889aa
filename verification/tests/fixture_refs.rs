use dawn_project::analysis::fixture_refs::{locate_fixture_ref, FixtureFile, FixtureUses};
use dawn_project::diagnostics::{TextPosition, TextRange};
use dawn_project::model::kinds::FixtureId;
use dawn_project::parse::yaml_events::build_source_map;

fn range(line: u32, start: u32, end: u32) -> TextRange {
    TextRange {
        start: TextPosition { line, character: start },
        end: TextPosition { line, character: end },
    }
}

const RIG: &str = "stage:\n  kind: layout\n  groups:\n    - members: [1, 2]\n    - members: [3]\nwash:\n  kind: patch\n  routes:\n    - fixture: 3\n";

#[test]
fn a_fixture_is_found_where_it_is_first_named() {
    let files = vec![
        FixtureFile { path: "show/unparsed.dawn".to_string(), parsed: None },
        FixtureFile {
            path: "show/rig.dawn".to_string(),
            parsed: Some((
                build_source_map(RIG).unwrap(),
                vec![
                    (
                        "stage".to_string(),
                        FixtureUses::Layout { groups: vec![vec![FixtureId(1), FixtureId(2)], vec![FixtureId(3)]] },
                    ),
                    ("wash".to_string(), FixtureUses::Patch { routes: vec![FixtureId(3)] }),
                ],
            )),
        },
    ];
    assert_eq!(
        locate_fixture_ref(&files, FixtureId(3)),
        Some(("show/rig.dawn".to_string(), range(4, 16, 17)))
    );
    assert_eq!(
        locate_fixture_ref(&files, FixtureId(2)),
        Some(("show/rig.dawn".to_string(), range(3, 19, 20)))
    );
    assert_eq!(locate_fixture_ref(&files, FixtureId(9)), None);
    let seq = vec![FixtureFile {
        path: "show/seq.dawn".to_string(),
        parsed: Some((
            build_source_map("s:\n  effects:\n    - target:\n        id: 7\n").unwrap(),
            vec![("s".to_string(), FixtureUses::Sequence { effect_targets: vec![None, Some(FixtureId(7))] })],
        )),
    }];
    assert_eq!(locate_fixture_ref(&seq, FixtureId(7)), None);
}
