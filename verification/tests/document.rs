use dawn_project::document::ordering::{sort_marks, sort_sequence_effects, sort_sequence_mark_collections};
use dawn_project::document::identifiers::{trim_chars, validate_fixture_document, validate_layout_identifiers};
use dawn_project::document::imports::unique_import_alias;
use dawn_project::document::inspect::{target_label, LayoutGroupDocument, LayoutTargetDocument};
use dawn_project::document::lanes::{fallback_sequence_lanes, repair_layout_group_members};
use dawn_project::document::marks::validate_mark_collection_key;
use dawn_project::document::sequence_edit::SequenceEdit;
use dawn_project::document::timeline::{
    sorted_mark_original_index, SequenceMarkCollectionDocument, SequenceTimeline, TimelineClip,
    TimelineEffect,
};
use dawn_project::model::kinds::{DawnImport, FixtureId, LayoutTargetKind, SequenceEffectScope};

type Timeline = SequenceTimeline<u32, u8, String>;

fn effect(id: u32, start_ms: u64, duration_ms: u64) -> TimelineEffect<u32, u8, String> {
    TimelineEffect {
        id,
        start_ms,
        duration_ms,
        target: 1,
        scope: SequenceEffectScope::WholeTarget,
        params: 0,
        script: "fx.glow".to_string(),
    }
}

fn timeline(duration_ms: u64, effects: Vec<TimelineEffect<u32, u8, String>>) -> Timeline {
    SequenceTimeline {
        duration_ms,
        audio: None,
        mark_collections: Vec::new(),
        effects,
        automation_clips: vec![TimelineClip { id: 9, targets: vec![1, 2, 1] }],
    }
}

#[test]
fn next_effect_id_is_the_least_free_one() {
    let t = timeline(10_000, vec![effect(1, 0, 10), effect(3, 0, 10)]);
    assert_eq!(t.next_sequence_effect_id(), Some(2));
    let t = timeline(10_000, vec![effect(2, 0, 10), effect(1, 0, 10)]);
    assert_eq!(t.next_sequence_effect_id(), Some(3));
    let t = timeline(10_000, (1..9).map(|id| effect(id, 0, 10)).collect());
    // Id 9 is taken by the automation clip.
    assert_eq!(t.next_sequence_effect_id(), Some(10));
}

#[test]
fn added_effect_gets_a_fresh_id_and_stays_within_the_sequence() {
    let mut t = timeline(1_500, vec![effect(0, 0, 10)]);
    let id = t.add_effect(7, SequenceEffectScope::PerFixture, 1_200, 3, "fx.pulse".to_string()).unwrap();
    assert_eq!(id, 1);
    let added = &t.effects[1];
    assert_eq!((added.id, added.start_ms, added.duration_ms, added.target), (1, 1_200, 300, 7));

    let mut t = timeline(1_000, vec![]);
    let id = t.add_effect(7, SequenceEffectScope::PerFixture, 5_000, 3, "fx.pulse".to_string()).unwrap();
    // Ids start at 1 and skip those of automation clips.
    assert_eq!(id, 1);
    assert_eq!((t.effects[0].start_ms, t.effects[0].duration_ms), (999, 1));
}

#[test]
fn delete_effect_removes_it_and_its_clip_targets() {
    let mut t = timeline(10_000, vec![effect(1, 0, 10), effect(2, 0, 10)]);
    t.delete_effect(1);
    assert_eq!(t.effects.len(), 1);
    assert_eq!(t.effects[0].id, 2);
    assert_eq!(t.automation_clips[0].targets, vec![2]);
}

#[test]
fn duplicate_move_and_resize_effects() {
    let mut t = timeline(10_000, vec![effect(0, 100, 500)]);
    assert_eq!(t.duplicate_effect(0).unwrap(), 1);
    assert_eq!((t.effects[1].start_ms, t.effects[1].duration_ms), (100, 500));
    assert_eq!(t.duplicate_effect(5).unwrap_err(), "sequence effect `5` was not found");

    t.move_effect(1, 9_900, Some(4)).unwrap();
    assert_eq!((t.effects[1].start_ms, t.effects[1].target), (9_500, 4));

    t.resize_effect(0, 9_800, 1_000).unwrap();
    assert_eq!((t.effects[0].start_ms, t.effects[0].duration_ms), (9_800, 200));
    t.resize_effect(0, 20_000, 0).unwrap();
    assert_eq!((t.effects[0].start_ms, t.effects[0].duration_ms), (9_999, 1));
    assert_eq!(t.resize_effect(42, 0, 1).unwrap_err(), "sequence effect `42` was not found");
}

#[test]
fn refused_edits_leave_the_timeline_unchanged() {
    let mut t = timeline(10_000, vec![effect(0, 100, 500)]);
    let err = t
        .apply_sequence_edit_operation(SequenceEdit::MoveEffect { id: 3, start_ms: 0, target: None })
        .unwrap_err();
    assert_eq!(err, "sequence effect `3` was not found");
    assert_eq!(t.effects.len(), 1);
    assert_eq!(t.effects[0].start_ms, 100);
    let err = t
        .apply_sequence_edit_operation(SequenceEdit::SetAudio { import: Some(String::new()) })
        .unwrap_err();
    assert_eq!(err, "asset path must not be empty");
    assert!(t.audio.is_none());
    t.apply_sequence_edit_operation(SequenceEdit::SetAudio { import: Some("song.wav".to_string()) })
        .unwrap();
    assert_eq!(t.audio.as_ref().unwrap().raw(), "song.wav");
}

#[test]
fn mark_collection_keys_are_validated() {
    assert!(validate_mark_collection_key("beats_2").is_ok());
    assert_eq!(
        validate_mark_collection_key("").unwrap_err(),
        "mark collection key cannot be empty"
    );
    assert_eq!(
        validate_mark_collection_key("Beats").unwrap_err(),
        "mark collection key must start with a lowercase ASCII letter"
    );
    assert_eq!(
        validate_mark_collection_key("beats-2").unwrap_err(),
        "mark collection key may only contain lowercase ASCII letters, numbers, and underscores"
    );
}

#[test]
fn mark_collections_and_marks_are_edited_by_sorted_position() {
    let mut t = timeline(1_000, vec![]);
    t.create_mark_collection("beats".to_string(), "Beats".to_string(), "#ff0000".to_string()).unwrap();
    assert_eq!(
        t.create_mark_collection("beats".to_string(), "Again".to_string(), "#00ff00".to_string())
            .unwrap_err(),
        "mark collection `beats` already exists"
    );
    t.add_mark("beats", 500).unwrap();
    t.add_mark("beats", 5_000).unwrap();
    t.add_mark("beats", 100).unwrap();
    assert_eq!(t.mark_collections[0].marks_ms, vec![500, 1_000, 100]);
    // Sorted position 0 is the mark at 100 ms, stored last.
    t.move_mark("beats", 0, 250).unwrap();
    assert_eq!(t.mark_collections[0].marks_ms, vec![500, 1_000, 250]);
    t.delete_mark("beats", 2).unwrap();
    assert_eq!(t.mark_collections[0].marks_ms, vec![500, 250]);
    assert_eq!(t.delete_mark("beats", 2).unwrap_err(), "mark `2` was not found");
    assert_eq!(t.add_mark("bars", 1).unwrap_err(), "mark collection `bars` was not found");
    t.rename_mark_collection("beats", "Kicks".to_string()).unwrap();
    t.set_mark_collection_color("beats", "#0000ff".to_string()).unwrap();
    assert_eq!(t.mark_collections[0].name, "Kicks");
    assert_eq!(t.mark_collections[0].color, "#0000ff");
    t.delete_mark_collection("beats").unwrap();
    assert!(t.mark_collections.is_empty());
    let _unused: Option<SequenceMarkCollectionDocument> = None;
}

#[test]
fn sorted_mark_positions_map_back_to_storage() {
    let marks = vec![30, 10, 20, 10];
    assert_eq!(sorted_mark_original_index(&marks, 0).unwrap(), 1);
    assert_eq!(sorted_mark_original_index(&marks, 1).unwrap(), 3);
    assert_eq!(sorted_mark_original_index(&marks, 2).unwrap(), 2);
    assert_eq!(sorted_mark_original_index(&marks, 3).unwrap(), 0);
    assert_eq!(sorted_mark_original_index(&marks, 4).unwrap_err(), "mark `4` was not found");
}

#[test]
fn lanes_without_a_layout_follow_first_use() {
    let t = |kind: LayoutTargetKind, name: &str| LayoutTargetDocument { kind, name: name.to_string() };
    let targets = vec![
        t(LayoutTargetKind::Fixture, "3"),
        t(LayoutTargetKind::Group, "front"),
        t(LayoutTargetKind::Fixture, "3"),
        t(LayoutTargetKind::Fixture, "front"),
    ];
    let lanes = fallback_sequence_lanes(&targets);
    let labels: Vec<&str> = lanes.iter().map(|l| l.label.as_str()).collect();
    assert_eq!(labels, vec!["Fixture 3", "Group front", "Fixture front"]);
    assert_eq!(target_label(LayoutTargetKind::Group, "wash"), "Group wash");
}

#[test]
fn group_members_follow_renumbered_fixtures() {
    let ids = |v: &[u32]| v.iter().map(|&i| FixtureId(i)).collect::<Vec<_>>();
    let mut groups = vec![
        LayoutGroupDocument { name: "all".to_string(), members: ids(&[1, 2, 3, 2]) },
        LayoutGroupDocument { name: "gone".to_string(), members: ids(&[9]) },
    ];
    // Fixture 2 became 5, fixture 3 was removed.
    repair_layout_group_members(&ids(&[1, 2, 3]), &ids(&[1, 5]), &mut groups);
    assert_eq!(groups[0].name, "all");
    assert_eq!(groups[0].members, ids(&[1, 5]));
    assert!(groups[1].members.is_empty());
}

#[test]
fn new_import_aliases_skip_those_in_use() {
    let import = |alias: &str| DawnImport { from: "x".to_string(), alias: alias.to_string() };
    assert_eq!(unique_import_alias("fx", &vec![]), "fx");
    assert_eq!(unique_import_alias("fx", &vec![import("fx"), import("fx2"), import("other")]), "fx3");
    assert_eq!(unique_import_alias("fx", &vec![import("fx3"), import("fx")]), "fx2");
}

#[test]
fn layout_placements_need_unique_ids_and_names() {
    let ok = vec![(FixtureId(1), "Left".to_string()), (FixtureId(2), "Right".to_string())];
    assert_eq!(validate_layout_identifiers(&ok), Ok(()));
    let twice = vec![(FixtureId(3), "A".to_string()), (FixtureId(3), "B".to_string())];
    assert_eq!(
        validate_layout_identifiers(&twice),
        Err("duplicate fixture placement id `3`".to_string())
    );
    let blank = vec![(FixtureId(1), "Left".to_string()), (FixtureId(2), " \t ".to_string())];
    assert_eq!(
        validate_layout_identifiers(&blank),
        Err("fixture placement name cannot be empty".to_string())
    );
    let same = vec![(FixtureId(1), " Left".to_string()), (FixtureId(2), "Left  ".to_string())];
    assert_eq!(
        validate_layout_identifiers(&same),
        Err("duplicate fixture placement name `Left`".to_string())
    );
    assert_eq!(trim_chars("  a b \n"), vec!['a', ' ', 'b']);
}

#[test]
fn fixture_object_keys_are_unique_identifiers() {
    assert_eq!(validate_fixture_document(&vec!["wash".to_string(), "spot_2".to_string()]), Ok(()));
    assert_eq!(
        validate_fixture_document(&vec!["wash".to_string(), "2bad".to_string()]),
        Err("fixture object key must start with a letter or underscore".to_string())
    );
    assert_eq!(
        validate_fixture_document(&vec!["".to_string()]),
        Err("fixture object key cannot be empty".to_string())
    );
    assert_eq!(
        validate_fixture_document(&vec!["wash".to_string(), "wash".to_string()]),
        Err("duplicate fixture object key `wash`".to_string())
    );
}

#[test]
fn marks_are_sorted_by_time() {
    assert_eq!(sort_marks(vec![500, 0, 250, 0]), vec![0, 0, 250, 500]);
    assert!(sort_marks(Vec::new()).is_empty());
    let collections = vec![SequenceMarkCollectionDocument {
        key: "beats".to_string(),
        name: "Beats".to_string(),
        color: "#ff0000".to_string(),
        marks_ms: vec![900, 100, 500],
    }];
    let sorted = sort_sequence_mark_collections(collections);
    assert_eq!(sorted.len(), 1);
    assert_eq!(sorted[0].key, "beats");
    assert_eq!(sorted[0].name, "Beats");
    assert_eq!(sorted[0].marks_ms, vec![100, 500, 900]);
}

#[test]
fn effects_are_sorted_by_start_lane_and_id() {
    let effects = vec![
        effect(4, 100, 10),
        effect(2, 0, 10),
        effect(3, 100, 10),
        effect(1, 100, 20),
        effect(1, 100, 30),
    ];
    let lanes = vec![0, 5, 1, 1, 1];
    let sorted = sort_sequence_effects(effects, &lanes);
    let order: Vec<(u32, u64)> = sorted.iter().map(|e| (e.id, e.duration_ms)).collect();
    // Start time first, then lane, then id; equal keys keep their order.
    assert_eq!(order, vec![(2, 10), (4, 10), (1, 20), (1, 30), (3, 10)]);
}
