use dawn_project::lower::LowerError;
use dawn_project::lower_checks::{
    validate_layout_ids, validate_layout_target_order, validate_sequence_ids, EffectTarget,
};
use dawn_project::model::kinds::{
    CurveValueType, FixtureId, GroupInstantiationId, LayoutTargetKind, LayoutTargetRef,
};

fn group(id: u32) -> LayoutTargetRef {
    LayoutTargetRef { kind: LayoutTargetKind::Group, id }
}

fn fixture(id: u32) -> LayoutTargetRef {
    LayoutTargetRef { kind: LayoutTargetKind::Fixture, id }
}

fn fixtures(ids: &[u32]) -> Vec<FixtureId> {
    ids.iter().map(|id| FixtureId(*id)).collect()
}

fn groups(ids: &[u32]) -> Vec<GroupInstantiationId> {
    ids.iter().map(|id| GroupInstantiationId(*id)).collect()
}

#[test]
fn complete_target_order_is_returned() {
    let order = vec![group(10), fixture(2), fixture(1)];
    let checked = validate_layout_target_order(&fixtures(&[1, 2]), &groups(&[10]), &order).unwrap();
    assert_eq!(checked, order);
    let empty = validate_layout_target_order(&Vec::new(), &Vec::new(), &Vec::new()).unwrap();
    assert!(empty.is_empty());
}

#[test]
fn target_order_errors_name_the_first_bad_entry() {
    let fs = fixtures(&[1, 2]);
    let gs = groups(&[10]);
    match validate_layout_target_order(&fs, &gs, &vec![group(10), fixture(7), group(10)]) {
        Err(LowerError::UnknownLayoutTargetOrderEntry { kind: LayoutTargetKind::Fixture, id: 7 }) => {}
        other => panic!("unexpected {other:?}"),
    }
    match validate_layout_target_order(&fs, &gs, &vec![group(10), group(10), fixture(7)]) {
        Err(LowerError::DuplicateLayoutTargetOrderEntry { kind: LayoutTargetKind::Group, id: 10 }) => {}
        other => panic!("unexpected {other:?}"),
    }
    match validate_layout_target_order(&fs, &gs, &vec![fixture(1), fixture(2)]) {
        Err(LowerError::MissingLayoutTargetOrderEntry { kind: LayoutTargetKind::Group, id: 10 }) => {}
        other => panic!("unexpected {other:?}"),
    }
    match validate_layout_target_order(&fs, &gs, &vec![group(10), fixture(1)]) {
        Err(error @ LowerError::MissingLayoutTargetOrderEntry { kind: LayoutTargetKind::Fixture, id: 2 }) => {
            assert_eq!(error.message(), "missing layout target order entry `Fixture:2`");
        }
        other => panic!("unexpected {other:?}"),
    }
}

#[test]
fn layout_ids_are_checked_in_lowering_order() {
    let order = vec![group(10), fixture(1), fixture(2)];
    let ok = validate_layout_ids(
        &fixtures(&[1, 2]),
        &vec![(GroupInstantiationId(10), fixtures(&[2, 1]))],
        &order,
    )
    .unwrap();
    assert_eq!(ok, order);
    match validate_layout_ids(&fixtures(&[1, 2, 1]), &Vec::new(), &order) {
        Err(LowerError::DuplicateFixtureId { id: FixtureId(1) }) => {}
        other => panic!("unexpected {other:?}"),
    }
    let twice = vec![
        (GroupInstantiationId(10), fixtures(&[1])),
        (GroupInstantiationId(10), fixtures(&[9])),
    ];
    match validate_layout_ids(&fixtures(&[1, 2]), &twice, &order) {
        Err(LowerError::DuplicateGroupId { id: GroupInstantiationId(10) }) => {}
        other => panic!("unexpected {other:?}"),
    }
    let unknown = vec![(GroupInstantiationId(10), fixtures(&[1, 9, 8]))];
    match validate_layout_ids(&fixtures(&[1, 2]), &unknown, &order) {
        Err(LowerError::UnknownFixture { id: FixtureId(9) }) => {}
        other => panic!("unexpected {other:?}"),
    }
    let fine = vec![(GroupInstantiationId(10), fixtures(&[1]))];
    match validate_layout_ids(&fixtures(&[1, 2]), &fine, &vec![group(10), fixture(1)]) {
        Err(LowerError::MissingLayoutTargetOrderEntry { kind: LayoutTargetKind::Fixture, id: 2 }) => {}
        other => panic!("unexpected {other:?}"),
    }
}

#[test]
fn sequence_ids_are_checked_in_lowering_order() {
    let fs = fixtures(&[1, 2]);
    let gs = groups(&[10]);
    let effects = vec![
        (1, EffectTarget::Group { id: GroupInstantiationId(10) }),
        (2, EffectTarget::Fixture { id: FixtureId(2) }),
    ];
    let clips = vec![(5, vec![1, 2], CurveValueType::Float)];
    assert!(validate_sequence_ids(&fs, &gs, &effects, &clips).is_ok());

    let duplicate = vec![effects[0], (1, EffectTarget::Fixture { id: FixtureId(9) })];
    match validate_sequence_ids(&fs, &gs, &duplicate, &clips) {
        Err(LowerError::DuplicateSequenceEffectId { id: 1 }) => {}
        other => panic!("unexpected {other:?}"),
    }
    let no_group = vec![(3, EffectTarget::Group { id: GroupInstantiationId(11) })];
    match validate_sequence_ids(&fs, &gs, &no_group, &Vec::new()) {
        Err(LowerError::UnknownGroup { id: GroupInstantiationId(11) }) => {}
        other => panic!("unexpected {other:?}"),
    }
    let no_fixture = vec![(3, EffectTarget::Fixture { id: FixtureId(4) })];
    match validate_sequence_ids(&fs, &gs, &no_fixture, &Vec::new()) {
        Err(LowerError::UnknownFixture { id: FixtureId(4) }) => {}
        other => panic!("unexpected {other:?}"),
    }
    let clip_twice = vec![(5, vec![1], CurveValueType::Float), (5, vec![2], CurveValueType::Color)];
    match validate_sequence_ids(&fs, &gs, &effects, &clip_twice) {
        Err(LowerError::DuplicateAutomationClipId { id: 5 }) => {}
        other => panic!("unexpected {other:?}"),
    }
    let clip_unknown = vec![(5, vec![2, 7], CurveValueType::Color)];
    match validate_sequence_ids(&fs, &gs, &effects, &clip_unknown) {
        Err(LowerError::UnknownSequenceEffect { id: 7 }) => {}
        other => panic!("unexpected {other:?}"),
    }
    let color_clip = vec![(6, vec![1], CurveValueType::Color)];
    match validate_sequence_ids(&fs, &gs, &effects, &color_clip) {
        Err(error @ LowerError::AutomationCurveType { id: 6, actual: CurveValueType::Color }) => {
            assert_eq!(error.message(), "automation clip `6` requires a float curve, but found a Color curve");
        }
        other => panic!("unexpected {other:?}"),
    }
}
