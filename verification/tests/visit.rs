use dawn_project::analysis::visit::{
    follow_import, import_failed, import_plan, visit_step, ImportEntry, ImportFailure, ImportStep, ImportTarget,
    VisitAction, VisitEvent, VisitState,
};
use dawn_project::diagnostics::{DiagnosticCode, TextPosition, TextRange};
use dawn_project::effect_script::diag::ScriptDiagnostic;

#[test]
fn files_are_read_once() {
    let mut state = VisitState::new();
    let a = "show/main.dawn".to_string();
    assert_eq!(
        visit_step(&mut state, VisitEvent::Begin { path: a.clone() }),
        VisitAction::Read { script: false }
    );
    assert_eq!(visit_step(&mut state, VisitEvent::Begin { path: a.clone() }), VisitAction::Skip);
    assert_eq!(
        visit_step(&mut state, VisitEvent::DawnRead { path: a.clone(), parse_error: None }),
        VisitAction::VisitImports
    );
    assert_eq!(visit_step(&mut state, VisitEvent::Begin { path: a.clone() }), VisitAction::Skip);
    assert_eq!(visit_step(&mut state, VisitEvent::ImportsDone { path: a.clone() }), VisitAction::Done);
    assert_eq!(visit_step(&mut state, VisitEvent::Begin { path: a.clone() }), VisitAction::Skip);
    assert_eq!(state.files.keys().cloned().collect::<Vec<String>>(), vec![a]);
    assert!(state.visiting.is_empty());
    assert!(state.diagnostics.is_empty());
}

#[test]
fn unreadable_files_and_broken_scripts_report() {
    let mut state = VisitState::new();
    let fx = "fx/glow.effect.dawn".to_string();
    assert_eq!(
        visit_step(&mut state, VisitEvent::Begin { path: fx.clone() }),
        VisitAction::Read { script: true }
    );
    let diagnostics = vec![ScriptDiagnostic { range: None, message: "expected `}`".to_string() }];
    assert_eq!(
        visit_step(&mut state, VisitEvent::ScriptRead { path: fx.clone(), diagnostics }),
        VisitAction::Done
    );
    let missing = "lib/gone.dawn".to_string();
    visit_step(&mut state, VisitEvent::Begin { path: missing.clone() });
    assert_eq!(
        visit_step(
            &mut state,
            VisitEvent::ReadFailed { path: missing.clone(), reason: "No such file".to_string() }
        ),
        VisitAction::Done
    );
    let broken = "lib/broken.dawn".to_string();
    visit_step(&mut state, VisitEvent::Begin { path: broken.clone() });
    let range = TextRange {
        start: TextPosition { line: 2, character: 0 },
        end: TextPosition { line: 2, character: 4 },
    };
    visit_step(
        &mut state,
        VisitEvent::DawnRead { path: broken.clone(), parse_error: Some((Some(range), "bad yaml".to_string())) },
    );
    let reports: Vec<(String, DiagnosticCode, String)> = state
        .diagnostics
        .iter()
        .map(|d| (d.path.clone(), d.code, d.message.clone()))
        .collect();
    assert_eq!(
        reports,
        vec![
            (fx.clone(), DiagnosticCode::Script, "expected `}`".to_string()),
            (missing.clone(), DiagnosticCode::Io, "failed to read `lib/gone.dawn`: No such file".to_string()),
            (broken.clone(), DiagnosticCode::Yaml, "bad yaml".to_string()),
        ]
    );
    assert_eq!(state.diagnostics[2].range, Some(range));
    assert_eq!(state.files.keys().cloned().collect::<Vec<String>>(), vec![fx, missing, broken.clone()]);
    assert_eq!(state.visiting, vec![broken]);
}

#[test]
fn imports_that_close_a_cycle_or_lead_nowhere_report() {
    let mut state = VisitState::new();
    let main = "show/main.dawn".to_string();
    visit_step(&mut state, VisitEvent::Begin { path: main.clone() });
    visit_step(&mut state, VisitEvent::DawnRead { path: main.clone(), parse_error: None });
    assert!(!follow_import(&mut state, &main, None, &main));
    assert!(follow_import(&mut state, &main, None, "show/lib.dawn"));
    import_failed(&mut state, &main, None, "lib", ImportFailure::UnreadableDirectory);
    import_failed(
        &mut state,
        &main,
        None,
        "gone.dawn",
        ImportFailure::Missing { shown: "show/gone.dawn".to_string() },
    );
    let messages: Vec<String> = state.diagnostics.iter().map(|d| d.message.clone()).collect();
    assert_eq!(
        messages,
        vec![
            "import cycle includes `show/main.dawn`".to_string(),
            "failed to read import `lib`".to_string(),
            "failed to read import `gone.dawn`: file `show/gone.dawn` was not found".to_string(),
        ]
    );
    assert!(state.diagnostics.iter().all(|d| d.code == DiagnosticCode::Import && d.path == main));
}

#[test]
fn imports_are_followed_in_order_with_directories_in_listing_order() {
    let entries = vec![
        ImportEntry {
            range: None,
            from: "rigs".to_string(),
            target: ImportTarget::Directory(Some(vec!["rigs/a.dawn".to_string(), "rigs/b.dawn".to_string()])),
        },
        ImportEntry { range: None, from: "gone".to_string(), target: ImportTarget::File { path: "gone.dawn".to_string(), loadable: false } },
        ImportEntry { range: None, from: "lib".to_string(), target: ImportTarget::Directory(None) },
        ImportEntry { range: None, from: "fx".to_string(), target: ImportTarget::File { path: "fx.dawn".to_string(), loadable: true } },
    ];
    let described: Vec<String> = import_plan(&entries)
        .into_iter()
        .map(|step| match step {
            ImportStep::Fail { entry, failure: ImportFailure::Missing { shown } } => format!("fail {entry} {shown}"),
            ImportStep::Fail { entry, failure: ImportFailure::UnreadableDirectory } => format!("fail {entry}"),
            ImportStep::Follow { entry, target } => format!("follow {entry} {target}"),
        })
        .collect();
    assert_eq!(
        described,
        vec!["follow 0 rigs/a.dawn", "follow 0 rigs/b.dawn", "fail 1 gone.dawn", "fail 2", "follow 3 fx.dawn"]
    );
}

#[test]
fn the_analysis_counts_files_objects_and_errors() {
    use_summary();
}

fn use_summary() {
    let mut state = VisitState::new();
    visit_step(&mut state, VisitEvent::Begin { path: "a.dawn".to_string() });
    visit_step(&mut state, VisitEvent::ReadFailed { path: "a.dawn".to_string(), reason: "gone".to_string() });
    assert_eq!(dawn_project::analysis::visit::reachable_file_count(&state), 1);
    assert!(dawn_project::analysis::summary::has_errors(&state.diagnostics));
    assert!(!dawn_project::analysis::summary::has_errors(&vec![]));
    assert_eq!(dawn_project::analysis::summary::object_count(&vec![Some(3), None, Some(2)]), 5);
}
