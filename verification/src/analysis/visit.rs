//! The decisions of the walk over the files of a project: which files to
//! read, what a file that could not be read or parsed reports, and when a
//! file is done. Reading, compiling and parsing are the caller's; it hands
//! back what came of them as events.
use vstd::prelude::*;
use crate::analysis::effect_params::{script_diagnostics, spec_script_range};
use crate::diagnostics::{DiagnosticCode, DiagnosticSeverity, DiagnosticView, ProjectDiagnostic, TextRange};
use crate::effect_script::diag::ScriptDiagnostic;
use crate::text::{chars_of, concat, concat3, str_eq};

verus! {

#[verifier::external_type_specification]
#[verifier::external_body]
#[verifier::reject_recursive_types(K)]
#[verifier::reject_recursive_types(V)]
#[verifier::reject_recursive_types(S)]
pub struct ExIndexMap<K, V, S>(indexmap::IndexMap<K, V, S>);

/// The keys of `m`, in the map's order.
pub uninterp spec fn path_map_keys(m: indexmap::IndexMap<String, ()>) -> Seq<Seq<char>>;

/// `indexmap::IndexMap::new`: a map with no keys.
#[verifier::external_body]
fn new_path_map() -> (m: indexmap::IndexMap<String, ()>)
    ensures
        path_map_keys(m) == Seq::<Seq<char>>::empty(),
{
    indexmap::IndexMap::new()
}

/// `indexmap::IndexMap::contains_key`: whether `key` is one of the keys.
#[verifier::external_body]
fn path_map_contains(m: &indexmap::IndexMap<String, ()>, key: &str) -> (b: bool)
    ensures
        b == path_map_keys(*m).contains(key@),
{
    m.contains_key(key)
}

/// `indexmap::IndexMap::insert`: a key already there keeps its place; a new
/// one comes last.
#[verifier::external_body]
fn path_map_insert(m: &mut indexmap::IndexMap<String, ()>, key: String)
    ensures
        path_map_keys(*final(m)) == if path_map_keys(*old(m)).contains(key@) {
            path_map_keys(*old(m))
        } else {
            path_map_keys(*old(m)).push(key@)
        },
{
    m.insert(key, ());
}

/// `indexmap::IndexMap::len`: the number of keys.
#[verifier::external_body]
fn path_map_len(m: &indexmap::IndexMap<String, ()>) -> (n: usize)
    ensures
        n == path_map_keys(*m).len(),
{
    m.len()
}

/// How many files the walk has analyzed.
pub fn reachable_file_count(state: &VisitState) -> (n: usize)
    ensures
        n == state@.files.len(),
{
    path_map_len(&state.files)
}

/// The files of the walk: those analyzed (read or failed), in the order they
/// were analyzed, those being visited, and the diagnostics so far.
pub struct VisitState {
    pub files: indexmap::IndexMap<String, ()>,
    pub visiting: Vec<String>,
    pub diagnostics: Vec<ProjectDiagnostic>,
}

#[verifier::ext_equal]
pub struct VisitStateView {
    pub files: Seq<Seq<char>>,
    pub visiting: Seq<Seq<char>>,
    pub diagnostics: Seq<DiagnosticView>,
}

pub open spec fn paths_view(v: Seq<String>) -> Seq<Seq<char>> {
    v.map_values(|s: String| s@)
}

pub open spec fn diagnostics_view(v: Seq<ProjectDiagnostic>) -> Seq<DiagnosticView> {
    v.map_values(|d: ProjectDiagnostic| d.spec_view())
}

impl View for VisitState {
    type V = VisitStateView;

    open spec fn view(&self) -> VisitStateView {
        VisitStateView {
            files: path_map_keys(self.files),
            visiting: paths_view(self.visiting@),
            diagnostics: diagnostics_view(self.diagnostics@),
        }
    }
}

impl VisitState {
    /// No path is analyzed twice or visited twice at once.
    pub open spec fn wf(&self) -> bool {
        self@.visiting.no_duplicates()
    }

    /// The state before any file is visited.
    pub fn new() -> (s: Self)
        ensures
            s.wf(),
            s@.files.len() == 0,
            s@.visiting.len() == 0,
            s@.diagnostics.len() == 0,
    {
        let s = VisitState { files: new_path_map(), visiting: Vec::new(), diagnostics: Vec::new() };
        assert(s@.files =~= Seq::<Seq<char>>::empty());
        assert(s@.visiting =~= Seq::<Seq<char>>::empty());
        s
    }
}

/// What the caller reports: a file to visit, or what came of reading one.
pub enum VisitEvent {
    /// The walk reaches `path`.
    Begin { path: String },
    /// `path` could not be read, for `reason`.
    ReadFailed { path: String, reason: String },
    /// The effect script at `path` was read and compiled, with `diagnostics`
    /// (none when it compiled).
    ScriptRead { path: String, diagnostics: Vec<ScriptDiagnostic> },
    /// The Dawn file at `path` was read; `parse_error` is the range and
    /// message of its YAML error, if it has one.
    DawnRead { path: String, parse_error: Option<(Option<TextRange>, String)> },
    /// The imports of the Dawn file at `path` have been visited.
    ImportsDone { path: String },
}

/// What the caller does next.
#[derive(Debug, Clone, Copy, PartialEq, Eq, Structural)]
pub enum VisitAction {
    /// Nothing: the file is analyzed already or is being visited.
    Skip,
    /// Read the file; `script` tells an effect script from a Dawn file.
    Read { script: bool },
    /// Check the parsed file's declarations and marks, if it parsed, then
    /// visit its imports and report `ImportsDone`.
    VisitImports,
    /// The file is done.
    Done,
}

/// Whether `path` names an effect script: its file name ends in `.effect.dawn`.
pub open spec fn is_script_path(path: Seq<char>) -> bool {
    path.len() >= 12 && path.subrange(path.len() - 12, path.len() as int) == ".effect.dawn"@
}

/// `s` without `x`.
pub open spec fn without(s: Seq<Seq<char>>, x: Seq<char>) -> Seq<Seq<char>>
    decreases s.len(),
{
    if s.len() == 0 {
        s
    } else if s.last() == x {
        without(s.drop_last(), x)
    } else {
        without(s.drop_last(), x).push(s.last())
    }
}

/// `files` with `path` recorded as analyzed.
pub open spec fn with_file(files: Seq<Seq<char>>, path: Seq<char>) -> Seq<Seq<char>> {
    if files.contains(path) {
        files
    } else {
        files.push(path)
    }
}

pub open spec fn error_view(path: Seq<char>, range: Option<TextRange>, code: DiagnosticCode, message: Seq<char>) -> DiagnosticView {
    DiagnosticView { path, range, severity: DiagnosticSeverity::Error, code, message }
}

/// The diagnostic of a script error at `path`.
pub open spec fn script_error_view(path: Seq<char>, d: ScriptDiagnostic) -> DiagnosticView {
    error_view(
        path,
        match d.range {
            Some(sr) => Some(spec_script_range(sr)),
            None => None,
        },
        DiagnosticCode::Script,
        d.message@,
    )
}

/// The state after `path` is done: analyzed, and no longer visited.
pub open spec fn finish(s: VisitStateView, path: Seq<char>, added: Seq<DiagnosticView>) -> VisitStateView {
    VisitStateView {
        files: with_file(s.files, path),
        visiting: without(s.visiting, path),
        diagnostics: s.diagnostics + added,
    }
}

/// One step of the walk.
pub open spec fn spec_visit_step(s: VisitStateView, e: VisitEvent) -> (VisitStateView, VisitAction) {
    match e {
        VisitEvent::Begin { path } => if s.files.contains(path@) || s.visiting.contains(path@) {
            (s, VisitAction::Skip)
        } else {
            (
                VisitStateView { files: s.files, visiting: s.visiting.push(path@), diagnostics: s.diagnostics },
                VisitAction::Read { script: is_script_path(path@) },
            )
        },
        VisitEvent::ReadFailed { path, reason } => (
            finish(
                s,
                path@,
                seq![
                    error_view(
                        path@,
                        None,
                        DiagnosticCode::Io,
                        "failed to read `"@ + path@ + "`: "@ + reason@,
                    ),
                ],
            ),
            VisitAction::Done,
        ),
        VisitEvent::ScriptRead { path, diagnostics } => (
            finish(
                s,
                path@,
                Seq::new(diagnostics@.len(), |k: int| script_error_view(path@, diagnostics@[k])),
            ),
            VisitAction::Done,
        ),
        VisitEvent::DawnRead { path, parse_error } => (
            VisitStateView {
                files: with_file(s.files, path@),
                visiting: s.visiting,
                diagnostics: s.diagnostics + match parse_error {
                    Some((range, message)) => seq![error_view(path@, range, DiagnosticCode::Yaml, message@)],
                    None => seq![],
                },
            },
            VisitAction::VisitImports,
        ),
        VisitEvent::ImportsDone { path } => (
            VisitStateView { files: s.files, visiting: without(s.visiting, path@), diagnostics: s.diagnostics },
            VisitAction::Done,
        ),
    }
}

fn contains_path(v: &Vec<String>, path: &str) -> (b: bool)
    ensures
        b == paths_view(v@).contains(path@),
{
    let ghost views = paths_view(v@);
    let mut k: usize = 0;
    while k < v.len()
        invariant
            k <= v@.len(),
            views == paths_view(v@),
            forall|m: int| 0 <= m < k ==> views[m] != path@,
        decreases v@.len() - k,
    {
        if str_eq(v[k].as_str(), path) {
            assert(views[k as int] == path@);
            return true;
        }
        k += 1;
    }
    false
}

/// Whether `path` names an effect script: it ends in `.effect.dawn`.
pub fn is_effect_script_path(path: &str) -> (b: bool)
    ensures
        b == is_script_path(path@),
{
    let chars = chars_of(path);
    let suffix = chars_of(".effect.dawn");
    proof {
        reveal_strlit(".effect.dawn");
    }
    if chars.len() < 12 {
        return false;
    }
    let start = chars.len() - 12;
    let mut i: usize = 0;
    while i < 12
        invariant
            i <= 12,
            start + 12 == chars.len(),
            chars@ == path@,
            suffix@ == ".effect.dawn"@,
            suffix@.len() == 12,
            forall|j: int| 0 <= j < i ==> chars@[start + j] == suffix@[j],
        decreases 12 - i,
    {
        if chars[start + i] != suffix[i] {
            assert(path@.subrange(path@.len() - 12, path@.len() as int)[i as int] != ".effect.dawn"@[i as int]);
            return false;
        }
        i += 1;
    }
    assert(path@.subrange(path@.len() - 12, path@.len() as int) =~= ".effect.dawn"@);
    true
}

proof fn lemma_push_distinct(w: Seq<Seq<char>>, l: Seq<char>)
    requires
        w.no_duplicates(),
        !w.contains(l),
    ensures
        w.push(l).no_duplicates(),
{
    let v = w.push(l);
    assert forall|i: int, j: int| 0 <= i < v.len() && 0 <= j < v.len() && i != j implies v[i] != v[j] by {
        if j == w.len() {
            assert(w[i] == v[i]);
        } else if i == w.len() {
            assert(w[j] == v[j]);
        }
    }
}

proof fn lemma_without_distinct(s: Seq<Seq<char>>, x: Seq<char>)
    requires
        s.no_duplicates(),
    ensures
        without(s, x).no_duplicates(),
        forall|y: Seq<char>| #[trigger] without(s, x).contains(y) <==> s.contains(y) && y != x,
    decreases s.len(),
{
    if s.len() > 0 {
        let init = s.drop_last();
        let l = s.last();
        assert(s =~= init.push(l));
        assert(init.no_duplicates());
        lemma_without_distinct(init, x);
        let w = without(init, x);
        assert forall|y: Seq<char>| #[trigger] without(s, x).contains(y) <==> s.contains(y) && y != x by {
            vstd::seq_lib::lemma_seq_contains_after_push(init, l, y);
            if l != x {
                vstd::seq_lib::lemma_seq_contains_after_push(w, l, y);
            }
        }
        if l != x {
            assert(!init.contains(l)) by {
                if init.contains(l) {
                    let k = choose|k: int| 0 <= k < init.len() && init[k] == l;
                    assert(s[k] == s[s.len() - 1]);
                }
            }
            lemma_push_distinct(w, l);
        }
    }
}

fn remove_path(v: &Vec<String>, path: &str) -> (r: Vec<String>)
    ensures
        paths_view(r@) == without(paths_view(v@), path@),
{
    let mut r: Vec<String> = Vec::new();
    let mut k: usize = 0;
    while k < v.len()
        invariant
            k <= v@.len(),
            paths_view(r@) == without(paths_view(v@.subrange(0, k as int)), path@),
        decreases v@.len() - k,
    {
        let ghost before = r@;
        assert(paths_view(v@.subrange(0, k + 1)).drop_last() =~= paths_view(v@.subrange(0, k as int)));
        if !str_eq(v[k].as_str(), path) {
            r.push(v[k].clone());
            assert(paths_view(r@) =~= paths_view(before).push(v@[k as int]@));
        }
        k += 1;
    }
    assert(v@.subrange(0, v@.len() as int) =~= v@);
    r
}

fn push_file(files: &mut indexmap::IndexMap<String, ()>, path: &str)
    ensures
        path_map_keys(*final(files)) == with_file(path_map_keys(*old(files)), path@),
{
    path_map_insert(files, String::from_str(path));
}

fn push_diagnostic(diagnostics: &mut Vec<ProjectDiagnostic>, d: ProjectDiagnostic)
    ensures
        diagnostics_view(final(diagnostics)@) == diagnostics_view(old(diagnostics)@).push(d.spec_view()),
{
    let ghost before = diagnostics@;
    diagnostics.push(d);
    assert(diagnostics_view(diagnostics@) =~= diagnostics_view(before).push(d.spec_view()));
}

fn enter(state: &mut VisitState, path: String)
    requires
        old(state).wf(),
        !old(state)@.visiting.contains(path@),
    ensures
        final(state).files == old(state).files,
        final(state).diagnostics == old(state).diagnostics,
        final(state)@.visiting == old(state)@.visiting.push(path@),
        final(state).wf(),
{
    let ghost before = state.visiting@;
    let ghost p = path@;
    proof {
        lemma_push_distinct(paths_view(before), p);
    }
    state.visiting.push(path);
    assert(paths_view(state.visiting@) =~= paths_view(before).push(p));
}

fn release(state: &mut VisitState, path: &str)
    requires
        old(state).wf(),
    ensures
        final(state).files == old(state).files,
        final(state).diagnostics == old(state).diagnostics,
        final(state)@.visiting == without(old(state)@.visiting, path@),
        final(state).wf(),
{
    proof {
        lemma_without_distinct(state@.visiting, path@);
    }
    state.visiting = remove_path(&state.visiting, path);
}

/// No file is read twice: once the walk has begun a file, beginning it again
/// is skipped, and so is beginning a file that has been analyzed.
pub proof fn lemma_no_second_read(s: VisitStateView, path: String, added: Seq<DiagnosticView>)
    ensures
        spec_visit_step(spec_visit_step(s, VisitEvent::Begin { path }).0, VisitEvent::Begin { path }).1
            == VisitAction::Skip,
        spec_visit_step(finish(s, path@, added), VisitEvent::Begin { path }).1 == VisitAction::Skip,
{
    let v = s.visiting.push(path@);
    assert(v[v.len() - 1] == path@);
    let f = s.files.push(path@);
    assert(f[f.len() - 1] == path@);
}

/// Takes one step of the walk over the files of a project for `event`, and
/// says what the caller does next.
pub fn visit_step(state: &mut VisitState, event: VisitEvent) -> (a: VisitAction)
    requires
        old(state).wf(),
    ensures
        final(state).wf(),
        (final(state)@, a) == spec_visit_step(old(state)@, event),
{
    match event {
        VisitEvent::Begin { path } => {
            if path_map_contains(&state.files, path.as_str()) || contains_path(&state.visiting, path.as_str()) {
                return VisitAction::Skip;
            }
            let script = is_effect_script_path(path.as_str());
            enter(state, path);
            VisitAction::Read { script }
        },
        VisitEvent::ReadFailed { path, reason } => {
            let head = concat3("failed to read `", path.as_str(), "`: ");
            let message = concat(head.as_str(), reason.as_str());
            push_diagnostic(
                &mut state.diagnostics,
                ProjectDiagnostic::error(path.clone(), None, DiagnosticCode::Io, message),
            );
            push_file(&mut state.files, path.as_str());
            release(state, path.as_str());
            assert(state@.diagnostics =~= old(state)@.diagnostics + seq![
                error_view(path@, None, DiagnosticCode::Io, "failed to read `"@ + path@ + "`: "@ + reason@),
            ]);
            VisitAction::Done
        },
        VisitEvent::ScriptRead { path, diagnostics } => {
            let added = script_diagnostics(path.as_str(), &diagnostics);
            let ghost before = state.diagnostics@;
            let mut added = added;
            state.diagnostics.append(&mut added);
            push_file(&mut state.files, path.as_str());
            release(state, path.as_str());
            assert(state@.diagnostics =~= old(state)@.diagnostics + Seq::new(
                diagnostics@.len(),
                |k: int| script_error_view(path@, diagnostics@[k]),
            ));
            VisitAction::Done
        },
        VisitEvent::DawnRead { path, parse_error } => {
            let ghost before = state@;
            match parse_error {
                Some((range, message)) => {
                    push_diagnostic(
                        &mut state.diagnostics,
                        ProjectDiagnostic::error(path.clone(), range, DiagnosticCode::Yaml, message),
                    );
                },
                None => {
                    assert(state@.diagnostics =~= before.diagnostics + seq![]);
                },
            }
            push_file(&mut state.files, path.as_str());
            VisitAction::VisitImports
        },
        VisitEvent::ImportsDone { path } => {
            release(state, path.as_str());
            VisitAction::Done
        },
    }
}

/// Why an import could not be followed.
pub enum ImportFailure {
    /// The import names a directory that could not be listed.
    UnreadableDirectory,
    /// The import names no file that can be loaded; `shown` is the path it
    /// resolved to, as messages show it.
    Missing { shown: String },
}

/// The message for an import written `from` that could not be followed.
pub open spec fn spec_import_failure_message(from: Seq<char>, failure: ImportFailure) -> Seq<char> {
    match failure {
        ImportFailure::UnreadableDirectory => "failed to read import `"@ + from + "`"@,
        ImportFailure::Missing { shown } => "failed to read import `"@ + from + "`: file `"@ + shown@
            + "` was not found"@,
    }
}

/// Reports, at `range` of the file `source`, that its import written `from`
/// could not be followed.
pub fn import_failed(state: &mut VisitState, source: &str, range: Option<TextRange>, from: &str, failure: ImportFailure)
    requires
        old(state).wf(),
    ensures
        final(state).wf(),
        final(state)@.files == old(state)@.files,
        final(state)@.visiting == old(state)@.visiting,
        final(state)@.diagnostics == old(state)@.diagnostics.push(
            error_view(source@, range, DiagnosticCode::Import, spec_import_failure_message(from@, failure)),
        ),
{
    let message = match failure {
        ImportFailure::UnreadableDirectory => concat3("failed to read import `", from, "`"),
        ImportFailure::Missing { shown } => {
            let head = concat3("failed to read import `", from, "`: file `");
            concat3(head.as_str(), shown.as_str(), "` was not found")
        },
    };
    push_diagnostic(
        &mut state.diagnostics,
        ProjectDiagnostic::error(String::from_str(source), range, DiagnosticCode::Import, message),
    );
}

/// Whether the walk follows an import of `source`, at `range`, to the file
/// `target`: not when `target` is being visited, which closes a cycle and is
/// reported; else yes, and nothing changes.
pub fn follow_import(state: &mut VisitState, source: &str, range: Option<TextRange>, target: &str) -> (follow: bool)
    requires
        old(state).wf(),
    ensures
        final(state).wf(),
        final(state)@.files == old(state)@.files,
        final(state)@.visiting == old(state)@.visiting,
        follow == !old(state)@.visiting.contains(target@),
        final(state)@.diagnostics == if follow {
            old(state)@.diagnostics
        } else {
            old(state)@.diagnostics.push(
                error_view(source@, range, DiagnosticCode::Import, "import cycle includes `"@ + target@ + "`"@),
            )
        },
{
    if contains_path(&state.visiting, target) {
        push_diagnostic(
            &mut state.diagnostics,
            ProjectDiagnostic::error(
                String::from_str(source),
                range,
                DiagnosticCode::Import,
                concat3("import cycle includes `", target, "`"),
            ),
        );
        false
    } else {
        true
    }
}

/// Where an import of a Dawn file leads, as the caller resolved it.
pub enum ImportTarget {
    /// A directory, with the Dawn files in it in listing order (`None`: it
    /// could not be listed).
    Directory(Option<Vec<String>>),
    /// A file, and whether it can be loaded.
    File { path: String, loadable: bool },
}

/// One import of a Dawn file: where its `from` field stands, what it says,
/// and where it leads.
pub struct ImportEntry {
    pub range: Option<TextRange>,
    pub from: String,
    pub target: ImportTarget,
}

/// One step of following the imports of a file: report that the import at
/// `entry` cannot be followed, or try to follow it to the file `target`.
pub enum ImportStep {
    Fail { entry: usize, failure: ImportFailure },
    Follow { entry: usize, target: String },
}

/// A step as the plan states it: the entry, and the failure message's
/// shown path (`None` for an unreadable directory) or the target.
pub enum StepView {
    Fail(int, Option<Seq<char>>),
    Follow(int, Seq<char>),
}

pub open spec fn step_view(s: ImportStep) -> StepView {
    match s {
        ImportStep::Fail { entry, failure } => StepView::Fail(
            entry as int,
            match failure {
                ImportFailure::UnreadableDirectory => None,
                ImportFailure::Missing { shown } => Some(shown@),
            },
        ),
        ImportStep::Follow { entry, target } => StepView::Follow(entry as int, target@),
    }
}

pub open spec fn steps_view(s: Seq<ImportStep>) -> Seq<StepView> {
    s.map_values(|x: ImportStep| step_view(x))
}

/// The steps for the import at position `i` leading to `target`: a failure
/// for a directory that could not be listed or a file that cannot be loaded,
/// else one step to each Dawn file of the directory, in listing order, or to
/// the file.
pub open spec fn entry_steps(i: int, target: ImportTarget) -> Seq<StepView> {
    match target {
        ImportTarget::Directory(None) => seq![StepView::Fail(i, None)],
        ImportTarget::Directory(Some(files)) => files@.map_values(|f: String| StepView::Follow(i, f@)),
        ImportTarget::File { path, loadable } => if loadable {
            seq![StepView::Follow(i, path@)]
        } else {
            seq![StepView::Fail(i, Some(path@))]
        },
    }
}

/// The steps for the imports `entries`, one import after the other, in order.
pub open spec fn spec_import_plan(entries: Seq<ImportEntry>) -> Seq<StepView>
    decreases entries.len(),
{
    if entries.len() == 0 {
        seq![]
    } else {
        spec_import_plan(entries.drop_last()) + entry_steps(entries.len() - 1, entries.last().target)
    }
}

/// The order in which the walk follows the imports `entries` of a file:
/// each import in turn, a directory's files in listing order, and a failure
/// reported where an import cannot be followed. The caller visits each
/// target fully, depth first, before taking the next step.
pub fn import_plan(entries: &Vec<ImportEntry>) -> (r: Vec<ImportStep>)
    ensures
        steps_view(r@) == spec_import_plan(entries@),
{
    let mut r: Vec<ImportStep> = Vec::new();
    let mut i: usize = 0;
    while i < entries.len()
        invariant
            i <= entries@.len(),
            steps_view(r@) == spec_import_plan(entries@.subrange(0, i as int)),
        decreases entries@.len() - i,
    {
        let ghost before = r@;
        proof {
            assert(entries@.subrange(0, i + 1).drop_last() =~= entries@.subrange(0, i as int));
            assert(entries@.subrange(0, i + 1).last() == entries@[i as int]);
        }
        match &entries[i].target {
            ImportTarget::Directory(None) => {
                r.push(ImportStep::Fail { entry: i, failure: ImportFailure::UnreadableDirectory });
            },
            ImportTarget::Directory(Some(files)) => {
                let mut k: usize = 0;
                while k < files.len()
                    invariant
                        k <= files@.len(),
                        steps_view(r@) == steps_view(before) + files@.subrange(0, k as int).map_values(
                            |f: String| StepView::Follow(i as int, f@),
                        ),
                    decreases files@.len() - k,
                {
                    let ghost r0 = r@;
                    let target = files[k].clone();
                    assert(target@ == files@[k as int]@);
                    r.push(ImportStep::Follow { entry: i, target });
                    assert(steps_view(r@) =~= steps_view(r0).push(StepView::Follow(i as int, files@[k as int]@)));
                    assert(files@.subrange(0, k + 1).map_values(|f: String| StepView::Follow(i as int, f@))
                        =~= files@.subrange(0, k as int).map_values(|f: String| StepView::Follow(i as int, f@)).push(
                        StepView::Follow(i as int, files@[k as int]@),
                    ));
                    k += 1;
                    assert(steps_view(r@) =~= steps_view(before) + files@.subrange(0, k as int).map_values(
                        |f: String| StepView::Follow(i as int, f@),
                    ));
                }
                assert(files@.subrange(0, files@.len() as int) =~= files@);
            },
            ImportTarget::File { path, loadable } => {
                if *loadable {
                    r.push(ImportStep::Follow { entry: i, target: path.clone() });
                } else {
                    r.push(ImportStep::Fail { entry: i, failure: ImportFailure::Missing { shown: path.clone() } });
                }
            },
        }
        assert(steps_view(r@) =~= spec_import_plan(entries@.subrange(0, i + 1)));
        i += 1;
    }
    assert(entries@.subrange(0, entries@.len() as int) =~= entries@);
    r
}

} // verus!
