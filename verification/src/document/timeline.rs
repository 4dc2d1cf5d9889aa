//! A sequence as its timeline edits see it: effect clips with their times in
//! milliseconds, the effect ids that automation clips point at, and the mark
//! collections. Targets, parameters and scripts of effects are carried through
//! unchanged, so they are type parameters here.
use vstd::prelude::*;
use crate::counting::{count_true, lemma_count_all_true, lemma_count_true_bound, lemma_count_true_set};
use crate::model::kinds::SequenceEffectScope;
use crate::model::refs::AssetPath;
use crate::model::decimal::{decimal_digits, u64_to_decimal};
use crate::text::{concat3, string_from_chars};

verus! {

/// One effect clip of a sequence.
pub struct TimelineEffect<T, P, S> {
    pub id: u32,
    pub start_ms: u64,
    pub duration_ms: u64,
    pub target: T,
    pub scope: SequenceEffectScope,
    pub params: P,
    pub script: S,
}

/// An automation clip: its id and the effects it drives.
pub struct TimelineClip {
    pub id: u32,
    pub targets: Vec<u32>,
}

/// A named, colored collection of marks, each a time in milliseconds.
pub struct SequenceMarkCollectionDocument {
    pub key: String,
    pub name: String,
    pub color: String,
    pub marks_ms: Vec<u64>,
}

/// What the timeline edits read and change of a sequence.
pub struct SequenceTimeline<T, P, S> {
    pub duration_ms: u64,
    pub audio: Option<AssetPath>,
    pub mark_collections: Vec<SequenceMarkCollectionDocument>,
    pub effects: Vec<TimelineEffect<T, P, S>>,
    pub automation_clips: Vec<TimelineClip>,
}

pub struct ClipView {
    pub id: u32,
    pub targets: Seq<u32>,
}

pub struct MarksView {
    pub key: Seq<char>,
    pub name: Seq<char>,
    pub color: Seq<char>,
    pub marks: Seq<u64>,
}

pub struct TimelineView<T, P, S> {
    pub duration_ms: u64,
    pub audio: Option<Seq<char>>,
    pub collections: Seq<MarksView>,
    pub effects: Seq<TimelineEffect<T, P, S>>,
    pub clips: Seq<ClipView>,
}

impl View for TimelineClip {
    type V = ClipView;

    open spec fn view(&self) -> ClipView {
        ClipView { id: self.id, targets: self.targets@ }
    }
}

impl View for SequenceMarkCollectionDocument {
    type V = MarksView;

    open spec fn view(&self) -> MarksView {
        MarksView { key: self.key@, name: self.name@, color: self.color@, marks: self.marks_ms@ }
    }
}

pub open spec fn clips_view(cs: Seq<TimelineClip>) -> Seq<ClipView> {
    cs.map_values(|c: TimelineClip| c@)
}

pub open spec fn collections_view(cs: Seq<SequenceMarkCollectionDocument>) -> Seq<MarksView> {
    cs.map_values(|c: SequenceMarkCollectionDocument| c@)
}

pub open spec fn audio_view(a: Option<AssetPath>) -> Option<Seq<char>> {
    match a {
        Some(p) => Some(p.spec_raw()),
        None => None,
    }
}

impl<T, P, S> View for SequenceTimeline<T, P, S> {
    type V = TimelineView<T, P, S>;

    open spec fn view(&self) -> TimelineView<T, P, S> {
        TimelineView {
            duration_ms: self.duration_ms,
            audio: audio_view(self.audio),
            collections: collections_view(self.mark_collections@),
            effects: self.effects@,
            clips: clips_view(self.automation_clips@),
        }
    }
}

/// The view of an edit's outcome.
pub open spec fn unit_result(r: Result<(), String>) -> Result<(), Seq<char>> {
    match r {
        Ok(()) => Ok(()),
        Err(m) => Err(m@),
    }
}

/// `id` is taken by an effect or an automation clip of `v`.
pub open spec fn id_in_use<T, P, S>(v: TimelineView<T, P, S>, id: int) -> bool {
    (exists|i: int| 0 <= i < v.effects.len() && #[trigger] v.effects[i].id == id) || (exists|i: int|
        0 <= i < v.clips.len() && #[trigger] v.clips[i].id == id)
}

/// `id` is the least positive id that `v` does not use.
pub open spec fn is_least_free_id<T, P, S>(v: TimelineView<T, P, S>, id: int) -> bool {
    &&& 1 <= id
    &&& !id_in_use(v, id)
    &&& forall|other: int| 1 <= other < id ==> #[trigger] id_in_use(v, other)
}

/// Every id from 1 to `u32::MAX` is in use.
pub open spec fn all_ids_in_use<T, P, S>(v: TimelineView<T, P, S>) -> bool {
    forall|id: int| 1 <= id <= u32::MAX ==> #[trigger] id_in_use(v, id)
}

impl<T, P, S> SequenceTimeline<T, P, S> {
    /// The least positive id that no effect and no automation clip uses, if
    /// any is left.
    pub fn next_sequence_effect_id(&self) -> (r: Option<u32>)
        ensures
            r matches Some(id) ==> is_least_free_id(self@, id as int),
            r is None ==> all_ids_in_use(self@),
    {
        let ne = self.effects.len();
        let nc = self.automation_clips.len();
        // At most `ne + nc` ids are in use, so one of the first `ne + nc + 1`
        // positive ids is free, unless that passes `u32::MAX`.
        let limit: usize = if ne < u32::MAX as usize && nc < u32::MAX as usize - ne {
            ne + nc + 1
        } else {
            u32::MAX as usize
        };
        let mut seen: Vec<bool> = Vec::new();
        let mut k: usize = 0;
        while k < limit
            invariant
                k <= limit,
                seen@ =~= Seq::new(k as nat, |i: int| false),
            decreases limit - k,
        {
            seen.push(false);
            k += 1;
        }
        proof {
            crate::counting::lemma_count_all_false(seen@);
        }
        let ghost v = self@;
        let mut e: usize = 0;
        while e < ne
            invariant
                v == self@,
                ne == v.effects.len(),
                e <= ne,
                seen@.len() == limit,
                1 <= limit <= u32::MAX,
                count_true(seen@) <= e,
                forall|i: int| 0 <= i < limit && #[trigger] seen@[i] ==> id_in_use(v, i + 1),
                forall|j: int| 0 <= j < e && 1 <= v.effects[j].id <= limit ==> seen@[v.effects[j].id - 1],
            decreases ne - e,
        {
            let id = self.effects[e].id;
            if 1 <= id && (id as usize) <= limit && !seen[(id - 1) as usize] {
                proof {
                    lemma_count_true_set(seen@, id - 1);
                    assert(v.effects[e as int].id == id);
                }
                seen.set((id - 1) as usize, true);
            }
            e += 1;
        }
        let mut c: usize = 0;
        while c < nc
            invariant
                v == self@,
                ne == v.effects.len(),
                nc == v.clips.len(),
                c <= nc,
                seen@.len() == limit,
                1 <= limit <= u32::MAX,
                count_true(seen@) <= ne + c,
                forall|i: int| 0 <= i < limit && #[trigger] seen@[i] ==> id_in_use(v, i + 1),
                forall|j: int| 0 <= j < ne && 1 <= v.effects[j].id <= limit ==> seen@[v.effects[j].id - 1],
                forall|j: int| 0 <= j < c && 1 <= v.clips[j].id <= limit ==> seen@[v.clips[j].id - 1],
            decreases nc - c,
        {
            let id = self.automation_clips[c].id;
            if 1 <= id && (id as usize) <= limit && !seen[(id - 1) as usize] {
                proof {
                    lemma_count_true_set(seen@, id - 1);
                    assert(v.clips[c as int].id == id);
                }
                seen.set((id - 1) as usize, true);
            }
            c += 1;
        }
        let mut i: usize = 0;
        while i < limit
            invariant
                v == self@,
                ne == v.effects.len(),
                nc == v.clips.len(),
                seen@.len() == limit,
                1 <= limit <= u32::MAX,
                count_true(seen@) <= ne + nc,
                limit < u32::MAX ==> limit == ne + nc + 1,
                forall|i: int| 0 <= i < limit && #[trigger] seen@[i] ==> id_in_use(v, i + 1),
                forall|j: int| 0 <= j < ne && 1 <= v.effects[j].id <= limit ==> seen@[v.effects[j].id - 1],
                forall|j: int| 0 <= j < nc && 1 <= v.clips[j].id <= limit ==> seen@[v.clips[j].id - 1],
                i <= limit,
                forall|j: int| 0 <= j < i ==> seen@[j],
            decreases limit - i,
        {
            if !seen[i] {
                proof {
                    assert forall|other: int| 1 <= other < i + 1 implies #[trigger] id_in_use(v, other) by {
                        assert(seen@[other - 1]);
                    }
                    if id_in_use(v, i + 1) {
                        if exists|j: int| 0 <= j < v.effects.len() && #[trigger] v.effects[j].id == i + 1 {
                            let j = choose|j: int| 0 <= j < v.effects.len() && #[trigger] v.effects[j].id == i + 1;
                            assert(seen@[v.effects[j].id - 1]);
                        } else {
                            let j = choose|j: int| 0 <= j < v.clips.len() && #[trigger] v.clips[j].id == i + 1;
                            assert(seen@[v.clips[j].id - 1]);
                        }
                    }
                }
                return Some((i + 1) as u32);
            }
            i += 1;
        }
        proof {
            lemma_count_all_true(seen@);
            lemma_count_true_bound(seen@);
            assert(limit == u32::MAX);
            assert forall|id: int| 1 <= id <= u32::MAX implies #[trigger] id_in_use(v, id) by {
                assert(seen@[id - 1]);
            }
        }
        None
    }
}

/// Mark `a` comes before mark `b` when marks are ordered by time, and marks at
/// the same time by their position.
pub open spec fn mark_before(marks: Seq<u64>, a: int, b: int) -> bool {
    marks[a] < marks[b] || (marks[a] == marks[b] && a < b)
}

/// How many of the first `m` marks come before mark `i`.
pub open spec fn marks_before(marks: Seq<u64>, i: int, m: int) -> nat
    decreases m,
{
    if m <= 0 {
        0
    } else {
        marks_before(marks, i, m - 1) + if mark_before(marks, m - 1, i) {
            1nat
        } else {
            0nat
        }
    }
}

/// The position of mark `i` once the marks are sorted by time.
pub open spec fn sorted_position(marks: Seq<u64>, i: int) -> nat {
    marks_before(marks, i, marks.len() as int)
}

proof fn lemma_marks_before_bound(marks: Seq<u64>, i: int, m: int)
    requires
        0 <= m,
    ensures
        marks_before(marks, i, m) + (if 0 <= i < m {
            1int
        } else {
            0int
        }) <= m,
    decreases m,
{
    if m > 0 {
        lemma_marks_before_bound(marks, i, m - 1);
    }
}

proof fn lemma_marks_before_mono(marks: Seq<u64>, a: int, b: int, m: int)
    requires
        0 <= m,
        mark_before(marks, a, b),
    ensures
        marks_before(marks, a, m) + (if 0 <= a < m {
            1int
        } else {
            0int
        }) <= marks_before(marks, b, m),
    decreases m,
{
    if m > 0 {
        lemma_marks_before_mono(marks, a, b, m - 1);
    }
}

/// Distinct marks have distinct sorted positions, and every position below the
/// number of marks is taken by one of them.
proof fn lemma_sorted_positions(marks: Seq<u64>, k: int)
    requires
        0 <= k < marks.len(),
    ensures
        exists|i: int| 0 <= i < marks.len() && #[trigger] sorted_position(marks, i) == k,
{
    let n = marks.len() as int;
    let positions = Seq::new(marks.len(), |i: int| sorted_position(marks, i) as int);
    assert forall|a: int, b: int| 0 <= a < n && 0 <= b < n && a != b implies positions[a] != positions[b] by {
        if mark_before(marks, a, b) {
            lemma_marks_before_mono(marks, a, b, n);
        } else {
            lemma_marks_before_mono(marks, b, a, n);
        }
    }
    positions.unique_seq_to_set();
    assert forall|p: int| #[trigger] positions.to_set().contains(p) implies vstd::set_lib::set_int_range(0, n).contains(p) by {
        let i = choose|i: int| 0 <= i < positions.len() && positions[i] == p;
        lemma_marks_before_bound(marks, i, n);
    }
    vstd::set_lib::lemma_int_range(0, n);
    vstd::set_lib::lemma_len_subset(positions.to_set(), vstd::set_lib::set_int_range(0, n));
    vstd::set_lib::lemma_subset_equality(positions.to_set(), vstd::set_lib::set_int_range(0, n));
    assert(positions.to_set().contains(k));
    let i = choose|i: int| 0 <= i < positions.len() && positions[i] == k;
    assert(sorted_position(marks, i) == k);
}

/// `"mark `index` was not found"`.
pub open spec fn spec_mark_not_found(index: nat) -> Seq<char> {
    "mark `"@ + decimal_digits(index) + "` was not found"@
}

fn mark_not_found(index: usize) -> (m: String)
    ensures
        m@ == spec_mark_not_found(index as nat),
{
    let digits = string_from_chars(u64_to_decimal(index as u64).as_slice());
    concat3("mark `", digits.as_str(), "` was not found")
}

/// The position in `marks` of the mark that comes `sorted_index`-th once the
/// marks are sorted by time.
pub fn sorted_mark_original_index(marks: &Vec<u64>, sorted_index: usize) -> (r: Result<usize, String>)
    ensures
        r is Err <==> sorted_index >= marks@.len(),
        r matches Ok(i) ==> i < marks@.len() && sorted_position(marks@, i as int) == sorted_index,
        r matches Err(m) ==> m@ == spec_mark_not_found(sorted_index as nat),
{
    let n = marks.len();
    let mut i: usize = 0;
    while i < n
        invariant
            n == marks@.len(),
            i <= n,
            forall|j: int| 0 <= j < i ==> sorted_position(marks@, j) != sorted_index,
        decreases n - i,
    {
        let mut before: usize = 0;
        let mut m: usize = 0;
        while m < n
            invariant
                n == marks@.len(),
                i < n,
                m <= n,
                before == marks_before(marks@, i as int, m as int),
            decreases n - m,
        {
            proof {
                lemma_marks_before_bound(marks@, i as int, m as int);
            }
            if marks[m] < marks[i] || (marks[m] == marks[i] && m < i) {
                before += 1;
            }
            m += 1;
        }
        if before == sorted_index {
            proof {
                lemma_marks_before_bound(marks@, i as int, n as int);
            }
            return Ok(i);
        }
        i += 1;
    }
    proof {
        if sorted_index < n {
            lemma_sorted_positions(marks@, sorted_index as int);
        }
    }
    Err(mark_not_found(sorted_index))
}

/// Ordering marks by time (ties by position) gives each mark its own sorted
/// position below the number of marks, and each such position to one mark.
pub proof fn lemma_sorted_positions_permute(marks: Seq<u64>, a: int, b: int, k: int)
    ensures
        0 <= a < marks.len() ==> sorted_position(marks, a) < marks.len(),
        0 <= a < marks.len() && 0 <= b < marks.len() && a != b ==> sorted_position(marks, a) != sorted_position(
            marks,
            b,
        ),
        0 <= k < marks.len() ==> exists|i: int| 0 <= i < marks.len() && #[trigger] sorted_position(marks, i) == k,
{
    let n = marks.len() as int;
    if 0 <= a < n {
        lemma_marks_before_bound(marks, a, n);
    }
    if 0 <= a < n && 0 <= b < n && a != b {
        if mark_before(marks, a, b) {
            lemma_marks_before_mono(marks, a, b, n);
        } else {
            lemma_marks_before_mono(marks, b, a, n);
        }
    }
    if 0 <= k < n {
        lemma_sorted_positions(marks, k);
    }
}

} // verus!