//! The edits that the sequence editor applies to a timeline: adding, copying,
//! deleting, moving and resizing effect clips, and managing mark collections.
use vstd::prelude::*;
use crate::document::timeline::{
    ClipView, MarksView, SequenceTimeline, TimelineClip, TimelineEffect, TimelineView, all_ids_in_use, id_in_use,
    clips_view, is_least_free_id, unit_result,
};
use crate::model::decimal::{decimal_digits, u64_to_decimal};
use crate::document::marks::{
    add_mark_at, creates_collection, deletes_collection, edits_collection, edits_mark, move_mark_to, recolors_collection,
    remove_mark, rename_to,
};
use crate::model::kinds::SequenceEffectScope;
use crate::model::refs::{AssetPath, is_blank};
use crate::text::{concat3, string_from_chars};

verus! {

/// The first position at or after `i` of an effect with `id`.
pub open spec fn find_effect_from<T, P, S>(effects: Seq<TimelineEffect<T, P, S>>, id: u32, i: int) -> Option<
    int,
>
    decreases effects.len() - i,
{
    if i < 0 || i >= effects.len() {
        None
    } else if effects[i].id == id {
        Some(i)
    } else {
        find_effect_from(effects, id, i + 1)
    }
}

/// The position of the first effect with `id`.
pub open spec fn find_effect<T, P, S>(effects: Seq<TimelineEffect<T, P, S>>, id: u32) -> Option<int> {
    find_effect_from(effects, id, 0)
}

/// `find_effect` gives the first effect with the id, or `None` when no effect
/// has it.
pub proof fn lemma_find_effect<T, P, S>(effects: Seq<TimelineEffect<T, P, S>>, id: u32, i: int)
    requires
        0 <= i <= effects.len(),
    ensures
        find_effect_from(effects, id, i) matches Some(k) ==> i <= k < effects.len() && effects[k].id == id
            && forall|j: int| i <= j < k ==> effects[j].id != id,
        find_effect_from(effects, id, i) is None ==> forall|j: int| i <= j < effects.len() ==> effects[j].id != id,
    decreases effects.len() - i,
{
    if i < effects.len() {
        lemma_find_effect(effects, id, i + 1);
    }
}

pub open spec fn with_effects<T, P, S>(v: TimelineView<T, P, S>, effects: Seq<TimelineEffect<T, P, S>>) -> TimelineView<
    T,
    P,
    S,
> {
    TimelineView { duration_ms: v.duration_ms, audio: v.audio, collections: v.collections, effects, clips: v.clips }
}

pub open spec fn saturating_sub(a: u64, b: u64) -> u64 {
    if a >= b {
        (a - b) as u64
    } else {
        0
    }
}

pub open spec fn min_u64(a: u64, b: u64) -> u64 {
    if a <= b {
        a
    } else {
        b
    }
}

pub open spec fn max_u64(a: u64, b: u64) -> u64 {
    if a >= b {
        a
    } else {
        b
    }
}

/// Where a clip asked to start at `start_ms` starts: no later than one
/// millisecond before the end of a sequence of `sequence_ms`.
pub open spec fn clamped_start(sequence_ms: u64, start_ms: u64) -> u64 {
    min_u64(start_ms, saturating_sub(sequence_ms, 1))
}

/// The length of a new clip starting at `start_ms`: one second, cut at the end
/// of the sequence, and at least one millisecond.
pub open spec fn new_clip_duration(sequence_ms: u64, start_ms: u64) -> u64 {
    max_u64(min_u64(1000, saturating_sub(sequence_ms, start_ms)), 1)
}

/// The length of a clip resized to `duration_ms` from `start_ms`: at least one
/// millisecond, and no longer than what is left of the sequence (or one
/// millisecond when nothing is left).
pub open spec fn resized_duration(sequence_ms: u64, start_ms: u64, duration_ms: u64) -> u64 {
    min_u64(max_u64(duration_ms, 1), max_u64(saturating_sub(sequence_ms, start_ms), 1))
}

/// `"sequence effect `id` was not found"`.
pub open spec fn spec_effect_not_found(id: u32) -> Seq<char> {
    "sequence effect `"@ + decimal_digits(id as nat) + "` was not found"@
}

pub open spec fn no_free_ids_message() -> Seq<char> {
    "no sequence effect IDs are available"@
}

fn effect_not_found(id: u32) -> (m: String)
    ensures
        m@ == spec_effect_not_found(id),
{
    let digits = string_from_chars(u64_to_decimal(id as u64).as_slice());
    concat3("sequence effect `", digits.as_str(), "` was not found")
}

/// The effects of `effects` whose id is not `id`, in order.
pub open spec fn without_effect<T, P, S>(effects: Seq<TimelineEffect<T, P, S>>, id: u32) -> Seq<
    TimelineEffect<T, P, S>,
>
    decreases effects.len(),
{
    if effects.len() == 0 {
        effects
    } else {
        let rest = without_effect(effects.drop_last(), id);
        if effects.last().id != id {
            rest.push(effects.last())
        } else {
            rest
        }
    }
}

/// The ids of `targets` other than `id`, in order.
pub open spec fn without_target(targets: Seq<u32>, id: u32) -> Seq<u32>
    decreases targets.len(),
{
    if targets.len() == 0 {
        targets
    } else {
        let rest = without_target(targets.drop_last(), id);
        if targets.last() != id {
            rest.push(targets.last())
        } else {
            rest
        }
    }
}

/// `v` with the effect `id` deleted and no automation clip pointing at it.
pub open spec fn spec_delete_effect<T, P, S>(v: TimelineView<T, P, S>, id: u32) -> TimelineView<T, P, S> {
    TimelineView {
        duration_ms: v.duration_ms,
        audio: v.audio,
        collections: v.collections,
        effects: without_effect(v.effects, id),
        clips: v.clips.map_values(|c: ClipView| ClipView { id: c.id, targets: without_target(c.targets, id) }),
    }
}

/// Nothing `without_effect` keeps has the id, and it keeps every other effect.
pub proof fn lemma_without_effect<T, P, S>(effects: Seq<TimelineEffect<T, P, S>>, id: u32)
    ensures
        forall|i: int| 0 <= i < without_effect(effects, id).len() ==> #[trigger] without_effect(effects, id)[i].id != id,
        forall|i: int| 0 <= i < effects.len() && effects[i].id != id ==> without_effect(effects, id).contains(#[trigger] effects[i]),
        without_effect(effects, id).len() <= effects.len(),
    decreases effects.len(),
{
    if effects.len() > 0 {
        let rest = effects.drop_last();
        lemma_without_effect(rest, id);
        let r = without_effect(rest, id);
        let w = without_effect(effects, id);
        assert forall|i: int| 0 <= i < effects.len() && effects[i].id != id implies w.contains(#[trigger] effects[i]) by {
            if i < effects.len() - 1 {
                assert(rest[i] == effects[i]);
                let j = choose|j: int| 0 <= j < r.len() && r[j] == rest[i];
                assert(w[j] == effects[i]);
            } else {
                assert(w[w.len() - 1] == effects[i]);
            }
        }
    }
}

/// Nothing `without_target` keeps is the id.
pub proof fn lemma_without_target(targets: Seq<u32>, id: u32)
    ensures
        !without_target(targets, id).contains(id),
        without_target(targets, id).len() <= targets.len(),
    decreases targets.len(),
{
    if targets.len() > 0 {
        lemma_without_target(targets.drop_last(), id);
        let r = without_target(targets.drop_last(), id);
        if targets.last() != id {
            assert forall|j: int| 0 <= j < r.len() + 1 implies r.push(targets.last())[j] != id by {
                if j < r.len() {
                    assert(r.push(targets.last())[j] == r[j]);
                }
            }
        }
    }
}

fn targets_without(targets: &Vec<u32>, id: u32) -> (r: Vec<u32>)
    ensures
        r@ == without_target(targets@, id),
{
    let mut r: Vec<u32> = Vec::new();
    let mut i: usize = 0;
    while i < targets.len()
        invariant
            i <= targets@.len(),
            r@ == without_target(targets@.subrange(0, i as int), id),
        decreases targets@.len() - i,
    {
        assert(targets@.subrange(0, i + 1).drop_last() =~= targets@.subrange(0, i as int));
        if targets[i] != id {
            r.push(targets[i]);
        }
        i += 1;
    }
    assert(targets@.subrange(0, targets@.len() as int) =~= targets@);
    r
}

impl<T, P, S> SequenceTimeline<T, P, S> {
    /// The position of the first effect with `id`.
    pub fn effect_index(&self, id: u32) -> (r: Option<usize>)
        ensures
            r matches Some(i) ==> find_effect(self@.effects, id) == Some(i as int),
            r is None ==> find_effect(self@.effects, id) is None,
    {
        let mut i: usize = 0;
        while i < self.effects.len()
            invariant
                i <= self.effects@.len(),
                find_effect(self@.effects, id) == find_effect_from(self@.effects, id, i as int),
            decreases self.effects@.len() - i,
        {
            if self.effects[i].id == id {
                return Some(i);
            }
            i += 1;
        }
        None
    }

    /// Replaces the effect at `i` by `e`.
    fn replace_effect(&mut self, i: usize, e: TimelineEffect<T, P, S>)
        requires
            i < old(self)@.effects.len(),
        ensures
            final(self)@ == with_effects(old(self)@, old(self)@.effects.update(i as int, e)),
    {
        let ghost before = self.effects@;
        let _old = self.effects.remove(i);
        self.effects.insert(i, e);
        assert(self.effects@ =~= before.update(i as int, e));
    }

    /// Adds an effect clip at `start_ms` (moved into the sequence) under the
    /// least free id, one second long or as long as the sequence allows.
    pub fn add_effect(&mut self, target: T, scope: SequenceEffectScope, start_ms: u64, params: P, script: S) -> (r:
        Result<u32, String>)
        ensures
            r is Err <==> all_ids_in_use(old(self)@),
            r matches Err(m) ==> m@ == no_free_ids_message() && final(self)@ == old(self)@,
            r matches Ok(id) ==> is_least_free_id(old(self)@, id as int) && final(self)@ == with_effects(
                old(self)@,
                old(self)@.effects.push(
                    TimelineEffect {
                        id,
                        start_ms: clamped_start(old(self)@.duration_ms, start_ms),
                        duration_ms: new_clip_duration(
                            old(self)@.duration_ms,
                            clamped_start(old(self)@.duration_ms, start_ms),
                        ),
                        target,
                        scope,
                        params,
                        script,
                    },
                ),
            ),
    {
        let id = match self.next_sequence_effect_id() {
            Some(id) => id,
            None => {
                return Err(String::from_str("no sequence effect IDs are available"));
            },
        };
        let limit = if self.duration_ms >= 1 {
            self.duration_ms - 1
        } else {
            0
        };
        let start = if start_ms <= limit {
            start_ms
        } else {
            limit
        };
        let left = if self.duration_ms >= start {
            self.duration_ms - start
        } else {
            0
        };
        let capped = if 1000 <= left {
            1000
        } else {
            left
        };
        let duration = if capped >= 1 {
            capped
        } else {
            1
        };
        self.effects.push(
            TimelineEffect { id, start_ms: start, duration_ms: duration, target, scope, params, script },
        );
        Ok(id)
    }

    /// Deletes every effect with `id` and removes `id` from the targets of the
    /// automation clips.
    pub fn delete_effect(&mut self, id: u32)
        ensures
            final(self)@ == spec_delete_effect(old(self)@, id),
    {
        let ghost old_effects = self.effects@;
        let ghost n = old_effects.len();
        let mut i: usize = 0;
        let ghost mut k: int = 0;
        while i < self.effects.len()
            invariant
                0 <= k <= n,
                n == old_effects.len(),
                old_effects == old(self).effects@,
                self.duration_ms == old(self).duration_ms,
                self.audio == old(self).audio,
                self.mark_collections == old(self).mark_collections,
                self.automation_clips == old(self).automation_clips,
                i == without_effect(old_effects.subrange(0, k), id).len(),
                self.effects@ == without_effect(old_effects.subrange(0, k), id) + old_effects.subrange(k, n as int),
            decreases self.effects@.len() - i,
        {
            let ghost w = without_effect(old_effects.subrange(0, k), id);
            assert(old_effects.subrange(0, k + 1).drop_last() =~= old_effects.subrange(0, k));
            assert(self.effects@[i as int] == old_effects[k]);
            if self.effects[i].id == id {
                self.effects.remove(i);
                proof {
                    assert(self.effects@ =~= without_effect(old_effects.subrange(0, k + 1), id)
                        + old_effects.subrange(k + 1, n as int));
                }
            } else {
                i += 1;
                proof {
                    assert(self.effects@ =~= without_effect(old_effects.subrange(0, k + 1), id)
                        + old_effects.subrange(k + 1, n as int));
                }
            }
            proof {
                k = k + 1;
            }
        }
        proof {
            assert(k == n) by {
                if k < n {
                    assert(self.effects@.len() > i);
                }
            }
            assert(old_effects.subrange(0, n as int) =~= old_effects);
            assert(self.effects@ =~= without_effect(old_effects, id));
        }
        let ghost old_clips = self.automation_clips@;
        let mut c: usize = 0;
        while c < self.automation_clips.len()
            invariant
                old_clips == old(self).automation_clips@,
                self.effects@ == without_effect(old(self).effects@, id),
                self.duration_ms == old(self).duration_ms,
                self.audio == old(self).audio,
                self.mark_collections == old(self).mark_collections,
                c <= self.automation_clips@.len(),
                self.automation_clips@.len() == old_clips.len(),
                forall|j: int| c <= j < old_clips.len() ==> self.automation_clips@[j] == old_clips[j],
                forall|j: int|
                    0 <= j < c ==> #[trigger] self.automation_clips@[j]@ == (ClipView {
                        id: old_clips[j].id,
                        targets: without_target(old_clips[j].targets@, id),
                    }),
            decreases self.automation_clips@.len() - c,
        {
            let clip_id = self.automation_clips[c].id;
            let targets = targets_without(&self.automation_clips[c].targets, id);
            self.automation_clips.set(c, TimelineClip { id: clip_id, targets });
            c += 1;
        }
        proof {
            assert(clips_view(self.automation_clips@) =~= clips_view(old_clips).map_values(
                |cv: ClipView| ClipView { id: cv.id, targets: without_target(cv.targets, id) },
            ));
        }
    }
}

impl<T: Clone, P: Clone, S: Clone> SequenceTimeline<T, P, S> {
    /// Copies the effect `id` under the least free id.
    pub fn duplicate_effect(&mut self, id: u32) -> (r: Result<u32, String>)
        ensures
            find_effect(old(self)@.effects, id) is None ==> (r matches Err(m) && m@ == spec_effect_not_found(id)
                && final(self)@ == old(self)@),
            find_effect(old(self)@.effects, id) is Some && all_ids_in_use(old(self)@) ==> (r matches Err(m) && m@
                == no_free_ids_message() && final(self)@ == old(self)@),
            find_effect(old(self)@.effects, id) matches Some(i) ==> (!all_ids_in_use(old(self)@) ==> (r matches Ok(
                new_id,
            ) && is_least_free_id(old(self)@, new_id as int) && final(self)@ == with_effects(
                old(self)@,
                final(self)@.effects,
            ) && final(self)@.effects.drop_last() == old(self)@.effects && final(self)@.effects.len() == old(
                self,
            )@.effects.len() + 1 && is_copy_of(
                final(self)@.effects.last(),
                old(self)@.effects[i],
                new_id,
            ))),
    {
        let index = match self.effect_index(id) {
            Some(i) => i,
            None => {
                return Err(effect_not_found(id));
            },
        };
        proof {
            lemma_find_effect(self@.effects, id, 0);
        }
        let new_id = match self.next_sequence_effect_id() {
            Some(n) => n,
            None => {
                return Err(String::from_str("no sequence effect IDs are available"));
            },
        };
        let source = &self.effects[index];
        let copy = TimelineEffect {
            id: new_id,
            start_ms: source.start_ms,
            duration_ms: source.duration_ms,
            target: source.target.clone(),
            scope: source.scope,
            params: source.params.clone(),
            script: source.script.clone(),
        };
        self.effects.push(copy);
        proof {
            assert(self@.effects.drop_last() =~= old(self)@.effects);
        }
        Ok(new_id)
    }
}

/// `copy` is `source` under `id`, its target, parameters and script cloned.
pub open spec fn is_copy_of<T: Clone, P: Clone, S: Clone>(
    copy: TimelineEffect<T, P, S>,
    source: TimelineEffect<T, P, S>,
    id: u32,
) -> bool {
    &&& copy.id == id
    &&& copy.start_ms == source.start_ms
    &&& copy.duration_ms == source.duration_ms
    &&& copy.scope == source.scope
    &&& cloned(source.target, copy.target)
    &&& cloned(source.params, copy.params)
    &&& cloned(source.script, copy.script)
}

/// The effect `e` moved to start at `start_ms`, no later than its length
/// before the end of a sequence of `sequence_ms`, and retargeted when a target
/// is given.
pub open spec fn moved_effect<T, P, S>(
    e: TimelineEffect<T, P, S>,
    sequence_ms: u64,
    start_ms: u64,
    target: Option<T>,
) -> TimelineEffect<T, P, S> {
    TimelineEffect {
        id: e.id,
        start_ms: min_u64(start_ms, saturating_sub(sequence_ms, e.duration_ms)),
        duration_ms: e.duration_ms,
        target: match target {
            Some(t) => t,
            None => e.target,
        },
        scope: e.scope,
        params: e.params,
        script: e.script,
    }
}

/// The effect `e` resized to start at `start_ms` and last `duration_ms`, both
/// kept within a sequence of `sequence_ms`.
pub open spec fn resized_effect<T, P, S>(
    e: TimelineEffect<T, P, S>,
    sequence_ms: u64,
    start_ms: u64,
    duration_ms: u64,
) -> TimelineEffect<T, P, S> {
    TimelineEffect {
        id: e.id,
        start_ms: clamped_start(sequence_ms, start_ms),
        duration_ms: resized_duration(sequence_ms, clamped_start(sequence_ms, start_ms), duration_ms),
        target: e.target,
        scope: e.scope,
        params: e.params,
        script: e.script,
    }
}

pub open spec fn with_target<T, P, S>(e: TimelineEffect<T, P, S>, target: T) -> TimelineEffect<T, P, S> {
    TimelineEffect {
        id: e.id,
        start_ms: e.start_ms,
        duration_ms: e.duration_ms,
        target,
        scope: e.scope,
        params: e.params,
        script: e.script,
    }
}

pub open spec fn with_scope<T, P, S>(e: TimelineEffect<T, P, S>, scope: SequenceEffectScope) -> TimelineEffect<T, P, S> {
    TimelineEffect {
        id: e.id,
        start_ms: e.start_ms,
        duration_ms: e.duration_ms,
        target: e.target,
        scope,
        params: e.params,
        script: e.script,
    }
}

pub open spec fn with_params<T, P, S>(e: TimelineEffect<T, P, S>, params: P) -> TimelineEffect<T, P, S> {
    TimelineEffect {
        id: e.id,
        start_ms: e.start_ms,
        duration_ms: e.duration_ms,
        target: e.target,
        scope: e.scope,
        params,
        script: e.script,
    }
}

pub open spec fn with_script<T, P, S>(e: TimelineEffect<T, P, S>, script: S, params: P) -> TimelineEffect<T, P, S> {
    TimelineEffect {
        id: e.id,
        start_ms: e.start_ms,
        duration_ms: e.duration_ms,
        target: e.target,
        scope: e.scope,
        params,
        script,
    }
}

/// Edits of one effect, as functions of the effect.
pub open spec fn move_to<T, P, S>(sequence_ms: u64, start_ms: u64, target: Option<T>) -> spec_fn(
    TimelineEffect<T, P, S>,
) -> TimelineEffect<T, P, S> {
    |e: TimelineEffect<T, P, S>| moved_effect(e, sequence_ms, start_ms, target)
}

pub open spec fn resize_to<T, P, S>(sequence_ms: u64, start_ms: u64, duration_ms: u64) -> spec_fn(
    TimelineEffect<T, P, S>,
) -> TimelineEffect<T, P, S> {
    |e: TimelineEffect<T, P, S>| resized_effect(e, sequence_ms, start_ms, duration_ms)
}

pub open spec fn retarget_to<T, P, S>(target: T) -> spec_fn(TimelineEffect<T, P, S>) -> TimelineEffect<T, P, S> {
    |e: TimelineEffect<T, P, S>| with_target(e, target)
}

pub open spec fn rescope_to<T, P, S>(scope: SequenceEffectScope) -> spec_fn(TimelineEffect<T, P, S>) -> TimelineEffect<
    T,
    P,
    S,
> {
    |e: TimelineEffect<T, P, S>| with_scope(e, scope)
}

pub open spec fn reparam_to<T, P, S>(params: P) -> spec_fn(TimelineEffect<T, P, S>) -> TimelineEffect<T, P, S> {
    |e: TimelineEffect<T, P, S>| with_params(e, params)
}

pub open spec fn rescript_to<T, P, S>(script: S, params: P) -> spec_fn(TimelineEffect<T, P, S>) -> TimelineEffect<
    T,
    P,
    S,
> {
    |e: TimelineEffect<T, P, S>| with_script(e, script, params)
}

/// The outcome of an edit of the effect `id` that replaces it by `f(effect)`:
/// refused when no effect has the id, else the first such effect replaced.
pub open spec fn edits_effect<T, P, S>(
    old: TimelineView<T, P, S>,
    new: TimelineView<T, P, S>,
    res: Result<(), Seq<char>>,
    id: u32,
    f: spec_fn(TimelineEffect<T, P, S>) -> TimelineEffect<T, P, S>,
) -> bool {
    match find_effect(old.effects, id) {
        None => res == Err::<(), Seq<char>>(spec_effect_not_found(id)) && new == old,
        Some(i) => res is Ok && new == with_effects(old, old.effects.update(i, f(old.effects[i]))),
    }
}

impl<T, P, S> SequenceTimeline<T, P, S> {
    /// Takes the effect at `i` out, leaving a hole that `put_effect` fills.
    fn take_effect(&mut self, i: usize) -> (e: TimelineEffect<T, P, S>)
        requires
            i < old(self)@.effects.len(),
        ensures
            e == old(self)@.effects[i as int],
            final(self)@ == with_effects(old(self)@, old(self)@.effects.remove(i as int)),
    {
        self.effects.remove(i)
    }

    fn put_effect(&mut self, i: usize, e: TimelineEffect<T, P, S>)
        requires
            i <= old(self)@.effects.len(),
        ensures
            final(self)@ == with_effects(old(self)@, old(self)@.effects.insert(i as int, e)),
    {
        self.effects.insert(i, e);
    }

    /// Moves the effect `id` to start at `start_ms` (kept so that the clip ends
    /// within the sequence where it fits) and retargets it when a target is
    /// given.
    pub fn move_effect(&mut self, id: u32, start_ms: u64, target: Option<T>) -> (r: Result<(), String>)
        ensures
            edits_effect(
                old(self)@,
                final(self)@,
                unit_result(r),
                id,
                move_to(old(self)@.duration_ms, start_ms, target),
            ),
    {
        let i = match self.effect_index(id) {
            Some(i) => i,
            None => {
                return Err(effect_not_found(id));
            },
        };
        proof {
            lemma_find_effect(self@.effects, id, 0);
        }
        let ghost before = self@;
        let mut e = self.take_effect(i);
        let max_start = if self.duration_ms >= e.duration_ms {
            self.duration_ms - e.duration_ms
        } else {
            0
        };
        e.start_ms = if start_ms <= max_start {
            start_ms
        } else {
            max_start
        };
        match target {
            Some(t) => {
                e.target = t;
            },
            None => {},
        }
        self.put_effect(i, e);
        assert(self@.effects =~= before.effects.update(i as int, moved_effect(before.effects[i as int], before.duration_ms, start_ms, target)));
        Ok(())
    }

    /// Sets the start and length of the effect `id`, both kept within the
    /// sequence.
    pub fn resize_effect(&mut self, id: u32, start_ms: u64, duration_ms: u64) -> (r: Result<(), String>)
        ensures
            edits_effect(
                old(self)@,
                final(self)@,
                unit_result(r),
                id,
                resize_to(old(self)@.duration_ms, start_ms, duration_ms),
            ),
    {
        let i = match self.effect_index(id) {
            Some(i) => i,
            None => {
                return Err(effect_not_found(id));
            },
        };
        proof {
            lemma_find_effect(self@.effects, id, 0);
        }
        let ghost before = self@;
        let mut e = self.take_effect(i);
        let limit = if self.duration_ms >= 1 {
            self.duration_ms - 1
        } else {
            0
        };
        let start = if start_ms <= limit {
            start_ms
        } else {
            limit
        };
        let left = if self.duration_ms >= start {
            self.duration_ms - start
        } else {
            0
        };
        let room = if left >= 1 {
            left
        } else {
            1
        };
        let wanted = if duration_ms >= 1 {
            duration_ms
        } else {
            1
        };
        e.start_ms = start;
        e.duration_ms = if wanted <= room {
            wanted
        } else {
            room
        };
        self.put_effect(i, e);
        assert(self@.effects =~= before.effects.update(i as int, resized_effect(before.effects[i as int], before.duration_ms, start_ms, duration_ms)));
        Ok(())
    }

    /// Gives the effect `id` a new target.
    pub fn retarget_effect(&mut self, id: u32, target: T) -> (r: Result<(), String>)
        ensures
            edits_effect(old(self)@, final(self)@, unit_result(r), id, retarget_to(target)),
    {
        let i = match self.effect_index(id) {
            Some(i) => i,
            None => {
                return Err(effect_not_found(id));
            },
        };
        proof {
            lemma_find_effect(self@.effects, id, 0);
        }
        let ghost before = self@;
        let mut e = self.take_effect(i);
        e.target = target;
        self.put_effect(i, e);
        assert(self@.effects =~= before.effects.update(i as int, with_target(before.effects[i as int], target)));
        Ok(())
    }

    /// Sets the scope of the effect `id`.
    pub fn set_effect_scope(&mut self, id: u32, scope: SequenceEffectScope) -> (r: Result<(), String>)
        ensures
            edits_effect(old(self)@, final(self)@, unit_result(r), id, rescope_to(scope)),
    {
        let i = match self.effect_index(id) {
            Some(i) => i,
            None => {
                return Err(effect_not_found(id));
            },
        };
        proof {
            lemma_find_effect(self@.effects, id, 0);
        }
        let ghost before = self@;
        let mut e = self.take_effect(i);
        e.scope = scope;
        self.put_effect(i, e);
        assert(self@.effects =~= before.effects.update(i as int, with_scope(before.effects[i as int], scope)));
        Ok(())
    }

    /// Replaces the parameter values of the effect `id`.
    pub fn set_effect_params(&mut self, id: u32, params: P) -> (r: Result<(), String>)
        ensures
            edits_effect(old(self)@, final(self)@, unit_result(r), id, reparam_to(params)),
    {
        let i = match self.effect_index(id) {
            Some(i) => i,
            None => {
                return Err(effect_not_found(id));
            },
        };
        proof {
            lemma_find_effect(self@.effects, id, 0);
        }
        let ghost before = self@;
        let mut e = self.take_effect(i);
        e.params = params;
        self.put_effect(i, e);
        assert(self@.effects =~= before.effects.update(i as int, with_params(before.effects[i as int], params)));
        Ok(())
    }

    /// Gives the effect `id` another script and the parameter values for it.
    pub fn set_effect_script(&mut self, id: u32, script: S, params: P) -> (r: Result<(), String>)
        ensures
            edits_effect(
                old(self)@,
                final(self)@,
                unit_result(r),
                id,
                rescript_to(script, params),
            ),
    {
        let i = match self.effect_index(id) {
            Some(i) => i,
            None => {
                return Err(effect_not_found(id));
            },
        };
        proof {
            lemma_find_effect(self@.effects, id, 0);
        }
        let ghost before = self@;
        let mut e = self.take_effect(i);
        e.script = script;
        e.params = params;
        self.put_effect(i, e);
        assert(self@.effects =~= before.effects.update(i as int, with_script(before.effects[i as int], script, params)));
        Ok(())
    }
}

/// The least positive id that `v` does not use, when there is one.
pub open spec fn least_free_id<T, P, S>(v: TimelineView<T, P, S>) -> int {
    choose|id: int| is_least_free_id(v, id)
}

proof fn lemma_least_free_id<T, P, S>(v: TimelineView<T, P, S>, id: int)
    requires
        is_least_free_id(v, id),
    ensures
        least_free_id(v) == id,
{
    let other = least_free_id(v);
    assert(is_least_free_id(v, other));
    if other < id {
        assert(id_in_use(v, other));
    } else if id < other {
        assert(id_in_use(v, id));
    }
}

/// The outcome of adding an effect clip: refused when every id is in use, else
/// the clip added last under the least free id.
pub open spec fn adds_effect<T, P, S>(
    old: TimelineView<T, P, S>,
    new: TimelineView<T, P, S>,
    res: Result<(), Seq<char>>,
    target: T,
    scope: SequenceEffectScope,
    start_ms: u64,
    params: P,
    script: S,
) -> bool {
    if all_ids_in_use(old) {
        res == Err::<(), Seq<char>>(no_free_ids_message()) && new == old
    } else {
        let start = clamped_start(old.duration_ms, start_ms);
        &&& res is Ok
        &&& new == with_effects(
            old,
            old.effects.push(
                TimelineEffect {
                    id: least_free_id(old) as u32,
                    start_ms: start,
                    duration_ms: new_clip_duration(old.duration_ms, start),
                    target,
                    scope,
                    params,
                    script,
                },
            ),
        )
    }
}

/// The outcome of copying the effect `id`: refused when it is missing or every
/// id is in use, else a copy added last under the least free id.
pub open spec fn duplicates_effect<T: Clone, P: Clone, S: Clone>(
    old: TimelineView<T, P, S>,
    new: TimelineView<T, P, S>,
    res: Result<(), Seq<char>>,
    id: u32,
) -> bool {
    match find_effect(old.effects, id) {
        None => res == Err::<(), Seq<char>>(spec_effect_not_found(id)) && new == old,
        Some(i) => if all_ids_in_use(old) {
            res == Err::<(), Seq<char>>(no_free_ids_message()) && new == old
        } else {
            &&& res is Ok
            &&& new == with_effects(old, new.effects)
            &&& new.effects.drop_last() == old.effects
            &&& new.effects.len() == old.effects.len() + 1
            &&& is_copy_of(new.effects.last(), old.effects[i], least_free_id(old) as u32)
        },
    }
}

pub open spec fn with_audio<T, P, S>(v: TimelineView<T, P, S>, audio: Option<Seq<char>>) -> TimelineView<T, P, S> {
    TimelineView { duration_ms: v.duration_ms, audio, collections: v.collections, effects: v.effects, clips: v.clips }
}

/// The outcome of setting the audio: cleared for `None`, refused for a blank
/// path, else set.
pub open spec fn sets_audio<T, P, S>(
    old: TimelineView<T, P, S>,
    new: TimelineView<T, P, S>,
    res: Result<(), Seq<char>>,
    import: Option<Seq<char>>,
) -> bool {
    match import {
        None => res is Ok && new == with_audio(old, None),
        Some(raw) => if is_blank(raw) {
            res == Err::<(), Seq<char>>("asset path must not be empty"@) && new == old
        } else {
            res is Ok && new == with_audio(old, Some(raw))
        },
    }
}

pub open spec fn option_view(s: Option<String>) -> Option<Seq<char>> {
    match s {
        Some(t) => Some(t@),
        None => None,
    }
}

impl<T, P, S> SequenceTimeline<T, P, S> {
    /// Sets or clears the audio of the sequence.
    pub fn set_audio(&mut self, import: Option<String>) -> (r: Result<(), String>)
        ensures
            sets_audio(old(self)@, final(self)@, unit_result(r), option_view(import)),
            import matches Some(raw) ==> (!is_blank(raw@) ==> (final(self).audio matches Some(p) && p.spec_path()
                == raw@ && p.spec_raw() == raw@)),
    {
        match import {
            None => {
                self.audio = None;
                Ok(())
            },
            Some(raw) => {
                let path = AssetPath::new(raw.as_str())?;
                self.audio = Some(path);
                Ok(())
            },
        }
    }
}

/// An edit of a sequence timeline, with its targets, parameter values and
/// scripts already resolved. For a change of script or an edit of one
/// parameter, `document::params` decides where each new parameter value comes
/// from (`sources_for_script`, `sources_after_edit`, `check_param_edit`) and
/// `document::imports::module_import` gives the alias that the new script is
/// referred to by and the import to add.
pub enum SequenceEdit<T, P, S> {
    SetAudio { import: Option<String> },
    AddEffect { target: T, scope: SequenceEffectScope, start_ms: u64, params: P, script: S },
    DuplicateEffect { id: u32 },
    DeleteEffect { id: u32 },
    MoveEffect { id: u32, start_ms: u64, target: Option<T> },
    ResizeEffect { id: u32, start_ms: u64, duration_ms: u64 },
    ChangeEffectScript { id: u32, script: S, params: P },
    RetargetEffect { id: u32, target: T },
    SetEffectScope { id: u32, scope: SequenceEffectScope },
    UpdateEffectParams { id: u32, params: P },
    CreateMarkCollection { key: String, name: String, color: String },
    RenameMarkCollection { key: String, name: String },
    DeleteMarkCollection { key: String },
    SetMarkCollectionColor { key: String, color: String },
    AddMark { collection_key: String, time_ms: u64 },
    MoveMark { collection_key: String, index: usize, time_ms: u64 },
    DeleteMark { collection_key: String, index: usize },
}

/// What applying `edit` to `old` gives: the new timeline `new` and the outcome
/// `res`.
pub open spec fn applies_edit<T: Clone, P: Clone, S: Clone>(
    old: TimelineView<T, P, S>,
    new: TimelineView<T, P, S>,
    res: Result<(), Seq<char>>,
    edit: SequenceEdit<T, P, S>,
) -> bool {
    match edit {
        SequenceEdit::SetAudio { import } => sets_audio(old, new, res, option_view(import)),
        SequenceEdit::AddEffect { target, scope, start_ms, params, script } => adds_effect(
            old,
            new,
            res,
            target,
            scope,
            start_ms,
            params,
            script,
        ),
        SequenceEdit::DuplicateEffect { id } => duplicates_effect(old, new, res, id),
        SequenceEdit::DeleteEffect { id } => res is Ok && new == spec_delete_effect(old, id),
        SequenceEdit::MoveEffect { id, start_ms, target } => edits_effect(
            old,
            new,
            res,
            id,
            move_to(old.duration_ms, start_ms, target),
        ),
        SequenceEdit::ResizeEffect { id, start_ms, duration_ms } => edits_effect(
            old,
            new,
            res,
            id,
            resize_to(old.duration_ms, start_ms, duration_ms),
        ),
        SequenceEdit::ChangeEffectScript { id, script, params } => edits_effect(
            old,
            new,
            res,
            id,
            rescript_to(script, params),
        ),
        SequenceEdit::RetargetEffect { id, target } => edits_effect(
            old,
            new,
            res,
            id,
            retarget_to(target),
        ),
        SequenceEdit::SetEffectScope { id, scope } => edits_effect(
            old,
            new,
            res,
            id,
            rescope_to(scope),
        ),
        SequenceEdit::UpdateEffectParams { id, params } => edits_effect(
            old,
            new,
            res,
            id,
            reparam_to(params),
        ),
        SequenceEdit::CreateMarkCollection { key, name, color } => creates_collection(
            old,
            new,
            res,
            key@,
            name@,
            color@,
        ),
        SequenceEdit::RenameMarkCollection { key, name } => edits_collection(
            old,
            new,
            res,
            key@,
            rename_to(name@),
        ),
        SequenceEdit::DeleteMarkCollection { key } => deletes_collection(old, new, res, key@),
        SequenceEdit::SetMarkCollectionColor { key, color } => recolors_collection(old, new, res, key@, color@),
        SequenceEdit::AddMark { collection_key, time_ms } => edits_collection(
            old,
            new,
            res,
            collection_key@,
            add_mark_at(time_ms, old.duration_ms),
        ),
        SequenceEdit::MoveMark { collection_key, index, time_ms } => edits_mark(
            old,
            new,
            res,
            collection_key@,
            index as nat,
            move_mark_to(time_ms, old.duration_ms),
        ),
        SequenceEdit::DeleteMark { collection_key, index } => edits_mark(
            old,
            new,
            res,
            collection_key@,
            index as nat,
            remove_mark(),
        ),
    }
}

impl<T: Clone, P: Clone, S: Clone> SequenceTimeline<T, P, S> {
    /// Applies one edit to the timeline; a refused edit leaves it unchanged.
    pub fn apply_sequence_edit_operation(&mut self, edit: SequenceEdit<T, P, S>) -> (r: Result<(), String>)
        ensures
            applies_edit(old(self)@, final(self)@, unit_result(r), edit),
    {
        match edit {
            SequenceEdit::SetAudio { import } => self.set_audio(import),
            SequenceEdit::AddEffect { target, scope, start_ms, params, script } => {
                match self.add_effect(target, scope, start_ms, params, script) {
                    Ok(id) => {
                        proof {
                            lemma_least_free_id(old(self)@, id as int);
                        }
                        Ok(())
                    },
                    Err(e) => Err(e),
                }
            },
            SequenceEdit::DuplicateEffect { id } => {
                match self.duplicate_effect(id) {
                    Ok(new_id) => {
                        proof {
                            lemma_least_free_id(old(self)@, new_id as int);
                        }
                        Ok(())
                    },
                    Err(e) => Err(e),
                }
            },
            SequenceEdit::DeleteEffect { id } => {
                self.delete_effect(id);
                Ok(())
            },
            SequenceEdit::MoveEffect { id, start_ms, target } => self.move_effect(id, start_ms, target),
            SequenceEdit::ResizeEffect { id, start_ms, duration_ms } => self.resize_effect(id, start_ms, duration_ms),
            SequenceEdit::ChangeEffectScript { id, script, params } => self.set_effect_script(id, script, params),
            SequenceEdit::RetargetEffect { id, target } => self.retarget_effect(id, target),
            SequenceEdit::SetEffectScope { id, scope } => self.set_effect_scope(id, scope),
            SequenceEdit::UpdateEffectParams { id, params } => self.set_effect_params(id, params),
            SequenceEdit::CreateMarkCollection { key, name, color } => self.create_mark_collection(key, name, color),
            SequenceEdit::RenameMarkCollection { key, name } => self.rename_mark_collection(key.as_str(), name),
            SequenceEdit::DeleteMarkCollection { key } => self.delete_mark_collection(key.as_str()),
            SequenceEdit::SetMarkCollectionColor { key, color } => self.set_mark_collection_color(key.as_str(), color),
            SequenceEdit::AddMark { collection_key, time_ms } => self.add_mark(collection_key.as_str(), time_ms),
            SequenceEdit::MoveMark { collection_key, index, time_ms } => self.move_mark(
                collection_key.as_str(),
                index,
                time_ms,
            ),
            SequenceEdit::DeleteMark { collection_key, index } => self.delete_mark(collection_key.as_str(), index),
        }
    }
}

/// A clip added to a sequence at least one millisecond long starts inside it,
/// lasts from one millisecond to one second, and ends within it.
pub proof fn lemma_new_clip_within_sequence(sequence_ms: u64, start_ms: u64)
    requires
        sequence_ms >= 1,
    ensures
        clamped_start(sequence_ms, start_ms) < sequence_ms,
        1 <= new_clip_duration(sequence_ms, clamped_start(sequence_ms, start_ms)) <= 1000,
        clamped_start(sequence_ms, start_ms) + new_clip_duration(sequence_ms, clamped_start(sequence_ms, start_ms))
            <= sequence_ms,
{
}

/// A resized clip of a sequence at least one millisecond long starts inside
/// it, lasts at least one millisecond and at most what was asked, and ends
/// within it.
pub proof fn lemma_resized_clip_within_sequence(sequence_ms: u64, start_ms: u64, duration_ms: u64)
    requires
        sequence_ms >= 1,
    ensures
        clamped_start(sequence_ms, start_ms) < sequence_ms,
        1 <= resized_duration(sequence_ms, clamped_start(sequence_ms, start_ms), duration_ms),
        duration_ms >= 1 ==> resized_duration(sequence_ms, clamped_start(sequence_ms, start_ms), duration_ms)
            <= duration_ms,
        clamped_start(sequence_ms, start_ms) + resized_duration(
            sequence_ms,
            clamped_start(sequence_ms, start_ms),
            duration_ms,
        ) <= sequence_ms,
{
}

/// Moving a clip that fits in the sequence keeps it within the sequence, and
/// moves it exactly where asked when it fits there.
pub proof fn lemma_moved_clip_within_sequence<T, P, S>(
    e: TimelineEffect<T, P, S>,
    sequence_ms: u64,
    start_ms: u64,
    target: Option<T>,
)
    requires
        e.duration_ms <= sequence_ms,
    ensures
        moved_effect(e, sequence_ms, start_ms, target).start_ms + e.duration_ms <= sequence_ms,
        start_ms + e.duration_ms <= sequence_ms ==> moved_effect(e, sequence_ms, start_ms, target).start_ms
            == start_ms,
        moved_effect(e, sequence_ms, start_ms, target).duration_ms == e.duration_ms,
{
}

/// After deleting the effect `id`, no effect has that id and no automation
/// clip drives it; every other effect is kept.
pub proof fn lemma_delete_effect_removes_id<T, P, S>(v: TimelineView<T, P, S>, id: u32)
    ensures
        forall|i: int|
            0 <= i < spec_delete_effect(v, id).effects.len() ==> #[trigger] spec_delete_effect(v, id).effects[i].id
                != id,
        forall|i: int| 0 <= i < v.effects.len() && v.effects[i].id != id ==> spec_delete_effect(v, id).effects.contains(#[trigger] v.effects[i]),
        forall|c: int|
            0 <= c < spec_delete_effect(v, id).clips.len() ==> !(#[trigger] spec_delete_effect(v, id).clips[c]).targets.contains(id),
        spec_delete_effect(v, id).clips.len() == v.clips.len(),
{
    lemma_without_effect(v.effects, id);
    assert forall|c: int| 0 <= c < spec_delete_effect(v, id).clips.len() implies !(#[trigger] spec_delete_effect(v, id).clips[c]).targets.contains(id) by {
        lemma_without_target(v.clips[c].targets, id);
    }
}

proof fn lemma_least_free_exists<T, P, S>(v: TimelineView<T, P, S>, free: int)
    requires
        1 <= free,
        !id_in_use(v, free),
    ensures
        exists|id: int| is_least_free_id(v, id),
    decreases free,
{
    if forall|other: int| 1 <= other < free ==> #[trigger] id_in_use(v, other) {
        assert(is_least_free_id(v, free));
    } else {
        let other = choose|other: int| 1 <= other < free && !#[trigger] id_in_use(v, other);
        lemma_least_free_exists(v, other);
    }
}

/// An effect added to the timeline takes an id that no existing effect or
/// automation clip uses.
pub proof fn lemma_added_effect_id_is_fresh<T, P, S>(
    old: TimelineView<T, P, S>,
    new: TimelineView<T, P, S>,
    target: T,
    scope: SequenceEffectScope,
    start_ms: u64,
    params: P,
    script: S,
)
    requires
        adds_effect(old, new, Ok(()), target, scope, start_ms, params, script),
    ensures
        new.effects.len() == old.effects.len() + 1,
        1 <= new.effects.last().id,
        !id_in_use(old, new.effects.last().id as int),
{
    let free = choose|id: int| 1 <= id <= u32::MAX && !#[trigger] id_in_use(old, id);
    lemma_least_free_exists(old, free);
    let least = least_free_id(old);
    assert(is_least_free_id(old, least));
    assert(least <= free) by {
        if least > free {
            assert(id_in_use(old, free));
        }
    }
    assert(new.effects.last().id == least);
}

/// Whether some effect of `effects` has `id`.
pub open spec fn has_effect<T, P, S>(effects: Seq<TimelineEffect<T, P, S>>, id: u32) -> bool {
    exists|j: int| 0 <= j < effects.len() && (#[trigger] effects[j]).id == id
}

/// Setting the scope of an effect: refused, with nothing changed, exactly
/// when no effect has the id; otherwise the first effect with the id gets the
/// new scope and keeps its id, times, target, parameters and script, and
/// every other effect stays as it was.
pub proof fn lemma_set_scope<T, P, S>(
    old: TimelineView<T, P, S>,
    new: TimelineView<T, P, S>,
    res: Result<(), Seq<char>>,
    id: u32,
    scope: SequenceEffectScope,
)
    requires
        edits_effect(old, new, res, id, rescope_to(scope)),
    ensures
        res is Ok <==> has_effect(old.effects, id),
        res is Err ==> new == old,
        res is Ok ==> ({
            let i = find_effect(old.effects, id)->0;
            &&& 0 <= i < old.effects.len() && new.effects.len() == old.effects.len()
            &&& new.effects[i].scope == scope && new.effects[i].id == id
            &&& new.effects[i].start_ms == old.effects[i].start_ms
            &&& new.effects[i].duration_ms == old.effects[i].duration_ms
            &&& new.effects[i].target == old.effects[i].target && new.effects[i].params == old.effects[i].params
            &&& new.effects[i].script == old.effects[i].script
            &&& forall|j: int| 0 <= j < old.effects.len() && j != i ==> new.effects[j] == old.effects[j]
        }),
{
    lemma_find_effect_has(old.effects, id);
}

/// Retargeting an effect changes its target only, as setting the scope
/// changes its scope only.
pub proof fn lemma_retarget<T, P, S>(
    old: TimelineView<T, P, S>,
    new: TimelineView<T, P, S>,
    res: Result<(), Seq<char>>,
    id: u32,
    target: T,
)
    requires
        edits_effect(old, new, res, id, retarget_to(target)),
    ensures
        res is Ok <==> has_effect(old.effects, id),
        res is Err ==> new == old,
        res is Ok ==> ({
            let i = find_effect(old.effects, id)->0;
            &&& 0 <= i < old.effects.len() && new.effects.len() == old.effects.len()
            &&& new.effects[i].target == target && new.effects[i].id == id
            &&& new.effects[i].start_ms == old.effects[i].start_ms
            &&& new.effects[i].duration_ms == old.effects[i].duration_ms
            &&& new.effects[i].scope == old.effects[i].scope && new.effects[i].params == old.effects[i].params
            &&& new.effects[i].script == old.effects[i].script
            &&& forall|j: int| 0 <= j < old.effects.len() && j != i ==> new.effects[j] == old.effects[j]
        }),
{
    lemma_find_effect_has(old.effects, id);
}

/// Changing the parameters, or the script and parameters, of an effect
/// changes those only.
pub proof fn lemma_reparam_and_rescript<T, P, S>(
    old: TimelineView<T, P, S>,
    new: TimelineView<T, P, S>,
    res: Result<(), Seq<char>>,
    id: u32,
    script: S,
    params: P,
    with_new_script: bool,
)
    requires
        if with_new_script {
            edits_effect(old, new, res, id, rescript_to(script, params))
        } else {
            edits_effect(old, new, res, id, reparam_to(params))
        },
    ensures
        res is Ok <==> has_effect(old.effects, id),
        res is Err ==> new == old,
        res is Ok ==> ({
            let i = find_effect(old.effects, id)->0;
            &&& 0 <= i < old.effects.len() && new.effects.len() == old.effects.len()
            &&& new.effects[i].params == params && new.effects[i].id == id
            &&& (with_new_script ==> new.effects[i].script == script)
            &&& (!with_new_script ==> new.effects[i].script == old.effects[i].script)
            &&& new.effects[i].start_ms == old.effects[i].start_ms
            &&& new.effects[i].duration_ms == old.effects[i].duration_ms
            &&& new.effects[i].target == old.effects[i].target && new.effects[i].scope == old.effects[i].scope
            &&& forall|j: int| 0 <= j < old.effects.len() && j != i ==> new.effects[j] == old.effects[j]
        }),
{
    lemma_find_effect_has(old.effects, id);
}

proof fn lemma_find_effect_has<T, P, S>(effects: Seq<TimelineEffect<T, P, S>>, id: u32)
    ensures
        find_effect(effects, id) is Some <==> has_effect(effects, id),
        find_effect(effects, id) matches Some(i) ==> 0 <= i < effects.len() && effects[i].id == id,
{
    lemma_find_effect(effects, id, 0);
    if has_effect(effects, id) {
        let j = choose|j: int| 0 <= j < effects.len() && (#[trigger] effects[j]).id == id;
        if find_effect(effects, id) is None {
            assert(effects[j].id != id);
        }
    }
}

} // verus!