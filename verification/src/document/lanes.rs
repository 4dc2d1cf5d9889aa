//! The lanes of a sequence without a layout, and keeping layout groups
//! consistent when fixtures are renumbered.
use vstd::prelude::*;
use crate::document::inspect::{target_label, LayoutGroupDocument, LayoutTargetDocument, SequenceLaneDocument};
use crate::model::kinds::{FixtureId, LayoutTargetKind};
use crate::text::str_eq;

verus! {

pub open spec fn target_key(t: LayoutTargetDocument) -> (LayoutTargetKind, Seq<char>) {
    (t.kind, t.name@)
}

pub open spec fn target_keys(ts: Seq<LayoutTargetDocument>) -> Seq<(LayoutTargetKind, Seq<char>)> {
    ts.map_values(|t: LayoutTargetDocument| target_key(t))
}

/// Each target once, where it first occurs.
pub open spec fn first_occurrences<A>(s: Seq<A>) -> Seq<A>
    decreases s.len(),
{
    if s.len() == 0 {
        seq![]
    } else if s.drop_last().contains(s.last()) {
        first_occurrences(s.drop_last())
    } else {
        first_occurrences(s.drop_last()).push(s.last())
    }
}

pub open spec fn label_text(kind: LayoutTargetKind, name: Seq<char>) -> Seq<char> {
    (match kind {
        LayoutTargetKind::Group => "Group "@,
        LayoutTargetKind::Fixture => "Fixture "@,
    }) + name
}

/// `lanes` are one lane for each of `keys`, in order, labelled by its target.
pub open spec fn lanes_for(lanes: Seq<SequenceLaneDocument>, keys: Seq<(LayoutTargetKind, Seq<char>)>) -> bool {
    &&& lanes.len() == keys.len()
    &&& forall|j: int|
        0 <= j < lanes.len() ==> target_key((#[trigger] lanes[j]).target) == keys[j] && lanes[j].label@ == label_text(
            keys[j].0,
            keys[j].1,
        )
}

fn target_seen_before(targets: &Vec<LayoutTargetDocument>, i: usize) -> (b: bool)
    requires
        i < targets@.len(),
    ensures
        b == target_keys(targets@).subrange(0, i as int).contains(target_key(targets@[i as int])),
{
    let ghost pre = target_keys(targets@).subrange(0, i as int);
    let mut k: usize = 0;
    while k < i
        invariant
            i < targets@.len(),
            k <= i,
            pre == target_keys(targets@).subrange(0, i as int),
            forall|m: int| 0 <= m < k ==> pre[m] != target_key(targets@[i as int]),
        decreases i - k,
    {
        if targets[k].kind == targets[i].kind && str_eq(targets[k].name.as_str(), targets[i].name.as_str()) {
            assert(pre[k as int] == target_key(targets@[i as int]));
            return true;
        }
        k += 1;
    }
    false
}

/// The lanes of a sequence whose layout gives no order: one for each target
/// that its effects use, in the order the effects first use them.
pub fn fallback_sequence_lanes(targets: &Vec<LayoutTargetDocument>) -> (lanes: Vec<SequenceLaneDocument>)
    ensures
        lanes_for(lanes@, first_occurrences(target_keys(targets@))),
{
    let ghost keys = target_keys(targets@);
    let mut lanes: Vec<SequenceLaneDocument> = Vec::new();
    let mut i: usize = 0;
    while i < targets.len()
        invariant
            i <= targets@.len(),
            keys == target_keys(targets@),
            lanes_for(lanes@, first_occurrences(keys.subrange(0, i as int))),
        decreases targets@.len() - i,
    {
        let ghost next = keys.subrange(0, i + 1);
        assert(next.drop_last() =~= keys.subrange(0, i as int));
        assert(next.last() == target_key(targets@[i as int]));
        if !target_seen_before(targets, i) {
            let t = &targets[i];
            let lane = SequenceLaneDocument {
                target: LayoutTargetDocument { kind: t.kind, name: t.name.clone() },
                label: target_label(t.kind, t.name.as_str()),
            };
            let ghost before = lanes@;
            lanes.push(lane);
            assert forall|j: int| 0 <= j < lanes@.len() implies target_key((#[trigger] lanes@[j]).target)
                == first_occurrences(next)[j] && lanes@[j].label@ == label_text(
                first_occurrences(next)[j].0,
                first_occurrences(next)[j].1,
            ) by {
                if j < before.len() {
                    assert(lanes@[j] == before[j]);
                }
            }
        }
        i += 1;
    }
    assert(keys.subrange(0, targets@.len() as int) =~= keys);
    lanes
}

/// What the fixture `m` is called once the fixtures of a layout, `current`,
/// are renumbered to `next` position by position; the last renumbering of `m`
/// among the first `k` positions wins.
pub open spec fn renamed(current: Seq<FixtureId>, next: Seq<FixtureId>, k: int, m: FixtureId) -> FixtureId
    decreases k,
{
    if k <= 0 {
        m
    } else if current[k - 1] == m && current[k - 1] != next[k - 1] {
        next[k - 1]
    } else {
        renamed(current, next, k - 1, m)
    }
}

pub open spec fn common_len(current: Seq<FixtureId>, next: Seq<FixtureId>) -> int {
    if current.len() <= next.len() {
        current.len() as int
    } else {
        next.len() as int
    }
}

/// The members of a group after the renumbering: each renumbered, kept when
/// the layout still has it, and listed once.
pub open spec fn repaired_members(current: Seq<FixtureId>, next: Seq<FixtureId>, members: Seq<FixtureId>) -> Seq<
    FixtureId,
>
    decreases members.len(),
{
    if members.len() == 0 {
        seq![]
    } else {
        let prev = repaired_members(current, next, members.drop_last());
        let r = renamed(current, next, common_len(current, next), members.last());
        if next.contains(r) && !prev.contains(r) {
            prev.push(r)
        } else {
            prev
        }
    }
}

fn rename_member(current: &Vec<FixtureId>, next: &Vec<FixtureId>, m: FixtureId) -> (r: FixtureId)
    ensures
        r == renamed(current@, next@, common_len(current@, next@), m),
{
    let n = if current.len() <= next.len() {
        current.len()
    } else {
        next.len()
    };
    let mut k = n;
    while k > 0
        invariant
            k <= n,
            n as int == common_len(current@, next@),
            n <= current@.len(),
            n <= next@.len(),
            renamed(current@, next@, n as int, m) == renamed(current@, next@, k as int, m),
        decreases k,
    {
        if current[k - 1] == m && current[k - 1] != next[k - 1] {
            return next[k - 1];
        }
        k -= 1;
    }
    m
}

fn contains_id(ids: &Vec<FixtureId>, id: FixtureId) -> (b: bool)
    ensures
        b == ids@.contains(id),
{
    let mut k: usize = 0;
    while k < ids.len()
        invariant
            k <= ids@.len(),
            forall|m: int| 0 <= m < k ==> ids@[m] != id,
        decreases ids@.len() - k,
    {
        if ids[k] == id {
            assert(ids@[k as int] == id);
            return true;
        }
        k += 1;
    }
    false
}

/// The members of one group after the renumbering.
pub fn repair_members(current: &Vec<FixtureId>, next: &Vec<FixtureId>, members: &Vec<FixtureId>) -> (r: Vec<
    FixtureId,
>)
    ensures
        r@ == repaired_members(current@, next@, members@),
{
    let mut out: Vec<FixtureId> = Vec::new();
    let mut i: usize = 0;
    while i < members.len()
        invariant
            i <= members@.len(),
            out@ == repaired_members(current@, next@, members@.subrange(0, i as int)),
        decreases members@.len() - i,
    {
        assert(members@.subrange(0, i + 1).drop_last() =~= members@.subrange(0, i as int));
        assert(members@.subrange(0, i + 1).last() == members@[i as int]);
        let r = rename_member(current, next, members[i]);
        if contains_id(next, r) && !contains_id(&out, r) {
            out.push(r);
        }
        i += 1;
    }
    assert(members@.subrange(0, members@.len() as int) =~= members@);
    out
}

/// Keeps the groups of a layout consistent when its fixtures, `current`, are
/// renumbered to `next` position by position: members follow the renumbering,
/// those that no longer exist are dropped, and none is listed twice.
pub fn repair_layout_group_members(
    current: &Vec<FixtureId>,
    next: &Vec<FixtureId>,
    groups: &mut Vec<LayoutGroupDocument>,
)
    ensures
        final(groups)@.len() == old(groups)@.len(),
        forall|g: int|
            0 <= g < final(groups)@.len() ==> (#[trigger] final(groups)@[g]).name@ == old(groups)@[g].name@
                && final(groups)@[g].members@ == repaired_members(current@, next@, old(groups)@[g].members@),
{
    let ghost original = groups@;
    let mut g: usize = 0;
    while g < groups.len()
        invariant
            g <= groups@.len(),
            groups@.len() == original.len(),
            forall|h: int| g <= h < groups@.len() ==> #[trigger] groups@[h] == original[h],
            forall|h: int|
                0 <= h < g ==> (#[trigger] groups@[h]).name@ == original[h].name@ && groups@[h].members@
                    == repaired_members(current@, next@, original[h].members@),
        decreases groups@.len() - g,
    {
        let members = repair_members(current, next, &groups[g].members);
        let name = groups[g].name.clone();
        groups.set(g, LayoutGroupDocument { name, members });
        g += 1;
    }
}

/// Each target gets one lane: no two lanes share a target, and every target
/// has a lane.
pub proof fn lemma_lanes_distinct_and_complete<A>(s: Seq<A>)
    ensures
        forall|i: int, j: int|
            0 <= i < j < first_occurrences(s).len() ==> first_occurrences(s)[i] != first_occurrences(s)[j],
        forall|k: int| 0 <= k < s.len() ==> first_occurrences(s).contains(#[trigger] s[k]),
        forall|i: int| 0 <= i < first_occurrences(s).len() ==> s.contains(#[trigger] first_occurrences(s)[i]),
    decreases s.len(),
{
    if s.len() > 0 {
        let rest = s.drop_last();
        lemma_lanes_distinct_and_complete(rest);
        let f = first_occurrences(rest);
        assert forall|k: int| 0 <= k < s.len() implies first_occurrences(s).contains(#[trigger] s[k]) by {
            if k < rest.len() {
                assert(rest[k] == s[k]);
                assert(f.contains(rest[k]));
                if !rest.contains(s.last()) {
                    let w = choose|w: int| 0 <= w < f.len() && f[w] == rest[k];
                    assert(first_occurrences(s)[w] == s[k]);
                }
            } else {
                if rest.contains(s.last()) {
                    let w = choose|w: int| 0 <= w < rest.len() && rest[w] == s.last();
                    assert(f.contains(rest[w]));
                } else {
                    assert(first_occurrences(s)[f.len() as int] == s.last());
                }
            }
        }
        assert forall|i: int| 0 <= i < first_occurrences(s).len() implies s.contains(
            #[trigger] first_occurrences(s)[i],
        ) by {
            if i < f.len() {
                assert(first_occurrences(s)[i] == f[i]);
                assert(rest.contains(f[i]));
                let w = choose|w: int| 0 <= w < rest.len() && rest[w] == f[i];
                assert(s[w] == rest[w]);
            } else {
                assert(s[s.len() - 1] == s.last());
            }
        }
        if !rest.contains(s.last()) {
            assert forall|i: int, j: int| 0 <= i < j < first_occurrences(s).len() implies first_occurrences(s)[i]
                != first_occurrences(s)[j] by {
                if j == f.len() {
                    assert(rest.contains(f[i]));
                }
            }
        }
    }
}

/// After the renumbering a group lists each member once, and only fixtures
/// that the layout has.
pub proof fn lemma_repaired_members_valid(current: Seq<FixtureId>, next: Seq<FixtureId>, members: Seq<FixtureId>)
    ensures
        forall|i: int, j: int|
            0 <= i < j < repaired_members(current, next, members).len() ==> repaired_members(current, next, members)[i]
                != repaired_members(current, next, members)[j],
        forall|i: int|
            0 <= i < repaired_members(current, next, members).len() ==> next.contains(
                #[trigger] repaired_members(current, next, members)[i],
            ),
    decreases members.len(),
{
    if members.len() > 0 {
        lemma_repaired_members_valid(current, next, members.drop_last());
        let prev = repaired_members(current, next, members.drop_last());
        let r = renamed(current, next, common_len(current, next), members.last());
        let out = repaired_members(current, next, members);
        if next.contains(r) && !prev.contains(r) {
            assert(out == prev.push(r));
            assert forall|i: int, j: int| 0 <= i < j < out.len() implies out[i] != out[j] by {
                if j == prev.len() {
                    assert(out[i] == prev[i]);
                    assert(prev.contains(prev[i]));
                } else {
                    assert(out[i] == prev[i] && out[j] == prev[j]);
                }
            }
            assert forall|i: int| 0 <= i < out.len() implies next.contains(#[trigger] out[i]) by {
                if i < prev.len() {
                    assert(out[i] == prev[i]);
                }
            }
        } else {
            assert(out == prev);
        }
    }
}

} // verus!
