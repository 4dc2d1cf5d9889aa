//! The identifier checks that lowering makes of layouts and sequences: ids
//! used twice, references to ids that do not exist, and a layout's target
//! order, which must list every group and fixture exactly once.
use vstd::prelude::*;
use crate::lower::LowerError;
use crate::model::kinds::{CurveValueType, FixtureId, GroupInstantiationId, LayoutTargetKind, LayoutTargetRef};

verus! {

/// What a sequence effect is applied to.
#[derive(Debug, Clone, Copy, PartialEq, Eq, Structural)]
pub enum EffectTarget {
    Group { id: GroupInstantiationId },
    Fixture { id: FixtureId },
}

/// Whether `t` names one of the layout's `groups` or `fixtures`.
pub open spec fn is_layout_target(
    fixtures: Seq<FixtureId>,
    groups: Seq<GroupInstantiationId>,
    t: LayoutTargetRef,
) -> bool {
    match t.kind {
        LayoutTargetKind::Group => groups.contains(GroupInstantiationId(t.id)),
        LayoutTargetKind::Fixture => fixtures.contains(FixtureId(t.id)),
    }
}

/// The first bad entry of `order`, read from the front: one that repeats an
/// earlier entry, or one that names no group or fixture of the layout.
pub open spec fn order_entry_problem(
    fixtures: Seq<FixtureId>,
    groups: Seq<GroupInstantiationId>,
    order: Seq<LayoutTargetRef>,
) -> Option<LowerError>
    decreases order.len(),
{
    if order.len() == 0 {
        None
    } else {
        match order_entry_problem(fixtures, groups, order.drop_last()) {
            Some(e) => Some(e),
            None => {
                let t = order.last();
                if order.drop_last().contains(t) {
                    Some(LowerError::DuplicateLayoutTargetOrderEntry { kind: t.kind, id: t.id })
                } else if !is_layout_target(fixtures, groups, t) {
                    Some(LowerError::UnknownLayoutTargetOrderEntry { kind: t.kind, id: t.id })
                } else {
                    None
                }
            },
        }
    }
}

/// The first of `groups` that `order` does not list.
pub open spec fn first_unlisted_group(groups: Seq<GroupInstantiationId>, order: Seq<LayoutTargetRef>) -> Option<u32>
    decreases groups.len(),
{
    if groups.len() == 0 {
        None
    } else {
        match first_unlisted_group(groups.drop_last(), order) {
            Some(id) => Some(id),
            None => if order.contains(LayoutTargetRef { kind: LayoutTargetKind::Group, id: groups.last().0 }) {
                None
            } else {
                Some(groups.last().0)
            },
        }
    }
}

/// The first of `fixtures` that `order` does not list.
pub open spec fn first_unlisted_fixture(fixtures: Seq<FixtureId>, order: Seq<LayoutTargetRef>) -> Option<u32>
    decreases fixtures.len(),
{
    if fixtures.len() == 0 {
        None
    } else {
        match first_unlisted_fixture(fixtures.drop_last(), order) {
            Some(id) => Some(id),
            None => if order.contains(LayoutTargetRef { kind: LayoutTargetKind::Fixture, id: fixtures.last().0 }) {
                None
            } else {
                Some(fixtures.last().0)
            },
        }
    }
}

/// What is wrong with a layout's target order: a bad entry first, then a
/// group it leaves out, then a fixture it leaves out; `None` when it is fine.
pub open spec fn target_order_problem(
    fixtures: Seq<FixtureId>,
    groups: Seq<GroupInstantiationId>,
    order: Seq<LayoutTargetRef>,
) -> Option<LowerError> {
    match order_entry_problem(fixtures, groups, order) {
        Some(e) => Some(e),
        None => match first_unlisted_group(groups, order) {
            Some(id) => Some(LowerError::MissingLayoutTargetOrderEntry { kind: LayoutTargetKind::Group, id }),
            None => match first_unlisted_fixture(fixtures, order) {
                Some(id) => Some(LowerError::MissingLayoutTargetOrderEntry { kind: LayoutTargetKind::Fixture, id }),
                None => None,
            },
        },
    }
}

/// `order` lists every group and fixture of the layout exactly once, and
/// nothing else.
pub open spec fn is_complete_target_order(
    fixtures: Seq<FixtureId>,
    groups: Seq<GroupInstantiationId>,
    order: Seq<LayoutTargetRef>,
) -> bool {
    &&& forall|i: int, j: int| 0 <= i < j < order.len() ==> order[i] != order[j]
    &&& forall|i: int| 0 <= i < order.len() ==> is_layout_target(fixtures, groups, #[trigger] order[i])
    &&& forall|t: LayoutTargetRef| is_layout_target(fixtures, groups, t) ==> #[trigger] order.contains(t)
}

proof fn lemma_entries_fine(
    fixtures: Seq<FixtureId>,
    groups: Seq<GroupInstantiationId>,
    order: Seq<LayoutTargetRef>,
)
    ensures
        order_entry_problem(fixtures, groups, order) is None <==> {
            &&& forall|i: int, j: int| 0 <= i < j < order.len() ==> order[i] != order[j]
            &&& forall|i: int| 0 <= i < order.len() ==> is_layout_target(fixtures, groups, #[trigger] order[i])
        },
    decreases order.len(),
{
    if order.len() > 0 {
        let pre = order.drop_last();
        lemma_entries_fine(fixtures, groups, pre);
        let n = order.len() - 1;
        if order_entry_problem(fixtures, groups, order) is None {
            assert forall|i: int, j: int| 0 <= i < j < order.len() implies order[i] != order[j] by {
                if j < n {
                    assert(pre[i] == order[i] && pre[j] == order[j]);
                } else {
                    assert(pre[i] == order[i]);
                }
            }
            assert forall|i: int| 0 <= i < order.len() implies is_layout_target(fixtures, groups, #[trigger] order[i]) by {
                if i < n {
                    assert(pre[i] == order[i]);
                }
            }
        } else {
            if order_entry_problem(fixtures, groups, pre) is None {
                if pre.contains(order.last()) {
                    let i = choose|i: int| 0 <= i < pre.len() && pre[i] == order.last();
                    assert(order[i] == order[n]);
                } else {
                    assert(!is_layout_target(fixtures, groups, order[n]));
                }
            } else {
                if (forall|i: int, j: int| 0 <= i < j < order.len() ==> order[i] != order[j]) && (forall|i: int|
                    0 <= i < order.len() ==> is_layout_target(fixtures, groups, #[trigger] order[i])) {
                    assert forall|i: int, j: int| 0 <= i < j < pre.len() implies pre[i] != pre[j] by {
                        assert(order[i] != order[j]);
                    }
                    assert forall|i: int| 0 <= i < pre.len() implies is_layout_target(fixtures, groups, #[trigger] pre[i]) by {
                        assert(pre[i] == order[i]);
                    }
                }
            }
        }
    }
}

proof fn lemma_groups_listed(groups: Seq<GroupInstantiationId>, order: Seq<LayoutTargetRef>)
    ensures
        first_unlisted_group(groups, order) is None <==> forall|k: int|
            0 <= k < groups.len() ==> order.contains(
                LayoutTargetRef { kind: LayoutTargetKind::Group, id: (#[trigger] groups[k]).0 },
            ),
    decreases groups.len(),
{
    if groups.len() > 0 {
        let pre = groups.drop_last();
        lemma_groups_listed(pre, order);
        if first_unlisted_group(groups, order) is None {
            assert forall|k: int| 0 <= k < groups.len() implies order.contains(
                LayoutTargetRef { kind: LayoutTargetKind::Group, id: (#[trigger] groups[k]).0 },
            ) by {
                if k < pre.len() {
                    assert(pre[k] == groups[k]);
                }
            }
        } else if first_unlisted_group(pre, order) is Some {
            let k = choose|k: int|
                0 <= k < pre.len() && !order.contains(
                    LayoutTargetRef { kind: LayoutTargetKind::Group, id: (#[trigger] pre[k]).0 },
                );
            assert(pre[k] == groups[k]);
        }
    }
}

proof fn lemma_fixtures_listed(fixtures: Seq<FixtureId>, order: Seq<LayoutTargetRef>)
    ensures
        first_unlisted_fixture(fixtures, order) is None <==> forall|k: int|
            0 <= k < fixtures.len() ==> order.contains(
                LayoutTargetRef { kind: LayoutTargetKind::Fixture, id: (#[trigger] fixtures[k]).0 },
            ),
    decreases fixtures.len(),
{
    if fixtures.len() > 0 {
        let pre = fixtures.drop_last();
        lemma_fixtures_listed(pre, order);
        if first_unlisted_fixture(fixtures, order) is None {
            assert forall|k: int| 0 <= k < fixtures.len() implies order.contains(
                LayoutTargetRef { kind: LayoutTargetKind::Fixture, id: (#[trigger] fixtures[k]).0 },
            ) by {
                if k < pre.len() {
                    assert(pre[k] == fixtures[k]);
                }
            }
        } else if first_unlisted_fixture(pre, order) is Some {
            let k = choose|k: int|
                0 <= k < pre.len() && !order.contains(
                    LayoutTargetRef { kind: LayoutTargetKind::Fixture, id: (#[trigger] pre[k]).0 },
                );
            assert(pre[k] == fixtures[k]);
        }
    }
}

/// A target order passes the check exactly when it lists every group and
/// fixture of the layout once and nothing else.
pub proof fn lemma_target_order_accepted_iff_complete(
    fixtures: Seq<FixtureId>,
    groups: Seq<GroupInstantiationId>,
    order: Seq<LayoutTargetRef>,
)
    ensures
        target_order_problem(fixtures, groups, order) is None <==> is_complete_target_order(
            fixtures,
            groups,
            order,
        ),
{
    lemma_entries_fine(fixtures, groups, order);
    lemma_groups_listed(groups, order);
    lemma_fixtures_listed(fixtures, order);
    if target_order_problem(fixtures, groups, order) is None {
        assert forall|t: LayoutTargetRef| is_layout_target(fixtures, groups, t) implies #[trigger] order.contains(
            t,
        ) by {
            match t.kind {
                LayoutTargetKind::Group => {
                    let k = choose|k: int| 0 <= k < groups.len() && groups[k] == GroupInstantiationId(t.id);
                    assert(order.contains(LayoutTargetRef { kind: LayoutTargetKind::Group, id: groups[k].0 }));
                },
                LayoutTargetKind::Fixture => {
                    let k = choose|k: int| 0 <= k < fixtures.len() && fixtures[k] == FixtureId(t.id);
                    assert(order.contains(LayoutTargetRef { kind: LayoutTargetKind::Fixture, id: fixtures[k].0 }));
                },
            }
        }
    }
    if is_complete_target_order(fixtures, groups, order) {
        assert forall|k: int| 0 <= k < groups.len() implies order.contains(
            LayoutTargetRef { kind: LayoutTargetKind::Group, id: (#[trigger] groups[k]).0 },
        ) by {
            let t = LayoutTargetRef { kind: LayoutTargetKind::Group, id: groups[k].0 };
            assert(groups[k] == GroupInstantiationId(t.id));
            assert(is_layout_target(fixtures, groups, t));
        }
        assert forall|k: int| 0 <= k < fixtures.len() implies order.contains(
            LayoutTargetRef { kind: LayoutTargetKind::Fixture, id: (#[trigger] fixtures[k]).0 },
        ) by {
            let t = LayoutTargetRef { kind: LayoutTargetKind::Fixture, id: fixtures[k].0 };
            assert(fixtures[k] == FixtureId(t.id));
            assert(is_layout_target(fixtures, groups, t));
        }
    }
}

proof fn lemma_problem_of_prefix(
    fixtures: Seq<FixtureId>,
    groups: Seq<GroupInstantiationId>,
    order: Seq<LayoutTargetRef>,
    m: int,
)
    requires
        0 <= m <= order.len(),
        order_entry_problem(fixtures, groups, order.subrange(0, m)) is Some,
    ensures
        order_entry_problem(fixtures, groups, order) == order_entry_problem(fixtures, groups, order.subrange(0, m)),
    decreases order.len() - m,
{
    if m == order.len() {
        assert(order.subrange(0, m) =~= order);
    } else {
        let pre = order.drop_last();
        assert(pre.subrange(0, m) =~= order.subrange(0, m));
        lemma_problem_of_prefix(fixtures, groups, pre, m);
    }
}

proof fn lemma_unlisted_group_of_prefix(groups: Seq<GroupInstantiationId>, order: Seq<LayoutTargetRef>, m: int)
    requires
        0 <= m <= groups.len(),
        first_unlisted_group(groups.subrange(0, m), order) is Some,
    ensures
        first_unlisted_group(groups, order) == first_unlisted_group(groups.subrange(0, m), order),
    decreases groups.len() - m,
{
    if m == groups.len() {
        assert(groups.subrange(0, m) =~= groups);
    } else {
        let pre = groups.drop_last();
        assert(pre.subrange(0, m) =~= groups.subrange(0, m));
        lemma_unlisted_group_of_prefix(pre, order, m);
    }
}

proof fn lemma_unlisted_fixture_of_prefix(fixtures: Seq<FixtureId>, order: Seq<LayoutTargetRef>, m: int)
    requires
        0 <= m <= fixtures.len(),
        first_unlisted_fixture(fixtures.subrange(0, m), order) is Some,
    ensures
        first_unlisted_fixture(fixtures, order) == first_unlisted_fixture(fixtures.subrange(0, m), order),
    decreases fixtures.len() - m,
{
    if m == fixtures.len() {
        assert(fixtures.subrange(0, m) =~= fixtures);
    } else {
        let pre = fixtures.drop_last();
        assert(pre.subrange(0, m) =~= fixtures.subrange(0, m));
        lemma_unlisted_fixture_of_prefix(pre, order, m);
    }
}

fn listed_before(order: &Vec<LayoutTargetRef>, end: usize, t: LayoutTargetRef) -> (b: bool)
    requires
        end <= order@.len(),
    ensures
        b == order@.subrange(0, end as int).contains(t),
{
    let mut k: usize = 0;
    while k < end
        invariant
            k <= end <= order@.len(),
            forall|m: int| 0 <= m < k ==> order@[m] != t,
        decreases end - k,
    {
        if order[k] == t {
            assert(order@.subrange(0, end as int)[k as int] == t);
            return true;
        }
        k += 1;
    }
    assert forall|m: int| 0 <= m < end implies order@.subrange(0, end as int)[m] != t by {
        assert(order@.subrange(0, end as int)[m] == order@[m]);
    }
    false
}

fn has_fixture(fixtures: &Vec<FixtureId>, end: usize, id: FixtureId) -> (b: bool)
    requires
        end <= fixtures@.len(),
    ensures
        b == fixtures@.subrange(0, end as int).contains(id),
{
    let mut k: usize = 0;
    while k < end
        invariant
            k <= end <= fixtures@.len(),
            forall|m: int| 0 <= m < k ==> fixtures@[m] != id,
        decreases end - k,
    {
        if fixtures[k] == id {
            assert(fixtures@.subrange(0, end as int)[k as int] == id);
            return true;
        }
        k += 1;
    }
    assert forall|m: int| 0 <= m < end implies fixtures@.subrange(0, end as int)[m] != id by {
        assert(fixtures@.subrange(0, end as int)[m] == fixtures@[m]);
    }
    false
}

fn has_group(groups: &Vec<GroupInstantiationId>, id: GroupInstantiationId) -> (b: bool)
    ensures
        b == groups@.contains(id),
{
    let mut k: usize = 0;
    while k < groups.len()
        invariant
            k <= groups@.len(),
            forall|m: int| 0 <= m < k ==> groups@[m] != id,
        decreases groups@.len() - k,
    {
        if groups[k] == id {
            return true;
        }
        k += 1;
    }
    false
}

/// Checks a layout's target order against the layout's `fixtures` and
/// `groups` and returns it when it lists each of them exactly once. The
/// error names the first repeated or unknown entry; failing that, the first
/// group, then the first fixture, that the order leaves out.
pub fn validate_layout_target_order(
    fixtures: &Vec<FixtureId>,
    groups: &Vec<GroupInstantiationId>,
    target_order: &Vec<LayoutTargetRef>,
) -> (r: Result<Vec<LayoutTargetRef>, LowerError>)
    ensures
        match r {
            Ok(order) => order@ == target_order@ && target_order_problem(fixtures@, groups@, target_order@) is None,
            Err(e) => target_order_problem(fixtures@, groups@, target_order@) == Some(e),
        },
        r is Ok <==> is_complete_target_order(fixtures@, groups@, target_order@),
{
    proof {
        lemma_target_order_accepted_iff_complete(fixtures@, groups@, target_order@);
    }
    let n = target_order.len();
    let mut i: usize = 0;
    while i < n
        invariant
            n == target_order@.len(),
            i <= n,
            order_entry_problem(fixtures@, groups@, target_order@.subrange(0, i as int)) is None,
        decreases n - i,
    {
        let t = target_order[i];
        let ghost pre = target_order@.subrange(0, i as int);
        assert(target_order@.subrange(0, i + 1).drop_last() =~= pre);
        assert(target_order@.subrange(0, i + 1).last() == t);
        if listed_before(target_order, i, t) {
            proof {
                lemma_problem_of_prefix(fixtures@, groups@, target_order@, (i + 1) as int);
            }
            return Err(LowerError::DuplicateLayoutTargetOrderEntry { kind: t.kind, id: t.id });
        }
        let known = match t.kind {
            LayoutTargetKind::Group => has_group(groups, GroupInstantiationId(t.id)),
            LayoutTargetKind::Fixture => {
                let found = has_fixture(fixtures, fixtures.len(), FixtureId(t.id));
                assert(fixtures@.subrange(0, fixtures@.len() as int) =~= fixtures@);
                found
            },
        };
        if !known {
            proof {
                lemma_problem_of_prefix(fixtures@, groups@, target_order@, (i + 1) as int);
            }
            return Err(LowerError::UnknownLayoutTargetOrderEntry { kind: t.kind, id: t.id });
        }
        i += 1;
    }
    assert(target_order@.subrange(0, n as int) =~= target_order@);
    let mut k: usize = 0;
    while k < groups.len()
        invariant
            k <= groups@.len(),
            n == target_order@.len(),
            order_entry_problem(fixtures@, groups@, target_order@) is None,
            first_unlisted_group(groups@.subrange(0, k as int), target_order@) is None,
        decreases groups@.len() - k,
    {
        let g = groups[k];
        assert(groups@.subrange(0, k + 1).drop_last() =~= groups@.subrange(0, k as int));
        assert(groups@.subrange(0, k + 1).last() == g);
        assert(target_order@.subrange(0, n as int) =~= target_order@);
        let t = LayoutTargetRef { kind: LayoutTargetKind::Group, id: g.0 };
        if !listed_before(target_order, n, t) {
            proof {
                lemma_unlisted_group_of_prefix(groups@, target_order@, (k + 1) as int);
            }
            return Err(LowerError::MissingLayoutTargetOrderEntry { kind: LayoutTargetKind::Group, id: g.0 });
        }
        k += 1;
    }
    assert(groups@.subrange(0, groups@.len() as int) =~= groups@);
    let mut k: usize = 0;
    while k < fixtures.len()
        invariant
            k <= fixtures@.len(),
            n == target_order@.len(),
            first_unlisted_group(groups@, target_order@) is None,
            order_entry_problem(fixtures@, groups@, target_order@) is None,
            first_unlisted_fixture(fixtures@.subrange(0, k as int), target_order@) is None,
        decreases fixtures@.len() - k,
    {
        let f = fixtures[k];
        assert(fixtures@.subrange(0, k + 1).drop_last() =~= fixtures@.subrange(0, k as int));
        assert(fixtures@.subrange(0, k + 1).last() == f);
        assert(target_order@.subrange(0, n as int) =~= target_order@);
        let t = LayoutTargetRef { kind: LayoutTargetKind::Fixture, id: f.0 };
        if !listed_before(target_order, n, t) {
            proof {
                lemma_unlisted_fixture_of_prefix(fixtures@, target_order@, (k + 1) as int);
            }
            return Err(LowerError::MissingLayoutTargetOrderEntry { kind: LayoutTargetKind::Fixture, id: f.0 });
        }
        k += 1;
    }
    assert(fixtures@.subrange(0, fixtures@.len() as int) =~= fixtures@);
    Ok(target_order.clone())
}

/// The first item of `s` that repeats an earlier one.
pub open spec fn first_repeat<A>(s: Seq<A>) -> Option<A>
    decreases s.len(),
{
    if s.len() == 0 {
        None
    } else {
        match first_repeat(s.drop_last()) {
            Some(a) => Some(a),
            None => if s.drop_last().contains(s.last()) {
                Some(s.last())
            } else {
                None
            },
        }
    }
}

/// The first of `items` that `known` does not hold.
pub open spec fn first_absent<A>(known: Seq<A>, items: Seq<A>) -> Option<A>
    decreases items.len(),
{
    if items.len() == 0 {
        None
    } else {
        match first_absent(known, items.drop_last()) {
            Some(a) => Some(a),
            None => if known.contains(items.last()) {
                None
            } else {
                Some(items.last())
            },
        }
    }
}

pub open spec fn group_ids(groups: Seq<(GroupInstantiationId, Vec<FixtureId>)>) -> Seq<GroupInstantiationId> {
    groups.map_values(|g: (GroupInstantiationId, Vec<FixtureId>)| g.0)
}

/// The first bad group of a layout, read from the front: one whose id an
/// earlier group has, or one with a member that is no fixture of the layout.
pub open spec fn group_problem(
    fixtures: Seq<FixtureId>,
    groups: Seq<(GroupInstantiationId, Vec<FixtureId>)>,
) -> Option<LowerError>
    decreases groups.len(),
{
    if groups.len() == 0 {
        None
    } else {
        match group_problem(fixtures, groups.drop_last()) {
            Some(e) => Some(e),
            None => {
                let g = groups.last();
                if group_ids(groups.drop_last()).contains(g.0) {
                    Some(LowerError::DuplicateGroupId { id: g.0 })
                } else {
                    match first_absent(fixtures, g.1@) {
                        Some(m) => Some(LowerError::UnknownFixture { id: m }),
                        None => None,
                    }
                }
            },
        }
    }
}

/// What lowering finds wrong with the ids of a layout with fixtures
/// `fixtures`, groups `groups` (each an id and its members) and target order
/// `order`: a fixture id used twice, then a bad group, then a bad target
/// order.
pub open spec fn layout_problem(
    fixtures: Seq<FixtureId>,
    groups: Seq<(GroupInstantiationId, Vec<FixtureId>)>,
    order: Seq<LayoutTargetRef>,
) -> Option<LowerError> {
    match first_repeat(fixtures) {
        Some(id) => Some(LowerError::DuplicateFixtureId { id }),
        None => match group_problem(fixtures, groups) {
            Some(e) => Some(e),
            None => target_order_problem(fixtures, group_ids(groups), order),
        },
    }
}

proof fn lemma_first_repeat_of_prefix<A>(s: Seq<A>, m: int)
    requires
        0 <= m <= s.len(),
        first_repeat(s.subrange(0, m)) is Some,
    ensures
        first_repeat(s) == first_repeat(s.subrange(0, m)),
    decreases s.len() - m,
{
    if m == s.len() {
        assert(s.subrange(0, m) =~= s);
    } else {
        assert(s.drop_last().subrange(0, m) =~= s.subrange(0, m));
        lemma_first_repeat_of_prefix(s.drop_last(), m);
    }
}

proof fn lemma_first_absent_of_prefix<A>(known: Seq<A>, items: Seq<A>, m: int)
    requires
        0 <= m <= items.len(),
        first_absent(known, items.subrange(0, m)) is Some,
    ensures
        first_absent(known, items) == first_absent(known, items.subrange(0, m)),
    decreases items.len() - m,
{
    if m == items.len() {
        assert(items.subrange(0, m) =~= items);
    } else {
        assert(items.drop_last().subrange(0, m) =~= items.subrange(0, m));
        lemma_first_absent_of_prefix(known, items.drop_last(), m);
    }
}

proof fn lemma_group_problem_of_prefix(
    fixtures: Seq<FixtureId>,
    groups: Seq<(GroupInstantiationId, Vec<FixtureId>)>,
    m: int,
)
    requires
        0 <= m <= groups.len(),
        group_problem(fixtures, groups.subrange(0, m)) is Some,
    ensures
        group_problem(fixtures, groups) == group_problem(fixtures, groups.subrange(0, m)),
    decreases groups.len() - m,
{
    if m == groups.len() {
        assert(groups.subrange(0, m) =~= groups);
    } else {
        assert(groups.drop_last().subrange(0, m) =~= groups.subrange(0, m));
        lemma_group_problem_of_prefix(fixtures, groups.drop_last(), m);
    }
}

fn first_repeated_fixture(fixtures: &Vec<FixtureId>) -> (r: Option<FixtureId>)
    ensures
        r == first_repeat(fixtures@),
{
    let n = fixtures.len();
    let mut i: usize = 0;
    while i < n
        invariant
            n == fixtures@.len(),
            i <= n,
            first_repeat(fixtures@.subrange(0, i as int)) is None,
        decreases n - i,
    {
        let f = fixtures[i];
        assert(fixtures@.subrange(0, i + 1).drop_last() =~= fixtures@.subrange(0, i as int));
        assert(fixtures@.subrange(0, i + 1).last() == f);
        if has_fixture(fixtures, i, f) {
            proof {
                lemma_first_repeat_of_prefix(fixtures@, (i + 1) as int);
            }
            return Some(f);
        }
        i += 1;
    }
    assert(fixtures@.subrange(0, n as int) =~= fixtures@);
    None
}

fn first_unknown_member(fixtures: &Vec<FixtureId>, members: &Vec<FixtureId>) -> (r: Option<FixtureId>)
    ensures
        r == first_absent(fixtures@, members@),
{
    let n = members.len();
    let mut i: usize = 0;
    assert(fixtures@.subrange(0, fixtures@.len() as int) =~= fixtures@);
    while i < n
        invariant
            n == members@.len(),
            i <= n,
            fixtures@.subrange(0, fixtures@.len() as int) == fixtures@,
            first_absent(fixtures@, members@.subrange(0, i as int)) is None,
        decreases n - i,
    {
        let m = members[i];
        assert(members@.subrange(0, i + 1).drop_last() =~= members@.subrange(0, i as int));
        assert(members@.subrange(0, i + 1).last() == m);
        if !has_fixture(fixtures, fixtures.len(), m) {
            proof {
                lemma_first_absent_of_prefix(fixtures@, members@, (i + 1) as int);
            }
            return Some(m);
        }
        i += 1;
    }
    assert(members@.subrange(0, n as int) =~= members@);
    None
}

fn group_listed_before(groups: &Vec<(GroupInstantiationId, Vec<FixtureId>)>, end: usize, id: GroupInstantiationId) -> (b: bool)
    requires
        end <= groups@.len(),
    ensures
        b == group_ids(groups@.subrange(0, end as int)).contains(id),
{
    let ghost ids = group_ids(groups@.subrange(0, end as int));
    let mut k: usize = 0;
    while k < end
        invariant
            k <= end <= groups@.len(),
            ids == group_ids(groups@.subrange(0, end as int)),
            forall|m: int| 0 <= m < k ==> groups@[m].0 != id,
        decreases end - k,
    {
        if groups[k].0 == id {
            assert(ids[k as int] == id);
            return true;
        }
        k += 1;
    }
    assert forall|m: int| 0 <= m < ids.len() implies ids[m] != id by {
        assert(ids[m] == groups@[m].0);
    }
    false
}

/// Checks the ids of a layout as lowering does: `fixtures` are the ids of its
/// fixture placements, `groups` the id and members of each group, in order,
/// and `target_order` its target order, which comes back when all is well.
/// The error is the first that lowering meets: a fixture id used twice, a
/// group id used twice or a member that is no fixture of the layout, then
/// what `validate_layout_target_order` finds.
pub fn validate_layout_ids(
    fixtures: &Vec<FixtureId>,
    groups: &Vec<(GroupInstantiationId, Vec<FixtureId>)>,
    target_order: &Vec<LayoutTargetRef>,
) -> (r: Result<Vec<LayoutTargetRef>, LowerError>)
    ensures
        match r {
            Ok(order) => order@ == target_order@ && layout_problem(fixtures@, groups@, target_order@) is None,
            Err(e) => layout_problem(fixtures@, groups@, target_order@) == Some(e),
        },
{
    if let Some(id) = first_repeated_fixture(fixtures) {
        return Err(LowerError::DuplicateFixtureId { id });
    }
    let n = groups.len();
    let mut ids: Vec<GroupInstantiationId> = Vec::new();
    let mut i: usize = 0;
    while i < n
        invariant
            n == groups@.len(),
            i <= n,
            first_repeat(fixtures@) is None,
            group_problem(fixtures@, groups@.subrange(0, i as int)) is None,
            ids@ == group_ids(groups@.subrange(0, i as int)),
        decreases n - i,
    {
        let id = groups[i].0;
        let ghost pre = groups@.subrange(0, i as int);
        assert(groups@.subrange(0, i + 1).drop_last() =~= pre);
        assert(groups@.subrange(0, i + 1).last() == groups@[i as int]);
        if group_listed_before(groups, i, id) {
            proof {
                lemma_group_problem_of_prefix(fixtures@, groups@, (i + 1) as int);
            }
            return Err(LowerError::DuplicateGroupId { id });
        }
        if let Some(m) = first_unknown_member(fixtures, &groups[i].1) {
            proof {
                lemma_group_problem_of_prefix(fixtures@, groups@, (i + 1) as int);
            }
            return Err(LowerError::UnknownFixture { id: m });
        }
        ids.push(id);
        assert(ids@ =~= group_ids(groups@.subrange(0, i + 1)));
        i += 1;
    }
    assert(groups@.subrange(0, n as int) =~= groups@);
    validate_layout_target_order(fixtures, &ids, target_order)
}

/// What is wrong with an effect target: a group or fixture the layout lacks.
pub open spec fn effect_target_problem(
    fixtures: Seq<FixtureId>,
    groups: Seq<GroupInstantiationId>,
    target: EffectTarget,
) -> Option<LowerError> {
    match target {
        EffectTarget::Group { id } => if groups.contains(id) {
            None
        } else {
            Some(LowerError::UnknownGroup { id })
        },
        EffectTarget::Fixture { id } => if fixtures.contains(id) {
            None
        } else {
            Some(LowerError::UnknownFixture { id })
        },
    }
}

pub open spec fn effect_ids(effects: Seq<(u32, EffectTarget)>) -> Seq<u32> {
    effects.map_values(|e: (u32, EffectTarget)| e.0)
}

pub open spec fn clip_ids(clips: Seq<(u32, Vec<u32>, CurveValueType)>) -> Seq<u32> {
    clips.map_values(|c: (u32, Vec<u32>, CurveValueType)| c.0)
}

/// The first bad effect of a sequence, read from the front: one whose id an
/// earlier effect has, or one whose target the layout lacks.
pub open spec fn effect_problem(
    fixtures: Seq<FixtureId>,
    groups: Seq<GroupInstantiationId>,
    effects: Seq<(u32, EffectTarget)>,
) -> Option<LowerError>
    decreases effects.len(),
{
    if effects.len() == 0 {
        None
    } else {
        match effect_problem(fixtures, groups, effects.drop_last()) {
            Some(e) => Some(e),
            None => {
                let e = effects.last();
                if effect_ids(effects.drop_last()).contains(e.0) {
                    Some(LowerError::DuplicateSequenceEffectId { id: e.0 })
                } else {
                    effect_target_problem(fixtures, groups, e.1)
                }
            },
        }
    }
}

/// The first bad automation clip, read from the front: one whose id an
/// earlier clip has, one with a target that is no effect of the sequence, or
/// one whose curve is not a float curve.
pub open spec fn clip_problem(effects: Seq<u32>, clips: Seq<(u32, Vec<u32>, CurveValueType)>) -> Option<
    LowerError,
>
    decreases clips.len(),
{
    if clips.len() == 0 {
        None
    } else {
        match clip_problem(effects, clips.drop_last()) {
            Some(e) => Some(e),
            None => {
                let c = clips.last();
                if clip_ids(clips.drop_last()).contains(c.0) {
                    Some(LowerError::DuplicateAutomationClipId { id: c.0 })
                } else {
                    match first_absent(effects, c.1@) {
                        Some(t) => Some(LowerError::UnknownSequenceEffect { id: t }),
                        None => if c.2 == CurveValueType::Float {
                            None
                        } else {
                            Some(LowerError::AutomationCurveType { id: c.0, actual: c.2 })
                        },
                    }
                }
            },
        }
    }
}

/// What lowering finds wrong with the ids of a sequence: a bad effect first,
/// then a bad automation clip.
pub open spec fn sequence_problem(
    fixtures: Seq<FixtureId>,
    groups: Seq<GroupInstantiationId>,
    effects: Seq<(u32, EffectTarget)>,
    clips: Seq<(u32, Vec<u32>, CurveValueType)>,
) -> Option<LowerError> {
    match effect_problem(fixtures, groups, effects) {
        Some(e) => Some(e),
        None => clip_problem(effect_ids(effects), clips),
    }
}

proof fn lemma_effect_problem_of_prefix(
    fixtures: Seq<FixtureId>,
    groups: Seq<GroupInstantiationId>,
    effects: Seq<(u32, EffectTarget)>,
    m: int,
)
    requires
        0 <= m <= effects.len(),
        effect_problem(fixtures, groups, effects.subrange(0, m)) is Some,
    ensures
        effect_problem(fixtures, groups, effects) == effect_problem(fixtures, groups, effects.subrange(0, m)),
    decreases effects.len() - m,
{
    if m == effects.len() {
        assert(effects.subrange(0, m) =~= effects);
    } else {
        assert(effects.drop_last().subrange(0, m) =~= effects.subrange(0, m));
        lemma_effect_problem_of_prefix(fixtures, groups, effects.drop_last(), m);
    }
}

proof fn lemma_clip_problem_of_prefix(effects: Seq<u32>, clips: Seq<(u32, Vec<u32>, CurveValueType)>, m: int)
    requires
        0 <= m <= clips.len(),
        clip_problem(effects, clips.subrange(0, m)) is Some,
    ensures
        clip_problem(effects, clips) == clip_problem(effects, clips.subrange(0, m)),
    decreases clips.len() - m,
{
    if m == clips.len() {
        assert(clips.subrange(0, m) =~= clips);
    } else {
        assert(clips.drop_last().subrange(0, m) =~= clips.subrange(0, m));
        lemma_clip_problem_of_prefix(effects, clips.drop_last(), m);
    }
}

fn effect_listed_before(effects: &Vec<(u32, EffectTarget)>, end: usize, id: u32) -> (b: bool)
    requires
        end <= effects@.len(),
    ensures
        b == effect_ids(effects@.subrange(0, end as int)).contains(id),
{
    let ghost ids = effect_ids(effects@.subrange(0, end as int));
    let mut k: usize = 0;
    while k < end
        invariant
            k <= end <= effects@.len(),
            ids == effect_ids(effects@.subrange(0, end as int)),
            forall|m: int| 0 <= m < k ==> effects@[m].0 != id,
        decreases end - k,
    {
        if effects[k].0 == id {
            assert(ids[k as int] == id);
            return true;
        }
        k += 1;
    }
    assert forall|m: int| 0 <= m < ids.len() implies ids[m] != id by {
        assert(ids[m] == effects@[m].0);
    }
    false
}

fn clip_listed_before(clips: &Vec<(u32, Vec<u32>, CurveValueType)>, end: usize, id: u32) -> (b: bool)
    requires
        end <= clips@.len(),
    ensures
        b == clip_ids(clips@.subrange(0, end as int)).contains(id),
{
    let ghost ids = clip_ids(clips@.subrange(0, end as int));
    let mut k: usize = 0;
    while k < end
        invariant
            k <= end <= clips@.len(),
            ids == clip_ids(clips@.subrange(0, end as int)),
            forall|m: int| 0 <= m < k ==> clips@[m].0 != id,
        decreases end - k,
    {
        if clips[k].0 == id {
            assert(ids[k as int] == id);
            return true;
        }
        k += 1;
    }
    assert forall|m: int| 0 <= m < ids.len() implies ids[m] != id by {
        assert(ids[m] == clips@[m].0);
    }
    false
}

fn first_unknown_effect(effects: &Vec<(u32, EffectTarget)>, targets: &Vec<u32>) -> (r: Option<u32>)
    ensures
        r == first_absent(effect_ids(effects@), targets@),
{
    let n = targets.len();
    let mut i: usize = 0;
    assert(effects@.subrange(0, effects@.len() as int) =~= effects@);
    while i < n
        invariant
            n == targets@.len(),
            i <= n,
            effects@.subrange(0, effects@.len() as int) == effects@,
            first_absent(effect_ids(effects@), targets@.subrange(0, i as int)) is None,
        decreases n - i,
    {
        let t = targets[i];
        assert(targets@.subrange(0, i + 1).drop_last() =~= targets@.subrange(0, i as int));
        assert(targets@.subrange(0, i + 1).last() == t);
        if !effect_listed_before(effects, effects.len(), t) {
            proof {
                lemma_first_absent_of_prefix(effect_ids(effects@), targets@, (i + 1) as int);
            }
            return Some(t);
        }
        i += 1;
    }
    assert(targets@.subrange(0, n as int) =~= targets@);
    None
}

fn check_effect_target(fixtures: &Vec<FixtureId>, groups: &Vec<GroupInstantiationId>, target: EffectTarget) -> (r:
    Option<LowerError>)
    ensures
        r == effect_target_problem(fixtures@, groups@, target),
{
    match target {
        EffectTarget::Group { id } => if has_group(groups, id) {
            None
        } else {
            Some(LowerError::UnknownGroup { id })
        },
        EffectTarget::Fixture { id } => {
            let found = has_fixture(fixtures, fixtures.len(), id);
            assert(fixtures@.subrange(0, fixtures@.len() as int) =~= fixtures@);
            if found {
                None
            } else {
                Some(LowerError::UnknownFixture { id })
            }
        },
    }
}

/// Checks the ids of a sequence as lowering does, against the `fixtures` and
/// `groups` of its layout: `effects` are the id and target of each effect,
/// `clips` the id, targets and curve value type of each automation clip. The
/// error is the first that lowering meets: an effect id used twice or a
/// target the layout lacks, then a clip id used twice, a clip target that is
/// no effect, or a clip curve that is not a float curve.
pub fn validate_sequence_ids(
    fixtures: &Vec<FixtureId>,
    groups: &Vec<GroupInstantiationId>,
    effects: &Vec<(u32, EffectTarget)>,
    clips: &Vec<(u32, Vec<u32>, CurveValueType)>,
) -> (r: Result<(), LowerError>)
    ensures
        match r {
            Ok(()) => sequence_problem(fixtures@, groups@, effects@, clips@) is None,
            Err(e) => sequence_problem(fixtures@, groups@, effects@, clips@) == Some(e),
        },
{
    let n = effects.len();
    let mut i: usize = 0;
    while i < n
        invariant
            n == effects@.len(),
            i <= n,
            effect_problem(fixtures@, groups@, effects@.subrange(0, i as int)) is None,
        decreases n - i,
    {
        let id = effects[i].0;
        assert(effects@.subrange(0, i + 1).drop_last() =~= effects@.subrange(0, i as int));
        assert(effects@.subrange(0, i + 1).last() == effects@[i as int]);
        if effect_listed_before(effects, i, id) {
            proof {
                lemma_effect_problem_of_prefix(fixtures@, groups@, effects@, (i + 1) as int);
            }
            return Err(LowerError::DuplicateSequenceEffectId { id });
        }
        if let Some(e) = check_effect_target(fixtures, groups, effects[i].1) {
            proof {
                lemma_effect_problem_of_prefix(fixtures@, groups@, effects@, (i + 1) as int);
            }
            return Err(e);
        }
        i += 1;
    }
    assert(effects@.subrange(0, n as int) =~= effects@);
    let m = clips.len();
    let mut j: usize = 0;
    while j < m
        invariant
            m == clips@.len(),
            j <= m,
            effect_problem(fixtures@, groups@, effects@) is None,
            clip_problem(effect_ids(effects@), clips@.subrange(0, j as int)) is None,
        decreases m - j,
    {
        let id = clips[j].0;
        assert(clips@.subrange(0, j + 1).drop_last() =~= clips@.subrange(0, j as int));
        assert(clips@.subrange(0, j + 1).last() == clips@[j as int]);
        if clip_listed_before(clips, j, id) {
            proof {
                lemma_clip_problem_of_prefix(effect_ids(effects@), clips@, (j + 1) as int);
            }
            return Err(LowerError::DuplicateAutomationClipId { id });
        }
        if let Some(t) = first_unknown_effect(effects, &clips[j].1) {
            proof {
                lemma_clip_problem_of_prefix(effect_ids(effects@), clips@, (j + 1) as int);
            }
            return Err(LowerError::UnknownSequenceEffect { id: t });
        }
        let actual = clips[j].2;
        match actual {
            CurveValueType::Float => {},
            CurveValueType::Color => {
                proof {
                    lemma_clip_problem_of_prefix(effect_ids(effects@), clips@, (j + 1) as int);
                }
                return Err(LowerError::AutomationCurveType { id, actual });
            },
        }
        j += 1;
    }
    assert(clips@.subrange(0, m as int) =~= clips@);
    Ok(())
}

} // verus!
