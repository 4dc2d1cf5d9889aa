//! The order in which a sequence is written back after an edit: each mark
//! collection's marks by time, and the effects by start time, then by the
//! lane of their target, then by id, keeping the given order among equals.
use vstd::prelude::*;
use crate::document::timeline::{SequenceMarkCollectionDocument, TimelineEffect};

verus! {

/// The key by which effects are ordered: start time, lane, id.
pub open spec fn effect_sort_key<T, P, S>(e: TimelineEffect<T, P, S>, lane: usize) -> (u64, usize, u32) {
    (e.start_ms, lane, e.id)
}

/// `a` comes before `b` lexicographically.
pub open spec fn key_lt(a: (u64, usize, u32), b: (u64, usize, u32)) -> bool {
    a.0 < b.0 || (a.0 == b.0 && (a.1 < b.1 || (a.1 == b.1 && a.2 < b.2)))
}

/// The entry with key `a` from position `ia` goes before the one with key
/// `b` from position `ib`: a smaller key first, and among equal keys the
/// earlier position first.
pub open spec fn goes_before(a: (u64, usize, u32), ia: int, b: (u64, usize, u32), ib: int) -> bool {
    key_lt(a, b) || (a == b && ia < ib)
}

/// `out` is `input` rearranged, `out[k]` being `input[p[k]]`, in the order of
/// their keys (`lanes` giving each input effect's lane), and among equal keys
/// in their order in `input`.
pub open spec fn is_stable_sort<T, P, S>(
    input: Seq<TimelineEffect<T, P, S>>,
    lanes: Seq<usize>,
    out: Seq<TimelineEffect<T, P, S>>,
    p: Seq<int>,
) -> bool {
    &&& p.len() == out.len()
    &&& forall|k: int| 0 <= k < p.len() ==> 0 <= #[trigger] p[k] < input.len() && out[k] == input[p[k]]
    &&& forall|i: int, j: int|
        #![trigger p[i], p[j]]
        0 <= i < j < p.len() ==> goes_before(
            effect_sort_key(input[p[i]], lanes[p[i]]),
            p[i],
            effect_sort_key(input[p[j]], lanes[p[j]]),
            p[j],
        )
}

fn key_before(a: (u64, usize, u32), b: (u64, usize, u32)) -> (r: bool)
    ensures
        r == key_lt(a, b),
{
    a.0 < b.0 || (a.0 == b.0 && (a.1 < b.1 || (a.1 == b.1 && a.2 < b.2)))
}

proof fn lemma_insert_keeps_order<T, P, S>(
    input: Seq<TimelineEffect<T, P, S>>,
    lanes: Seq<usize>,
    out: Seq<TimelineEffect<T, P, S>>,
    p: Seq<int>,
    pos: int,
    i: int,
)
    requires
        lanes.len() == input.len(),
        0 <= i < input.len(),
        is_stable_sort(input, lanes, out, p),
        forall|k: int| 0 <= k < p.len() ==> p[k] < i,
        0 <= pos <= out.len(),
        forall|j: int|
            0 <= j < pos ==> !key_lt(
                effect_sort_key(input[i], lanes[i]),
                effect_sort_key(input[#[trigger] p[j]], lanes[p[j]]),
            ),
        pos < out.len() ==> key_lt(effect_sort_key(input[i], lanes[i]), effect_sort_key(input[p[pos]], lanes[p[pos]])),
    ensures
        is_stable_sort(input, lanes, out.insert(pos, input[i]), p.insert(pos, i)),
        forall|k: int| 0 <= k < p.insert(pos, i).len() ==> p.insert(pos, i)[k] < i + 1,
{
    let q = p.insert(pos, i);
    let o = out.insert(pos, input[i]);
    let kx = effect_sort_key(input[i], lanes[i]);
    assert forall|k: int| 0 <= k < q.len() implies 0 <= #[trigger] q[k] < input.len() && o[k] == input[q[k]] by {
        if k < pos {
            assert(q[k] == p[k]);
        } else if k > pos {
            assert(q[k] == p[k - 1]);
        }
    }
    assert forall|a: int, b: int|
        #![trigger q[a], q[b]]
        0 <= a < b < q.len() implies goes_before(
        effect_sort_key(input[q[a]], lanes[q[a]]),
        q[a],
        effect_sort_key(input[q[b]], lanes[q[b]]),
        q[b],
    ) by {
        if a < pos && b < pos {
            assert(q[a] == p[a] && q[b] == p[b]);
        } else if a < pos && b == pos {
            assert(q[a] == p[a]);
            assert(!key_lt(kx, effect_sort_key(input[p[a]], lanes[p[a]])));
        } else if a < pos && b > pos {
            assert(q[a] == p[a] && q[b] == p[b - 1]);
        } else if a == pos {
            assert(q[b] == p[b - 1]);
            if b - 1 > pos {
                assert(goes_before(
                    effect_sort_key(input[p[pos]], lanes[p[pos]]),
                    p[pos],
                    effect_sort_key(input[p[b - 1]], lanes[p[b - 1]]),
                    p[b - 1],
                ));
            }
        } else {
            assert(q[a] == p[a - 1] && q[b] == p[b - 1]);
        }
    }
}

/// Orders `effects` by start time, then lane, then id, keeping their order
/// among equal keys; `lanes[i]` is the lane of `effects[i]`, the position of
/// its target in the layout's target order (`usize::MAX` for a target the
/// layout does not order).
pub fn sort_sequence_effects<T, P, S>(effects: Vec<TimelineEffect<T, P, S>>, lanes: &Vec<usize>) -> (r: Vec<
    TimelineEffect<T, P, S>,
>)
    requires
        lanes@.len() == effects@.len(),
    ensures
        r@.len() == effects@.len(),
        exists|p: Seq<int>| is_stable_sort(effects@, lanes@, r@, p),
{
    let ghost input = effects@;
    let n = effects.len();
    let mut rest = effects;
    let mut out: Vec<TimelineEffect<T, P, S>> = Vec::new();
    let mut out_lanes: Vec<usize> = Vec::new();
    let ghost mut p: Seq<int> = seq![];
    let mut i: usize = 0;
    assert(input.subrange(0, n as int) =~= input);
    while i < n
        invariant
            n == input.len(),
            lanes@.len() == n,
            i <= n,
            rest@ == input.subrange(i as int, n as int),
            out@.len() == i,
            out_lanes@.len() == i,
            forall|k: int| 0 <= k < p.len() ==> out_lanes@[k] == lanes@[#[trigger] p[k]],
            is_stable_sort(input, lanes@, out@, p),
            forall|k: int| 0 <= k < p.len() ==> p[k] < i,
        decreases n - i,
    {
        let e = rest.remove(0);
        assert(e == input[i as int]);
        let lane = lanes[i];
        let key = (e.start_ms, lane, e.id);
        let mut pos: usize = 0;
        while pos < out.len() && !key_before(key, (out[pos].start_ms, out_lanes[pos], out[pos].id))
            invariant
                pos <= out@.len(),
                out_lanes@.len() == out@.len(),
                key == effect_sort_key(input[i as int], lanes@[i as int]),
                forall|k: int| 0 <= k < p.len() ==> out_lanes@[k] == lanes@[#[trigger] p[k]],
                is_stable_sort(input, lanes@, out@, p),
                forall|j: int|
                    0 <= j < pos ==> !key_lt(key, effect_sort_key(input[#[trigger] p[j]], lanes@[p[j]])),
            decreases out@.len() - pos,
        {
            assert(out@[pos as int] == input[p[pos as int]]);
            pos += 1;
        }
        proof {
            if pos < out@.len() {
                assert(out@[pos as int] == input[p[pos as int]]);
            }
            lemma_insert_keeps_order(input, lanes@, out@, p, pos as int, i as int);
        }
        out.insert(pos, e);
        out_lanes.insert(pos, lane);
        proof {
            let q = p.insert(pos as int, i as int);
            assert forall|k: int| 0 <= k < q.len() implies out_lanes@[k] == lanes@[#[trigger] q[k]] by {
                if k < pos {
                    assert(q[k] == p[k]);
                } else if k > pos {
                    assert(q[k] == p[k - 1]);
                }
            }
            p = q;
        }
        assert(input.subrange(i + 1, n as int) =~= input.subrange(i as int, n as int).remove(0));
        i += 1;
    }
    out
}

pub open spec fn is_sorted_times(s: Seq<u64>) -> bool {
    forall|i: int, j: int| 0 <= i < j < s.len() ==> s[i] <= s[j]
}

/// `marks` in increasing order.
pub fn sort_marks(marks: Vec<u64>) -> (r: Vec<u64>)
    ensures
        is_sorted_times(r@),
        r@.to_multiset() == marks@.to_multiset(),
{
    let ghost input = marks@;
    let n = marks.len();
    let mut rest = marks;
    let mut out: Vec<u64> = Vec::new();
    let mut i: usize = 0;
    assert(input.subrange(0, n as int) =~= input);
    assert(input.subrange(0, 0) =~= Seq::<u64>::empty());
    while i < n
        invariant
            n == input.len(),
            i <= n,
            rest@ == input.subrange(i as int, n as int),
            is_sorted_times(out@),
            out@.to_multiset() == input.subrange(0, i as int).to_multiset(),
        decreases n - i,
    {
        let m = rest.remove(0);
        assert(m == input[i as int]);
        let mut pos: usize = 0;
        while pos < out.len() && out[pos] <= m
            invariant
                pos <= out@.len(),
                is_sorted_times(out@),
                forall|j: int| 0 <= j < pos ==> out@[j] <= m,
            decreases out@.len() - pos,
        {
            pos += 1;
        }
        let ghost before = out@;
        out.insert(pos, m);
        proof {
            vstd::seq_lib::to_multiset_insert(before, pos as int, m);
            assert(input.subrange(0, i + 1) =~= input.subrange(0, i as int).push(m));
            vstd::seq_lib::to_multiset_build(input.subrange(0, i as int), m);
            assert forall|a: int, b: int| 0 <= a < b < out@.len() implies out@[a] <= out@[b] by {
                if a < pos && b > pos {
                    assert(out@[b] == before[b - 1]);
                    if b - 1 >= pos && pos < before.len() {
                        assert(before[pos as int] <= before[b - 1]);
                    }
                } else if a > pos {
                    assert(out@[a] == before[a - 1] && out@[b] == before[b - 1]);
                } else if a == pos && b > pos {
                    assert(out@[b] == before[b - 1]);
                    assert(before[pos as int] <= before[b - 1]);
                }
            }
        }
        assert(input.subrange(i + 1, n as int) =~= input.subrange(i as int, n as int).remove(0));
        i += 1;
    }
    out
}

/// The mark collections `collections`, each with its marks in increasing
/// order and all else as it was.
pub fn sort_sequence_mark_collections(collections: Vec<SequenceMarkCollectionDocument>) -> (r: Vec<
    SequenceMarkCollectionDocument,
>)
    ensures
        r@.len() == collections@.len(),
        forall|k: int|
            0 <= k < r@.len() ==> {
                &&& (#[trigger] r@[k]).key == collections@[k].key
                &&& r@[k].name == collections@[k].name
                &&& r@[k].color == collections@[k].color
                &&& is_sorted_times(r@[k].marks_ms@)
                &&& r@[k].marks_ms@.to_multiset() == collections@[k].marks_ms@.to_multiset()
            },
{
    let ghost input = collections@;
    let n = collections.len();
    let mut rest = collections;
    let mut out: Vec<SequenceMarkCollectionDocument> = Vec::new();
    let mut i: usize = 0;
    assert(input.subrange(0, n as int) =~= input);
    while i < n
        invariant
            n == input.len(),
            i <= n,
            rest@ == input.subrange(i as int, n as int),
            out@.len() == i,
            forall|k: int|
                0 <= k < i ==> {
                    &&& (#[trigger] out@[k]).key == input[k].key
                    &&& out@[k].name == input[k].name
                    &&& out@[k].color == input[k].color
                    &&& is_sorted_times(out@[k].marks_ms@)
                    &&& out@[k].marks_ms@.to_multiset() == input[k].marks_ms@.to_multiset()
                },
        decreases n - i,
    {
        let c = rest.remove(0);
        assert(c == input[i as int]);
        let SequenceMarkCollectionDocument { key, name, color, marks_ms } = c;
        out.push(SequenceMarkCollectionDocument { key, name, color, marks_ms: sort_marks(marks_ms) });
        assert(input.subrange(i + 1, n as int) =~= input.subrange(i as int, n as int).remove(0));
        i += 1;
    }
    out
}

} // verus!
