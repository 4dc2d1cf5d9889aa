//! The catalogs that editors offer: the effect scripts that a sequence can
//! use, one entry per script file ordered by name and then by path; and the
//! order of the fixture catalog.
use vstd::prelude::*;
use crate::document::blocks::key_before;
use crate::document::inspect::SequenceEffectScriptDocument;
use crate::text::{chars_of, str_eq};

verus! {

proof fn lemma_key_before_irreflexive(a: Seq<char>)
    ensures
        !key_before(a, a),
    decreases a.len(),
{
    if a.len() > 0 {
        lemma_key_before_irreflexive(a.drop_first());
    }
}

proof fn lemma_key_before_transitive(a: Seq<char>, b: Seq<char>, c: Seq<char>)
    requires
        key_before(a, b),
        key_before(b, c),
    ensures
        key_before(a, c),
    decreases a.len(),
{
    if a.len() > 0 && b.len() > 0 && c.len() > 0 && a[0] == b[0] && b[0] == c[0] {
        lemma_key_before_transitive(a.drop_first(), b.drop_first(), c.drop_first());
    }
}

proof fn lemma_key_before_total(a: Seq<char>, b: Seq<char>)
    requires
        a != b,
    ensures
        key_before(a, b) || key_before(b, a),
    decreases a.len(),
{
    if a.len() == 0 && b.len() == 0 {
        assert(a =~= b);
    } else if a.len() > 0 && b.len() > 0 && a[0] == b[0] {
        if a.drop_first() == b.drop_first() {
            assert(a =~= seq![a[0]] + a.drop_first());
            assert(b =~= seq![b[0]] + b.drop_first());
        } else {
            lemma_key_before_total(a.drop_first(), b.drop_first());
        }
    }
}

/// `a` comes before `b` in the list: by name, then by path.
pub open spec fn script_before(a: SequenceEffectScriptDocument, b: SequenceEffectScriptDocument) -> bool {
    key_before(a.name@, b.name@) || (a.name@ == b.name@ && key_before(a.path@, b.path@))
}

proof fn lemma_script_before_transitive(
    a: SequenceEffectScriptDocument,
    b: SequenceEffectScriptDocument,
    c: SequenceEffectScriptDocument,
)
    requires
        script_before(a, b),
        script_before(b, c),
    ensures
        script_before(a, c),
{
    if key_before(a.name@, b.name@) && key_before(b.name@, c.name@) {
        lemma_key_before_transitive(a.name@, b.name@, c.name@);
    } else if a.name@ == b.name@ && b.name@ == c.name@ {
        lemma_key_before_transitive(a.path@, b.path@, c.path@);
    }
}

proof fn lemma_script_before_total(a: SequenceEffectScriptDocument, b: SequenceEffectScriptDocument)
    requires
        a.path@ != b.path@,
    ensures
        script_before(a, b) || script_before(b, a),
{
    if a.name@ != b.name@ {
        lemma_key_before_total(a.name@, b.name@);
    } else {
        lemma_key_before_total(a.path@, b.path@);
    }
}

proof fn lemma_script_before_asymmetric(a: SequenceEffectScriptDocument, b: SequenceEffectScriptDocument)
    requires
        script_before(a, b),
    ensures
        !script_before(b, a),
{
    if script_before(b, a) {
        lemma_script_before_transitive(a, b, a);
        lemma_key_before_irreflexive(a.name@);
        lemma_key_before_irreflexive(a.path@);
    }
}

/// Whether some entry of `s` has the path `path`.
pub open spec fn has_path(s: Seq<SequenceEffectScriptDocument>, path: Seq<char>) -> bool {
    exists|j: int| 0 <= j < s.len() && (#[trigger] s[j]).path@ == path
}

/// The entries of `s` whose path no earlier entry has, in order.
pub open spec fn first_per_path(s: Seq<SequenceEffectScriptDocument>) -> Seq<SequenceEffectScriptDocument>
    decreases s.len(),
{
    if s.len() == 0 {
        s
    } else if has_path(s.drop_last(), s.last().path@) {
        first_per_path(s.drop_last())
    } else {
        first_per_path(s.drop_last()).push(s.last())
    }
}

/// `s` is in strictly increasing order.
pub open spec fn catalog_sorted(s: Seq<SequenceEffectScriptDocument>) -> bool {
    forall|i: int, j: int| 0 <= i < j < s.len() ==> script_before(#[trigger] s[i], #[trigger] s[j])
}

fn text_before(a: &str, b: &str) -> (r: bool)
    ensures
        r == key_before(a@, b@),
{
    let x = chars_of(a);
    let y = chars_of(b);
    let mut i: usize = 0;
    assert(a@.subrange(0, a@.len() as int) =~= a@);
    assert(b@.subrange(0, b@.len() as int) =~= b@);
    while i < x.len() && i < y.len()
        invariant
            x@ == a@,
            y@ == b@,
            i <= x@.len(),
            i <= y@.len(),
            key_before(a@, b@) == key_before(a@.subrange(i as int, a@.len() as int), b@.subrange(i as int, b@.len() as int)),
        decreases x@.len() - i,
    {
        let ghost sa = a@.subrange(i as int, a@.len() as int);
        let ghost sb = b@.subrange(i as int, b@.len() as int);
        assert(sa[0] == x@[i as int] && sb[0] == y@[i as int]);
        if x[i] != y[i] {
            return x[i] < y[i];
        }
        assert(sa.drop_first() =~= a@.subrange(i + 1, a@.len() as int));
        assert(sb.drop_first() =~= b@.subrange(i + 1, b@.len() as int));
        i += 1;
    }
    i < y.len()
}

fn entry_before(a: &SequenceEffectScriptDocument, b: &SequenceEffectScriptDocument) -> (r: bool)
    ensures
        r == script_before(*a, *b),
{
    text_before(a.name.as_str(), b.name.as_str()) || (str_eq(a.name.as_str(), b.name.as_str())
        && text_before(a.path.as_str(), b.path.as_str()))
}

fn find_path(out: &Vec<SequenceEffectScriptDocument>, path: &str) -> (r: bool)
    ensures
        r == has_path(out@, path@),
{
    let mut k: usize = 0;
    while k < out.len()
        invariant
            k <= out@.len(),
            forall|j: int| 0 <= j < k ==> out@[j].path@ != path@,
        decreases out@.len() - k,
    {
        if str_eq(out[k].path.as_str(), path) {
            assert(out@[k as int].path@ == path@);
            return true;
        }
        k += 1;
    }
    false
}

proof fn lemma_first_per_path_paths(s: Seq<SequenceEffectScriptDocument>, path: Seq<char>)
    ensures
        has_path(first_per_path(s), path) == has_path(s, path),
    decreases s.len(),
{
    if s.len() > 0 {
        let init = s.drop_last();
        lemma_first_per_path_paths(init, path);
        let d = first_per_path(init);
        if has_path(s, path) {
            let j = choose|j: int| 0 <= j < s.len() && (#[trigger] s[j]).path@ == path;
            if j < s.len() - 1 {
                assert(init[j].path@ == path);
            }
        }
        if has_path(init, path) {
            let j = choose|j: int| 0 <= j < init.len() && (#[trigger] init[j]).path@ == path;
            assert(s[j].path@ == path);
        }
        if !has_path(init, s.last().path@) {
            if has_path(d, path) {
                let j = choose|j: int| 0 <= j < d.len() && (#[trigger] d[j]).path@ == path;
                assert(d.push(s.last())[j].path@ == path);
            }
            if path == s.last().path@ {
                assert(d.push(s.last())[d.len() as int].path@ == path);
            }
            if has_path(d.push(s.last()), path) && path != s.last().path@ {
                let j = choose|j: int| 0 <= j < d.len() + 1 && (#[trigger] d.push(s.last())[j]).path@ == path;
                assert(d[j].path@ == path);
            }
        } else {
            if path == s.last().path@ {
                let j = choose|j: int| 0 <= j < init.len() && (#[trigger] init[j]).path@ == path;
                assert(s[j].path@ == path);
            }
        }
    }
}

/// The scripts that a sequence can use, from the compiled scripts `entries`
/// found in the workspace (in listing order): one entry per path, the first
/// found, ordered by name and then by path.
pub fn script_catalog(entries: Vec<SequenceEffectScriptDocument>) -> (r: Vec<SequenceEffectScriptDocument>)
    ensures
        r@.to_multiset() == first_per_path(entries@).to_multiset(),
        catalog_sorted(r@),
{
    let ghost input = entries@;
    let n = entries.len();
    let mut rest = entries;
    let mut out: Vec<SequenceEffectScriptDocument> = Vec::new();
    let mut i: usize = 0;
    assert(input.subrange(0, 0) =~= Seq::<SequenceEffectScriptDocument>::empty());
    while i < n
        invariant
            n == input.len(),
            i <= n,
            rest@ == input.subrange(i as int, n as int),
            catalog_sorted(out@),
            out@.to_multiset() == first_per_path(input.subrange(0, i as int)).to_multiset(),
            forall|p: Seq<char>| #[trigger] has_path(out@, p) == has_path(input.subrange(0, i as int), p),
        decreases n - i,
    {
        let ghost prefix = input.subrange(0, i as int);
        let ghost next = input.subrange(0, i + 1);
        let m = rest.remove(0);
        assert(m == input[i as int]);
        assert(next =~= prefix.push(m));
        assert(next.drop_last() =~= prefix);
        assert(next.last() == m);
        if find_path(&out, m.path.as_str()) {
            proof {
                assert(first_per_path(next) == first_per_path(prefix));
                assert forall|p: Seq<char>| #[trigger] has_path(out@, p) == has_path(next, p) by {
                    if has_path(next, p) && !has_path(prefix, p) {
                        let j = choose|j: int| 0 <= j < next.len() && (#[trigger] next[j]).path@ == p;
                        if j < prefix.len() {
                            assert(prefix[j].path@ == p);
                        } else {
                            assert(p == m.path@);
                            assert(has_path(out@, m.path@));
                        }
                    }
                    if has_path(prefix, p) {
                        let j = choose|j: int| 0 <= j < prefix.len() && (#[trigger] prefix[j]).path@ == p;
                        assert(next[j].path@ == p);
                    }
                }
            }
        } else {
            let mut pos: usize = 0;
            while pos < out.len() && !entry_before(&m, &out[pos])
                invariant
                    pos <= out@.len(),
                    forall|j: int| 0 <= j < pos ==> !script_before(m, #[trigger] out@[j]),
                decreases out@.len() - pos,
            {
                pos += 1;
            }
            let ghost before = out@;
            proof {
                assert(!has_path(before, m.path@));
                assert forall|j: int| 0 <= j < before.len() implies (#[trigger] before[j]).path@ != m.path@ by {
                    if before[j].path@ == m.path@ {
                        assert(has_path(before, m.path@));
                    }
                }
            }
            out.insert(pos, m);
            proof {
                vstd::seq_lib::to_multiset_insert(before, pos as int, m);
                vstd::seq_lib::to_multiset_build(first_per_path(prefix), m);
                assert(first_per_path(next) == first_per_path(prefix).push(m));
                assert forall|a: int, b: int| 0 <= a < b < out@.len() implies script_before(
                    #[trigger] out@[a],
                    #[trigger] out@[b],
                ) by {
                    if a < pos && b == pos {
                        lemma_script_before_total(before[a], m);
                    } else if a < pos && b > pos {
                        assert(out@[b] == before[b - 1]);
                        assert(script_before(before[a], before[b - 1]));
                    } else if a == pos && b > pos {
                        assert(out@[b] == before[b - 1]);
                        if b - 1 > pos {
                            assert(script_before(before[pos as int], before[b - 1]));
                            lemma_script_before_transitive(m, before[pos as int], before[b - 1]);
                        }
                    } else if a > pos {
                        assert(out@[a] == before[a - 1]);
                        assert(out@[b] == before[b - 1]);
                    }
                }
                assert forall|p: Seq<char>| #[trigger] has_path(out@, p) == has_path(next, p) by {
                    assert(has_path(before, p) == has_path(prefix, p));
                    if has_path(prefix, p) {
                        let k = choose|k: int| 0 <= k < prefix.len() && (#[trigger] prefix[k]).path@ == p;
                        assert(next[k].path@ == p);
                    }
                    if has_path(out@, p) {
                        let j = choose|j: int| 0 <= j < out@.len() && (#[trigger] out@[j]).path@ == p;
                        if j < pos {
                            assert(before[j].path@ == p);
                        } else if j > pos {
                            assert(before[j - 1].path@ == p);
                        } else {
                            assert(next[i as int].path@ == p);
                        }
                    }
                    if has_path(next, p) {
                        let j = choose|j: int| 0 <= j < next.len() && (#[trigger] next[j]).path@ == p;
                        if j < prefix.len() {
                            assert(prefix[j].path@ == p);
                            assert(has_path(before, p));
                            let k = choose|k: int| 0 <= k < before.len() && (#[trigger] before[k]).path@ == p;
                            if k < pos {
                                assert(out@[k].path@ == p);
                            } else {
                                assert(out@[k + 1].path@ == p);
                            }
                        } else {
                            assert(out@[pos as int].path@ == p);
                        }
                    }
                }
            }
        }
        i += 1;
    }
    assert(input.subrange(0, n as int) =~= input);
    out
}

/// The triple `a` comes before `b`: by its first text, then its second, then
/// its third.
pub open spec fn triple_before(a: (Seq<char>, Seq<char>, Seq<char>), b: (Seq<char>, Seq<char>, Seq<char>)) -> bool {
    key_before(a.0, b.0) || (a.0 == b.0 && (key_before(a.1, b.1) || (a.1 == b.1 && key_before(a.2, b.2))))
}

proof fn lemma_triple_transitive(
    a: (Seq<char>, Seq<char>, Seq<char>),
    b: (Seq<char>, Seq<char>, Seq<char>),
    c: (Seq<char>, Seq<char>, Seq<char>),
)
    requires
        triple_before(a, b),
        triple_before(b, c),
    ensures
        triple_before(a, c),
{
    if key_before(a.0, b.0) && key_before(b.0, c.0) {
        lemma_key_before_transitive(a.0, b.0, c.0);
    } else if a.0 == b.0 && b.0 == c.0 {
        if key_before(a.1, b.1) && key_before(b.1, c.1) {
            lemma_key_before_transitive(a.1, b.1, c.1);
        } else if a.1 == b.1 && b.1 == c.1 {
            lemma_key_before_transitive(a.2, b.2, c.2);
        }
    }
}

proof fn lemma_triple_total(a: (Seq<char>, Seq<char>, Seq<char>), b: (Seq<char>, Seq<char>, Seq<char>))
    requires
        a != b,
    ensures
        triple_before(a, b) || triple_before(b, a),
{
    if a.0 != b.0 {
        lemma_key_before_total(a.0, b.0);
    } else if a.1 != b.1 {
        lemma_key_before_total(a.1, b.1);
    } else {
        lemma_key_before_total(a.2, b.2);
    }
}

pub open spec fn triples_view(keys: Seq<(String, String, String)>) -> Seq<(Seq<char>, Seq<char>, Seq<char>)> {
    keys.map_values(|k: (String, String, String)| (k.0@, k.1@, k.2@))
}

/// `order` lists each position of `keys` once, by their keys, and among
/// equal keys by position.
pub open spec fn is_stable_order(keys: Seq<(Seq<char>, Seq<char>, Seq<char>)>, order: Seq<usize>) -> bool {
    &&& order.len() == keys.len()
    &&& order.no_duplicates()
    &&& forall|k: int| 0 <= k < order.len() ==> (#[trigger] order[k]) < keys.len()
    &&& forall|a: int, b: int|
        0 <= a < b < order.len() ==> triple_before(keys[#[trigger] order[a] as int], keys[#[trigger] order[b] as int])
            || (keys[order[a] as int] == keys[order[b] as int] && order[a] < order[b])
}

fn triple_before_exec(a: &(String, String, String), b: &(String, String, String)) -> (r: bool)
    ensures
        r == triple_before((a.0@, a.1@, a.2@), (b.0@, b.1@, b.2@)),
{
    text_before(a.0.as_str(), b.0.as_str()) || (str_eq(a.0.as_str(), b.0.as_str()) && (text_before(
        a.1.as_str(),
        b.1.as_str(),
    ) || (str_eq(a.1.as_str(), b.1.as_str()) && text_before(a.2.as_str(), b.2.as_str()))))
}

/// The order in which the fixture catalog lists its items, given each item's
/// display name, source path and object key: by those, in that order, and
/// among equal ones as they came.
pub fn fixture_catalog_order(keys: &Vec<(String, String, String)>) -> (r: Vec<usize>)
    ensures
        is_stable_order(triples_view(keys@), r@),
{
    let ghost tv = triples_view(keys@);
    let n = keys.len();
    let mut out: Vec<usize> = Vec::new();
    let mut i: usize = 0;
    while i < n
        invariant
            n == keys@.len(),
            tv == triples_view(keys@),
            i <= n,
            out@.len() == i,
            out@.no_duplicates(),
            forall|k: int| 0 <= k < out@.len() ==> (#[trigger] out@[k]) < i,
            forall|a: int, b: int|
                0 <= a < b < out@.len() ==> triple_before(tv[#[trigger] out@[a] as int], tv[#[trigger] out@[b] as int])
                    || (tv[out@[a] as int] == tv[out@[b] as int] && out@[a] < out@[b]),
        decreases n - i,
    {
        let mut pos: usize = 0;
        while pos < out.len() && !triple_before_exec(&keys[i], &keys[out[pos]])
            invariant
                pos <= out@.len(),
                i < n,
                n == keys@.len(),
                tv == triples_view(keys@),
                forall|k: int| 0 <= k < out@.len() ==> (#[trigger] out@[k]) < i,
                forall|j: int| 0 <= j < pos ==> !triple_before(tv[i as int], tv[#[trigger] out@[j] as int]),
            decreases out@.len() - pos,
        {
            proof {
                assert(tv[i as int] == (keys@[i as int].0@, keys@[i as int].1@, keys@[i as int].2@));
                assert(tv[out@[pos as int] as int] == (
                    keys@[out@[pos as int] as int].0@,
                    keys@[out@[pos as int] as int].1@,
                    keys@[out@[pos as int] as int].2@,
                ));
            }
            pos += 1;
        }
        proof {
            if pos < out@.len() {
                assert(tv[i as int] == (keys@[i as int].0@, keys@[i as int].1@, keys@[i as int].2@));
                assert(tv[out@[pos as int] as int] == (
                    keys@[out@[pos as int] as int].0@,
                    keys@[out@[pos as int] as int].1@,
                    keys@[out@[pos as int] as int].2@,
                ));
            }
        }
        let ghost before = out@;
        out.insert(pos, i);
        proof {
            let x = tv[i as int];
            assert forall|a: int, b: int| 0 <= a < b < out@.len() implies triple_before(
                tv[#[trigger] out@[a] as int],
                tv[#[trigger] out@[b] as int],
            ) || (tv[out@[a] as int] == tv[out@[b] as int] && out@[a] < out@[b]) by {
                if a < pos && b == pos {
                    let y = tv[before[a] as int];
                    if x != y {
                        lemma_triple_total(x, y);
                    }
                } else if a < pos && b > pos {
                    assert(out@[b] == before[b - 1]);
                } else if a == pos && b > pos {
                    assert(out@[b] == before[b - 1]);
                    let z = tv[before[pos as int] as int];
                    assert(triple_before(x, z));
                    if b - 1 > pos {
                        let w = tv[before[b - 1] as int];
                        if triple_before(z, w) {
                            lemma_triple_transitive(x, z, w);
                        }
                    }
                } else if a > pos {
                    assert(out@[a] == before[a - 1]);
                    assert(out@[b] == before[b - 1]);
                }
            }
            assert forall|k: int| 0 <= k < out@.len() implies (#[trigger] out@[k]) < i + 1 by {
                if k < pos {
                    assert(out@[k] == before[k]);
                } else if k > pos {
                    assert(out@[k] == before[k - 1]);
                }
            }
            assert forall|a: int, b: int| 0 <= a < out@.len() && 0 <= b < out@.len() && a != b implies out@[a]
                != out@[b] by {
                if a != pos && b != pos {
                    let aa = if a < pos { a } else { a - 1 };
                    let bb = if b < pos { b } else { b - 1 };
                    assert(out@[a] == before[aa]);
                    assert(out@[b] == before[bb]);
                } else if a == pos {
                    let bb = if b < pos { b } else { b - 1 };
                    assert(out@[b] == before[bb]);
                } else {
                    let aa = if a < pos { a } else { a - 1 };
                    assert(out@[a] == before[aa]);
                }
            }
        }
        i += 1;
    }
    out
}

} // verus!
