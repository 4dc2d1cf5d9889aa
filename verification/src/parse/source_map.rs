//! Paths into a YAML document and the map from each path to where its key and
//! value are written.
use vstd::prelude::*;
use crate::diagnostics::TextRange;
use crate::text::str_eq;

verus! {

/// One step of a path into a YAML document: a mapping key or a sequence index.
#[derive(Debug, Clone, PartialEq, Eq, Hash)]
pub enum YamlPathSegment {
    Field(String),
    Index(usize),
}

pub enum SegmentView {
    Field(Seq<char>),
    Index(usize),
}

impl View for YamlPathSegment {
    type V = SegmentView;

    open spec fn view(&self) -> SegmentView {
        match self {
            YamlPathSegment::Field(f) => SegmentView::Field(f@),
            YamlPathSegment::Index(i) => SegmentView::Index(*i),
        }
    }
}

pub open spec fn segments_view(s: Seq<YamlPathSegment>) -> Seq<SegmentView> {
    s.map_values(|seg: YamlPathSegment| seg@)
}

/// A path from the root of a YAML document to one of its nodes.
#[derive(Debug, Clone, PartialEq, Eq, Hash)]
pub struct YamlPath(Vec<YamlPathSegment>);

impl View for YamlPath {
    type V = Seq<SegmentView>;

    closed spec fn view(&self) -> Seq<SegmentView> {
        segments_view(self.0@)
    }
}

fn clone_segment(s: &YamlPathSegment) -> (c: YamlPathSegment)
    ensures
        c@ == s@,
{
    match s {
        YamlPathSegment::Field(f) => YamlPathSegment::Field(f.clone()),
        YamlPathSegment::Index(i) => YamlPathSegment::Index(*i),
    }
}

fn segment_eq(a: &YamlPathSegment, b: &YamlPathSegment) -> (r: bool)
    ensures
        r == (a@ == b@),
{
    match (a, b) {
        (YamlPathSegment::Field(x), YamlPathSegment::Field(y)) => str_eq(x.as_str(), y.as_str()),
        (YamlPathSegment::Index(x), YamlPathSegment::Index(y)) => *x == *y,
        _ => false,
    }
}

impl YamlPath {
    /// The path of the document's root node.
    pub fn root() -> (p: Self)
        ensures
            p@ == Seq::<SegmentView>::empty(),
    {
        let p = YamlPath(Vec::new());
        assert(p@ =~= Seq::<SegmentView>::empty());
        p
    }

    /// This path followed by the mapping key `field`.
    pub fn field(self, field: String) -> (p: Self)
        ensures
            p@ == self@.push(SegmentView::Field(field@)),
    {
        let mut v = self.0;
        v.push(YamlPathSegment::Field(field));
        let p = YamlPath(v);
        assert(p@ =~= self@.push(SegmentView::Field(field@)));
        p
    }

    /// This path followed by the sequence index `index`.
    pub fn index(self, index: usize) -> (p: Self)
        ensures
            p@ == self@.push(SegmentView::Index(index)),
    {
        let mut v = self.0;
        v.push(YamlPathSegment::Index(index));
        let p = YamlPath(v);
        assert(p@ =~= self@.push(SegmentView::Index(index)));
        p
    }

    /// A copy of this path.
    pub fn duplicate(&self) -> (p: Self)
        ensures
            p@ == self@,
    {
        let mut v: Vec<YamlPathSegment> = Vec::new();
        let mut i: usize = 0;
        while i < self.0.len()
            invariant
                i <= self.0@.len(),
                v@.len() == i,
                segments_view(v@) =~= segments_view(self.0@.subrange(0, i as int)),
            decreases self.0@.len() - i,
        {
            let seg = clone_segment(&self.0[i]);
            let ghost before = v@;
            v.push(seg);
            proof {
                assert forall|j: int| 0 <= j <= i implies #[trigger] segments_view(v@)[j] == segments_view(
                    self.0@.subrange(0, i + 1),
                )[j] by {
                    if j < i {
                        assert(segments_view(before)[j] == segments_view(self.0@.subrange(0, i as int))[j]);
                        assert(v@[j] == before[j]);
                    }
                }
            }
            i += 1;
        }
        assert(self.0@.subrange(0, self.0@.len() as int) =~= self.0@);
        YamlPath(v)
    }

    /// A copy of this path followed by the mapping key `field`.
    pub fn push_field(&self, field: String) -> (p: Self)
        ensures
            p@ == self@.push(SegmentView::Field(field@)),
    {
        self.duplicate().field(field)
    }

    /// A copy of this path followed by the sequence index `index`.
    pub fn push_index(&self, index: usize) -> (p: Self)
        ensures
            p@ == self@.push(SegmentView::Index(index)),
    {
        self.duplicate().index(index)
    }

    /// Whether two paths are the same.
    pub fn same_as(&self, other: &YamlPath) -> (r: bool)
        ensures
            r == (self@ == other@),
    {
        if self.0.len() != other.0.len() {
            proof {
                assert(self@.len() != other@.len());
            }
            return false;
        }
        let mut i: usize = 0;
        while i < self.0.len()
            invariant
                self.0@.len() == other.0@.len(),
                i <= self.0@.len(),
                forall|j: int| 0 <= j < i ==> #[trigger] self.0@[j]@ == other.0@[j]@,
            decreases self.0@.len() - i,
        {
            if !segment_eq(&self.0[i], &other.0[i]) {
                proof {
                    assert(self@[i as int] != other@[i as int]);
                }
                return false;
            }
            i += 1;
        }
        proof {
            assert(self@ =~= other@);
        }
        true
    }
}

/// Where a node is written: its key, for a mapping entry, and its value.
#[derive(Debug, Clone, Copy, PartialEq, Eq, Structural)]
pub struct YamlSourceRange {
    pub key_range: Option<TextRange>,
    pub value_range: TextRange,
}

/// The ranges of the nodes of a YAML document, by path.
#[derive(Debug)]
pub struct YamlSourceMap {
    ranges: Vec<(YamlPath, YamlSourceRange)>,
}

/// The map that a list of entries gives, a later entry for a path replacing an
/// earlier one.
pub open spec fn entries_map(es: Seq<(Seq<SegmentView>, YamlSourceRange)>) -> Map<Seq<SegmentView>, YamlSourceRange>
    decreases es.len(),
{
    if es.len() == 0 {
        Map::empty()
    } else {
        entries_map(es.drop_last()).insert(es.last().0, es.last().1)
    }
}

pub open spec fn entries_view(es: Seq<(YamlPath, YamlSourceRange)>) -> Seq<(Seq<SegmentView>, YamlSourceRange)> {
    es.map_values(|e: (YamlPath, YamlSourceRange)| (e.0@, e.1))
}

pub open spec fn distinct_paths(es: Seq<(Seq<SegmentView>, YamlSourceRange)>) -> bool {
    forall|i: int, j: int| 0 <= i < j < es.len() ==> es[i].0 != es[j].0
}

proof fn lemma_entries_map(es: Seq<(Seq<SegmentView>, YamlSourceRange)>)
    requires
        distinct_paths(es),
    ensures
        forall|p: Seq<SegmentView>| #[trigger] entries_map(es).contains_key(p) <==> exists|i: int| 0 <= i < es.len() && es[i].0 == p,
        forall|i: int| 0 <= i < es.len() ==> #[trigger] entries_map(es)[es[i].0] == es[i].1,
    decreases es.len(),
{
    if es.len() > 0 {
        let rest = es.drop_last();
        let last = es.last();
        assert forall|i: int, j: int| 0 <= i < j < rest.len() implies rest[i].0 != rest[j].0 by {
            assert(rest[i] == es[i]);
            assert(rest[j] == es[j]);
        }
        lemma_entries_map(rest);
        assert forall|p: Seq<SegmentView>| #[trigger] entries_map(es).contains_key(p) <==> exists|i: int| 0 <= i < es.len() && es[i].0 == p by {
            if entries_map(es).contains_key(p) {
                if p == last.0 {
                    assert(es[es.len() - 1].0 == p);
                } else {
                    assert(entries_map(rest).contains_key(p));
                    let i = choose|i: int| 0 <= i < rest.len() && rest[i].0 == p;
                    assert(es[i] == rest[i]);
                }
            }
            if exists|i: int| 0 <= i < es.len() && es[i].0 == p {
                let i = choose|i: int| 0 <= i < es.len() && es[i].0 == p;
                if i < es.len() - 1 {
                    assert(rest[i] == es[i]);
                    assert(entries_map(rest).contains_key(p));
                }
            }
        }
        assert forall|i: int| 0 <= i < es.len() implies #[trigger] entries_map(es)[es[i].0] == es[i].1 by {
            if i < es.len() - 1 {
                assert(rest[i] == es[i]);
                assert(es[i].0 != last.0);
                assert(entries_map(rest)[rest[i].0] == rest[i].1);
            }
        }
    }
}

proof fn lemma_entries_update(es: Seq<(Seq<SegmentView>, YamlSourceRange)>, i: int, r: YamlSourceRange)
    requires
        distinct_paths(es),
        0 <= i < es.len(),
    ensures
        distinct_paths(es.update(i, (es[i].0, r))),
        entries_map(es.update(i, (es[i].0, r))) == entries_map(es).insert(es[i].0, r),
{
    let u = es.update(i, (es[i].0, r));
    assert forall|a: int, b: int| 0 <= a < b < u.len() implies u[a].0 != u[b].0 by {
        assert(u[a].0 == es[a].0);
        assert(u[b].0 == es[b].0);
    }
    lemma_entries_map(es);
    lemma_entries_map(u);
    let m = entries_map(es).insert(es[i].0, r);
    assert forall|q: Seq<SegmentView>| #[trigger] entries_map(u).contains_key(q) <==> m.contains_key(q) by {
        if entries_map(u).contains_key(q) {
            let j = choose|j: int| 0 <= j < u.len() && u[j].0 == q;
            assert(es[j].0 == q);
        }
        if m.contains_key(q) && q != es[i].0 {
            let j = choose|j: int| 0 <= j < es.len() && es[j].0 == q;
            assert(u[j].0 == q);
        }
        if q == es[i].0 {
            assert(u[i].0 == q);
        }
    }
    assert forall|q: Seq<SegmentView>| #[trigger] entries_map(u).contains_key(q) implies entries_map(u)[q] == m[q] by {
        let j = choose|j: int| 0 <= j < u.len() && u[j].0 == q;
        assert(entries_map(u)[u[j].0] == u[j].1);
        if j != i {
            assert(entries_map(es)[es[j].0] == es[j].1);
        }
    }
    assert(entries_map(u) =~= m);
}

/// `m` after a node at `path` is written at `range`: its value range set, its
/// key range kept.
pub open spec fn map_insert_value(
    m: Map<Seq<SegmentView>, YamlSourceRange>,
    path: Seq<SegmentView>,
    range: TextRange,
) -> Map<Seq<SegmentView>, YamlSourceRange> {
    if m.contains_key(path) {
        m.insert(path, YamlSourceRange { key_range: m[path].key_range, value_range: range })
    } else {
        m.insert(path, YamlSourceRange { key_range: None, value_range: range })
    }
}

/// `m` after the key of the node at `path` is found at `range`; nothing
/// changes for a path not in `m`.
pub open spec fn map_insert_key(
    m: Map<Seq<SegmentView>, YamlSourceRange>,
    path: Seq<SegmentView>,
    range: TextRange,
) -> Map<Seq<SegmentView>, YamlSourceRange> {
    if m.contains_key(path) {
        m.insert(path, YamlSourceRange { key_range: Some(range), value_range: m[path].value_range })
    } else {
        m
    }
}

impl View for YamlSourceMap {
    type V = Map<Seq<SegmentView>, YamlSourceRange>;

    closed spec fn view(&self) -> Map<Seq<SegmentView>, YamlSourceRange> {
        entries_map(entries_view(self.ranges@))
    }
}

impl YamlSourceMap {
    #[verifier::type_invariant]
    closed spec fn paths_distinct(self) -> bool {
        distinct_paths(entries_view(self.ranges@))
    }

    /// A map with no paths.
    pub fn new() -> (m: Self)
        ensures
            m@ == Map::<Seq<SegmentView>, YamlSourceRange>::empty(),
    {
        let m = YamlSourceMap { ranges: Vec::new() };
        assert(entries_view(m.ranges@) =~= Seq::<(Seq<SegmentView>, YamlSourceRange)>::empty());
        m
    }

    fn position(&self, path: &YamlPath) -> (r: Option<usize>)
        ensures
            r matches Some(i) ==> i < self.ranges@.len() && self.ranges@[i as int].0@ == path@,
            r is None ==> forall|i: int| 0 <= i < self.ranges@.len() ==> self.ranges@[i].0@ != path@,
    {
        let mut i: usize = 0;
        while i < self.ranges.len()
            invariant
                i <= self.ranges@.len(),
                forall|j: int| 0 <= j < i ==> self.ranges@[j].0@ != path@,
            decreases self.ranges@.len() - i,
        {
            if self.ranges[i].0.same_as(path) {
                return Some(i);
            }
            i += 1;
        }
        None
    }

    fn lookup(&self, path: &YamlPath) -> (r: Option<YamlSourceRange>)
        ensures
            r == (if self@.contains_key(path@) {
                Some(self@[path@])
            } else {
                None
            }),
    {
        proof {
            use_type_invariant(self);
            lemma_entries_map(entries_view(self.ranges@));
        }
        match self.position(path) {
            Some(i) => {
                proof {
                    assert(entries_view(self.ranges@)[i as int].0 == path@);
                }
                Some(self.ranges[i].1)
            },
            None => {
                proof {
                    if self@.contains_key(path@) {
                        let i = choose|i: int| 0 <= i < entries_view(self.ranges@).len() && entries_view(self.ranges@)[i].0 == path@;
                        assert(self.ranges@[i].0@ == path@);
                    }
                }
                None
            },
        }
    }

    /// Where the value at `path` is written.
    pub fn value_range(&self, path: YamlPath) -> (r: Option<TextRange>)
        ensures
            r == (if self@.contains_key(path@) {
                Some(self@[path@].value_range)
            } else {
                None
            }),
    {
        match self.lookup(&path) {
            Some(range) => Some(range.value_range),
            None => None,
        }
    }

    /// Where the key of the mapping entry at `path` is written.
    pub fn key_range(&self, path: YamlPath) -> (r: Option<TextRange>)
        ensures
            r == (if self@.contains_key(path@) {
                self@[path@].key_range
            } else {
                None
            }),
    {
        match self.lookup(&path) {
            Some(range) => range.key_range,
            None => None,
        }
    }

    /// Where the value at `path` is written, else where its key is.
    pub fn entry_range(&self, path: YamlPath) -> (r: Option<TextRange>)
        ensures
            r == (if self@.contains_key(path@) {
                Some(self@[path@].value_range)
            } else {
                None
            }),
    {
        match self.value_range(path.duplicate()) {
            Some(range) => Some(range),
            None => self.key_range(path),
        }
    }

    /// Records that the node at `path` is written at `value_range`.
    pub fn insert_value(&mut self, path: YamlPath, value_range: TextRange)
        ensures
            final(self)@ == map_insert_value(old(self)@, path@, value_range),
    {
        proof {
            use_type_invariant(&*self);
            lemma_entries_map(entries_view(self.ranges@));
        }
        let ghost old_entries = entries_view(self.ranges@);
        match self.position(&path) {
            Some(i) => {
                let key_range = self.ranges[i].1.key_range;
                let ghost p = path@;
                let mut ranges: Vec<(YamlPath, YamlSourceRange)> = Vec::new();
                std::mem::swap(&mut ranges, &mut self.ranges);
                ranges.set(i, (path, YamlSourceRange { key_range, value_range }));
                proof {
                    let new_entries = entries_view(ranges@);
                    assert(old_entries[i as int].0 == p);
                    assert(new_entries =~= old_entries.update(i as int, (p, YamlSourceRange { key_range, value_range })));
                    lemma_entries_update(old_entries, i as int, YamlSourceRange { key_range, value_range });
                }
                *self = YamlSourceMap { ranges };
                proof {
                    let new_entries = entries_view(self.ranges@);
                    assert(new_entries =~= old_entries.update(i as int, (p, YamlSourceRange { key_range, value_range })));
                    lemma_entries_map(new_entries);
                    assert(self@ =~= map_insert_value(old(self)@, p, value_range));
                }
            },
            None => {
                let ghost p = path@;
                let mut ranges: Vec<(YamlPath, YamlSourceRange)> = Vec::new();
                std::mem::swap(&mut ranges, &mut self.ranges);
                ranges.push((path, YamlSourceRange { key_range: None, value_range }));
                proof {
                    let new_entries = entries_view(ranges@);
                    assert(new_entries =~= old_entries.push((p, YamlSourceRange { key_range: None, value_range })));
                    assert forall|a: int, b: int| 0 <= a < b < new_entries.len() implies new_entries[a].0 != new_entries[b].0 by {
                        if b == new_entries.len() - 1 {
                            assert(ranges@[a].0@ != p);
                        }
                    }
                }
                *self = YamlSourceMap { ranges };
                proof {
                    let new_entries = entries_view(self.ranges@);
                    assert(new_entries =~= old_entries.push((p, YamlSourceRange { key_range: None, value_range })));
                    assert(new_entries.drop_last() =~= old_entries);
                    if old(self)@.contains_key(p) {
                        let i = choose|i: int| 0 <= i < old_entries.len() && old_entries[i].0 == p;
                        assert(self.ranges@[i].0@ == p);
                    }
                }
            },
        }
    }

    /// Records that the key of the mapping entry at `path` is written at
    /// `key_range`; a path with no value yet is left alone.
    pub fn insert_key(&mut self, path: YamlPath, key_range: TextRange)
        ensures
            final(self)@ == map_insert_key(old(self)@, path@, key_range),
    {
        proof {
            use_type_invariant(&*self);
            lemma_entries_map(entries_view(self.ranges@));
        }
        let ghost old_entries = entries_view(self.ranges@);
        match self.position(&path) {
            Some(i) => {
                let value_range = self.ranges[i].1.value_range;
                let ghost p = path@;
                let mut ranges: Vec<(YamlPath, YamlSourceRange)> = Vec::new();
                std::mem::swap(&mut ranges, &mut self.ranges);
                ranges.set(i, (path, YamlSourceRange { key_range: Some(key_range), value_range }));
                proof {
                    let new_entries = entries_view(ranges@);
                    assert(new_entries =~= old_entries.update(
                        i as int,
                        (p, YamlSourceRange { key_range: Some(key_range), value_range }),
                    ));
                    assert(old_entries[i as int].0 == p);
                    lemma_entries_update(old_entries, i as int, YamlSourceRange { key_range: Some(key_range), value_range });
                }
                *self = YamlSourceMap { ranges };
                proof {
                    let new_entries = entries_view(self.ranges@);
                    assert(new_entries =~= old_entries.update(
                        i as int,
                        (p, YamlSourceRange { key_range: Some(key_range), value_range }),
                    ));
                    lemma_entries_map(new_entries);
                    assert(self@ =~= map_insert_key(old(self)@, p, key_range));
                }
            },
            None => {
                proof {
                    if old(self)@.contains_key(path@) {
                        let i = choose|i: int| 0 <= i < old_entries.len() && old_entries[i].0 == path@;
                        assert(self.ranges@[i].0@ == path@);
                    }
                }
            },
        }
    }
}

/// After a node's value is recorded, its path gives back that value range and
/// keeps the key range recorded before; other paths are unchanged.
pub proof fn lemma_insert_value_then_read(
    m: Map<Seq<SegmentView>, YamlSourceRange>,
    path: Seq<SegmentView>,
    range: TextRange,
    other: Seq<SegmentView>,
)
    ensures
        map_insert_value(m, path, range).contains_key(path),
        map_insert_value(m, path, range)[path].value_range == range,
        m.contains_key(path) ==> map_insert_value(m, path, range)[path].key_range == m[path].key_range,
        other != path ==> (map_insert_value(m, path, range).contains_key(other) == m.contains_key(other)
            && (m.contains_key(other) ==> map_insert_value(m, path, range)[other] == m[other])),
{
}

/// Recording a key range never adds a path, keeps every value range, and a
/// recorded path gives back that key range.
pub proof fn lemma_insert_key_then_read(
    m: Map<Seq<SegmentView>, YamlSourceRange>,
    path: Seq<SegmentView>,
    range: TextRange,
)
    ensures
        map_insert_key(m, path, range).dom() == m.dom(),
        forall|p: Seq<SegmentView>| #[trigger] m.contains_key(p) ==> map_insert_key(m, path, range)[p].value_range == m[p].value_range,
        m.contains_key(path) ==> map_insert_key(m, path, range)[path].key_range == Some(range),
{
    assert(map_insert_key(m, path, range).dom() =~= m.dom());
}

} // verus!