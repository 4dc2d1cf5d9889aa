//! Mark collections of a sequence: creating, renaming, recoloring and deleting
//! them, and adding, moving and deleting their marks.
use vstd::prelude::*;
use crate::document::timeline::{
    MarksView, SequenceTimeline, SequenceMarkCollectionDocument, TimelineView, collections_view, sorted_mark_original_index,
    sorted_position, spec_mark_not_found, unit_result,
};
use crate::model::color::{Color, spec_parse_color};
use crate::text::{chars_of, concat3, is_digit, is_lower, spec_is_digit, spec_is_lower, str_eq};

verus! {

/// Why `key` cannot name a mark collection (lowercase ASCII letter first, then
/// lowercase ASCII letters, digits and underscores); `None` when it can.
pub open spec fn mark_collection_key_problem(key: Seq<char>) -> Option<Seq<char>> {
    if key.len() == 0 {
        Some("mark collection key cannot be empty"@)
    } else if !spec_is_lower(key[0]) {
        Some("mark collection key must start with a lowercase ASCII letter"@)
    } else if exists|i: int| 1 <= i < key.len() && !is_key_char(#[trigger] key[i]) {
        Some("mark collection key may only contain lowercase ASCII letters, numbers, and underscores"@)
    } else {
        None
    }
}

pub open spec fn is_key_char(c: char) -> bool {
    spec_is_lower(c) || spec_is_digit(c) || c == '_'
}

/// Checks that `value` can name a mark collection.
pub fn validate_mark_collection_key(value: &str) -> (r: Result<(), String>)
    ensures
        r is Ok <==> mark_collection_key_problem(value@) is None,
        r matches Err(m) ==> mark_collection_key_problem(value@) == Some(m@),
{
    let chars = chars_of(value);
    if chars.len() == 0 {
        return Err(String::from_str("mark collection key cannot be empty"));
    }
    if !is_lower(chars[0]) {
        return Err(String::from_str("mark collection key must start with a lowercase ASCII letter"));
    }
    let mut i: usize = 1;
    while i < chars.len() && (is_lower(chars[i]) || is_digit(chars[i]) || chars[i] == '_')
        invariant
            chars@ == value@,
            1 <= i <= chars@.len(),
            forall|j: int| 1 <= j < i ==> is_key_char(#[trigger] chars@[j]),
        decreases chars@.len() - i,
    {
        i += 1;
    }
    if i < chars.len() {
        assert(!is_key_char(value@[i as int]));
        return Err(
            String::from_str(
                "mark collection key may only contain lowercase ASCII letters, numbers, and underscores",
            ),
        );
    }
    Ok(())
}

/// Whether `value` can name a mark collection.
pub fn is_mark_collection_key(value: &str) -> (b: bool)
    ensures
        b == (mark_collection_key_problem(value@) is None),
{
    validate_mark_collection_key(value).is_ok()
}

/// The first position at or after `i` of a collection with `key`.
pub open spec fn find_collection_from(cs: Seq<MarksView>, key: Seq<char>, i: int) -> Option<int>
    decreases cs.len() - i,
{
    if i < 0 || i >= cs.len() {
        None
    } else if cs[i].key == key {
        Some(i)
    } else {
        find_collection_from(cs, key, i + 1)
    }
}

/// The position of the first collection with `key`.
pub open spec fn find_collection(cs: Seq<MarksView>, key: Seq<char>) -> Option<int> {
    find_collection_from(cs, key, 0)
}

pub proof fn lemma_find_collection(cs: Seq<MarksView>, key: Seq<char>, i: int)
    requires
        0 <= i <= cs.len(),
    ensures
        find_collection_from(cs, key, i) matches Some(k) ==> i <= k < cs.len() && cs[k].key == key,
        find_collection_from(cs, key, i) is None ==> forall|j: int| i <= j < cs.len() ==> cs[j].key != key,
    decreases cs.len() - i,
{
    if i < cs.len() {
        lemma_find_collection(cs, key, i + 1);
    }
}

/// `"mark collection `key` was not found"`.
pub open spec fn spec_collection_not_found(key: Seq<char>) -> Seq<char> {
    "mark collection `"@ + key + "` was not found"@
}

/// `"mark collection `key` already exists"`.
pub open spec fn spec_collection_exists(key: Seq<char>) -> Seq<char> {
    "mark collection `"@ + key + "` already exists"@
}

pub open spec fn with_collections<T, P, S>(v: TimelineView<T, P, S>, cs: Seq<MarksView>) -> TimelineView<T, P, S> {
    TimelineView { duration_ms: v.duration_ms, audio: v.audio, collections: cs, effects: v.effects, clips: v.clips }
}

/// The collections of `cs` whose key is not `key`, in order.
pub open spec fn without_collection(cs: Seq<MarksView>, key: Seq<char>) -> Seq<MarksView>
    decreases cs.len(),
{
    if cs.len() == 0 {
        cs
    } else {
        let rest = without_collection(cs.drop_last(), key);
        if cs.last().key != key {
            rest.push(cs.last())
        } else {
            rest
        }
    }
}

/// The outcome of an edit of the collection `key` that replaces it by
/// `f(collection)`: refused when no collection has the key.
pub open spec fn edits_collection<T, P, S>(
    old: TimelineView<T, P, S>,
    new: TimelineView<T, P, S>,
    res: Result<(), Seq<char>>,
    key: Seq<char>,
    f: spec_fn(MarksView) -> MarksView,
) -> bool {
    match find_collection(old.collections, key) {
        None => res == Err::<(), Seq<char>>(spec_collection_not_found(key)) && new == old,
        Some(i) => res is Ok && new == with_collections(old, old.collections.update(i, f(old.collections[i]))),
    }
}

/// The outcome of an edit of the mark at sorted position `index` of the
/// collection `key`: refused when the collection or the mark is missing.
pub open spec fn edits_mark<T, P, S>(
    old: TimelineView<T, P, S>,
    new: TimelineView<T, P, S>,
    res: Result<(), Seq<char>>,
    key: Seq<char>,
    index: nat,
    f: spec_fn(Seq<u64>, int) -> Seq<u64>,
) -> bool {
    match find_collection(old.collections, key) {
        None => res == Err::<(), Seq<char>>(spec_collection_not_found(key)) && new == old,
        Some(i) => {
            let c = old.collections[i];
            if index >= c.marks.len() {
                res == Err::<(), Seq<char>>(spec_mark_not_found(index)) && new == old
            } else {
                &&& res is Ok
                &&& exists|m: int|
                    0 <= m < c.marks.len() && #[trigger] sorted_position(c.marks, m) == index && new
                        == with_collections(
                        old,
                        old.collections.update(
                            i,
                            MarksView { key: c.key, name: c.name, color: c.color, marks: f(c.marks, m) },
                        ),
                    )
            }
        },
    }
}

/// The outcome of creating the collection `key`: refused for an invalid key, a
/// color that is not a `#rrggbb` literal or a key in use (checked in that
/// order), else an empty collection added last.
pub open spec fn creates_collection<T, P, S>(
    old: TimelineView<T, P, S>,
    new: TimelineView<T, P, S>,
    res: Result<(), Seq<char>>,
    key: Seq<char>,
    name: Seq<char>,
    color: Seq<char>,
) -> bool {
    match mark_collection_key_problem(key) {
        Some(m) => res == Err::<(), Seq<char>>(m) && new == old,
        None => match spec_parse_color(color) {
            Err(m) => res == Err::<(), Seq<char>>(m) && new == old,
            Ok(_) => if find_collection(old.collections, key) is Some {
                res == Err::<(), Seq<char>>(spec_collection_exists(key)) && new == old
            } else {
                res is Ok && new == with_collections(
                    old,
                    old.collections.push(MarksView { key, name, color, marks: Seq::empty() }),
                )
            },
        },
    }
}

/// The outcome of recoloring the collection `key`: refused for a color that is
/// not a `#rrggbb` literal, then as `edits_collection`.
pub open spec fn recolors_collection<T, P, S>(
    old: TimelineView<T, P, S>,
    new: TimelineView<T, P, S>,
    res: Result<(), Seq<char>>,
    key: Seq<char>,
    color: Seq<char>,
) -> bool {
    match spec_parse_color(color) {
        Err(m) => res == Err::<(), Seq<char>>(m) && new == old,
        Ok(_) => edits_collection(
            old,
            new,
            res,
            key,
            recolor_to(color),
        ),
    }
}

/// The outcome of deleting the collection `key`: refused when no collection
/// has it, else every collection with it removed.
pub open spec fn deletes_collection<T, P, S>(
    old: TimelineView<T, P, S>,
    new: TimelineView<T, P, S>,
    res: Result<(), Seq<char>>,
    key: Seq<char>,
) -> bool {
    match find_collection(old.collections, key) {
        None => res == Err::<(), Seq<char>>(spec_collection_not_found(key)) && new == old,
        Some(_) => res is Ok && new == with_collections(old, without_collection(old.collections, key)),
    }
}

pub open spec fn min_time(a: u64, b: u64) -> u64 {
    if a <= b {
        a
    } else {
        b
    }
}

/// Edits of one collection or of its marks, as functions.
pub open spec fn rename_to(name: Seq<char>) -> spec_fn(MarksView) -> MarksView {
    |c: MarksView| MarksView { key: c.key, name, color: c.color, marks: c.marks }
}

pub open spec fn recolor_to(color: Seq<char>) -> spec_fn(MarksView) -> MarksView {
    |c: MarksView| MarksView { key: c.key, name: c.name, color, marks: c.marks }
}

pub open spec fn add_mark_at(time_ms: u64, sequence_ms: u64) -> spec_fn(MarksView) -> MarksView {
    |c: MarksView| MarksView { key: c.key, name: c.name, color: c.color, marks: c.marks.push(min_time(time_ms, sequence_ms)) }
}

pub open spec fn move_mark_to(time_ms: u64, sequence_ms: u64) -> spec_fn(Seq<u64>, int) -> Seq<u64> {
    |marks: Seq<u64>, m: int| marks.update(m, min_time(time_ms, sequence_ms))
}

pub open spec fn remove_mark() -> spec_fn(Seq<u64>, int) -> Seq<u64> {
    |marks: Seq<u64>, m: int| marks.remove(m)
}

fn collection_not_found(key: &str) -> (m: String)
    ensures
        m@ == spec_collection_not_found(key@),
{
    concat3("mark collection `", key, "` was not found")
}

impl<T, P, S> SequenceTimeline<T, P, S> {
    /// The position of the first collection with `key`.
    pub fn collection_index(&self, key: &str) -> (r: Option<usize>)
        ensures
            r matches Some(i) ==> find_collection(self@.collections, key@) == Some(i as int),
            r is None ==> find_collection(self@.collections, key@) is None,
    {
        let mut i: usize = 0;
        while i < self.mark_collections.len()
            invariant
                i <= self.mark_collections@.len(),
                find_collection(self@.collections, key@) == find_collection_from(self@.collections, key@, i as int),
            decreases self.mark_collections@.len() - i,
        {
            if str_eq(self.mark_collections[i].key.as_str(), key) {
                return Some(i);
            }
            i += 1;
        }
        None
    }

    fn take_collection(&mut self, i: usize) -> (c: SequenceMarkCollectionDocument)
        requires
            i < old(self)@.collections.len(),
        ensures
            c@ == old(self)@.collections[i as int],
            final(self)@ == with_collections(old(self)@, old(self)@.collections.remove(i as int)),
    {
        let c = self.mark_collections.remove(i);
        proof {
            assert(collections_view(self.mark_collections@) =~= collections_view(old(self).mark_collections@).remove(
                i as int,
            ));
        }
        c
    }

    fn put_collection(&mut self, i: usize, c: SequenceMarkCollectionDocument)
        requires
            i <= old(self)@.collections.len(),
        ensures
            final(self)@ == with_collections(old(self)@, old(self)@.collections.insert(i as int, c@)),
    {
        self.mark_collections.insert(i, c);
        proof {
            assert(collections_view(self.mark_collections@) =~= collections_view(old(self).mark_collections@).insert(
                i as int,
                c@,
            ));
        }
    }

    /// Adds an empty mark collection; the key must be valid and unused and the
    /// color a `#rrggbb` literal.
    pub fn create_mark_collection(&mut self, key: String, name: String, color: String) -> (r: Result<(), String>)
        ensures
            creates_collection(old(self)@, final(self)@, unit_result(r), key@, name@, color@),
    {
        validate_mark_collection_key(key.as_str())?;
        match Color::parse(color.as_str()) {
            Ok(_) => {},
            Err(e) => {
                return Err(e);
            },
        }
        if self.collection_index(key.as_str()).is_some() {
            return Err(concat3("mark collection `", key.as_str(), "` already exists"));
        }
        let collection = SequenceMarkCollectionDocument { key, name, color, marks_ms: Vec::new() };
        let ghost before = self.mark_collections@;
        self.mark_collections.push(collection);
        proof {
            assert(collections_view(self.mark_collections@) =~= collections_view(before).push(collection@));
        }
        Ok(())
    }

    /// Renames the collection `key`.
    pub fn rename_mark_collection(&mut self, key: &str, name: String) -> (r: Result<(), String>)
        ensures
            edits_collection(
                old(self)@,
                final(self)@,
                unit_result(r),
                key@,
                rename_to(name@),
            ),
    {
        let i = match self.collection_index(key) {
            Some(i) => i,
            None => {
                return Err(collection_not_found(key));
            },
        };
        proof {
            lemma_find_collection(self@.collections, key@, 0);
        }
        let ghost before = self@;
        let mut c = self.take_collection(i);
        c.name = name;
        self.put_collection(i, c);
        assert(self@.collections =~= before.collections.update(
            i as int,
            MarksView { key: before.collections[i as int].key, name: name@, color: before.collections[i as int].color, marks: before.collections[i as int].marks },
        ));
        Ok(())
    }

    /// Recolors the collection `key`; the color must be a `#rrggbb` literal.
    pub fn set_mark_collection_color(&mut self, key: &str, color: String) -> (r: Result<(), String>)
        ensures
            recolors_collection(old(self)@, final(self)@, unit_result(r), key@, color@),
    {
        match Color::parse(color.as_str()) {
            Ok(_) => {},
            Err(e) => {
                return Err(e);
            },
        }
        let i = match self.collection_index(key) {
            Some(i) => i,
            None => {
                return Err(collection_not_found(key));
            },
        };
        proof {
            lemma_find_collection(self@.collections, key@, 0);
        }
        let ghost before = self@;
        let mut c = self.take_collection(i);
        c.color = color;
        self.put_collection(i, c);
        assert(self@.collections =~= before.collections.update(
            i as int,
            MarksView { key: before.collections[i as int].key, name: before.collections[i as int].name, color: color@, marks: before.collections[i as int].marks },
        ));
        Ok(())
    }

    /// Deletes every collection with `key`; refused when there is none.
    pub fn delete_mark_collection(&mut self, key: &str) -> (r: Result<(), String>)
        ensures
            deletes_collection(old(self)@, final(self)@, unit_result(r), key@),
    {
        if self.collection_index(key).is_none() {
            proof {
                lemma_find_collection(self@.collections, key@, 0);
            }
            return Err(collection_not_found(key));
        }
        let ghost old_cs = self@.collections;
        let ghost n = old_cs.len();
        let mut i: usize = 0;
        let ghost mut k: int = 0;
        while i < self.mark_collections.len()
            invariant
                0 <= k <= n,
                n == old_cs.len(),
                old_cs == old(self)@.collections,
                self.duration_ms == old(self).duration_ms,
                self.audio == old(self).audio,
                self.effects == old(self).effects,
                self.automation_clips == old(self).automation_clips,
                i == without_collection(old_cs.subrange(0, k), key@).len(),
                self@.collections == without_collection(old_cs.subrange(0, k), key@) + old_cs.subrange(k, n as int),
            decreases self.mark_collections@.len() - i,
        {
            assert(old_cs.subrange(0, k + 1).drop_last() =~= old_cs.subrange(0, k));
            assert(self@.collections[i as int] == old_cs[k]);
            if str_eq(self.mark_collections[i].key.as_str(), key) {
                let ghost before = self.mark_collections@;
                self.mark_collections.remove(i);
                proof {
                    assert(collections_view(self.mark_collections@) =~= collections_view(before).remove(i as int));
                    assert(self@.collections =~= without_collection(old_cs.subrange(0, k + 1), key@)
                        + old_cs.subrange(k + 1, n as int));
                }
            } else {
                i += 1;
                proof {
                    assert(self@.collections =~= without_collection(old_cs.subrange(0, k + 1), key@)
                        + old_cs.subrange(k + 1, n as int));
                }
            }
            proof {
                k = k + 1;
            }
        }
        proof {
            assert(k == n) by {
                if k < n {
                    assert(self@.collections.len() > i);
                }
            }
            assert(old_cs.subrange(0, n as int) =~= old_cs);
            assert(self@.collections =~= without_collection(old_cs, key@));
        }
        Ok(())
    }

    /// Adds a mark at `time_ms`, kept within the sequence, to the collection
    /// `key`.
    pub fn add_mark(&mut self, key: &str, time_ms: u64) -> (r: Result<(), String>)
        ensures
            edits_collection(
                old(self)@,
                final(self)@,
                unit_result(r),
                key@,
                add_mark_at(time_ms, old(self)@.duration_ms),
            ),
    {
        let i = match self.collection_index(key) {
            Some(i) => i,
            None => {
                return Err(collection_not_found(key));
            },
        };
        proof {
            lemma_find_collection(self@.collections, key@, 0);
        }
        let ghost before = self@;
        let time = if time_ms <= self.duration_ms {
            time_ms
        } else {
            self.duration_ms
        };
        let mut c = self.take_collection(i);
        c.marks_ms.push(time);
        self.put_collection(i, c);
        assert(self@.collections =~= before.collections.update(
            i as int,
            MarksView {
                key: before.collections[i as int].key,
                name: before.collections[i as int].name,
                color: before.collections[i as int].color,
                marks: before.collections[i as int].marks.push(min_time(time_ms, before.duration_ms)),
            },
        ));
        Ok(())
    }

    /// Moves the mark at sorted position `index` of the collection `key` to
    /// `time_ms`, kept within the sequence.
    pub fn move_mark(&mut self, key: &str, index: usize, time_ms: u64) -> (r: Result<(), String>)
        ensures
            edits_mark(
                old(self)@,
                final(self)@,
                unit_result(r),
                key@,
                index as nat,
                move_mark_to(time_ms, old(self)@.duration_ms),
            ),
    {
        let i = match self.collection_index(key) {
            Some(i) => i,
            None => {
                return Err(collection_not_found(key));
            },
        };
        proof {
            lemma_find_collection(self@.collections, key@, 0);
        }
        let m = sorted_mark_original_index(&self.mark_collections[i].marks_ms, index)?;
        let ghost before = self@;
        let time = if time_ms <= self.duration_ms {
            time_ms
        } else {
            self.duration_ms
        };
        let mut c = self.take_collection(i);
        c.marks_ms.set(m, time);
        self.put_collection(i, c);
        let ghost old_c = before.collections[i as int];
        assert(self@.collections =~= before.collections.update(
            i as int,
            MarksView {
                key: old_c.key,
                name: old_c.name,
                color: old_c.color,
                marks: old_c.marks.update(m as int, min_time(time_ms, before.duration_ms)),
            },
        ));
        assert(sorted_position(old_c.marks, m as int) == index);
        Ok(())
    }

    /// Deletes the mark at sorted position `index` of the collection `key`.
    pub fn delete_mark(&mut self, key: &str, index: usize) -> (r: Result<(), String>)
        ensures
            edits_mark(
                old(self)@,
                final(self)@,
                unit_result(r),
                key@,
                index as nat,
                remove_mark(),
            ),
    {
        let i = match self.collection_index(key) {
            Some(i) => i,
            None => {
                return Err(collection_not_found(key));
            },
        };
        proof {
            lemma_find_collection(self@.collections, key@, 0);
        }
        let m = sorted_mark_original_index(&self.mark_collections[i].marks_ms, index)?;
        let ghost before = self@;
        let mut c = self.take_collection(i);
        c.marks_ms.remove(m);
        self.put_collection(i, c);
        let ghost old_c = before.collections[i as int];
        assert(self@.collections =~= before.collections.update(
            i as int,
            MarksView { key: old_c.key, name: old_c.name, color: old_c.color, marks: old_c.marks.remove(m as int) },
        ));
        assert(sorted_position(old_c.marks, m as int) == index);
        Ok(())
    }
}

/// Whether some collection of `cs` has `key`.
pub open spec fn has_collection(cs: Seq<MarksView>, key: Seq<char>) -> bool {
    exists|j: int| 0 <= j < cs.len() && (#[trigger] cs[j]).key == key
}

proof fn lemma_found_iff_has(cs: Seq<MarksView>, key: Seq<char>)
    ensures
        find_collection(cs, key) is Some <==> has_collection(cs, key),
        find_collection(cs, key) matches Some(i) ==> 0 <= i < cs.len() && cs[i].key == key,
{
    lemma_find_collection(cs, key, 0);
    if has_collection(cs, key) {
        let j = choose|j: int| 0 <= j < cs.len() && (#[trigger] cs[j]).key == key;
        if find_collection(cs, key) is None {
            assert(cs[j].key != key);
        }
    }
}

/// Adding a mark: refused, with nothing changed, exactly when no collection
/// has the key; otherwise the first collection with the key gains one mark at
/// the end, at the time asked for or at the end of the sequence when that
/// comes earlier, and nothing else changes.
pub proof fn lemma_add_mark<T, P, S>(
    old: TimelineView<T, P, S>,
    new: TimelineView<T, P, S>,
    res: Result<(), Seq<char>>,
    key: Seq<char>,
    time_ms: u64,
)
    requires
        edits_collection(old, new, res, key, add_mark_at(time_ms, old.duration_ms)),
    ensures
        res is Ok <==> has_collection(old.collections, key),
        res is Err ==> new == old,
        res is Ok ==> ({
            let i = find_collection(old.collections, key)->0;
            let before = old.collections[i].marks;
            let after = new.collections[i].marks;
            &&& 0 <= i < old.collections.len()
            &&& new.collections.len() == old.collections.len()
            &&& new.collections[i].key == key
            &&& after.len() == before.len() + 1
            &&& after.subrange(0, before.len() as int) == before
            &&& after.last() <= old.duration_ms
            &&& (time_ms <= old.duration_ms ==> after.last() == time_ms)
            &&& (time_ms > old.duration_ms ==> after.last() == old.duration_ms)
            &&& forall|j: int| 0 <= j < old.collections.len() && j != i ==> new.collections[j] == old.collections[j]
            &&& new.duration_ms == old.duration_ms && new.effects == old.effects
        }),
{
    lemma_found_iff_has(old.collections, key);
    if res is Ok {
        let i = find_collection(old.collections, key)->0;
        let before = old.collections[i].marks;
        assert(new.collections[i].marks.subrange(0, before.len() as int) =~= before);
    }
}

/// Moving a mark keeps the number of marks and puts the moved mark at the
/// time asked for, or at the end of the sequence when that comes earlier.
pub proof fn lemma_move_mark<T, P, S>(
    old: TimelineView<T, P, S>,
    new: TimelineView<T, P, S>,
    res: Result<(), Seq<char>>,
    key: Seq<char>,
    index: nat,
    time_ms: u64,
)
    requires
        edits_mark(old, new, res, key, index, move_mark_to(time_ms, old.duration_ms)),
    ensures
        res is Err ==> new == old,
        res is Ok ==> ({
            let i = find_collection(old.collections, key)->0;
            let before = old.collections[i].marks;
            let after = new.collections[i].marks;
            &&& has_collection(old.collections, key)
            &&& index < before.len()
            &&& after.len() == before.len()
            &&& exists|m: int|
                0 <= m < before.len() && #[trigger] sorted_position(before, m) == index && after[m] <= old.duration_ms
                    && (time_ms <= old.duration_ms ==> after[m] == time_ms) && forall|k: int|
                    0 <= k < before.len() && k != m ==> after[k] == before[k]
        }),
{
    lemma_found_iff_has(old.collections, key);
}

/// Deleting a mark removes exactly one mark, the one at the sorted position
/// asked for, and keeps the others in order.
pub proof fn lemma_delete_mark<T, P, S>(
    old: TimelineView<T, P, S>,
    new: TimelineView<T, P, S>,
    res: Result<(), Seq<char>>,
    key: Seq<char>,
    index: nat,
)
    requires
        edits_mark(old, new, res, key, index, remove_mark()),
    ensures
        res is Err ==> new == old,
        res is Ok ==> ({
            let i = find_collection(old.collections, key)->0;
            let before = old.collections[i].marks;
            let after = new.collections[i].marks;
            &&& has_collection(old.collections, key)
            &&& after.len() + 1 == before.len()
            &&& exists|m: int|
                0 <= m < before.len() && #[trigger] sorted_position(before, m) == index && after
                    == before.subrange(0, m) + before.subrange(m + 1, before.len() as int)
        }),
{
    lemma_found_iff_has(old.collections, key);
    if res is Ok {
        let i = find_collection(old.collections, key)->0;
        let before = old.collections[i].marks;
        let m = choose|m: int|
            0 <= m < before.len() && #[trigger] sorted_position(before, m) == index && new == with_collections(
                old,
                old.collections.update(
                    i,
                    MarksView {
                        key: old.collections[i].key,
                        name: old.collections[i].name,
                        color: old.collections[i].color,
                        marks: remove_mark()(before, m),
                    },
                ),
            );
        assert(before.remove(m) =~= before.subrange(0, m) + before.subrange(m + 1, before.len() as int));
    }
}

proof fn lemma_without_collection(cs: Seq<MarksView>, key: Seq<char>)
    ensures
        !has_collection(without_collection(cs, key), key),
        forall|c: MarksView| cs.contains(c) && c.key != key ==> #[trigger] without_collection(cs, key).contains(c),
        without_collection(cs, key).len() <= cs.len(),
    decreases cs.len(),
{
    if cs.len() > 0 {
        let init = cs.drop_last();
        lemma_without_collection(init, key);
        let rest = without_collection(init, key);
        assert forall|c: MarksView| cs.contains(c) && c.key != key implies #[trigger] without_collection(cs, key).contains(c) by {
            let j = choose|j: int| 0 <= j < cs.len() && cs[j] == c;
            if j < cs.len() - 1 {
                assert(init[j] == c);
                assert(init.contains(c));
                assert(rest.contains(c));
                if cs.last().key != key {
                    let k = choose|k: int| 0 <= k < rest.len() && rest[k] == c;
                    assert(rest.push(cs.last())[k] == c);
                }
            } else {
                assert(rest.push(cs.last())[rest.len() as int] == c);
            }
        }
        if has_collection(without_collection(cs, key), key) {
            let w = without_collection(cs, key);
            let j = choose|j: int| 0 <= j < w.len() && (#[trigger] w[j]).key == key;
            if cs.last().key != key && j == rest.len() {
            } else {
                assert(rest[j].key == key);
                assert(has_collection(rest, key));
            }
        }
    }
}

/// Deleting a collection: refused, with nothing changed, exactly when no
/// collection has the key; otherwise no collection with the key remains and
/// every collection with another key is kept.
pub proof fn lemma_delete_collection<T, P, S>(
    old: TimelineView<T, P, S>,
    new: TimelineView<T, P, S>,
    res: Result<(), Seq<char>>,
    key: Seq<char>,
)
    requires
        deletes_collection(old, new, res, key),
    ensures
        res is Ok <==> has_collection(old.collections, key),
        res is Err ==> new == old,
        res is Ok ==> !has_collection(new.collections, key) && new.collections.len() < old.collections.len()
            && forall|c: MarksView| old.collections.contains(c) && c.key != key ==> #[trigger] new.collections.contains(c),
{
    lemma_found_iff_has(old.collections, key);
    lemma_without_collection(old.collections, key);
    if res is Ok {
        lemma_without_collection_shorter(old.collections, key);
    }
}

proof fn lemma_without_collection_shorter(cs: Seq<MarksView>, key: Seq<char>)
    requires
        has_collection(cs, key),
    ensures
        without_collection(cs, key).len() < cs.len(),
    decreases cs.len(),
{
    lemma_without_collection(cs.drop_last(), key);
    if cs.last().key != key {
        let j = choose|j: int| 0 <= j < cs.len() && (#[trigger] cs[j]).key == key;
        assert(cs.drop_last()[j].key == key);
        lemma_without_collection_shorter(cs.drop_last(), key);
    }
}

/// Creating a collection: accepted exactly when the key can name a
/// collection, the color is a `#rrggbb` literal and no collection has the key
/// yet; then a collection with that key, name and color and no marks comes
/// last, and the others stay as they were.
pub proof fn lemma_create_collection<T, P, S>(
    old: TimelineView<T, P, S>,
    new: TimelineView<T, P, S>,
    res: Result<(), Seq<char>>,
    key: Seq<char>,
    name: Seq<char>,
    color: Seq<char>,
)
    requires
        creates_collection(old, new, res, key, name, color),
    ensures
        res is Ok <==> (mark_collection_key_problem(key) is None && spec_parse_color(color) is Ok && !has_collection(
            old.collections,
            key,
        )),
        res is Err ==> new == old,
        res is Ok ==> new.collections.len() == old.collections.len() + 1 && new.collections.last().key == key
            && new.collections.last().name == name && new.collections.last().color == color
            && new.collections.last().marks.len() == 0 && new.collections.subrange(0, old.collections.len() as int)
            == old.collections,
{
    lemma_found_iff_has(old.collections, key);
    if res is Ok {
        assert(new.collections.subrange(0, old.collections.len() as int) =~= old.collections);
    }
}

} // verus!
