//! The top-level objects of a Dawn file as blocks of its text, and rewriting
//! some of them while keeping the rest of the text as it was. Offsets count
//! characters.
use vstd::prelude::*;
use crate::analysis::lines::{find_char_exec, find_char_from, is_blank_line, lemma_find_char_from, next_newline, lemma_next_newline};
use crate::text::{char_is_whitespace, chars_of, is_whitespace, leading_whitespace, leading_whitespace_exec, lemma_leading_whitespace};

verus! {

/// `c` may not appear in a top-level key.
pub open spec fn is_key_breaker(c: char) -> bool {
    char_is_whitespace(c) || c == '[' || c == ']' || c == '{' || c == '}' || c == ','
}

/// The top-level key that `line` starts: the text before its first `':'`
/// when the line starts at column zero with neither whitespace nor `#`, the
/// key is not empty, not `---`, and holds no whitespace or flow punctuation,
/// and the colon is followed by whitespace or ends the line.
pub open spec fn spec_top_level_key(line: Seq<char>) -> Option<Seq<char>> {
    if line.len() == 0 || char_is_whitespace(line[0]) || line[0] == '#' {
        None
    } else {
        match find_char_from(line, ':', 0) {
            None => None,
            Some(c) => {
                let key = line.subrange(0, c);
                let rest = line.subrange(c + 1, line.len() as int);
                if key.len() == 0 || (key.len() == 3 && key[0] == '-' && key[1] == '-' && key[2] == '-') || (exists|
                    i: int,
                | 0 <= i < key.len() && #[trigger] is_key_breaker(key[i])) || !(rest.len() == 0
                    || char_is_whitespace(rest[0])) {
                    None
                } else {
                    Some(key)
                }
            },
        }
    }
}

/// The top-level key that `line[lo..hi]` starts.
pub fn top_level_key(line: &Vec<char>, lo: usize, hi: usize) -> (r: Option<(usize, usize)>)
    requires
        lo <= hi <= line@.len(),
    ensures
        match r {
            Some((a, b)) => lo <= a <= b <= hi && spec_top_level_key(line@.subrange(lo as int, hi as int)) == Some(
                line@.subrange(a as int, b as int),
            ),
            None => spec_top_level_key(line@.subrange(lo as int, hi as int)) is None,
        },
{
    let ghost s = line@.subrange(lo as int, hi as int);
    if lo == hi || is_whitespace(line[lo]) || line[lo] == '#' {
        return None;
    }
    let mut c = lo;
    while c < hi && line[c] != ':'
        invariant
            lo <= c <= hi <= line@.len(),
            s == line@.subrange(lo as int, hi as int),
            forall|k: int| lo <= k < c ==> line@[k] != ':',
            find_char_from(s, ':', 0) == find_char_from(s, ':', c - lo),
        decreases hi - c,
    {
        assert(s[c - lo] == line@[c as int]);
        c += 1;
    }
    if c == hi {
        return None;
    }
    assert(find_char_from(s, ':', c - lo) == Some((c - lo) as int));
    assert(s.subrange(0, c - lo) =~= line@.subrange(lo as int, c as int));
    let ghost key = line@.subrange(lo as int, c as int);
    if c == lo {
        return None;
    }
    if c - lo == 3 && line[lo] == '-' && line[lo + 1] == '-' && line[lo + 2] == '-' {
        assert(key[0] == line@[lo as int] && key[1] == line@[lo + 1] && key[2] == line@[lo + 2]);
        let ghost sk = s.subrange(0, c - lo);
        assert(sk == key);
        assert(sk.len() == 3 && sk[0] == '-' && sk[1] == '-' && sk[2] == '-');
        return None;
    }
    let mut k = lo;
    while k < c
        invariant
            lo <= k <= c < hi <= line@.len(),
            s == line@.subrange(lo as int, hi as int),
            find_char_from(s, ':', 0) == Some((c - lo) as int),
            key == line@.subrange(lo as int, c as int),
            s.subrange(0, c - lo) == key,
            forall|j: int| lo <= j < k ==> !is_key_breaker(line@[j]),
        decreases c - k,
    {
        let ch = line[k];
        if is_whitespace(ch) || ch == '[' || ch == ']' || ch == '{' || ch == '}' || ch == ',' {
            assert(is_key_breaker(key[k - lo]));
            return None;
        }
        k += 1;
    }
    assert(!(exists|i: int| 0 <= i < key.len() && #[trigger] is_key_breaker(key[i]))) by {
        assert forall|i: int| 0 <= i < key.len() implies !is_key_breaker(#[trigger] key[i]) by {
            assert(key[i] == line@[lo + i]);
        }
    }
    assert(s.subrange(c - lo + 1, s.len() as int) =~= line@.subrange(c + 1, hi as int));
    if c + 1 < hi && !is_whitespace(line[c + 1]) {
        return None;
    }
    Some((lo, c))
}

/// The lines of `text` from `off` on, as `split_inclusive('\n')` gives them:
/// each as its start and its end, past its newline.
pub open spec fn segments_from(text: Seq<char>, off: int) -> Seq<(int, int)>
    decreases text.len() - off,
{
    if off < 0 || off >= text.len() {
        seq![]
    } else {
        let e = next_newline(text, off);
        let end = if e < text.len() {
            e + 1
        } else {
            text.len() as int
        };
        if end <= off {
            seq![]
        } else {
            seq![(off, end)] + segments_from(text, end)
        }
    }
}

/// Where the content of the line `start..end` ends, before its trailing
/// `'\r'` and `'\n'` characters.
pub open spec fn content_end(text: Seq<char>, start: int, end: int) -> int
    decreases end - start,
{
    if end > start && (text[end - 1] == '\n' || text[end - 1] == '\r') {
        content_end(text, start, end - 1)
    } else {
        end
    }
}

pub open spec fn line_content(text: Seq<char>, seg: (int, int)) -> Seq<char> {
    text.subrange(seg.0, content_end(text, seg.0, seg.1))
}

/// A line that is blank or a comment.
pub open spec fn comment_or_blank(text: Seq<char>, seg: (int, int)) -> bool {
    let c = line_content(text, seg);
    is_blank_line(c) || (c.len() > 0 && c[0] == '#')
}

/// The positions, from `i` on, of the lines that start a top-level key.
pub open spec fn keyed_from(text: Seq<char>, segs: Seq<(int, int)>, i: int) -> Seq<int>
    decreases segs.len() - i,
{
    if i < 0 || i >= segs.len() {
        seq![]
    } else if spec_top_level_key(line_content(text, segs[i])) is Some {
        seq![i] + keyed_from(text, segs, i + 1)
    } else {
        keyed_from(text, segs, i + 1)
    }
}

/// Where a block ends that the next key starts on line `cand`: before the
/// blank and comment lines that lead up to that key, but after line `li + 1`.
pub open spec fn back_over(text: Seq<char>, segs: Seq<(int, int)>, cand: int, li: int) -> int
    decreases cand,
{
    if cand > li + 1 && cand >= 1 && comment_or_blank(text, segs[cand - 1]) {
        back_over(text, segs, cand - 1, li)
    } else {
        segs[cand].0
    }
}

/// The top-level objects of `text`: each key with the start of its line and
/// the end of its block.
pub open spec fn spec_object_blocks(text: Seq<char>) -> Seq<(Seq<char>, int, int)> {
    let segs = segments_from(text, 0);
    let keyed = keyed_from(text, segs, 0);
    Seq::new(
        keyed.len(),
        |j: int|
            {
                let li = keyed[j];
                let end = if j + 1 < keyed.len() {
                    back_over(text, segs, keyed[j + 1], li)
                } else {
                    text.len() as int
                };
                (spec_top_level_key(line_content(text, segs[li])).unwrap(), segs[li].0, end)
            },
    )
}

/// A top-level object of a file as a block of its text.
#[derive(Debug, Clone)]
pub struct TopLevelObjectBlock {
    pub key: String,
    pub start: usize,
    pub end: usize,
}

pub open spec fn blocks_view(bs: Seq<TopLevelObjectBlock>) -> Seq<(Seq<char>, int, int)> {
    bs.map_values(|b: TopLevelObjectBlock| (b.key@, b.start as int, b.end as int))
}

proof fn lemma_segments(text: Seq<char>, off: int)
    requires
        0 <= off <= text.len(),
    ensures
        forall|k: int|
            0 <= k < segments_from(text, off).len() ==> off <= (#[trigger] segments_from(text, off)[k]).0 < segments_from(
                text,
                off,
            )[k].1 <= text.len(),
        forall|a: int, b: int|
            0 <= a < b < segments_from(text, off).len() ==> (#[trigger] segments_from(text, off)[a]).1 <= (
            #[trigger] segments_from(text, off)[b]).0,
    decreases text.len() - off,
{
    if off < text.len() {
        lemma_next_newline(text, off);
        let e = next_newline(text, off);
        let end = if e < text.len() {
            e + 1
        } else {
            text.len() as int
        };
        lemma_segments(text, end);
        let rest = segments_from(text, end);
        let all = segments_from(text, off);
        assert forall|k: int| 0 <= k < all.len() implies off <= (#[trigger] all[k]).0 < all[k].1 <= text.len() by {
            if k > 0 {
                assert(all[k] == rest[k - 1]);
            }
        }
        assert forall|a: int, b: int| 0 <= a < b < all.len() implies (#[trigger] all[a]).1 <= (#[trigger] all[b]).0 by {
            assert(all[b] == rest[b - 1]);
            if a > 0 {
                assert(all[a] == rest[a - 1]);
            }
        }
    }
}

pub open spec fn segs_view(v: Seq<(usize, usize)>) -> Seq<(int, int)> {
    v.map_values(|p: (usize, usize)| (p.0 as int, p.1 as int))
}

fn content_end_exec(chars: &Vec<char>, start: usize, end: usize) -> (r: usize)
    requires
        start <= end <= chars@.len(),
    ensures
        r == content_end(chars@, start as int, end as int),
        start <= r <= end,
{
    let mut e = end;
    while e > start && (chars[e - 1] == '\n' || chars[e - 1] == '\r')
        invariant
            start <= e <= end <= chars@.len(),
            content_end(chars@, start as int, end as int) == content_end(chars@, start as int, e as int),
        decreases e,
    {
        e -= 1;
    }
    e
}

fn segments_exec(chars: &Vec<char>) -> (segs: Vec<(usize, usize)>)
    ensures
        segs_view(segs@) == segments_from(chars@, 0),
{
    let n = chars.len();
    let mut segs: Vec<(usize, usize)> = Vec::new();
    let mut off: usize = 0;
    while off < n
        invariant
            n == chars@.len(),
            off <= n,
            segments_from(chars@, 0) == segs_view(segs@) + segments_from(chars@, off as int),
        decreases n - off,
    {
        let e = match find_char_exec(chars, '\n', off) {
            Some(e) => e,
            None => n,
        };
        proof {
            lemma_next_newline(chars@, off as int);
            lemma_find_char_from(chars@, '\n', off as int);
            lemma_newline_is_find(chars@, off as int);
        }
        let end = if e < n {
            e + 1
        } else {
            n
        };
        let ghost before = segs@;
        segs.push((off, end));
        proof {
            assert(segs_view(segs@) =~= segs_view(before).push((off as int, end as int)));
            assert(segments_from(chars@, off as int) == seq![(off as int, end as int)] + segments_from(chars@, end as int));
            assert(segs_view(segs@) + segments_from(chars@, end as int) =~= segs_view(before) + segments_from(chars@, off as int));
        }
        off = end;
    }
    assert(segments_from(chars@, off as int) =~= Seq::<(int, int)>::empty());
    assert(segs_view(segs@) + Seq::<(int, int)>::empty() =~= segs_view(segs@));
    segs
}

proof fn lemma_newline_is_find(s: Seq<char>, i: int)
    requires
        0 <= i <= s.len(),
    ensures
        find_char_from(s, '\n', i) matches Some(k) ==> k == next_newline(s, i),
        find_char_from(s, '\n', i) is None ==> next_newline(s, i) == s.len(),
    decreases s.len() - i,
{
    if i < s.len() && s[i] != '\n' {
        lemma_newline_is_find(s, i + 1);
    }
}

proof fn lemma_keyed_have_keys(text: Seq<char>, segs: Seq<(int, int)>, i: int, j: int)
    requires
        0 <= i,
        0 <= j < keyed_from(text, segs, i).len(),
    ensures
        i <= keyed_from(text, segs, i)[j] < segs.len(),
        spec_top_level_key(line_content(text, segs[keyed_from(text, segs, i)[j]])) is Some,
    decreases segs.len() - i,
{
    if i < segs.len() {
        if spec_top_level_key(line_content(text, segs[i])) is Some {
            if j > 0 {
                lemma_keyed_have_keys(text, segs, i + 1, j - 1);
            }
        } else {
            lemma_keyed_have_keys(text, segs, i + 1, j);
        }
    }
}

/// A `String` of `chars[a..b]`.
fn range_string(chars: &Vec<char>, a: usize, b: usize) -> (r: String)
    requires
        a <= b <= chars@.len(),
    ensures
        r@ == chars@.subrange(a as int, b as int),
{
    let mut v: Vec<char> = Vec::new();
    let mut k = a;
    while k < b
        invariant
            a <= k <= b <= chars@.len(),
            v@ == chars@.subrange(a as int, k as int),
        decreases b - k,
    {
        v.push(chars[k]);
        k += 1;
        assert(v@ =~= chars@.subrange(a as int, k as int));
    }
    crate::text::string_from_chars(v.as_slice())
}

/// The top-level objects of `text` as blocks of it.
pub fn top_level_object_blocks(text: &str) -> (r: Vec<TopLevelObjectBlock>)
    ensures
        blocks_view(r@) == spec_object_blocks(text@),
{
    let chars = chars_of(text);
    let n = chars.len();
    let segs = segments_exec(&chars);
    let ghost sv = segs_view(segs@);
    proof {
        lemma_segments(chars@, 0);
    }
    let mut keys: Vec<Option<(usize, usize)>> = Vec::new();
    let mut cob: Vec<bool> = Vec::new();
    let mut i: usize = 0;
    while i < segs.len()
        invariant
            chars@ == text@,
            n == chars@.len(),
            sv == segs_view(segs@),
            sv == segments_from(chars@, 0),
            forall|k: int| 0 <= k < sv.len() ==> 0 <= (#[trigger] sv[k]).0 < sv[k].1 <= n,
            i <= segs@.len(),
            keys@.len() == i,
            cob@.len() == i,
            forall|k: int|
                0 <= k < i ==> match #[trigger] keys@[k] {
                    Some((a, b)) => spec_top_level_key(line_content(chars@, sv[k])) == Some(
                        chars@.subrange(a as int, b as int),
                    ) && a <= b <= n,
                    None => spec_top_level_key(line_content(chars@, sv[k])) is None,
                },
            forall|k: int| 0 <= k < i ==> #[trigger] cob@[k] == comment_or_blank(chars@, sv[k]),
        decreases segs@.len() - i,
    {
        let (start, end) = segs[i];
        assert(sv[i as int] == (start as int, end as int));
        let ce = content_end_exec(&chars, start, end);
        let key = top_level_key(&chars, start, ce);
        keys.push(key);
        let lead = leading_whitespace_exec(&chars, start, ce);
        proof {
            lemma_leading_whitespace(chars@.subrange(start as int, ce as int));
        }
        let blank_or_comment = lead == ce - start || (ce > start && chars[start] == '#');
        assert(ce > start ==> chars@.subrange(start as int, ce as int)[0] == chars@[start as int]);
        cob.push(blank_or_comment);
        i += 1;
    }
    let mut keyed: Vec<usize> = Vec::new();
    let mut k: usize = 0;
    while k < segs.len()
        invariant
            sv == segs_view(segs@),
            sv == segments_from(chars@, 0),
            keys@.len() == segs@.len(),
            forall|k: int|
                0 <= k < sv.len() ==> match #[trigger] keys@[k] {
                    Some((a, b)) => spec_top_level_key(line_content(chars@, sv[k])) == Some(
                        chars@.subrange(a as int, b as int),
                    ),
                    None => spec_top_level_key(line_content(chars@, sv[k])) is None,
                },
            k <= segs@.len(),
            keyed_from(chars@, sv, 0) == keyed@.map_values(|x: usize| x as int) + keyed_from(chars@, sv, k as int),
            forall|j: int| 0 <= j < keyed@.len() ==> #[trigger] keyed@[j] < k,
        decreases segs@.len() - k,
    {
        let ghost before = keyed@;
        if keys[k].is_some() {
            keyed.push(k);
            assert(keyed@.map_values(|x: usize| x as int) =~= before.map_values(|x: usize| x as int).push(k as int));
        }
        k += 1;
    }
    assert(keyed_from(chars@, sv, k as int) =~= Seq::<int>::empty());
    let ghost kv = keyed@.map_values(|x: usize| x as int);
    assert(kv + Seq::<int>::empty() =~= kv);
    assert(kv == keyed_from(chars@, sv, 0));
    let ghost spec = spec_object_blocks(chars@);
    let mut blocks: Vec<TopLevelObjectBlock> = Vec::new();
    let mut j: usize = 0;
    while j < keyed.len()
        invariant
            chars@ == text@,
            n == chars@.len(),
            sv == segs_view(segs@),
            sv == segments_from(chars@, 0),
            forall|k: int| 0 <= k < sv.len() ==> 0 <= (#[trigger] sv[k]).0 < sv[k].1 <= n,
            keys@.len() == segs@.len(),
            cob@.len() == segs@.len(),
            forall|k: int|
                0 <= k < sv.len() ==> match #[trigger] keys@[k] {
                    Some((a, b)) => spec_top_level_key(line_content(chars@, sv[k])) == Some(
                        chars@.subrange(a as int, b as int),
                    ) && a <= b <= n,
                    None => spec_top_level_key(line_content(chars@, sv[k])) is None,
                },
            forall|k: int| 0 <= k < sv.len() ==> #[trigger] cob@[k] == comment_or_blank(chars@, sv[k]),
            kv == keyed@.map_values(|x: usize| x as int),
            kv == keyed_from(chars@, sv, 0),
            forall|q: int| 0 <= q < keyed@.len() ==> #[trigger] keyed@[q] < segs@.len(),
            spec == spec_object_blocks(chars@),
            j <= keyed@.len(),
            blocks_view(blocks@) == spec.subrange(0, j as int),
        decreases keyed@.len() - j,
    {
        let li = keyed[j];
        assert(kv[j as int] == li as int);
        let nsegs = segs.len();
        assert(li < nsegs);
        let (a, b) = match keys[li] {
            Some(r) => r,
            None => {
                proof {
                    lemma_keyed_have_keys(chars@, sv, 0, j as int);
                }
                (0, 0)
            },
        };
        proof {
            lemma_keyed_have_keys(chars@, sv, 0, j as int);
        }
        let key = range_string(&chars, a, b);
        let end = if j + 1 < keyed.len() {
            let next = keyed[j + 1];
            let mut cand = next;
            let above: usize = li + 1;
            while cand > above && cob[cand - 1]
                invariant
                    li < segs@.len(),
                    above == li + 1,
                    sv == segs_view(segs@),
                    sv.len() == segs@.len(),
                    cand <= next < segs@.len(),
                    cob@.len() == segs@.len(),
                    back_over(chars@, sv, next as int, li as int) == back_over(chars@, sv, cand as int, li as int),
                    forall|k: int| 0 <= k < sv.len() ==> #[trigger] cob@[k] == comment_or_blank(chars@, sv[k]),
                decreases cand,
            {
                cand -= 1;
            }
            assert(back_over(chars@, sv, next as int, li as int) == sv[cand as int].0);
            segs[cand].0
        } else {
            n
        };
        proof {
            let li_spec = kv[j as int];
            assert(li_spec == li as int);
            assert(keys@[li as int] == Some((a, b)));
            assert(spec[j as int] == (
                chars@.subrange(a as int, b as int),
                sv[li as int].0,
                end as int,
            ));
        }
        let ghost old_blocks = blocks@;
        let ghost entry = spec[j as int];
        let start = segs[li].0;
        assert(start as int == sv[li as int].0);
        blocks.push(TopLevelObjectBlock { key, start, end });
        assert(blocks_view(blocks@) =~= blocks_view(old_blocks).push(entry));
        assert(spec.subrange(0, j + 1) =~= spec.subrange(0, j as int).push(entry));
        j += 1;
    }
    assert(spec.subrange(0, keyed@.len() as int) =~= spec);
    blocks
}

/// `s` without its trailing newlines.
pub open spec fn trim_newlines_end(s: Seq<char>) -> Seq<char>
    decreases s.len(),
{
    if s.len() > 0 && s.last() == '\n' {
        trim_newlines_end(s.drop_last())
    } else {
        s
    }
}

/// `text[a..b]`, or nothing when that is not a range of it.
pub open spec fn slice(text: Seq<char>, a: int, b: int) -> Seq<char> {
    if 0 <= a <= b <= text.len() {
        text.subrange(a, b)
    } else {
        seq![]
    }
}

/// The first replacement, not used yet, for `key`.
pub open spec fn first_unused(
    reps: Seq<(Seq<char>, Option<Seq<char>>)>,
    used: Seq<bool>,
    key: Seq<char>,
    i: int,
) -> Option<int>
    decreases reps.len() - i,
{
    if i < 0 || i >= reps.len() {
        None
    } else if !used[i] && reps[i].0 == key {
        Some(i)
    } else {
        first_unused(reps, used, key, i + 1)
    }
}

/// Copying `text` block by block from block `j` on: a block with a
/// replacement is written as the replacement (or dropped, for none), the
/// others as they were, and the text between blocks is kept.
pub open spec fn replace_from(
    text: Seq<char>,
    blocks: Seq<(Seq<char>, int, int)>,
    reps: Seq<(Seq<char>, Option<Seq<char>>)>,
    j: int,
    out: Seq<char>,
    cursor: int,
    used: Seq<bool>,
) -> (Seq<char>, int, Seq<bool>)
    decreases blocks.len() - j,
{
    if j < 0 || j >= blocks.len() {
        (out, cursor, used)
    } else {
        let (key, start, end) = blocks[j];
        let out1 = out + slice(text, cursor, start);
        match first_unused(reps, used, key, 0) {
            Some(i) => {
                let out2 = match reps[i].1 {
                    Some(s) => out1 + trim_newlines_end(s) + seq!['\n'],
                    None => out1,
                };
                replace_from(text, blocks, reps, j + 1, out2, end, used.update(i, true))
            },
            None => replace_from(text, blocks, reps, j + 1, out1 + slice(text, start, end), end, used),
        }
    }
}

pub open spec fn ends_with_newline(s: Seq<char>) -> bool {
    s.len() > 0 && s.last() == '\n'
}

pub open spec fn ends_with_blank_line(s: Seq<char>) -> bool {
    s.len() >= 2 && s[s.len() - 1] == '\n' && s[s.len() - 2] == '\n'
}

/// Appending the replacements from `i` on that no block used, each after a
/// blank line.
pub open spec fn append_remaining(out: Seq<char>, reps: Seq<(Seq<char>, Option<Seq<char>>)>, used: Seq<bool>, i: int) -> Seq<
    char,
>
    decreases reps.len() - i,
{
    if i < 0 || i >= reps.len() {
        out
    } else if !used[i] && reps[i].1 is Some {
        let o1 = if !ends_with_newline(out) && out.len() > 0 {
            out.push('\n')
        } else {
            out
        };
        let o2 = if !ends_with_blank_line(o1) && !is_blank_line(o1) {
            o1.push('\n')
        } else {
            o1
        };
        append_remaining(o2 + trim_newlines_end(reps[i].1.unwrap()) + seq!['\n'], reps, used, i + 1)
    } else {
        append_remaining(out, reps, used, i + 1)
    }
}

/// `text` with the top-level objects named in `reps` replaced by the given
/// text, or removed for `None`; replacements for keys not in `text` are
/// appended in order.
pub open spec fn spec_replace_top_level_objects(text: Seq<char>, reps: Seq<(Seq<char>, Option<Seq<char>>)>) -> Seq<
    char,
> {
    let (out, cursor, used) = replace_from(
        text,
        spec_object_blocks(text),
        reps,
        0,
        seq![],
        0,
        Seq::new(reps.len(), |i: int| false),
    );
    append_remaining(out + slice(text, cursor, text.len() as int), reps, used, 0)
}

pub open spec fn reps_view(reps: Seq<(String, Option<String>)>) -> Seq<(Seq<char>, Option<Seq<char>>)> {
    reps.map_values(
        |r: (String, Option<String>)|
            (
                r.0@,
                match r.1 {
                    Some(s) => Some(s@),
                    None => None,
                },
            ),
    )
}

fn push_slice(out: &mut Vec<char>, chars: &Vec<char>, a: usize, b: usize)
    ensures
        final(out)@ == old(out)@ + slice(chars@, a as int, b as int),
{
    if !(a <= b && b <= chars.len()) {
        assert(old(out)@ + slice(chars@, a as int, b as int) =~= old(out)@);
        return;
    }
    let mut k = a;
    while k < b
        invariant
            a <= k <= b <= chars@.len(),
            out@ == old(out)@ + chars@.subrange(a as int, k as int),
        decreases b - k,
    {
        out.push(chars[k]);
        k += 1;
        assert(out@ =~= old(out)@ + chars@.subrange(a as int, k as int));
    }
}

/// Appends `s` without its trailing newlines, then one newline.
fn push_trimmed_line(out: &mut Vec<char>, s: &str)
    ensures
        final(out)@ == old(out)@ + trim_newlines_end(s@) + seq!['\n'],
{
    let chars = chars_of(s);
    let mut e = chars.len();
    assert(chars@.subrange(0, e as int) =~= chars@);
    while e > 0 && chars[e - 1] == '\n'
        invariant
            e <= chars@.len(),
            chars@ == s@,
            trim_newlines_end(s@) == trim_newlines_end(chars@.subrange(0, e as int)),
        decreases e,
    {
        assert(chars@.subrange(0, e as int).drop_last() =~= chars@.subrange(0, e - 1));
        e -= 1;
    }
    assert(chars@.subrange(0, chars@.len() as int) =~= chars@);
    push_slice(out, &chars, 0, e);
    out.push('\n');
    assert(out@ =~= old(out)@ + trim_newlines_end(s@) + seq!['\n']);
}

fn first_unused_exec(reps: &Vec<(String, Option<String>)>, used: &Vec<bool>, key: &str) -> (r: Option<usize>)
    requires
        used@.len() == reps@.len(),
    ensures
        r matches Some(i) ==> i < reps@.len() && first_unused(reps_view(reps@), used@, key@, 0) == Some(i as int),
        r is None ==> first_unused(reps_view(reps@), used@, key@, 0) is None,
{
    let ghost rv = reps_view(reps@);
    let mut i: usize = 0;
    while i < reps.len()
        invariant
            i <= reps@.len(),
            used@.len() == reps@.len(),
            rv == reps_view(reps@),
            first_unused(rv, used@, key@, 0) == first_unused(rv, used@, key@, i as int),
        decreases reps@.len() - i,
    {
        assert(rv[i as int].0 == reps@[i as int].0@);
        if !used[i] && crate::text::str_eq(reps[i].0.as_str(), key) {
            return Some(i);
        }
        i += 1;
    }
    None
}

/// `a` comes strictly before `b` when keys are ordered character by
/// character, a proper prefix first.
pub open spec fn key_before(a: Seq<char>, b: Seq<char>) -> bool
    decreases a.len(),
{
    if a.len() == 0 {
        b.len() > 0
    } else if b.len() == 0 {
        false
    } else if a[0] != b[0] {
        a[0] < b[0]
    } else {
        key_before(a.drop_first(), b.drop_first())
    }
}

/// The keys of `reps` are distinct and in ascending order, as the keys of a
/// sorted map are.
pub open spec fn keys_ascending(reps: Seq<(Seq<char>, Option<Seq<char>>)>) -> bool {
    forall|i: int, j: int| 0 <= i < j < reps.len() ==> key_before(#[trigger] reps[i].0, #[trigger] reps[j].0)
}

/// Rewrites the top-level objects of `text` named in `replacements`, whose
/// keys are distinct and ascending: each is replaced by its new text, or
/// removed for `None`; those not in `text` are appended in key order.
pub fn replace_top_level_objects(text: &str, replacements: &Vec<(String, Option<String>)>) -> (r: String)
    requires
        keys_ascending(reps_view(replacements@)),
    ensures
        r@ == spec_replace_top_level_objects(text@, reps_view(replacements@)),
{
    let ghost rv = reps_view(replacements@);
    let blocks = top_level_object_blocks(text);
    let ghost bv = blocks_view(blocks@);
    let chars = chars_of(text);
    let mut used: Vec<bool> = Vec::new();
    let mut k: usize = 0;
    while k < replacements.len()
        invariant
            k <= replacements@.len(),
            used@ =~= Seq::new(k as nat, |i: int| false),
        decreases replacements@.len() - k,
    {
        used.push(false);
        k += 1;
    }
    let ghost whole = replace_from(text@, bv, rv, 0, seq![], 0, Seq::new(rv.len(), |i: int| false));
    let mut out: Vec<char> = Vec::new();
    let mut cursor: usize = 0;
    let mut j: usize = 0;
    while j < blocks.len()
        invariant
            chars@ == text@,
            rv == reps_view(replacements@),
            bv == blocks_view(blocks@),
            used@.len() == replacements@.len(),
            j <= blocks@.len(),
            whole == replace_from(text@, bv, rv, j as int, out@, cursor as int, used@),
        decreases blocks@.len() - j,
    {
        let block = &blocks[j];
        assert(bv[j as int] == (block.key@, block.start as int, block.end as int));
        push_slice(&mut out, &chars, cursor, block.start);
        cursor = block.end;
        match first_unused_exec(replacements, &used, block.key.as_str()) {
            Some(i) => {
                used.set(i, true);
                assert(rv[i as int].1 == (match replacements@[i as int].1 {
                    Some(s) => Some(s@),
                    None => None,
                }));
                match &replacements[i].1 {
                    Some(serialized) => push_trimmed_line(&mut out, serialized.as_str()),
                    None => {},
                }
            },
            None => {
                push_slice(&mut out, &chars, block.start, block.end);
            },
        }
        j += 1;
    }
    push_slice(&mut out, &chars, cursor, chars.len());
    let ghost after = out@;
    let ghost final_used = used@;
    let mut i: usize = 0;
    while i < replacements.len()
        invariant
            rv == reps_view(replacements@),
            used@.len() == replacements@.len(),
            used@ == final_used,
            i <= replacements@.len(),
            append_remaining(after, rv, final_used, 0) == append_remaining(out@, rv, final_used, i as int),
        decreases replacements@.len() - i,
    {
        assert(rv[i as int].1 == (match replacements@[i as int].1 {
            Some(s) => Some(s@),
            None => None,
        }));
        if !used[i] {
            match &replacements[i].1 {
                Some(serialized) => {
                    let n = out.len();
                    if n > 0 && out[n - 1] != '\n' {
                        out.push('\n');
                    }
                    let n = out.len();
                    let blank_end = n >= 2 && out[n - 1] == '\n' && out[n - 2] == '\n';
                    let lead = leading_whitespace_exec(&out, 0, n);
                    assert(out@.subrange(0, n as int) =~= out@);
                    if !blank_end && lead < n {
                        out.push('\n');
                    }
                    push_trimmed_line(&mut out, serialized.as_str());
                },
                None => {},
            }
        }
        i += 1;
    }
    crate::text::string_from_chars(out.as_slice())
}

proof fn lemma_keyed_increasing(text: Seq<char>, segs: Seq<(int, int)>, i: int)
    requires
        0 <= i,
    ensures
        forall|a: int, b: int|
            0 <= a < b < keyed_from(text, segs, i).len() ==> #[trigger] keyed_from(text, segs, i)[a] < #[trigger] keyed_from(
                text,
                segs,
                i,
            )[b],
        forall|a: int| 0 <= a < keyed_from(text, segs, i).len() ==> i <= #[trigger] keyed_from(text, segs, i)[a] < segs.len(),
    decreases segs.len() - i,
{
    if i < segs.len() {
        lemma_keyed_increasing(text, segs, i + 1);
        let rest = keyed_from(text, segs, i + 1);
        let all = keyed_from(text, segs, i);
        if spec_top_level_key(line_content(text, segs[i])) is Some {
            assert forall|a: int| 0 <= a < all.len() implies i <= #[trigger] all[a] < segs.len() by {
                if a > 0 {
                    assert(all[a] == rest[a - 1]);
                }
            }
            assert forall|a: int, b: int| 0 <= a < b < all.len() implies #[trigger] all[a] < #[trigger] all[b] by {
                assert(all[b] == rest[b - 1]);
                if a > 0 {
                    assert(all[a] == rest[a - 1]);
                }
            }
        }
    }
}

proof fn lemma_back_over(text: Seq<char>, segs: Seq<(int, int)>, cand: int, li: int)
    requires
        0 <= li < cand < segs.len(),
    ensures
        exists|c: int| li + 1 <= c <= cand && back_over(text, segs, cand, li) == #[trigger] segs[c].0,
    decreases cand,
{
    if cand > li + 1 && comment_or_blank(text, segs[cand - 1]) {
        lemma_back_over(text, segs, cand - 1, li);
    } else {
        assert(back_over(text, segs, cand, li) == segs[cand].0);
    }
}

/// The blocks of a file are in order and do not overlap: each starts before
/// it ends, and ends where the next one starts at the latest.
pub proof fn lemma_blocks_in_order(text: Seq<char>)
    ensures
        forall|j: int|
            0 <= j < spec_object_blocks(text).len() ==> 0 <= (#[trigger] spec_object_blocks(text)[j]).1 < spec_object_blocks(
                text,
            )[j].2 <= text.len(),
        forall|j: int|
            0 <= j && j + 1 < spec_object_blocks(text).len() ==> (#[trigger] spec_object_blocks(text)[j]).2
                <= spec_object_blocks(text)[j + 1].1,
{
    let segs = segments_from(text, 0);
    let keyed = keyed_from(text, segs, 0);
    let blocks = spec_object_blocks(text);
    lemma_segments(text, 0);
    lemma_keyed_increasing(text, segs, 0);
    assert forall|j: int| 0 <= j < blocks.len() implies 0 <= (#[trigger] blocks[j]).1 < blocks[j].2 <= text.len() && (
    j + 1 < blocks.len() ==> blocks[j].2 <= blocks[j + 1].1) by {
        let li = keyed[j];
        assert(0 <= li < segs.len());
        assert(0 <= segs[li].0 < segs[li].1 <= text.len());
        if j + 1 < keyed.len() {
            let next = keyed[j + 1];
            assert(li < next);
            lemma_back_over(text, segs, next, li);
            let c = choose|c: int| li + 1 <= c <= next && back_over(text, segs, next, li) == #[trigger] segs[c].0;
            assert(segs[li].1 <= segs[c].0);
            if c < next {
                assert(segs[c].1 <= segs[next].0);
            }
            assert(blocks[j + 1].1 == segs[next].0);
        }
    }
}

proof fn lemma_copy_blocks(
    text: Seq<char>,
    blocks: Seq<(Seq<char>, int, int)>,
    j: int,
    cursor: int,
    used: Seq<bool>,
)
    requires
        0 <= j <= blocks.len(),
        0 <= cursor <= text.len(),
        j < blocks.len() ==> cursor <= blocks[j].1,
        forall|k: int| 0 <= k < blocks.len() ==> 0 <= (#[trigger] blocks[k]).1 < blocks[k].2 <= text.len(),
        forall|k: int| 0 <= k && k + 1 < blocks.len() ==> (#[trigger] blocks[k]).2 <= blocks[k + 1].1,
    ensures
        ({
            let (out, c, u) = replace_from(text, blocks, seq![], j, text.subrange(0, cursor), cursor, used);
            0 <= c <= text.len() && out == text.subrange(0, c)
        }),
    decreases blocks.len() - j,
{
    if j < blocks.len() {
        let (key, start, end) = blocks[j];
        assert(first_unused(seq![], used, key, 0) is None);
        let out1 = text.subrange(0, cursor) + slice(text, cursor, start) + slice(text, start, end);
        assert(out1 =~= text.subrange(0, end));
        lemma_copy_blocks(text, blocks, j + 1, end, used);
    }
}

/// Rewriting a file with no replacements gives back its text unchanged.
pub proof fn lemma_no_replacements_keep_text(text: Seq<char>)
    ensures
        spec_replace_top_level_objects(text, seq![]) == text,
{
    let blocks = spec_object_blocks(text);
    lemma_blocks_in_order(text);
    let used = Seq::new(0, |i: int| false);
    lemma_copy_blocks(text, blocks, 0, 0, used);
    assert(text.subrange(0, 0) =~= Seq::<char>::empty());
    let (out, c, u) = replace_from(text, blocks, seq![], 0, seq![], 0, used);
    assert(out + slice(text, c, text.len() as int) =~= text);
}

proof fn lemma_copy_rest(
    text: Seq<char>,
    blocks: Seq<(Seq<char>, int, int)>,
    reps: Seq<(Seq<char>, Option<Seq<char>>)>,
    j: int,
    pre: Seq<char>,
    cursor: int,
    used: Seq<bool>,
)
    requires
        0 <= j <= blocks.len(),
        0 <= cursor <= text.len(),
        j < blocks.len() ==> cursor <= blocks[j].1,
        forall|k: int| 0 <= k < blocks.len() ==> 0 <= (#[trigger] blocks[k]).1 < blocks[k].2 <= text.len(),
        forall|k: int| 0 <= k && k + 1 < blocks.len() ==> (#[trigger] blocks[k]).2 <= blocks[k + 1].1,
        forall|k: int| j <= k < blocks.len() ==> first_unused(reps, used, (#[trigger] blocks[k]).0, 0) is None,
    ensures
        ({
            let (out, c, u) = replace_from(text, blocks, reps, j, pre, cursor, used);
            cursor <= c <= text.len() && out == pre + text.subrange(cursor, c) && u == used
        }),
    decreases blocks.len() - j,
{
    if j < blocks.len() {
        let (key, start, end) = blocks[j];
        let out1 = pre + slice(text, cursor, start) + slice(text, start, end);
        lemma_copy_rest(text, blocks, reps, j + 1, out1, end, used);
        let (out, c, u) = replace_from(text, blocks, reps, j + 1, out1, end, used);
        assert(out1 + text.subrange(end, c) =~= pre + text.subrange(cursor, c));
    } else {
        assert(pre + text.subrange(cursor, cursor) =~= pre);
    }
}

/// Replacements none of whose keys names an object of the file leave its
/// text as it is, and append the new objects after it in their order, each
/// after a blank line (`append_remaining`); those that remove an object do
/// nothing.
pub proof fn lemma_unmatched_replacements_append(text: Seq<char>, reps: Seq<(Seq<char>, Option<Seq<char>>)>)
    requires
        forall|k: int, i: int|
            0 <= k < spec_object_blocks(text).len() && 0 <= i < reps.len() ==> (#[trigger] spec_object_blocks(text)[k]).0
                != (#[trigger] reps[i]).0,
    ensures
        spec_replace_top_level_objects(text, reps) == append_remaining(
            text,
            reps,
            Seq::new(reps.len(), |i: int| false),
            0,
        ),
{
    let blocks = spec_object_blocks(text);
    lemma_blocks_in_order(text);
    let used = Seq::new(reps.len(), |i: int| false);
    assert forall|k: int| 0 <= k < blocks.len() implies first_unused(reps, used, (#[trigger] blocks[k]).0, 0)
        is None by {
        lemma_first_unused_none(reps, used, blocks[k].0, 0);
    }
    lemma_copy_rest(text, blocks, reps, 0, seq![], 0, used);
    let (out, c, u) = replace_from(text, blocks, reps, 0, seq![], 0, used);
    assert(out + slice(text, c, text.len() as int) =~= text);
}

proof fn lemma_first_unused_none(
    reps: Seq<(Seq<char>, Option<Seq<char>>)>,
    used: Seq<bool>,
    key: Seq<char>,
    i: int,
)
    requires
        forall|m: int| 0 <= m < reps.len() ==> (#[trigger] reps[m]).0 != key,
    ensures
        first_unused(reps, used, key, i) is None,
    decreases reps.len() - i,
{
    if 0 <= i < reps.len() {
        lemma_first_unused_none(reps, used, key, i + 1);
    }
}

/// A single replacement for `key`, where the `j`-th object is the first
/// named `key`: that object's text becomes the new text (its trailing line
/// feeds trimmed, one added) or goes, for `None`, and the rest of the file is
/// kept as it is.
pub proof fn lemma_single_replacement(text: Seq<char>, key: Seq<char>, value: Option<Seq<char>>, j: int)
    requires
        0 <= j < spec_object_blocks(text).len(),
        spec_object_blocks(text)[j].0 == key,
        forall|k: int| 0 <= k < j ==> (#[trigger] spec_object_blocks(text)[k]).0 != key,
    ensures
        ({
            let b = spec_object_blocks(text)[j];
            spec_replace_top_level_objects(text, seq![(key, value)]) == text.subrange(0, b.1) + match value {
                Some(s) => trim_newlines_end(s) + seq!['\n'],
                None => seq![],
            } + text.subrange(b.2, text.len() as int)
        }),
{
    let blocks = spec_object_blocks(text);
    lemma_blocks_in_order(text);
    let reps = seq![(key, value)];
    let used0 = Seq::new(1, |i: int| false);
    let used1 = used0.update(0, true);
    assert forall|k: int| 0 <= k < j implies first_unused(reps, used0, (#[trigger] blocks[k]).0, 0) is None by {
        lemma_first_unused_none(reps, used0, blocks[k].0, 0);
    }
    lemma_copy_rest_prefix(text, blocks, reps, 0, j, used0);
    let (out_j, c_j, u_j) = replace_from(text, blocks, reps, 0, seq![], 0, used0);
    let (key_j, start, end) = blocks[j];
    assert(first_unused(reps, used0, key, 0) == Some(0int));
    let b = blocks[j];
    let mid = text.subrange(0, start) + match value {
        Some(s) => trim_newlines_end(s) + seq!['\n'],
        None => seq![],
    };
    assert forall|k: int| j + 1 <= k < blocks.len() implies first_unused(reps, used1, (#[trigger] blocks[k]).0, 0)
        is None by {
        assert(first_unused(reps, used1, blocks[k].0, 1) is None);
    }
    if j + 1 < blocks.len() {
        assert(end <= blocks[j + 1].1);
    }
    lemma_copy_rest(text, blocks, reps, j + 1, mid, end, used1);
    let cj = if j == 0 {
        0
    } else {
        blocks[j - 1].2
    };
    assert(text.subrange(0, 0) =~= Seq::<char>::empty());
    if j > 0 {
        assert(blocks[j - 1].2 <= blocks[j].1);
    }
    assert(cj <= start);
    assert(text.subrange(0, cj) + slice(text, cj, start) =~= text.subrange(0, start));
    assert(used0.update(0, true) == used1);
    let out1 = text.subrange(0, cj) + slice(text, cj, start);
    let out2 = match reps[0].1 {
        Some(s) => out1 + trim_newlines_end(s) + seq!['\n'],
        None => out1,
    };
    assert(out2 =~= mid);
    assert(replace_from(text, blocks, reps, j, text.subrange(0, cj), cj, used0) == replace_from(
        text,
        blocks,
        reps,
        j + 1,
        mid,
        end,
        used1,
    ));
    assert(Seq::new(reps.len(), |i: int| false) =~= used0);
    let (out, c, u) = replace_from(text, blocks, reps, j + 1, mid, end, used1);
    assert(append_remaining(out + slice(text, c, text.len() as int), reps, u, 0) == out + slice(
        text,
        c,
        text.len() as int,
    )) by {
        assert(append_remaining(out + slice(text, c, text.len() as int), reps, u, 1) == out + slice(
            text,
            c,
            text.len() as int,
        ));
    }
    assert(out + slice(text, c, text.len() as int) =~= mid + text.subrange(end, text.len() as int));
}

proof fn lemma_copy_rest_prefix(
    text: Seq<char>,
    blocks: Seq<(Seq<char>, int, int)>,
    reps: Seq<(Seq<char>, Option<Seq<char>>)>,
    j: int,
    stop: int,
    used: Seq<bool>,
)
    requires
        0 <= j <= stop < blocks.len(),
        forall|k: int| 0 <= k < blocks.len() ==> 0 <= (#[trigger] blocks[k]).1 < blocks[k].2 <= text.len(),
        forall|k: int| 0 <= k && k + 1 < blocks.len() ==> (#[trigger] blocks[k]).2 <= blocks[k + 1].1,
        forall|k: int| 0 <= k < stop ==> first_unused(reps, used, (#[trigger] blocks[k]).0, 0) is None,
    ensures
        ({
            let cursor = if j == 0 { 0 } else { blocks[j - 1].2 };
            replace_from(text, blocks, reps, j, text.subrange(0, cursor), cursor, used) == replace_from(
                text,
                blocks,
                reps,
                stop,
                text.subrange(0, if stop == 0 { 0 } else { blocks[stop - 1].2 }),
                if stop == 0 { 0 } else { blocks[stop - 1].2 },
                used,
            )
        }),
    decreases stop - j,
{
    if j < stop {
        let cursor = if j == 0 { 0 } else { blocks[j - 1].2 };
        let (key, start, end) = blocks[j];
        assert(text.subrange(0, cursor) + slice(text, cursor, start) + slice(text, start, end) =~= text.subrange(0, end));
        lemma_copy_rest_prefix(text, blocks, reps, j + 1, stop, used);
    } else {
        assert(text.subrange(0, 0) =~= Seq::<char>::empty());
    }
}

} // verus!