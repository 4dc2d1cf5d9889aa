//! Reading YAML text line by line: splitting lines, indentation, the field a
//! line starts, and finding text within a line. Columns count characters.
use vstd::prelude::*;
use crate::text::{
    chars_eq, chars_of, is_whitespace, leading_whitespace, leading_whitespace_exec, lemma_leading_whitespace,
    trimmed_end, trimmed_end_exec,
};

verus! {

/// The position of the first `'\n'` at or after `i`, or the length.
pub open spec fn next_newline(s: Seq<char>, i: int) -> int
    decreases s.len() - i,
{
    if i < 0 || i >= s.len() {
        s.len() as int
    } else if s[i] == '\n' {
        i
    } else {
        next_newline(s, i + 1)
    }
}

pub proof fn lemma_next_newline(s: Seq<char>, i: int)
    requires
        0 <= i <= s.len(),
    ensures
        i <= next_newline(s, i) <= s.len(),
        next_newline(s, i) < s.len() ==> s[next_newline(s, i)] == '\n',
        forall|k: int| i <= k < next_newline(s, i) ==> s[k] != '\n',
    decreases s.len() - i,
{
    if i < s.len() && s[i] != '\n' {
        lemma_next_newline(s, i + 1);
    }
}

/// The line from `start` to the newline at `end`, without the `'\r'` of a
/// `"\r\n"` ending.
pub open spec fn line_between(s: Seq<char>, start: int, end: int) -> Seq<char> {
    let raw = s.subrange(start, end);
    if end < s.len() && raw.len() > 0 && raw.last() == '\r' {
        raw.drop_last()
    } else {
        raw
    }
}

/// The lines of `s` from `i` on.
pub open spec fn lines_from(s: Seq<char>, i: int) -> Seq<Seq<char>>
    decreases s.len() - i,
{
    if i < 0 || i >= s.len() {
        seq![]
    } else {
        let e = next_newline(s, i);
        if e < i {
            seq![]
        } else if e >= s.len() {
            seq![line_between(s, i, e)]
        } else {
            seq![line_between(s, i, e)] + lines_from(s, e + 1)
        }
    }
}

/// The lines of `s` as `str::lines` gives them: split at `'\n'`, a `'\r'`
/// before it dropped, and no empty line after a final newline.
pub open spec fn spec_lines(s: Seq<char>) -> Seq<Seq<char>> {
    lines_from(s, 0)
}

pub open spec fn lines_view(lines: Seq<Vec<char>>) -> Seq<Seq<char>> {
    lines.map_values(|l: Vec<char>| l@)
}

/// The lines of `text`.
pub fn split_lines(text: &str) -> (r: Vec<Vec<char>>)
    ensures
        lines_view(r@) == spec_lines(text@),
{
    let chars = chars_of(text);
    let n = chars.len();
    let mut r: Vec<Vec<char>> = Vec::new();
    let mut i: usize = 0;
    while i < n
        invariant
            chars@ == text@,
            n == chars@.len(),
            i <= n,
            spec_lines(text@) == lines_view(r@) + lines_from(text@, i as int),
        decreases n - i,
    {
        let mut e = i;
        while e < n && chars[e] != '\n'
            invariant
                i <= e <= n,
                n == chars@.len(),
                forall|k: int| i <= k < e ==> chars@[k] != '\n',
            decreases n - e,
        {
            e += 1;
        }
        proof {
            lemma_next_newline(text@, i as int);
            assert(e == next_newline(text@, i as int)) by {
                if e < next_newline(text@, i as int) {
                    assert(text@[e as int] != '\n');
                }
                if e > next_newline(text@, i as int) {
                    assert(chars@[next_newline(text@, i as int)] != '\n');
                }
            }
        }
        let mut stop = e;
        if e < n && e > i && chars[e - 1] == '\r' {
            stop = e - 1;
        }
        let mut line: Vec<char> = Vec::new();
        let mut k = i;
        while k < stop
            invariant
                i <= k <= stop <= n,
                n == chars@.len(),
                line@ == chars@.subrange(i as int, k as int),
            decreases stop - k,
        {
            line.push(chars[k]);
            k += 1;
            assert(line@ =~= chars@.subrange(i as int, k as int));
        }
        proof {
            assert(line@ =~= line_between(text@, i as int, e as int));
        }
        let ghost before = r@;
        r.push(line);
        proof {
            assert(lines_view(r@) =~= lines_view(before).push(line@));
            assert(lines_from(text@, i as int) == seq![line@] + lines_from(text@, e + 1));
            assert(lines_view(r@) + lines_from(text@, e + 1) =~= lines_view(before) + lines_from(text@, i as int));
        }
        if e >= n {
            proof {
                assert(lines_from(text@, e + 1) =~= Seq::<Seq<char>>::empty());
                assert(spec_lines(text@) =~= lines_view(r@));
            }
            return r;
        }
        i = e + 1;
    }
    assert(lines_from(text@, i as int) =~= Seq::<Seq<char>>::empty());
    assert(spec_lines(text@) =~= lines_view(r@));
    r
}

/// How many whitespace characters start `line`.
pub open spec fn spec_indent(line: Seq<char>) -> int {
    leading_whitespace(line)
}

/// `line` holds only whitespace.
pub open spec fn is_blank_line(line: Seq<char>) -> bool {
    leading_whitespace(line) == line.len()
}

/// The indentation of `line`.
pub fn line_indent(line: &Vec<char>) -> (n: usize)
    ensures
        n == spec_indent(line@),
{
    let n = leading_whitespace_exec(line, 0, line.len());
    assert(line@.subrange(0, line@.len() as int) =~= line@);
    n
}

/// Where the field of `line` starts: after its indentation and after a `"- "`
/// that opens a sequence item.
pub open spec fn field_start(line: Seq<char>) -> int {
    let t = leading_whitespace(line);
    if t + 2 <= line.len() && line[t] == '-' && line[t + 1] == ' ' {
        t + 2
    } else {
        t
    }
}

pub fn field_start_exec(line: &Vec<char>) -> (f: usize)
    ensures
        f == field_start(line@),
        f <= line@.len(),
{
    let t = line_indent(line);
    proof {
        lemma_leading_whitespace(line@);
    }
    if line.len() >= 2 && t <= line.len() - 2 && line[t] == '-' && line[t + 1] == ' ' {
        t + 2
    } else {
        t
    }
}

/// The position of the first `c` at or after `i`, when there is one.
pub open spec fn find_char_from(s: Seq<char>, c: char, i: int) -> Option<int>
    decreases s.len() - i,
{
    if i < 0 || i >= s.len() {
        None
    } else if s[i] == c {
        Some(i)
    } else {
        find_char_from(s, c, i + 1)
    }
}

pub proof fn lemma_find_char_from(s: Seq<char>, c: char, i: int)
    requires
        0 <= i <= s.len(),
    ensures
        find_char_from(s, c, i) matches Some(k) ==> i <= k < s.len() && s[k] == c,
    decreases s.len() - i,
{
    if i < s.len() && s[i] != c {
        lemma_find_char_from(s, c, i + 1);
    }
}

pub fn find_char_exec(s: &Vec<char>, c: char, from: usize) -> (r: Option<usize>)
    requires
        from <= s@.len(),
    ensures
        r matches Some(k) ==> find_char_from(s@, c, from as int) == Some(k as int),
        r is None ==> find_char_from(s@, c, from as int) is None,
        r matches Some(k) ==> from <= k < s@.len(),
{
    let mut i = from;
    while i < s.len()
        invariant
            from <= i <= s@.len(),
            find_char_from(s@, c, from as int) == find_char_from(s@, c, i as int),
        decreases s@.len() - i,
    {
        if s[i] == c {
            return Some(i);
        }
        i += 1;
    }
    None
}

/// `s` without its leading and trailing whitespace.
pub open spec fn spec_trim(s: Seq<char>) -> Seq<char> {
    if leading_whitespace(s) >= s.len() {
        seq![]
    } else {
        s.subrange(leading_whitespace(s), trimmed_end(s))
    }
}

proof fn lemma_trimmed_end(s: Seq<char>)
    ensures
        0 <= trimmed_end(s) <= s.len(),
        leading_whitespace(s) < s.len() ==> leading_whitespace(s) < trimmed_end(s),
    decreases s.len(),
{
    lemma_leading_whitespace(s);
    if s.len() > 0 && crate::text::char_is_whitespace(s.last()) {
        lemma_trimmed_end(s.drop_last());
        if leading_whitespace(s) < s.len() {
            lemma_leading_whitespace(s.drop_last());
            assert(leading_whitespace(s) < s.len() - 1);
            lemma_leading_prefix(s, s.len() - 1);
        }
    }
}

/// Leading whitespace of a prefix that reaches past it is the same.
proof fn lemma_leading_prefix(s: Seq<char>, m: int)
    requires
        0 <= m <= s.len(),
        leading_whitespace(s) < m,
    ensures
        leading_whitespace(s.subrange(0, m)) == leading_whitespace(s),
    decreases s.len(),
{
    lemma_leading_whitespace(s);
    if s.len() > 0 && crate::text::char_is_whitespace(s[0]) {
        assert(m >= 1);
        assert(s.subrange(0, m).drop_first() =~= s.drop_first().subrange(0, m - 1));
        assert(s.subrange(0, m)[0] == s[0]);
        lemma_leading_prefix(s.drop_first(), m - 1);
    } else {
        assert(m >= 1);
        assert(s.subrange(0, m)[0] == s[0]);
    }
}

/// `chars[lo..hi]` trimmed.
pub fn trim_range(chars: &Vec<char>, lo: usize, hi: usize) -> (r: (usize, usize))
    requires
        lo <= hi <= chars@.len(),
    ensures
        lo <= r.0 <= r.1 <= hi,
        chars@.subrange(r.0 as int, r.1 as int) == spec_trim(chars@.subrange(lo as int, hi as int)),
{
    let ghost s = chars@.subrange(lo as int, hi as int);
    let lead = leading_whitespace_exec(chars, lo, hi);
    let end = trimmed_end_exec(chars, lo, hi);
    proof {
        lemma_trimmed_end(s);
    }
    if lead >= hi - lo {
        assert(chars@.subrange(lo as int, lo as int) =~= Seq::<char>::empty());
        (lo, lo)
    } else {
        assert(chars@.subrange(lo + lead, lo + end) =~= s.subrange(lead as int, end as int));
        (lo + lead, lo + end)
    }
}

/// The name of the field that `line` starts, trimmed: the text before its
/// first `':'`, after the indentation and an item's `"- "`.
pub open spec fn spec_field_name(line: Seq<char>) -> Option<Seq<char>> {
    let f = field_start(line);
    match find_char_from(line, ':', f) {
        Some(colon) => Some(spec_trim(line.subrange(f, colon))),
        None => None,
    }
}

/// The name of the field that `line` starts.
pub fn field_name(line: &Vec<char>) -> (r: Option<Vec<char>>)
    ensures
        match r {
            Some(name) => spec_field_name(line@) == Some(name@),
            None => spec_field_name(line@) is None,
        },
{
    let f = field_start_exec(line);
    match find_char_exec(line, ':', f) {
        Some(colon) => {
            proof {
                lemma_find_char_from(line@, ':', f as int);
            }
            assert(find_char_from(line@, ':', f as int) == Some(colon as int));
            let (a, b) = trim_range(line, f, colon);
            let mut name: Vec<char> = Vec::new();
            let mut k = a;
            while k < b
                invariant
                    a <= k <= b <= line@.len(),
                    name@ == line@.subrange(a as int, k as int),
                decreases b - k,
            {
                name.push(line[k]);
                k += 1;
                assert(name@ =~= line@.subrange(a as int, k as int));
            }
            assert(spec_field_name(line@) == Some(spec_trim(line@.subrange(f as int, colon as int))));
            Some(name)
        },
        None => None,
    }
}

/// Whether the field that `line` starts is called `name`.
pub fn field_is(line: &Vec<char>, name: &str) -> (b: bool)
    ensures
        b == (spec_field_name(line@) == Some(name@)),
{
    match field_name(line) {
        Some(n) => {
            let expected = chars_of(name);
            chars_eq(n.as_slice(), expected.as_slice())
        },
        None => false,
    }
}

/// `s[i..]` begins with `p`.
pub open spec fn occurs_at(s: Seq<char>, p: Seq<char>, i: int) -> bool {
    0 <= i && i + p.len() <= s.len() && s.subrange(i, i + p.len()) == p
}

/// The position of the first occurrence of `p` in `s` at or after `i`.
pub open spec fn find_text_from(s: Seq<char>, p: Seq<char>, i: int) -> Option<int>
    decreases s.len() + 1 - i,
{
    if i < 0 || i + p.len() > s.len() {
        None
    } else if occurs_at(s, p, i) {
        Some(i)
    } else {
        find_text_from(s, p, i + 1)
    }
}

/// The position of the first occurrence of `p` in `s`.
pub open spec fn find_text(s: Seq<char>, p: Seq<char>) -> Option<int> {
    find_text_from(s, p, 0)
}

fn occurs_at_exec(s: &Vec<char>, p: &Vec<char>, i: usize) -> (b: bool)
    ensures
        b == occurs_at(s@, p@, i as int),
{
    let slen = s.len();
    if p.len() > slen || i > slen - p.len() {
        return false;
    }
    let mut k: usize = 0;
    while k < p.len()
        invariant
            slen == s@.len(),
            i + p@.len() <= s@.len(),
            k <= p@.len(),
            forall|j: int| 0 <= j < k ==> s@[i + j] == p@[j],
        decreases p@.len() - k,
    {
        assert(i + k < s@.len());
        let idx: usize = i + k;
        if s[idx] != p[k] {
            assert(s@.subrange(i as int, i + p@.len())[k as int] != p@[k as int]);
            return false;
        }
        k += 1;
    }
    assert(s@.subrange(i as int, i + p@.len()) =~= p@);
    true
}

/// The position of the first occurrence of `p` in `s`.
pub fn find_text_exec(s: &Vec<char>, p: &Vec<char>) -> (r: Option<usize>)
    ensures
        r matches Some(k) ==> find_text(s@, p@) == Some(k as int),
        r is None ==> find_text(s@, p@) is None,
        r matches Some(k) ==> k + p@.len() <= s@.len(),
{
    if p.len() > s.len() {
        return None;
    }
    let last = s.len() - p.len();
    let mut i: usize = 0;
    loop
        invariant
            last == s@.len() - p@.len(),
            i <= last,
            find_text(s@, p@) == find_text_from(s@, p@, i as int),
        decreases last - i,
    {
        if occurs_at_exec(s, p, i) {
            return Some(i);
        }
        if i >= last {
            assert(find_text_from(s@, p@, i + 1) is None);
            return None;
        }
        i += 1;
    }
}

} // verus!
