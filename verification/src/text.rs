//! Character classes and small string utilities shared by the parsers.
use vstd::prelude::*;

verus! {

/// `c` is one of the ASCII digits `0`..=`9`.
pub open spec fn spec_is_digit(c: char) -> bool {
    '0' <= c && c <= '9'
}

/// `c` is an ASCII letter.
pub open spec fn spec_is_alpha(c: char) -> bool {
    ('a' <= c && c <= 'z') || ('A' <= c && c <= 'Z')
}

/// `c` is an ASCII lowercase letter.
pub open spec fn spec_is_lower(c: char) -> bool {
    'a' <= c && c <= 'z'
}

/// `c` is an ASCII letter or digit.
pub open spec fn spec_is_alnum(c: char) -> bool {
    spec_is_alpha(c) || spec_is_digit(c)
}

/// `c` is an ASCII hexadecimal digit.
pub open spec fn spec_is_hex(c: char) -> bool {
    spec_is_digit(c) || ('a' <= c && c <= 'f') || ('A' <= c && c <= 'F')
}

/// `c` may continue an identifier: a letter, digit or underscore.
pub open spec fn spec_is_ident_char(c: char) -> bool {
    spec_is_alnum(c) || c == '_'
}

/// `c` may start an identifier: a letter or underscore.
pub open spec fn spec_is_ident_start(c: char) -> bool {
    spec_is_alpha(c) || c == '_'
}

pub fn is_digit(c: char) -> (b: bool)
    ensures
        b == spec_is_digit(c),
{
    '0' <= c && c <= '9'
}

pub fn is_alpha(c: char) -> (b: bool)
    ensures
        b == spec_is_alpha(c),
{
    ('a' <= c && c <= 'z') || ('A' <= c && c <= 'Z')
}

pub fn is_alnum(c: char) -> (b: bool)
    ensures
        b == spec_is_alnum(c),
{
    is_alpha(c) || is_digit(c)
}

pub fn is_lower(c: char) -> (b: bool)
    ensures
        b == spec_is_lower(c),
{
    'a' <= c && c <= 'z'
}

pub fn is_hex(c: char) -> (b: bool)
    ensures
        b == spec_is_hex(c),
{
    ('0' <= c && c <= '9') || ('a' <= c && c <= 'f') || ('A' <= c && c <= 'F')
}

pub fn is_ident_char(c: char) -> (b: bool)
    ensures
        b == spec_is_ident_char(c),
{
    is_alpha(c) || is_digit(c) || c == '_'
}

pub fn is_ident_start(c: char) -> (b: bool)
    ensures
        b == spec_is_ident_start(c),
{
    is_alpha(c) || c == '_'
}

/// The characters of `s`, as a vector.
pub fn chars_of(s: &str) -> (v: Vec<char>)
    ensures
        v@ == s@,
{
    let n = s.unicode_len();
    let mut v: Vec<char> = Vec::new();
    let mut i: usize = 0;
    while i < n
        invariant
            n == s@.len(),
            i <= n,
            v@ == s@.subrange(0, i as int),
        decreases n - i,
    {
        v.push(s.get_char(i));
        i += 1;
        proof {
            assert(v@ =~= s@.subrange(0, i as int));
        }
    }
    proof {
        assert(v@ =~= s@);
    }
    v
}

/// A `String` holding exactly the characters of `v`.
pub fn string_from_chars(v: &[char]) -> (s: String)
    ensures
        s@ == v@,
{
    let mut s = String::new();
    let mut i: usize = 0;
    while i < v.len()
        invariant
            i <= v@.len(),
            s@ == v@.subrange(0, i as int),
        decreases v@.len() - i,
    {
        push_char(&mut s, v[i]);
        i += 1;
        assert(s@ =~= v@.subrange(0, i as int));
    }
    assert(v@.subrange(0, v@.len() as int) =~= v@);
    s
}

/// Appends one character to `s` (`String::push`).
#[verifier::external_body]
pub fn push_char(s: &mut String, c: char)
    ensures
        final(s)@ == old(s)@.push(c),
{
    s.push(c)
}

/// `s` followed by `t`.
pub fn concat(s: &str, t: &str) -> (r: String)
    ensures
        r@ == s@ + t@,
{
    let mut r = String::from_str(s);
    r.append(t);
    r
}

/// `a`, `b` and `c` joined.
pub fn concat3(a: &str, b: &str, c: &str) -> (r: String)
    ensures
        r@ == a@ + b@ + c@,
{
    let mut r = String::from_str(a);
    r.append(b);
    r.append(c);
    r
}

/// Exec equality of two strings, by their characters.
pub fn str_eq(a: &str, b: &str) -> (r: bool)
    ensures
        r == (a@ == b@),
{
    let n = a.unicode_len();
    let m = b.unicode_len();
    if n != m {
        return false;
    }
    let mut i: usize = 0;
    while i < n
        invariant
            n == a@.len(),
            m == b@.len(),
            n == m,
            i <= n,
            forall|j: int| 0 <= j < i ==> a@[j] == b@[j],
        decreases n - i,
    {
        if a.get_char(i) != b.get_char(i) {
            return false;
        }
        i += 1;
    }
    proof {
        assert(a@ =~= b@);
    }
    true
}

/// Exec equality of two character sequences.
pub fn chars_eq(a: &[char], b: &[char]) -> (r: bool)
    ensures
        r == (a@ == b@),
{
    if a.len() != b.len() {
        return false;
    }
    let mut i: usize = 0;
    while i < a.len()
        invariant
            a@.len() == b@.len(),
            i <= a@.len(),
            forall|j: int| 0 <= j < i ==> a@[j] == b@[j],
        decreases a@.len() - i,
    {
        if a[i] != b[i] {
            return false;
        }
        i += 1;
    }
    proof {
        assert(a@ =~= b@);
    }
    true
}

} // verus!

verus! {

/// Whether `c` has the Unicode `White_Space` property, which is what
/// `char::is_whitespace` reports: tab through carriage return, space, next
/// line, no-break space, ogham space mark, en quad through hair space, the
/// line and paragraph separators, narrow no-break space, medium mathematical
/// space and ideographic space.
pub open spec fn char_is_whitespace(c: char) -> bool {
    let n = c as u32;
    ||| 0x09 <= n <= 0x0d
    ||| n == 0x20
    ||| n == 0x85
    ||| n == 0xa0
    ||| n == 0x1680
    ||| 0x2000 <= n <= 0x200a
    ||| n == 0x2028
    ||| n == 0x2029
    ||| n == 0x202f
    ||| n == 0x205f
    ||| n == 0x3000
}

/// Whether `c` is whitespace; among ASCII characters, exactly space, tab,
/// line feed, carriage return, form feed and vertical tab are.
pub fn is_whitespace(c: char) -> (b: bool)
    ensures
        b == char_is_whitespace(c),
        c == ' ' || c == '\t' || c == '\n' || c == '\r' || c == '\x0c' || c == '\x0b' ==> b,
        ('!' <= c && c <= '~') ==> !b,
{
    let n = c as u32;
    (0x09 <= n && n <= 0x0d) || n == 0x20 || n == 0x85 || n == 0xa0 || n == 0x1680 || (0x2000 <= n && n
        <= 0x200a) || n == 0x2028 || n == 0x2029 || n == 0x202f || n == 0x205f || n == 0x3000
}

/// Position of the first non-whitespace character of `s` (its length when
/// there is none).
pub open spec fn leading_whitespace(s: Seq<char>) -> int
    decreases s.len(),
{
    if s.len() > 0 && char_is_whitespace(s[0]) {
        1 + leading_whitespace(s.drop_first())
    } else {
        0
    }
}

/// Length of `s` once its trailing whitespace is removed.
pub open spec fn trimmed_end(s: Seq<char>) -> int
    decreases s.len(),
{
    if s.len() > 0 && char_is_whitespace(s.last()) {
        trimmed_end(s.drop_last())
    } else {
        s.len() as int
    }
}

pub proof fn lemma_leading_whitespace(s: Seq<char>)
    ensures
        0 <= leading_whitespace(s) <= s.len(),
        forall|i: int| 0 <= i < leading_whitespace(s) ==> char_is_whitespace(#[trigger] s[i]),
        leading_whitespace(s) < s.len() ==> !char_is_whitespace(s[leading_whitespace(s)]),
    decreases s.len(),
{
    if s.len() > 0 && char_is_whitespace(s[0]) {
        lemma_leading_whitespace(s.drop_first());
        assert forall|i: int| 0 <= i < leading_whitespace(s) implies char_is_whitespace(
            #[trigger] s[i],
        ) by {
            if i > 0 {
                assert(s[i] == s.drop_first()[i - 1]);
            }
        }
    }
}

/// Number of leading whitespace characters of `chars[lo..hi]`.
pub fn leading_whitespace_exec(chars: &Vec<char>, lo: usize, hi: usize) -> (n: usize)
    requires
        lo <= hi <= chars@.len(),
    ensures
        n == leading_whitespace(chars@.subrange(lo as int, hi as int)),
        lo + n <= hi,
{
    let mut i = lo;
    while i < hi && is_whitespace(chars[i])
        invariant
            lo <= i <= hi <= chars@.len(),
            leading_whitespace(chars@.subrange(lo as int, hi as int)) == (i - lo)
                + leading_whitespace(chars@.subrange(i as int, hi as int)),
        decreases hi - i,
    {
        assert(chars@.subrange(i as int, hi as int).drop_first() =~= chars@.subrange(
            i + 1,
            hi as int,
        ));
        i += 1;
    }
    proof {
        lemma_leading_whitespace(chars@.subrange(i as int, hi as int));
    }
    i - lo
}

/// Length of `chars[lo..hi]` without its trailing whitespace.
pub fn trimmed_end_exec(chars: &Vec<char>, lo: usize, hi: usize) -> (n: usize)
    requires
        lo <= hi <= chars@.len(),
    ensures
        n == trimmed_end(chars@.subrange(lo as int, hi as int)),
        n <= hi - lo,
{
    let mut j = hi;
    while j > lo && is_whitespace(chars[j - 1])
        invariant
            lo <= j <= hi <= chars@.len(),
            trimmed_end(chars@.subrange(lo as int, hi as int)) == trimmed_end(
                chars@.subrange(lo as int, j as int),
            ),
        decreases j - lo,
    {
        assert(chars@.subrange(lo as int, j as int).drop_last() =~= chars@.subrange(
            lo as int,
            j - 1,
        ));
        j -= 1;
    }
    j - lo
}

} // verus!
