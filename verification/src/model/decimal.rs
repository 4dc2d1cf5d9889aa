//! Decimal digit strings: their values, and the exec readers and writers
//! that the unit parsers and formatters are built from.
use vstd::prelude::*;
use crate::text::{spec_is_digit, is_digit};

verus! {

/// Value of the digit `c`.
pub open spec fn digit_value(c: char) -> nat {
    (c as nat - '0' as nat) as nat
}

/// Every character of `s` is an ASCII digit.
pub open spec fn all_digits(s: Seq<char>) -> bool {
    forall|i: int| 0 <= i < s.len() ==> spec_is_digit(#[trigger] s[i])
}

/// The number that the digit string `s` writes in base ten (0 for the empty string).
pub open spec fn digits_value(s: Seq<char>) -> nat
    decreases s.len(),
{
    if s.len() == 0 {
        0
    } else {
        digits_value(s.drop_last()) * 10 + digit_value(s.last())
    }
}

/// Ten to the power `n`.
pub open spec fn pow10(n: nat) -> nat
    decreases n,
{
    if n == 0 {
        1
    } else {
        10 * pow10((n - 1) as nat)
    }
}

/// What `u64::from_str` gives on a string of ASCII digits: the value when it
/// is non-empty and fits.
pub open spec fn spec_parse_u64(s: Seq<char>) -> Option<u64> {
    if s.len() > 0 && all_digits(s) && digits_value(s) <= u64::MAX {
        Some(digits_value(s) as u64)
    } else {
        None
    }
}

pub proof fn lemma_pow10_positive(n: nat)
    ensures
        pow10(n) >= 1,
    decreases n,
{
    if n > 0 {
        lemma_pow10_positive((n - 1) as nat);
    }
}

pub proof fn lemma_pow10_add(a: nat, b: nat)
    ensures
        pow10(a + b) == pow10(a) * pow10(b),
    decreases a,
{
    if a > 0 {
        lemma_pow10_add((a - 1) as nat, b);
        let ab: nat = (a - 1) as nat + b;
        assert(ab + 1 == a + b);
        assert(pow10(ab + 1) == 10 * pow10(ab));
        let x = pow10((a - 1) as nat);
        let y = pow10(b);
        assert(pow10(a) == 10 * x);
        assert((10 * x) * y == 10 * (x * y)) by (nonlinear_arith);
        assert(pow10(ab) == x * y);
        assert(pow10(a + b) == 10 * (x * y));
        assert(pow10(a) * pow10(b) == (10 * x) * y);
    } else {
        let y = pow10(b);
        assert(1 * y == y);
        assert(pow10(0) == 1);
    }
}

pub proof fn lemma_pow10_monotone(a: nat, b: nat)
    requires
        a <= b,
    ensures
        pow10(a) <= pow10(b),
    decreases b,
{
    if a < b {
        lemma_pow10_monotone(a, (b - 1) as nat);
        lemma_pow10_positive((b - 1) as nat);
    }
}

/// A prefix of a digit string never writes a larger number.
pub proof fn lemma_digits_value_prefix(s: Seq<char>, j: int)
    requires
        0 <= j <= s.len(),
    ensures
        digits_value(s.subrange(0, j)) <= digits_value(s),
    decreases s.len(),
{
    if j < s.len() {
        assert(s.drop_last() =~= s.subrange(0, s.len() - 1));
        lemma_digits_value_prefix(s.drop_last(), j);
        assert(s.drop_last().subrange(0, j) =~= s.subrange(0, j));
    } else {
        assert(s.subrange(0, j) =~= s);
    }
}

/// A digit string is bounded by the power of ten of its length.
pub proof fn lemma_digits_value_bound(s: Seq<char>)
    requires
        all_digits(s),
    ensures
        digits_value(s) < pow10(s.len()),
    decreases s.len(),
{
    if s.len() > 0 {
        let t = s.drop_last();
        assert(all_digits(t)) by {
            assert forall|i: int| 0 <= i < t.len() implies spec_is_digit(#[trigger] t[i]) by {
                assert(t[i] == s[i]);
            }
        }
        lemma_digits_value_bound(t);
        assert(spec_is_digit(s[s.len() - 1]));
        let d = digit_value(s.last());
        assert(d <= 9);
        assert(digits_value(t) * 10 + d < pow10(t.len()) * 10) by (nonlinear_arith)
            requires
                digits_value(t) < pow10(t.len()),
                d <= 9,
        ;
    }
}

/// `digits_value` of a concatenation.
pub proof fn lemma_digits_value_concat(s: Seq<char>, t: Seq<char>)
    ensures
        digits_value(s + t) == digits_value(s) * pow10(t.len()) + digits_value(t),
    decreases t.len(),
{
    if t.len() == 0 {
        assert(s + t =~= s);
        let x = digits_value(s);
        assert(x * 1 == x);
        assert(pow10(0) == 1);
        assert(digits_value(t) == 0);
    } else {
        let st = s + t;
        assert(st.drop_last() =~= s + t.drop_last());
        lemma_digits_value_concat(s, t.drop_last());
        assert(st.last() == t.last());
        let a = digits_value(s);
        let b = digits_value(t.drop_last());
        let p = pow10(t.drop_last().len());
        assert(pow10(t.len()) == 10 * p);
        assert((a * p + b) * 10 + digit_value(t.last()) == a * (10 * p) + (b * 10 + digit_value(
            t.last(),
        ))) by (nonlinear_arith);
    }
}

/// Reads the digits `chars[lo..hi]` the way `u64::from_str` reads a string of
/// digits.
pub fn parse_u64_range(chars: &Vec<char>, lo: usize, hi: usize) -> (r: Option<u64>)
    requires
        lo <= hi <= chars@.len(),
    ensures
        r == spec_parse_u64(chars@.subrange(lo as int, hi as int)),
{
    let ghost s = chars@.subrange(lo as int, hi as int);
    if lo == hi {
        return None;
    }
    let mut v: u64 = 0;
    let mut i = lo;
    while i < hi
        invariant
            lo <= i <= hi <= chars@.len(),
            s == chars@.subrange(lo as int, hi as int),
            all_digits(chars@.subrange(lo as int, i as int)),
            v as nat == digits_value(chars@.subrange(lo as int, i as int)),
        decreases hi - i,
    {
        let c = chars[i];
        let ghost prefix = chars@.subrange(lo as int, i as int);
        let ghost next = chars@.subrange(lo as int, i + 1);
        assert(next.drop_last() =~= prefix);
        if !is_digit(c) {
            assert(!all_digits(s)) by {
                assert(s[i - lo] == c);
            }
            return None;
        }
        assert(all_digits(next)) by {
            assert forall|k: int| 0 <= k < next.len() implies spec_is_digit(#[trigger] next[k]) by {
                if k < prefix.len() {
                    assert(next[k] == prefix[k]);
                }
            }
        }
        let d = (c as u32 - '0' as u32) as u64;
        assert(d as nat == digit_value(c));
        assert(digits_value(next) == digits_value(prefix) * 10 + digit_value(c));
        match v.checked_mul(10) {
            None => {
                proof {
                    assert(v * 10 > u64::MAX);
                    assert(s.subrange(0, i + 1 - lo) =~= next);
                    lemma_no_parse_when_prefix_large(s, (i + 1 - lo) as int);
                }
                return None;
            },
            Some(w) => match w.checked_add(d) {
                None => {
                    proof {
                        assert(w + d > u64::MAX);
                        assert(s.subrange(0, i + 1 - lo) =~= next);
                        lemma_no_parse_when_prefix_large(s, (i + 1 - lo) as int);
                    }
                    return None;
                },
                Some(x) => {
                    v = x;
                },
            },
        }
        i += 1;
    }
    assert(chars@.subrange(lo as int, i as int) =~= s);
    Some(v)
}

/// When some prefix of `s` already writes more than `u64::MAX`, `s` does not
/// parse.
pub proof fn lemma_no_parse_when_prefix_large(s: Seq<char>, j: int)
    requires
        0 <= j <= s.len(),
        all_digits(s.subrange(0, j)) && digits_value(s.subrange(0, j)) > u64::MAX,
    ensures
        spec_parse_u64(s).is_none(),
{
    if all_digits(s) {
        lemma_digits_value_prefix(s, j);
    }
}

/// The shortest decimal digit string writing `n`.
pub open spec fn decimal_digits(n: nat) -> Seq<char>
    decreases n,
{
    if n < 10 {
        seq![(('0' as nat) + n) as char]
    } else {
        decimal_digits(n / 10).push((('0' as nat) + n % 10) as char)
    }
}

/// `decimal_digits` writes `n` with digits only.
pub proof fn lemma_decimal_digits(n: nat)
    ensures
        all_digits(decimal_digits(n)),
        digits_value(decimal_digits(n)) == n,
        decimal_digits(n).len() >= 1,
    decreases n,
{
    if n >= 10 {
        lemma_decimal_digits(n / 10);
        let s = decimal_digits(n);
        let c = (('0' as nat) + n % 10) as char;
        assert(c as nat == ('0' as nat) + n % 10);
        assert(s.last() == c);
        assert(s.drop_last() =~= decimal_digits(n / 10));
        assert(digits_value(s) == (n / 10) * 10 + n % 10);
        assert(n == (n / 10) * 10 + n % 10) by (nonlinear_arith);
        assert forall|i: int| 0 <= i < s.len() implies spec_is_digit(#[trigger] s[i]) by {
            if i < s.len() - 1 {
                assert(s[i] == decimal_digits(n / 10)[i]);
            }
        }
    } else {
        let s = decimal_digits(n);
        let c = (('0' as nat) + n) as char;
        assert(c as nat == ('0' as nat) + n);
        assert(s.last() == c);
        assert(s.drop_last() =~= Seq::<char>::empty());
        assert(digits_value(s.drop_last()) == 0);
        assert(digit_value(c) == n);
        assert(digits_value(s) == digits_value(s.drop_last()) * 10 + digit_value(s.last()));
        assert(spec_is_digit(s[0]));
    }
}

/// `n` written in base ten.
pub fn u64_to_decimal(n: u64) -> (r: Vec<char>)
    ensures
        r@ == decimal_digits(n as nat),
    decreases n,
{
    if n < 10 {
        let c = char_of_digit(n as u32);
        let mut r = Vec::new();
        r.push(c);
        assert(r@ =~= decimal_digits(n as nat));
        r
    } else {
        let mut r = u64_to_decimal(n / 10);
        let c = char_of_digit((n % 10) as u32);
        r.push(c);
        r
    }
}

/// `n` written in base ten, left-padded with zeros to at least `width` characters.
pub open spec fn padded_digits(n: nat, width: nat) -> Seq<char> {
    let d = decimal_digits(n);
    if d.len() >= width {
        d
    } else {
        Seq::new((width - d.len()) as nat, |i: int| '0') + d
    }
}

/// The character of the digit `d`.
pub fn char_of_digit(d: u32) -> (c: char)
    requires
        d < 10,
    ensures
        c == (('0' as nat) + d) as char,
        spec_is_digit(c),
        digit_value(c) == d,
{
    match d {
        0 => '0',
        1 => '1',
        2 => '2',
        3 => '3',
        4 => '4',
        5 => '5',
        6 => '6',
        7 => '7',
        8 => '8',
        _ => '9',
    }
}

} // verus!
