//! Exact time values written as suffixed decimal text (`1m10s`, `1.5s`,
//! `12ms`, `25us`, `100ns`) and their canonical decimal-seconds form.
use vstd::prelude::*;
use crate::text::{spec_is_digit, is_digit, string_from_chars};
use crate::model::decimal::{
    all_digits, char_of_digit, decimal_digits, digits_value, lemma_decimal_digits,
    lemma_digits_value_bound, lemma_digits_value_concat, lemma_pow10_add, lemma_pow10_monotone,
    lemma_pow10_positive, parse_u64_range, pow10, spec_parse_u64, u64_to_decimal,
};

verus! {

pub const NANOS_PER_MICROSECOND: u64 = 1_000;
pub const NANOS_PER_MILLISECOND: u64 = 1_000_000;
pub const NANOS_PER_SECOND: u64 = 1_000_000_000;
pub const NANOS_PER_MINUTE: u64 = 60_000_000_000;

/// Why a time text was refused.
#[derive(Debug, Clone, Copy, PartialEq, Eq, Structural)]
pub enum TimeError {
    Empty,
    SegmentStart,
    Suffix,
    NotNumber,
    TooLarge,
    TooFine,
    SubNanosecond,
}

impl TimeError {
    /// The message reported for this error.
    pub fn message(self) -> (r: &'static str)
        ensures
            r@ == spec_time_error_message(self),
    {
        match self {
            TimeError::Empty => "time must not be empty",
            TimeError::SegmentStart => "time segment must start with a number",
            TimeError::Suffix => "time segment must use `ns`, `us`, `ms`, `s`, or `m`",
            TimeError::NotNumber => "time amount must be a number",
            TimeError::TooLarge => "time is too large",
            TimeError::TooFine => "time precision is too fine",
            TimeError::SubNanosecond => "time precision is finer than one nanosecond",
        }
    }
}

pub open spec fn spec_time_error_message(e: TimeError) -> Seq<char> {
    match e {
        TimeError::Empty => "time must not be empty"@,
        TimeError::SegmentStart => "time segment must start with a number"@,
        TimeError::Suffix => "time segment must use `ns`, `us`, `ms`, `s`, or `m`"@,
        TimeError::NotNumber => "time amount must be a number"@,
        TimeError::TooLarge => "time is too large"@,
        TimeError::TooFine => "time precision is too fine"@,
        TimeError::SubNanosecond => "time precision is finer than one nanosecond"@,
    }
}

/// A character that may appear in the numeric part of a segment.
pub open spec fn is_amount_char(c: char) -> bool {
    spec_is_digit(c) || c == '.'
}

/// End of the run of amount characters that starts at `i`.
pub open spec fn amount_end(s: Seq<char>, i: int) -> int
    decreases s.len() - i,
{
    if 0 <= i < s.len() && is_amount_char(s[i]) {
        amount_end(s, i + 1)
    } else {
        i
    }
}

/// Index of the first `c` at or after `i`, or `s.len()` when there is none.
pub open spec fn first_index_of(s: Seq<char>, c: char, i: int) -> int
    decreases s.len() - i,
{
    if i < 0 {
        s.len() as int
    } else if i < s.len() {
        if s[i] == c {
            i
        } else {
            first_index_of(s, c, i + 1)
        }
    } else {
        s.len() as int
    }
}

/// The unit that starts at `j`: its length in nanoseconds and the suffix length.
pub open spec fn time_suffix(s: Seq<char>, j: int) -> Option<(nat, int)> {
    if j + 1 < s.len() && s[j] == 'n' && s[j + 1] == 's' {
        Some((1, 2))
    } else if j + 1 < s.len() && s[j] == 'u' && s[j + 1] == 's' {
        Some((NANOS_PER_MICROSECOND as nat, 2))
    } else if j + 1 < s.len() && s[j] == 'm' && s[j + 1] == 's' {
        Some((NANOS_PER_MILLISECOND as nat, 2))
    } else if 0 <= j < s.len() && s[j] == 's' {
        Some((NANOS_PER_SECOND as nat, 1))
    } else if 0 <= j < s.len() && s[j] == 'm' {
        Some((NANOS_PER_MINUTE as nat, 1))
    } else {
        None
    }
}

/// The nanoseconds that the decimal `amount` of a unit of `unit` nanoseconds
/// writes, with the errors checked in the order the reader meets them.
pub open spec fn spec_decimal_amount(amount: Seq<char>, unit: nat) -> Result<nat, TimeError> {
    let k = first_index_of(amount, '.', 0);
    if k == amount.len() {
        match spec_parse_u64(amount) {
            None => Err(TimeError::NotNumber),
            Some(v) => if (v as nat) * unit > u64::MAX {
                Err(TimeError::TooLarge)
            } else {
                Ok((v as nat) * unit)
            },
        }
    } else {
        let whole = amount.subrange(0, k);
        let frac = amount.subrange(k + 1, amount.len() as int);
        if whole.len() == 0 || frac.len() == 0 || first_index_of(frac, '.', 0) < frac.len() {
            Err(TimeError::NotNumber)
        } else if !all_digits(whole) || !all_digits(frac) {
            Err(TimeError::NotNumber)
        } else {
            match spec_parse_u64(whole) {
                None => Err(TimeError::NotNumber),
                Some(w) => if (w as nat) * unit > u64::MAX {
                    Err(TimeError::TooLarge)
                } else if frac.len() > 19 {
                    Err(TimeError::TooFine)
                } else {
                    match spec_parse_u64(frac) {
                        None => Err(TimeError::NotNumber),
                        Some(f) => {
                            let scaled: nat = (f as nat) * unit;
                            let scale: nat = pow10(frac.len());
                            let whole_nanos: nat = (w as nat) * unit;
                            if scaled > u64::MAX {
                                Err(TimeError::TooLarge)
                            } else if scaled % scale != 0 {
                                Err(TimeError::SubNanosecond)
                            } else if whole_nanos + scaled / scale > u64::MAX {
                                Err(TimeError::TooLarge)
                            } else {
                                Ok(whole_nanos + scaled / scale)
                            }
                        },
                    }
                },
            }
        }
    }
}

pub proof fn lemma_amount_end_bounds(s: Seq<char>, i: int)
    requires
        0 <= i,
    ensures
        i <= amount_end(s, i),
        amount_end(s, i) <= i || amount_end(s, i) <= s.len(),
        forall|k: int| i <= k < amount_end(s, i) ==> is_amount_char(#[trigger] s[k]),
        amount_end(s, i) < s.len() ==> !is_amount_char(s[amount_end(s, i)]),
    decreases s.len() - i,
{
    if 0 <= i < s.len() && is_amount_char(s[i]) {
        lemma_amount_end_bounds(s, i + 1);
    }
}

/// The nanoseconds written by the segments of `s` from `i` on, added to `total`.
pub open spec fn spec_parse_time_from(s: Seq<char>, i: int, total: nat) -> Result<nat, TimeError>
    decreases s.len() - i,
{
    if i < 0 || i >= s.len() {
        Ok(total)
    } else {
        let e = amount_end(s, i);
        if e <= i {
            Err(TimeError::SegmentStart)
        } else {
            match time_suffix(s, e) {
                None => Err(TimeError::Suffix),
                Some((unit, len)) => match spec_decimal_amount(s.subrange(i, e), unit) {
                    Err(err) => Err(err),
                    Ok(segment) => if total + segment > u64::MAX {
                        Err(TimeError::TooLarge)
                    } else {
                        spec_parse_time_from(s, e + len, total + segment)
                    },
                },
            }
        }
    }
}

/// What a time text is worth in nanoseconds: the sum of its segments.
pub open spec fn spec_parse_time(s: Seq<char>) -> Result<nat, TimeError> {
    if s.len() == 0 {
        Err(TimeError::Empty)
    } else {
        spec_parse_time_from(s, 0, 0)
    }
}

/// Index of the first `c` in `chars[lo..hi]`, or `hi`.
fn find_char(chars: &Vec<char>, c: char, lo: usize, hi: usize) -> (k: usize)
    requires
        lo <= hi <= chars@.len(),
    ensures
        lo <= k <= hi,
        k == lo + first_index_of(chars@.subrange(lo as int, hi as int), c, 0),
{
    let ghost s = chars@.subrange(lo as int, hi as int);
    let mut k = lo;
    while k < hi
        invariant
            lo <= k <= hi <= chars@.len(),
            s == chars@.subrange(lo as int, hi as int),
            first_index_of(s, c, 0) == first_index_of(s, c, k - lo),
        decreases hi - k,
    {
        assert(s[k - lo] == chars@[k as int]);
        if chars[k] == c {
            return k;
        }
        k += 1;
    }
    k
}

/// `chars[lo..hi]` consists of digits.
fn all_digits_range(chars: &Vec<char>, lo: usize, hi: usize) -> (b: bool)
    requires
        lo <= hi <= chars@.len(),
    ensures
        b == all_digits(chars@.subrange(lo as int, hi as int)),
{
    let ghost s = chars@.subrange(lo as int, hi as int);
    let mut k = lo;
    while k < hi
        invariant
            lo <= k <= hi <= chars@.len(),
            s == chars@.subrange(lo as int, hi as int),
            forall|j: int| 0 <= j < k - lo ==> spec_is_digit(#[trigger] s[j]),
        decreases hi - k,
    {
        if !is_digit(chars[k]) {
            assert(s[k - lo] == chars@[k as int]);
            return false;
        }
        k += 1;
    }
    true
}

/// Nanoseconds of the decimal `chars[lo..hi]` in units of `unit` nanoseconds.
fn decimal_amount_nanos(chars: &Vec<char>, lo: usize, hi: usize, unit: u64) -> (r: Result<
    u64,
    TimeError,
>)
    requires
        lo <= hi <= chars@.len(),
    ensures
        r matches Ok(v) ==> spec_decimal_amount(chars@.subrange(lo as int, hi as int), unit as nat)
            == Ok::<nat, TimeError>(v as nat),
        r matches Err(e) ==> spec_decimal_amount(chars@.subrange(lo as int, hi as int), unit as nat)
            == Err::<nat, TimeError>(e),
{
    let ghost amount = chars@.subrange(lo as int, hi as int);
    let k = find_char(chars, '.', lo, hi);
    if k == hi {
        return match parse_u64_range(chars, lo, hi) {
            None => Err(TimeError::NotNumber),
            Some(v) => match v.checked_mul(unit) {
                None => Err(TimeError::TooLarge),
                Some(x) => Ok(x),
            },
        };
    }
    let ghost whole = amount.subrange(0, k - lo);
    let ghost frac = amount.subrange(k - lo + 1, amount.len() as int);
    assert(whole =~= chars@.subrange(lo as int, k as int));
    assert(frac =~= chars@.subrange(k + 1, hi as int));
    if k == lo || k + 1 == hi {
        return Err(TimeError::NotNumber);
    }
    let k2 = find_char(chars, '.', k + 1, hi);
    if k2 < hi {
        return Err(TimeError::NotNumber);
    }
    if !all_digits_range(chars, lo, k) || !all_digits_range(chars, k + 1, hi) {
        return Err(TimeError::NotNumber);
    }
    let w = match parse_u64_range(chars, lo, k) {
        None => {
            return Err(TimeError::NotNumber);
        },
        Some(w) => w,
    };
    let whole_nanos = match w.checked_mul(unit) {
        None => {
            return Err(TimeError::TooLarge);
        },
        Some(x) => x,
    };
    let flen = hi - (k + 1);
    if flen > 19 {
        return Err(TimeError::TooFine);
    }
    let scale = pow10_exec(flen as u32);
    let f = match parse_u64_range(chars, k + 1, hi) {
        None => {
            return Err(TimeError::NotNumber);
        },
        Some(f) => f,
    };
    let scaled = match f.checked_mul(unit) {
        None => {
            return Err(TimeError::TooLarge);
        },
        Some(x) => x,
    };
    if scaled % scale != 0 {
        return Err(TimeError::SubNanosecond);
    }
    match whole_nanos.checked_add(scaled / scale) {
        None => Err(TimeError::TooLarge),
        Some(x) => Ok(x),
    }
}

pub proof fn lemma_pow10_19()
    ensures
        pow10(19) == 10_000_000_000_000_000_000nat,
{
    reveal_with_fuel(pow10, 20);
}

/// Ten to the power `n`, for `n <= 19`.
pub fn pow10_exec(n: u32) -> (r: u64)
    requires
        n <= 19,
    ensures
        r as nat == pow10(n as nat),
        r >= 1,
{
    let mut r: u64 = 1;
    let mut i: u32 = 0;
    while i < n
        invariant
            i <= n <= 19,
            r as nat == pow10(i as nat),
        decreases n - i,
    {
        proof {
            lemma_pow10_monotone((i + 1) as nat, 19);
            lemma_pow10_19();
        }
        r = r * 10;
        i += 1;
    }
    proof {
        lemma_pow10_positive(n as nat);
    }
    r
}

/// Reads a time text (`1m1.5s`, `250ms`, ...) as nanoseconds.
pub fn parse_time_nanoseconds(value: &str) -> (r: Result<u64, TimeError>)
    ensures
        r matches Ok(v) ==> spec_parse_time(value@) == Ok::<nat, TimeError>(v as nat),
        r matches Err(e) ==> spec_parse_time(value@) == Err::<nat, TimeError>(e),
{
    let chars = crate::text::chars_of(value);
    let n = chars.len();
    if n == 0 {
        return Err(TimeError::Empty);
    }
    let mut pos: usize = 0;
    let mut total: u64 = 0;
    while pos < n
        invariant
            n == chars@.len(),
            chars@ == value@,
            pos <= n,
            spec_parse_time(value@) == spec_parse_time_from(chars@, pos as int, total as nat),
        decreases n - pos,
    {
        let mut e = pos;
        while e < n && (is_digit(chars[e]) || chars[e] == '.')
            invariant
                pos <= e <= n,
                n == chars@.len(),
                amount_end(chars@, pos as int) == amount_end(chars@, e as int),
            decreases n - e,
        {
            e += 1;
        }
        proof {
            lemma_amount_end_bounds(chars@, pos as int);
        }
        if e == pos {
            return Err(TimeError::SegmentStart);
        }
        let (unit, len): (u64, usize) = if n - e > 1 && chars[e] == 'n' && chars[e + 1] == 's' {
            (1, 2)
        } else if n - e > 1 && chars[e] == 'u' && chars[e + 1] == 's' {
            (NANOS_PER_MICROSECOND, 2)
        } else if n - e > 1 && chars[e] == 'm' && chars[e + 1] == 's' {
            (NANOS_PER_MILLISECOND, 2)
        } else if e < n && chars[e] == 's' {
            (NANOS_PER_SECOND, 1)
        } else if e < n && chars[e] == 'm' {
            (NANOS_PER_MINUTE, 1)
        } else {
            return Err(TimeError::Suffix);
        };
        assert(time_suffix(chars@, e as int) == Some((unit as nat, len as int)));
        let segment = match decimal_amount_nanos(&chars, pos, e, unit) {
            Err(err) => {
                return Err(err);
            },
            Ok(v) => v,
        };
        total = match total.checked_add(segment) {
            None => {
                return Err(TimeError::TooLarge);
            },
            Some(t) => t,
        };
        pos = e + len;
    }
    Ok(total)
}

} // verus!

verus! {

/// The last `w` decimal digits of `n`, most significant first (`{n:0w}` when
/// `n < 10^w`).
pub open spec fn fixed_digits(n: nat, w: nat) -> Seq<char>
    decreases w,
{
    if w == 0 {
        Seq::empty()
    } else {
        fixed_digits(n / 10, (w - 1) as nat).push((('0' as nat) + n % 10) as char)
    }
}

/// `t` without its trailing `0` characters.
pub open spec fn strip_trailing_zeros(t: Seq<char>) -> Seq<char>
    decreases t.len(),
{
    if t.len() > 0 && t.last() == '0' {
        strip_trailing_zeros(t.drop_last())
    } else {
        t
    }
}

/// The canonical text of `n` nanoseconds: whole seconds, then the fraction
/// without trailing zeros when there is one, then `s`.
pub open spec fn spec_format_seconds(n: nat) -> Seq<char> {
    let secs = n / (NANOS_PER_SECOND as nat);
    let frac = n % (NANOS_PER_SECOND as nat);
    if frac == 0 {
        decimal_digits(secs) + seq!['s']
    } else {
        decimal_digits(secs) + seq!['.'] + strip_trailing_zeros(fixed_digits(frac, 9)) + seq!['s']
    }
}

fn fixed_digits_exec(n: u64, w: usize) -> (r: Vec<char>)
    ensures
        r@ == fixed_digits(n as nat, w as nat),
    decreases w,
{
    if w == 0 {
        Vec::new()
    } else {
        let mut r = fixed_digits_exec(n / 10, w - 1);
        r.push(char_of_digit((n % 10) as u32));
        r
    }
}

fn strip_trailing_zeros_exec(v: &mut Vec<char>)
    ensures
        final(v)@ == strip_trailing_zeros(old(v)@),
{
    while v.len() > 0 && v[v.len() - 1] == '0'
        invariant
            strip_trailing_zeros(v@) == strip_trailing_zeros(old(v)@),
        decreases v@.len(),
    {
        v.pop();
    }
}

/// Writes `nanoseconds` as canonical decimal seconds (`0s`, `1.5s`, `0.016666667s`).
pub fn format_nanoseconds_as_seconds(nanoseconds: u64) -> (r: String)
    ensures
        r@ == spec_format_seconds(nanoseconds as nat),
{
    let seconds = nanoseconds / NANOS_PER_SECOND;
    let fractional = nanoseconds % NANOS_PER_SECOND;
    let mut text = u64_to_decimal(seconds);
    if fractional != 0 {
        text.push('.');
        let mut frac = fixed_digits_exec(fractional, 9);
        strip_trailing_zeros_exec(&mut frac);
        let mut i: usize = 0;
        let ghost before = text@;
        while i < frac.len()
            invariant
                i <= frac@.len(),
                text@ == before + frac@.subrange(0, i as int),
            decreases frac@.len() - i,
        {
            text.push(frac[i]);
            i += 1;
            assert(text@ =~= before + frac@.subrange(0, i as int));
        }
        assert(frac@.subrange(0, frac@.len() as int) =~= frac@);
    }
    text.push('s');
    proof {
        assert(text@ =~= spec_format_seconds(nanoseconds as nat));
    }
    string_from_chars(text.as_slice())
}

/// `n` zeros.
pub open spec fn zeros(n: nat) -> Seq<char> {
    Seq::new(n, |i: int| '0')
}

proof fn lemma_zeros_value(n: nat)
    ensures
        digits_value(zeros(n)) == 0,
        all_digits(zeros(n)),
    decreases n,
{
    if n > 0 {
        assert(zeros(n).drop_last() =~= zeros((n - 1) as nat));
        lemma_zeros_value((n - 1) as nat);
    }
}

proof fn lemma_fixed_digits(n: nat, w: nat)
    requires
        n < pow10(w),
    ensures
        fixed_digits(n, w).len() == w,
        all_digits(fixed_digits(n, w)),
        digits_value(fixed_digits(n, w)) == n,
    decreases w,
{
    if w > 0 {
        assert(n / 10 < pow10((w - 1) as nat)) by (nonlinear_arith)
            requires
                n < pow10(w),
                pow10(w) == 10 * pow10((w - 1) as nat),
        ;
        lemma_fixed_digits(n / 10, (w - 1) as nat);
        let s = fixed_digits(n, w);
        let c = (('0' as nat) + n % 10) as char;
        assert(c as nat == ('0' as nat) + n % 10);
        assert(s.drop_last() =~= fixed_digits(n / 10, (w - 1) as nat));
        assert(s.last() == c);
        assert forall|i: int| 0 <= i < s.len() implies spec_is_digit(#[trigger] s[i]) by {
            if i < s.len() - 1 {
                assert(s[i] == fixed_digits(n / 10, (w - 1) as nat)[i]);
            }
        }
        assert(n == (n / 10) * 10 + n % 10) by (nonlinear_arith);
    } else {
        assert(pow10(0) == 1);
    }
}

proof fn lemma_strip_trailing_zeros(t: Seq<char>)
    ensures
        t == strip_trailing_zeros(t) + zeros((t.len() - strip_trailing_zeros(t).len()) as nat),
        strip_trailing_zeros(t).len() <= t.len(),
        strip_trailing_zeros(t).len() > 0 ==> strip_trailing_zeros(t).last() != '0',
    decreases t.len(),
{
    if t.len() > 0 && t.last() == '0' {
        lemma_strip_trailing_zeros(t.drop_last());
        let u = strip_trailing_zeros(t.drop_last());
        let k = (t.drop_last().len() - u.len()) as nat;
        assert(t =~= u + zeros(k + 1)) by {
            assert(t.drop_last() =~= u + zeros(k));
            assert forall|i: int| 0 <= i < t.len() implies t[i] == (u + zeros(k + 1))[i] by {
                if i < t.len() - 1 {
                    assert(t[i] == t.drop_last()[i]);
                }
            }
        }
    } else {
        assert(t =~= t + zeros(0));
    }
}

/// The run of amount characters starting at `i` ends at `j`.
proof fn lemma_amount_end_at(s: Seq<char>, i: int, j: int)
    requires
        0 <= i <= j <= s.len(),
        forall|k: int| i <= k < j ==> is_amount_char(#[trigger] s[k]),
        j == s.len() || !is_amount_char(s[j]),
    ensures
        amount_end(s, i) == j,
    decreases j - i,
{
    if i < j {
        lemma_amount_end_at(s, i + 1, j);
    }
}

/// The first `c` at or after `i` is at `j`.
proof fn lemma_first_index_at(s: Seq<char>, c: char, i: int, j: int)
    requires
        0 <= i <= j <= s.len(),
        forall|k: int| i <= k < j ==> #[trigger] s[k] != c,
        j == s.len() || s[j] == c,
    ensures
        first_index_of(s, c, i) == j,
    decreases j - i,
{
    if i < j {
        lemma_first_index_at(s, c, i + 1, j);
    }
}

proof fn lemma_parse_decimal_digits(n: nat)
    requires
        n <= u64::MAX,
    ensures
        spec_parse_u64(decimal_digits(n)) == Some(n as u64),
{
    lemma_decimal_digits(n);
}

/// Reading back the canonical text of a time gives the same number of
/// nanoseconds: `parse_time_nanoseconds(format_nanoseconds_as_seconds(n)) == Ok(n)`.
pub proof fn lemma_time_format_parse_roundtrip(n: u64)
    ensures
        spec_parse_time(spec_format_seconds(n as nat)) == Ok::<nat, TimeError>(n as nat),
{
    let ns: nat = NANOS_PER_SECOND as nat;
    let secs: nat = (n as nat) / ns;
    let frac: nat = (n as nat) % ns;
    let d = decimal_digits(secs);
    lemma_decimal_digits(secs);
    assert(secs * ns + frac == n as nat) by (nonlinear_arith)
        requires
            secs == (n as nat) / ns,
            frac == (n as nat) % ns,
            ns > 0,
    ;
    assert(secs * ns <= n as nat);
    assert(secs <= n as nat) by (nonlinear_arith)
        requires
            secs * ns <= n as nat,
            ns >= 1,
    ;
    lemma_parse_decimal_digits(secs);
    let s = spec_format_seconds(n as nat);
    if frac == 0 {
        assert(s == d + seq!['s']);
        let e = d.len() as int;
        assert forall|k: int| 0 <= k < e implies is_amount_char(#[trigger] s[k]) by {
            assert(s[k] == d[k]);
        }
        assert(s[e] == 's');
        lemma_amount_end_at(s, 0, e);
        assert(time_suffix(s, e) == Some((ns, 1int)));
        let amount = s.subrange(0, e);
        assert(amount =~= d);
        assert forall|k: int| 0 <= k < d.len() implies #[trigger] d[k] != '.' by {
            assert(spec_is_digit(d[k]));
        }
        lemma_first_index_at(d, '.', 0, d.len() as int);
        assert(spec_decimal_amount(amount, ns) == Ok::<nat, TimeError>(secs * ns));
        assert(spec_parse_time_from(s, e + 1, secs * ns) == Ok::<nat, TimeError>(secs * ns));
    } else {
        lemma_pow10_9();
        assert(frac < pow10(9));
        lemma_fixed_digits(frac, 9);
        let fx = fixed_digits(frac, 9);
        let f = strip_trailing_zeros(fx);
        lemma_strip_trailing_zeros(fx);
        let l = f.len();
        let z = (9 - l) as nat;
        assert(fx =~= f + zeros(z));
        lemma_digits_value_concat(f, zeros(z));
        lemma_zeros_value(z);
        let fv = digits_value(f);
        assert(frac == fv * pow10(z));
        assert(l > 0) by {
            if l == 0 {
                assert(f =~= Seq::<char>::empty());
                assert(fv == 0);
                assert(0 * pow10(z) == 0);
            }
        }
        assert(all_digits(f)) by {
            assert forall|k: int| 0 <= k < f.len() implies spec_is_digit(#[trigger] f[k]) by {
                assert(f[k] == fx[k]);
            }
        }
        lemma_digits_value_bound(f);
        lemma_pow10_monotone(l, 9);
        assert(s == d + seq!['.'] + f + seq!['s']);
        let e = (d.len() + 1 + l) as int;
        assert forall|k: int| 0 <= k < e implies is_amount_char(#[trigger] s[k]) by {
            if k < d.len() {
                assert(s[k] == d[k]);
            } else if k > d.len() {
                assert(s[k] == f[k - d.len() - 1]);
            }
        }
        assert(s[e] == 's');
        lemma_amount_end_at(s, 0, e);
        assert(time_suffix(s, e) == Some((ns, 1int)));
        let amount = s.subrange(0, e);
        assert(amount =~= d + seq!['.'] + f);
        assert forall|k: int| 0 <= k < d.len() implies #[trigger] amount[k] != '.' by {
            assert(amount[k] == d[k]);
            assert(spec_is_digit(d[k]));
        }
        lemma_first_index_at(amount, '.', 0, d.len() as int);
        assert(amount.subrange(0, d.len() as int) =~= d);
        assert(amount.subrange(d.len() + 1int, amount.len() as int) =~= f);
        assert forall|k: int| 0 <= k < f.len() implies #[trigger] f[k] != '.' by {
            assert(spec_is_digit(f[k]));
        }
        lemma_first_index_at(f, '.', 0, f.len() as int);
        assert(fv < pow10(9));
        assert(spec_parse_u64(f) == Some(fv as u64));
        lemma_pow10_add(z, l);
        assert(z + l == 9);
        let scaled: nat = fv * ns;
        assert(scaled == frac * pow10(l)) by (nonlinear_arith)
            requires
                scaled == fv * ns,
                frac == fv * pow10(z),
                ns == pow10(9),
                pow10(9) == pow10(z) * pow10(l),
        ;
        assert(frac * pow10(l) <= 999_999_999 * 1_000_000_000) by (nonlinear_arith)
            requires
                frac < 1_000_000_000,
                pow10(l) <= pow10(9),
                pow10(9) == 1_000_000_000,
        ;
        lemma_pow10_positive(l);
        assert(scaled % pow10(l) == 0 && scaled / pow10(l) == frac) by (nonlinear_arith)
            requires
                scaled == frac * pow10(l),
                pow10(l) >= 1,
        ;
        assert(spec_decimal_amount(amount, ns) == Ok::<nat, TimeError>(secs * ns + frac));
        assert(spec_parse_time_from(s, e + 1, secs * ns + frac) == Ok::<nat, TimeError>(
            secs * ns + frac,
        ));
    }
}

proof fn lemma_pow10_9()
    ensures
        pow10(9) == 1_000_000_000,
{
    reveal_with_fuel(pow10, 10);
}

} // verus!
