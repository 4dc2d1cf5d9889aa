//! Integer-backed time and distance values and the integer conversions that
//! the YAML layer makes on them.
use vstd::prelude::*;
use crate::text::{chars_of, is_digit, spec_is_digit};
use crate::model::decimal::{
    all_digits, digits_value, lemma_pow10_monotone, lemma_pow10_positive, parse_u64_range, pow10,
    spec_parse_u64,
};
use crate::model::time::{
    first_index_of, format_nanoseconds_as_seconds, lemma_pow10_19, parse_time_nanoseconds,
    pow10_exec, spec_format_seconds, spec_parse_time, TimeError,
};

verus! {

pub const MICROMETERS_PER_METER: i64 = 1_000_000;
pub const MICROMETERS_PER_CENTIMETER: i64 = 10_000;
pub const MICROMETERS_PER_MILLIMETER: i64 = 1_000;

/// A point in time, in whole nanoseconds.
#[derive(Debug, Clone, Copy, PartialEq, Eq, Ord, Hash, Default, Structural)]
pub struct Time {
    nanoseconds: u64,
}

/// A duration, in whole nanoseconds.
#[derive(Debug, Clone, Copy, PartialEq, Eq, Ord, Hash, Default, Structural)]
pub struct TimeSpan {
    nanoseconds: u64,
}

/// A signed distance, in whole micrometers.
#[derive(Debug, Clone, Copy, PartialEq, Eq, Ord, Hash, Default, Structural)]
pub struct Distance {
    micrometers: i64,
}

/// A non-negative distance, in whole micrometers.
#[derive(Debug, Clone, Copy, PartialEq, Eq, Ord, Hash, Default, Structural)]
pub struct DistanceSpan {
    micrometers: u64,
}

impl Time {
    pub closed spec fn spec_nanoseconds(self) -> u64 {
        self.nanoseconds
    }

    pub fn zero() -> (t: Self)
        ensures
            t.spec_nanoseconds() == 0,
    {
        Self { nanoseconds: 0 }
    }

    pub fn from_nanoseconds(nanoseconds: u64) -> (t: Self)
        ensures
            t.spec_nanoseconds() == nanoseconds,
    {
        Self { nanoseconds }
    }

    pub fn as_nanoseconds(self) -> (n: u64)
        ensures
            n == self.spec_nanoseconds(),
    {
        self.nanoseconds
    }

    /// Reads a suffixed time text such as `1m1.5s`.
    pub fn parse(text: &str) -> (r: Result<Self, TimeError>)
        ensures
            r matches Ok(t) ==> spec_parse_time(text@) == Ok::<nat, TimeError>(
                t.spec_nanoseconds() as nat,
            ),
            r matches Err(e) ==> spec_parse_time(text@) == Err::<nat, TimeError>(e),
    {
        match parse_time_nanoseconds(text) {
            Ok(n) => Ok(Self::from_nanoseconds(n)),
            Err(e) => Err(e),
        }
    }

    /// The canonical decimal-seconds text of this time.
    pub fn to_text(self) -> (s: String)
        ensures
            s@ == spec_format_seconds(self.spec_nanoseconds() as nat),
    {
        format_nanoseconds_as_seconds(self.nanoseconds)
    }
}

impl TimeSpan {
    pub closed spec fn spec_nanoseconds(self) -> u64 {
        self.nanoseconds
    }

    pub fn zero() -> (t: Self)
        ensures
            t.spec_nanoseconds() == 0,
    {
        Self { nanoseconds: 0 }
    }

    pub fn from_nanoseconds(nanoseconds: u64) -> (t: Self)
        ensures
            t.spec_nanoseconds() == nanoseconds,
    {
        Self { nanoseconds }
    }

    pub fn as_nanoseconds(self) -> (n: u64)
        ensures
            n == self.spec_nanoseconds(),
    {
        self.nanoseconds
    }

    /// Reads a suffixed duration text such as `250ms`.
    pub fn parse(text: &str) -> (r: Result<Self, TimeError>)
        ensures
            r matches Ok(t) ==> spec_parse_time(text@) == Ok::<nat, TimeError>(
                t.spec_nanoseconds() as nat,
            ),
            r matches Err(e) ==> spec_parse_time(text@) == Err::<nat, TimeError>(e),
    {
        match parse_time_nanoseconds(text) {
            Ok(n) => Ok(Self::from_nanoseconds(n)),
            Err(e) => Err(e),
        }
    }

    /// The canonical decimal-seconds text of this duration.
    pub fn to_text(self) -> (s: String)
        ensures
            s@ == spec_format_seconds(self.spec_nanoseconds() as nat),
    {
        format_nanoseconds_as_seconds(self.nanoseconds)
    }
}

/// Why a distance text or number was refused.
#[derive(Debug, Clone, Copy, PartialEq, Eq, Structural)]
pub enum DistanceError {
    Empty,
    NotNumber,
    TooLarge,
    TooFine,
    NegativeSpan,
}

impl DistanceError {
    /// The message reported for this error.
    pub fn message(self) -> (r: &'static str)
        ensures
            r@ == spec_distance_error_message(self),
    {
        match self {
            DistanceError::Empty => "distance must not be empty",
            DistanceError::NotNumber => "distance amount must be a number",
            DistanceError::TooLarge => "distance is too large",
            DistanceError::TooFine => "distance precision is too fine",
            DistanceError::NegativeSpan => "distance span meters must be non-negative",
        }
    }
}

pub open spec fn spec_distance_error_message(e: DistanceError) -> Seq<char> {
    match e {
        DistanceError::Empty => "distance must not be empty"@,
        DistanceError::NotNumber => "distance amount must be a number"@,
        DistanceError::TooLarge => "distance is too large"@,
        DistanceError::TooFine => "distance precision is too fine"@,
        DistanceError::NegativeSpan => "distance span meters must be non-negative"@,
    }
}

/// What `i64::from_str` gives: an optional sign, then a non-empty run of
/// digits whose value fits.
pub open spec fn spec_parse_i64(s: Seq<char>) -> Option<i64> {
    let signed = s.len() > 1 && (s[0] == '+' || s[0] == '-');
    let negative = signed && s[0] == '-';
    let digits = if signed {
        s.subrange(1, s.len() as int)
    } else {
        s
    };
    if digits.len() > 0 && all_digits(digits) {
        let v = digits_value(digits);
        if negative && v <= 0x8000_0000_0000_0000 {
            Some((-v) as i64)
        } else if !negative && v <= i64::MAX {
            Some(v as i64)
        } else {
            None
        }
    } else {
        None
    }
}

/// Reads `chars[lo..hi]` the way `i64::from_str` does.
pub fn parse_i64_range(chars: &Vec<char>, lo: usize, hi: usize) -> (r: Option<i64>)
    requires
        lo <= hi <= chars@.len(),
    ensures
        r == spec_parse_i64(chars@.subrange(lo as int, hi as int)),
{
    let ghost s = chars@.subrange(lo as int, hi as int);
    let signed = hi - lo > 1 && (chars[lo] == '+' || chars[lo] == '-');
    let negative = signed && chars[lo] == '-';
    let start = if signed {
        lo + 1
    } else {
        lo
    };
    assert(chars@.subrange(start as int, hi as int) =~= if signed {
        s.subrange(1, s.len() as int)
    } else {
        s
    });
    match parse_u64_range(chars, start, hi) {
        None => None,
        Some(v) => {
            if negative {
                if v <= 0x8000_0000_0000_0000u64 {
                    if v == 0x8000_0000_0000_0000u64 {
                        Some(i64::MIN)
                    } else {
                        Some(-(v as i64))
                    }
                } else {
                    None
                }
            } else if v <= i64::MAX as u64 {
                Some(v as i64)
            } else {
                None
            }
        },
    }
}

/// Micrometers that the unsigned decimal `rest` writes in units of `unit`
/// micrometers, truncating below one micrometer (before any leading `-` of the
/// whole amount is applied).
pub open spec fn spec_unsigned_micrometers(rest: Seq<char>, unit: int) -> Result<int, DistanceError> {
    let k = first_index_of(rest, '.', 0);
    if k == rest.len() {
        match spec_parse_i64(rest) {
            None => Err(DistanceError::NotNumber),
            Some(v) => if !fits_i64(v * unit) {
                Err(DistanceError::TooLarge)
            } else {
                Ok(v * unit)
            },
        }
    } else {
        let whole = rest.subrange(0, k);
        let frac = rest.subrange(k + 1, rest.len() as int);
        if whole.len() == 0 || frac.len() == 0 || first_index_of(frac, '.', 0) < frac.len() {
            Err(DistanceError::NotNumber)
        } else if !all_digits(whole) || !all_digits(frac) {
            Err(DistanceError::NotNumber)
        } else {
            match spec_parse_i64(whole) {
                None => Err(DistanceError::NotNumber),
                Some(w) => if !fits_i64(w * unit) {
                    Err(DistanceError::TooLarge)
                } else if frac.len() > 18 {
                    Err(DistanceError::TooFine)
                } else {
                    match spec_parse_i64(frac) {
                        None => Err(DistanceError::NotNumber),
                        Some(f) => if !fits_i64(f * unit) {
                            Err(DistanceError::TooLarge)
                        } else {
                            let total = w * unit + (f * unit) / (pow10(frac.len()) as int);
                            if !fits_i64(total) {
                                Err(DistanceError::TooLarge)
                            } else {
                                Ok(total)
                            }
                        },
                    }
                },
            }
        }
    }
}

/// Micrometers that `amount` (a decimal with an optional leading `-`) writes in
/// units of `unit` micrometers, truncating below one micrometer.
pub open spec fn spec_decimal_micrometers(amount: Seq<char>, unit: int) -> Result<int, DistanceError> {
    let negative = amount.len() > 0 && amount[0] == '-';
    let sign: int = if negative {
        -1
    } else {
        1
    };
    let rest = if negative {
        amount.subrange(1, amount.len() as int)
    } else {
        amount
    };
    match spec_unsigned_micrometers(rest, unit) {
        Err(e) => Err(e),
        Ok(t) => if fits_i64(t * sign) {
            Ok(t * sign)
        } else {
            Err(DistanceError::TooLarge)
        },
    }
}

pub open spec fn fits_i64(v: int) -> bool {
    i64::MIN <= v <= i64::MAX
}

/// The unit suffix of a metric distance text: its length and how many
/// micrometers it stands for (a bare number is in meters).
pub open spec fn distance_suffix(s: Seq<char>) -> (int, int) {
    let n = s.len() as int;
    if n >= 2 && s[n - 2] == 'u' && s[n - 1] == 'm' {
        (2, 1)
    } else if n >= 2 && s[n - 2] == 'm' && s[n - 1] == 'm' {
        (2, MICROMETERS_PER_MILLIMETER as int)
    } else if n >= 2 && s[n - 2] == 'c' && s[n - 1] == 'm' {
        (2, MICROMETERS_PER_CENTIMETER as int)
    } else if n >= 1 && s[n - 1] == 'm' {
        (1, MICROMETERS_PER_METER as int)
    } else {
        (0, MICROMETERS_PER_METER as int)
    }
}

/// Micrometers written by a metric distance text (`1.25m`, `12.3cm`, `7um`, `-0.5`).
pub open spec fn spec_parse_metric_distance(s: Seq<char>) -> Result<int, DistanceError> {
    if s.len() == 0 {
        Err(DistanceError::Empty)
    } else {
        let (len, unit) = distance_suffix(s);
        spec_decimal_micrometers(s.subrange(0, s.len() - len), unit)
    }
}

fn decimal_micrometers(chars: &Vec<char>, lo: usize, hi: usize, unit: i64) -> (r: Result<
    i64,
    DistanceError,
>)
    requires
        lo <= hi <= chars@.len(),
        unit >= 1,
    ensures
        r matches Ok(v) ==> spec_decimal_micrometers(
            chars@.subrange(lo as int, hi as int),
            unit as int,
        ) == Ok::<int, DistanceError>(v as int),
        r matches Err(e) ==> spec_decimal_micrometers(
            chars@.subrange(lo as int, hi as int),
            unit as int,
        ) == Err::<int, DistanceError>(e),
{
    let ghost amount = chars@.subrange(lo as int, hi as int);
    let negative = lo < hi && chars[lo] == '-';
    let sign: i64 = if negative {
        -1
    } else {
        1
    };
    let start = if negative {
        lo + 1
    } else {
        lo
    };
    assert(chars@.subrange(start as int, hi as int) =~= if negative {
        amount.subrange(1, amount.len() as int)
    } else {
        amount
    });
    match unsigned_micrometers(chars, start, hi, unit) {
        Err(e) => Err(e),
        Ok(t) => match t.checked_mul(sign) {
            None => Err(DistanceError::TooLarge),
            Some(y) => Ok(y),
        },
    }
}

fn unsigned_micrometers(chars: &Vec<char>, start: usize, hi: usize, unit: i64) -> (r: Result<
    i64,
    DistanceError,
>)
    requires
        start <= hi <= chars@.len(),
        unit >= 1,
    ensures
        r matches Ok(v) ==> spec_unsigned_micrometers(
            chars@.subrange(start as int, hi as int),
            unit as int,
        ) == Ok::<int, DistanceError>(v as int),
        r matches Err(e) ==> spec_unsigned_micrometers(
            chars@.subrange(start as int, hi as int),
            unit as int,
        ) == Err::<int, DistanceError>(e),
{
    let ghost rest = chars@.subrange(start as int, hi as int);
    let k = find_char_range(chars, '.', start, hi);
    if k == hi {
        return match parse_i64_range(chars, start, hi) {
            None => Err(DistanceError::NotNumber),
            Some(v) => match v.checked_mul(unit) {
                None => Err(DistanceError::TooLarge),
                Some(x) => Ok(x),
            },
        };
    }
    assert(rest.subrange(0, k - start) =~= chars@.subrange(start as int, k as int));
    assert(rest.subrange(k - start + 1, rest.len() as int) =~= chars@.subrange(k + 1, hi as int));
    if k == start || k + 1 == hi {
        return Err(DistanceError::NotNumber);
    }
    let k2 = find_char_range(chars, '.', k + 1, hi);
    if k2 < hi {
        return Err(DistanceError::NotNumber);
    }
    if !all_digits_in(chars, start, k) || !all_digits_in(chars, k + 1, hi) {
        return Err(DistanceError::NotNumber);
    }
    let w = match parse_i64_range(chars, start, k) {
        None => {
            return Err(DistanceError::NotNumber);
        },
        Some(w) => w,
    };
    let whole = match w.checked_mul(unit) {
        None => {
            return Err(DistanceError::TooLarge);
        },
        Some(x) => x,
    };
    let flen = hi - (k + 1);
    if flen > 18 {
        return Err(DistanceError::TooFine);
    }
    proof {
        lemma_pow10_monotone(flen as nat, 18);
        lemma_pow10_18();
    }
    let scale = pow10_exec(flen as u32) as i64;
    let f = match parse_i64_range(chars, k + 1, hi) {
        None => {
            return Err(DistanceError::NotNumber);
        },
        Some(f) => f,
    };
    proof {
        lemma_digits_parse_nonneg(chars@.subrange(k + 1, hi as int));
    }
    let scaled = match f.checked_mul(unit) {
        None => {
            return Err(DistanceError::TooLarge);
        },
        Some(x) => x,
    };
    let part = scaled / scale;
    proof {
        lemma_pow10_positive(flen as nat);
    }
    assert(part as int == (scaled as int) / (scale as int));
    match whole.checked_add(part) {
        None => Err(DistanceError::TooLarge),
        Some(t) => Ok(t),
    }
}

/// A string of digits reads as a non-negative number.
proof fn lemma_digits_parse_nonneg(s: Seq<char>)
    requires
        all_digits(s),
    ensures
        spec_parse_i64(s) matches Some(v) ==> v >= 0,
{
    if s.len() > 1 {
        assert(spec_is_digit(s[0]));
    }
}

proof fn lemma_pow10_18()
    ensures
        pow10(18) == 1_000_000_000_000_000_000nat,
{
    reveal_with_fuel(pow10, 19);
}

/// Index of the first `c` in `chars[lo..hi]`, or `hi`.
fn find_char_range(chars: &Vec<char>, c: char, lo: usize, hi: usize) -> (k: usize)
    requires
        lo <= hi <= chars@.len(),
    ensures
        lo <= k <= hi,
        k == lo + first_index_of(chars@.subrange(lo as int, hi as int), c, 0),
{
    let ghost s = chars@.subrange(lo as int, hi as int);
    let mut k = lo;
    while k < hi
        invariant
            lo <= k <= hi <= chars@.len(),
            s == chars@.subrange(lo as int, hi as int),
            first_index_of(s, c, 0) == first_index_of(s, c, k - lo),
        decreases hi - k,
    {
        assert(s[k - lo] == chars@[k as int]);
        if chars[k] == c {
            return k;
        }
        k += 1;
    }
    k
}

fn all_digits_in(chars: &Vec<char>, lo: usize, hi: usize) -> (b: bool)
    requires
        lo <= hi <= chars@.len(),
    ensures
        b == all_digits(chars@.subrange(lo as int, hi as int)),
{
    let ghost s = chars@.subrange(lo as int, hi as int);
    let mut k = lo;
    while k < hi
        invariant
            lo <= k <= hi <= chars@.len(),
            s == chars@.subrange(lo as int, hi as int),
            forall|j: int| 0 <= j < k - lo ==> spec_is_digit(#[trigger] s[j]),
        decreases hi - k,
    {
        if !is_digit(chars[k]) {
            assert(s[k - lo] == chars@[k as int]);
            return false;
        }
        k += 1;
    }
    true
}

/// Reads a metric distance text (`1.25m`, `12.3cm`, `2.5mm`, `7um`, or a bare
/// number of meters) as micrometers.
pub fn parse_metric_distance_micrometers(value: &str) -> (r: Result<i64, DistanceError>)
    ensures
        r matches Ok(v) ==> spec_parse_metric_distance(value@) == Ok::<int, DistanceError>(
            v as int,
        ),
        r matches Err(e) ==> spec_parse_metric_distance(value@) == Err::<int, DistanceError>(e),
{
    let chars = chars_of(value);
    let n = chars.len();
    if n == 0 {
        return Err(DistanceError::Empty);
    }
    let (len, unit): (usize, i64) = if n >= 2 && chars[n - 2] == 'u' && chars[n - 1] == 'm' {
        (2, 1)
    } else if n >= 2 && chars[n - 2] == 'm' && chars[n - 1] == 'm' {
        (2, MICROMETERS_PER_MILLIMETER)
    } else if n >= 2 && chars[n - 2] == 'c' && chars[n - 1] == 'm' {
        (2, MICROMETERS_PER_CENTIMETER)
    } else if chars[n - 1] == 'm' {
        (1, MICROMETERS_PER_METER)
    } else {
        (0, MICROMETERS_PER_METER)
    };
    assert(distance_suffix(chars@) == (len as int, unit as int));
    decimal_micrometers(&chars, 0, n - len, unit)
}

/// Micrometers of a whole number of meters given as a signed YAML integer.
pub fn meters_i64_to_micrometers(meters: i64) -> (r: Option<i64>)
    ensures
        r matches Some(v) ==> v == meters * MICROMETERS_PER_METER,
        r is None <==> !fits_i64(meters * MICROMETERS_PER_METER),
{
    meters.checked_mul(MICROMETERS_PER_METER)
}

/// Micrometers of a whole number of meters given as an unsigned YAML integer.
pub fn meters_u64_to_micrometers(meters: u64) -> (r: Option<i64>)
    ensures
        r matches Some(v) ==> v == meters * MICROMETERS_PER_METER,
        r is None <==> meters * MICROMETERS_PER_METER > i64::MAX,
{
    match meters.checked_mul(MICROMETERS_PER_METER as u64) {
        None => None,
        Some(x) => if x <= i64::MAX as u64 {
            Some(x as i64)
        } else {
            None
        },
    }
}

/// A whole number of meters, when `micrometers` is one; the YAML form then
/// writes an integer rather than a decimal.
pub fn whole_meters(micrometers: i64) -> (r: Option<i64>)
    ensures
        r is Some <==> micrometers % MICROMETERS_PER_METER == 0,
        r matches Some(m) ==> m * MICROMETERS_PER_METER == micrometers,
{
    if micrometers % MICROMETERS_PER_METER == 0 {
        Some(micrometers / MICROMETERS_PER_METER)
    } else {
        None
    }
}

impl Distance {
    pub closed spec fn spec_micrometers(self) -> i64 {
        self.micrometers
    }

    pub fn zero() -> (d: Self)
        ensures
            d.spec_micrometers() == 0,
    {
        Self { micrometers: 0 }
    }

    pub fn from_micrometers(micrometers: i64) -> (d: Self)
        ensures
            d.spec_micrometers() == micrometers,
    {
        Self { micrometers }
    }

    pub fn as_micrometers(self) -> (m: i64)
        ensures
            m == self.spec_micrometers(),
    {
        self.micrometers
    }

    /// Reads a metric distance text.
    pub fn parse(text: &str) -> (r: Result<Self, DistanceError>)
        ensures
            r matches Ok(d) ==> spec_parse_metric_distance(text@) == Ok::<int, DistanceError>(
                d.spec_micrometers() as int,
            ),
            r matches Err(e) ==> spec_parse_metric_distance(text@) == Err::<int, DistanceError>(e),
    {
        match parse_metric_distance_micrometers(text) {
            Ok(m) => Ok(Self::from_micrometers(m)),
            Err(e) => Err(e),
        }
    }
}

/// Micrometers of a distance-span text: a metric distance that must not be negative.
pub open spec fn spec_parse_distance_span(s: Seq<char>) -> Result<int, DistanceError> {
    match spec_parse_metric_distance(s) {
        Err(e) => Err(e),
        Ok(v) => if v < 0 {
            Err(DistanceError::NegativeSpan)
        } else {
            Ok(v)
        },
    }
}

impl DistanceSpan {
    pub closed spec fn spec_micrometers(self) -> u64 {
        self.micrometers
    }

    pub fn zero() -> (d: Self)
        ensures
            d.spec_micrometers() == 0,
    {
        Self { micrometers: 0 }
    }

    /// The bulb diameter that fixtures get when they name none (one centimeter).
    pub fn default_bulb_diameter() -> (d: Self)
        ensures
            d.spec_micrometers() == 10_000,
    {
        Self { micrometers: 10_000 }
    }

    pub fn from_micrometers(micrometers: u64) -> (d: Self)
        ensures
            d.spec_micrometers() == micrometers,
    {
        Self { micrometers }
    }

    pub fn as_micrometers(self) -> (m: u64)
        ensures
            m == self.spec_micrometers(),
    {
        self.micrometers
    }

    /// A span from signed micrometers: refused when negative.
    pub fn try_from_signed_micrometers(micrometers: i64) -> (r: Result<Self, DistanceError>)
        ensures
            r is Err <==> micrometers < 0,
            r matches Err(e) ==> e == DistanceError::NegativeSpan,
            r matches Ok(d) ==> d.spec_micrometers() == micrometers,
    {
        if micrometers < 0 {
            Err(DistanceError::NegativeSpan)
        } else {
            Ok(Self::from_micrometers(micrometers as u64))
        }
    }

    /// Reads a metric distance text that must not be negative.
    pub fn parse(text: &str) -> (r: Result<Self, DistanceError>)
        ensures
            r matches Ok(d) ==> spec_parse_distance_span(text@) == Ok::<int, DistanceError>(
                d.spec_micrometers() as int,
            ),
            r matches Err(e) ==> spec_parse_distance_span(text@) == Err::<int, DistanceError>(e),
    {
        match parse_metric_distance_micrometers(text) {
            Ok(m) => Self::try_from_signed_micrometers(m),
            Err(e) => Err(e),
        }
    }
}

} // verus!
