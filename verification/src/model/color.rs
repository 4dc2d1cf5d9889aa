//! 24-bit colors written as `#rrggbb`, and channel ranges written as `a..b`.
use vstd::prelude::*;
use crate::text::{chars_of, is_hex, spec_is_hex, string_from_chars};
use crate::model::decimal::{
    all_digits, decimal_digits, digits_value, lemma_decimal_digits, parse_u64_range,
    spec_parse_u64, u64_to_decimal,
};
use crate::model::time::first_index_of;

verus! {

/// An RGB color with one byte per channel.
#[derive(Debug, Clone, Copy, PartialEq, Eq, Structural)]
pub struct Color {
    pub red: u8,
    pub green: u8,
    pub blue: u8,
}

/// Value of the hexadecimal digit `c`.
pub open spec fn hex_value(c: char) -> nat {
    if '0' <= c && c <= '9' {
        (c as nat - '0' as nat) as nat
    } else if 'a' <= c && c <= 'f' {
        (c as nat - 'a' as nat + 10) as nat
    } else {
        (c as nat - 'A' as nat + 10) as nat
    }
}

/// The lowercase hexadecimal digit of `v < 16`.
pub open spec fn hex_char(v: nat) -> char {
    if v < 10 {
        (('0' as nat) + v) as char
    } else {
        (('a' as nat) + v - 10) as char
    }
}

/// Why a color text was refused.
pub open spec fn color_missing_hash_message() -> Seq<char> {
    "color literal must start with `#`"@
}

pub open spec fn color_shape_message() -> Seq<char> {
    "color literal must look like `#rrggbb`"@
}

/// What a color text denotes: `#` then six hexadecimal digits, two per channel.
pub open spec fn spec_parse_color(s: Seq<char>) -> Result<Color, Seq<char>> {
    if s.len() == 0 || s[0] != '#' {
        Err(color_missing_hash_message())
    } else if s.len() != 7 || !(forall|i: int| 1 <= i < 7 ==> spec_is_hex(#[trigger] s[i])) {
        Err(color_shape_message())
    } else {
        Ok(
            Color {
                red: (hex_value(s[1]) * 16 + hex_value(s[2])) as u8,
                green: (hex_value(s[3]) * 16 + hex_value(s[4])) as u8,
                blue: (hex_value(s[5]) * 16 + hex_value(s[6])) as u8,
            },
        )
    }
}

/// The `#rrggbb` text of a color, in lowercase.
pub open spec fn spec_color_hex(c: Color) -> Seq<char> {
    seq![
        '#',
        hex_char(c.red as nat / 16),
        hex_char(c.red as nat % 16),
        hex_char(c.green as nat / 16),
        hex_char(c.green as nat % 16),
        hex_char(c.blue as nat / 16),
        hex_char(c.blue as nat % 16),
    ]
}

fn hex_value_exec(c: char) -> (v: u8)
    requires
        spec_is_hex(c),
    ensures
        v as nat == hex_value(c),
        v < 16,
{
    if '0' <= c && c <= '9' {
        (c as u32 - '0' as u32) as u8
    } else if 'a' <= c && c <= 'f' {
        (c as u32 - 'a' as u32 + 10) as u8
    } else {
        (c as u32 - 'A' as u32 + 10) as u8
    }
}

fn hex_char_exec(v: u8) -> (c: char)
    requires
        v < 16,
    ensures
        c == hex_char(v as nat),
{
    match v {
        0 => '0',
        1 => '1',
        2 => '2',
        3 => '3',
        4 => '4',
        5 => '5',
        6 => '6',
        7 => '7',
        8 => '8',
        9 => '9',
        10 => 'a',
        11 => 'b',
        12 => 'c',
        13 => 'd',
        14 => 'e',
        _ => 'f',
    }
}

impl Color {
    pub fn new(red: u8, green: u8, blue: u8) -> (c: Self)
        ensures
            c == (Color { red, green, blue }),
    {
        Self { red, green, blue }
    }

    /// Reads a `#rrggbb` color literal.
    pub fn parse(value: &str) -> (r: Result<Self, String>)
        ensures
            r matches Ok(c) ==> spec_parse_color(value@) == Ok::<Color, Seq<char>>(c),
            r matches Err(m) ==> spec_parse_color(value@) == Err::<Color, Seq<char>>(m@),
    {
        let chars = chars_of(value);
        if chars.len() == 0 || chars[0] != '#' {
            return Err(String::from_str("color literal must start with `#`"));
        }
        if chars.len() != 7 {
            return Err(String::from_str("color literal must look like `#rrggbb`"));
        }
        let mut i: usize = 1;
        let mut bad = false;
        while i < 7 && !bad
            invariant
                chars@ == value@,
                chars@.len() == 7,
                1 <= i <= 7,
                !bad ==> 1 <= i,
                bad ==> !(forall|j: int| 1 <= j < 7 ==> spec_is_hex(#[trigger] value@[j])),
                !bad ==> forall|j: int| 1 <= j < i ==> spec_is_hex(#[trigger] chars@[j]),
            decreases 7 - i + (if bad { 0int } else { 1int }),
        {
            if !is_hex(chars[i]) {
                assert(!spec_is_hex(value@[i as int]));
                bad = true;
            } else {
                i += 1;
            }
        }
        if bad {
            return Err(String::from_str("color literal must look like `#rrggbb`"));
        }
        let red = hex_value_exec(chars[1]) * 16 + hex_value_exec(chars[2]);
        let green = hex_value_exec(chars[3]) * 16 + hex_value_exec(chars[4]);
        let blue = hex_value_exec(chars[5]) * 16 + hex_value_exec(chars[6]);
        Ok(Self { red, green, blue })
    }

    /// The lowercase `#rrggbb` text of this color.
    pub fn to_hex(self) -> (s: String)
        ensures
            s@ == spec_color_hex(self),
    {
        let mut v: Vec<char> = Vec::new();
        v.push('#');
        v.push(hex_char_exec(self.red / 16));
        v.push(hex_char_exec(self.red % 16));
        v.push(hex_char_exec(self.green / 16));
        v.push(hex_char_exec(self.green % 16));
        v.push(hex_char_exec(self.blue / 16));
        v.push(hex_char_exec(self.blue % 16));
        assert(v@ =~= spec_color_hex(self));
        string_from_chars(v.as_slice())
    }
}

proof fn lemma_hex_roundtrip(v: nat)
    requires
        v < 16,
    ensures
        spec_is_hex(hex_char(v)),
        hex_value(hex_char(v)) == v,
{
    if v < 10 {
        assert((('0' as nat) + v) as char as nat == ('0' as nat) + v);
    } else {
        assert((('a' as nat) + v - 10) as char as nat == ('a' as nat) + v - 10);
    }
}

/// Reading back the hexadecimal text of a color gives the same color.
pub proof fn lemma_color_hex_roundtrip(c: Color)
    ensures
        spec_parse_color(spec_color_hex(c)) == Ok::<Color, Seq<char>>(c),
{
    let s = spec_color_hex(c);
    lemma_hex_roundtrip(c.red as nat / 16);
    lemma_hex_roundtrip(c.red as nat % 16);
    lemma_hex_roundtrip(c.green as nat / 16);
    lemma_hex_roundtrip(c.green as nat % 16);
    lemma_hex_roundtrip(c.blue as nat / 16);
    lemma_hex_roundtrip(c.blue as nat % 16);
    assert(forall|i: int| 1 <= i < 7 ==> spec_is_hex(#[trigger] s[i]));
    assert(c.red as nat == (c.red as nat / 16) * 16 + c.red as nat % 16);
    assert(c.green as nat == (c.green as nat / 16) * 16 + c.green as nat % 16);
    assert(c.blue as nat == (c.blue as nat / 16) * 16 + c.blue as nat % 16);
}

/// `c` in lowercase, for an ASCII letter; any other character as it is.
pub open spec fn ascii_lowercase(c: char) -> char {
    if 'A' <= c && c <= 'Z' {
        ((c as nat) + 32) as char
    } else {
        c
    }
}

proof fn lemma_hex_digit_lowercase(c: char)
    requires
        spec_is_hex(c),
    ensures
        hex_value(c) < 16,
        hex_char(hex_value(c)) == ascii_lowercase(c),
{
    assert((c as nat) as char == c);
    if '0' <= c && c <= '9' {
        assert((('0' as nat) + (c as nat - '0' as nat)) as char == c);
    } else if 'a' <= c && c <= 'f' {
        assert((('a' as nat) + (c as nat - 'a' as nat + 10) - 10) as char == c);
    } else {
        assert((('a' as nat) + (c as nat - 'A' as nat + 10) - 10) as char == ((c as nat) + 32) as char);
    }
}

/// The hexadecimal text of a color read from `s` is `s` in lowercase.
pub proof fn lemma_parsed_color_hex_is_lowercase(s: Seq<char>)
    requires
        spec_parse_color(s) is Ok,
    ensures
        spec_color_hex(spec_parse_color(s)->Ok_0) == s.map_values(|c: char| ascii_lowercase(c)),
{
    let d = spec_parse_color(s)->Ok_0;
    assert(spec_is_hex(s[1]) && spec_is_hex(s[2]) && spec_is_hex(s[3]));
    assert(spec_is_hex(s[4]) && spec_is_hex(s[5]) && spec_is_hex(s[6]));
    lemma_hex_digit_lowercase(s[1]);
    lemma_hex_digit_lowercase(s[2]);
    lemma_hex_digit_lowercase(s[3]);
    lemma_hex_digit_lowercase(s[4]);
    lemma_hex_digit_lowercase(s[5]);
    lemma_hex_digit_lowercase(s[6]);
    let (h1, l1) = (hex_value(s[1]), hex_value(s[2]));
    let (h2, l2) = (hex_value(s[3]), hex_value(s[4]));
    let (h3, l3) = (hex_value(s[5]), hex_value(s[6]));
    assert((h1 * 16 + l1) / 16 == h1 && (h1 * 16 + l1) % 16 == l1) by (nonlinear_arith)
        requires
            h1 < 16,
            l1 < 16,
    ;
    assert((h2 * 16 + l2) / 16 == h2 && (h2 * 16 + l2) % 16 == l2) by (nonlinear_arith)
        requires
            h2 < 16,
            l2 < 16,
    ;
    assert((h3 * 16 + l3) / 16 == h3 && (h3 * 16 + l3) % 16 == l3) by (nonlinear_arith)
        requires
            h3 < 16,
            l3 < 16,
    ;
    assert(d.red as nat == h1 * 16 + l1);
    assert(d.green as nat == h2 * 16 + l2);
    assert(d.blue as nat == h3 * 16 + l3);
    assert(ascii_lowercase('#') == '#');
    assert(spec_color_hex(d) =~= s.map_values(|c: char| ascii_lowercase(c)));
}

/// An inclusive range of DMX channels, written `start..end`.
#[derive(Debug, Clone, Copy, PartialEq, Eq, Structural)]
pub struct ChannelRange {
    pub start: u16,
    pub end: u16,
}

/// What `u16::from_str` gives: an optional `+`, then a non-empty run of digits
/// whose value fits.
pub open spec fn spec_parse_u16(s: Seq<char>) -> Option<u16> {
    let digits = if s.len() > 1 && s[0] == '+' {
        s.subrange(1, s.len() as int)
    } else {
        s
    };
    if digits.len() > 0 && all_digits(digits) && digits_value(digits) <= u16::MAX {
        Some(digits_value(digits) as u16)
    } else {
        None
    }
}

/// Index of the first `..` in `s`, or `s.len()` when there is none.
pub open spec fn first_double_dot(s: Seq<char>, i: int) -> int
    decreases s.len() - i,
{
    if i < 0 || i + 1 >= s.len() {
        s.len() as int
    } else if s[i] == '.' && s[i + 1] == '.' {
        i
    } else {
        first_double_dot(s, i + 1)
    }
}

/// What a channel range text denotes, or the message of its refusal.
pub open spec fn spec_parse_channel_range(s: Seq<char>) -> Result<ChannelRange, Seq<char>> {
    let k = first_double_dot(s, 0);
    if k >= s.len() {
        Err("channel range must look like `1..510`"@)
    } else {
        match spec_parse_u16(s.subrange(0, k)) {
            None => Err("range start must be an integer"@),
            Some(start) => match spec_parse_u16(s.subrange(k + 2, s.len() as int)) {
                None => Err("range end must be an integer"@),
                Some(end) => if start > end {
                    Err("range start must be <= range end"@)
                } else {
                    Ok(ChannelRange { start, end })
                },
            },
        }
    }
}

/// The `start..end` text of a channel range.
pub open spec fn spec_channel_range_text(r: ChannelRange) -> Seq<char> {
    decimal_digits(r.start as nat) + seq!['.', '.'] + decimal_digits(r.end as nat)
}

fn parse_u16_range(chars: &Vec<char>, lo: usize, hi: usize) -> (r: Option<u16>)
    requires
        lo <= hi <= chars@.len(),
    ensures
        r == spec_parse_u16(chars@.subrange(lo as int, hi as int)),
{
    let ghost s = chars@.subrange(lo as int, hi as int);
    let start = if hi - lo > 1 && chars[lo] == '+' {
        lo + 1
    } else {
        lo
    };
    assert(chars@.subrange(start as int, hi as int) =~= if s.len() > 1 && s[0] == '+' {
        s.subrange(1, s.len() as int)
    } else {
        s
    });
    match parse_u64_range(chars, start, hi) {
        None => None,
        Some(v) => if v <= u16::MAX as u64 {
            Some(v as u16)
        } else {
            None
        },
    }
}

impl ChannelRange {
    /// Reads a channel range written `start..end`.
    pub fn parse(raw: &str) -> (r: Result<Self, String>)
        ensures
            r matches Ok(c) ==> spec_parse_channel_range(raw@) == Ok::<ChannelRange, Seq<char>>(c),
            r matches Err(m) ==> spec_parse_channel_range(raw@) == Err::<ChannelRange, Seq<char>>(
                m@,
            ),
    {
        let chars = chars_of(raw);
        let n = chars.len();
        let mut k: usize = 0;
        while n - k > 1 && !(chars[k] == '.' && chars[k + 1] == '.')
            invariant
                n == chars@.len(),
                chars@ == raw@,
                k <= n,
                first_double_dot(chars@, 0) == first_double_dot(chars@, k as int),
            decreases n - k,
        {
            k += 1;
        }
        if n - k <= 1 {
            return Err(String::from_str("channel range must look like `1..510`"));
        }
        let start = match parse_u16_range(&chars, 0, k) {
            None => {
                return Err(String::from_str("range start must be an integer"));
            },
            Some(v) => v,
        };
        let end = match parse_u16_range(&chars, k + 2, n) {
            None => {
                return Err(String::from_str("range end must be an integer"));
            },
            Some(v) => v,
        };
        if start > end {
            return Err(String::from_str("range start must be <= range end"));
        }
        Ok(ChannelRange { start, end })
    }

    /// The `start..end` text of this range.
    pub fn to_text(&self) -> (s: String)
        ensures
            s@ == spec_channel_range_text(*self),
    {
        let mut v = u64_to_decimal(self.start as u64);
        v.push('.');
        v.push('.');
        let e = u64_to_decimal(self.end as u64);
        let ghost before = v@;
        let mut i: usize = 0;
        while i < e.len()
            invariant
                i <= e@.len(),
                v@ == before + e@.subrange(0, i as int),
            decreases e@.len() - i,
        {
            v.push(e[i]);
            i += 1;
            assert(v@ =~= before + e@.subrange(0, i as int));
        }
        assert(v@ =~= spec_channel_range_text(*self));
        string_from_chars(v.as_slice())
    }
}

/// Reading back the text of a well-formed channel range gives the same range.
pub proof fn lemma_channel_range_roundtrip(r: ChannelRange)
    requires
        r.start <= r.end,
    ensures
        spec_parse_channel_range(spec_channel_range_text(r)) == Ok::<ChannelRange, Seq<char>>(r),
{
    let a = decimal_digits(r.start as nat);
    let b = decimal_digits(r.end as nat);
    lemma_decimal_digits(r.start as nat);
    lemma_decimal_digits(r.end as nat);
    let s = spec_channel_range_text(r);
    assert(s == a + seq!['.', '.'] + b);
    let k = a.len() as int;
    lemma_first_double_dot_at(s, 0, k);
    assert(s.subrange(0, k) =~= a);
    assert(s.subrange(k + 2, s.len() as int) =~= b);
    assert(spec_is_digit_first(a));
    assert(spec_is_digit_first(b));
}

spec fn spec_is_digit_first(s: Seq<char>) -> bool {
    s.len() > 0 && crate::text::spec_is_digit(s[0])
}

proof fn lemma_first_double_dot_at(s: Seq<char>, i: int, k: int)
    requires
        0 <= i <= k,
        k + 1 < s.len(),
        s[k] == '.' && s[k + 1] == '.',
        forall|j: int| i <= j < k ==> crate::text::spec_is_digit(#[trigger] s[j]),
    ensures
        first_double_dot(s, i) == k,
    decreases k - i,
{
    if i < k {
        lemma_first_double_dot_at(s, i + 1, k);
    }
}

} // verus!
