//! Finding where a sequence effect, its parameters and its inline script are
//! written in the YAML text of a sequence, so that diagnostics can point at
//! them. Columns count characters.
use vstd::prelude::*;
use crate::analysis::lines::{
    field_is, field_start, field_start_exec, find_char_exec, find_char_from, find_text, find_text_exec,
    is_blank_line, lemma_find_char_from, line_indent, lines_view, spec_field_name, spec_indent, spec_lines,
    spec_trim, split_lines, trim_range,
};
use crate::diagnostics::{TextPosition, TextRange};
use crate::effect_script::diag::{SourcePosition, SourceRange};
use crate::model::decimal::{decimal_digits, u64_to_decimal};
use crate::text::{chars_eq, chars_of, leading_whitespace, leading_whitespace_exec, trimmed_end, trimmed_end_exec};

verus! {

/// `line` starts the field `id:` whose value is `id`.
pub open spec fn spec_is_effect_id_line(line: Seq<char>, id: u32) -> bool {
    let f = field_start(line);
    let rest = line.subrange(f, line.len() as int);
    &&& rest.len() >= 3
    &&& rest[0] == 'i'
    &&& rest[1] == 'd'
    &&& rest[2] == ':'
    &&& spec_trim(rest.subrange(3, rest.len() as int)) == decimal_digits(id as nat)
}

/// Whether `line` starts the field `id:` with value `id`.
pub fn is_effect_id_line(line: &Vec<char>, id: u32) -> (b: bool)
    ensures
        b == spec_is_effect_id_line(line@, id),
{
    let f = field_start_exec(line);
    let ghost rest = line@.subrange(f as int, line@.len() as int);
    if line.len() - f < 3 {
        return false;
    }
    if !(line[f] == 'i' && line[f + 1] == 'd' && line[f + 2] == ':') {
        assert(!(rest[0] == 'i' && rest[1] == 'd' && rest[2] == ':'));
        return false;
    }
    let (a, b) = trim_range(line, f + 3, line.len());
    assert(line@.subrange(f + 3, line@.len() as int) =~= rest.subrange(3, rest.len() as int));
    let digits = u64_to_decimal(id as u64);
    range_eq(line, a, b, &digits)
}

/// `chars[a..b]` is `other`.
fn range_eq(chars: &Vec<char>, a: usize, b: usize, other: &Vec<char>) -> (r: bool)
    requires
        a <= b <= chars@.len(),
    ensures
        r == (chars@.subrange(a as int, b as int) == other@),
{
    if b - a != other.len() {
        return false;
    }
    let mut k: usize = 0;
    while k < other.len()
        invariant
            a <= b <= chars@.len(),
            b - a == other@.len(),
            k <= other@.len(),
            forall|j: int| 0 <= j < k ==> chars@[a + j] == other@[j],
        decreases other@.len() - k,
    {
        if chars[a + k] != other[k] {
            assert(chars@.subrange(a as int, b as int)[k as int] != other@[k as int]);
            return false;
        }
        k += 1;
    }
    assert(chars@.subrange(a as int, b as int) =~= other@);
    true
}

pub open spec fn saturating_add_usize(a: int, b: int) -> int {
    if a + b <= usize::MAX {
        a + b
    } else {
        usize::MAX as int
    }
}

/// The range of `len` characters from column `start` of line `line`.
pub open spec fn range_on_line(line: int, start: int, len: int) -> TextRange {
    TextRange {
        start: TextPosition { line: line as u32, character: start as u32 },
        end: TextPosition { line: line as u32, character: saturating_add_usize(start, len) as u32 },
    }
}

/// Where the value of the field `field` on line `li` is: at `value` when given
/// and found on the line, else the trimmed text after the line's first `':'`,
/// else the field name itself.
pub open spec fn spec_line_value_range(
    lines: Seq<Seq<char>>,
    li: int,
    field: Seq<char>,
    value: Option<Seq<char>>,
) -> Option<TextRange> {
    if li < 0 || li >= lines.len() {
        None
    } else {
        let line = lines[li];
        match find_text(line, field) {
            None => None,
            Some(fc) => {
                let by_value = match value {
                    Some(v) => match find_text(line, v) {
                        Some(c) => Some((c, v.len() as int)),
                        None => None,
                    },
                    None => None,
                };
                let found = match by_value {
                    Some(x) => x,
                    None => match find_char_from(line, ':', 0) {
                        Some(colon) => {
                            let after = line.subrange(colon + 1, line.len() as int);
                            let start = colon + 1 + leading_whitespace(after);
                            if start < line.len() {
                                (start, trimmed_end(line.subrange(start, line.len() as int)))
                            } else {
                                (fc, field.len() as int)
                            }
                        },
                        None => (fc, field.len() as int),
                    },
                };
                let (sc, len) = if found.1 == 0 {
                    (fc, field.len() as int)
                } else {
                    found
                };
                Some(range_on_line(li, sc, len))
            },
        }
    }
}

fn range_on_line_exec(line: usize, start: usize, len: usize) -> (r: TextRange)
    ensures
        r == range_on_line(line as int, start as int, len as int),
{
    let end = if start <= usize::MAX - len {
        start + len
    } else {
        usize::MAX
    };
    TextRange {
        start: TextPosition { line: line as u32, character: start as u32 },
        end: TextPosition { line: line as u32, character: end as u32 },
    }
}

/// Where the value of the field `field` on line `line_index` is.
pub fn line_value_range(lines: &Vec<Vec<char>>, line_index: usize, field: &Vec<char>, value: Option<&Vec<char>>) -> (r:
    Option<TextRange>)
    ensures
        r == spec_line_value_range(
            lines_view(lines@),
            line_index as int,
            field@,
            match value {
                Some(v) => Some(v@),
                None => None,
            },
        ),
{
    if line_index >= lines.len() {
        return None;
    }
    let line = &lines[line_index];
    let llen = line.len();
    assert(lines_view(lines@)[line_index as int] == line@);
    let field_column = match find_text_exec(line, field) {
        Some(c) => c,
        None => {
            return None;
        },
    };
    let by_value = match value {
        Some(v) => match find_text_exec(line, v) {
            Some(c) => Some((c, v.len())),
            None => None,
        },
        None => None,
    };
    let found = match by_value {
        Some(x) => x,
        None => match find_char_exec(line, ':', 0) {
            Some(colon) => {
                proof {
                    lemma_find_char_from(line@, ':', 0);
                }
                let lead = leading_whitespace_exec(line, colon + 1, line.len());
                let start = colon + 1 + lead;
                if start < line.len() {
                    let len = trimmed_end_exec(line, start, line.len());
                    (start, len)
                } else {
                    (field_column, field.len())
                }
            },
            None => (field_column, field.len()),
        },
    };
    let (sc, len) = if found.1 == 0 {
        (field_column, field.len())
    } else {
        found
    };
    Some(range_on_line_exec(line_index, sc, len))
}

/// The first line at or after `from` and before `end` that is not blank and
/// indented at most `indent`, or `end`.
pub open spec fn block_end(lines: Seq<Seq<char>>, from: int, end: int, indent: int) -> int
    decreases end - from,
{
    if from < 0 || from >= end || from >= lines.len() {
        end
    } else if !is_blank_line(lines[from]) && spec_indent(lines[from]) <= indent {
        from
    } else {
        block_end(lines, from + 1, end, indent)
    }
}

/// The first line in `a..b` whose field is `name`.
pub open spec fn first_field(lines: Seq<Seq<char>>, name: Seq<char>, a: int, b: int) -> Option<int>
    decreases b - a,
{
    if a < 0 || a >= b || a >= lines.len() {
        None
    } else if spec_field_name(lines[a]) == Some(name) {
        Some(a)
    } else {
        first_field(lines, name, a + 1, b)
    }
}

/// The block of the first effect with `id` that has a script, searching from
/// line `li`: the `id:` line and the line where the block ends.
pub open spec fn find_effect_block_from(lines: Seq<Seq<char>>, id: u32, li: int) -> Option<(int, int)>
    decreases lines.len() - li,
{
    if li < 0 || li >= lines.len() {
        None
    } else if spec_is_effect_id_line(lines[li], id) {
        let end = block_end(lines, li + 1, lines.len() as int, spec_indent(lines[li]));
        if first_field(lines, "script"@, li, end) is Some {
            Some((li, end))
        } else {
            find_effect_block_from(lines, id, li + 1)
        }
    } else {
        find_effect_block_from(lines, id, li + 1)
    }
}

pub open spec fn spec_find_effect_block(lines: Seq<Seq<char>>, id: u32) -> Option<(int, int)> {
    find_effect_block_from(lines, id, 0)
}

proof fn lemma_block_end(lines: Seq<Seq<char>>, from: int, end: int, indent: int)
    requires
        0 <= from <= end <= lines.len(),
    ensures
        from <= block_end(lines, from, end, indent) <= end,
    decreases end - from,
{
    if from < end {
        lemma_block_end(lines, from + 1, end, indent);
    }
}

proof fn lemma_first_field(lines: Seq<Seq<char>>, name: Seq<char>, a: int, b: int)
    requires
        0 <= a <= b <= lines.len(),
    ensures
        first_field(lines, name, a, b) matches Some(k) ==> a <= k < b,
    decreases b - a,
{
    if a < b {
        lemma_first_field(lines, name, a + 1, b);
    }
}

proof fn lemma_find_effect_block(lines: Seq<Seq<char>>, id: u32, li: int)
    requires
        0 <= li <= lines.len(),
    ensures
        find_effect_block_from(lines, id, li) matches Some((s, e)) ==> li <= s < e <= lines.len(),
    decreases lines.len() - li,
{
    if li < lines.len() {
        lemma_block_end(lines, li + 1, lines.len() as int, spec_indent(lines[li]));
        lemma_find_effect_block(lines, id, li + 1);
    }
}

fn block_end_exec(lines: &Vec<Vec<char>>, from: usize, end: usize, indent: usize) -> (r: usize)
    requires
        from <= end <= lines@.len(),
    ensures
        r == block_end(lines_view(lines@), from as int, end as int, indent as int),
        from <= r <= end,
{
    let ghost lv = lines_view(lines@);
    let mut ci = from;
    while ci < end
        invariant
            from <= ci <= end <= lines@.len(),
            lv == lines_view(lines@),
            block_end(lv, from as int, end as int, indent as int) == block_end(lv, ci as int, end as int, indent as int),
        decreases end - ci,
    {
        let cand = &lines[ci];
        assert(lv[ci as int] == cand@);
        let lead = line_indent(cand);
        proof {
            crate::text::lemma_leading_whitespace(cand@);
        }
        if lead < cand.len() && lead <= indent {
            return ci;
        }
        ci += 1;
    }
    end
}

fn first_field_exec(lines: &Vec<Vec<char>>, name: &str, a: usize, b: usize) -> (r: Option<usize>)
    requires
        a <= b <= lines@.len(),
    ensures
        r matches Some(k) ==> first_field(lines_view(lines@), name@, a as int, b as int) == Some(k as int),
        r is None ==> first_field(lines_view(lines@), name@, a as int, b as int) is None,
{
    let ghost lv = lines_view(lines@);
    let mut k = a;
    while k < b
        invariant
            a <= k <= b <= lines@.len(),
            lv == lines_view(lines@),
            first_field(lv, name@, a as int, b as int) == first_field(lv, name@, k as int, b as int),
        decreases b - k,
    {
        assert(lv[k as int] == lines@[k as int]@);
        if field_is(&lines[k], name) {
            return Some(k);
        }
        k += 1;
    }
    None
}

/// The block of the first effect with `id` that has a script.
pub fn find_effect_block(lines: &Vec<Vec<char>>, effect_id: u32) -> (r: Option<(usize, usize)>)
    ensures
        r matches Some((s, e)) ==> spec_find_effect_block(lines_view(lines@), effect_id) == Some((s as int, e as int)),
        r is None ==> spec_find_effect_block(lines_view(lines@), effect_id) is None,
        r matches Some((s, e)) ==> s < e <= lines@.len(),
{
    let ghost lv = lines_view(lines@);
    let n = lines.len();
    let mut li: usize = 0;
    while li < n
        invariant
            li <= n == lines@.len(),
            lv == lines_view(lines@),
            spec_find_effect_block(lv, effect_id) == find_effect_block_from(lv, effect_id, li as int),
        decreases n - li,
    {
        let line = &lines[li];
        assert(lv[li as int] == line@);
        if is_effect_id_line(line, effect_id) {
            let indent = line_indent(line);
            let end = block_end_exec(lines, li + 1, n, indent);
            if first_field_exec(lines, "script", li, end).is_some() {
                return Some((li, end));
            }
        }
        li += 1;
    }
    None
}

/// The entry of the parameter `name` inside a `params` block indented
/// `params_indent`, searching lines `li..end`.
pub open spec fn param_entry_from(
    lines: Seq<Seq<char>>,
    name: Seq<char>,
    li: int,
    end: int,
    params_indent: int,
) -> Option<(int, int)>
    decreases end - li,
{
    if li < 0 || li >= end || li >= lines.len() {
        None
    } else if is_blank_line(lines[li]) {
        param_entry_from(lines, name, li + 1, end, params_indent)
    } else if spec_indent(lines[li]) <= params_indent {
        None
    } else if spec_field_name(lines[li]) != Some(name) {
        param_entry_from(lines, name, li + 1, end, params_indent)
    } else {
        Some((li, block_end(lines, li + 1, end, spec_indent(lines[li]))))
    }
}

/// The lines of the parameter `name` of the effect `id`: its entry line and
/// where its block ends.
pub open spec fn spec_find_effect_param_block(lines: Seq<Seq<char>>, id: u32, name: Seq<char>) -> Option<(int, int)> {
    match spec_find_effect_block(lines, id) {
        None => None,
        Some((start, end)) => match first_field(lines, "params"@, start, end) {
            None => None,
            Some(p) => param_entry_from(lines, name, p + 1, end, spec_indent(lines[p])),
        },
    }
}

proof fn lemma_param_entry(lines: Seq<Seq<char>>, name: Seq<char>, li: int, end: int, params_indent: int)
    requires
        0 <= li <= end <= lines.len(),
    ensures
        param_entry_from(lines, name, li, end, params_indent) matches Some((s, e)) ==> li <= s < e <= end,
    decreases end - li,
{
    if li < end {
        lemma_block_end(lines, li + 1, end, spec_indent(lines[li]));
        lemma_param_entry(lines, name, li + 1, end, params_indent);
    }
}

/// The lines of the parameter `name` of the effect `id`.
pub fn find_effect_param_block(lines: &Vec<Vec<char>>, effect_id: u32, param_name: &str) -> (r: Option<(usize, usize)>)
    ensures
        r matches Some((s, e)) ==> spec_find_effect_param_block(lines_view(lines@), effect_id, param_name@) == Some(
            (s as int, e as int),
        ),
        r is None ==> spec_find_effect_param_block(lines_view(lines@), effect_id, param_name@) is None,
        r matches Some((s, e)) ==> s < e <= lines@.len(),
{
    let ghost lv = lines_view(lines@);
    let (start, end) = match find_effect_block(lines, effect_id) {
        Some(b) => b,
        None => {
            return None;
        },
    };
    let p = match first_field_exec(lines, "params", start, end) {
        Some(p) => p,
        None => {
            return None;
        },
    };
    proof {
        lemma_first_field(lv, "params"@, start as int, end as int);
    }
    assert(lv[p as int] == lines@[p as int]@);
    let params_indent = line_indent(&lines[p]);
    let mut li = p + 1;
    while li < end
        invariant
            p + 1 <= li <= end <= lines@.len(),
            lv == lines_view(lines@),
            params_indent == spec_indent(lv[p as int]),
            spec_find_effect_param_block(lv, effect_id, param_name@) == param_entry_from(
                lv,
                param_name@,
                li as int,
                end as int,
                params_indent as int,
            ),
        decreases end - li,
    {
        let line = &lines[li];
        assert(lv[li as int] == line@);
        let lead = line_indent(line);
        proof {
            crate::text::lemma_leading_whitespace(line@);
        }
        if lead < line.len() {
            if lead <= params_indent {
                return None;
            }
            if field_is(line, param_name) {
                let block_end = block_end_exec(lines, li + 1, end, lead);
                return Some((li, block_end));
            }
        }
        li += 1;
    }
    None
}

/// Where the `id` value of the effect `id` is written.
pub open spec fn spec_locate_effect_id(lines: Seq<Seq<char>>, id: u32) -> Option<TextRange> {
    match spec_find_effect_block(lines, id) {
        Some((s, _)) => spec_line_value_range(lines, s, "id"@, Some(decimal_digits(id as nat))),
        None => None,
    }
}

/// Where the `id` value of the effect `effect_id` is written.
pub fn locate_effect_id(text: &str, effect_id: u32) -> (r: Option<TextRange>)
    ensures
        r == spec_locate_effect_id(spec_lines(text@), effect_id),
{
    let lines = split_lines(text);
    locate_effect_id_in(&lines, effect_id)
}

fn locate_effect_id_in(lines: &Vec<Vec<char>>, effect_id: u32) -> (r: Option<TextRange>)
    ensures
        r == spec_locate_effect_id(lines_view(lines@), effect_id),
{
    match find_effect_block(lines, effect_id) {
        Some((start, _)) => {
            let field = chars_of("id");
            let digits = u64_to_decimal(effect_id as u64);
            line_value_range(lines, start, &field, Some(&digits))
        },
        None => None,
    }
}

/// Where the `params` of the effect `id` are written, else its id.
pub open spec fn spec_locate_effect_params_block(lines: Seq<Seq<char>>, id: u32) -> Option<TextRange> {
    match spec_find_effect_block(lines, id) {
        None => None,
        Some((s, e)) => match first_field(lines, "params"@, s, e) {
            Some(k) => spec_line_value_range(lines, k, "params"@, None),
            None => spec_locate_effect_id(lines, id),
        },
    }
}

/// Where the `params` of the effect `effect_id` are written, else its id.
pub fn locate_effect_params_block(text: &str, effect_id: u32) -> (r: Option<TextRange>)
    ensures
        r == spec_locate_effect_params_block(spec_lines(text@), effect_id),
{
    let lines = split_lines(text);
    let (start, end) = match find_effect_block(&lines, effect_id) {
        Some(b) => b,
        None => {
            return None;
        },
    };
    match first_field_exec(&lines, "params", start, end) {
        Some(k) => {
            let field = chars_of("params");
            line_value_range(&lines, k, &field, None)
        },
        None => locate_effect_id_in(&lines, effect_id),
    }
}

/// Where the parameter `name` of the effect `id` is written.
pub open spec fn spec_locate_effect_param(lines: Seq<Seq<char>>, id: u32, name: Seq<char>) -> Option<TextRange> {
    match spec_find_effect_param_block(lines, id, name) {
        Some((li, _)) => spec_line_value_range(lines, li, name, None),
        None => None,
    }
}

fn locate_effect_param_in(lines: &Vec<Vec<char>>, effect_id: u32, param_name: &str) -> (r: Option<TextRange>)
    ensures
        r == spec_locate_effect_param(lines_view(lines@), effect_id, param_name@),
{
    match find_effect_param_block(lines, effect_id, param_name) {
        Some((li, _)) => {
            let field = chars_of(param_name);
            line_value_range(lines, li, &field, None)
        },
        None => None,
    }
}

/// Where the parameter `param_name` of the effect `effect_id` is written.
pub fn locate_effect_param(text: &str, effect_id: u32, param_name: &str) -> (r: Option<TextRange>)
    ensures
        r == spec_locate_effect_param(spec_lines(text@), effect_id, param_name@),
{
    let lines = split_lines(text);
    locate_effect_param_in(&lines, effect_id, param_name)
}

/// Where the field `field` of the parameter `name` of the effect `id` is
/// written, else the parameter.
pub open spec fn spec_locate_effect_param_field(
    lines: Seq<Seq<char>>,
    id: u32,
    name: Seq<char>,
    field: Seq<char>,
    value: Option<Seq<char>>,
) -> Option<TextRange> {
    match spec_find_effect_param_block(lines, id, name) {
        None => None,
        Some((s, e)) => match first_field(lines, field, s, e) {
            Some(k) => spec_line_value_range(lines, k, field, value),
            None => spec_locate_effect_param(lines, id, name),
        },
    }
}

/// Where the field `field` of the parameter `param_name` of the effect
/// `effect_id` is written, else the parameter.
pub fn locate_effect_param_field(text: &str, effect_id: u32, param_name: &str, field: &str, value: Option<&str>) -> (r:
    Option<TextRange>)
    ensures
        r == spec_locate_effect_param_field(
            spec_lines(text@),
            effect_id,
            param_name@,
            field@,
            match value {
                Some(v) => Some(v@),
                None => None,
            },
        ),
{
    let lines = split_lines(text);
    let (start, end) = match find_effect_param_block(&lines, effect_id, param_name) {
        Some(b) => b,
        None => {
            return None;
        },
    };
    match first_field_exec(&lines, field, start, end) {
        Some(k) => {
            let field_chars = chars_of(field);
            match value {
                Some(v) => {
                    let value_chars = chars_of(v);
                    line_value_range(&lines, k, &field_chars, Some(&value_chars))
                },
                None => line_value_range(&lines, k, &field_chars, None),
            }
        },
        None => locate_effect_param_in(&lines, effect_id, param_name),
    }
}

/// The first line in `a..b` that contains `v`, and where.
pub open spec fn first_containing(lines: Seq<Seq<char>>, v: Seq<char>, a: int, b: int) -> Option<(int, int)>
    decreases b - a,
{
    if a < 0 || a >= b || a >= lines.len() {
        None
    } else {
        match find_text(lines[a], v) {
            Some(c) => Some((a, c)),
            None => first_containing(lines, v, a + 1, b),
        }
    }
}

/// Where `value` is written within the parameter `name` of the effect `id`,
/// else the parameter.
pub open spec fn spec_locate_effect_param_value(
    lines: Seq<Seq<char>>,
    id: u32,
    name: Seq<char>,
    value: Seq<char>,
) -> Option<TextRange> {
    match spec_find_effect_param_block(lines, id, name) {
        None => None,
        Some((s, e)) => match first_containing(lines, value, s, e) {
            Some((k, c)) => Some(range_on_line(k, c, value.len() as int)),
            None => spec_locate_effect_param(lines, id, name),
        },
    }
}

/// Where `value` is written within the parameter `param_name` of the effect
/// `effect_id`, else the parameter.
pub fn locate_effect_param_value(text: &str, effect_id: u32, param_name: &str, value: &str) -> (r: Option<TextRange>)
    ensures
        r == spec_locate_effect_param_value(spec_lines(text@), effect_id, param_name@, value@),
{
    let lines = split_lines(text);
    let ghost lv = lines_view(lines@);
    let (start, end) = match find_effect_param_block(&lines, effect_id, param_name) {
        Some(b) => b,
        None => {
            return None;
        },
    };
    let v = chars_of(value);
    assert(lv == spec_lines(text@));
    let mut k = start;
    while k < end
        invariant
            start <= k <= end <= lines@.len(),
            lv == lines_view(lines@),
            v@ == value@,
            lv == spec_lines(text@),
            spec_find_effect_param_block(lv, effect_id, param_name@) == Some((start as int, end as int)),
            first_containing(lv, value@, start as int, end as int) == first_containing(lv, value@, k as int, end as int),
        decreases end - k,
    {
        assert(lv[k as int] == lines@[k as int]@);
        match find_text_exec(&lines[k], &v) {
            Some(c) => {
                assert(first_containing(lv, value@, k as int, end as int) == Some((k as int, c as int)));
                assert(spec_find_effect_param_block(lv, effect_id, param_name@) == Some((start as int, end as int)));
                return Some(range_on_line_exec(k, c, v.len()));
            },
            None => {},
        }
        k += 1;
    }
    locate_effect_param_in(&lines, effect_id, param_name)
}

pub open spec fn min_int(a: int, b: int) -> int {
    if a <= b {
        a
    } else {
        b
    }
}

/// Where a position of an inline script falls in the YAML text, the script's
/// content being lines `content_start..=content_end` indented
/// `content_indent`.
pub open spec fn spec_yaml_position(
    position: SourcePosition,
    content_start: int,
    content_end: int,
    content_indent: int,
) -> TextPosition {
    let line = min_int(saturating_add_usize(content_start, position.line as int), content_end);
    TextPosition { line: line as u32, character: saturating_add_usize(content_indent, position.character as int) as u32 }
}

/// Where a position of an inline script falls in the YAML text.
pub fn yaml_position_for_script_position(
    position: SourcePosition,
    content_start: usize,
    content_end: usize,
    content_indent: usize,
) -> (p: TextPosition)
    ensures
        p == spec_yaml_position(position, content_start as int, content_end as int, content_indent as int),
{
    let pl = position.line as usize;
    let shifted = if content_start <= usize::MAX - pl {
        content_start + pl
    } else {
        usize::MAX
    };
    let line = if shifted <= content_end {
        shifted
    } else {
        content_end
    };
    let pc = position.character as usize;
    let character = if content_indent <= usize::MAX - pc {
        content_indent + pc
    } else {
        usize::MAX
    };
    TextPosition { line: line as u32, character: character as u32 }
}

/// Scanning the lines `ci..end` of a block scalar under a field indented
/// `script_indent`: the first content line, the last one, and the least
/// indentation of content lines.
pub open spec fn content_scan(
    lines: Seq<Seq<char>>,
    ci: int,
    end: int,
    script_indent: int,
    first: Option<int>,
    last: int,
    indent: int,
) -> (Option<int>, int, int)
    decreases end - ci,
{
    if ci < 0 || ci >= end || ci >= lines.len() {
        (first, last, indent)
    } else if is_blank_line(lines[ci]) {
        content_scan(lines, ci + 1, end, script_indent, first, last, indent)
    } else if spec_indent(lines[ci]) <= script_indent {
        (first, last, indent)
    } else {
        content_scan(
            lines,
            ci + 1,
            end,
            script_indent,
            if first is None {
                Some(ci)
            } else {
                first
            },
            ci,
            min_int(indent, spec_indent(lines[ci])),
        )
    }
}

/// The text after the first `':'` of `line`, without leading whitespace.
pub open spec fn after_colon(line: Seq<char>, colon: int) -> Seq<char> {
    let after = line.subrange(colon + 1, line.len() as int);
    after.subrange(leading_whitespace(after), after.len() as int)
}

/// Where the script position range `sr` of the inline script of an effect is
/// written, searching the effect's lines `li..end`.
pub open spec fn inline_script_from(lines: Seq<Seq<char>>, li: int, end: int, sr: SourceRange) -> Option<TextRange>
    decreases end - li,
{
    if li < 0 || li >= end || li >= lines.len() {
        None
    } else if spec_field_name(lines[li]) != Some("script"@) {
        inline_script_from(lines, li + 1, end, sr)
    } else {
        let line = lines[li];
        match find_char_from(line, ':', 0) {
            None => None,
            Some(colon) => {
                let rest = after_colon(line, colon);
                if rest.len() > 0 && (rest[0] == '|' || rest[0] == '>') {
                    let (first, last, indent) = content_scan(
                        lines,
                        li + 1,
                        end,
                        spec_indent(line),
                        None,
                        li + 1,
                        usize::MAX as int,
                    );
                    match first {
                        None => None,
                        Some(start) => {
                            let ind = min_int(indent, usize::MAX - 1);
                            Some(
                                TextRange {
                                    start: spec_yaml_position(sr.start, start, last, ind),
                                    end: spec_yaml_position(sr.end, start, last, ind),
                                },
                            )
                        },
                    }
                } else if rest.len() > 0 {
                    spec_line_value_range(lines, li, "script"@, None)
                } else {
                    inline_script_from(lines, li + 1, end, sr)
                }
            },
        }
    }
}

/// Where the script range `sr` of the inline script of the effect `id` is
/// written: inside a block scalar, each script line maps to a content line;
/// a one-line script maps to its value.
pub open spec fn spec_locate_inline_script_range(lines: Seq<Seq<char>>, id: u32, sr: SourceRange) -> Option<TextRange> {
    match spec_find_effect_block(lines, id) {
        None => None,
        Some((s, e)) => inline_script_from(lines, s, e, sr),
    }
}

/// Where the script range `source_range` of the inline script of the effect
/// `effect_id` is written.
pub fn locate_inline_script_range(text: &str, effect_id: u32, source_range: SourceRange) -> (r: Option<TextRange>)
    ensures
        r == spec_locate_inline_script_range(spec_lines(text@), effect_id, source_range),
{
    let lines = split_lines(text);
    let ghost lv = lines_view(lines@);
    let (start, end) = match find_effect_block(&lines, effect_id) {
        Some(b) => b,
        None => {
            return None;
        },
    };
    let mut li = start;
    while li < end
        invariant
            start <= li <= end <= lines@.len(),
            lv == lines_view(lines@),
            lv == spec_lines(text@),
            spec_find_effect_block(lv, effect_id) == Some((start as int, end as int)),
            inline_script_from(lv, start as int, end as int, source_range) == inline_script_from(
                lv,
                li as int,
                end as int,
                source_range,
            ),
        decreases end - li,
    {
        let line = &lines[li];
        assert(lv[li as int] == line@);
        if !field_is(line, "script") {
            li += 1;
            continue;
        }
        let script_indent = line_indent(line);
        let colon = match find_char_exec(line, ':', 0) {
            Some(c) => c,
            None => {
                return None;
            },
        };
        proof {
            lemma_find_char_from(line@, ':', 0);
        }
        let llen = line.len();
        let lead = leading_whitespace_exec(line, colon + 1, llen);
        let rest_start = colon + 1 + lead;
        assert(line@.subrange(rest_start as int, llen as int) =~= after_colon(line@, colon as int));
        if rest_start < llen && (line[rest_start] == '|' || line[rest_start] == '>') {
            let mut first: Option<usize> = None;
            let mut last: usize = li + 1;
            let mut indent: usize = usize::MAX;
            let mut ci = li + 1;
            let ghost rest = after_colon(line@, colon as int);
            assert(rest.len() > 0 && (rest[0] == '|' || rest[0] == '>'));
            while ci < end
                invariant
                    li + 1 <= ci <= end <= lines@.len(),
                    start <= li < end,
                    lv == lines_view(lines@),
                    lv == spec_lines(text@),
                    spec_find_effect_block(lv, effect_id) == Some((start as int, end as int)),
                    inline_script_from(lv, start as int, end as int, source_range) == inline_script_from(
                        lv,
                        li as int,
                        end as int,
                        source_range,
                    ),
                    spec_field_name(lv[li as int]) == Some("script"@),
                    find_char_from(lv[li as int], ':', 0) == Some(colon as int),
                    rest == after_colon(lv[li as int], colon as int),
                    rest.len() > 0 && (rest[0] == '|' || rest[0] == '>'),
                    script_indent == spec_indent(lv[li as int]),
                    content_scan(lv, li + 1, end as int, script_indent as int, None, li + 1, usize::MAX as int)
                        == content_scan(
                        lv,
                        ci as int,
                        end as int,
                        script_indent as int,
                        match first {
                            Some(f) => Some(f as int),
                            None => None,
                        },
                        last as int,
                        indent as int,
                    ),
                ensures
                    content_scan(lv, li + 1, end as int, script_indent as int, None, li + 1, usize::MAX as int) == (
                        match first {
                            Some(f) => Some(f as int),
                            None => None,
                        },
                        last as int,
                        indent as int,
                    ),
                decreases end - ci,
            {
                let cand = &lines[ci];
                assert(lv[ci as int] == cand@);
                let ind = line_indent(cand);
                proof {
                    crate::text::lemma_leading_whitespace(cand@);
                }
                if ind >= cand.len() {
                    ci += 1;
                    continue;
                }
                if ind <= script_indent {
                    break;
                }
                if first.is_none() {
                    first = Some(ci);
                }
                last = ci;
                if ind < indent {
                    indent = ind;
                }
                ci += 1;
            }
            let content_start = match first {
                Some(f) => f,
                None => {
                    return None;
                },
            };
            let ind = if indent < usize::MAX - 1 {
                indent
            } else {
                usize::MAX - 1
            };
            return Some(
                TextRange {
                    start: yaml_position_for_script_position(source_range.start, content_start, last, ind),
                    end: yaml_position_for_script_position(source_range.end, content_start, last, ind),
                },
            );
        }
        if rest_start < llen {
            let field = chars_of("script");
            return line_value_range(&lines, li, &field, None);
        }
        li += 1;
    }
    None
}

} // verus!