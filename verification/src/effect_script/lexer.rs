//! The effect-script lexer: characters to tokens with source ranges.
use vstd::prelude::*;
use crate::text::{
    char_is_whitespace, concat3, is_digit, is_hex, is_ident_char, is_ident_start, is_whitespace,
    spec_is_digit, spec_is_hex, spec_is_ident_char, spec_is_ident_start, string_from_chars,
};
use crate::model::time::first_index_of;
use crate::effect_script::diag::{ScriptDiagnostic, SourcePosition, SourceRange, SpecDiagnostic};

verus! {

/// What a token is.
#[derive(Debug, Clone, PartialEq)]
pub enum TokenKind {
    Ident(String),
    Number(String),
    Color(String),
    String(String),
    Symbol(char),
    Eof,
}

/// A token and the source range it was read from.
#[derive(Debug, Clone, PartialEq)]
pub struct Token {
    pub kind: TokenKind,
    pub range: SourceRange,
}

/// The mathematical value of a token kind.
pub enum SpecTokenKind {
    Ident(Seq<char>),
    Number(Seq<char>),
    Color(Seq<char>),
    Str(Seq<char>),
    Symbol(char),
    Eof,
}

pub struct SpecToken {
    pub kind: SpecTokenKind,
    pub range: SourceRange,
}

impl View for TokenKind {
    type V = SpecTokenKind;

    open spec fn view(&self) -> SpecTokenKind {
        match self {
            TokenKind::Ident(s) => SpecTokenKind::Ident(s@),
            TokenKind::Number(s) => SpecTokenKind::Number(s@),
            TokenKind::Color(s) => SpecTokenKind::Color(s@),
            TokenKind::String(s) => SpecTokenKind::Str(s@),
            TokenKind::Symbol(c) => SpecTokenKind::Symbol(*c),
            TokenKind::Eof => SpecTokenKind::Eof,
        }
    }
}

impl View for Token {
    type V = SpecToken;

    open spec fn view(&self) -> SpecToken {
        SpecToken { kind: self.kind@, range: self.range }
    }
}

pub open spec fn tokens_view(ts: Seq<Token>) -> Seq<SpecToken> {
    ts.map_values(|t: Token| t@)
}

pub open spec fn diags_view(ds: Seq<ScriptDiagnostic>) -> Seq<SpecDiagnostic> {
    ds.map_values(|d: ScriptDiagnostic| d@)
}

/// Line and column (both counted from zero) reached after reading `s[0..i]`:
/// a line feed starts a new line, any other character advances the column.
pub open spec fn position_at(s: Seq<char>, i: int) -> (int, int)
    decreases i,
{
    if i <= 0 {
        (0, 0)
    } else {
        let p = position_at(s, i - 1);
        if s[i - 1] == '\n' {
            (p.0 + 1, 0)
        } else {
            (p.0, p.1 + 1)
        }
    }
}

pub open spec fn source_position(s: Seq<char>, i: int) -> SourcePosition {
    SourcePosition { line: position_at(s, i).0 as u32, character: position_at(s, i).1 as u32 }
}

pub open spec fn source_range(s: Seq<char>, i: int, j: int) -> SourceRange {
    SourceRange { start: source_position(s, i), end: source_position(s, j) }
}

pub proof fn lemma_position_bound(s: Seq<char>, i: int)
    requires
        0 <= i,
    ensures
        0 <= position_at(s, i).0 <= i,
        0 <= position_at(s, i).1 <= i,
    decreases i,
{
    if i > 0 {
        lemma_position_bound(s, i - 1);
    }
}

/// End of the run of characters satisfying `p` that starts at `i`.
pub open spec fn run_end(s: Seq<char>, i: int, p: spec_fn(char) -> bool) -> int
    decreases s.len() - i,
{
    if 0 <= i < s.len() && p(s[i]) {
        run_end(s, i + 1, p)
    } else {
        i
    }
}

pub proof fn lemma_run_end(s: Seq<char>, i: int, p: spec_fn(char) -> bool)
    requires
        0 <= i,
    ensures
        i <= run_end(s, i, p),
        i <= s.len() ==> run_end(s, i, p) <= s.len(),
        i > s.len() ==> run_end(s, i, p) == i,
        forall|k: int| i <= k < run_end(s, i, p) ==> p(#[trigger] s[k]),
    decreases s.len() - i,
{
    if 0 <= i < s.len() && p(s[i]) {
        lemma_run_end(s, i + 1, p);
    }
}

pub open spec fn digit_pred() -> spec_fn(char) -> bool {
    |c: char| spec_is_digit(c)
}

pub open spec fn ident_pred() -> spec_fn(char) -> bool {
    |c: char| spec_is_ident_char(c)
}

pub open spec fn hex_pred() -> spec_fn(char) -> bool {
    |c: char| spec_is_hex(c)
}

/// End of a number literal starting at `i`: digits, then optionally `.` and
/// more digits.
pub open spec fn number_end(s: Seq<char>, i: int) -> int {
    let j = run_end(s, i, digit_pred());
    if 0 <= j < s.len() && s[j] == '.' {
        run_end(s, j + 1, digit_pred())
    } else {
        j
    }
}

/// The characters that form one-character symbol tokens.
pub open spec fn is_symbol_char(c: char) -> bool {
    c == '{' || c == '}' || c == '(' || c == ')' || c == ';' || c == ',' || c == '<' || c == '>'
        || c == '+' || c == '-' || c == '*' || c == '/' || c == '=' || c == '!' || c == '&' || c
        == '|'
}

pub open spec fn unexpected_message(c: char) -> Seq<char> {
    "unexpected character `"@ + seq![c] + "`"@
}

pub open spec fn unterminated_message() -> Seq<char> {
    "unterminated string literal"@
}

/// Tokens and diagnostics that lexing `s` from `i` on produces.
pub open spec fn lex_from(s: Seq<char>, i: int) -> (Seq<SpecToken>, Seq<SpecDiagnostic>)
    decreases s.len() - i, 0int,
{
    if i < 0 || i >= s.len() {
        (
            seq![SpecToken { kind: SpecTokenKind::Eof, range: source_range(s, s.len() as int, s.len() as int) }],
            Seq::empty(),
        )
    } else {
        let c = s[i];
        if char_is_whitespace(c) {
            lex_from(s, i + 1)
        } else if spec_is_ident_start(c) {
            let j = run_end(s, i, ident_pred());
            if j <= i || j > s.len() {
                lex_from(s, i + 1)
            } else {
                let rest = lex_from(s, j);
                (
                    seq![SpecToken { kind: SpecTokenKind::Ident(s.subrange(i, j)), range: source_range(s, i, j) }]
                        + rest.0,
                    rest.1,
                )
            }
        } else if spec_is_digit(c) {
            let j = number_end(s, i);
            if j <= i || j > s.len() {
                lex_from(s, i + 1)
            } else {
                let rest = lex_from(s, j);
                (
                    seq![SpecToken { kind: SpecTokenKind::Number(s.subrange(i, j)), range: source_range(s, i, j) }]
                        + rest.0,
                    rest.1,
                )
            }
        } else if c == '#' {
            let j = run_end(s, i + 1, hex_pred());
            if j <= i || j > s.len() {
                lex_from(s, i + 1)
            } else {
                let rest = lex_from(s, j);
                (
                    seq![SpecToken { kind: SpecTokenKind::Color(s.subrange(i, j)), range: source_range(s, i, j) }]
                        + rest.0,
                    rest.1,
                )
            }
        } else if c == '"' {
            let k = first_index_of(s, '"', i + 1);
            if k < s.len() && k > i {
                let rest = lex_from(s, k + 1);
                (
                    seq![SpecToken { kind: SpecTokenKind::Str(s.subrange(i + 1, k)), range: source_range(s, i, k + 1) }]
                        + rest.0,
                    rest.1,
                )
            } else {
                (
                    seq![SpecToken { kind: SpecTokenKind::Eof, range: source_range(s, s.len() as int, s.len() as int) }],
                    seq![SpecDiagnostic { range: Some(source_range(s, i, s.len() as int)), message: unterminated_message() }],
                )
            }
        } else if is_symbol_char(c) {
            let rest = lex_from(s, i + 1);
            (
                seq![SpecToken { kind: SpecTokenKind::Symbol(c), range: source_range(s, i, i + 1) }]
                    + rest.0,
                rest.1,
            )
        } else {
            let rest = lex_from(s, i + 1);
            (
                rest.0,
                seq![SpecDiagnostic { range: Some(source_range(s, i, i + 1)), message: unexpected_message(c) }]
                    + rest.1,
            )
        }
    }
}

/// The result of lexing `text`: its tokens (ending with an end-of-file token)
/// when it has no errors, else its diagnostics.
pub open spec fn spec_lex(s: Seq<char>) -> Result<Seq<SpecToken>, Seq<SpecDiagnostic>> {
    let r = lex_from(s, 0);
    if r.1.len() == 0 {
        Ok(r.0)
    } else {
        Err(r.1)
    }
}

/// `ts` is not empty, ends with the end-of-file token, and has no other.
pub open spec fn ends_at_single_eof(ts: Seq<SpecToken>) -> bool {
    &&& ts.len() > 0
    &&& ts.last().kind is Eof
    &&& forall|k: int| 0 <= k < ts.len() - 1 ==> !((#[trigger] ts[k]).kind is Eof)
}

/// The diagnostic of the character `s[i]` that no token can start with.
pub open spec fn rejected_char_diag(s: Seq<char>, i: int) -> SpecDiagnostic {
    SpecDiagnostic { range: Some(source_range(s, i, i + 1)), message: unexpected_message(s[i]) }
}

/// The diagnostic of a string literal opened at `s[i]` and never closed.
pub open spec fn unterminated_diag(s: Seq<char>, i: int) -> SpecDiagnostic {
    SpecDiagnostic { range: Some(source_range(s, i, s.len() as int)), message: unterminated_message() }
}

/// Each of `ds` reports a character of `s` at or after `lo`, except that the
/// last may report a string literal left open there.
pub open spec fn diags_in_order(s: Seq<char>, ds: Seq<SpecDiagnostic>, lo: int) -> bool {
    &&& forall|k: int|
        #![trigger ds[k]]
        0 <= k < ds.len() - 1 ==> exists|i: int| lo <= i < s.len() && #[trigger] rejected_char_diag(s, i) == ds[k]
    &&& ds.len() > 0 ==> (exists|i: int| lo <= i < s.len() && #[trigger] rejected_char_diag(s, i) == ds.last())
        || (exists|i: int| lo <= i < s.len() && #[trigger] unterminated_diag(s, i) == ds.last())
}

proof fn lemma_diags_prepend(s: Seq<char>, i: int, rest: Seq<SpecDiagnostic>)
    requires
        0 <= i < s.len(),
        diags_in_order(s, rest, i + 1),
    ensures
        diags_in_order(s, seq![rejected_char_diag(s, i)] + rest, i),
{
    let all = seq![rejected_char_diag(s, i)] + rest;
    assert forall|k: int| #![trigger all[k]] 0 <= k < all.len() - 1 implies exists|j: int|
        i <= j < s.len() && #[trigger] rejected_char_diag(s, j) == all[k] by {
        if k == 0 {
            assert(rejected_char_diag(s, i) == all[0]);
        } else {
            assert(all[k] == rest[k - 1]);
            let j = choose|j: int| i + 1 <= j < s.len() && #[trigger] rejected_char_diag(s, j) == rest[k - 1];
            assert(rejected_char_diag(s, j) == all[k]);
        }
    }
    if rest.len() == 0 {
        assert(all.last() == rejected_char_diag(s, i));
    } else {
        assert(all.last() == rest.last());
        if exists|j: int| i + 1 <= j < s.len() && #[trigger] rejected_char_diag(s, j) == rest.last() {
            let j = choose|j: int| i + 1 <= j < s.len() && #[trigger] rejected_char_diag(s, j) == rest.last();
            assert(rejected_char_diag(s, j) == all.last());
        } else {
            let j = choose|j: int| i + 1 <= j < s.len() && #[trigger] unterminated_diag(s, j) == rest.last();
            assert(unterminated_diag(s, j) == all.last());
        }
    }
}

proof fn lemma_diags_weaken(s: Seq<char>, ds: Seq<SpecDiagnostic>, lo: int, lo2: int)
    requires
        lo2 <= lo,
        diags_in_order(s, ds, lo),
    ensures
        diags_in_order(s, ds, lo2),
{
    assert forall|k: int| #![trigger ds[k]] 0 <= k < ds.len() - 1 implies exists|j: int|
        lo2 <= j < s.len() && #[trigger] rejected_char_diag(s, j) == ds[k] by {
        let j = choose|j: int| lo <= j < s.len() && #[trigger] rejected_char_diag(s, j) == ds[k];
        assert(rejected_char_diag(s, j) == ds[k]);
    }
    if ds.len() > 0 {
        if exists|j: int| lo <= j < s.len() && #[trigger] rejected_char_diag(s, j) == ds.last() {
            let j = choose|j: int| lo <= j < s.len() && #[trigger] rejected_char_diag(s, j) == ds.last();
            assert(rejected_char_diag(s, j) == ds.last());
        } else {
            let j = choose|j: int| lo <= j < s.len() && #[trigger] unterminated_diag(s, j) == ds.last();
            assert(unterminated_diag(s, j) == ds.last());
        }
    }
}

proof fn lemma_lex_from_diags(s: Seq<char>, i: int)
    requires
        0 <= i,
    ensures
        diags_in_order(s, lex_from(s, i).1, i),
    decreases s.len() - i,
{
    if i < s.len() {
        let c = s[i];
        if char_is_whitespace(c) {
            lemma_lex_from_diags(s, i + 1);
            lemma_diags_weaken(s, lex_from(s, i + 1).1, i + 1, i);
        } else if spec_is_ident_start(c) {
            let j = run_end(s, i, ident_pred());
            if j <= i || j > s.len() {
                lemma_lex_from_diags(s, i + 1);
                lemma_diags_weaken(s, lex_from(s, i + 1).1, i + 1, i);
            } else {
                lemma_lex_from_diags(s, j);
                lemma_diags_weaken(s, lex_from(s, j).1, j, i);
            }
        } else if spec_is_digit(c) {
            let j = number_end(s, i);
            if j <= i || j > s.len() {
                lemma_lex_from_diags(s, i + 1);
                lemma_diags_weaken(s, lex_from(s, i + 1).1, i + 1, i);
            } else {
                lemma_lex_from_diags(s, j);
                lemma_diags_weaken(s, lex_from(s, j).1, j, i);
            }
        } else if c == '#' {
            let j = run_end(s, i + 1, hex_pred());
            if j <= i || j > s.len() {
                lemma_lex_from_diags(s, i + 1);
                lemma_diags_weaken(s, lex_from(s, i + 1).1, i + 1, i);
            } else {
                lemma_lex_from_diags(s, j);
                lemma_diags_weaken(s, lex_from(s, j).1, j, i);
            }
        } else if c == '"' {
            let k = first_index_of(s, '"', i + 1);
            if k < s.len() && k > i {
                lemma_lex_from_diags(s, k + 1);
                lemma_diags_weaken(s, lex_from(s, k + 1).1, k + 1, i);
            } else {
                let ds = lex_from(s, i).1;
                assert(ds.last() == unterminated_diag(s, i));
            }
        } else if is_symbol_char(c) {
            lemma_lex_from_diags(s, i + 1);
            lemma_diags_weaken(s, lex_from(s, i + 1).1, i + 1, i);
        } else {
            lemma_lex_from_diags(s, i + 1);
            lemma_diags_prepend(s, i, lex_from(s, i + 1).1);
            assert(lex_from(s, i).1 == seq![rejected_char_diag(s, i)] + lex_from(s, i + 1).1);
        }
    }
}

proof fn lemma_prepend_keeps_single_eof(t: SpecToken, rest: Seq<SpecToken>)
    requires
        ends_at_single_eof(rest),
        !(t.kind is Eof),
    ensures
        ends_at_single_eof(seq![t] + rest),
{
    let all = seq![t] + rest;
    assert(all.last() == rest.last());
    assert((seq![t] + rest).last() == rest.last());
    assert forall|k: int| 0 <= k < all.len() - 1 implies !((#[trigger] all[k]).kind is Eof) by {
        if k > 0 {
            assert(all[k] == rest[k - 1]);
        }
    }
}

proof fn lemma_lex_from_single_eof(s: Seq<char>, i: int)
    ensures
        ends_at_single_eof(lex_from(s, i).0),
        lex_from(s, i).0.last().range == source_range(s, s.len() as int, s.len() as int),
    decreases s.len() - i,
{
    if i >= 0 && i < s.len() {
        let c = s[i];
        if char_is_whitespace(c) {
            lemma_lex_from_single_eof(s, i + 1);
        } else if spec_is_ident_start(c) {
            let j = run_end(s, i, ident_pred());
            if j <= i || j > s.len() {
                lemma_lex_from_single_eof(s, i + 1);
            } else {
                lemma_lex_from_single_eof(s, j);
                lemma_prepend_keeps_single_eof(
                    SpecToken { kind: SpecTokenKind::Ident(s.subrange(i, j)), range: source_range(s, i, j) },
                    lex_from(s, j).0,
                );
            }
        } else if spec_is_digit(c) {
            let j = number_end(s, i);
            if j <= i || j > s.len() {
                lemma_lex_from_single_eof(s, i + 1);
            } else {
                lemma_lex_from_single_eof(s, j);
                lemma_prepend_keeps_single_eof(
                    SpecToken { kind: SpecTokenKind::Number(s.subrange(i, j)), range: source_range(s, i, j) },
                    lex_from(s, j).0,
                );
            }
        } else if c == '#' {
            let j = run_end(s, i + 1, hex_pred());
            if j <= i || j > s.len() {
                lemma_lex_from_single_eof(s, i + 1);
            } else {
                lemma_lex_from_single_eof(s, j);
                lemma_prepend_keeps_single_eof(
                    SpecToken { kind: SpecTokenKind::Color(s.subrange(i, j)), range: source_range(s, i, j) },
                    lex_from(s, j).0,
                );
            }
        } else if c == '"' {
            let k = first_index_of(s, '"', i + 1);
            if k < s.len() && k > i {
                lemma_lex_from_single_eof(s, k + 1);
                lemma_prepend_keeps_single_eof(
                    SpecToken { kind: SpecTokenKind::Str(s.subrange(i + 1, k)), range: source_range(s, i, k + 1) },
                    lex_from(s, k + 1).0,
                );
            }
        } else if is_symbol_char(c) {
            lemma_lex_from_single_eof(s, i + 1);
            lemma_prepend_keeps_single_eof(
                SpecToken { kind: SpecTokenKind::Symbol(c), range: source_range(s, i, i + 1) },
                lex_from(s, i + 1).0,
            );
        } else {
            lemma_lex_from_single_eof(s, i + 1);
        }
    }
}

/// `a` comes strictly before `b` in a script: on an earlier line, or
/// earlier on the same line.
pub open spec fn position_before(a: SourcePosition, b: SourcePosition) -> bool {
    a.line < b.line || (a.line == b.line && a.character < b.character)
}

/// The tokens of `ts` start at strictly increasing positions.
pub open spec fn starts_increase(ts: Seq<SpecToken>) -> bool {
    forall|a: int, b: int|
        0 <= a < b < ts.len() ==> position_before((#[trigger] ts[a]).range.start, (#[trigger] ts[b]).range.start)
}

proof fn lemma_position_strict(s: Seq<char>, i: int, j: int)
    requires
        0 <= i < j,
        j <= s.len(),
        s.len() < u32::MAX,
    ensures
        position_before(source_position(s, i), source_position(s, j)),
    decreases j - i,
{
    lemma_position_bound(s, i);
    lemma_position_bound(s, j);
    lemma_position_bound(s, j - 1);
    if j > i + 1 {
        lemma_position_strict(s, i, j - 1);
    }
}

proof fn lemma_starts_prepend(s: Seq<char>, t: SpecToken, rest: Seq<SpecToken>, i: int, j: int)
    requires
        0 <= i < j,
        j <= s.len(),
        s.len() < u32::MAX,
        t.range.start == source_position(s, i),
        starts_increase(rest),
        forall|k: int| 0 <= k < rest.len() ==> !position_before((#[trigger] rest[k]).range.start, source_position(s, j)),
    ensures
        starts_increase(seq![t] + rest),
        forall|k: int|
            0 <= k < (seq![t] + rest).len() ==> !position_before(
                (#[trigger] (seq![t] + rest)[k]).range.start,
                source_position(s, i),
            ),
{
    lemma_position_strict(s, i, j);
    let all = seq![t] + rest;
    assert forall|a: int, b: int| 0 <= a < b < all.len() implies position_before(
        (#[trigger] all[a]).range.start,
        (#[trigger] all[b]).range.start,
    ) by {
        assert(all[b] == rest[b - 1]);
        if a > 0 {
            assert(all[a] == rest[a - 1]);
        }
    }
    assert forall|k: int| 0 <= k < all.len() implies !position_before(
        (#[trigger] all[k]).range.start,
        source_position(s, i),
    ) by {
        if k > 0 {
            assert(all[k] == rest[k - 1]);
        }
    }
}

proof fn lemma_starts_weaken(s: Seq<char>, ts: Seq<SpecToken>, i: int, j: int)
    requires
        0 <= i < j,
        j <= s.len(),
        s.len() < u32::MAX,
        forall|k: int| 0 <= k < ts.len() ==> !position_before((#[trigger] ts[k]).range.start, source_position(s, j)),
    ensures
        forall|k: int| 0 <= k < ts.len() ==> !position_before((#[trigger] ts[k]).range.start, source_position(s, i)),
{
    lemma_position_strict(s, i, j);
}

proof fn lemma_lex_from_starts(s: Seq<char>, i: int)
    requires
        0 <= i <= s.len(),
        s.len() < u32::MAX,
    ensures
        starts_increase(lex_from(s, i).0),
        forall|k: int|
            0 <= k < lex_from(s, i).0.len() ==> !position_before(
                (#[trigger] lex_from(s, i).0[k]).range.start,
                source_position(s, i),
            ),
    decreases s.len() - i,
{
    if i == s.len() {
        return;
    }
    let c = s[i];
    if char_is_whitespace(c) {
        lemma_lex_from_starts(s, i + 1);
        lemma_starts_weaken(s, lex_from(s, i + 1).0, i, i + 1);
    } else if spec_is_ident_start(c) {
        let j = run_end(s, i, ident_pred());
        if j <= i || j > s.len() {
            lemma_lex_from_starts(s, i + 1);
            lemma_starts_weaken(s, lex_from(s, i + 1).0, i, i + 1);
        } else {
            lemma_lex_from_starts(s, j);
            lemma_starts_prepend(
                s,
                SpecToken { kind: SpecTokenKind::Ident(s.subrange(i, j)), range: source_range(s, i, j) },
                lex_from(s, j).0,
                i,
                j,
            );
        }
    } else if spec_is_digit(c) {
        let j = number_end(s, i);
        if j <= i || j > s.len() {
            lemma_lex_from_starts(s, i + 1);
            lemma_starts_weaken(s, lex_from(s, i + 1).0, i, i + 1);
        } else {
            lemma_lex_from_starts(s, j);
            lemma_starts_prepend(
                s,
                SpecToken { kind: SpecTokenKind::Number(s.subrange(i, j)), range: source_range(s, i, j) },
                lex_from(s, j).0,
                i,
                j,
            );
        }
    } else if c == '#' {
        let j = run_end(s, i + 1, hex_pred());
        if j <= i || j > s.len() {
            lemma_lex_from_starts(s, i + 1);
            lemma_starts_weaken(s, lex_from(s, i + 1).0, i, i + 1);
        } else {
            lemma_lex_from_starts(s, j);
            lemma_starts_prepend(
                s,
                SpecToken { kind: SpecTokenKind::Color(s.subrange(i, j)), range: source_range(s, i, j) },
                lex_from(s, j).0,
                i,
                j,
            );
        }
    } else if c == '"' {
        let k = first_index_of(s, '"', i + 1);
        if k < s.len() && k > i {
            lemma_lex_from_starts(s, k + 1);
            lemma_starts_prepend(
                s,
                SpecToken { kind: SpecTokenKind::Str(s.subrange(i + 1, k)), range: source_range(s, i, k + 1) },
                lex_from(s, k + 1).0,
                i,
                k + 1,
            );
        } else {
            lemma_position_strict(s, i, s.len() as int);
        }
    } else if is_symbol_char(c) {
        lemma_lex_from_starts(s, i + 1);
        lemma_starts_prepend(
            s,
            SpecToken { kind: SpecTokenKind::Symbol(c), range: source_range(s, i, i + 1) },
            lex_from(s, i + 1).0,
            i,
            i + 1,
        );
    } else {
        lemma_lex_from_starts(s, i + 1);
        lemma_starts_weaken(s, lex_from(s, i + 1).0, i, i + 1);
    }
}

/// How many line feeds `s` holds.
pub open spec fn newline_count(s: Seq<char>) -> int
    decreases s.len(),
{
    if s.len() == 0 {
        0
    } else {
        newline_count(s.drop_last()) + if s.last() == '\n' {
            1int
        } else {
            0int
        }
    }
}

/// Where the last line of `s` starts: just after its last line feed, or at
/// the start.
pub open spec fn last_line_start(s: Seq<char>) -> int
    decreases s.len(),
{
    if s.len() == 0 {
        0
    } else if s.last() == '\n' {
        s.len() as int
    } else {
        last_line_start(s.drop_last())
    }
}

/// The position after the first `i` characters of `s` is the number of line
/// feeds among them, and the number of characters after the last of those.
pub proof fn lemma_position_counts(s: Seq<char>, i: int)
    requires
        0 <= i <= s.len(),
    ensures
        position_at(s, i) == (newline_count(s.subrange(0, i)), i - last_line_start(s.subrange(0, i))),
    decreases i,
{
    if i > 0 {
        lemma_position_counts(s, i - 1);
        assert(s.subrange(0, i).drop_last() =~= s.subrange(0, i - 1));
        assert(s.subrange(0, i).last() == s[i - 1]);
    } else {
        assert(s.subrange(0, 0).len() == 0);
    }
}

/// Where a diagnostic starts (the start of the script when it has no range).
pub open spec fn diag_start(d: SpecDiagnostic) -> SourcePosition {
    match d.range {
        Some(r) => r.start,
        None => SourcePosition { line: 0, character: 0 },
    }
}

/// The diagnostics of `ds` start at strictly increasing positions.
pub open spec fn diag_starts_increase(ds: Seq<SpecDiagnostic>) -> bool {
    forall|a: int, b: int| 0 <= a < b < ds.len() ==> position_before(diag_start(#[trigger] ds[a]), diag_start(#[trigger] ds[b]))
}

proof fn lemma_lex_from_diag_starts(s: Seq<char>, i: int)
    requires
        0 <= i <= s.len(),
        s.len() < u32::MAX,
    ensures
        diag_starts_increase(lex_from(s, i).1),
        forall|k: int|
            0 <= k < lex_from(s, i).1.len() ==> !position_before(
                diag_start(#[trigger] lex_from(s, i).1[k]),
                source_position(s, i),
            ),
    decreases s.len() - i,
{
    if i == s.len() {
        return;
    }
    let c = s[i];
    let next = if char_is_whitespace(c) {
        i + 1
    } else if spec_is_ident_start(c) {
        let j = run_end(s, i, ident_pred());
        if j <= i || j > s.len() { i + 1 } else { j }
    } else if spec_is_digit(c) {
        let j = number_end(s, i);
        if j <= i || j > s.len() { i + 1 } else { j }
    } else if c == '#' {
        let j = run_end(s, i + 1, hex_pred());
        if j <= i || j > s.len() { i + 1 } else { j }
    } else if c == '"' {
        let k = first_index_of(s, '"', i + 1);
        if k < s.len() && k > i { k + 1 } else { s.len() as int }
    } else {
        i + 1
    };
    if c == '"' && !(first_index_of(s, '"', i + 1) < s.len() && first_index_of(s, '"', i + 1) > i) {
        return;
    }
    lemma_lex_from_diag_starts(s, next);
    lemma_position_strict(s, i, next);
    let rest = lex_from(s, next).1;
    if !char_is_whitespace(c) && !spec_is_ident_start(c) && !spec_is_digit(c) && c != '#' && c != '"'
        && !is_symbol_char(c) {
        let all = lex_from(s, i).1;
        assert(all == seq![rejected_char_diag(s, i)] + rest);
        assert forall|a: int, b: int| 0 <= a < b < all.len() implies position_before(
            diag_start(#[trigger] all[a]),
            diag_start(#[trigger] all[b]),
        ) by {
            assert(all[b] == rest[b - 1]);
            if a > 0 {
                assert(all[a] == rest[a - 1]);
            }
        }
        assert forall|k: int| 0 <= k < all.len() implies !position_before(
            diag_start(#[trigger] all[k]),
            source_position(s, i),
        ) by {
            if k > 0 {
                assert(all[k] == rest[k - 1]);
            }
        }
    } else {
        assert(lex_from(s, i).1 == rest);
    }
}

/// The diagnostics of a script that fits the lexer's 32-bit positions come in
/// the order of the text: their start positions strictly increase.
pub proof fn lemma_lexed_diagnostics_in_text_order(s: Seq<char>)
    requires
        s.len() < u32::MAX,
    ensures
        spec_lex(s) matches Err(ds) ==> diag_starts_increase(ds),
{
    lemma_lex_from_diag_starts(s, 0);
}

/// The tokens of a script that fits the lexer's 32-bit positions start at
/// strictly increasing positions.
pub proof fn lemma_lexed_starts_increase(s: Seq<char>)
    requires
        s.len() < u32::MAX,
    ensures
        spec_lex(s) matches Ok(ts) ==> starts_increase(ts),
{
    lemma_lex_from_starts(s, 0);
}

/// Lexing gives either tokens that end with the end-of-file token, placed at
/// the end of the text, and hold no other; or at least one diagnostic, each
/// reporting a character that no token starts with, except that the last may
/// report a string literal left open.
pub proof fn lemma_lex_outcome(s: Seq<char>)
    ensures
        spec_lex(s) matches Ok(ts) ==> ends_at_single_eof(ts) && ts.last().range == source_range(
            s,
            s.len() as int,
            s.len() as int,
        ),
        spec_lex(s) matches Err(ds) ==> ds.len() > 0 && diags_in_order(s, ds, 0),
{
    lemma_lex_from_single_eof(s, 0);
    lemma_lex_from_diags(s, 0);
}

/// Lexer state: the characters, the read position with its line and column,
/// and what has been produced so far.
struct Lexer {
    chars: Vec<char>,
    index: usize,
    line: u32,
    character: u32,
    tokens: Vec<Token>,
    errors: Vec<ScriptDiagnostic>,
}

impl Lexer {
    /// The state is consistent: the line and column are those of the index.
    spec fn wf(&self) -> bool {
        &&& self.index <= self.chars@.len()
        &&& self.chars@.len() < u32::MAX
        &&& self.line as int == position_at(self.chars@, self.index as int).0
        &&& self.character as int == position_at(self.chars@, self.index as int).1
    }

    fn new(text: &str) -> (l: Self)
        requires
            text@.len() < u32::MAX,
        ensures
            l.wf(),
            l.chars@ == text@,
            l.index == 0,
            l.tokens@.len() == 0,
            l.errors@.len() == 0,
    {
        Self {
            chars: crate::text::chars_of(text),
            index: 0,
            line: 0,
            character: 0,
            tokens: Vec::new(),
            errors: Vec::new(),
        }
    }

    fn position(&self) -> (p: SourcePosition)
        requires
            self.wf(),
        ensures
            p == source_position(self.chars@, self.index as int),
    {
        proof {
            lemma_position_bound(self.chars@, self.index as int);
        }
        SourcePosition { line: self.line, character: self.character }
    }

    fn peek(&self) -> (c: Option<char>)
        ensures
            self.index < self.chars@.len() ==> c == Some(self.chars@[self.index as int]),
            self.index >= self.chars@.len() ==> c is None,
    {
        if self.index < self.chars.len() {
            Some(self.chars[self.index])
        } else {
            None
        }
    }

    fn bump(&mut self) -> (c: Option<char>)
        requires
            old(self).wf(),
        ensures
            final(self).wf(),
            final(self).chars == old(self).chars,
            final(self).tokens == old(self).tokens,
            final(self).errors == old(self).errors,
            old(self).index < old(self).chars@.len() ==> c == Some(
                old(self).chars@[old(self).index as int],
            ) && final(self).index == old(self).index + 1,
            old(self).index >= old(self).chars@.len() ==> c is None && final(self).index == old(
                self,
            ).index,
    {
        if self.index >= self.chars.len() {
            return None;
        }
        let character = self.chars[self.index];
        proof {
            lemma_position_bound(self.chars@, self.index as int);
        }
        self.index += 1;
        if character == '\n' {
            self.line += 1;
            self.character = 0;
        } else {
            self.character += 1;
        }
        Some(character)
    }

    /// Consumes the characters that satisfy `p` from the current index.
    fn bump_while_ident(&mut self) -> (start: usize)
        requires
            old(self).wf(),
        ensures
            final(self).wf(),
            final(self).chars == old(self).chars,
            final(self).tokens == old(self).tokens,
            final(self).errors == old(self).errors,
            start == old(self).index,
            final(self).index == run_end(old(self).chars@, old(self).index as int, ident_pred()),
            old(self).index <= final(self).index,
    {
        let start = self.index;
        while self.index < self.chars.len() && is_ident_char(self.chars[self.index])
            invariant
                self.wf(),
                self.chars == old(self).chars,
                self.tokens == old(self).tokens,
                self.errors == old(self).errors,
                start <= self.index,
                run_end(self.chars@, start as int, ident_pred()) == run_end(
                    self.chars@,
                    self.index as int,
                    ident_pred(),
                ),
            decreases self.chars@.len() - self.index,
        {
            self.bump();
        }
        start
    }

    fn bump_while_digit(&mut self)
        requires
            old(self).wf(),
        ensures
            final(self).wf(),
            final(self).chars == old(self).chars,
            final(self).tokens == old(self).tokens,
            final(self).errors == old(self).errors,
            final(self).index == run_end(old(self).chars@, old(self).index as int, digit_pred()),
            old(self).index <= final(self).index,
    {
        let ghost start = self.index;
        while self.index < self.chars.len() && is_digit(self.chars[self.index])
            invariant
                self.wf(),
                self.chars == old(self).chars,
                self.tokens == old(self).tokens,
                self.errors == old(self).errors,
                start == old(self).index,
                start <= self.index,
                run_end(self.chars@, start as int, digit_pred()) == run_end(
                    self.chars@,
                    self.index as int,
                    digit_pred(),
                ),
            decreases self.chars@.len() - self.index,
        {
            self.bump();
        }
    }

    fn bump_while_hex(&mut self)
        requires
            old(self).wf(),
        ensures
            final(self).wf(),
            final(self).chars == old(self).chars,
            final(self).tokens == old(self).tokens,
            final(self).errors == old(self).errors,
            final(self).index == run_end(old(self).chars@, old(self).index as int, hex_pred()),
            old(self).index <= final(self).index,
    {
        let ghost start = self.index;
        while self.index < self.chars.len() && is_hex(self.chars[self.index])
            invariant
                self.wf(),
                self.chars == old(self).chars,
                self.tokens == old(self).tokens,
                self.errors == old(self).errors,
                start == old(self).index,
                start <= self.index,
                run_end(self.chars@, start as int, hex_pred()) == run_end(
                    self.chars@,
                    self.index as int,
                    hex_pred(),
                ),
            decreases self.chars@.len() - self.index,
        {
            self.bump();
        }
    }

    fn text_between(&self, i: usize, j: usize) -> (s: String)
        requires
            i <= j <= self.chars@.len(),
        ensures
            s@ == self.chars@.subrange(i as int, j as int),
    {
        string_from_chars(&self.chars.as_slice()[i..j])
    }

    /// Reads an identifier or keyword.
    fn ident(&mut self)
        requires
            old(self).wf(),
            old(self).index < old(self).chars@.len(),
            spec_is_ident_start(old(self).chars@[old(self).index as int]),
        ensures
            final(self).wf(),
            final(self).chars == old(self).chars,
            final(self).errors == old(self).errors,
            final(self).index == run_end(old(self).chars@, old(self).index as int, ident_pred()),
            tokens_view(final(self).tokens@) == tokens_view(old(self).tokens@).push(
                SpecToken {
                    kind: SpecTokenKind::Ident(
                        old(self).chars@.subrange(old(self).index as int, final(self).index as int),
                    ),
                    range: source_range(
                        old(self).chars@,
                        old(self).index as int,
                        final(self).index as int,
                    ),
                },
            ),
    {
        let start = self.position();
        let i = self.bump_while_ident();
        let value = self.text_between(i, self.index);
        let end = self.position();
        self.tokens.push(Token { kind: TokenKind::Ident(value), range: SourceRange { start, end } });
        proof {
            assert(tokens_view(self.tokens@) =~= tokens_view(old(self).tokens@).push(
                self.tokens@.last()@,
            ));
        }
    }

    /// Reads a number literal: digits, then optionally `.` and digits.
    fn number(&mut self)
        requires
            old(self).wf(),
            old(self).index < old(self).chars@.len(),
        ensures
            final(self).wf(),
            final(self).chars == old(self).chars,
            final(self).errors == old(self).errors,
            final(self).index == number_end(old(self).chars@, old(self).index as int),
            tokens_view(final(self).tokens@) == tokens_view(old(self).tokens@).push(
                SpecToken {
                    kind: SpecTokenKind::Number(
                        old(self).chars@.subrange(old(self).index as int, final(self).index as int),
                    ),
                    range: source_range(
                        old(self).chars@,
                        old(self).index as int,
                        final(self).index as int,
                    ),
                },
            ),
    {
        let start = self.position();
        let i = self.index;
        self.bump_while_digit();
        if self.peek() == Some('.') {
            self.bump();
            self.bump_while_digit();
        }
        let value = self.text_between(i, self.index);
        let end = self.position();
        self.tokens.push(Token { kind: TokenKind::Number(value), range: SourceRange { start, end } });
        proof {
            assert(tokens_view(self.tokens@) =~= tokens_view(old(self).tokens@).push(
                self.tokens@.last()@,
            ));
        }
    }

    /// Reads a color literal: `#` then hexadecimal digits.
    fn color(&mut self)
        requires
            old(self).wf(),
            old(self).index < old(self).chars@.len(),
        ensures
            final(self).wf(),
            final(self).chars == old(self).chars,
            final(self).errors == old(self).errors,
            final(self).index == run_end(old(self).chars@, old(self).index + 1, hex_pred()),
            tokens_view(final(self).tokens@) == tokens_view(old(self).tokens@).push(
                SpecToken {
                    kind: SpecTokenKind::Color(
                        old(self).chars@.subrange(old(self).index as int, final(self).index as int),
                    ),
                    range: source_range(
                        old(self).chars@,
                        old(self).index as int,
                        final(self).index as int,
                    ),
                },
            ),
    {
        let start = self.position();
        let i = self.index;
        self.bump();
        self.bump_while_hex();
        let value = self.text_between(i, self.index);
        let end = self.position();
        self.tokens.push(Token { kind: TokenKind::Color(value), range: SourceRange { start, end } });
        proof {
            assert(tokens_view(self.tokens@) =~= tokens_view(old(self).tokens@).push(
                self.tokens@.last()@,
            ));
        }
    }

    /// Reads a string literal; an unterminated one is reported and consumes the
    /// rest of the text.
    fn string(&mut self)
        requires
            old(self).wf(),
            old(self).index < old(self).chars@.len(),
        ensures
            final(self).wf(),
            final(self).chars == old(self).chars,
            ({
                let s = old(self).chars@;
                let i = old(self).index as int;
                let k = first_index_of(s, '"', i + 1);
                if k < s.len() {
                    &&& final(self).index == k + 1
                    &&& final(self).errors == old(self).errors
                    &&& tokens_view(final(self).tokens@) == tokens_view(old(self).tokens@).push(
                        SpecToken { kind: SpecTokenKind::Str(s.subrange(i + 1, k)), range: source_range(s, i, k + 1) },
                    )
                } else {
                    &&& final(self).index == s.len()
                    &&& final(self).tokens == old(self).tokens
                    &&& diags_view(final(self).errors@) == diags_view(old(self).errors@).push(
                        SpecDiagnostic { range: Some(source_range(s, i, s.len() as int)), message: unterminated_message() },
                    )
                }
            }),
    {
        let ghost s = self.chars@;
        let ghost i0 = self.index as int;
        let start = self.position();
        self.bump();
        let v0 = self.index;
        while self.index < self.chars.len() && self.chars[self.index] != '"'
            invariant
                self.wf(),
                self.chars == old(self).chars,
                self.tokens == old(self).tokens,
                self.errors == old(self).errors,
                s == self.chars@,
                v0 == i0 + 1,
                v0 <= self.index,
                first_index_of(s, '"', i0 + 1) == first_index_of(s, '"', self.index as int),
            decreases self.chars@.len() - self.index,
        {
            self.bump();
        }
        if self.index < self.chars.len() {
            let value = self.text_between(v0, self.index);
            self.bump();
            let end = self.position();
            self.tokens.push(Token { kind: TokenKind::String(value), range: SourceRange { start, end } });
            proof {
                assert(tokens_view(self.tokens@) =~= tokens_view(old(self).tokens@).push(
                    self.tokens@.last()@,
                ));
            }
        } else {
            let end = self.position();
            self.errors.push(
                ScriptDiagnostic {
                    range: Some(SourceRange { start, end }),
                    message: String::from_str("unterminated string literal"),
                },
            );
            proof {
                assert(diags_view(self.errors@) =~= diags_view(old(self).errors@).push(
                    self.errors@.last()@,
                ));
            }
        }
    }

    /// The range of the character at the index, which it consumes.
    fn single_char_range(&mut self) -> (r: SourceRange)
        requires
            old(self).wf(),
            old(self).index < old(self).chars@.len(),
        ensures
            final(self).wf(),
            final(self).chars == old(self).chars,
            final(self).tokens == old(self).tokens,
            final(self).errors == old(self).errors,
            final(self).index == old(self).index + 1,
            r == source_range(old(self).chars@, old(self).index as int, old(self).index + 1),
    {
        let start = self.position();
        self.bump();
        SourceRange { start, end: self.position() }
    }

    /// Reads the whole text: the tokens (ending with end-of-file) and the
    /// diagnostics are those of `lex_from` from the start index.
    fn lex(&mut self)
        requires
            old(self).wf(),
        ensures
            final(self).wf(),
            tokens_view(final(self).tokens@) == tokens_view(old(self).tokens@) + lex_from(
                old(self).chars@,
                old(self).index as int,
            ).0,
            diags_view(final(self).errors@) == diags_view(old(self).errors@) + lex_from(
                old(self).chars@,
                old(self).index as int,
            ).1,
    {
        let ghost s = self.chars@;
        let ghost t0 = tokens_view(self.tokens@);
        let ghost e0 = diags_view(self.errors@);
        let ghost i0 = self.index as int;
        while self.index < self.chars.len()
            invariant
                self.wf(),
                s == self.chars@,
                t0 + lex_from(s, i0).0 == tokens_view(self.tokens@) + lex_from(
                    s,
                    self.index as int,
                ).0,
                e0 + lex_from(s, i0).1 == diags_view(self.errors@) + lex_from(
                    s,
                    self.index as int,
                ).1,
            decreases self.chars@.len() - self.index,
        {
            let ghost i = self.index as int;
            let ghost tb = tokens_view(self.tokens@);
            let ghost eb = diags_view(self.errors@);
            let character = self.chars[self.index];
            if is_whitespace(character) {
                self.bump();
            } else if is_ident_start(character) {
                proof {
                    assert(ident_pred()(s[i]));
                    assert(run_end(s, i, ident_pred()) == run_end(s, i + 1, ident_pred()));
                    lemma_run_end(s, i + 1, ident_pred());
                }
                self.ident();
                proof {
                    let j = self.index as int;
                    assert(lex_from(s, i).0 == seq![tokens_view(self.tokens@).last()] + lex_from(s, j).0);
                    assert(tb.push(tokens_view(self.tokens@).last()) + lex_from(s, self.index as int).0
                        =~= tb + lex_from(s, i).0);
                }
            } else if is_digit(character) {
                proof {
                    assert(digit_pred()(s[i]));
                    assert(run_end(s, i, digit_pred()) == run_end(s, i + 1, digit_pred()));
                    lemma_run_end(s, i + 1, digit_pred());
                    let j = run_end(s, i, digit_pred());
                    if 0 <= j < s.len() && s[j] == '.' {
                        lemma_run_end(s, j + 1, digit_pred());
                    }
                }
                self.number();
                proof {
                    let j = self.index as int;
                    assert(lex_from(s, i).0 == seq![tokens_view(self.tokens@).last()] + lex_from(s, j).0);
                    assert(tb.push(tokens_view(self.tokens@).last()) + lex_from(s, self.index as int).0
                        =~= tb + lex_from(s, i).0);
                }
            } else if character == '#' {
                proof {
                    lemma_run_end(s, i + 1, hex_pred());
                }
                self.color();
                proof {
                    let j = self.index as int;
                    assert(lex_from(s, i).0 == seq![tokens_view(self.tokens@).last()] + lex_from(s, j).0);
                    assert(tb.push(tokens_view(self.tokens@).last()) + lex_from(s, self.index as int).0
                        =~= tb + lex_from(s, i).0);
                }
            } else if character == '"' {
                proof {
                    lemma_first_index_bounds(s, '"', i + 1);
                }
                self.string();
                proof {
                    let k = first_index_of(s, '"', i + 1);
                    if k < s.len() {
                        assert(tb.push(tokens_view(self.tokens@).last()) + lex_from(
                            s,
                            self.index as int,
                        ).0 =~= tb + lex_from(s, i).0);
                    } else {
                        assert(eb.push(diags_view(self.errors@).last()) + lex_from(
                            s,
                            self.index as int,
                        ).1 =~= eb + lex_from(s, i).1);
                    }
                }
            } else if is_symbol(character) {
                let start = self.position();
                self.bump();
                let end = self.position();
                self.tokens.push(Token { kind: TokenKind::Symbol(character), range: SourceRange { start, end } });
                proof {
                    assert(tokens_view(self.tokens@) =~= tb.push(self.tokens@.last()@));
                    assert(tb.push(tokens_view(self.tokens@).last()) + lex_from(s, self.index as int).0
                        =~= tb + lex_from(s, i).0);
                }
            } else {
                let range = self.single_char_range();
                let message = unexpected_character_message(character);
                self.errors.push(ScriptDiagnostic { range: Some(range), message });
                proof {
                    assert(diags_view(self.errors@) =~= eb.push(self.errors@.last()@));
                    assert(eb.push(diags_view(self.errors@).last()) + lex_from(s, self.index as int).1
                        =~= eb + lex_from(s, i).1);
                }
            }
        }
        let position = self.position();
        self.tokens.push(Token { kind: TokenKind::Eof, range: SourceRange { start: position, end: position } });
        proof {
            assert(tokens_view(self.tokens@) =~= tokens_view(old(self).tokens@) + lex_from(
                old(self).chars@,
                old(self).index as int,
            ).0);
        }
    }
}

proof fn lemma_first_index_bounds(s: Seq<char>, c: char, i: int)
    requires
        0 <= i,
    ensures
        i <= first_index_of(s, c, i) || first_index_of(s, c, i) == s.len(),
        first_index_of(s, c, i) <= s.len() || i > s.len(),
    decreases s.len() - i,
{
    if i < s.len() && s[i] != c {
        lemma_first_index_bounds(s, c, i + 1);
    }
}

fn is_symbol(c: char) -> (b: bool)
    ensures
        b == is_symbol_char(c),
{
    c == '{' || c == '}' || c == '(' || c == ')' || c == ';' || c == ',' || c == '<' || c == '>'
        || c == '+' || c == '-' || c == '*' || c == '/' || c == '=' || c == '!' || c == '&' || c
        == '|'
}

fn unexpected_character_message(c: char) -> (m: String)
    ensures
        m@ == unexpected_message(c),
{
    let mut v: Vec<char> = Vec::new();
    v.push(c);
    let cs = string_from_chars(v.as_slice());
    assert(cs@ =~= seq![c]);
    concat3("unexpected character `", cs.as_str(), "`")
}

/// Splits an effect script into tokens. The tokens end with an end-of-file
/// token; any unexpected character or unterminated string makes the result the
/// list of diagnostics instead.
pub fn lex(text: &str) -> (r: Result<Vec<Token>, Vec<ScriptDiagnostic>>)
    requires
        text@.len() < u32::MAX,
    ensures
        r matches Ok(ts) ==> spec_lex(text@) == Ok::<Seq<SpecToken>, Seq<SpecDiagnostic>>(
            tokens_view(ts@),
        ),
        r matches Err(es) ==> spec_lex(text@) == Err::<Seq<SpecToken>, Seq<SpecDiagnostic>>(
            diags_view(es@),
        ),
        r matches Ok(ts) ==> ends_at_single_eof(tokens_view(ts@)) && starts_increase(tokens_view(ts@)),
        r matches Err(es) ==> es@.len() > 0,
{
    proof {
        lemma_lex_outcome(text@);
        lemma_lexed_starts_increase(text@);
    }
    let mut lexer = Lexer::new(text);
    lexer.lex();
    proof {
        assert(tokens_view(Seq::<Token>::empty()) =~= Seq::<SpecToken>::empty());
        assert(diags_view(Seq::<ScriptDiagnostic>::empty()) =~= Seq::<SpecDiagnostic>::empty());
        assert(tokens_view(lexer.tokens@) =~= lex_from(text@, 0).0);
        assert(diags_view(lexer.errors@) =~= lex_from(text@, 0).1);
    }
    if lexer.errors.len() == 0 {
        Ok(lexer.tokens)
    } else {
        Err(lexer.errors)
    }
}

} // verus!
