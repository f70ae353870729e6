//! The scanner: a single left-to-right pass over the source characters that
//! emits classified tokens, tracks the 1-based line number, and records
//! recoverable lexical issues as diagnostics.
//!
//! The whole pass is modelled by the spec functions [`scan_step`] (one token
//! attempt) and [`scan_from`] (the rest of the input); [`scanned_tokens`] and
//! [`scanned_diags`] give the full output, end-of-input token included.

use crate::errors::{Diagnostic, DiagnosticView};
use crate::literal::{Literal, LiteralView};
use crate::text::text_of_range;
use crate::token::{Token, TokenView};
use crate::token_types::TokenType;
use vstd::prelude::*;

verus! {

/// A lowercase letter, which starts an alphanumeric atom.
pub open spec fn is_lowercase_char(c: char) -> bool {
    'a' <= c && c <= 'z'
}

/// An uppercase letter, which (like an underscore) starts a variable.
pub open spec fn is_uppercase_char(c: char) -> bool {
    'A' <= c && c <= 'Z'
}

/// A decimal digit.
pub open spec fn is_digit_char(c: char) -> bool {
    '0' <= c && c <= '9'
}

/// A letter, digit or underscore: the characters that continue an atom or a
/// variable after its first character.
pub open spec fn is_name_char(c: char) -> bool {
    is_digit_char(c) || is_lowercase_char(c) || is_uppercase_char(c) || c == '_'
}

/// The symbolic-atom class: everything except letters, digits, underscore,
/// parentheses and the dot.
pub open spec fn is_symbolic_char(c: char) -> bool {
    !(is_name_char(c) || c == '(' || c == ')' || c == '.')
}

/// First position at or after `i` whose character is not a name character
/// (or the end of the source).
pub open spec fn name_run_end(src: Seq<char>, i: int) -> int
    decreases src.len() - i,
    when 0 <= i <= src.len()
{
    if i == src.len() {
        i
    } else if is_name_char(src[i]) {
        name_run_end(src, i + 1)
    } else {
        i
    }
}

/// First position at or after `i` whose character is not symbolic (or the end
/// of the source).
pub open spec fn symbolic_run_end(src: Seq<char>, i: int) -> int
    decreases src.len() - i,
    when 0 <= i <= src.len()
{
    if i == src.len() {
        i
    } else if is_symbolic_char(src[i]) {
        symbolic_run_end(src, i + 1)
    } else {
        i
    }
}

/// First position at or after `i` whose character is not a digit (or the end
/// of the source).
pub open spec fn digit_run_end(src: Seq<char>, i: int) -> int
    decreases src.len() - i,
    when 0 <= i <= src.len()
{
    if i == src.len() {
        i
    } else if is_digit_char(src[i]) {
        digit_run_end(src, i + 1)
    } else {
        i
    }
}

/// Position of the first quote at or after `i`, or the end of the source if
/// there is none.
pub open spec fn quote_scan_end(src: Seq<char>, i: int) -> int
    decreases src.len() - i,
    when 0 <= i <= src.len()
{
    if i == src.len() {
        i
    } else if src[i] == '\'' {
        i
    } else {
        quote_scan_end(src, i + 1)
    }
}

/// The number of newline characters in positions `[a, b)` of `src`.
pub open spec fn newline_count(src: Seq<char>, a: int, b: int) -> int
    decreases b - a,
{
    if a >= b {
        0
    } else {
        (if src[a] == '\n' {
            1int
        } else {
            0int
        }) + newline_count(src, a + 1, b)
    }
}

/// One emitted token together with the scan positions that produced it.
pub struct Emit {
    pub tok: TokenView,
    pub start: int,
    pub end: int,
}

/// The effect of scanning one token attempt: the next scan position, the line
/// counter after it, and the tokens and diagnostics it emitted.
pub struct ScanStep {
    pub next: int,
    pub line: int,
    pub emits: Seq<Emit>,
    pub diags: Seq<DiagnosticView>,
}

/// Everything the scanner produces from some position to the end of input
/// (the end-of-input token excluded).
pub struct ScanOut {
    pub emits: Seq<Emit>,
    pub diags: Seq<DiagnosticView>,
    pub line: int,
}

/// A token whose lexeme is the source span `[start, end)`.
pub open spec fn span_emit(
    src: Seq<char>,
    start: int,
    end: int,
    t: TokenType,
    literal: Option<LiteralView>,
    line: int,
) -> Emit {
    Emit { tok: TokenView { token_type: t, lexeme: src.subrange(start, end), literal, line }, start, end }
}

/// One step of the scanner at position `i` with line counter `line`:
/// whitespace is skipped, a newline advances the line counter, and each other
/// character class is scanned with maximal munch exactly as the scanner does.
pub open spec fn scan_step(src: Seq<char>, i: int, line: int) -> ScanStep
    recommends
        0 <= i < src.len(),
{
    let c = src[i];
    if c == ' ' || c == '\r' || c == '\t' {
        ScanStep { next: i + 1, line, emits: Seq::empty(), diags: Seq::empty() }
    } else if c == '\n' {
        ScanStep { next: i + 1, line: line + 1, emits: Seq::empty(), diags: Seq::empty() }
    } else if c == '.' {
        ScanStep {
            next: i + 1,
            line,
            emits: seq![span_emit(src, i, i + 1, TokenType::DOT, None, line)],
            diags: Seq::empty(),
        }
    } else if c == ',' {
        ScanStep {
            next: i + 1,
            line,
            emits: seq![span_emit(src, i, i + 1, TokenType::COMMA, None, line)],
            diags: Seq::empty(),
        }
    } else if c == '\'' {
        let e = quote_scan_end(src, i + 1);
        let l2 = line + newline_count(src, i + 1, e);
        if e == src.len() {
            ScanStep {
                next: e,
                line: l2,
                emits: Seq::empty(),
                diags: seq![DiagnosticView { line: l2, message: "Unterminated string."@ }],
            }
        } else {
            ScanStep {
                next: e + 1,
                line: l2,
                emits: seq![
                    span_emit(
                        src,
                        i,
                        e + 1,
                        TokenType::ATOM,
                        Some(LiteralView::Atom(src.subrange(i + 1, e))),
                        l2,
                    ),
                ],
                diags: Seq::empty(),
            }
        }
    } else if is_symbolic_char(c) {
        if c == ':' && i + 1 < src.len() && src[i + 1] == '-' {
            ScanStep {
                next: i + 2,
                line,
                emits: seq![span_emit(src, i, i + 2, TokenType::COLONMINUS, None, line)],
                diags: Seq::empty(),
            }
        } else {
            let e = symbolic_run_end(src, i + 1);
            ScanStep {
                next: e,
                line,
                emits: seq![
                    span_emit(
                        src,
                        i,
                        e,
                        TokenType::ATOM,
                        Some(LiteralView::Atom(src.subrange(i, e))),
                        line,
                    ),
                ],
                diags: Seq::empty(),
            }
        }
    } else if is_lowercase_char(c) {
        let e = name_run_end(src, i + 1);
        ScanStep {
            next: e,
            line,
            emits: seq![
                span_emit(src, i, e, TokenType::ATOM, Some(LiteralView::Atom(src.subrange(i, e))), line),
            ],
            diags: Seq::empty(),
        }
    } else if is_uppercase_char(c) || c == '_' {
        let e = name_run_end(src, i + 1);
        ScanStep {
            next: e,
            line,
            emits: seq![
                span_emit(
                    src,
                    i,
                    e,
                    TokenType::ATOM,
                    Some(LiteralView::Variable(src.subrange(i, e))),
                    line,
                ),
            ],
            diags: Seq::empty(),
        }
    } else if is_digit_char(c) {
        let e = digit_run_end(src, i + 1);
        let e2 = if e < src.len() && src[e] == '.' && e + 1 < src.len() && is_digit_char(
            src[e + 1],
        ) {
            digit_run_end(src, e + 1)
        } else {
            e
        };
        ScanStep { next: e2, line, emits: Seq::empty(), diags: Seq::empty() }
    } else {
        ScanStep {
            next: i + 1,
            line,
            emits: Seq::empty(),
            diags: seq![DiagnosticView { line, message: "Unexpected character."@ }],
        }
    }
}

/// Bounds and contents of a name run.
pub proof fn lemma_name_run_end(src: Seq<char>, i: int)
    requires
        0 <= i <= src.len(),
    ensures
        i <= name_run_end(src, i) <= src.len(),
        forall|k: int| i <= k < name_run_end(src, i) ==> is_name_char(src[k]),
        name_run_end(src, i) < src.len() ==> !is_name_char(src[name_run_end(src, i)]),
    decreases src.len() - i,
{
    if i < src.len() && is_name_char(src[i]) {
        lemma_name_run_end(src, i + 1);
    }
}

/// Bounds and contents of a symbolic run.
pub proof fn lemma_symbolic_run_end(src: Seq<char>, i: int)
    requires
        0 <= i <= src.len(),
    ensures
        i <= symbolic_run_end(src, i) <= src.len(),
        forall|k: int| i <= k < symbolic_run_end(src, i) ==> is_symbolic_char(src[k]),
        symbolic_run_end(src, i) < src.len() ==> !is_symbolic_char(src[symbolic_run_end(src, i)]),
    decreases src.len() - i,
{
    if i < src.len() && is_symbolic_char(src[i]) {
        lemma_symbolic_run_end(src, i + 1);
    }
}

/// Bounds and contents of a digit run.
pub proof fn lemma_digit_run_end(src: Seq<char>, i: int)
    requires
        0 <= i <= src.len(),
    ensures
        i <= digit_run_end(src, i) <= src.len(),
        forall|k: int| i <= k < digit_run_end(src, i) ==> is_digit_char(src[k]),
        digit_run_end(src, i) < src.len() ==> !is_digit_char(src[digit_run_end(src, i)]),
    decreases src.len() - i,
{
    if i < src.len() && is_digit_char(src[i]) {
        lemma_digit_run_end(src, i + 1);
    }
}

/// Bounds and contents of the span scanned for a closing quote.
pub proof fn lemma_quote_scan_end(src: Seq<char>, i: int)
    requires
        0 <= i <= src.len(),
    ensures
        i <= quote_scan_end(src, i) <= src.len(),
        forall|k: int| i <= k < quote_scan_end(src, i) ==> src[k] != '\'',
        quote_scan_end(src, i) < src.len() ==> src[quote_scan_end(src, i)] == '\'',
    decreases src.len() - i,
{
    if i < src.len() && src[i] != '\'' {
        lemma_quote_scan_end(src, i + 1);
    }
}

/// A newline count is non-negative and at most the width of its range.
pub proof fn lemma_newline_count_bounds(src: Seq<char>, a: int, b: int)
    requires
        a <= b,
    ensures
        0 <= newline_count(src, a, b) <= b - a,
    decreases b - a,
{
    if a < b {
        lemma_newline_count_bounds(src, a + 1, b);
    }
}

/// Extending a range by one character on the right adds that character's
/// newline contribution.
pub proof fn lemma_newline_count_snoc(src: Seq<char>, a: int, b: int)
    requires
        a <= b,
    ensures
        newline_count(src, a, b + 1) == newline_count(src, a, b) + (if src[b] == '\n' {
            1int
        } else {
            0int
        }),
    decreases b - a,
{
    if a < b {
        lemma_newline_count_snoc(src, a + 1, b);
    } else {
        assert(newline_count(src, a + 1, b + 1) == 0);
    }
}

/// A range without newline characters counts zero newlines.
pub proof fn lemma_newline_count_zero(src: Seq<char>, a: int, b: int)
    requires
        forall|k: int| a <= k < b ==> src[k] != '\n',
    ensures
        newline_count(src, a, b) == 0,
    decreases b - a,
{
    if a < b {
        lemma_newline_count_zero(src, a + 1, b);
    }
}

/// Every scan step moves forward, stays within the source, and never moves
/// the line counter back or further than the characters it consumed.
pub proof fn lemma_scan_step_bounds(src: Seq<char>, i: int, line: int)
    requires
        0 <= i < src.len(),
    ensures
        ({
            let st = scan_step(src, i, line);
            i < st.next <= src.len() && line <= st.line && st.line - line <= st.next - i
        }),
{
    let c = src[i];
    if c == ' ' || c == '\r' || c == '\t' || c == '\n' || c == '.' || c == ',' {
    } else if c == '\'' {
        lemma_quote_scan_end(src, i + 1);
        let e = quote_scan_end(src, i + 1);
        lemma_newline_count_bounds(src, i + 1, e);
    } else if is_symbolic_char(c) {
        if c == ':' && i + 1 < src.len() && src[i + 1] == '-' {
        } else {
            lemma_symbolic_run_end(src, i + 1);
        }
    } else if is_lowercase_char(c) || is_uppercase_char(c) || c == '_' {
        lemma_name_run_end(src, i + 1);
    } else if is_digit_char(c) {
        lemma_digit_run_end(src, i + 1);
        let e = digit_run_end(src, i + 1);
        if e < src.len() && src[e] == '.' && e + 1 < src.len() && is_digit_char(src[e + 1]) {
            lemma_digit_run_end(src, e + 1);
        }
    } else {
    }
}

/// Every emit of one scan step spans exactly the characters the step
/// consumed, carries that span as its lexeme, and is not an end-of-input
/// token.
proof fn lemma_scan_step_emits(src: Seq<char>, i: int, line: int)
    requires
        0 <= i < src.len(),
    ensures
        forall|j: int| 0 <= j < scan_step(src, i, line).emits.len() ==> {
            let e = #[trigger] scan_step(src, i, line).emits[j];
            &&& e.start == i
            &&& e.end == scan_step(src, i, line).next
            &&& e.tok.lexeme == src.subrange(e.start, e.end)
            &&& e.tok.token_type != TokenType::EOF
        },
{
    lemma_scan_step_bounds(src, i, line);
}

/// Everything the scanner emits from position `i` with line counter `line` to
/// the end of the input.
pub open spec fn scan_from(src: Seq<char>, i: int, line: int) -> ScanOut
    decreases src.len() - i,
    when 0 <= i <= src.len()
    via scan_from_decreases
{
    if i == src.len() {
        ScanOut { emits: Seq::empty(), diags: Seq::empty(), line }
    } else {
        let st = scan_step(src, i, line);
        let rest = scan_from(src, st.next, st.line);
        ScanOut { emits: st.emits + rest.emits, diags: st.diags + rest.diags, line: rest.line }
    }
}

#[via_fn]
proof fn scan_from_decreases(src: Seq<char>, i: int, line: int) {
    if 0 <= i < src.len() {
        lemma_scan_step_bounds(src, i, line);
    }
}

/// The token sequence of a sequence of emits.
pub open spec fn emit_tokens(emits: Seq<Emit>) -> Seq<TokenView> {
    emits.map_values(|e: Emit| e.tok)
}

/// The complete output of scanning `src`: every emitted token, the
/// end-of-input emit appended, all diagnostics, and the final line counter.
pub open spec fn scan_output(src: Seq<char>) -> ScanOut {
    let o = scan_from(src, 0, 1);
    ScanOut {
        emits: o.emits.push(
            Emit {
                tok: TokenView {
                    token_type: TokenType::EOF,
                    lexeme: Seq::empty(),
                    literal: None,
                    line: o.line,
                },
                start: src.len() as int,
                end: src.len() as int,
            },
        ),
        diags: o.diags,
        line: o.line,
    }
}

/// The token sequence that scanning `src` yields, end-of-input token last.
pub open spec fn scanned_tokens(src: Seq<char>) -> Seq<TokenView> {
    emit_tokens(scan_output(src).emits)
}

/// The diagnostics that scanning `src` reports, in order.
pub open spec fn scanned_diags(src: Seq<char>) -> Seq<DiagnosticView> {
    scan_output(src).diags
}

/// Every emit of a whole scan lies within the source, spans exactly the
/// characters it consumed, carries that span as its lexeme, and is not an
/// end-of-input token.
proof fn lemma_scan_from_emits(src: Seq<char>, i: int, line: int)
    requires
        0 <= i <= src.len(),
    ensures
        forall|j: int| 0 <= j < scan_from(src, i, line).emits.len() ==> {
            let e = #[trigger] scan_from(src, i, line).emits[j];
            &&& 0 <= e.start <= e.end <= src.len()
            &&& e.tok.lexeme == src.subrange(e.start, e.end)
            &&& e.tok.token_type != TokenType::EOF
        },
    decreases src.len() - i,
{
    if i < src.len() {
        lemma_scan_step_bounds(src, i, line);
        lemma_scan_step_emits(src, i, line);
        let st = scan_step(src, i, line);
        lemma_scan_from_emits(src, st.next, st.line);
        assert forall|j: int| 0 <= j < scan_from(src, i, line).emits.len() implies {
            let e = #[trigger] scan_from(src, i, line).emits[j];
            &&& 0 <= e.start <= e.end <= src.len()
            &&& e.tok.lexeme == src.subrange(e.start, e.end)
            &&& e.tok.token_type != TokenType::EOF
        } by {
            let e = scan_from(src, i, line).emits[j];
            if j < st.emits.len() {
                assert(e == st.emits[j]);
            } else {
                assert(e == scan_from(src, st.next, st.line).emits[j - st.emits.len()]);
            }
        }
    }
}

/// Every token the scanner emits carries as its lexeme the exact source
/// substring between its start and end scan positions; the end-of-input
/// token's empty lexeme is the empty substring at the end of the source.
pub proof fn lemma_lexeme_is_source_substring(src: Seq<char>)
    ensures
        forall|j: int| 0 <= j < scan_output(src).emits.len() ==> {
            let e = #[trigger] scan_output(src).emits[j];
            &&& 0 <= e.start <= e.end <= src.len()
            &&& e.tok.lexeme == src.subrange(e.start, e.end)
        },
{
    lemma_scan_from_emits(src, 0, 1);
    let whole = scan_from(src, 0, 1);
    assert(src.subrange(src.len() as int, src.len() as int) =~= Seq::<char>::empty());
    assert forall|j: int| 0 <= j < scan_output(src).emits.len() implies {
        let e = #[trigger] scan_output(src).emits[j];
        &&& 0 <= e.start <= e.end <= src.len()
        &&& e.tok.lexeme == src.subrange(e.start, e.end)
    } by {
        let e = scan_output(src).emits[j];
        if j < whole.emits.len() {
            assert(e == whole.emits[j]);
        } else {
            assert(e == scan_output(src).emits.last());
        }
    }
}

/// The end-of-input token is always last, has the empty lexeme, and carries
/// the final line count reached; no earlier token is an end-of-input token.
pub proof fn lemma_end_of_input_token(src: Seq<char>)
    ensures
        scanned_tokens(src).len() >= 1,
        scanned_tokens(src).last().token_type == TokenType::EOF,
        scanned_tokens(src).last().lexeme == Seq::<char>::empty(),
        scanned_tokens(src).last().line == scan_output(src).line,
        forall|j: int| 0 <= j < scanned_tokens(src).len() - 1 ==> (#[trigger] scanned_tokens(
            src,
        )[j]).token_type != TokenType::EOF,
{
    lemma_scan_from_emits(src, 0, 1);
    let whole = scan_from(src, 0, 1);
    assert forall|j: int|
        0 <= j < scanned_tokens(src).len() - 1 implies (#[trigger] scanned_tokens(
        src,
    )[j]).token_type != TokenType::EOF by {
        assert(scanned_tokens(src)[j] == whole.emits[j].tok);
    }
}

/// The line counter never decreases over any scan.
pub proof fn lemma_line_never_decreases(src: Seq<char>, i: int, line: int)
    requires
        0 <= i <= src.len(),
    ensures
        line <= scan_from(src, i, line).line,
    decreases src.len() - i,
{
    if i < src.len() {
        lemma_scan_step_bounds(src, i, line);
        let st = scan_step(src, i, line);
        lemma_line_never_decreases(src, st.next, st.line);
    }
}

/// A character that begins a symbolic-atom run: a symbolic character that is
/// not one of those the scanner handles before attempting a run.
pub open spec fn is_run_starter(c: char) -> bool {
    is_symbolic_char(c) && c != ' ' && c != '\r' && c != '\t' && c != '\n' && c != ','
        && c != '\''
}

/// No newline is reachable from a run starter through an unbroken stretch of
/// symbolic characters. Under this condition no symbolic-atom run can swallow
/// a newline: a maximal-munch symbolic run consumes every symbolic character
/// after its starter, newlines included, without counting them.
pub open spec fn no_swallowed_newline(src: Seq<char>) -> bool {
    forall|s: int, j: int|
        #![trigger src[s], src[j]]
        (0 <= s <= j < src.len() && is_run_starter(src[s]) && (forall|k: int|
            s <= k < j ==> is_symbolic_char(#[trigger] src[k]))) ==> src[j] != '\n'
}

/// Splitting a range splits its newline count.
pub proof fn lemma_newline_count_split(src: Seq<char>, a: int, m: int, b: int)
    requires
        a <= m <= b,
    ensures
        newline_count(src, a, b) == newline_count(src, a, m) + newline_count(src, m, b),
    decreases m - a,
{
    if a < m {
        lemma_newline_count_split(src, a + 1, m, b);
    } else {
        assert(newline_count(src, a, a) == 0);
    }
}

/// One scan step advances the line counter by exactly the newlines it
/// consumed, provided no symbolic-atom run swallows a newline.
proof fn lemma_scan_step_line_exact(src: Seq<char>, i: int, line: int)
    requires
        0 <= i < src.len(),
        no_swallowed_newline(src),
    ensures
        scan_step(src, i, line).line == line + newline_count(src, i, scan_step(src, i, line).next),
{
    let c = src[i];
    let st = scan_step(src, i, line);
    assert(newline_count(src, i + 1, i + 1) == 0);
    if c == ' ' || c == '\r' || c == '\t' || c == '.' || c == ',' || c == '\n' {
    } else if c == '\'' {
        let e = quote_scan_end(src, i + 1);
        lemma_quote_scan_end(src, i + 1);
        if e == src.len() {
        } else {
            lemma_newline_count_snoc(src, i + 1, e);
        }
    } else if is_symbolic_char(c) {
        if c == ':' && i + 1 < src.len() && src[i + 1] == '-' {
            assert forall|k: int| i <= k < i + 2 implies src[k] != '\n' by {}
            lemma_newline_count_zero(src, i, i + 2);
        } else {
            let e = symbolic_run_end(src, i + 1);
            lemma_symbolic_run_end(src, i + 1);
            assert(is_run_starter(c));
            assert forall|j: int| i <= j < e implies src[j] != '\n' by {
                if src[j] == '\n' {
                    assert(forall|k: int| i <= k < j ==> is_symbolic_char(#[trigger] src[k]));
                    assert(src[j] != '\n');
                }
            }
            lemma_newline_count_zero(src, i, e);
        }
    } else if is_lowercase_char(c) || is_uppercase_char(c) || c == '_' {
        let e = name_run_end(src, i + 1);
        lemma_name_run_end(src, i + 1);
        assert forall|j: int| i <= j < e implies src[j] != '\n' by {}
        lemma_newline_count_zero(src, i, e);
    } else if is_digit_char(c) {
        let e = digit_run_end(src, i + 1);
        lemma_digit_run_end(src, i + 1);
        if e < src.len() && src[e] == '.' && e + 1 < src.len() && is_digit_char(src[e + 1]) {
            let e2 = digit_run_end(src, e + 1);
            lemma_digit_run_end(src, e + 1);
            assert forall|j: int| i <= j < e2 implies src[j] != '\n' by {}
            lemma_newline_count_zero(src, i, e2);
        } else {
            assert forall|j: int| i <= j < e implies src[j] != '\n' by {}
            lemma_newline_count_zero(src, i, e);
        }
    } else {
    }
}

/// A whole scan advances the line counter by exactly the newlines in the
/// remaining source, provided no symbolic-atom run swallows a newline.
proof fn lemma_scan_from_line_count(src: Seq<char>, i: int, line: int)
    requires
        0 <= i <= src.len(),
        no_swallowed_newline(src),
    ensures
        scan_from(src, i, line).line == line + newline_count(src, i, src.len() as int),
    decreases src.len() - i,
{
    if i == src.len() {
        assert(newline_count(src, i, i) == 0);
    } else {
        lemma_scan_step_bounds(src, i, line);
        lemma_scan_step_line_exact(src, i, line);
        let st = scan_step(src, i, line);
        lemma_scan_from_line_count(src, st.next, st.line);
        lemma_newline_count_split(src, i, st.next, src.len() as int);
    }
}

/// The line counter increments exactly once per newline character consumed:
/// the final line count is one more than the number of newlines in the
/// source. This needs no symbolic-atom run to swallow a newline (see
/// [`no_swallowed_newline`]); for a source such as one whose newline follows
/// a symbolic atom directly, the swallowed newline is consumed uncounted.
pub proof fn lemma_line_counts_newlines(src: Seq<char>)
    requires
        no_swallowed_newline(src),
    ensures
        scan_output(src).line == 1 + newline_count(src, 0, src.len() as int),
{
    lemma_scan_from_line_count(src, 0, 1);
}

/// The views of a sequence of tokens.
pub open spec fn tokens_view(tokens: Seq<Token>) -> Seq<TokenView> {
    tokens.map_values(|t: Token| t@)
}

/// The views of a sequence of diagnostics.
pub open spec fn diags_view(diags: Seq<Diagnostic>) -> Seq<DiagnosticView> {
    diags.map_values(|d: Diagnostic| d@)
}

/// Converts a character sequence into tokens in a single pass, tracking the
/// line number and collecting diagnostics for recoverable lexical issues.
pub struct Scanner {
    source: Vec<char>,
    tokens: Vec<Token>,
    diagnostics: Vec<Diagnostic>,
    start: usize,
    current: usize,
    line: usize,
}

impl Scanner {
    /// The source characters this scanner was built over.
    pub closed spec fn source_view(&self) -> Seq<char> {
        self.source@
    }

    /// The diagnostics recorded so far.
    pub closed spec fn diagnostics_view(&self) -> Seq<DiagnosticView> {
        diags_view(self.diagnostics@)
    }

    /// The scanner's internal invariant: the cursor pair is ordered and in
    /// bounds, and the line counter starts at 1 and grows by at most one per
    /// consumed character.
    pub closed spec fn wf(&self) -> bool {
        &&& self.start <= self.current <= self.source@.len()
        &&& 1 <= self.line
        &&& self.line <= 1 + self.current
        &&& self.source@.len() < usize::MAX
    }

    /// A scanner that has not consumed anything yet.
    pub closed spec fn fresh(&self) -> bool {
        &&& self.current == 0
        &&& self.start == 0
        &&& self.line == 1
        &&& self.tokens@.len() == 0
        &&& self.diagnostics@.len() == 0
    }

    /// Builds a scanner over the given characters, at the start of line 1.
    pub fn new(source: Vec<char>) -> (s: Scanner)
        requires
            source@.len() < usize::MAX,
        ensures
            s.wf(),
            s.fresh(),
            s.source_view() == source@,
    {
        Scanner {
            source,
            tokens: Vec::<Token>::new(),
            diagnostics: Vec::<Diagnostic>::new(),
            start: 0,
            current: 0,
            line: 1,
        }
    }

    fn is_at_end(&self) -> (r: bool)
        ensures
            r == (self.current >= self.source@.len()),
    {
        self.current >= self.source.len()
    }

    fn advance(&mut self) -> (c: char)
        requires
            old(self).current < old(self).source@.len(),
            old(self).current < usize::MAX,
        ensures
            c == old(self).source@[old(self).current as int],
            final(self).current == old(self).current + 1,
            final(self).source == old(self).source,
            final(self).tokens == old(self).tokens,
            final(self).diagnostics == old(self).diagnostics,
            final(self).start == old(self).start,
            final(self).line == old(self).line,
    {
        self.current = self.current + 1;
        self.source[self.current - 1]
    }

    fn add_token(&mut self, token_type: TokenType)
        requires
            old(self).wf(),
        ensures
            final(self).wf(),
            final(self).source == old(self).source,
            final(self).diagnostics == old(self).diagnostics,
            final(self).start == old(self).start,
            final(self).current == old(self).current,
            final(self).line == old(self).line,
            tokens_view(final(self).tokens@) == tokens_view(old(self).tokens@).push(
                TokenView {
                    token_type,
                    lexeme: old(self).source@.subrange(
                        old(self).start as int,
                        old(self).current as int,
                    ),
                    literal: None,
                    line: old(self).line as int,
                },
            ),
    {
        self.add_token_with_literal(token_type, None);
    }

    fn add_token_with_literal(&mut self, token_type: TokenType, literal: Option<Literal>)
        requires
            old(self).wf(),
        ensures
            final(self).wf(),
            final(self).source == old(self).source,
            final(self).diagnostics == old(self).diagnostics,
            final(self).start == old(self).start,
            final(self).current == old(self).current,
            final(self).line == old(self).line,
            tokens_view(final(self).tokens@) == tokens_view(old(self).tokens@).push(
                TokenView {
                    token_type,
                    lexeme: old(self).source@.subrange(
                        old(self).start as int,
                        old(self).current as int,
                    ),
                    literal: match literal {
                        Some(l) => Some(l@),
                        None => None,
                    },
                    line: old(self).line as int,
                },
            ),
    {
        let text = text_of_range(&self.source, self.start, self.current);
        let token = Token::new(token_type, text.as_str(), literal, self.line);
        self.tokens.push(token);
        proof {
            assert(tokens_view(self.tokens@) =~= tokens_view(old(self).tokens@).push(
                self.tokens@.last()@,
            ));
        }
    }

    fn record_report(&mut self, message: &str)
        requires
            old(self).wf(),
        ensures
            final(self).wf(),
            final(self).source == old(self).source,
            final(self).tokens == old(self).tokens,
            final(self).start == old(self).start,
            final(self).current == old(self).current,
            final(self).line == old(self).line,
            diags_view(final(self).diagnostics@) == diags_view(old(self).diagnostics@).push(
                DiagnosticView { line: old(self).line as int, message: message@ },
            ),
    {
        let d = Diagnostic { line: self.line, message: message.to_owned() };
        self.diagnostics.push(d);
        proof {
            assert(diags_view(self.diagnostics@) =~= diags_view(old(self).diagnostics@).push(
                self.diagnostics@.last()@,
            ));
        }
    }

    #[allow(dead_code)]
    fn is_next_match(&mut self, expected: char) -> (r: bool)
        requires
            old(self).wf(),
        ensures
            final(self).wf(),
            final(self).source == old(self).source,
            final(self).tokens == old(self).tokens,
            final(self).diagnostics == old(self).diagnostics,
            final(self).start == old(self).start,
            final(self).line == old(self).line,
            r == (old(self).current < old(self).source@.len() && old(self).source@[old(
                self,
            ).current as int] == expected),
            final(self).current == (if r {
                old(self).current + 1
            } else {
                old(self).current as int
            }),
    {
        if self.is_at_end() {
            return false;
        }
        if self.source[self.current] != expected {
            return false;
        }
        self.current = self.current + 1;
        true
    }

    fn peek(&self) -> (c: char)
        requires
            self.wf(),
        ensures
            c == (if self.current < self.source@.len() {
                self.source@[self.current as int]
            } else {
                '\0'
            }),
    {
        if self.is_at_end() {
            return '\0';
        }
        self.source[self.current]
    }

    fn peek_next(&self) -> (c: char)
        requires
            self.wf(),
        ensures
            c == (if self.current + 1 < self.source@.len() {
                self.source@[self.current as int + 1]
            } else {
                '\0'
            }),
    {
        if self.current + 1 >= self.source.len() {
            return '\0';
        }
        self.source[self.current + 1]
    }

    fn is_special_char(&self, letter: &char) -> (r: bool)
        ensures
            r == is_symbolic_char(*letter),
    {
        let c = *letter;
        !(self.is_alphanumeric(c) || c == '(' || c == ')' || c == '.')
    }

    fn is_alphanumeric(&self, c: char) -> (r: bool)
        ensures
            r == is_name_char(c),
    {
        ('0' <= c && c <= '9') || ('a' <= c && c <= 'z') || ('A' <= c && c <= 'Z') || c == '_'
    }

    fn is_digit(&self, c: char) -> (r: bool)
        ensures
            r == is_digit_char(c),
    {
        '0' <= c && c <= '9'
    }

    fn process_string_atom(&mut self)
        requires
            old(self).wf(),
            old(self).start + 1 == old(self).current,
            old(self).start < old(self).source@.len(),
            old(self).source@[old(self).start as int] == '\'',
        ensures
            final(self).wf(),
            final(self).source == old(self).source,
            final(self).start == old(self).start,
            ({
                let src = old(self).source@;
                let i = old(self).start as int;
                let e = quote_scan_end(src, i + 1);
                let l2 = old(self).line + newline_count(src, i + 1, e);
                if e == src.len() {
                    &&& final(self).current == src.len()
                    &&& final(self).line == l2
                    &&& final(self).tokens == old(self).tokens
                    &&& diags_view(final(self).diagnostics@) == diags_view(
                        old(self).diagnostics@,
                    ).push(DiagnosticView { line: l2, message: "Unterminated string."@ })
                } else {
                    &&& final(self).current == e + 1
                    &&& final(self).line == l2
                    &&& final(self).diagnostics == old(self).diagnostics
                    &&& tokens_view(final(self).tokens@) == tokens_view(old(self).tokens@).push(
                        TokenView {
                            token_type: TokenType::ATOM,
                            lexeme: src.subrange(i, e + 1),
                            literal: Some(LiteralView::Atom(src.subrange(i + 1, e))),
                            line: l2,
                        },
                    )
                }
            }),
    {
        let ghost src = self.source@;
        let ghost i = self.start as int;
        let ghost qe = quote_scan_end(src, i + 1);
        proof {
            lemma_quote_scan_end(src, i + 1);
        }
        while self.peek() != '\'' && !self.is_at_end()
            invariant
                self.wf(),
                self.source == old(self).source,
                self.source@ == src,
                self.start as int == i,
                self.tokens == old(self).tokens,
                self.diagnostics == old(self).diagnostics,
                i + 1 <= self.current <= qe <= src.len(),
                quote_scan_end(src, self.current as int) == qe,
                self.line == old(self).line + newline_count(src, i + 1, self.current as int),
            decreases src.len() - self.current,
        {
            proof {
                lemma_newline_count_bounds(src, i + 1, self.current as int);
                lemma_newline_count_snoc(src, i + 1, self.current as int);
                lemma_quote_scan_end(src, self.current as int + 1);
            }
            if self.peek() == '\n' {
                self.line = self.line + 1;
            }
            self.advance();
        }
        proof {
            lemma_newline_count_bounds(src, i + 1, self.current as int);
        }
        // unterminated string
        if self.is_at_end() {
            self.record_report("Unterminated string.");
            return ;
        }
        // the closing quote
        self.advance();
        // trim the surrounding quotes
        let literal_text = text_of_range(&self.source, self.start + 1, self.current - 1);
        self.add_token_with_literal(TokenType::ATOM, Some(Literal::Atom(literal_text)));
    }

    fn process_atom(&mut self)
        requires
            old(self).wf(),
            old(self).start < old(self).current,
        ensures
            final(self).wf(),
            final(self).source == old(self).source,
            final(self).start == old(self).start,
            final(self).line == old(self).line,
            final(self).diagnostics == old(self).diagnostics,
            ({
                let src = old(self).source@;
                let e = name_run_end(src, old(self).current as int);
                &&& final(self).current == e
                &&& tokens_view(final(self).tokens@) == tokens_view(old(self).tokens@).push(
                    TokenView {
                        token_type: TokenType::ATOM,
                        lexeme: src.subrange(old(self).start as int, e),
                        literal: Some(LiteralView::Atom(src.subrange(old(self).start as int, e))),
                        line: old(self).line as int,
                    },
                )
            }),
    {
        let ghost src = self.source@;
        let ghost e = name_run_end(src, self.current as int);
        proof {
            lemma_name_run_end(src, self.current as int);
        }
        while self.is_alphanumeric(self.peek())
            invariant
                self.wf(),
                self.source == old(self).source,
                self.source@ == src,
                self.start == old(self).start,
                self.line == old(self).line,
                self.tokens == old(self).tokens,
                self.diagnostics == old(self).diagnostics,
                old(self).current <= self.current <= e <= src.len(),
                name_run_end(src, self.current as int) == e,
            decreases src.len() - self.current,
        {
            proof {
                lemma_name_run_end(src, self.current as int + 1);
            }
            self.advance();
        }
        let text = text_of_range(&self.source, self.start, self.current);
        self.add_token_with_literal(TokenType::ATOM, Some(Literal::Atom(text)));
    }

    fn process_special_atom(&mut self)
        requires
            old(self).wf(),
            old(self).start < old(self).current,
        ensures
            final(self).wf(),
            final(self).source == old(self).source,
            final(self).start == old(self).start,
            final(self).line == old(self).line,
            final(self).diagnostics == old(self).diagnostics,
            ({
                let src = old(self).source@;
                let e = symbolic_run_end(src, old(self).current as int);
                &&& final(self).current == e
                &&& tokens_view(final(self).tokens@) == tokens_view(old(self).tokens@).push(
                    TokenView {
                        token_type: TokenType::ATOM,
                        lexeme: src.subrange(old(self).start as int, e),
                        literal: Some(LiteralView::Atom(src.subrange(old(self).start as int, e))),
                        line: old(self).line as int,
                    },
                )
            }),
    {
        let ghost src = self.source@;
        let ghost e = symbolic_run_end(src, self.current as int);
        proof {
            lemma_symbolic_run_end(src, self.current as int);
        }
        while !self.is_at_end() && self.is_special_char(&self.peek())
            invariant
                self.wf(),
                self.source == old(self).source,
                self.source@ == src,
                self.start == old(self).start,
                self.line == old(self).line,
                self.tokens == old(self).tokens,
                self.diagnostics == old(self).diagnostics,
                old(self).current <= self.current <= e <= src.len(),
                symbolic_run_end(src, self.current as int) == e,
            decreases src.len() - self.current,
        {
            proof {
                lemma_symbolic_run_end(src, self.current as int + 1);
            }
            self.advance();
        }
        let text = text_of_range(&self.source, self.start, self.current);
        self.add_token_with_literal(TokenType::ATOM, Some(Literal::Atom(text)));
    }

    fn process_variable(&mut self)
        requires
            old(self).wf(),
            old(self).start < old(self).current,
        ensures
            final(self).wf(),
            final(self).source == old(self).source,
            final(self).start == old(self).start,
            final(self).line == old(self).line,
            final(self).diagnostics == old(self).diagnostics,
            ({
                let src = old(self).source@;
                let e = name_run_end(src, old(self).current as int);
                &&& final(self).current == e
                &&& tokens_view(final(self).tokens@) == tokens_view(old(self).tokens@).push(
                    TokenView {
                        token_type: TokenType::ATOM,
                        lexeme: src.subrange(old(self).start as int, e),
                        literal: Some(
                            LiteralView::Variable(src.subrange(old(self).start as int, e)),
                        ),
                        line: old(self).line as int,
                    },
                )
            }),
    {
        let ghost src = self.source@;
        let ghost e = name_run_end(src, self.current as int);
        proof {
            lemma_name_run_end(src, self.current as int);
        }
        while self.is_alphanumeric(self.peek())
            invariant
                self.wf(),
                self.source == old(self).source,
                self.source@ == src,
                self.start == old(self).start,
                self.line == old(self).line,
                self.tokens == old(self).tokens,
                self.diagnostics == old(self).diagnostics,
                old(self).current <= self.current <= e <= src.len(),
                name_run_end(src, self.current as int) == e,
            decreases src.len() - self.current,
        {
            proof {
                lemma_name_run_end(src, self.current as int + 1);
            }
            self.advance();
        }
        let text = text_of_range(&self.source, self.start, self.current);
        self.add_token_with_literal(TokenType::ATOM, Some(Literal::Variable(text)));
    }

    fn process_number(&mut self)
        requires
            old(self).wf(),
        ensures
            final(self).wf(),
            final(self).source == old(self).source,
            final(self).start == old(self).start,
            final(self).line == old(self).line,
            final(self).tokens == old(self).tokens,
            final(self).diagnostics == old(self).diagnostics,
            ({
                let src = old(self).source@;
                let e = digit_run_end(src, old(self).current as int);
                final(self).current == (if e < src.len() && src[e] == '.' && e + 1 < src.len()
                    && is_digit_char(src[e + 1]) {
                    digit_run_end(src, e + 1)
                } else {
                    e
                })
            }),
    {
        let ghost src = self.source@;
        let ghost e = digit_run_end(src, self.current as int);
        proof {
            lemma_digit_run_end(src, self.current as int);
        }
        while self.is_digit(self.peek())
            invariant
                self.wf(),
                self.source == old(self).source,
                self.source@ == src,
                self.start == old(self).start,
                self.line == old(self).line,
                self.tokens == old(self).tokens,
                self.diagnostics == old(self).diagnostics,
                old(self).current <= self.current <= e <= src.len(),
                digit_run_end(src, self.current as int) == e,
            decreases src.len() - self.current,
        {
            proof {
                lemma_digit_run_end(src, self.current as int + 1);
            }
            self.advance();
        }
        if self.peek() == '.' && self.is_digit(self.peek_next()) {
            // consume the "."
            self.advance();
            let ghost e2 = digit_run_end(src, self.current as int);
            proof {
                lemma_digit_run_end(src, self.current as int);
            }
            while self.is_digit(self.peek())
                invariant
                    self.wf(),
                    self.source == old(self).source,
                    self.source@ == src,
                    self.start == old(self).start,
                    self.line == old(self).line,
                    self.tokens == old(self).tokens,
                    self.diagnostics == old(self).diagnostics,
                    e + 1 <= self.current <= e2 <= src.len(),
                    digit_run_end(src, self.current as int) == e2,
                    e2 == digit_run_end(src, e + 1),
                decreases src.len() - self.current,
            {
                proof {
                    lemma_digit_run_end(src, self.current as int + 1);
                }
                self.advance();
            }
        }
    }

    fn scan_token(&mut self)
        requires
            old(self).wf(),
            old(self).start == old(self).current,
            old(self).current < old(self).source@.len(),
        ensures
            final(self).wf(),
            final(self).source == old(self).source,
            ({
                let st = scan_step(
                    old(self).source@,
                    old(self).current as int,
                    old(self).line as int,
                );
                &&& final(self).current == st.next
                &&& final(self).line == st.line
                &&& tokens_view(final(self).tokens@) == tokens_view(old(self).tokens@)
                    + emit_tokens(st.emits)
                &&& diags_view(final(self).diagnostics@) == diags_view(old(self).diagnostics@)
                    + st.diags
            }),
    {
        let c = self.advance();
        if c == ' ' || c == '\r' || c == '\t' {
            // ignore whitespace
        } else if c == '\n' {
            self.line = self.line + 1;
        } else if c == '.' {
            self.add_token(TokenType::DOT);
        } else if c == ',' {
            self.add_token(TokenType::COMMA);
        } else if c == '\'' {
            self.process_string_atom();
        } else if self.is_special_char(&c) {
            if c == ':' && self.peek() == '-' {
                self.advance();
                self.add_token(TokenType::COLONMINUS);
            } else {
                self.process_special_atom();
            }
        } else if 'a' <= c && c <= 'z' {
            self.process_atom();
        } else if ('A' <= c && c <= 'Z') || c == '_' {
            self.process_variable();
        } else if self.is_digit(c) {
            self.process_number();
        } else {
            self.record_report("Unexpected character.");
        }
        proof {
            let st = scan_step(old(self).source@, old(self).current as int, old(self).line as int);
            assert(tokens_view(self.tokens@) =~= tokens_view(old(self).tokens@) + emit_tokens(
                st.emits,
            ));
            assert(diags_view(self.diagnostics@) =~= diags_view(old(self).diagnostics@) + st.diags);
        }
    }

    /// Scans the whole source in one pass and returns the token sequence,
    /// terminated by exactly one end-of-input token carrying the final line
    /// count. Recoverable lexical issues are recorded as diagnostics and the
    /// offending span emits no token.
    pub fn scan_tokens(&mut self) -> (tokens: Vec<Token>)
        requires
            old(self).wf(),
            old(self).fresh(),
        ensures
            final(self).wf(),
            final(self).source_view() == old(self).source_view(),
            tokens_view(tokens@) == scanned_tokens(old(self).source_view()),
            final(self).diagnostics_view() == scanned_diags(old(self).source_view()),
    {
        let ghost src = self.source@;
        proof {
            assert(tokens_view(self.tokens@) + emit_tokens(scan_from(src, 0, 1).emits)
                =~= emit_tokens(scan_from(src, 0, 1).emits));
            assert(diags_view(self.diagnostics@) + scan_from(src, 0, 1).diags =~= scan_from(
                src,
                0,
                1,
            ).diags);
        }
        while !self.is_at_end()
            invariant
                self.wf(),
                self.source == old(self).source,
                self.source@ == src,
                ({
                    let whole = scan_from(src, 0, 1);
                    let rest = scan_from(src, self.current as int, self.line as int);
                    &&& emit_tokens(whole.emits) == tokens_view(self.tokens@) + emit_tokens(
                        rest.emits,
                    )
                    &&& whole.diags == diags_view(self.diagnostics@) + rest.diags
                    &&& whole.line == rest.line
                }),
            decreases src.len() - self.current,
        {
            self.start = self.current;
            let ghost pre = *self;
            self.scan_token();
            proof {
                let i0 = pre.current as int;
                let l0 = pre.line as int;
                lemma_scan_step_bounds(src, i0, l0);
                let st = scan_step(src, i0, l0);
                let rest1 = scan_from(src, st.next, st.line);
                assert(scan_from(src, i0, l0).emits == st.emits + rest1.emits);
                assert(scan_from(src, i0, l0).diags == st.diags + rest1.diags);
                assert(emit_tokens(st.emits + rest1.emits) =~= emit_tokens(st.emits) + emit_tokens(
                    rest1.emits,
                ));
                assert(tokens_view(pre.tokens@) + (emit_tokens(st.emits) + emit_tokens(
                    rest1.emits,
                )) =~= (tokens_view(pre.tokens@) + emit_tokens(st.emits)) + emit_tokens(
                    rest1.emits,
                ));
                assert(diags_view(pre.diagnostics@) + (st.diags + rest1.diags) =~= (diags_view(
                    pre.diagnostics@,
                ) + st.diags) + rest1.diags);
            }
        }
        proof {
            assert(tokens_view(self.tokens@) + emit_tokens(
                scan_from(src, self.current as int, self.line as int).emits,
            ) =~= tokens_view(self.tokens@));
            assert(diags_view(self.diagnostics@) + scan_from(
                src,
                self.current as int,
                self.line as int,
            ).diags =~= diags_view(self.diagnostics@));
        }
        let ghost prefix_tokens = tokens_view(self.tokens@);
        let eof = Token::new(TokenType::EOF, "", None, self.line);
        self.tokens.push(eof);
        proof {
            reveal_strlit("");
            assert(""@ =~= Seq::<char>::empty());
            assert(tokens_view(self.tokens@) =~= prefix_tokens.push(self.tokens@.last()@));
            assert(scanned_tokens(src) =~= prefix_tokens.push(self.tokens@.last()@));
            assert(diags_view(self.diagnostics@) =~= scanned_diags(src));
        }
        let mut out: Vec<Token> = Vec::new();
        core::mem::swap(&mut out, &mut self.tokens);
        out
    }

    /// The diagnostics recorded so far, in the order they were reported.
    pub fn diagnostics(&self) -> (d: &Vec<Diagnostic>)
        ensures
            diags_view(d@) == self.diagnostics_view(),
    {
        &self.diagnostics
    }
}

} // verus!
