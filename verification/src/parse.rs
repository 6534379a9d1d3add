//! Markdown source to the AST: lines, then blocks (frontmatter, math, fenced
//! and indented code, block quotes and alerts, ATX and setext headings,
//! thematic breaks, lists and task items, footnote and link reference
//! definitions, HTML blocks, tables, description lists, paragraphs), then the
//! inline content of paragraphs, headings, table cells and terms.
use vstd::prelude::*;

use crate::ast::{
    Alert, AlertKind, Block, BlockQuote, CodeBlock, CodeBlockKind, Definition, DescriptionDetails, DescriptionItem,
    ContainerDirective, DescriptionList, Document, FenceMarker, LeafDirective, FootnoteDefinition, Frontmatter, FrontmatterKind, Heading, HeadingKind,
    HtmlBlock, Inline, List, ListDelimiter, ListItem, MathBlock, MdxEsm, MdxExpression, MdxJsx, NodeMeta, Paragraph,
    Table, TableCell, TableRow, Text, ThematicBreak, ThematicBreakMarker,
};
use crate::mdx::{
    esm_block, expression_block_close, expression_block_value, jsx_block_close, jsx_tag_start, skip_ws_within,
    spec_joined_lines, tag_end_lines,
};
use crate::block_start::{
    html_block_start, is_list_marker_line, line_starts_html_block, lower_range_equals, parse_table_delimiter,
    skip_all_ws, split_table_row,
    table_can_start_source, trim_end, HtmlBlockKind,
};
use crate::diagnostic::{Diagnostic, DiagnosticCode, DiagnosticSeverity};
use crate::inline_parse::{parse_character_reference, parse_inlines, spec_diagnostics_off, ParseContext};
use crate::label::normalize_label;
use crate::delimited::{find_footnote_reference_label_end, is_footnote_label};
use crate::directive::{colon_run, parse_directive_opener};
use crate::links::{find_reference_label_end, parse_definition_destination_title, LinkResource};
use crate::options::{spec_validate, Constructs, SyntaxConfigError, SyntaxOptions};
use crate::span::Span;
use crate::text::{
    ascii_lower, bytes_equal, char_len_at, copy_range, string_bytes, is_ascii_punctuation, push_bytes, push_range, run_len, skip_ws,
    spec_all_ws_from, spec_run_len, starts_with_at, string_from_bytes, string_from_range, trim_up_to_three_spaces, whitespace_len_at,
};

verus! {

// ---------------------------------------------------------------------------
// Output.
// ---------------------------------------------------------------------------

/// A parsed document and the diagnostics found while parsing it.
#[derive(Debug, PartialEq, Eq)]
pub struct ParseOutput {
    /// The document.
    pub document: Document,
    /// The diagnostics, in source order.
    pub diagnostics: Vec<Diagnostic>,
}

/// Why strict parsing failed.
#[derive(Debug, PartialEq, Eq)]
pub enum ParseStrictError {
    /// The syntax options conflict.
    Config(SyntaxConfigError),
    /// Parsing reported an error.
    Diagnostic(Diagnostic),
}

// ---------------------------------------------------------------------------
// Lines.
// ---------------------------------------------------------------------------

/// A line of the input: `[start, end)` is its text, `[end, end_with_eol)` its
/// line ending.
#[derive(Clone, Copy, Debug, PartialEq, Eq, Structural)]
pub struct Line {
    pub start: usize,
    pub end: usize,
    pub end_with_eol: usize,
    /// Whether the line reached its container only as a lazy paragraph
    /// continuation (it then cannot start a block of its own).
    pub lazy: bool,
}

/// The first `\r` or `\n` at or after `k`, or the end of `b`.
pub open spec fn spec_line_end(b: Seq<u8>, k: int) -> int
    decreases b.len() - k,
{
    if k < 0 || k >= b.len() {
        b.len() as int
    } else if b[k] == 10u8 || b[k] == 13u8 {
        k
    } else {
        spec_line_end(b, k + 1)
    }
}

/// Where the line ending that starts at `e` ends (`\r\n`, `\r` or `\n`).
pub open spec fn spec_eol_after(b: Seq<u8>, e: int) -> int {
    if e >= b.len() {
        e
    } else if b[e] == 13u8 && e + 1 < b.len() && b[e + 1] == 10u8 {
        e + 2
    } else {
        e + 1
    }
}

/// Whether `lines` are the lines of `b`: consecutive, each ending at the first
/// line ending after its start, the last one at the end of `b`, and none
/// starting at the end unless `b` is empty.
pub open spec fn spec_lines_of(b: Seq<u8>, lines: Seq<Line>) -> bool {
    &&& lines.len() >= 1
    &&& lines[0].start == 0
    &&& forall|i: int| 0 <= i < lines.len() - 1 ==> #[trigger] lines[i + 1].start == lines[i].end_with_eol
    &&& forall|i: int|
        0 <= i < lines.len() ==> (#[trigger] lines[i]).end == spec_line_end(b, lines[i].start as int)
            && lines[i].end_with_eol == spec_eol_after(b, lines[i].end as int) && (lines[i].start < b.len()
            || b.len() == 0)
    &&& spec_lines_within(lines, b.len())
    &&& lines.last().end_with_eol == b.len()
}

proof fn lemma_line_end_skip(b: Seq<u8>, s: int, k: int)
    requires
        0 <= s <= k <= b.len(),
        forall|j: int| s <= j < k ==> b[j] != 10u8 && b[j] != 13u8,
    ensures
        spec_line_end(b, s) == spec_line_end(b, k),
    decreases k - s,
{
    if s < k {
        lemma_line_end_skip(b, s + 1, k);
    }
}

/// Splits `input` into lines at `\n`, `\r\n` and `\r`.
pub fn collect_lines(input: &[u8]) -> (r: Vec<Line>)
    ensures
        spec_lines_of(input@, r@),
        spec_lines_ordered(r@),
        forall|i: int| 0 <= i < r@.len() ==> !(#[trigger] r@[i]).lazy,
{
    let n = input.len();
    let mut lines: Vec<Line> = Vec::new();
    let mut start: usize = 0;
    let mut index: usize = 0;
    while index < n
        invariant
            n == input@.len(),
            start <= index <= n,
            start < n || n == 0 || index == n,
            forall|j: int| start <= j < index ==> input@[j] != 10u8 && input@[j] != 13u8,
            lines@.len() == 0 ==> start == 0,
            lines@.len() > 0 ==> lines@[0].start == 0 && lines@.last().end_with_eol == start,
            forall|i: int| 0 <= i < lines@.len() - 1 ==> #[trigger] lines@[i + 1].start == lines@[i].end_with_eol,
            forall|i: int|
                0 <= i < lines@.len() ==> (#[trigger] lines@[i]).end == spec_line_end(input@, lines@[i].start as int)
                    && lines@[i].end_with_eol == spec_eol_after(input@, lines@[i].end as int) && lines@[i].start < n,
            spec_lines_within(lines@, n as nat),
            forall|i: int| 0 <= i < lines@.len() ==> !(#[trigger] lines@[i]).lazy,
        decreases n - index,
    {
        let c = input[index];
        if c == 10u8 || c == 13u8 {
            let eol_end = if c == 13u8 && index + 1 < n && input[index + 1] == 10u8 {
                index + 2
            } else {
                index + 1
            };
            proof {
                lemma_line_end_skip(input@, start as int, index as int);
            }
            let line = Line { start, end: index, end_with_eol: eol_end, lazy: false };
            lines.push(line);
            index = eol_end;
            start = index;
        } else {
            index = index + 1;
        }
    }
    if start < n || n == 0 {
        proof {
            lemma_line_end_skip(input@, start as int, n as int);
        }
        lines.push(Line { start, end: n, end_with_eol: n, lazy: false });
    }
    lines
}

// ---------------------------------------------------------------------------
// Line predicates.
// ---------------------------------------------------------------------------

/// Whether the line `b[start..end]` holds only whitespace.
pub open spec fn spec_is_blank(b: Seq<u8>, start: int, end: int) -> bool {
    spec_all_ws_from(b.subrange(start, end), 0)
}

pub(crate) fn is_blank(b: &[u8], start: usize, end: usize) -> (r: bool)
    requires
        start <= end <= b@.len(),
    ensures
        r == spec_is_blank(b@, start as int, end as int),
{
    let line = copy_range(b, start, end);
    crate::text::is_all_whitespace(line.as_slice())
}

/// The end of the leading spaces and tabs of `b[start..end]`.
fn skip_spaces_tabs(b: &[u8], start: usize, end: usize) -> (r: usize)
    requires
        start <= end <= b@.len(),
    ensures
        start <= r <= end,
        r == crate::text::spec_space_tab_end(b@, start as int, end as int),
        forall|k: int| start <= k < r ==> b@[k] == 32u8 || b@[k] == 9u8,
        r < end ==> b@[r as int] != 32u8 && b@[r as int] != 9u8,
{
    crate::text::skip_spaces_tabs(b, start, end)
}

/// The fence that opens at `k`: three or more backticks or tildes.
pub open spec fn spec_fence_start(b: Seq<u8>, k: int, end: int) -> Option<(FenceMarker, nat)> {
    if k < end && (b[k] == 96u8 || b[k] == 126u8) {
        let l = spec_run_len(b.subrange(0, end), k, b[k]);
        if l >= 3 {
            Some((if b[k] == 96u8 { FenceMarker::Backtick } else { FenceMarker::Tilde }, l))
        } else {
            None
        }
    } else {
        None
    }
}

fn fence_start(b: &[u8], k: usize, end: usize) -> (r: Option<(FenceMarker, usize)>)
    requires
        k <= end <= b@.len(),
    ensures
        match spec_fence_start(b@, k as int, end as int) {
            Some((m, l)) => r == Some((m, l as usize)),
            None => r is None,
        },
        r matches Some(x) ==> k + x.1 <= end,
        spec_fence_start(b@, k as int, end as int) matches Some((_, l)) ==> k + l <= end,
{
    if !(k < end && (b[k] == 96u8 || b[k] == 126u8)) {
        return None;
    }
    let line = copy_range(b, 0, end);
    let c = b[k];
    let l = run_len(line.as_slice(), k, c);
    if l >= 3 {
        Some((if c == 96u8 {
            FenceMarker::Backtick
        } else {
            FenceMarker::Tilde
        }, l))
    } else {
        None
    }
}

/// Whether `b[k..end]` closes a fence of `marker` and `length` (see
/// [`fence_close`]).
pub open spec fn spec_fence_close(b: Seq<u8>, k: int, end: int, marker: FenceMarker, length: int) -> bool {
    let c: u8 = if marker == FenceMarker::Backtick {
        96u8
    } else {
        126u8
    };
    let count = spec_run_len(b.subrange(0, end), k, c);
    count >= length && spec_is_blank(b, k + count, end)
}

/// Whether `b[k..end]` closes a fence of `marker` and `length`: a run of at
/// least `length` fence bytes, then only whitespace.
fn fence_close(b: &[u8], k: usize, end: usize, marker: FenceMarker, length: usize) -> (r: bool)
    requires
        k <= end <= b@.len(),
    ensures
        r == spec_fence_close(b@, k as int, end as int, marker, length as int),
{
    let c: u8 = match marker {
        FenceMarker::Backtick => 96u8,
        FenceMarker::Tilde => 126u8,
    };
    let line = copy_range(b, 0, end);
    let count = run_len(line.as_slice(), k, c);
    count >= length && is_blank(b, k + count, end)
}

/// The start of a fence line's content: at most three columns of indentation
/// removed when indented code is on, any leading spaces and tabs otherwise.
pub open spec fn spec_fence_line(b: Seq<u8>, start: int, end: int, indented_code: bool) -> Option<int> {
    if indented_code {
        match crate::text::spec_trim_up_to_three(b.subrange(start, end)) {
            Some(o) => Some(start + o),
            None => None,
        }
    } else {
        Some(crate::text::spec_space_tab_end(b, start, end))
    }
}

fn fence_line(b: &[u8], start: usize, end: usize, options: &ParseContext) -> (r: Option<usize>)
    requires
        start <= end <= b@.len(),
    ensures
        r matches Some(k) ==> start <= k <= end,
        r == (match spec_fence_line(b@, start as int, end as int, options.constructs.indented_code) {
            Some(k) => Some(k as usize),
            None => None,
        }),
        spec_fence_line(b@, start as int, end as int, options.constructs.indented_code) matches Some(k) ==> start <= k
            <= end,
{
    if options.constructs.indented_code {
        trim_up_to_three_spaces(b, start, end)
    } else {
        Some(skip_spaces_tabs(b, start, end))
    }
}

/// The columns of the leading spaces and tabs of `b[k..end]`, from column
/// `col` (a tab advances to the next multiple of four; the count stops short
/// of overflowing the machine word).
pub open spec fn spec_indent_columns(b: Seq<u8>, k: int, end: int, col: int) -> int
    decreases end - k,
{
    if k < 0 || k >= end || col > usize::MAX - 4 {
        col
    } else if b[k] == 32u8 {
        spec_indent_columns(b, k + 1, end, col + 1)
    } else if b[k] == 9u8 {
        spec_indent_columns(b, k + 1, end, col + 4 - col % 4)
    } else {
        col
    }
}

/// The columns of the leading spaces and tabs of `b[start..end]`.
fn leading_indent_columns(b: &[u8], start: usize, end: usize) -> (r: usize)
    requires
        start <= end <= b@.len(),
    ensures
        r == spec_indent_columns(b@, start as int, end as int, 0),
{
    let mut col: usize = 0;
    let mut k = start;
    while k < end
        invariant
            start <= k <= end <= b@.len(),
            spec_indent_columns(b@, k as int, end as int, col as int) == spec_indent_columns(
                b@,
                start as int,
                end as int,
                0,
            ),
        ensures
            spec_indent_columns(b@, k as int, end as int, col as int) == col,
            spec_indent_columns(b@, start as int, end as int, 0) == col,
        decreases end - k,
    {
        if col > usize::MAX - 4 {
            break;
        }
        if b[k] == 32u8 {
            col = col + 1;
        } else if b[k] == 9u8 {
            col = col + 4 - col % 4;
        } else {
            break;
        }
        k = k + 1;
    }
    col
}

/// `b[k..end]` with indentation removed up to column `target`, `column`
/// columns having been removed already (see [`push_stripped_indent`]).
pub open spec fn spec_strip_indent(b: Seq<u8>, k: int, end: int, column: int, target: int) -> Seq<u8>
    decreases end - k,
{
    if k < 0 || k >= end {
        Seq::empty()
    } else if b[k] != 32u8 && b[k] != 9u8 {
        b.subrange(k, end)
    } else {
        let next = if b[k] == 32u8 {
            column + 1
        } else {
            column + 4 - column % 4
        };
        if next > target {
            if b[k] == 9u8 && column < target {
                spec_spaces(next - target) + spec_expand_ws(b, k + 1, end, next % 4)
            } else {
                b.subrange(k, end)
            }
        } else {
            spec_strip_indent(b, k + 1, end, next, target)
        }
    }
}

/// Appends `b[start..end]` with up to `max_columns` columns of indentation
/// removed (a tab that crosses the budget leaves its excess columns as spaces).
fn push_stripped_indent(out: &mut Vec<u8>, b: &[u8], start: usize, end: usize, max_columns: usize)
    requires
        start <= end <= b@.len(),
        max_columns <= usize::MAX - 8,
    ensures
        final(out)@ == old(out)@ + spec_strip_indent(b@, start as int, end as int, 0, max_columns as int),
{
    let ghost out_start = out@;
    let ghost total = spec_strip_indent(b@, start as int, end as int, 0, max_columns as int);
    let mut column: usize = 0;
    let target = max_columns;
    let mut k = start;
    while k < end
        invariant
            start <= k <= end <= b@.len(),
            column <= target,
            target <= usize::MAX - 8,
            target == max_columns,
            out@ == out_start,
            out_start == old(out)@,
            total == spec_strip_indent(b@, start as int, end as int, 0, max_columns as int),
            spec_strip_indent(b@, k as int, end as int, column as int, target as int) == total,
        decreases end - k,
    {
        let c = b[k];
        let next = if c == 32u8 {
            column + 1
        } else if c == 9u8 {
            column + 4 - column % 4
        } else {
            proof {
                assert(total == b@.subrange(k as int, end as int));
            }
            push_range(out, b, k, end);
            proof {
                assert(out@ =~= out_start + total);
            }
            return;
        };
        if next > target {
            if c == 9u8 && column < target {
                let residual = next - target;
                let mut i: usize = 0;
                while i < residual
                    invariant
                        i <= residual,
                        out@ == out_start + spec_spaces(i as int),
                    decreases residual - i,
                {
                    out.push(32u8);
                    i = i + 1;
                    proof {
                        assert(out@ =~= out_start + spec_spaces(i as int));
                    }
                }
                let mut phase: usize = next % 4;
                let mut r = k + 1;
                let ghost goal = out_start + spec_spaces(residual as int) + spec_expand_ws(b@, k + 1, end as int, phase as int);
                proof {
                    assert(goal == out_start + total);
                }
                while r < end && (b[r] == 32u8 || b[r] == 9u8)
                    invariant
                        k < r <= end <= b@.len(),
                        phase < 4,
                        out@ + spec_expand_ws(b@, r as int, end as int, phase as int) == goal,
                    decreases end - r,
                {
                    let ghost out0 = out@;
                    let ghost phase0 = phase;
                    if b[r] == 32u8 {
                        out.push(32u8);
                        phase = (phase + 1) % 4;
                        proof {
                            assert(out@ + spec_expand_ws(b@, r + 1, end as int, phase as int) =~= out0 + spec_expand_ws(
                                b@,
                                r as int,
                                end as int,
                                phase0 as int,
                            ));
                        }
                    } else {
                        let width = 4 - phase;
                        let mut j: usize = 0;
                        while j < width
                            invariant
                                j <= width,
                                out@ == out0 + spec_spaces(j as int),
                            decreases width - j,
                        {
                            out.push(32u8);
                            j = j + 1;
                            proof {
                                assert(out@ =~= out0 + spec_spaces(j as int));
                            }
                        }
                        phase = 0;
                        proof {
                            assert(out@ + spec_expand_ws(b@, r + 1, end as int, 0) =~= out0 + spec_expand_ws(
                                b@,
                                r as int,
                                end as int,
                                phase0 as int,
                            ));
                        }
                    }
                    r = r + 1;
                }
                let ghost out1 = out@;
                push_range(out, b, r, end);
                proof {
                    assert(out@ =~= out1 + spec_expand_ws(b@, r as int, end as int, phase as int));
                    assert(out@ =~= out_start + total);
                }
                return;
            }
            proof {
                assert(total == b@.subrange(k as int, end as int));
            }
            push_range(out, b, k, end);
            proof {
                assert(out@ =~= out_start + total);
            }
            return;
        }
        column = next;
        k = k + 1;
    }
    proof {
        assert(out@ =~= out_start + total);
    }
}

/// `t[k..]` with backslash escapes of ASCII punctuation and `&` resolved (a
/// backslash before any other scalar kept) and numeric character references
/// decoded.
pub open spec fn spec_unescaped_from(t: Seq<u8>, k: int) -> Seq<u8>
    decreases t.len() - k,
{
    if k < 0 || k >= t.len() {
        Seq::empty()
    } else if t[k] == 38u8 && crate::inline_parse::spec_numeric_reference(t, k) is Some {
        let (e, v) = crate::inline_parse::spec_numeric_reference(t, k)->0;
        if e > k {
            crate::inline_parse::spec_utf8(v) + spec_unescaped_from(t, e)
        } else {
            Seq::empty()
        }
    } else if t[k] == 92u8 && k + 1 < t.len() {
        let w2 = crate::text::spec_char_len_at(t, k + 1);
        if w2 == 1 && (crate::text::spec_is_ascii_punctuation(t[k + 1]) || t[k + 1] == 38u8) {
            seq![t[k + 1]] + spec_unescaped_from(t, k + 2)
        } else {
            seq![92u8] + t.subrange(k + 1, k + 1 + w2) + spec_unescaped_from(t, k + 1 + w2)
        }
    } else {
        t.subrange(k, k + crate::text::spec_char_len_at(t, k)) + spec_unescaped_from(t, k + crate::text::spec_char_len_at(t, k))
    }
}

/// Appends `b[start..end]` with backslash escapes of ASCII punctuation and `&`
/// resolved, and numeric character references decoded.
fn push_unescaped(out: &mut Vec<u8>, b: &[u8], start: usize, end: usize)
    requires
        start <= end <= b@.len(),
    ensures
        final(out)@ == old(out)@ + spec_unescaped_from(b@.subrange(0, end as int), start as int),
{
    let line = copy_range(b, 0, end);
    let t = line.as_slice();
    let mut k = start;
    assert(t@ == b@.subrange(0, end as int));
    while k < end
        invariant
            start <= k <= end,
            t@.len() == end,
            t@ == b@.subrange(0, end as int),
            old(out)@ + spec_unescaped_from(t@, start as int) == out@ + spec_unescaped_from(t@, k as int),
        decreases end - k,
    {
        if t[k] == 38u8 {
            match parse_character_reference(t, k) {
                Some((e, value)) => {
                    push_char_utf8(out, value);
                    k = e;
                    continue;
                },
                None => {},
            }
        }
        let w = char_len_at(t, k);
        if t[k] == 92u8 && k + 1 < end {
            let w2 = char_len_at(t, k + 1);
            if w2 == 1 && (is_ascii_punctuation(t[k + 1]) || t[k + 1] == 38u8) {
                out.push(t[k + 1]);
            } else {
                out.push(92u8);
                push_range(out, t, k + 1, k + 1 + w2);
            }
            k = k + 1 + w2;
            continue;
        }
        push_range(out, t, k, k + w);
        k = k + w;
    }
}

fn push_char_utf8(out: &mut Vec<u8>, c: char)
    ensures
        final(out)@ == old(out)@ + crate::inline_parse::spec_utf8(c as u32),
{
    crate::inline_parse::push_char_bytes(out, c);
}

// ---------------------------------------------------------------------------
// Leaf blocks.
// ---------------------------------------------------------------------------

/// The depth of an ATX heading opening at `k` (after at most three columns of
/// indentation): one to six `#`, then the end, a space or a tab.
pub open spec fn spec_atx_depth(b: Seq<u8>, k: int, end: int) -> Option<nat> {
    let d = spec_run_len(b.subrange(0, end), k, 35u8);
    if d == 0 || d > 6 {
        None
    } else if k + d < end && !(b[k + d] == 32u8 || b[k + d] == 9u8) {
        None
    } else {
        Some(d)
    }
}

fn atx_depth(b: &[u8], k: usize, end: usize) -> (r: Option<usize>)
    requires
        k <= end <= b@.len(),
    ensures
        match spec_atx_depth(b@, k as int, end as int) {
            Some(d) => r == Some(d as usize),
            None => r is None,
        },
        r matches Some(d) ==> k + d <= end && 1 <= d <= 6,
{
    let line = copy_range(b, 0, end);
    let d = run_len(line.as_slice(), k, 35u8);
    if d == 0 || d > 6 {
        return None;
    }
    if k + d < end && !(b[k + d] == 32u8 || b[k + d] == 9u8) {
        return None;
    }
    Some(d)
}

/// Where the run of `#` that ends at `e` starts, not going below `s`.
pub open spec fn spec_hash_run_back(b: Seq<u8>, s: int, e: int) -> int
    decreases e - s,
{
    if e > s && b[e - 1] == 35u8 {
        spec_hash_run_back(b, s, e - 1)
    } else {
        e
    }
}

/// The content of an ATX heading after its opening, as a range: leading
/// whitespace skipped, trailing whitespace trimmed, then a closing run of `#`
/// (and the whitespace before it) dropped when the run makes up the whole
/// content or follows a space or tab.
pub open spec fn spec_atx_content(b: Seq<u8>, start: int, end: int) -> (int, int) {
    let s = crate::mdx::spec_skip_ws_within(b, start, end);
    let e = crate::block_start::spec_trim_end(b, s, end);
    let h = spec_hash_run_back(b, s, e);
    if h == e {
        (s, e)
    } else if h == s {
        (s, s)
    } else if b[h - 1] == 32u8 || b[h - 1] == 9u8 {
        (s, crate::block_start::spec_trim_end(b, s, h))
    } else {
        (s, e)
    }
}

proof fn lemma_hash_run_back(b: Seq<u8>, s: int, e: int)
    requires
        s <= e,
    ensures
        s <= spec_hash_run_back(b, s, e) <= e,
        forall|j: int| spec_hash_run_back(b, s, e) <= j < e ==> #[trigger] b[j] == 35u8,
        spec_hash_run_back(b, s, e) == s || b[spec_hash_run_back(b, s, e) - 1] != 35u8,
    decreases e - s,
{
    if e > s && b[e - 1] == 35u8 {
        lemma_hash_run_back(b, s, e - 1);
    }
}

proof fn lemma_skip_ws_bounds(b: Seq<u8>, k: int, e: int)
    requires
        0 <= k <= e,
    ensures
        k <= crate::mdx::spec_skip_ws_within(b, k, e) <= e,
    decreases e - k,
{
    if 0 <= k < e && crate::text::spec_ws_len_at(b, k) > 0 && k + crate::text::spec_ws_len_at(b, k) <= e {
        lemma_skip_ws_bounds(b, k + crate::text::spec_ws_len_at(b, k), e);
    }
}

proof fn lemma_trim_end_bounds(b: Seq<u8>, start: int, end: int)
    requires
        start <= end,
    ensures
        start <= crate::block_start::spec_trim_end(b, start, end) <= end,
    decreases end - start,
{
    let w = crate::block_start::spec_trailing_ws_width(b, end);
    if !(end <= start || w == 0 || end - w < start) {
        lemma_trim_end_bounds(b, start, end - w);
    }
}

/// Whether `b[k..e]` is a run of `#` that starts the content `s..e` or follows
/// a space or tab.
pub open spec fn spec_closing_run_at(b: Seq<u8>, s: int, e: int, k: int) -> bool {
    &&& s <= k < e
    &&& (k == s || b[k - 1] == 32u8 || b[k - 1] == 9u8)
    &&& forall|j: int| k <= j < e ==> #[trigger] b[j] == 35u8
}

/// An ATX heading keeps a final run of `#` as content unless that run is its
/// whole content or follows a space or tab: with `s..e` the content trimmed of
/// surrounding whitespace, the content range starts at `s`, ends at or before
/// `e`, ends before `e` only when some run of `#` reaching `e` starts at `s` or
/// after a space or tab (and then ends at or before that run), and always ends
/// at or before the start of every such run.
pub proof fn lemma_atx_closing_sequence(b: Seq<u8>, start: int, end: int)
    requires
        0 <= start <= end <= b.len(),
    ensures
        ({
            let s = crate::mdx::spec_skip_ws_within(b, start, end);
            let e = crate::block_start::spec_trim_end(b, s, end);
            let (cs, ce) = spec_atx_content(b, start, end);
            &&& cs == s
            &&& s <= ce <= e
            &&& ce < e ==> exists|k: int| #[trigger] spec_closing_run_at(b, s, e, k) && ce <= k
            &&& forall|k: int| #[trigger] spec_closing_run_at(b, s, e, k) ==> ce <= k
        }),
{
    let s = crate::mdx::spec_skip_ws_within(b, start, end);
    lemma_skip_ws_bounds(b, start, end);
    lemma_trim_end_bounds(b, s, end);
    let e = crate::block_start::spec_trim_end(b, s, end);
    lemma_hash_run_back(b, s, e);
    let h = spec_hash_run_back(b, s, e);
    if h != e && h != s && (b[h - 1] == 32u8 || b[h - 1] == 9u8) {
        lemma_trim_end_bounds(b, s, h);
    }
    let (cs, ce) = spec_atx_content(b, start, end);
    assert forall|k: int| #[trigger] spec_closing_run_at(b, s, e, k) implies ce <= k by {
        if h > k {
            assert(b[h - 1] == 35u8);
        } else if h < k {
            assert(b[k - 1] == 35u8);
        }
    }
    if ce < e {
        assert(spec_closing_run_at(b, s, e, h) && ce <= h);
    }
}

/// The content of an ATX heading after its opening (see [`spec_atx_content`]).
fn atx_content(b: &[u8], start: usize, end: usize) -> (r: (usize, usize))
    requires
        start <= end <= b@.len(),
    ensures
        start <= r.0 <= r.1 <= end,
        (r.0 as int, r.1 as int) == spec_atx_content(b@, start as int, end as int),
{
    let s = skip_ws_within(b, start, end);
    let e = trim_end(b, s, end);
    let mut h = e;
    while h > s && b[h - 1] == 35u8
        invariant
            s <= h <= e <= end <= b@.len(),
            spec_hash_run_back(b@, s as int, h as int) == spec_hash_run_back(b@, s as int, e as int),
        decreases h,
    {
        h = h - 1;
    }
    if h == e {
        return (s, e);
    }
    if h == s {
        return (s, s);
    }
    if b[h - 1] == 32u8 || b[h - 1] == 9u8 {
        let t = trim_end(b, s, h);
        (s, t)
    } else {
        (s, e)
    }
}

fn parse_atx_heading(
    b: &[u8],
    line: Line,
    base: usize,
    options: &ParseContext,
    diagnostics: &mut Vec<Diagnostic>,
) -> (r: Option<Block>)
    requires
        line.start <= line.end <= b@.len(),
        base + b@.len() <= usize::MAX,
    ensures
        r matches Some(x) ==> crate::ast::spec_block_meta(x).span is Some,
        spec_diagnostics_off(options.constructs) ==> final(diagnostics)@ == old(diagnostics)@,
        r matches Some(Block::Heading(h)) ==> h.kind == HeadingKind::Atx && 1 <= h.depth <= 6,
        r matches Some(x) ==> x is Heading,
        r is Some <==> match crate::text::spec_trim_up_to_three(b@.subrange(line.start as int, line.end as int)) {
            Some(o) => spec_atx_depth(b@, line.start + o, line.end as int) is Some,
            None => false,
        },
        r matches Some(Block::Heading(h)) ==> h.meta.span is Some && h.meta.span->0.start == base + line.start
            && h.meta.span->0.end == base + line.end,
        r matches Some(Block::Heading(h)) ==> (match crate::text::spec_trim_up_to_three(
            b@.subrange(line.start as int, line.end as int),
        ) {
            Some(o) => spec_atx_depth(b@, line.start + o, line.end as int) == Some(h.depth as nat),
            None => false,
        }),
{
    let ghost d0 = diagnostics@;
    let k = trim_up_to_three_spaces(b, line.start, line.end)?;
    let depth = atx_depth(b, k, line.end)?;
    let (cs, ce) = atx_content(b, k + depth, line.end);
    let content = copy_range(b, cs, ce);
    let content_start = k + depth + (skip_spaces_tabs(b, k + depth, line.end) - (k + depth));
    let children = if base + content_start <= usize::MAX - content.len() {
        parse_inlines(content.as_slice(), base + content_start, options, diagnostics)
    } else {
        Vec::new()
    };
    Some(
        Block::Heading(
            Heading {
                meta: NodeMeta::new(Some(Span::new(base + line.start, base + line.end))),
                depth: depth as u8,
                kind: HeadingKind::Atx,
                children,
            },
        ),
    )
}

/// The marker of a thematic break line: three or more of one of `-`, `*`,
/// `_`, with only spaces and tabs between them, after at most three columns of
/// indentation and with surrounding whitespace trimmed.
pub open spec fn spec_break_scan(b: Seq<u8>, i: int, e: int, marker: Option<u8>, count: nat) -> Option<ThematicBreakMarker>
    decreases e - i,
{
    if i < 0 || i >= e {
        if count < 3 {
            None
        } else {
            match marker {
                Some(m) => Some(
                    if m == 45u8 {
                        ThematicBreakMarker::Dash
                    } else if m == 42u8 {
                        ThematicBreakMarker::Asterisk
                    } else {
                        ThematicBreakMarker::Underscore
                    },
                ),
                None => None,
            }
        }
    } else {
        let c = b[i];
        if c == 32u8 || c == 9u8 {
            spec_break_scan(b, i + 1, e, marker, count)
        } else if !(c == 45u8 || c == 42u8 || c == 95u8) {
            None
        } else if marker matches Some(m) && m != c {
            None
        } else {
            spec_break_scan(b, i + 1, e, Some(c), count + 1)
        }
    }
}

/// The marker of the thematic break line `b[start..end]` (see
/// [`thematic_break_marker`]).
pub open spec fn spec_thematic_marker(b: Seq<u8>, start: int, end: int) -> Option<ThematicBreakMarker> {
    match crate::text::spec_trim_up_to_three(b.subrange(start, end)) {
        None => None,
        Some(o) => {
            let s = crate::mdx::spec_skip_ws_within(b, start + o, end);
            let e = crate::block_start::spec_trim_end(b, s, end);
            spec_break_scan(b, s, e, None, 0)
        },
    }
}

fn thematic_break_marker(b: &[u8], start: usize, end: usize) -> (r: Option<ThematicBreakMarker>)
    requires
        start <= end <= b@.len(),
    ensures
        r == spec_thematic_marker(b@, start as int, end as int),
{
    let k = trim_up_to_three_spaces(b, start, end)?;
    let s = skip_ws_within(b, k, end);
    let e = trim_end(b, s, end);
    let mut marker: Option<u8> = None;
    let mut count: usize = 0;
    let mut i = s;
    while i < e
        invariant
            s <= i <= e <= b@.len(),
            count <= i - s,
            spec_break_scan(b@, i as int, e as int, marker, count as nat) == spec_thematic_marker(
                b@,
                start as int,
                end as int,
            ),
        decreases e - i,
    {
        let c = b[i];
        if !(c == 32u8 || c == 9u8) {
            if !(c == 45u8 || c == 42u8 || c == 95u8) {
                return None;
            }
            match marker {
                Some(m) => {
                    if m != c {
                        return None;
                    }
                },
                None => {
                    marker = Some(c);
                },
            }
            count = count + 1;
        }
        i = i + 1;
    }
    if count < 3 {
        return None;
    }
    match marker {
        Some(45u8) => Some(ThematicBreakMarker::Dash),
        Some(42u8) => Some(ThematicBreakMarker::Asterisk),
        Some(_) => Some(ThematicBreakMarker::Underscore),
        None => None,
    }
}

fn parse_thematic_break(b: &[u8], line: Line, base: usize) -> (r: Option<Block>)
    requires
        line.start <= line.end <= b@.len(),
        base + b@.len() <= usize::MAX,
    ensures
        r matches Some(x) ==> crate::ast::spec_block_meta(x).span is Some,
        r matches Some(x) ==> x is ThematicBreak,
        r is Some <==> spec_thematic_marker(b@, line.start as int, line.end as int) is Some,
        r matches Some(Block::ThematicBreak(t)) ==> spec_thematic_marker(b@, line.start as int, line.end as int)
            == Some(t.marker) && (t.meta.span matches Some(sp) && sp.start == base + line.start && sp.end == base
            + line.end),
{
    let marker = thematic_break_marker(b, line.start, line.end)?;
    Some(
        Block::ThematicBreak(
            ThematicBreak { meta: NodeMeta::new(Some(Span::new(base + line.start, base + line.end))), marker },
        ),
    )
}

/// Each line ends before the next one starts.
pub open spec fn spec_lines_ordered(lines: Seq<Line>) -> bool {
    forall|i: int| 0 <= i < lines.len() - 1 ==> lines[i].end <= #[trigger] lines[i + 1].start
}

/// Every line lies inside a text of `n` bytes.
pub open spec fn spec_lines_within(lines: Seq<Line>, n: nat) -> bool {
    forall|i: int| 0 <= i < lines.len() ==> (#[trigger] lines[i]).start <= lines[i].end <= lines[i].end_with_eol <= n
}

/// The line `b[start..end]` opens a fenced code block: a fence of three or
/// more backticks or tildes (after the indentation the fence allows), whose
/// info string, for backticks, holds no backtick.
pub open spec fn spec_fence_opens(b: Seq<u8>, start: int, end: int, indented_code: bool) -> bool {
    match spec_fence_line(b, start, end, indented_code) {
        None => false,
        Some(k) => match spec_fence_start(b, k, end) {
            None => false,
            Some((marker, length)) => {
                let is = crate::mdx::spec_skip_ws_within(b, k + length, end);
                let ie = crate::block_start::spec_trim_end(b, is, end);
                !(marker == FenceMarker::Backtick && exists|j: int| is <= j < ie && b[j] == 96u8)
            },
        },
    }
}

fn parse_fenced_code(
    b: &[u8],
    lines: &[Line],
    index: usize,
    base: usize,
    options: &ParseContext,
) -> (r: Option<(Block, usize)>)
    requires
        index < lines@.len(),
        spec_lines_within(lines@, b@.len()),
        base + b@.len() <= usize::MAX,
    ensures
        r matches Some(x) ==> crate::ast::spec_block_meta(x.0).span is Some,
        r matches Some(x) ==> index < x.1 <= lines@.len() && x.0 is CodeBlock,
        r is Some <==> spec_fence_opens(b@, lines@[index as int].start as int, lines@[index as int].end as int, options.constructs.indented_code),
{
    let line = lines[index];
    let k = match fence_line(b, line.start, line.end, options) {
        Some(k) => k,
        None => {
            return None;
        },
    };
    let (marker, length) = match fence_start(b, k, line.end) {
        Some(x) => x,
        None => {
            return None;
        },
    };
    let opening_indent = leading_indent_columns(b, line.start, line.end);
    let is = skip_ws_within(b, k + length, line.end);
    let ie = trim_end(b, is, line.end);
    let backtick = marker == FenceMarker::Backtick;
    assert(backtick == (marker == FenceMarker::Backtick));
    if backtick && has_byte(b, is, ie, 96u8) {
        return None;
    }
    assert(spec_fence_opens(b@, line.start as int, line.end as int, options.constructs.indented_code));
    let info = if is == ie {
        None
    } else {
        let mut v: Vec<u8> = Vec::new();
        push_unescaped(&mut v, b, is, ie);
        Some(string_from_bytes(v.as_slice()))
    };
    let strip = if opening_indent > usize::MAX - 8 {
        usize::MAX - 8
    } else {
        opening_indent
    };
    let mut value: Vec<u8> = Vec::new();
    let mut content_lines: usize = 0;
    let mut cursor = index + 1;
    let n = lines.len();
    while cursor < n
        invariant
            n == lines@.len(),
            index < cursor <= n,
            spec_lines_within(lines@, b@.len()),
            base + b@.len() <= usize::MAX,
            strip <= usize::MAX - 8,
            line == lines@[index as int],
            spec_fence_opens(b@, line.start as int, line.end as int, options.constructs.indented_code),
        decreases n - cursor,
    {
        let l = lines[cursor];
        match fence_line(b, l.start, l.end, options) {
            Some(ck) => {
                if fence_close(b, ck, l.end, marker, length) {
                    let code = CodeBlock {
                        meta: NodeMeta::new(Some(Span::new(base + line.start, base + l.end_with_eol))),
                        kind: CodeBlockKind::Fenced { marker, length },
                        info,
                        value: string_from_bytes(value.as_slice()),
                    };
                    return Some((Block::CodeBlock(code), cursor + 1));
                }
            },
            None => {},
        }
        if content_lines > 0 {
            let vl = value.len();
            if vl > 0 && !(value[vl - 1] == 10u8 || value[vl - 1] == 13u8) {
                value.push(10u8);
            }
        }
        push_stripped_indent(&mut value, b, l.start, l.end, strip);
        push_range(&mut value, b, l.end, l.end_with_eol);
        if content_lines < usize::MAX {
            content_lines = content_lines + 1;
        }
        cursor = cursor + 1;
    }
    let last = lines[n - 1];
    let code = CodeBlock {
        meta: NodeMeta::new(Some(Span::new(base + line.start, base + last.end_with_eol))),
        kind: CodeBlockKind::Fenced { marker, length },
        info,
        value: string_from_bytes(value.as_slice()),
    };
    Some((Block::CodeBlock(code), n))
}

fn has_byte(b: &[u8], start: usize, end: usize, c: u8) -> (r: bool)
    requires
        start <= end <= b@.len(),
    ensures
        r == exists|k: int| start <= k < end && b@[k] == c,
{
    let mut k = start;
    while k < end
        invariant
            start <= k <= end <= b@.len(),
            forall|j: int| start <= j < k ==> b@[j] != c,
        decreases end - k,
    {
        if b[k] == c {
            return true;
        }
        k = k + 1;
    }
    false
}

/// Where the content of an indented code line starts: after four columns of
/// indentation, or `None` when the line is indented less.
pub open spec fn spec_code_prefix(b: Seq<u8>, k: int, end: int, column: int) -> Option<int>
    decreases end - k,
{
    if k < 0 || k >= end {
        None
    } else if b[k] == 32u8 {
        if column + 1 == 4 {
            Some(k + 1)
        } else {
            spec_code_prefix(b, k + 1, end, column + 1)
        }
    } else if b[k] == 9u8 {
        if column + 4 - column % 4 >= 4 {
            Some(k + 1)
        } else {
            spec_code_prefix(b, k + 1, end, column + 4 - column % 4)
        }
    } else {
        None
    }
}

fn strip_indented_code_prefix(b: &[u8], start: usize, end: usize) -> (r: Option<usize>)
    requires
        start <= end <= b@.len(),
    ensures
        r matches Some(k) ==> start < k <= end,
        r == (match spec_code_prefix(b@, start as int, end as int, 0) {
            Some(k) => Some(k as usize),
            None => None,
        }),
{
    let mut column: usize = 0;
    let mut k = start;
    while k < end
        invariant
            start <= k <= end <= b@.len(),
            column < 4,
            spec_code_prefix(b@, k as int, end as int, column as int) == spec_code_prefix(b@, start as int, end as int, 0),
        decreases end - k,
    {
        if b[k] == 32u8 {
            column = column + 1;
            if column == 4 {
                return Some(k + 1);
            }
        } else if b[k] == 9u8 {
            column = column + 4 - column % 4;
            if column >= 4 {
                return Some(k + 1);
            }
        } else {
            return None;
        }
        k = k + 1;
    }
    None
}

fn parse_indented_code(
    b: &[u8],
    lines: &[Line],
    index: usize,
    base: usize,
    options: &ParseContext,
) -> (r: Option<
    (Block, usize),
>)
    requires
        index < lines@.len(),
        spec_lines_within(lines@, b@.len()),
        base + b@.len() <= usize::MAX,
    ensures
        r matches Some(x) ==> crate::ast::spec_block_meta(x.0).span is Some,
        r matches Some(x) ==> index < x.1 <= lines@.len() && x.0 is CodeBlock,
        r is Some <==> options.constructs.indented_code && spec_code_prefix(
            b@,
            lines@[index as int].start as int,
            lines@[index as int].end as int,
            0,
        ) is Some,
{
    if !options.constructs.indented_code {
        return None;
    }
    let first = lines[index];
    if strip_indented_code_prefix(b, first.start, first.end).is_none() {
        return None;
    }
    let n = lines.len();
    let mut value: Vec<u8> = Vec::new();
    let mut cursor = index;
    let mut content_end = index;
    let mut content_end_len: usize = 0;
    while cursor < n
        invariant
            n == lines@.len(),
            index <= cursor <= n,
            index <= content_end < n,
            content_end_len <= value@.len(),
            spec_lines_within(lines@, b@.len()),
            base + b@.len() <= usize::MAX,
            cursor == index ==> spec_code_prefix(b@, lines@[index as int].start as int, lines@[index as int].end as int, 0) is Some,
        ensures
            index < cursor <= n,
        decreases n - cursor,
    {
        let l = lines[cursor];
        match strip_indented_code_prefix(b, l.start, l.end) {
            Some(k) => {
                let vl = value.len();
                if vl > 0 && !(value[vl - 1] == 10u8 || value[vl - 1] == 13u8) {
                    value.push(10u8);
                }
                push_range(&mut value, b, k, l.end);
                push_range(&mut value, b, l.end, l.end_with_eol);
                if !is_blank(b, k, l.end) {
                    content_end = cursor;
                    content_end_len = value.len();
                }
                cursor = cursor + 1;
            },
            None => {
                if !is_blank(b, l.start, l.end) {
                    break;
                }
                let vl = value.len();
                if vl > 0 && !(value[vl - 1] == 10u8 || value[vl - 1] == 13u8) {
                    value.push(10u8);
                }
                push_range(&mut value, b, l.end, l.end_with_eol);
                cursor = cursor + 1;
            },
        }
    }
    if cursor == index {
        return None;
    }
    let kept = copy_range(value.as_slice(), 0, content_end_len);
    let code = CodeBlock {
        meta: NodeMeta::new(Some(Span::new(base + first.start, base + lines[content_end].end_with_eol))),
        kind: CodeBlockKind::Indented,
        info: None,
        value: string_from_bytes(kept.as_slice()),
    };
    Some((Block::CodeBlock(code), cursor))
}

/// Whether the line `b[start..end]` holds `needle`.
fn line_contains(b: &[u8], start: usize, end: usize, needle: &[u8]) -> (r: bool)
    requires
        start <= end <= b@.len(),
{
    let line = copy_range(b, 0, end);
    match crate::text::find_sub(line.as_slice(), start, needle) {
        Some(_) => true,
        None => false,
    }
}

/// Whether `b[k..k + name.len()]` is `name` (lowercase) in any ASCII case.
fn ci_match(b: &[u8], k: usize, end: usize, name: &[u8]) -> (r: bool)
    requires
        k <= end <= b@.len(),
    ensures
        r ==> k + name@.len() <= end,
        r == (k + name@.len() <= end && crate::text::spec_starts_with_ci(b@, k as int, name@)),
{
    let m = name.len();
    if end - k < m {
        return false;
    }
    let mut j: usize = 0;
    while j < m
        invariant
            j <= m == name@.len(),
            k + m <= end <= b@.len(),
            forall|i: int| 0 <= i < j ==> crate::text::spec_ascii_lower(#[trigger] b@[k + i]) == name@[i],
        decreases m - j,
    {
        if ascii_lower(b[k + j]) != name[j] {
            return false;
        }
        j = j + 1;
    }
    true
}

/// Whether `c` is ASCII whitespace (space, tab, line feed, form feed, carriage return).
fn is_ascii_ws(c: u8) -> (r: bool)
    ensures
        r == (c == 32u8 || c == 9u8 || c == 10u8 || c == 12u8 || c == 13u8),
{
    c == 32u8 || c == 9u8 || c == 10u8 || c == 12u8 || c == 13u8
}

/// Whether a raw-text tag name closes at `k`: followed by `>`, or by ASCII
/// whitespace and then `>`.
pub open spec fn spec_ascii_ws_end(b: Seq<u8>, a: int, end: int) -> int
    decreases end - a,
{
    if 0 <= a < end && (b[a] == 32u8 || b[a] == 9u8 || b[a] == 10u8 || b[a] == 12u8 || b[a] == 13u8) {
        spec_ascii_ws_end(b, a + 1, end)
    } else {
        a
    }
}

fn raw_close_at(b: &[u8], k: usize, end: usize, name: &[u8]) -> (r: bool)
    requires
        k <= end <= b@.len(),
    ensures
        r == spec_raw_close_name(b@, k as int, end as int, name@),
{
    if !ci_match(b, k, end, name) {
        return false;
    }
    let te = k + name.len();
    if te < end && b[te] == 62u8 {
        return true;
    }
    if te < end && is_ascii_ws(b[te]) {
        let mut a = te;
        while a < end && is_ascii_ws(b[a])
            invariant
                te <= a <= end <= b@.len(),
                spec_ascii_ws_end(b@, a as int, end as int) == spec_ascii_ws_end(b@, te as int, end as int),
                a > te || a == te,
            decreases end - a,
        {
            a = a + 1;
        }
        return a < end && b[a] == 62u8;
    }
    false
}

/// Whether the closing tag of a raw HTML block (`</script>`, `</pre>`,
/// `</style>` or `</textarea>`) starts at `c`, before `end`.
pub open spec fn spec_raw_closing_tag_at(b: Seq<u8>, c: int, end: int) -> bool {
    b[c] == 60u8 && end - c > 2 && b[c + 1] == 47u8 && {
        let ts = c + 2;
        spec_raw_close_name(b, ts, end, seq![115u8, 99u8, 114u8, 105u8, 112u8, 116u8]) || spec_raw_close_name(
            b,
            ts,
            end,
            seq![112u8, 114u8, 101u8],
        ) || spec_raw_close_name(b, ts, end, seq![115u8, 116u8, 121u8, 108u8, 101u8]) || spec_raw_close_name(
            b,
            ts,
            end,
            seq![116u8, 101u8, 120u8, 116u8, 97u8, 114u8, 101u8, 97u8],
        )
    }
}

/// Whether `name` (in any case) followed by `>`, or by ASCII whitespace and
/// `>`, starts at `k`, before `end`.
pub open spec fn spec_raw_close_name(b: Seq<u8>, k: int, end: int, name: Seq<u8>) -> bool {
    k + name.len() <= end && crate::text::spec_starts_with_ci(b, k, name) && {
        let te = k + name.len();
        te < end && (b[te] == 62u8 || {
            let a = spec_ascii_ws_end(b, te, end);
            a > te && a < end && b[a] == 62u8
        })
    }
}

/// Whether the line holds a raw-text closing tag: `</`, one of `script`,
/// `pre`, `style`, `textarea` (any case), optional whitespace, `>`.
fn line_contains_raw_closing_tag(b: &[u8], start: usize, end: usize) -> (r: bool)
    requires
        start <= end <= b@.len(),
    ensures
        r == exists|c: int| start <= c < end && #[trigger] spec_raw_closing_tag_at(b@, c, end as int),
{
    let mut cursor = start;
    while cursor < end
        invariant
            start <= cursor <= end <= b@.len(),
            forall|c: int| start <= c < cursor ==> !#[trigger] spec_raw_closing_tag_at(b@, c, end as int),
        decreases end - cursor,
    {
        assert(spec_raw_closing_tag_at(b@, cursor as int, end as int) ==> exists|c: int|
            start <= c < end && #[trigger] spec_raw_closing_tag_at(b@, c, end as int));
        if b[cursor] == 60u8 && end - cursor > 2 && b[cursor + 1] == 47u8 {
            let ts = cursor + 2;
            if raw_close_at(b, ts, end, &[115u8, 99u8, 114u8, 105u8, 112u8, 116u8]) || raw_close_at(
                b,
                ts,
                end,
                &[112u8, 114u8, 101u8],
            ) || raw_close_at(b, ts, end, &[115u8, 116u8, 121u8, 108u8, 101u8]) || raw_close_at(
                b,
                ts,
                end,
                &[116u8, 101u8, 120u8, 116u8, 97u8, 114u8, 101u8, 97u8],
            ) {
                return true;
            }
        }
        cursor = cursor + 1;
    }
    false
}

/// Appends `b[start..end]` as a new line of `value` (a `\n` before it unless
/// `value` is empty).
fn push_line(value: &mut Vec<u8>, b: &[u8], start: usize, end: usize)
    requires
        start <= end <= b@.len(),
{
    if value.len() > 0 {
        value.push(10u8);
    }
    push_range(value, b, start, end);
}

fn parse_html_block(
    b: &[u8],
    lines: &[Line],
    index: usize,
    base: usize,
    options: &ParseContext,
) -> (r: Option<(Block, usize)>)
    requires
        index < lines@.len(),
        spec_lines_within(lines@, b@.len()),
        base + b@.len() <= usize::MAX,
    ensures
        r matches Some(x) ==> crate::ast::spec_block_meta(x.0).span is Some,
        r matches Some(x) ==> index < x.1 <= lines@.len() && x.0 is HtmlBlock,
{
    if !options.constructs.html_block {
        return None;
    }
    let first = lines[index];
    let k = trim_up_to_three_spaces(b, first.start, first.end)?;
    let kind = html_block_start(b, k, first.end)?;
    let n = lines.len();
    let mut value: Vec<u8> = Vec::new();
    let mut cursor = index;
    match kind {
        HtmlBlockKind::RawTag => {
            while cursor < n
                invariant
                    n == lines@.len(),
                    index <= cursor <= n,
                    spec_lines_within(lines@, b@.len()),
                    base + b@.len() <= usize::MAX,
                decreases n - cursor,
            {
                let l = lines[cursor];
                push_line(&mut value, b, l.start, l.end);
                cursor = cursor + 1;
                if line_contains_raw_closing_tag(b, l.start, l.end) {
                    break;
                }
            }
        },
        HtmlBlockKind::BlockTag | HtmlBlockKind::UntilBlank => {
            while cursor < n && !is_blank(b, lines[cursor].start, lines[cursor].end)
                invariant
                    n == lines@.len(),
                    index <= cursor <= n,
                    spec_lines_within(lines@, b@.len()),
                    base + b@.len() <= usize::MAX,
                decreases n - cursor,
            {
                let l = lines[cursor];
                push_line(&mut value, b, l.start, l.end);
                cursor = cursor + 1;
            }
        },
        _ => {
            let end_marker: Vec<u8> = match kind {
                HtmlBlockKind::Comment => vec![45u8, 45u8, 62u8],
                HtmlBlockKind::Processing => vec![63u8, 62u8],
                HtmlBlockKind::Cdata => vec![93u8, 93u8, 62u8],
                _ => vec![62u8],
            };
            while cursor < n
                invariant
                    n == lines@.len(),
                    index <= cursor <= n,
                    spec_lines_within(lines@, b@.len()),
                    base + b@.len() <= usize::MAX,
                decreases n - cursor,
            {
                let l = lines[cursor];
                push_line(&mut value, b, l.start, l.end);
                cursor = cursor + 1;
                if line_contains(b, l.start, l.end, end_marker.as_slice()) {
                    break;
                }
            }
        },
    }
    if cursor == index {
        return None;
    }
    let html = HtmlBlock {
        meta: NodeMeta::new(Some(Span::new(base + first.start, base + lines[cursor - 1].end_with_eol))),
        value: string_from_bytes(value.as_slice()),
    };
    Some((Block::HtmlBlock(html), cursor))
}

/// The setext underline depth of the run `b[s..e]`: one repeated `=` (1) or `-` (2).
pub open spec fn spec_underline_run(b: Seq<u8>, s: int, e: int) -> Option<u8> {
    if s >= e || !(b[s] == 61u8 || b[s] == 45u8) {
        None
    } else if exists|i: int| s <= i < e && b[i] != b[s] {
        None
    } else if b[s] == 61u8 {
        Some(1u8)
    } else {
        Some(2u8)
    }
}

/// The depth of a setext underline on `b[start..end]`.
pub open spec fn spec_setext_depth(b: Seq<u8>, start: int, end: int) -> Option<u8> {
    match crate::text::spec_trim_up_to_three(b.subrange(start, end)) {
        None => None,
        Some(o) => {
            let s = crate::mdx::spec_skip_ws_within(b, start + o, end);
            spec_underline_run(b, s, crate::block_start::spec_trim_end(b, s, end))
        },
    }
}

/// The depth of a setext underline: `=`s (1) or `-`s (2) alone on the line,
/// after at most three columns of indentation and with whitespace trimmed.
fn setext_underline_depth(b: &[u8], start: usize, end: usize) -> (r: Option<u8>)
    requires
        start <= end <= b@.len(),
    ensures
        r == spec_setext_depth(b@, start as int, end as int),
        r matches Some(d) ==> d == 1 || d == 2,
{
    let k = trim_up_to_three_spaces(b, start, end)?;
    let s = skip_ws_within(b, k, end);
    let e = trim_end(b, s, end);
    assert(spec_setext_depth(b@, start as int, end as int) == spec_underline_run(b@, s as int, e as int));
    if s == e {
        return None;
    }
    let c = b[s];
    if !(c == 61u8 || c == 45u8) {
        return None;
    }
    let mut i = s;
    while i < e
        invariant
            s <= i <= e <= b@.len(),
            c == b@[s as int],
            forall|j: int| s <= j < i ==> b@[j] == c,
            spec_setext_depth(b@, start as int, end as int) == spec_underline_run(b@, s as int, e as int),
        decreases e - i,
    {
        if b[i] != c {
            assert(b@[i as int] != b@[s as int]);
            return None;
        }
        i = i + 1;
    }
    if c == 61u8 {
        Some(1)
    } else {
        Some(2)
    }
}

/// Whether the digits `b[k..d]` spell the number 1: zeros, then a final `1`.
pub open spec fn spec_is_one(b: Seq<u8>, k: int, d: int) -> bool {
    d > k && b[d - 1] == 49u8 && forall|q: int| k <= q < d - 1 ==> b[q] == 48u8
}

/// Whether a list marker on `b[start..end]` can interrupt a paragraph: its
/// content is not blank, and an ordered one is numbered 1.
pub open spec fn spec_marker_interrupts(b: Seq<u8>, start: int, end: int) -> bool {
    crate::block_start::spec_is_list_marker_line(b, start, end) && match crate::text::spec_trim_up_to_three(
        b.subrange(start, end),
    ) {
        Some(o) => {
            let k = start + o;
            k < end && if b[k] == 45u8 || b[k] == 42u8 || b[k] == 43u8 {
                !spec_is_blank(b, k + 1, end)
            } else {
                let d = k + crate::block_start::spec_digit_run(b, k, end);
                d < end && !spec_is_blank(b, d + 1, end) && spec_is_one(b, k, d)
            }
        },
        None => false,
    }
}

/// Whether a list marker on the line could interrupt a paragraph: its content
/// is not blank, and an ordered one starts at 1.
fn list_marker_can_interrupt_paragraph(b: &[u8], start: usize, end: usize) -> (r: bool)
    requires
        start <= end <= b@.len(),
    ensures
        r == spec_marker_interrupts(b@, start as int, end as int),
{
    if !is_list_marker_line(b, start, end) {
        return false;
    }
    let k = match trim_up_to_three_spaces(b, start, end) {
        Some(k) => k,
        None => {
            return false;
        },
    };
    if k >= end {
        return false;
    }
    let c = b[k];
    if c == 45u8 || c == 42u8 || c == 43u8 {
        return !is_blank(b, k + 1, end);
    }
    let mut d = k;
    let mut value_is_one = true;
    let mut seen_one = false;
    while d < end && b[d] >= 48u8 && b[d] <= 57u8
        invariant
            k <= d <= end <= b@.len(),
            crate::block_start::spec_digit_run(b@, k as int, end as int) == (d - k) + crate::block_start::spec_digit_run(
                b@,
                d as int,
                end as int,
            ),
            (value_is_one && !seen_one) <==> (forall|q: int| k <= q < d ==> b@[q] == 48u8),
            (value_is_one && seen_one) <==> spec_is_one(b@, k as int, d as int),
        decreases end - d,
    {
        if b[d] == 49u8 {
            if seen_one {
                value_is_one = false;
            }
            seen_one = true;
        } else if b[d] != 48u8 {
            value_is_one = false;
        } else if seen_one {
            value_is_one = false;
        }
        d = d + 1;
    }
    if d >= end {
        return false;
    }
    !is_blank(b, d + 1, end) && value_is_one && seen_one
}

/// Whether the line `b[start..end]` starts a block that ends a paragraph
/// (see [`likely_block_start`]).
pub open spec fn spec_likely_block_start(b: Seq<u8>, start: int, end: int, c: Constructs) -> bool {
    match crate::text::spec_trim_up_to_three(b.subrange(start, end)) {
        None => false,
        Some(o) => {
            let k = start + o;
            let line = b.subrange(0, end);
            let first = if k < end {
                b[k]
            } else {
                0u8
            };
            first == 35u8 || first == 62u8 || crate::text::spec_starts_with_at(line, k, seq![96u8, 96u8, 96u8])
                || crate::text::spec_starts_with_at(line, k, seq![126u8, 126u8, 126u8])
                || spec_marker_interrupts(b, start, end) || spec_thematic_marker(b, start, end) is Some || (
            c.html_block && spec_interrupting_html_block(b, start, end)) || (c.directive_container
                && crate::text::spec_starts_with_at(line, k, seq![58u8, 58u8, 58u8])) || (c.directive_leaf
                && crate::text::spec_starts_with_at(line, k, seq![58u8, 58u8])) || (c.math_block
                && spec_math_fence_length(b, k, end) is Some) || (c.footnote_definition
                && spec_footnote_definition_start(b.subrange(k, end)))
        },
    }
}

/// Whether a line would start a block and so ends a paragraph.
fn likely_block_start(b: &[u8], start: usize, end: usize, options: &ParseContext) -> (r: bool)
    requires
        start <= end <= b@.len(),
    ensures
        r == spec_likely_block_start(b@, start as int, end as int, options.constructs),
{
    let k = match trim_up_to_three_spaces(b, start, end) {
        Some(k) => k,
        None => {
            return false;
        },
    };
    let first = if k < end {
        b[k]
    } else {
        0u8
    };
    first == 35u8 || first == 62u8 || starts_with_at(copy_range(b, 0, end).as_slice(), k, &[96u8, 96u8, 96u8])
        || starts_with_at(copy_range(b, 0, end).as_slice(), k, &[126u8, 126u8, 126u8])
        || list_marker_can_interrupt_paragraph(b, start, end) || thematic_break_marker(b, start, end).is_some() || (
    options.constructs.html_block && line_starts_interrupting_html_block(b, start, end)) || (
    options.constructs.directive_container && starts_with_at(copy_range(b, 0, end).as_slice(), k, &[58u8, 58u8, 58u8]))
        || (options.constructs.directive_leaf && starts_with_at(copy_range(b, 0, end).as_slice(), k, &[58u8, 58u8]))
        || (options.constructs.math_block && math_block_fence_length(b, k, end).is_some()) || (
    options.constructs.footnote_definition && line_starts_footnote_definition(b, k, end))
}

/// Whether the text `t` starts a footnote definition `[^label]:`.
pub open spec fn spec_footnote_definition_start(t: Seq<u8>) -> bool {
    t.len() >= 2 && t[0] == 91u8 && t[1] == 94u8 && match crate::delimited::spec_unescaped_close_bracket(t, 2) {
        Some(close) => close + 1 < t.len() && t[close + 1] == 58u8 && 2 < close && crate::links::spec_within_limit_from(
            t,
            2,
            close as int,
            0,
        ) && crate::delimited::spec_no_ws_from(t, 2, close as int),
        None => false,
    }
}

/// Whether `b[k..end]` starts a footnote definition `[^label]:`.
fn line_starts_footnote_definition(b: &[u8], k: usize, end: usize) -> (r: bool)
    requires
        k <= end <= b@.len(),
    ensures
        r == spec_footnote_definition_start(b@.subrange(k as int, end as int)),
{
    let text = copy_range(b, k, end);
    let tl = text.len();
    if !(tl >= 2 && text[0] == 91u8 && text[1] == 94u8) {
        return false;
    }
    match find_footnote_reference_label_end(text.as_slice(), 2) {
        Some(close) => close + 1 < tl && text[close + 1] == 58u8 && is_footnote_label(text.as_slice(), 2, close),
        None => false,
    }
}

/// Whether an HTML block that may interrupt a paragraph starts on
/// `b[start..end]`.
pub open spec fn spec_interrupting_html_block(b: Seq<u8>, start: int, end: int) -> bool {
    match crate::text::spec_trim_up_to_three(b.subrange(start, end)) {
        Some(o) => match crate::block_start::spec_html_block_start(b, start + o, end) {
            Some(kind) => kind != HtmlBlockKind::UntilBlank,
            None => false,
        },
        None => false,
    }
}

fn line_starts_interrupting_html_block(b: &[u8], start: usize, end: usize) -> (r: bool)
    requires
        start <= end <= b@.len(),
    ensures
        r == spec_interrupting_html_block(b@, start as int, end as int),
{
    match trim_up_to_three_spaces(b, start, end) {
        Some(k) => match html_block_start(b, k, end) {
            Some(HtmlBlockKind::UntilBlank) => false,
            Some(_) => true,
            None => false,
        },
        None => false,
    }
}

/// Appends the line without its leading spaces and tabs (a `\n` before it
/// unless `value` is empty).
fn push_trimmed_line(value: &mut Vec<u8>, b: &[u8], start: usize, end: usize)
    requires
        start <= end <= b@.len(),
{
    let s = skip_spaces_tabs(b, start, end);
    push_line(value, b, s, end);
}

/// The setext underline that a paragraph's lines from `u` on meet before a
/// blank line or another block: its depth and its line.
pub open spec fn spec_setext_scan(b: Seq<u8>, lines: Seq<Line>, u: int, c: Constructs) -> Option<(u8, int)>
    decreases lines.len() - u,
{
    if u < 0 || u >= lines.len() {
        None
    } else {
        let l = lines[u];
        let underline = if l.lazy {
            None
        } else {
            spec_setext_depth(b, l.start as int, l.end as int)
        };
        match underline {
            Some(d) => Some((d, u)),
            None => if spec_is_blank(b, l.start as int, l.end as int) || spec_likely_block_start(
                b,
                l.start as int,
                l.end as int,
                c,
            ) {
                None
            } else {
                spec_setext_scan(b, lines, u + 1, c)
            },
        }
    }
}

fn parse_setext_heading(
    b: &[u8],
    lines: &[Line],
    index: usize,
    base: usize,
    options: &ParseContext,
    diagnostics: &mut Vec<Diagnostic>,
) -> (r: Option<
    (Block, usize),
>)
    requires
        index < lines@.len(),
        spec_lines_within(lines@, b@.len()),
        base + b@.len() <= usize::MAX,
    ensures
        r matches Some(x) ==> crate::ast::spec_block_meta(x.0).span is Some,
        spec_diagnostics_off(options.constructs) ==> final(diagnostics)@ == old(diagnostics)@,
        r matches Some(x) ==> index < x.1 <= lines@.len() && x.0 is Heading,
        r is Some <==> (index + 1 < lines@.len() && !spec_is_blank(
            b@,
            lines@[index as int].start as int,
            lines@[index as int].end as int,
        ) && spec_setext_scan(b@, lines@, index + 1, options.constructs) is Some),
        r matches Some(x) ==> spec_setext_scan(b@, lines@, index + 1, options.constructs) == Some(
            (x.0->Heading_0.depth, x.1 - 1),
        ) && x.0->Heading_0.kind == HeadingKind::Setext,
{
    let ghost d0 = diagnostics@;
    let n = lines.len();
    if index + 1 >= n || is_blank(b, lines[index].start, lines[index].end) {
        return None;
    }
    let mut u = index + 1;
    while u < n
        invariant
            spec_diagnostics_off(options.constructs) ==> diagnostics@ == d0,
            d0 == old(diagnostics)@,
            n == lines@.len(),
            index < u <= n,
            spec_lines_within(lines@, b@.len()),
            base + b@.len() <= usize::MAX,
            index + 1 < lines@.len(),
            !spec_is_blank(b@, lines@[index as int].start as int, lines@[index as int].end as int),
            spec_setext_scan(b@, lines@, u as int, options.constructs) == spec_setext_scan(
                b@,
                lines@,
                index + 1,
                options.constructs,
            ),
        decreases n - u,
    {
        let l = lines[u];
        let underline = if l.lazy {
            None
        } else {
            setext_underline_depth(b, l.start, l.end)
        };
        match underline {
            Some(depth) => {
                let mut value: Vec<u8> = Vec::new();
                let mut i = index;
                while i < u
                    invariant
                        spec_diagnostics_off(options.constructs) ==> diagnostics@ == d0,
                        d0 == old(diagnostics)@,
                        index <= i <= u < n == lines@.len(),
                        spec_lines_within(lines@, b@.len()),
                        base + b@.len() <= usize::MAX,
                    decreases u - i,
                {
                    push_trimmed_line(&mut value, b, lines[i].start, lines[i].end);
                    i = i + 1;
                }
                let at = base + lines[index].start;
                let children = if at <= usize::MAX - value.len() {
                    parse_inlines(value.as_slice(), at, options, diagnostics)
                } else {
                    Vec::new()
                };
                let heading = Heading {
                    meta: NodeMeta::new(Some(Span::new(base + lines[index].start, base + l.end))),
                    depth,
                    kind: HeadingKind::Setext,
                    children,
                };
                return Some((Block::Heading(heading), u + 1));
            },
            None => {},
        }
        if is_blank(b, l.start, l.end) || likely_block_start(b, l.start, l.end, options) {
            return None;
        }
        u = u + 1;
    }
    None
}

fn parse_paragraph(
    b: &[u8],
    lines: &[Line],
    index: usize,
    base: usize,
    options: &ParseContext,
    diagnostics: &mut Vec<Diagnostic>,
) -> (r: (Block, usize))
    requires
        index < lines@.len(),
        spec_lines_within(lines@, b@.len()),
        base + b@.len() <= usize::MAX,
    ensures
        crate::ast::spec_block_meta(r.0).span is Some,
        spec_diagnostics_off(options.constructs) ==> final(diagnostics)@ == old(diagnostics)@,
        index < r.1 <= lines@.len(),
        r.0 is Paragraph,
{
    let ghost d0 = diagnostics@;
    let n = lines.len();
    let start = lines[index].start;
    let mut value: Vec<u8> = Vec::new();
    let mut cursor = index;
    while cursor < n
        invariant
            spec_diagnostics_off(options.constructs) ==> diagnostics@ == d0,
            d0 == old(diagnostics)@,
            n == lines@.len(),
            index <= cursor <= n,
            spec_lines_within(lines@, b@.len()),
            base + b@.len() <= usize::MAX,
        decreases n - cursor,
    {
        let l = lines[cursor];
        if is_blank(b, l.start, l.end) {
            break;
        }
        if cursor > index && !l.lazy && (table_can_start(b, lines, cursor, options) || likely_block_start(
            b,
            l.start,
            l.end,
            options,
        )) {
            break;
        }
        push_trimmed_line(&mut value, b, l.start, l.end);
        cursor = cursor + 1;
    }
    if cursor == index {
        cursor = index + 1;
    }
    let end = lines[cursor - 1].end;
    let children = if base + start <= usize::MAX - value.len() {
        parse_inlines(value.as_slice(), base + start, options, diagnostics)
    } else {
        Vec::new()
    };
    (
        Block::Paragraph(Paragraph { meta: NodeMeta::new(Some(Span::new(base + start, base + end))), children }),
        cursor,
    )
}

// ---------------------------------------------------------------------------
// Directives.
// ---------------------------------------------------------------------------

/// A container directive's closing fence on `b[k..end]`: at least `min_len`
/// colons, then only whitespace.
fn directive_container_closing_fence(b: &[u8], k: usize, end: usize, min_len: usize) -> (r: bool)
    requires
        k <= end <= b@.len(),
{
    let run = colon_run(b, k, end);
    run >= min_len && is_blank(b, k + run, end)
}

/// The label of a directive, parsed as inline content, or nothing.
fn directive_label(
    b: &[u8],
    label: Option<(usize, usize)>,
    base: usize,
    options: &ParseContext,
    diagnostics: &mut Vec<Diagnostic>,
) -> (r: Vec<Inline>)
    requires
        base + b@.len() <= usize::MAX,
        label matches Some(l) ==> l.0 <= l.1 <= b@.len(),
    ensures
        spec_diagnostics_off(options.constructs) ==> final(diagnostics)@ == old(diagnostics)@,
{
    match label {
        Some((s, e)) => {
            let source = copy_range(b, s, e);
            parse_inlines(source.as_slice(), base + s, options, diagnostics)
        },
        None => Vec::new(),
    }
}

/// Parses a container directive at line `index`: `:::name[label]{attrs}`, the
/// lines up to a closing fence at least as long (nested containers keep
/// their own fences), parsed as blocks. An invalid name reports a diagnostic
/// and is no directive; a missing closing fence reports one and runs to the
/// end of input.
fn parse_container_directive(
    b: &[u8],
    lines: &[Line],
    index: usize,
    base: usize,
    options: &ParseContext,
    depth: usize,
    diagnostics: &mut Vec<Diagnostic>,
) -> (r: Option<(Block, usize)>)
    requires
        index < lines@.len(),
        spec_lines_within(lines@, b@.len()),
        base + b@.len() <= usize::MAX,
    ensures
        r matches Some(x) ==> crate::ast::spec_block_meta(x.0).span is Some,
        spec_diagnostics_off(options.constructs) ==> final(diagnostics)@ == old(diagnostics)@,
        r matches Some(x) ==> index < x.1 <= lines@.len() && x.0 is ContainerDirective,
    decreases depth, 0nat,
{
    if !options.constructs.directive_container {
        return None;
    }
    let n = lines.len();
    let line = lines[index];
    let k = trim_up_to_three_spaces(b, line.start, line.end)?;
    let fence_len = colon_run(b, k, line.end);
    if fence_len < 3 {
        return None;
    }
    let opener = match parse_directive_opener(b, k + fence_len, line.end) {
        Some(o) => o,
        None => {
            diagnostics.push(
                Diagnostic::new(
                    DiagnosticSeverity::Error,
                    DiagnosticCode::InvalidDirectiveName,
                    Span::new(base + line.start, base + line.end),
                    "container directive must have a valid name",
                ),
            );
            return None;
        },
    };
    let mut content: Vec<u8> = Vec::new();
    let mut cursor = index + 1;
    let mut nested: Vec<usize> = Vec::new();
    while cursor < n
        invariant
            n == lines@.len(),
            index < cursor <= n,
            spec_lines_within(lines@, b@.len()),
            base + b@.len() <= usize::MAX,
            line == lines@[index as int],
            options.constructs.directive_container,
            opener.label matches Some(l) ==> l.0 <= l.1 <= b@.len(),
        decreases n - cursor,
    {
        let l = lines[cursor];
        match trim_up_to_three_spaces(b, l.start, l.end) {
            Some(t) => {
                let nl = nested.len();
                if nl > 0 {
                    if directive_container_closing_fence(b, t, l.end, nested[nl - 1]) {
                        nested.pop();
                        push_line(&mut content, b, l.start, l.end);
                        cursor = cursor + 1;
                        continue;
                    }
                } else if directive_container_closing_fence(b, t, l.end, fence_len) {
                    let label = directive_label(b, opener.label, base, options, diagnostics);
                    let child_base = base + lines[index + 1].start;
                    let child_lines = collect_lines(content.as_slice());
                    let children = if depth > 0 && child_base <= usize::MAX - content.len() {
                        parse_blocks_from_lines(
                            content.as_slice(),
                            child_lines.as_slice(),
                            child_base,
                            false,
                            options,
                            depth - 1,
                            diagnostics,
                        )
                    } else {
                        Vec::new()
                    };
                    let directive = ContainerDirective {
                        meta: NodeMeta::new(Some(Span::new(base + line.start, base + l.end_with_eol))),
                        name: string_from_bytes(opener.name.as_slice()),
                        label,
                        attributes: opener.attributes,
                        children,
                    };
                    return Some((Block::ContainerDirective(directive), cursor + 1));
                }
                let run = colon_run(b, t, l.end);
                if run >= 3 && parse_directive_opener(b, t + run, l.end).is_some() {
                    nested.push(run);
                }
            },
            None => {},
        }
        push_line(&mut content, b, l.start, l.end);
        cursor = cursor + 1;
    }
    diagnostics.push(
        Diagnostic::new(
            DiagnosticSeverity::Error,
            DiagnosticCode::UnclosedDirectiveContainer,
            Span::new(base + line.start, base + line.end),
            "container directive is missing a closing fence",
        ),
    );
    let label = directive_label(b, opener.label, base, options, diagnostics);
    let child_base = if index + 1 < n {
        base + lines[index + 1].start
    } else {
        base + line.end
    };
    let child_lines = collect_lines(content.as_slice());
    let children = if depth > 0 && child_base <= usize::MAX - content.len() {
        parse_blocks_from_lines(content.as_slice(), child_lines.as_slice(), child_base, false, options, depth - 1, diagnostics)
    } else {
        Vec::new()
    };
    let last = lines[n - 1];
    let directive = ContainerDirective {
        meta: NodeMeta::new(Some(Span::new(base + line.start, base + last.end_with_eol))),
        name: string_from_bytes(opener.name.as_slice()),
        label,
        attributes: opener.attributes,
        children,
    };
    Some((Block::ContainerDirective(directive), n))
}

/// Whether exactly two colons start at `k` (a leaf directive's fence).
pub open spec fn spec_leaf_fence(b: Seq<u8>, k: int, end: int) -> bool {
    k + 2 <= end && b[k] == 58u8 && b[k + 1] == 58u8 && !(k + 2 < end && b[k + 2] == 58u8)
}

/// Parses a leaf directive `::name[label]{attrs}` on a line. An invalid name
/// reports a diagnostic and is no directive.
fn parse_leaf_directive(
    b: &[u8],
    line: Line,
    base: usize,
    options: &ParseContext,
    diagnostics: &mut Vec<Diagnostic>,
) -> (r: Option<Block>)
    requires
        line.start <= line.end <= b@.len(),
        base + b@.len() <= usize::MAX,
    ensures
        r matches Some(x) ==> crate::ast::spec_block_meta(x).span is Some,
        spec_diagnostics_off(options.constructs) ==> final(diagnostics)@ == old(diagnostics)@,
        r matches Some(x) ==> x is LeafDirective,
        r is Some <==> options.constructs.directive_leaf && ({
            let k = crate::mdx::spec_skip_ws_within(b@, line.start as int, line.end as int);
            spec_leaf_fence(b@, k, line.end as int) && crate::directive::spec_opener_ok(b@, k + 2, line.end as int)
        }),
        r matches Some(x) ==> {
            let k = crate::mdx::spec_skip_ws_within(b@, line.start as int, line.end as int);
            &&& x->LeafDirective_0.name@ == crate::text::spec_lossy_utf8(
                b@.subrange(k + 2, crate::directive::spec_name_end(b@, k + 2, line.end as int)),
            )
            &&& x->LeafDirective_0.meta.span is Some
            &&& x->LeafDirective_0.meta.span->0.start == base + line.start
            &&& x->LeafDirective_0.meta.span->0.end == base + line.end
        },
{
    if !options.constructs.directive_leaf {
        return None;
    }
    let k = skip_all_ws(b, line.start, line.end);
    let run = colon_run(b, k, line.end);
    if run != 2 {
        return None;
    }
    let opener = match parse_directive_opener(b, k + 2, line.end) {
        Some(o) => o,
        None => {
            diagnostics.push(
                Diagnostic::new(
                    DiagnosticSeverity::Error,
                    DiagnosticCode::InvalidDirectiveName,
                    Span::new(base + line.start, base + line.end),
                    "leaf directive must have a valid name",
                ),
            );
            return None;
        },
    };
    let label = directive_label(b, opener.label, base, options, diagnostics);
    Some(
        Block::LeafDirective(
            LeafDirective {
                meta: NodeMeta::new(Some(Span::new(base + line.start, base + line.end))),
                name: string_from_bytes(opener.name.as_slice()),
                label,
                attributes: opener.attributes,
            },
        ),
    )
}

// ---------------------------------------------------------------------------
// Footnote definitions.
// ---------------------------------------------------------------------------

/// Where `b[start..end]` continues after one level of indentation (four
/// spaces or a tab), if it is indented that far.
fn strip_indent_continuation(b: &[u8], start: usize, end: usize) -> (r: Option<usize>)
    requires
        start <= end <= b@.len(),
    ensures
        r matches Some(k) ==> start < k <= end,
        r == (if end - start >= 4 && b@[start as int] == 32u8 && b@[start + 1] == 32u8 && b@[start + 2] == 32u8
            && b@[start + 3] == 32u8 {
            Some((start + 4) as usize)
        } else if end > start && b@[start as int] == 9u8 {
            Some((start + 1) as usize)
        } else {
            None
        }),
{
    if end - start >= 4 && b[start] == 32u8 && b[start + 1] == 32u8 && b[start + 2] == 32u8 && b[start + 3] == 32u8 {
        Some(start + 4)
    } else if end > start && b[start] == 9u8 {
        Some(start + 1)
    } else {
        None
    }
}

/// Whether a paragraph would stay open after this text: it is not blank and
/// does not start another block.
fn paragraph_stays_open(b: &[u8], start: usize, end: usize, options: &ParseContext) -> (r: bool)
    requires
        start <= end <= b@.len(),
{
    !is_blank(b, start, end) && !likely_block_start(b, start, end, options)
}

/// The first line at or after `index` that is not blank.
fn next_nonblank_line(b: &[u8], lines: &[Line], index: usize) -> (r: usize)
    requires
        spec_lines_within(lines@, b@.len()),
    ensures
        index <= r,
        r < lines@.len() || r == index || r == lines@.len(),
        index >= lines@.len() ==> r == index,
        index < lines@.len() ==> r <= lines@.len() && (forall|k: int|
            index <= k < r ==> spec_is_blank(b@, #[trigger] lines@[k].start as int, lines@[k].end as int)) && (r
            < lines@.len() ==> !spec_is_blank(b@, lines@[r as int].start as int, lines@[r as int].end as int)),
{
    let n = lines.len();
    if index >= n {
        return index;
    }
    let mut k = index;
    while k < n && is_blank(b, lines[k].start, lines[k].end)
        invariant
            index <= k <= n,
            n == lines@.len(),
            spec_lines_within(lines@, b@.len()),
            forall|j: int| index <= j < k ==> spec_is_blank(b@, #[trigger] lines@[j].start as int, lines@[j].end as int),
        decreases n - k,
    {
        k = k + 1;
    }
    k
}

/// Parses a footnote definition `[^label]: content` at line `index`: the
/// content continues on lines indented by four columns, and lazily while a
/// paragraph is open, and across blank lines followed by such a line.
fn parse_footnote_definition(
    b: &[u8],
    lines: &[Line],
    index: usize,
    base: usize,
    options: &ParseContext,
    depth: usize,
    diagnostics: &mut Vec<Diagnostic>,
) -> (r: Option<(Block, usize)>)
    requires
        index < lines@.len(),
        spec_lines_within(lines@, b@.len()),
        base + b@.len() <= usize::MAX,
    ensures
        r matches Some(x) ==> crate::ast::spec_block_meta(x.0).span is Some,
        spec_diagnostics_off(options.constructs) ==> final(diagnostics)@ == old(diagnostics)@,
        r matches Some(x) ==> index < x.1 <= lines@.len() && x.0 is FootnoteDefinition,
    decreases depth, 0nat,
{
    let ghost d0 = diagnostics@;
    if !options.constructs.footnote_definition {
        return None;
    }
    let n = lines.len();
    let line = lines[index];
    let ts = skip_all_ws(b, line.start, line.end);
    let te = trim_end(b, ts, line.end);
    let text = copy_range(b, ts, te);
    let tl = text.len();
    if !(tl >= 2 && text[0] == 91u8 && text[1] == 94u8) {
        return None;
    }
    let close = find_footnote_reference_label_end(text.as_slice(), 2)?;
    if !(close + 1 < tl && text[close + 1] == 58u8) {
        return None;
    }
    if !is_footnote_label(text.as_slice(), 2, close) {
        return None;
    }
    let label = copy_range(text.as_slice(), 2, close);
    let rs = skip_all_ws(text.as_slice(), close + 2, tl);
    let re = trim_end(text.as_slice(), rs, tl);
    let mut content: Vec<u8> = Vec::new();
    push_line(&mut content, text.as_slice(), rs, re);
    let mut cursor = index + 1;
    let mut end = line.end_with_eol;
    let mut paragraph_open = paragraph_stays_open(text.as_slice(), rs, re, options);
    while cursor < n
        invariant
            spec_diagnostics_off(options.constructs) ==> diagnostics@ == d0,
            d0 == old(diagnostics)@,
            n == lines@.len(),
            index < cursor <= n,
            spec_lines_within(lines@, b@.len()),
            base + b@.len() <= usize::MAX,
            line == lines@[index as int],
            end <= b@.len(),
        decreases n - cursor,
    {
        let l = lines[cursor];
        if is_blank(b, l.start, l.end) {
            let next = next_nonblank_line(b, lines, cursor + 1);
            if next >= n || strip_indent_continuation(b, lines[next].start, lines[next].end).is_none() {
                break;
            }
            if content.len() > 0 {
                content.push(10u8);
            }
            paragraph_open = false;
            end = l.end_with_eol;
            cursor = cursor + 1;
            continue;
        }
        let continuation = match strip_indent_continuation(b, l.start, l.end) {
            Some(k) => k,
            None => {
                if paragraph_open && !likely_block_start(b, l.start, l.end, options) {
                    skip_spaces_tabs(b, l.start, l.end)
                } else {
                    break;
                }
            },
        };
        paragraph_open = paragraph_stays_open(b, continuation, l.end, options);
        push_line(&mut content, b, continuation, l.end);
        end = l.end_with_eol;
        cursor = cursor + 1;
    }
    let rest_len = re - rs;
    let child_base = if line.end >= rest_len {
        base + line.end - rest_len
    } else {
        base
    };
    let child_lines = collect_lines(content.as_slice());
    let children = if depth > 0 && child_base <= usize::MAX - content.len() {
        parse_blocks_from_lines(content.as_slice(), child_lines.as_slice(), child_base, false, options, depth - 1, diagnostics)
    } else {
        Vec::new()
    };
    let definition = FootnoteDefinition {
        meta: NodeMeta::new(Some(Span::new(base + line.start, base + end))),
        label: string_from_bytes(label.as_slice()),
        identifier: normalize_label(label.as_slice()),
        children,
    };
    Some((Block::FootnoteDefinition(definition), cursor))
}

// ---------------------------------------------------------------------------
// Description lists.
// ---------------------------------------------------------------------------

/// Where the content of a details marker on `b[start..end]` starts.
pub open spec fn spec_description_marker(b: Seq<u8>, start: int, end: int) -> Option<int> {
    let at = crate::text::spec_space_tab_end(b, start, end);
    if spec_indent_columns(b, start, end, 0) > 2 || !(at < end && (b[at] == 58u8 || b[at] == 126u8)) {
        None
    } else if at + 1 < end && !(b[at + 1] == 32u8 || b[at + 1] == 9u8) {
        None
    } else {
        Some(crate::text::spec_space_tab_end(b, at + 1, end))
    }
}

/// A details marker (`:` or `~` after at most two columns, then a space, a tab
/// or the end of the line) on `b[start..end]`: where its content starts.
fn description_marker(b: &[u8], start: usize, end: usize) -> (r: Option<usize>)
    requires
        start <= end <= b@.len(),
    ensures
        r is None <==> spec_description_marker(b@, start as int, end as int) is None,
        r matches Some(k) ==> spec_description_marker(b@, start as int, end as int) == Some(k as int),
        r matches Some(k) ==> start < k <= end,
{
    let (columns, bytes) = leading_indent(b, start, end);
    let at = start + bytes;
    if columns > 2 || !(at < end && (b[at] == 58u8 || b[at] == 126u8)) {
        return None;
    }
    if at + 1 < end && !(b[at + 1] == 32u8 || b[at + 1] == 9u8) {
        return None;
    }
    let mut k = at + 1;
    while k < end && (b[k] == 32u8 || b[k] == 9u8)
        invariant
            at < k <= end <= b@.len(),
            crate::text::spec_space_tab_end(b@, k as int, end as int) == crate::text::spec_space_tab_end(
                b@,
                at + 1,
                end as int,
            ),
        decreases end - k,
    {
        k = k + 1;
    }
    Some(k)
}

/// Whether a line can be (part of) a description term: at most three columns
/// of indentation, not blank, not a details marker, not another block.
fn is_description_term_line(b: &[u8], start: usize, end: usize, options: &ParseContext) -> (r: bool)
    requires
        start <= end <= b@.len(),
    ensures
        r == (spec_indent_columns(b@, start as int, end as int, 0) <= 3 && !spec_is_blank(b@, start as int, end as int)
            && spec_description_marker(b@, start as int, end as int) is None && !spec_likely_block_start(
            b@,
            start as int,
            end as int,
            options.constructs,
        )),
{
    leading_indent_columns(b, start, end) <= 3 && !is_blank(b, start, end) && description_marker(b, start, end).is_none()
        && !likely_block_start(b, start, end, options)
}

/// A description term: its lines, then optional blank lines, then a details
/// marker.
struct DescriptionTerm {
    marker_index: usize,
    term_end: usize,
    blank_after_term: bool,
    source: Vec<u8>,
    source_offset: usize,
}

/// The first line at or after `i` that cannot be part of a description term.
pub open spec fn spec_term_run_end(b: Seq<u8>, lines: Seq<Line>, i: int, c: Constructs) -> int
    decreases lines.len() - i,
{
    if 0 <= i < lines.len() && lines[i].start <= lines[i].end <= b.len() && spec_indent_columns(
        b,
        lines[i].start as int,
        lines[i].end as int,
        0,
    ) <= 3 && !spec_is_blank(b, lines[i].start as int, lines[i].end as int) && spec_description_marker(
        b,
        lines[i].start as int,
        lines[i].end as int,
    ) is None && !spec_likely_block_start(b, lines[i].start as int, lines[i].end as int, c) {
        spec_term_run_end(b, lines, i + 1, c)
    } else {
        i
    }
}

/// The first line at or after `i` that is not blank.
pub open spec fn spec_blank_run_end(b: Seq<u8>, lines: Seq<Line>, i: int) -> int
    decreases lines.len() - i,
{
    if 0 <= i < lines.len() && spec_is_blank(b, lines[i].start as int, lines[i].end as int) {
        spec_blank_run_end(b, lines, i + 1)
    } else {
        i
    }
}

/// The term starting at line `term_index`, when a details marker follows it.
fn description_term(b: &[u8], lines: &[Line], term_index: usize, options: &ParseContext) -> (r: Option<
    DescriptionTerm,
>)
    requires
        spec_lines_within(lines@, b@.len()),
    ensures
        r matches Some(t) ==> term_index <= t.term_end < t.marker_index < lines@.len() && t.source_offset
            <= b@.len(),
        ({
            let c = options.constructs;
            let te = spec_term_run_end(b@, lines@, term_index as int, c);
            let m = spec_blank_run_end(b@, lines@, te);
            &&& r is Some <==> (term_index < lines@.len() && te > term_index && m < lines@.len()
                && spec_description_marker(b@, lines@[m].start as int, lines@[m].end as int) is Some)
            &&& r matches Some(t) ==> t.term_end == te - 1 && t.marker_index == m && t.blank_after_term == (m > te)
                && t.source_offset == crate::text::spec_space_tab_end(
                b@,
                lines@[term_index as int].start as int,
                lines@[term_index as int].end as int,
            )
        }),
{
    let n = lines.len();
    if term_index >= n || !is_description_term_line(b, lines[term_index].start, lines[term_index].end, options) {
        return None;
    }
    let mut source: Vec<u8> = Vec::new();
    let mut term_end = term_index;
    let mut cursor = term_index;
    while cursor < n && is_description_term_line(b, lines[cursor].start, lines[cursor].end, options)
        invariant
            term_index <= term_end <= cursor <= n,
            term_end < n,
            cursor > term_index || cursor == term_index,
            cursor == term_index || term_end == cursor - 1,
            n == lines@.len(),
            spec_lines_within(lines@, b@.len()),
            spec_term_run_end(b@, lines@, cursor as int, options.constructs) == spec_term_run_end(
                b@,
                lines@,
                term_index as int,
                options.constructs,
            ),
        decreases n - cursor,
    {
        let l = lines[cursor];
        if source.len() > 0 {
            source.push(10u8);
        }
        let s = skip_spaces_tabs(b, l.start, l.end);
        let e = trim_end(b, s, l.end);
        push_range(&mut source, b, s, e);
        term_end = cursor;
        cursor = cursor + 1;
    }
    if cursor == term_index {
        return None;
    }
    let mut marker_index = cursor;
    let mut blank_after_term = false;
    while marker_index < n && is_blank(b, lines[marker_index].start, lines[marker_index].end)
        invariant
            cursor <= marker_index <= n,
            n == lines@.len(),
            spec_lines_within(lines@, b@.len()),
            spec_blank_run_end(b@, lines@, marker_index as int) == spec_blank_run_end(b@, lines@, cursor as int),
            blank_after_term == (marker_index > cursor),
        decreases n - marker_index,
    {
        blank_after_term = true;
        marker_index = marker_index + 1;
    }
    if !(marker_index < n && description_marker(b, lines[marker_index].start, lines[marker_index].end).is_some()) {
        return None;
    }
    let first = lines[term_index];
    let source_offset = skip_spaces_tabs(b, first.start, first.end);
    Some(DescriptionTerm { marker_index, term_end, blank_after_term, source, source_offset })
}

/// Parses one details block whose marker is on line `index` and whose content
/// starts at `content_start`: it continues on indented lines, lazily while a
/// paragraph is open, and across blank lines followed by an indented line.
/// Returns the details, the next line, and whether it stayed tight.
fn parse_description_details(
    b: &[u8],
    lines: &[Line],
    index: usize,
    content_start: usize,
    base: usize,
    options: &ParseContext,
    depth: usize,
    diagnostics: &mut Vec<Diagnostic>,
) -> (r: Option<(DescriptionDetails, usize, bool)>)
    requires
        index < lines@.len(),
        lines@[index as int].start <= content_start <= lines@[index as int].end,
        spec_lines_within(lines@, b@.len()),
        base + b@.len() <= usize::MAX,
    ensures
        spec_diagnostics_off(options.constructs) ==> final(diagnostics)@ == old(diagnostics)@,
        r matches Some(x) ==> index < x.1 <= lines@.len(),
    decreases depth, 0nat,
{
    let ghost d0 = diagnostics@;
    let n = lines.len();
    let line = lines[index];
    let mut content: Vec<u8> = Vec::new();
    push_line(&mut content, b, content_start, line.end);
    let mut cursor = index + 1;
    let mut end = line.end_with_eol;
    let mut tight = true;
    let mut paragraph_open = paragraph_stays_open(b, content_start, line.end, options);
    while cursor < n
        invariant
            spec_diagnostics_off(options.constructs) ==> diagnostics@ == d0,
            d0 == old(diagnostics)@,
            n == lines@.len(),
            index < cursor <= n,
            spec_lines_within(lines@, b@.len()),
            base + b@.len() <= usize::MAX,
            line == lines@[index as int],
            end <= b@.len(),
        decreases n - cursor,
    {
        let l = lines[cursor];
        if is_blank(b, l.start, l.end) {
            let next = next_nonblank_line(b, lines, cursor + 1);
            if next >= n || description_term(b, lines, next, options).is_some() {
                cursor = next;
                break;
            }
            if description_marker(b, lines[next].start, lines[next].end).is_some() {
                tight = false;
                cursor = next;
                break;
            }
            if strip_indent_continuation(b, lines[next].start, lines[next].end).is_none() {
                break;
            }
            if content.len() > 0 {
                content.push(10u8);
            }
            paragraph_open = false;
            tight = false;
            end = l.end_with_eol;
            cursor = cursor + 1;
            continue;
        }
        if description_marker(b, l.start, l.end).is_some() || description_term(b, lines, cursor, options).is_some() {
            break;
        }
        let continuation = match strip_indent_continuation(b, l.start, l.end) {
            Some(k) => k,
            None => {
                if paragraph_open && !likely_block_start(b, l.start, l.end, options) {
                    skip_spaces_tabs(b, l.start, l.end)
                } else {
                    break;
                }
            },
        };
        paragraph_open = paragraph_stays_open(b, continuation, l.end, options);
        push_line(&mut content, b, continuation, l.end);
        end = l.end_with_eol;
        cursor = cursor + 1;
    }
    if crate::text::is_all_whitespace(content.as_slice()) {
        return None;
    }
    let child_base = base + content_start;
    let child_lines = collect_lines(content.as_slice());
    let children = if depth > 0 && child_base <= usize::MAX - content.len() {
        parse_blocks_from_lines(content.as_slice(), child_lines.as_slice(), child_base, false, options, depth - 1, diagnostics)
    } else {
        Vec::new()
    };
    let details = DescriptionDetails { meta: NodeMeta::new(Some(Span::new(base + line.start, base + end))), children };
    Some((details, cursor, tight))
}

/// Parses a description list at line `index`: terms, each followed by one or
/// more details; blank lines between the parts loosen it.
fn parse_description_list(
    b: &[u8],
    lines: &[Line],
    index: usize,
    base: usize,
    options: &ParseContext,
    depth: usize,
    diagnostics: &mut Vec<Diagnostic>,
) -> (r: Option<(Block, usize)>)
    requires
        index < lines@.len(),
        spec_lines_within(lines@, b@.len()),
        base + b@.len() <= usize::MAX,
    ensures
        r matches Some(x) ==> crate::ast::spec_block_meta(x.0).span is Some,
        spec_diagnostics_off(options.constructs) ==> final(diagnostics)@ == old(diagnostics)@,
        r matches Some(x) ==> index < x.1 <= lines@.len() && x.0 is DescriptionList,
    decreases depth, 1nat,
{
    let ghost d0 = diagnostics@;
    let n = lines.len();
    if !options.constructs.description_list || !is_description_term_line(
        b,
        lines[index].start,
        lines[index].end,
        options,
    ) {
        return None;
    }
    let mut cursor = index;
    let mut items: Vec<DescriptionItem> = Vec::new();
    let mut tight = true;
    let mut list_end = lines[index].end_with_eol;
    while cursor < n
        invariant
            spec_diagnostics_off(options.constructs) ==> diagnostics@ == d0,
            d0 == old(diagnostics)@,
            n == lines@.len(),
            index <= cursor <= n,
            items@.len() > 0 ==> cursor > index,
            spec_lines_within(lines@, b@.len()),
            base + b@.len() <= usize::MAX,
            list_end <= b@.len(),
        decreases n - cursor,
    {
        if !is_description_term_line(b, lines[cursor].start, lines[cursor].end, options) {
            break;
        }
        let term = match description_term(b, lines, cursor, options) {
            Some(t) => t,
            None => {
                break;
            },
        };
        let term_line = lines[cursor];
        let mut details: Vec<DescriptionDetails> = Vec::new();
        let item_start = term_line.start;
        let mut item_end = lines[term.term_end].end_with_eol;
        tight = tight && !term.blank_after_term;
        let ghost c0 = cursor;
        cursor = term.marker_index;
        loop
            invariant_except_break
                c0 < cursor < n,
            invariant
                spec_diagnostics_off(options.constructs) ==> diagnostics@ == d0,
                d0 == old(diagnostics)@,
                n == lines@.len(),
                spec_lines_within(lines@, b@.len()),
                base + b@.len() <= usize::MAX,
                item_end <= b@.len(),
            ensures
                c0 < cursor <= n,
                item_end <= b@.len(),
            decreases n - cursor,
        {
            let l = lines[cursor];
            let content_start = match description_marker(b, l.start, l.end) {
                Some(k) => k,
                None => {
                    break;
                },
            };
            let (detail, next, detail_tight) = match parse_description_details(
                b,
                lines,
                cursor,
                content_start,
                base,
                options,
                depth, diagnostics,
            ) {
                Some(x) => x,
                None => {
                    return None;
                },
            };
            tight = tight && detail_tight;
            item_end = match detail.meta.span {
                Some(sp) => if sp.end >= base && sp.end - base <= b.len() {
                    sp.end - base
                } else {
                    l.end_with_eol
                },
                None => l.end_with_eol,
            };
            details.push(detail);
            cursor = next;
            let next_nonblank = next_nonblank_line(b, lines, cursor);
            if next_nonblank < n && description_marker(b, lines[next_nonblank].start, lines[next_nonblank].end).is_some() {
                if next_nonblank != cursor {
                    tight = false;
                }
                cursor = next_nonblank;
                continue;
            }
            break;
        }
        if details.len() == 0 {
            return None;
        }
        list_end = item_end;
        let term_inlines = if term.source_offset <= b.len() && base + term.source_offset <= usize::MAX
            - term.source.len() {
            parse_inlines(term.source.as_slice(), base + term.source_offset, options, diagnostics)
        } else {
            Vec::new()
        };
        items.push(
            DescriptionItem {
                meta: NodeMeta::new(Some(Span::new(base + item_start, base + item_end))),
                term: term_inlines,
                details,
            },
        );
        let next_item = next_nonblank_line(b, lines, cursor);
        if next_item >= n {
            cursor = n;
            break;
        }
        if description_term(b, lines, next_item, options).is_some() {
            if next_item != cursor {
                tight = false;
            }
            cursor = next_item;
            continue;
        }
        cursor = next_item;
        break;
    }
    if items.len() == 0 {
        return None;
    }
    let list = DescriptionList {
        meta: NodeMeta::new(Some(Span::new(base + lines[index].start, base + list_end))),
        tight,
        children: items,
    };
    Some((Block::DescriptionList(list), cursor))
}

// ---------------------------------------------------------------------------
// Math blocks and frontmatter.
// ---------------------------------------------------------------------------

/// Where the run of `x` bytes from `j` ends, not past `end`.
pub open spec fn spec_byte_run_end(b: Seq<u8>, j: int, end: int, x: u8) -> int
    decreases end - j,
{
    if 0 <= j < end && b[j] == x {
        spec_byte_run_end(b, j + 1, end, x)
    } else {
        j
    }
}

/// The length of the `$` run that opens a math block on `b[k..end]`: two or
/// more, with no `$` after it on the line.
pub open spec fn spec_math_fence_length(b: Seq<u8>, k: int, end: int) -> Option<usize> {
    let j = spec_byte_run_end(b, k, end, 36u8);
    if j - k < 2 || exists|d: int| j <= d < end && b[d] == 36u8 {
        None
    } else {
        Some((j - k) as usize)
    }
}

/// The length of the run of `$` that opens a math block on `b[k..end]`: at
/// least two, with no further `$` on the line.
fn math_block_fence_length(b: &[u8], k: usize, end: usize) -> (r: Option<usize>)
    requires
        k <= end <= b@.len(),
    ensures
        r matches Some(l) ==> 2 <= l && k + l <= end,
        r == spec_math_fence_length(b@, k as int, end as int),
{
    let mut j = k;
    while j < end && b[j] == 36u8
        invariant
            k <= j <= end <= b@.len(),
            spec_byte_run_end(b@, j as int, end as int, 36u8) == spec_byte_run_end(b@, k as int, end as int, 36u8),
        decreases end - j,
    {
        j = j + 1;
    }
    let length = j - k;
    if length < 2 || has_byte(b, j, end, 36u8) {
        return None;
    }
    Some(length)
}

/// Whether `b[k..end]` (indentation already removed) closes a math block
/// opened by `length` dollars: at least that many `$`, then only whitespace.
fn math_block_fence_closes(b: &[u8], k: usize, end: usize, length: usize) -> (r: bool)
    requires
        k <= end <= b@.len(),
    ensures
        r == {
            let j = spec_byte_run_end(b@, k as int, end as int, 36u8);
            j - k >= length && spec_is_blank(b@, j, end as int)
        },
{
    let mut j = k;
    while j < end && b[j] == 36u8
        invariant
            k <= j <= end <= b@.len(),
            spec_byte_run_end(b@, j as int, end as int, 36u8) == spec_byte_run_end(b@, k as int, end as int, 36u8),
        decreases end - j,
    {
        j = j + 1;
    }
    j - k >= length && is_blank(b, j, end)
}

/// Parses a math block at line `index`: a run of two or more `$` after at most
/// three columns of indentation, the content lines (their indentation cut by
/// the opener's), up to a closing run at least as long or the end of input.
fn parse_math_block(b: &[u8], lines: &[Line], index: usize, base: usize, options: &ParseContext) -> (r: Option<
    (Block, usize),
>)
    requires
        index < lines@.len(),
        spec_lines_within(lines@, b@.len()),
        base + b@.len() <= usize::MAX,
    ensures
        r matches Some(x) ==> crate::ast::spec_block_meta(x.0).span is Some,
        r matches Some(x) ==> index < x.1 <= lines@.len() && x.0 is MathBlock,
        r is Some <==> options.constructs.math_block && match crate::text::spec_trim_up_to_three(
            b@.subrange(lines@[index as int].start as int, lines@[index as int].end as int),
        ) {
            Some(o) => spec_math_fence_length(b@, lines@[index as int].start + o, lines@[index as int].end as int) is Some,
            None => false,
        },
{
    if !options.constructs.math_block {
        return None;
    }
    let line = lines[index];
    let k = trim_up_to_three_spaces(b, line.start, line.end)?;
    let length = math_block_fence_length(b, k, line.end)?;
    let opening_indent = leading_indent_columns(b, line.start, line.end);
    let strip = if opening_indent > usize::MAX - 8 {
        usize::MAX - 8
    } else {
        opening_indent
    };
    let mut value: Vec<u8> = Vec::new();
    let mut content_lines: usize = 0;
    let mut cursor = index + 1;
    let n = lines.len();
    while cursor < n
        invariant
            n == lines@.len(),
            index < cursor <= n,
            spec_lines_within(lines@, b@.len()),
            base + b@.len() <= usize::MAX,
            strip <= usize::MAX - 8,
            line == lines@[index as int],
            options.constructs.math_block,
            crate::text::spec_trim_up_to_three(b@.subrange(line.start as int, line.end as int)) == Some(k - line.start),
            spec_math_fence_length(b@, k as int, line.end as int) is Some,
        decreases n - cursor,
    {
        let l = lines[cursor];
        match trim_up_to_three_spaces(b, l.start, l.end) {
            Some(ck) => {
                if math_block_fence_closes(b, ck, l.end, length) {
                    let math = MathBlock {
                        meta: NodeMeta::new(Some(Span::new(base + line.start, base + l.end_with_eol))),
                        value: string_from_bytes(value.as_slice()),
                    };
                    return Some((Block::MathBlock(math), cursor + 1));
                }
            },
            None => {},
        }
        if content_lines > 0 {
            let vl = value.len();
            if vl > 0 && !(value[vl - 1] == 10u8 || value[vl - 1] == 13u8) {
                value.push(10u8);
            }
        }
        push_stripped_indent(&mut value, b, l.start, l.end, strip);
        push_range(&mut value, b, l.end, l.end_with_eol);
        if content_lines < usize::MAX {
            content_lines = content_lines + 1;
        }
        cursor = cursor + 1;
    }
    let last = lines[n - 1];
    let math = MathBlock {
        meta: NodeMeta::new(Some(Span::new(base + line.start, base + last.end_with_eol))),
        value: string_from_bytes(value.as_slice()),
    };
    Some((Block::MathBlock(math), n))
}

/// `---` (YAML) or `+++` (TOML) with only trailing spaces and tabs.
pub open spec fn spec_space_tab_back(b: Seq<u8>, start: int, e: int) -> int
    decreases e - start,
{
    if e > start && (b[e - 1] == 32u8 || b[e - 1] == 9u8) {
        spec_space_tab_back(b, start, e - 1)
    } else {
        e
    }
}

/// The frontmatter fence on `b[start..end]`: `---` (YAML) or `+++` (TOML)
/// with only trailing spaces and tabs.
pub open spec fn spec_frontmatter_kind(b: Seq<u8>, start: int, end: int) -> Option<FrontmatterKind> {
    let e = spec_space_tab_back(b, start, end);
    if e - start != 3 {
        None
    } else if b[start] == 45u8 && b[start + 1] == 45u8 && b[start + 2] == 45u8 {
        Some(FrontmatterKind::Yaml)
    } else if b[start] == 43u8 && b[start + 1] == 43u8 && b[start + 2] == 43u8 {
        Some(FrontmatterKind::Toml)
    } else {
        None
    }
}

fn frontmatter_fence_kind(b: &[u8], start: usize, end: usize) -> (r: Option<FrontmatterKind>)
    requires
        start <= end <= b@.len(),
    ensures
        r == spec_frontmatter_kind(b@, start as int, end as int),
{
    let mut e = end;
    while e > start && (b[e - 1] == 32u8 || b[e - 1] == 9u8)
        invariant
            start <= e <= end <= b@.len(),
            spec_space_tab_back(b@, start as int, e as int) == spec_space_tab_back(b@, start as int, end as int),
        decreases e,
    {
        e = e - 1;
    }
    if e - start != 3 {
        return None;
    }
    if b[start] == 45u8 && b[start + 1] == 45u8 && b[start + 2] == 45u8 {
        Some(FrontmatterKind::Yaml)
    } else if b[start] == 43u8 && b[start + 1] == 43u8 && b[start + 2] == 43u8 {
        Some(FrontmatterKind::Toml)
    } else {
        None
    }
}

/// Parses frontmatter at line `index`: a `---` or `+++` fence, the lines up to
/// the same fence, which must come.
fn parse_frontmatter(b: &[u8], lines: &[Line], index: usize, base: usize, options: &ParseContext) -> (r: Option<
    (Block, usize),
>)
    requires
        index < lines@.len(),
        spec_lines_within(lines@, b@.len()),
        base + b@.len() <= usize::MAX,
    ensures
        r matches Some(x) ==> crate::ast::spec_block_meta(x.0).span is Some,
        r matches Some(x) ==> index < x.1 <= lines@.len() && x.0 is Frontmatter,
        r is Some <==> options.constructs.frontmatter && ({
            let kind = spec_frontmatter_kind(b@, lines@[index as int].start as int, lines@[index as int].end as int);
            kind is Some && exists|c: int|
                index < c < lines@.len() && spec_frontmatter_kind(b@, (#[trigger] lines@[c]).start as int, lines@[c].end as int)
                    == kind
        }),
        r matches Some(x) ==> {
            let kind = spec_frontmatter_kind(b@, lines@[index as int].start as int, lines@[index as int].end as int);
            &&& x.0->Frontmatter_0.kind == kind->0
            &&& spec_frontmatter_kind(b@, lines@[x.1 - 1].start as int, lines@[x.1 - 1].end as int) == kind
            &&& forall|c: int| index < c < x.1 - 1 ==> spec_frontmatter_kind(b@, (#[trigger] lines@[c]).start as int, lines@[c].end as int) != kind
        },
{
    if !options.constructs.frontmatter {
        return None;
    }
    let line = lines[index];
    let kind = frontmatter_fence_kind(b, line.start, line.end)?;
    let mut value: Vec<u8> = Vec::new();
    let n = lines.len();
    let mut cursor = index + 1;
    while cursor < n
        invariant
            n == lines@.len(),
            index < cursor <= n,
            spec_lines_within(lines@, b@.len()),
            base + b@.len() <= usize::MAX,
            line == lines@[index as int],
            options.constructs.frontmatter,
            spec_frontmatter_kind(b@, line.start as int, line.end as int) == Some(kind),
            forall|c: int| index < c < cursor ==> spec_frontmatter_kind(b@, (#[trigger] lines@[c]).start as int, lines@[c].end as int) != Some(kind),
        decreases n - cursor,
    {
        let l = lines[cursor];
        assert(spec_frontmatter_kind(b@, lines@[cursor as int].start as int, lines@[cursor as int].end as int) == Some(kind) ==> exists|c: int|
            index < c < lines@.len() && spec_frontmatter_kind(b@, (#[trigger] lines@[c]).start as int, lines@[c].end as int) == Some(kind));
        if frontmatter_fence_kind(b, l.start, l.end) == Some(kind) {
            let fm = Frontmatter {
                meta: NodeMeta::new(Some(Span::new(base + line.start, base + l.end_with_eol))),
                kind,
                value: string_from_bytes(value.as_slice()),
            };
            return Some((Block::Frontmatter(fm), cursor + 1));
        }
        push_line(&mut value, b, l.start, l.end);
        cursor = cursor + 1;
    }
    None
}

// ---------------------------------------------------------------------------
// Task list items.
// ---------------------------------------------------------------------------

/// `[ ]` (unchecked), `[x]` or `[X]` (checked) at `k` of `s`.
pub open spec fn spec_task_marker(s: Seq<u8>, k: int) -> Option<bool> {
    if 0 <= k && k + 3 <= s.len() && s[k] == 91u8 && s[k + 2] == 93u8 {
        if s[k + 1] == 32u8 {
            Some(false)
        } else if s[k + 1] == 120u8 || s[k + 1] == 88u8 {
            Some(true)
        } else {
            None
        }
    } else {
        None
    }
}

fn task_marker_checked(s: &[u8], k: usize) -> (r: Option<bool>)
    ensures
        r == spec_task_marker(s@, k as int),
{
    let n = s.len();
    if k <= n && n - k >= 3 && s[k] == 91u8 && s[k + 2] == 93u8 {
        if s[k + 1] == 32u8 {
            Some(false)
        } else if s[k + 1] == 120u8 || s[k + 1] == 88u8 {
            Some(true)
        } else {
            None
        }
    } else {
        None
    }
}

/// The number of spaces and tabs that start `s`.
fn leading_trim_bytes(s: &[u8]) -> (r: usize)
    ensures
        r <= s@.len(),
        r == crate::text::spec_space_tab_end(s@, 0, s@.len() as int),
{
    let mut k: usize = 0;
    while k < s.len() && (s[k] == 32u8 || s[k] == 9u8)
        invariant
            k <= s@.len(),
            crate::text::spec_space_tab_end(s@, k as int, s@.len() as int) == crate::text::spec_space_tab_end(
                s@,
                0,
                s@.len() as int,
            ),
        decreases s@.len() - k,
    {
        k = k + 1;
    }
    k
}

/// The bytes of a text node's value.
fn text_bytes(inline: &Inline) -> (r: Option<Vec<u8>>)
    ensures
        r is Some <==> inline is Text,
        r matches Some(v) ==> v@ == vstd::utf8::encode_utf8(inline->Text_0.value@),
{
    match inline {
        Inline::Text(t) => {
            let v = string_bytes(&t.value);
            Some(copy_range(v, 0, v.len()))
        },
        _ => None,
    }
}

/// Whether a node is content: anything but empty text and line breaks.
pub open spec fn spec_is_content(node: Inline) -> bool {
    match node {
        Inline::Text(t) => vstd::utf8::encode_utf8(t.value@).len() > 0,
        Inline::SoftBreak(_) | Inline::LineBreak(_) => false,
        _ => true,
    }
}

/// Whether anything but empty text and line breaks follows position `start`.
fn inlines_have_content_after(inlines: &Vec<Inline>, start: usize) -> (r: bool)
    ensures
        r == exists|k: int| start <= k < inlines@.len() && spec_is_content(#[trigger] inlines@[k]),
{
    let mut k = start;
    while k < inlines.len()
        invariant
            start <= k,
            forall|j: int| start <= j < k ==> !spec_is_content(#[trigger] inlines@[j]),
        decreases inlines@.len() - k,
    {
        proof {
            assert(spec_is_content(inlines@[k as int]) ==> (exists|j: int|
                start <= j < inlines@.len() && spec_is_content(#[trigger] inlines@[j])));
        }
        match &inlines[k] {
            Inline::Text(t) => {
                if string_bytes(&t.value).len() > 0 {
                    return true;
                }
            },
            Inline::SoftBreak(_) | Inline::LineBreak(_) => {},
            _ => {
                return true;
            },
        }
        k = k + 1;
    }
    false
}

/// Whether `s` starts with a text node of at least `consumed` bytes.
pub open spec fn spec_text_prefix_fits(s: Seq<Inline>, consumed: int) -> bool {
    s.len() > 0 && s[0] is Text && consumed <= vstd::utf8::encode_utf8(s[0]->Text_0.value@).len()
}

/// The bytes of the leading text node of `s` after its first `consumed`.
pub open spec fn spec_text_rest(s: Seq<Inline>, consumed: int) -> Seq<u8> {
    let v = vstd::utf8::encode_utf8(s[0]->Text_0.value@);
    v.subrange(consumed, v.len() as int)
}

/// `after` is `before` with the first `consumed` bytes of its leading text
/// node dropped, and the node itself when nothing is left of it (unchanged
/// when it does not start with such a node).
pub open spec fn spec_prefix_removed(before: Seq<Inline>, after: Seq<Inline>, consumed: int) -> bool {
    &&& !spec_text_prefix_fits(before, consumed) ==> after == before
    &&& spec_text_prefix_fits(before, consumed) && spec_text_rest(before, consumed).len() == 0 ==> after
        == before.subrange(1, before.len() as int)
    &&& spec_text_prefix_fits(before, consumed) && spec_text_rest(before, consumed).len() > 0 ==> {
        &&& after.len() == before.len()
        &&& after[0] is Text
        &&& after[0]->Text_0.value@ == crate::text::spec_lossy_utf8(spec_text_rest(before, consumed))
        &&& after[0]->Text_0.meta.span == before[0]->Text_0.meta.span
        &&& forall|k: int| 1 <= k < before.len() ==> #[trigger] after[k] == before[k]
    }
}

/// Drops the first `consumed` bytes of the leading text node, and the node
/// itself when nothing is left of it.
fn remove_text_prefix(inlines: &mut Vec<Inline>, consumed: usize)
    ensures
        spec_prefix_removed(old(inlines)@, final(inlines)@, consumed as int),
{
    if inlines.len() == 0 {
        return;
    }
    let (span, value) = match &inlines[0] {
        Inline::Text(t) => {
            let v = string_bytes(&t.value);
            if consumed > v.len() {
                return;
            }
            (t.meta.span, copy_range(v, consumed, v.len()))
        },
        _ => {
            return;
        },
    };
    if value.len() == 0 {
        inlines.remove(0);
    } else {
        inlines.set(0, Inline::Text(Text { meta: NodeMeta::new(span), value: string_from_bytes(value.as_slice()) }));
    }
}

/// Whether the node at `k` is a soft line break.
fn is_soft_break_at(inlines: &Vec<Inline>, k: usize) -> (r: bool)
    ensures
        r ==> k < inlines@.len(),
        r == (k < inlines@.len() && inlines@[k as int] is SoftBreak),
{
    k < inlines.len() && matches!(inlines[k], Inline::SoftBreak(_))
}

/// Whether some node of `s` from `k` on is content.
pub open spec fn spec_content_after(s: Seq<Inline>, k: int) -> bool {
    exists|j: int| k <= j < s.len() && spec_is_content(#[trigger] s[j])
}

/// The close of a task marker split over two lines, on the second line's
/// text: whether it is checked, and how many bytes it takes.
pub open spec fn spec_split_task_close(next: Seq<u8>) -> Option<(bool, int)> {
    let nl = next.len();
    if nl >= 2 && next[0] == 93u8 && (next[1] == 32u8 || next[1] == 9u8) {
        Some((false, 2))
    } else if nl >= 3 && (next[0] == 120u8 || next[0] == 88u8) && next[1] == 93u8 && (next[2] == 32u8 || next[2]
        == 9u8) {
        Some((true, 3))
    } else {
        None
    }
}

/// `after` and `checked` are what taking the task marker from `before` leaves
/// (see [`take_task_marker_from_inlines`]).
pub open spec fn spec_task_taken(before: Seq<Inline>, checked: Option<bool>, after: Seq<Inline>) -> bool {
    &&& spec_task_outcome(before) is None ==> checked is None && after == before
    &&& spec_task_outcome(before) matches Some((c, case, consumed)) ==> {
        &&& checked == Some(c)
        &&& case == 0 ==> spec_prefix_removed(before, after, consumed)
        &&& case == 1 ==> after == before.subrange(2, before.len() as int)
        &&& case == 2 ==> spec_prefix_removed(before.subrange(2, before.len() as int), after, consumed)
    }
}

/// The task marker at the start of an item's first paragraph: whether it is
/// checked, its form (0: before a space or tab, 1: alone on the first line,
/// 2: split as `[` and `x] ...` over two lines) and the bytes it takes from
/// the text node it ends in (see [`take_task_marker_from_inlines`]).
pub open spec fn spec_task_outcome(s: Seq<Inline>) -> Option<(bool, int, int)> {
    if s.len() == 0 || !(s[0] is Text) {
        None
    } else {
        let first = vstd::utf8::encode_utf8(s[0]->Text_0.value@);
        let fl = first.len() as int;
        let start = crate::text::spec_space_tab_end(first, 0, fl);
        let direct = match spec_task_marker(first, start) {
            Some(checked) => {
                let am = start + 3;
                if am < fl && (first[am] == 32u8 || first[am] == 9u8) && (am + 1 < fl || spec_content_after(s, 1)) {
                    Some((checked, 0int, am + 1))
                } else if fl - start == 3 && s.len() > 1 && s[1] is SoftBreak && spec_content_after(s, 2) {
                    Some((checked, 1int, 0int))
                } else {
                    None
                }
            },
            None => None,
        };
        if direct is Some {
            direct
        } else if fl - start == 1 && first[start] == 91u8 && s.len() >= 3 && s[1] is SoftBreak && s[2] is Text {
            let next = vstd::utf8::encode_utf8(s[2]->Text_0.value@);
            match spec_split_task_close(next) {
                Some((checked, consumed)) => if consumed < next.len() || spec_content_after(s, 3) {
                    Some((checked, 2int, consumed))
                } else {
                    None
                },
                None => None,
            }
        } else {
            None
        }
    }
}

/// Takes a task-list marker (`[ ]`, `[x]`, `[X]`) from the start of a list
/// item's first paragraph: written before a space or tab and more content, or
/// alone on the first line, or split as `[` and `x] ...` over two lines.
/// Returns whether it was checked, and the remaining inline content.
fn take_task_marker_from_inlines(inlines: Vec<Inline>) -> (r: (Option<bool>, Vec<Inline>))
    ensures
        spec_task_taken(inlines@, r.0, r.1@),
{
    let mut inlines = inlines;
    if inlines.len() == 0 {
        return (None, inlines);
    }
    let first = match text_bytes(&inlines[0]) {
        Some(v) => v,
        None => {
            return (None, inlines);
        },
    };
    let start = leading_trim_bytes(first.as_slice());
    let fl = first.len();
    match task_marker_checked(first.as_slice(), start) {
        Some(checked) => {
            let after_marker = start + 3;
            if after_marker < fl && (first[after_marker] == 32u8 || first[after_marker] == 9u8) {
                let consumed = after_marker + 1;
                if consumed < fl || inlines_have_content_after(&inlines, 1) {
                    remove_text_prefix(&mut inlines, consumed);
                    return (Some(checked), inlines);
                }
            }
            if fl - start == 3 && is_soft_break_at(&inlines, 1) && inlines_have_content_after(&inlines, 2) {
                let ghost orig = inlines@;
                inlines.remove(1);
                inlines.remove(0);
                proof {
                    assert(inlines@ =~= orig.subrange(2, orig.len() as int));
                }
                return (Some(checked), inlines);
            }
        },
        None => {},
    }
    if fl - start == 1 && first[start] == 91u8 && is_soft_break_at(&inlines, 1) {
        if inlines.len() < 3 {
            return (None, inlines);
        }
        let next = match text_bytes(&inlines[2]) {
            Some(v) => v,
            None => {
                return (None, inlines);
            },
        };
        let nl = next.len();
        let close: Option<(bool, usize)> = if nl >= 2 && next[0] == 93u8 && (next[1] == 32u8 || next[1] == 9u8) {
            Some((false, 2))
        } else if nl >= 3 && (next[0] == 120u8 || next[0] == 88u8) && next[1] == 93u8 && (next[2] == 32u8 || next[2]
            == 9u8) {
            Some((true, 3))
        } else {
            None
        };
        match close {
            Some((checked, consumed)) => {
                if consumed < nl || inlines_have_content_after(&inlines, 3) {
                    let ghost orig = inlines@;
                    inlines.remove(1);
                    inlines.remove(0);
                    proof {
                        assert(inlines@ =~= orig.subrange(2, orig.len() as int));
                    }
                    remove_text_prefix(&mut inlines, consumed);
                    return (Some(checked), inlines);
                }
            },
            None => {},
        }
    }
    (None, inlines)
}

/// Takes a task-list marker from a list item whose first block is a
/// paragraph (see [`take_task_marker_from_inlines`]).
fn take_task_marker_from_children(children: Vec<Block>) -> (r: (Option<bool>, Vec<Block>))
    ensures
        !(children@.len() > 0 && children@[0] is Paragraph) ==> r.0 is None && r.1@ == children@,
        children@.len() > 0 && children@[0] is Paragraph ==> {
            &&& r.1@.len() == children@.len()
            &&& r.1@[0] is Paragraph
            &&& r.1@[0]->Paragraph_0.meta == children@[0]->Paragraph_0.meta
            &&& spec_task_taken(children@[0]->Paragraph_0.children@, r.0, r.1@[0]->Paragraph_0.children@)
            &&& forall|k: int| 1 <= k < children@.len() ==> #[trigger] r.1@[k] == children@[k]
        },
{
    let ghost orig = children@;
    let mut children = children;
    if children.len() == 0 || !matches!(children[0], Block::Paragraph(_)) {
        return (None, children);
    }
    let first = children.remove(0);
    match first {
        Block::Paragraph(p) => {
            let Paragraph { meta, children: inlines } = p;
            let (checked, rest) = take_task_marker_from_inlines(inlines);
            children.insert(0, Block::Paragraph(Paragraph { meta, children: rest }));
            (checked, children)
        },
        other => {
            children.insert(0, other);
            (None, children)
        },
    }
}

// ---------------------------------------------------------------------------
// Tables.
// ---------------------------------------------------------------------------

/// Whether line `index` and the next start a GFM table (tables enabled).
fn table_can_start(b: &[u8], lines: &[Line], index: usize, options: &ParseContext) -> (r: bool)
    requires
        spec_lines_within(lines@, b@.len()),
    ensures
        r == (options.constructs.gfm_table && index < lines@.len() && lines@.len() - index >= 2
            && crate::block_start::spec_table_can_start(
            b@,
            lines@[index as int].start as int,
            lines@[index as int].end as int,
            b@,
            lines@[index + 1].start as int,
            lines@[index + 1].end as int,
            options.constructs.indented_code,
            options.constructs.spoiler,
        )),
{
    if !options.constructs.gfm_table || index >= lines.len() || lines.len() - index < 2 {
        return false;
    }
    let h = lines[index];
    let d = lines[index + 1];
    table_can_start_source(
        b,
        h.start,
        h.end,
        b,
        d.start,
        d.end,
        options.constructs.indented_code,
        options.constructs.spoiler,
    )
}

/// Whether a line ends an open table: it starts another block.
fn table_body_line_ends_table(b: &[u8], start: usize, end: usize, options: &ParseContext) -> (r: bool)
    requires
        start <= end <= b@.len(),
{
    likely_block_start(b, start, end, options) || is_list_marker_line(b, start, end) || (
    options.constructs.html_block && line_starts_html_block(b, start, end))
}

/// The inline content of one table cell: the cell text without surrounding
/// whitespace.
fn table_cell(
    cell: &[u8],
    base: usize,
    options: &ParseContext,
    diagnostics: &mut Vec<Diagnostic>,
) -> (r: TableCell)
    requires
        base + cell@.len() <= usize::MAX,
    ensures
        spec_diagnostics_off(options.constructs) ==> final(diagnostics)@ == old(diagnostics)@,
{
    let ghost d0 = diagnostics@;
    let s = skip_all_ws(cell, 0, cell.len());
    let e = trim_end(cell, s, cell.len());
    let text = copy_range(cell, s, e);
    TableCell { meta: NodeMeta::new(None), children: parse_inlines(text.as_slice(), base, options, diagnostics) }
}

/// Parses a GFM table at line `index`: a header row, a delimiter row with one
/// alignment per header cell, then body rows up to a blank line or another
/// block; body rows are cut or padded to the header's width.
fn parse_table(
    b: &[u8],
    lines: &[Line],
    index: usize,
    base: usize,
    options: &ParseContext,
    diagnostics: &mut Vec<Diagnostic>,
) -> (r: Option<
    (Block, usize),
>)
    requires
        index < lines@.len(),
        spec_lines_within(lines@, b@.len()),
        base + b@.len() <= usize::MAX,
    ensures
        r matches Some(x) ==> crate::ast::spec_block_meta(x.0).span is Some,
        spec_diagnostics_off(options.constructs) ==> final(diagnostics)@ == old(diagnostics)@,
        r matches Some(x) ==> index < x.1 <= lines@.len() && x.0 is Table,
{
    let ghost d0 = diagnostics@;
    let n = lines.len();
    if !options.constructs.gfm_table || n - index < 2 {
        return None;
    }
    let h = lines[index];
    let d = lines[index + 1];
    let ds = if options.constructs.indented_code {
        match trim_up_to_three_spaces(b, d.start, d.end) {
            Some(k) => k,
            None => return None,
        }
    } else {
        d.start
    };
    if is_list_marker_line(b, ds, d.end) {
        return None;
    }
    if !table_can_start_source(
        b,
        h.start,
        h.end,
        b,
        d.start,
        d.end,
        options.constructs.indented_code,
        options.constructs.spoiler,
    ) {
        return None;
    }
    let alignments = match parse_table_delimiter(b, ds, d.end, options.constructs.spoiler) {
        Some(a) => a,
        None => return None,
    };
    let width = alignments.len();
    let headers = split_table_row(b, h.start, h.end, options.constructs.spoiler);
    if headers.len() != width {
        return None;
    }
    let mut rows: Vec<TableRow> = Vec::new();
    let mut header_cells: Vec<TableCell> = Vec::new();
    let mut k: usize = 0;
    while k < headers.len()
        invariant
            spec_diagnostics_off(options.constructs) ==> diagnostics@ == d0,
            d0 == old(diagnostics)@,
            k <= headers@.len(),
            base + b@.len() <= usize::MAX,
            h.start <= b@.len(),
        decreases headers@.len() - k,
    {
        let cell = headers[k].as_slice();
        if base + h.start <= usize::MAX - cell.len() {
            header_cells.push(table_cell(cell, base + h.start, options, diagnostics));
        } else {
            header_cells.push(TableCell { meta: NodeMeta::new(None), children: Vec::new() });
        }
        k = k + 1;
    }
    rows.push(TableRow { meta: NodeMeta::new(Some(Span::new(base + h.start, base + h.end))), cells: header_cells });
    let mut cursor = index + 2;
    while cursor < n
        invariant
            spec_diagnostics_off(options.constructs) ==> diagnostics@ == d0,
            d0 == old(diagnostics)@,
            n == lines@.len(),
            index + 2 <= cursor <= n,
            spec_lines_within(lines@, b@.len()),
            base + b@.len() <= usize::MAX,
            width == alignments@.len(),
        decreases n - cursor,
    {
        let l = lines[cursor];
        let row_start = if options.constructs.indented_code {
            match trim_up_to_three_spaces(b, l.start, l.end) {
                Some(k) => k,
                None => {
                    break;
                },
            }
        } else {
            l.start
        };
        if is_blank(b, row_start, l.end) || table_body_line_ends_table(b, l.start, l.end, options) {
            break;
        }
        let cells = split_table_row(b, row_start, l.end, options.constructs.spoiler);
        let mut row_cells: Vec<TableCell> = Vec::new();
        let mut c: usize = 0;
        while c < width
            invariant
                spec_diagnostics_off(options.constructs) ==> diagnostics@ == d0,
                d0 == old(diagnostics)@,
                c <= width,
                base + b@.len() <= usize::MAX,
                l.start <= b@.len(),
            decreases width - c,
        {
            if c < cells.len() && base + l.start <= usize::MAX - cells[c].len() {
                row_cells.push(table_cell(cells[c].as_slice(), base + l.start, options, diagnostics));
            } else {
                row_cells.push(table_cell(&[], base + l.start, options, diagnostics));
            }
            c = c + 1;
        }
        rows.push(TableRow { meta: NodeMeta::new(Some(Span::new(base + l.start, base + l.end))), cells: row_cells });
        cursor = cursor + 1;
    }
    let end = lines[cursor - 1].end_with_eol;
    Some(
        (
            Block::Table(
                Table { meta: NodeMeta::new(Some(Span::new(base + h.start, base + end))), alignments, rows },
            ),
            cursor,
        ),
    )
}

// ---------------------------------------------------------------------------
// Documents.
// ---------------------------------------------------------------------------

/// Whether every line of `lines` is blank.
pub open spec fn spec_all_blank(b: Seq<u8>, lines: Seq<Line>) -> bool {
    forall|i: int| 0 <= i < lines.len() ==> spec_is_blank(b, (#[trigger] lines[i]).start as int, lines[i].end as int)
}

/// Parses the blocks of `b` given its lines; `base` is where `b` starts in
/// the document, and `depth` bounds how deeply containers may nest.
fn parse_blocks_from_lines(
    b: &[u8],
    lines: &[Line],
    base: usize,
    allow_frontmatter: bool,
    options: &ParseContext,
    depth: usize,
    diagnostics: &mut Vec<Diagnostic>,
) -> (r: Vec<Block>)
    requires
        spec_lines_within(lines@, b@.len()),
        spec_lines_ordered(lines@),
        base + b@.len() <= usize::MAX,
    ensures
        spec_diagnostics_off(options.constructs) ==> final(diagnostics)@ == old(diagnostics)@,
        spec_all_blank(b@, lines@) ==> r@.len() == 0 && final(diagnostics)@ == old(diagnostics)@,
        forall|k: int| 0 <= k < r@.len() ==> (#[trigger] crate::ast::spec_block_meta(r@[k])).span is Some,
    decreases depth, 2nat,
{
    let ghost d0 = diagnostics@;
    let n = lines.len();
    let mut blocks: Vec<Block> = Vec::new();
    let mut index: usize = 0;
    while index < n
        invariant
            spec_diagnostics_off(options.constructs) ==> diagnostics@ == d0,
            d0 == old(diagnostics)@,
            n == lines@.len(),
            index <= n,
            spec_lines_within(lines@, b@.len()),
            spec_lines_ordered(lines@),
            base + b@.len() <= usize::MAX,
            spec_all_blank(b@, lines@) ==> blocks@.len() == 0 && diagnostics@ == d0,
            forall|k: int| 0 <= k < blocks@.len() ==> (#[trigger] crate::ast::spec_block_meta(blocks@[k])).span is Some,
        decreases n - index,
    {
        let line = lines[index];
        if is_blank(b, line.start, line.end) {
            index = index + 1;
            continue;
        }
        if allow_frontmatter && index == 0 {
            match parse_frontmatter(b, lines, index, base, options) {
                Some((block, next)) => {
                    blocks.push(block);
                    index = next;
                    continue;
                },
                None => {},
            }
        }
        match parse_container_directive(b, lines, index, base, options, depth, diagnostics) {
            Some((block, next)) => {
                blocks.push(block);
                index = next;
                continue;
            },
            None => {},
        }
        match parse_math_block(b, lines, index, base, options) {
            Some((block, next)) => {
                blocks.push(block);
                index = next;
                continue;
            },
            None => {},
        }
        match parse_fenced_code(b, lines, index, base, options) {
            Some((block, next)) => {
                blocks.push(block);
                index = next;
                continue;
            },
            None => {},
        }
        match parse_block_quote(b, lines, index, base, options, depth, diagnostics) {
            Some((block, next)) => {
                blocks.push(block);
                index = next;
                continue;
            },
            None => {},
        }
        match parse_atx_heading(b, line, base, options, diagnostics) {
            Some(block) => {
                blocks.push(block);
                index = index + 1;
                continue;
            },
            None => {},
        }
        match parse_thematic_break(b, line, base) {
            Some(block) => {
                blocks.push(block);
                index = index + 1;
                continue;
            },
            None => {},
        }
        match parse_list(b, lines, index, base, options, depth, diagnostics) {
            Some((block, next)) => {
                blocks.push(block);
                index = next;
                continue;
            },
            None => {},
        }
        match parse_footnote_definition(b, lines, index, base, options, depth, diagnostics) {
            Some((block, next)) => {
                blocks.push(block);
                index = next;
                continue;
            },
            None => {},
        }
        let after_definition_unbroken = index > 0 && !is_blank(b, lines[index - 1].start, lines[index - 1].end)
            && blocks.len() > 0 && matches!(blocks[blocks.len() - 1], Block::Definition(_));
        match parse_definition(b, lines, index, base, options, after_definition_unbroken) {
            Some((block, next)) => {
                blocks.push(block);
                index = next;
                continue;
            },
            None => {},
        }
        match parse_leaf_directive(b, line, base, options, diagnostics) {
            Some(block) => {
                blocks.push(block);
                index = index + 1;
                continue;
            },
            None => {},
        }
        match parse_html_block(b, lines, index, base, options) {
            Some((block, next)) => {
                blocks.push(block);
                index = next;
                continue;
            },
            None => {},
        }
        match parse_mdx_flow(b, lines, index, base, options, diagnostics) {
            Some((block, next)) => {
                blocks.push(block);
                index = next;
                continue;
            },
            None => {},
        }
        if !after_definition_unbroken {
            match parse_indented_code(b, lines, index, base, options) {
                Some((block, next)) => {
                    blocks.push(block);
                    index = next;
                    continue;
                },
                None => {},
            }
        }
        match parse_table(b, lines, index, base, options, diagnostics) {
            Some((block, next)) => {
                blocks.push(block);
                index = next;
                continue;
            },
            None => {},
        }
        match parse_setext_heading(b, lines, index, base, options, diagnostics) {
            Some((block, next)) => {
                blocks.push(block);
                index = next;
                continue;
            },
            None => {},
        }
        match parse_description_list(b, lines, index, base, options, depth, diagnostics) {
            Some((block, next)) => {
                blocks.push(block);
                index = next;
                continue;
            },
            None => {},
        }
        let (block, next) = parse_paragraph(b, lines, index, base, options, diagnostics);
        blocks.push(block);
        index = next;
    }
    blocks
}

// ---------------------------------------------------------------------------
// Block quotes.
// ---------------------------------------------------------------------------

/// Whether a fence character starts the line after at most three columns.
pub open spec fn spec_fence_char_start(b: Seq<u8>, start: int, end: int) -> bool {
    match crate::text::spec_trim_up_to_three(b.subrange(start, end)) {
        Some(o) => start + o < end && (b[start + o] == 96u8 || b[start + o] == 126u8),
        None => false,
    }
}

/// Whether a line starts a block for lazy continuation (see
/// [`lazy_line_starts_block`]).
pub open spec fn spec_lazy_line_starts_block(b: Seq<u8>, start: int, end: int, c: Constructs) -> bool {
    spec_likely_block_start(b, start, end, c) || (c.html_block && crate::block_start::spec_line_starts_html_block(
        b,
        start,
        end,
    )) || spec_fence_char_start(b, start, end)
}

/// Where a list item's first content starts after the marker at `k` (see
/// [`list_content_start`]).
pub open spec fn spec_list_content_start(b: Seq<u8>, k: int, end: int) -> int {
    let m = k + crate::block_start::spec_digit_run(b, k, end);
    let marker_end = if m > k {
        if m < end {
            m + 1
        } else {
            m
        }
    } else {
        k + 1
    };
    let c = crate::text::spec_space_tab_end(b, marker_end, end);
    if c == end || c - marker_end <= 4 {
        if c > k {
            c
        } else {
            k + 1
        }
    } else if marker_end < end {
        marker_end + 1
    } else {
        end
    }
}

/// Whether the content line `b[start..end]` leaves a paragraph open (see
/// [`quote_paragraph_open`]).
pub open spec fn spec_quote_paragraph_open(b: Seq<u8>, start: int, end: int, c: Constructs) -> bool
    decreases end - start,
{
    match crate::text::spec_trim_up_to_three(b.subrange(start, end)) {
        None => false,
        Some(o) => {
            let k = start + o;
            if k < start || k >= end {
                false
            } else if b[k] == 62u8 {
                let rest = if k + 1 < end && b[k + 1] == 32u8 {
                    k + 2
                } else {
                    k + 1
                };
                spec_quote_paragraph_open(b, rest, end, c)
            } else if crate::block_start::spec_is_list_marker_line(b, k, end) {
                let next = spec_list_content_start(b, k, end);
                if next <= k || next > end {
                    false
                } else {
                    spec_quote_paragraph_open(b, next, end, c)
                }
            } else {
                !spec_lazy_line_starts_block(b, k, end, c)
            }
        },
    }
}

/// Whether a line almost opens a fence: a backtick or tilde after at most
/// three columns of indentation.
fn fence_char_start(b: &[u8], start: usize, end: usize) -> (r: bool)
    requires
        start <= end <= b@.len(),
    ensures
        r == spec_fence_char_start(b@, start as int, end as int),
{
    match trim_up_to_three_spaces(b, start, end) {
        Some(k) => k < end && (b[k] == 96u8 || b[k] == 126u8),
        None => false,
    }
}

/// Whether a line starts a block for lazy continuation: a block start, any
/// HTML block start, or a fence character.
fn lazy_line_starts_block(b: &[u8], start: usize, end: usize, options: &ParseContext) -> (r: bool)
    requires
        start <= end <= b@.len(),
    ensures
        r == spec_lazy_line_starts_block(b@, start as int, end as int, options.constructs),
{
    likely_block_start(b, start, end, options) || (options.constructs.html_block
        && crate::block_start::line_starts_html_block(b, start, end)) || fence_char_start(b, start, end)
}

/// Where a list item's first content starts after the marker at `k`.
fn list_content_start(b: &[u8], k: usize, end: usize) -> (r: usize)
    requires
        k < end <= b@.len(),
    ensures
        k < r <= end,
        r == spec_list_content_start(b@, k as int, end as int),
{
    let mut m = k;
    while m < end && b[m] >= 48u8 && b[m] <= 57u8
        invariant
            k <= m <= end <= b@.len(),
            crate::block_start::spec_digit_run(b@, k as int, end as int) == (m - k) + crate::block_start::spec_digit_run(
                b@,
                m as int,
                end as int,
            ),
        decreases end - m,
    {
        m = m + 1;
    }
    let marker_end = if m > k {
        if m < end {
            m + 1
        } else {
            m
        }
    } else {
        k + 1
    };
    let c = skip_spaces_tabs(b, marker_end, end);
    if c == end || c - marker_end <= 4 {
        if c > k {
            c
        } else {
            k + 1
        }
    } else if marker_end < end {
        marker_end + 1
    } else {
        end
    }
}

/// Whether the content line `b[start..end]` leaves a paragraph open, looking
/// through quote markers and list markers.
fn quote_paragraph_open(b: &[u8], start: usize, end: usize, options: &ParseContext) -> (r: bool)
    requires
        start <= end <= b@.len(),
    ensures
        r == spec_quote_paragraph_open(b@, start as int, end as int, options.constructs),
    decreases end - start,
{
    let k = match trim_up_to_three_spaces(b, start, end) {
        Some(k) => k,
        None => {
            return false;
        },
    };
    if k >= end {
        return false;
    }
    if b[k] == 62u8 {
        let mut rest = k + 1;
        if rest < end && b[rest] == 32u8 {
            rest = rest + 1;
        }
        return quote_paragraph_open(b, rest, end, options);
    }
    if is_list_marker_line(b, k, end) {
        let c = list_content_start(b, k, end);
        return quote_paragraph_open(b, c, end, options);
    }
    !lazy_line_starts_block(b, k, end, options)
}

/// `n` spaces.
pub open spec fn spec_spaces(n: int) -> Seq<u8> {
    Seq::new(n as nat, |i: int| 32u8)
}

/// The spaces and tabs of `b` from `j` with each tab widened to the next tab
/// stop as spaces (`phase` is the column modulo 4 at `j`), then the rest of
/// the line as it is.
pub open spec fn spec_expand_ws(b: Seq<u8>, j: int, end: int, phase: int) -> Seq<u8>
    decreases end - j,
{
    if 0 <= j < end && b[j] == 32u8 {
        seq![32u8] + spec_expand_ws(b, j + 1, end, (phase + 1) % 4)
    } else if 0 <= j < end && b[j] == 9u8 {
        spec_spaces(4 - phase) + spec_expand_ws(b, j + 1, end, 0)
    } else if 0 <= j <= end {
        b.subrange(j, end)
    } else {
        Seq::empty()
    }
}

/// The rest of a line from the tab at `t`, which starts at column `column`,
/// with one column removed (see [`strip_tab_column`]).
pub open spec fn spec_strip_tab_column(b: Seq<u8>, t: int, end: int, column: int) -> Seq<u8> {
    if 4 - column % 4 <= 1 {
        b.subrange(t + 1, end)
    } else {
        spec_spaces(3 - column % 4) + spec_expand_ws(b, t + 1, end, 0)
    }
}

/// The rest of a line from the tab at `t`, where the tab starts at column
/// `column`, with one column removed: the tab's remaining columns and the
/// spaces and tabs that follow become spaces.
fn strip_tab_column(b: &[u8], t: usize, end: usize, column: usize) -> (r: Vec<u8>)
    requires
        t < end <= b@.len(),
    ensures
        r@ == spec_strip_tab_column(b@, t as int, end as int, column as int),
{
    let width = 4 - column % 4;
    if width <= 1 {
        return copy_range(b, t + 1, end);
    }
    let mut out: Vec<u8> = Vec::new();
    let mut i: usize = 0;
    while i < width - 1
        invariant
            i <= width - 1,
            out@ == spec_spaces(i as int),
        decreases width - 1 - i,
    {
        out.push(32u8);
        i = i + 1;
        proof {
            assert(out@ =~= spec_spaces(i as int));
        }
    }
    let mut col_phase: usize = (column % 4 + width) % 4;
    let mut j = t + 1;
    let ghost total = spec_spaces(3 - column % 4) + spec_expand_ws(b@, t + 1, end as int, 0);
    proof {
        assert(col_phase == 0);
    }
    while j < end && (b[j] == 32u8 || b[j] == 9u8)
        invariant
            t < j <= end <= b@.len(),
            col_phase < 4,
            out@ + spec_expand_ws(b@, j as int, end as int, col_phase as int) == total,
        decreases end - j,
    {
        let ghost out0 = out@;
        let ghost phase0 = col_phase;
        if b[j] == 32u8 {
            out.push(32u8);
            col_phase = (col_phase + 1) % 4;
            proof {
                assert(out@ + spec_expand_ws(b@, j + 1, end as int, col_phase as int) =~= out0 + spec_expand_ws(
                    b@,
                    j as int,
                    end as int,
                    phase0 as int,
                ));
            }
        } else {
            let w = 4 - col_phase;
            let mut q: usize = 0;
            while q < w
                invariant
                    q <= w,
                    out@ == out0 + spec_spaces(q as int),
                decreases w - q,
            {
                out.push(32u8);
                q = q + 1;
                proof {
                    assert(out@ =~= out0 + spec_spaces(q as int));
                }
            }
            col_phase = 0;
            proof {
                assert(out@ + spec_expand_ws(b@, j + 1, end as int, 0) =~= out0 + spec_expand_ws(
                    b@,
                    j as int,
                    end as int,
                    phase0 as int,
                ));
            }
        }
        j = j + 1;
    }
    let ghost out1 = out@;
    push_range(&mut out, b, j, end);
    proof {
        assert(out@ =~= out1 + spec_expand_ws(b@, j as int, end as int, col_phase as int));
    }
    out
}

/// The text of a marked quote line after `>` at `k`: one following space is
/// dropped; a following tab gives up one column and keeps the rest as spaces.
fn quote_rest(b: &[u8], k: usize, end: usize, marker_column: usize) -> (r: (Vec<u8>, usize))
    requires
        k < end <= b@.len(),
    ensures
        k < r.1 <= end,
{
    let r = k + 1;
    if r < end && b[r] == 32u8 {
        return (copy_range(b, r + 1, end), r + 1);
    }
    if r < end && b[r] == 9u8 {
        return (strip_tab_column(b, r, end, marker_column), r + 1);
    }
    (copy_range(b, r, end), r)
}

fn parse_block_quote(
    b: &[u8],
    lines: &[Line],
    index: usize,
    base: usize,
    options: &ParseContext,
    depth: usize,
    diagnostics: &mut Vec<Diagnostic>,
) -> (r: Option<(Block, usize)>)
    requires
        index < lines@.len(),
        spec_lines_within(lines@, b@.len()),
        base + b@.len() <= usize::MAX,
    ensures
        r matches Some(x) ==> crate::ast::spec_block_meta(x.0).span is Some,
        spec_diagnostics_off(options.constructs) ==> final(diagnostics)@ == old(diagnostics)@,
        r matches Some(x) ==> index < x.1 <= lines@.len() && (x.0 is BlockQuote || x.0 is Alert),
    decreases depth, 0nat,
{
    let ghost d0 = diagnostics@;
    let first = lines[index];
    let k0 = trim_up_to_three_spaces(b, first.start, first.end)?;
    if !(k0 < first.end && b[k0] == 62u8) {
        return None;
    }
    let n = lines.len();
    let mut content: Vec<u8> = Vec::new();
    let mut lazy_flags: Vec<bool> = Vec::new();
    let mut cursor = index;
    let mut paragraph_open = false;
    let mut content_base: usize = first.start;
    while cursor < n
        invariant
            spec_diagnostics_off(options.constructs) ==> diagnostics@ == d0,
            d0 == old(diagnostics)@,
            n == lines@.len(),
            index <= cursor <= n,
            spec_lines_within(lines@, b@.len()),
            base + b@.len() <= usize::MAX,
            content_base <= b@.len(),
        decreases n - cursor,
    {
        let l = lines[cursor];
        let t = trim_up_to_three_spaces(b, l.start, l.end);
        let marked = match t {
            Some(k) => k < l.end && b[k] == 62u8,
            None => false,
        };
        match t {
            Some(k) => {
                if k == l.end {
                    break;
                }
            },
            None => {},
        }
        let (line, line_start) = if marked {
            let k = t.unwrap();
            let column = leading_indent_columns(b, l.start, l.end);
            let col = if column < usize::MAX {
                column + 1
            } else {
                column
            };
            quote_rest(b, k, l.end, col)
        } else if paragraph_open && !lazy_line_starts_block(b, l.start, l.end, options) {
            (copy_range(b, l.start, l.end), l.start)
        } else {
            break;
        };
        paragraph_open = quote_paragraph_open(line.as_slice(), 0, line.len(), options);
        if cursor == index {
            content_base = line_start;
        }
        if content.len() > 0 {
            content.push(10u8);
        }
        push_bytes(&mut content, line.as_slice());
        lazy_flags.push(!marked);
        cursor = cursor + 1;
    }
    if cursor == index {
        return None;
    }
    let last = lines[cursor - 1];
    let cl = content.len();
    if last.end < last.end_with_eol && !(cl > 0 && (content[cl - 1] == 10u8 || content[cl - 1] == 13u8)) {
        push_range(&mut content, b, last.end, last.end_with_eol);
    }
    if container_closed_after_unclosed_fence(b, lines, cursor, cursor - 1, content.as_slice(), options) {
        content.push(10u8);
    }
    let child_base = base + content_base;
    let mut child_lines = collect_lines(content.as_slice());
    let m = child_lines.len();
    let mut i: usize = 0;
    while i < m && i < lazy_flags.len()
        invariant
            spec_diagnostics_off(options.constructs) ==> diagnostics@ == d0,
            d0 == old(diagnostics)@,
            m == child_lines@.len(),
            i <= m,
            spec_lines_within(child_lines@, content@.len()),
            spec_lines_ordered(child_lines@),
        decreases m - i,
    {
        let old = child_lines[i];
        child_lines.set(i, Line { start: old.start, end: old.end, end_with_eol: old.end_with_eol, lazy: lazy_flags[i] });
        i = i + 1;
    }
    if options.constructs.gfm_alert {
        let nl = match crate::text::find_byte_from(content.as_slice(), 0, 10u8) {
            Some(k) => k,
            None => content.len(),
        };
        match parse_alert_marker(content.as_slice(), nl) {
            Some((kind, title)) => {
                let rest_start = if nl < content.len() {
                    nl + 1
                } else {
                    nl
                };
                let rest = copy_range(content.as_slice(), rest_start, content.len());
                let rest_base = if child_base <= usize::MAX - content.len() {
                    child_base + rest_start
                } else {
                    child_base
                };
                let rest_lines = collect_lines(rest.as_slice());
                let children = if rest.len() > 0 && depth > 0 && rest_base <= usize::MAX - rest.len() {
                    parse_blocks_from_lines(rest.as_slice(), rest_lines.as_slice(), rest_base, false, options, depth - 1, diagnostics)
                } else {
                    Vec::new()
                };
                let alert = Alert {
                    meta: NodeMeta::new(Some(Span::new(base + first.start, base + last.end_with_eol))),
                    kind,
                    title,
                    children,
                };
                return Some((Block::Alert(alert), cursor));
            },
            None => {},
        }
    }
    let children = if depth > 0 && child_base <= usize::MAX - content.len() {
        parse_blocks_from_lines(content.as_slice(), child_lines.as_slice(), child_base, false, options, depth - 1, diagnostics)
    } else {
        Vec::new()
    };
    let quote = BlockQuote {
        meta: NodeMeta::new(Some(Span::new(base + first.start, base + last.end_with_eol))),
        children,
    };
    Some((Block::BlockQuote(quote), cursor))
}

/// Whether `c` is the first `]` of `b`.
pub open spec fn spec_first_close_bracket(b: Seq<u8>, c: int) -> bool {
    0 <= c < b.len() && b[c] == 93u8 && forall|j: int| 0 <= j < c ==> b[j] != 93u8
}

/// The alert kind that a lowercased marker name spells.
pub open spec fn spec_alert_kind(name: Seq<u8>) -> Option<AlertKind> {
    if name == seq![110u8, 111u8, 116u8, 101u8] {
        Some(AlertKind::Note)
    } else if name == seq![116u8, 105u8, 112u8] {
        Some(AlertKind::Tip)
    } else if name == seq![105u8, 109u8, 112u8, 111u8, 114u8, 116u8, 97u8, 110u8, 116u8] {
        Some(AlertKind::Important)
    } else if name == seq![119u8, 97u8, 114u8, 110u8, 105u8, 110u8, 103u8] {
        Some(AlertKind::Warning)
    } else if name == seq![99u8, 97u8, 117u8, 116u8, 105u8, 111u8, 110u8] {
        Some(AlertKind::Caution)
    } else {
        None
    }
}

/// Whether `b` starts with `[!KIND]`, closed at `c` before `end`.
pub open spec fn spec_alert_marker_at(b: Seq<u8>, c: int, end: int) -> bool {
    c < end && c >= 2 && b[0] == 91u8 && b[1] == 33u8 && spec_alert_kind(
        crate::block_start::spec_lower_range(b, 2, c),
    ) is Some
}

/// An alert marker `[!KIND] title` on `b[0..end]`: its kind (note, tip,
/// important, warning or caution, in any case) and its title, if any.
fn parse_alert_marker(b: &[u8], end: usize) -> (r: Option<(AlertKind, Option<String>)>)
    requires
        end <= b@.len(),
    ensures
        r is Some <==> exists|c: int| spec_first_close_bracket(b@, c) && spec_alert_marker_at(b@, c, end as int),
        forall|c: int|
            #![trigger spec_first_close_bracket(b@, c)]
            spec_first_close_bracket(b@, c) && spec_alert_marker_at(b@, c, end as int) ==> {
                let ts = crate::mdx::spec_skip_ws_within(b@, c + 1, end as int);
                let te = crate::block_start::spec_trim_end(b@, ts, end as int);
                r matches Some(x) && Some(x.0) == spec_alert_kind(crate::block_start::spec_lower_range(b@, 2, c)) && (
                x.1 is None <==> ts == te) && (x.1 matches Some(t) ==> t@ == crate::text::spec_lossy_utf8(
                    b@.subrange(ts, te),
                ))
            },
{
    let close = match crate::text::find_byte_from(b, 0, 93u8) {
        Some(c) => c,
        None => {
            proof {
                assert forall|c: int| !spec_first_close_bracket(b@, c) by {
                    if spec_first_close_bracket(b@, c) {
                        assert(b@[c] == 93u8);
                    }
                }
            }
            return None;
        },
    };
    proof {
        assert(spec_first_close_bracket(b@, close as int));
        assert forall|c: int| spec_first_close_bracket(b@, c) implies c == close by {
            if c < close {
                assert(b@[c] != 93u8);
            } else if c > close {
                assert(b@[close as int] != 93u8);
            }
        }
    }
    if close >= end || close < 2 || b[0] != 91u8 || b[1] != 33u8 {
        return None;
    }
    let kind = if lower_range_equals(b, 2, close, &[110u8, 111u8, 116u8, 101u8]) {
        AlertKind::Note
    } else if lower_range_equals(b, 2, close, &[116u8, 105u8, 112u8]) {
        AlertKind::Tip
    } else if lower_range_equals(b, 2, close, &[105u8, 109u8, 112u8, 111u8, 114u8, 116u8, 97u8, 110u8, 116u8]) {
        AlertKind::Important
    } else if lower_range_equals(b, 2, close, &[119u8, 97u8, 114u8, 110u8, 105u8, 110u8, 103u8]) {
        AlertKind::Warning
    } else if lower_range_equals(b, 2, close, &[99u8, 97u8, 117u8, 116u8, 105u8, 111u8, 110u8]) {
        AlertKind::Caution
    } else {
        return None;
    };
    let ts = skip_all_ws(b, close + 1, end);
    let te = trim_end(b, ts, end);
    let title = if ts == te {
        None
    } else {
        Some(string_from_range(b, ts, te))
    };
    Some((kind, title))
}

// ---------------------------------------------------------------------------
// Lists.
// ---------------------------------------------------------------------------

/// A list marker on a line.
#[derive(Clone, Copy)]
struct ListMarkerInfo {
    ordered: bool,
    start: Option<u64>,
    delimiter: ListDelimiter,
    /// The bytes of indentation before the marker.
    indent: usize,
    /// The marker's length: 1 for a bullet, digits and delimiter otherwise.
    marker_len: usize,
    /// The column where the item's content starts.
    content_indent: usize,
    /// Where the item's first content starts in the input.
    content: usize,
    /// Where the marker starts in the input.
    marker_at: usize,
}

/// The offset of a list item's content from its marker at `k`, and the
/// content's column: one to four columns of padding are skipped; more (or
/// none before the end) leave the content one column after the marker.
fn list_content_offset(b: &[u8], k: usize, end: usize, marker_len: usize, indent: usize) -> (r: (usize, usize))
    requires
        k <= end <= b@.len(),
        k + marker_len <= end,
        indent <= 3,
        marker_len <= 10,
    ensures
        k + r.0 <= end,
        r.0 >= marker_len,
        r.1 <= indent + marker_len + 5,
{
    if k + marker_len >= end {
        return (marker_len, indent + marker_len + 1);
    }
    let marker_end = indent + marker_len;
    let mut column = marker_end;
    let mut cursor = marker_len;
    while k + cursor < end && (b[k + cursor] == 32u8 || b[k + cursor] == 9u8)
        invariant
            k + marker_len <= k + cursor <= end <= b@.len(),
            marker_end <= column,
            marker_end == indent + marker_len,
            indent <= 3,
            marker_len <= 10,
            column <= marker_end + 8,
        decreases end - (k + cursor),
    {
        if column <= marker_end + 4 {
            if b[k + cursor] == 32u8 {
                column = column + 1;
            } else {
                column = column + 4 - column % 4;
            }
        }
        cursor = cursor + 1;
    }
    if k + cursor >= end {
        return (cursor, marker_end + 1);
    }
    let padding = column - marker_end;
    if padding > 0 && padding <= 4 {
        (cursor, column)
    } else {
        (marker_len + 1, marker_end + 1)
    }
}

/// Leading indentation takes no more bytes than columns.
proof fn lemma_indent_bytes_within_columns(b: Seq<u8>, k: int, col: nat)
    requires
        0 <= k,
    ensures
        crate::text::spec_leading_indent_from(b, k, col).1 - k <= crate::text::spec_leading_indent_from(b, k, col).0 - col,
    decreases b.len() - k,
{
    if 0 <= k < b.len() && b[k] == 32u8 {
        lemma_indent_bytes_within_columns(b, k + 1, col + 1);
    } else if 0 <= k < b.len() && b[k] == 9u8 {
        lemma_indent_bytes_within_columns(b, k + 1, (col + 4 - col % 4) as nat);
    }
}

fn list_marker_info(b: &[u8], s: usize, e: usize) -> (r: Option<ListMarkerInfo>)
    requires
        s <= e <= b@.len(),
    ensures
        r matches Some(m) ==> s <= m.marker_at < m.content <= e && m.marker_at + m.marker_len <= e && m.indent <= 3
            && m.content_indent <= 20 && m.marker_len <= 10,
        r is Some <==> crate::block_start::spec_is_list_marker_line(b@, s as int, e as int),
        r matches Some(m) ==> {
            let at = m.marker_at as int;
            &&& crate::text::spec_trim_up_to_three(b@.subrange(s as int, e as int)) == Some(at - s)
            &&& m.indent == at - s
            &&& m.ordered == crate::text::spec_is_ascii_digit(b@[at])
            &&& !m.ordered ==> m.marker_len == 1 && m.start is None && m.delimiter == (if b@[at] == 45u8 {
                ListDelimiter::Dash
            } else if b@[at] == 42u8 {
                ListDelimiter::Asterisk
            } else {
                ListDelimiter::Plus
            })
            &&& m.ordered ==> m.marker_len == crate::block_start::spec_digit_run(b@, at, e as int) + 1 && m.start is Some
                && m.delimiter == (if b@[at + m.marker_len - 1] == 46u8 {
                ListDelimiter::Period
            } else {
                ListDelimiter::Paren
            })
        },
{
    let k = trim_up_to_three_spaces(b, s, e)?;
    proof {
        lemma_indent_bytes_within_columns(b@.subrange(s as int, e as int), 0, 0);
    }
    if k >= e {
        return None;
    }
    let indent = k - s;
    if indent > 3 {
        return None;
    }
    let c = b[k];
    if (c == 45u8 || c == 42u8 || c == 43u8) && (k + 1 >= e || b[k + 1] == 32u8 || b[k + 1] == 9u8) {
        let delimiter = if c == 45u8 {
            ListDelimiter::Dash
        } else if c == 42u8 {
            ListDelimiter::Asterisk
        } else {
            ListDelimiter::Plus
        };
        let (off, ci) = list_content_offset(b, k, e, 1, indent);
        return Some(
            ListMarkerInfo {
                ordered: false,
                start: None,
                delimiter,
                indent,
                marker_len: 1,
                content_indent: ci,
                content: k + off,
                marker_at: k,
            },
        );
    }
    if !(c >= 48u8 && c <= 57u8) {
        return None;
    }
    let mut d = k;
    let mut value: u64 = 0;
    while d < e && b[d] >= 48u8 && b[d] <= 57u8 && d - k < 10
        invariant
            k <= d <= e <= b@.len(),
            d - k <= 10,
            value < 100000000000,
            crate::block_start::spec_digit_run(b@, k as int, e as int) == (d - k) + crate::block_start::spec_digit_run(
                b@,
                d as int,
                e as int,
            ),
        decreases e - d,
    {
        if value < 1000000000 {
            value = value * 10 + (b[d] - 48u8) as u64;
        }
        d = d + 1;
    }
    let digits = d - k;
    if digits > 9 || d >= e {
        return None;
    }
    let delimiter = if b[d] == 46u8 {
        ListDelimiter::Period
    } else if b[d] == 41u8 {
        ListDelimiter::Paren
    } else {
        return None;
    };
    if !(d + 1 >= e || b[d + 1] == 32u8 || b[d + 1] == 9u8) {
        return None;
    }
    let marker_len = digits + 1;
    let (off, ci) = list_content_offset(b, k, e, marker_len, indent);
    Some(
        ListMarkerInfo {
            ordered: true,
            start: Some(value),
            delimiter,
            indent,
            marker_len,
            content_indent: ci,
            content: k + off,
            marker_at: k,
        },
    )
}

/// Whether two markers belong to one list: both ordered or both bullets, with
/// the same delimiter.
fn same_list_marker(left: ListMarkerInfo, right: ListMarkerInfo) -> (r: bool) {
    left.ordered == right.ordered && left.delimiter == right.delimiter
}

/// The first content of an item: after its marker and padding, or, when a tab
/// follows the marker, the rest with one column removed.
fn list_marker_first_content(b: &[u8], e: usize, marker: ListMarkerInfo) -> (r: Vec<u8>)
    requires
        marker.marker_at + marker.marker_len <= e <= b@.len(),
        marker.content <= e,
        marker.indent <= 3,
        marker.marker_len <= 10,
    ensures
        ({
            let after = marker.marker_at + marker.marker_len;
            r@ == if after < e && b@[after] == 9u8 {
                spec_strip_tab_column(b@, after, e as int, marker.indent + marker.marker_len)
            } else {
                b@.subrange(marker.content as int, e as int)
            }
        }),
{
    let after = marker.marker_at + marker.marker_len;
    if after < e && b[after] == 9u8 {
        strip_tab_column(b, after, e, marker.indent + marker.marker_len)
    } else {
        copy_range(b, marker.content, e)
    }
}

/// The columns and bytes of the leading spaces and tabs of `b[s..e]`.
fn leading_indent(b: &[u8], s: usize, e: usize) -> (r: (usize, usize))
    requires
        s <= e <= b@.len(),
    ensures
        s + r.1 <= e,
        r.0 == spec_indent_columns(b@, s as int, e as int, 0),
        s + r.1 == crate::text::spec_space_tab_end(b@, s as int, e as int),
{
    let mut col: usize = 0;
    let mut k = s;
    while k < e && (b[k] == 32u8 || b[k] == 9u8)
        invariant
            s <= k <= e <= b@.len(),
            spec_indent_columns(b@, k as int, e as int, col as int) == spec_indent_columns(b@, s as int, e as int, 0),
            crate::text::spec_space_tab_end(b@, k as int, e as int) == crate::text::spec_space_tab_end(
                b@,
                s as int,
                e as int,
            ),
        decreases e - k,
    {
        if col <= usize::MAX - 4 {
            if b[k] == 32u8 {
                col = col + 1;
            } else {
                col = col + 4 - col % 4;
            }
        }
        k = k + 1;
    }
    (col, k - s)
}

/// A continuation line of an item: `content_indent` columns removed when it is
/// indented that far, else its leading spaces and tabs.
fn strip_list_continuation(b: &[u8], s: usize, e: usize, content_indent: usize) -> (r: Vec<u8>)
    requires
        s <= e <= b@.len(),
        content_indent <= 20,
    ensures
        r@ == (if spec_indent_columns(b@, s as int, e as int, 0) >= content_indent {
            spec_strip_indent(b@, s as int, e as int, 0, content_indent as int)
        } else {
            b@.subrange(crate::text::spec_space_tab_end(b@, s as int, e as int), e as int)
        }),
{
    let (cols, bytes) = leading_indent(b, s, e);
    if cols >= content_indent {
        let mut out: Vec<u8> = Vec::new();
        push_stripped_indent(&mut out, b, s, e, content_indent);
        proof {
            assert(out@ =~= spec_strip_indent(b@, s as int, e as int, 0, content_indent as int));
        }
        out
    } else {
        copy_range(b, s + bytes, e)
    }
}

/// Whether an item's paragraph stays open after `line`.
fn list_item_paragraph_stays_open(previous_open: Option<bool>, line: &[u8], options: &ParseContext) -> (r: bool) {
    if is_blank(line, 0, line.len()) {
        return false;
    }
    if previous_open == Some(false) {
        return false;
    }
    quote_paragraph_open(line, 0, line.len(), options)
}

// ---------------------------------------------------------------------------
// MDX blocks.
// ---------------------------------------------------------------------------

/// The text of lines `index..=last`, joined by line feeds.
fn joined_lines(b: &[u8], lines: &[Line], index: usize, last: usize) -> (r: Vec<u8>)
    requires
        index <= last < lines@.len(),
        spec_lines_within(lines@, b@.len()),
    ensures
        r@ == spec_joined_lines(b@, lines@, index as int, last + 1),
{
    let mut out: Vec<u8> = Vec::new();
    push_range(&mut out, b, lines[index].start, lines[index].end);
    assert(out@ =~= spec_joined_lines(b@, lines@, index as int, index + 1));
    let mut k = index + 1;
    while k <= last
        invariant
            index < k <= last + 1,
            last < lines@.len(),
            spec_lines_within(lines@, b@.len()),
            out@ == spec_joined_lines(b@, lines@, index as int, k as int),
        decreases last + 1 - k,
    {
        out.push(10u8);
        push_range(&mut out, b, lines[k].start, lines[k].end);
        assert(out@ =~= spec_joined_lines(b@, lines@, index as int, k + 1));
        k = k + 1;
    }
    out
}

/// An MDX block at line `index`: an ESM `import`/`export` block, a `{…}`
/// expression block, or a JSX element; an unclosed one is reported.
fn parse_mdx_flow(
    b: &[u8],
    lines: &[Line],
    index: usize,
    base: usize,
    options: &ParseContext,
    diagnostics: &mut Vec<Diagnostic>,
) -> (r: Option<(Block, usize)>)
    requires
        index < lines@.len(),
        spec_lines_within(lines@, b@.len()),
        spec_lines_ordered(lines@),
        base + b@.len() <= usize::MAX,
    ensures
        r matches Some(x) ==> crate::ast::spec_block_meta(x.0).span is Some,
        spec_diagnostics_off(options.constructs) ==> final(diagnostics)@ == old(diagnostics)@,
        r matches Some(x) ==> index < x.1 <= lines@.len(),
{
    let m = lines.len();
    let l = lines[index];
    if options.constructs.mdx_esm {
        match esm_block(b, lines, index) {
            Some((end, text, unclosed)) => {
                let last = lines[end - 1];
                if unclosed {
                    diagnostics.push(
                        Diagnostic::new(
                            DiagnosticSeverity::Error,
                            DiagnosticCode::InvalidMdx,
                            Span::new(base + l.start, base + last.end_with_eol),
                            "MDX ESM block is missing a closing delimiter",
                        ),
                    );
                }
                let block = Block::MdxEsm(
                    MdxEsm {
                        meta: NodeMeta::new(Some(Span::new(base + l.start, base + last.end))),
                        value: string_from_bytes(text.as_slice()),
                    },
                );
                return Some((block, end));
            },
            None => {},
        }
    }
    let sb = skip_ws_within(b, l.start, l.end);
    let last_end = lines[m - 1].end_with_eol;
    if options.constructs.mdx_expression_block && sb < l.end && b[sb] == 123u8 {
        match expression_block_close(b, lines, index, sb) {
            Some((cl, cb)) => {
                let close = lines[cl].start + cb;
                let value = expression_block_value(b, lines, index, sb, cl, close);
                let block = Block::MdxExpression(
                    MdxExpression {
                        meta: NodeMeta::new(Some(Span::new(base + l.start, base + lines[cl].end))),
                        value: string_from_bytes(value.as_slice()),
                    },
                );
                return Some((block, cl + 1));
            },
            None => {
                diagnostics.push(
                    Diagnostic::new(
                        DiagnosticSeverity::Error,
                        DiagnosticCode::InvalidMdx,
                        Span::new(base + sb, base + last_end),
                        "MDX expression block is missing a closing brace",
                    ),
                );
            },
        }
    }
    if options.constructs.mdx_jsx_block && sb < l.end && b[sb] == 60u8 {
        match jsx_block_close(b, lines, index) {
            Some(cl) => {
                let value = joined_lines(b, lines, index, cl);
                let block = Block::MdxJsx(
                    MdxJsx {
                        meta: NodeMeta::new(Some(Span::new(base + l.start, base + lines[cl].end))),
                        value: string_from_bytes(value.as_slice()),
                    },
                );
                return Some((block, cl + 1));
            },
            None => {},
        }
        match jsx_tag_start(b, sb, l.end) {
            Some((false, _)) => {
                match tag_end_lines(b, lines, index, sb) {
                    Some((_, _, false)) => {
                        diagnostics.push(
                            Diagnostic::new(
                                DiagnosticSeverity::Error,
                                DiagnosticCode::InvalidMdx,
                                Span::new(base + sb, base + last_end),
                                "MDX JSX block is missing a closing tag",
                            ),
                        );
                    },
                    _ => {},
                }
            },
            _ => {},
        }
    }
    None
}

/// Whether the last fenced code block opened in `content` is still open and
/// holds only blank lines.
fn content_has_unclosed_fenced_code(content: &[u8], options: &ParseContext) -> (r: bool) {
    let lines = collect_lines(content);
    let m = lines.len();
    let mut open: Option<(FenceMarker, usize, bool)> = None;
    let mut i: usize = 0;
    while i < m
        invariant
            m == lines@.len(),
            i <= m,
            spec_lines_within(lines@, content@.len()),
        decreases m - i,
    {
        let l = lines[i];
        i = i + 1;
        let k = match fence_line(content, l.start, l.end, options) {
            Some(k) => k,
            None => {
                continue;
            },
        };
        match open {
            Some((marker, length, nonblank)) => {
                if fence_close(content, k, l.end, marker, length) {
                    open = None;
                } else {
                    open = Some((marker, length, nonblank || !is_blank(content, k, l.end)));
                }
                continue;
            },
            None => {},
        }
        match fence_start(content, k, l.end) {
            Some((marker, length)) => {
                let info = copy_range(content, k + length, l.end);
                if marker != FenceMarker::Backtick || !crate::text::contains_byte(info.as_slice(), 96u8) {
                    open = Some((marker, length, false));
                }
            },
            None => {},
        }
    }
    match open {
        Some((_, _, nonblank)) => !nonblank,
        None => false,
    }
}

/// A container whose last line (ending in a line break) is followed by the end
/// of the input or a blank line closes an unclosed, still empty fenced code
/// block: it gets one more line break.
fn container_closed_after_unclosed_fence(
    b: &[u8],
    lines: &[Line],
    cursor: usize,
    last: usize,
    content: &[u8],
    options: &ParseContext,
) -> (r: bool)
    requires
        last < lines@.len(),
        spec_lines_within(lines@, b@.len()),
{
    let l = lines[last];
    if !(l.end < l.end_with_eol) {
        return false;
    }
    if cursor < lines.len() {
        let c = lines[cursor];
        if !is_blank(b, c.start, c.end) {
            return false;
        }
    }
    content_has_unclosed_fenced_code(content, options)
}

/// Tracks whether an item's content is inside a fenced code block.
fn update_list_item_fence(line: &[u8], open_fence: Option<(FenceMarker, usize)>) -> (r: Option<(FenceMarker, usize)>)
    ensures
        r == match crate::text::spec_trim_up_to_three(line@) {
            None => open_fence,
            Some(k) => match open_fence {
                Some((marker, length)) => if spec_fence_close(line@, k, line@.len() as int, marker, length as int) {
                    None
                } else {
                    open_fence
                },
                None => match spec_fence_start(line@, k, line@.len() as int) {
                    Some((m, l)) => Some((m, l as usize)),
                    None => None,
                },
            },
        },
{
    let n = line.len();
    assert(line@.subrange(0, n as int) =~= line@);
    let k = match trim_up_to_three_spaces(line, 0, n) {
        Some(k) => k,
        None => {
            return open_fence;
        },
    };
    match open_fence {
        Some((marker, length)) => {
            if fence_close(line, k, n, marker, length) {
                None
            } else {
                open_fence
            }
        },
        None => match fence_start(line, k, n) {
            Some(f) => Some(f),
            None => None,
        },
    }
}

/// Whether a line holds a sibling item: a marker of the same list indented
/// less than the current item's content.
fn sibling_list_marker_at_line(b: &[u8], s: usize, e: usize, first: ListMarkerInfo, content_indent: usize) -> (r: bool)
    requires
        s <= e <= b@.len(),
{
    match list_marker_info(b, s, e) {
        Some(candidate) => same_list_marker(first, candidate) && candidate.indent < content_indent,
        None => false,
    }
}

/// Whether `block` starts, relative to `base`, after offset `first_blank`.
pub open spec fn spec_starts_after(block: Block, base: usize, first_blank: usize) -> bool {
    match crate::ast::spec_block_meta(block).span {
        Some(span) => (if span.start >= base {
            span.start - base
        } else {
            0
        }) > first_blank,
        None => false,
    }
}

/// Whether some top-level child of an item starts after its first blank line.
fn blank_separates_top_level_blocks(first_blank: Option<usize>, children: &Vec<Block>, child_base: usize) -> (r: bool)
    ensures
        r == (first_blank is Some && children@.len() >= 2 && exists|i: int|
            0 <= i < children@.len() && spec_starts_after(#[trigger] children@[i], child_base, first_blank->0)),
{
    let fb = match first_blank {
        Some(f) => f,
        None => {
            return false;
        },
    };
    if children.len() < 2 {
        return false;
    }
    let mut i: usize = 0;
    while i < children.len()
        invariant
            i <= children@.len(),
            first_blank == Some(fb),
            children@.len() >= 2,
            forall|j: int| 0 <= j < i ==> !spec_starts_after(#[trigger] children@[j], child_base, fb),
        decreases children@.len() - i,
    {
        assert(spec_starts_after(children@[i as int], child_base, fb) ==> exists|j: int|
            0 <= j < children@.len() && spec_starts_after(#[trigger] children@[j], child_base, fb));
        match children[i].meta().span {
            Some(span) => {
                let rel = if span.start >= child_base {
                    span.start - child_base
                } else {
                    0
                };
                if rel > fb {
                    return true;
                }
            },
            None => {},
        }
        i = i + 1;
    }
    false
}

/// Appends a content line (a `\n` before it unless `content` is empty).
fn push_content_line(content: &mut Vec<u8>, line: &[u8]) {
    if content.len() > 0 {
        content.push(10u8);
    }
    push_bytes(content, line);
}

/// The lines of `content` with the given lazy flags.
fn lines_with_lazy(content: &[u8], flags: &Vec<bool>) -> (r: Vec<Line>)
    ensures
        spec_lines_within(r@, content@.len()),
        spec_lines_ordered(r@),
        spec_lines_of(content@, r@),
        forall|i: int| 0 <= i < r@.len() ==> (#[trigger] r@[i]).lazy == (i < flags@.len() && flags@[i]),
{
    let mut lines = collect_lines(content);
    let m = lines.len();
    let mut i: usize = 0;
    while i < m && i < flags.len()
        invariant
            m == lines@.len(),
            i <= m,
            spec_lines_within(lines@, content@.len()),
            spec_lines_ordered(lines@),
            spec_lines_of(content@, lines@),
            i <= flags@.len(),
            forall|j: int| 0 <= j < i ==> (#[trigger] lines@[j]).lazy == flags@[j],
            forall|j: int| i <= j < m ==> !(#[trigger] lines@[j]).lazy,
        decreases m - i,
    {
        let old = lines[i];
        lines.set(i, Line { start: old.start, end: old.end, end_with_eol: old.end_with_eol, lazy: flags[i] });
        i = i + 1;
    }
    lines
}

fn parse_list(
    b: &[u8],
    lines: &[Line],
    index: usize,
    base: usize,
    options: &ParseContext,
    depth: usize,
    diagnostics: &mut Vec<Diagnostic>,
) -> (r: Option<(Block, usize)>)
    requires
        index < lines@.len(),
        spec_lines_within(lines@, b@.len()),
        base + b@.len() <= usize::MAX,
    ensures
        r matches Some(x) ==> crate::ast::spec_block_meta(x.0).span is Some,
        spec_diagnostics_off(options.constructs) ==> final(diagnostics)@ == old(diagnostics)@,
        r matches Some(x) ==> index < x.1 <= lines@.len() && x.0 is List,
    decreases depth, 0nat,
{
    let ghost d0 = diagnostics@;
    let n = lines.len();
    let first_line = lines[index];
    let first_marker = list_marker_info(b, first_line.start, first_line.end)?;
    let mut items: Vec<ListItem> = Vec::new();
    let mut cursor = index;
    let mut tight = true;
    while cursor < n
        invariant
            spec_diagnostics_off(options.constructs) ==> diagnostics@ == d0,
            d0 == old(diagnostics)@,
            n == lines@.len(),
            index <= cursor <= n,
            spec_lines_within(lines@, b@.len()),
            base + b@.len() <= usize::MAX,
            items@.len() == 0 ==> cursor == index,
        decreases n - cursor,
    {
        let l = lines[cursor];
        if thematic_break_marker(b, l.start, l.end).is_some() {
            break;
        }
        let marker = match list_marker_info(b, l.start, l.end) {
            Some(m) => m,
            None => {
                break;
            },
        };
        if !same_list_marker(first_marker, marker) {
            break;
        }
        let item_start = cursor;
        let mut item_end = cursor;
        let mut item_tight = true;
        let mut first_blank: Option<usize> = None;
        let mut content: Vec<u8> = Vec::new();
        let mut lazy_flags: Vec<bool> = Vec::new();
        let first_content = list_marker_first_content(b, l.end, marker);
        let mut paragraph_open = list_item_paragraph_stays_open(None, first_content.as_slice(), options);
        let mut item_started_blank = is_blank(first_content.as_slice(), 0, first_content.len());
        let mut open_fence = update_list_item_fence(first_content.as_slice(), None);
        push_content_line(&mut content, first_content.as_slice());
        lazy_flags.push(false);
        cursor = cursor + 1;
        while cursor < n
            invariant
                spec_diagnostics_off(options.constructs) ==> diagnostics@ == d0,
                d0 == old(diagnostics)@,
                n == lines@.len(),
                item_start < cursor <= n,
                item_start <= item_end < cursor,
                spec_lines_within(lines@, b@.len()),
                base + b@.len() <= usize::MAX,
                marker.content_indent <= 20,
            decreases n - cursor,
        {
            let cl = lines[cursor];
            if is_blank(b, cl.start, cl.end) {
                if open_fence.is_some() {
                    let stripped = strip_list_continuation(b, cl.start, cl.end, marker.content_indent);
                    push_content_line(&mut content, stripped.as_slice());
                    lazy_flags.push(false);
                    open_fence = update_list_item_fence(stripped.as_slice(), open_fence);
                    item_end = cursor;
                    cursor = cursor + 1;
                    continue;
                }
                let mut next = cursor + 1;
                while next < n && is_blank(b, lines[next].start, lines[next].end)
                    invariant
                        spec_diagnostics_off(options.constructs) ==> diagnostics@ == d0,
                        d0 == old(diagnostics)@,
                        cursor < next <= n == lines@.len(),
                        spec_lines_within(lines@, b@.len()),
                    decreases n - next,
                {
                    next = next + 1;
                }
                let next_is_sibling = next < n && sibling_list_marker_at_line(
                    b,
                    lines[next].start,
                    lines[next].end,
                    first_marker,
                    marker.content_indent,
                );
                let next_dedented = next < n && leading_indent(b, lines[next].start, lines[next].end).0
                    < marker.content_indent;
                if item_started_blank || next >= n || next_is_sibling || next_dedented {
                    if next_is_sibling {
                        item_tight = false;
                    }
                    cursor = next;
                    break;
                }
                if first_blank.is_none() && content.len() < usize::MAX {
                    first_blank = Some(content.len() + if content.len() > 0 { 1 } else { 0 });
                }
                paragraph_open = false;
                push_content_line(&mut content, &[]);
                lazy_flags.push(false);
                item_end = cursor;
                cursor = cursor + 1;
                continue;
            }
            item_started_blank = false;
            if sibling_list_marker_at_line(b, cl.start, cl.end, first_marker, marker.content_indent) {
                break;
            }
            let dedented = leading_indent(b, cl.start, cl.end).0 < marker.content_indent;
            if dedented {
                let other_marker = match list_marker_info(b, cl.start, cl.end) {
                    Some(m) => !same_list_marker(first_marker, m),
                    None => false,
                };
                if other_marker {
                    break;
                }
                if likely_block_start(b, cl.start, cl.end, options) || !paragraph_open {
                    break;
                }
            }
            let lazy = paragraph_open && dedented;
            let stripped = strip_list_continuation(b, cl.start, cl.end, marker.content_indent);
            paragraph_open = list_item_paragraph_stays_open(Some(paragraph_open), stripped.as_slice(), options);
            push_content_line(&mut content, stripped.as_slice());
            lazy_flags.push(lazy);
            open_fence = update_list_item_fence(stripped.as_slice(), open_fence);
            item_end = cursor;
            cursor = cursor + 1;
        }
        let last = lines[item_end];
        let cl = content.len();
        if last.end < last.end_with_eol && !(cl > 0 && (content[cl - 1] == 10u8 || content[cl - 1] == 13u8)) {
            push_range(&mut content, b, last.end, last.end_with_eol);
        }
        if container_closed_after_unclosed_fence(b, lines, cursor, item_end, content.as_slice(), options) {
            content.push(10u8);
        }
        let start_line = lines[item_start];
        let child_base = if base + start_line.start <= usize::MAX - marker.content_indent {
            base + start_line.start + marker.content_indent
        } else {
            base + start_line.start
        };
        let child_lines = lines_with_lazy(content.as_slice(), &lazy_flags);
        let children = if depth > 0 && child_base <= usize::MAX - content.len() {
            parse_blocks_from_lines(content.as_slice(), child_lines.as_slice(), child_base, false, options, depth - 1, diagnostics)
        } else {
            Vec::new()
        };
        let (checked, children) = if options.constructs.gfm_task_list_item {
            take_task_marker_from_children(children)
        } else {
            (None, children)
        };
        if item_tight && blank_separates_top_level_blocks(first_blank, &children, child_base) {
            item_tight = false;
        }
        tight = tight && item_tight;
        items.push(
            ListItem {
                meta: NodeMeta::new(Some(Span::new(base + start_line.start, base + last.end_with_eol))),
                checked,
                children,
            },
        );
    }
    if cursor == index {
        return None;
    }
    let list = List {
        meta: NodeMeta::new(Some(Span::new(base + first_line.start, base + lines[cursor - 1].end_with_eol))),
        ordered: first_marker.ordered,
        start: first_marker.start,
        delimiter: first_marker.delimiter,
        tight,
        children: items,
    };
    Some((Block::List(list), cursor))
}

/// The input as the parser reads it: a leading byte order mark removed, and
/// each NUL byte replaced by U+FFFD.
pub open spec fn spec_preprocess(b: Seq<u8>) -> Seq<u8> {
    let body = if b.len() >= 3 && b[0] == 0xEF && b[1] == 0xBB && b[2] == 0xBF {
        b.subrange(3, b.len() as int)
    } else {
        b
    };
    spec_replace_nul(body)
}

/// `b` with each NUL byte replaced by the UTF-8 encoding of U+FFFD.
pub open spec fn spec_replace_nul(b: Seq<u8>) -> Seq<u8>
    decreases b.len(),
{
    if b.len() == 0 {
        Seq::empty()
    } else {
        spec_replace_nul(b.drop_last()) + if b.last() == 0u8 {
            seq![0xEFu8, 0xBFu8, 0xBDu8]
        } else {
            seq![b.last()]
        }
    }
}

/// Removes a leading byte order mark and replaces each NUL by U+FFFD.
pub fn preprocess(input: &[u8]) -> (r: Vec<u8>)
    ensures
        r@ == spec_preprocess(input@),
{
    let n = input.len();
    let start: usize = if n >= 3 && input[0] == 0xEF && input[1] == 0xBB && input[2] == 0xBF {
        3
    } else {
        0
    };
    let ghost body = input@.subrange(start as int, n as int);
    let mut out: Vec<u8> = Vec::new();
    let mut i = start;
    while i < n
        invariant
            n == input@.len(),
            start <= i <= n,
            body == input@.subrange(start as int, n as int),
            out@ == spec_replace_nul(input@.subrange(start as int, i as int)),
        decreases n - i,
    {
        assert(input@.subrange(start as int, i + 1).drop_last() =~= input@.subrange(start as int, i as int));
        if input[i] == 0u8 {
            out.push(0xEFu8);
            out.push(0xBFu8);
            out.push(0xBDu8);
        } else {
            out.push(input[i]);
        }
        i = i + 1;
    }
    assert(body =~= input@.subrange(start as int, i as int));
    assert(input@.subrange(0, n as int) =~= input@);
    out
}

// ---------------------------------------------------------------------------
// Link reference definitions.
// ---------------------------------------------------------------------------

/// Where a definition's text starts on its first line: after at most three
/// columns of indentation, or exactly four when it follows another
/// definition directly.
fn trim_definition_start(b: &[u8], start: usize, end: usize, allow_subsequent_indent: bool) -> (r: Option<usize>)
    requires
        start <= end <= b@.len(),
    ensures
        r matches Some(k) ==> start <= k <= end,
        crate::text::spec_trim_up_to_three(b@.subrange(start as int, end as int)) matches Some(o) ==> r == Some(
            (start + o) as usize,
        ),
        crate::text::spec_trim_up_to_three(b@.subrange(start as int, end as int)) is None ==> (r is Some <==> (
        allow_subsequent_indent && spec_indent_columns(b@, start as int, end as int, 0) == 4)),
        crate::text::spec_trim_up_to_three(b@.subrange(start as int, end as int)) is None && r is Some ==> r == Some(
            crate::text::spec_space_tab_end(b@, start as int, end as int) as usize,
        ),
{
    match trim_up_to_three_spaces(b, start, end) {
        Some(k) => Some(k),
        None => {
            if allow_subsequent_indent {
                let (columns, bytes) = leading_indent(b, start, end);
                if columns == 4 {
                    return Some(start + bytes);
                }
            }
            None
        },
    }
}

/// Whether a line can carry a definition's title: after leading whitespace it
/// starts with `"`, `'` or `(`.
fn line_can_start_definition_title(b: &[u8], start: usize, end: usize) -> (r: bool)
    requires
        start <= end <= b@.len(),
    ensures
        r == ({
            let line = b@.subrange(start as int, end as int);
            let k = crate::text::spec_skip_ws(line, 0);
            k < line.len() && (line[k] == 34u8 || line[k] == 39u8 || line[k] == 40u8)
        }),
{
    let line = copy_range(b, start, end);
    let k = skip_ws(line.as_slice(), 0);
    k < line.len() && (line[k] == 34u8 || line[k] == 39u8 || line[k] == 40u8)
}

/// Parses a link reference definition `[label]: destination "title"` at line
/// `index`. The label may run over several lines, and so may the title.
fn parse_definition(
    b: &[u8],
    lines: &[Line],
    index: usize,
    base: usize,
    options: &ParseContext,
    allow_subsequent_indent: bool,
) -> (r: Option<(Block, usize)>)
    requires
        index < lines@.len(),
        spec_lines_within(lines@, b@.len()),
        base + b@.len() <= usize::MAX,
    ensures
        r matches Some(x) ==> crate::ast::spec_block_meta(x.0).span is Some,
        r matches Some(x) ==> index < x.1 <= lines@.len() && x.0 is Definition,
{
    let n = lines.len();
    let line = lines[index];
    let text = match trim_definition_start(b, line.start, line.end, allow_subsequent_indent) {
        Some(k) => k,
        None => return None,
    };
    if !(text < line.end && b[text] == 91u8) {
        return None;
    }
    let mut accumulated = copy_range(b, text, line.end);
    let mut label_end_line = index;
    let mut close: usize = 0;
    loop
        invariant
            n == lines@.len(),
            index <= label_end_line < n,
            spec_lines_within(lines@, b@.len()),
        ensures
            index <= label_end_line < n,
            0 < close,
            close + 1 < accumulated@.len(),
        decreases n - label_end_line,
    {
        match find_reference_label_end(accumulated.as_slice(), 0) {
            Some(c) => {
                if c < accumulated.len() - 1 && accumulated[c + 1] == 58u8 {
                    close = c;
                    break;
                }
                return None;
            },
            None => {},
        }
        let next = label_end_line + 1;
        if next >= n {
            return None;
        }
        let l = lines[next];
        if is_blank(b, l.start, l.end) {
            return None;
        }
        if likely_block_start(b, l.start, l.end, options) || setext_underline_depth(b, l.start, l.end).is_some()
            || table_can_start(b, lines, next, options) {
            return None;
        }
        accumulated.push(10u8);
        push_range(&mut accumulated, b, l.start, l.end);
        label_end_line = next;
    }
    let label = copy_range(accumulated.as_slice(), 1, close);
    let identifier = normalize_label(label.as_slice());
    if string_bytes(&identifier).len() == 0 {
        return None;
    }
    let m = accumulated.len();
    let mut source = copy_range(accumulated.as_slice(), close + 2, m);
    let mut cursor = label_end_line;
    let mut best_without_title: Option<(LinkResource, usize)> = None;
    loop
        invariant
            n == lines@.len(),
            index <= label_end_line <= cursor < n,
            spec_lines_within(lines@, b@.len()),
            base + b@.len() <= usize::MAX,
            line == lines@[index as int],
            best_without_title matches Some(x) ==> index < x.1 <= n,
        decreases n - cursor,
    {
        match parse_definition_destination_title(source.as_slice()) {
            Some(resource) => {
                if resource.title.is_some() {
                    let end = lines[cursor].end_with_eol;
                    return Some((definition_block(base + line.start, base + end, &label, identifier, resource), cursor + 1));
                }
                best_without_title = Some((resource, cursor + 1));
                let next = cursor + 1;
                if next >= n {
                    break;
                }
                let l = lines[next];
                if is_blank(b, l.start, l.end) || !line_can_start_definition_title(b, l.start, l.end) {
                    break;
                }
            },
            None => {},
        }
        let next = cursor + 1;
        if next >= n {
            break;
        }
        let l = lines[next];
        if is_blank(b, l.start, l.end) {
            break;
        }
        if likely_block_start(b, l.start, l.end, options) || setext_underline_depth(b, l.start, l.end).is_some() {
            break;
        }
        source.push(10u8);
        push_range(&mut source, b, l.start, l.end);
        cursor = next;
    }
    match best_without_title {
        Some((resource, next)) => {
            let end = lines[next - 1].end_with_eol;
            Some((definition_block(base + line.start, base + end, &label, identifier, resource), next))
        },
        None => None,
    }
}

/// The definition node for a parsed label and resource.
fn definition_block(start: usize, end: usize, label: &Vec<u8>, identifier: String, resource: LinkResource) -> (r: Block)
    ensures
        r is Definition,
        r->Definition_0.meta.span == Some(Span { start, end }),
{
    let title = match resource.title {
        Some(t) => Some(string_from_bytes(t.as_slice())),
        None => None,
    };
    Block::Definition(
        Definition {
            meta: NodeMeta::new(Some(Span::new(start, end))),
            label: string_from_bytes(label.as_slice()),
            identifier,
            destination: string_from_bytes(resource.destination.as_slice()),
            destination_kind: resource.destination_kind,
            title,
            title_kind: resource.title_kind,
        },
    )
}

/// The texts of a sequence of strings.
pub open spec fn spec_ids(s: Seq<String>) -> Seq<Seq<char>> {
    Seq::new(s.len(), |i: int| s[i]@)
}

/// `b` keeps the strings of `a` first, in their order.
pub open spec fn spec_ids_extend(a: Seq<String>, b: Seq<String>) -> bool {
    a.len() <= b.len() && forall|i: int| 0 <= i < a.len() ==> #[trigger] b[i]@ == a[i]@
}

/// Whether `block` is, or holds in its containers, a definition with the
/// identifier `id`.
pub open spec fn spec_block_has_definition(block: Block, id: Seq<char>) -> bool
    decreases block,
{
    match block {
        Block::Definition(d) => d.identifier@ == id,
        Block::BlockQuote(n) => spec_blocks_have_definition(n.children@, id),
        Block::Alert(n) => spec_blocks_have_definition(n.children@, id),
        Block::List(n) => spec_items_have_definition(n.children@, id),
        Block::DescriptionList(n) => spec_description_items_have_definition(n.children@, id),
        Block::FootnoteDefinition(n) => spec_blocks_have_definition(n.children@, id),
        Block::ContainerDirective(n) => spec_blocks_have_definition(n.children@, id),
        _ => false,
    }
}

/// Whether some block of `s` has a definition with the identifier `id`.
pub open spec fn spec_blocks_have_definition(s: Seq<Block>, id: Seq<char>) -> bool
    decreases s,
{
    exists|k: int| 0 <= k < s.len() && spec_block_has_definition(#[trigger] s[k], id)
}

/// Whether the blocks of some list item of `s` have such a definition.
pub open spec fn spec_items_have_definition(s: Seq<ListItem>, id: Seq<char>) -> bool
    decreases s,
{
    exists|k: int| 0 <= k < s.len() && spec_blocks_have_definition(#[trigger] s[k].children@, id)
}

/// Whether the details of some description item of `s` have such a definition.
pub open spec fn spec_description_items_have_definition(s: Seq<DescriptionItem>, id: Seq<char>) -> bool
    decreases s,
{
    exists|k: int| 0 <= k < s.len() && spec_details_have_definition(#[trigger] s[k].details@, id)
}

/// Whether the blocks of some details group of `s` have such a definition.
pub open spec fn spec_details_have_definition(s: Seq<DescriptionDetails>, id: Seq<char>) -> bool
    decreases s,
{
    exists|k: int| 0 <= k < s.len() && spec_blocks_have_definition(#[trigger] s[k].children@, id)
}

/// Adds `identifier` to `out` unless it is already there.
fn push_identifier(out: &mut Vec<String>, identifier: &String)
    ensures
        final(out)@.len() >= old(out)@.len(),
        spec_ids(final(out)@) == (if spec_ids(old(out)@).contains(identifier@) {
            spec_ids(old(out)@)
        } else {
            spec_ids(old(out)@).push(identifier@)
        }),
        spec_ids_extend(old(out)@, final(out)@),
        forall|id: Seq<char>|
            #![trigger spec_ids(final(out)@).contains(id)]
            spec_ids(final(out)@).contains(id) <==> (spec_ids(old(out)@).contains(id) || id == identifier@),
{
    let ghost start = out@;
    let key = string_bytes(identifier);
    let mut k: usize = 0;
    while k < out.len()
        invariant
            k <= out@.len(),
            out@ == start,
            key@ == vstd::utf8::encode_utf8(identifier@),
            forall|i: int| 0 <= i < k ==> (#[trigger] out@[i])@ != identifier@,
        decreases out@.len() - k,
    {
        if bytes_equal(string_bytes(&out[k]), key) {
            proof {
                crate::html::lemma_encode_utf8_injective(out@[k as int]@, identifier@);
                assert(spec_ids(out@)[k as int] == identifier@);
            }
            return;
        }
        proof {
            crate::html::lemma_encode_utf8_injective(out@[k as int]@, identifier@);
        }
        k = k + 1;
    }
    proof {
        vstd::utf8::encode_utf8_valid_utf8(identifier@);
        vstd::utf8::encode_utf8_decode_utf8(identifier@);
        assert(!spec_ids(out@).contains(identifier@));
    }
    out.push(string_from_bytes(key));
    proof {
        assert(spec_ids(out@) =~= spec_ids(start).push(identifier@));
        assert forall|id: Seq<char>| spec_ids(out@).contains(id) <==> (spec_ids(start).contains(id) || id
            == identifier@) by {
            if spec_ids(start).contains(id) {
                let w = choose|w: int| 0 <= w < spec_ids(start).len() && spec_ids(start)[w] == id;
                assert(spec_ids(out@)[w] == id);
            }
            if id == identifier@ {
                assert(spec_ids(out@)[start.len() as int] == id);
            }
        }
    }
}

/// Collects the identifiers of the definitions in `blocks`, containers
/// included, each once, in document order.
fn collect_definitions(blocks: &[Block], out: &mut Vec<String>)
    ensures
        spec_ids_extend(old(out)@, final(out)@),
        forall|id: Seq<char>|
            #![trigger spec_ids(final(out)@).contains(id)]
            spec_ids(final(out)@).contains(id) <==> (spec_ids(old(out)@).contains(id) || spec_blocks_have_definition(blocks@, id)),
    decreases blocks@, 2nat,
{
    let ghost start = out@;
    let mut i: usize = 0;
    while i < blocks.len()
        invariant
            i <= blocks@.len(),
            spec_ids_extend(start, out@),
            forall|id: Seq<char>|
                #![trigger spec_ids(out@).contains(id)]
                spec_ids(out@).contains(id) <==> (spec_ids(start).contains(id) || exists|j: int|
                    0 <= j < i && spec_block_has_definition(#[trigger] blocks@[j], id)),
        decreases blocks@.len() - i,
    {
        collect_definitions_in_block(&blocks[i], out);
        i = i + 1;
    }
    proof {
        assert forall|id: Seq<char>| #[trigger] spec_blocks_have_definition(blocks@, id) == (exists|j: int| 0 <= j < blocks@.len() && spec_block_has_definition(#[trigger] blocks@[j], id)) by {
            reveal_with_fuel(spec_blocks_have_definition, 2);
        }
    }
}

fn collect_definitions_in_block(block: &Block, out: &mut Vec<String>)
    ensures
        spec_ids_extend(old(out)@, final(out)@),
        forall|id: Seq<char>|
            #![trigger spec_ids(final(out)@).contains(id)]
            spec_ids(final(out)@).contains(id) <==> (spec_ids(old(out)@).contains(id) || spec_block_has_definition(*block, id)),
    decreases *block, 1nat,
{
    match block {
        Block::Definition(definition) => push_identifier(out, &definition.identifier),
        Block::BlockQuote(quote) => collect_definitions(quote.children.as_slice(), out),
        Block::Alert(alert) => collect_definitions(alert.children.as_slice(), out),
        Block::List(list) => collect_definitions_in_items(list.children.as_slice(), out),
        Block::DescriptionList(list) => collect_definitions_in_description_items(list.children.as_slice(), out),
        Block::FootnoteDefinition(definition) => collect_definitions(definition.children.as_slice(), out),
        Block::ContainerDirective(directive) => collect_definitions(directive.children.as_slice(), out),
        _ => {},
    }
}

fn collect_definitions_in_items(items: &[ListItem], out: &mut Vec<String>)
    ensures
        spec_ids_extend(old(out)@, final(out)@),
        forall|id: Seq<char>|
            #![trigger spec_ids(final(out)@).contains(id)]
            spec_ids(final(out)@).contains(id) <==> (spec_ids(old(out)@).contains(id) || spec_items_have_definition(items@, id)),
    decreases items@, 2nat,
{
    let ghost start = out@;
    let mut i: usize = 0;
    while i < items.len()
        invariant
            i <= items@.len(),
            spec_ids_extend(start, out@),
            forall|id: Seq<char>|
                #![trigger spec_ids(out@).contains(id)]
                spec_ids(out@).contains(id) <==> (spec_ids(start).contains(id) || exists|j: int|
                    0 <= j < i && spec_blocks_have_definition(#[trigger] items@[j].children@, id)),
        decreases items@.len() - i,
    {
        collect_definitions(items[i].children.as_slice(), out);
        i = i + 1;
    }
    proof {
        assert forall|id: Seq<char>| #[trigger] spec_items_have_definition(items@, id) == (exists|j: int| 0 <= j < items@.len() && spec_blocks_have_definition(#[trigger] items@[j].children@, id)) by {
            reveal_with_fuel(spec_items_have_definition, 2);
        }
    }
}

fn collect_definitions_in_description_items(items: &[DescriptionItem], out: &mut Vec<String>)
    ensures
        spec_ids_extend(old(out)@, final(out)@),
        forall|id: Seq<char>|
            #![trigger spec_ids(final(out)@).contains(id)]
            spec_ids(final(out)@).contains(id) <==> (spec_ids(old(out)@).contains(id) || spec_description_items_have_definition(items@, id)),
    decreases items@, 2nat,
{
    let ghost start = out@;
    let mut i: usize = 0;
    while i < items.len()
        invariant
            i <= items@.len(),
            spec_ids_extend(start, out@),
            forall|id: Seq<char>|
                #![trigger spec_ids(out@).contains(id)]
                spec_ids(out@).contains(id) <==> (spec_ids(start).contains(id) || exists|j: int|
                    0 <= j < i && spec_details_have_definition(#[trigger] items@[j].details@, id)),
        decreases items@.len() - i,
    {
        collect_definitions_in_details(items[i].details.as_slice(), out);
        i = i + 1;
    }
    proof {
        assert forall|id: Seq<char>| #[trigger] spec_description_items_have_definition(items@, id) == (exists|j: int| 0 <= j < items@.len() && spec_details_have_definition(#[trigger] items@[j].details@, id)) by {
            reveal_with_fuel(spec_description_items_have_definition, 2);
        }
    }
}

fn collect_definitions_in_details(details: &[DescriptionDetails], out: &mut Vec<String>)
    ensures
        spec_ids_extend(old(out)@, final(out)@),
        forall|id: Seq<char>|
            #![trigger spec_ids(final(out)@).contains(id)]
            spec_ids(final(out)@).contains(id) <==> (spec_ids(old(out)@).contains(id) || spec_details_have_definition(details@, id)),
    decreases details@, 2nat,
{
    let ghost start = out@;
    let mut i: usize = 0;
    while i < details.len()
        invariant
            i <= details@.len(),
            spec_ids_extend(start, out@),
            forall|id: Seq<char>|
                #![trigger spec_ids(out@).contains(id)]
                spec_ids(out@).contains(id) <==> (spec_ids(start).contains(id) || exists|j: int|
                    0 <= j < i && spec_blocks_have_definition(#[trigger] details@[j].children@, id)),
        decreases details@.len() - i,
    {
        collect_definitions(details[i].children.as_slice(), out);
        i = i + 1;
    }
    proof {
        assert forall|id: Seq<char>| #[trigger] spec_details_have_definition(details@, id) == (exists|j: int| 0 <= j < details@.len() && spec_blocks_have_definition(#[trigger] details@[j].children@, id)) by {
            reveal_with_fuel(spec_details_have_definition, 2);
        }
    }
}

/// Parses `input` with `options`; fails exactly when the options conflict.
pub fn parse_with_options(input: &str, options: &SyntaxOptions) -> (r: Result<ParseOutput, SyntaxConfigError>)
    ensures
        r is Err <==> spec_validate(options.constructs) is Err,
        r matches Err(e) ==> spec_validate(options.constructs) == Err::<(), SyntaxConfigError>(e),
        r matches Ok(out) ==> out.document.meta.span == Some(
            Span { start: 0, end: spec_preprocess(vstd::utf8::encode_utf8(input@)).len() as usize },
        ),
        r matches Ok(out) ==> (spec_diagnostics_off(options.constructs) ==> out.diagnostics@.len() == 0),
        r matches Ok(out) ==> forall|k: int|
            0 <= k < out.document.children@.len() ==> (#[trigger] crate::ast::spec_block_meta(out.document.children@[k])).span is Some,
{
    let resolved = match options.resolve() {
        Ok(r) => r,
        Err(e) => {
            return Err(e);
        },
    };
    let text = preprocess(input.as_bytes());
    let b = text.as_slice();
    let lines = collect_lines(b);
    let first = ParseContext { constructs: resolved.constructs, parse: resolved.parse, definitions: Vec::new() };
    let mut draft_diagnostics: Vec<Diagnostic> = Vec::new();
    let draft = parse_blocks_from_lines(b, lines.as_slice(), 0, true, &first, b.len(), &mut draft_diagnostics);
    let mut definitions: Vec<String> = Vec::new();
    collect_definitions(draft.as_slice(), &mut definitions);
    let context = ParseContext { constructs: resolved.constructs, parse: resolved.parse, definitions };
    let mut diagnostics: Vec<Diagnostic> = Vec::new();
    let children = parse_blocks_from_lines(b, lines.as_slice(), 0, true, &context, b.len(), &mut diagnostics);
    Ok(
        ParseOutput {
            document: Document { meta: NodeMeta::new(Some(Span::new(0, b.len()))), children },
            diagnostics,
        },
    )
}

/// Parses `input` as CommonMark.
pub fn parse(input: &str) -> (r: ParseOutput)
    ensures
        r.document.meta.span == Some(
            Span { start: 0, end: spec_preprocess(vstd::utf8::encode_utf8(input@)).len() as usize },
        ),
        r.diagnostics@.len() == 0,
        forall|k: int|
            0 <= k < r.document.children@.len() ==> (#[trigger] crate::ast::spec_block_meta(r.document.children@[k])).span is Some,
{
    let options = SyntaxOptions::commonmark();
    proof {
        crate::options::lemma_presets_validate();
    }
    match parse_with_options(input, &options) {
        Ok(output) => output,
        Err(error) => {
            let message = error.message();
            let d = Diagnostic::new(
                DiagnosticSeverity::Error,
                DiagnosticCode::StrictParse,
                Span::new(0, input.len()),
                message.as_str(),
            );
            ParseOutput { document: Document { meta: NodeMeta::new(None), children: Vec::new() }, diagnostics: vec![d] }
        },
    }
}

/// Whether a diagnostic list holds an error before index `k`.
pub open spec fn spec_has_error_before(d: Seq<Diagnostic>, k: int) -> bool {
    exists|j: int| 0 <= j < k && (#[trigger] d[j]).severity == DiagnosticSeverity::Error
}

/// The strict reading of a parse: the output itself when no diagnostic is an
/// error, else its first error diagnostic.
pub fn strict_outcome(output: ParseOutput) -> (r: Result<ParseOutput, ParseStrictError>)
    ensures
        !spec_has_error_before(output.diagnostics@, output.diagnostics@.len() as int) ==> r == Ok::<
            ParseOutput,
            ParseStrictError,
        >(output),
        spec_has_error_before(output.diagnostics@, output.diagnostics@.len() as int) ==> (r matches Err(
            ParseStrictError::Diagnostic(d),
        ) && exists|k: int|
            0 <= k < output.diagnostics@.len() && !spec_has_error_before(output.diagnostics@, k) && {
                let f = #[trigger] output.diagnostics@[k];
                &&& f.severity == DiagnosticSeverity::Error
                &&& d.severity == f.severity
                &&& d.code == f.code
                &&& d.span == f.span
                &&& d.message@ == f.message@
            }),
{
    let n = output.diagnostics.len();
    let mut k: usize = 0;
    while k < n
        invariant
            n == output.diagnostics@.len(),
            k <= n,
            !spec_has_error_before(output.diagnostics@, k as int),
        decreases n - k,
    {
        if output.diagnostics[k].severity == DiagnosticSeverity::Error {
            let found = &output.diagnostics[k];
            let d = Diagnostic {
                severity: found.severity,
                code: found.code,
                span: found.span,
                message: found.message.clone(),
            };
            assert(spec_has_error_before(output.diagnostics@, n as int)) by {
                assert(output.diagnostics@[k as int].severity == DiagnosticSeverity::Error);
            }
            return Err(ParseStrictError::Diagnostic(d));
        }
        assert(!spec_has_error_before(output.diagnostics@, k + 1)) by {
            if spec_has_error_before(output.diagnostics@, k + 1) {
                let j = choose|j: int| 0 <= j < k + 1 && (#[trigger] output.diagnostics@[j]).severity == DiagnosticSeverity::Error;
                if j < k {
                    assert(spec_has_error_before(output.diagnostics@, k as int));
                }
            }
        }
        k = k + 1;
    }
    Ok(output)
}

/// Parses `input`, failing on conflicting options or on an error diagnostic.
pub fn parse_strict_with_options(input: &str, options: &SyntaxOptions) -> (r: Result<ParseOutput, ParseStrictError>)
    ensures
        r matches Err(ParseStrictError::Config(e)) <==> spec_validate(options.constructs) is Err,
        r matches Err(ParseStrictError::Config(e)) ==> spec_validate(options.constructs) == Err::<
            (),
            SyntaxConfigError,
        >(e),
        r matches Err(ParseStrictError::Diagnostic(d)) ==> d.severity == DiagnosticSeverity::Error,
        r matches Ok(out) ==> !spec_has_error_before(out.diagnostics@, out.diagnostics@.len() as int),
{
    let output = match parse_with_options(input, options) {
        Ok(o) => o,
        Err(e) => {
            return Err(ParseStrictError::Config(e));
        },
    };
    strict_outcome(output)
}

} // verus!
