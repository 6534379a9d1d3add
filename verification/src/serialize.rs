//! Canonical Markdown source from the AST. Serialization first validates the
//! document and refuses an invalid one; it then writes each node in the form
//! that re-parses to the same node, escaping text where a character would
//! otherwise start syntax.
use vstd::prelude::*;

use crate::ast::{
    Alert, Block, CodeBlock, CodeBlockKind, DescriptionDetails, DescriptionItem, DescriptionList, Definition, Document, FrontmatterKind, Heading, HeadingKind, TableCell,
    List, ListItem, Table, TableAlignment, TableRow, ThematicBreakMarker, AlertKind, CodeInline, Text, AutolinkKind, DeleteMarker, DirectiveAttribute, FenceMarker, Inline, LineBreakKind,
    LinkDestinationKind, LinkTitleKind, ListDelimiter, MathInline, MathInlineKind, ReferenceKind,
    WikiLinkLabelOrder, spec_inline_children,
};
use crate::block_start::{gfm_table_can_start_source, is_escaped_at, line_starts_html_block};
use crate::diagnostic::{Diagnostic, DiagnosticCode};
use crate::text::{bytes_equal, spec_lossy_utf8, string_from_bytes};
use crate::validate::{spec_document_ok, spec_document_reports, spec_reports_of, validate_document};
use crate::label::normalize_label;
use crate::text_escape::{escape_text_with_context, output_line_len};
use vstd::utf8::encode_utf8;
use crate::escape::{escape_with, push_hex_ref, spec_escape, spec_hex_ref, EscapeRule};
use crate::text::{
    all_ws_from, code_point_at, contains_byte, copy_range, is_ascii_alnum, push_bytes,
    spec_code_point_at, spec_char_len_at, spec_is_ascii_alnum, string_bytes, find_sub, spec_find_sub,
    starts_with_at, push_range, run_len, skip_ws, spec_all_ws_from,
    spec_run_len, spec_skip_ws, spec_trim_up_to_three, trim_up_to_three_spaces,
};

verus! {

// ---------------------------------------------------------------------------
// Options and errors.
// ---------------------------------------------------------------------------

/// The line ending written between lines.
#[derive(Clone, Copy, Debug, PartialEq, Eq, Structural)]
pub enum LineEnding {
    /// `\n`.
    Lf,
    /// `\r\n`.
    CrLf,
}

/// The bytes of a line ending.
pub open spec fn spec_line_ending(e: LineEnding) -> Seq<u8> {
    match e {
        LineEnding::Lf => seq![10u8],
        LineEnding::CrLf => seq![13u8, 10u8],
    }
}

impl LineEnding {
    /// The bytes of this line ending.
    pub fn as_bytes(self) -> (r: Vec<u8>)
        ensures
            r@ == spec_line_ending(self),
    {
        match self {
            LineEnding::Lf => vec![10u8],
            LineEnding::CrLf => vec![13u8, 10u8],
        }
    }
}

/// How a document is written out.
#[derive(Clone, Copy, Debug, PartialEq, Eq, Structural)]
#[non_exhaustive]
pub struct SerializeOptions {
    /// The line ending used throughout the output.
    pub line_ending: LineEnding,
    /// Whether a non-empty output ends with a line ending.
    pub final_newline: bool,
    /// The bullet of unordered lists (`Dash` keeps each list's own bullet).
    pub bullet: ListDelimiter,
    /// The delimiter of ordered lists (`Period` keeps each list's own).
    pub ordered_delimiter: ListDelimiter,
    /// The fence of fenced code (`Backtick` keeps each block's own fence).
    pub fence_marker: FenceMarker,
}

/// The default options: `\n`, a final newline, and each node's own markers.
pub open spec fn spec_default_options() -> SerializeOptions {
    SerializeOptions {
        line_ending: LineEnding::Lf,
        final_newline: true,
        bullet: ListDelimiter::Dash,
        ordered_delimiter: ListDelimiter::Period,
        fence_marker: FenceMarker::Backtick,
    }
}

impl Default for SerializeOptions {
    fn default() -> (r: Self)
        ensures
            r == spec_default_options(),
    {
        SerializeOptions {
            line_ending: LineEnding::Lf,
            final_newline: true,
            bullet: ListDelimiter::Dash,
            ordered_delimiter: ListDelimiter::Period,
            fence_marker: FenceMarker::Backtick,
        }
    }
}

// ---------------------------------------------------------------------------
// Lines.
// ---------------------------------------------------------------------------

/// The index of the first `\n` at or after `i`, or `b.len()`.
pub open spec fn spec_next_nl(b: Seq<u8>, i: int) -> int
    decreases b.len() - i,
{
    if i < 0 || i >= b.len() {
        b.len() as int
    } else if b[i] == 10u8 {
        i
    } else {
        spec_next_nl(b, i + 1)
    }
}

/// The text of the line that starts at `i` (as `str::lines` yields it: without
/// its `\n`, and without a `\r` just before that `\n`).
pub open spec fn spec_line_text(b: Seq<u8>, i: int) -> Seq<u8> {
    let e = spec_next_nl(b, i);
    if e < b.len() && e > i && b[e - 1] == 13u8 {
        b.subrange(i, e - 1)
    } else {
        b.subrange(i, e)
    }
}

/// The line that starts at `i`, indented by `indent` unless it is the first
/// line (`skip_first`) or empty (`skip_empty`), with the `\n` that joins it to
/// the next line, if there is one.
pub open spec fn spec_reindent_piece(
    b: Seq<u8>,
    i: int,
    indent: Seq<u8>,
    first: bool,
    skip_first: bool,
    skip_empty: bool,
) -> Seq<u8> {
    let e = spec_next_nl(b, i);
    let line = spec_line_text(b, i);
    let piece = if (first && skip_first) || (skip_empty && line.len() == 0) {
        line
    } else {
        indent + line
    };
    if e + 1 < b.len() {
        piece + seq![10u8]
    } else {
        piece
    }
}

/// The lines from `i` on, indented as `spec_reindent_piece` says, joined by `\n`.
pub open spec fn spec_reindent_from(
    b: Seq<u8>,
    i: int,
    indent: Seq<u8>,
    first: bool,
    skip_first: bool,
    skip_empty: bool,
) -> Seq<u8>
    decreases b.len() - i,
{
    if i < 0 || i >= b.len() {
        Seq::empty()
    } else {
        let e = spec_next_nl(b, i);
        proof {
            lemma_next_nl_bounds(b, i);
        }
        spec_reindent_piece(b, i, indent, first, skip_first, skip_empty) + if e + 1 < b.len() {
            spec_reindent_from(b, e + 1, indent, false, skip_first, skip_empty)
        } else {
            Seq::empty()
        }
    }
}

pub proof fn lemma_next_nl_bounds(b: Seq<u8>, i: int)
    requires
        0 <= i <= b.len(),
    ensures
        i <= spec_next_nl(b, i) <= b.len(),
        spec_next_nl(b, i) < b.len() ==> b[spec_next_nl(b, i)] == 10u8,
        forall|k: int| i <= k < spec_next_nl(b, i) ==> b[k] != 10u8,
    decreases b.len() - i,
{
    if i < b.len() && b[i] != 10u8 {
        lemma_next_nl_bounds(b, i + 1);
    }
}

fn next_nl(b: &[u8], i: usize) -> (e: usize)
    requires
        i <= b@.len(),
    ensures
        e == spec_next_nl(b@, i as int),
        i <= e <= b@.len(),
{
    let n = b.len();
    let mut k = i;
    proof {
        lemma_next_nl_bounds(b@, i as int);
    }
    while k < n && b[k] != 10u8
        invariant
            n == b@.len(),
            i <= k <= n,
            spec_next_nl(b@, k as int) == spec_next_nl(b@, i as int),
        decreases n - k,
    {
        k = k + 1;
    }
    k
}

/// The lines of `input` indented as `spec_reindent_from` says, joined by `\n`.
fn reindent_lines(input: &[u8], indent: &[u8], skip_first: bool, skip_empty: bool) -> (r: Vec<u8>)
    ensures
        r@ == spec_reindent_from(input@, 0, indent@, true, skip_first, skip_empty),
{
    let n = input.len();
    let mut out: Vec<u8> = Vec::new();
    let mut i: usize = 0;
    let mut first = true;
    while i < n
        invariant
            n == input@.len(),
            i <= n,
            out@ + spec_reindent_from(input@, i as int, indent@, first, skip_first, skip_empty)
                == spec_reindent_from(input@, 0, indent@, true, skip_first, skip_empty),
        decreases n - i,
    {
        let ghost before = out@;
        let e = push_reindent_piece(&mut out, input, i, indent, first, skip_first, skip_empty);
        if e < n && e + 1 < n {
            i = e + 1;
        } else {
            assert(out@ =~= before + spec_reindent_from(input@, i as int, indent@, first, skip_first, skip_empty));
            i = n;
        }
        first = false;
    }
    assert(out@ =~= out@ + spec_reindent_from(input@, i as int, indent@, first, skip_first, skip_empty));
    out
}

fn push_reindent_piece(
    out: &mut Vec<u8>,
    input: &[u8],
    i: usize,
    indent: &[u8],
    first: bool,
    skip_first: bool,
    skip_empty: bool,
) -> (e: usize)
    requires
        i < input@.len(),
    ensures
        e == spec_next_nl(input@, i as int),
        i <= e <= input@.len(),
        final(out)@ == old(out)@ + spec_reindent_piece(input@, i as int, indent@, first, skip_first, skip_empty),
{
    let n = input.len();
    let e = next_nl(input, i);
    let mut text_end = e;
    if e < n && e > i && input[e - 1] == 13u8 {
        text_end = e - 1;
    }
    assert(input@.subrange(i as int, text_end as int) == spec_line_text(input@, i as int));
    let empty = text_end == i;
    if !((first && skip_first) || (skip_empty && empty)) {
        push_bytes(out, indent);
    }
    push_range(out, input, i, text_end);
    if e < n && e + 1 < n {
        out.push(10u8);
    }
    assert(final(out)@ =~= old(out)@ + spec_reindent_piece(input@, i as int, indent@, first, skip_first, skip_empty));
    e
}

/// `width` spaces.
pub open spec fn spec_spaces(width: nat) -> Seq<u8> {
    Seq::new(width, |k: int| 32u8)
}

fn spaces(width: usize) -> (r: Vec<u8>)
    ensures
        r@ == spec_spaces(width as nat),
{
    repeat_byte(32u8, width)
}

/// `count` copies of `c`.
pub open spec fn spec_repeat(c: u8, count: nat) -> Seq<u8> {
    Seq::new(count, |k: int| c)
}

fn repeat_byte(c: u8, count: usize) -> (r: Vec<u8>)
    ensures
        r@ == spec_repeat(c, count as nat),
{
    let mut out: Vec<u8> = Vec::new();
    let mut k: usize = 0;
    while k < count
        invariant
            k <= count,
            out@ == spec_repeat(c, k as nat),
        decreases count - k,
    {
        out.push(c);
        k = k + 1;
        assert(out@ =~= spec_repeat(c, k as nat));
    }
    out
}

/// Every line but the first indented by `width` spaces.
fn indent_after_first_line(input: &[u8], width: usize) -> (r: Vec<u8>)
    ensures
        r@ == spec_reindent_from(input@, 0, spec_spaces(width as nat), true, true, false),
{
    let indent = spaces(width);
    reindent_lines(input, indent.as_slice(), true, false)
}

/// Every non-empty line indented by `width` spaces.
fn indent_lines(input: &[u8], width: usize) -> (r: Vec<u8>)
    ensures
        r@ == spec_reindent_from(input@, 0, spec_spaces(width as nat), true, false, true),
{
    let indent = spaces(width);
    reindent_lines(input, indent.as_slice(), false, true)
}

/// Every line but the first indented by four spaces.
fn indent_continuation(input: &[u8]) -> (r: Vec<u8>)
    ensures
        r@ == spec_reindent_from(input@, 0, spec_spaces(4), true, true, false),
{
    indent_after_first_line(input, 4)
}

/// The end of the line that starts at `i`, its line ending (`\n`, `\r\n` or a
/// lone `\r`) included, or `b.len()`.
pub open spec fn spec_eol_end(b: Seq<u8>, i: int) -> int
    decreases b.len() - i,
{
    if i < 0 || i >= b.len() {
        b.len() as int
    } else if b[i] == 10u8 {
        i + 1
    } else if b[i] == 13u8 {
        if i + 1 < b.len() && b[i + 1] == 10u8 {
            i + 2
        } else {
            i + 1
        }
    } else {
        spec_eol_end(b, i + 1)
    }
}

/// Each line from `i` on (its line ending kept) behind `prefix`.
pub open spec fn spec_prefix_from(b: Seq<u8>, i: int, prefix: Seq<u8>) -> Seq<u8>
    decreases b.len() - i,
{
    if i < 0 || i >= b.len() {
        Seq::empty()
    } else {
        let e = spec_eol_end(b, i);
        proof {
            lemma_eol_end_bounds(b, i);
        }
        if e <= i {
            Seq::empty()
        } else {
            prefix + b.subrange(i, e) + spec_prefix_from(b, e, prefix)
        }
    }
}

pub proof fn lemma_eol_end_bounds(b: Seq<u8>, i: int)
    requires
        0 <= i < b.len(),
    ensures
        i < spec_eol_end(b, i) <= b.len(),
    decreases b.len() - i,
{
    if b[i] != 10u8 && b[i] != 13u8 {
        if i + 1 < b.len() {
            lemma_eol_end_bounds(b, i + 1);
        } else {
            assert(spec_eol_end(b, i + 1) == b.len());
        }
    }
}

fn eol_end(b: &[u8], i: usize) -> (e: usize)
    requires
        i < b@.len(),
    ensures
        e == spec_eol_end(b@, i as int),
        i < e <= b@.len(),
{
    let n = b.len();
    let mut k = i;
    proof {
        lemma_eol_end_bounds(b@, i as int);
    }
    while k < n && b[k] != 10u8 && b[k] != 13u8
        invariant
            n == b@.len(),
            i <= k <= n,
            spec_eol_end(b@, k as int) == spec_eol_end(b@, i as int),
        decreases n - k,
    {
        k = k + 1;
    }
    if k == n {
        n
    } else if b[k] == 10u8 {
        k + 1
    } else if k + 1 < n && b[k + 1] == 10u8 {
        k + 2
    } else {
        k + 1
    }
}

/// Each line of `input` (line endings kept) behind `prefix`.
fn prefix_lines(input: &[u8], prefix: &[u8]) -> (r: Vec<u8>)
    ensures
        r@ == spec_prefix_from(input@, 0, prefix@),
{
    let n = input.len();
    let mut out: Vec<u8> = Vec::new();
    let mut i: usize = 0;
    while i < n
        invariant
            n == input@.len(),
            i <= n,
            out@ + spec_prefix_from(input@, i as int, prefix@) == spec_prefix_from(input@, 0, prefix@),
        decreases n - i,
    {
        let ghost before = out@;
        let e = eol_end(input, i);
        push_bytes(&mut out, prefix);
        push_range(&mut out, input, i, e);
        assert(out@ + spec_prefix_from(input@, e as int, prefix@) =~= before + spec_prefix_from(
            input@,
            i as int,
            prefix@,
        ));
        i = e;
    }
    assert(out@ =~= out@ + spec_prefix_from(input@, i as int, prefix@));
    out
}

/// `b` without its trailing `\n`s, then without its trailing `\r`s.
pub open spec fn spec_trim_trailing_newline(b: Seq<u8>) -> Seq<u8> {
    let a = spec_rstrip(b, 10u8);
    spec_rstrip(a, 13u8)
}

/// `b` without its trailing run of `c`.
pub open spec fn spec_rstrip(b: Seq<u8>, c: u8) -> Seq<u8>
    decreases b.len(),
{
    if b.len() > 0 && b.last() == c {
        spec_rstrip(b.drop_last(), c)
    } else {
        b
    }
}

proof fn lemma_rstrip_prefix(b: Seq<u8>, c: u8)
    ensures
        spec_rstrip(b, c).len() <= b.len(),
        spec_rstrip(b, c) == b.subrange(0, spec_rstrip(b, c).len() as int),
    decreases b.len(),
{
    if b.len() > 0 && b.last() == c {
        lemma_rstrip_prefix(b.drop_last(), c);
        assert(b.drop_last().subrange(0, spec_rstrip(b, c).len() as int) =~= b.subrange(
            0,
            spec_rstrip(b, c).len() as int,
        ));
    } else {
        assert(b.subrange(0, b.len() as int) =~= b);
    }
}

/// The length of `b[..end]` without its trailing run of `c`.
fn rstrip_len(b: &[u8], end: usize, c: u8) -> (r: usize)
    requires
        end <= b@.len(),
    ensures
        r <= end,
        spec_rstrip(b@.subrange(0, end as int), c) == b@.subrange(0, r as int),
{
    let mut k = end;
    while k > 0 && b[k - 1] == c
        invariant
            k <= end <= b@.len(),
            spec_rstrip(b@.subrange(0, end as int), c) == spec_rstrip(b@.subrange(0, k as int), c),
        decreases k,
    {
        assert(b@.subrange(0, k as int).drop_last() =~= b@.subrange(0, k - 1));
        k = k - 1;
    }
    k
}

/// The length of `input` without its trailing `\n`s and then its trailing `\r`s.
fn trim_trailing_newline(input: &[u8]) -> (r: usize)
    ensures
        r <= input@.len(),
        input@.subrange(0, r as int) == spec_trim_trailing_newline(input@),
{
    let n = input.len();
    assert(input@.subrange(0, n as int) =~= input@);
    let a = rstrip_len(input, n, 10u8);
    let r = rstrip_len(input, a, 13u8);
    r
}

/// Whether `input` ends with `\n` or `\r`.
fn ends_with_line_ending(input: &[u8]) -> (r: bool)
    ensures
        r == (input@.len() > 0 && (input@.last() == 10u8 || input@.last() == 13u8)),
{
    let n = input.len();
    n > 0 && (input[n - 1] == 10u8 || input[n - 1] == 13u8)
}

// ---------------------------------------------------------------------------
// Fences.
// ---------------------------------------------------------------------------

/// The length of the run of `c` that ends `b`.
pub open spec fn spec_suffix_run(b: Seq<u8>, c: u8) -> nat
    decreases b.len(),
{
    if b.len() > 0 && b.last() == c {
        1 + spec_suffix_run(b.drop_last(), c)
    } else {
        0
    }
}

/// The length of the longest run of `c` in `b`.
pub open spec fn spec_longest_run(b: Seq<u8>, c: u8) -> nat
    decreases b.len(),
{
    if b.len() == 0 {
        0
    } else {
        let rest = spec_longest_run(b.drop_last(), c);
        let here = spec_suffix_run(b, c);
        if here > rest {
            here
        } else {
            rest
        }
    }
}

proof fn lemma_suffix_run_le(b: Seq<u8>, c: u8)
    ensures
        spec_suffix_run(b, c) <= b.len(),
        spec_longest_run(b, c) <= b.len(),
    decreases b.len(),
{
    if b.len() > 0 {
        lemma_suffix_run_le(b.drop_last(), c);
    }
}

/// The length of the longest run of the ASCII byte `c` in `input`.
fn longest_char_streak(input: &[u8], c: u8) -> (r: usize)
    ensures
        r == spec_longest_run(input@, c),
{
    let n = input.len();
    let mut longest: usize = 0;
    let mut current: usize = 0;
    let mut i: usize = 0;
    while i < n
        invariant
            n == input@.len(),
            i <= n,
            current == spec_suffix_run(input@.subrange(0, i as int), c),
            longest == spec_longest_run(input@.subrange(0, i as int), c),
        decreases n - i,
    {
        let ghost pre = input@.subrange(0, i as int);
        assert(input@.subrange(0, i + 1).drop_last() =~= pre);
        proof {
            lemma_suffix_run_le(pre, c);
        }
        if input[i] == c {
            current = current + 1;
        } else {
            current = 0;
        }
        if current > longest {
            longest = current;
        }
        i = i + 1;
    }
    assert(input@.subrange(0, n as int) =~= input@);
    longest
}

/// The fence byte of a marker.
pub open spec fn spec_fence_byte(marker: FenceMarker) -> u8 {
    match marker {
        FenceMarker::Backtick => 96u8,
        FenceMarker::Tilde => 126u8,
    }
}

/// The length of a fence that no run of its byte in the content can close:
/// at least `min_len`, and longer than the longest run (saturating at the
/// largest `usize`).
pub open spec fn spec_fence_len(min_len: nat, longest: nat) -> nat {
    let over = if longest + 1 > usize::MAX {
        usize::MAX as nat
    } else {
        longest + 1
    };
    if min_len > over {
        min_len
    } else {
        over
    }
}

/// The fence for `input`: its marker byte, `spec_fence_len` times.
pub open spec fn spec_fence_for(input: Seq<u8>, marker: FenceMarker, min_len: nat) -> Seq<u8> {
    let c = spec_fence_byte(marker);
    spec_repeat(c, spec_fence_len(min_len, spec_longest_run(input, c)))
}

fn fence_for(input: &[u8], marker: FenceMarker, min_len: usize) -> (r: Vec<u8>)
    ensures
        r@ == spec_fence_for(input@, marker, min_len as nat),
{
    let c: u8 = match marker {
        FenceMarker::Backtick => 96u8,
        FenceMarker::Tilde => 126u8,
    };
    let longest = longest_char_streak(input, c);
    let over = if longest < usize::MAX {
        longest + 1
    } else {
        longest
    };
    let len = if min_len > over {
        min_len
    } else {
        over
    };
    repeat_byte(c, len)
}

/// The backtick fence of an inline code span.
fn inline_code_fence(input: &[u8]) -> (r: Vec<u8>)
    ensures
        r@ == spec_fence_for(input@, FenceMarker::Backtick, 1),
{
    fence_for(input, FenceMarker::Backtick, 1)
}

/// Whether a code span's content needs a space of padding on each side: it
/// starts or ends with a backtick, or starts and ends with a space without
/// being all spaces.
pub open spec fn spec_code_span_needs_padding(b: Seq<u8>) -> bool {
    ||| (b.len() > 0 && b[0] == 96u8)
    ||| (b.len() > 0 && b.last() == 96u8)
    ||| (b.len() > 0 && b[0] == 32u8 && b.last() == 32u8 && exists|k: int| 0 <= k < b.len() && b[k] != 32u8)
}

fn code_span_needs_padding(input: &[u8]) -> (r: bool)
    ensures
        r == spec_code_span_needs_padding(input@),
{
    let n = input.len();
    if n == 0 {
        return false;
    }
    if input[0] == 96u8 || input[n - 1] == 96u8 {
        return true;
    }
    if !(input[0] == 32u8 && input[n - 1] == 32u8) {
        return false;
    }
    let mut k: usize = 0;
    while k < n
        invariant
            n == input@.len(),
            n > 0,
            input@[0] == 32u8,
            input@[n - 1] == 32u8,
            k <= n,
            forall|j: int| 0 <= j < k ==> input@[j] == 32u8,
        decreases n - k,
    {
        if input[k] != 32u8 {
            assert(0 <= k < input@.len() && input@[k as int] != 32u8);
            assert(exists|j: int| 0 <= j < input@.len() && input@[j] != 32u8);
            return true;
        }
        k = k + 1;
    }
    false
}

/// `b` with a backslash before every `|`.
pub open spec fn spec_escape_code_pipes(b: Seq<u8>) -> Seq<u8>
    decreases b.len(),
{
    if b.len() == 0 {
        Seq::empty()
    } else {
        let head = if b[0] == 124u8 {
            seq![92u8, 124u8]
        } else {
            seq![b[0]]
        };
        head + spec_escape_code_pipes(b.drop_first())
    }
}

proof fn lemma_escape_code_pipes_push(b: Seq<u8>, c: u8)
    ensures
        spec_escape_code_pipes(b.push(c)) == spec_escape_code_pipes(b) + if c == 124u8 {
            seq![92u8, 124u8]
        } else {
            seq![c]
        },
    decreases b.len(),
{
    if b.len() == 0 {
        assert(b.push(c).drop_first() =~= Seq::<u8>::empty());
        assert(spec_escape_code_pipes(Seq::<u8>::empty()) =~= Seq::<u8>::empty());
    } else {
        assert(b.push(c).drop_first() =~= b.drop_first().push(c));
        lemma_escape_code_pipes_push(b.drop_first(), c);
    }
}

/// Code inside a table cell: every `|` behind a backslash.
fn table_cell_escape_code_pipes(input: &[u8]) -> (r: Vec<u8>)
    ensures
        r@ == spec_escape_code_pipes(input@),
{
    let n = input.len();
    let mut out: Vec<u8> = Vec::new();
    let mut i: usize = 0;
    while i < n
        invariant
            n == input@.len(),
            i <= n,
            out@ == spec_escape_code_pipes(input@.subrange(0, i as int)),
        decreases n - i,
    {
        proof {
            assert(input@.subrange(0, i + 1) =~= input@.subrange(0, i as int).push(input@[i as int]));
            lemma_escape_code_pipes_push(input@.subrange(0, i as int), input@[i as int]);
        }
        if input[i] == 124u8 {
            out.push(92u8);
        }
        out.push(input[i]);
        i = i + 1;
    }
    assert(input@.subrange(0, n as int) =~= input@);
    out
}

// ---------------------------------------------------------------------------
// List markers.
// ---------------------------------------------------------------------------

/// The bullet byte of an unordered list with this delimiter.
pub open spec fn spec_unordered_marker(d: ListDelimiter) -> u8 {
    match d {
        ListDelimiter::Asterisk => 42u8,
        ListDelimiter::Plus => 43u8,
        _ => 45u8,
    }
}

/// The delimiter byte after an ordered list's number.
pub open spec fn spec_ordered_marker(d: ListDelimiter) -> u8 {
    match d {
        ListDelimiter::Paren => 41u8,
        _ => 46u8,
    }
}

fn unordered_list_marker(d: ListDelimiter) -> (r: u8)
    ensures
        r == spec_unordered_marker(d),
{
    match d {
        ListDelimiter::Dash => 45u8,
        ListDelimiter::Asterisk => 42u8,
        ListDelimiter::Plus => 43u8,
        ListDelimiter::Period | ListDelimiter::Paren => 45u8,
    }
}

fn ordered_list_marker(d: ListDelimiter) -> (r: u8)
    ensures
        r == spec_ordered_marker(d),
{
    match d {
        ListDelimiter::Paren => 41u8,
        ListDelimiter::Dash | ListDelimiter::Asterisk | ListDelimiter::Plus | ListDelimiter::Period => 46u8,
    }
}

// ---------------------------------------------------------------------------
// Fences of math blocks and container directives.
// ---------------------------------------------------------------------------

/// `n + 1`, saturating at the largest `usize`.
pub open spec fn spec_sat_inc(n: nat) -> nat {
    if n < usize::MAX {
        n + 1
    } else {
        n
    }
}

/// One more than the length of a line that, trimmed of whitespace, is a run of
/// at least two `$`; 0 for any other line.
pub open spec fn spec_dollar_line(line: Seq<u8>) -> nat {
    let s = spec_skip_ws(line, 0);
    let l = spec_run_len(line, s, 36u8);
    if l >= 2 && spec_all_ws_from(line, s + l) {
        spec_sat_inc(l)
    } else {
        0
    }
}

/// The largest of `acc` and `spec_dollar_line` over the lines of `b` from `i` on.
pub open spec fn spec_math_fence_from(b: Seq<u8>, i: int, acc: nat) -> nat
    decreases b.len() - i,
{
    if i < 0 || i >= b.len() {
        acc
    } else {
        let e = spec_next_nl(b, i);
        proof {
            lemma_next_nl_bounds(b, i);
        }
        let v = spec_dollar_line(spec_line_text(b, i));
        let a = if v > acc {
            v
        } else {
            acc
        };
        if e + 1 < b.len() {
            spec_math_fence_from(b, e + 1, a)
        } else {
            a
        }
    }
}

/// The `$` fence of a math block: at least two, and longer than any line of the
/// content that is a lone run of `$`.
pub open spec fn spec_block_math_fence(input: Seq<u8>) -> Seq<u8> {
    spec_repeat(36u8, spec_math_fence_from(spec_trim_trailing_newline(input), 0, 2))
}

/// The text of the line of `b` that starts at `i`, and where that line ends.
fn line_at(b: &[u8], i: usize) -> (r: (Vec<u8>, usize))
    requires
        i < b@.len(),
    ensures
        r.0@ == spec_line_text(b@, i as int),
        r.1 == spec_next_nl(b@, i as int),
        i <= r.1 <= b@.len(),
{
    let n = b.len();
    let e = next_nl(b, i);
    let mut text_end = e;
    if e < n && e > i && b[e - 1] == 13u8 {
        text_end = e - 1;
    }
    (copy_range(b, i, text_end), e)
}

fn dollar_line(line: &[u8]) -> (r: usize)
    ensures
        r == spec_dollar_line(line@),
{
    let n = line.len();
    let s = skip_ws(line, 0);
    let l = run_len(line, s, 36u8);
    if l >= 2 && all_ws_from(line, s + l) {
        if l < usize::MAX {
            l + 1
        } else {
            l
        }
    } else {
        0
    }
}

fn block_math_fence(input: &[u8]) -> (r: Vec<u8>)
    ensures
        r@ == spec_block_math_fence(input@),
{
    let t = copy_range(input, 0, trim_trailing_newline(input));
    let n = t.len();
    let mut length: usize = 2;
    let mut i: usize = 0;
    while i < n
        invariant
            n == t@.len(),
            i <= n,
            spec_math_fence_from(t@, i as int, length as nat) == spec_math_fence_from(t@, 0, 2),
        decreases n - i,
    {
        let (line, e) = line_at(t.as_slice(), i);
        let v = dollar_line(line.as_slice());
        if v > length {
            length = v;
        }
        if e < n && e + 1 < n {
            i = e + 1;
        } else {
            i = n;
        }
    }
    repeat_byte(36u8, length)
}

/// The length of a line that could close a container directive: at most three
/// columns of indentation, a run of at least three `:`, then only whitespace.
pub open spec fn spec_directive_closing_fence_len(line: Seq<u8>) -> Option<nat> {
    match spec_trim_up_to_three(line) {
        Some(k) => {
            let l = spec_run_len(line, k, 58u8);
            if l >= 3 && spec_all_ws_from(line, k + l) {
                Some(l)
            } else {
                None
            }
        },
        None => None,
    }
}

fn directive_closing_fence_len(line: &[u8]) -> (r: Option<usize>)
    ensures
        r matches Some(l) ==> spec_directive_closing_fence_len(line@) == Some(l as nat),
        r is None ==> spec_directive_closing_fence_len(line@) is None,
{
    let n = line.len();
    assert(line@.subrange(0, n as int) =~= line@);
    match trim_up_to_three_spaces(line, 0, n) {
        Some(k) => {
            assert(spec_trim_up_to_three(line@) == Some(k as int));
            let l = run_len(line, k, 58u8);
            if l >= 3 && all_ws_from(line, k + l) {
                Some(l)
            } else {
                None
            }
        },
        None => None,
    }
}

/// The largest of `acc` and one more than each closing-fence length among the
/// lines of `b` from `i` on.
pub open spec fn spec_directive_fence_from(b: Seq<u8>, i: int, acc: nat) -> nat
    decreases b.len() - i,
{
    if i < 0 || i >= b.len() {
        acc
    } else {
        let e = spec_next_nl(b, i);
        proof {
            lemma_next_nl_bounds(b, i);
        }
        let v = match spec_directive_closing_fence_len(spec_line_text(b, i)) {
            Some(l) => spec_sat_inc(l),
            None => 0,
        };
        let a = if v > acc {
            v
        } else {
            acc
        };
        if e + 1 < b.len() {
            spec_directive_fence_from(b, e + 1, a)
        } else {
            a
        }
    }
}

fn directive_fence_len(inner: &[u8]) -> (r: usize)
    ensures
        r == spec_directive_fence_from(inner@, 0, 3),
{
    let n = inner.len();
    let mut max: usize = 3;
    let mut i: usize = 0;
    while i < n
        invariant
            n == inner@.len(),
            i <= n,
            spec_directive_fence_from(inner@, i as int, max as nat) == spec_directive_fence_from(inner@, 0, 3),
        decreases n - i,
    {
        let (line, e) = line_at(inner, i);
        match directive_closing_fence_len(line.as_slice()) {
            Some(l) => {
                let v = if l < usize::MAX {
                    l + 1
                } else {
                    l
                };
                if v > max {
                    max = v;
                }
            },
            None => {},
        }
        if e < n && e + 1 < n {
            i = e + 1;
        } else {
            i = n;
        }
    }
    max
}

/// The `:` fence of a container directive: at least three, and longer than any
/// line of its content that could close it.
fn directive_fence(inner: &[u8]) -> (r: Vec<u8>)
    ensures
        r@ == spec_repeat(58u8, spec_directive_fence_from(inner@, 0, 3)),
{
    repeat_byte(58u8, directive_fence_len(inner))
}

// ---------------------------------------------------------------------------
// Escaping by context.
// ---------------------------------------------------------------------------

/// Where inline content is being written.
#[derive(Clone, Copy, Debug, PartialEq, Eq, Structural)]
pub struct InlineSerializeContext {
    /// Inside a table cell, where `|` must not split the row.
    pub table_cell: bool,
    /// Next to a `*` delimiter, where a `*` at the edge would merge with it.
    pub avoid_star_edges: bool,
}

impl InlineSerializeContext {
    /// Outside any table and any `*` delimiter.
    pub fn plain() -> (r: Self)
        ensures
            !r.table_cell,
            !r.avoid_star_edges,
    {
        InlineSerializeContext { table_cell: false, avoid_star_edges: false }
    }

    /// Inside a table cell.
    pub fn table_cell() -> (r: Self)
        ensures
            r.table_cell,
            !r.avoid_star_edges,
    {
        InlineSerializeContext { table_cell: true, avoid_star_edges: false }
    }

    /// The same context, now next to a `*` delimiter.
    pub fn avoiding_star_edges(self) -> (r: Self)
        ensures
            r.table_cell == self.table_cell,
            r.avoid_star_edges,
    {
        InlineSerializeContext { table_cell: self.table_cell, avoid_star_edges: true }
    }
}

fn escape_alert_title(input: &[u8]) -> (r: Vec<u8>)
    ensures
        r@ == spec_escape(EscapeRule::AlertTitle, input@),
{
    escape_with(input, EscapeRule::AlertTitle)
}

fn escape_code_info(input: &[u8]) -> (r: Vec<u8>)
    ensures
        r@ == spec_escape(EscapeRule::CodeInfo, input@),
{
    escape_with(input, EscapeRule::CodeInfo)
}

fn escape_definition_label_source(input: &[u8]) -> (r: Vec<u8>)
    ensures
        r@ == spec_escape(EscapeRule::DefinitionLabelSource, input@),
{
    escape_with(input, EscapeRule::DefinitionLabelSource)
}

fn escape_reference_label_source(input: &[u8], escape_pipe: bool) -> (r: Vec<u8>)
    ensures
        r@ == spec_escape(EscapeRule::ReferenceLabelSource { pipe: escape_pipe }, input@),
{
    escape_with(input, EscapeRule::ReferenceLabelSource { pipe: escape_pipe })
}

fn escape_footnote_label_source(input: &[u8]) -> (r: Vec<u8>)
    ensures
        r@ == spec_escape(EscapeRule::FootnoteLabelSource, input@),
{
    escape_with(input, EscapeRule::FootnoteLabelSource)
}

fn escape_label_syntax(input: &[u8], escape_pipe: bool, escape_whitespace: bool) -> (r: Vec<u8>)
    ensures
        r@ == spec_escape(EscapeRule::LabelSyntax { pipe: escape_pipe, whitespace: escape_whitespace }, input@),
{
    escape_with(input, EscapeRule::LabelSyntax { pipe: escape_pipe, whitespace: escape_whitespace })
}

fn escape_reference_label_with_pipe(input: &[u8], escape_pipe: bool) -> (r: Vec<u8>)
    ensures
        r@ == spec_escape(EscapeRule::LabelSyntax { pipe: escape_pipe, whitespace: false }, input@),
{
    escape_label_syntax(input, escape_pipe, false)
}

fn escape_footnote_label_semantic(input: &[u8]) -> (r: Vec<u8>)
    ensures
        r@ == spec_escape(EscapeRule::LabelSyntax { pipe: false, whitespace: true }, input@),
{
    escape_label_syntax(input, false, true)
}

fn escape_wikilink_part(input: &[u8]) -> (r: Vec<u8>)
    ensures
        r@ == spec_escape(EscapeRule::WikilinkPart, input@),
{
    escape_with(input, EscapeRule::WikilinkPart)
}

fn escape_destination_with_pipe(input: &[u8], escape_pipe: bool) -> (r: Vec<u8>)
    ensures
        r@ == spec_escape(EscapeRule::Destination { pipe: escape_pipe }, input@),
{
    escape_with(input, EscapeRule::Destination { pipe: escape_pipe })
}

fn escape_angle_destination_with_context(input: &[u8], context: InlineSerializeContext) -> (r: Vec<u8>)
    ensures
        r@ == spec_escape(EscapeRule::AngleDestination { pipe: context.table_cell }, input@),
{
    escape_with(input, EscapeRule::AngleDestination { pipe: context.table_cell })
}

fn escape_title_with_context(input: &[u8], kind: LinkTitleKind, context: InlineSerializeContext) -> (r: Vec<u8>)
    ensures
        r@ == spec_escape(EscapeRule::Title { kind, pipe: context.table_cell }, input@),
{
    escape_with(input, EscapeRule::Title { kind, pipe: context.table_cell })
}

/// A link destination as written: `<…>` when it is angle-bracketed, empty, or
/// holds a space; escaped bare text otherwise; nothing for an omitted empty one.
pub open spec fn spec_destination(input: Seq<u8>, kind: LinkDestinationKind, table_cell: bool) -> Seq<u8> {
    let angle = seq![60u8] + spec_escape(EscapeRule::AngleDestination { pipe: table_cell }, input) + seq![62u8];
    if kind == LinkDestinationKind::Omitted && input.len() == 0 {
        Seq::empty()
    } else if kind == LinkDestinationKind::Angle {
        angle
    } else if input.len() == 0 {
        seq![60u8, 62u8]
    } else if input.contains(32u8) {
        angle
    } else {
        spec_escape(EscapeRule::Destination { pipe: table_cell }, input)
    }
}

fn serialize_destination_kind(input: &[u8], kind: LinkDestinationKind, context: InlineSerializeContext) -> (r: Vec<u8>)
    ensures
        r@ == spec_destination(input@, kind, context.table_cell),
{
    let angle = match kind {
        LinkDestinationKind::Omitted => {
            if input.len() == 0 {
                return Vec::new();
            }
            contains_byte(input, 32u8)
        },
        LinkDestinationKind::Angle => true,
        LinkDestinationKind::Bare => input.len() != 0 && contains_byte(input, 32u8),
    };
    if angle {
        let mut out: Vec<u8> = vec![60u8];
        let inner = escape_angle_destination_with_context(input, context);
        push_bytes(&mut out, inner.as_slice());
        out.push(62u8);
        out
    } else if input.len() == 0 {
        vec![60u8, 62u8]
    } else {
        escape_destination_with_pipe(input, context.table_cell)
    }
}

/// The opening and closing byte of a link title.
pub open spec fn spec_title_quotes(kind: LinkTitleKind) -> (u8, u8) {
    match kind {
        LinkTitleKind::DoubleQuote => (34u8, 34u8),
        LinkTitleKind::SingleQuote => (39u8, 39u8),
        LinkTitleKind::Paren => (40u8, 41u8),
    }
}

/// A link title as written: its quotes around its escaped text.
pub open spec fn spec_title(input: Seq<u8>, kind: LinkTitleKind, table_cell: bool) -> Seq<u8> {
    seq![spec_title_quotes(kind).0] + spec_escape(EscapeRule::Title { kind, pipe: table_cell }, input)
        + seq![spec_title_quotes(kind).1]
}

fn serialize_title_kind(input: &[u8], kind: LinkTitleKind, context: InlineSerializeContext) -> (r: Vec<u8>)
    ensures
        r@ == spec_title(input@, kind, context.table_cell),
{
    let (open, close): (u8, u8) = match kind {
        LinkTitleKind::DoubleQuote => (34u8, 34u8),
        LinkTitleKind::SingleQuote => (39u8, 39u8),
        LinkTitleKind::Paren => (40u8, 41u8),
    };
    let mut out: Vec<u8> = vec![open];
    let inner = escape_title_with_context(input, kind, context);
    push_bytes(&mut out, inner.as_slice());
    out.push(close);
    out
}

// ---------------------------------------------------------------------------
// Directive attributes.
// ---------------------------------------------------------------------------

/// A non-empty run of ASCII letters, digits, `_` and `-`: written after `#` or `.`.
pub open spec fn spec_is_shorthand_value(b: Seq<u8>) -> bool {
    b.len() > 0 && forall|k: int| 0 <= k < b.len() ==> spec_is_ascii_alnum(#[trigger] b[k]) || b[k] == 95u8 || b[k] == 45u8
}

fn is_directive_shorthand_value(input: &[u8]) -> (r: bool)
    ensures
        r == spec_is_shorthand_value(input@),
{
    let n = input.len();
    if n == 0 {
        return false;
    }
    let mut k: usize = 0;
    while k < n
        invariant
            n == input@.len(),
            k <= n,
            forall|j: int| 0 <= j < k ==> spec_is_ascii_alnum(#[trigger] input@[j]) || input@[j] == 95u8 || input@[j] == 45u8,
        decreases n - k,
    {
        let c = input[k];
        if !(is_ascii_alnum(c) || c == 95u8 || c == 45u8) {
            return false;
        }
        k = k + 1;
    }
    true
}

/// One attribute as written: `#v` for a shorthand `id`, `.v` for a shorthand
/// `class`, `name="v"` for another value, the bare name for none.
pub open spec fn spec_attribute(name: Seq<u8>, value: Option<Seq<u8>>, table_cell: bool) -> Seq<u8> {
    match value {
        Some(v) => if name == seq![105u8, 100u8] && spec_is_shorthand_value(v) {
            seq![35u8] + v
        } else if name == seq![99u8, 108u8, 97u8, 115u8, 115u8] && spec_is_shorthand_value(v) {
            seq![46u8] + v
        } else {
            name + seq![61u8, 34u8] + spec_escape(
                EscapeRule::Title { kind: LinkTitleKind::DoubleQuote, pipe: table_cell },
                v,
            ) + seq![34u8]
        },
        None => name,
    }
}

/// The name and value bytes of an attribute.
pub open spec fn spec_attribute_of(a: DirectiveAttribute, table_cell: bool) -> Seq<u8> {
    spec_attribute(
        vstd::utf8::encode_utf8(a.name@),
        match a.value {
            Some(v) => Some(vstd::utf8::encode_utf8(v@)),
            None => None,
        },
        table_cell,
    )
}

/// The attributes `s[..k]`, separated by spaces.
pub open spec fn spec_attributes_upto(s: Seq<DirectiveAttribute>, k: int, table_cell: bool) -> Seq<u8>
    decreases k,
{
    if k <= 0 {
        Seq::empty()
    } else if k == 1 {
        spec_attribute_of(s[0], table_cell)
    } else {
        spec_attributes_upto(s, k - 1, table_cell) + seq![32u8] + spec_attribute_of(s[k - 1], table_cell)
    }
}

/// A directive's attribute block: nothing when there are none, else `{…}`.
pub open spec fn spec_attributes(s: Seq<DirectiveAttribute>, table_cell: bool) -> Seq<u8> {
    if s.len() == 0 {
        Seq::empty()
    } else {
        seq![123u8] + spec_attributes_upto(s, s.len() as int, table_cell) + seq![125u8]
    }
}

fn push_attribute(out: &mut Vec<u8>, attribute: &DirectiveAttribute, context: InlineSerializeContext)
    ensures
        final(out)@ == old(out)@ + spec_attribute_of(*attribute, context.table_cell),
{
    let name = string_bytes(&attribute.name);
    match &attribute.value {
        Some(value) => {
            let v = string_bytes(value);
            if bytes_equal(name, &[105u8, 100u8]) && is_directive_shorthand_value(v) {
                out.push(35u8);
                push_bytes(out, v);
            } else if bytes_equal(name, &[99u8, 108u8, 97u8, 115u8, 115u8]) && is_directive_shorthand_value(v) {
                out.push(46u8);
                push_bytes(out, v);
            } else {
                push_bytes(out, name);
                out.push(61u8);
                out.push(34u8);
                let escaped = escape_title_with_context(v, LinkTitleKind::DoubleQuote, context);
                push_bytes(out, escaped.as_slice());
                out.push(34u8);
            }
        },
        None => {
            push_bytes(out, name);
        },
    }
    assert(final(out)@ =~= old(out)@ + spec_attribute_of(*attribute, context.table_cell));
}

fn serialize_attributes_with_context(attributes: &Vec<DirectiveAttribute>, context: InlineSerializeContext) -> (r: Vec<u8>)
    ensures
        r@ == spec_attributes(attributes@, context.table_cell),
{
    let n = attributes.len();
    if n == 0 {
        return Vec::new();
    }
    let mut out: Vec<u8> = vec![123u8];
    let mut k: usize = 0;
    while k < n
        invariant
            n == attributes@.len(),
            n > 0,
            k <= n,
            out@ == seq![123u8] + spec_attributes_upto(attributes@, k as int, context.table_cell),
        decreases n - k,
    {
        if k > 0 {
            out.push(32u8);
        }
        push_attribute(&mut out, &attributes[k], context);
        k = k + 1;
        assert(out@ =~= seq![123u8] + spec_attributes_upto(attributes@, k as int, context.table_cell));
    }
    out.push(125u8);
    out
}

fn serialize_attributes(attributes: &Vec<DirectiveAttribute>) -> (r: Vec<u8>)
    ensures
        r@ == spec_attributes(attributes@, false),
{
    serialize_attributes_with_context(attributes, InlineSerializeContext::plain())
}

// ---------------------------------------------------------------------------
// Small pieces of blocks.
// ---------------------------------------------------------------------------

/// `b` without its trailing spaces and tabs.
pub open spec fn spec_rstrip_sp_tab(b: Seq<u8>) -> Seq<u8>
    decreases b.len(),
{
    if b.len() > 0 && (b.last() == 32u8 || b.last() == 9u8) {
        spec_rstrip_sp_tab(b.drop_last())
    } else {
        b
    }
}

proof fn lemma_rstrip_sp_tab_prefix(b: Seq<u8>)
    ensures
        spec_rstrip_sp_tab(b).len() <= b.len(),
        spec_rstrip_sp_tab(b) == b.subrange(0, spec_rstrip_sp_tab(b).len() as int),
    decreases b.len(),
{
    if b.len() > 0 && (b.last() == 32u8 || b.last() == 9u8) {
        lemma_rstrip_sp_tab_prefix(b.drop_last());
        assert(b.drop_last().subrange(0, spec_rstrip_sp_tab(b).len() as int) =~= b.subrange(
            0,
            spec_rstrip_sp_tab(b).len() as int,
        ));
    } else {
        assert(b.subrange(0, b.len() as int) =~= b);
    }
}

/// ATX heading content with the first `#` of a closing-looking run escaped: a
/// final run of `#` (before trailing spaces and tabs) that follows a space or
/// tab would be read as the optional closing sequence.
pub open spec fn spec_escape_atx_heading_content(content: Seq<u8>) -> Seq<u8> {
    let t = spec_rstrip_sp_tab(content).len() as int;
    let h = spec_rstrip(content.subrange(0, t), 35u8).len() as int;
    if h == t || !(h > 0 && (content[h - 1] == 32u8 || content[h - 1] == 9u8)) {
        content
    } else {
        content.subrange(0, h) + seq![92u8] + content.subrange(h, content.len() as int)
    }
}

fn escape_atx_heading_content(content: &[u8]) -> (r: Vec<u8>)
    ensures
        r@ == spec_escape_atx_heading_content(content@),
{
    let n = content.len();
    let mut t = n;
    assert(content@.subrange(0, n as int) =~= content@);
    while t > 0 && (content[t - 1] == 32u8 || content[t - 1] == 9u8)
        invariant
            t <= n == content@.len(),
            spec_rstrip_sp_tab(content@) == spec_rstrip_sp_tab(content@.subrange(0, t as int)),
        decreases t,
    {
        assert(content@.subrange(0, t as int).drop_last() =~= content@.subrange(0, t - 1));
        t = t - 1;
    }
    proof {
        assert(content@.subrange(0, n as int) =~= content@);
    }
    assert(spec_rstrip_sp_tab(content@.subrange(0, t as int)) == content@.subrange(0, t as int));
    let h = rstrip_len(content, t, 35u8);
    proof {
        lemma_rstrip_prefix(content@.subrange(0, t as int), 35u8);
    }
    if h == t || !(h > 0 && (content[h - 1] == 32u8 || content[h - 1] == 9u8)) {
        return copy_range(content, 0, n);
    }
    let mut out = copy_range(content, 0, h);
    out.push(92u8);
    push_range(&mut out, content, h, n);
    out
}

/// The name written inside `[!…]` for an alert kind.
pub open spec fn spec_alert_kind_name(kind: AlertKind) -> Seq<u8> {
    match kind {
        AlertKind::Note => seq![78u8, 79u8, 84u8, 69u8],
        AlertKind::Tip => seq![84u8, 73u8, 80u8],
        AlertKind::Important => seq![73u8, 77u8, 80u8, 79u8, 82u8, 84u8, 65u8, 78u8, 84u8],
        AlertKind::Warning => seq![87u8, 65u8, 82u8, 78u8, 73u8, 78u8, 71u8],
        AlertKind::Caution => seq![67u8, 65u8, 85u8, 84u8, 73u8, 79u8, 78u8],
    }
}

fn alert_kind_name(kind: AlertKind) -> (r: Vec<u8>)
    ensures
        r@ == spec_alert_kind_name(kind),
{
    match kind {
        AlertKind::Note => vec![78u8, 79u8, 84u8, 69u8],
        AlertKind::Tip => vec![84u8, 73u8, 80u8],
        AlertKind::Important => vec![73u8, 77u8, 80u8, 79u8, 82u8, 84u8, 65u8, 78u8, 84u8],
        AlertKind::Warning => vec![87u8, 65u8, 82u8, 78u8, 73u8, 78u8, 71u8],
        AlertKind::Caution => vec![67u8, 65u8, 85u8, 84u8, 73u8, 79u8, 78u8],
    }
}

/// Whether a `*`-bullet item's first line would, behind `* `, read as a
/// thematic break: two or more `*` and nothing else.
pub open spec fn spec_asterisk_break_line(line: Seq<u8>) -> bool {
    line.len() >= 2 && forall|k: int| 0 <= k < line.len() ==> line[k] == 42u8
}

/// `*`-bullet item content whose first line is a run of `*`, with that line
/// replaced by `---`.
pub open spec fn spec_disambiguate_asterisk_item(inner: Seq<u8>) -> Seq<u8> {
    let e = spec_next_nl(inner, 0);
    if spec_asterisk_break_line(inner.subrange(0, e)) {
        seq![45u8, 45u8, 45u8] + inner.subrange(e, inner.len() as int)
    } else {
        inner
    }
}

fn asterisk_bullet_first_line_is_thematic_break(line: &[u8], end: usize) -> (r: bool)
    requires
        end <= line@.len(),
    ensures
        r == spec_asterisk_break_line(line@.subrange(0, end as int)),
{
    if end < 2 {
        return false;
    }
    let mut k: usize = 0;
    while k < end
        invariant
            end <= line@.len(),
            k <= end,
            forall|j: int| 0 <= j < k ==> line@[j] == 42u8,
        decreases end - k,
    {
        if line[k] != 42u8 {
            assert(line@.subrange(0, end as int)[k as int] != 42u8);
            return false;
        }
        k = k + 1;
    }
    true
}

fn disambiguate_asterisk_list_item(inner: Vec<u8>) -> (r: Vec<u8>)
    ensures
        r@ == spec_disambiguate_asterisk_item(inner@),
{
    let n = inner.len();
    let e = next_nl(inner.as_slice(), 0);
    if !asterisk_bullet_first_line_is_thematic_break(inner.as_slice(), e) {
        return inner;
    }
    let mut out: Vec<u8> = vec![45u8, 45u8, 45u8];
    push_range(&mut out, inner.as_slice(), e, n);
    out
}

/// `b` with a trailing `c` turned into `\c`, unless it is already escaped
/// that way.
pub open spec fn spec_escape_trailing(b: Seq<u8>, c: u8) -> Seq<u8> {
    if b.len() > 0 && b.last() == c && !(b.len() >= 2 && b[b.len() - 2] == 92u8) {
        b.drop_last() + seq![92u8, c]
    } else {
        b
    }
}

/// Escapes a trailing `c` of `output` (`!` before a link, `<` before a
/// literal autolink) so that it does not join the next node.
fn escape_trailing(output: &mut Vec<u8>, c: u8)
    ensures
        final(output)@ == spec_escape_trailing(old(output)@, c),
{
    let n = output.len();
    if n > 0 && output[n - 1] == c && !(n >= 2 && output[n - 2] == 92u8) {
        output.pop();
        output.push(92u8);
        output.push(c);
        assert(final(output)@ =~= spec_escape_trailing(old(output)@, c));
    }
}

fn escape_trailing_bang(output: &mut Vec<u8>)
    ensures
        final(output)@ == spec_escape_trailing(old(output)@, 33u8),
{
    escape_trailing(output, 33u8)
}

fn escape_trailing_less_than(output: &mut Vec<u8>)
    ensures
        final(output)@ == spec_escape_trailing(old(output)@, 60u8),
{
    escape_trailing(output, 60u8)
}

/// The decimal digits of `v`.
pub open spec fn spec_decimal(v: nat) -> Seq<u8>
    decreases v,
{
    if v < 10 {
        seq![(48 + v) as u8]
    } else {
        spec_decimal(v / 10).push((48 + v % 10) as u8)
    }
}

/// Appends the decimal digits of `v`.
pub fn push_decimal(out: &mut Vec<u8>, v: u64)
    ensures
        final(out)@ == old(out)@ + spec_decimal(v as nat),
    decreases v,
{
    if v >= 10 {
        push_decimal(out, v / 10);
    }
    out.push((48 + v % 10) as u8);
    assert(final(out)@ =~= old(out)@ + spec_decimal(v as nat));
}

/// `b` with a trailing ASCII letter or digit turned into its decimal character
/// reference, so that a following e-mail literal does not extend over it.
pub open spec fn spec_escape_trailing_email_local(b: Seq<u8>) -> Seq<u8> {
    if b.len() > 0 && spec_is_ascii_alnum(b.last()) {
        b.drop_last() + seq![38u8, 35u8] + spec_decimal(b.last() as nat) + seq![59u8]
    } else {
        b
    }
}

fn escape_trailing_email_local(output: &mut Vec<u8>)
    ensures
        final(output)@ == spec_escape_trailing_email_local(old(output)@),
{
    let n = output.len();
    if n == 0 {
        return;
    }
    let last = output[n - 1];
    if !is_ascii_alnum(last) {
        return;
    }
    output.pop();
    output.push(38u8);
    output.push(35u8);
    push_decimal(output, last as u64);
    output.push(59u8);
    assert(final(output)@ =~= spec_escape_trailing_email_local(old(output)@));
}

/// After a literal autolink, a text's leading non-ASCII scalar written as a
/// hexadecimal character reference, and where the rest of the text starts.
pub open spec fn spec_encode_leading_char(value: Seq<u8>) -> Option<(Seq<u8>, int)> {
    if value.len() == 0 || value[0] < 0x80 {
        None
    } else {
        Some((spec_hex_ref(spec_code_point_at(value, 0) as nat), spec_char_len_at(value, 0) as int))
    }
}

fn encode_leading_char_after_autolink(value: &[u8]) -> (r: Option<(Vec<u8>, usize)>)
    ensures
        r matches Some(p) ==> spec_encode_leading_char(value@) == Some((p.0@, p.1 as int)),
        r is None ==> spec_encode_leading_char(value@) is None,
        r matches Some(p) ==> p.1 <= value@.len(),
{
    if value.len() == 0 || value[0] < 0x80 {
        return None;
    }
    let (len, cp) = code_point_at(value, 0);
    let mut encoded: Vec<u8> = Vec::new();
    push_hex_ref(&mut encoded, cp);
    assert(encoded@ =~= spec_hex_ref(cp as nat));
    Some((encoded, len))
}

// ---------------------------------------------------------------------------
// Inline content.
// ---------------------------------------------------------------------------

/// Why a document could not be written.
#[derive(Debug, PartialEq, Eq)]
pub enum SerializeError {
    /// The document failed validation; the diagnostics say where.
    InvalidDocument(Vec<Diagnostic>),
    /// A node has no Markdown form that re-parses to it.
    UnsupportedNode(&'static str),
}

/// The UTF-8 encoding of the scalar value `c`.
pub open spec fn spec_utf8_of(c: u32) -> Seq<u8> {
    if c < 0x80 {
        seq![c as u8]
    } else if c < 0x800 {
        seq![(0xC0 + c / 64) as u8, (0x80 + c % 64) as u8]
    } else if c < 0x10000 {
        seq![(0xE0 + c / 4096) as u8, (0x80 + (c / 64) % 64) as u8, (0x80 + c % 64) as u8]
    } else {
        seq![(0xF0 + c / 262144) as u8, (0x80 + (c / 4096) % 64) as u8, (0x80 + (c / 64) % 64) as u8, (0x80
            + c % 64) as u8]
    }
}

fn push_char(out: &mut Vec<u8>, ch: char)
    ensures
        final(out)@ == old(out)@ + spec_utf8_of(ch as u32),
{
    let c = ch as u32;
    if c < 0x80 {
        out.push(c as u8);
    } else if c < 0x800 {
        out.push((0xC0 + c / 64) as u8);
        out.push((0x80 + c % 64) as u8);
    } else if c < 0x10000 {
        out.push((0xE0 + c / 4096) as u8);
        out.push((0x80 + (c / 64) % 64) as u8);
        out.push((0x80 + c % 64) as u8);
    } else {
        out.push((0xF0 + c / 262144) as u8);
        out.push((0x80 + (c / 4096) % 64) as u8);
        out.push((0x80 + (c / 64) % 64) as u8);
        out.push((0x80 + c % 64) as u8);
    }
    assert(final(out)@ =~= old(out)@ + spec_utf8_of(c));
}

/// Whether inline math cannot be written: its value holds a `` `$ `` close and
/// must use the code-math form (it is code math, or it holds `|` in a table).
pub open spec fn spec_math_unsupported(v: Seq<u8>, kind: MathInlineKind, table_cell: bool) -> bool {
    spec_find_sub(v, 0, seq![96u8, 36u8]) is Some && ((table_cell && v.contains(124u8)) || kind is Code)
}

/// Inline math as written, or `None` when it cannot be.
pub open spec fn spec_inline_math(v: Seq<u8>, kind: MathInlineKind, table_cell: bool) -> Option<Seq<u8>> {
    if spec_math_unsupported(v, kind, table_cell) {
        None
    } else if table_cell && v.contains(124u8) {
        Some(seq![36u8, 96u8] + spec_escape_code_pipes(v) + seq![96u8, 36u8])
    } else {
        match kind {
            MathInlineKind::Code => Some(seq![36u8, 96u8] + v + seq![96u8, 36u8]),
            MathInlineKind::Dollar { dollars } => {
                let f = spec_repeat(36u8, if dollars == 0 { 1 } else { dollars as nat });
                Some(f + v + f)
            },
        }
    }
}

fn serialize_inline_math_with_context(node: &MathInline, context: InlineSerializeContext) -> (r: Result<Vec<u8>, SerializeError>)
    ensures
        r matches Ok(v) ==> spec_inline_math(encode_utf8(node.value@), node.kind, context.table_cell) == Some(v@),
        r is Err ==> spec_inline_math(encode_utf8(node.value@), node.kind, context.table_cell) is None,
        r matches Err(e) ==> e is UnsupportedNode,
{
    let input = string_bytes(&node.value);
    let has_close = find_sub(input, 0, &[96u8, 36u8]).is_some();
    assert([96u8, 36u8]@ =~= seq![96u8, 36u8]);
    if context.table_cell && contains_byte(input, 124u8) {
        if has_close {
            return Err(SerializeError::UnsupportedNode("inline math containing a table pipe and a code-math close"));
        }
        let mut out: Vec<u8> = vec![36u8, 96u8];
        let escaped = table_cell_escape_code_pipes(input);
        push_bytes(&mut out, escaped.as_slice());
        out.push(96u8);
        out.push(36u8);
        assert(out@ =~= seq![36u8, 96u8] + spec_escape_code_pipes(input@) + seq![96u8, 36u8]);
        return Ok(out);
    }
    match node.kind {
        MathInlineKind::Code => {
            if has_close {
                return Err(SerializeError::UnsupportedNode("inline math (code-math form) containing a `$` close"));
            }
            let mut out: Vec<u8> = vec![36u8, 96u8];
            push_bytes(&mut out, input);
            out.push(96u8);
            out.push(36u8);
            assert(out@ =~= seq![36u8, 96u8] + input@ + seq![96u8, 36u8]);
            Ok(out)
        },
        MathInlineKind::Dollar { dollars } => {
            let count: usize = if dollars == 0 {
                1
            } else {
                dollars as usize
            };
            let fence = repeat_byte(36u8, count);
            let mut out: Vec<u8> = Vec::new();
            push_bytes(&mut out, fence.as_slice());
            push_bytes(&mut out, input);
            push_bytes(&mut out, fence.as_slice());
            Ok(out)
        },
    }
}

/// Whether every inline math node of `node`'s subtree can be written in a
/// context that is (or is not) a table cell.
pub open spec fn spec_inline_serializable(node: Inline, table_cell: bool) -> bool
    decreases node,
{
    match node {
        Inline::Math(m) => !spec_math_unsupported(encode_utf8(m.value@), m.kind, table_cell),
        Inline::Emphasis(n) => spec_inlines_serializable(n.children@, table_cell),
        Inline::Strong(n) => spec_inlines_serializable(n.children@, table_cell),
        Inline::Underline(n) => spec_inlines_serializable(n.children@, table_cell),
        Inline::Delete(n) => spec_inlines_serializable(n.children@, table_cell),
        Inline::Insert(n) => spec_inlines_serializable(n.children@, table_cell),
        Inline::Mark(n) => spec_inlines_serializable(n.children@, table_cell),
        Inline::Subscript(n) => spec_inlines_serializable(n.children@, table_cell),
        Inline::Superscript(n) => spec_inlines_serializable(n.children@, table_cell),
        Inline::Spoiler(n) => spec_inlines_serializable(n.children@, table_cell),
        Inline::Link(n) => spec_inlines_serializable(n.children@, table_cell),
        Inline::Image(n) => spec_inlines_serializable(n.alt@, table_cell),
        Inline::LinkReference(n) => spec_inlines_serializable(n.children@, table_cell),
        Inline::ImageReference(n) => spec_inlines_serializable(n.alt@, table_cell),
        Inline::InlineFootnote(n) => spec_inlines_serializable(n.children@, table_cell),
        Inline::TextDirective(n) => spec_inlines_serializable(n.label@, table_cell),
        _ => true,
    }
}

/// Whether every node of an inline sequence can be written.
pub open spec fn spec_inlines_serializable(s: Seq<Inline>, table_cell: bool) -> bool
    decreases s,
{
    forall|k: int| 0 <= k < s.len() ==> spec_inline_serializable(#[trigger] s[k], table_cell)
}

fn is_gfm_literal_autolink(inline: &Inline) -> (r: bool)
    ensures
        r == (inline matches Inline::Autolink(a) && a.kind is GfmLiteral),
{
    match inline {
        Inline::Autolink(node) => match &node.kind {
            AutolinkKind::GfmLiteral { .. } => true,
            AutolinkKind::Angle => false,
        },
        _ => false,
    }
}

/// `mailto:`.
pub open spec fn spec_mailto() -> Seq<u8> {
    seq![109u8, 97u8, 105u8, 108u8, 116u8, 111u8, 58u8]
}

/// Whether a destination is `mailto:` followed by `original`.
fn is_mailto_of(destination: &[u8], original: &[u8]) -> (r: bool)
    ensures
        r == (destination@ == spec_mailto() + original@),
{
    let m: [u8; 7] = [109u8, 97u8, 105u8, 108u8, 116u8, 111u8, 58u8];
    assert(m@ =~= spec_mailto());
    if destination.len() < 7 || destination.len() - 7 != original.len() {
        return false;
    }
    if !starts_with_at(destination, 0, &m) {
        assert((spec_mailto() + original@).subrange(0, 7) =~= spec_mailto());
        return false;
    }
    let dn = destination.len();
    let n = original.len();
    let mut k: usize = 0;
    while k < n
        invariant
            n == original@.len(),
            dn == destination@.len(),
            dn == n + 7,
            destination@.subrange(0, 7) == spec_mailto(),
            k <= n,
            forall|j: int| 0 <= j < k ==> destination@[j + 7] == original@[j],
        decreases n - k,
    {
        if destination[k + 7] != original[k] {
            assert((spec_mailto() + original@)[k + 7] == original@[k as int]);
            return false;
        }
        k = k + 1;
    }
    assert(destination@ =~= spec_mailto() + original@);
    true
}

/// Whether an inline is a bare e-mail literal autolink.
pub open spec fn spec_is_gfm_literal_email(inline: Inline) -> bool {
    inline matches Inline::Autolink(a) && a.kind matches AutolinkKind::GfmLiteral { original }
        && encode_utf8(a.destination@) == spec_mailto() + encode_utf8(original@)
}

fn is_gfm_literal_email(inline: &Inline) -> (r: bool)
    ensures
        r == spec_is_gfm_literal_email(*inline),
{
    match inline {
        Inline::Autolink(node) => match &node.kind {
            AutolinkKind::GfmLiteral { original } => is_mailto_of(string_bytes(&node.destination), string_bytes(original)),
            AutolinkKind::Angle => false,
        },
        _ => false,
    }
}

fn text_is_at_line_end(next: Option<&Inline>) -> (r: bool)
    ensures
        r == (next is None || next.unwrap() is SoftBreak || next.unwrap() is LineBreak),
{
    match next {
        None => true,
        Some(Inline::SoftBreak(_)) => true,
        Some(Inline::LineBreak(_)) => true,
        Some(_) => false,
    }
}

/// The delimiter of an empty emphasis: `__` next to a text touching `_`, else `**`.
fn empty_emphasis_delimiter(prev: Option<&Inline>, next: Option<&Inline>) -> (r: Vec<u8>)
    ensures
        r@ == spec_empty_emphasis_delimiter(spec_opt_node(prev), spec_opt_node(next)),
{
    let before = match prev {
        Some(Inline::Text(text)) => {
            let b = string_bytes(&text.value);
            b.len() > 0 && b[b.len() - 1] == 95u8
        },
        _ => false,
    };
    let after = match next {
        Some(Inline::Text(text)) => {
            let b = string_bytes(&text.value);
            b.len() > 0 && b[0] == 95u8
        },
        _ => false,
    };
    if before || after {
        vec![95u8, 95u8]
    } else {
        vec![42u8, 42u8]
    }
}

/// The bracketed body of a reference: the rendered text, or the escaped label
/// when a shortcut or collapsed reference's text would not match; then `[]`
/// or `[label]` by kind.
pub open spec fn spec_reference_body(kind: ReferenceKind, rendered: Seq<u8>, matches: bool, label: Seq<u8>) -> Seq<u8> {
    let body = if !matches && kind != ReferenceKind::Full {
        label
    } else {
        rendered
    };
    seq![91u8] + body + seq![93u8] + match kind {
        ReferenceKind::Shortcut => Seq::empty(),
        ReferenceKind::Collapsed => seq![91u8, 93u8],
        ReferenceKind::Full => seq![91u8] + label + seq![93u8],
    }
}

fn push_reference_body(output: &mut Vec<u8>, kind: ReferenceKind, rendered: &[u8], matches: bool, label: &[u8])
    ensures
        final(output)@ == old(output)@ + spec_reference_body(kind, rendered@, matches, label@),
{
    let use_label = !matches && kind != ReferenceKind::Full;
    output.push(91u8);
    if use_label {
        push_bytes(output, label);
    } else {
        push_bytes(output, rendered);
    }
    output.push(93u8);
    match kind {
        ReferenceKind::Shortcut => {},
        ReferenceKind::Collapsed => {
            output.push(91u8);
            output.push(93u8);
        },
        ReferenceKind::Full => {
            output.push(91u8);
            push_bytes(output, label);
            output.push(93u8);
        },
    }
    assert(final(output)@ =~= old(output)@ + spec_reference_body(kind, rendered@, matches, label@));
}

/// The explicit label of a reference: a parsed label keeps its source (control
/// characters referenced), a built one is escaped as label syntax.
pub open spec fn spec_reference_label(from_source: bool, label: Seq<u8>, table_cell: bool) -> Seq<u8> {
    if from_source {
        spec_escape(EscapeRule::ReferenceLabelSource { pipe: table_cell }, label)
    } else {
        spec_escape(EscapeRule::LabelSyntax { pipe: table_cell, whitespace: false }, label)
    }
}

fn reference_explicit_label(from_source: bool, label: &[u8], context: InlineSerializeContext) -> (r: Vec<u8>)
    ensures
        r@ == spec_reference_label(from_source, label@, context.table_cell),
{
    if from_source {
        escape_reference_label_source(label, context.table_cell)
    } else {
        escape_reference_label_with_pipe(label, context.table_cell)
    }
}

/// Whether `b` starts or ends with `_` (or starts with `\_`).
fn touches_underscore(b: &[u8]) -> (r: bool)
    ensures
        r == (b@.len() > 0 && (b@[0] == 95u8 || b@.last() == 95u8) || b@.len() >= 2 && (b@[0] == 92u8 && b@[1]
            == 95u8 || b@[b@.len() - 2] == 92u8 && b@.last() == 95u8)),
{
    let n = b.len();
    n > 0 && (b[0] == 95u8 || b[n - 1] == 95u8) || n >= 2 && (b[0] == 92u8 && b[1] == 95u8 || b[n - 2] == 92u8
        && b[n - 1] == 95u8)
}

// ---------------------------------------------------------------------------
// Inline serialization.
// ---------------------------------------------------------------------------

/// A neighbouring node, if any.
pub open spec fn spec_opt_node(o: Option<&Inline>) -> Option<Inline> {
    match o {
        Some(p) => Some(*p),
        None => None,
    }
}

/// The context with `*` edges to avoid (inside `*`-delimited emphasis).
pub open spec fn spec_avoiding(ctx: InlineSerializeContext) -> InlineSerializeContext {
    InlineSerializeContext { table_cell: ctx.table_cell, avoid_star_edges: true }
}

/// Whether `b` starts or ends with `_`, or with `\_`.
pub open spec fn spec_touches_underscore(b: Seq<u8>) -> bool {
    b.len() > 0 && (b[0] == 95u8 || b.last() == 95u8) || b.len() >= 2 && (b[0] == 92u8 && b[1] == 95u8
        || b[b.len() - 2] == 92u8 && b.last() == 95u8)
}

/// `t`, moved back over the spaces and tabs before it, but not below `lo`.
pub open spec fn spec_trim_blanks_back(v: Seq<u8>, lo: int, t: int) -> int
    decreases t - lo,
{
    if t > lo && (v[t - 1] == 32u8 || v[t - 1] == 9u8) {
        spec_trim_blanks_back(v, lo, t - 1)
    } else {
        t
    }
}

/// Whether `node` is a literal (GFM) autolink.
pub open spec fn spec_is_literal_autolink(node: Option<Inline>) -> bool {
    node matches Some(n) && (n matches Inline::Autolink(a) && a.kind is GfmLiteral)
}

/// The delimiter of an empty emphasis: `__` when a neighbouring text touches
/// it with `_`, else `**`.
pub open spec fn spec_empty_emphasis_delimiter(prev: Option<Inline>, next: Option<Inline>) -> Seq<u8> {
    let before = prev matches Some(p) && (p matches Inline::Text(t) && encode_utf8(t.value@).len() > 0
        && encode_utf8(t.value@).last() == 95u8);
    let after = next matches Some(q) && (q matches Inline::Text(t) && encode_utf8(t.value@).len() > 0
        && encode_utf8(t.value@)[0] == 95u8);
    if before || after {
        seq![95u8, 95u8]
    } else {
        seq![42u8, 42u8]
    }
}

/// `](destination "title")` of a link or image.
pub open spec fn spec_resource(
    destination: Seq<char>,
    kind: LinkDestinationKind,
    title: Option<String>,
    title_kind: Option<LinkTitleKind>,
    table_cell: bool,
) -> Seq<u8> {
    seq![93u8, 40u8] + spec_destination(encode_utf8(destination), kind, table_cell) + (match (title, title_kind) {
        (Some(t), Some(k)) => seq![32u8] + spec_title(encode_utf8(t@), k, table_cell),
        _ => Seq::<u8>::empty(),
    }) + seq![41u8]
}

/// A text node written after `out`: a character after a literal autolink
/// referenced when it would extend the link, blanks before a literal
/// autolink kept as they are, the rest escaped (edge blanks kept as
/// references at a line's start or end).
pub open spec fn spec_text_written(out: Seq<u8>, value: Seq<u8>, prev: Option<Inline>, next: Option<Inline>, ctx: InlineSerializeContext) -> Seq<u8> {
    let enc = if spec_is_literal_autolink(prev) {
        spec_encode_leading_char(value)
    } else {
        None
    };
    let lead = match enc {
        Some(p) => p.0,
        None => Seq::<u8>::empty(),
    };
    let body_start = match enc {
        Some(p) => p.1,
        None => 0int,
    };
    let head_end = if spec_is_literal_autolink(next) {
        spec_trim_blanks_back(value, body_start, value.len() as int)
    } else {
        value.len() as int
    };
    let o1 = out + lead;
    let preserve_leading = lead.len() == 0 && head_end > body_start && crate::text_escape::spec_output_line_len(o1) == 0;
    let preserve_trailing = head_end == value.len() && (next is None || next->0 is SoftBreak || next->0 is LineBreak);
    o1 + crate::text_escape::spec_escape_text(value.subrange(body_start, head_end), preserve_leading, preserve_trailing, ctx)
        + value.subrange(head_end, value.len() as int)
}

/// An inline code span written: its own fence around its raw source when it
/// has one, else its value in the shortest fence that it does not contain,
/// padded with spaces where the parser would strip them.
pub open spec fn spec_code_written(raw: Seq<u8>, value: Seq<u8>, fence_length: nat, table_cell: bool) -> Seq<u8> {
    if fence_length > 0 && raw.len() > 0 {
        let f = spec_repeat(96u8, fence_length);
        f + (if table_cell {
            spec_escape_code_pipes(raw)
        } else {
            raw
        }) + f
    } else if value.len() == 0 {
        seq![96u8, 96u8, 32u8, 96u8, 96u8]
    } else {
        let v = if table_cell {
            spec_escape_code_pipes(value)
        } else {
            value
        };
        let f = spec_fence_for(v, FenceMarker::Backtick, 1);
        f + (if spec_code_span_needs_padding(v) {
            seq![32u8] + v + seq![32u8]
        } else {
            v
        }) + f
    }
}

/// A wikilink written: `[[target]]`, or target and label around `|` in their
/// source order.
pub open spec fn spec_wikilink_written(t: Seq<u8>, l: Seq<u8>, order: WikiLinkLabelOrder) -> Seq<u8> {
    let target = spec_escape(EscapeRule::WikilinkPart, t);
    let label = spec_escape(EscapeRule::WikilinkPart, l);
    seq![91u8, 91u8] + (if t == l {
        target
    } else {
        match order {
            WikiLinkLabelOrder::AfterPipe => target + seq![124u8] + label,
            WikiLinkLabelOrder::BeforePipe => label + seq![124u8] + target,
        }
    }) + seq![93u8, 93u8]
}

/// The output after writing `node` after `out`, with `prev` and `next` its
/// neighbours. (Some kinds change the end of `out`: a trailing `!`, `<` or
/// e-mail local part is escaped so that it does not join the new node.)
pub open spec fn spec_inline_written(
    out: Seq<u8>,
    node: Inline,
    prev: Option<Inline>,
    next: Option<Inline>,
    ctx: InlineSerializeContext,
) -> Seq<u8>
    decreases node, 0int,
{
    let tc = ctx.table_cell;
    match node {
        Inline::Text(n) => spec_text_written(out, encode_utf8(n.value@), prev, next, ctx),
        Inline::Escape(n) => out + seq![92u8] + spec_utf8_of(n.value as u32),
        Inline::CharacterReference(n) => out + encode_utf8(n.reference@),
        Inline::Emphasis(n) => if n.children@.len() == 0 {
            out + spec_empty_emphasis_delimiter(prev, next)
        } else {
            let children = spec_inlines_written(n.children@, ctx);
            let touches = spec_touches_underscore(children);
            let abuts_star = out.len() > 0 && out.last() == 42u8 && !touches;
            let star_edge = children.len() > 0 && (children[0] == 42u8 || children.last() == 42u8);
            if (ctx.avoid_star_edges && !touches) || abuts_star || star_edge {
                out + seq![95u8] + children + seq![95u8]
            } else {
                out + seq![42u8] + spec_inlines_written(n.children@, spec_avoiding(ctx)) + seq![42u8]
            }
        },
        Inline::Strong(n) => out + seq![42u8, 42u8] + spec_inlines_written(n.children@, spec_avoiding(ctx)) + seq![42u8, 42u8],
        Inline::Underline(n) => out + seq![95u8, 95u8] + spec_inlines_written(n.children@, ctx) + seq![95u8, 95u8],
        Inline::Delete(n) => match n.marker {
            DeleteMarker::SingleTilde => out + seq![126u8] + spec_inlines_written(n.children@, ctx) + seq![126u8],
            DeleteMarker::DoubleTilde => out + seq![126u8, 126u8] + spec_inlines_written(n.children@, ctx) + seq![126u8, 126u8],
        },
        Inline::Insert(n) => out + seq![43u8, 43u8] + spec_inlines_written(n.children@, ctx) + seq![43u8, 43u8],
        Inline::Mark(n) => out + seq![61u8, 61u8] + spec_inlines_written(n.children@, ctx) + seq![61u8, 61u8],
        Inline::Subscript(n) => out + seq![126u8] + spec_inlines_written(n.children@, ctx) + seq![126u8],
        Inline::Superscript(n) => out + seq![94u8] + spec_inlines_written(n.children@, ctx) + seq![94u8],
        Inline::Spoiler(n) => out + seq![124u8, 124u8] + spec_inlines_written(n.children@, ctx) + seq![124u8, 124u8],
        Inline::Shortcode(n) => out + seq![58u8] + encode_utf8(n.name@) + seq![58u8],
        Inline::Code(n) => out + spec_code_written(encode_utf8(n.raw@), encode_utf8(n.value@), n.fence_length as nat, tc),
        Inline::Link(n) => spec_escape_trailing(out, 33u8) + seq![91u8] + spec_inlines_written(n.children@, ctx)
            + spec_resource(n.destination@, n.destination_kind, n.title, n.title_kind, tc),
        Inline::Image(n) => out + seq![33u8, 91u8] + spec_inlines_written(n.alt@, ctx) + spec_resource(
            n.destination@,
            n.destination_kind,
            n.title,
            n.title_kind,
            tc,
        ),
        Inline::LinkReference(n) => {
            let children = spec_inlines_written(n.children@, ctx);
            let matches = encode_utf8(crate::label::spec_normalize_label(children)) == encode_utf8(n.identifier@);
            spec_escape_trailing(out, 33u8) + spec_reference_body(
                n.kind,
                children,
                matches,
                spec_reference_label(n.meta.span is Some, encode_utf8(n.label@), tc),
            )
        },
        Inline::ImageReference(n) => {
            let alt = spec_inlines_written(n.alt@, ctx);
            let matches = encode_utf8(crate::label::spec_normalize_label(alt)) == encode_utf8(n.identifier@);
            out + seq![33u8] + spec_reference_body(
                n.kind,
                alt,
                matches,
                spec_reference_label(n.meta.span is Some, encode_utf8(n.label@), tc),
            )
        },
        Inline::Autolink(n) => match n.kind {
            AutolinkKind::Angle => out + seq![60u8] + encode_utf8(n.destination@) + seq![62u8],
            AutolinkKind::GfmLiteral { original } => {
                let o = encode_utf8(original@);
                let bare_email = encode_utf8(n.destination@) == crate::literal_autolink::spec_mailto() + o;
                let follows_email_plus = o.len() > 0 && o[0] == 43u8 && (prev matches Some(p) && spec_is_gfm_literal_email(p));
                (if bare_email && !follows_email_plus {
                    spec_escape_trailing_email_local(out)
                } else {
                    spec_escape_trailing(out, 60u8)
                }) + o
            },
        },
        Inline::Html(n) => out + encode_utf8(n.value@),
        Inline::SoftBreak(_) => out + seq![10u8],
        Inline::LineBreak(n) => match n.kind {
            LineBreakKind::Backslash => out + seq![92u8, 10u8],
            LineBreakKind::Spaces => out + seq![32u8, 32u8, 10u8],
        },
        Inline::Math(n) => match spec_inline_math(encode_utf8(n.value@), n.kind, tc) {
            Some(m) => out + m,
            None => out,
        },
        Inline::FootnoteReference(n) => spec_escape_trailing(out, 33u8) + seq![91u8, 94u8] + (if n.meta.span is Some {
            spec_escape(EscapeRule::FootnoteLabelSource, encode_utf8(n.label@))
        } else {
            spec_escape(EscapeRule::LabelSyntax { pipe: false, whitespace: true }, encode_utf8(n.label@))
        }) + seq![93u8],
        Inline::InlineFootnote(n) => out + seq![94u8, 91u8] + spec_inlines_written(n.children@, ctx) + seq![93u8],
        Inline::WikiLink(n) => out + spec_wikilink_written(encode_utf8(n.target@), encode_utf8(n.label@), n.label_order),
        Inline::MdxExpression(n) => out + seq![123u8] + encode_utf8(n.value@) + seq![125u8],
        Inline::MdxJsx(n) => out + encode_utf8(n.value@),
        Inline::TextDirective(n) => out + seq![58u8] + encode_utf8(n.name@) + (if n.label@.len() == 0 {
            Seq::<u8>::empty()
        } else {
            seq![91u8] + spec_inlines_written(n.label@, ctx) + seq![93u8]
        }) + spec_attributes(n.attributes@, tc),
    }
}

/// The output after writing the first `i` nodes of `s`, from empty output.
pub open spec fn spec_inlines_prefix_written(s: Seq<Inline>, i: int, ctx: InlineSerializeContext) -> Seq<u8>
    decreases s, i,
{
    if i <= 0 || i > s.len() {
        Seq::empty()
    } else {
        spec_inline_written(
            spec_inlines_prefix_written(s, i - 1, ctx),
            s[i - 1],
            if i >= 2 {
                Some(s[i - 2])
            } else {
                None
            },
            if i < s.len() {
                Some(s[i])
            } else {
                None
            },
            ctx,
        )
    }
}

/// An inline sequence as Markdown source: each node written after the ones
/// before it, in order.
pub open spec fn spec_inlines_written(s: Seq<Inline>, ctx: InlineSerializeContext) -> Seq<u8>
    decreases s, s.len() + 1,
{
    spec_inlines_prefix_written(s, s.len() as int, ctx)
}

fn serialize_inlines(inlines: &[Inline], options: &SerializeOptions) -> (r: Result<Vec<u8>, SerializeError>)
    ensures
        r is Ok <==> spec_inlines_serializable(inlines@, false),
        r matches Err(e) ==> e is UnsupportedNode,
        r matches Ok(o) ==> spec_inlines_out(inlines@) == Some(o@),
{
    let ctx = InlineSerializeContext::plain();
    assert(ctx == spec_plain());
    serialize_inlines_with_context(inlines, options, ctx)
}

fn serialize_inlines_with_context(
    inlines: &[Inline],
    options: &SerializeOptions,
    context: InlineSerializeContext,
) -> (r: Result<Vec<u8>, SerializeError>)
    ensures
        r is Ok <==> spec_inlines_serializable(inlines@, context.table_cell),
        r matches Err(e) ==> e is UnsupportedNode,
        r matches Ok(o) ==> o@ == spec_inlines_written(inlines@, context),
    decreases inlines@, 2nat,
{
    let n = inlines.len();
    let mut output: Vec<u8> = Vec::new();
    let mut i: usize = 0;
    while i < n
        invariant
            n == inlines@.len(),
            i <= n,
            output@ == spec_inlines_prefix_written(inlines@, i as int, context),
            forall|k: int| 0 <= k < i ==> spec_inline_serializable(#[trigger] inlines@[k], context.table_cell),
        decreases n - i,
    {
        let prev = if i > 0 {
            Some(&inlines[i - 1])
        } else {
            None
        };
        let next = if i + 1 < n {
            Some(&inlines[i + 1])
        } else {
            None
        };
        assert(spec_opt_node(prev) == (if i >= 1 { Some(inlines@[i - 1]) } else { None::<Inline> }));
        assert(spec_opt_node(next) == (if i + 1 < n { Some(inlines@[i + 1]) } else { None::<Inline> }));
        let step = serialize_inline(&mut output, &inlines[i], prev, next, options, context);
        match step {
            Ok(()) => {},
            Err(e) => {
                assert(!spec_inline_serializable(inlines@[i as int], context.table_cell));
                return Err(e);
            },
        }
        i = i + 1;
    }
    Ok(output)
}

fn serialize_directive_label_with_context(
    label: &Vec<Inline>,
    options: &SerializeOptions,
    context: InlineSerializeContext,
) -> (r: Result<Vec<u8>, SerializeError>)
    ensures
        r is Ok <==> spec_inlines_serializable(label@, context.table_cell),
        r matches Err(e) ==> e is UnsupportedNode,
        r matches Ok(v) ==> (label@.len() == 0 <==> v@.len() == 0),
        r matches Ok(v) ==> v@ == (if label@.len() == 0 {
            Seq::<u8>::empty()
        } else {
            seq![91u8] + spec_inlines_written(label@, context) + seq![93u8]
        }),
    decreases label@, 3nat,
{
    if label.len() == 0 {
        return Ok(Vec::new());
    }
    let inner = serialize_inlines_with_context(label.as_slice(), options, context)?;
    let mut out: Vec<u8> = vec![91u8];
    push_bytes(&mut out, inner.as_slice());
    out.push(93u8);
    Ok(out)
}

fn serialize_directive_label(label: &Vec<Inline>, options: &SerializeOptions) -> (r: Result<Vec<u8>, SerializeError>)
    ensures
        r is Ok <==> spec_inlines_serializable(label@, false),
        r matches Err(e) ==> e is UnsupportedNode,
        r matches Ok(v) ==> spec_directive_label_out(label@) == Some(v@),
{
    let ctx = InlineSerializeContext::plain();
    assert(ctx == spec_plain());
    serialize_directive_label_with_context(label, options, ctx)
}

/// Appends `children` wrapped in `marker` on both sides.
fn push_wrapped(
    output: &mut Vec<u8>,
    marker: &[u8],
    children: &[Inline],
    options: &SerializeOptions,
    context: InlineSerializeContext,
) -> (r: Result<(), SerializeError>)
    ensures
        r is Ok <==> spec_inlines_serializable(children@, context.table_cell),
        r matches Err(e) ==> e is UnsupportedNode,
        r is Ok ==> final(output)@ == old(output)@ + marker@ + spec_inlines_written(children@, context) + marker@,
    decreases children@, 3nat,
{
    let inner = serialize_inlines_with_context(children, options, context)?;
    push_bytes(output, marker);
    push_bytes(output, inner.as_slice());
    push_bytes(output, marker);
    Ok(())
}

/// Appends `(destination "title")` of a link or image.
fn push_resource(
    output: &mut Vec<u8>,
    destination: &String,
    kind: LinkDestinationKind,
    title: &Option<String>,
    title_kind: Option<LinkTitleKind>,
    context: InlineSerializeContext,
)
    ensures
        final(output)@ == old(output)@ + spec_resource(destination@, kind, *title, title_kind, context.table_cell),
{
    output.push(93u8);
    output.push(40u8);
    let d = serialize_destination_kind(string_bytes(destination), kind, context);
    push_bytes(output, d.as_slice());
    match (title, title_kind) {
        (Some(t), Some(k)) => {
            output.push(32u8);
            let tt = serialize_title_kind(string_bytes(t), k, context);
            push_bytes(output, tt.as_slice());
        },
        _ => {},
    }
    output.push(41u8);
}

/// Appends a text node, escaped for its place among its neighbours.
fn serialize_text_inline(
    output: &mut Vec<u8>,
    node: &Text,
    prev: Option<&Inline>,
    next: Option<&Inline>,
    context: InlineSerializeContext,
)
    ensures
        final(output)@ == spec_text_written(old(output)@, encode_utf8(node.value@), spec_opt_node(prev), spec_opt_node(next), context),
{
    let after_literal = match prev {
        Some(p) => is_gfm_literal_autolink(p),
        None => false,
    };
    let before_literal = match next {
        Some(q) => is_gfm_literal_autolink(q),
        None => false,
    };
    let value = string_bytes(&node.value);
    let vn = value.len();
    let mut lead: Vec<u8> = Vec::new();
    let mut body_start: usize = 0;
    if after_literal {
        match encode_leading_char_after_autolink(value) {
            Some((encoded, rest)) => {
                lead = encoded;
                body_start = rest;
            },
            None => {},
        }
    }
    let mut head_end = vn;
    if before_literal {
        let mut t = vn;
        while t > body_start && (value[t - 1] == 32u8 || value[t - 1] == 9u8)
            invariant
                body_start <= t <= vn == value@.len(),
                spec_trim_blanks_back(value@, body_start as int, t as int) == spec_trim_blanks_back(value@, body_start as int, vn as int),
            decreases t,
        {
            t = t - 1;
        }
        head_end = t;
    }
    push_bytes(output, lead.as_slice());
    let escape_body = copy_range(value, body_start, head_end);
    let preserve_leading = lead.len() == 0 && head_end > body_start && output_line_len(output.as_slice()) == 0;
    let preserve_trailing = head_end == vn && text_is_at_line_end(next);
    let escaped = escape_text_with_context(escape_body.as_slice(), preserve_leading, preserve_trailing, context);
    push_bytes(output, escaped.as_slice());
    push_range(output, value, head_end, vn);
}

/// Appends an inline code span.
fn serialize_code_inline(output: &mut Vec<u8>, node: &CodeInline, context: InlineSerializeContext)
    ensures
        final(output)@ == old(output)@ + spec_code_written(encode_utf8(node.raw@), encode_utf8(node.value@), node.fence_length as nat, context.table_cell),
{
    let raw = string_bytes(&node.raw);
    let value = string_bytes(&node.value);
    if node.fence_length > 0 && raw.len() > 0 {
        let fence = repeat_byte(96u8, node.fence_length);
        push_bytes(output, fence.as_slice());
        if context.table_cell {
            let escaped = table_cell_escape_code_pipes(raw);
            push_bytes(output, escaped.as_slice());
        } else {
            push_bytes(output, raw);
        }
        push_bytes(output, fence.as_slice());
        return;
    }
    if value.len() == 0 {
        push_bytes(output, &[96u8, 96u8, 32u8, 96u8, 96u8]);
        return;
    }
    let v = if context.table_cell {
        table_cell_escape_code_pipes(value)
    } else {
        copy_range(value, 0, value.len())
    };
    assert(v@ =~= (if context.table_cell { spec_escape_code_pipes(value@) } else { value@ }));
    let fence = inline_code_fence(v.as_slice());
    push_bytes(output, fence.as_slice());
    if code_span_needs_padding(v.as_slice()) {
        output.push(32u8);
        push_bytes(output, v.as_slice());
        output.push(32u8);
    } else {
        push_bytes(output, v.as_slice());
    }
    push_bytes(output, fence.as_slice());
}

fn serialize_inline(
    output: &mut Vec<u8>,
    inline: &Inline,
    prev: Option<&Inline>,
    next: Option<&Inline>,
    options: &SerializeOptions,
    context: InlineSerializeContext,
) -> (r: Result<(), SerializeError>)
    ensures
        r is Ok <==> spec_inline_serializable(*inline, context.table_cell),
        r matches Err(e) ==> e is UnsupportedNode,
        r is Ok ==> final(output)@ == spec_inline_written(old(output)@, *inline, spec_opt_node(prev), spec_opt_node(next), context),
    decreases *inline, 1nat,
{
    match inline {
        Inline::Text(node) => {
            serialize_text_inline(output, node, prev, next, context);
            Ok(())
        },
        Inline::Escape(node) => {
            output.push(92u8);
            push_char(output, node.value);
            Ok(())
        },
        Inline::CharacterReference(node) => {
            push_bytes(output, string_bytes(&node.reference));
            Ok(())
        },
        Inline::Shortcode(node) => {
            output.push(58u8);
            push_bytes(output, string_bytes(&node.name));
            output.push(58u8);
            Ok(())
        },
        Inline::Code(node) => {
            serialize_code_inline(output, node, context);
            Ok(())
        },
        Inline::Emphasis(_) | Inline::Strong(_) | Inline::Underline(_) | Inline::Delete(_) | Inline::Insert(_)
        | Inline::Mark(_) | Inline::Subscript(_) | Inline::Superscript(_) | Inline::Spoiler(_) => serialize_delimited_inline(output, inline, prev, next, options, context),
        Inline::Link(_) | Inline::Image(_) | Inline::LinkReference(_) | Inline::ImageReference(_) => serialize_link_inline(output, inline, prev, next, options, context),
        _ => serialize_other_inline(output, inline, prev, next, options, context),
    }
}

/// Appends an emphasis-like node: its children between its delimiters.
fn serialize_delimited_inline(
    output: &mut Vec<u8>,
    inline: &Inline,
    prev: Option<&Inline>,
    next: Option<&Inline>,
    options: &SerializeOptions,
    context: InlineSerializeContext,
) -> (r: Result<(), SerializeError>)
    requires
        inline is Emphasis || inline is Strong || inline is Underline || inline is Delete || inline is Insert || inline is Mark || inline is Subscript || inline is Superscript || inline is Spoiler,
    ensures
        r is Ok <==> spec_inline_serializable(*inline, context.table_cell),
        r matches Err(e) ==> e is UnsupportedNode,
        r is Ok ==> final(output)@ == spec_inline_written(old(output)@, *inline, spec_opt_node(prev), spec_opt_node(next), context),
    decreases *inline, 0nat,
{
    match inline {
        Inline::Emphasis(node) => {
            if node.children.len() == 0 {
                let d = empty_emphasis_delimiter(prev, next);
                push_bytes(output, d.as_slice());
                return Ok(());
            }
            let children = serialize_inlines_with_context(node.children.as_slice(), options, context)?;
            let touches = touches_underscore(children.as_slice());
            let on = output.len();
            let abuts_star = on > 0 && output[on - 1] == 42u8 && !touches;
            let cn = children.len();
            let star_edge = cn > 0 && (children[0] == 42u8 || children[cn - 1] == 42u8);
            let prefer_underscore = (context.avoid_star_edges && !touches) || abuts_star || star_edge;
            if prefer_underscore {
                output.push(95u8);
                push_bytes(output, children.as_slice());
                output.push(95u8);
            } else {
                let again = serialize_inlines_with_context(
                    node.children.as_slice(),
                    options,
                    context.avoiding_star_edges(),
                )?;
                output.push(42u8);
                push_bytes(output, again.as_slice());
                output.push(42u8);
            }
            Ok(())
        },
        Inline::Strong(node) => push_wrapped(
            output,
            &[42u8, 42u8],
            node.children.as_slice(),
            options,
            context.avoiding_star_edges(),
        ),
        Inline::Underline(node) => push_wrapped(output, &[95u8, 95u8], node.children.as_slice(), options, context),
        Inline::Delete(node) => match node.marker {
            DeleteMarker::SingleTilde => push_wrapped(output, &[126u8], node.children.as_slice(), options, context),
            DeleteMarker::DoubleTilde => push_wrapped(output, &[126u8, 126u8], node.children.as_slice(), options, context),
        },
        Inline::Insert(node) => push_wrapped(output, &[43u8, 43u8], node.children.as_slice(), options, context),
        Inline::Mark(node) => push_wrapped(output, &[61u8, 61u8], node.children.as_slice(), options, context),
        Inline::Subscript(node) => push_wrapped(output, &[126u8], node.children.as_slice(), options, context),
        Inline::Superscript(node) => push_wrapped(output, &[94u8], node.children.as_slice(), options, context),
        Inline::Spoiler(node) => push_wrapped(output, &[124u8, 124u8], node.children.as_slice(), options, context),
        _ => Ok(()),
    }
}

/// Appends a link, image or reference.
fn serialize_link_inline(
    output: &mut Vec<u8>,
    inline: &Inline,
    prev: Option<&Inline>,
    next: Option<&Inline>,
    options: &SerializeOptions,
    context: InlineSerializeContext,
) -> (r: Result<(), SerializeError>)
    requires
        inline is Link || inline is Image || inline is LinkReference || inline is ImageReference,
    ensures
        r is Ok <==> spec_inline_serializable(*inline, context.table_cell),
        r matches Err(e) ==> e is UnsupportedNode,
        r is Ok ==> final(output)@ == spec_inline_written(old(output)@, *inline, spec_opt_node(prev), spec_opt_node(next), context),
    decreases *inline, 0nat,
{
    match inline {
        Inline::Link(node) => {
            let children = serialize_inlines_with_context(node.children.as_slice(), options, context)?;
            escape_trailing_bang(output);
            output.push(91u8);
            push_bytes(output, children.as_slice());
            push_resource(output, &node.destination, node.destination_kind, &node.title, node.title_kind, context);
            Ok(())
        },
        Inline::Image(node) => {
            let alt = serialize_inlines_with_context(node.alt.as_slice(), options, context)?;
            output.push(33u8);
            output.push(91u8);
            push_bytes(output, alt.as_slice());
            push_resource(output, &node.destination, node.destination_kind, &node.title, node.title_kind, context);
            Ok(())
        },
        Inline::LinkReference(node) => {
            let children = serialize_inlines_with_context(node.children.as_slice(), options, context)?;
            let identifier = normalize_label(children.as_slice());
            let matches = bytes_equal(string_bytes(&identifier), string_bytes(&node.identifier));
            escape_trailing_bang(output);
            let label = reference_explicit_label(node.meta.span.is_some(), string_bytes(&node.label), context);
            push_reference_body(output, node.kind, children.as_slice(), matches, label.as_slice());
            Ok(())
        },
        Inline::ImageReference(node) => {
            let alt = serialize_inlines_with_context(node.alt.as_slice(), options, context)?;
            let identifier = normalize_label(alt.as_slice());
            let matches = bytes_equal(string_bytes(&identifier), string_bytes(&node.identifier));
            output.push(33u8);
            let label = reference_explicit_label(node.meta.span.is_some(), string_bytes(&node.label), context);
            push_reference_body(output, node.kind, alt.as_slice(), matches, label.as_slice());
            Ok(())
        },
        _ => Ok(()),
    }
}

/// Appends an autolink, raw node, break, math, footnote, wikilink or text directive.
fn serialize_other_inline(
    output: &mut Vec<u8>,
    inline: &Inline,
    prev: Option<&Inline>,
    next: Option<&Inline>,
    options: &SerializeOptions,
    context: InlineSerializeContext,
) -> (r: Result<(), SerializeError>)
    requires
        inline is Autolink || inline is Html || inline is SoftBreak || inline is LineBreak || inline is Math || inline is FootnoteReference || inline is InlineFootnote || inline is WikiLink || inline is MdxExpression || inline is MdxJsx || inline is TextDirective,
    ensures
        r is Ok <==> spec_inline_serializable(*inline, context.table_cell),
        r matches Err(e) ==> e is UnsupportedNode,
        r is Ok ==> final(output)@ == spec_inline_written(old(output)@, *inline, spec_opt_node(prev), spec_opt_node(next), context),
    decreases *inline, 0nat,
{
    match inline {
        Inline::Autolink(node) => {
            match &node.kind {
                AutolinkKind::Angle => {
                    output.push(60u8);
                    push_bytes(output, string_bytes(&node.destination));
                    output.push(62u8);
                },
                AutolinkKind::GfmLiteral { original } => {
                    let o = string_bytes(original);
                    let is_bare_email = is_mailto_of(string_bytes(&node.destination), o);
                    let follows_email_plus = o.len() > 0 && o[0] == 43u8 && match prev {
                        Some(p) => is_gfm_literal_email(p),
                        None => false,
                    };
                    if is_bare_email && !follows_email_plus {
                        escape_trailing_email_local(output);
                    } else {
                        escape_trailing_less_than(output);
                    }
                    push_bytes(output, o);
                },
            }
            Ok(())
        },
        Inline::Html(node) => {
            push_bytes(output, string_bytes(&node.value));
            Ok(())
        },
        Inline::SoftBreak(_) => {
            output.push(10u8);
            Ok(())
        },
        Inline::LineBreak(node) => {
            match node.kind {
                LineBreakKind::Backslash => {
                    output.push(92u8);
                    output.push(10u8);
                },
                LineBreakKind::Spaces => {
                    output.push(32u8);
                    output.push(32u8);
                    output.push(10u8);
                },
            }
            Ok(())
        },
        Inline::Math(node) => {
            let m = serialize_inline_math_with_context(node, context)?;
            push_bytes(output, m.as_slice());
            Ok(())
        },
        Inline::FootnoteReference(node) => {
            escape_trailing_bang(output);
            output.push(91u8);
            output.push(94u8);
            let label = string_bytes(&node.label);
            let escaped = if node.meta.span.is_some() {
                escape_footnote_label_source(label)
            } else {
                escape_footnote_label_semantic(label)
            };
            push_bytes(output, escaped.as_slice());
            output.push(93u8);
            Ok(())
        },
        Inline::InlineFootnote(node) => {
            let children = serialize_inlines_with_context(node.children.as_slice(), options, context)?;
            output.push(94u8);
            output.push(91u8);
            push_bytes(output, children.as_slice());
            output.push(93u8);
            Ok(())
        },
        Inline::WikiLink(node) => {
            output.push(91u8);
            output.push(91u8);
            let t = string_bytes(&node.target);
            let l = string_bytes(&node.label);
            let target = escape_wikilink_part(t);
            let label = escape_wikilink_part(l);
            if bytes_equal(t, l) {
                push_bytes(output, target.as_slice());
            } else {
                match node.label_order {
                    WikiLinkLabelOrder::AfterPipe => {
                        push_bytes(output, target.as_slice());
                        output.push(124u8);
                        push_bytes(output, label.as_slice());
                    },
                    WikiLinkLabelOrder::BeforePipe => {
                        push_bytes(output, label.as_slice());
                        output.push(124u8);
                        push_bytes(output, target.as_slice());
                    },
                }
            }
            output.push(93u8);
            output.push(93u8);
            Ok(())
        },
        Inline::MdxExpression(node) => {
            output.push(123u8);
            push_bytes(output, string_bytes(&node.value));
            output.push(125u8);
            Ok(())
        },
        Inline::MdxJsx(node) => {
            push_bytes(output, string_bytes(&node.value));
            Ok(())
        },
        Inline::TextDirective(node) => {
            let label = serialize_directive_label_with_context(&node.label, options, context)?;
            output.push(58u8);
            push_bytes(output, string_bytes(&node.name));
            push_bytes(output, label.as_slice());
            let attributes = serialize_attributes_with_context(&node.attributes, context);
            push_bytes(output, attributes.as_slice());
            Ok(())
        },
        _ => Ok(()),
    }
}


// ---------------------------------------------------------------------------
// Blocks.
// ---------------------------------------------------------------------------

/// `b` with a backslash inserted before index `k`.
pub open spec fn spec_insert_backslash(b: Seq<u8>, k: int) -> Seq<u8> {
    b.subrange(0, k) + seq![92u8] + b.subrange(k, b.len() as int)
}

fn insert_backslash(b: Vec<u8>, k: usize) -> (r: Vec<u8>)
    requires
        k <= b@.len(),
    ensures
        r@ == spec_insert_backslash(b@, k as int),
{
    let n = b.len();
    let mut out = copy_range(b.as_slice(), 0, k);
    out.push(92u8);
    push_range(&mut out, b.as_slice(), k, n);
    out
}

/// Where a paragraph whose first line would start an HTML block gets a
/// backslash: after the line's leading spaces.
fn paragraph_html_block_escape_offset(input: &[u8]) -> (r: Option<usize>)
    ensures
        r matches Some(k) ==> k <= input@.len(),
        r matches Some(k) ==> k as int == crate::parse::spec_byte_run_end(input@, 0, spec_next_nl(input@, 0), 32u8),
        r == (if crate::block_start::spec_line_starts_html_block(input@, 0, spec_next_nl(input@, 0)) {
            Some(crate::parse::spec_byte_run_end(input@, 0, spec_next_nl(input@, 0), 32u8) as usize)
        } else {
            None
        }),
{
    let first_end = next_nl(input, 0);
    if !line_starts_html_block(input, 0, first_end) {
        return None;
    }
    let mut k: usize = 0;
    while k < first_end && input[k] == 32u8
        invariant
            k <= first_end <= input@.len(),
            crate::parse::spec_byte_run_end(input@, k as int, first_end as int, 32u8) == crate::parse::spec_byte_run_end(
                input@,
                0,
                first_end as int,
                32u8,
            ),
        decreases first_end - k,
    {
        k = k + 1;
    }
    Some(k)
}

/// Where a paragraph whose first two lines would read as a table header and
/// delimiter row gets a backslash: before the first `-` of the second line.
fn paragraph_table_escape_offset(input: &[u8]) -> (r: Option<usize>)
    ensures
        r matches Some(k) ==> k <= input@.len(),
        ({
            let first_end = spec_next_nl(input@, 0);
            let second_start = first_end + 1;
            let second_end = spec_next_nl(input@, second_start);
            let opens = first_end < input@.len() && crate::block_start::spec_table_can_start(
                input@,
                0,
                first_end,
                input@,
                second_start,
                second_end,
                true,
                false,
            );
            &&& r is Some <==> opens && exists|k: int| second_start <= k < second_end && input@[k] == 45u8
            &&& r matches Some(k) ==> second_start <= k < second_end && input@[k as int] == 45u8 && forall|j: int|
                second_start <= j < k ==> input@[j] != 45u8
        }),
{
    let n = input.len();
    let first_end = next_nl(input, 0);
    if first_end >= n {
        return None;
    }
    let second_start = first_end + 1;
    let second_end = next_nl(input, second_start);
    if !gfm_table_can_start_source(input, 0, first_end, input, second_start, second_end) {
        return None;
    }
    let mut k = second_start;
    while k < second_end
        invariant
            second_start <= k <= second_end <= input@.len(),
            forall|j: int| second_start <= j < k ==> input@[j] != 45u8,
            first_end == spec_next_nl(input@, 0),
            first_end < input@.len(),
            second_start == first_end + 1,
            second_end == spec_next_nl(input@, second_start as int),
            crate::block_start::spec_table_can_start(
                input@,
                0,
                first_end as int,
                input@,
                second_start as int,
                second_end as int,
                true,
                false,
            ),
        decreases second_end - k,
    {
        assert(input@[k as int] == 45u8 ==> exists|j: int| second_start <= j < second_end && input@[j] == 45u8);
        if input[k] == 45u8 {
            return Some(k);
        }
        k = k + 1;
    }
    None
}

// ---------------------------------------------------------------------------
// Block serialization.
// ---------------------------------------------------------------------------

/// The context outside tables and `*` delimiters.
pub open spec fn spec_plain() -> InlineSerializeContext {
    InlineSerializeContext { table_cell: false, avoid_star_edges: false }
}

/// Inlines as written outside tables, or nothing when one cannot be written.
pub open spec fn spec_inlines_out(s: Seq<Inline>) -> Option<Seq<u8>> {
    if spec_inlines_serializable(s, false) {
        Some(spec_inlines_written(s, spec_plain()))
    } else {
        None
    }
}

/// Where a paragraph's first line, which would open an HTML block, gets a
/// backslash: after its leading spaces.
pub open spec fn spec_html_block_offset(b: Seq<u8>) -> Option<int> {
    if crate::block_start::spec_line_starts_html_block(b, 0, spec_next_nl(b, 0)) {
        Some(crate::parse::spec_byte_run_end(b, 0, spec_next_nl(b, 0), 32u8))
    } else {
        None
    }
}

/// Whether `k` is the first `-` of `b[lo..hi]`.
pub open spec fn spec_is_first_dash(b: Seq<u8>, lo: int, hi: int, k: int) -> bool {
    lo <= k < hi && b[k] == 45u8 && forall|j: int| lo <= j < k ==> b[j] != 45u8
}

/// Where a paragraph whose first two lines would read as a table header and
/// delimiter row gets a backslash: before the first `-` of the second line.
pub open spec fn spec_table_offset(b: Seq<u8>) -> Option<int> {
    let first_end = spec_next_nl(b, 0);
    let second_start = first_end + 1;
    let second_end = spec_next_nl(b, second_start);
    let opens = first_end < b.len() && crate::block_start::spec_table_can_start(
        b,
        0,
        first_end,
        b,
        second_start,
        second_end,
        true,
        false,
    );
    if opens && exists|k: int| #[trigger] spec_is_first_dash(b, second_start, second_end, k) {
        Some(choose|k: int| #[trigger] spec_is_first_dash(b, second_start, second_end, k))
    } else {
        None
    }
}

/// `b` with a backslash at `offset`, if any.
pub open spec fn spec_escape_at(b: Seq<u8>, offset: Option<int>) -> Seq<u8> {
    match offset {
        Some(k) => spec_insert_backslash(b, k),
        None => b,
    }
}

/// A paragraph: its inlines, escaped where its first lines would start an
/// HTML block or a table.
pub open spec fn spec_paragraph_out(children: Seq<Inline>) -> Option<Seq<u8>> {
    match spec_inlines_out(children) {
        Some(b) => {
            let b1 = spec_escape_at(b, spec_html_block_offset(b));
            Some(spec_escape_at(b1, spec_table_offset(b1)))
        },
        None => None,
    }
}

/// A heading: setext for depth 1 or 2 when it was setext (its underline at
/// least three bytes and as long as the content), else ATX with the depth's
/// number of `#`.
pub open spec fn spec_heading_out(n: Heading) -> Option<Seq<u8>> {
    match spec_inlines_out(n.children@) {
        Some(content) => if n.kind == HeadingKind::Setext && (n.depth == 1 || n.depth == 2) {
            let marker: u8 = if n.depth == 1 {
                61u8
            } else {
                45u8
            };
            Some(content + seq![10u8] + spec_repeat(marker, if content.len() > 3 {
                content.len()
            } else {
                3
            }))
        } else if content.len() == 0 {
            Some(spec_repeat(35u8, n.depth as nat))
        } else {
            Some(spec_repeat(35u8, n.depth as nat) + seq![32u8] + spec_escape_atx_heading_content(content))
        },
        None => None,
    }
}

/// A directive label: `[label]`, or nothing when it is empty.
pub open spec fn spec_directive_label_out(label: Seq<Inline>) -> Option<Seq<u8>> {
    match spec_inlines_out(label) {
        Some(b) => Some(if label.len() == 0 {
            Seq::<u8>::empty()
        } else {
            seq![91u8] + b + seq![93u8]
        }),
        None => None,
    }
}

/// A link reference definition: `[label]: destination "title"`.
pub open spec fn spec_definition_out(n: Definition) -> Seq<u8> {
    let l = encode_utf8(n.label@);
    let escaped = if n.meta.span is Some {
        spec_escape(EscapeRule::DefinitionLabelSource, l)
    } else {
        spec_escape(EscapeRule::LabelSyntax { pipe: false, whitespace: false }, l)
    };
    let label = if n.meta.span is None && escaped.len() > 0 && escaped[0] == 94u8 {
        spec_insert_backslash(escaped, 0)
    } else {
        escaped
    };
    seq![91u8] + label + seq![93u8, 58u8, 32u8] + spec_destination(encode_utf8(n.destination@), n.destination_kind, false)
        + (match (n.title, n.title_kind) {
        (Some(t), Some(k)) => seq![32u8] + spec_title(encode_utf8(t@), k, false),
        _ => Seq::<u8>::empty(),
    })
}

/// The cells of a table row written, `|`-separated, from the first `i`.
pub open spec fn spec_row_cells_out(cells: Seq<TableCell>, i: int) -> Option<Seq<u8>>
    decreases i,
{
    if i <= 0 || i > cells.len() {
        Some(Seq::empty())
    } else {
        match spec_row_cells_out(cells, i - 1) {
            Some(acc) => {
                let c = cells[i - 1].children@;
                let tc = InlineSerializeContext { table_cell: true, avoid_star_edges: false };
                if !spec_inlines_serializable(c, true) || spec_cell_pipe_scan(spec_inlines_written(c, tc), 0, None, false) {
                    None
                } else {
                    Some(acc + (if i > 1 {
                        seq![32u8, 124u8, 32u8]
                    } else {
                        Seq::<u8>::empty()
                    }) + spec_inlines_written(c, tc))
                }
            },
            None => None,
        }
    }
}

/// A table row: `| a | b |`, or nothing when a cell cannot be written or
/// holds a pipe that no escape can keep in its cell.
pub open spec fn spec_row_out(row: TableRow) -> Option<Seq<u8>> {
    match spec_row_cells_out(row.cells@, row.cells@.len() as int) {
        Some(c) => Some(seq![124u8, 32u8] + c + seq![32u8, 124u8]),
        None => None,
    }
}

/// The delimiter cells of a table, from the first `k` alignments.
pub open spec fn spec_alignments_out(a: Seq<TableAlignment>, k: int) -> Seq<u8>
    decreases k,
{
    if k <= 0 || k > a.len() {
        Seq::empty()
    } else {
        spec_alignments_out(a, k - 1) + (if k > 1 {
            seq![32u8, 124u8, 32u8]
        } else {
            Seq::<u8>::empty()
        }) + spec_alignment_cell(a[k - 1])
    }
}

/// The body rows of a table (all but the header), from the first `r` rows.
pub open spec fn spec_body_rows_out(rows: Seq<TableRow>, r: int) -> Option<Seq<u8>>
    decreases r,
{
    if r <= 1 || r > rows.len() {
        Some(Seq::empty())
    } else {
        match (spec_body_rows_out(rows, r - 1), spec_row_out(rows[r - 1])) {
            (Some(acc), Some(row)) => Some(acc + seq![10u8] + row),
            _ => None,
        }
    }
}

/// A table: header row, delimiter row, body rows; nothing for an empty table.
pub open spec fn spec_table_out(t: Table) -> Option<Seq<u8>> {
    if t.rows@.len() == 0 {
        None
    } else {
        match (spec_row_out(t.rows@[0]), spec_body_rows_out(t.rows@, t.rows@.len() as int)) {
            (Some(header), Some(body)) => Some(header + seq![10u8, 124u8, 32u8] + spec_alignments_out(
                t.alignments@,
                t.alignments@.len() as int,
            ) + seq![32u8, 124u8] + body),
            _ => None,
        }
    }
}

/// Whether a block is an indented code block.
pub open spec fn spec_is_indented_code(b: Block) -> bool {
    b matches Block::CodeBlock(c) && c.kind == CodeBlockKind::Indented
}

/// A block as Markdown source, or nothing when some node in it cannot be
/// written. `at_document_start` marks the document's first block.
pub open spec fn spec_block_out(block: Block, options: SerializeOptions, at_document_start: bool) -> Option<Seq<u8>>
    decreases block, 0int,
{
    match block {
        Block::Paragraph(n) => spec_paragraph_out(n.children@),
        Block::Heading(n) => spec_heading_out(n),
        Block::ThematicBreak(n) => Some(spec_thematic_break_bytes(n.marker, at_document_start)),
        Block::BlockQuote(n) => match spec_blocks_out(n.children@, options, false) {
            Some(inner) => Some(if inner.len() == 0 {
                seq![62u8]
            } else {
                spec_prefix_from(inner, 0, seq![62u8, 32u8])
            }),
            None => None,
        },
        Block::Alert(n) => match spec_blocks_out(n.children@, options, false) {
            Some(inner) => Some(seq![62u8, 32u8, 91u8, 33u8] + spec_alert_kind_name(n.kind) + seq![93u8] + (match n.title {
                Some(t) => if encode_utf8(t@).len() > 0 {
                    seq![32u8] + spec_escape(EscapeRule::AlertTitle, encode_utf8(t@))
                } else {
                    Seq::<u8>::empty()
                },
                None => Seq::<u8>::empty(),
            }) + (if inner.len() > 0 {
                seq![10u8] + spec_prefix_from(inner, 0, seq![62u8, 32u8])
            } else {
                Seq::<u8>::empty()
            })),
            None => None,
        },
        Block::List(n) => spec_list_out(n, options, Seq::empty(), seq![32u8]),
        Block::DescriptionList(n) => spec_description_items_out(n.children@, n.children@.len() as int, n.tight, options),
        Block::CodeBlock(n) => Some(spec_code_block(
            n.kind,
            match n.info {
                Some(i) => Some(encode_utf8(i@)),
                None => None,
            },
            encode_utf8(n.value@),
            options,
        )),
        Block::HtmlBlock(n) => Some(spec_trim_trailing_newline(encode_utf8(n.value@))),
        Block::Definition(n) => Some(spec_definition_out(n)),
        Block::FootnoteDefinition(n) => match spec_blocks_out(n.children@, options, false) {
            Some(inner) => Some(seq![91u8, 94u8] + (if n.meta.span is Some {
                spec_escape(EscapeRule::FootnoteLabelSource, encode_utf8(n.label@))
            } else {
                spec_escape(EscapeRule::LabelSyntax { pipe: false, whitespace: true }, encode_utf8(n.label@))
            }) + seq![93u8, 58u8, 32u8] + spec_reindent_from(inner, 0, spec_spaces(4), true, true, false)),
            None => None,
        },
        Block::Table(n) => spec_table_out(n),
        Block::MathBlock(n) => Some(spec_fenced(spec_block_math_fence(encode_utf8(n.value@)), encode_utf8(n.value@))),
        Block::Frontmatter(n) => Some(spec_fenced(
            match n.kind {
                FrontmatterKind::Yaml => seq![45u8, 45u8, 45u8],
                FrontmatterKind::Toml => seq![43u8, 43u8, 43u8],
            },
            encode_utf8(n.value@),
        )),
        Block::MdxEsm(n) => Some(encode_utf8(n.value@)),
        Block::MdxExpression(n) => Some(seq![123u8] + encode_utf8(n.value@) + seq![125u8]),
        Block::MdxJsx(n) => Some(encode_utf8(n.value@)),
        Block::LeafDirective(n) => match spec_directive_label_out(n.label@) {
            Some(label) => Some(seq![58u8, 58u8] + encode_utf8(n.name@) + label + spec_attributes(n.attributes@, false)),
            None => None,
        },
        Block::ContainerDirective(n) => match (spec_blocks_out(n.children@, options, false), spec_directive_label_out(n.label@)) {
            (Some(inner), Some(label)) => {
                let fence = spec_repeat(58u8, spec_directive_fence_from(inner, 0, 3));
                Some(fence + encode_utf8(n.name@) + label + spec_attributes(n.attributes@, false) + seq![10u8] + inner
                    + seq![10u8] + fence)
            },
            _ => None,
        },
    }
}

/// The first `i` blocks of a sequence, separated by blank lines; a list
/// followed by indented code indents its markers.
pub open spec fn spec_blocks_prefix_out(s: Seq<Block>, i: int, options: SerializeOptions, document_start: bool) -> Option<Seq<u8>>
    decreases s, i,
{
    if i <= 0 || i > s.len() {
        Some(Seq::empty())
    } else {
        let piece = match s[i - 1] {
            Block::List(l) => if i < s.len() && spec_is_indented_code(s[i]) {
                spec_list_out(l, options, seq![32u8], seq![32u8, 32u8, 32u8, 32u8])
            } else {
                spec_block_out(s[i - 1], options, document_start && i == 1)
            },
            _ => spec_block_out(s[i - 1], options, document_start && i == 1),
        };
        match (spec_blocks_prefix_out(s, i - 1, options, document_start), piece) {
            (Some(acc), Some(p)) => Some(acc + (if i > 1 {
                seq![10u8, 10u8]
            } else {
                Seq::<u8>::empty()
            }) + p),
            _ => None,
        }
    }
}

/// A block sequence, separated by blank lines.
pub open spec fn spec_blocks_out(s: Seq<Block>, options: SerializeOptions, document_start: bool) -> Option<Seq<u8>>
    decreases s, s.len() + 1,
{
    spec_blocks_prefix_out(s, s.len() as int, options, document_start)
}

/// The first `i` blocks of a list item, separated by a line break (and a
/// blank line when the list is loose).
pub open spec fn spec_item_blocks_out(s: Seq<Block>, i: int, options: SerializeOptions, tight: bool) -> Option<Seq<u8>>
    decreases s, i,
{
    if i <= 0 || i > s.len() {
        Some(Seq::empty())
    } else {
        match (spec_item_blocks_out(s, i - 1, options, tight), spec_block_out(s[i - 1], options, false)) {
            (Some(acc), Some(b)) => Some(acc + (if i > 1 {
                if tight {
                    seq![10u8]
                } else {
                    seq![10u8, 10u8]
                }
            } else {
                Seq::<u8>::empty()
            }) + b),
            _ => None,
        }
    }
}

/// An item's content with its task box, `[x] ` or `[ ] `, in place of a
/// leading `- `.
pub open spec fn spec_task_box(inner: Seq<u8>, checked: Option<bool>) -> Seq<u8> {
    match checked {
        Some(c) => {
            let rest = if inner.len() >= 2 && inner[0] == 45u8 && inner[1] == 32u8 {
                inner.subrange(2, inner.len() as int)
            } else {
                inner
            };
            (if c {
                seq![91u8, 120u8, 93u8, 32u8]
            } else {
                seq![91u8, 32u8, 93u8, 32u8]
            }) + rest
        },
        None => inner,
    }
}

/// The content of a list item: its blocks (a leading `*` escaped when the
/// bullet is `*`), with its task box.
pub open spec fn spec_item_content(l: List, index: int, options: SerializeOptions) -> Option<Seq<u8>>
    decreases l, index + 1,
{
    if 0 <= index < l.children@.len() {
        let item = l.children@[index];
        let delimiter = spec_list_delimiter(l.ordered, l.delimiter, options);
        match spec_item_blocks_out(item.children@, item.children@.len() as int, options, l.tight) {
            Some(blocks) => Some(spec_task_box(
                if !l.ordered && spec_unordered_marker(delimiter) == 42u8 {
                    spec_disambiguate_asterisk_item(blocks)
                } else {
                    blocks
                },
                item.checked,
            )),
            None => None,
        }
    } else {
        Some(Seq::empty())
    }
}

/// One list item written with its marker: the content indented under the
/// marker (a loose list's lone paragraph item starts on the line after it).
pub open spec fn spec_item_out(l: List, index: int, options: SerializeOptions, prefix: Seq<u8>, padding: Seq<u8>) -> Option<Seq<u8>>
    decreases l, index + 2,
{
    if 0 <= index < l.children@.len() {
        let item = l.children@[index];
        let delimiter = spec_list_delimiter(l.ordered, l.delimiter, options);
        let marker = spec_item_marker(l.ordered, l.start, index as nat, delimiter, prefix, padding);
        match spec_item_content(l, index, options) {
            Some(inner) => {
                let lone_paragraph = item.children@.len() == 1 && item.children@[0] is Paragraph;
                Some(if !l.tight && l.children@.len() == 1 && lone_paragraph && inner.len() > 0 {
                    marker.subrange(0, spec_trim_blanks_back(marker, 0, marker.len() as int)) + seq![10u8, 10u8]
                        + spec_prefix_from(inner, 0, spec_spaces(marker.len()))
                } else {
                    marker + spec_reindent_from(inner, 0, spec_spaces(marker.len()), true, true, false)
                })
            },
            None => None,
        }
    } else {
        Some(Seq::empty())
    }
}

/// The first `i` items of a list, separated by a line break (and a blank line
/// when the list is loose).
pub open spec fn spec_list_prefix_out(l: List, i: int, options: SerializeOptions, prefix: Seq<u8>, padding: Seq<u8>) -> Option<Seq<u8>>
    decreases l, i + 2,
{
    if i <= 0 || i > l.children@.len() {
        Some(Seq::empty())
    } else {
        match (spec_list_prefix_out(l, i - 1, options, prefix, padding), spec_item_out(l, i - 1, options, prefix, padding)) {
            (Some(acc), Some(item)) => Some(acc + (if i > 1 {
                if l.tight {
                    seq![10u8]
                } else {
                    seq![10u8, 10u8]
                }
            } else {
                Seq::<u8>::empty()
            }) + item),
            _ => None,
        }
    }
}

/// A list, its markers written with `prefix` before and `padding` after.
pub open spec fn spec_list_out(l: List, options: SerializeOptions, prefix: Seq<u8>, padding: Seq<u8>) -> Option<Seq<u8>>
    decreases l, l.children@.len() + 3,
{
    spec_list_prefix_out(l, l.children@.len() as int, options, prefix, padding)
}

/// One details group (`first` for an item's first): a tight group of one
/// paragraph as `: text`, else `:` and the blocks indented by four.
pub open spec fn spec_detail_out(d: DescriptionDetails, first: bool, tight: bool, options: SerializeOptions) -> Option<Seq<u8>>
    decreases d, 0int,
{
    if tight && d.children@.len() == 1 && d.children@[0] is Paragraph {
        match spec_inlines_out(d.children@[0]->Paragraph_0.children@) {
            Some(t) => Some(seq![10u8, 58u8, 32u8] + t),
            None => None,
        }
    } else {
        match spec_blocks_out(d.children@, options, false) {
            Some(inner) => Some((if !tight && first {
                seq![10u8]
            } else {
                Seq::<u8>::empty()
            }) + seq![10u8, 58u8] + (if inner.len() > 0 {
                seq![10u8] + spec_reindent_from(inner, 0, spec_spaces(4), true, false, true)
            } else {
                Seq::<u8>::empty()
            })),
            None => None,
        }
    }
}

/// The first `j` details groups of a description item: a tight group of one
/// paragraph as `: text`, else `:` and the blocks indented by four.
pub open spec fn spec_details_out(details: Seq<DescriptionDetails>, j: int, tight: bool, options: SerializeOptions) -> Option<Seq<u8>>
    decreases details, j,
{
    if j <= 0 || j > details.len() {
        Some(Seq::empty())
    } else {
        let piece = spec_detail_out(details[j - 1], j == 1, tight, options);
        match (spec_details_out(details, j - 1, tight, options), piece) {
            (Some(acc), Some(p)) => Some(acc + p),
            _ => None,
        }
    }
}

/// The first `i` items of a description list: each term, then its details.
pub open spec fn spec_description_items_out(items: Seq<DescriptionItem>, i: int, tight: bool, options: SerializeOptions) -> Option<Seq<u8>>
    decreases items, i,
{
    if i <= 0 || i > items.len() {
        Some(Seq::empty())
    } else {
        let item = items[i - 1];
        match (
            spec_description_items_out(items, i - 1, tight, options),
            spec_inlines_out(item.term@),
            spec_details_out(item.details@, item.details@.len() as int, tight, options),
        ) {
            (Some(acc), Some(term), Some(details)) => Some(acc + (if i > 1 {
                if tight {
                    seq![10u8]
                } else {
                    seq![10u8, 10u8]
                }
            } else {
                Seq::<u8>::empty()
            }) + term + details),
            _ => None,
        }
    }
}

/// One step of an item's blocks.
proof fn lemma_item_blocks_step(s: Seq<Block>, i: int, options: SerializeOptions, tight: bool)
    requires
        0 <= i < s.len(),
    ensures
        spec_item_blocks_out(s, i + 1, options, tight) == (match (spec_item_blocks_out(s, i, options, tight), spec_block_out(s[i], options, false)) {
            (Some(acc), Some(b)) => Some(acc + (if i > 0 {
                if tight {
                    seq![10u8]
                } else {
                    seq![10u8, 10u8]
                }
            } else {
                Seq::<u8>::empty()
            }) + b),
            _ => None,
        }),
{
}

/// A block sequence that fails at some block fails as a whole.
proof fn lemma_blocks_prefix_none(s: Seq<Block>, i: int, j: int, options: SerializeOptions, ds: bool)
    requires
        0 <= i <= j <= s.len(),
        spec_blocks_prefix_out(s, i, options, ds) is None,
    ensures
        spec_blocks_prefix_out(s, j, options, ds) is None,
    decreases j - i,
{
    if j > i {
        lemma_blocks_prefix_none(s, i, j - 1, options, ds);
    }
}

/// An item whose blocks fail at some block fails as a whole.
proof fn lemma_item_blocks_none(s: Seq<Block>, i: int, j: int, options: SerializeOptions, tight: bool)
    requires
        0 <= i <= j <= s.len(),
        spec_item_blocks_out(s, i, options, tight) is None,
    ensures
        spec_item_blocks_out(s, j, options, tight) is None,
    decreases j - i,
{
    if j > i {
        lemma_item_blocks_none(s, i, j - 1, options, tight);
    }
}

/// A list that fails at some item fails as a whole.
proof fn lemma_list_prefix_none(l: List, i: int, j: int, options: SerializeOptions, prefix: Seq<u8>, padding: Seq<u8>)
    requires
        0 <= i <= j <= l.children@.len(),
        spec_list_prefix_out(l, i, options, prefix, padding) is None,
    ensures
        spec_list_prefix_out(l, j, options, prefix, padding) is None,
    decreases j - i,
{
    if j > i {
        lemma_list_prefix_none(l, i, j - 1, options, prefix, padding);
    }
}

/// Details that fail at some group fail as a whole.
proof fn lemma_details_none(d: Seq<DescriptionDetails>, i: int, j: int, tight: bool, options: SerializeOptions)
    requires
        0 <= i <= j <= d.len(),
        spec_details_out(d, i, tight, options) is None,
    ensures
        spec_details_out(d, j, tight, options) is None,
    decreases j - i,
{
    if j > i {
        lemma_details_none(d, i, j - 1, tight, options);
    }
}

/// A description list that fails at some item fails as a whole.
proof fn lemma_description_items_none(d: Seq<DescriptionItem>, i: int, j: int, tight: bool, options: SerializeOptions)
    requires
        0 <= i <= j <= d.len(),
        spec_description_items_out(d, i, tight, options) is None,
    ensures
        spec_description_items_out(d, j, tight, options) is None,
    decreases j - i,
{
    if j > i {
        lemma_description_items_none(d, i, j - 1, tight, options);
    }
}

/// A row that fails at some cell fails as a whole.
proof fn lemma_row_cells_none(c: Seq<TableCell>, i: int, j: int)
    requires
        0 <= i <= j <= c.len(),
        spec_row_cells_out(c, i) is None,
    ensures
        spec_row_cells_out(c, j) is None,
    decreases j - i,
{
    if j > i {
        lemma_row_cells_none(c, i, j - 1);
    }
}

/// A table whose body fails at some row fails as a whole.
proof fn lemma_body_rows_none(rows: Seq<TableRow>, i: int, j: int)
    requires
        1 <= i <= j <= rows.len(),
        spec_body_rows_out(rows, i) is None,
    ensures
        spec_body_rows_out(rows, j) is None,
    decreases j - i,
{
    if j > i {
        lemma_body_rows_none(rows, i, j - 1);
    }
}

/// The first `-` of a range is unique.
proof fn lemma_first_dash_unique(b: Seq<u8>, lo: int, hi: int, k: int)
    requires
        spec_is_first_dash(b, lo, hi, k),
    ensures
        (choose|m: int| #[trigger] spec_is_first_dash(b, lo, hi, m)) == k,
{
    let m = choose|m: int| #[trigger] spec_is_first_dash(b, lo, hi, m);
    assert(spec_is_first_dash(b, lo, hi, m));
    if m < k {
        assert(b[m] != 45u8);
    } else if m > k {
        assert(b[k] != 45u8);
    }
}

fn serialize_paragraph(children: &Vec<Inline>, options: &SerializeOptions) -> (r: Result<Vec<u8>, SerializeError>)
    ensures
        r is Ok <==> spec_inlines_serializable(children@, false),
        r matches Err(e) ==> e is UnsupportedNode,
        r matches Ok(o) ==> spec_paragraph_out(children@) == Some(o@),
{
    let mut output = serialize_inlines(children.as_slice(), options)?;
    let ghost b = output@;
    match paragraph_html_block_escape_offset(output.as_slice()) {
        Some(k) => {
            output = insert_backslash(output, k);
        },
        None => {},
    }
    let ghost b1 = output@;
    assert(b1 == spec_escape_at(b, spec_html_block_offset(b))) by {
        if spec_html_block_offset(b) is Some {
            assert(spec_html_block_offset(b) == Some(crate::parse::spec_byte_run_end(b, 0, spec_next_nl(b, 0), 32u8)));
        }
    }
    match paragraph_table_escape_offset(output.as_slice()) {
        Some(k) => {
            proof {
                let first_end = spec_next_nl(b1, 0);
                let second_start = first_end + 1;
                let second_end = spec_next_nl(b1, second_start);
                assert(spec_is_first_dash(b1, second_start, second_end, k as int));
                lemma_first_dash_unique(b1, second_start, second_end, k as int);
            }
            output = insert_backslash(output, k);
        },
        None => {},
    }
    assert(output@ == spec_escape_at(b1, spec_table_offset(b1)));
    Ok(output)
}

fn serialize_alert(node: &Alert, options: &SerializeOptions) -> (r: Result<Vec<u8>, SerializeError>)
    ensures
        r matches Err(e) ==> e is UnsupportedNode,
        r is Ok <==> spec_block_out(Block::Alert(*node), *options, false) is Some,
        r matches Ok(o) ==> spec_block_out(Block::Alert(*node), *options, false) == Some(o@),
    decreases *node, 0nat,
{
    let mut output: Vec<u8> = vec![62u8, 32u8, 91u8, 33u8];
    let name = alert_kind_name(node.kind);
    push_bytes(&mut output, name.as_slice());
    output.push(93u8);
    match &node.title {
        Some(title) => {
            let t = string_bytes(title);
            if t.len() > 0 {
                output.push(32u8);
                let escaped = escape_alert_title(t);
                push_bytes(&mut output, escaped.as_slice());
            }
        },
        None => {},
    }
    let inner = serialize_blocks_at_start(node.children.as_slice(), options, false)?;
    if inner.len() > 0 {
        output.push(10u8);
        let quoted = prefix_lines(inner.as_slice(), &[62u8, 32u8]);
        assert(seq![62u8, 32u8] =~= [62u8, 32u8]@);
        push_bytes(&mut output, quoted.as_slice());
    }
    Ok(output)
}

/// The delimiter that list items are written with: the node's own, unless the
/// options ask for another than the default.
pub open spec fn spec_list_delimiter(ordered: bool, own: ListDelimiter, options: SerializeOptions) -> ListDelimiter {
    if ordered {
        if options.ordered_delimiter == ListDelimiter::Period {
            own
        } else {
            options.ordered_delimiter
        }
    } else if options.bullet == ListDelimiter::Dash {
        own
    } else {
        options.bullet
    }
}

/// The number of an ordered item: `start + index`, saturating.
pub open spec fn spec_item_number(start: Option<u64>, index: nat) -> nat {
    let s = match start {
        Some(v) => v as nat,
        None => 1,
    };
    if s + index > u64::MAX {
        u64::MAX as nat
    } else {
        s + index
    }
}

/// The marker of the item at `index`: `prefix`, the bullet or the number and
/// its delimiter, then `padding`.
pub open spec fn spec_item_marker(
    ordered: bool,
    start: Option<u64>,
    index: nat,
    delimiter: ListDelimiter,
    prefix: Seq<u8>,
    padding: Seq<u8>,
) -> Seq<u8> {
    if ordered {
        prefix + spec_decimal(spec_item_number(start, index)) + seq![spec_ordered_marker(delimiter)] + padding
    } else {
        prefix + seq![spec_unordered_marker(delimiter)] + padding
    }
}

fn item_marker(
    ordered: bool,
    start: Option<u64>,
    index: usize,
    delimiter: ListDelimiter,
    prefix: &[u8],
    padding: &[u8],
) -> (r: Vec<u8>)
    ensures
        r@ == spec_item_marker(ordered, start, index as nat, delimiter, prefix@, padding@),
{
    let mut out: Vec<u8> = Vec::new();
    push_bytes(&mut out, prefix);
    if ordered {
        let s: u64 = match start {
            Some(v) => v,
            None => 1,
        };
        let i = index as u64;
        let number = if i <= u64::MAX - s {
            s + i
        } else {
            u64::MAX
        };
        push_decimal(&mut out, number);
        out.push(ordered_list_marker(delimiter));
    } else {
        out.push(unordered_list_marker(delimiter));
    }
    push_bytes(&mut out, padding);
    out
}

fn serialize_list(node: &List, options: &SerializeOptions) -> (r: Result<Vec<u8>, SerializeError>)
    ensures
        r matches Err(e) ==> e is UnsupportedNode,
        r is Ok <==> spec_list_out(*node, *options, Seq::empty(), seq![32u8]) is Some,
        r matches Ok(o) ==> spec_list_out(*node, *options, Seq::empty(), seq![32u8]) == Some(o@),
    decreases *node, 3nat,
{
    let empty: Vec<u8> = Vec::new();
    assert([32u8]@ =~= seq![32u8]);
    serialize_list_with_marker_spacing(node, options, empty.as_slice(), &[32u8])
}

fn serialize_list_with_marker_spacing(
    node: &List,
    options: &SerializeOptions,
    marker_prefix: &[u8],
    marker_padding: &[u8],
) -> (r: Result<Vec<u8>, SerializeError>)
    ensures
        r matches Err(e) ==> e is UnsupportedNode,
        r is Ok <==> spec_list_out(*node, *options, marker_prefix@, marker_padding@) is Some,
        r matches Ok(o) ==> spec_list_out(*node, *options, marker_prefix@, marker_padding@) == Some(o@),
    decreases *node, 2nat,
{
    let mut output: Vec<u8> = Vec::new();
    let n = node.children.len();
    let mut index: usize = 0;
    while index < n
        invariant
            n == node.children@.len(),
            index <= n,
            spec_list_prefix_out(*node, index as int, *options, marker_prefix@, marker_padding@) == Some(output@),
        decreases n - index,
    {
        let ghost acc = output@;
        if index > 0 {
            output.push(10u8);
            if !node.tight {
                output.push(10u8);
            }
        }
        let ghost sep: Seq<u8> = if index > 0 {
            if node.tight { seq![10u8] } else { seq![10u8, 10u8] }
        } else {
            Seq::<u8>::empty()
        };
        assert(output@ =~= acc + sep);
        let piece = match serialize_list_item(node, index, options, marker_prefix, marker_padding) {
            Ok(p) => p,
            Err(e) => {
                proof {
                    lemma_list_prefix_none(*node, index + 1, n as int, *options, marker_prefix@, marker_padding@);
                }
                return Err(e);
            },
        };
        push_bytes(&mut output, piece.as_slice());
        assert(output@ =~= acc + sep + piece@);
        index = index + 1;
    }
    Ok(output)
}

/// The content of one list item.
fn serialize_item_content(node: &List, index: usize, options: &SerializeOptions) -> (r: Result<Vec<u8>, SerializeError>)
    requires
        index < node.children@.len(),
    ensures
        r matches Err(e) ==> e is UnsupportedNode,
        r is Ok <==> spec_item_content(*node, index as int, *options) is Some,
        r matches Ok(o) ==> spec_item_content(*node, index as int, *options) == Some(o@),
    decreases *node, 0nat,
{
    let item: &ListItem = &node.children[index];
    let delimiter = if node.ordered {
        if options.ordered_delimiter == ListDelimiter::Period {
            node.delimiter
        } else {
            options.ordered_delimiter
        }
    } else if options.bullet == ListDelimiter::Dash {
        node.delimiter
    } else {
        options.bullet
    };
    let mut inner = serialize_item_blocks(item.children.as_slice(), options, node.tight)?;
    if !node.ordered && unordered_list_marker(delimiter) == 42u8 {
        inner = disambiguate_asterisk_list_item(inner);
    }
    let ghost inner0 = inner@;
    match item.checked {
        Some(checked) => {
            let il = inner.len();
            if il >= 2 && inner[0] == 45u8 && inner[1] == 32u8 {
                inner = copy_range(inner.as_slice(), 2, il);
            }
            let mut boxed: Vec<u8> = if checked {
                vec![91u8, 120u8, 93u8, 32u8]
            } else {
                vec![91u8, 32u8, 93u8, 32u8]
            };
            push_bytes(&mut boxed, inner.as_slice());
            inner = boxed;
        },
        None => {},
    }
    assert(inner@ == spec_task_box(inner0, item.checked));
    Ok(inner)
}

/// One list item with its marker.
#[verifier::spinoff_prover]
#[verifier::rlimit(100)]
fn serialize_list_item(
    node: &List,
    index: usize,
    options: &SerializeOptions,
    marker_prefix: &[u8],
    marker_padding: &[u8],
) -> (r: Result<Vec<u8>, SerializeError>)
    requires
        index < node.children@.len(),
    ensures
        r matches Err(e) ==> e is UnsupportedNode,
        r is Ok <==> spec_item_out(*node, index as int, *options, marker_prefix@, marker_padding@) is Some,
        r matches Ok(o) ==> spec_item_out(*node, index as int, *options, marker_prefix@, marker_padding@) == Some(o@),
    decreases *node, 1nat,
{
    let n = node.children.len();
    let item: &ListItem = &node.children[index];
    let delimiter = if node.ordered {
        if options.ordered_delimiter == ListDelimiter::Period {
            node.delimiter
        } else {
            options.ordered_delimiter
        }
    } else if options.bullet == ListDelimiter::Dash {
        node.delimiter
    } else {
        options.bullet
    };
    assert(delimiter == spec_list_delimiter(node.ordered, node.delimiter, *options));
    let marker = item_marker(node.ordered, node.start, index, delimiter, marker_prefix, marker_padding);
    let inner = serialize_item_content(node, index, options)?;
    let ghost lone = item.children@.len() == 1 && item.children@[0] is Paragraph;
    let lone_paragraph = item.children.len() == 1 && match &item.children[0] {
        Block::Paragraph(_) => true,
        _ => false,
    };
    let mut output: Vec<u8> = Vec::new();
    if !node.tight && n == 1 && lone_paragraph && inner.len() > 0 {
        let ml = marker.len();
        let mut t = ml;
        while t > 0 && (marker[t - 1] == 32u8 || marker[t - 1] == 9u8)
            invariant
                t <= ml == marker@.len(),
                spec_trim_blanks_back(marker@, 0, t as int) == spec_trim_blanks_back(marker@, 0, ml as int),
            decreases t,
        {
            t = t - 1;
        }
        push_range(&mut output, marker.as_slice(), 0, t);
        output.push(10u8);
        output.push(10u8);
        let indent = spaces(ml);
        let body = prefix_lines(inner.as_slice(), indent.as_slice());
        push_bytes(&mut output, body.as_slice());
        assert(output@ =~= marker@.subrange(0, spec_trim_blanks_back(marker@, 0, marker@.len() as int)) + seq![10u8, 10u8]
            + spec_prefix_from(inner@, 0, spec_spaces(marker@.len())));
    } else {
        push_bytes(&mut output, marker.as_slice());
        let body = indent_after_first_line(inner.as_slice(), marker.len());
        push_bytes(&mut output, body.as_slice());
    }
    assert(lone == lone_paragraph);
    Ok(output)
}

fn serialize_item_blocks(blocks: &[Block], options: &SerializeOptions, tight: bool) -> (r: Result<Vec<u8>, SerializeError>)
    ensures
        r matches Err(e) ==> e is UnsupportedNode,
        r is Ok <==> spec_item_blocks_out(blocks@, blocks@.len() as int, *options, tight) is Some,
        r matches Ok(o) ==> spec_item_blocks_out(blocks@, blocks@.len() as int, *options, tight) == Some(o@),
    decreases blocks@, 3nat,
{
    let mut output: Vec<u8> = Vec::new();
    let n = blocks.len();
    let mut index: usize = 0;
    while index < n
        invariant
            n == blocks@.len(),
            index <= n,
            spec_item_blocks_out(blocks@, index as int, *options, tight) == Some(output@),
        decreases n - index,
    {
        let ghost acc = output@;
        if index > 0 {
            output.push(10u8);
            if !tight {
                output.push(10u8);
            }
        }
        let ghost sep: Seq<u8> = if index > 0 {
            if tight { seq![10u8] } else { seq![10u8, 10u8] }
        } else {
            Seq::<u8>::empty()
        };
        assert(output@ =~= acc + sep);
        let b = match serialize_block(&blocks[index], options, false) {
            Ok(b) => b,
            Err(e) => {
                proof {
                    lemma_item_blocks_none(blocks@, index + 1, n as int, *options, tight);
                }
                return Err(e);
            },
        };
        push_bytes(&mut output, b.as_slice());
        assert(output@ =~= acc + sep + b@);
        assert(spec_block_out(blocks@[index as int], *options, false) == Some(b@));
        proof {
            lemma_item_blocks_step(blocks@, index as int, *options, tight);
        }
        assert(spec_item_blocks_out(blocks@, index + 1, *options, tight) == Some(acc + sep + b@));
        index = index + 1;
    }
    Ok(output)
}

fn serialize_description_list(node: &DescriptionList, options: &SerializeOptions) -> (r: Result<Vec<u8>, SerializeError>)
    ensures
        r matches Err(e) ==> e is UnsupportedNode,
        r is Ok <==> spec_description_items_out(node.children@, node.children@.len() as int, node.tight, *options) is Some,
        r matches Ok(o) ==> spec_description_items_out(node.children@, node.children@.len() as int, node.tight, *options) == Some(o@),
    decreases *node, 1nat,
{
    let mut output: Vec<u8> = Vec::new();
    let n = node.children.len();
    let mut i: usize = 0;
    while i < n
        invariant
            n == node.children@.len(),
            i <= n,
            spec_description_items_out(node.children@, i as int, node.tight, *options) == Some(output@),
        decreases n - i,
    {
        let ghost acc = output@;
        if i > 0 {
            output.push(10u8);
            if !node.tight {
                output.push(10u8);
            }
        }
        let ghost sep: Seq<u8> = if i > 0 {
            if node.tight { seq![10u8] } else { seq![10u8, 10u8] }
        } else {
            Seq::<u8>::empty()
        };
        assert(output@ =~= acc + sep);
        let ghost before = output@;
        match serialize_description_item(&mut output, &node.children[i], node.tight, options) {
            Ok(()) => {},
            Err(e) => {
                proof {
                    lemma_description_items_none(node.children@, i + 1, n as int, node.tight, *options);
                }
                return Err(e);
            },
        }
        proof {
            let item = node.children@[i as int];
            assert(output@ =~= acc + sep + spec_inlines_out(item.term@)->0 + spec_details_out(
                item.details@,
                item.details@.len() as int,
                node.tight,
                *options,
            )->0);
        }
        i = i + 1;
    }
    Ok(output)
}

/// Appends one details group of a description item.
fn serialize_detail(
    output: &mut Vec<u8>,
    detail: &DescriptionDetails,
    first: bool,
    tight: bool,
    options: &SerializeOptions,
) -> (r: Result<(), SerializeError>)
    ensures
        r matches Err(e) ==> e is UnsupportedNode,
        r is Ok <==> spec_detail_out(*detail, first, tight, *options) is Some,
        r is Ok ==> final(output)@ == old(output)@ + spec_detail_out(*detail, first, tight, *options)->0,
    decreases *detail, 0nat,
{
    let ghost start = output@;
    if tight && detail.children.len() == 1 {
        match &detail.children[0] {
            Block::Paragraph(paragraph) => {
                let text = serialize_inlines(paragraph.children.as_slice(), options)?;
                let mut piece: Vec<u8> = vec![10u8, 58u8, 32u8];
                push_bytes(&mut piece, text.as_slice());
                assert(spec_detail_out(*detail, first, tight, *options) == Some(piece@));
                push_bytes(output, piece.as_slice());
                return Ok(());
            },
            _ => {},
        }
    }
    let inner = serialize_blocks_at_start(detail.children.as_slice(), options, false)?;
    let mut piece: Vec<u8> = Vec::new();
    if !tight && first {
        piece.push(10u8);
    }
    piece.push(10u8);
    piece.push(58u8);
    if inner.len() > 0 {
        piece.push(10u8);
        let body = indent_lines(inner.as_slice(), 4);
        push_bytes(&mut piece, body.as_slice());
    }
    assert(piece@ =~= (if !tight && first { seq![10u8] } else { Seq::<u8>::empty() }) + seq![10u8, 58u8] + (if inner@.len() > 0 {
        seq![10u8] + spec_reindent_from(inner@, 0, spec_spaces(4), true, false, true)
    } else {
        Seq::<u8>::empty()
    }));
    push_bytes(output, piece.as_slice());
    Ok(())
}

fn serialize_description_item(
    output: &mut Vec<u8>,
    item: &DescriptionItem,
    tight: bool,
    options: &SerializeOptions,
) -> (r: Result<(), SerializeError>)
    ensures
        r matches Err(e) ==> e is UnsupportedNode,
        r is Ok <==> (spec_inlines_out(item.term@) is Some && spec_details_out(
            item.details@,
            item.details@.len() as int,
            tight,
            *options,
        ) is Some),
        r is Ok ==> final(output)@ == old(output)@ + spec_inlines_out(item.term@)->0 + spec_details_out(
            item.details@,
            item.details@.len() as int,
            tight,
            *options,
        )->0,
    decreases *item, 0nat,
{
    let term = serialize_inlines(item.term.as_slice(), options)?;
    push_bytes(output, term.as_slice());
    let ghost base = output@;
    let ghost mut acc: Seq<u8> = Seq::empty();
    let m = item.details.len();
    let mut j: usize = 0;
    while j < m
        invariant
            m == item.details@.len(),
            j <= m,
            spec_details_out(item.details@, j as int, tight, *options) == Some(acc),
            output@ == base + acc,
        decreases m - j,
    {
        let ghost before = output@;
        match serialize_detail(output, &item.details[j], j == 0, tight, options) {
            Ok(()) => {},
            Err(e) => {
                proof {
                    lemma_details_none(item.details@, j + 1, m as int, tight, *options);
                }
                return Err(e);
            },
        }
        proof {
            acc = acc + spec_detail_out(item.details@[j as int], j == 0, tight, *options)->0;
            assert(output@ =~= base + acc);
        }
        j = j + 1;
    }
    Ok(())
}

/// The fence of a fenced code block: a tilde when the info string holds a
/// backtick, else the block's own unless the options ask for tildes.
pub open spec fn spec_code_fence_marker(info: Option<Seq<u8>>, own: FenceMarker, options: SerializeOptions) -> FenceMarker {
    if info matches Some(i) && i.contains(96u8) {
        FenceMarker::Tilde
    } else if options.fence_marker == FenceMarker::Backtick {
        own
    } else {
        options.fence_marker
    }
}

fn code_block_fence_marker(info: &Option<String>, own: FenceMarker, options: &SerializeOptions) -> (r: FenceMarker)
    ensures
        r == spec_code_fence_marker(
            match info {
                Some(i) => Some(encode_utf8(i@)),
                None => None,
            },
            own,
            *options,
        ),
{
    match info {
        Some(i) => {
            if contains_byte(string_bytes(i), 96u8) {
                return FenceMarker::Tilde;
            }
        },
        None => {},
    }
    if options.fence_marker == FenceMarker::Backtick {
        own
    } else {
        options.fence_marker
    }
}

/// A code block as written: indented lines, or a fence long enough for the
/// content, the info string, the content and the fence again.
pub open spec fn spec_code_block(
    kind: CodeBlockKind,
    info: Option<Seq<u8>>,
    value: Seq<u8>,
    options: SerializeOptions,
) -> Seq<u8> {
    match kind {
        CodeBlockKind::Indented => spec_prefix_from(spec_trim_trailing_newline(value), 0, spec_spaces(4)),
        CodeBlockKind::Fenced { marker, length } => {
            let m = spec_code_fence_marker(info, marker, options);
            let fence = spec_fence_for(value, m, if length > 3 { length as nat } else { 3 });
            let opener = match info {
                Some(i) => fence + seq![32u8] + spec_escape(EscapeRule::CodeInfo, i),
                None => fence,
            };
            let ends = value.len() > 0 && (value.last() == 10u8 || value.last() == 13u8);
            opener + seq![10u8] + value + (if ends { Seq::empty() } else { seq![10u8] }) + fence
        },
    }
}

fn serialize_code_block(node: &CodeBlock, options: &SerializeOptions) -> (r: Vec<u8>)
    ensures
        r@ == spec_code_block(
            node.kind,
            match node.info {
                Some(i) => Some(encode_utf8(i@)),
                None => None,
            },
            encode_utf8(node.value@),
            *options,
        ),
{
    let value = string_bytes(&node.value);
    match node.kind {
        CodeBlockKind::Indented => {
            assert([32u8, 32u8, 32u8, 32u8]@ =~= spec_spaces(4));
            let t = trim_trailing_newline(value);
            let trimmed = copy_range(value, 0, t);
            prefix_lines(trimmed.as_slice(), &[32u8, 32u8, 32u8, 32u8])
        },
        CodeBlockKind::Fenced { marker, length } => {
            let m = code_block_fence_marker(&node.info, marker, options);
            let min = if length > 3 {
                length
            } else {
                3
            };
            let fence = fence_for(value, m, min);
            let mut output: Vec<u8> = Vec::new();
            push_bytes(&mut output, fence.as_slice());
            match &node.info {
                Some(info) => {
                    output.push(32u8);
                    let escaped = escape_code_info(string_bytes(info));
                    push_bytes(&mut output, escaped.as_slice());
                },
                None => {},
            }
            output.push(10u8);
            push_bytes(&mut output, value);
            if !ends_with_line_ending(value) {
                output.push(10u8);
            }
            push_bytes(&mut output, fence.as_slice());
            output
        },
    }
}

/// The delimiter-row cell of an alignment.
pub open spec fn spec_alignment_cell(a: TableAlignment) -> Seq<u8> {
    match a {
        TableAlignment::Unaligned => seq![45u8, 45u8, 45u8],
        TableAlignment::Left => seq![58u8, 45u8, 45u8, 45u8],
        TableAlignment::Center => seq![58u8, 45u8, 45u8, 45u8, 58u8],
        TableAlignment::Right => seq![45u8, 45u8, 45u8, 58u8],
    }
}

/// The delimiter cell written for an alignment reads back as that alignment:
/// `---` unaligned, `:---` left, `:---:` center, `---:` right.
pub proof fn lemma_alignment_cell_round_trips(a: TableAlignment)
    ensures
        crate::block_start::spec_cell_alignment(spec_alignment_cell(a)) == Some(a),
{
    let c = spec_alignment_cell(a);
    let n = c.len() as int;
    assert(forall|k: int| 0 <= k < n ==> (#[trigger] c[k] == 45u8 || c[k] == 58u8));
    assert(crate::text::spec_ws_len_at(c, 0) == 0);
    assert(crate::mdx::spec_skip_ws_within(c, 0, n) == 0);
    assert(crate::text::spec_ws_len_at(c, n - 1) == 0);
    assert(crate::text::spec_ws_len_at(c, n - 2) == 0);
    assert(crate::text::spec_ws_len_at(c, n - 3) == 0);
    assert(crate::block_start::spec_trailing_ws_width(c, n) == 0);
    assert(crate::block_start::spec_trim_end(c, 0, n) == n);
    assert(c.subrange(0, n) =~= c);
    reveal_with_fuel(crate::text::spec_run_len, 5);
}

fn push_alignment_cell(out: &mut Vec<u8>, a: TableAlignment)
    ensures
        final(out)@ == old(out)@ + spec_alignment_cell(a),
{
    match a {
        TableAlignment::Unaligned => push_bytes(out, &[45u8, 45u8, 45u8]),
        TableAlignment::Left => push_bytes(out, &[58u8, 45u8, 45u8, 45u8]),
        TableAlignment::Center => push_bytes(out, &[58u8, 45u8, 45u8, 45u8, 58u8]),
        TableAlignment::Right => push_bytes(out, &[45u8, 45u8, 45u8, 58u8]),
    }
}

/// The first `||` at or after `o` that is neither escaped nor followed by a
/// third `|`.
pub open spec fn spec_cell_spoiler_close(b: Seq<u8>, o: int) -> Option<usize>
    decreases b.len() - o,
{
    if o < 0 || o >= b.len() {
        None
    } else {
        match spec_find_sub(b, o, seq![124u8, 124u8]) {
            None => None,
            Some(c) => {
                proof {
                    crate::delimited::lemma_find_sub_bounds(b, o, seq![124u8, 124u8]);
                }
                if !crate::block_start::spec_is_escaped_at(b, c) && !(c + 2 < b.len() && b[c + 2] == 124u8) {
                    Some(c as usize)
                } else {
                    spec_cell_spoiler_close(b, c + 2)
                }
            },
        }
    }
}

/// The next `||` at or after `offset` that no backslash escapes and no third
/// `|` follows.
fn find_table_cell_spoiler_close(input: &[u8], offset: usize) -> (r: Option<usize>)
    ensures
        r matches Some(k) ==> offset <= k && k + 2 <= input@.len(),
        r == spec_cell_spoiler_close(input@, offset as int),
{
    let n = input.len();
    let mut o = offset;
    while o < n
        invariant
            n == input@.len(),
            offset <= o,
            spec_cell_spoiler_close(input@, o as int) == spec_cell_spoiler_close(input@, offset as int),
        decreases n - o,
    {
        proof {
            crate::delimited::lemma_find_sub_bounds(input@, o as int, seq![124u8, 124u8]);
        }
        let candidate = match find_sub(input, o, &[124u8, 124u8]) {
            Some(c) => c,
            None => {
                return None;
            },
        };
        if !is_escaped_at(input, candidate) && !(candidate + 2 < n && input[candidate + 2] == 124u8) {
            return Some(candidate);
        }
        o = candidate + 2;
    }
    None
}

/// The scan of a serialized table cell from `cursor`, with the open code
/// span's fence and whether a spoiler is open: whether it meets a `|` that is
/// not escaped, not in a code span, not a spoiler delimiter and not inside a
/// spoiler.
pub open spec fn spec_cell_pipe_scan(b: Seq<u8>, cursor: int, fence: Option<usize>, open: bool) -> bool
    decreases b.len() - cursor,
{
    if cursor < 0 || cursor >= b.len() {
        false
    } else {
        let n = b.len() as int;
        let c = b[cursor];
        let doubled = c == 124u8 && cursor + 1 < n && b[cursor + 1] == 124u8;
        let closes = open && !(cursor > 0 && b[cursor - 1] == 124u8);
        let opens = !open && !(cursor + 2 < n && b[cursor + 2] == 124u8) && spec_cell_spoiler_close(b, cursor + 2)
            is Some;
        if c == 96u8 {
            let length = spec_run_len(b, cursor, 96u8);
            let next_fence = if fence == Some(length as usize) {
                None
            } else if fence is None {
                Some(length as usize)
            } else {
                fence
            };
            if length < 1 || cursor + length > n {
                false
            } else {
                spec_cell_pipe_scan(b, cursor + length, next_fence, open)
            }
        } else if doubled && fence is Some {
            spec_cell_pipe_scan(b, cursor + 2, fence, open)
        } else if doubled && !crate::block_start::spec_is_escaped_at(b, cursor) && (closes || opens) {
            spec_cell_pipe_scan(b, cursor + 2, fence, opens)
        } else if c == 124u8 && !open && !crate::block_start::spec_is_escaped_at(b, cursor) {
            true
        } else {
            let w = spec_char_len_at(b, cursor);
            if w < 1 {
                false
            } else {
                spec_cell_pipe_scan(b, cursor + w, fence, open)
            }
        }
    }
}

/// Whether a serialized table cell holds a `|` that would split the row: one
/// that is not escaped, not a spoiler delimiter, and not inside a spoiler.
fn table_cell_has_unescaped_pipe(input: &[u8]) -> (r: bool)
    ensures
        r == spec_cell_pipe_scan(input@, 0, None, false),
{
    let n = input.len();
    let mut cursor: usize = 0;
    let mut code_fence: Option<usize> = None;
    let mut spoiler_open = false;
    while cursor < n
        invariant
            n == input@.len(),
            cursor <= n,
            spec_cell_pipe_scan(input@, cursor as int, code_fence, spoiler_open) == spec_cell_pipe_scan(
                input@,
                0,
                None,
                false,
            ),
        decreases n - cursor,
    {
        let c = input[cursor];
        if c == 96u8 {
            let length = run_len(input, cursor, 96u8);
            if code_fence == Some(length) {
                code_fence = None;
            } else if code_fence.is_none() {
                code_fence = Some(length);
            }
            cursor = cursor + length;
            continue;
        }
        let doubled = c == 124u8 && cursor + 1 < n && input[cursor + 1] == 124u8;
        if doubled && code_fence.is_some() {
            cursor = cursor + 2;
            continue;
        }
        if doubled && code_fence.is_none() && !is_escaped_at(input, cursor) {
            let closes = spoiler_open && !(cursor > 0 && input[cursor - 1] == 124u8);
            let opens = !spoiler_open && !(cursor + 2 < n && input[cursor + 2] == 124u8)
                && find_table_cell_spoiler_close(input, cursor + 2).is_some();
            if closes || opens {
                spoiler_open = opens;
                cursor = cursor + 2;
                continue;
            }
        }
        if c == 124u8 && !spoiler_open && !is_escaped_at(input, cursor) {
            return true;
        }
        cursor = cursor + crate::text::char_len_at(input, cursor);
    }
    false
}

fn serialize_table_row(row: &TableRow, options: &SerializeOptions) -> (r: Result<Vec<u8>, SerializeError>)
    ensures
        r matches Err(e) ==> e is UnsupportedNode,
        r is Ok <==> spec_row_out(*row) is Some,
        r matches Ok(o) ==> spec_row_out(*row) == Some(o@),
{
    let mut output: Vec<u8> = vec![124u8, 32u8];
    let n = row.cells.len();
    let mut k: usize = 0;
    let ghost mut acc: Seq<u8> = Seq::empty();
    while k < n
        invariant
            n == row.cells@.len(),
            k <= n,
            spec_row_cells_out(row.cells@, k as int) == Some(acc),
            output@ == seq![124u8, 32u8] + acc,
        decreases n - k,
    {
        let ctx = InlineSerializeContext::table_cell();
        assert(ctx == InlineSerializeContext { table_cell: true, avoid_star_edges: false });
        let cell = match serialize_inlines_with_context(row.cells[k].children.as_slice(), options, ctx) {
            Ok(c) => c,
            Err(e) => {
                proof {
                    lemma_row_cells_none(row.cells@, k + 1, n as int);
                }
                return Err(e);
            },
        };
        if table_cell_has_unescaped_pipe(cell.as_slice()) {
            proof {
                lemma_row_cells_none(row.cells@, k + 1, n as int);
            }
            return Err(
                SerializeError::UnsupportedNode(
                    "table cell inline contains a pipe that cannot be escaped without changing source",
                ),
            );
        }
        if k > 0 {
            push_bytes(&mut output, &[32u8, 124u8, 32u8]);
        }
        push_bytes(&mut output, cell.as_slice());
        proof {
            acc = acc + (if k > 0 { seq![32u8, 124u8, 32u8] } else { Seq::<u8>::empty() }) + cell@;
            assert(output@ =~= seq![124u8, 32u8] + acc);
        }
        k = k + 1;
    }
    output.push(32u8);
    output.push(124u8);
    assert(output@ =~= seq![124u8, 32u8] + acc + seq![32u8, 124u8]);
    Ok(output)
}

fn serialize_table(node: &Table, options: &SerializeOptions) -> (r: Result<Vec<u8>, SerializeError>)
    ensures
        node.rows@.len() == 0 ==> r is Err,
        r matches Err(e) ==> e is UnsupportedNode,
        r is Ok <==> spec_table_out(*node) is Some,
        r matches Ok(o) ==> spec_table_out(*node) == Some(o@),
{
    if node.rows.len() == 0 {
        return Err(SerializeError::UnsupportedNode("empty table"));
    }
    let mut output = serialize_table_row(&node.rows[0], options)?;
    let ghost header = output@;
    output.push(10u8);
    output.push(124u8);
    output.push(32u8);
    let m = node.alignments.len();
    let mut k: usize = 0;
    while k < m
        invariant
            m == node.alignments@.len(),
            k <= m,
            output@ == header + seq![10u8, 124u8, 32u8] + spec_alignments_out(node.alignments@, k as int),
        decreases m - k,
    {
        if k > 0 {
            push_bytes(&mut output, &[32u8, 124u8, 32u8]);
        }
        push_alignment_cell(&mut output, node.alignments[k]);
        k = k + 1;
    }
    output.push(32u8);
    output.push(124u8);
    let ghost head = output@;
    assert(head == header + seq![10u8, 124u8, 32u8] + spec_alignments_out(node.alignments@, m as int) + seq![32u8, 124u8]);
    let n = node.rows.len();
    let mut r: usize = 1;
    let ghost mut acc: Seq<u8> = Seq::empty();
    while r < n
        invariant
            n == node.rows@.len(),
            1 <= r <= n,
            spec_body_rows_out(node.rows@, r as int) == Some(acc),
            output@ == head + acc,
        decreases n - r,
    {
        output.push(10u8);
        let row = match serialize_table_row(&node.rows[r], options) {
            Ok(row) => row,
            Err(e) => {
                proof {
                    lemma_body_rows_none(node.rows@, r + 1, n as int);
                }
                return Err(e);
            },
        };
        push_bytes(&mut output, row.as_slice());
        proof {
            acc = acc + seq![10u8] + row@;
            assert(output@ =~= head + acc);
        }
        r = r + 1;
    }
    assert(output@ =~= header + seq![10u8, 124u8, 32u8] + spec_alignments_out(node.alignments@, m as int) + seq![32u8, 124u8] + acc);
    Ok(output)
}

/// A thematic break as written back: `---` (as `- - -` at the very start of
/// a document, where `---` would open frontmatter), `***` or `___`.
pub open spec fn spec_thematic_break_bytes(marker: ThematicBreakMarker, at_document_start: bool) -> Seq<u8> {
    match marker {
        ThematicBreakMarker::Dash => if at_document_start {
            seq![45u8, 32u8, 45u8, 32u8, 45u8]
        } else {
            seq![45u8, 45u8, 45u8]
        },
        ThematicBreakMarker::Asterisk => seq![42u8, 42u8, 42u8],
        ThematicBreakMarker::Underscore => seq![95u8, 95u8, 95u8],
    }
}

/// A heading: setext when it was setext and its depth is 1 or 2, else ATX.
fn serialize_heading(node: &Heading, options: &SerializeOptions) -> (r: Result<Vec<u8>, SerializeError>)
    ensures
        r matches Err(e) ==> e is UnsupportedNode,
        r is Ok <==> spec_heading_out(*node) is Some,
        r matches Ok(o) ==> spec_heading_out(*node) == Some(o@),
{
    let content = serialize_inlines(node.children.as_slice(), options)?;
    let setext = node.kind == HeadingKind::Setext && (node.depth == 1 || node.depth == 2);
    if setext {
        let marker: u8 = if node.depth == 1 {
            61u8
        } else {
            45u8
        };
        let cl = content.len();
        let mut out = copy_range(content.as_slice(), 0, cl);
        out.push(10u8);
        let underline = repeat_byte(marker, if cl > 3 {
            cl
        } else {
            3
        });
        push_bytes(&mut out, underline.as_slice());
        Ok(out)
    } else if content.len() == 0 {
        Ok(repeat_byte(35u8, node.depth as usize))
    } else {
        let mut out = repeat_byte(35u8, node.depth as usize);
        out.push(32u8);
        let escaped = escape_atx_heading_content(content.as_slice());
        push_bytes(&mut out, escaped.as_slice());
        Ok(out)
    }
}

/// A link reference definition.
fn serialize_definition(node: &Definition) -> (r: Vec<u8>)
    ensures
        r@ == spec_definition_out(*node),
{
    let destination = serialize_destination_kind(
        string_bytes(&node.destination),
        node.destination_kind,
        InlineSerializeContext::plain(),
    );
    let l = string_bytes(&node.label);
    let mut label = if node.meta.span.is_some() {
        escape_definition_label_source(l)
    } else {
        escape_reference_label_with_pipe(l, false)
    };
    if node.meta.span.is_none() && label.len() > 0 && label[0] == 94u8 {
        label = insert_backslash(label, 0);
    }
    let mut output: Vec<u8> = vec![91u8];
    push_bytes(&mut output, label.as_slice());
    push_bytes(&mut output, &[93u8, 58u8, 32u8]);
    push_bytes(&mut output, destination.as_slice());
    match (&node.title, node.title_kind) {
        (Some(title), Some(kind)) => {
            output.push(32u8);
            let t = serialize_title_kind(string_bytes(title), kind, InlineSerializeContext::plain());
            push_bytes(&mut output, t.as_slice());
        },
        _ => {},
    }
    output
}

/// Writes a block that holds no blocks.
fn serialize_leaf_block(block: &Block, options: &SerializeOptions, at_document_start: bool) -> (r: Result<Vec<u8>, SerializeError>)
    requires
        block is Paragraph || block is Heading || block is ThematicBreak || block is CodeBlock || block is HtmlBlock || block is Definition || block is MathBlock || block is Frontmatter || block is MdxEsm || block is MdxExpression || block is MdxJsx,
    ensures
        r matches Err(e) ==> e is UnsupportedNode,
        r is Ok <==> spec_block_out(*block, *options, at_document_start) is Some,
        r matches Ok(o) ==> spec_block_out(*block, *options, at_document_start) == Some(o@),
    decreases *block, 0nat,
{
    match block {
        Block::Paragraph(node) => serialize_paragraph(&node.children, options),
        Block::Heading(node) => serialize_heading(node, options),
        Block::ThematicBreak(node) => Ok(
            match node.marker {
                ThematicBreakMarker::Dash => {
                    if at_document_start {
                        vec![45u8, 32u8, 45u8, 32u8, 45u8]
                    } else {
                        vec![45u8, 45u8, 45u8]
                    }
                },
                ThematicBreakMarker::Asterisk => vec![42u8, 42u8, 42u8],
                ThematicBreakMarker::Underscore => vec![95u8, 95u8, 95u8],
            },
        ),
        Block::CodeBlock(node) => Ok(serialize_code_block(node, options)),
        Block::HtmlBlock(node) => {
            let v = string_bytes(&node.value);
            Ok(copy_range(v, 0, trim_trailing_newline(v)))
        },
        Block::Definition(node) => Ok(serialize_definition(node)),
        Block::MathBlock(node) => {
            let v = string_bytes(&node.value);
            let fence = block_math_fence(v);
            Ok(fenced(fence.as_slice(), v))
        },
        Block::Frontmatter(node) => {
            let v = string_bytes(&node.value);
            let fence: Vec<u8> = match node.kind {
                FrontmatterKind::Yaml => vec![45u8, 45u8, 45u8],
                FrontmatterKind::Toml => vec![43u8, 43u8, 43u8],
            };
            Ok(fenced(fence.as_slice(), v))
        },
        Block::MdxEsm(node) => {
            let v = string_bytes(&node.value);
            Ok(copy_range(v, 0, v.len()))
        },
        Block::MdxExpression(node) => {
            let mut output: Vec<u8> = vec![123u8];
            push_bytes(&mut output, string_bytes(&node.value));
            output.push(125u8);
            Ok(output)
        },
        Block::MdxJsx(node) => {
            let v = string_bytes(&node.value);
            Ok(copy_range(v, 0, v.len()))
        },
        _ => Ok(Vec::new()),
    }
}

/// Writes a block that holds blocks, items or rows.
fn serialize_container_block(block: &Block, options: &SerializeOptions, at_document_start: bool) -> (r: Result<Vec<u8>, SerializeError>)
    requires
        block is BlockQuote || block is Alert || block is List || block is DescriptionList || block is FootnoteDefinition || block is Table || block is LeafDirective || block is ContainerDirective,
    ensures
        r matches Err(e) ==> e is UnsupportedNode,
        r is Ok <==> spec_block_out(*block, *options, at_document_start) is Some,
        r matches Ok(o) ==> spec_block_out(*block, *options, at_document_start) == Some(o@),
    decreases *block, 1nat,
{
    match block {
        Block::BlockQuote(node) => {
            let inner = serialize_blocks_at_start(node.children.as_slice(), options, false)?;
            if inner.len() == 0 {
                Ok(vec![62u8])
            } else {
                Ok(prefix_lines(inner.as_slice(), &[62u8, 32u8]))
            }
        },
        Block::Alert(node) => serialize_alert(node, options),
        Block::List(node) => serialize_list(node, options),
        Block::DescriptionList(node) => serialize_description_list(node, options),
        Block::FootnoteDefinition(node) => {
            let inner = serialize_blocks_at_start(node.children.as_slice(), options, false)?;
            let l = string_bytes(&node.label);
            let label = if node.meta.span.is_some() {
                escape_footnote_label_source(l)
            } else {
                escape_footnote_label_semantic(l)
            };
            let mut output: Vec<u8> = vec![91u8, 94u8];
            push_bytes(&mut output, label.as_slice());
            push_bytes(&mut output, &[93u8, 58u8, 32u8]);
            let body = indent_continuation(inner.as_slice());
            push_bytes(&mut output, body.as_slice());
            Ok(output)
        },
        Block::Table(node) => serialize_table(node, options),
        Block::LeafDirective(node) => {
            let label = serialize_directive_label(&node.label, options)?;
            let mut output: Vec<u8> = vec![58u8, 58u8];
            push_bytes(&mut output, string_bytes(&node.name));
            push_bytes(&mut output, label.as_slice());
            let attributes = serialize_attributes(&node.attributes);
            push_bytes(&mut output, attributes.as_slice());
            Ok(output)
        },
        Block::ContainerDirective(node) => {
            let inner = serialize_blocks_at_start(node.children.as_slice(), options, false)?;
            let fence = directive_fence(inner.as_slice());
            let label = serialize_directive_label(&node.label, options)?;
            let mut output: Vec<u8> = Vec::new();
            push_bytes(&mut output, fence.as_slice());
            push_bytes(&mut output, string_bytes(&node.name));
            push_bytes(&mut output, label.as_slice());
            let attributes = serialize_attributes(&node.attributes);
            push_bytes(&mut output, attributes.as_slice());
            output.push(10u8);
            push_bytes(&mut output, inner.as_slice());
            output.push(10u8);
            push_bytes(&mut output, fence.as_slice());
            Ok(output)
        },
        _ => Ok(Vec::new()),
    }
}

fn serialize_block(block: &Block, options: &SerializeOptions, at_document_start: bool) -> (r: Result<Vec<u8>, SerializeError>)
    ensures
        r matches Err(e) ==> e is UnsupportedNode,
        r is Ok <==> spec_block_out(*block, *options, at_document_start) is Some,
        r matches Ok(o) ==> spec_block_out(*block, *options, at_document_start) == Some(o@),
        block is ThematicBreak ==> (r matches Ok(o) && o@ == spec_thematic_break_bytes(
            block->ThematicBreak_0.marker,
            at_document_start,
        )),
    decreases *block, 2nat,
{
    match block {
        Block::Paragraph(_) | Block::Heading(_) | Block::ThematicBreak(_) | Block::CodeBlock(_) | Block::HtmlBlock(_)
        | Block::Definition(_) | Block::MathBlock(_) | Block::Frontmatter(_) | Block::MdxEsm(_) | Block::MdxExpression(_)
        | Block::MdxJsx(_) => {
            let r = serialize_leaf_block(block, options, at_document_start);
            r
        },
        _ => serialize_container_block(block, options, at_document_start),
    }
}


/// `fence`, a line break, `value` without its trailing line breaks, a line
/// break and `fence` again.
pub open spec fn spec_fenced(fence: Seq<u8>, value: Seq<u8>) -> Seq<u8> {
    fence + seq![10u8] + spec_trim_trailing_newline(value) + seq![10u8] + fence
}

fn fenced(fence: &[u8], value: &[u8]) -> (r: Vec<u8>)
    ensures
        r@ == spec_fenced(fence@, value@),
{
    let mut output: Vec<u8> = Vec::new();
    push_bytes(&mut output, fence);
    output.push(10u8);
    push_range(&mut output, value, 0, trim_trailing_newline(value));
    output.push(10u8);
    push_bytes(&mut output, fence);
    output
}

/// Whether a block is an indented code block.
fn is_indented_code(block: Option<&Block>) -> (r: bool)
    ensures
        r == (block matches Some(b) && spec_is_indented_code(*b)),
{
    match block {
        Some(Block::CodeBlock(code)) => code.kind == CodeBlockKind::Indented,
        _ => false,
    }
}

/// Serializes a block sequence, blocks separated by a blank line. At the start
/// of the document a dash thematic break is spaced, since `---` there would
/// open frontmatter; a list followed by indented code indents its markers so
/// that the code does not join the last item.
fn serialize_blocks_at_start(blocks: &[Block], options: &SerializeOptions, document_start: bool) -> (r: Result<
    Vec<u8>,
    SerializeError,
>)
    ensures
        r matches Err(e) ==> e is UnsupportedNode,
        r matches Ok(v) ==> (blocks@.len() == 0 ==> v@.len() == 0),
        r is Ok <==> spec_blocks_out(blocks@, *options, document_start) is Some,
        r matches Ok(v) ==> spec_blocks_out(blocks@, *options, document_start) == Some(v@),
    decreases blocks@, 3nat,
{
    let mut output: Vec<u8> = Vec::new();
    let n = blocks.len();
    let mut index: usize = 0;
    while index < n
        invariant
            n == blocks@.len(),
            index <= n,
            n == 0 ==> output@.len() == 0,
            spec_blocks_prefix_out(blocks@, index as int, *options, document_start) == Some(output@),
        decreases n - index,
    {
        let ghost acc = output@;
        if index > 0 {
            output.push(10u8);
            output.push(10u8);
        }
        let ghost sep: Seq<u8> = if index > 0 { seq![10u8, 10u8] } else { Seq::<u8>::empty() };
        assert(output@ =~= acc + sep);
        let next = if index + 1 < n {
            Some(&blocks[index + 1])
        } else {
            None
        };
        assert([32u8]@ =~= seq![32u8]);
        assert([32u8, 32u8, 32u8, 32u8]@ =~= seq![32u8, 32u8, 32u8, 32u8]);
        let step = match &blocks[index] {
            Block::List(list) => {
                if is_indented_code(next) {
                    serialize_list_with_marker_spacing(list, options, &[32u8], &[32u8, 32u8, 32u8, 32u8])
                } else {
                    serialize_block(&blocks[index], options, document_start && index == 0)
                }
            },
            _ => serialize_block(&blocks[index], options, document_start && index == 0),
        };
        let piece = match step {
            Ok(p) => p,
            Err(e) => {
                proof {
                    lemma_blocks_prefix_none(blocks@, index + 1, n as int, *options, document_start);
                }
                return Err(e);
            },
        };
        push_bytes(&mut output, piece.as_slice());
        assert(output@ =~= acc + sep + piece@);
        index = index + 1;
    }
    Ok(output)
}

// ---------------------------------------------------------------------------
// Documents.
// ---------------------------------------------------------------------------

/// `b` with every `\n` written as `\r\n`.
pub open spec fn spec_crlf(b: Seq<u8>) -> Seq<u8>
    decreases b.len(),
{
    if b.len() == 0 {
        Seq::empty()
    } else {
        spec_crlf(b.drop_last()) + if b.last() == 10u8 {
            seq![13u8, 10u8]
        } else {
            seq![b.last()]
        }
    }
}

/// The serialized body with the options' line endings and final newline: `\n`
/// becomes `\r\n` for `CrLf`, and a non-empty output that does not end with
/// the line ending gets one when `final_newline` is set.
pub open spec fn spec_finish_output(body: Seq<u8>, options: SerializeOptions) -> Seq<u8> {
    let b = if options.line_ending == LineEnding::CrLf {
        spec_crlf(body)
    } else {
        body
    };
    let e = spec_line_ending(options.line_ending);
    let ends = b.len() >= e.len() && b.subrange(b.len() - e.len(), b.len() as int) == e;
    if options.final_newline && b.len() > 0 && !ends {
        b + e
    } else {
        b
    }
}

/// The line endings and final newline of the options applied to a body.
pub fn finish_output(body: &[u8], options: &SerializeOptions) -> (r: Vec<u8>)
    ensures
        r@ == spec_finish_output(body@, *options),
{
    let n = body.len();
    let mut out: Vec<u8> = Vec::new();
    if options.line_ending == LineEnding::CrLf {
        let mut i: usize = 0;
        while i < n
            invariant
                n == body@.len(),
                i <= n,
                out@ == spec_crlf(body@.subrange(0, i as int)),
            decreases n - i,
        {
            assert(body@.subrange(0, i + 1).drop_last() =~= body@.subrange(0, i as int));
            if body[i] == 10u8 {
                out.push(13u8);
            }
            out.push(body[i]);
            i = i + 1;
        }
        assert(body@.subrange(0, n as int) =~= body@);
    } else {
        push_bytes(&mut out, body);
    }
    let e = options.line_ending.as_bytes();
    let ol = out.len();
    let el = e.len();
    let ends = ol >= el && starts_with_at(out.as_slice(), ol - el, e.as_slice());
    if options.final_newline && ol > 0 && !ends {
        push_bytes(&mut out, e.as_slice());
    }
    out
}

/// Markdown source for `document`, written with `options`.
pub fn to_markdown_with_options(document: &Document, options: &SerializeOptions) -> (r: Result<String, SerializeError>)
    ensures
        r matches Err(SerializeError::InvalidDocument(d)) <==> !spec_document_ok(*document),
        r matches Err(SerializeError::InvalidDocument(d)) ==> d@.len() > 0 && forall|k: int|
            0 <= k < d@.len() ==> (#[trigger] d@[k]).code == DiagnosticCode::InvalidDocument,
        r matches Err(SerializeError::InvalidDocument(d)) ==> spec_reports_of(d@) == spec_document_reports(*document),
        r is Ok <==> spec_document_ok(*document) && spec_blocks_out(document.children@, *options, true) is Some,
        r matches Ok(s) ==> s@ == spec_lossy_utf8(
            spec_finish_output(spec_blocks_out(document.children@, *options, true)->0, *options),
        ),
        r matches Err(e) ==> e is InvalidDocument || e is UnsupportedNode,
{
    let diagnostics = validate_document(document);
    if diagnostics.len() > 0 {
        return Err(SerializeError::InvalidDocument(diagnostics));
    }
    let body = match serialize_blocks_at_start(document.children.as_slice(), options, true) {
        Ok(b) => b,
        Err(e) => {
            return Err(e);
        },
    };
    let out = finish_output(body.as_slice(), options);
    let s = string_from_bytes(out.as_slice());
    assert(s@ == spec_lossy_utf8(spec_finish_output(body@, *options)));
    Ok(s)
}

/// Markdown source for `document`, written with the default options.
pub fn to_markdown(document: &Document) -> (r: Result<String, SerializeError>)
    ensures
        r matches Err(SerializeError::InvalidDocument(d)) <==> !spec_document_ok(*document),
        r matches Err(SerializeError::InvalidDocument(d)) ==> d@.len() > 0 && forall|k: int|
            0 <= k < d@.len() ==> (#[trigger] d@[k]).code == DiagnosticCode::InvalidDocument,
        r matches Err(SerializeError::InvalidDocument(d)) ==> spec_reports_of(d@) == spec_document_reports(*document),
        r is Ok <==> spec_document_ok(*document) && spec_blocks_out(document.children@, spec_default_options(), true) is Some,
        r matches Ok(s) ==> s@ == spec_lossy_utf8(
            spec_finish_output(spec_blocks_out(document.children@, spec_default_options(), true)->0, spec_default_options()),
        ),
        r matches Err(e) ==> e is InvalidDocument || e is UnsupportedNode,
{
    to_markdown_with_options(document, &SerializeOptions::default())
}

// ---------------------------------------------------------------------------
// Laws of the written output.
// ---------------------------------------------------------------------------

/// With `final_newline` set, non-empty output ends with the chosen line ending.
pub proof fn lemma_output_ends_with_line_ending(body: Seq<u8>, options: SerializeOptions)
    requires
        options.final_newline,
        spec_finish_output(body, options).len() > 0,
    ensures
        ({
            let out = spec_finish_output(body, options);
            let e = spec_line_ending(options.line_ending);
            out.len() >= e.len() && out.subrange(out.len() - e.len(), out.len() as int) == e
        }),
{
    let b = if options.line_ending == LineEnding::CrLf {
        spec_crlf(body)
    } else {
        body
    };
    let e = spec_line_ending(options.line_ending);
    let out = spec_finish_output(body, options);
    if b.len() >= e.len() && b.subrange(b.len() - e.len(), b.len() as int) == e {
        assert(out == b);
    } else {
        assert(out == b + e);
        assert(out.subrange(out.len() - e.len(), out.len() as int) =~= e);
    }
}

proof fn lemma_crlf_len(b: Seq<u8>)
    ensures
        spec_crlf(b).len() >= b.len(),
        b.len() > 0 ==> spec_crlf(b).len() > 0 && spec_crlf(b).last() == b.last(),
    decreases b.len(),
{
    if b.len() > 0 {
        lemma_crlf_len(b.drop_last());
    }
}

/// With `\r\n` line endings, every line feed of the converted body follows a
/// carriage return.
pub proof fn lemma_crlf_has_no_bare_line_feed(body: Seq<u8>)
    ensures
        forall|k: int|
            0 <= k < spec_crlf(body).len() && #[trigger] spec_crlf(body)[k] == 10u8 ==> k > 0 && spec_crlf(body)[k
                - 1] == 13u8,
    decreases body.len(),
{
    if body.len() > 0 {
        let rest = body.drop_last();
        lemma_crlf_has_no_bare_line_feed(rest);
        lemma_crlf_len(rest);
        let r = spec_crlf(rest);
        let tail = if body.last() == 10u8 {
            seq![13u8, 10u8]
        } else {
            seq![body.last()]
        };
        assert(spec_crlf(body) == r + tail);
        assert forall|k: int|
            0 <= k < spec_crlf(body).len() && #[trigger] spec_crlf(body)[k] == 10u8 implies k > 0
                && spec_crlf(body)[k - 1] == 13u8 by {
            if k < r.len() {
                assert(spec_crlf(body)[k] == r[k]);
                assert(r[k] == 10u8);
                assert(spec_crlf(body)[k - 1] == r[k - 1]);
            } else if body.last() == 10u8 {
                if k == r.len() {
                    assert(spec_crlf(body)[k] == 13u8);
                } else {
                    assert(spec_crlf(body)[k - 1] == 13u8);
                }
            } else {
                assert(spec_crlf(body)[k] == body.last());
            }
        }
    }
}

} // verus!
