//! Inline content of paragraphs and headings: text, backslash escapes, numeric
//! character references, code spans, soft and hard line breaks, and the
//! delimiter runs of emphasis, strong emphasis and strikethrough.
use vstd::prelude::*;

use crate::ast::{
    Autolink, AutolinkKind, CharacterReference, CodeInline, Emphasis, Escape, FootnoteReference, HtmlInline, Image,
    ImageReference, Inline, InlineFootnote, Insert, LineBreak, LineBreakKind, Link, LinkReference, Mark, MathInline,
    MathInlineKind, MdxExpressionInline, MdxJsxInline, NodeMeta, Shortcode, TextDirective, WikiLink, WikiLinkLabelOrder,
    ReferenceKind, SoftBreak, Spoiler, Subscript, Superscript, Text, Underline,
};
use crate::label::normalize_label;
use crate::links::{
    autolink_end, find_link_label_end, find_reference_label_end, html_inline_end, label_within_limit,
    parse_link_resource, unescape_ascii_punctuation,
};
use crate::delimited::{
    find_closing_delimiter, find_footnote_reference_label_end, find_inline_footnote_end, find_simple_inline_close,
    find_spoiler_close, find_wikilink_close, find_wikilink_separator, is_footnote_label, parse_math_inline,
    parse_shortcode, single_tilde_delete_takes_precedence,
    starts_exact_byte_run,
};
use crate::literal_autolink::parse_literal_autolink;
use crate::emphasis::{delimiter_byte_run_start, process_emphasis, record_emphasis_delimiter, DelimMarker};
use crate::text_escape::text_delimiter_can_open;
use crate::diagnostic::{Diagnostic, DiagnosticCode, DiagnosticSeverity};
use crate::directive::{directive_opener_looks_malformed, parse_directive_opener};
use crate::options::{Constructs, ParseOptions};
use crate::span::Span;
use crate::text::{
    bytes_equal, string_bytes, string_from_range, whitespace_len_at, char_len_at, copy_range, hex_value, is_ascii_digit, is_ascii_hex, is_ascii_punctuation, push_range,
    run_len, spec_char_len_at, spec_is_ascii_digit, spec_is_ascii_hex, spec_run_len, string_from_bytes,
};

verus! {

/// Whether no construct that reports parse diagnostics is on: directives,
/// and the MDX ESM, expression and JSX block constructs and inline
/// expressions.
pub open spec fn spec_diagnostics_off(c: Constructs) -> bool {
    &&& !c.directive_container && !c.directive_leaf && !c.directive_text
    &&& !c.mdx_esm && !c.mdx_expression_block && !c.mdx_jsx_block && !c.mdx_expression_inline
}

/// What block and inline parsing consult: the validated constructs and parse
/// options, and the identifiers of the document's link reference definitions.
pub struct ParseContext {
    pub constructs: Constructs,
    pub parse: ParseOptions,
    pub definitions: Vec<String>,
}

// ---------------------------------------------------------------------------
// Character references.
// ---------------------------------------------------------------------------

/// The length of the run of (hexadecimal, when `hex`) digits at `k`.
pub open spec fn spec_digits_at(b: Seq<u8>, k: int, hex: bool) -> nat
    decreases b.len() - k,
{
    if 0 <= k < b.len() && (if hex { spec_is_ascii_hex(b[k]) } else { spec_is_ascii_digit(b[k]) }) {
        1 + spec_digits_at(b, k + 1, hex)
    } else {
        0
    }
}

fn digits_at(b: &[u8], k: usize, hex: bool) -> (r: usize)
    requires
        k <= b@.len(),
    ensures
        r == spec_digits_at(b@, k as int, hex),
        k + r <= b@.len(),
    decreases b@.len() - k,
{
    if k < b.len() && (if hex { is_ascii_hex(b[k]) } else { is_ascii_digit(b[k]) }) {
        1 + digits_at(b, k + 1, hex)
    } else {
        0
    }
}

/// The scalar a numeric reference decodes to: U+FFFD for 0, surrogates and
/// values beyond U+10FFFF, the value itself otherwise.
pub open spec fn spec_reference_scalar(v: nat) -> u32 {
    if v == 0 || (0xD800 <= v <= 0xDFFF) || v > 0x10FFFF {
        0xFFFD
    } else {
        v as u32
    }
}

fn character_reference_value(v: u32) -> (r: char)
    ensures
        r as u32 == spec_reference_scalar(v as nat),
{
    if v == 0 || (0xD800 <= v && v <= 0xDFFF) || v > 0x10FFFF {
        '\u{FFFD}'
    } else {
        char_from_scalar(v)
    }
}

#[verifier::external_body]
/// The `char` of a Unicode scalar value (`char::from_u32`, which succeeds on
/// every value outside the surrogates up to U+10FFFF).
fn char_from_scalar(v: u32) -> (r: char)
    requires
        v <= 0x10FFFF,
        !(0xD800 <= v <= 0xDFFF),
    ensures
        r as u32 == v,
{
    char::from_u32(v).unwrap_or('\u{FFFD}')
}

/// The value of the digits `b[k..k + d]` in base 16 or 10.
pub open spec fn spec_digits_value(b: Seq<u8>, k: int, d: int, hex: bool) -> nat
    decreases d,
{
    if d <= 0 {
        0
    } else {
        let last = b[k + d - 1];
        let digit: nat = if hex {
            (if 48 <= last <= 57 { last - 48 } else if 65 <= last <= 70 { last - 55 } else { last - 87 }) as nat
        } else {
            (last - 48) as nat
        };
        spec_digits_value(b, k, d - 1, hex) * (if hex { 16nat } else { 10nat }) + digit
    }
}

/// A numeric character reference at `index`: `&#x` or `&#X` and one to six
/// hexadecimal digits, or `&#` and one to seven decimal digits, then `;`. The
/// end of the reference and its decoded scalar.
pub open spec fn spec_numeric_reference(b: Seq<u8>, index: int) -> Option<(int, u32)> {
    if index + 3 <= b.len() && b[index] == 38u8 && b[index + 1] == 35u8 && (b[index + 2] == 120u8 || b[index + 2]
        == 88u8) {
        let d = spec_digits_at(b, index + 3, true) as int;
        if d >= 1 && d <= 6 && index + 3 + d < b.len() && b[index + 3 + d] == 59u8 {
            Some((index + 3 + d + 1, spec_reference_scalar(spec_digits_value(b, index + 3, d, true))))
        } else {
            None
        }
    } else if index + 2 <= b.len() && b[index] == 38u8 && b[index + 1] == 35u8 {
        let d = spec_digits_at(b, index + 2, false) as int;
        if d >= 1 && d <= 7 && index + 2 + d < b.len() && b[index + 2 + d] == 59u8 {
            Some((index + 2 + d + 1, spec_reference_scalar(spec_digits_value(b, index + 2, d, false))))
        } else {
            None
        }
    } else {
        None
    }
}

/// `base` to the power `d`.
pub open spec fn spec_pow(base: nat, d: nat) -> nat
    decreases d,
{
    if d == 0 {
        1
    } else {
        base * spec_pow(base, (d - 1) as nat)
    }
}

proof fn lemma_pow_mono(base: nat, d: nat, e: nat)
    requires
        base >= 1,
        d <= e,
    ensures
        1 <= spec_pow(base, d) <= spec_pow(base, e),
    decreases e,
{
    if e > 0 {
        if d < e {
            lemma_pow_mono(base, d, (e - 1) as nat);
        } else {
            lemma_pow_mono(base, (d - 1) as nat, (e - 1) as nat);
        }
        let p = spec_pow(base, (e - 1) as nat);
        assert(p <= base * p) by (nonlinear_arith)
            requires
                base >= 1,
                p >= 1,
        ;
    }
}

proof fn lemma_digits_value_bound(b: Seq<u8>, k: int, d: int, hex: bool)
    requires
        0 <= k,
        0 <= d,
        k + d <= b.len(),
        forall|j: int| k <= j < k + d ==> if hex { spec_is_ascii_hex(#[trigger] b[j]) } else { spec_is_ascii_digit(b[j]) },
    ensures
        spec_digits_value(b, k, d, hex) < spec_pow(if hex { 16nat } else { 10nat }, d as nat),
    decreases d,
{
    if d > 0 {
        lemma_digits_value_bound(b, k, d - 1, hex);
        let base: nat = if hex { 16nat } else { 10nat };
        let p = spec_pow(base, (d - 1) as nat);
        let v = spec_digits_value(b, k, d - 1, hex);
        let last = b[k + d - 1];
        let digit: nat = if hex {
            (if 48 <= last <= 57 { last - 48 } else if 65 <= last <= 70 { last - 55 } else { last - 87 }) as nat
        } else {
            (last - 48) as nat
        };
        assert(digit < base);
        assert(v * base + digit < p * base) by (nonlinear_arith)
            requires
                v < p,
                digit < base,
        ;
        assert(p * base == base * p) by (nonlinear_arith);
    }
}

proof fn lemma_digit_run_class(b: Seq<u8>, k: int, hex: bool)
    requires
        0 <= k,
    ensures
        forall|j: int| k <= j < k + spec_digits_at(b, k, hex) ==> if hex { spec_is_ascii_hex(#[trigger] b[j]) } else {
            spec_is_ascii_digit(b[j])
        },
        k + spec_digits_at(b, k, hex) <= b.len() || spec_digits_at(b, k, hex) == 0,
    decreases b.len() - k,
{
    if 0 <= k < b.len() && (if hex { spec_is_ascii_hex(b[k]) } else { spec_is_ascii_digit(b[k]) }) {
        lemma_digit_run_class(b, k + 1, hex);
    }
}

fn digits_value(b: &[u8], k: usize, d: usize, hex: bool) -> (r: u32)
    requires
        k + d <= b@.len(),
        d <= 7,
        forall|j: int| k <= j < k + d ==> if hex { spec_is_ascii_hex(#[trigger] b@[j]) } else { spec_is_ascii_digit(b@[j]) },
        hex ==> d <= 6,
    ensures
        r as nat == spec_digits_value(b@, k as int, d as int, hex),
    decreases d,
{
    if d == 0 {
        return 0;
    }
    let prev = digits_value(b, k, d - 1, hex);
    proof {
        lemma_digits_value_bound(b@, k as int, (d - 1) as int, hex);
        if hex {
            lemma_pow_mono(16, (d - 1) as nat, 5);
        } else {
            lemma_pow_mono(10, (d - 1) as nat, 6);
        }
        reveal_with_fuel(spec_pow, 7);
        assert(spec_pow(16, 5) == 1048576);
        assert(spec_pow(10, 6) == 1000000);
    }
    let n = b.len();
    let last = b[k + d - 1];
    if hex {
        prev * 16 + hex_value(last)
    } else {
        prev * 10 + (last - 48) as u32
    }
}

/// The end and decoded scalar of a numeric character reference at `index`.
pub fn parse_character_reference(b: &[u8], index: usize) -> (r: Option<(usize, char)>)
    requires
        index <= b@.len(),
    ensures
        match spec_numeric_reference(b@, index as int) {
            Some((e, v)) => r matches Some(x) && x.0 == e && x.1 as u32 == v,
            None => r is None,
        },
{
    let n = b.len();
    if n - index >= 3 && b[index] == 38u8 && b[index + 1] == 35u8 && (b[index + 2] == 120u8 || b[index + 2] == 88u8) {
        let d = digits_at(b, index + 3, true);
        if d >= 1 && d <= 6 && index + 3 + d < n && b[index + 3 + d] == 59u8 {
            proof {
                lemma_digit_run_class(b@, index + 3, true);
            }
            let v = digits_value(b, index + 3, d, true);
            return Some((index + 3 + d + 1, character_reference_value(v)));
        }
        return None;
    }
    if n - index >= 2 && b[index] == 38u8 && b[index + 1] == 35u8 {
        let d = digits_at(b, index + 2, false);
        if d >= 1 && d <= 7 && index + 2 + d < n && b[index + 2 + d] == 59u8 {
            proof {
                lemma_digit_run_class(b@, index + 2, false);
            }
            let v = digits_value(b, index + 2, d, false);
            return Some((index + 2 + d + 1, character_reference_value(v)));
        }
        return None;
    }
    None
}

// ---------------------------------------------------------------------------
// Code spans.
// ---------------------------------------------------------------------------

/// The start of the first run of exactly `len` backticks at or after `c`,
/// scanning run by run.
pub open spec fn spec_code_close_from(b: Seq<u8>, c: int, len: nat) -> Option<int>
    decreases b.len() - c,
{
    if c < 0 || c >= b.len() {
        None
    } else if b[c] != 96u8 {
        spec_code_close_from(b, c + 1, len)
    } else {
        let r = spec_run_len(b, c, 96u8);
        if r == len {
            Some(c)
        } else if r == 0 || c + r > b.len() {
            None
        } else {
            spec_code_close_from(b, c + r, len)
        }
    }
}

fn find_code_span_close(b: &[u8], start: usize, len: usize) -> (r: Option<usize>)
    ensures
        r matches Some(c) ==> spec_code_close_from(b@, start as int, len as nat) == Some(c as int) && start <= c
            && c + len <= b@.len(),
        r is None ==> spec_code_close_from(b@, start as int, len as nat) is None,
{
    let n = b.len();
    let mut c = start;
    while c < n
        invariant
            n == b@.len(),
            start <= c,
            spec_code_close_from(b@, c as int, len as nat) == spec_code_close_from(b@, start as int, len as nat),
        decreases n - c,
    {
        if b[c] != 96u8 {
            c = c + 1;
        } else {
            let r = run_len(b, c, 96u8);
            if r == len {
                return Some(c);
            }
            c = c + r;
        }
    }
    None
}

/// Code-span content with each line ending (`\r\n`, `\r` or `\n`) as a space.
pub open spec fn spec_code_lines_as_spaces(b: Seq<u8>, k: int) -> Seq<u8>
    decreases b.len() - k,
{
    if k < 0 || k >= b.len() {
        Seq::empty()
    } else if b[k] == 13u8 && k + 1 < b.len() && b[k + 1] == 10u8 {
        seq![32u8] + spec_code_lines_as_spaces(b, k + 2)
    } else if b[k] == 13u8 || b[k] == 10u8 {
        seq![32u8] + spec_code_lines_as_spaces(b, k + 1)
    } else {
        seq![b[k]] + spec_code_lines_as_spaces(b, k + 1)
    }
}

/// The value of a code span: line endings as spaces, then one space stripped
/// from each end when both ends are spaces and the content is not all spaces.
pub open spec fn spec_normalize_code_span(raw: Seq<u8>) -> Seq<u8> {
    let s = spec_code_lines_as_spaces(raw, 0);
    if s.len() > 0 && s[0] == 32u8 && s.last() == 32u8 && exists|k: int| 0 <= k < s.len() && s[k] != 32u8 {
        s.subrange(1, s.len() - 1)
    } else {
        s
    }
}

/// Line endings in code-span content, taken one at a time, leave no line-ending
/// byte behind.
proof fn lemma_lines_as_spaces_no_line_ending(b: Seq<u8>, k: int)
    ensures
        forall|j: int|
            0 <= j < spec_code_lines_as_spaces(b, k).len() ==> #[trigger] spec_code_lines_as_spaces(b, k)[j]
                != 10u8 && spec_code_lines_as_spaces(b, k)[j] != 13u8,
    decreases b.len() - k,
{
    if 0 <= k < b.len() {
        if b[k] == 13u8 && k + 1 < b.len() && b[k + 1] == 10u8 {
            lemma_lines_as_spaces_no_line_ending(b, k + 2);
        } else {
            lemma_lines_as_spaces_no_line_ending(b, k + 1);
        }
        let rest = if b[k] == 13u8 && k + 1 < b.len() && b[k + 1] == 10u8 {
            spec_code_lines_as_spaces(b, k + 2)
        } else {
            spec_code_lines_as_spaces(b, k + 1)
        };
        let s = spec_code_lines_as_spaces(b, k);
        assert forall|j: int| 0 <= j < s.len() implies #[trigger] s[j] != 10u8 && s[j] != 13u8 by {
            if j > 0 {
                assert(s[j] == rest[j - 1]);
            }
        }
    }
}

/// Code-span content without line endings is kept byte for byte.
pub proof fn lemma_lines_as_spaces_keeps_other_bytes(b: Seq<u8>, k: int)
    requires
        0 <= k <= b.len(),
        forall|j: int| k <= j < b.len() ==> #[trigger] b[j] != 10u8 && b[j] != 13u8,
    ensures
        spec_code_lines_as_spaces(b, k) == b.subrange(k, b.len() as int),
    decreases b.len() - k,
{
    if k < b.len() {
        lemma_lines_as_spaces_keeps_other_bytes(b, k + 1);
        assert(spec_code_lines_as_spaces(b, k) =~= b.subrange(k, b.len() as int));
    } else {
        assert(b.subrange(k, b.len() as int) =~= Seq::<u8>::empty());
    }
}

/// A code span's value holds no line-ending byte: every `\n`, `\r` or `\r\n`
/// of its source became a space.
pub proof fn lemma_code_span_value_has_no_line_ending(raw: Seq<u8>)
    ensures
        forall|j: int|
            0 <= j < spec_normalize_code_span(raw).len() ==> #[trigger] spec_normalize_code_span(raw)[j] != 10u8
                && spec_normalize_code_span(raw)[j] != 13u8,
{
    lemma_lines_as_spaces_no_line_ending(raw, 0);
    let s = spec_code_lines_as_spaces(raw, 0);
    let v = spec_normalize_code_span(raw);
    assert forall|j: int| 0 <= j < v.len() implies #[trigger] v[j] != 10u8 && v[j] != 13u8 by {
        if v != s {
            assert(v[j] == s[j + 1]);
        }
    }
}

fn normalize_code_span(raw: &[u8]) -> (r: Vec<u8>)
    ensures
        r@ == spec_normalize_code_span(raw@),
{
    let n = raw.len();
    let mut s: Vec<u8> = Vec::new();
    let mut k: usize = 0;
    while k < n
        invariant
            n == raw@.len(),
            k <= n,
            s@ + spec_code_lines_as_spaces(raw@, k as int) == spec_code_lines_as_spaces(raw@, 0),
        decreases n - k,
    {
        let ghost before = s@;
        if raw[k] == 13u8 && k + 1 < n && raw[k + 1] == 10u8 {
            s.push(32u8);
            assert(s@ + spec_code_lines_as_spaces(raw@, k + 2) =~= before + spec_code_lines_as_spaces(raw@, k as int));
            k = k + 2;
        } else {
            if raw[k] == 13u8 || raw[k] == 10u8 {
                s.push(32u8);
            } else {
                s.push(raw[k]);
            }
            assert(s@ + spec_code_lines_as_spaces(raw@, k + 1) =~= before + spec_code_lines_as_spaces(raw@, k as int));
            k = k + 1;
        }
    }
    assert(s@ =~= s@ + spec_code_lines_as_spaces(raw@, k as int));
    let sn = s.len();
    if sn > 0 && s[0] == 32u8 && s[sn - 1] == 32u8 {
        let mut j: usize = 0;
        while j < sn
            invariant
                sn == s@.len(),
                s@ == spec_code_lines_as_spaces(raw@, 0),
                sn > 0,
                s@[0] == 32u8,
                s@[sn - 1] == 32u8,
                j <= sn,
                forall|i: int| 0 <= i < j ==> s@[i] == 32u8,
            decreases sn - j,
        {
            if s[j] != 32u8 {
                assert(0 <= j < s@.len() && s@[j as int] != 32u8);
                return copy_range(s.as_slice(), 1, sn - 1);
            }
            j = j + 1;
        }
    }
    s
}

/// Just past the closing backtick run of the code span opened at `index`: a
/// later run of exactly as many backticks.
pub open spec fn spec_code_span_end(b: Seq<u8>, index: int) -> Option<usize> {
    let len = spec_run_len(b, index, 96u8);
    match spec_code_close_from(b, index + len, len) {
        Some(c) => Some((c + len) as usize),
        None => None,
    }
}

/// The end of the code span whose opening backtick run starts at `index`, if
/// the run is closed.
pub fn code_span_end(b: &[u8], index: usize) -> (r: Option<usize>)
    requires
        index < b@.len(),
        b@[index as int] == 96u8,
    ensures
        r == spec_code_span_end(b@, index as int),
        r matches Some(e) ==> index < e <= b@.len(),
{
    let n = b.len();
    let len = run_len(b, index, 96u8);
    match find_code_span_close(b, index + len, len) {
        Some(close) => Some(close + len),
        None => None,
    }
}

// ---------------------------------------------------------------------------
// The inline scan.
// ---------------------------------------------------------------------------

/// Appends a text node for the pending text, if there is any.
fn flush_text(nodes: &mut Vec<Inline>, text: &mut Vec<u8>, text_start: usize, end: usize)
    ensures
        final(text)@.len() == 0,
        old(text)@.len() == 0 ==> final(nodes)@ == old(nodes)@,
        old(text)@.len() > 0 ==> final(nodes)@.len() == old(nodes)@.len() + 1,
{
    if text.len() > 0 {
        let value = string_from_bytes(text.as_slice());
        nodes.push(Inline::Text(Text { meta: NodeMeta::new(Some(Span::new(text_start, end))), value }));
        *text = Vec::new();
    }
}

/// The number of spaces and tabs that end `text`.
fn trailing_space_count(text: &[u8]) -> (r: usize)
    ensures
        r <= text@.len(),
        forall|k: int| text@.len() - r <= k < text@.len() ==> text@[k] == 32u8 || text@[k] == 9u8,
        r < text@.len() ==> !(text@[text@.len() - r - 1] == 32u8 || text@[text@.len() - r - 1] == 9u8),
{
    let n = text.len();
    let mut k = n;
    while k > 0 && (text[k - 1] == 32u8 || text[k - 1] == 9u8)
        invariant
            k <= n == text@.len(),
            forall|j: int| k <= j < n ==> text@[j] == 32u8 || text@[j] == 9u8,
        decreases k,
    {
        k = k - 1;
    }
    n - k
}

/// Whether the last `trailing` bytes of `text` are at least two spaces (a tab
/// among them makes the break soft).
fn is_hard_break_suffix(text: &[u8], trailing: usize) -> (r: bool)
    requires
        trailing <= text@.len(),
    ensures
        r == (trailing >= 2 && forall|k: int| text@.len() - trailing <= k < text@.len() ==> text@[k] == 32u8),
{
    if trailing < 2 {
        return false;
    }
    let n = text.len();
    let mut k = n - trailing;
    while k < n
        invariant
            n == text@.len(),
            n - trailing <= k <= n,
            forall|j: int| n - trailing <= j < k ==> text@[j] == 32u8,
        decreases n - k,
    {
        if text[k] != 32u8 {
            return false;
        }
        k = k + 1;
    }
    true
}

/// The UTF-8 encoding of the scalar `v`.
pub open spec fn spec_utf8(v: u32) -> Seq<u8> {
    if v < 0x80 {
        seq![v as u8]
    } else if v < 0x800 {
        seq![(0xC0 + v / 64) as u8, (0x80 + v % 64) as u8]
    } else if v < 0x10000 {
        seq![(0xE0 + v / 4096) as u8, (0x80 + (v / 64) % 64) as u8, (0x80 + v % 64) as u8]
    } else {
        seq![
            (0xF0 + v / 262144) as u8,
            (0x80 + (v / 4096) % 64) as u8,
            (0x80 + (v / 64) % 64) as u8,
            (0x80 + v % 64) as u8,
        ]
    }
}

/// Appends the UTF-8 encoding of `c`.
pub fn push_char_bytes(out: &mut Vec<u8>, c: char)
    ensures
        final(out)@ == old(out)@ + spec_utf8(c as u32),
{
    let v = c as u32;
    if v < 0x80 {
        out.push(v as u8);
    } else if v < 0x800 {
        out.push((0xC0 + v / 64) as u8);
        out.push((0x80 + v % 64) as u8);
    } else if v < 0x10000 {
        out.push((0xE0 + v / 4096) as u8);
        out.push((0x80 + (v / 64) % 64) as u8);
        out.push((0x80 + v % 64) as u8);
    } else {
        out.push((0xF0 + v / 262144) as u8);
        out.push((0x80 + (v / 4096) % 64) as u8);
        out.push((0x80 + (v / 64) % 64) as u8);
        out.push((0x80 + v % 64) as u8);
    }
}

/// Parses the inline content `input` whose first byte sits at `base_offset`
/// in the document: backslash escapes of ASCII punctuation, numeric character
/// references, code spans, line endings (hard with a trailing backslash or
/// two spaces, soft otherwise), emphasis, strong emphasis and (when enabled)
/// strikethrough, inline links and images, autolinks and raw inline HTML;
/// everything else is text.
pub fn parse_inlines(
    input: &[u8],
    base_offset: usize,
    options: &ParseContext,
    diagnostics: &mut Vec<Diagnostic>,
) -> (r: Vec<Inline>)
    requires
        base_offset + input@.len() <= usize::MAX,
    ensures
        spec_diagnostics_off(options.constructs) ==> final(diagnostics)@ == old(diagnostics)@,
        input@.len() == 0 ==> r@.len() == 0,
{
    let ghost d0 = diagnostics@;
    parse_inlines_with_context(input, base_offset, options, true, diagnostics)
}

/// Whether `label` is a usable reference label whose normalized identifier is
/// among `definitions`.
pub open spec fn spec_definition_exists(definitions: Seq<String>, label: Seq<u8>) -> bool {
    label.len() > 0 && crate::links::spec_within_limit_from(label, 0, label.len() as int, 0) && exists|k: int|
        0 <= k < definitions.len() && vstd::utf8::encode_utf8(#[trigger] definitions[k]@) == vstd::utf8::encode_utf8(
            crate::label::spec_normalize_label(label),
        )
}

/// Whether `label` names one of `definitions`: it is non-empty, has at most
/// 999 characters, and its normalized form is among them.
fn definition_exists(definitions: &Vec<String>, label: &[u8]) -> (r: bool)
    ensures
        r ==> label@.len() > 0,
        r == spec_definition_exists(definitions@, label@),
{
    if label.len() == 0 || !label_within_limit(label, 0, label.len()) {
        return false;
    }
    let identifier = normalize_label(label);
    let key = string_bytes(&identifier);
    let mut k: usize = 0;
    while k < definitions.len()
        invariant
            k <= definitions@.len(),
            label@.len() > 0,
            crate::links::spec_within_limit_from(label@, 0, label@.len() as int, 0),
            key@ == vstd::utf8::encode_utf8(crate::label::spec_normalize_label(label@)),
            forall|j: int|
                0 <= j < k ==> vstd::utf8::encode_utf8(#[trigger] definitions@[j]@) != vstd::utf8::encode_utf8(
                    crate::label::spec_normalize_label(label@),
                ),
        decreases definitions@.len() - k,
    {
        if bytes_equal(string_bytes(&definitions[k]), key) {
            assert(vstd::utf8::encode_utf8(definitions@[k as int]@) == vstd::utf8::encode_utf8(
                crate::label::spec_normalize_label(label@),
            ));
            return true;
        }
        k = k + 1;
    }
    false
}

/// A reference to a definition: the full `[text][label]`, collapsed
/// `[text][]` or shortcut `[text]` form, its normalized identifier, the label
/// as written, and the range of the source it covers.
fn reference_parts(input: &[u8], label_start: usize, label_end: usize, options: &ParseContext) -> (r: Option<
    (usize, Vec<u8>, ReferenceKind),
>)
    requires
        label_start <= label_end < input@.len(),
    ensures
        r matches Some(x) ==> label_end < x.0 <= input@.len(),
        ({
            let after = label_end + 1;
            let source = input@.subrange(label_start as int, label_end as int);
            let defs = options.definitions@;
            if after < input@.len() && input@[after] == 91u8 {
                match crate::links::spec_reference_label_scan(input@, after, after + 1) {
                    None => r is None,
                    Some(c) => {
                        let label = input@.subrange(after + 1, c as int);
                        let identifier = if label.len() == 0 {
                            source
                        } else {
                            label
                        };
                        if spec_definition_exists(defs, identifier) {
                            r matches Some(x) && x.0 == c + 1 && x.1@ == identifier && x.2 == (if label.len() == 0 {
                                ReferenceKind::Collapsed
                            } else {
                                ReferenceKind::Full
                            })
                        } else {
                            r is None
                        }
                    },
                }
            } else if spec_definition_exists(defs, source) {
                r matches Some(x) && x.0 == after && x.1@ == source && x.2 == ReferenceKind::Shortcut
            } else {
                r is None
            }
        }),
{
    let n = input.len();
    let after_label = label_end + 1;
    let label_source = copy_range(input, label_start, label_end);
    if after_label < n && input[after_label] == 91u8 {
        let close = match find_reference_label_end(input, after_label) {
            Some(c) => c,
            None => return None,
        };
        let label = copy_range(input, after_label + 1, close);
        let (identifier, kind) = if label.len() == 0 {
            (label_source, ReferenceKind::Collapsed)
        } else {
            (label, ReferenceKind::Full)
        };
        if definition_exists(&options.definitions, identifier.as_slice()) {
            return Some((close + 1, identifier, kind));
        }
        return None;
    }
    if definition_exists(&options.definitions, label_source.as_slice()) {
        return Some((after_label, label_source, ReferenceKind::Shortcut));
    }
    None
}

/// Whether `node` is a link or a reference link, or holds one in the children
/// of emphasis, strong, delete or a text directive's label.
pub open spec fn spec_inline_has_link(node: Inline) -> bool
    decreases node,
{
    match node {
        Inline::Link(_) | Inline::LinkReference(_) => true,
        Inline::Emphasis(n) => spec_contains_link(n.children@),
        Inline::Strong(n) => spec_contains_link(n.children@),
        Inline::Delete(n) => spec_contains_link(n.children@),
        Inline::TextDirective(n) => spec_contains_link(n.label@),
        _ => false,
    }
}

/// Whether some node of `s` is or holds a link.
pub open spec fn spec_contains_link(s: Seq<Inline>) -> bool
    decreases s,
{
    exists|k: int| 0 <= k < s.len() && spec_inline_has_link(#[trigger] s[k])
}

/// Whether `inlines` holds a link, directly or inside emphasis, strong
/// emphasis, strikethrough or a text directive's label.
fn contains_link_inline(inlines: &[Inline]) -> (r: bool)
    ensures
        r == spec_contains_link(inlines@),
    decreases inlines@, 1nat,
{
    let mut i: usize = 0;
    while i < inlines.len()
        invariant
            i <= inlines@.len(),
            forall|j: int| 0 <= j < i ==> !spec_inline_has_link(#[trigger] inlines@[j]),
        decreases inlines@.len() - i,
    {
        if inline_has_link(&inlines[i]) {
            return true;
        }
        i = i + 1;
    }
    false
}

/// Whether `inline` is a link or holds one (see [`contains_link_inline`]).
fn inline_has_link(inline: &Inline) -> (r: bool)
    ensures
        r == spec_inline_has_link(*inline),
    decreases *inline, 0nat,
{
    match inline {
        Inline::Link(_) | Inline::LinkReference(_) => true,
        Inline::Emphasis(n) => contains_link_inline(n.children.as_slice()),
        Inline::Strong(n) => contains_link_inline(n.children.as_slice()),
        Inline::Delete(n) => contains_link_inline(n.children.as_slice()),
        Inline::TextDirective(n) => contains_link_inline(n.label.as_slice()),
        _ => false,
    }
}

/// A wikilink `[[...]]` at `index`: where it ends, its target and its label,
/// each unescaped (the title is after or before the pipe, as configured).
pub open spec fn spec_wikilink(b: Seq<u8>, index: int, c: Constructs) -> Option<(int, Seq<u8>, Seq<u8>)> {
    let after_pipe = c.wikilink_title_after_pipe;
    if !after_pipe && !c.wikilink_title_before_pipe {
        None
    } else if !(index + 1 < b.len() && b[index] == 91u8 && b[index + 1] == 91u8) {
        None
    } else {
        match crate::delimited::spec_wikilink_close_scan(b, index + 2) {
            None => None,
            Some(close) => {
                let source_len = close - (index + 2);
                let (target, label) = match crate::delimited::spec_separator_scan(b, index + 2, close as int) {
                    Some(separator) => {
                        let before = crate::links::spec_unescape_from(b.subrange(index + 2, separator as int), 0, true);
                        let after = crate::links::spec_unescape_from(b.subrange(separator + 1, close as int), 0, true);
                        if after_pipe {
                            (before, after)
                        } else {
                            (after, before)
                        }
                    },
                    None => {
                        let whole = crate::links::spec_unescape_from(b.subrange(index + 2, close as int), 0, true);
                        (whole, whole)
                    },
                };
                if source_len == 0 || source_len > 999 || target.len() == 0 {
                    None
                } else {
                    Some((close + 2, target, label))
                }
            },
        }
    }
}

/// Parses a wikilink `[[target|title]]` at `index` (with the title after or
/// before the pipe, as configured): where it ends and the node.
fn parse_wikilink(input: &[u8], index: usize, base_offset: usize, options: &ParseContext) -> (r: Option<
    (usize, Inline),
>)
    requires
        index < input@.len(),
        base_offset + input@.len() <= usize::MAX,
    ensures
        r matches Some(x) ==> index < x.0 <= input@.len(),
        r is Some <==> spec_wikilink(input@, index as int, options.constructs) is Some,
        r matches Some(x) ==> {
            let (end, target, label) = spec_wikilink(input@, index as int, options.constructs)->0;
            &&& x.0 == end
            &&& x.1 is WikiLink
            &&& x.1->WikiLink_0.target@ == crate::text::spec_lossy_utf8(target)
            &&& x.1->WikiLink_0.label@ == crate::text::spec_lossy_utf8(label)
            &&& x.1->WikiLink_0.meta.span is Some
            &&& x.1->WikiLink_0.meta.span->0.start == base_offset + index
            &&& x.1->WikiLink_0.meta.span->0.end == base_offset + end
        },
{
    let n = input.len();
    let after_pipe = options.constructs.wikilink_title_after_pipe;
    if !after_pipe && !options.constructs.wikilink_title_before_pipe {
        return None;
    }
    if !(index + 1 < n && input[index] == 91u8 && input[index + 1] == 91u8) {
        return None;
    }
    let close = find_wikilink_close(input, index + 2)?;
    let source_len = close - (index + 2);
    if source_len == 0 || source_len > 999 {
        return None;
    }
    let (target, label) = match find_wikilink_separator(input, index + 2, close) {
        Some(separator) => {
            let before = unescape_ascii_punctuation(input, index + 2, separator);
            let after = unescape_ascii_punctuation(input, separator + 1, close);
            if after_pipe {
                (before, after)
            } else {
                (after, before)
            }
        },
        None => (unescape_ascii_punctuation(input, index + 2, close), unescape_ascii_punctuation(input, index + 2, close)),
    };
    if target.len() == 0 {
        return None;
    }
    let end = close + 2;
    let label_order = if after_pipe {
        WikiLinkLabelOrder::AfterPipe
    } else {
        WikiLinkLabelOrder::BeforePipe
    };
    Some(
        (
            end,
            Inline::WikiLink(
                WikiLink {
                    meta: NodeMeta::new(Some(Span::new(base_offset + index, base_offset + end))),
                    target: string_from_bytes(target.as_slice()),
                    label: string_from_bytes(label.as_slice()),
                    label_order,
                },
            ),
        ),
    )
}

/// Parses an inline link `[text](destination "title")` at `index`: where it
/// ends and the link, whose text is parsed with links disabled. Link text
/// that itself holds a link refuses the outer link.
fn parse_link(
    input: &[u8],
    index: usize,
    base_offset: usize,
    options: &ParseContext,
    diagnostics: &mut Vec<Diagnostic>,
) -> (r: Option<
    (usize, Inline),
>)
    requires
        index < input@.len(),
        base_offset + input@.len() <= usize::MAX,
    ensures
        spec_diagnostics_off(options.constructs) ==> final(diagnostics)@ == old(diagnostics)@,
        r matches Some(x) ==> index < x.0 <= input@.len(),
    decreases input@.len(), 1nat,
{
    let ghost d0 = diagnostics@;
    let label_end = match find_link_label_end(input, index) {
        Some(e) => e,
        None => return None,
    };
    let label = copy_range(input, index + 1, label_end);
    let inner = parse_inlines_with_context(label.as_slice(), base_offset + index + 1, options, true, diagnostics);
    if contains_link_inline(inner.as_slice()) {
        return None;
    }
    let after_label = label_end + 1;
    if after_label < input.len() && input[after_label] == 40u8 {
        match parse_link_resource(input, after_label) {
            Some((close, resource)) => {
                let children = parse_inlines_with_context(label.as_slice(), base_offset + index + 1, options, false, diagnostics);
                let title = match resource.title {
                    Some(t) => Some(string_from_bytes(t.as_slice())),
                    None => None,
                };
                return Some(
                    (
                        close,
                        Inline::Link(
                            Link {
                                meta: NodeMeta::new(Some(Span::new(base_offset + index, base_offset + close))),
                                destination: string_from_bytes(resource.destination.as_slice()),
                                destination_kind: resource.destination_kind,
                                title,
                                title_kind: resource.title_kind,
                                children,
                            },
                        ),
                    ),
                );
            },
            None => {},
        }
    }
    match reference_parts(input, index + 1, label_end, options) {
        Some((end, identifier, kind)) => {
            let children = parse_inlines_with_context(label.as_slice(), base_offset + index + 1, options, false, diagnostics);
            Some(
                (
                    end,
                    Inline::LinkReference(
                        LinkReference {
                            meta: NodeMeta::new(Some(Span::new(base_offset + index, base_offset + end))),
                            identifier: normalize_label(identifier.as_slice()),
                            label: string_from_bytes(identifier.as_slice()),
                            kind,
                            children,
                        },
                    ),
                ),
            )
        },
        None => None,
    }
}

/// Parses an inline image `![alt](source "title")` at `index` (the `!`):
/// where it ends and the image, whose alternative text is parsed as inline
/// content.
fn parse_image(
    input: &[u8],
    index: usize,
    base_offset: usize,
    options: &ParseContext,
    diagnostics: &mut Vec<Diagnostic>,
) -> (r: Option<
    (usize, Inline),
>)
    requires
        index + 1 < input@.len(),
        base_offset + input@.len() <= usize::MAX,
    ensures
        spec_diagnostics_off(options.constructs) ==> final(diagnostics)@ == old(diagnostics)@,
        r matches Some(x) ==> index < x.0 <= input@.len(),
    decreases input@.len(), 1nat,
{
    let ghost d0 = diagnostics@;
    let label_end = match find_link_label_end(input, index + 1) {
        Some(e) => e,
        None => return None,
    };
    let after_label = label_end + 1;
    if after_label < input.len() && input[after_label] == 40u8 {
        match parse_link_resource(input, after_label) {
            Some((close, resource)) => {
                let alt_source = copy_range(input, index + 2, label_end);
                let alt = parse_inlines_with_context(alt_source.as_slice(), base_offset + index + 2, options, true, diagnostics);
                let title = match resource.title {
                    Some(t) => Some(string_from_bytes(t.as_slice())),
                    None => None,
                };
                return Some(
                    (
                        close,
                        Inline::Image(
                            Image {
                                meta: NodeMeta::new(Some(Span::new(base_offset + index, base_offset + close))),
                                destination: string_from_bytes(resource.destination.as_slice()),
                                destination_kind: resource.destination_kind,
                                title,
                                title_kind: resource.title_kind,
                                alt,
                            },
                        ),
                    ),
                );
            },
            None => {
                return None;
            },
        }
    }
    match reference_parts(input, index + 2, label_end, options) {
        Some((end, identifier, kind)) => {
            let alt_source = copy_range(input, index + 2, label_end);
            let alt = parse_inlines_with_context(alt_source.as_slice(), base_offset + index + 2, options, true, diagnostics);
            Some(
                (
                    end,
                    Inline::ImageReference(
                        ImageReference {
                            meta: NodeMeta::new(Some(Span::new(base_offset + index, base_offset + end))),
                            identifier: normalize_label(identifier.as_slice()),
                            label: string_from_bytes(identifier.as_slice()),
                            kind,
                            alt,
                        },
                    ),
                ),
            )
        },
        None => None,
    }
}

/// Whether `input[start..end]` holds only whitespace.
fn all_whitespace_between(input: &[u8], start: usize, end: usize) -> (r: bool)
    requires
        start <= end <= input@.len(),
{
    let part = copy_range(input, start, end);
    crate::text::is_all_whitespace(part.as_slice())
}

/// Steps back from `k` over at most three continuation bytes, to where the
/// scalar that holds `k` starts.
pub open spec fn spec_scalar_start_back(b: Seq<u8>, k: int, steps: int) -> int
    decreases k,
{
    if k > 0 && steps < 3 && 0x80 <= b[k] < 0xC0 {
        spec_scalar_start_back(b, k - 1, steps + 1)
    } else {
        k
    }
}

/// Whether a text directive may start at `index`: at the start, after `(`,
/// `[` or `{`, or after a whitespace scalar.
pub open spec fn spec_text_directive_may_start(b: Seq<u8>, index: int) -> bool {
    index == 0 || b[index - 1] == 40u8 || b[index - 1] == 91u8 || b[index - 1] == 123u8 || {
        let start = spec_scalar_start_back(b, index - 1, 0);
        crate::text::spec_ws_len_at(b, start) > 0 && start + crate::text::spec_ws_len_at(b, start) == index
    }
}

/// Whether the scalar that ends just before `index` is whitespace or one of
/// `(`, `[`, `{` (or there is none).
fn text_directive_may_start(input: &[u8], index: usize) -> (r: bool)
    requires
        index <= input@.len(),
    ensures
        r == spec_text_directive_may_start(input@, index as int),
{
    if index == 0 {
        return true;
    }
    let c = input[index - 1];
    if c == 40u8 || c == 91u8 || c == 123u8 {
        return true;
    }
    let mut start = index - 1;
    let mut steps: usize = 0;
    while start > 0 && steps < 3 && input[start] >= 0x80 && input[start] < 0xC0
        invariant
            start < index <= input@.len(),
            spec_scalar_start_back(input@, start as int, steps as int) == spec_scalar_start_back(
                input@,
                index - 1,
                0,
            ),
        decreases start,
    {
        start = start - 1;
        steps = steps + 1;
    }
    let w = whitespace_len_at(input, start);
    w > 0 && start + w == index
}

/// Parses a text directive `:name[label]{attrs}` at `index`, after
/// whitespace or an opening bracket. An opener with a valid name whose label
/// or attributes fail reports a diagnostic.
fn parse_text_directive(
    input: &[u8],
    index: usize,
    base_offset: usize,
    options: &ParseContext,
    diagnostics: &mut Vec<Diagnostic>,
) -> (r: Option<(usize, Inline)>)
    requires
        index < input@.len(),
        base_offset + input@.len() <= usize::MAX,
    ensures
        spec_diagnostics_off(options.constructs) ==> final(diagnostics)@ == old(diagnostics)@,
        r matches Some(x) ==> index < x.0 <= input@.len(),
        r is Some <==> options.constructs.directive_text && !(index + 1 < input@.len() && input@[index + 1] == 58u8)
            && spec_text_directive_may_start(input@, index as int) && crate::directive::spec_opener_ok(
            input@,
            index + 1,
            input@.len() as int,
        ),
        r matches Some(x) ==> {
            &&& x.1 is TextDirective
            &&& x.1->TextDirective_0.name@ == crate::text::spec_lossy_utf8(
                input@.subrange(index + 1, crate::directive::spec_name_end(input@, index + 1, input@.len() as int)),
            )
            &&& x.1->TextDirective_0.meta.span is Some
            &&& x.1->TextDirective_0.meta.span->0.start == base_offset + index
            &&& x.1->TextDirective_0.meta.span->0.end == base_offset + x.0
        },
    decreases input@.len(), 1nat,
{
    let n = input.len();
    if !options.constructs.directive_text {
        return None;
    }
    if index + 1 < n && input[index + 1] == 58u8 {
        return None;
    }
    if !text_directive_may_start(input, index) {
        return None;
    }
    let opener = match parse_directive_opener(input, index + 1, n) {
        Some(o) => o,
        None => {
            if directive_opener_looks_malformed(input, index + 1, n) {
                diagnostics.push(
                    Diagnostic::new(
                        DiagnosticSeverity::Error,
                        DiagnosticCode::InvalidDirectiveName,
                        Span::new(base_offset + index, base_offset + n),
                        "text directive opener is malformed",
                    ),
                );
            }
            return None;
        },
    };
    let label = match opener.label {
        Some((s, e)) => parse_inner(input, s, e, base_offset, options, true, diagnostics),
        None => Vec::new(),
    };
    let end = opener.end;
    Some(
        (
            end,
            Inline::TextDirective(
                TextDirective {
                    meta: NodeMeta::new(Some(Span::new(base_offset + index, base_offset + end))),
                    name: string_from_bytes(opener.name.as_slice()),
                    label,
                    attributes: opener.attributes,
                },
            ),
        ),
    )
}

/// Parses `input[start..end]`, a part strictly shorter than `input`, as the
/// content of an enclosing inline node.
fn parse_inner(
    input: &[u8],
    start: usize,
    end: usize,
    base_offset: usize,
    options: &ParseContext,
    allow_links: bool,
    diagnostics: &mut Vec<Diagnostic>,
) -> (r: Vec<Inline>)
    requires
        start <= end <= input@.len(),
        end - start < input@.len(),
        base_offset + input@.len() <= usize::MAX,
    ensures
        spec_diagnostics_off(options.constructs) ==> final(diagnostics)@ == old(diagnostics)@,
    decreases input@.len(), 0nat,
{
    let ghost d0 = diagnostics@;
    let inner = copy_range(input, start, end);
    parse_inlines_with_context(inner.as_slice(), base_offset + start, options, allow_links, diagnostics)
}

/// The inline scan, with links allowed or not (they are not inside link
/// text).
/// The autolink node of a literal autolink spanning `input[index..end]`.
fn literal_autolink_node(input: &[u8], index: usize, end: usize, destination: &Vec<u8>, base_offset: usize) -> (r: Inline)
    requires
        index <= end <= input@.len(),
        base_offset + input@.len() <= usize::MAX,
    ensures
        r is Autolink,
        r->Autolink_0.meta.span is Some,
        r->Autolink_0.meta.span->0.start == base_offset + index,
        r->Autolink_0.meta.span->0.end == base_offset + end,
        r->Autolink_0.destination@ == crate::text::spec_lossy_utf8(destination@),
        r->Autolink_0.kind is GfmLiteral,
        r->Autolink_0.kind matches AutolinkKind::GfmLiteral { original } ==> original@ == crate::text::spec_lossy_utf8(
            input@.subrange(index as int, end as int),
        ),
{
    Inline::Autolink(
        Autolink {
            meta: NodeMeta::new(Some(Span::new(base_offset + index, base_offset + end))),
            destination: string_from_bytes(destination.as_slice()),
            kind: AutolinkKind::GfmLiteral { original: string_from_range(input, index, end) },
        },
    )
}

#[verifier::rlimit(100)]
fn parse_inlines_with_context(
    input: &[u8],
    base_offset: usize,
    options: &ParseContext,
    allow_links: bool,
    diagnostics: &mut Vec<Diagnostic>,
) -> (r: Vec<Inline>)
    requires
        base_offset + input@.len() <= usize::MAX,
    ensures
        spec_diagnostics_off(options.constructs) ==> final(diagnostics)@ == old(diagnostics)@,
        input@.len() == 0 ==> r@.len() == 0,
    decreases input@.len(), 2nat,
{
    let ghost d0 = diagnostics@;
    let n = input.len();
    let mut nodes: Vec<Inline> = Vec::new();
    let mut text: Vec<u8> = Vec::new();
    let mut text_start: usize = base_offset;
    let mut index: usize = 0;
    let mut delimiters: Vec<DelimMarker> = Vec::new();
    let literal_gfm = options.constructs.gfm_autolink_literal;
    let literal_relaxed = options.constructs.relaxed_autolinks;
    let literal_on = (literal_gfm || literal_relaxed) && allow_links;
    let gfm_profile = options.constructs == Constructs::gfm();
    while index < n
        invariant
            spec_diagnostics_off(options.constructs) ==> diagnostics@ == d0,
            d0 == old(diagnostics)@,
            n == input@.len(),
            index <= n,
            base_offset + n <= usize::MAX,
            n == 0 ==> nodes@.len() == 0 && text@.len() == 0 && delimiters@.len() == 0,
        decreases n - index,
    {
        let c = input[index];
        if c == 92u8 && index + 1 < n && is_ascii_punctuation(input[index + 1]) {
            let e = input[index + 1];
            if options.parse.preserve_character_escapes {
                flush_text(&mut nodes, &mut text, text_start, base_offset + index);
                nodes.push(
                    Inline::Escape(
                        Escape {
                            meta: NodeMeta::new(Some(Span::new(base_offset + index, base_offset + index + 2))),
                            value: e as char,
                        },
                    ),
                );
                index = index + 2;
                continue;
            }
            if text.len() == 0 {
                text_start = base_offset + index;
            }
            text.push(e);
            index = index + 2;
            continue;
        }
        if c == 38u8 {
            match parse_character_reference(input, index) {
                Some((end, value)) => {
                    if options.parse.preserve_character_references {
                        flush_text(&mut nodes, &mut text, text_start, base_offset + index);
                        let mut v: Vec<u8> = Vec::new();
                        push_char_bytes(&mut v, value);
                        nodes.push(
                            Inline::CharacterReference(
                                CharacterReference {
                                    meta: NodeMeta::new(Some(Span::new(base_offset + index, base_offset + end))),
                                    reference: crate::text::string_from_range(input, index, end),
                                    value: string_from_bytes(v.as_slice()),
                                },
                            ),
                        );
                        index = end;
                        continue;
                    }
                    if text.len() == 0 {
                        text_start = base_offset + index;
                    }
                    push_char_bytes(&mut text, value);
                    index = end;
                    continue;
                },
                None => {},
            }
        }
        if c == 10u8 {
            let tl = text.len();
            if tl > 0 && text[tl - 1] == 92u8 {
                text.pop();
                let at = if index > 0 {
                    index - 1
                } else {
                    0
                };
                flush_text(&mut nodes, &mut text, text_start, base_offset + at);
                nodes.push(
                    Inline::LineBreak(
                        LineBreak {
                            meta: NodeMeta::new(Some(Span::new(base_offset + at, base_offset + index + 1))),
                            kind: LineBreakKind::Backslash,
                        },
                    ),
                );
                index = index + 1;
                continue;
            }
            let trailing = trailing_space_count(text.as_slice());
            if is_hard_break_suffix(text.as_slice(), trailing) {
                let keep = text.len() - trailing;
                text = copy_range(text.as_slice(), 0, keep);
                let at = if index >= trailing {
                    index - trailing
                } else {
                    0
                };
                flush_text(&mut nodes, &mut text, text_start, base_offset + at);
                nodes.push(
                    Inline::LineBreak(
                        LineBreak {
                            meta: NodeMeta::new(Some(Span::new(base_offset + at, base_offset + index + 1))),
                            kind: LineBreakKind::Spaces,
                        },
                    ),
                );
                index = index + 1;
                continue;
            }
            if trailing > 0 {
                let keep = text.len() - trailing;
                text = copy_range(text.as_slice(), 0, keep);
            }
            flush_text(&mut nodes, &mut text, text_start, base_offset + index);
            nodes.push(
                Inline::SoftBreak(
                    SoftBreak { meta: NodeMeta::new(Some(Span::new(base_offset + index, base_offset + index + 1))) },
                ),
            );
            index = index + 1;
            continue;
        }
        if c == 96u8 {
            let len = run_len(input, index, 96u8);
            match find_code_span_close(input, index + len, len) {
                Some(close) => {
                    flush_text(&mut nodes, &mut text, text_start, base_offset + index);
                    let raw = copy_range(input, index + len, close);
                    let value = normalize_code_span(raw.as_slice());
                    let end = close + len;
                    nodes.push(
                        Inline::Code(
                            CodeInline {
                                meta: NodeMeta::new(Some(Span::new(base_offset + index, base_offset + end))),
                                value: string_from_bytes(value.as_slice()),
                                raw: string_from_bytes(raw.as_slice()),
                                fence_length: len,
                            },
                        ),
                    );
                    index = end;
                    continue;
                },
                None => {
                    if text.len() == 0 {
                        text_start = base_offset + index;
                    }
                    push_range(&mut text, input, index, index + len);
                    index = index + len;
                    continue;
                },
            }
        }
        let k2 = n - index >= 2;
        let k3 = n - index >= 3;
        if options.constructs.spoiler && c == 124u8 && k2 && input[index + 1] == 124u8 && !(k3 && input[index
            + 2] == 124u8) {
            match find_spoiler_close(input, index + 2) {
                Some(end) => {
                    flush_text(&mut nodes, &mut text, text_start, base_offset + index);
                    let children = parse_inner(input, index + 2, end, base_offset, options, allow_links, diagnostics);
                    nodes.push(
                        Inline::Spoiler(
                            Spoiler {
                                meta: NodeMeta::new(Some(Span::new(base_offset + index, base_offset + end + 2))),
                                children,
                            },
                        ),
                    );
                    index = end + 2;
                    continue;
                },
                None => {},
            }
        }
        if options.constructs.underline && c == 95u8 && k3 && input[index + 1] == 95u8 && input[index + 2] == 95u8
            && text_delimiter_can_open(input, index, 1, true) {
            match find_closing_delimiter(input, index + 3, &[95u8, 95u8, 95u8], true) {
                Some(end) => {
                    flush_text(&mut nodes, &mut text, text_start, base_offset + index);
                    let children = parse_inner(input, index + 3, end, base_offset, options, allow_links, diagnostics);
                    let underline = Inline::Underline(
                        Underline {
                            meta: NodeMeta::new(Some(Span::new(base_offset + index + 1, base_offset + end + 2))),
                            children,
                        },
                    );
                    nodes.push(
                        Inline::Emphasis(
                            Emphasis {
                                meta: NodeMeta::new(Some(Span::new(base_offset + index, base_offset + end + 3))),
                                children: vec![underline],
                            },
                        ),
                    );
                    index = end + 3;
                    continue;
                },
                None => {},
            }
        }
        if options.constructs.underline && c == 95u8 && k2 && input[index + 1] == 95u8 && text_delimiter_can_open(
            input,
            index,
            2,
            true,
        ) {
            match find_closing_delimiter(input, index + 2, &[95u8, 95u8], true) {
                Some(end) => {
                    flush_text(&mut nodes, &mut text, text_start, base_offset + index);
                    let children = parse_inner(input, index + 2, end, base_offset, options, allow_links, diagnostics);
                    nodes.push(
                        Inline::Underline(
                            Underline {
                                meta: NodeMeta::new(Some(Span::new(base_offset + index, base_offset + end + 2))),
                                children,
                            },
                        ),
                    );
                    index = end + 2;
                    continue;
                },
                None => {},
            }
        }
        if ((options.constructs.insert && c == 43u8) || (options.constructs.highlight && c == 61u8)) && k2 && input[
        index + 1] == c && !(k3 && input[index + 2] == c) && text_delimiter_can_open(input, index, 2, false) {
            match find_closing_delimiter(input, index + 2, &[c, c], false) {
                Some(end) => {
                    flush_text(&mut nodes, &mut text, text_start, base_offset + index);
                    let children = parse_inner(input, index + 2, end, base_offset, options, allow_links, diagnostics);
                    let meta = NodeMeta::new(Some(Span::new(base_offset + index, base_offset + end + 2)));
                    if c == 43u8 {
                        nodes.push(Inline::Insert(Insert { meta, children }));
                    } else {
                        nodes.push(Inline::Mark(Mark { meta, children }));
                    }
                    index = end + 2;
                    continue;
                },
                None => {},
            }
        }
        if options.constructs.subscript && c == 126u8 && starts_exact_byte_run(input, index, 126u8, 1)
            && !single_tilde_delete_takes_precedence(
            input,
            index,
            options.constructs.gfm_strikethrough,
            options.parse.single_tilde_strikethrough,
        ) {
            match find_simple_inline_close(input, index + 1, 126u8) {
                Some(end) => {
                    flush_text(&mut nodes, &mut text, text_start, base_offset + index);
                    let children = parse_inner(input, index + 1, end, base_offset, options, allow_links, diagnostics);
                    nodes.push(
                        Inline::Subscript(
                            Subscript {
                                meta: NodeMeta::new(Some(Span::new(base_offset + index, base_offset + end + 1))),
                                children,
                            },
                        ),
                    );
                    index = end + 1;
                    continue;
                },
                None => {},
            }
        }
        if options.constructs.inline_footnote && options.constructs.footnote_reference && c == 94u8 && k2 && input[
        index + 1] == 91u8 {
            match find_inline_footnote_end(input, index + 2) {
                Some(close) => {
                    if !all_whitespace_between(input, index + 2, close) {
                        flush_text(&mut nodes, &mut text, text_start, base_offset + index);
                        let children = parse_inner(input, index + 2, close, base_offset, options, allow_links, diagnostics);
                        nodes.push(
                            Inline::InlineFootnote(
                                InlineFootnote {
                                    meta: NodeMeta::new(Some(Span::new(base_offset + index, base_offset + close + 1))),
                                    children,
                                },
                            ),
                        );
                        index = close + 1;
                        continue;
                    }
                },
                None => {},
            }
        }
        if options.constructs.superscript && c == 94u8 && !(options.constructs.inline_footnote && k2 && input[index
            + 1] == 91u8) {
            match find_simple_inline_close(input, index + 1, 94u8) {
                Some(end) => {
                    flush_text(&mut nodes, &mut text, text_start, base_offset + index);
                    let children = parse_inner(input, index + 1, end, base_offset, options, allow_links, diagnostics);
                    nodes.push(
                        Inline::Superscript(
                            Superscript {
                                meta: NodeMeta::new(Some(Span::new(base_offset + index, base_offset + end + 1))),
                                children,
                            },
                        ),
                    );
                    index = end + 1;
                    continue;
                },
                None => {},
            }
        }
        let strikethrough = options.constructs.gfm_strikethrough;
        if (c == 42u8 || c == 95u8 || (c == 126u8 && strikethrough)) && delimiter_byte_run_start(input, index, c)
            == index {
            if c == 95u8 && literal_on {
                match parse_literal_autolink(input, index, literal_gfm, literal_relaxed, gfm_profile) {
                    Some((end, destination)) => {
                        flush_text(&mut nodes, &mut text, text_start, base_offset + index);
                        nodes.push(literal_autolink_node(input, index, end, &destination, base_offset));
                        index = end;
                        continue;
                    },
                    None => {},
                }
            }
            let len = run_len(input, index, c);
            let recordable = c != 126u8 || len == 2 || (len == 1 && options.parse.single_tilde_strikethrough);
            if recordable {
                flush_text(&mut nodes, &mut text, text_start, base_offset + index);
                let length = record_emphasis_delimiter(
                    &mut nodes,
                    &mut delimiters,
                    input,
                    index,
                    base_offset,
                    c,
                    c == 126u8 || strikethrough,
                );
                index = index + length;
                continue;
            }
        }
        if c == 33u8 && index + 1 < n && input[index + 1] == 91u8 {
            match parse_image(input, index, base_offset, options, diagnostics) {
                Some((end, image)) => {
                    flush_text(&mut nodes, &mut text, text_start, base_offset + index);
                    nodes.push(image);
                    index = end;
                    continue;
                },
                None => {},
            }
        }
        if c == 91u8 {
            match parse_wikilink(input, index, base_offset, options) {
                Some((end, wikilink)) => {
                    flush_text(&mut nodes, &mut text, text_start, base_offset + index);
                    nodes.push(wikilink);
                    index = end;
                    continue;
                },
                None => {},
            }
        }
        if c == 91u8 && allow_links {
            match parse_link(input, index, base_offset, options, diagnostics) {
                Some((end, link)) => {
                    flush_text(&mut nodes, &mut text, text_start, base_offset + index);
                    nodes.push(link);
                    index = end;
                    continue;
                },
                None => {},
            }
        }
        if c == 91u8 && options.constructs.footnote_reference && index + 1 < n && input[index + 1] == 94u8 {
            match find_footnote_reference_label_end(input, index + 2) {
                Some(close) => {
                    if is_footnote_label(input, index + 2, close) {
                        flush_text(&mut nodes, &mut text, text_start, base_offset + index);
                        let label = copy_range(input, index + 2, close);
                        nodes.push(
                            Inline::FootnoteReference(
                                FootnoteReference {
                                    meta: NodeMeta::new(Some(Span::new(base_offset + index, base_offset + close + 1))),
                                    label: string_from_bytes(label.as_slice()),
                                    identifier: normalize_label(label.as_slice()),
                                },
                            ),
                        );
                        index = close + 1;
                        continue;
                    }
                },
                None => {},
            }
        }
        if c == 36u8 && options.constructs.math_inline {
            match parse_math_inline(input, index) {
                Some((end, cs, ce, dollars)) => {
                    flush_text(&mut nodes, &mut text, text_start, base_offset + index);
                    let raw = copy_range(input, cs, ce);
                    let (value, kind) = if dollars == 0 {
                        (raw, MathInlineKind::Code)
                    } else if dollars == 1 {
                        (normalize_code_span(raw.as_slice()), MathInlineKind::Dollar { dollars: 1 })
                    } else {
                        (raw, MathInlineKind::Dollar { dollars: 2 })
                    };
                    nodes.push(
                        Inline::Math(
                            MathInline {
                                meta: NodeMeta::new(Some(Span::new(base_offset + index, base_offset + end))),
                                value: string_from_bytes(value.as_slice()),
                                kind,
                            },
                        ),
                    );
                    index = end;
                    continue;
                },
                None => {},
            }
            let run = run_len(input, index, 36u8);
            if run > 1 {
                if text.len() == 0 {
                    text_start = base_offset + index;
                }
                push_range(&mut text, input, index, index + run);
                index = index + run;
                continue;
            }
        }
        if literal_on {
            match parse_literal_autolink(input, index, literal_gfm, literal_relaxed, gfm_profile) {
                Some((end, destination)) => {
                    flush_text(&mut nodes, &mut text, text_start, base_offset + index);
                    nodes.push(literal_autolink_node(input, index, end, &destination, base_offset));
                    index = end;
                    continue;
                },
                None => {},
            }
        }
        if c == 60u8 {
            match autolink_end(input, index) {
                Some(end) => {
                    flush_text(&mut nodes, &mut text, text_start, base_offset + index);
                    let inner = string_from_range(input, index + 1, end - 1);
                    let meta = NodeMeta::new(Some(Span::new(base_offset + index, base_offset + end)));
                    if allow_links {
                        nodes.push(Inline::Autolink(Autolink { meta, destination: inner, kind: AutolinkKind::Angle }));
                    } else {
                        nodes.push(Inline::Text(Text { meta, value: inner }));
                    }
                    index = end;
                    continue;
                },
                None => {},
            }
            if options.constructs.mdx_jsx_inline {
                match crate::mdx::jsx_inline(input, index) {
                    Some(end) => {
                        flush_text(&mut nodes, &mut text, text_start, base_offset + index);
                        nodes.push(
                            Inline::MdxJsx(
                                MdxJsxInline {
                                    meta: NodeMeta::new(Some(Span::new(base_offset + index, base_offset + end))),
                                    value: string_from_range(input, index, end),
                                },
                            ),
                        );
                        index = end;
                        continue;
                    },
                    None => {},
                }
            }
            match html_inline_end(input, index) {
                Some(end) => {
                    if options.constructs.html_inline {
                        flush_text(&mut nodes, &mut text, text_start, base_offset + index);
                        nodes.push(
                            Inline::Html(
                                HtmlInline {
                                    meta: NodeMeta::new(Some(Span::new(base_offset + index, base_offset + end))),
                                    value: string_from_range(input, index, end),
                                },
                            ),
                        );
                        index = end;
                        continue;
                    }
                },
                None => {},
            }
        }
        if c == 123u8 && options.constructs.mdx_expression_inline {
            match crate::mdx::inline_expression_close(input, index) {
                Some(close) => {
                    flush_text(&mut nodes, &mut text, text_start, base_offset + index);
                    nodes.push(
                        Inline::MdxExpression(
                            MdxExpressionInline {
                                meta: NodeMeta::new(Some(Span::new(base_offset + index, base_offset + close + 1))),
                                value: string_from_range(input, index + 1, close),
                            },
                        ),
                    );
                    index = close + 1;
                    continue;
                },
                None => {
                    diagnostics.push(
                        Diagnostic::new(
                            DiagnosticSeverity::Error,
                            DiagnosticCode::InvalidMdx,
                            Span::new(base_offset + index, base_offset + n),
                            "MDX expression is missing a closing brace",
                        ),
                    );
                },
            }
        }
        if c == 58u8 && options.constructs.shortcode {
            match parse_shortcode(input, index) {
                Some(end) => {
                    flush_text(&mut nodes, &mut text, text_start, base_offset + index);
                    nodes.push(
                        Inline::Shortcode(
                            Shortcode {
                                meta: NodeMeta::new(Some(Span::new(base_offset + index, base_offset + end))),
                                name: string_from_range(input, index + 1, end - 1),
                            },
                        ),
                    );
                    index = end;
                    continue;
                },
                None => {},
            }
        }
        if c == 58u8 && options.constructs.directive_text {
            match parse_text_directive(input, index, base_offset, options, diagnostics) {
                Some((end, directive)) => {
                    flush_text(&mut nodes, &mut text, text_start, base_offset + index);
                    nodes.push(directive);
                    index = end;
                    continue;
                },
                None => {},
            }
        }
        let w = char_len_at(input, index);
        if text.len() == 0 {
            text_start = base_offset + index;
        }
        push_range(&mut text, input, index, index + w);
        index = index + w;
    }
    flush_text(&mut nodes, &mut text, text_start, base_offset + n);
    process_emphasis(nodes, delimiters)
}

} // verus!
