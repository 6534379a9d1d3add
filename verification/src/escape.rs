//! Character-by-character escaping of text for re-emission as Markdown source:
//! numeric character references for control characters, backslash escapes for
//! syntax characters, and the per-context rules of labels, destinations and
//! titles.
use vstd::prelude::*;

use crate::ast::LinkTitleKind;
use crate::text::{spec_char_len_at, spec_ws_len_at, char_len_at, whitespace_len_at};

verus! {

// ---------------------------------------------------------------------------
// Hexadecimal numeric character references.
// ---------------------------------------------------------------------------

/// The uppercase hexadecimal digit for `d < 16`.
pub open spec fn spec_hex_digit(d: nat) -> u8 {
    if d < 10 {
        (48 + d) as u8
    } else {
        (55 + d) as u8
    }
}

/// The uppercase hexadecimal digits of `v`, without leading zeros (`{:X}`).
pub open spec fn spec_hex(v: nat) -> Seq<u8>
    decreases v,
{
    if v < 16 {
        seq![spec_hex_digit(v)]
    } else {
        spec_hex(v / 16).push(spec_hex_digit(v % 16))
    }
}

/// The numeric character reference `&#x{v:X};`.
pub open spec fn spec_hex_ref(v: nat) -> Seq<u8> {
    seq![38u8, 35u8, 120u8] + spec_hex(v) + seq![59u8]
}

/// Appends the uppercase hexadecimal digits of `v` to `out`.
pub fn push_hex(out: &mut Vec<u8>, v: u32)
    ensures
        final(out)@ == old(out)@ + spec_hex(v as nat),
    decreases v,
{
    if v >= 16 {
        push_hex(out, v / 16);
    }
    let d = v % 16;
    let digit: u8 = if d < 10 {
        (48 + d) as u8
    } else {
        (55 + d) as u8
    };
    out.push(digit);
    assert(final(out)@ =~= old(out)@ + spec_hex(v as nat));
}

/// Appends the numeric character reference `&#x{v:X};` to `out`.
pub fn push_hex_ref(out: &mut Vec<u8>, v: u32)
    ensures
        final(out)@ == old(out)@ + spec_hex_ref(v as nat),
{
    out.push(38u8);
    out.push(35u8);
    out.push(120u8);
    push_hex(out, v);
    out.push(59u8);
    assert(final(out)@ =~= old(out)@ + spec_hex_ref(v as nat));
}

// ---------------------------------------------------------------------------
// Scalars of interest at a byte position.
// ---------------------------------------------------------------------------

/// The code point of a `Cc` control scalar at `i` (U+0000–U+001F, U+007F,
/// U+0080–U+009F), if there is one.
pub open spec fn spec_control_at(b: Seq<u8>, i: int) -> Option<nat> {
    if 0 <= i < b.len() && (b[i] < 0x20 || b[i] == 0x7F) {
        Some(b[i] as nat)
    } else if 0 <= i && i + 1 < b.len() && b[i] == 0xC2 && 0x80 <= b[i + 1] <= 0x9F {
        Some(b[i + 1] as nat)
    } else {
        None
    }
}

/// The code point of the whitespace scalar at `i` (given `spec_ws_len_at > 0`).
pub open spec fn spec_ws_code_point(b: Seq<u8>, i: int) -> nat {
    let w = spec_ws_len_at(b, i);
    if w == 1 {
        b[i] as nat
    } else if w == 2 {
        b[i + 1] as nat
    } else {
        ((b[i] - 0xE0) * 4096 + (b[i + 1] - 0x80) * 64 + (b[i + 2] - 0x80)) as nat
    }
}

pub fn control_at(b: &[u8], i: usize) -> (r: Option<u32>)
    requires
        i < b@.len(),
    ensures
        r matches Some(v) ==> spec_control_at(b@, i as int) == Some(v as nat),
        r is None ==> spec_control_at(b@, i as int) is None,
{
    let c = b[i];
    if c < 0x20 || c == 0x7F {
        Some(c as u32)
    } else if b.len() - i > 1 && c == 0xC2 && 0x80 <= b[i + 1] && b[i + 1] <= 0x9F {
        Some(b[i + 1] as u32)
    } else {
        None
    }
}

fn ws_code_point(b: &[u8], i: usize) -> (r: u32)
    requires
        i < b@.len(),
        spec_ws_len_at(b@, i as int) > 0,
    ensures
        r as nat == spec_ws_code_point(b@, i as int),
{
    let n = b.len();
    let w = whitespace_len_at(b, i);
    assert(i + w <= n);
    if w == 1 {
        b[i] as u32
    } else if w == 2 {
        b[i + 1] as u32
    } else {
        ((b[i] - 0xE0) as u32) * 4096 + ((b[i + 1] - 0x80) as u32) * 64 + ((b[i + 2] - 0x80) as u32)
    }
}

// ---------------------------------------------------------------------------
// The rules.
// ---------------------------------------------------------------------------

/// Which escaping convention to apply.
#[derive(Clone, Copy, Debug, PartialEq, Eq, Structural)]
pub enum EscapeRule {
    /// Alert titles: line breaks become spaces, control characters references.
    AlertTitle,
    /// Code fence info strings: line breaks and control characters become
    /// references; `\` and `&` are backslash-escaped.
    CodeInfo,
    /// Parsed definition labels: tabs and line breaks kept, control characters
    /// references.
    DefinitionLabelSource,
    /// Parsed reference labels: as definition labels, and `|` escaped in tables.
    ReferenceLabelSource { pipe: bool },
    /// Parsed footnote labels: control characters references.
    FootnoteLabelSource,
    /// Semantic labels: `\`, `[`, `]` escaped; optionally whitespace as
    /// references and `|` escaped.
    LabelSyntax { pipe: bool, whitespace: bool },
    /// Wikilink parts: `\`, `[`, `]`, `|` escaped.
    WikilinkPart,
    /// Bare link destinations: `(`, `)`, `\`, `<`, `>`, `&` escaped; optionally `|`.
    Destination { pipe: bool },
    /// Angle-bracketed destinations: `\`, `<`, `>` escaped; optionally `|`.
    AngleDestination { pipe: bool },
    /// Link titles: `\`, `&` and the title's own quote escaped; optionally `|`.
    Title { kind: LinkTitleKind, pipe: bool },
    /// Code in table cells: every `|` is preceded by a backslash.
    TableCellCodePipes,
}

/// The two-byte backslash escape of `c`.
pub open spec fn spec_backslashed(c: u8) -> Seq<u8> {
    seq![92u8, c]
}

/// Whether the ASCII byte `c` is backslash-escaped under `rule`.
pub open spec fn spec_rule_escapes(rule: EscapeRule, c: u8) -> bool {
    match rule {
        EscapeRule::AlertTitle => false,
        EscapeRule::CodeInfo => c == 92u8 || c == 38u8,
        EscapeRule::DefinitionLabelSource => false,
        EscapeRule::ReferenceLabelSource { pipe } => pipe && c == 124u8,
        EscapeRule::FootnoteLabelSource => false,
        EscapeRule::LabelSyntax { pipe, whitespace } => (pipe && c == 124u8) || c == 92u8 || c == 91u8
            || c == 93u8,
        EscapeRule::WikilinkPart => c == 92u8 || c == 91u8 || c == 93u8 || c == 124u8,
        EscapeRule::Destination { pipe } => (pipe && c == 124u8) || c == 40u8 || c == 41u8 || c == 92u8
            || c == 60u8 || c == 62u8 || c == 38u8,
        EscapeRule::AngleDestination { pipe } => (pipe && c == 124u8) || c == 92u8 || c == 60u8 || c
            == 62u8,
        EscapeRule::Title { kind, pipe } => (pipe && c == 124u8) || c == 92u8 || c == 38u8 || (kind
            == LinkTitleKind::DoubleQuote && c == 34u8) || (kind == LinkTitleKind::SingleQuote && c
            == 39u8) || (kind == LinkTitleKind::Paren && (c == 40u8 || c == 41u8)),
        EscapeRule::TableCellCodePipes => c == 124u8,
    }
}

/// Whether a control character `cp` is kept verbatim under `rule`.
pub open spec fn spec_rule_keeps_control(rule: EscapeRule, cp: nat) -> bool {
    match rule {
        EscapeRule::CodeInfo => cp == 9,
        EscapeRule::DefinitionLabelSource => cp == 9 || cp == 10 || cp == 13,
        EscapeRule::ReferenceLabelSource { .. } => cp == 9 || cp == 10 || cp == 13,
        EscapeRule::TableCellCodePipes => true,
        _ => false,
    }
}

/// The output for the scalar that starts at byte `i` under `rule`.
pub open spec fn spec_escape_piece(rule: EscapeRule, b: Seq<u8>, i: int) -> Seq<u8> {
    let w = spec_char_len_at(b, i);
    let verbatim = b.subrange(i, i + w);
    if rule == EscapeRule::AlertTitle && (b[i] == 10u8 || b[i] == 13u8) {
        seq![32u8]
    } else if rule == EscapeRule::CodeInfo && b[i] == 10u8 {
        spec_hex_ref(10)
    } else if rule == EscapeRule::CodeInfo && b[i] == 13u8 {
        spec_hex_ref(13)
    } else if rule is LabelSyntax && rule->whitespace && spec_ws_len_at(b, i) > 0 {
        spec_hex_ref(spec_ws_code_point(b, i))
    } else if spec_control_at(b, i) is Some && !spec_rule_keeps_control(
        rule,
        spec_control_at(b, i)->0,
    ) {
        spec_hex_ref(spec_control_at(b, i)->0)
    } else if b[i] < 0x80 && spec_rule_escapes(rule, b[i]) {
        spec_backslashed(b[i])
    } else {
        verbatim
    }
}

/// `b[i..]` escaped under `rule`, scalar by scalar.
pub open spec fn spec_escape_from(rule: EscapeRule, b: Seq<u8>, i: int) -> Seq<u8>
    decreases b.len() - i,
{
    if i < 0 || i >= b.len() {
        Seq::empty()
    } else {
        spec_escape_piece(rule, b, i) + spec_escape_from(rule, b, i + spec_char_len_at(b, i))
    }
}

/// `b` escaped under `rule`.
pub open spec fn spec_escape(rule: EscapeRule, b: Seq<u8>) -> Seq<u8> {
    spec_escape_from(rule, b, 0)
}

fn rule_escapes(rule: EscapeRule, c: u8) -> (r: bool)
    ensures
        r == spec_rule_escapes(rule, c),
{
    match rule {
        EscapeRule::AlertTitle => false,
        EscapeRule::CodeInfo => c == 92u8 || c == 38u8,
        EscapeRule::DefinitionLabelSource => false,
        EscapeRule::ReferenceLabelSource { pipe } => pipe && c == 124u8,
        EscapeRule::FootnoteLabelSource => false,
        EscapeRule::LabelSyntax { pipe, whitespace } => (pipe && c == 124u8) || c == 92u8 || c == 91u8
            || c == 93u8,
        EscapeRule::WikilinkPart => c == 92u8 || c == 91u8 || c == 93u8 || c == 124u8,
        EscapeRule::Destination { pipe } => (pipe && c == 124u8) || c == 40u8 || c == 41u8 || c == 92u8
            || c == 60u8 || c == 62u8 || c == 38u8,
        EscapeRule::AngleDestination { pipe } => (pipe && c == 124u8) || c == 92u8 || c == 60u8 || c
            == 62u8,
        EscapeRule::Title { kind, pipe } => {
            let quote = match kind {
                LinkTitleKind::DoubleQuote => c == 34u8,
                LinkTitleKind::SingleQuote => c == 39u8,
                LinkTitleKind::Paren => c == 40u8 || c == 41u8,
            };
            (pipe && c == 124u8) || c == 92u8 || c == 38u8 || quote
        },
        EscapeRule::TableCellCodePipes => c == 124u8,
    }
}

fn rule_keeps_control(rule: EscapeRule, cp: u32) -> (r: bool)
    ensures
        r == spec_rule_keeps_control(rule, cp as nat),
{
    match rule {
        EscapeRule::CodeInfo => cp == 9,
        EscapeRule::DefinitionLabelSource => cp == 9 || cp == 10 || cp == 13,
        EscapeRule::ReferenceLabelSource { .. } => cp == 9 || cp == 10 || cp == 13,
        EscapeRule::TableCellCodePipes => true,
        _ => false,
    }
}

/// Appends the output for the scalar at `i` and returns its byte length.
fn push_escape_piece(out: &mut Vec<u8>, rule: EscapeRule, b: &[u8], i: usize) -> (w: usize)
    requires
        i < b@.len(),
    ensures
        w == spec_char_len_at(b@, i as int),
        final(out)@ == old(out)@ + spec_escape_piece(rule, b@, i as int),
{
    let w = char_len_at(b, i);
    let c = b[i];
    let is_label_ws = match rule {
        EscapeRule::LabelSyntax { whitespace, .. } => whitespace,
        _ => false,
    };
    if rule == EscapeRule::AlertTitle && (c == 10u8 || c == 13u8) {
        out.push(32u8);
        assert(final(out)@ =~= old(out)@ + seq![32u8]);
    } else if rule == EscapeRule::CodeInfo && c == 10u8 {
        push_hex_ref(out, 10);
    } else if rule == EscapeRule::CodeInfo && c == 13u8 {
        push_hex_ref(out, 13);
    } else if is_label_ws && whitespace_len_at(b, i) > 0 {
        let cp = ws_code_point(b, i);
        push_hex_ref(out, cp);
    } else {
        let control = control_at(b, i);
        let escaped_control = match control {
            Some(cp) => !rule_keeps_control(rule, cp),
            None => false,
        };
        if escaped_control {
            push_hex_ref(out, control.unwrap());
        } else if c < 0x80 && rule_escapes(rule, c) {
            out.push(92u8);
            out.push(c);
            assert(final(out)@ =~= old(out)@ + spec_backslashed(c));
        } else {
            let n = b.len();
            let end = i + w;
            let mut k = i;
            while k < end
                invariant
                    end == i + w,
                    i <= k <= end <= b@.len(),
                    out@ == old(out)@ + b@.subrange(i as int, k as int),
                decreases end - k,
            {
                out.push(b[k]);
                k = k + 1;
                assert(out@ =~= old(out)@ + b@.subrange(i as int, k as int));
            }
        }
    }
    w
}

/// `input` escaped under `rule`.
pub fn escape_with(input: &[u8], rule: EscapeRule) -> (r: Vec<u8>)
    ensures
        r@ == spec_escape(rule, input@),
{
    let mut out: Vec<u8> = Vec::new();
    let mut i: usize = 0;
    while i < input.len()
        invariant
            i <= input@.len(),
            out@ + spec_escape_from(rule, input@, i as int) == spec_escape(rule, input@),
        decreases input@.len() - i,
    {
        let ghost before = out@;
        let w = push_escape_piece(&mut out, rule, input, i);
        assert(out@ + spec_escape_from(rule, input@, (i + w) as int) =~= before
            + spec_escape_from(rule, input@, i as int));
        i = i + w;
    }
    assert(out@ =~= out@ + spec_escape_from(rule, input@, i as int));
    out
}

} // verus!
