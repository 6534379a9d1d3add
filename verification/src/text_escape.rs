//! When a character of a text node would start syntax on re-parse: the
//! predicates behind text escaping in the serializer. Offsets are byte offsets
//! into the text's UTF-8 encoding.
use vstd::prelude::*;

use crate::escape::{control_at, push_hex_ref, spec_control_at, spec_hex_ref};
use crate::serialize::InlineSerializeContext;
use crate::text::{
    char_len_at, find_sub, push_range, spec_char_len_at, is_ascii_alnum, is_ascii_alpha, is_ascii_digit, is_ascii_hex, is_ascii_punctuation,
    run_len, spec_find_sub, spec_is_ascii_alnum, spec_is_ascii_alpha, spec_is_ascii_digit,
    spec_is_ascii_hex, spec_is_ascii_punctuation, spec_run_len, spec_starts_with_at, spec_ws_len_at,
    starts_with_at, whitespace_len_at,
};

verus! {

/// Whether a run of `len` bytes at `offset` touches either end of `b`.
pub open spec fn spec_at_edge(b: Seq<u8>, offset: int, len: int) -> bool {
    offset == 0 || offset + len >= b.len()
}

fn text_char_at_edge(input: &[u8], offset: usize, len: usize) -> (r: bool)
    ensures
        r == spec_at_edge(input@, offset as int, len as int),
{
    offset == 0 || len >= input.len() || offset >= input.len() - len
}

/// Whether a run of exactly `len` bytes `c` starts at some index at or after `from`.
pub open spec fn spec_has_run_from(b: Seq<u8>, from: int, c: u8, len: nat) -> bool
    decreases b.len() - from,
{
    if from < 0 || from >= b.len() {
        false
    } else if b[from] == c && spec_run_len(b, from, c) == len {
        true
    } else {
        spec_has_run_from(b, from + 1, c, len)
    }
}

fn find_same_char_run(input: &[u8], offset: usize, c: u8, len: usize) -> (r: bool)
    ensures
        r == spec_has_run_from(input@, offset as int, c, len as nat),
{
    let n = input.len();
    let mut i = offset;
    while i < n
        invariant
            n == input@.len(),
            offset <= i,
            spec_has_run_from(input@, i as int, c, len as nat) == spec_has_run_from(input@, offset as int, c, len as nat),
        decreases n - i,
    {
        if input[i] == c && run_len(input, i, c) == len {
            return true;
        }
        i = i + 1;
    }
    false
}

/// Whether a run of `c` at `offset` could open a code span or dollar math: it
/// touches an edge, or a run of the same length follows.
pub open spec fn spec_span_can_start(b: Seq<u8>, offset: int, c: u8) -> bool {
    let m = spec_run_len(b, offset, c);
    m == 0 || spec_at_edge(b, offset, m as int) || spec_has_run_from(b, offset + m, c, m)
}

fn span_can_start(input: &[u8], offset: usize, c: u8) -> (r: bool)
    requires
        offset <= input@.len(),
    ensures
        r == spec_span_can_start(input@, offset as int, c),
{
    let n = input.len();
    let m = run_len(input, offset, c);
    if m == 0 || text_char_at_edge(input, offset, m) {
        return true;
    }
    find_same_char_run(input, offset + m, c, m)
}

fn text_code_span_can_start(input: &[u8], offset: usize) -> (r: bool)
    requires
        offset <= input@.len(),
    ensures
        r == spec_span_can_start(input@, offset as int, 96u8),
{
    span_can_start(input, offset, 96u8)
}

fn text_math_can_start(input: &[u8], offset: usize) -> (r: bool)
    requires
        offset <= input@.len(),
    ensures
        r == spec_span_can_start(input@, offset as int, 36u8),
{
    span_can_start(input, offset, 36u8)
}

// ---------------------------------------------------------------------------
// Flanking.
// ---------------------------------------------------------------------------

/// Whether the scalar that ends just before `offset` is whitespace.
pub open spec fn spec_prev_is_ws(b: Seq<u8>, offset: int) -> bool {
    ||| (offset >= 1 && spec_ws_len_at(b, offset - 1) == 1)
    ||| (offset >= 2 && spec_ws_len_at(b, offset - 2) == 2)
    ||| (offset >= 3 && spec_ws_len_at(b, offset - 3) == 3)
}

fn prev_is_ws(input: &[u8], offset: usize) -> (r: bool)
    requires
        offset <= input@.len(),
    ensures
        r == spec_prev_is_ws(input@, offset as int),
{
    (offset >= 1 && whitespace_len_at(input, offset - 1) == 1) || (offset >= 2 && whitespace_len_at(
        input,
        offset - 2,
    ) == 2) || (offset >= 3 && whitespace_len_at(input, offset - 3) == 3)
}

/// Whether the byte `c` is ASCII punctuation.
pub open spec fn spec_punct(c: u8) -> bool {
    c < 0x80 && spec_is_ascii_punctuation(c)
}

/// The flanking of a delimiter run of `len` bytes at `offset`:
/// (left-flanking, right-flanking, previous is punctuation, next is punctuation).
pub open spec fn spec_flanking(b: Seq<u8>, offset: int, len: int) -> (bool, bool, bool, bool) {
    let q = offset + len;
    let has_prev = offset > 0;
    let has_next = q < b.len();
    let prev_ws = !has_prev || spec_prev_is_ws(b, offset);
    let next_ws = !has_next || spec_ws_len_at(b, q) > 0;
    let prev_punct = has_prev && spec_punct(b[offset - 1]);
    let next_punct = has_next && spec_punct(b[q]);
    let left = has_next && !next_ws && !(next_punct && !prev_ws && !prev_punct);
    let right = has_prev && !prev_ws && !(prev_punct && !next_ws && !next_punct);
    (left, right, prev_punct, next_punct)
}

fn text_delimiter_flanking(input: &[u8], offset: usize, len: usize) -> (r: (bool, bool, bool, bool))
    requires
        offset + len <= input@.len(),
    ensures
        r == spec_flanking(input@, offset as int, len as int),
{
    let n = input.len();
    let q = offset + len;
    let has_prev = offset > 0;
    let has_next = q < n;
    let prev_ws = !has_prev || prev_is_ws(input, offset);
    let next_ws = !has_next || whitespace_len_at(input, q) > 0;
    let prev_punct = has_prev && input[offset - 1] < 0x80 && is_ascii_punctuation(input[offset - 1]);
    let next_punct = has_next && input[q] < 0x80 && is_ascii_punctuation(input[q]);
    let left = has_next && !next_ws && !(next_punct && !prev_ws && !prev_punct);
    let right = has_prev && !prev_ws && !(prev_punct && !next_ws && !next_punct);
    (left, right, prev_punct, next_punct)
}

/// Whether a delimiter run of `len` bytes at `offset` can open emphasis.
pub open spec fn spec_can_open(b: Seq<u8>, offset: int, len: int, underscore: bool) -> bool {
    let f = spec_flanking(b, offset, len);
    if underscore {
        f.0 && (!f.1 || f.2)
    } else {
        f.0
    }
}

/// Whether a delimiter run of `len` bytes at `offset` can close emphasis.
pub open spec fn spec_can_close(b: Seq<u8>, offset: int, len: int, underscore: bool) -> bool {
    let f = spec_flanking(b, offset, len);
    if underscore {
        f.1 && (!f.0 || f.3)
    } else {
        f.1
    }
}

pub fn text_delimiter_can_open(input: &[u8], offset: usize, len: usize, underscore: bool) -> (r: bool)
    requires
        offset + len <= input@.len(),
    ensures
        r == spec_can_open(input@, offset as int, len as int, underscore),
{
    let f = text_delimiter_flanking(input, offset, len);
    if underscore {
        f.0 && (!f.1 || f.2)
    } else {
        f.0
    }
}

pub fn text_delimiter_can_close(input: &[u8], offset: usize, len: usize, underscore: bool) -> (r: bool)
    requires
        offset + len <= input@.len(),
    ensures
        r == spec_can_close(input@, offset as int, len as int, underscore),
{
    let f = text_delimiter_flanking(input, offset, len);
    if underscore {
        f.1 && (!f.0 || f.3)
    } else {
        f.1
    }
}

/// Whether a later occurrence of `marker` (at or after `cursor`) that is not
/// followed by another `marker` can close.
pub open spec fn spec_closer_from(b: Seq<u8>, cursor: int, marker: Seq<u8>, underscore: bool) -> bool
    decreases b.len() - cursor,
{
    proof {
        lemma_find_sub_bounds(b, cursor, marker);
    }
    match spec_find_sub(b, cursor, marker) {
        Some(p) => if p < cursor || marker.len() == 0 {
            false
        } else if !spec_starts_with_at(b, p + marker.len(), marker) && spec_can_close(
            b,
            p,
            marker.len() as int,
            underscore,
        ) {
            true
        } else {
            spec_closer_from(b, p + marker.len(), marker, underscore)
        },
        None => false,
    }
}

pub proof fn lemma_find_sub_bounds(b: Seq<u8>, from: int, needle: Seq<u8>)
    ensures
        spec_find_sub(b, from, needle) matches Some(p) ==> from <= p && p + needle.len() <= b.len()
            && spec_starts_with_at(b, p, needle),
    decreases b.len() - from,
{
    if !(from < 0 || from >= b.len() || from + needle.len() > b.len()) && !spec_starts_with_at(
        b,
        from,
        needle,
    ) {
        lemma_find_sub_bounds(b, from + 1, needle);
    }
}

/// Whether `marker` at `offset` could start emphasis-like syntax (so a literal
/// one must be escaped): doubled, at an edge, or able to open with a closer
/// somewhere after it.
pub open spec fn spec_attention_can_start(b: Seq<u8>, offset: int, marker: Seq<u8>, underscore: bool) -> bool {
    let m = marker.len() as int;
    if !spec_starts_with_at(b, offset, marker) {
        false
    } else if spec_starts_with_at(b, offset + m, marker) || spec_at_edge(b, offset, m) {
        true
    } else if !spec_can_open(b, offset, m, underscore) {
        false
    } else {
        spec_closer_from(b, offset + m, marker, underscore)
    }
}

fn text_attention_delimiter_can_start(input: &[u8], offset: usize, marker: &[u8], underscore: bool) -> (r: bool)
    requires
        marker@.len() > 0,
    ensures
        r == spec_attention_can_start(input@, offset as int, marker@, underscore),
{
    let n = input.len();
    let m = marker.len();
    if !starts_with_at(input, offset, marker) {
        return false;
    }
    if starts_with_at(input, offset + m, marker) || text_char_at_edge(input, offset, m) {
        return true;
    }
    if !text_delimiter_can_open(input, offset, m, underscore) {
        return false;
    }
    let mut cursor = offset + m;
    while cursor < n
        invariant
            n == input@.len(),
            m == marker@.len(),
            m > 0,
            cursor <= n,
            spec_closer_from(input@, cursor as int, marker@, underscore) == spec_attention_can_start(
                input@,
                offset as int,
                marker@,
                underscore,
            ),
        decreases n - cursor,
    {
        proof {
            lemma_find_sub_bounds(input@, cursor as int, marker@);
        }
        match find_sub(input, cursor, marker) {
            Some(p) => {
                if !starts_with_at(input, p + m, marker) && text_delimiter_can_close(input, p, m, underscore) {
                    return true;
                }
                cursor = p + m;
            },
            None => {
                return false;
            },
        }
    }
    proof {
        assert(spec_find_sub(input@, cursor as int, marker@) is None);
    }
    false
}

// ---------------------------------------------------------------------------
// Other syntax starts.
// ---------------------------------------------------------------------------

/// Whether `b[from..]` holds the byte `c`.
pub open spec fn spec_has_byte_from(b: Seq<u8>, from: int, c: u8) -> bool {
    exists|k: int| from <= k < b.len() && #[trigger] b[k] == c
}

fn has_byte_from(input: &[u8], from: usize, c: u8) -> (r: bool)
    ensures
        r == spec_has_byte_from(input@, from as int, c),
{
    let n = input.len();
    let mut k = from;
    while k < n
        invariant
            n == input@.len(),
            from <= k,
            forall|j: int| from <= j < k && j < n ==> input@[j] != c,
        decreases n - k,
    {
        if input[k] == c {
            assert(input@[k as int] == c);
            return true;
        }
        k = k + 1;
    }
    false
}

/// Whether `<` at `offset` could start inline HTML or an autolink: a `>` comes
/// later, and the next byte starts a tag, or a URL or an e-mail address follows.
pub open spec fn spec_less_than_can_start(b: Seq<u8>, offset: int) -> bool {
    let a = offset + 1;
    if spec_has_byte_from(b, a, 62u8) {
        (a < b.len() && (spec_is_ascii_alpha(b[a]) || b[a] == 47u8 || b[a] == 33u8 || b[a] == 63u8
            || b[a] == 95u8)) || spec_starts_with_at(b, a, seq![104u8, 116u8, 116u8, 112u8, 58u8, 47u8, 47u8])
            || spec_starts_with_at(b, a, seq![104u8, 116u8, 116u8, 112u8, 115u8, 58u8, 47u8, 47u8])
            || spec_has_byte_from(b, a, 64u8)
    } else {
        false
    }
}

fn text_less_than_can_start_inline(input: &[u8], offset: usize) -> (r: bool)
    requires
        offset < input@.len(),
    ensures
        r == spec_less_than_can_start(input@, offset as int),
{
    let n = input.len();
    let a = offset + 1;
    if !has_byte_from(input, a, 62u8) {
        return false;
    }
    (a < n && (is_ascii_alpha(input[a]) || input[a] == 47u8 || input[a] == 33u8 || input[a] == 63u8
        || input[a] == 95u8)) || starts_with_at(input, a, &[104u8, 116u8, 116u8, 112u8, 58u8, 47u8, 47u8])
        || starts_with_at(input, a, &[104u8, 116u8, 116u8, 112u8, 115u8, 58u8, 47u8, 47u8])
        || has_byte_from(input, a, 64u8)
}

/// Whether `#` at `offset`, at the start of an output line, could open an ATX
/// heading: a run of one to six `#` followed by whitespace or the end.
pub open spec fn spec_atx_can_start(b: Seq<u8>, offset: int, line_len: nat) -> bool {
    let h = spec_run_len(b, offset, 35u8);
    line_len == 0 && 1 <= h <= 6 && (offset + h >= b.len() || spec_ws_len_at(b, offset + h) > 0)
}

fn text_atx_heading_can_start(input: &[u8], offset: usize, line_len: usize) -> (r: bool)
    requires
        offset <= input@.len(),
    ensures
        r == spec_atx_can_start(input@, offset as int, line_len as nat),
{
    let n = input.len();
    if line_len != 0 {
        return false;
    }
    let h = run_len(input, offset, 35u8);
    1 <= h && h <= 6 && (offset + h >= n || whitespace_len_at(input, offset + h) > 0)
}

/// Whether `||` at `offset` could open a spoiler: not a third `|`, and a `||`
/// comes later.
pub open spec fn spec_spoiler_can_start(b: Seq<u8>, offset: int) -> bool {
    spec_starts_with_at(b, offset, seq![124u8, 124u8]) && !spec_starts_with_at(b, offset + 2, seq![124u8])
        && spec_find_sub(b, offset + 2, seq![124u8, 124u8]) is Some
}

fn text_spoiler_can_start(input: &[u8], offset: usize) -> (r: bool)
    requires
        offset <= input@.len(),
    ensures
        r == spec_spoiler_can_start(input@, offset as int),
{
    let n = input.len();
    assert([124u8, 124u8]@ =~= seq![124u8, 124u8]);
    assert([124u8]@ =~= seq![124u8]);
    if !starts_with_at(input, offset, &[124u8, 124u8]) {
        return false;
    }
    !starts_with_at(input, offset + 2, &[124u8]) && find_sub(input, offset + 2, &[124u8, 124u8]).is_some()
}

/// Whether a single-byte delimiter `c` at `offset` could pair with another.
pub open spec fn spec_simple_can_start(b: Seq<u8>, offset: int, c: u8) -> bool {
    spec_at_edge(b, offset, 1) || (offset + 1 < b.len() && b[offset + 1] == c) || (offset > 0 && b[offset
        - 1] == c) || spec_has_byte_from(b, offset + 1, c)
}

fn text_simple_delimiter_can_start(input: &[u8], offset: usize, c: u8) -> (r: bool)
    requires
        offset < input@.len(),
    ensures
        r == spec_simple_can_start(input@, offset as int, c),
{
    let n = input.len();
    text_char_at_edge(input, offset, 1) || (offset + 1 < n && input[offset + 1] == c) || (offset > 0
        && input[offset - 1] == c) || has_byte_from(input, offset + 1, c)
}

/// Whether `~` at `offset` could start strikethrough or subscript.
pub open spec fn spec_tilde_can_start(b: Seq<u8>, offset: int) -> bool {
    if spec_starts_with_at(b, offset, seq![126u8, 126u8]) {
        spec_attention_can_start(b, offset, seq![126u8, 126u8], false) || spec_simple_can_start(b, offset, 126u8)
    } else {
        spec_simple_can_start(b, offset, 126u8)
    }
}

fn text_tilde_can_start(input: &[u8], offset: usize) -> (r: bool)
    requires
        offset < input@.len(),
    ensures
        r == spec_tilde_can_start(input@, offset as int),
{
    if starts_with_at(input, offset, &[126u8, 126u8]) {
        return text_attention_delimiter_can_start(input, offset, &[126u8, 126u8], false)
            || text_simple_delimiter_can_start(input, offset, 126u8);
    }
    text_simple_delimiter_can_start(input, offset, 126u8)
}

/// Whether `^` at `offset` could start an inline footnote or superscript.
pub open spec fn spec_caret_can_start(b: Seq<u8>, offset: int) -> bool {
    (offset + 1 < b.len() && b[offset + 1] == 91u8) || spec_simple_can_start(b, offset, 94u8)
}

fn text_caret_can_start(input: &[u8], offset: usize) -> (r: bool)
    requires
        offset < input@.len(),
    ensures
        r == spec_caret_can_start(input@, offset as int),
{
    let n = input.len();
    (offset + 1 < n && input[offset + 1] == 91u8) || text_simple_delimiter_can_start(input, offset, 94u8)
}

/// The length of the run of bytes from `from` on that satisfy the class
/// (0: decimal digit, 1: hexadecimal digit, 2: ASCII letter or digit).
pub open spec fn spec_class_run(b: Seq<u8>, from: int, class: u8) -> nat
    decreases b.len() - from,
{
    if from < 0 || from >= b.len() {
        0
    } else if (class == 0 && spec_is_ascii_digit(b[from])) || (class == 1 && spec_is_ascii_hex(b[from])) || (
    class == 2 && spec_is_ascii_alnum(b[from])) {
        1 + spec_class_run(b, from + 1, class)
    } else {
        0
    }
}

fn class_run(input: &[u8], from: usize, class: u8) -> (r: usize)
    requires
        from <= input@.len(),
    ensures
        r == spec_class_run(input@, from as int, class),
        from + r <= input@.len(),
    decreases input@.len() - from,
{
    if from >= input.len() {
        return 0;
    }
    let c = input[from];
    if (class == 0 && is_ascii_digit(c)) || (class == 1 && is_ascii_hex(c)) || (class == 2 && is_ascii_alnum(c)) {
        1 + class_run(input, from + 1, class)
    } else {
        0
    }
}

/// Whether `&` at `offset` could start a character reference: `&#digits;`,
/// `&#xhex;` or `&name;`.
pub open spec fn spec_char_ref_can_start(b: Seq<u8>, offset: int) -> bool {
    let a = offset + 1;
    if a < b.len() && b[a] == 35u8 {
        let r = a + 1;
        if r < b.len() && (b[r] == 120u8 || b[r] == 88u8) {
            let d = spec_class_run(b, r + 1, 1);
            d > 0 && r + 1 + d < b.len() && b[r + 1 + d] == 59u8
        } else {
            let d = spec_class_run(b, r, 0);
            d > 0 && r + d < b.len() && b[r + d] == 59u8
        }
    } else {
        let l = spec_class_run(b, a, 2);
        l > 0 && a + l < b.len() && b[a + l] == 59u8
    }
}

fn text_character_reference_can_start(input: &[u8], offset: usize) -> (r: bool)
    requires
        offset < input@.len(),
    ensures
        r == spec_char_ref_can_start(input@, offset as int),
{
    let n = input.len();
    let a = offset + 1;
    if a < n && input[a] == 35u8 {
        let r = a + 1;
        if r < n && (input[r] == 120u8 || input[r] == 88u8) {
            let d = class_run(input, r + 1, 1);
            d > 0 && r + 1 + d < n && input[r + 1 + d] == 59u8
        } else {
            let d = class_run(input, r, 0);
            d > 0 && r + d < n && input[r + d] == 59u8
        }
    } else {
        let l = class_run(input, a, 2);
        l > 0 && a + l < n && input[a + l] == 59u8
    }
}

/// The state of the scan for an e-mail domain after `@`: whether a domain
/// character, a dot after one, and a domain character after a dot were seen.
pub open spec fn spec_domain_scan(b: Seq<u8>, k: int, seen: bool, dot: bool, after_dot: bool) -> bool
    decreases b.len() - k,
{
    if k < 0 || k >= b.len() {
        after_dot
    } else if spec_is_ascii_alnum(b[k]) {
        spec_domain_scan(b, k + 1, true, dot, after_dot || dot)
    } else if b[k] == 46u8 && seen {
        spec_domain_scan(b, k + 1, seen, true, after_dot)
    } else if (b[k] == 45u8 || b[k] == 95u8) && seen {
        spec_domain_scan(b, k + 1, seen, dot, after_dot)
    } else {
        after_dot
    }
}

/// Whether `@` at `offset` could make an e-mail literal autolink: an ASCII
/// letter or digit before it, and a dotted domain after it.
pub open spec fn spec_at_sign_can_start(b: Seq<u8>, offset: int) -> bool {
    offset > 0 && spec_is_ascii_alnum(b[offset - 1]) && spec_domain_scan(b, offset + 1, false, false, false)
}

fn at_sign_can_start_email_autolink(input: &[u8], offset: usize) -> (r: bool)
    requires
        offset < input@.len(),
    ensures
        r == spec_at_sign_can_start(input@, offset as int),
{
    let n = input.len();
    if !(offset > 0 && is_ascii_alnum(input[offset - 1])) {
        return false;
    }
    let mut seen = false;
    let mut dot = false;
    let mut after_dot = false;
    let mut k = offset + 1;
    while k < n
        invariant
            n == input@.len(),
            offset < k <= n,
            spec_domain_scan(input@, k as int, seen, dot, after_dot) == spec_at_sign_can_start(
                input@,
                offset as int,
            ),
        decreases n - k,
    {
        let c = input[k];
        if is_ascii_alnum(c) {
            seen = true;
            if dot {
                after_dot = true;
            }
        } else if c == 46u8 && seen {
            dot = true;
        } else if (c == 45u8 || c == 95u8) && seen {
        } else {
            assert(spec_domain_scan(input@, k as int, seen, dot, after_dot) == after_dot);
            return after_dot;
        }
        k = k + 1;
    }
    after_dot
}

// ---------------------------------------------------------------------------
// Escaping a text node, scalar by scalar.
// ---------------------------------------------------------------------------

/// The length of the last line of `b` (after its last `\n`).
pub open spec fn spec_output_line_len(b: Seq<u8>) -> nat
    decreases b.len(),
{
    if b.len() == 0 || b.last() == 10u8 {
        0
    } else {
        1 + spec_output_line_len(b.drop_last())
    }
}

pub fn output_line_len(output: &[u8]) -> (r: usize)
    ensures
        r == spec_output_line_len(output@),
{
    let n = output.len();
    let mut k = n;
    assert(output@.subrange(0, n as int) =~= output@);
    while k > 0 && output[k - 1] != 10u8
        invariant
            k <= n == output@.len(),
            spec_output_line_len(output@) == (n - k) + spec_output_line_len(output@.subrange(0, k as int)),
        decreases k,
    {
        assert(output@.subrange(0, k as int).drop_last() =~= output@.subrange(0, k - 1));
        k = k - 1;
    }
    assert(output@.subrange(0, n as int) =~= output@);
    n - k
}

/// Whether `b[..offset]` ends with `suffix`.
pub open spec fn spec_ends_at(b: Seq<u8>, offset: int, suffix: Seq<u8>) -> bool {
    offset >= suffix.len() && spec_starts_with_at(b, offset - suffix.len(), suffix)
}

fn ends_at(input: &[u8], offset: usize, suffix: &[u8]) -> (r: bool)
    ensures
        r == spec_ends_at(input@, offset as int, suffix@),
{
    offset >= suffix.len() && starts_with_at(input, offset - suffix.len(), suffix)
}

/// Whether the scalar after the one at `offset` (of `w` bytes) is absent or whitespace.
pub open spec fn spec_next_none_or_ws(b: Seq<u8>, offset: int, w: int) -> bool {
    offset + w >= b.len() || spec_ws_len_at(b, offset + w) > 0
}

/// The output, digit prefix and leading flag after the first thirteen rules
/// for the scalar at `offset` (line breaks, edge whitespace, control
/// characters, list and heading starts, URLs and e-mail), or `None` when none
/// of them applies.
pub open spec fn spec_text_special(
    b: Seq<u8>,
    offset: int,
    line_len: nat,
    digit_prefix: Option<nat>,
    leading: bool,
    trailing_start: int,
) -> Option<(Seq<u8>, Option<nat>, bool)> {
    let c = b[offset];
    let w = spec_char_len_at(b, offset) as int;
    let edge = leading || offset >= trailing_start;
    if c == 10u8 {
        Some((spec_hex_ref(10), digit_prefix, false))
    } else if c == 13u8 {
        Some((spec_hex_ref(13), digit_prefix, false))
    } else if edge && c == 32u8 {
        Some((spec_hex_ref(32), digit_prefix, leading))
    } else if edge && c == 9u8 {
        Some((spec_hex_ref(9), digit_prefix, leading))
    } else if spec_control_at(b, offset) is Some {
        Some((spec_hex_ref(spec_control_at(b, offset)->0), digit_prefix, false))
    } else if digit_prefix == Some(line_len) && spec_is_ascii_digit(c) {
        Some((seq![c], Some(line_len + 1), false))
    } else if c == 58u8 && (spec_ends_at(b, offset, seq![104u8, 116u8, 116u8, 112u8]) || spec_ends_at(
        b,
        offset,
        seq![104u8, 116u8, 116u8, 112u8, 115u8],
    )) && spec_starts_with_at(b, offset + 1, seq![47u8, 47u8]) {
        Some((seq![92u8, c], None, false))
    } else if c == 46u8 && spec_ends_at(b, offset, seq![119u8, 119u8, 119u8]) {
        Some((seq![92u8, c], None, false))
    } else if c == 64u8 {
        Some((if spec_at_sign_can_start(b, offset) {
            spec_hex_ref(64)
        } else {
            seq![64u8]
        }, None, false))
    } else if digit_prefix matches Some(d) && d > 0 && (c == 46u8 || c == 41u8) && spec_next_none_or_ws(
        b,
        offset,
        w,
    ) {
        Some((seq![92u8, c], None, false))
    } else if line_len == 0 && (c == 45u8 || c == 43u8) && spec_next_none_or_ws(b, offset, w) {
        Some((seq![92u8, c], None, false))
    } else if line_len == 0 && ((c == 45u8 && offset + w < b.len() && b[offset + w] == 45u8) || c == 61u8) {
        Some((seq![92u8, c], None, false))
    } else {
        None
    }
}

/// The output for the scalar at `offset` when none of the first rules applies:
/// a reference or a backslash escape where the byte could start syntax, the
/// scalar itself otherwise.
pub open spec fn spec_text_plain(b: Seq<u8>, offset: int, line_len: nat, ctx: InlineSerializeContext) -> Seq<u8> {
    let c = b[offset];
    let w = spec_char_len_at(b, offset) as int;
    let esc = seq![92u8, c];
    if c == 42u8 && ctx.avoid_star_edges {
        spec_hex_ref(42)
    } else if c == 124u8 && ctx.table_cell {
        spec_hex_ref(124)
    } else if c == 124u8 && line_len == 0 {
        esc
    } else if c == 96u8 && spec_span_can_start(b, offset, 96u8) {
        esc
    } else if c == 42u8 && spec_attention_can_start(b, offset, seq![42u8], false) {
        esc
    } else if c == 95u8 && spec_attention_can_start(b, offset, seq![95u8], true) {
        esc
    } else if c == 60u8 && spec_less_than_can_start(b, offset) {
        esc
    } else if c == 62u8 && line_len == 0 {
        esc
    } else if c == 123u8 && spec_has_byte_from(b, offset + 1, 125u8) {
        esc
    } else if c == 35u8 && spec_atx_can_start(b, offset, line_len) {
        esc
    } else if c == 124u8 && spec_spoiler_can_start(b, offset) {
        spec_hex_ref(124)
    } else if c == 36u8 && spec_span_can_start(b, offset, 36u8) {
        esc
    } else if c == 33u8 && offset + 1 < b.len() && b[offset + 1] == 91u8 {
        esc
    } else if c == 126u8 && spec_tilde_can_start(b, offset) {
        esc
    } else if c == 94u8 && spec_caret_can_start(b, offset) {
        esc
    } else if c == 43u8 && spec_attention_can_start(b, offset, seq![43u8, 43u8], false) {
        esc
    } else if c == 61u8 && spec_attention_can_start(b, offset, seq![61u8, 61u8], false) {
        esc
    } else if c == 38u8 && spec_char_ref_can_start(b, offset) {
        esc
    } else if c == 92u8 || c == 91u8 || c == 93u8 {
        esc
    } else {
        b.subrange(offset, offset + w)
    }
}

fn text_special(
    input: &[u8],
    offset: usize,
    line_len: usize,
    digit_prefix: Option<usize>,
    leading: bool,
    trailing_start: usize,
) -> (r: Option<(Vec<u8>, Option<usize>, bool)>)
    requires
        offset < input@.len(),
        digit_prefix matches Some(d) ==> d <= offset,
    ensures
        ({
            let sd = match digit_prefix {
                Some(d) => Some(d as nat),
                None => None,
            };
            let spec = spec_text_special(input@, offset as int, line_len as nat, sd, leading, trailing_start as int);
            &&& r is None <==> spec is None
            &&& r matches Some(x) ==> spec matches Some(y) && x.0@ == y.0 && x.2 == y.2 && y.1 == match x.1 {
                Some(d) => Some(d as nat),
                None => None,
            }
            &&& r matches Some(x) ==> x.1 matches Some(d) ==> d <= offset + 1
        }),
{
    let n = input.len();
    let c = input[offset];
    let w = char_len_at(input, offset);
    let edge = leading || offset >= trailing_start;
    let mut piece: Vec<u8> = Vec::new();
    if c == 10u8 {
        push_hex_ref(&mut piece, 10);
        return Some((piece, digit_prefix, false));
    }
    if c == 13u8 {
        push_hex_ref(&mut piece, 13);
        return Some((piece, digit_prefix, false));
    }
    if edge && c == 32u8 {
        push_hex_ref(&mut piece, 32);
        return Some((piece, digit_prefix, leading));
    }
    if edge && c == 9u8 {
        push_hex_ref(&mut piece, 9);
        return Some((piece, digit_prefix, leading));
    }
    match control_at(input, offset) {
        Some(cp) => {
            push_hex_ref(&mut piece, cp);
            return Some((piece, digit_prefix, false));
        },
        None => {},
    }
    let digits_here = match digit_prefix {
        Some(d) => d == line_len,
        None => false,
    };
    if digits_here && is_ascii_digit(c) {
        return Some((vec![c], Some(line_len + 1), false));
    }
    if c == 58u8 && (ends_at(input, offset, &[104u8, 116u8, 116u8, 112u8]) || ends_at(
        input,
        offset,
        &[104u8, 116u8, 116u8, 112u8, 115u8],
    )) && starts_with_at(input, offset + 1, &[47u8, 47u8]) {
        return Some((vec![92u8, c], None, false));
    }
    if c == 46u8 && ends_at(input, offset, &[119u8, 119u8, 119u8]) {
        return Some((vec![92u8, c], None, false));
    }
    if c == 64u8 {
        if at_sign_can_start_email_autolink(input, offset) {
            push_hex_ref(&mut piece, 64);
        } else {
            piece.push(64u8);
        }
        return Some((piece, None, false));
    }
    let next_none_or_ws = offset + w >= n || whitespace_len_at(input, offset + w) > 0;
    let counted = match digit_prefix {
        Some(d) => d > 0,
        None => false,
    };
    if counted && (c == 46u8 || c == 41u8) && next_none_or_ws {
        return Some((vec![92u8, c], None, false));
    }
    if line_len == 0 && (c == 45u8 || c == 43u8) && next_none_or_ws {
        return Some((vec![92u8, c], None, false));
    }
    if line_len == 0 && ((c == 45u8 && offset + w < n && input[offset + w] == 45u8) || c == 61u8) {
        return Some((vec![92u8, c], None, false));
    }
    None
}

fn text_plain(input: &[u8], offset: usize, line_len: usize, ctx: InlineSerializeContext) -> (r: Vec<u8>)
    requires
        offset < input@.len(),
    ensures
        r@ == spec_text_plain(input@, offset as int, line_len as nat, ctx),
{
    let n = input.len();
    let c = input[offset];
    let w = char_len_at(input, offset);
    assert([42u8]@ =~= seq![42u8]);
    assert([95u8]@ =~= seq![95u8]);
    assert([43u8, 43u8]@ =~= seq![43u8, 43u8]);
    assert([61u8, 61u8]@ =~= seq![61u8, 61u8]);
    let esc = c == 124u8 && line_len == 0 || c == 96u8 && text_code_span_can_start(input, offset)
        || c == 42u8 && text_attention_delimiter_can_start(input, offset, &[42u8], false)
        || c == 95u8 && text_attention_delimiter_can_start(input, offset, &[95u8], true)
        || c == 60u8 && text_less_than_can_start_inline(input, offset)
        || c == 62u8 && line_len == 0
        || c == 123u8 && has_byte_from(input, offset + 1, 125u8)
        || c == 35u8 && text_atx_heading_can_start(input, offset, line_len);
    let mut out: Vec<u8> = Vec::new();
    if c == 42u8 && ctx.avoid_star_edges {
        push_hex_ref(&mut out, 42);
        return out;
    }
    if c == 124u8 && ctx.table_cell {
        push_hex_ref(&mut out, 124);
        return out;
    }
    if esc {
        return vec![92u8, c];
    }
    if c == 124u8 && text_spoiler_can_start(input, offset) {
        push_hex_ref(&mut out, 124);
        return out;
    }
    let esc2 = c == 36u8 && text_math_can_start(input, offset) || c == 33u8 && offset + 1 < n && input[offset
        + 1] == 91u8 || c == 126u8 && text_tilde_can_start(input, offset)
        || c == 94u8 && text_caret_can_start(input, offset)
        || c == 43u8 && text_attention_delimiter_can_start(input, offset, &[43u8, 43u8], false)
        || c == 61u8 && text_attention_delimiter_can_start(input, offset, &[61u8, 61u8], false)
        || c == 38u8 && text_character_reference_can_start(input, offset) || c == 92u8 || c == 91u8
        || c == 93u8;
    if esc2 {
        return vec![92u8, c];
    }
    push_range(&mut out, input, offset, offset + w);
    out
}

/// The digit prefix as a natural number.
pub open spec fn spec_digits(d: Option<usize>) -> Option<nat> {
    match d {
        Some(x) => Some(x as nat),
        None => None,
    }
}

/// `b[offset..]` escaped onto `out`, from the given state.
pub open spec fn spec_escape_text_from(
    b: Seq<u8>,
    offset: int,
    out: Seq<u8>,
    digit_prefix: Option<nat>,
    leading: bool,
    trailing_start: int,
    ctx: InlineSerializeContext,
) -> Seq<u8>
    decreases b.len() - offset,
{
    if offset < 0 || offset >= b.len() {
        out
    } else {
        let w = spec_char_len_at(b, offset) as int;
        let line_len = spec_output_line_len(out);
        match spec_text_special(b, offset, line_len, digit_prefix, leading, trailing_start) {
            Some(step) => spec_escape_text_from(b, offset + w, out + step.0, step.1, step.2, trailing_start, ctx),
            None => spec_escape_text_from(
                b,
                offset + w,
                out + spec_text_plain(b, offset, line_len, ctx),
                None,
                false,
                trailing_start,
                ctx,
            ),
        }
    }
}

/// Where the trailing spaces and tabs of `b` start.
pub open spec fn spec_trailing_start(b: Seq<u8>, preserve_trailing: bool) -> int {
    if preserve_trailing {
        spec_rstrip_sp_tab_len(b) as int
    } else {
        b.len() as int
    }
}

/// The length of `b` without its trailing spaces and tabs.
pub open spec fn spec_rstrip_sp_tab_len(b: Seq<u8>) -> nat
    decreases b.len(),
{
    if b.len() > 0 && (b.last() == 32u8 || b.last() == 9u8) {
        spec_rstrip_sp_tab_len(b.drop_last())
    } else {
        b.len()
    }
}

/// A text node's content as Markdown source: every scalar kept, referenced or
/// escaped so that it re-parses as the same text. `preserve_leading` and
/// `preserve_trailing` keep edge spaces and tabs (as references) that the
/// parser would otherwise strip.
pub open spec fn spec_escape_text(
    b: Seq<u8>,
    preserve_leading: bool,
    preserve_trailing: bool,
    ctx: InlineSerializeContext,
) -> Seq<u8> {
    spec_escape_text_from(
        b,
        0,
        Seq::empty(),
        Some(0),
        preserve_leading,
        spec_trailing_start(b, preserve_trailing),
        ctx,
    )
}

fn rstrip_sp_tab_len(input: &[u8]) -> (r: usize)
    ensures
        r == spec_rstrip_sp_tab_len(input@),
{
    let n = input.len();
    let mut t = n;
    assert(input@.subrange(0, n as int) =~= input@);
    while t > 0 && (input[t - 1] == 32u8 || input[t - 1] == 9u8)
        invariant
            t <= n == input@.len(),
            spec_rstrip_sp_tab_len(input@) == spec_rstrip_sp_tab_len(input@.subrange(0, t as int)),
        decreases t,
    {
        assert(input@.subrange(0, t as int).drop_last() =~= input@.subrange(0, t - 1));
        t = t - 1;
    }
    t
}

pub fn escape_text_with_context(
    input: &[u8],
    preserve_leading: bool,
    preserve_trailing: bool,
    ctx: InlineSerializeContext,
) -> (r: Vec<u8>)
    ensures
        r@ == spec_escape_text(input@, preserve_leading, preserve_trailing, ctx),
{
    let n = input.len();
    let trailing_start = if preserve_trailing {
        rstrip_sp_tab_len(input)
    } else {
        n
    };
    let mut out: Vec<u8> = Vec::new();
    let mut digit_prefix: Option<usize> = Some(0);
    let mut leading = preserve_leading;
    let mut offset: usize = 0;
    while offset < n
        invariant
            n == input@.len(),
            offset <= n,
            digit_prefix matches Some(d) ==> d <= offset,
            trailing_start as int == spec_trailing_start(input@, preserve_trailing),
            spec_escape_text_from(
                input@,
                offset as int,
                out@,
                spec_digits(digit_prefix),
                leading,
                trailing_start as int,
                ctx,
            ) == spec_escape_text(input@, preserve_leading, preserve_trailing, ctx),
        decreases n - offset,
    {
        let w = char_len_at(input, offset);
        let line_len = output_line_len(out.as_slice());
        match text_special(input, offset, line_len, digit_prefix, leading, trailing_start) {
            Some(step) => {
                let (piece, d, l) = step;
                let mut piece = piece;
                out.append(&mut piece);
                digit_prefix = d;
                leading = l;
            },
            None => {
                let mut piece = text_plain(input, offset, line_len, ctx);
                out.append(&mut piece);
                digit_prefix = None;
                leading = false;
            },
        }
        offset = offset + w;
    }
    out
}

} // verus!
