//! Scanners for the delimited inline extensions: insert `++`, highlight `==`,
//! underline `__`, subscript `~`, superscript `^`, spoiler `||` and inline
//! footnotes `^[...]`.
use vstd::prelude::*;

use crate::block_start::is_escaped_at;
use crate::emphasis::{delimiter_byte_run_start, spec_run_start};
use crate::inline_parse::code_span_end;
use crate::links::label_within_limit;
use crate::text::{
    char_len_at, find_sub, is_ascii_alnum, run_len, spec_char_len_at, spec_is_ascii_alnum, spec_run_len, spec_starts_with_at,
    spec_ws_len_at, starts_with_at, whitespace_len_at,
};
use crate::block_start::spec_is_escaped_at;
use crate::text_escape::{text_delimiter_can_close, text_delimiter_can_open};

verus! {

/// A run of exactly `len` copies of `marker` starts at `index` (and does not
/// continue an unescaped run before it).
pub open spec fn spec_exact_run(b: Seq<u8>, index: int, marker: u8, len: nat) -> bool {
    &&& 0 <= index < b.len()
    &&& b[index] == marker
    &&& spec_run_start(b, index, marker) == index
    &&& spec_run_len(b, index, marker) == len
}

/// Whether a run of exactly `len` copies of `marker` starts at `index`.
pub fn starts_exact_byte_run(b: &[u8], index: usize, marker: u8, len: usize) -> (r: bool)
    requires
        index <= b@.len(),
    ensures
        r == spec_exact_run(b@, index as int, marker, len as nat),
{
    index < b.len() && b[index] == marker && delimiter_byte_run_start(b, index, marker) == index && run_len(
        b,
        index,
        marker,
    ) == len
}

/// Where the scan after a backslash at `k` resumes: past the escaped scalar.
pub open spec fn spec_after_escape(b: Seq<u8>, k: int) -> int {
    if k + 1 < b.len() {
        k + 1 + spec_char_len_at(b, k + 1)
    } else {
        k + 1
    }
}

/// The scan for a simple inline closer from `cursor`: backslash escapes are
/// skipped, a line ending stops it, and the first `marker` closes when it is
/// past `start`.
pub open spec fn spec_simple_close_scan(b: Seq<u8>, start: int, cursor: int, marker: u8) -> Option<usize>
    decreases b.len() - cursor,
{
    if cursor < 0 || cursor >= b.len() {
        None
    } else if b[cursor] == 92u8 {
        spec_simple_close_scan(b, start, spec_after_escape(b, cursor), marker)
    } else if b[cursor] == 10u8 || b[cursor] == 13u8 {
        None
    } else if b[cursor] == marker {
        if cursor > start {
            Some(cursor as usize)
        } else {
            None
        }
    } else {
        spec_simple_close_scan(b, start, cursor + spec_char_len_at(b, cursor), marker)
    }
}

/// The first `marker` after `start` on the same line, skipping backslash
/// escapes; `None` at a line ending or when the content would be empty.
pub fn find_simple_inline_close(b: &[u8], start: usize, marker: u8) -> (r: Option<usize>)
    requires
        start <= b@.len(),
    ensures
        r == spec_simple_close_scan(b@, start as int, start as int, marker),
        r matches Some(c) ==> start < c < b@.len() && b@[c as int] == marker,
{
    let n = b.len();
    let mut cursor = start;
    while cursor < n
        invariant
            start <= cursor <= n + 4,
            n == b@.len(),
            spec_simple_close_scan(b@, start as int, cursor as int, marker) == spec_simple_close_scan(
                b@,
                start as int,
                start as int,
                marker,
            ),
        decreases n + 4 - cursor,
    {
        let c = b[cursor];
        if c == 92u8 {
            cursor = cursor + 1;
            if cursor < n {
                cursor = cursor + char_len_at(b, cursor);
            }
        } else if c == 10u8 || c == 13u8 {
            return None;
        } else if c == marker {
            if cursor > start {
                return Some(cursor);
            }
            return None;
        } else {
            cursor = cursor + char_len_at(b, cursor);
        }
    }
    None
}

/// The scan for a spoiler's closing `||` from `cursor` (see
/// [`find_spoiler_close`]).
pub open spec fn spec_spoiler_close_scan(b: Seq<u8>, start: int, cursor: int) -> Option<usize>
    decreases b.len() - cursor,
{
    if cursor < 0 || cursor + 1 >= b.len() {
        None
    } else if b[cursor] == 92u8 {
        spec_spoiler_close_scan(b, start, spec_after_escape(b, cursor))
    } else if b[cursor] == 10u8 || b[cursor] == 13u8 {
        None
    } else if b[cursor] == 124u8 && b[cursor + 1] == 124u8 && cursor > start && b[cursor - 1] != 124u8 {
        Some(cursor as usize)
    } else {
        spec_spoiler_close_scan(b, start, cursor + spec_char_len_at(b, cursor))
    }
}

/// The closing `||` of a spoiler opened before `start`: not right after
/// `start`, not preceded by another `|`, on the same line, skipping escapes.
pub fn find_spoiler_close(b: &[u8], start: usize) -> (r: Option<usize>)
    requires
        start <= b@.len(),
    ensures
        r == spec_spoiler_close_scan(b@, start as int, start as int),
        r matches Some(c) ==> start < c && c + 1 < b@.len() && b@[c as int] == 124u8 && b@[c + 1] == 124u8,
{
    let n = b.len();
    let mut cursor = start;
    while cursor < n && n - cursor > 1
        invariant
            start <= cursor <= n + 4,
            n == b@.len(),
            spec_spoiler_close_scan(b@, start as int, cursor as int) == spec_spoiler_close_scan(
                b@,
                start as int,
                start as int,
            ),
        decreases n + 4 - cursor,
    {
        let c = b[cursor];
        if c == 92u8 {
            cursor = cursor + 1;
            if cursor < n {
                cursor = cursor + char_len_at(b, cursor);
            }
        } else if c == 10u8 || c == 13u8 {
            return None;
        } else if c == 124u8 && b[cursor + 1] == 124u8 && cursor > start && b[cursor - 1] != 124u8 {
            return Some(cursor);
        } else {
            cursor = cursor + char_len_at(b, cursor);
        }
    }
    None
}

/// The scan for the `]` closing an inline footnote from `k`, with `depth`
/// unescaped `[` open (the count saturates at the machine word).
pub open spec fn spec_footnote_end_scan(b: Seq<u8>, k: int, depth: nat) -> Option<usize>
    decreases b.len() - k,
{
    if k < 0 || k >= b.len() {
        None
    } else {
        let next = k + spec_char_len_at(b, k);
        if spec_is_escaped_at(b, k) {
            spec_footnote_end_scan(b, next, depth)
        } else if b[k] == 91u8 {
            spec_footnote_end_scan(b, next, if depth < usize::MAX { depth + 1 } else { depth })
        } else if b[k] == 93u8 {
            if depth == 0 {
                Some(k as usize)
            } else {
                spec_footnote_end_scan(b, next, (depth - 1) as nat)
            }
        } else {
            spec_footnote_end_scan(b, next, depth)
        }
    }
}

/// The `]` closing an inline footnote whose content starts at `cursor`:
/// unescaped brackets nest.
pub fn find_inline_footnote_end(b: &[u8], cursor: usize) -> (r: Option<usize>)
    requires
        cursor <= b@.len(),
    ensures
        r == spec_footnote_end_scan(b@, cursor as int, 0),
        r matches Some(c) ==> cursor <= c < b@.len() && b@[c as int] == 93u8,
{
    let n = b.len();
    let mut k = cursor;
    let mut depth: usize = 0;
    while k < n
        invariant
            cursor <= k <= n,
            n == b@.len(),
            spec_footnote_end_scan(b@, k as int, depth as nat) == spec_footnote_end_scan(b@, cursor as int, 0),
        decreases n - k,
    {
        let c = b[k];
        if !is_escaped_at(b, k) {
            if c == 91u8 {
                if depth < usize::MAX {
                    depth = depth + 1;
                }
            } else if c == 93u8 {
                if depth == 0 {
                    return Some(k);
                }
                depth = depth - 1;
            }
        }
        k = k + char_len_at(b, k);
    }
    None
}

/// The nesting of unescaped `[` outside code spans from `cursor` up to
/// `candidate`, starting at `depth` (saturating at both ends).
pub open spec fn spec_bracket_depth_scan(b: Seq<u8>, cursor: int, candidate: int, depth: nat) -> nat
    decreases b.len() - cursor,
{
    if cursor < 0 || cursor >= candidate || cursor >= b.len() {
        depth
    } else if b[cursor] == 92u8 {
        spec_bracket_depth_scan(b, spec_after_escape(b, cursor), candidate, depth)
    } else if b[cursor] == 96u8 && (crate::inline_parse::spec_code_span_end(b, cursor) matches Some(e) && cursor < e <= b.len()) {
        spec_bracket_depth_scan(b, crate::inline_parse::spec_code_span_end(b, cursor)->Some_0 as int, candidate, depth)
    } else {
        let d: nat = if b[cursor] == 91u8 {
            if depth < usize::MAX {
                depth + 1
            } else {
                depth
            }
        } else if b[cursor] == 93u8 {
            if depth > 0 {
                (depth - 1) as nat
            } else {
                0
            }
        } else {
            depth
        };
        spec_bracket_depth_scan(b, cursor + spec_char_len_at(b, cursor), candidate, d)
    }
}

/// The candidate closer at `candidate` (`len` bytes) sits right before the `](`
/// or `][` of a link whose `[` opened between `start` and it.
pub open spec fn spec_precedes_link_close(b: Seq<u8>, start: int, candidate: int, len: int) -> bool {
    let at = candidate + len;
    &&& at < b.len() && b[at] == 93u8
    &&& at + 1 < b.len() && (b[at + 1] == 40u8 || b[at + 1] == 91u8)
    &&& spec_bracket_depth_scan(b, start, candidate, 0) > 0
}

/// Whether the candidate closer at `candidate` sits right before the `](` or
/// `][` of a link whose `[` opened between `start` and it.
fn delimiter_candidate_precedes_link_close(b: &[u8], start: usize, candidate: usize, marker_len: usize) -> (r: bool)
    requires
        start <= candidate,
        candidate + marker_len <= b@.len(),
    ensures
        r == spec_precedes_link_close(b@, start as int, candidate as int, marker_len as int),
{
    let n = b.len();
    let at = candidate + marker_len;
    if !(at < n && b[at] == 93u8) {
        return false;
    }
    if !(at + 1 < n && (b[at + 1] == 40u8 || b[at + 1] == 91u8)) {
        return false;
    }
    let mut depth: usize = 0;
    let mut cursor = start;
    while cursor < candidate
        invariant
            start <= cursor <= n,
            candidate < n == b@.len(),
            spec_bracket_depth_scan(b@, cursor as int, candidate as int, depth as nat) == spec_bracket_depth_scan(
                b@,
                start as int,
                candidate as int,
                0,
            ),
        decreases n - cursor,
    {
        let c = b[cursor];
        if c == 92u8 {
            let next = cursor + 1;
            cursor = if next < n {
                next + char_len_at(b, next)
            } else {
                next
            };
            continue;
        }
        if c == 96u8 {
            match code_span_end(b, cursor) {
                Some(e) => {
                    cursor = e;
                    continue;
                },
                None => {},
            }
        }
        if c == 91u8 {
            if depth < usize::MAX {
                depth = depth + 1;
            }
        } else if c == 93u8 {
            if depth > 0 {
                depth = depth - 1;
            }
        }
        cursor = cursor + char_len_at(b, cursor);
    }
    depth > 0
}

/// Whether `marker` starts at `index`, does not end right before it, and
/// repeats right after it.
fn starts_longer_delimiter_run(b: &[u8], index: usize, marker: &[u8]) -> (r: bool)
    requires
        index <= b@.len(),
    ensures
        r == (spec_starts_with_at(b@, index as int, marker@) && !(index >= marker@.len() && spec_starts_with_at(
            b@,
            index - marker@.len(),
            marker@,
        )) && spec_starts_with_at(b@, index + marker@.len(), marker@)),
{
    let m = marker.len();
    if !starts_with_at(b, index, marker) {
        return false;
    }
    let ends_before = index >= m && starts_with_at(b, index - m, marker);
    !ends_before && m <= b.len() - index && starts_with_at(b, index + m, marker)
}

/// Where the run of repeated `marker`s from `cursor` ends.
pub open spec fn spec_marker_run_end(b: Seq<u8>, cursor: int, marker: Seq<u8>) -> int
    decreases b.len() - cursor,
{
    if marker.len() > 0 && spec_starts_with_at(b, cursor, marker) {
        spec_marker_run_end(b, cursor + marker.len(), marker)
    } else {
        cursor
    }
}

/// The length of the run of repeated `marker`s starting at `index`.
fn delimiter_run_len(b: &[u8], index: usize, marker: &[u8]) -> (r: usize)
    requires
        index <= b@.len(),
        marker@.len() > 0,
    ensures
        index + r <= b@.len(),
        r == spec_marker_run_end(b@, index as int, marker@) - index,
{
    let n = b.len();
    let m = marker.len();
    let mut cursor = index;
    while cursor <= n && n - cursor >= m && starts_with_at(b, cursor, marker)
        invariant
            index <= cursor <= n,
            n == b@.len(),
            m == marker@.len(),
            m > 0,
            spec_marker_run_end(b@, cursor as int, marker@) == spec_marker_run_end(b@, index as int, marker@),
        decreases n - cursor,
    {
        cursor = cursor + m;
    }
    cursor - index
}

/// An occurrence found by the substring search lies inside the text at or
/// after where the search started.
pub proof fn lemma_find_sub_bounds(b: Seq<u8>, from: int, needle: Seq<u8>)
    ensures
        crate::text::spec_find_sub(b, from, needle) matches Some(c) ==> from <= c && c + needle.len() <= b.len(),
    decreases b.len() - from,
{
    if 0 <= from < b.len() && from + needle.len() <= b.len() && !spec_starts_with_at(b, from, needle) {
        lemma_find_sub_bounds(b, from + 1, needle);
    }
}

/// A run of markers ends at or after it starts and, when it covers anything,
/// inside the text.
pub proof fn lemma_marker_run_end_bounds(b: Seq<u8>, cursor: int, marker: Seq<u8>)
    requires
        0 <= cursor <= b.len(),
    ensures
        cursor <= spec_marker_run_end(b, cursor, marker) <= b.len(),
    decreases b.len() - cursor,
{
    if marker.len() > 0 && spec_starts_with_at(b, cursor, marker) {
        lemma_marker_run_end_bounds(b, cursor + marker.len(), marker);
    }
}

/// The scan for the closing `marker` from `cursor`, with `nested` openers of
/// the same kind still open (see [`find_closing_delimiter`]).
pub open spec fn spec_closing_scan(b: Seq<u8>, start: int, cursor: int, marker: Seq<u8>, underscore: bool, nested: nat) -> Option<usize>
    decreases b.len() + 1 - cursor,
{
    if cursor < 0 || cursor > b.len() || marker.len() == 0 {
        None
    } else {
        match crate::text::spec_find_sub(b, cursor, marker) {
            None => None,
            Some(c) => {
                proof {
                    lemma_find_sub_bounds(b, cursor, marker);
                    lemma_marker_run_end_bounds(b, c, marker);
                }
                let m = marker.len() as int;
                if spec_is_escaped_at(b, c) {
                    spec_closing_scan(b, start, c + m, marker, underscore, nested)
                } else if spec_precedes_link_close(b, start, c, m) {
                    spec_closing_scan(b, start, c + m, marker, underscore, nested)
                } else if m == 1 && nested == 0 && spec_starts_with_at(b, c, marker) && !(c >= m
                    && spec_starts_with_at(b, c - m, marker)) && spec_starts_with_at(b, c + m, marker) {
                    let run = spec_marker_run_end(b, c, marker) - c;
                    spec_closing_scan(b, start, if run > 0 { c + run } else { c + m }, marker, underscore, nested)
                } else if crate::text_escape::spec_can_close(b, c, m, underscore) {
                    if nested == 0 {
                        Some(c as usize)
                    } else {
                        spec_closing_scan(b, start, c + m, marker, underscore, (nested - 1) as nat)
                    }
                } else if crate::text_escape::spec_can_open(b, c, m, underscore) && nested < usize::MAX {
                    spec_closing_scan(b, start, c + m, marker, underscore, nested + 1)
                } else {
                    spec_closing_scan(b, start, c + m, marker, underscore, nested)
                }
            },
        }
    }
}

/// The closing `marker` of a delimited span whose content starts at `start`:
/// the first unescaped occurrence that can close, skipping the occurrences
/// that close an enclosing link's text, with nested openers counted.
pub fn find_closing_delimiter(b: &[u8], start: usize, marker: &[u8], underscore: bool) -> (r: Option<usize>)
    requires
        start <= b@.len(),
        marker@.len() > 0,
    ensures
        r == spec_closing_scan(b@, start as int, start as int, marker@, underscore, 0),
        r matches Some(c) ==> start <= c && c + marker@.len() <= b@.len(),
{
    let n = b.len();
    let m = marker.len();
    let mut cursor = start;
    let mut nested: usize = 0;
    while cursor <= n
        invariant
            start <= cursor,
            n == b@.len(),
            m == marker@.len(),
            m > 0,
            spec_closing_scan(b@, start as int, cursor as int, marker@, underscore, nested as nat) == spec_closing_scan(
                b@,
                start as int,
                start as int,
                marker@,
                underscore,
                0,
            ),
        decreases n + 1 - cursor,
    {
        proof {
            lemma_find_sub_bounds(b@, cursor as int, marker@);
        }
        let candidate = match find_sub(b, cursor, marker) {
            Some(c) => c,
            None => {
                return None;
            },
        };
        if is_escaped_at(b, candidate) {
            cursor = candidate + m;
            continue;
        }
        if delimiter_candidate_precedes_link_close(b, start, candidate, m) {
            cursor = candidate + m;
            continue;
        }
        if m == 1 && nested == 0 && starts_longer_delimiter_run(b, candidate, marker) {
            let run = delimiter_run_len(b, candidate, marker);
            cursor = if run > 0 {
                candidate + run
            } else {
                candidate + m
            };
            continue;
        }
        let can_open = text_delimiter_can_open(b, candidate, m, underscore);
        let can_close = text_delimiter_can_close(b, candidate, m, underscore);
        if can_close {
            if nested == 0 {
                return Some(candidate);
            }
            nested = nested - 1;
            cursor = candidate + m;
            continue;
        }
        if can_open && nested < usize::MAX {
            nested = nested + 1;
        }
        cursor = candidate + m;
    }
    None
}

/// The characters on both sides of the `~` at `index` are ASCII letters or
/// digits.
pub open spec fn spec_tilde_interior(b: Seq<u8>, index: int) -> bool {
    index > 0 && spec_is_ascii_alnum(b[index - 1]) && index + 1 < b.len() && spec_is_ascii_alnum(b[index + 1])
}

/// A lone, unescaped `~` at `k` that can close a single-tilde strikethrough.
pub open spec fn spec_single_tilde_closer(b: Seq<u8>, k: int) -> bool {
    &&& 0 <= k < b.len() && b[k] == 126u8
    &&& !spec_is_escaped_at(b, k)
    &&& spec_exact_run(b, k, 126u8, 1)
    &&& crate::text_escape::spec_can_close(b, k, 1, false)
    &&& !spec_tilde_interior(b, k)
}

/// Whether the characters on both sides of the `~` at `index` are ASCII
/// letters or digits.
fn tilde_is_alphanumeric_interior(b: &[u8], index: usize) -> (r: bool)
    requires
        index < b@.len(),
    ensures
        r == spec_tilde_interior(b@, index as int),
{
    index > 0 && is_ascii_alnum(b[index - 1]) && index + 1 < b.len() && is_ascii_alnum(b[index + 1])
}

/// A lone `~` at `index` that can open a single-tilde strikethrough.
fn single_tilde_can_open_delete(b: &[u8], index: usize) -> (r: bool)
    requires
        index <= b@.len(),
{
    starts_exact_byte_run(b, index, 126u8, 1) && text_delimiter_can_open(b, index, 1, false)
        && !tilde_is_alphanumeric_interior(b, index)
}

/// A lone `~` at `index` that can close a single-tilde strikethrough.
fn single_tilde_can_close_delete(b: &[u8], index: usize) -> (r: bool)
    requires
        index < b@.len(),
    ensures
        r == (spec_exact_run(b@, index as int, 126u8, 1) && crate::text_escape::spec_can_close(b@, index as int, 1, false)
            && !spec_tilde_interior(b@, index as int)),
{
    starts_exact_byte_run(b, index, 126u8, 1) && text_delimiter_can_close(b, index, 1, false)
        && !tilde_is_alphanumeric_interior(b, index)
}

/// Whether a `~` from `start` on can close a single-tilde strikethrough.
fn find_single_tilde_delete_close(b: &[u8], start: usize) -> (r: bool)
    requires
        start <= b@.len(),
    ensures
        r == exists|k: int| start <= k < b@.len() && #[trigger] spec_single_tilde_closer(b@, k),
{
    let n = b.len();
    let mut cursor = start;
    while cursor < n
        invariant
            start <= cursor <= n,
            n == b@.len(),
            forall|k: int| start <= k < cursor ==> !#[trigger] spec_single_tilde_closer(b@, k),
        decreases n - cursor,
    {
        if b[cursor] == 126u8 && !is_escaped_at(b, cursor) && single_tilde_can_close_delete(b, cursor) {
            assert(spec_single_tilde_closer(b@, cursor as int));
            return true;
        }
        cursor = cursor + 1;
    }
    false
}

/// Whether the `~` at `index` belongs to a single-tilde strikethrough rather
/// than to a subscript.
pub fn single_tilde_delete_takes_precedence(
    b: &[u8],
    index: usize,
    strikethrough: bool,
    single_tilde: bool,
) -> (r: bool)
    requires
        index < b@.len(),
{
    let n = b.len();
    strikethrough && single_tilde && single_tilde_can_open_delete(b, index) && find_single_tilde_delete_close(
        b,
        index + 1,
    )
}

/// The scan for the first unescaped `]` from `k`, scalar by scalar.
pub open spec fn spec_unescaped_close_bracket(b: Seq<u8>, k: int) -> Option<usize>
    decreases b.len() - k,
{
    if k < 0 || k >= b.len() {
        None
    } else if b[k] == 93u8 && !spec_is_escaped_at(b, k) {
        Some(k as usize)
    } else {
        spec_unescaped_close_bracket(b, k + spec_char_len_at(b, k))
    }
}

/// The first unescaped `]` at or after `cursor`.
pub fn find_footnote_reference_label_end(b: &[u8], cursor: usize) -> (r: Option<usize>)
    requires
        cursor <= b@.len(),
    ensures
        r == spec_unescaped_close_bracket(b@, cursor as int),
        r matches Some(c) ==> cursor <= c < b@.len() && b@[c as int] == 93u8,
{
    let n = b.len();
    let mut k = cursor;
    while k < n
        invariant
            cursor <= k <= n,
            n == b@.len(),
            spec_unescaped_close_bracket(b@, k as int) == spec_unescaped_close_bracket(b@, cursor as int),
        decreases n - k,
    {
        if b[k] == 93u8 && !is_escaped_at(b, k) {
            return Some(k);
        }
        k = k + char_len_at(b, k);
    }
    None
}

/// No white-space scalar starts in `b[k..end]`, read scalar by scalar.
pub open spec fn spec_no_ws_from(b: Seq<u8>, k: int, end: int) -> bool
    decreases b.len() - k,
{
    if k < 0 || k >= end || k >= b.len() {
        true
    } else if spec_ws_len_at(b, k) > 0 {
        false
    } else {
        spec_no_ws_from(b, k + spec_char_len_at(b, k), end)
    }
}

/// A footnote label: non-empty, at most 999 characters, no whitespace.
pub fn is_footnote_label(b: &[u8], start: usize, end: usize) -> (r: bool)
    requires
        start <= end <= b@.len(),
    ensures
        r == (start < end && crate::links::spec_within_limit_from(b@, start as int, end as int, 0) && spec_no_ws_from(
            b@,
            start as int,
            end as int,
        )),
{
    if start == end || !label_within_limit(b, start, end) {
        return false;
    }
    let n = b.len();
    let mut k = start;
    while k < end
        invariant
            start <= k <= n,
            n == b@.len(),
            end <= n,
            spec_no_ws_from(b@, k as int, end as int) == spec_no_ws_from(b@, start as int, end as int),
        decreases n - k,
    {
        if whitespace_len_at(b, k) > 0 {
            return false;
        }
        k = k + char_len_at(b, k);
    }
    true
}

/// Whether `c` is a tab, line feed, carriage return or space.
pub open spec fn spec_is_math_space(c: u8) -> bool {
    c == 9u8 || c == 10u8 || c == 13u8 || c == 32u8
}

/// A run lies inside the text.
pub proof fn lemma_run_len_within(b: Seq<u8>, k: int, x: u8)
    requires
        0 <= k,
    ensures
        k + spec_run_len(b, k, x) <= b.len() || spec_run_len(b, k, x) == 0,
    decreases b.len() - k,
{
    if 0 <= k < b.len() && b[k] == x {
        lemma_run_len_within(b, k + 1, x);
    }
}

/// The scan for the closing dollar run from `cursor` (see
/// [`scan_to_closing_dollar`]).
pub open spec fn spec_dollar_scan(b: Seq<u8>, cursor: int, open: int) -> Option<usize>
    decreases b.len() - cursor,
{
    if cursor < 1 || open < 1 {
        None
    } else {
        match crate::links::spec_find_byte(b, cursor, 36u8) {
            None => None,
            Some(c) => {
                proof {
                    crate::literal_autolink::lemma_find_byte_bounds(b, cursor, 36u8);
                    lemma_run_len_within(b, c, 36u8);
                }
                let prev = b[c - 1];
                let rl = spec_run_len(b, c, 36u8);
                let run = if rl < open {
                    rl as int
                } else {
                    open
                };
                if open == 1 && spec_is_math_space(prev) {
                    None
                } else if open == 1 && prev == 92u8 {
                    spec_dollar_scan(b, c + 1, open)
                } else if open == 1 && c + run < b.len() && crate::text::spec_is_ascii_digit(b[c + run]) {
                    None
                } else if run == open {
                    Some((c + run) as usize)
                } else {
                    spec_dollar_scan(b, if run == 0 { c + 1 } else { c + run }, open)
                }
            },
        }
    }
}

/// Just past the closing run of exactly `open` dollars for math whose content
/// starts at `start` (see [`spec_dollar_scan`]); a single `$` may not be
/// followed by a space.
pub open spec fn spec_closing_dollar(b: Seq<u8>, start: int, open: int) -> Option<usize> {
    if open == 1 && start < b.len() && spec_is_math_space(b[start]) {
        None
    } else {
        spec_dollar_scan(b, start, open)
    }
}

/// Just past the closing run of exactly `open` dollars for math whose content
/// starts at `start`. A single `$` may not be followed by a space nor closed
/// after one, its escaped `\$` is content, and it may not close before a
/// digit.
pub fn scan_to_closing_dollar(b: &[u8], start: usize, open: usize) -> (r: Option<usize>)
    requires
        1 <= start <= b@.len(),
        1 <= open <= 2,
    ensures
        r == spec_closing_dollar(b@, start as int, open as int),
        r matches Some(e) ==> start < e <= b@.len(),
{
    let n = b.len();
    if open == 1 && start < n && spec_math_space_exec(b[start]) {
        return None;
    }
    let ghost total = spec_dollar_scan(b@, start as int, open as int);
    let mut cursor = start;
    loop
        invariant
            1 <= start <= cursor <= n,
            n == b@.len(),
            1 <= open <= 2,
            spec_dollar_scan(b@, cursor as int, open as int) == total,
            total == spec_closing_dollar(b@, start as int, open as int),
        decreases n - cursor,
    {
        let ghost c0 = cursor;
        proof {
            crate::literal_autolink::lemma_find_byte_bounds(b@, cursor as int, 36u8);
        }
        while cursor < n && b[cursor] != 36u8
            invariant
                start <= c0 <= cursor <= n,
                n == b@.len(),
                crate::links::spec_find_byte(b@, cursor as int, 36u8) == crate::links::spec_find_byte(b@, c0 as int, 36u8),
            decreases n - cursor,
        {
            cursor = cursor + 1;
        }
        if cursor >= n {
            return None;
        }
        let prev = b[cursor - 1];
        if open == 1 && spec_math_space_exec(prev) {
            return None;
        }
        if open == 1 && prev == 92u8 {
            cursor = cursor + 1;
            continue;
        }
        let rl = run_len(b, cursor, 36u8);
        let run = if rl < open {
            rl
        } else {
            open
        };
        if open == 1 && cursor + run < n && crate::text::is_ascii_digit(b[cursor + run]) {
            return None;
        }
        if run == open {
            return Some(cursor + run);
        }
        cursor = if run == 0 {
            cursor + 1
        } else {
            cursor + run
        };
    }
}

fn spec_math_space_exec(c: u8) -> (r: bool)
    ensures
        r == spec_is_math_space(c),
{
    c == 9u8 || c == 10u8 || c == 13u8 || c == 32u8
}

/// Inline math at `index`: where it ends, the range of its raw content and
/// the number of dollars (see [`parse_math_inline`]).
pub open spec fn spec_math_inline(b: Seq<u8>, index: int) -> Option<(usize, usize, usize, usize)> {
    if spec_starts_with_at(b, index, seq![36u8, 96u8]) {
        match crate::text::spec_find_sub(b, index + 2, seq![96u8, 36u8]) {
            Some(close) => if close > index + 2 {
                Some(((close + 2) as usize, (index + 2) as usize, close as usize, 0usize))
            } else {
                None
            },
            None => None,
        }
    } else {
        let open = spec_run_len(b, index, 36u8);
        if open == 0 || open > 2 {
            None
        } else {
            let cs = index + open;
            match spec_closing_dollar(b, cs, open as int) {
                None => None,
                Some(close) => if close < open || close - open <= cs {
                    None
                } else {
                    Some((close, cs as usize, (close - open) as usize, open as usize))
                },
            }
        }
    }
}

/// Inline math at `index`: the math-code form `$` backtick ... backtick `$`,
/// or one or two dollars around non-empty content. Where it ends, the range of
/// its raw content, and the number of dollars (zero for the code form).
pub fn parse_math_inline(b: &[u8], index: usize) -> (r: Option<(usize, usize, usize, usize)>)
    requires
        index < b@.len(),
    ensures
        r == spec_math_inline(b@, index as int),
        r matches Some(x) ==> index < x.0 <= b@.len() && index < x.1 <= x.2 <= x.0 && x.3 <= 2,
{
    let n = b.len();
    if starts_with_at(b, index, &[36u8, 96u8]) {
        match find_sub(b, index + 2, &[96u8, 36u8]) {
            Some(close) => {
                if close > index + 2 {
                    return Some((close + 2, index + 2, close, 0));
                }
            },
            None => {},
        }
        return None;
    }
    let open = run_len(b, index, 36u8);
    if open == 0 || open > 2 {
        return None;
    }
    let content_start = index + open;
    let close = scan_to_closing_dollar(b, content_start, open)?;
    if close < open {
        return None;
    }
    let content_end = close - open;
    if content_end <= content_start {
        return None;
    }
    Some((close, content_start, content_end, open))
}

/// The scan for the first `]]` from `cursor` on its line, skipping escapes.
pub open spec fn spec_wikilink_close_scan(b: Seq<u8>, cursor: int) -> Option<usize>
    decreases b.len() - cursor,
{
    if cursor < 0 || cursor >= b.len() {
        None
    } else if b[cursor] == 92u8 {
        spec_wikilink_close_scan(b, spec_after_escape(b, cursor))
    } else if b[cursor] == 10u8 || b[cursor] == 13u8 {
        None
    } else if b[cursor] == 93u8 && cursor + 1 < b.len() && b[cursor + 1] == 93u8 {
        Some(cursor as usize)
    } else {
        spec_wikilink_close_scan(b, cursor + spec_char_len_at(b, cursor))
    }
}

/// The first `]]` from `start` on the same line, skipping backslash escapes.
pub fn find_wikilink_close(b: &[u8], start: usize) -> (r: Option<usize>)
    requires
        start <= b@.len(),
    ensures
        r == spec_wikilink_close_scan(b@, start as int),
        r matches Some(c) ==> start <= c && c + 1 < b@.len() && b@[c as int] == 93u8 && b@[c + 1] == 93u8,
{
    let n = b.len();
    let mut cursor = start;
    while cursor < n
        invariant
            start <= cursor <= n + 4,
            n == b@.len(),
            spec_wikilink_close_scan(b@, cursor as int) == spec_wikilink_close_scan(b@, start as int),
        decreases n + 4 - cursor,
    {
        let c = b[cursor];
        if c == 92u8 {
            cursor = cursor + 1;
            if cursor < n {
                cursor = cursor + char_len_at(b, cursor);
            }
        } else if c == 10u8 || c == 13u8 {
            return None;
        } else if c == 93u8 && cursor + 1 < n && b[cursor + 1] == 93u8 {
            return Some(cursor);
        } else {
            cursor = cursor + char_len_at(b, cursor);
        }
    }
    None
}

/// The scan for the first `|` of `b[cursor..end]`, skipping backslash
/// escapes (an escape at `end - 1` ends the scan).
pub open spec fn spec_separator_scan(b: Seq<u8>, cursor: int, end: int) -> Option<usize>
    decreases b.len() - cursor,
{
    if cursor < 0 || cursor >= end || cursor >= b.len() {
        None
    } else if b[cursor] == 92u8 {
        spec_separator_scan(
            b,
            if cursor + 1 < end && cursor + 1 < b.len() {
                cursor + 1 + spec_char_len_at(b, cursor + 1)
            } else {
                cursor + 1
            },
            end,
        )
    } else if b[cursor] == 124u8 {
        Some(cursor as usize)
    } else {
        spec_separator_scan(b, cursor + spec_char_len_at(b, cursor), end)
    }
}

/// The first unescaped `|` of `b[start..end]`.
pub fn find_wikilink_separator(b: &[u8], start: usize, end: usize) -> (r: Option<usize>)
    requires
        start <= end <= b@.len(),
    ensures
        r == spec_separator_scan(b@, start as int, end as int),
        r matches Some(c) ==> start <= c < end && b@[c as int] == 124u8,
{
    let mut cursor = start;
    while cursor < end
        invariant
            start <= cursor <= end + 4,
            end <= b@.len(),
            spec_separator_scan(b@, cursor as int, end as int) == spec_separator_scan(b@, start as int, end as int),
        decreases end + 4 - cursor,
    {
        let c = b[cursor];
        if c == 92u8 {
            cursor = cursor + 1;
            if cursor < end {
                cursor = cursor + char_len_at(b, cursor);
            }
        } else if c == 124u8 {
            return Some(cursor);
        } else {
            cursor = cursor + char_len_at(b, cursor);
        }
    }
    None
}

/// A byte of a shortcode name: ASCII letters, digits, `_`, `-`, `+`.
pub open spec fn spec_is_shortcode_byte(c: u8) -> bool {
    spec_is_ascii_alnum(c) || c == 95u8 || c == 45u8 || c == 43u8
}

/// The scan of a shortcode name from `cursor`: name bytes up to the closing
/// `:`, which must not directly follow the opening one.
pub open spec fn spec_shortcode_scan(b: Seq<u8>, index: int, cursor: int) -> Option<usize>
    decreases b.len() - cursor,
{
    if cursor < 0 || cursor >= b.len() {
        None
    } else if b[cursor] == 58u8 {
        if cursor == index + 1 {
            None
        } else {
            Some((cursor + 1) as usize)
        }
    } else if !spec_is_shortcode_byte(b[cursor]) {
        None
    } else {
        spec_shortcode_scan(b, index, cursor + 1)
    }
}

/// The shortcode `:name:` at `index`: where it ends.
pub open spec fn spec_shortcode(b: Seq<u8>, index: int) -> Option<usize> {
    if index + 1 < b.len() && b[index + 1] == 58u8 {
        None
    } else {
        spec_shortcode_scan(b, index, index + 1)
    }
}

/// A shortcode `:name:` at `index` (not `::`), its name made of ASCII letters,
/// digits, `_`, `-` and `+`: where it ends.
pub fn parse_shortcode(b: &[u8], index: usize) -> (r: Option<usize>)
    requires
        index < b@.len(),
    ensures
        r == spec_shortcode(b@, index as int),
        r matches Some(e) ==> index + 2 < e <= b@.len(),
{
    let n = b.len();
    if index + 1 < n && b[index + 1] == 58u8 {
        return None;
    }
    let mut cursor = index + 1;
    while cursor < n
        invariant
            index < cursor <= n,
            n == b@.len(),
            spec_shortcode_scan(b@, index as int, cursor as int) == spec_shortcode(b@, index as int),
        decreases n - cursor,
    {
        let c = b[cursor];
        if c == 58u8 {
            if cursor == index + 1 {
                return None;
            }
            return Some(cursor + 1);
        }
        if !(is_ascii_alnum(c) || c == 95u8 || c == 45u8 || c == 43u8) {
            return None;
        }
        cursor = cursor + 1;
    }
    None
}

} // verus!
