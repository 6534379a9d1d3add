//! MDX scanning: brace expressions (with JavaScript strings, template
//! literals and comments), JSX tags and elements, and ESM `import`/`export`
//! blocks.
use vstd::prelude::*;

use crate::parse::{is_blank, spec_is_blank, spec_lines_ordered, spec_lines_within, Line};
use crate::text::{
    bytes_equal, is_ascii_alnum, is_ascii_alpha, spec_is_ascii_alnum, spec_is_ascii_alpha, spec_starts_with_at,
    spec_ws_len_at, starts_with_at, whitespace_len_at,
};

verus! {

// ---------------------------------------------------------------------------
// Brace expressions.
// ---------------------------------------------------------------------------

/// Where a brace-expression scan is: in code, inside a single-quoted,
/// double-quoted or template string, or inside a line or block comment.
#[derive(Clone, Copy, Debug, PartialEq, Eq, Structural)]
pub enum MdxBraceState {
    Normal,
    SingleQuoted,
    DoubleQuoted,
    Template,
    LineComment,
    BlockComment,
}

/// One byte inside a string that `delimiter` closes: after a `\` the byte is
/// taken literally; the delimiter returns to code.
pub open spec fn spec_quote_step(byte: u8, delimiter: u8, state: MdxBraceState, escaped: bool) -> (MdxBraceState, bool) {
    if escaped {
        (state, false)
    } else if byte == 92u8 {
        (state, true)
    } else if byte == delimiter {
        (MdxBraceState::Normal, false)
    } else {
        (state, false)
    }
}

fn quote_step(byte: u8, delimiter: u8, state: MdxBraceState, escaped: bool) -> (r: (MdxBraceState, bool))
    ensures
        r == spec_quote_step(byte, delimiter, state, escaped),
{
    if escaped {
        (state, false)
    } else if byte == 92u8 {
        (state, true)
    } else if byte == delimiter {
        (MdxBraceState::Normal, false)
    } else {
        (state, false)
    }
}

/// One step of a brace expression nested in a JSX tag: the new depth, state and
/// escape flag, and whether the following byte is consumed too (a comment
/// opener or a block-comment closer). A closing brace at depth one ends the
/// expression.
pub open spec fn spec_expression_step(byte: u8, next: Option<u8>, depth: nat, state: MdxBraceState, escaped: bool) -> (
    nat,
    MdxBraceState,
    bool,
    bool,
) {
    match state {
        MdxBraceState::Normal => {
            if byte == 39u8 {
                (depth, MdxBraceState::SingleQuoted, escaped, false)
            } else if byte == 34u8 {
                (depth, MdxBraceState::DoubleQuoted, escaped, false)
            } else if byte == 96u8 {
                (depth, MdxBraceState::Template, escaped, false)
            } else if byte == 47u8 && next == Some(47u8) {
                (depth, MdxBraceState::LineComment, escaped, true)
            } else if byte == 47u8 && next == Some(42u8) {
                (depth, MdxBraceState::BlockComment, escaped, true)
            } else if byte == 123u8 {
                (depth + 1, state, escaped, false)
            } else if byte == 125u8 {
                let d: nat = if depth > 0 {
                    (depth - 1) as nat
                } else {
                    0
                };
                if d == 0 {
                    (d, MdxBraceState::Normal, false, false)
                } else {
                    (d, state, escaped, false)
                }
            } else {
                (depth, state, escaped, false)
            }
        },
        MdxBraceState::SingleQuoted => {
            let (s, e) = spec_quote_step(byte, 39u8, state, escaped);
            (depth, s, e, false)
        },
        MdxBraceState::DoubleQuoted => {
            let (s, e) = spec_quote_step(byte, 34u8, state, escaped);
            (depth, s, e, false)
        },
        MdxBraceState::Template => {
            let (s, e) = spec_quote_step(byte, 96u8, state, escaped);
            (depth, s, e, false)
        },
        MdxBraceState::LineComment => {
            if byte == 10u8 {
                (depth, MdxBraceState::Normal, escaped, false)
            } else {
                (depth, state, escaped, false)
            }
        },
        MdxBraceState::BlockComment => {
            if byte == 42u8 && next == Some(47u8) {
                (depth, MdxBraceState::Normal, escaped, true)
            } else {
                (depth, state, escaped, false)
            }
        },
    }
}

fn expression_step(byte: u8, next: Option<u8>, depth: usize, state: MdxBraceState, escaped: bool) -> (r: (
    usize,
    MdxBraceState,
    bool,
    bool,
))
    requires
        depth < usize::MAX,
    ensures
        (r.0 as nat, r.1, r.2, r.3) == spec_expression_step(byte, next, depth as nat, state, escaped),
        r.0 <= depth + 1,
{
    match state {
        MdxBraceState::Normal => {
            if byte == 39u8 {
                (depth, MdxBraceState::SingleQuoted, escaped, false)
            } else if byte == 34u8 {
                (depth, MdxBraceState::DoubleQuoted, escaped, false)
            } else if byte == 96u8 {
                (depth, MdxBraceState::Template, escaped, false)
            } else if byte == 47u8 && next == Some(47u8) {
                (depth, MdxBraceState::LineComment, escaped, true)
            } else if byte == 47u8 && next == Some(42u8) {
                (depth, MdxBraceState::BlockComment, escaped, true)
            } else if byte == 123u8 {
                (depth + 1, state, escaped, false)
            } else if byte == 125u8 {
                let d: usize = if depth > 0 {
                    depth - 1
                } else {
                    0
                };
                if d == 0 {
                    (d, MdxBraceState::Normal, false, false)
                } else {
                    (d, state, escaped, false)
                }
            } else {
                (depth, state, escaped, false)
            }
        },
        MdxBraceState::SingleQuoted => {
            let (s, e) = quote_step(byte, 39u8, state, escaped);
            (depth, s, e, false)
        },
        MdxBraceState::DoubleQuoted => {
            let (s, e) = quote_step(byte, 34u8, state, escaped);
            (depth, s, e, false)
        },
        MdxBraceState::Template => {
            let (s, e) = quote_step(byte, 96u8, state, escaped);
            (depth, s, e, false)
        },
        MdxBraceState::LineComment => {
            if byte == 10u8 {
                (depth, MdxBraceState::Normal, escaped, false)
            } else {
                (depth, state, escaped, false)
            }
        },
        MdxBraceState::BlockComment => {
            if byte == 42u8 && next == Some(47u8) {
                (depth, MdxBraceState::Normal, escaped, true)
            } else {
                (depth, state, escaped, false)
            }
        },
    }
}

/// The byte after `k`, if any.
pub open spec fn spec_next_byte(b: Seq<u8>, k: int) -> Option<u8> {
    if 0 <= k + 1 < b.len() {
        Some(b[k + 1])
    } else {
        None
    }
}

fn next_byte(b: &[u8], k: usize) -> (r: Option<u8>)
    ensures
        r == spec_next_byte(b@, k as int),
{
    if k < b.len() && b.len() - k > 1 {
        Some(b[k + 1])
    } else {
        None
    }
}

/// The scan of an inline brace expression from `k`, at `depth` open braces:
/// where the brace that closes the outermost one is. A `}` with no brace open
/// ends the scan without a close.
pub open spec fn spec_inline_expression_scan(b: Seq<u8>, k: int, depth: nat, state: MdxBraceState, escaped: bool) -> Option<int>
    decreases b.len() - k,
{
    if k < 0 || k >= b.len() {
        None
    } else {
        let x = b[k];
        let next = spec_next_byte(b, k);
        match state {
            MdxBraceState::Normal => {
                if x == 39u8 {
                    spec_inline_expression_scan(b, k + 1, depth, MdxBraceState::SingleQuoted, escaped)
                } else if x == 34u8 {
                    spec_inline_expression_scan(b, k + 1, depth, MdxBraceState::DoubleQuoted, escaped)
                } else if x == 96u8 {
                    spec_inline_expression_scan(b, k + 1, depth, MdxBraceState::Template, escaped)
                } else if x == 47u8 && next == Some(47u8) {
                    spec_inline_expression_scan(b, k + 2, depth, MdxBraceState::LineComment, escaped)
                } else if x == 47u8 && next == Some(42u8) {
                    spec_inline_expression_scan(b, k + 2, depth, MdxBraceState::BlockComment, escaped)
                } else if x == 123u8 {
                    spec_inline_expression_scan(b, k + 1, depth + 1, state, escaped)
                } else if x == 125u8 {
                    if depth == 0 {
                        None
                    } else if depth == 1 {
                        Some(k)
                    } else {
                        spec_inline_expression_scan(b, k + 1, (depth - 1) as nat, state, escaped)
                    }
                } else {
                    spec_inline_expression_scan(b, k + 1, depth, state, escaped)
                }
            },
            MdxBraceState::LineComment => {
                if x == 10u8 {
                    spec_inline_expression_scan(b, k + 1, depth, MdxBraceState::Normal, escaped)
                } else {
                    spec_inline_expression_scan(b, k + 1, depth, state, escaped)
                }
            },
            MdxBraceState::BlockComment => {
                if x == 42u8 && next == Some(47u8) {
                    spec_inline_expression_scan(b, k + 2, depth, MdxBraceState::Normal, escaped)
                } else {
                    spec_inline_expression_scan(b, k + 1, depth, state, escaped)
                }
            },
            _ => {
                let delimiter: u8 = if state == MdxBraceState::SingleQuoted {
                    39u8
                } else if state == MdxBraceState::DoubleQuoted {
                    34u8
                } else {
                    96u8
                };
                let (s, e) = spec_quote_step(x, delimiter, state, escaped);
                spec_inline_expression_scan(b, k + 1, depth, s, e)
            },
        }
    }
}

/// The brace that closes the inline expression opened by the `{` at `open`.
pub open spec fn spec_inline_expression_close(b: Seq<u8>, open: int) -> Option<int> {
    if 0 <= open < b.len() && b[open] == 123u8 {
        spec_inline_expression_scan(b, open, 0, MdxBraceState::Normal, false)
    } else {
        None
    }
}

/// A closing brace found by the scan lies at or after where it started.
pub proof fn lemma_inline_expression_scan_bounds(b: Seq<u8>, k: int, depth: nat, state: MdxBraceState, escaped: bool)
    ensures
        spec_inline_expression_scan(b, k, depth, state, escaped) matches Some(c) ==> k <= c < b.len() && b[c]
            == 125u8,
    decreases b.len() - k,
{
    if 0 <= k < b.len() {
        let x = b[k];
        let next = spec_next_byte(b, k);
        match state {
            MdxBraceState::Normal => {
                if x == 47u8 && (next == Some(47u8) || next == Some(42u8)) {
                    if next == Some(47u8) {
                        lemma_inline_expression_scan_bounds(b, k + 2, depth, MdxBraceState::LineComment, escaped);
                    } else {
                        lemma_inline_expression_scan_bounds(b, k + 2, depth, MdxBraceState::BlockComment, escaped);
                    }
                } else if x == 39u8 {
                    lemma_inline_expression_scan_bounds(b, k + 1, depth, MdxBraceState::SingleQuoted, escaped);
                } else if x == 34u8 {
                    lemma_inline_expression_scan_bounds(b, k + 1, depth, MdxBraceState::DoubleQuoted, escaped);
                } else if x == 96u8 {
                    lemma_inline_expression_scan_bounds(b, k + 1, depth, MdxBraceState::Template, escaped);
                } else if x == 123u8 {
                    lemma_inline_expression_scan_bounds(b, k + 1, depth + 1, state, escaped);
                } else if x == 125u8 {
                    if depth > 1 {
                        lemma_inline_expression_scan_bounds(b, k + 1, (depth - 1) as nat, state, escaped);
                    }
                } else {
                    lemma_inline_expression_scan_bounds(b, k + 1, depth, state, escaped);
                }
            },
            MdxBraceState::LineComment => {
                if x == 10u8 {
                    lemma_inline_expression_scan_bounds(b, k + 1, depth, MdxBraceState::Normal, escaped);
                } else {
                    lemma_inline_expression_scan_bounds(b, k + 1, depth, state, escaped);
                }
            },
            MdxBraceState::BlockComment => {
                if x == 42u8 && next == Some(47u8) {
                    lemma_inline_expression_scan_bounds(b, k + 2, depth, MdxBraceState::Normal, escaped);
                } else {
                    lemma_inline_expression_scan_bounds(b, k + 1, depth, state, escaped);
                }
            },
            _ => {
                let delimiter: u8 = if state == MdxBraceState::SingleQuoted {
                    39u8
                } else if state == MdxBraceState::DoubleQuoted {
                    34u8
                } else {
                    96u8
                };
                let (s, e) = spec_quote_step(x, delimiter, state, escaped);
                lemma_inline_expression_scan_bounds(b, k + 1, depth, s, e);
            },
        }
    }
}

/// The brace that closes the inline expression opened by the `{` at `open`
/// (see [`spec_inline_expression_close`]).
pub fn inline_expression_close(b: &[u8], open: usize) -> (r: Option<usize>)
    ensures
        r == (match spec_inline_expression_close(b@, open as int) {
            Some(c) => Some(c as usize),
            None => None,
        }),
        r matches Some(c) ==> open < c < b@.len(),
{
    let n = b.len();
    if !(open < n && b[open] == 123u8) {
        return None;
    }
    proof {
        lemma_inline_expression_scan_bounds(b@, open as int, 0, MdxBraceState::Normal, false);
    }
    let ghost total = spec_inline_expression_scan(b@, open as int, 0, MdxBraceState::Normal, false);
    let mut k = open;
    let mut depth: usize = 0;
    let mut state = MdxBraceState::Normal;
    let mut escaped = false;
    while k < n
        invariant
            n == b@.len(),
            open <= k,
            depth <= k - open,
            k > open ==> depth >= 1,
            k == open ==> depth == 0 && state == MdxBraceState::Normal,
            b@[open as int] == 123u8,
            spec_inline_expression_scan(b@, k as int, depth as nat, state, escaped) == total,
            total matches Some(c) ==> open <= c < n && b@[c] == 125u8,
            total == spec_inline_expression_close(b@, open as int),
        decreases n - k,
    {
        let x = b[k];
        let next = next_byte(b, k);
        match state {
            MdxBraceState::Normal => {
                if x == 39u8 {
                    state = MdxBraceState::SingleQuoted;
                    k = k + 1;
                } else if x == 34u8 {
                    state = MdxBraceState::DoubleQuoted;
                    k = k + 1;
                } else if x == 96u8 {
                    state = MdxBraceState::Template;
                    k = k + 1;
                } else if x == 47u8 && next == Some(47u8) {
                    state = MdxBraceState::LineComment;
                    k = k + 2;
                } else if x == 47u8 && next == Some(42u8) {
                    state = MdxBraceState::BlockComment;
                    k = k + 2;
                } else if x == 123u8 {
                    depth = depth + 1;
                    k = k + 1;
                } else if x == 125u8 {
                    if depth == 0 {
                        return None;
                    } else if depth == 1 {
                        return Some(k);
                    }
                    depth = depth - 1;
                    k = k + 1;
                } else {
                    k = k + 1;
                }
            },
            MdxBraceState::LineComment => {
                if x == 10u8 {
                    state = MdxBraceState::Normal;
                }
                k = k + 1;
            },
            MdxBraceState::BlockComment => {
                if x == 42u8 && next == Some(47u8) {
                    state = MdxBraceState::Normal;
                    k = k + 2;
                } else {
                    k = k + 1;
                }
            },
            _ => {
                let delimiter: u8 = if state == MdxBraceState::SingleQuoted {
                    39u8
                } else if state == MdxBraceState::DoubleQuoted {
                    34u8
                } else {
                    96u8
                };
                let (s, e) = quote_step(x, delimiter, state, escaped);
                state = s;
                escaped = e;
                k = k + 1;
            },
        }
    }
    None
}

// ---------------------------------------------------------------------------
// JSX tags.
// ---------------------------------------------------------------------------

/// A byte that can start a JSX name: an ASCII letter, `_` or `$`.
pub open spec fn spec_is_jsx_name_start(x: u8) -> bool {
    spec_is_ascii_alpha(x) || x == 95u8 || x == 36u8
}

/// A byte of a JSX name: ASCII alphanumerics, `.`, `:`, `_`, `-`, `$`.
pub open spec fn spec_is_jsx_name_byte(x: u8) -> bool {
    spec_is_ascii_alnum(x) || x == 46u8 || x == 58u8 || x == 95u8 || x == 45u8 || x == 36u8
}

/// ASCII white space (`u8::is_ascii_whitespace`): space, tab, line feed, form
/// feed, carriage return.
pub open spec fn spec_is_ascii_ws(x: u8) -> bool {
    x == 32u8 || x == 9u8 || x == 10u8 || x == 12u8 || x == 13u8
}

/// A byte that may follow a JSX name: ASCII white space, `/`, `>`, `{`, `}`.
pub open spec fn spec_is_jsx_name_delimiter(x: u8) -> bool {
    spec_is_ascii_ws(x) || x == 47u8 || x == 62u8 || x == 123u8 || x == 125u8
}

fn is_ascii_ws(x: u8) -> (r: bool)
    ensures
        r == spec_is_ascii_ws(x),
{
    x == 32u8 || x == 9u8 || x == 10u8 || x == 12u8 || x == 13u8
}

fn is_jsx_name_byte(x: u8) -> (r: bool)
    ensures
        r == spec_is_jsx_name_byte(x),
{
    is_ascii_alnum(x) || x == 46u8 || x == 58u8 || x == 95u8 || x == 45u8 || x == 36u8
}

/// The end of the run of JSX name bytes at `k`, not past `end`.
pub open spec fn spec_jsx_name_end(b: Seq<u8>, k: int, end: int) -> int
    decreases end - k,
{
    if 0 <= k < end && spec_is_jsx_name_byte(b[k]) {
        spec_jsx_name_end(b, k + 1, end)
    } else {
        k
    }
}

/// The JSX tag that starts at `start` in the text `b[..end]`: whether it is a
/// closing tag, and its name (`None` for a fragment `<>` or `</>`).
pub open spec fn spec_jsx_tag_start(b: Seq<u8>, start: int, end: int) -> Option<(bool, Option<(int, int)>)> {
    if !(0 <= start < end) || b[start] != 60u8 {
        None
    } else if start + 1 < end && b[start + 1] == 62u8 {
        Some((false, None))
    } else if start + 2 < end && b[start + 1] == 47u8 && b[start + 2] == 62u8 {
        Some((true, None))
    } else if start + 1 >= end || b[start + 1] == 33u8 || b[start + 1] == 63u8 {
        None
    } else {
        let closing = b[start + 1] == 47u8;
        let ns = if closing {
            start + 2
        } else {
            start + 1
        };
        if ns >= end || !spec_is_jsx_name_start(b[ns]) {
            None
        } else {
            let ne = spec_jsx_name_end(b, ns + 1, end);
            if ne < end && !spec_is_jsx_name_delimiter(b[ne]) {
                None
            } else {
                Some((closing, Some((ns, ne))))
            }
        }
    }
}

pub fn jsx_tag_start(b: &[u8], start: usize, end: usize) -> (r: Option<(bool, Option<(usize, usize)>)>)
    requires
        end <= b@.len(),
    ensures
        r == (match spec_jsx_tag_start(b@, start as int, end as int) {
            Some((c, Some((s, e)))) => Some((c, Some((s as usize, e as usize)))),
            Some((c, None)) => Some((c, None)),
            None => None,
        }),
        r matches Some((_, Some((s, e)))) ==> start < s < e <= end,
        spec_jsx_tag_start(b@, start as int, end as int) matches Some((_, Some((s, e)))) ==> start < s < e <= end,
{
    if !(start < end) || b[start] != 60u8 {
        return None;
    }
    if end - start > 1 && b[start + 1] == 62u8 {
        return Some((false, None));
    }
    if end - start > 2 && b[start + 1] == 47u8 && b[start + 2] == 62u8 {
        return Some((true, None));
    }
    if end - start <= 1 || b[start + 1] == 33u8 || b[start + 1] == 63u8 {
        return None;
    }
    let closing = b[start + 1] == 47u8;
    let ns = if closing {
        start + 2
    } else {
        start + 1
    };
    if ns >= end || !(is_ascii_alpha(b[ns]) || b[ns] == 95u8 || b[ns] == 36u8) {
        return None;
    }
    let mut ne = ns + 1;
    while ne < end && is_jsx_name_byte(b[ne])
        invariant
            ns < ne <= end <= b@.len(),
            spec_jsx_name_end(b@, ne as int, end as int) == spec_jsx_name_end(b@, ns + 1, end as int),
        decreases end - ne,
    {
        ne = ne + 1;
    }
    if ne < end && !(is_ascii_ws(b[ne]) || b[ne] == 47u8 || b[ne] == 62u8 || b[ne] == 123u8 || b[ne] == 125u8) {
        return None;
    }
    Some((closing, Some((ns, ne))))
}

/// The tags named by `t1` and `t2` (`None` for fragments) match: both
/// fragments, or names with the same bytes.
pub open spec fn spec_jsx_tags_match(b: Seq<u8>, t1: Option<(int, int)>, t2: Option<(int, int)>) -> bool {
    match (t1, t2) {
        (None, None) => true,
        (Some((s1, e1)), Some((s2, e2))) => b.subrange(s1, e1) == b.subrange(s2, e2),
        _ => false,
    }
}

fn jsx_tags_match(b: &[u8], t1: Option<(usize, usize)>, t2: Option<(usize, usize)>) -> (r: bool)
    requires
        t1 matches Some((s, e)) ==> s <= e <= b@.len(),
        t2 matches Some((s, e)) ==> s <= e <= b@.len(),
    ensures
        r == spec_jsx_tags_match(
            b@,
            match t1 {
                Some((s, e)) => Some((s as int, e as int)),
                None => None,
            },
            match t2 {
                Some((s, e)) => Some((s as int, e as int)),
                None => None,
            },
        ),
{
    match (t1, t2) {
        (None, None) => true,
        (Some((s1, e1)), Some((s2, e2))) => {
            let a = crate::text::copy_range(b, s1, e1);
            let c = crate::text::copy_range(b, s2, e2);
            bytes_equal(a.as_slice(), c.as_slice())
        },
        _ => false,
    }
}

/// The last byte before `k` that is not ASCII white space.
pub open spec fn spec_prev_nonspace(b: Seq<u8>, k: int) -> Option<u8>
    decreases k,
{
    if k <= 0 {
        None
    } else if !spec_is_ascii_ws(b[k - 1]) {
        Some(b[k - 1])
    } else {
        spec_prev_nonspace(b, k - 1)
    }
}

fn prev_nonspace(b: &[u8], k: usize) -> (r: Option<u8>)
    requires
        k <= b@.len(),
    ensures
        r == spec_prev_nonspace(b@, k as int),
{
    let mut j = k;
    while j > 0
        invariant
            j <= k <= b@.len(),
            spec_prev_nonspace(b@, j as int) == spec_prev_nonspace(b@, k as int),
        decreases j,
    {
        if !is_ascii_ws(b[j - 1]) {
            return Some(b[j - 1]);
        }
        j = j - 1;
    }
    None
}

/// The scan for the `>` that ends a JSX tag, from `k`: quoted attribute values
/// (with `\` escapes) and brace expressions are skipped.
pub open spec fn spec_tag_end_scan(
    b: Seq<u8>,
    k: int,
    quote: Option<u8>,
    escaped: bool,
    depth: nat,
    es: MdxBraceState,
    ee: bool,
) -> Option<int>
    decreases b.len() - k,
{
    if k < 0 || k >= b.len() {
        None
    } else {
        let x = b[k];
        if depth > 0 {
            let (d2, s2, e2, skip) = spec_expression_step(x, spec_next_byte(b, k), depth, es, ee);
            spec_tag_end_scan(b, k + 1 + (if skip { 1int } else { 0int }), quote, escaped, d2, s2, e2)
        } else {
            match quote {
                Some(q) => {
                    if escaped {
                        spec_tag_end_scan(b, k + 1, quote, false, depth, es, ee)
                    } else if x == 92u8 {
                        spec_tag_end_scan(b, k + 1, quote, true, depth, es, ee)
                    } else if x == q {
                        spec_tag_end_scan(b, k + 1, None, escaped, depth, es, ee)
                    } else {
                        spec_tag_end_scan(b, k + 1, quote, escaped, depth, es, ee)
                    }
                },
                None => {
                    if x == 39u8 || x == 34u8 {
                        spec_tag_end_scan(b, k + 1, Some(x), escaped, depth, es, ee)
                    } else if x == 123u8 {
                        spec_tag_end_scan(b, k + 1, quote, escaped, 1, MdxBraceState::Normal, false)
                    } else if x == 62u8 {
                        Some(k)
                    } else {
                        spec_tag_end_scan(b, k + 1, quote, escaped, depth, es, ee)
                    }
                },
            }
        }
    }
}

/// A `>` found by the scan lies at or after where it started.
pub proof fn lemma_tag_end_scan_bounds(
    b: Seq<u8>,
    k: int,
    quote: Option<u8>,
    escaped: bool,
    depth: nat,
    es: MdxBraceState,
    ee: bool,
)
    ensures
        spec_tag_end_scan(b, k, quote, escaped, depth, es, ee) matches Some(g) ==> k <= g < b.len(),
    decreases b.len() - k,
{
    if 0 <= k < b.len() {
        let x = b[k];
        if depth > 0 {
            let (d2, s2, e2, skip) = spec_expression_step(x, spec_next_byte(b, k), depth, es, ee);
            lemma_tag_end_scan_bounds(b, k + 1 + (if skip { 1int } else { 0int }), quote, escaped, d2, s2, e2);
        } else {
            match quote {
                Some(q) => {
                    if escaped {
                        lemma_tag_end_scan_bounds(b, k + 1, quote, false, depth, es, ee);
                    } else if x == 92u8 {
                        lemma_tag_end_scan_bounds(b, k + 1, quote, true, depth, es, ee);
                    } else if x == q {
                        lemma_tag_end_scan_bounds(b, k + 1, None, escaped, depth, es, ee);
                    } else {
                        lemma_tag_end_scan_bounds(b, k + 1, quote, escaped, depth, es, ee);
                    }
                },
                None => {
                    if x == 39u8 || x == 34u8 {
                        lemma_tag_end_scan_bounds(b, k + 1, Some(x), escaped, depth, es, ee);
                    } else if x == 123u8 {
                        lemma_tag_end_scan_bounds(b, k + 1, quote, escaped, 1, MdxBraceState::Normal, false);
                    } else if x != 62u8 {
                        lemma_tag_end_scan_bounds(b, k + 1, quote, escaped, depth, es, ee);
                    }
                },
            }
        }
    }
}

/// The `>` that ends the JSX tag opened by the `<` at `start`, and whether the
/// tag closes itself (its last non-space byte before `>` is `/`).
pub open spec fn spec_tag_end_in_text(b: Seq<u8>, start: int) -> Option<(int, bool)> {
    match spec_tag_end_scan(b, start + 1, None, false, 0, MdxBraceState::Normal, false) {
        Some(g) => Some((g, spec_prev_nonspace(b, g) == Some(47u8))),
        None => None,
    }
}

fn tag_end_in_text(b: &[u8], start: usize) -> (r: Option<(usize, bool)>)
    requires
        start < b@.len(),
    ensures
        r == (match spec_tag_end_in_text(b@, start as int) {
            Some((g, sc)) => Some((g as usize, sc)),
            None => None,
        }),
        r matches Some((g, _)) ==> start < g < b@.len(),
        spec_tag_end_in_text(b@, start as int) matches Some((g, _)) ==> start < g < b@.len(),
{
    let n = b.len();
    proof {
        lemma_tag_end_scan_bounds(b@, start + 1, None, false, 0, MdxBraceState::Normal, false);
    }
    let ghost total = spec_tag_end_scan(b@, start + 1, None, false, 0, MdxBraceState::Normal, false);
    let mut k = start + 1;
    let mut quote: Option<u8> = None;
    let mut escaped = false;
    let mut depth: usize = 0;
    let mut es = MdxBraceState::Normal;
    let mut ee = false;
    while k < n
        invariant
            n == b@.len(),
            start < k,
            depth <= k,
            spec_tag_end_scan(b@, k as int, quote, escaped, depth as nat, es, ee) == total,
            total matches Some(g) ==> start < g < n,
            total == spec_tag_end_scan(b@, start + 1, None, false, 0, MdxBraceState::Normal, false),
        decreases n - k,
    {
        let x = b[k];
        if depth > 0 {
            let (d2, s2, e2, skip) = expression_step(x, next_byte(b, k), depth, es, ee);
            depth = d2;
            es = s2;
            ee = e2;
            k = if skip {
                k + 2
            } else {
                k + 1
            };
        } else {
            match quote {
                Some(q) => {
                    if escaped {
                        escaped = false;
                    } else if x == 92u8 {
                        escaped = true;
                    } else if x == q {
                        quote = None;
                    }
                    k = k + 1;
                },
                None => {
                    if x == 39u8 || x == 34u8 {
                        quote = Some(x);
                    } else if x == 123u8 {
                        depth = 1;
                        es = MdxBraceState::Normal;
                        ee = false;
                    } else if x == 62u8 {
                        let sc = prev_nonspace(b, k) == Some(47u8);
                        return Some((k, sc));
                    }
                    k = k + 1;
                },
            }
        }
    }
    None
}

/// The scan for the end of an inline JSX element whose opening tag is named
/// `root`, from `cursor` with `depth` elements of the same name open: each
/// `<` that starts a tag is read whole; a matching closing tag closes one
/// level, a matching opening tag that does not close itself opens one.
pub open spec fn spec_jsx_inline_scan(b: Seq<u8>, root: Option<(int, int)>, cursor: int, depth: nat) -> Option<int>
    decreases b.len() - cursor,
{
    if cursor < 0 || cursor >= b.len() {
        None
    } else {
        match crate::links::spec_find_byte(b, cursor, 60u8) {
            None => None,
            Some(t) => {
                proof {
                    crate::literal_autolink::lemma_find_byte_bounds(b, cursor, 60u8);
                    lemma_tag_end_scan_bounds(b, t + 1, None, false, 0, MdxBraceState::Normal, false);
                }
                match spec_jsx_tag_start(b, t, b.len() as int) {
                    None => spec_jsx_inline_scan(b, root, t + 1, depth),
                    Some((closing, name)) => match spec_tag_end_in_text(b, t) {
                        None => None,
                        Some((te, csc)) => {
                            if spec_jsx_tags_match(b, root, name) {
                                if closing {
                                    if depth <= 1 {
                                        Some(te + 1)
                                    } else {
                                        spec_jsx_inline_scan(b, root, te + 1, (depth - 1) as nat)
                                    }
                                } else if !csc {
                                    spec_jsx_inline_scan(b, root, te + 1, depth + 1)
                                } else {
                                    spec_jsx_inline_scan(b, root, te + 1, depth)
                                }
                            } else {
                                spec_jsx_inline_scan(b, root, te + 1, depth)
                            }
                        },
                    },
                }
            },
        }
    }
}

/// The inline JSX element that starts at `index`: where it ends (just past the
/// `>` of its own closing tag, or of a self-closing opening tag).
pub open spec fn spec_jsx_inline(b: Seq<u8>, index: int) -> Option<int> {
    match spec_jsx_tag_start(b, index, b.len() as int) {
        None => None,
        Some((closing, root)) => if closing {
            None
        } else {
            match spec_tag_end_in_text(b, index) {
                None => None,
                Some((c, sc)) => if sc {
                    Some(c + 1)
                } else {
                    spec_jsx_inline_scan(b, root, c + 1, 1)
                },
            }
        },
    }
}

/// An end found by the element scan lies past where it started.
pub proof fn lemma_jsx_inline_scan_bounds(b: Seq<u8>, root: Option<(int, int)>, cursor: int, depth: nat)
    ensures
        spec_jsx_inline_scan(b, root, cursor, depth) matches Some(e) ==> cursor < e <= b.len(),
    decreases b.len() - cursor,
{
    if 0 <= cursor < b.len() {
        crate::literal_autolink::lemma_find_byte_bounds(b, cursor, 60u8);
        match crate::links::spec_find_byte(b, cursor, 60u8) {
            None => {},
            Some(t) => {
                lemma_tag_end_scan_bounds(b, t + 1, None, false, 0, MdxBraceState::Normal, false);
                match spec_jsx_tag_start(b, t, b.len() as int) {
                    None => {
                        lemma_jsx_inline_scan_bounds(b, root, t + 1, depth);
                    },
                    Some((closing, name)) => match spec_tag_end_in_text(b, t) {
                        None => {},
                        Some((te, csc)) => {
                            lemma_jsx_inline_scan_bounds(b, root, te + 1, (depth - 1) as nat);
                            lemma_jsx_inline_scan_bounds(b, root, te + 1, depth + 1);
                            lemma_jsx_inline_scan_bounds(b, root, te + 1, depth);
                        },
                    },
                }
            },
        }
    }
}

/// The inline JSX element that starts at `index` (see [`spec_jsx_inline`]).
pub fn jsx_inline(b: &[u8], index: usize) -> (r: Option<usize>)
    ensures
        r == (match spec_jsx_inline(b@, index as int) {
            Some(e) => Some(e as usize),
            None => None,
        }),
        r matches Some(e) ==> index < e <= b@.len(),
{
    let n = b.len();
    let (closing, root) = match jsx_tag_start(b, index, n) {
        None => {
            return None;
        },
        Some(t) => t,
    };
    if closing {
        return None;
    }
    let (c, sc) = match tag_end_in_text(b, index) {
        None => {
            return None;
        },
        Some(x) => x,
    };
    if sc {
        return Some(c + 1);
    }
    let ghost sroot = match root {
        Some((s, e)) => Some((s as int, e as int)),
        None => None,
    };
    proof {
        lemma_jsx_inline_scan_bounds(b@, sroot, c + 1, 1);
    }
    let ghost total = spec_jsx_inline_scan(b@, sroot, c + 1, 1);
    let mut cursor = c + 1;
    let mut depth: usize = 1;
    while cursor < n
        invariant
            n == b@.len(),
            index < cursor <= n,
            1 <= depth <= cursor,
            root matches Some((s, e)) ==> s <= e <= n,
            sroot == (match root {
                Some((s, e)) => Some((s as int, e as int)),
                None => None,
            }),
            spec_jsx_inline_scan(b@, sroot, cursor as int, depth as nat) == total,
            total matches Some(e) ==> index < e <= n,
            total == spec_jsx_inline(b@, index as int),
        decreases n - cursor,
    {
        proof {
            crate::literal_autolink::lemma_find_byte_bounds(b@, cursor as int, 60u8);
        }
        let t = match first_lt_from(b, cursor) {
            None => {
                return None;
            },
            Some(t) => t,
        };
        let (cclosing, name) = match jsx_tag_start(b, t, n) {
            None => {
                cursor = t + 1;
                continue;
            },
            Some(x) => x,
        };
        let (te, csc) = match tag_end_in_text(b, t) {
            None => {
                return None;
            },
            Some(x) => x,
        };
        if jsx_tags_match(b, root, name) {
            if cclosing {
                if depth <= 1 {
                    return Some(te + 1);
                }
                depth = depth - 1;
            } else if !csc {
                depth = depth + 1;
            }
        }
        cursor = te + 1;
    }
    None
}

/// The first `<` at or after `k`.
fn first_lt_from(b: &[u8], k: usize) -> (r: Option<usize>)
    ensures
        r == (match crate::links::spec_find_byte(b@, k as int, 60u8) {
            Some(i) => Some(i as usize),
            None => None,
        }),
        r matches Some(i) ==> k <= i < b@.len(),
{
    proof {
        crate::literal_autolink::lemma_find_byte_bounds(b@, k as int, 60u8);
    }
    let mut i = k;
    while i < b.len()
        invariant
            k <= i,
            crate::links::spec_find_byte(b@, i as int, 60u8) == crate::links::spec_find_byte(b@, k as int, 60u8),
        decreases b@.len() - i,
    {
        if b[i] == 60u8 {
            return Some(i);
        }
        i = i + 1;
    }
    None
}

// ---------------------------------------------------------------------------
// Expression blocks.
// ---------------------------------------------------------------------------

/// The byte after `p` on its line (the line's text ends at `end`), if any.
pub open spec fn spec_next_on_line(b: Seq<u8>, p: int, end: int) -> Option<u8> {
    if p + 1 < end {
        Some(b[p + 1])
    } else {
        None
    }
}

/// The scan of an expression block from byte `p` of line `li`: where the brace
/// that closes the outermost one is (its line and its offset in the line).
/// Strings, template literals and comments are skipped; a line comment ends
/// with its line. The close counts only when nothing but white space follows
/// it on its line.
pub open spec fn spec_expression_block_scan(
    b: Seq<u8>,
    lines: Seq<Line>,
    li: int,
    p: int,
    depth: nat,
    state: MdxBraceState,
    escaped: bool,
) -> Option<(int, int)>
    decreases lines.len() - li, lines[li].end - p,
{
    if li < 0 || li >= lines.len() {
        None
    } else {
        let l = lines[li];
        if p >= l.end {
            let s2 = if state == MdxBraceState::LineComment {
                MdxBraceState::Normal
            } else {
                state
            };
            if li + 1 < lines.len() {
                spec_expression_block_scan(b, lines, li + 1, lines[li + 1].start as int, depth, s2, escaped)
            } else {
                None
            }
        } else if p < l.start {
            None
        } else {
            let x = b[p];
            let next = spec_next_on_line(b, p, l.end as int);
            match state {
                MdxBraceState::Normal => {
                    if x == 39u8 {
                        spec_expression_block_scan(b, lines, li, p + 1, depth, MdxBraceState::SingleQuoted, escaped)
                    } else if x == 34u8 {
                        spec_expression_block_scan(b, lines, li, p + 1, depth, MdxBraceState::DoubleQuoted, escaped)
                    } else if x == 96u8 {
                        spec_expression_block_scan(b, lines, li, p + 1, depth, MdxBraceState::Template, escaped)
                    } else if x == 47u8 && next == Some(47u8) {
                        spec_expression_block_scan(b, lines, li, l.end as int, depth, MdxBraceState::LineComment, escaped)
                    } else if x == 47u8 && next == Some(42u8) {
                        spec_expression_block_scan(b, lines, li, p + 2, depth, MdxBraceState::BlockComment, escaped)
                    } else if x == 123u8 {
                        spec_expression_block_scan(b, lines, li, p + 1, depth + 1, state, escaped)
                    } else if x == 125u8 {
                        if depth == 0 {
                            None
                        } else if depth == 1 {
                            if spec_is_blank(b, p + 1, l.end as int) {
                                Some((li, p - l.start))
                            } else {
                                None
                            }
                        } else {
                            spec_expression_block_scan(b, lines, li, p + 1, (depth - 1) as nat, state, escaped)
                        }
                    } else {
                        spec_expression_block_scan(b, lines, li, p + 1, depth, state, escaped)
                    }
                },
                MdxBraceState::LineComment => {
                    spec_expression_block_scan(b, lines, li, l.end as int, depth, state, escaped)
                },
                MdxBraceState::BlockComment => {
                    if x == 42u8 && next == Some(47u8) {
                        spec_expression_block_scan(b, lines, li, p + 2, depth, MdxBraceState::Normal, escaped)
                    } else {
                        spec_expression_block_scan(b, lines, li, p + 1, depth, state, escaped)
                    }
                },
                _ => {
                    let delimiter: u8 = if state == MdxBraceState::SingleQuoted {
                        39u8
                    } else if state == MdxBraceState::DoubleQuoted {
                        34u8
                    } else {
                        96u8
                    };
                    let (s, e) = spec_quote_step(x, delimiter, state, escaped);
                    spec_expression_block_scan(b, lines, li, p + 1, depth, s, e)
                },
            }
        }
    }
}

/// A close found by the scan lies on a line at or after `li`, inside its text.
pub proof fn lemma_expression_block_scan_bounds(
    b: Seq<u8>,
    lines: Seq<Line>,
    li: int,
    p: int,
    depth: nat,
    state: MdxBraceState,
    escaped: bool,
)
    ensures
        spec_expression_block_scan(b, lines, li, p, depth, state, escaped) matches Some((cl, cb)) ==> li <= cl
            < lines.len() && 0 <= cb < lines[cl].end - lines[cl].start && (cl == li ==> p <= lines[cl].start + cb)
            && b[lines[cl].start + cb] == 125u8,
    decreases lines.len() - li, lines[li].end - p,
{
    if 0 <= li < lines.len() {
        let l = lines[li];
        if p >= l.end {
            let s2 = if state == MdxBraceState::LineComment {
                MdxBraceState::Normal
            } else {
                state
            };
            if li + 1 < lines.len() {
                lemma_expression_block_scan_bounds(b, lines, li + 1, lines[li + 1].start as int, depth, s2, escaped);
            }
        } else if p >= l.start {
            let x = b[p];
            let next = spec_next_on_line(b, p, l.end as int);
            match state {
                MdxBraceState::Normal => {
                    if x == 39u8 {
                        lemma_expression_block_scan_bounds(b, lines, li, p + 1, depth, MdxBraceState::SingleQuoted, escaped);
                    } else if x == 34u8 {
                        lemma_expression_block_scan_bounds(b, lines, li, p + 1, depth, MdxBraceState::DoubleQuoted, escaped);
                    } else if x == 96u8 {
                        lemma_expression_block_scan_bounds(b, lines, li, p + 1, depth, MdxBraceState::Template, escaped);
                    } else if x == 47u8 && next == Some(47u8) {
                        lemma_expression_block_scan_bounds(b, lines, li, l.end as int, depth, MdxBraceState::LineComment, escaped);
                    } else if x == 47u8 && next == Some(42u8) {
                        lemma_expression_block_scan_bounds(b, lines, li, p + 2, depth, MdxBraceState::BlockComment, escaped);
                    } else if x == 123u8 {
                        lemma_expression_block_scan_bounds(b, lines, li, p + 1, depth + 1, state, escaped);
                    } else if x == 125u8 {
                        if depth > 1 {
                            lemma_expression_block_scan_bounds(b, lines, li, p + 1, (depth - 1) as nat, state, escaped);
                        }
                    } else {
                        lemma_expression_block_scan_bounds(b, lines, li, p + 1, depth, state, escaped);
                    }
                },
                MdxBraceState::LineComment => {
                    lemma_expression_block_scan_bounds(b, lines, li, l.end as int, depth, state, escaped);
                },
                MdxBraceState::BlockComment => {
                    if x == 42u8 && next == Some(47u8) {
                        lemma_expression_block_scan_bounds(b, lines, li, p + 2, depth, MdxBraceState::Normal, escaped);
                    } else {
                        lemma_expression_block_scan_bounds(b, lines, li, p + 1, depth, state, escaped);
                    }
                },
                _ => {
                    let delimiter: u8 = if state == MdxBraceState::SingleQuoted {
                        39u8
                    } else if state == MdxBraceState::DoubleQuoted {
                        34u8
                    } else {
                        96u8
                    };
                    let (s, e) = spec_quote_step(x, delimiter, state, escaped);
                    lemma_expression_block_scan_bounds(b, lines, li, p + 1, depth, s, e);
                },
            }
        }
    }
}

/// The brace that closes the expression block opened by the `{` at byte
/// `open` of line `index` (see [`spec_expression_block_scan`]).
pub fn expression_block_close(b: &[u8], lines: &[Line], index: usize, open: usize) -> (r: Option<(usize, usize)>)
    requires
        index < lines@.len(),
        spec_lines_within(lines@, b@.len()),
        spec_lines_ordered(lines@),
        lines@[index as int].start <= open <= lines@[index as int].end,
    ensures
        r == (match spec_expression_block_scan(b@, lines@, index as int, open as int, 0, MdxBraceState::Normal, false) {
            Some((cl, cb)) => Some((cl as usize, cb as usize)),
            None => None,
        }),
        r matches Some((cl, cb)) ==> index <= cl < lines@.len() && cb < lines@[cl as int].end - lines@[cl as int].start
            && (cl == index ==> open <= lines@[cl as int].start + cb) && b@[lines@[cl as int].start + cb] == 125u8,
{
    let m = lines.len();
    proof {
        lemma_expression_block_scan_bounds(b@, lines@, index as int, open as int, 0, MdxBraceState::Normal, false);
    }
    let ghost total = spec_expression_block_scan(b@, lines@, index as int, open as int, 0, MdxBraceState::Normal, false);
    let mut li = index;
    let mut p = open;
    let mut depth: usize = 0;
    let mut state = MdxBraceState::Normal;
    let mut escaped = false;
    while li < m
        invariant
            m == lines@.len(),
            spec_lines_within(lines@, b@.len()),
            spec_lines_ordered(lines@),
            index <= li < m,
            lines@[li as int].start <= p <= lines@[li as int].end,
            depth <= p,
            spec_expression_block_scan(b@, lines@, li as int, p as int, depth as nat, state, escaped) == total,
            total matches Some((cl, cb)) ==> index <= cl < m && 0 <= cb < lines@[cl].end - lines@[cl].start && (cl
                == index ==> open <= lines@[cl].start + cb) && b@[lines@[cl].start + cb] == 125u8,
            total == spec_expression_block_scan(b@, lines@, index as int, open as int, 0, MdxBraceState::Normal, false),
        decreases m - li, lines@[li as int].end - p,
    {
        let l = lines[li];
        if p >= l.end {
            if state == MdxBraceState::LineComment {
                state = MdxBraceState::Normal;
            }
            if li + 1 < m {
                assert(lines@[li as int].end <= lines@[li + 1].start);
                li = li + 1;
                p = lines[li].start;
                continue;
            } else {
                return None;
            }
        }
        let x = b[p];
        let next: Option<u8> = if p + 1 < l.end {
            Some(b[p + 1])
        } else {
            None
        };
        match state {
            MdxBraceState::Normal => {
                if x == 39u8 {
                    state = MdxBraceState::SingleQuoted;
                    p = p + 1;
                } else if x == 34u8 {
                    state = MdxBraceState::DoubleQuoted;
                    p = p + 1;
                } else if x == 96u8 {
                    state = MdxBraceState::Template;
                    p = p + 1;
                } else if x == 47u8 && next == Some(47u8) {
                    state = MdxBraceState::LineComment;
                    p = l.end;
                } else if x == 47u8 && next == Some(42u8) {
                    state = MdxBraceState::BlockComment;
                    p = p + 2;
                } else if x == 123u8 {
                    depth = depth + 1;
                    p = p + 1;
                } else if x == 125u8 {
                    if depth == 0 {
                        return None;
                    } else if depth == 1 {
                        if is_blank(b, p + 1, l.end) {
                            return Some((li, p - l.start));
                        } else {
                            return None;
                        }
                    }
                    depth = depth - 1;
                    p = p + 1;
                } else {
                    p = p + 1;
                }
            },
            MdxBraceState::LineComment => {
                p = l.end;
            },
            MdxBraceState::BlockComment => {
                if x == 42u8 && next == Some(47u8) {
                    state = MdxBraceState::Normal;
                    p = p + 2;
                } else {
                    p = p + 1;
                }
            },
            _ => {
                let delimiter: u8 = if state == MdxBraceState::SingleQuoted {
                    39u8
                } else if state == MdxBraceState::DoubleQuoted {
                    34u8
                } else {
                    96u8
                };
                let (s, e) = quote_step(x, delimiter, state, escaped);
                state = s;
                escaped = e;
                p = p + 1;
            },
        }
    }
    None
}

// ---------------------------------------------------------------------------
// ESM blocks.
// ---------------------------------------------------------------------------

/// What an ESM block's scan carries from line to line: open braces, brackets
/// and parentheses, an open block comment, an open string (by its quote) and
/// a pending escape inside it.
#[derive(Clone, Copy, Debug, PartialEq, Eq, Structural)]
pub struct MdxEsmState {
    pub brace_depth: usize,
    pub bracket_depth: usize,
    pub paren_depth: usize,
    pub block_comment: bool,
    pub quote: Option<u8>,
    pub escaped: bool,
}

/// The ESM scan leaves a construct open: a bracket of any kind, a block
/// comment, or a template literal.
pub open spec fn spec_esm_open(st: MdxEsmState) -> bool {
    st.brace_depth > 0 || st.bracket_depth > 0 || st.paren_depth > 0 || st.block_comment || st.quote == Some(
        96u8,
    )
}

fn esm_open(st: &MdxEsmState) -> (r: bool)
    ensures
        r == spec_esm_open(*st),
{
    st.brace_depth > 0 || st.bracket_depth > 0 || st.paren_depth > 0 || st.block_comment || match st.quote {
        Some(q) => q == 96u8,
        None => false,
    }
}

/// The sum of the open bracket counts.
pub open spec fn spec_esm_depths(st: MdxEsmState) -> int {
    st.brace_depth + st.bracket_depth + st.paren_depth
}

/// A count one lower, not below zero.
pub open spec fn spec_dec(d: usize) -> usize {
    if d > 0 {
        (d - 1) as usize
    } else {
        0
    }
}

/// The ESM state after scanning `b[k..e]`: strings (with escapes) and block
/// comments are skipped, a line comment ends the scan, and `{ } [ ] ( )` are
/// counted (a closer never takes a count below zero).
pub open spec fn spec_esm_scan(b: Seq<u8>, k: int, e: int, st: MdxEsmState) -> MdxEsmState
    decreases e - k,
{
    if k < 0 || k >= e {
        st
    } else {
        let x = b[k];
        let two = k + 1 < e;
        if st.block_comment {
            if x == 42u8 && two && b[k + 1] == 47u8 {
                spec_esm_scan(b, k + 2, e, MdxEsmState { block_comment: false, ..st })
            } else {
                spec_esm_scan(b, k + 1, e, st)
            }
        } else if st.quote is Some {
            if st.escaped {
                spec_esm_scan(b, k + 1, e, MdxEsmState { escaped: false, ..st })
            } else if x == 92u8 {
                spec_esm_scan(b, k + 1, e, MdxEsmState { escaped: true, ..st })
            } else if Some(x) == st.quote {
                spec_esm_scan(b, k + 1, e, MdxEsmState { quote: None, ..st })
            } else {
                spec_esm_scan(b, k + 1, e, st)
            }
        } else if x == 39u8 || x == 34u8 || x == 96u8 {
            spec_esm_scan(b, k + 1, e, MdxEsmState { quote: Some(x), ..st })
        } else if x == 47u8 && two && b[k + 1] == 47u8 {
            st
        } else if x == 47u8 && two && b[k + 1] == 42u8 {
            spec_esm_scan(b, k + 2, e, MdxEsmState { block_comment: true, ..st })
        } else if x == 123u8 {
            spec_esm_scan(b, k + 1, e, MdxEsmState { brace_depth: (st.brace_depth + 1) as usize, ..st })
        } else if x == 125u8 {
            spec_esm_scan(b, k + 1, e, MdxEsmState { brace_depth: spec_dec(st.brace_depth), ..st })
        } else if x == 91u8 {
            spec_esm_scan(b, k + 1, e, MdxEsmState { bracket_depth: (st.bracket_depth + 1) as usize, ..st })
        } else if x == 93u8 {
            spec_esm_scan(b, k + 1, e, MdxEsmState { bracket_depth: spec_dec(st.bracket_depth), ..st })
        } else if x == 40u8 {
            spec_esm_scan(b, k + 1, e, MdxEsmState { paren_depth: (st.paren_depth + 1) as usize, ..st })
        } else if x == 41u8 {
            spec_esm_scan(b, k + 1, e, MdxEsmState { paren_depth: spec_dec(st.paren_depth), ..st })
        } else {
            spec_esm_scan(b, k + 1, e, st)
        }
    }
}

/// Scans the line `b[s..e]` into the ESM state (see [`spec_esm_scan`]).
fn esm_scan(b: &[u8], s: usize, e: usize, st: MdxEsmState) -> (r: MdxEsmState)
    requires
        s <= e <= b@.len(),
        spec_esm_depths(st) <= s,
    ensures
        r == spec_esm_scan(b@, s as int, e as int, st),
        spec_esm_depths(r) <= e,
{
    let ghost total = spec_esm_scan(b@, s as int, e as int, st);
    let mut k = s;
    let mut st = st;
    while k < e
        invariant
            s <= k <= e <= b@.len(),
            spec_esm_depths(st) <= k,
            spec_esm_scan(b@, k as int, e as int, st) == total,
        ensures
            total == st,
            spec_esm_depths(st) <= e,
        decreases e - k,
    {
        let x = b[k];
        let two = e - k > 1;
        if st.block_comment {
            if x == 42u8 && two && b[k + 1] == 47u8 {
                st = MdxEsmState { block_comment: false, ..st };
                k = k + 2;
            } else {
                k = k + 1;
            }
        } else if st.quote.is_some() {
            if st.escaped {
                st = MdxEsmState { escaped: false, ..st };
            } else if x == 92u8 {
                st = MdxEsmState { escaped: true, ..st };
            } else if st.quote == Some(x) {
                st = MdxEsmState { quote: None, ..st };
            }
            k = k + 1;
        } else if x == 39u8 || x == 34u8 || x == 96u8 {
            st = MdxEsmState { quote: Some(x), ..st };
            k = k + 1;
        } else if x == 47u8 && two && b[k + 1] == 47u8 {
            break;
        } else if x == 47u8 && two && b[k + 1] == 42u8 {
            st = MdxEsmState { block_comment: true, ..st };
            k = k + 2;
        } else {
            if x == 123u8 {
                st = MdxEsmState { brace_depth: st.brace_depth + 1, ..st };
            } else if x == 125u8 {
                st = MdxEsmState { brace_depth: if st.brace_depth > 0 { st.brace_depth - 1 } else { 0 }, ..st };
            } else if x == 91u8 {
                st = MdxEsmState { bracket_depth: st.bracket_depth + 1, ..st };
            } else if x == 93u8 {
                st = MdxEsmState { bracket_depth: if st.bracket_depth > 0 { st.bracket_depth - 1 } else { 0 }, ..st };
            } else if x == 40u8 {
                st = MdxEsmState { paren_depth: st.paren_depth + 1, ..st };
            } else if x == 41u8 {
                st = MdxEsmState { paren_depth: if st.paren_depth > 0 { st.paren_depth - 1 } else { 0 }, ..st };
            }
            k = k + 1;
        }
    }
    st
}

/// `import `
pub open spec fn spec_import() -> Seq<u8> {
    seq![105u8, 109u8, 112u8, 111u8, 114u8, 116u8, 32u8]
}

/// `export `
pub open spec fn spec_export() -> Seq<u8> {
    seq![101u8, 120u8, 112u8, 111u8, 114u8, 116u8, 32u8]
}

/// The line `b[s..e]` starts an ESM block: it begins with `import ` or
/// `export `.
pub open spec fn spec_esm_start(b: Seq<u8>, s: int, e: int) -> bool {
    s + 7 <= e && (spec_starts_with_at(b, s, spec_import()) || spec_starts_with_at(b, s, spec_export()))
}

fn esm_start(b: &[u8], s: usize, e: usize) -> (r: bool)
    requires
        s <= e <= b@.len(),
    ensures
        r == spec_esm_start(b@, s as int, e as int),
{
    e - s >= 7 && (starts_with_at(b, s, &[105u8, 109u8, 112u8, 111u8, 114u8, 116u8, 32u8]) || starts_with_at(
        b,
        s,
        &[101u8, 120u8, 112u8, 111u8, 114u8, 116u8, 32u8],
    ))
}

/// Past the white-space scalars at the start of `b[k..e]`.
pub open spec fn spec_skip_ws_within(b: Seq<u8>, k: int, e: int) -> int
    decreases e - k,
{
    if 0 <= k < e && spec_ws_len_at(b, k) > 0 && k + spec_ws_len_at(b, k) <= e {
        spec_skip_ws_within(b, k + spec_ws_len_at(b, k), e)
    } else {
        k
    }
}

pub fn skip_ws_within(b: &[u8], k: usize, e: usize) -> (r: usize)
    requires
        k <= e <= b@.len(),
    ensures
        r == spec_skip_ws_within(b@, k as int, e as int),
        k <= r <= e,
{
    let mut j = k;
    while j < e
        invariant
            k <= j <= e <= b@.len(),
            spec_skip_ws_within(b@, j as int, e as int) == spec_skip_ws_within(b@, k as int, e as int),
        decreases e - j,
    {
        let w = whitespace_len_at(b, j);
        if w == 0 || w > e - j {
            return j;
        }
        j = j + w;
    }
    j
}

/// The line `b[s..e]` continues an ESM block in state `st`: a construct is
/// still open, or the line is not blank and starts another statement or a
/// comment.
pub open spec fn spec_esm_continues(b: Seq<u8>, s: int, e: int, st: MdxEsmState) -> bool {
    let t = spec_skip_ws_within(b, s, e);
    spec_esm_open(st) || (t < e && (spec_esm_start(b, s, e) || (t + 2 <= e && b[t] == 47u8 && (b[t + 1] == 47u8
        || b[t + 1] == 42u8))))
}

fn esm_continues(b: &[u8], s: usize, e: usize, st: &MdxEsmState) -> (r: bool)
    requires
        s <= e <= b@.len(),
    ensures
        r == spec_esm_continues(b@, s as int, e as int, *st),
{
    if esm_open(st) {
        return true;
    }
    let t = skip_ws_within(b, s, e);
    if t >= e {
        return false;
    }
    esm_start(b, s, e) || (e - t >= 2 && b[t] == 47u8 && (b[t + 1] == 47u8 || b[t + 1] == 42u8))
}

/// The lines of an ESM block that starts at line `index`: where it ends, and
/// the state its scan leaves (still open when a delimiter was never closed).
pub open spec fn spec_esm_block_scan(b: Seq<u8>, lines: Seq<Line>, index: int, cursor: int, st: MdxEsmState) -> (
    int,
    MdxEsmState,
)
    decreases lines.len() - cursor,
{
    if cursor < 0 || cursor >= lines.len() {
        (cursor, st)
    } else {
        let l = lines[cursor];
        if cursor > index && !spec_esm_continues(b, l.start as int, l.end as int, st) {
            (cursor, st)
        } else {
            spec_esm_block_scan(b, lines, index, cursor + 1, spec_esm_scan(b, l.start as int, l.end as int, st))
        }
    }
}

/// The initial ESM state: nothing open.
pub open spec fn spec_esm_initial() -> MdxEsmState {
    MdxEsmState {
        brace_depth: 0,
        bracket_depth: 0,
        paren_depth: 0,
        block_comment: false,
        quote: None,
        escaped: false,
    }
}

/// The text of lines `index..end`, joined by line feeds.
pub open spec fn spec_joined_lines(b: Seq<u8>, lines: Seq<Line>, index: int, end: int) -> Seq<u8>
    decreases end - index,
{
    if end <= index {
        Seq::empty()
    } else if end == index + 1 {
        b.subrange(lines[index].start as int, lines[index].end as int)
    } else {
        spec_joined_lines(b, lines, index, end - 1).push(10u8) + b.subrange(
            lines[end - 1].start as int,
            lines[end - 1].end as int,
        )
    }
}

/// The ESM block that starts at line `index`: where it ends (the line after
/// it), its text (its lines joined by line feeds), and whether the input ended
/// with a construct still open.
pub fn esm_block(b: &[u8], lines: &[Line], index: usize) -> (r: Option<(usize, Vec<u8>, bool)>)
    requires
        index < lines@.len(),
        spec_lines_within(lines@, b@.len()),
        spec_lines_ordered(lines@),
    ensures
        !spec_esm_start(b@, lines@[index as int].start as int, lines@[index as int].end as int) ==> r is None,
        spec_esm_start(b@, lines@[index as int].start as int, lines@[index as int].end as int) ==> (r matches Some(
            (end, text, unclosed),
        ) && {
            let (e, st) = spec_esm_block_scan(b@, lines@, index as int, index as int, spec_esm_initial());
            &&& end == e
            &&& index < end <= lines@.len()
            &&& text@ == spec_joined_lines(b@, lines@, index as int, end as int)
            &&& unclosed == (end == lines@.len() && spec_esm_open(st))
        }),
{
    let m = lines.len();
    let first = lines[index];
    if !esm_start(b, first.start, first.end) {
        return None;
    }
    let ghost total = spec_esm_block_scan(b@, lines@, index as int, index as int, spec_esm_initial());
    let mut st = MdxEsmState {
        brace_depth: 0,
        bracket_depth: 0,
        paren_depth: 0,
        block_comment: false,
        quote: None,
        escaped: false,
    };
    let mut value: Vec<u8> = Vec::new();
    let mut cursor = index;
    while cursor < m
        invariant
            m == lines@.len(),
            spec_lines_within(lines@, b@.len()),
            spec_lines_ordered(lines@),
            index < m,
            index <= cursor <= m,
            cursor == index ==> st == spec_esm_initial() && value@.len() == 0,
            spec_esm_depths(st) <= (if cursor == index {
                0
            } else {
                lines@[cursor - 1].end as int
            }),
            spec_esm_block_scan(b@, lines@, index as int, cursor as int, st) == total,
            cursor > index ==> value@ == spec_joined_lines(b@, lines@, index as int, cursor as int),
        ensures
            index < cursor <= m,
            total == (cursor as int, st),
            value@ == spec_joined_lines(b@, lines@, index as int, cursor as int),
        decreases m - cursor,
    {
        let l = lines[cursor];
        if cursor > index && !esm_continues(b, l.start, l.end, &st) {
            break;
        }
        if cursor > index {
            value.push(10u8);
            assert(lines@[cursor - 1].end <= lines@[(cursor - 1) + 1].start);
        }
        crate::text::push_range(&mut value, b, l.start, l.end);
        st = esm_scan(b, l.start, l.end, st);
        cursor = cursor + 1;
        proof {
            if cursor - 1 == index {
                assert(value@ =~= spec_joined_lines(b@, lines@, index as int, cursor as int));
            } else {
                assert(value@ =~= spec_joined_lines(b@, lines@, index as int, cursor as int));
            }
        }
    }
    let unclosed = cursor >= m && esm_open(&st);
    Some((cursor, value, unclosed))
}

// ---------------------------------------------------------------------------
// JSX blocks.
// ---------------------------------------------------------------------------

/// The scan for the `>` that ends a JSX tag across lines, from byte `p` of line
/// `li`: as in text, but a line comment inside an attribute expression ends
/// with its line, and a byte's lookahead stops at the end of its line. Gives
/// the line and the position of the `>`.
pub open spec fn spec_tag_end_lines_scan(
    b: Seq<u8>,
    lines: Seq<Line>,
    li: int,
    p: int,
    quote: Option<u8>,
    escaped: bool,
    depth: nat,
    es: MdxBraceState,
    ee: bool,
) -> Option<(int, int)>
    decreases lines.len() - li, lines[li].end - p,
{
    if li < 0 || li >= lines.len() {
        None
    } else {
        let l = lines[li];
        if p >= l.end {
            let es2 = if es == MdxBraceState::LineComment {
                MdxBraceState::Normal
            } else {
                es
            };
            if li + 1 < lines.len() {
                spec_tag_end_lines_scan(b, lines, li + 1, lines[li + 1].start as int, quote, escaped, depth, es2, ee)
            } else {
                None
            }
        } else if p < l.start {
            None
        } else {
            let x = b[p];
            if depth > 0 {
                let (d2, s2, e2, skip) = spec_expression_step(x, spec_next_on_line(b, p, l.end as int), depth, es, ee);
                spec_tag_end_lines_scan(b, lines, li, p + 1 + (if skip { 1int } else { 0int }), quote, escaped, d2, s2, e2)
            } else {
                match quote {
                    Some(q) => {
                        if escaped {
                            spec_tag_end_lines_scan(b, lines, li, p + 1, quote, false, depth, es, ee)
                        } else if x == 92u8 {
                            spec_tag_end_lines_scan(b, lines, li, p + 1, quote, true, depth, es, ee)
                        } else if x == q {
                            spec_tag_end_lines_scan(b, lines, li, p + 1, None, escaped, depth, es, ee)
                        } else {
                            spec_tag_end_lines_scan(b, lines, li, p + 1, quote, escaped, depth, es, ee)
                        }
                    },
                    None => {
                        if x == 39u8 || x == 34u8 {
                            spec_tag_end_lines_scan(b, lines, li, p + 1, Some(x), escaped, depth, es, ee)
                        } else if x == 123u8 {
                            spec_tag_end_lines_scan(b, lines, li, p + 1, quote, escaped, 1, MdxBraceState::Normal, false)
                        } else if x == 62u8 {
                            Some((li, p))
                        } else {
                            spec_tag_end_lines_scan(b, lines, li, p + 1, quote, escaped, depth, es, ee)
                        }
                    },
                }
            }
        }
    }
}

/// A `>` found across lines lies at or after where the scan started, inside
/// its line's text.
pub proof fn lemma_tag_end_lines_bounds(
    b: Seq<u8>,
    lines: Seq<Line>,
    li: int,
    p: int,
    quote: Option<u8>,
    escaped: bool,
    depth: nat,
    es: MdxBraceState,
    ee: bool,
)
    ensures
        spec_tag_end_lines_scan(b, lines, li, p, quote, escaped, depth, es, ee) matches Some((gl, g)) ==> li <= gl
            < lines.len() && lines[gl].start <= g < lines[gl].end && (gl == li ==> p <= g),
    decreases lines.len() - li, lines[li].end - p,
{
    if 0 <= li < lines.len() {
        let l = lines[li];
        if p >= l.end {
            let es2 = if es == MdxBraceState::LineComment {
                MdxBraceState::Normal
            } else {
                es
            };
            if li + 1 < lines.len() {
                lemma_tag_end_lines_bounds(b, lines, li + 1, lines[li + 1].start as int, quote, escaped, depth, es2, ee);
            }
        } else if p >= l.start {
            let x = b[p];
            if depth > 0 {
                let (d2, s2, e2, skip) = spec_expression_step(x, spec_next_on_line(b, p, l.end as int), depth, es, ee);
                lemma_tag_end_lines_bounds(b, lines, li, p + 1 + (if skip { 1int } else { 0int }), quote, escaped, d2, s2, e2);
            } else {
                match quote {
                    Some(q) => {
                        if escaped {
                            lemma_tag_end_lines_bounds(b, lines, li, p + 1, quote, false, depth, es, ee);
                        } else if x == 92u8 {
                            lemma_tag_end_lines_bounds(b, lines, li, p + 1, quote, true, depth, es, ee);
                        } else if x == q {
                            lemma_tag_end_lines_bounds(b, lines, li, p + 1, None, escaped, depth, es, ee);
                        } else {
                            lemma_tag_end_lines_bounds(b, lines, li, p + 1, quote, escaped, depth, es, ee);
                        }
                    },
                    None => {
                        if x == 39u8 || x == 34u8 {
                            lemma_tag_end_lines_bounds(b, lines, li, p + 1, Some(x), escaped, depth, es, ee);
                        } else if x == 123u8 {
                            lemma_tag_end_lines_bounds(b, lines, li, p + 1, quote, escaped, 1, MdxBraceState::Normal, false);
                        } else if x != 62u8 {
                            lemma_tag_end_lines_bounds(b, lines, li, p + 1, quote, escaped, depth, es, ee);
                        }
                    },
                }
            }
        }
    }
}

/// The last byte that is not ASCII white space before `p` on line `li`, or on
/// an earlier line.
pub open spec fn spec_prev_nonspace_lines(b: Seq<u8>, lines: Seq<Line>, li: int, p: int) -> Option<u8>
    decreases li, p - lines[li].start,
{
    if li < 0 || li >= lines.len() {
        None
    } else if p > lines[li].start {
        if !spec_is_ascii_ws(b[p - 1]) {
            Some(b[p - 1])
        } else {
            spec_prev_nonspace_lines(b, lines, li, p - 1)
        }
    } else if li == 0 {
        None
    } else {
        spec_prev_nonspace_lines(b, lines, li - 1, lines[li - 1].end as int)
    }
}

fn prev_nonspace_lines(b: &[u8], lines: &[Line], li: usize, p: usize) -> (r: Option<u8>)
    requires
        li < lines@.len(),
        spec_lines_within(lines@, b@.len()),
        lines@[li as int].start <= p <= lines@[li as int].end,
    ensures
        r == spec_prev_nonspace_lines(b@, lines@, li as int, p as int),
{
    let ghost total = spec_prev_nonspace_lines(b@, lines@, li as int, p as int);
    let mut i = li;
    let mut q = p;
    loop
        invariant
            i < lines@.len(),
            spec_lines_within(lines@, b@.len()),
            lines@[i as int].start <= q <= lines@[i as int].end,
            spec_prev_nonspace_lines(b@, lines@, i as int, q as int) == total,
            total == spec_prev_nonspace_lines(b@, lines@, li as int, p as int),
        decreases i, q - lines@[i as int].start,
    {
        if q > lines[i].start {
            if !is_ascii_ws(b[q - 1]) {
                return Some(b[q - 1]);
            }
            q = q - 1;
        } else if i == 0 {
            return None;
        } else {
            i = i - 1;
            q = lines[i].end;
        }
    }
}

/// The `>` that ends the JSX tag opened by the `<` at byte `start` of line
/// `li`, across lines: its line, its position, and whether the tag closes
/// itself.
pub open spec fn spec_tag_end_lines(b: Seq<u8>, lines: Seq<Line>, li: int, start: int) -> Option<(int, int, bool)> {
    match spec_tag_end_lines_scan(b, lines, li, start + 1, None, false, 0, MdxBraceState::Normal, false) {
        Some((gl, g)) => Some((gl, g, spec_prev_nonspace_lines(b, lines, gl, g) == Some(47u8))),
        None => None,
    }
}

pub fn tag_end_lines(b: &[u8], lines: &[Line], li: usize, start: usize) -> (r: Option<(usize, usize, bool)>)
    requires
        li < lines@.len(),
        spec_lines_within(lines@, b@.len()),
        spec_lines_ordered(lines@),
        lines@[li as int].start <= start < lines@[li as int].end,
    ensures
        r == (match spec_tag_end_lines(b@, lines@, li as int, start as int) {
            Some((gl, g, sc)) => Some((gl as usize, g as usize, sc)),
            None => None,
        }),
        r matches Some((gl, g, _)) ==> li <= gl < lines@.len() && lines@[gl as int].start <= g < lines@[gl as int].end
            && (gl == li ==> start < g),
        spec_tag_end_lines(b@, lines@, li as int, start as int) matches Some((gl, g, _)) ==> li <= gl < lines@.len()
            && lines@[gl].start <= g < lines@[gl].end && (gl == li ==> start < g),
{
    let m = lines.len();
    proof {
        lemma_tag_end_lines_bounds(b@, lines@, li as int, start + 1, None, false, 0, MdxBraceState::Normal, false);
    }
    let ghost total = spec_tag_end_lines_scan(b@, lines@, li as int, start + 1, None, false, 0, MdxBraceState::Normal, false);
    let mut i = li;
    let mut p = start + 1;
    let mut quote: Option<u8> = None;
    let mut escaped = false;
    let mut depth: usize = 0;
    let mut es = MdxBraceState::Normal;
    let mut ee = false;
    while i < m
        invariant
            m == lines@.len(),
            spec_lines_within(lines@, b@.len()),
            spec_lines_ordered(lines@),
            li <= i < m,
            lines@[i as int].start <= p <= lines@[i as int].end,
            i == li ==> start < p,
            depth <= p,
            spec_tag_end_lines_scan(b@, lines@, i as int, p as int, quote, escaped, depth as nat, es, ee) == total,
            total == spec_tag_end_lines_scan(b@, lines@, li as int, start + 1, None, false, 0, MdxBraceState::Normal, false),
            total matches Some((gl, g)) ==> li <= gl < m && lines@[gl].start <= g < lines@[gl].end && (gl == li ==> start < g),
        decreases m - i, lines@[i as int].end - p,
    {
        let l = lines[i];
        if p >= l.end {
            if es == MdxBraceState::LineComment {
                es = MdxBraceState::Normal;
            }
            if i + 1 < m {
                assert(lines@[i as int].end <= lines@[i + 1].start);
                i = i + 1;
                p = lines[i].start;
                continue;
            } else {
                return None;
            }
        }
        let x = b[p];
        if depth > 0 {
            let next: Option<u8> = if p + 1 < l.end {
                Some(b[p + 1])
            } else {
                None
            };
            let (d2, s2, e2, skip) = expression_step(x, next, depth, es, ee);
            depth = d2;
            es = s2;
            ee = e2;
            p = if skip {
                p + 2
            } else {
                p + 1
            };
        } else {
            match quote {
                Some(q) => {
                    if escaped {
                        escaped = false;
                    } else if x == 92u8 {
                        escaped = true;
                    } else if x == q {
                        quote = None;
                    }
                    p = p + 1;
                },
                None => {
                    if x == 39u8 || x == 34u8 {
                        quote = Some(x);
                    } else if x == 123u8 {
                        depth = 1;
                        es = MdxBraceState::Normal;
                        ee = false;
                    } else if x == 62u8 {
                        let sc = prev_nonspace_lines(b, lines, i, p) == Some(47u8);
                        return Some((i, p, sc));
                    }
                    p = p + 1;
                },
            }
        }
    }
    None
}

/// The scan for the end of a JSX block whose opening tag is named `root`, from
/// byte `p` of line `li`, with `depth` elements of that name open: the line on
/// which the matching closing tag ends. Tags are found by their `<` within a
/// line and read whole, across lines if need be.
pub open spec fn spec_jsx_block_scan(b: Seq<u8>, lines: Seq<Line>, root: Option<(int, int)>, li: int, p: int, depth: nat) -> Option<int>
    decreases lines.len() - li, lines[li].end - p,
{
    if li < 0 || li >= lines.len() {
        None
    } else {
        let l = lines[li];
        if p < l.start {
            None
        } else if p >= l.end || !(crate::links::spec_find_byte(b, p, 60u8) matches Some(t) && t < l.end) {
            if li + 1 < lines.len() {
                spec_jsx_block_scan(b, lines, root, li + 1, lines[li + 1].start as int, depth)
            } else {
                None
            }
        } else {
            let t = crate::links::spec_find_byte(b, p, 60u8)->Some_0;
            proof {
                crate::literal_autolink::lemma_find_byte_bounds(b, p, 60u8);
            }
            match spec_jsx_tag_start(b, t, l.end as int) {
                None => spec_jsx_block_scan(b, lines, root, li, t + 1, depth),
                Some((closing, name)) => {
                    proof {
                        lemma_tag_end_lines_bounds(b, lines, li, t + 1, None, false, 0, MdxBraceState::Normal, false);
                    }
                    match spec_tag_end_lines(b, lines, li, t) {
                        None => None,
                        Some((tel, tep, csc)) => {
                            let matched = spec_jsx_tags_match(b, root, name);
                            if matched && closing && depth <= 1 {
                                Some(tel)
                            } else {
                                let nd: nat = if matched && closing {
                                    (depth - 1) as nat
                                } else if matched && !csc {
                                    depth + 1
                                } else {
                                    depth
                                };
                                spec_jsx_block_scan(b, lines, root, tel, tep + 1, nd)
                            }
                        },
                    }
                },
            }
        }
    }
}

/// The line on which the JSX block that starts on line `index` (after its
/// leading white space) ends: the line of the `>` of a self-closing root tag,
/// or of the root's matching closing tag.
pub open spec fn spec_jsx_block_close(b: Seq<u8>, lines: Seq<Line>, index: int) -> Option<int> {
    let l = lines[index];
    let sb = spec_skip_ws_within(b, l.start as int, l.end as int);
    match spec_jsx_tag_start(b, sb, l.end as int) {
        None => None,
        Some((closing, root)) => if closing {
            None
        } else {
            match spec_tag_end_lines(b, lines, index, sb) {
                None => None,
                Some((cl, cb, sc)) => if sc {
                    Some(cl)
                } else {
                    spec_jsx_block_scan(b, lines, root, cl, cb + 1, 1)
                },
            }
        },
    }
}

/// A line found by the block scan is at or after where it started.
pub proof fn lemma_jsx_block_scan_bounds(b: Seq<u8>, lines: Seq<Line>, root: Option<(int, int)>, li: int, p: int, depth: nat)
    ensures
        spec_jsx_block_scan(b, lines, root, li, p, depth) matches Some(c) ==> li <= c < lines.len(),
    decreases lines.len() - li, lines[li].end - p,
{
    if 0 <= li < lines.len() {
        let l = lines[li];
        if p < l.start {
        } else if p >= l.end || !(crate::links::spec_find_byte(b, p, 60u8) matches Some(t) && t < l.end) {
            if li + 1 < lines.len() {
                lemma_jsx_block_scan_bounds(b, lines, root, li + 1, lines[li + 1].start as int, depth);
            }
        } else {
            let t = crate::links::spec_find_byte(b, p, 60u8)->Some_0;
            crate::literal_autolink::lemma_find_byte_bounds(b, p, 60u8);
            match spec_jsx_tag_start(b, t, l.end as int) {
                None => {
                    lemma_jsx_block_scan_bounds(b, lines, root, li, t + 1, depth);
                },
                Some((closing, name)) => {
                    lemma_tag_end_lines_bounds(b, lines, li, t + 1, None, false, 0, MdxBraceState::Normal, false);
                    match spec_tag_end_lines(b, lines, li, t) {
                        None => {},
                        Some((tel, tep, csc)) => {
                            let matched = spec_jsx_tags_match(b, root, name);
                            if !(matched && closing && depth <= 1) {
                                let nd: nat = if matched && closing {
                                    (depth - 1) as nat
                                } else if matched && !csc {
                                    depth + 1
                                } else {
                                    depth
                                };
                                lemma_jsx_block_scan_bounds(b, lines, root, tel, tep + 1, nd);
                            }
                        },
                    }
                },
            }
        }
    }
}

/// The first `<` in `b[p..e]`.
fn first_lt_before(b: &[u8], p: usize, e: usize) -> (r: Option<usize>)
    requires
        e <= b@.len(),
    ensures
        r is None ==> !(crate::links::spec_find_byte(b@, p as int, 60u8) matches Some(t) && t < e),
        r matches Some(t) ==> crate::links::spec_find_byte(b@, p as int, 60u8) == Some(t as int) && p <= t < e,
{
    proof {
        crate::literal_autolink::lemma_find_byte_bounds(b@, p as int, 60u8);
    }
    let mut i = p;
    while i < e
        invariant
            p <= i,
            e <= b@.len(),
            crate::links::spec_find_byte(b@, i as int, 60u8) == crate::links::spec_find_byte(b@, p as int, 60u8),
        decreases e - i,
    {
        if b[i] == 60u8 {
            return Some(i);
        }
        i = i + 1;
    }
    proof {
        crate::literal_autolink::lemma_find_byte_bounds(b@, i as int, 60u8);
    }
    None
}

/// The line on which the JSX block that starts on line `index` ends (see
/// [`spec_jsx_block_close`]).
pub fn jsx_block_close(b: &[u8], lines: &[Line], index: usize) -> (r: Option<usize>)
    requires
        index < lines@.len(),
        spec_lines_within(lines@, b@.len()),
        spec_lines_ordered(lines@),
    ensures
        r == (match spec_jsx_block_close(b@, lines@, index as int) {
            Some(c) => Some(c as usize),
            None => None,
        }),
        r matches Some(c) ==> index <= c < lines@.len(),
{
    let m = lines.len();
    let l = lines[index];
    let sb = skip_ws_within(b, l.start, l.end);
    let (closing, root) = match jsx_tag_start(b, sb, l.end) {
        None => {
            return None;
        },
        Some(x) => x,
    };
    if closing {
        return None;
    }
    let (cl, cb, sc) = match tag_end_lines(b, lines, index, sb) {
        None => {
            return None;
        },
        Some(x) => x,
    };
    if sc {
        return Some(cl);
    }
    let ghost sroot = match root {
        Some((s, e)) => Some((s as int, e as int)),
        None => None,
    };
    proof {
        lemma_jsx_block_scan_bounds(b@, lines@, sroot, cl as int, cb + 1, 1);
    }
    let ghost total = spec_jsx_block_scan(b@, lines@, sroot, cl as int, cb + 1, 1);
    let mut li = cl;
    let mut p = cb + 1;
    let mut depth: usize = 1;
    while li < m
        invariant
            m == lines@.len(),
            spec_lines_within(lines@, b@.len()),
            spec_lines_ordered(lines@),
            index <= li < m,
            lines@[li as int].start <= p <= lines@[li as int].end,
            1 <= depth <= p,
            root matches Some((s, e)) ==> s <= e <= b@.len(),
            sroot == (match root {
                Some((s, e)) => Some((s as int, e as int)),
                None => None,
            }),
            spec_jsx_block_scan(b@, lines@, sroot, li as int, p as int, depth as nat) == total,
            total == spec_jsx_block_close(b@, lines@, index as int),
            total matches Some(c) ==> index <= c < m,
        decreases m - li, lines@[li as int].end - p,
    {
        let l = lines[li];
        let found = if p < l.end {
            first_lt_before(b, p, l.end)
        } else {
            None
        };
        match found {
            None => {
                if li + 1 < m {
                    assert(lines@[li as int].end <= lines@[li + 1].start);
                    li = li + 1;
                    p = lines[li].start;
                    continue;
                } else {
                    return None;
                }
            },
            Some(t) => {
                let (cclosing, name) = match jsx_tag_start(b, t, l.end) {
                    None => {
                        p = t + 1;
                        continue;
                    },
                    Some(x) => x,
                };
                let (tel, tep, csc) = match tag_end_lines(b, lines, li, t) {
                    None => {
                        return None;
                    },
                    Some(x) => x,
                };
                let matched = jsx_tags_match(b, root, name);
                if matched && cclosing && depth <= 1 {
                    return Some(tel);
                }
                if matched && cclosing {
                    depth = depth - 1;
                } else if matched && !csc {
                    depth = depth + 1;
                }
                if tel > li {
                    proof {
                        assert(lines@[li as int].end <= lines@[tel as int].start) by {
                            lemma_ordered_lines_far(lines@, li as int, tel as int);
                        }
                    }
                }
                li = tel;
                p = tep + 1;
            },
        }
    }
    None
}

/// In ordered lines, a line ends before any later line starts.
pub proof fn lemma_ordered_lines_far(lines: Seq<Line>, i: int, j: int)
    requires
        spec_lines_ordered(lines),
        0 <= i < j < lines.len(),
        forall|k: int| 0 <= k < lines.len() ==> (#[trigger] lines[k]).start <= lines[k].end,
    ensures
        lines[i].end <= lines[j].start,
    decreases j - i,
{
    assert(lines[j - 1].end <= lines[(j - 1) + 1].start);
    if j - 1 > i {
        lemma_ordered_lines_far(lines, i, j - 1);
    }
}

/// The text of an expression block from the `{` at `open` on line `sl` to the
/// `}` at `close` on line `cl`: the lines between, cut after the opening brace
/// and before the closing one, joined by line feeds.
pub open spec fn spec_expression_block_value(b: Seq<u8>, lines: Seq<Line>, sl: int, open: int, cl: int, close: int) -> Seq<u8>
    decreases cl - sl,
{
    if cl <= sl {
        b.subrange(open + 1, close)
    } else {
        spec_expression_block_text(b, lines, sl, open, cl - 1).push(10u8) + b.subrange(lines[cl].start as int, close)
    }
}

/// The text of lines `sl..=k` of an expression block, the first cut after the
/// opening brace at `open`.
pub open spec fn spec_expression_block_text(b: Seq<u8>, lines: Seq<Line>, sl: int, open: int, k: int) -> Seq<u8>
    decreases k - sl,
{
    if k <= sl {
        b.subrange(open + 1, lines[sl].end as int)
    } else {
        spec_expression_block_text(b, lines, sl, open, k - 1).push(10u8) + b.subrange(
            lines[k].start as int,
            lines[k].end as int,
        )
    }
}

/// The text of the expression block (see [`spec_expression_block_value`]).
pub fn expression_block_value(b: &[u8], lines: &[Line], sl: usize, open: usize, cl: usize, close: usize) -> (r: Vec<u8>)
    requires
        sl <= cl < lines@.len(),
        spec_lines_within(lines@, b@.len()),
        lines@[sl as int].start <= open < lines@[sl as int].end,
        lines@[cl as int].start <= close < lines@[cl as int].end,
        sl == cl ==> open < close,
    ensures
        r@ == spec_expression_block_value(b@, lines@, sl as int, open as int, cl as int, close as int),
{
    let mut out: Vec<u8> = Vec::new();
    if sl == cl {
        crate::text::push_range(&mut out, b, open + 1, close);
        assert(out@ =~= spec_expression_block_value(b@, lines@, sl as int, open as int, cl as int, close as int));
        return out;
    }
    crate::text::push_range(&mut out, b, open + 1, lines[sl].end);
    assert(out@ =~= spec_expression_block_text(b@, lines@, sl as int, open as int, sl as int));
    let mut k = sl + 1;
    while k < cl
        invariant
            sl < k <= cl < lines@.len(),
            spec_lines_within(lines@, b@.len()),
            lines@[sl as int].start <= open < lines@[sl as int].end,
            out@ == spec_expression_block_text(b@, lines@, sl as int, open as int, k - 1),
        decreases cl - k,
    {
        out.push(10u8);
        crate::text::push_range(&mut out, b, lines[k].start, lines[k].end);
        assert(out@ =~= spec_expression_block_text(b@, lines@, sl as int, open as int, k as int));
        k = k + 1;
    }
    out.push(10u8);
    crate::text::push_range(&mut out, b, lines[cl].start, close);
    assert(out@ =~= spec_expression_block_value(b@, lines@, sl as int, open as int, cl as int, close as int));
    out
}

} // verus!
