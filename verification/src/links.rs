//! Links, images, autolinks and raw inline HTML: the scanners for link labels,
//! destinations and titles, and the autolink grammar.
use vstd::prelude::*;

use crate::ast::{LinkDestinationKind, LinkTitleKind};
use crate::block_start::{is_declaration_start, is_escaped_at, parse_html_tag, spec_is_escaped_at};
use crate::inline_parse::{code_span_end, parse_character_reference, push_char_bytes, spec_numeric_reference, spec_utf8};
use crate::text::{
    char_len_at, push_bytes, code_point_at, find_sub, is_ascii_alnum, is_ascii_alpha, is_ascii_punctuation, is_control_cp, is_whitespace_cp,
    spec_char_len_at, spec_code_point_at, spec_is_ascii_alnum, spec_is_ascii_alpha, spec_is_ascii_punctuation,
    spec_is_control_cp, spec_is_whitespace_cp, spec_starts_with_at, spec_ws_len_at, starts_with_at,
    whitespace_len_at,
};

verus! {

// ---------------------------------------------------------------------------
// Whitespace inside a link resource.
// ---------------------------------------------------------------------------

/// Where the spaces, tabs and line endings from `k` end, with at most one line
/// ending among them counting `breaks` already seen; `None` on a second one.
pub open spec fn spec_resource_space(b: Seq<u8>, k: int, breaks: nat) -> Option<int>
    decreases b.len() - k,
{
    if k < 0 || k >= b.len() {
        Some(k)
    } else if b[k] == 32u8 || b[k] == 9u8 {
        spec_resource_space(b, k + 1, breaks)
    } else if b[k] == 10u8 || b[k] == 13u8 {
        if breaks >= 1 {
            None
        } else if b[k] == 13u8 && k + 1 < b.len() && b[k + 1] == 10u8 {
            spec_resource_space(b, k + 2, breaks + 1)
        } else {
            spec_resource_space(b, k + 1, breaks + 1)
        }
    } else {
        Some(k)
    }
}

/// Skips spaces, tabs and at most one line ending from `index`: where they
/// end and whether there were any, or `None` when a second line ending comes.
pub fn skip_link_resource_space_with_info(b: &[u8], index: usize) -> (r: Option<(usize, bool)>)
    requires
        index <= b@.len(),
    ensures
        match spec_resource_space(b@, index as int, 0) {
            Some(e) => r == Some((e as usize, e > index)),
            None => r is None,
        },
        r matches Some(x) ==> index <= x.0 <= b@.len(),
{
    let n = b.len();
    let mut k = index;
    let mut breaks: usize = 0;
    while k < n && (b[k] == 32u8 || b[k] == 9u8 || b[k] == 10u8 || b[k] == 13u8)
        invariant
            index <= k <= n == b@.len(),
            breaks <= 1,
            spec_resource_space(b@, k as int, breaks as nat) == spec_resource_space(b@, index as int, 0),
            breaks == 0 ==> k == index || (forall|j: int| index <= j < k ==> b@[j] == 32u8 || b@[j] == 9u8),
        decreases n - k,
    {
        if b[k] == 10u8 || b[k] == 13u8 {
            if breaks >= 1 {
                return None;
            }
            breaks = 1;
            if b[k] == 13u8 && k + 1 < n && b[k + 1] == 10u8 {
                k = k + 2;
            } else {
                k = k + 1;
            }
        } else {
            k = k + 1;
        }
    }
    proof {
        lemma_resource_space_stops(b@, k as int, breaks as nat);
    }
    Some((k, k > index))
}

proof fn lemma_resource_space_stops(b: Seq<u8>, k: int, breaks: nat)
    requires
        0 <= k <= b.len(),
        k == b.len() || !(b[k] == 32u8 || b[k] == 9u8 || b[k] == 10u8 || b[k] == 13u8),
    ensures
        spec_resource_space(b, k, breaks) == Some(k),
{
}

// ---------------------------------------------------------------------------
// Unescaping destinations and titles.
// ---------------------------------------------------------------------------

/// Whether a backslash before `c` escapes it: any ASCII punctuation, or, for
/// the narrow form, only `\\` and `&`.
pub open spec fn spec_escapable(c: u8, punct: bool) -> bool {
    if punct {
        spec_is_ascii_punctuation(c)
    } else {
        c == 92u8 || c == 38u8
    }
}

/// `b[k..]` with numeric character references decoded, backslash escapes of
/// escapable characters resolved (any other backslash kept) and NUL replaced
/// by U+FFFD.
pub open spec fn spec_unescape_from(b: Seq<u8>, k: int, punct: bool) -> Seq<u8>
    decreases b.len() - k,
{
    if k < 0 || k >= b.len() {
        seq![]
    } else if b[k] == 38u8 && spec_numeric_reference(b, k) is Some {
        let (e, v) = spec_numeric_reference(b, k)->0;
        spec_utf8(v) + spec_unescape_from(b, e, punct)
    } else if b[k] == 92u8 && k + 1 < b.len() && spec_escapable(b[k + 1], punct) {
        seq![b[k + 1]] + spec_unescape_from(b, k + 2, punct)
    } else if b[k] == 92u8 && k + 1 < b.len() && b[k + 1] == 0u8 {
        seq![92u8, 0u8] + spec_unescape_from(b, k + 2, punct)
    } else if b[k] == 0u8 {
        seq![0xEFu8, 0xBFu8, 0xBDu8] + spec_unescape_from(b, k + 1, punct)
    } else {
        seq![b[k]] + spec_unescape_from(b, k + 1, punct)
    }
}

/// One step of unescaping `s` at `k`: the bytes it yields and where the next
/// step starts.
fn unescape_step(s: &[u8], k: usize, punct: bool) -> (r: (Vec<u8>, usize))
    requires
        k < s@.len(),
    ensures
        k < r.1 <= s@.len(),
        spec_unescape_from(s@, k as int, punct) == r.0@ + spec_unescape_from(s@, r.1 as int, punct),
{
    let c = s[k];
    let mut out: Vec<u8> = Vec::new();
    if c == 38u8 {
        match parse_character_reference(s, k) {
            Some((e, v)) => {
                push_char_bytes(&mut out, v);
                assert(out@ =~= seq![] + spec_utf8(v as u32));
                return (out, e);
            },
            None => {},
        }
    }
    let escapable = k + 1 < s.len() && (if punct {
        is_ascii_punctuation(s[k + 1])
    } else {
        s[k + 1] == 92u8 || s[k + 1] == 38u8
    });
    if c == 92u8 && escapable {
        out.push(s[k + 1]);
        (out, k + 2)
    } else if c == 92u8 && k + 1 < s.len() && s[k + 1] == 0u8 {
        out.push(92u8);
        out.push(0u8);
        (out, k + 2)
    } else if c == 0u8 {
        out.push(0xEFu8);
        out.push(0xBFu8);
        out.push(0xBDu8);
        (out, k + 1)
    } else {
        out.push(c);
        (out, k + 1)
    }
}

/// `b[start..end]` unescaped, ASCII punctuation being escapable (see
/// [`spec_unescape_from`]).
pub fn unescape_ascii_punctuation(b: &[u8], start: usize, end: usize) -> (r: Vec<u8>)
    requires
        start <= end <= b@.len(),
    ensures
        r@ == spec_unescape_from(b@.subrange(start as int, end as int), 0, true),
{
    unescape_selected(b, start, end, true)
}

/// `b[start..end]` unescaped, with ASCII punctuation escapable or (`punct`
/// off) only `\\` and `&` (see [`spec_unescape_from`]).
pub fn unescape_selected(b: &[u8], start: usize, end: usize, punct: bool) -> (r: Vec<u8>)
    requires
        start <= end <= b@.len(),
    ensures
        r@ == spec_unescape_from(b@.subrange(start as int, end as int), 0, punct),
{
    let local = crate::text::copy_range(b, start, end);
    let m = local.len();
    let mut out: Vec<u8> = Vec::new();
    let mut k: usize = 0;
    while k < m
        invariant
            k <= m == local@.len(),
            out@ + spec_unescape_from(local@, k as int, punct) == spec_unescape_from(local@, 0, punct),
        decreases m - k,
    {
        let (step, next) = unescape_step(local.as_slice(), k, punct);
        let ghost before = out@;
        push_bytes(&mut out, step.as_slice());
        proof {
            assert(out@ + spec_unescape_from(local@, next as int, punct) =~= before + (step@ + spec_unescape_from(
                local@,
                next as int,
                punct,
            )));
        }
        k = next;
    }
    proof {
        assert(out@ + spec_unescape_from(local@, k as int, punct) =~= out@);
    }
    out
}

// ---------------------------------------------------------------------------
// Destinations and titles.
// ---------------------------------------------------------------------------

/// The first unescaped `>` from `k`, unless an unescaped `<` or a line ending
/// comes first.
pub open spec fn spec_angle_close(b: Seq<u8>, k: int) -> Option<int>
    decreases b.len() - k,
{
    if k < 0 || k >= b.len() {
        None
    } else if b[k] == 62u8 && !spec_is_escaped_at(b, k) {
        Some(k)
    } else if (b[k] == 60u8 && !spec_is_escaped_at(b, k)) || b[k] == 10u8 || b[k] == 13u8 {
        None
    } else {
        spec_angle_close(b, k + 1)
    }
}

/// Whether `c` is an ASCII control character.
pub open spec fn spec_is_ascii_control(c: u8) -> bool {
    c < 32u8 || c == 127u8
}

/// Where a bare destination scanned from `k` at parenthesis depth `depth`
/// stops (a space or control character at depth zero, or an unmatched `)`),
/// with the depth left open there; `None` past depth 32.
pub open spec fn spec_bare_end(b: Seq<u8>, k: int, depth: nat) -> Option<(int, nat)>
    decreases b.len() - k,
{
    if k < 0 || k >= b.len() {
        Some((k, depth))
    } else if (b[k] == 32u8 || spec_is_ascii_control(b[k])) && depth == 0 {
        Some((k, 0))
    } else if b[k] == 40u8 && !spec_is_escaped_at(b, k) {
        if depth + 1 > 32 {
            None
        } else {
            spec_bare_end(b, k + 1, depth + 1)
        }
    } else if b[k] == 41u8 && !spec_is_escaped_at(b, k) {
        if depth == 0 {
            Some((k, 0))
        } else {
            spec_bare_end(b, k + 1, (depth - 1) as nat)
        }
    } else {
        spec_bare_end(b, k + 1, depth)
    }
}

/// A link destination at `index`: whether it is in angle brackets, the range
/// of its raw text, and where it ends.
pub open spec fn spec_destination(b: Seq<u8>, index: int) -> Option<(bool, int, int, int)> {
    if 0 <= index < b.len() && b[index] == 60u8 {
        match spec_angle_close(b, index + 1) {
            Some(c) => Some((true, index + 1, c, c + 1)),
            None => None,
        }
    } else {
        match spec_bare_end(b, index, 0) {
            Some((e, d)) => if e == index || d > 0 {
                None
            } else {
                Some((false, index, e, e))
            },
            None => None,
        }
    }
}

fn angle_close(b: &[u8], k: usize) -> (r: Option<usize>)
    requires
        k <= b@.len(),
    ensures
        r == (match spec_angle_close(b@, k as int) {
            Some(c) => Some(c as usize),
            None => None,
        }),
        r matches Some(c) ==> k <= c < b@.len(),
        spec_angle_close(b@, k as int) matches Some(c) ==> k <= c < b@.len(),
    decreases b@.len() - k,
{
    if k >= b.len() {
        return None;
    }
    let c = b[k];
    if c == 62u8 && !is_escaped_at(b, k) {
        Some(k)
    } else if (c == 60u8 && !is_escaped_at(b, k)) || c == 10u8 || c == 13u8 {
        None
    } else {
        angle_close(b, k + 1)
    }
}

fn bare_end(b: &[u8], k: usize, depth: usize) -> (r: Option<(usize, usize)>)
    requires
        k <= b@.len(),
        depth <= 32,
    ensures
        r == (match spec_bare_end(b@, k as int, depth as nat) {
            Some((e, d)) => Some((e as usize, d as usize)),
            None => None,
        }),
        r matches Some(x) ==> k <= x.0 <= b@.len() && x.1 <= 32,
        spec_bare_end(b@, k as int, depth as nat) matches Some(x) ==> k <= x.0 <= b@.len() && x.1 <= 32,
    decreases b@.len() - k,
{
    if k >= b.len() {
        return Some((k, depth));
    }
    let c = b[k];
    if (c == 32u8 || c < 32u8 || c == 127u8) && depth == 0 {
        Some((k, 0))
    } else if c == 40u8 && !is_escaped_at(b, k) {
        if depth + 1 > 32 {
            None
        } else {
            bare_end(b, k + 1, depth + 1)
        }
    } else if c == 41u8 && !is_escaped_at(b, k) {
        if depth == 0 {
            Some((k, 0))
        } else {
            bare_end(b, k + 1, depth - 1)
        }
    } else {
        bare_end(b, k + 1, depth)
    }
}

/// Parses a link destination at `index`: its unescaped value, its kind and
/// where it ends.
pub fn parse_link_destination(b: &[u8], index: usize) -> (r: Option<(Vec<u8>, LinkDestinationKind, usize)>)
    requires
        index <= b@.len(),
    ensures
        r is None <==> spec_destination(b@, index as int) is None,
        r matches Some(x) ==> {
            let (angle, s, e, next) = spec_destination(b@, index as int)->0;
            &&& x.2 == next
            &&& x.1 == (if angle {
                LinkDestinationKind::Angle
            } else {
                LinkDestinationKind::Bare
            })
            &&& 0 <= s <= e <= b@.len()
            &&& x.0@ == spec_unescape_from(b@.subrange(s, e), 0, true)
            &&& index < x.2 <= b@.len()
        },
{
    if index < b.len() && b[index] == 60u8 {
        match angle_close(b, index + 1) {
            Some(c) => {
                let value = unescape_ascii_punctuation(b, index + 1, c);
                assert(spec_destination(b@, index as int) == Some((true, index + 1, c as int, c + 1)));
                Some((value, LinkDestinationKind::Angle, c + 1))
            },
            None => None,
        }
    } else {
        match bare_end(b, index, 0) {
            Some((e, d)) => {
                if e == index || d > 0 {
                    None
                } else {
                    let value = unescape_ascii_punctuation(b, index, e);
                    assert(spec_destination(b@, index as int) == Some((false, index as int, e as int, e as int)));
                    Some((value, LinkDestinationKind::Bare, e))
                }
            },
            None => None,
        }
    }
}

/// The closing delimiter of a title from `k`: the first unescaped `closer`,
/// unless (for a parenthesized title) an unescaped `(` comes first.
pub open spec fn spec_title_close(b: Seq<u8>, k: int, closer: u8, paren: bool) -> Option<int>
    decreases b.len() - k,
{
    if k < 0 || k >= b.len() {
        None
    } else if b[k] == closer && !spec_is_escaped_at(b, k) {
        Some(k)
    } else if paren && b[k] == 40u8 && !spec_is_escaped_at(b, k) {
        None
    } else {
        spec_title_close(b, k + 1, closer, paren)
    }
}

/// A link title opening at `index` (`"`, `'` or `(`): its kind and the index
/// of its closing delimiter.
pub open spec fn spec_title(b: Seq<u8>, index: int) -> Option<(LinkTitleKind, int)> {
    if 0 <= index < b.len() && (b[index] == 34u8 || b[index] == 39u8 || b[index] == 40u8) {
        let opener = b[index];
        let closer: u8 = if opener == 40u8 {
            41u8
        } else {
            opener
        };
        let kind = if opener == 34u8 {
            LinkTitleKind::DoubleQuote
        } else if opener == 39u8 {
            LinkTitleKind::SingleQuote
        } else {
            LinkTitleKind::Paren
        };
        match spec_title_close(b, index + 1, closer, opener == 40u8) {
            Some(c) => Some((kind, c)),
            None => None,
        }
    } else {
        None
    }
}

fn title_close(b: &[u8], k: usize, closer: u8, paren: bool) -> (r: Option<usize>)
    requires
        k <= b@.len(),
    ensures
        r == (match spec_title_close(b@, k as int, closer, paren) {
            Some(c) => Some(c as usize),
            None => None,
        }),
        r matches Some(c) ==> k <= c < b@.len(),
        spec_title_close(b@, k as int, closer, paren) matches Some(c) ==> k <= c < b@.len(),
    decreases b@.len() - k,
{
    if k >= b.len() {
        return None;
    }
    let c = b[k];
    if c == closer && !is_escaped_at(b, k) {
        Some(k)
    } else if paren && c == 40u8 && !is_escaped_at(b, k) {
        None
    } else {
        title_close(b, k + 1, closer, paren)
    }
}

/// Whether `b[start..end]` has a blank line with line endings on both sides.
fn contains_blank_line(b: &[u8], start: usize, end: usize) -> (r: bool)
    requires
        start <= end <= b@.len(),
{
    let local = crate::text::copy_range(b, start, end);
    let lines = crate::parse::collect_lines(local.as_slice());
    let count = lines.len();
    let mut i: usize = 1;
    while i < count && i + 1 < count
        invariant
            1 <= i,
            count == lines@.len(),
            crate::parse::spec_lines_of(local@, lines@),
        decreases count - i,
    {
        let line = lines[i];
        let text = crate::text::copy_range(local.as_slice(), line.start, line.end);
        if crate::text::is_all_whitespace(text.as_slice()) {
            return true;
        }
        i = i + 1;
    }
    false
}

/// Parses a link title at `index`: its unescaped value, its kind and where it
/// ends. A title holding a blank line is refused.
pub fn parse_link_title(b: &[u8], index: usize) -> (r: Option<(Vec<u8>, LinkTitleKind, usize)>)
    requires
        index <= b@.len(),
    ensures
        spec_title(b@, index as int) is None ==> r is None,
        r matches Some(x) ==> {
            let (kind, c) = spec_title(b@, index as int)->0;
            &&& x.1 == kind
            &&& x.2 == c + 1
            &&& index < c < b@.len()
            &&& x.0@ == spec_unescape_from(b@.subrange(index + 1, c), 0, true)
        },
{
    if index >= b.len() {
        return None;
    }
    let opener = b[index];
    let (closer, kind) = if opener == 34u8 {
        (34u8, LinkTitleKind::DoubleQuote)
    } else if opener == 39u8 {
        (39u8, LinkTitleKind::SingleQuote)
    } else if opener == 40u8 {
        (41u8, LinkTitleKind::Paren)
    } else {
        return None;
    };
    match title_close(b, index + 1, closer, opener == 40u8) {
        Some(c) => {
            if contains_blank_line(b, index + 1, c) {
                return None;
            }
            let value = unescape_ascii_punctuation(b, index + 1, c);
            Some((value, kind, c + 1))
        },
        None => None,
    }
}

// ---------------------------------------------------------------------------
// Autolinks.
// ---------------------------------------------------------------------------

/// A byte that may follow the first letter of a URI scheme.
pub open spec fn spec_is_scheme_byte(c: u8) -> bool {
    spec_is_ascii_alnum(c) || c == 43u8 || c == 46u8 || c == 45u8
}

/// The first index at or after `k` holding `c`, if any.
pub open spec fn spec_find_byte(s: Seq<u8>, k: int, c: u8) -> Option<int>
    decreases s.len() - k,
{
    if k < 0 || k >= s.len() {
        None
    } else if s[k] == c {
        Some(k)
    } else {
        spec_find_byte(s, k + 1, c)
    }
}

fn find_byte(s: &[u8], k: usize, c: u8) -> (r: Option<usize>)
    requires
        k <= s@.len(),
    ensures
        r == (match spec_find_byte(s@, k as int, c) {
            Some(i) => Some(i as usize),
            None => None,
        }),
        r matches Some(i) ==> k <= i < s@.len() && s@[i as int] == c,
        spec_find_byte(s@, k as int, c) matches Some(i) ==> k <= i < s@.len() && s@[i] == c,
    decreases s@.len() - k,
{
    if k >= s.len() {
        None
    } else if s[k] == c {
        Some(k)
    } else {
        find_byte(s, k + 1, c)
    }
}

/// From `k` on, no scalar is `<`, `>`, a control character or whitespace.
pub open spec fn spec_uri_rest(s: Seq<u8>, k: int) -> bool
    decreases s.len() - k,
{
    if k < 0 || k >= s.len() {
        true
    } else {
        let c = spec_code_point_at(s, k);
        &&& c != 60 && c != 62 && !spec_is_control_cp(c) && !spec_is_whitespace_cp(c)
        &&& spec_uri_rest(s, k + spec_char_len_at(s, k))
    }
}

/// `s` (the text between `<` and `>`) is an absolute URI: a scheme of 2 to 32
/// characters (a letter, then letters, digits, `+`, `.` or `-`), a colon, and
/// no `<`, `>`, control character or whitespace after it.
pub open spec fn spec_uri_autolink(s: Seq<u8>) -> bool {
    match spec_find_byte(s, 0, 58u8) {
        Some(colon) => {
            &&& 2 <= colon <= 32
            &&& spec_is_ascii_alpha(s[0])
            &&& forall|j: int| 1 <= j < colon ==> spec_is_scheme_byte(#[trigger] s[j])
            &&& spec_uri_rest(s, colon + 1)
        },
        None => false,
    }
}

fn uri_rest(s: &[u8], k: usize) -> (r: bool)
    requires
        k <= s@.len(),
    ensures
        r == spec_uri_rest(s@, k as int),
    decreases s@.len() - k,
{
    if k >= s.len() {
        return true;
    }
    let (w, c) = code_point_at(s, k);
    if c == 60 || c == 62 || is_control_cp(c) || is_whitespace_cp(c) {
        return false;
    }
    uri_rest(s, k + w)
}

/// Whether `s` is the inside of a URI autolink (see [`spec_uri_autolink`]).
pub fn is_uri_autolink(s: &[u8]) -> (r: bool)
    ensures
        r == spec_uri_autolink(s@),
{
    match find_byte(s, 0, 58u8) {
        Some(colon) => {
            if colon < 2 || colon > 32 || !is_ascii_alpha(s[0]) {
                return false;
            }
            let mut j: usize = 1;
            while j < colon
                invariant
                    1 <= j <= colon < s@.len(),
                    spec_find_byte(s@, 0, 58u8) == Some(colon as int),
                    forall|i: int| 1 <= i < j ==> spec_is_scheme_byte(#[trigger] s@[i]),
                decreases colon - j,
            {
                let c = s[j];
                if !(is_ascii_alnum(c) || c == 43u8 || c == 46u8 || c == 45u8) {
                    assert(!spec_is_scheme_byte(s@[j as int]));
                    assert(spec_find_byte(s@, 0, 58u8) == Some(colon as int));
                    assert(!(forall|i: int| 1 <= i < colon ==> spec_is_scheme_byte(#[trigger] s@[i])));
                    return false;
                }
                j = j + 1;
            }
            uri_rest(s, colon + 1)
        },
        None => false,
    }
}

/// A byte allowed in the local part of an email address.
pub open spec fn spec_is_email_atext(c: u8) -> bool {
    spec_is_ascii_alnum(c) || c == 33u8 || c == 35u8 || c == 36u8 || c == 37u8 || c == 38u8 || c == 39u8
        || c == 42u8 || c == 43u8 || c == 47u8 || c == 61u8 || c == 63u8 || c == 94u8 || c == 95u8 || c
        == 96u8 || c == 123u8 || c == 124u8 || c == 125u8 || c == 126u8 || c == 45u8
}

/// The end of the dot-free segment of `s[..end]` that starts at `k`.
pub open spec fn spec_segment_end(s: Seq<u8>, k: int, end: int) -> int
    decreases end - k,
{
    if k >= end || s[k] == 46u8 {
        k
    } else {
        spec_segment_end(s, k + 1, end)
    }
}

fn segment_end(s: &[u8], k: usize, end: usize) -> (r: usize)
    requires
        k <= end <= s@.len(),
    ensures
        r == spec_segment_end(s@, k as int, end as int),
        k <= r <= end,
        forall|j: int| k <= j < r ==> s@[j] != 46u8,
        r < end ==> s@[r as int] == 46u8,
    decreases end - k,
{
    if k >= end || s[k] == 46u8 {
        k
    } else {
        segment_end(s, k + 1, end)
    }
}

/// The dot-separated segments of `s[k..end]` are each non-empty and made of
/// email `atext` bytes.
pub open spec fn spec_local_segments(s: Seq<u8>, k: int, end: int) -> bool
    decreases end - k, 0int,
{
    if k < 0 || k > end {
        false
    } else {
        let e = spec_segment_end(s, k, end);
        &&& e > k
        &&& forall|j: int| k <= j < e ==> spec_is_email_atext(#[trigger] s[j])
        &&& (e >= end || spec_local_segments(s, e + 1, end))
    }
}

/// The dot-separated labels of `s[k..end]` each have 1 to 63 bytes of ASCII
/// letters, digits and `-`, starting and ending with a letter or digit.
pub open spec fn spec_domain_labels(s: Seq<u8>, k: int, end: int) -> bool
    decreases end - k, 0int,
{
    if k < 0 || k > end {
        false
    } else {
        let e = spec_segment_end(s, k, end);
        &&& k < e <= k + 63
        &&& spec_is_ascii_alnum(s[k]) && spec_is_ascii_alnum(s[e - 1])
        &&& forall|j: int| k <= j < e ==> spec_is_ascii_alnum(#[trigger] s[j]) || s[j] == 45u8
        &&& (e >= end || spec_domain_labels(s, e + 1, end))
    }
}

fn local_segments(s: &[u8], k: usize, end: usize) -> (r: bool)
    requires
        k <= end <= s@.len(),
    ensures
        r == spec_local_segments(s@, k as int, end as int),
    decreases end - k,
{
    let e = segment_end(s, k, end);
    if e == k {
        return false;
    }
    let mut j = k;
    while j < e
        invariant
            k <= j <= e <= end <= s@.len(),
            e == spec_segment_end(s@, k as int, end as int),
            forall|i: int| k <= i < j ==> spec_is_email_atext(#[trigger] s@[i]),
        decreases e - j,
    {
        let c = s[j];
        if !(is_ascii_alnum(c) || c == 33u8 || c == 35u8 || c == 36u8 || c == 37u8 || c == 38u8 || c == 39u8
            || c == 42u8 || c == 43u8 || c == 47u8 || c == 61u8 || c == 63u8 || c == 94u8 || c == 95u8
            || c == 96u8 || c == 123u8 || c == 124u8 || c == 125u8 || c == 126u8 || c == 45u8) {
            assert(!spec_is_email_atext(s@[j as int]));
            assert(!(forall|i: int| k <= i < e ==> spec_is_email_atext(#[trigger] s@[i])));
            return false;
        }
        j = j + 1;
    }
    if e >= end {
        true
    } else {
        local_segments(s, e + 1, end)
    }
}

fn domain_labels(s: &[u8], k: usize, end: usize) -> (r: bool)
    requires
        k <= end <= s@.len(),
    ensures
        r == spec_domain_labels(s@, k as int, end as int),
    decreases end - k,
{
    let e = segment_end(s, k, end);
    if e == k || e - k > 63 || !is_ascii_alnum(s[k]) || !is_ascii_alnum(s[e - 1]) {
        return false;
    }
    let mut j = k;
    while j < e
        invariant
            k <= j <= e <= end <= s@.len(),
            e == spec_segment_end(s@, k as int, end as int),
            forall|i: int| k <= i < j ==> spec_is_ascii_alnum(#[trigger] s@[i]) || s@[i] == 45u8,
        decreases e - j,
    {
        let c = s[j];
        if !(is_ascii_alnum(c) || c == 45u8) {
            assert(!(spec_is_ascii_alnum(s@[j as int]) || s@[j as int] == 45u8));
            assert(!(forall|i: int| k <= i < e ==> spec_is_ascii_alnum(#[trigger] s@[i]) || s@[i] == 45u8));
            return false;
        }
        j = j + 1;
    }
    if e >= end {
        true
    } else {
        domain_labels(s, e + 1, end)
    }
}

/// `s` (the text between `<` and `>`) is an email address: no whitespace, a
/// local part of dot-separated `atext` segments before the first `@`, and a
/// domain of dot-separated labels after it.
pub open spec fn spec_email_autolink(s: Seq<u8>) -> bool {
    &&& !(exists|k: int| 0 <= k < s.len() && spec_ws_len_at(s, k) > 0)
    &&& match spec_find_byte(s, 0, 64u8) {
        Some(at) => at != 0 && at + 1 < s.len() && spec_local_segments(s, 0, at) && spec_domain_labels(
            s,
            at + 1,
            s.len() as int,
        ),
        None => false,
    }
}

/// Whether `s` is the inside of an email autolink (see [`spec_email_autolink`]).
pub fn is_email_autolink(s: &[u8]) -> (r: bool)
    ensures
        r == spec_email_autolink(s@),
{
    let n = s.len();
    let mut k: usize = 0;
    while k < n
        invariant
            k <= n == s@.len(),
            forall|j: int| 0 <= j < k ==> spec_ws_len_at(s@, j) == 0,
        decreases n - k,
    {
        if whitespace_len_at(s, k) > 0 {
            return false;
        }
        k = k + 1;
    }
    match find_byte(s, 0, 64u8) {
        Some(at) => at != 0 && at + 1 < n && local_segments(s, 0, at) && domain_labels(s, at + 1, n),
        None => false,
    }
}

/// The end of a `<...>` autolink at `index` in `b`: just past the first `>`
/// after it, when the text between is a URI or an email address.
pub open spec fn spec_autolink_end(b: Seq<u8>, index: int) -> Option<int> {
    if 0 <= index < b.len() && b[index] == 60u8 {
        match spec_find_byte(b, index, 62u8) {
            Some(g) => {
                let inner = b.subrange(index + 1, g);
                if spec_uri_autolink(inner) || spec_email_autolink(inner) {
                    Some(g + 1)
                } else {
                    None
                }
            },
            None => None,
        }
    } else {
        None
    }
}

/// The end of the autolink at `index`, if one starts there.
pub fn autolink_end(b: &[u8], index: usize) -> (r: Option<usize>)
    requires
        index <= b@.len(),
    ensures
        r == (match spec_autolink_end(b@, index as int) {
            Some(e) => Some(e as usize),
            None => None,
        }),
        r matches Some(e) ==> index + 2 <= e <= b@.len(),
{
    if !(index < b.len() && b[index] == 60u8) {
        return None;
    }
    match find_byte(b, index, 62u8) {
        Some(g) => {
            let inner = crate::text::copy_range(b, index + 1, g);
            if is_uri_autolink(inner.as_slice()) || is_email_autolink(inner.as_slice()) {
                Some(g + 1)
            } else {
                None
            }
        },
        None => None,
    }
}

// ---------------------------------------------------------------------------
// Raw inline HTML.
// ---------------------------------------------------------------------------

/// The end of raw inline HTML at `index`: a comment, a processing
/// instruction, a CDATA section or a declaration up to its terminator, or an
/// open or close tag.
pub open spec fn spec_html_inline_end(b: Seq<u8>, index: int) -> Option<usize> {
    if !(0 <= index < b.len() && b[index] == 60u8) {
        None
    } else if spec_starts_with_at(b, index, seq![60u8, 33u8, 45u8, 45u8]) {
        match crate::text::spec_find_sub(b, index, seq![45u8, 45u8, 62u8]) {
            Some(p) => Some((p + 3) as usize),
            None => None,
        }
    } else if spec_starts_with_at(b, index, seq![60u8, 63u8]) {
        match crate::text::spec_find_sub(b, index, seq![63u8, 62u8]) {
            Some(p) => Some((p + 2) as usize),
            None => None,
        }
    } else if spec_starts_with_at(b, index, seq![60u8, 33u8, 91u8, 67u8, 68u8, 65u8, 84u8, 65u8, 91u8]) {
        match crate::text::spec_find_sub(b, index, seq![93u8, 93u8, 62u8]) {
            Some(p) => Some((p + 3) as usize),
            None => None,
        }
    } else if crate::block_start::spec_declaration_start(b, index, b.len() as int) {
        match spec_find_byte(b, index, 62u8) {
            Some(g) => Some((g + 1) as usize),
            None => None,
        }
    } else {
        crate::block_start::spec_html_tag(b, index, b.len() as int)
    }
}

/// The end of raw inline HTML at `index` (see [`spec_html_inline_end`]).
pub fn html_inline_end(b: &[u8], index: usize) -> (r: Option<usize>)
    requires
        index <= b@.len(),
    ensures
        r == spec_html_inline_end(b@, index as int),
        r matches Some(e) ==> index < e <= b@.len() && b@[index as int] == 60u8,
{
    let n = b.len();
    if !(index < n && b[index] == 60u8) {
        return None;
    }
    if starts_with_at(b, index, &[60u8, 33u8, 45u8, 45u8]) {
        return match find_sub(b, index, &[45u8, 45u8, 62u8]) {
            Some(p) => Some(p + 3),
            None => None,
        };
    }
    if starts_with_at(b, index, &[60u8, 63u8]) {
        return match find_sub(b, index, &[63u8, 62u8]) {
            Some(p) => Some(p + 2),
            None => None,
        };
    }
    if starts_with_at(b, index, &[60u8, 33u8, 91u8, 67u8, 68u8, 65u8, 84u8, 65u8, 91u8]) {
        return match find_sub(b, index, &[93u8, 93u8, 62u8]) {
            Some(p) => Some(p + 3),
            None => None,
        };
    }
    if is_declaration_start(b, index, n) {
        return match find_byte(b, index, 62u8) {
            Some(g) => Some(g + 1),
            None => None,
        };
    }
    parse_html_tag(b, index, n)
}

// ---------------------------------------------------------------------------
// Link labels and resources.
// ---------------------------------------------------------------------------

/// Where the character after a backslash at `k` ends (a backslash at the end
/// stands alone).
fn after_escape(b: &[u8], k: usize) -> (r: usize)
    requires
        k < b@.len(),
    ensures
        k < r <= b@.len(),
        r == crate::delimited::spec_after_escape(b@, k as int),
{
    let n = b.len();
    let next = k + 1;
    if next < n {
        next + char_len_at(b, next)
    } else {
        next
    }
}

/// Where the scan resumes after the construct at `cursor` that a link label
/// skips whole: a code span, an autolink or raw inline HTML.
pub open spec fn spec_label_skip(b: Seq<u8>, cursor: int) -> Option<usize> {
    if b[cursor] == 96u8 && (crate::inline_parse::spec_code_span_end(b, cursor) matches Some(e) && cursor < e
        <= b.len()) {
        crate::inline_parse::spec_code_span_end(b, cursor)
    } else if b[cursor] == 60u8 && (spec_autolink_end(b, cursor) matches Some(e) && cursor < e <= b.len()) {
        Some(spec_autolink_end(b, cursor)->Some_0 as usize)
    } else if b[cursor] == 60u8 && (spec_html_inline_end(b, cursor) matches Some(e) && cursor < e <= b.len()) {
        spec_html_inline_end(b, cursor)
    } else {
        None
    }
}

/// The scan for the `]` closing a link label from `cursor`, `depth` brackets
/// open: backslash escapes and the constructs of [`spec_label_skip`] are
/// skipped; a nesting deeper than the machine word refuses the label.
pub open spec fn spec_label_end_scan(b: Seq<u8>, cursor: int, depth: nat) -> Option<usize>
    decreases b.len() - cursor,
{
    if cursor < 0 || cursor >= b.len() {
        None
    } else if b[cursor] == 92u8 {
        spec_label_end_scan(b, crate::delimited::spec_after_escape(b, cursor), depth)
    } else if spec_label_skip(b, cursor) matches Some(e) && cursor < e <= b.len() {
        spec_label_end_scan(b, spec_label_skip(b, cursor)->Some_0 as int, depth)
    } else if b[cursor] == 91u8 {
        if depth >= usize::MAX {
            None
        } else {
            spec_label_end_scan(b, cursor + crate::text::spec_char_len_at(b, cursor), depth + 1)
        }
    } else if b[cursor] == 93u8 {
        if depth <= 1 {
            Some(cursor as usize)
        } else {
            spec_label_end_scan(b, cursor + crate::text::spec_char_len_at(b, cursor), (depth - 1) as nat)
        }
    } else {
        spec_label_end_scan(b, cursor + crate::text::spec_char_len_at(b, cursor), depth)
    }
}

/// The `]` that closes the link text opened by the `[` at `open`: brackets
/// nest, and backslash escapes, code spans, autolinks and raw HTML are
/// skipped whole.
pub fn find_link_label_end(b: &[u8], open: usize) -> (r: Option<usize>)
    requires
        open <= b@.len(),
    ensures
        r matches Some(c) ==> open < c < b@.len() && b@[c as int] == 93u8 && b@[open as int] == 91u8,
        r == (if open < b@.len() && b@[open as int] == 91u8 {
            spec_label_end_scan(b@, open + 1, 1)
        } else {
            None
        }),
{
    let n = b.len();
    if !(open < n && b[open] == 91u8) {
        return None;
    }
    let mut depth: usize = 1;
    let mut cursor = open + 1;
    while cursor < n
        invariant
            open < cursor <= n + 1,
            n == b@.len(),
            b@[open as int] == 91u8,
            1 <= depth,
            spec_label_end_scan(b@, cursor as int, depth as nat) == spec_label_end_scan(b@, open + 1, 1),
        decreases n + 1 - cursor,
    {
        let c = b[cursor];
        if c == 92u8 {
            cursor = after_escape(b, cursor);
            continue;
        }
        if c == 96u8 {
            match code_span_end(b, cursor) {
                Some(e) => {
                    cursor = e;
                    continue;
                },
                None => {},
            }
        }
        if c == 60u8 {
            proof {
                crate::literal_autolink::lemma_find_byte_bounds(b@, cursor as int, 62u8);
            }
            match autolink_end(b, cursor) {
                Some(e) => {
                    cursor = e;
                    continue;
                },
                None => {},
            }
            match html_inline_end(b, cursor) {
                Some(e) => {
                    cursor = e;
                    continue;
                },
                None => {},
            }
        }
        if c == 91u8 {
            if depth == usize::MAX {
                return None;
            }
            depth = depth + 1;
        } else if c == 93u8 {
            depth = depth - 1;
            if depth == 0 {
                return Some(cursor);
            }
        }
        cursor = cursor + char_len_at(b, cursor);
    }
    None
}

/// Whether the scalars of `b[k..end]`, after `count` already seen, number at
/// most 999.
pub open spec fn spec_within_limit_from(b: Seq<u8>, k: int, end: int, count: nat) -> bool
    decreases b.len() - k,
{
    if k < 0 || k >= end || k >= b.len() {
        true
    } else if count + 1 > 999 {
        false
    } else {
        spec_within_limit_from(b, k + crate::text::spec_char_len_at(b, k), end, count + 1)
    }
}

/// Whether `b[start..end]` has at most 999 characters.
pub fn label_within_limit(b: &[u8], start: usize, end: usize) -> (r: bool)
    requires
        start <= end <= b@.len(),
    ensures
        r == spec_within_limit_from(b@, start as int, end as int, 0),
{
    let n = b.len();
    let mut count: usize = 0;
    let mut k = start;
    while k < end
        invariant
            start <= k <= n,
            n == b@.len(),
            end <= n,
            count <= 999,
            spec_within_limit_from(b@, k as int, end as int, count as nat) == spec_within_limit_from(
                b@,
                start as int,
                end as int,
                0,
            ),
        decreases n - k,
    {
        count = count + 1;
        if count > 999 {
            return false;
        }
        k = k + char_len_at(b, k);
    }
    true
}

/// The scan for the `]` that closes a reference label opened by the `[` at
/// `open`: labels do not nest (an unescaped `[` refuses the label) and hold at
/// most 999 characters.
pub open spec fn spec_reference_label_scan(b: Seq<u8>, open: int, cursor: int) -> Option<usize>
    decreases b.len() - cursor,
{
    if cursor < 0 || cursor >= b.len() {
        None
    } else if b[cursor] == 92u8 {
        spec_reference_label_scan(b, open, crate::delimited::spec_after_escape(b, cursor))
    } else if b[cursor] == 91u8 {
        None
    } else if b[cursor] == 93u8 {
        if spec_within_limit_from(b, open + 1, cursor, 0) {
            Some(cursor as usize)
        } else {
            None
        }
    } else {
        spec_reference_label_scan(b, open, cursor + crate::text::spec_char_len_at(b, cursor))
    }
}

/// The `]` that closes a reference label opened by the `[` at `open` (see
/// [`spec_reference_label_scan`]).
pub fn find_reference_label_end(b: &[u8], open: usize) -> (r: Option<usize>)
    requires
        open <= b@.len(),
    ensures
        r matches Some(c) ==> open < c < b@.len() && b@[c as int] == 93u8 && b@[open as int] == 91u8,
        r == (if open < b@.len() && b@[open as int] == 91u8 {
            spec_reference_label_scan(b@, open as int, open + 1)
        } else {
            None
        }),
{
    let n = b.len();
    if !(open < n && b[open] == 91u8) {
        return None;
    }
    let mut cursor = open + 1;
    while cursor < n
        invariant
            open < cursor,
            n == b@.len(),
            b@[open as int] == 91u8,
            spec_reference_label_scan(b@, open as int, cursor as int) == spec_reference_label_scan(
                b@,
                open as int,
                open + 1,
            ),
        decreases n + 1 - cursor,
    {
        let c = b[cursor];
        if c == 92u8 {
            cursor = after_escape(b, cursor);
            continue;
        }
        if c == 91u8 {
            return None;
        }
        if c == 93u8 {
            if label_within_limit(b, open + 1, cursor) {
                return Some(cursor);
            }
            return None;
        }
        cursor = cursor + char_len_at(b, cursor);
    }
    None
}

/// The parts of a link resource `(destination "title")`.
pub struct LinkResource {
    pub destination: Vec<u8>,
    pub destination_kind: LinkDestinationKind,
    pub title: Option<Vec<u8>>,
    pub title_kind: Option<LinkTitleKind>,
}

/// Parses the resource `( destination title )` whose `(` is at `open`: where
/// it ends and its parts. An omitted destination is allowed.
pub fn parse_link_resource(b: &[u8], open: usize) -> (r: Option<(usize, LinkResource)>)
    requires
        open <= b@.len(),
    ensures
        r matches Some(x) ==> open < x.0 <= b@.len() && b@[x.0 - 1] == 41u8 && b@[open as int] == 40u8,
        r matches Some(x) ==> (x.1.title is Some <==> x.1.title_kind is Some),
{
    let n = b.len();
    if !(open < n && b[open] == 40u8) {
        return None;
    }
    let (mut cursor, initial_space) = match skip_link_resource_space_with_info(b, open + 1) {
        Some(x) => x,
        None => return None,
    };
    if cursor < n && b[cursor] == 41u8 {
        return Some(
            (
                cursor + 1,
                LinkResource {
                    destination: Vec::new(),
                    destination_kind: LinkDestinationKind::Omitted,
                    title: None,
                    title_kind: None,
                },
            ),
        );
    }
    if initial_space && cursor < n && (b[cursor] == 34u8 || b[cursor] == 39u8 || b[cursor] == 40u8) {
        let (title, title_kind, next) = match parse_link_title(b, cursor) {
            Some(x) => x,
            None => return None,
        };
        cursor = match skip_link_resource_space_with_info(b, next) {
            Some(x) => x.0,
            None => return None,
        };
        if cursor < n && b[cursor] == 41u8 {
            return Some(
                (
                    cursor + 1,
                    LinkResource {
                        destination: Vec::new(),
                        destination_kind: LinkDestinationKind::Omitted,
                        title: Some(title),
                        title_kind: Some(title_kind),
                    },
                ),
            );
        }
        return None;
    }
    let (destination, destination_kind, next) = match parse_link_destination(b, cursor) {
        Some(x) => x,
        None => return None,
    };
    let (after_destination, had_space) = match skip_link_resource_space_with_info(b, next) {
        Some(x) => x,
        None => return None,
    };
    cursor = after_destination;
    if cursor < n && b[cursor] == 41u8 {
        return Some(
            (cursor + 1, LinkResource { destination, destination_kind, title: None, title_kind: None }),
        );
    }
    if !had_space {
        return None;
    }
    let (title, title_kind, next) = match parse_link_title(b, cursor) {
        Some(x) => x,
        None => return None,
    };
    cursor = match skip_link_resource_space_with_info(b, next) {
        Some(x) => x.0,
        None => return None,
    };
    if cursor < n && b[cursor] == 41u8 {
        Some(
            (
                cursor + 1,
                LinkResource { destination, destination_kind, title: Some(title), title_kind: Some(title_kind) },
            ),
        )
    } else {
        None
    }
}

/// Parses what follows `[label]:` in a definition: a destination and an
/// optional title, with nothing but spaces and at most one line ending
/// between them and after them.
pub fn parse_definition_destination_title(b: &[u8]) -> (r: Option<LinkResource>)
    ensures
        r matches Some(x) ==> (x.title is Some <==> x.title_kind is Some),
        r matches Some(x) ==> x.destination_kind != LinkDestinationKind::Omitted,
{
    let n = b.len();
    let cursor = match skip_link_resource_space_with_info(b, 0) {
        Some(x) => x.0,
        None => return None,
    };
    let (destination, destination_kind, next) = match parse_link_destination(b, cursor) {
        Some(x) => x,
        None => return None,
    };
    let (cursor, had_space) = match skip_link_resource_space_with_info(b, next) {
        Some(x) => x,
        None => return None,
    };
    if cursor >= n {
        return Some(LinkResource { destination, destination_kind, title: None, title_kind: None });
    }
    if !had_space {
        return None;
    }
    let (title, title_kind, next) = match parse_link_title(b, cursor) {
        Some(x) => x,
        None => return None,
    };
    let after_title = match skip_link_resource_space_with_info(b, next) {
        Some(x) => x.0,
        None => return None,
    };
    if after_title == n {
        Some(LinkResource { destination, destination_kind, title: Some(title), title_kind: Some(title_kind) })
    } else {
        None
    }
}

} // verus!
