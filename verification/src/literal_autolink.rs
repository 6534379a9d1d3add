//! GFM literal autolinks: bare `http(s)://` and `www.` URLs, bare and
//! `mailto:`/`xmpp:` e-mail addresses, and, with relaxed autolinks, any
//! `scheme://` URL. The rules follow cmark-gfm: the character before a literal,
//! the host or domain grammar, the URL extent, and the trim of trailing
//! punctuation and entity runs.
use vstd::prelude::*;

use crate::links::spec_find_byte;
use crate::text::{
    char_len_at, code_point_at, is_ascii_alnum, is_ascii_alpha, is_ascii_hex, is_ascii_punctuation,
    is_whitespace_cp, spec_char_len_at, spec_code_point_at, spec_is_ascii_alnum, spec_is_ascii_alpha,
    spec_is_ascii_hex, spec_is_ascii_punctuation, spec_is_whitespace_cp, spec_starts_with_at,
    spec_starts_with_ci, spec_ws_len_at, starts_with_at, starts_with_ci, whitespace_len_at,
};

verus! {

// ---------------------------------------------------------------------------
// Searching.
// ---------------------------------------------------------------------------

/// A byte found at or after `k` lies at or after `k`, inside the text.
pub proof fn lemma_find_byte_bounds(b: Seq<u8>, k: int, c: u8)
    requires
        0 <= k,
    ensures
        spec_find_byte(b, k, c) matches Some(i) ==> k <= i < b.len() && b[i] == c,
    decreases b.len() - k,
{
    if k < b.len() && b[k] != c {
        lemma_find_byte_bounds(b, k + 1, c);
    }
}

/// The first index at or after `k` holding `c`.
fn first_byte_from(b: &[u8], k: usize, c: u8) -> (r: Option<usize>)
    ensures
        r == (match spec_find_byte(b@, k as int, c) {
            Some(i) => Some(i as usize),
            None => None,
        }),
        r matches Some(i) ==> k <= i < b@.len() && b@[i as int] == c,
        spec_find_byte(b@, k as int, c) matches Some(i) ==> k <= i < b@.len(),
{
    proof {
        lemma_find_byte_bounds(b@, k as int, c);
    }
    let mut i = k;
    while i < b.len()
        invariant
            k <= i,
            spec_find_byte(b@, i as int, c) == spec_find_byte(b@, k as int, c),
        decreases b@.len() - i,
    {
        if b[i] == c {
            return Some(i);
        }
        i = i + 1;
    }
    None
}

/// The last index in `[s, e)` holding `c`.
pub open spec fn spec_last_byte(b: Seq<u8>, s: int, e: int, c: u8) -> Option<int>
    decreases e - s,
{
    if e <= s {
        None
    } else if b[e - 1] == c {
        Some(e - 1)
    } else {
        spec_last_byte(b, s, e - 1, c)
    }
}

/// A byte found in `[s, e)` lies there.
pub proof fn lemma_last_byte_bounds(b: Seq<u8>, s: int, e: int, c: u8)
    ensures
        spec_last_byte(b, s, e, c) matches Some(i) ==> s <= i < e && b[i] == c,
    decreases e - s,
{
    if e > s && b[e - 1] != c {
        lemma_last_byte_bounds(b, s, e - 1, c);
    }
}

fn last_byte(b: &[u8], s: usize, e: usize, c: u8) -> (r: Option<usize>)
    requires
        s <= e <= b@.len(),
    ensures
        spec_last_byte(b@, s as int, e as int, c) matches Some(i) ==> s <= i < e,
        r == (match spec_last_byte(b@, s as int, e as int, c) {
            Some(i) => Some(i as usize),
            None => None,
        }),
        r matches Some(i) ==> s <= i < e,
{
    proof {
        lemma_last_byte_bounds(b@, s as int, e as int, c);
    }
    let mut j = e;
    while j > s
        invariant
            s <= j <= e,
            e <= b@.len(),
            spec_last_byte(b@, s as int, j as int, c) == spec_last_byte(b@, s as int, e as int, c),
        decreases j - s,
    {
        if b[j - 1] == c {
            return Some(j - 1);
        }
        j = j - 1;
    }
    None
}

// ---------------------------------------------------------------------------
// Hosts and domains.
// ---------------------------------------------------------------------------

/// A host character starts at `k`: the scalar there is neither white space nor
/// punctuation. Only ASCII punctuation is recognised as punctuation.
pub open spec fn spec_is_host_char_at(b: Seq<u8>, k: int) -> bool {
    let cp = spec_code_point_at(b, k);
    !spec_is_whitespace_cp(cp) && !(cp < 128 && spec_is_ascii_punctuation(cp as u8))
}

fn is_host_char_at(b: &[u8], k: usize) -> (r: bool)
    requires
        k < b@.len(),
    ensures
        r == spec_is_host_char_at(b@, k as int),
{
    let (_, cp) = code_point_at(b, k);
    !is_whitespace_cp(cp) && !(cp < 128 && is_ascii_punctuation(cp as u8))
}

/// cmark-gfm's domain scan from `k` (the host starting at `start` and running
/// to the end of the text): the number of dots, the underscores of the segment
/// before the last dot, and the underscores since the last dot. Neither the
/// first nor the last scalar of the text is counted; a `\` takes the next
/// scalar literally; the scan stops at the first scalar that is not a host
/// character, `_`, `.` or `-`.
pub open spec fn spec_domain_scan(b: Seq<u8>, start: int, k: int, np: nat, u1: nat, u2: nat) -> (nat, nat, nat)
    decreases b.len() - k,
{
    if k < start || k >= b.len() {
        (np, u1, u2)
    } else {
        let w = spec_char_len_at(b, k);
        let counted = k != start && k + w < b.len();
        if b[k] == 92u8 {
            if k + 1 < b.len() {
                spec_domain_scan(b, start, k + 1 + spec_char_len_at(b, k + 1), np, u1, u2)
            } else {
                (np, u1, u2)
            }
        } else if b[k] == 95u8 && counted {
            spec_domain_scan(b, start, k + 1, np, u1, u2 + 1)
        } else if b[k] == 46u8 && counted {
            spec_domain_scan(b, start, k + 1, np + 1, u2, 0)
        } else if b[k] == 95u8 || b[k] == 46u8 || b[k] == 45u8 {
            spec_domain_scan(b, start, k + 1, np, u1, u2)
        } else if !spec_is_host_char_at(b, k) {
            (np, u1, u2)
        } else {
            spec_domain_scan(b, start, k + w, np, u1, u2)
        }
    }
}

/// The host at `start` is a valid domain: no underscore in its last two
/// segments (unless it has more than ten dots), and, unless `allow_short`, at
/// least one dot.
pub open spec fn spec_check_domain(b: Seq<u8>, start: int, allow_short: bool) -> bool {
    let (np, u1, u2) = spec_domain_scan(b, start, start, 0, 0, 0);
    !((u1 > 0 || u2 > 0) && np <= 10) && (allow_short || np > 0)
}

fn check_domain(b: &[u8], start: usize, allow_short: bool) -> (r: bool)
    ensures
        r == spec_check_domain(b@, start as int, allow_short),
{
    let n = b.len();
    let ghost total = spec_domain_scan(b@, start as int, start as int, 0, 0, 0);
    let mut k = start;
    let mut np: usize = 0;
    let mut u1: usize = 0;
    let mut u2: usize = 0;
    while k < n
        invariant
            n == b@.len(),
            start <= k,
            np <= k - start,
            u1 <= k - start,
            u2 <= k - start,
            spec_domain_scan(b@, start as int, k as int, np as nat, u1 as nat, u2 as nat) == total,
        ensures
            spec_domain_scan(b@, start as int, k as int, np as nat, u1 as nat, u2 as nat) == (
            np as nat,
            u1 as nat,
            u2 as nat,
            ),
            total == (np as nat, u1 as nat, u2 as nat),
        decreases n - k,
    {
        let w = char_len_at(b, k);
        let counted = k != start && k + w < n;
        let c = b[k];
        if c == 92u8 {
            if k + 1 < n {
                let w2 = char_len_at(b, k + 1);
                k = k + 1 + w2;
            } else {
                break;
            }
        } else if c == 95u8 && counted {
            u2 = u2 + 1;
            k = k + 1;
        } else if c == 46u8 && counted {
            np = np + 1;
            u1 = u2;
            u2 = 0;
            k = k + 1;
        } else if c == 95u8 || c == 46u8 || c == 45u8 {
            k = k + 1;
        } else if !is_host_char_at(b, k) {
            break;
        } else {
            k = k + w;
        }
    }
    !((u1 > 0 || u2 > 0) && np <= 10) && (allow_short || np > 0)
}

// ---------------------------------------------------------------------------
// Trailing trim.
// ---------------------------------------------------------------------------

/// The number of bytes `c` in `b[s..e]`.
pub open spec fn spec_count_byte(b: Seq<u8>, s: int, e: int, c: u8) -> nat
    decreases e - s,
{
    if e <= s {
        0
    } else {
        spec_count_byte(b, s, e - 1, c) + (if b[e - 1] == c {
            1nat
        } else {
            0nat
        })
    }
}

fn count_byte(b: &[u8], s: usize, e: usize, c: u8) -> (r: usize)
    requires
        s <= e <= b@.len(),
    ensures
        r == spec_count_byte(b@, s as int, e as int, c),
        r <= e - s,
{
    let mut k = s;
    let mut count: usize = 0;
    while k < e
        invariant
            s <= k <= e,
            e <= b@.len(),
            count == spec_count_byte(b@, s as int, k as int, c),
            count <= k - s,
        decreases e - k,
    {
        if b[k] == c {
            count = count + 1;
        }
        k = k + 1;
    }
    count
}

/// Walking back from `c` while the byte before is one of `hex` digits (or ASCII
/// alphanumerics when `!hex`), not past `s`.
pub open spec fn spec_back_over(b: Seq<u8>, s: int, c: int, hex: bool) -> int
    decreases c - s,
{
    if c > s && (if hex { spec_is_ascii_hex(b[c - 1]) } else { spec_is_ascii_alnum(b[c - 1]) }) {
        spec_back_over(b, s, c - 1, hex)
    } else {
        c
    }
}

pub proof fn lemma_back_over_bounds(b: Seq<u8>, s: int, c: int, hex: bool)
    requires
        s <= c,
    ensures
        s <= spec_back_over(b, s, c, hex) <= c,
    decreases c - s,
{
    if c > s && (if hex { spec_is_ascii_hex(b[c - 1]) } else { spec_is_ascii_alnum(b[c - 1]) }) {
        lemma_back_over_bounds(b, s, c - 1, hex);
    }
}

fn back_over(b: &[u8], s: usize, c: usize, hex: bool) -> (r: usize)
    requires
        s <= c <= b@.len(),
    ensures
        r == spec_back_over(b@, s as int, c as int, hex),
        s <= r <= c,
{
    let mut j = c;
    while j > s
        invariant
            s <= j <= c,
            c <= b@.len(),
            spec_back_over(b@, s as int, j as int, hex) == spec_back_over(b@, s as int, c as int, hex),
        ensures
            s <= j <= c,
            spec_back_over(b@, s as int, j as int, hex) == j,
            spec_back_over(b@, s as int, c as int, hex) == j,
        decreases j - s,
    {
        let y = b[j - 1];
        let more = if hex {
            is_ascii_hex(y)
        } else {
            is_ascii_alnum(y)
        };
        if !more {
            break;
        }
        j = j - 1;
    }
    j
}

/// When `b[s..e]` ends with a hexadecimal character reference `&#x…;` (at
/// least one digit, `x` in either case), where its `&` is.
pub open spec fn spec_trailing_hex_entity(b: Seq<u8>, s: int, e: int) -> Option<int> {
    if e <= s || b[e - 1] != 59u8 {
        None
    } else {
        let c = spec_back_over(b, s, e - 1, true);
        if c == e - 1 || c < s + 3 {
            None
        } else if (b[c - 1] == 120u8 || b[c - 1] == 88u8) && b[c - 2] == 35u8 && b[c - 3] == 38u8 {
            Some(c - 3)
        } else {
            None
        }
    }
}

fn trailing_hex_entity(b: &[u8], s: usize, e: usize) -> (r: Option<usize>)
    requires
        s <= e <= b@.len(),
    ensures
        r == (match spec_trailing_hex_entity(b@, s as int, e as int) {
            Some(i) => Some(i as usize),
            None => None,
        }),
        r matches Some(i) ==> s <= i < e,
{
    if e <= s || b[e - 1] != 59u8 {
        return None;
    }
    let c = back_over(b, s, e - 1, true);
    if c == e - 1 || c - s < 3 {
        return None;
    }
    if (b[c - 1] == 120u8 || b[c - 1] == 88u8) && b[c - 2] == 35u8 && b[c - 3] == 38u8 {
        Some(c - 3)
    } else {
        None
    }
}

/// A byte that is trimmed from the end of a literal autolink:
/// `? ! . , : * _ ~ ' "`.
pub open spec fn spec_is_trailing_trim(x: u8) -> bool {
    x == 63u8 || x == 33u8 || x == 46u8 || x == 44u8 || x == 58u8 || x == 42u8 || x == 95u8 || x == 126u8
        || x == 39u8 || x == 34u8
}

/// cmark-gfm's trailing trim of `b[s..e]`, with `opening` and `closing`
/// parentheses still in it: a trailing `)` goes while closers outnumber
/// openers, trailing punctuation goes, and a trailing `;` takes a whole
/// `&…;` entity run with it (or goes alone).
pub open spec fn spec_trim_from(b: Seq<u8>, s: int, e: int, opening: nat, closing: nat) -> int
    decreases e - s,
{
    if e <= s {
        e
    } else {
        proof {
            lemma_back_over_bounds(b, s, e - 1, true);
            lemma_back_over_bounds(b, s, e - 1, false);
        }
        let x = b[e - 1];
        if x == 41u8 {
            if closing <= opening {
                e
            } else {
                spec_trim_from(b, s, e - 1, opening, (closing - 1) as nat)
            }
        } else if spec_is_trailing_trim(x) {
            spec_trim_from(b, s, e - 1, opening, closing)
        } else if x == 59u8 {
            match spec_trailing_hex_entity(b, s, e) {
                Some(amp) => spec_trim_from(b, s, amp, opening, closing),
                None => {
                    let ne = spec_back_over(b, s, e - 1, false);
                    if ne > s && ne < e - 1 && b[ne - 1] == 38u8 {
                        spec_trim_from(b, s, ne - 1, opening, closing)
                    } else {
                        spec_trim_from(b, s, e - 1, opening, closing)
                    }
                },
            }
        } else {
            e
        }
    }
}

/// Where a literal autolink spanning `b[s..e]` ends once trailing delimiters
/// are trimmed.
pub open spec fn spec_autolink_delim(b: Seq<u8>, s: int, e: int) -> int {
    spec_trim_from(b, s, e, spec_count_byte(b, s, e, 40u8), spec_count_byte(b, s, e, 41u8))
}

fn autolink_delim(b: &[u8], s: usize, e: usize) -> (r: usize)
    requires
        s <= e <= b@.len(),
    ensures
        r == spec_autolink_delim(b@, s as int, e as int),
        s <= r <= e,
{
    let opening = count_byte(b, s, e, 40u8);
    let mut closing = count_byte(b, s, e, 41u8);
    let ghost total = spec_autolink_delim(b@, s as int, e as int);
    let mut end = e;
    while end > s
        invariant
            s <= end <= e,
            e <= b@.len(),
            spec_trim_from(b@, s as int, end as int, opening as nat, closing as nat) == total,
        ensures
            spec_trim_from(b@, s as int, end as int, opening as nat, closing as nat) == end,
            total == end,
            s <= end <= e,
        decreases end - s,
    {
        let x = b[end - 1];
        let ghost e0 = end as int;
        proof {
            lemma_back_over_bounds(b@, s as int, e0 - 1, true);
            lemma_back_over_bounds(b@, s as int, e0 - 1, false);
        }
        if x == 41u8 {
            if closing <= opening {
                break;
            }
            closing = closing - 1;
            end = end - 1;
        } else if x == 63u8 || x == 33u8 || x == 46u8 || x == 44u8 || x == 58u8 || x == 42u8 || x == 95u8
            || x == 126u8 || x == 39u8 || x == 34u8 {
            end = end - 1;
        } else if x == 59u8 {
            match trailing_hex_entity(b, s, end) {
                Some(amp) => {
                    end = amp;
                },
                None => {
                    let ne = back_over(b, s, end - 1, false);
                    if ne > s && ne < end - 1 && b[ne - 1] == 38u8 {
                        end = ne - 1;
                    } else {
                        end = end - 1;
                    }
                },
            }
        } else {
            break;
        }
    }
    end
}

// ---------------------------------------------------------------------------
// URL extent.
// ---------------------------------------------------------------------------

/// A scalar that ends a literal URL: white space, `<`, or an isolate control
/// (U+2066 to U+2069).
pub open spec fn spec_url_stop_at(b: Seq<u8>, k: int) -> bool {
    let cp = spec_code_point_at(b, k);
    spec_is_whitespace_cp(cp) || b[k] == 60u8 || (0x2066 <= cp <= 0x2069)
}

/// Where the forward URL scan from `k` stops. A balanced scan keeps matched
/// `[`…`]` and `{`…`}` inside and stops at an unmatched closer; a strict scan
/// stops at a `]` unless a `[` came before or a backtick span is open. Both stop
/// at a `\` before ASCII punctuation other than `.`.
pub open spec fn spec_url_scan(
    b: Seq<u8>,
    k: int,
    balanced: bool,
    brackets: nat,
    braces: nat,
    has_open: bool,
    in_ticks: bool,
) -> int
    decreases b.len() - k,
{
    if k < 0 || k >= b.len() || spec_url_stop_at(b, k) {
        k
    } else {
        let x = b[k];
        let escape_stop = x == 92u8 && k + 1 < b.len() && spec_is_ascii_punctuation(b[k + 1]) && b[k + 1]
            != 46u8;
        let next = k + spec_char_len_at(b, k);
        if balanced {
            if x == 93u8 && brackets == 0 {
                k
            } else if x == 125u8 && braces == 0 {
                k
            } else if escape_stop {
                k
            } else {
                let nb: nat = if x == 91u8 {
                    brackets + 1
                } else if x == 93u8 {
                    (brackets - 1) as nat
                } else {
                    brackets
                };
                let nc: nat = if x == 123u8 {
                    braces + 1
                } else if x == 125u8 {
                    (braces - 1) as nat
                } else {
                    braces
                };
                spec_url_scan(b, next, balanced, nb, nc, has_open, in_ticks)
            }
        } else {
            let open2 = has_open || x == 91u8;
            let ticks2 = if x == 96u8 {
                !in_ticks
            } else {
                in_ticks
            };
            if x == 93u8 && !open2 && !ticks2 {
                k
            } else if escape_stop {
                k
            } else {
                spec_url_scan(b, next, balanced, brackets, braces, open2, ticks2)
            }
        }
    }
}

/// Where a literal URL whose body starts at `start` ends: the forward scan,
/// then the trailing trim back to `trim_from`.
pub open spec fn spec_autolink_url_end(b: Seq<u8>, start: int, trim_from: int, balanced: bool) -> int {
    spec_autolink_delim(b, trim_from, spec_url_scan(b, start, balanced, 0, 0, false, false))
}

fn url_scan(b: &[u8], start: usize, balanced: bool) -> (r: usize)
    requires
        start <= b@.len(),
    ensures
        r == spec_url_scan(b@, start as int, balanced, 0, 0, false, false),
        start <= r <= b@.len(),
{
    let n = b.len();
    let ghost total = spec_url_scan(b@, start as int, balanced, 0, 0, false, false);
    let mut k = start;
    let mut brackets: usize = 0;
    let mut braces: usize = 0;
    let mut has_open = false;
    let mut in_ticks = false;
    while k < n
        invariant
            n == b@.len(),
            start <= k <= n,
            brackets <= k,
            braces <= k,
            spec_url_scan(b@, k as int, balanced, brackets as nat, braces as nat, has_open, in_ticks) == total,
        ensures
            start <= k <= n,
            total == k,
        decreases n - k,
    {
        let (w, cp) = code_point_at(b, k);
        let x = b[k];
        if is_whitespace_cp(cp) || x == 60u8 || (0x2066 <= cp && cp <= 0x2069) {
            break;
        }
        let escape_stop = x == 92u8 && k + 1 < n && is_ascii_punctuation(b[k + 1]) && b[k + 1] != 46u8;
        if balanced {
            if x == 93u8 && brackets == 0 {
                break;
            } else if x == 125u8 && braces == 0 {
                break;
            } else if escape_stop {
                break;
            }
            if x == 91u8 {
                brackets = brackets + 1;
            } else if x == 93u8 {
                brackets = brackets - 1;
            }
            if x == 123u8 {
                braces = braces + 1;
            } else if x == 125u8 {
                braces = braces - 1;
            }
        } else {
            has_open = has_open || x == 91u8;
            if x == 96u8 {
                in_ticks = !in_ticks;
            }
            if x == 93u8 && !has_open && !in_ticks {
                break;
            } else if escape_stop {
                break;
            }
        }
        k = k + w;
    }
    k
}

fn autolink_url_end(b: &[u8], start: usize, trim_from: usize, balanced: bool) -> (r: usize)
    requires
        trim_from <= start <= b@.len(),
    ensures
        r == spec_autolink_url_end(b@, start as int, trim_from as int, balanced),
        trim_from <= r <= b@.len(),
{
    let end = url_scan(b, start, balanced);
    autolink_delim(b, trim_from, end)
}

// ---------------------------------------------------------------------------
// Surroundings.
// ---------------------------------------------------------------------------

/// The character before an `http(s)://` (or relaxed `scheme://`) literal is not
/// an ASCII letter.
pub open spec fn spec_scheme_prefix_ok(b: Seq<u8>, index: int) -> bool {
    index == 0 || !spec_is_ascii_alpha(b[index - 1])
}

/// The character before a `www.` literal is one of `* _ ~ ( [ ]` or layout
/// white space (space, tab, line feed, carriage return).
pub open spec fn spec_www_prefix_ok(b: Seq<u8>, index: int) -> bool {
    index == 0 || {
        let p = b[index - 1];
        p == 42u8 || p == 95u8 || p == 126u8 || p == 40u8 || p == 91u8 || p == 93u8 || p == 32u8 || p == 9u8
            || p == 10u8 || p == 13u8
    }
}

/// `index` starts a line.
pub open spec fn spec_starts_line(b: Seq<u8>, index: int) -> bool {
    index == 0 || b[index - 1] == 10u8 || b[index - 1] == 13u8
}

/// Where the line holding `index` starts.
pub open spec fn spec_line_start(b: Seq<u8>, index: int) -> int
    decreases index,
{
    if index <= 0 {
        0
    } else if b[index - 1] == 10u8 || b[index - 1] == 13u8 {
        index
    } else {
        spec_line_start(b, index - 1)
    }
}

/// The nesting depth of unescaped `[` (a `]` closes one, never below zero)
/// from `k` up to `index`, starting at `depth`.
pub open spec fn spec_label_depth(b: Seq<u8>, k: int, index: int, depth: nat) -> nat
    decreases b.len() - k,
{
    if k < 0 || k >= index || k >= b.len() {
        depth
    } else if b[k] == 92u8 {
        if k + 1 < b.len() {
            spec_label_depth(b, k + 1 + spec_char_len_at(b, k + 1), index, depth)
        } else {
            depth
        }
    } else if b[k] == 91u8 {
        spec_label_depth(b, k + 1, index, depth + 1)
    } else if b[k] == 93u8 {
        spec_label_depth(b, k + 1, index, if depth > 0 { (depth - 1) as nat } else { 0 })
    } else {
        spec_label_depth(b, k + spec_char_len_at(b, k), index, depth)
    }
}

/// A link label opened earlier on the line is still open at `index`.
pub open spec fn spec_has_unclosed_opener(b: Seq<u8>, index: int) -> bool {
    spec_label_depth(b, spec_line_start(b, index), index, 0) > 0
}

/// From `k` on, an unescaped `)` comes before the end of the line.
pub open spec fn spec_tail_has_close(b: Seq<u8>, k: int) -> bool
    decreases b.len() - k,
{
    if k < 0 || k >= b.len() {
        false
    } else if b[k] == 92u8 {
        if k + 1 < b.len() {
            spec_tail_has_close(b, k + 1 + spec_char_len_at(b, k + 1))
        } else {
            false
        }
    } else if b[k] == 10u8 || b[k] == 13u8 {
        false
    } else if b[k] == 41u8 {
        true
    } else {
        spec_tail_has_close(b, k + spec_char_len_at(b, k))
    }
}

/// A literal spanning `b[index..end]` inside an open link label gives way to
/// the link: when `](` follows without a `)` on the line, or (strictly, outside
/// the GFM profile) when `]` follows.
pub open spec fn spec_suppressed(b: Seq<u8>, index: int, end: int, relaxed: bool, gfm_profile: bool) -> bool {
    spec_has_unclosed_opener(b, index) && ((spec_starts_with_at(b, end, seq![93u8, 40u8])
        && !spec_tail_has_close(b, end + 2)) || (!relaxed && !gfm_profile && end < b.len() && b[end]
        == 93u8))
}

fn line_start(b: &[u8], index: usize) -> (r: usize)
    requires
        index <= b@.len(),
    ensures
        r == spec_line_start(b@, index as int),
        r <= index,
{
    let mut j = index;
    while j > 0
        invariant
            j <= index <= b@.len(),
            spec_line_start(b@, j as int) == spec_line_start(b@, index as int),
        decreases j,
    {
        if b[j - 1] == 10u8 || b[j - 1] == 13u8 {
            return j;
        }
        j = j - 1;
    }
    0
}

fn has_unclosed_opener(b: &[u8], index: usize) -> (r: bool)
    requires
        index <= b@.len(),
    ensures
        r == spec_has_unclosed_opener(b@, index as int),
{
    let n = b.len();
    let start = line_start(b, index);
    let ghost total = spec_label_depth(b@, start as int, index as int, 0);
    let mut k = start;
    let mut depth: usize = 0;
    while k < index
        invariant
            n == b@.len(),
            index <= n,
            k <= n,
            depth <= k,
            spec_label_depth(b@, k as int, index as int, depth as nat) == total,
        decreases n - k,
    {
        let c = b[k];
        if c == 92u8 {
            if k + 1 < n {
                let w = char_len_at(b, k + 1);
                k = k + 1 + w;
            } else {
                k = n;
            }
        } else if c == 91u8 {
            depth = depth + 1;
            k = k + 1;
        } else if c == 93u8 {
            if depth > 0 {
                depth = depth - 1;
            }
            k = k + 1;
        } else {
            let w = char_len_at(b, k);
            k = k + w;
        }
    }
    depth > 0
}

fn tail_has_close(b: &[u8], start: usize) -> (r: bool)
    ensures
        r == spec_tail_has_close(b@, start as int),
{
    let n = b.len();
    let mut k = start;
    while k < n
        invariant
            n == b@.len(),
            spec_tail_has_close(b@, k as int) == spec_tail_has_close(b@, start as int),
        decreases n - k,
    {
        let c = b[k];
        if c == 92u8 {
            if k + 1 < n {
                let w = char_len_at(b, k + 1);
                k = k + 1 + w;
            } else {
                return false;
            }
        } else if c == 10u8 || c == 13u8 {
            return false;
        } else if c == 41u8 {
            return true;
        } else {
            let w = char_len_at(b, k);
            k = k + w;
        }
    }
    false
}

fn suppressed(b: &[u8], index: usize, end: usize, relaxed: bool, gfm_profile: bool) -> (r: bool)
    requires
        index <= b@.len(),
        end <= b@.len(),
    ensures
        r == spec_suppressed(b@, index as int, end as int, relaxed, gfm_profile),
{
    if !has_unclosed_opener(b, index) {
        return false;
    }
    if b.len() - end >= 2 && b[end] == 93u8 && b[end + 1] == 40u8 {
        assert(b@.subrange(end as int, end + 2) =~= seq![93u8, 40u8]);
        if !tail_has_close(b, end + 2) {
            return true;
        }
    } else {
        assert(!spec_starts_with_at(b@, end as int, seq![93u8, 40u8])) by {
            if spec_starts_with_at(b@, end as int, seq![93u8, 40u8]) {
                assert(b@.subrange(end as int, end + 2)[0] == 93u8);
                assert(b@.subrange(end as int, end + 2)[1] == 40u8);
            }
        }
    }
    !relaxed && !gfm_profile && end < b.len() && b[end] == 93u8
}

// ---------------------------------------------------------------------------
// Schemes and hosts.
// ---------------------------------------------------------------------------

/// The end of the run of scheme bytes (ASCII alphanumerics, `+`, `.`, `-`) at `k`.
pub open spec fn spec_scheme_run_end(b: Seq<u8>, k: int) -> int
    decreases b.len() - k,
{
    if 0 <= k < b.len() && crate::links::spec_is_scheme_byte(b[k]) {
        spec_scheme_run_end(b, k + 1)
    } else {
        k
    }
}

/// The length of a relaxed `scheme://` prefix at `index` (an ASCII letter, then
/// scheme bytes), or of a scheme-less `://`.
pub open spec fn spec_relaxed_scheme_after(b: Seq<u8>, index: int) -> Option<int> {
    if spec_starts_with_at(b, index, seq![58u8, 47u8, 47u8]) {
        Some(3)
    } else if index >= b.len() || !spec_is_ascii_alpha(b[index]) {
        None
    } else {
        let p = spec_scheme_run_end(b, index + 1);
        if spec_starts_with_at(b, p, seq![58u8, 47u8, 47u8]) {
            Some(p - index + 3)
        } else {
            None
        }
    }
}

fn relaxed_scheme_after(b: &[u8], index: usize) -> (r: Option<usize>)
    requires
        index <= b@.len(),
    ensures
        r == (match spec_relaxed_scheme_after(b@, index as int) {
            Some(a) => Some(a as usize),
            None => None,
        }),
        r matches Some(a) ==> 3 <= a && index + a <= b@.len(),
        spec_relaxed_scheme_after(b@, index as int) matches Some(a) ==> 3 <= a && index + a <= b@.len(),
{
    let n = b.len();
    if starts_with_at(b, index, &[58u8, 47u8, 47u8]) {
        return Some(3);
    }
    if index >= n || !is_ascii_alpha(b[index]) {
        return None;
    }
    let mut p = index + 1;
    while p < n && (is_ascii_alnum(b[p]) || b[p] == 43u8 || b[p] == 46u8 || b[p] == 45u8)
        invariant
            index < p <= n,
            n == b@.len(),
            spec_scheme_run_end(b@, p as int) == spec_scheme_run_end(b@, index + 1),
        decreases n - p,
    {
        p = p + 1;
    }
    if starts_with_at(b, p, &[58u8, 47u8, 47u8]) {
        Some(p - index + 3)
    } else {
        None
    }
}

/// The `http(s)://` literal's host at `h` is acceptable: a bracketed host with
/// something inside, or a domain that starts with an ASCII alphanumeric or a
/// non-ASCII host character.
pub open spec fn spec_http_host_ok(b: Seq<u8>, h: int) -> bool {
    if h >= b.len() {
        false
    } else if b[h] == 91u8 {
        match spec_find_byte(b, h, 93u8) {
            Some(c) => c - h > 1,
            None => false,
        }
    } else if b[h] < 0x80 {
        spec_is_ascii_alnum(b[h]) && spec_check_domain(b, h, true)
    } else {
        spec_is_host_char_at(b, h) && spec_check_domain(b, h, true)
    }
}

fn http_host_ok(b: &[u8], h: usize) -> (r: bool)
    ensures
        r == spec_http_host_ok(b@, h as int),
{
    if h >= b.len() {
        return false;
    }
    if b[h] == 91u8 {
        let found = first_byte_from(b, h, 93u8);
        return match found {
            Some(c) => c - h > 1,
            None => false,
        };
    }
    if b[h] < 0x80 {
        is_ascii_alnum(b[h]) && check_domain(b, h, true)
    } else {
        is_host_char_at(b, h) && check_domain(b, h, true)
    }
}

// ---------------------------------------------------------------------------
// E-mail addresses.
// ---------------------------------------------------------------------------

/// `mailto:`
pub open spec fn spec_mailto() -> Seq<u8> {
    seq![109u8, 97u8, 105u8, 108u8, 116u8, 111u8, 58u8]
}

/// `xmpp:`
pub open spec fn spec_xmpp() -> Seq<u8> {
    seq![120u8, 109u8, 112u8, 112u8, 58u8]
}

/// How the local part `b[index..at]` reads: `(true, false)` for a bare address
/// (its link gets a `mailto:` href), `(false, false)` after a non-empty
/// `mailto:` part, `(false, true)` after a non-empty `xmpp:` part (whose domain
/// may carry a `/` path). The schemes match in any ASCII case.
pub open spec fn spec_classify_local(b: Seq<u8>, index: int, at: int) -> (bool, bool) {
    if index + 7 < at && spec_starts_with_ci(b, index, spec_mailto()) {
        (false, false)
    } else if index + 5 < at && spec_starts_with_ci(b, index, spec_xmpp()) {
        (false, true)
    } else {
        (true, false)
    }
}

fn classify_local(b: &[u8], index: usize, at: usize) -> (r: (bool, bool))
    ensures
        r == spec_classify_local(b@, index as int, at as int),
{
    if index < at && at - index > 7 && starts_with_ci(b, index, &[109u8, 97u8, 105u8, 108u8, 116u8, 111u8, 58u8]) {
        return (false, false);
    }
    if index < at && at - index > 5 && starts_with_ci(b, index, &[120u8, 109u8, 112u8, 112u8, 58u8]) {
        return (false, true);
    }
    (true, false)
}

/// A byte of a GFM e-mail local part: ASCII alphanumerics, `.`, `+`, `_`, `-`.
pub open spec fn spec_is_local_byte(x: u8) -> bool {
    spec_is_ascii_alnum(x) || x == 46u8 || x == 43u8 || x == 95u8 || x == 45u8
}

/// Where the checked part of the local part `b[s..e]` starts: past a
/// `mailto:` or `xmpp:` scheme unless the address is bare.
pub open spec fn spec_local_body_start(b: Seq<u8>, s: int, e: int, bare: bool) -> int {
    if bare {
        s
    } else if s + 7 <= e && spec_starts_with_ci(b, s, spec_mailto()) {
        s + 7
    } else if s + 5 <= e && spec_starts_with_ci(b, s, spec_xmpp()) {
        s + 5
    } else {
        s
    }
}

/// The local part `b[s..e]` is valid: what follows its scheme is non-empty and
/// made of local-part bytes.
pub open spec fn spec_local_valid(b: Seq<u8>, s: int, e: int, bare: bool) -> bool {
    let bs = spec_local_body_start(b, s, e, bare);
    bs < e && forall|k: int| bs <= k < e ==> spec_is_local_byte(#[trigger] b[k])
}

fn local_valid(b: &[u8], s: usize, e: usize, bare: bool) -> (r: bool)
    requires
        s <= e <= b@.len(),
    ensures
        r == spec_local_valid(b@, s as int, e as int, bare),
{
    let bs = if bare {
        s
    } else if e - s >= 7 && starts_with_ci(b, s, &[109u8, 97u8, 105u8, 108u8, 116u8, 111u8, 58u8]) {
        s + 7
    } else if e - s >= 5 && starts_with_ci(b, s, &[120u8, 109u8, 112u8, 112u8, 58u8]) {
        s + 5
    } else {
        s
    };
    assert(bs == spec_local_body_start(b@, s as int, e as int, bare));
    if bs >= e {
        return false;
    }
    let mut k = bs;
    while k < e
        invariant
            bs <= k <= e,
            e <= b@.len(),
            bs == spec_local_body_start(b@, s as int, e as int, bare),
            forall|j: int| bs <= j < k ==> spec_is_local_byte(#[trigger] b@[j]),
        decreases e - k,
    {
        let x = b[k];
        if !(is_ascii_alnum(x) || x == 46u8 || x == 43u8 || x == 95u8 || x == 45u8) {
            assert(!spec_is_local_byte(b@[k as int]));
            return false;
        }
        k = k + 1;
    }
    true
}

/// The last white-space scalar that lies wholly in `b[..end]`, searching down
/// from `q`.
pub open spec fn spec_last_ws(b: Seq<u8>, end: int, q: int) -> Option<int>
    decreases q + 1,
{
    if q < 0 {
        None
    } else if spec_ws_len_at(b, q) > 0 && q + spec_ws_len_at(b, q) <= end {
        Some(q)
    } else {
        spec_last_ws(b, end, q - 1)
    }
}

/// Where the word that ends at `end` starts: after the last white-space scalar
/// before it, or at the start of the text.
pub open spec fn spec_word_start(b: Seq<u8>, end: int) -> int {
    match spec_last_ws(b, end, end - 1) {
        Some(q) => q + spec_ws_len_at(b, q),
        None => 0,
    }
}

fn word_start(b: &[u8], end: usize) -> (r: usize)
    requires
        end <= b@.len(),
    ensures
        r == spec_word_start(b@, end as int),
        r <= end,
{
    let mut q = end;
    while q > 0
        invariant
            q <= end <= b@.len(),
            spec_last_ws(b@, end as int, q - 1) == spec_last_ws(b@, end as int, end - 1),
        decreases q,
    {
        let w = whitespace_len_at(b, q - 1);
        if w > 0 && w <= end - (q - 1) {
            return q - 1 + w;
        }
        q = q - 1;
    }
    0
}

/// Where the host of the e-mail domain `b[s..e]` ends: at its first `/` for
/// `xmpp:`, else at `e`.
pub open spec fn spec_email_host_end(b: Seq<u8>, s: int, e: int, xmpp: bool) -> int {
    if xmpp {
        match spec_find_byte(b, s, 47u8) {
            Some(p) => if p < e {
                p
            } else {
                e
            },
            None => e,
        }
    } else {
        e
    }
}

/// The GFM e-mail domain `b[s..e]` (for `xmpp:`, up to its first `/`) holds a
/// dot, ends in neither `-` nor `_`, and is made of non-empty dot-separated
/// labels of ASCII alphanumerics, `-` and `_`.
pub open spec fn spec_gfm_email_domain(b: Seq<u8>, s: int, e: int, xmpp: bool) -> bool {
    let he = spec_email_host_end(b, s, e, xmpp);
    &&& s < e
    &&& exists|k: int| s <= k < he && b[k] == 46u8
    &&& b[he - 1] != 45u8 && b[he - 1] != 95u8
    &&& b[s] != 46u8 && b[he - 1] != 46u8
    &&& forall|k: int| s <= k < he ==> (spec_is_ascii_alnum(#[trigger] b[k]) || b[k] == 45u8 || b[k] == 95u8 || b[k] == 46u8)
    &&& forall|k: int| s <= k < he - 1 ==> !(#[trigger] b[k] == 46u8 && b[k + 1] == 46u8)
}

fn gfm_email_domain(b: &[u8], s: usize, e: usize, xmpp: bool) -> (r: bool)
    requires
        s <= e <= b@.len(),
    ensures
        r == spec_gfm_email_domain(b@, s as int, e as int, xmpp),
{
    if s >= e {
        return false;
    }
    proof {
        lemma_find_byte_bounds(b@, s as int, 47u8);
    }
    let slash = first_byte_from(b, s, 47u8);
    let mut he = e;
    if xmpp {
        match slash {
            Some(p) => {
                if p < e {
                    he = p;
                }
            },
            None => {},
        }
    }
    assert(b@.len() == b.len());
    assert(he == spec_email_host_end(b@, s as int, e as int, xmpp));
    let mut has_dot = false;
    let mut k = s;
    while k < he
        invariant
            s <= k <= he <= e <= b@.len(),
            s < e,
            he == spec_email_host_end(b@, s as int, e as int, xmpp),
            has_dot == exists|j: int| s <= j < k && b@[j] == 46u8,
            forall|j: int| s <= j < k ==> (spec_is_ascii_alnum(#[trigger] b@[j]) || b@[j] == 45u8 || b@[j] == 95u8
                || b@[j] == 46u8),
            forall|j: int| s <= j < k - 1 ==> !(#[trigger] b@[j] == 46u8 && b@[j + 1] == 46u8),
        decreases he - k,
    {
        let x = b[k];
        if !(is_ascii_alnum(x) || x == 45u8 || x == 95u8 || x == 46u8) {
            assert(!(spec_is_ascii_alnum(b@[k as int]) || b@[k as int] == 45u8 || b@[k as int] == 95u8
                || b@[k as int] == 46u8));
            return false;
        }
        if x == 46u8 && k > s && b[k - 1] == 46u8 {
            assert(b@[k - 1] == 46u8 && b@[(k - 1) + 1] == 46u8);
            return false;
        }
        if x == 46u8 {
            has_dot = true;
        }
        k = k + 1;
    }
    if !has_dot {
        return false;
    }
    let last = b[he - 1];
    !(last == 45u8 || last == 95u8 || last == 46u8) && b[s] != 46u8
}

/// The bare address whose local part starts at `index` follows a letter or
/// digit only when it continues, with a `+`, an address that ends there; a bare
/// address cannot follow a `/`.
pub open spec fn spec_email_left_ok(b: Seq<u8>, index: int, bare: bool) -> bool {
    if index == 0 {
        true
    } else {
        let p = b[index - 1];
        if spec_is_ascii_alnum(p) {
            bare && index < b.len() && b[index] == 43u8 && spec_prefix_ends_with_email(b, index)
        } else {
            !(bare && p == 47u8)
        }
    }
}

/// The word that ends at `end` ends with a valid bare e-mail address.
pub open spec fn spec_prefix_ends_with_email(b: Seq<u8>, end: int) -> bool {
    let st = spec_word_start(b, end);
    match spec_last_byte(b, st, end, 64u8) {
        Some(a) => spec_local_valid(b, st, a, true) && spec_gfm_email_domain(b, a + 1, end, false),
        None => false,
    }
}

fn email_left_ok(b: &[u8], index: usize, bare: bool) -> (r: bool)
    requires
        index <= b@.len(),
    ensures
        r == spec_email_left_ok(b@, index as int, bare),
{
    if index == 0 {
        return true;
    }
    let p = b[index - 1];
    if is_ascii_alnum(p) {
        if bare && index < b.len() && b[index] == 43u8 {
            let st = word_start(b, index);
            return match last_byte(b, st, index, 64u8) {
                Some(a) => local_valid(b, st, a, true) && gfm_email_domain(b, a + 1, index, false),
                None => false,
            };
        }
        return false;
    }
    !(bare && p == 47u8)
}

/// cmark-gfm's e-mail domain scan from `k`: ASCII alphanumerics, `-`, `_`, a
/// `.` before an alphanumeric (counted), and for `xmpp:` a `/`. Returns where
/// it stops and the dots counted.
pub open spec fn spec_email_domain_scan(b: Seq<u8>, k: int, np: nat, xmpp: bool) -> (int, nat)
    decreases b.len() - k,
{
    if k < 0 || k >= b.len() {
        (k, np)
    } else if spec_is_ascii_alnum(b[k]) {
        spec_email_domain_scan(b, k + 1, np, xmpp)
    } else if b[k] == 46u8 && k + 1 < b.len() && spec_is_ascii_alnum(b[k + 1]) {
        spec_email_domain_scan(b, k + 1, np + 1, xmpp)
    } else if b[k] == 45u8 || b[k] == 95u8 || (b[k] == 47u8 && xmpp) {
        spec_email_domain_scan(b, k + 1, np, xmpp)
    } else {
        (k, np)
    }
}

/// Where the e-mail domain starting at `d` ends, before the trailing trim: the
/// scan must cover something, count a dot, and end in a letter or a dot.
pub open spec fn spec_email_domain_end(b: Seq<u8>, d: int, xmpp: bool) -> Option<int> {
    let (e, np) = spec_email_domain_scan(b, d, 0, xmpp);
    if e <= d || np == 0 || !(spec_is_ascii_alpha(b[e - 1]) || b[e - 1] == 46u8) {
        None
    } else {
        Some(e)
    }
}

fn email_domain_end(b: &[u8], d: usize, xmpp: bool) -> (r: Option<usize>)
    requires
        d <= b@.len(),
    ensures
        r == (match spec_email_domain_end(b@, d as int, xmpp) {
            Some(e) => Some(e as usize),
            None => None,
        }),
        r matches Some(e) ==> d < e <= b@.len(),
        spec_email_domain_end(b@, d as int, xmpp) matches Some(e) ==> d < e <= b@.len(),
{
    let n = b.len();
    let ghost total = spec_email_domain_scan(b@, d as int, 0, xmpp);
    let mut k = d;
    let mut np: usize = 0;
    while k < n
        invariant
            d <= k <= n,
            n == b@.len(),
            np <= k - d,
            spec_email_domain_scan(b@, k as int, np as nat, xmpp) == total,
        ensures
            d <= k <= n,
            total == (k as int, np as nat),
        decreases n - k,
    {
        let x = b[k];
        if is_ascii_alnum(x) {
            k = k + 1;
        } else if x == 46u8 && k + 1 < n && is_ascii_alnum(b[k + 1]) {
            np = np + 1;
            k = k + 1;
        } else if x == 45u8 || x == 95u8 || (x == 47u8 && xmpp) {
            k = k + 1;
        } else {
            break;
        }
    }
    if k <= d || np == 0 || !(is_ascii_alpha(b[k - 1]) || b[k - 1] == 46u8) {
        None
    } else {
        Some(k)
    }
}

/// A GFM e-mail literal whose local part starts at `index`: where it ends and
/// whether it is a bare address.
pub open spec fn spec_literal_email(b: Seq<u8>, index: int) -> Option<(int, bool)> {
    match spec_find_byte(b, index, 64u8) {
        None => None,
        Some(a) => if a == index {
            None
        } else {
            let (bare, xmpp) = spec_classify_local(b, index, a);
            if !spec_email_left_ok(b, index, bare) || !spec_local_valid(b, index, a, bare) {
                None
            } else {
                match spec_email_domain_end(b, a + 1, xmpp) {
                    None => None,
                    Some(de) => {
                        let t = spec_autolink_delim(b, a + 1, de);
                        if t <= a + 1 || !spec_gfm_email_domain(b, a + 1, t, xmpp) {
                            None
                        } else {
                            Some((t, bare))
                        }
                    },
                }
            }
        },
    }
}

fn literal_email(b: &[u8], index: usize) -> (r: Option<(usize, bool)>)
    requires
        index <= b@.len(),
    ensures
        r == (match spec_literal_email(b@, index as int) {
            Some((t, bare)) => Some((t as usize, bare)),
            None => None,
        }),
        r matches Some((t, _)) ==> index < t <= b@.len(),
        spec_literal_email(b@, index as int) matches Some((t, _)) ==> index < t <= b@.len(),
{
    proof {
        lemma_find_byte_bounds(b@, index as int, 64u8);
    }
    let a = match first_byte_from(b, index, 64u8) {
        None => {
            return None;
        },
        Some(a) => a,
    };
    if a == index {
        return None;
    }
    assert(a < b.len());
    let (bare, xmpp) = classify_local(b, index, a);
    if !email_left_ok(b, index, bare) || !local_valid(b, index, a, bare) {
        return None;
    }
    let de = match email_domain_end(b, a + 1, xmpp) {
        None => {
            return None;
        },
        Some(de) => de,
    };
    let t = autolink_delim(b, a + 1, de);
    if t <= a + 1 || !gfm_email_domain(b, a + 1, t, xmpp) {
        return None;
    }
    Some((t, bare))
}

// ---------------------------------------------------------------------------
// Dispatch.
// ---------------------------------------------------------------------------

/// `http://`
pub open spec fn spec_http() -> Seq<u8> {
    seq![104u8, 116u8, 116u8, 112u8, 58u8, 47u8, 47u8]
}

/// `https://`
pub open spec fn spec_https() -> Seq<u8> {
    seq![104u8, 116u8, 116u8, 112u8, 115u8, 58u8, 47u8, 47u8]
}

/// `www.`
pub open spec fn spec_www() -> Seq<u8> {
    seq![119u8, 119u8, 119u8, 46u8]
}

/// The length of an `http://` or `https://` prefix at `index`, or 0.
pub open spec fn spec_http_scheme_len(b: Seq<u8>, index: int) -> int {
    if spec_starts_with_at(b, index, spec_http()) {
        7
    } else if spec_starts_with_at(b, index, spec_https()) {
        8
    } else {
        0
    }
}

/// The relaxed `scheme://` literal at `index`, whose body starts `after` bytes
/// in: at least one non-white-space scalar must follow a bare `://`.
pub open spec fn spec_relaxed_literal(b: Seq<u8>, index: int, after: int, gfm_profile: bool) -> Option<(int, Seq<u8>)> {
    let bs = index + after;
    if (bs >= b.len() || spec_is_whitespace_cp(spec_code_point_at(b, bs))) && after == 3 {
        None
    } else {
        let end = spec_autolink_url_end(b, bs, bs, true);
        if end > index && !spec_suppressed(b, index, end, true, gfm_profile) {
            Some((end, b.subrange(index, end)))
        } else {
            None
        }
    }
}

/// The `http(s)://` literal at `index` whose scheme is `sl` bytes long.
pub open spec fn spec_http_literal(b: Seq<u8>, index: int, sl: int, relaxed: bool, gfm_profile: bool) -> Option<
    (int, Seq<u8>),
> {
    let end = spec_autolink_url_end(b, index + sl, index + sl, relaxed);
    if end <= index + sl || spec_suppressed(b, index, end, relaxed, gfm_profile) {
        None
    } else {
        Some((end, b.subrange(index, end)))
    }
}

/// The `www.` literal at `index`, linked with an `http://` href: it needs an
/// accepted character before it and a domain with a dot, and (strictly) more
/// than `www` unless it starts a line.
pub open spec fn spec_www_literal(b: Seq<u8>, index: int, relaxed: bool, gfm_profile: bool) -> Option<
    (int, Seq<u8>),
> {
    if !spec_www_prefix_ok(b, index) || !spec_check_domain(b, index, false) {
        None
    } else {
        let end = spec_autolink_url_end(b, index, index, relaxed);
        if end <= index || (!relaxed && end <= index + 3 && !spec_starts_line(b, index)) || spec_suppressed(
            b,
            index,
            end,
            relaxed,
            gfm_profile,
        ) {
            None
        } else {
            Some((end, spec_http() + b.subrange(index, end)))
        }
    }
}

/// The e-mail literal at `index`, a bare address linked with a `mailto:` href.
pub open spec fn spec_email_literal(b: Seq<u8>, index: int) -> Option<(int, Seq<u8>)> {
    match spec_literal_email(b, index) {
        Some((t, bare)) => Some((t, (if bare { spec_mailto() } else { Seq::empty() }) + b.subrange(index, t))),
        None => None,
    }
}

/// The literal autolink at `index`, tried in cmark-gfm's order: with GFM
/// literals on, an `http(s)://` URL, a `www.` URL, an e-mail address; with
/// relaxed autolinks on, any `scheme://` URL. Gives where the literal ends and
/// its href.
pub open spec fn spec_literal_autolink(b: Seq<u8>, index: int, gfm: bool, relaxed: bool, gfm_profile: bool) -> Option<
    (int, Seq<u8>),
> {
    let sl = spec_http_scheme_len(b, index);
    if gfm && sl > 0 && !spec_scheme_prefix_ok(b, index) {
        None
    } else if gfm && sl > 0 && spec_http_host_ok(b, index + sl) {
        spec_http_literal(b, index, sl, relaxed, gfm_profile)
    } else if gfm && sl > 0 && !relaxed {
        None
    } else if gfm && spec_starts_with_ci(b, index, spec_www()) {
        spec_www_literal(b, index, relaxed, gfm_profile)
    } else if gfm && spec_email_literal(b, index) is Some {
        spec_email_literal(b, index)
    } else if relaxed && spec_scheme_prefix_ok(b, index) {
        match spec_relaxed_scheme_after(b, index) {
            Some(after) => spec_relaxed_literal(b, index, after, gfm_profile),
            None => None,
        }
    } else {
        None
    }
}

fn http_literal(b: &[u8], index: usize, sl: usize, relaxed: bool, gfm_profile: bool) -> (r: Option<(usize, Vec<u8>)>)
    requires
        index + sl <= b@.len(),
    ensures
        match spec_http_literal(b@, index as int, sl as int, relaxed, gfm_profile) {
            Some((end, dest)) => r matches Some((e2, d2)) && e2 == end && d2@ == dest,
            None => r is None,
        },
        r matches Some((e2, _)) ==> index < e2 <= b@.len() || sl == 0 && index <= e2 <= b@.len(),
{
    assert(b@.len() == b.len());
    let end = autolink_url_end(b, index + sl, index + sl, relaxed);
    if end <= index + sl || suppressed(b, index, end, relaxed, gfm_profile) {
        return None;
    }
    Some((end, crate::text::copy_range(b, index, end)))
}

fn www_literal(b: &[u8], index: usize, relaxed: bool, gfm_profile: bool) -> (r: Option<(usize, Vec<u8>)>)
    requires
        index <= b@.len(),
    ensures
        match spec_www_literal(b@, index as int, relaxed, gfm_profile) {
            Some((end, dest)) => r matches Some((e2, d2)) && e2 == end && d2@ == dest,
            None => r is None,
        },
        r matches Some((e2, _)) ==> index < e2 <= b@.len(),
{
    let www_ok = index == 0 || {
        let p = b[index - 1];
        p == 42u8 || p == 95u8 || p == 126u8 || p == 40u8 || p == 91u8 || p == 93u8 || p == 32u8 || p == 9u8
            || p == 10u8 || p == 13u8
    };
    if !www_ok || !check_domain(b, index, false) {
        return None;
    }
    let end = autolink_url_end(b, index, index, relaxed);
    let starts_line = index == 0 || b[index - 1] == 10u8 || b[index - 1] == 13u8;
    if end <= index || (!relaxed && end - index <= 3 && !starts_line) || suppressed(
        b,
        index,
        end,
        relaxed,
        gfm_profile,
    ) {
        return None;
    }
    let mut dest: Vec<u8> = Vec::new();
    crate::text::push_bytes(&mut dest, &[104u8, 116u8, 116u8, 112u8, 58u8, 47u8, 47u8]);
    crate::text::push_range(&mut dest, b, index, end);
    assert(dest@ =~= spec_http() + b@.subrange(index as int, end as int));
    Some((end, dest))
}

fn email_literal(b: &[u8], index: usize) -> (r: Option<(usize, Vec<u8>)>)
    requires
        index <= b@.len(),
    ensures
        match spec_email_literal(b@, index as int) {
            Some((end, dest)) => r matches Some((e2, d2)) && e2 == end && d2@ == dest,
            None => r is None,
        },
        r matches Some((e2, _)) ==> index < e2 <= b@.len(),
{
    assert(b@.len() == b.len());
    match literal_email(b, index) {
        Some((t, bare)) => {
            let mut dest: Vec<u8> = Vec::new();
            if bare {
                crate::text::push_bytes(&mut dest, &[109u8, 97u8, 105u8, 108u8, 116u8, 111u8, 58u8]);
            }
            crate::text::push_range(&mut dest, b, index, t);
            assert(dest@ =~= (if bare { spec_mailto() } else { Seq::empty() }) + b@.subrange(index as int, t as int));
            Some((t, dest))
        },
        None => None,
    }
}

fn relaxed_literal(b: &[u8], index: usize, after: usize, gfm_profile: bool) -> (r: Option<(usize, Vec<u8>)>)
    requires
        3 <= after,
        index + after <= b@.len(),
    ensures
        match spec_relaxed_literal(b@, index as int, after as int, gfm_profile) {
            Some((end, dest)) => r matches Some((e2, d2)) && e2 == end && d2@ == dest,
            None => r is None,
        },
        r matches Some((e2, _)) ==> index < e2 <= b@.len(),
{
    assert(b@.len() == b.len());
    let bs = index + after;
    let ends_here = if bs >= b.len() {
        true
    } else {
        let (_, cp) = code_point_at(b, bs);
        is_whitespace_cp(cp)
    };
    if ends_here && after == 3 {
        return None;
    }
    let end = autolink_url_end(b, bs, bs, true);
    if end > index && !suppressed(b, index, end, true, gfm_profile) {
        Some((end, crate::text::copy_range(b, index, end)))
    } else {
        None
    }
}

/// The literal autolink at `index` (see [`spec_literal_autolink`]): where it
/// ends and the bytes of its href.
pub fn parse_literal_autolink(b: &[u8], index: usize, gfm: bool, relaxed: bool, gfm_profile: bool) -> (r: Option<
    (usize, Vec<u8>),
>)
    requires
        index <= b@.len(),
    ensures
        match spec_literal_autolink(b@, index as int, gfm, relaxed, gfm_profile) {
            Some((end, dest)) => r matches Some((e2, d2)) && e2 == end && d2@ == dest,
            None => r is None,
        },
        r matches Some((e2, _)) ==> index < e2 <= b@.len(),
{
    assert(b@.len() == b.len());
    let sl: usize = if starts_with_at(b, index, &[104u8, 116u8, 116u8, 112u8, 58u8, 47u8, 47u8]) {
        7
    } else if starts_with_at(b, index, &[104u8, 116u8, 116u8, 112u8, 115u8, 58u8, 47u8, 47u8]) {
        8
    } else {
        0
    };
    assert(sl == spec_http_scheme_len(b@, index as int));
    let prefix_ok = index == 0 || !is_ascii_alpha(b[index - 1]);
    if gfm && sl > 0 {
        if !prefix_ok {
            return None;
        }
        if http_host_ok(b, index + sl) {
            return http_literal(b, index, sl, relaxed, gfm_profile);
        }
        if !relaxed {
            return None;
        }
    }
    if gfm && starts_with_ci(b, index, &[119u8, 119u8, 119u8, 46u8]) {
        return www_literal(b, index, relaxed, gfm_profile);
    }
    if gfm {
        let email = email_literal(b, index);
        if email.is_some() {
            return email;
        }
    }
    if relaxed && prefix_ok {
        match relaxed_scheme_after(b, index) {
            Some(after) => {
                return relaxed_literal(b, index, after, gfm_profile);
            },
            None => {},
        }
    }
    None
}

} // verus!
