//! Generic directives: the opener `name[label]{attributes}` shared by text
//! (`:name`), leaf (`::name`) and container (`:::name`) directives, and the
//! attribute list `{#id .class key=value key="value" flag}`.
use vstd::prelude::*;

use crate::ast::DirectiveAttribute;
use crate::block_start::is_escaped_at;
use crate::links::{find_link_label_end, unescape_ascii_punctuation, unescape_selected};
use crate::text::{
    char_len_at, code_point_at, copy_range, is_ascii_alnum, spec_char_len_at, spec_code_point_at, spec_is_ascii_alnum,
    spec_lossy_utf8, spec_ws_len_at, string_from_bytes, whitespace_len_at,
};
use crate::block_start::spec_is_escaped_at;
use crate::links::spec_unescape_from;
use crate::validate::is_directive_name;

verus! {

/// A space, tab, line feed or carriage return.
pub open spec fn spec_is_layout_space(c: u8) -> bool {
    c == 32u8 || c == 9u8 || c == 10u8 || c == 13u8
}

/// The first index at or after `k`, before `end`, that is not a space, tab or
/// line break (or `end`).
pub open spec fn spec_layout_end(b: Seq<u8>, k: int, end: int) -> int
    decreases end - k,
{
    if 0 <= k < end && spec_is_layout_space(b[k]) {
        spec_layout_end(b, k + 1, end)
    } else {
        k
    }
}

/// Skips spaces, tabs and line breaks from `k`.
fn skip_spaces(b: &[u8], k: usize, end: usize) -> (r: usize)
    requires
        k <= end <= b@.len(),
    ensures
        k <= r <= end,
        forall|j: int| k <= j < r ==> spec_is_layout_space(#[trigger] b@[j]),
        r < end ==> !spec_is_layout_space(b@[r as int]),
        r == spec_layout_end(b@, k as int, end as int),
{
    let mut j = k;
    while j < end && (b[j] == 32u8 || b[j] == 9u8 || b[j] == 10u8 || b[j] == 13u8)
        invariant
            k <= j <= end <= b@.len(),
            forall|i: int| k <= i < j ==> spec_is_layout_space(#[trigger] b@[i]),
            spec_layout_end(b@, j as int, end as int) == spec_layout_end(b@, k as int, end as int),
        decreases end - j,
    {
        j = j + 1;
    }
    j
}

/// Where the token from `k` ends: at the first white-space scalar (or `=`,
/// for a name) before `end`, scalar by scalar.
pub open spec fn spec_token_end(b: Seq<u8>, k: int, end: int, stop_at_equals: bool) -> int
    decreases b.len() - k,
{
    if k < 0 || k >= end || k >= b.len() {
        k
    } else if spec_ws_len_at(b, k) > 0 || (stop_at_equals && b[k] == 61u8) {
        k
    } else {
        spec_token_end(b, k + spec_char_len_at(b, k), end, stop_at_equals)
    }
}

/// The end of the token from `index`: up to whitespace (or, for a name, up to
/// whitespace or `=`).
fn token_end(b: &[u8], index: usize, end: usize, stop_at_equals: bool) -> (r: usize)
    requires
        index <= end <= b@.len(),
    ensures
        index <= r <= b@.len(),
        r == spec_token_end(b@, index as int, end as int, stop_at_equals),
{
    let n = b.len();
    let mut k = index;
    while k < end
        invariant
            index <= k <= n,
            end <= n == b@.len(),
            spec_token_end(b@, k as int, end as int, stop_at_equals) == spec_token_end(
                b@,
                index as int,
                end as int,
                stop_at_equals,
            ),
        decreases n - k,
    {
        if whitespace_len_at(b, k) > 0 || (stop_at_equals && b[k] == 61u8) {
            return k;
        }
        k = k + char_len_at(b, k);
    }
    k
}

/// The quote that closes a quoted value from `cursor`: the first scalar before
/// `end` whose code point's low byte is `quote` and which no backslash escapes.
pub open spec fn spec_quoted_close(b: Seq<u8>, cursor: int, end: int, quote: u8) -> Option<int>
    decreases b.len() - cursor,
{
    if cursor < 0 || cursor >= end || cursor >= b.len() {
        None
    } else if spec_code_point_at(b, cursor) % 256 == quote as u32 && !spec_is_escaped_at(b, cursor) {
        Some(cursor)
    } else {
        spec_quoted_close(b, cursor + spec_char_len_at(b, cursor), end, quote)
    }
}

/// The value of an attribute at `index` and where it ends: a quoted value up
/// to its closing quote, unescaped, or a bare token (see
/// [`parse_attribute_value`]).
pub open spec fn spec_attribute_value(b: Seq<u8>, index: int, end: int) -> Option<(Seq<u8>, int)> {
    if index < end && (b[index] == 34u8 || b[index] == 39u8) {
        match spec_quoted_close(b, index + 1, end, b[index]) {
            Some(c) => Some((spec_unescape_from(b.subrange(index + 1, c), 0, true), c + spec_char_len_at(b, c))),
            None => None,
        }
    } else {
        let t = spec_token_end(b, index, end, false);
        let e = if t > end {
            end
        } else {
            t
        };
        Some((spec_unescape_from(b.subrange(index, e), 0, false), e))
    }
}

/// An attribute value at `index`: quoted (up to the matching unescaped
/// quote, unescaped) or a bare token (only `\\` and `&` unescaped), and
/// where it ends.
fn parse_attribute_value(b: &[u8], index: usize, end: usize) -> (r: Option<(Vec<u8>, usize)>)
    requires
        index <= end <= b@.len(),
    ensures
        r is None <==> spec_attribute_value(b@, index as int, end as int) is None,
        r matches Some(x) ==> spec_attribute_value(b@, index as int, end as int) == Some((x.0@, x.1 as int)),
        r matches Some(x) ==> index <= x.1 <= b@.len(),
        index < end && (b@[index as int] == 34u8 || b@[index as int] == 39u8) ==> match spec_quoted_close(
            b@,
            index + 1,
            end as int,
            b@[index as int],
        ) {
            Some(c) => r matches Some(x) && x.0@ == spec_unescape_from(b@.subrange(index + 1, c), 0, true) && x.1
                == c + spec_char_len_at(b@, c),
            None => r is None,
        },
        !(index < end && (b@[index as int] == 34u8 || b@[index as int] == 39u8)) ==> {
            let t = spec_token_end(b@, index as int, end as int, false);
            let e = if t > end { end as int } else { t };
            r matches Some(x) && x.1 == e && x.0@ == spec_unescape_from(b@.subrange(index as int, e), 0, false)
        },
{
    let n = b.len();
    if index < end && (b[index] == 34u8 || b[index] == 39u8) {
        let quote = b[index];
        let mut cursor = index + 1;
        while cursor < end
            invariant
                index < cursor <= n,
                end <= n == b@.len(),
                quote == b@[index as int],
                index < end && (quote == 34u8 || quote == 39u8),
                spec_quoted_close(b@, cursor as int, end as int, quote) == spec_quoted_close(
                    b@,
                    index + 1,
                    end as int,
                    quote,
                ),
            decreases n - cursor,
        {
            let (w, cp) = code_point_at(b, cursor);
            if cp % 256 == quote as u32 && !is_escaped_at(b, cursor) {
                let value = unescape_ascii_punctuation(b, index + 1, cursor);
                return Some((value, cursor + w));
            }
            cursor = cursor + w;
        }
        return None;
    }
    let e = token_end(b, index, end, false);
    let e = if e > end {
        end
    } else {
        e
    };
    Some((unescape_selected(b, index, e, false), e))
}

/// An attribute as plain values: its name and its value, if any.
pub open spec fn spec_attribute_view(a: DirectiveAttribute) -> (Seq<char>, Option<Seq<char>>) {
    (a.name@, match a.value {
        Some(v) => Some(v@),
        None => None,
    })
}

/// The attributes of a sequence as plain values.
pub open spec fn spec_attribute_views(s: Seq<DirectiveAttribute>) -> Seq<(Seq<char>, Option<Seq<char>>)> {
    Seq::new(s.len(), |i: int| spec_attribute_view(s[i]))
}

/// The attributes in `b[cursor..end]` (see [`parse_attributes`]): `#id` and
/// `.class` shorthands, `key=value` pairs (a value that cannot be read is
/// empty) and bare flags, separated by spaces and line breaks.
pub open spec fn spec_attributes_scan(b: Seq<u8>, cursor: int, end: int) -> Seq<(Seq<char>, Option<Seq<char>>)>
    decreases end - cursor,
{
    let k = spec_layout_end(b, cursor, end);
    if cursor < 0 || cursor >= end || k >= end || k < cursor {
        Seq::empty()
    } else if b[k] == 35u8 || b[k] == 46u8 {
        let t = spec_token_end(b, k + 1, end, false);
        let te = if t > end {
            end
        } else {
            t
        };
        if te <= cursor {
            Seq::empty()
        } else {
            let name = if b[k] == 35u8 {
                spec_lossy_utf8(seq![105u8, 100u8])
            } else {
                spec_lossy_utf8(seq![99u8, 108u8, 97u8, 115u8, 115u8])
            };
            let rest = spec_attributes_scan(b, te, end);
            if te > k + 1 {
                seq![(name, Some(spec_lossy_utf8(b.subrange(k + 1, te))))] + rest
            } else {
                rest
            }
        }
    } else {
        let t = spec_token_end(b, k, end, true);
        let ne = if t > end {
            end
        } else {
            t
        };
        let k2 = spec_layout_end(b, ne, end);
        if ne <= k || k2 < ne || k2 > end {
            Seq::empty()
        } else {
            let name = spec_lossy_utf8(b.subrange(k, ne));
            if k2 < end && b[k2] == 61u8 {
                let v = spec_layout_end(b, k2 + 1, end);
                if v <= k2 || v > end {
                    Seq::empty()
                } else {
                    match spec_attribute_value(b, v, end) {
                        Some((value, next)) => {
                            let nc = if next > end {
                                end
                            } else if next > v {
                                next
                            } else {
                                v
                            };
                            seq![(name, Some(spec_lossy_utf8(value)))] + spec_attributes_scan(b, nc, end)
                        },
                        None => seq![(name, Some(spec_lossy_utf8(Seq::empty())))] + spec_attributes_scan(b, v, end),
                    }
                }
            } else {
                seq![(name, None)] + spec_attributes_scan(b, k2, end)
            }
        }
    }
}

/// The attributes written in `b[start..end]`: `#id`, `.class`, `name=value`,
/// `name="value"` and bare `name`; a name that cannot start ends the list.
pub fn parse_attributes(b: &[u8], start: usize, end: usize) -> (r: Vec<DirectiveAttribute>)
    requires
        start <= end <= b@.len(),
    ensures
        spec_attribute_views(r@) == spec_attributes_scan(b@, start as int, end as int),
{
    let mut attributes: Vec<DirectiveAttribute> = Vec::new();
    let mut cursor = start;
    proof {
        assert(spec_attribute_views(attributes@) =~= Seq::empty());
        assert(spec_attribute_views(attributes@) + spec_attributes_scan(b@, cursor as int, end as int)
            =~= spec_attributes_scan(b@, start as int, end as int));
    }
    while cursor < end
        invariant
            start <= cursor,
            end <= b@.len(),
            spec_attribute_views(attributes@) + spec_attributes_scan(b@, cursor as int, end as int)
                == spec_attributes_scan(b@, start as int, end as int),
        ensures
            spec_attribute_views(attributes@) == spec_attributes_scan(b@, start as int, end as int),
        decreases end - cursor,
    {
        let ghost views0 = spec_attribute_views(attributes@);
        let ghost scan0 = spec_attributes_scan(b@, cursor as int, end as int);
        let ghost c0 = cursor;
        cursor = skip_spaces(b, cursor, end);
        if cursor >= end {
            proof {
                assert(scan0 =~= Seq::empty());
                assert(views0 + scan0 =~= views0);
            }
            break;
        }
        let c = b[cursor];
        if c == 35u8 || c == 46u8 {
            let k = cursor;
            let te = token_end(b, cursor + 1, end, false);
            let te = if te > end {
                end
            } else {
                te
            };
            if te > cursor + 1 {
                let name = if c == 35u8 {
                    string_from_bytes(&[105u8, 100u8])
                } else {
                    string_from_bytes(&[99u8, 108u8, 97u8, 115u8, 115u8])
                };
                let value = string_from_bytes(copy_range(b, cursor + 1, te).as_slice());
                let attribute = DirectiveAttribute { name, value: Some(value) };
                let ghost x = spec_attribute_view(attribute);
                proof {
                    assert(scan0 == seq![x] + spec_attributes_scan(b@, te as int, end as int));
                }
                attributes.push(attribute);
                proof {
                    assert(spec_attribute_views(attributes@) =~= views0.push(x));
                    assert(views0 + scan0 =~= views0.push(x) + spec_attributes_scan(b@, te as int, end as int));
                }
            } else {
                proof {
                    assert(scan0 == spec_attributes_scan(b@, te as int, end as int));
                }
            }
            cursor = te;
            continue;
        }
        let k = cursor;
        let ne = token_end(b, cursor, end, true);
        let ne = if ne > end {
            end
        } else {
            ne
        };
        if ne == cursor {
            proof {
                assert(scan0 =~= Seq::empty());
                assert(views0 + scan0 =~= views0);
            }
            break;
        }
        let name = string_from_bytes(copy_range(b, cursor, ne).as_slice());
        cursor = skip_spaces(b, ne, end);
        let k2 = cursor;
        if cursor < end && b[cursor] == 61u8 {
            cursor = skip_spaces(b, cursor + 1, end);
            let v = cursor;
            match parse_attribute_value(b, cursor, end) {
                Some((value, next)) => {
                    let attribute = DirectiveAttribute { name, value: Some(string_from_bytes(value.as_slice())) };
                    let ghost x = spec_attribute_view(attribute);
                    cursor = if next > end {
                        end
                    } else if next > cursor {
                        next
                    } else {
                        cursor
                    };
                    proof {
                        assert(scan0 == seq![x] + spec_attributes_scan(b@, cursor as int, end as int));
                    }
                    attributes.push(attribute);
                    proof {
                        assert(spec_attribute_views(attributes@) =~= views0.push(x));
                        assert(views0 + scan0 =~= views0.push(x) + spec_attributes_scan(b@, cursor as int, end as int));
                    }
                },
                None => {
                    let no_bytes: Vec<u8> = Vec::new();
                    let attribute = DirectiveAttribute { name, value: Some(string_from_bytes(no_bytes.as_slice())) };
                    let ghost x = spec_attribute_view(attribute);
                    proof {
                        assert(no_bytes@ =~= Seq::<u8>::empty());
                        assert(scan0 == seq![x] + spec_attributes_scan(b@, cursor as int, end as int));
                    }
                    attributes.push(attribute);
                    proof {
                        assert(spec_attribute_views(attributes@) =~= views0.push(x));
                        assert(views0 + scan0 =~= views0.push(x) + spec_attributes_scan(b@, cursor as int, end as int));
                    }
                },
            }
        } else {
            let attribute = DirectiveAttribute { name, value: None };
            let ghost x = spec_attribute_view(attribute);
            proof {
                assert(scan0 == seq![x] + spec_attributes_scan(b@, cursor as int, end as int));
            }
            attributes.push(attribute);
            proof {
                assert(spec_attribute_views(attributes@) =~= views0.push(x));
                assert(views0 + scan0 =~= views0.push(x) + spec_attributes_scan(b@, cursor as int, end as int));
            }
        }
    }
    attributes
}

/// The scan for the `}` that closes an attribute list, from `cursor`: a
/// backslash takes the next byte literally, quoted parts are skipped.
pub open spec fn spec_attributes_close_scan(b: Seq<u8>, cursor: int, end: int, quote: Option<u8>, escaped: bool) -> Option<usize>
    decreases end - cursor,
{
    if cursor < 0 || cursor >= end {
        None
    } else {
        let c = b[cursor];
        if escaped {
            spec_attributes_close_scan(b, cursor + 1, end, quote, false)
        } else if c == 92u8 {
            spec_attributes_close_scan(b, cursor + 1, end, quote, true)
        } else if quote is Some {
            spec_attributes_close_scan(b, cursor + 1, end, if Some(c) == quote { None } else { quote }, escaped)
        } else if c == 34u8 || c == 39u8 {
            spec_attributes_close_scan(b, cursor + 1, end, Some(c), escaped)
        } else if c == 125u8 {
            Some(cursor as usize)
        } else {
            spec_attributes_close_scan(b, cursor + 1, end, quote, escaped)
        }
    }
}

/// The `}` closing the attribute list opened by the `{` at `open`: quoted
/// parts and backslash escapes are skipped.
pub fn find_directive_attributes_close(b: &[u8], open: usize, end: usize) -> (r: Option<usize>)
    requires
        open <= end <= b@.len(),
    ensures
        r == (if open < end && b@[open as int] == 123u8 {
            spec_attributes_close_scan(b@, open + 1, end as int, None, false)
        } else {
            None
        }),
        r matches Some(c) ==> open < c < end && b@[c as int] == 125u8,
{
    if !(open < end && b[open] == 123u8) {
        return None;
    }
    let mut cursor = open + 1;
    let mut quote: Option<u8> = None;
    let mut escaped = false;
    while cursor < end
        invariant
            open < cursor <= end <= b@.len(),
            b@[open as int] == 123u8,
            spec_attributes_close_scan(b@, cursor as int, end as int, quote, escaped) == spec_attributes_close_scan(
                b@,
                open + 1,
                end as int,
                None,
                false,
            ),
        decreases end - cursor,
    {
        let c = b[cursor];
        if escaped {
            escaped = false;
            cursor = cursor + 1;
            continue;
        }
        if c == 92u8 {
            escaped = true;
            cursor = cursor + 1;
            continue;
        }
        match quote {
            Some(q) => {
                if c == q {
                    quote = None;
                }
                cursor = cursor + 1;
                continue;
            },
            None => {},
        }
        if c == 34u8 || c == 39u8 {
            quote = Some(c);
        } else if c == 125u8 {
            return Some(cursor);
        }
        cursor = cursor + 1;
    }
    None
}

/// A byte of a directive name: ASCII letters, digits, `_`, `-`.
pub open spec fn spec_is_name_byte(c: u8) -> bool {
    spec_is_ascii_alnum(c) || c == 95u8 || c == 45u8
}

/// Where the run of name bytes from `k` ends, not past `end`.
pub open spec fn spec_name_end(b: Seq<u8>, k: int, end: int) -> int
    decreases end - k,
{
    if 0 <= k < end && spec_is_name_byte(b[k]) {
        spec_name_end(b, k + 1, end)
    } else {
        k
    }
}

/// The length of the name that starts at `start`: ASCII letters, digits, `_`
/// and `-`.
fn directive_name_end(b: &[u8], start: usize, end: usize) -> (r: usize)
    requires
        start <= end <= b@.len(),
    ensures
        start <= r <= end,
        forall|j: int| start <= j < r ==> spec_is_name_byte(#[trigger] b@[j]),
        r < end ==> !spec_is_name_byte(b@[r as int]),
        r == spec_name_end(b@, start as int, end as int),
{
    let mut k = start;
    while k < end && (is_ascii_alnum(b[k]) || b[k] == 95u8 || b[k] == 45u8)
        invariant
            start <= k <= end <= b@.len(),
            forall|j: int| start <= j < k ==> spec_is_name_byte(#[trigger] b@[j]),
            spec_name_end(b@, k as int, end as int) == spec_name_end(b@, start as int, end as int),
        decreases end - k,
    {
        k = k + 1;
    }
    k
}

/// A directive opener after its colons.
pub struct DirectiveOpener {
    pub name: Vec<u8>,
    /// The range of the label's source, when there is a label.
    pub label: Option<(usize, usize)>,
    pub attributes: Vec<DirectiveAttribute>,
    /// Where the opener ends.
    pub end: usize,
}

/// Where the label of an opener whose name ends at `c0` (offsets within
/// `local`) ends, just past its `]`: `None` when no label follows,
/// `Some(None)` when an opened label does not close.
pub open spec fn spec_opener_label_end(local: Seq<u8>, c0: int) -> Option<Option<int>> {
    if c0 < local.len() && local[c0] == 91u8 {
        match crate::links::spec_label_end_scan(local, c0 + 1, 1) {
            Some(close) => Some(Some(close + 1)),
            None => Some(None),
        }
    } else {
        None
    }
}

/// The opener `name[label]{attributes}` at `start` of `b[..end]` parses: a
/// valid directive name, then a label that closes (if one opens) and an
/// attribute list that closes (if one opens).
pub open spec fn spec_opener_ok(b: Seq<u8>, start: int, end: int) -> bool {
    let ne = spec_name_end(b, start, end);
    let local = b.subrange(start, end);
    let c0 = ne - start;
    &&& crate::validate::spec_is_directive_name(b.subrange(start, ne))
    &&& spec_opener_label_end(local, c0) != Some(None::<int>)
    &&& {
        let c1 = match spec_opener_label_end(local, c0) {
            Some(Some(e)) => e,
            _ => c0,
        };
        c1 < local.len() && local[c1] == 123u8 ==> spec_attributes_close_scan(local, c1 + 1, local.len() as int, None, false)
            is Some
    }
}

/// Parses the opener `name[label]{attributes}` at `start` within
/// `b[start..end]`: a valid name, then optionally a label and attributes.
pub fn parse_directive_opener(b: &[u8], start: usize, end: usize) -> (r: Option<DirectiveOpener>)
    requires
        start <= end <= b@.len(),
    ensures
        r matches Some(o) ==> start < o.end <= end && (o.label matches Some(l) ==> start < l.0 <= l.1 < end)
            && start + o.name@.len() <= o.end,
        r is Some <==> spec_opener_ok(b@, start as int, end as int),
        r matches Some(o) ==> o.name@ == b@.subrange(start as int, spec_name_end(b@, start as int, end as int)),
{
    let name_end = directive_name_end(b, start, end);
    let name = copy_range(b, start, name_end);
    if !is_directive_name(name.as_slice()) {
        return None;
    }
    let local = copy_range(b, start, end);
    let m = local.len();
    let mut consumed = name_end - start;
    let mut label: Option<(usize, usize)> = None;
    let mut attributes: Vec<DirectiveAttribute> = Vec::new();
    if consumed < m && local[consumed] == 91u8 {
        let close = match find_link_label_end(local.as_slice(), consumed) {
            Some(c) => c,
            None => {
                return None;
            },
        };
        label = Some((start + consumed + 1, start + close));
        consumed = close + 1;
    }
    if consumed < m && local[consumed] == 123u8 {
        let close = match find_directive_attributes_close(local.as_slice(), consumed, m) {
            Some(c) => c,
            None => {
                return None;
            },
        };
        attributes = parse_attributes(local.as_slice(), consumed + 1, close);
        consumed = close + 1;
    }
    Some(DirectiveOpener { name, label, attributes, end: start + consumed })
}

/// Whether `b[start..end]` begins with a valid name followed by `[` or `{`
/// (an opener whose label or attributes failed).
pub fn directive_opener_looks_malformed(b: &[u8], start: usize, end: usize) -> (r: bool)
    requires
        start <= end <= b@.len(),
    ensures
        r == {
            let ne = spec_name_end(b@, start as int, end as int);
            ne > start && crate::validate::spec_is_directive_name(b@.subrange(start as int, ne)) && ne < end && (
            b@[ne] == 91u8 || b@[ne] == 123u8)
        },
{
    let name_end = directive_name_end(b, start, end);
    let name = copy_range(b, start, name_end);
    name_end > start && is_directive_name(name.as_slice()) && name_end < end && (b[name_end] == 91u8
        || b[name_end] == 123u8)
}

/// The length of the run of `:` at `k`.
pub fn colon_run(b: &[u8], k: usize, end: usize) -> (r: usize)
    requires
        k <= end <= b@.len(),
    ensures
        k + r <= end,
        forall|j: int| k <= j < k + r ==> #[trigger] b@[j] == 58u8,
        k + r < end ==> b@[k + r] != 58u8,
{
    let mut j = k;
    while j < end && b[j] == 58u8
        invariant
            k <= j <= end <= b@.len(),
            forall|i: int| k <= i < j ==> #[trigger] b@[i] == 58u8,
        decreases end - j,
    {
        j = j + 1;
    }
    j - k
}

} // verus!
