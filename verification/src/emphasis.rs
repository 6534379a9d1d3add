//! Emphasis, strong emphasis and strikethrough: delimiter runs recorded during
//! the inline scan, then matched with the CommonMark delimiter-stack algorithm
//! (including the rule of three); unmatched runs stay text.
use vstd::prelude::*;

use crate::ast::{Delete, DeleteMarker, Emphasis, Inline, NodeMeta, Strong, Text};
use crate::block_start::{is_escaped_at, spec_is_escaped_at};
use crate::span::Span;
use crate::text::{run_len, spec_lossy_utf8, spec_run_len, string_from_bytes};
use crate::text_escape::{spec_can_close, spec_can_open, text_delimiter_can_close, text_delimiter_can_open};
use vstd::string::StringExecFns;

verus! {

/// A recorded delimiter run: the placeholder text node that holds its
/// characters, what can still be matched of it, and whether it is spent.
#[derive(Clone, Copy)]
pub struct DelimMarker {
    pub node_index: usize,
    pub marker: u8,
    pub length: usize,
    pub can_open: bool,
    pub can_close: bool,
    pub span_start: usize,
    pub inactive: bool,
}

/// `count` copies of `c` as a string.
fn repeated(c: u8, count: usize) -> (r: String)
    ensures
        r@ == spec_lossy_utf8(Seq::new(count as nat, |i: int| c)),
{
    let mut v: Vec<u8> = Vec::new();
    let mut k: usize = 0;
    while k < count
        invariant
            k <= count,
            v@ == Seq::new(k as nat, |i: int| c),
        decreases count - k,
    {
        v.push(c);
        k = k + 1;
        assert(v@ =~= Seq::new(k as nat, |i: int| c));
    }
    string_from_bytes(v.as_slice())
}

/// The start of the unescaped run of `marker` that contains `index`.
pub open spec fn spec_run_start(b: Seq<u8>, index: int, marker: u8) -> int
    decreases index,
{
    if index > 0 && b[index - 1] == marker && !spec_is_escaped_at(b, index - 1) {
        spec_run_start(b, index - 1, marker)
    } else {
        index
    }
}

/// Walks back from `index` over unescaped copies of `marker`.
pub fn delimiter_byte_run_start(input: &[u8], index: usize, marker: u8) -> (r: usize)
    requires
        index <= input@.len(),
    ensures
        r == spec_run_start(input@, index as int, marker),
{
    let mut start = index;
    while start > 0 && input[start - 1] == marker && !is_escaped_at(input, start - 1)
        invariant
            start <= index <= input@.len(),
            spec_run_start(input@, start as int, marker) == spec_run_start(input@, index as int, marker),
        decreases start,
    {
        start = start - 1;
    }
    start
}

/// Whether a recorded run may open: its flanking, or, for `*` and `_` with
/// strikethrough on, a `~` right after it.
pub open spec fn spec_record_can_open(b: Seq<u8>, index: int, marker: u8, strikethrough: bool) -> bool {
    let len = spec_run_len(b, index, marker) as int;
    spec_can_open(b, index, len, marker == 95u8) || (strikethrough && marker != 126u8 && index + len < b.len()
        && b[index + len] == 126u8)
}

/// Whether a recorded run may close: its flanking, or, for `*` and `_` with
/// strikethrough on, a `~` right before it.
pub open spec fn spec_record_can_close(b: Seq<u8>, index: int, marker: u8, strikethrough: bool) -> bool {
    let len = spec_run_len(b, index, marker) as int;
    spec_can_close(b, index, len, marker == 95u8) || (strikethrough && marker != 126u8 && index > 0 && b[index
        - 1] == 126u8)
}

/// Records the run of `marker` at `index` as a placeholder text node and a
/// delimiter. With strikethrough on, a `*` or `_` run touching a `~` may open
/// (tilde after) or close (tilde before) regardless of flanking.
pub(crate) fn record_emphasis_delimiter(
    nodes: &mut Vec<Inline>,
    delimiters: &mut Vec<DelimMarker>,
    input: &[u8],
    index: usize,
    base: usize,
    marker: u8,
    strikethrough: bool,
) -> (length: usize)
    requires
        index < input@.len(),
        input@[index as int] == marker,
        base + input@.len() <= usize::MAX,
    ensures
        length == spec_run_len(input@, index as int, marker),
        1 <= length,
        index + length <= input@.len(),
        final(nodes)@.len() == old(nodes)@.len() + 1,
        final(nodes)@.subrange(0, old(nodes)@.len() as int) == old(nodes)@,
        final(nodes)@.last() matches Inline::Text(t) && t.meta.span == Some(
            Span { start: (base + index) as usize, end: (base + index + length) as usize },
        ) && t.value@ == spec_lossy_utf8(Seq::new(length as nat, |i: int| marker)),
        final(delimiters)@ == old(delimiters)@.push(
            DelimMarker {
                node_index: old(nodes)@.len() as usize,
                marker,
                length,
                can_open: spec_record_can_open(input@, index as int, marker, strikethrough),
                can_close: spec_record_can_close(input@, index as int, marker, strikethrough),
                span_start: (base + index) as usize,
                inactive: false,
            },
        ),
{
    let n = input.len();
    let length = run_len(input, index, marker);
    let underscore = marker == 95u8;
    let mut can_open = text_delimiter_can_open(input, index, length, underscore);
    let mut can_close = text_delimiter_can_close(input, index, length, underscore);
    if strikethrough && marker != 126u8 {
        if index + length < n && input[index + length] == 126u8 {
            can_open = true;
        }
        if index > 0 && input[index - 1] == 126u8 {
            can_close = true;
        }
    }
    let node_index = nodes.len();
    nodes.push(
        Inline::Text(
            Text {
                meta: NodeMeta::new(Some(Span::new(base + index, base + index + length))),
                value: repeated(marker, length),
            },
        ),
    );
    delimiters.push(
        DelimMarker {
            node_index,
            marker,
            length,
            can_open,
            can_close,
            span_start: base + index,
            inactive: false,
        },
    );
    length
}

/// The slot of `openers_bottom` for a closer: its marker, whether it can both
/// open and close, and its length modulo three.
fn openers_bottom_key(closer: DelimMarker) -> (r: usize)
    ensures
        r < 18,
        r == ((if closer.marker == 95u8 {
            1int
        } else if closer.marker == 126u8 {
            2int
        } else {
            0int
        }) * 2 + (if closer.can_open && closer.can_close {
            1int
        } else {
            0int
        })) * 3 + closer.length % 3,
{
    let marker: usize = if closer.marker == 95u8 {
        1
    } else if closer.marker == 126u8 {
        2
    } else {
        0
    };
    let both: usize = if closer.can_open && closer.can_close {
        1
    } else {
        0
    };
    (marker * 2 + both) * 3 + closer.length % 3
}

/// Whether an opener and a closer can pair: tildes of equal length, or, by the
/// rule of three, emphasis runs whose lengths do not sum to a multiple of three
/// when either can both open and close (unless both lengths are multiples of
/// three).
pub open spec fn spec_delimiters_match(opener: DelimMarker, closer: DelimMarker) -> bool {
    if opener.marker == 126u8 {
        opener.length == closer.length
    } else if (opener.can_open && opener.can_close) || (closer.can_open && closer.can_close) {
        let sum = opener.length + closer.length;
        !(sum % 3 == 0 && !(opener.length % 3 == 0 && closer.length % 3 == 0))
    } else {
        true
    }
}

fn emphasis_delimiters_match(opener: DelimMarker, closer: DelimMarker) -> (r: bool)
    ensures
        r == spec_delimiters_match(opener, closer),
{
    if opener.marker == 126u8 {
        return opener.length == closer.length;
    }
    let opener_both = opener.can_open && opener.can_close;
    let closer_both = closer.can_open && closer.can_close;
    if opener_both || closer_both {
        let sum = opener.length as u128 + closer.length as u128;
        if sum % 3 == 0 && !(opener.length % 3 == 0 && closer.length % 3 == 0) {
            return false;
        }
    }
    true
}

/// What a matched pair becomes.
#[derive(Clone, Copy)]
enum EmphasisWrap {
    Emphasis,
    Strong,
    Delete(DeleteMarker),
}

/// The span of a text node, if it is one.
fn text_span(node: &Inline) -> (r: Option<Span>) {
    match node {
        Inline::Text(t) => t.meta.span,
        _ => None,
    }
}

/// Replaces a placeholder text node by `keep` copies of `marker`, its span
/// narrowed to `[start, end)`.
fn reset_placeholder(nodes: &mut Vec<Inline>, at: usize, marker: u8, keep: usize, start: usize, end: usize)
    requires
        at < old(nodes)@.len(),
    ensures
        final(nodes)@.len() == old(nodes)@.len(),
{
    nodes.set(at, Inline::Text(Text { meta: NodeMeta::new(Some(Span::new(start, end))), value: repeated(marker, keep) }));
}

/// Two records of the same run that may differ only in the node they point at.
pub open spec fn same_but_position(a: DelimMarker, b: DelimMarker) -> bool {
    &&& a.marker == b.marker
    &&& a.length == b.length
    &&& a.can_open == b.can_open
    &&& a.can_close == b.can_close
    &&& a.span_start == b.span_start
    &&& a.inactive == b.inactive
}

/// Where a delimiter at node `index` points after the nodes from `from` on
/// moved down by `amount` (not below node 0).
pub open spec fn spec_shifted_down(index: usize, from: usize, amount: usize) -> usize {
    if index >= from {
        if index >= amount {
            (index - amount) as usize
        } else {
            0
        }
    } else {
        index
    }
}

/// Where a delimiter at node `index` points after the nodes from `from` on
/// moved up by one (an index at the limit stays).
pub open spec fn spec_shifted_up(index: usize, from: usize) -> usize {
    if index >= from && index < usize::MAX {
        (index + 1) as usize
    } else {
        index
    }
}

/// Moves every delimiter at or after node `from` down by `amount` nodes.
fn shift_down(delimiters: &mut Vec<DelimMarker>, from: usize, amount: usize)
    ensures
        final(delimiters)@.len() == old(delimiters)@.len(),
        forall|i: int|
            0 <= i < old(delimiters)@.len() ==> same_but_position(#[trigger] final(delimiters)@[i], old(delimiters)@[i]),
        forall|i: int|
            0 <= i < old(delimiters)@.len() ==> (#[trigger] final(delimiters)@[i]).node_index == spec_shifted_down(
                old(delimiters)@[i].node_index,
                from,
                amount,
            ),
{
    let ghost start = delimiters@;
    let n = delimiters.len();
    let mut i: usize = 0;
    while i < n
        invariant
            n == delimiters@.len() == start.len(),
            i <= n,
            forall|j: int| 0 <= j < n ==> same_but_position(#[trigger] delimiters@[j], start[j]),
            forall|j: int|
                0 <= j < i ==> (#[trigger] delimiters@[j]).node_index == spec_shifted_down(
                    start[j].node_index,
                    from,
                    amount,
                ),
            forall|j: int| i <= j < n ==> #[trigger] delimiters@[j] == start[j],
        decreases n - i,
    {
        let d = delimiters[i];
        if d.node_index >= from {
            let moved = if d.node_index >= amount {
                d.node_index - amount
            } else {
                0
            };
            delimiters.set(i, DelimMarker { node_index: moved, ..d });
        }
        i = i + 1;
    }
}

/// Moves every delimiter at or after node `from` up by one node.
fn shift_up(delimiters: &mut Vec<DelimMarker>, from: usize)
    ensures
        final(delimiters)@.len() == old(delimiters)@.len(),
        forall|i: int|
            0 <= i < old(delimiters)@.len() ==> same_but_position(#[trigger] final(delimiters)@[i], old(delimiters)@[i]),
        forall|i: int|
            0 <= i < old(delimiters)@.len() ==> (#[trigger] final(delimiters)@[i]).node_index == spec_shifted_up(
                old(delimiters)@[i].node_index,
                from,
            ),
{
    let ghost start = delimiters@;
    let n = delimiters.len();
    let mut i: usize = 0;
    while i < n
        invariant
            n == delimiters@.len() == start.len(),
            i <= n,
            forall|j: int| 0 <= j < n ==> same_but_position(#[trigger] delimiters@[j], start[j]),
            forall|j: int|
                0 <= j < i ==> (#[trigger] delimiters@[j]).node_index == spec_shifted_up(start[j].node_index, from),
            forall|j: int| i <= j < n ==> #[trigger] delimiters@[j] == start[j],
        decreases n - i,
    {
        let d = delimiters[i];
        if d.node_index >= from && d.node_index < usize::MAX {
            delimiters.set(i, DelimMarker { node_index: d.node_index + 1, ..d });
        }
        i = i + 1;
    }
}

/// Wraps the nodes between the opener's and the closer's placeholder nodes,
/// consuming `used` characters from each; spent placeholders are removed.
/// Returns `false` (and changes nothing) when the recorded positions do not
/// describe such a pair.
fn apply_emphasis(
    nodes: &mut Vec<Inline>,
    delimiters: &mut Vec<DelimMarker>,
    o: usize,
    c: usize,
    used: usize,
    wrap: EmphasisWrap,
) -> (r: bool)
    requires
        o < c < old(delimiters)@.len(),
    ensures
        final(delimiters)@.len() == old(delimiters)@.len(),
        forall|i: int|
            0 <= i < old(delimiters)@.len() && i != o && i != c ==> same_but_position(
                #[trigger] final(delimiters)@[i],
                old(delimiters)@[i],
            ),
        r ==> 1 <= used,
        r ==> final(delimiters)@[o as int].length == old(delimiters)@[o as int].length - used,
        r ==> final(delimiters)@[c as int].length == old(delimiters)@[c as int].length - used,
        r ==> final(delimiters)@[o as int].marker == old(delimiters)@[o as int].marker,
        r ==> final(delimiters)@[c as int].marker == old(delimiters)@[c as int].marker,
        !r ==> final(delimiters)@ == old(delimiters)@ && final(nodes)@ == old(nodes)@,
{
    let dn = delimiters.len();
    let od = delimiters[o];
    let cd = delimiters[c];
    let on = od.node_index;
    let cn = cd.node_index;
    if !(on < cn && cn < nodes.len()) || used == 0 || od.length < used || cd.length < used {
        return false;
    }
    let marker = od.marker;
    let o_span = text_span(&nodes[on]);
    match o_span {
        Some(sp) => {
            let end = if sp.end >= used {
                sp.end - used
            } else {
                0
            };
            reset_placeholder(nodes, on, marker, od.length - used, sp.start, end);
        },
        None => {},
    }
    let o_start = if od.span_start <= usize::MAX - used {
        od.span_start + used
    } else {
        od.span_start
    };
    let od2 = DelimMarker { length: od.length - used, span_start: o_start, ..od };
    delimiters.set(o, od2);
    let c_span = text_span(&nodes[cn]);
    match c_span {
        Some(sp) => {
            let start = if sp.start <= usize::MAX - used {
                sp.start + used
            } else {
                sp.start
            };
            reset_placeholder(nodes, cn, cd.marker, cd.length - used, start, sp.end);
        },
        None => {},
    }
    let cd2 = DelimMarker { length: cd.length - used, ..cd };
    delimiters.set(c, cd2);
    let span_start = if od2.span_start >= used {
        od2.span_start - used
    } else {
        0
    };
    let span_end = if cd2.span_start <= usize::MAX - cd2.length - used {
        cd2.span_start + cd2.length + used
    } else {
        usize::MAX
    };
    let mut children: Vec<Inline> = Vec::new();
    let removed = cn - on - 1;
    let mut k: usize = 0;
    while k < removed
        invariant
            k <= removed,
            removed == cn - on - 1,
            nodes@.len() >= cn + 1 - k,
            on < cn,
        decreases removed - k,
    {
        let node = nodes.remove(on + 1);
        children.push(node);
        k = k + 1;
    }
    let meta = NodeMeta::new(Some(Span::new(span_start, span_end)));
    let wrapped = match wrap {
        EmphasisWrap::Strong => Inline::Strong(Strong { meta, children }),
        EmphasisWrap::Emphasis => Inline::Emphasis(Emphasis { meta, children }),
        EmphasisWrap::Delete(m) => Inline::Delete(Delete { meta, marker: m, children }),
    };
    nodes.insert(on + 1, wrapped);
    if removed == 0 {
        shift_up(delimiters, cn);
    } else if removed > 1 {
        shift_down(delimiters, cn, removed - 1);
    }
    if delimiters[c].length == 0 {
        let pos = delimiters[c].node_index;
        if pos < nodes.len() {
            nodes.remove(pos);
            shift_down(delimiters, pos, 1);
        }
    }
    if delimiters[o].length == 0 {
        let pos = delimiters[o].node_index;
        if pos < nodes.len() {
            nodes.remove(pos);
            shift_down(delimiters, pos, 1);
        }
    }
    true
}

/// The node a text node becomes when `next` is appended to it: the values
/// joined, the span running to the end of `next`'s span when both have one.
fn join_text(previous: &Text, next: &Text) -> (r: Text)
    ensures
        r.value@ == previous.value@ + next.value@,
        r.meta.span == (match (previous.meta.span, next.meta.span) {
            (Some(p), Some(q)) => Some(Span { start: p.start, end: q.end }),
            _ => previous.meta.span,
        }),
{
    let mut value = <String as StringExecFns>::from_str(previous.value.as_str());
    value.append(next.value.as_str());
    let span = match (previous.meta.span, next.meta.span) {
        (Some(p), Some(q)) => Some(Span::new(p.start, q.end)),
        _ => previous.meta.span,
    };
    Text { meta: NodeMeta::new(span), value }
}

/// Merges consecutive text nodes, recursing into emphasis, strong and
/// strikethrough nodes (the nodes that emphasis matching builds); other
/// containers are left as they are.
fn merge_adjacent_text(nodes: Vec<Inline>) -> (r: Vec<Inline>)
    ensures
        r@.len() <= nodes@.len(),
    decreases nodes@,
{
    let ghost all = nodes@;
    let mut rest = nodes;
    let mut out: Vec<Inline> = Vec::new();
    let ghost mut taken: int = 0;
    while rest.len() > 0
        invariant
            0 <= taken <= all.len(),
            all == nodes@,
            rest@ == all.subrange(taken, all.len() as int),
            out@.len() <= taken,
        decreases rest@.len(),
    {
        let node = rest.remove(0);
        proof {
            assert(node == all[taken]);
            taken = taken + 1;
        }
        let node = match node {
            Inline::Emphasis(e) => {
                let Emphasis { meta, children } = e;
                proof {
                    assert(decreases_to!(all => all[taken - 1]));
                }
                Inline::Emphasis(Emphasis { meta, children: merge_adjacent_text(children) })
            },
            Inline::Strong(e) => {
                let Strong { meta, children } = e;
                proof {
                    assert(decreases_to!(all => all[taken - 1]));
                }
                Inline::Strong(Strong { meta, children: merge_adjacent_text(children) })
            },
            Inline::Delete(e) => {
                let Delete { meta, marker, children } = e;
                proof {
                    assert(decreases_to!(all => all[taken - 1]));
                }
                Inline::Delete(Delete { meta, marker, children: merge_adjacent_text(children) })
            },
            other => other,
        };
        let ol = out.len();
        let mut joined: Option<Text> = None;
        if ol > 0 {
            match (&out[ol - 1], &node) {
                (Inline::Text(previous), Inline::Text(next)) => {
                    joined = Some(join_text(previous, next));
                },
                _ => {},
            }
        }
        match joined {
            Some(t) => {
                out.set(ol - 1, Inline::Text(t));
            },
            None => {
                out.push(node);
            },
        }
    }
    out
}

/// Resolves the recorded delimiter runs into emphasis, strong and
/// strikethrough nodes with the CommonMark delimiter-stack algorithm; runs
/// that find no partner stay text, and adjacent text nodes are merged.
pub(crate) fn process_emphasis(nodes: Vec<Inline>, delimiters: Vec<DelimMarker>) -> (r: Vec<Inline>)
    ensures
        delimiters@.len() == 0 ==> r@ == nodes@,
{
    if delimiters.len() == 0 {
        return nodes;
    }
    let mut nodes = nodes;
    let mut delimiters = delimiters;
    let dn = delimiters.len();
    let mut openers_bottom: Vec<Option<usize>> = Vec::new();
    let mut k: usize = 0;
    while k < 18
        invariant
            k <= 18,
            openers_bottom@.len() == k,
        decreases 18 - k,
    {
        openers_bottom.push(None);
        k = k + 1;
    }
    let mut closer_idx: usize = 0;
    while closer_idx < dn
        invariant
            dn == delimiters@.len(),
            openers_bottom@.len() == 18,
        decreases dn - closer_idx, delimiters@[closer_idx as int].length,
    {
        let closer = delimiters[closer_idx];
        if closer.inactive || !closer.can_close {
            closer_idx = closer_idx + 1;
            continue;
        }
        let key = openers_bottom_key(closer);
        let bottom = openers_bottom[key];
        let mut opener: Option<usize> = None;
        let mut search = closer_idx;
        while search > 0
            invariant
                search <= closer_idx < dn == delimiters@.len(),
                opener is Some ==> opener->0 < closer_idx,
            decreases search,
        {
            search = search - 1;
            let below = match bottom {
                Some(b) => search < b,
                None => false,
            };
            if below {
                break;
            }
            let candidate = delimiters[search];
            if !candidate.inactive && candidate.marker == closer.marker && candidate.can_open
                && emphasis_delimiters_match(candidate, closer) {
                opener = Some(search);
                break;
            }
        }
        match opener {
            None => {
                openers_bottom.set(key, Some(closer_idx));
                if !closer.can_open {
                    delimiters.set(closer_idx, DelimMarker { inactive: true, ..closer });
                }
                closer_idx = closer_idx + 1;
            },
            Some(oi) => {
                let (used, wrap) = if closer.marker == 126u8 {
                    let marker = if closer.length >= 2 {
                        DeleteMarker::DoubleTilde
                    } else {
                        DeleteMarker::SingleTilde
                    };
                    (closer.length, EmphasisWrap::Delete(marker))
                } else if delimiters[oi].length >= 2 && closer.length >= 2 {
                    (2, EmphasisWrap::Strong)
                } else {
                    (1, EmphasisWrap::Emphasis)
                };
                let applied = apply_emphasis(&mut nodes, &mut delimiters, oi, closer_idx, used, wrap);
                if !applied {
                    delimiters.set(closer_idx, DelimMarker { inactive: true, ..closer });
                    closer_idx = closer_idx + 1;
                } else {
                    let ghost left = delimiters@[closer_idx as int].length;
                    let mut inner = oi + 1;
                    while inner < closer_idx
                        invariant
                            oi < inner <= closer_idx < dn == delimiters@.len(),
                            delimiters@[closer_idx as int].length == left,
                        decreases closer_idx - inner,
                    {
                        let d = delimiters[inner];
                        delimiters.set(inner, DelimMarker { inactive: true, ..d });
                        inner = inner + 1;
                    }
                    let od = delimiters[oi];
                    if od.length == 0 {
                        delimiters.set(oi, DelimMarker { inactive: true, ..od });
                    }
                    let cd = delimiters[closer_idx];
                    if cd.length == 0 {
                        delimiters.set(closer_idx, DelimMarker { inactive: true, ..cd });
                        closer_idx = closer_idx + 1;
                    }
                }
            },
        }
    }
    merge_adjacent_text(nodes)
}

} // verus!
