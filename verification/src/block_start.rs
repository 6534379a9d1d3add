//! Recognizing where blocks start: HTML blocks, list markers and GFM table
//! headers. The serializer asks the same questions of its own output, so that
//! a paragraph it writes cannot re-parse as one of these.
use vstd::prelude::*;

use crate::ast::TableAlignment;

use crate::text::{
    ascii_lower, is_ascii_alnum, is_ascii_alpha, is_ascii_digit, run_len, spec_ascii_lower,
    spec_is_ascii_alnum, spec_is_ascii_alpha, spec_is_ascii_digit, spec_run_len, spec_starts_with_at,
    spec_trim_up_to_three, spec_ws_len_at, starts_with_at, trim_up_to_three_spaces, whitespace_len_at,
};

verus! {

// ---------------------------------------------------------------------------
// Escapes.
// ---------------------------------------------------------------------------

/// The number of backslashes directly before `index`.
pub open spec fn spec_backslashes_before(b: Seq<u8>, index: int) -> nat
    decreases index,
{
    if index <= 0 || index > b.len() || b[index - 1] != 92u8 {
        0
    } else {
        1 + spec_backslashes_before(b, index - 1)
    }
}

/// Whether the byte at `index` is escaped: an odd run of backslashes precedes it.
pub open spec fn spec_is_escaped_at(b: Seq<u8>, index: int) -> bool {
    spec_backslashes_before(b, index) % 2 == 1
}

pub fn is_escaped_at(input: &[u8], index: usize) -> (r: bool)
    requires
        index <= input@.len(),
    ensures
        r == spec_is_escaped_at(input@, index as int),
{
    let mut cursor = index;
    let mut count: usize = 0;
    while cursor > 0 && input[cursor - 1] == 92u8
        invariant
            cursor <= index <= input@.len(),
            count == index - cursor,
            spec_backslashes_before(input@, index as int) == count + spec_backslashes_before(input@, cursor as int),
        decreases cursor,
    {
        count = count + 1;
        cursor = cursor - 1;
    }
    count % 2 == 1
}

// ---------------------------------------------------------------------------
// Trailing whitespace.
// ---------------------------------------------------------------------------

/// The width of the whitespace scalar that ends `b[..end]`, or 0.
pub open spec fn spec_trailing_ws_width(b: Seq<u8>, end: int) -> nat {
    if end >= 1 && spec_ws_len_at(b, end - 1) == 1 {
        1
    } else if end >= 2 && spec_ws_len_at(b, end - 2) == 2 {
        2
    } else if end >= 3 && spec_ws_len_at(b, end - 3) == 3 {
        3
    } else {
        0
    }
}

/// Where `b[start..end]` ends once its trailing whitespace scalars are removed.
pub open spec fn spec_trim_end(b: Seq<u8>, start: int, end: int) -> int
    decreases end - start,
{
    let w = spec_trailing_ws_width(b, end);
    if end <= start || w == 0 || end - w < start {
        end
    } else {
        spec_trim_end(b, start, end - w)
    }
}

fn trailing_ws_width(b: &[u8], end: usize) -> (r: usize)
    requires
        end <= b@.len(),
    ensures
        r == spec_trailing_ws_width(b@, end as int),
        r <= end,
{
    if end >= 1 && whitespace_len_at(b, end - 1) == 1 {
        1
    } else if end >= 2 && whitespace_len_at(b, end - 2) == 2 {
        2
    } else if end >= 3 && whitespace_len_at(b, end - 3) == 3 {
        3
    } else {
        0
    }
}

/// Where `bytes[start..end]` ends once its trailing whitespace is removed.
pub fn trim_end(bytes: &[u8], start: usize, end: usize) -> (r: usize)
    requires
        start <= end <= bytes@.len(),
    ensures
        r == spec_trim_end(bytes@, start as int, end as int),
        start <= r <= end,
{
    let mut e = end;
    while e > start
        invariant
            start <= e <= end <= bytes@.len(),
            spec_trim_end(bytes@, start as int, e as int) == spec_trim_end(bytes@, start as int, end as int),
        ensures
            start <= e <= end,
            e == spec_trim_end(bytes@, start as int, end as int),
        decreases e - start,
    {
        let w = trailing_ws_width(bytes, e);
        if w == 0 || e - w < start {
            break;
        }
        e = e - w;
    }
    e
}

// ---------------------------------------------------------------------------
// HTML block starts.
// ---------------------------------------------------------------------------

/// How an HTML block that starts on a line ends.
#[derive(Clone, Copy, Debug, PartialEq, Eq, Structural)]
pub enum HtmlBlockKind {
    /// `<script>`, `<pre>`, `<style>`, `<textarea>`: at the matching close tag.
    RawTag,
    /// A block-level tag name: at a blank line.
    BlockTag,
    /// `<!--`: at `-->`.
    Comment,
    /// `<?`: at `?>`.
    Processing,
    /// `<!X`: at `>`.
    Declaration,
    /// `<![CDATA[`: at `]]>`.
    Cdata,
    /// Any other complete tag alone on its line: at a blank line (cannot
    /// interrupt a paragraph).
    UntilBlank,
}

/// Whether `b[i..]` starts with `name`, ASCII case-insensitively.
pub open spec fn spec_starts_with_ci_at(b: Seq<u8>, i: int, name: Seq<u8>) -> bool {
    0 <= i && i + name.len() <= b.len() && forall|k: int| 0 <= k < name.len() ==> spec_ascii_lower(#[trigger] b[i + k])
        == spec_ascii_lower(name[k])
}

fn starts_with_ci_at(b: &[u8], i: usize, name: &[u8]) -> (r: bool)
    ensures
        r == spec_starts_with_ci_at(b@, i as int, name@),
{
    let n = b.len();
    let m = name.len();
    if i > n || n - i < m {
        return false;
    }
    let mut k: usize = 0;
    while k < m
        invariant
            n == b@.len(),
            m == name@.len(),
            i + m <= n,
            k <= m,
            forall|j: int| 0 <= j < k ==> spec_ascii_lower(#[trigger] b@[i + j]) == spec_ascii_lower(name@[j]),
        decreases m - k,
    {
        if ascii_lower(b[i + k]) != ascii_lower(name[k]) {
            return false;
        }
        k = k + 1;
    }
    true
}

/// Whether `b[start..end]` starts with the raw-text open tag `<name` followed by
/// the end, whitespace, `>`, or a final `/>`.
pub open spec fn spec_raw_open_tag(b: Seq<u8>, start: int, end: int, name: Seq<u8>) -> bool {
    let r = start + 1;
    let t = r + name.len();
    &&& start < end && b[start] == 60u8
    &&& !(r < end && b[r] == 47u8)
    &&& t <= end
    &&& spec_starts_with_ci_at(b, r, name)
    &&& (t == end || b[t] == 32u8 || b[t] == 9u8 || b[t] == 10u8 || b[t] == 13u8 || b[t] == 62u8 || (b[t]
        == 47u8 && t + 2 == end && b[t + 1] == 62u8))
}

fn html_raw_open_tag_prefix(b: &[u8], start: usize, end: usize, name: &[u8]) -> (r: bool)
    requires
        start <= end <= b@.len(),
    ensures
        r == spec_raw_open_tag(b@, start as int, end as int, name@),
{
    if !(start < end && b[start] == 60u8) {
        return false;
    }
    let r = start + 1;
    if r < end && b[r] == 47u8 {
        return false;
    }
    if end - r < name.len() {
        return false;
    }
    if !starts_with_ci_at(b, r, name) {
        return false;
    }
    let t = r + name.len();
    t == end || b[t] == 32u8 || b[t] == 9u8 || b[t] == 10u8 || b[t] == 13u8 || b[t] == 62u8 || (b[t] == 47u8
        && end - t == 2 && b[t + 1] == 62u8)
}

/// `script`, `pre`, `style`, `textarea`.
pub open spec fn spec_raw_tag_start(b: Seq<u8>, start: int, end: int) -> bool {
    spec_raw_open_tag(b, start, end, seq![115u8, 99u8, 114u8, 105u8, 112u8, 116u8])
        || spec_raw_open_tag(b, start, end, seq![112u8, 114u8, 101u8])
        || spec_raw_open_tag(b, start, end, seq![115u8, 116u8, 121u8, 108u8, 101u8])
        || spec_raw_open_tag(b, start, end, seq![116u8, 101u8, 120u8, 116u8, 97u8, 114u8, 101u8, 97u8])
}

fn raw_html_tag_start(b: &[u8], start: usize, end: usize) -> (r: bool)
    requires
        start <= end <= b@.len(),
    ensures
        r == spec_raw_tag_start(b@, start as int, end as int),
{
    let script: [u8; 6] = [115u8, 99u8, 114u8, 105u8, 112u8, 116u8];
    let pre: [u8; 3] = [112u8, 114u8, 101u8];
    let style: [u8; 5] = [115u8, 116u8, 121u8, 108u8, 101u8];
    let textarea: [u8; 8] = [116u8, 101u8, 120u8, 116u8, 97u8, 114u8, 101u8, 97u8];
    assert(script@ =~= seq![115u8, 99u8, 114u8, 105u8, 112u8, 116u8]);
    assert(pre@ =~= seq![112u8, 114u8, 101u8]);
    assert(style@ =~= seq![115u8, 116u8, 121u8, 108u8, 101u8]);
    assert(textarea@ =~= seq![116u8, 101u8, 120u8, 116u8, 97u8, 114u8, 101u8, 97u8]);
    html_raw_open_tag_prefix(b, start, end, &script) || html_raw_open_tag_prefix(b, start, end, &pre)
        || html_raw_open_tag_prefix(b, start, end, &style) || html_raw_open_tag_prefix(b, start, end, &textarea)
}

/// An HTML name byte: an ASCII letter, digit or `-`.
pub open spec fn spec_html_name_byte(c: u8) -> bool {
    spec_is_ascii_alnum(c) || c == 45u8
}

/// The end of the run of HTML name bytes that starts at `k` (before `end`).
pub open spec fn spec_name_end(b: Seq<u8>, k: int, end: int) -> int
    decreases end - k,
{
    if k < end && 0 <= k < b.len() && spec_html_name_byte(b[k]) {
        spec_name_end(b, k + 1, end)
    } else {
        k
    }
}

fn name_end(b: &[u8], k: usize, end: usize) -> (r: usize)
    requires
        k <= end <= b@.len(),
    ensures
        r == spec_name_end(b@, k as int, end as int),
        k <= r <= end,
{
    let mut i = k;
    while i < end && (is_ascii_alnum(b[i]) || b[i] == 45u8)
        invariant
            k <= i <= end <= b@.len(),
            spec_name_end(b@, i as int, end as int) == spec_name_end(b@, k as int, end as int),
        decreases end - i,
    {
        i = i + 1;
    }
    i
}

/// The block-level HTML tag names (lowercase).
pub open spec fn spec_block_tag_names() -> Seq<Seq<u8>> {
    seq![
        seq![97u8, 100u8, 100u8, 114u8, 101u8, 115u8, 115u8],
        seq![97u8, 114u8, 116u8, 105u8, 99u8, 108u8, 101u8],
        seq![97u8, 115u8, 105u8, 100u8, 101u8],
        seq![98u8, 97u8, 115u8, 101u8],
        seq![98u8, 97u8, 115u8, 101u8, 102u8, 111u8, 110u8, 116u8],
        seq![98u8, 108u8, 111u8, 99u8, 107u8, 113u8, 117u8, 111u8, 116u8, 101u8],
        seq![98u8, 111u8, 100u8, 121u8],
        seq![99u8, 97u8, 112u8, 116u8, 105u8, 111u8, 110u8],
        seq![99u8, 101u8, 110u8, 116u8, 101u8, 114u8],
        seq![99u8, 111u8, 108u8],
        seq![99u8, 111u8, 108u8, 103u8, 114u8, 111u8, 117u8, 112u8],
        seq![100u8, 100u8],
        seq![100u8, 101u8, 116u8, 97u8, 105u8, 108u8, 115u8],
        seq![100u8, 105u8, 97u8, 108u8, 111u8, 103u8],
        seq![100u8, 105u8, 114u8],
        seq![100u8, 105u8, 118u8],
        seq![100u8, 108u8],
        seq![100u8, 116u8],
        seq![102u8, 105u8, 101u8, 108u8, 100u8, 115u8, 101u8, 116u8],
        seq![102u8, 105u8, 103u8, 99u8, 97u8, 112u8, 116u8, 105u8, 111u8, 110u8],
        seq![102u8, 105u8, 103u8, 117u8, 114u8, 101u8],
        seq![102u8, 111u8, 111u8, 116u8, 101u8, 114u8],
        seq![102u8, 111u8, 114u8, 109u8],
        seq![102u8, 114u8, 97u8, 109u8, 101u8],
        seq![102u8, 114u8, 97u8, 109u8, 101u8, 115u8, 101u8, 116u8],
        seq![104u8, 49u8],
        seq![104u8, 50u8],
        seq![104u8, 51u8],
        seq![104u8, 52u8],
        seq![104u8, 53u8],
        seq![104u8, 54u8],
        seq![104u8, 101u8, 97u8, 100u8],
        seq![104u8, 101u8, 97u8, 100u8, 101u8, 114u8],
        seq![104u8, 114u8],
        seq![104u8, 116u8, 109u8, 108u8],
        seq![105u8, 102u8, 114u8, 97u8, 109u8, 101u8],
        seq![108u8, 101u8, 103u8, 101u8, 110u8, 100u8],
        seq![108u8, 105u8],
        seq![108u8, 105u8, 110u8, 107u8],
        seq![109u8, 97u8, 105u8, 110u8],
        seq![109u8, 101u8, 110u8, 117u8],
        seq![109u8, 101u8, 110u8, 117u8, 105u8, 116u8, 101u8, 109u8],
        seq![110u8, 97u8, 118u8],
        seq![110u8, 111u8, 102u8, 114u8, 97u8, 109u8, 101u8, 115u8],
        seq![111u8, 108u8],
        seq![111u8, 112u8, 116u8, 103u8, 114u8, 111u8, 117u8, 112u8],
        seq![111u8, 112u8, 116u8, 105u8, 111u8, 110u8],
        seq![112u8],
        seq![112u8, 97u8, 114u8, 97u8, 109u8],
        seq![115u8, 101u8, 97u8, 114u8, 99u8, 104u8],
        seq![115u8, 101u8, 99u8, 116u8, 105u8, 111u8, 110u8],
        seq![115u8, 117u8, 109u8, 109u8, 97u8, 114u8, 121u8],
        seq![116u8, 97u8, 98u8, 108u8, 101u8],
        seq![116u8, 98u8, 111u8, 100u8, 121u8],
        seq![116u8, 100u8],
        seq![116u8, 102u8, 111u8, 111u8, 116u8],
        seq![116u8, 104u8],
        seq![116u8, 104u8, 101u8, 97u8, 100u8],
        seq![116u8, 105u8, 116u8, 108u8, 101u8],
        seq![116u8, 114u8],
        seq![116u8, 114u8, 97u8, 99u8, 107u8],
        seq![117u8, 108u8],
    ]
}

/// `b[start..end]` lowercased (ASCII).
pub open spec fn spec_lower_range(b: Seq<u8>, start: int, end: int) -> Seq<u8> {
    Seq::new((end - start) as nat, |k: int| spec_ascii_lower(b[start + k]))
}

/// Whether `b[start..end]` is a block-level tag name, ASCII case-insensitively.
pub open spec fn spec_is_block_tag(b: Seq<u8>, start: int, end: int) -> bool {
    spec_block_tag_names().contains(spec_lower_range(b, start, end))
}

fn block_tag_names() -> (r: Vec<Vec<u8>>)
    ensures
        r@.len() == spec_block_tag_names().len(),
        forall|k: int| 0 <= k < r@.len() ==> (#[trigger] r@[k])@ == spec_block_tag_names()[k],
{
    let r: Vec<Vec<u8>> = vec![
        vec![97u8, 100u8, 100u8, 114u8, 101u8, 115u8, 115u8],
        vec![97u8, 114u8, 116u8, 105u8, 99u8, 108u8, 101u8],
        vec![97u8, 115u8, 105u8, 100u8, 101u8],
        vec![98u8, 97u8, 115u8, 101u8],
        vec![98u8, 97u8, 115u8, 101u8, 102u8, 111u8, 110u8, 116u8],
        vec![98u8, 108u8, 111u8, 99u8, 107u8, 113u8, 117u8, 111u8, 116u8, 101u8],
        vec![98u8, 111u8, 100u8, 121u8],
        vec![99u8, 97u8, 112u8, 116u8, 105u8, 111u8, 110u8],
        vec![99u8, 101u8, 110u8, 116u8, 101u8, 114u8],
        vec![99u8, 111u8, 108u8],
        vec![99u8, 111u8, 108u8, 103u8, 114u8, 111u8, 117u8, 112u8],
        vec![100u8, 100u8],
        vec![100u8, 101u8, 116u8, 97u8, 105u8, 108u8, 115u8],
        vec![100u8, 105u8, 97u8, 108u8, 111u8, 103u8],
        vec![100u8, 105u8, 114u8],
        vec![100u8, 105u8, 118u8],
        vec![100u8, 108u8],
        vec![100u8, 116u8],
        vec![102u8, 105u8, 101u8, 108u8, 100u8, 115u8, 101u8, 116u8],
        vec![102u8, 105u8, 103u8, 99u8, 97u8, 112u8, 116u8, 105u8, 111u8, 110u8],
        vec![102u8, 105u8, 103u8, 117u8, 114u8, 101u8],
        vec![102u8, 111u8, 111u8, 116u8, 101u8, 114u8],
        vec![102u8, 111u8, 114u8, 109u8],
        vec![102u8, 114u8, 97u8, 109u8, 101u8],
        vec![102u8, 114u8, 97u8, 109u8, 101u8, 115u8, 101u8, 116u8],
        vec![104u8, 49u8],
        vec![104u8, 50u8],
        vec![104u8, 51u8],
        vec![104u8, 52u8],
        vec![104u8, 53u8],
        vec![104u8, 54u8],
        vec![104u8, 101u8, 97u8, 100u8],
        vec![104u8, 101u8, 97u8, 100u8, 101u8, 114u8],
        vec![104u8, 114u8],
        vec![104u8, 116u8, 109u8, 108u8],
        vec![105u8, 102u8, 114u8, 97u8, 109u8, 101u8],
        vec![108u8, 101u8, 103u8, 101u8, 110u8, 100u8],
        vec![108u8, 105u8],
        vec![108u8, 105u8, 110u8, 107u8],
        vec![109u8, 97u8, 105u8, 110u8],
        vec![109u8, 101u8, 110u8, 117u8],
        vec![109u8, 101u8, 110u8, 117u8, 105u8, 116u8, 101u8, 109u8],
        vec![110u8, 97u8, 118u8],
        vec![110u8, 111u8, 102u8, 114u8, 97u8, 109u8, 101u8, 115u8],
        vec![111u8, 108u8],
        vec![111u8, 112u8, 116u8, 103u8, 114u8, 111u8, 117u8, 112u8],
        vec![111u8, 112u8, 116u8, 105u8, 111u8, 110u8],
        vec![112u8],
        vec![112u8, 97u8, 114u8, 97u8, 109u8],
        vec![115u8, 101u8, 97u8, 114u8, 99u8, 104u8],
        vec![115u8, 101u8, 99u8, 116u8, 105u8, 111u8, 110u8],
        vec![115u8, 117u8, 109u8, 109u8, 97u8, 114u8, 121u8],
        vec![116u8, 97u8, 98u8, 108u8, 101u8],
        vec![116u8, 98u8, 111u8, 100u8, 121u8],
        vec![116u8, 100u8],
        vec![116u8, 102u8, 111u8, 111u8, 116u8],
        vec![116u8, 104u8],
        vec![116u8, 104u8, 101u8, 97u8, 100u8],
        vec![116u8, 105u8, 116u8, 108u8, 101u8],
        vec![116u8, 114u8],
        vec![116u8, 114u8, 97u8, 99u8, 107u8],
        vec![117u8, 108u8],
    ];
    assert(r@.len() == spec_block_tag_names().len());
    r
}

/// Whether `b[start..end]` equals `name` once lowercased.
pub fn lower_range_equals(b: &[u8], start: usize, end: usize, name: &[u8]) -> (r: bool)
    requires
        start <= end <= b@.len(),
    ensures
        r == (spec_lower_range(b@, start as int, end as int) == name@),
{
    let n = end - start;
    if n != name.len() {
        return false;
    }
    let mut k: usize = 0;
    while k < n
        invariant
            n == end - start,
            end <= b@.len(),
            n == name@.len(),
            k <= n,
            forall|j: int| 0 <= j < k ==> spec_ascii_lower(#[trigger] b@[start + j]) == name@[j],
        decreases n - k,
    {
        if ascii_lower(b[start + k]) != name[k] {
            assert(spec_lower_range(b@, start as int, end as int)[k as int] != name@[k as int]);
            return false;
        }
        k = k + 1;
    }
    assert(spec_lower_range(b@, start as int, end as int) =~= name@);
    true
}

fn html_block_tag(b: &[u8], start: usize, end: usize) -> (r: bool)
    requires
        start <= end <= b@.len(),
    ensures
        r == spec_is_block_tag(b@, start as int, end as int),
{
    let names = block_tag_names();
    let ghost target = spec_lower_range(b@, start as int, end as int);
    let mut k: usize = 0;
    while k < names.len()
        invariant
            names@.len() == spec_block_tag_names().len(),
            forall|j: int| 0 <= j < names@.len() ==> (#[trigger] names@[j])@ == spec_block_tag_names()[j],
            k <= names@.len(),
            start <= end <= b@.len(),
            target == spec_lower_range(b@, start as int, end as int),
            forall|j: int| 0 <= j < k ==> spec_block_tag_names()[j] != target,
        decreases names@.len() - k,
    {
        if lower_range_equals(b, start, end, names[k].as_slice()) {
            assert(spec_block_tag_names()[k as int] == target);
            return true;
        }
        k = k + 1;
    }
    assert(!spec_block_tag_names().contains(target));
    false
}

/// Whether `b[start..end]` opens with a block-level tag: `<` or `</`, a
/// block-level tag name, then the end, whitespace, `>` or `/>`.
pub open spec fn spec_block_tag_start(b: Seq<u8>, start: int, end: int) -> bool {
    let c0 = if start + 1 < end && b[start + 1] == 47u8 {
        start + 2
    } else {
        start + 1
    };
    let ne = spec_name_end(b, c0 + 1, end);
    &&& start < end && b[start] == 60u8
    &&& c0 < end && spec_is_ascii_alpha(b[c0])
    &&& spec_is_block_tag(b, c0, ne)
    &&& (ne == end || b[ne] == 32u8 || b[ne] == 9u8 || b[ne] == 10u8 || b[ne] == 13u8 || b[ne] == 62u8 || (b[ne]
        == 47u8 && ne + 1 < end && b[ne + 1] == 62u8))
}

fn html_block_tag_start(b: &[u8], start: usize, end: usize) -> (r: bool)
    requires
        start <= end <= b@.len(),
    ensures
        r == spec_block_tag_start(b@, start as int, end as int),
{
    if !(start < end && b[start] == 60u8) {
        return false;
    }
    let c0 = if end - start > 1 && b[start + 1] == 47u8 {
        start + 2
    } else {
        start + 1
    };
    if !(c0 < end && is_ascii_alpha(b[c0])) {
        return false;
    }
    let ne = name_end(b, c0 + 1, end);
    if !html_block_tag(b, c0, ne) {
        return false;
    }
    ne == end || b[ne] == 32u8 || b[ne] == 9u8 || b[ne] == 10u8 || b[ne] == 13u8 || b[ne] == 62u8 || (b[ne] == 47u8
        && end - ne > 1 && b[ne + 1] == 62u8)
}

/// `<!` followed by an ASCII letter.
pub open spec fn spec_declaration_start(b: Seq<u8>, start: int, end: int) -> bool {
    start + 2 < end && b[start] == 60u8 && b[start + 1] == 33u8 && spec_is_ascii_alpha(b[start + 2])
}

pub(crate) fn is_declaration_start(b: &[u8], start: usize, end: usize) -> (r: bool)
    requires
        start <= end <= b@.len(),
    ensures
        r == spec_declaration_start(b@, start as int, end as int),
{
    end - start > 2 && b[start] == 60u8 && b[start + 1] == 33u8 && is_ascii_alpha(b[start + 2])
}

// ---------------------------------------------------------------------------
// HTML tags.
// ---------------------------------------------------------------------------

/// Whether `c` is a space, tab or line break (skipped inside tags).
pub open spec fn spec_tag_space(c: u8) -> bool {
    c == 32u8 || c == 9u8 || c == 10u8 || c == 13u8
}

/// Where the run of tag spaces from `k` ends, not past `end`.
pub open spec fn spec_tag_space_end(b: Seq<u8>, k: int, end: int) -> int
    decreases end - k,
{
    if 0 <= k < end && spec_tag_space(b[k]) {
        spec_tag_space_end(b, k + 1, end)
    } else {
        k
    }
}

/// A byte of an HTML attribute name after its first: ASCII letters, digits,
/// `_`, `:`, `.`, `-`.
pub open spec fn spec_attr_name_byte(c: u8) -> bool {
    spec_is_ascii_alnum(c) || c == 95u8 || c == 58u8 || c == 46u8 || c == 45u8
}

/// Where the run of attribute-name bytes from `k` ends, not past `end`.
pub open spec fn spec_attr_name_end(b: Seq<u8>, k: int, end: int) -> int
    decreases end - k,
{
    if 0 <= k < end && spec_attr_name_byte(b[k]) {
        spec_attr_name_end(b, k + 1, end)
    } else {
        k
    }
}

/// The runs stay between their start and `end`.
pub proof fn lemma_tag_runs(b: Seq<u8>, k: int, end: int)
    requires
        0 <= k <= end,
    ensures
        k <= spec_tag_space_end(b, k, end) <= end,
        k <= spec_attr_name_end(b, k, end) <= end,
        k <= spec_unquoted_end(b, k, end) <= end,
    decreases end - k,
{
    if k < end {
        lemma_tag_runs(b, k + 1, end);
    }
}

/// An attribute value lies after its start, within `end`.
pub proof fn lemma_attribute_value_bounds(b: Seq<u8>, k: int, end: int)
    requires
        0 <= k <= end <= b.len(),
        end <= usize::MAX,
    ensures
        spec_html_attribute_value(b, k, end) matches Some(e) ==> k < e <= end,
{
    lemma_tag_runs(b, k, end);
    if k < end && (b[k] == 34u8 || b[k] == 39u8) {
        crate::literal_autolink::lemma_find_byte_bounds(b.subrange(0, end), k + 1, b[k]);
    }
}

/// The attributes of an open tag from `cursor` up to its end: each after
/// white space, a name, then optionally `=` and a value; `>` or `/>` ends the
/// tag. Where the tag ends.
pub open spec fn spec_tag_attrs(b: Seq<u8>, cursor: int, end: int) -> Option<usize>
    decreases end - cursor,
{
    if cursor < 0 || cursor >= end || end > b.len() || end > usize::MAX {
        None
    } else {
        proof {
            lemma_tag_runs(b, cursor, end);
        }
        let s1 = spec_tag_space_end(b, cursor, end);
        if s1 >= end {
            None
        } else if b[s1] == 62u8 {
            Some((s1 + 1) as usize)
        } else if b[s1] == 47u8 {
            if s1 + 1 < end && b[s1 + 1] == 62u8 {
                Some((s1 + 2) as usize)
            } else {
                None
            }
        } else if !(s1 > cursor && (spec_is_ascii_alpha(b[s1]) || b[s1] == 95u8 || b[s1] == 58u8)) {
            None
        } else {
            proof {
                lemma_tag_runs(b, s1 + 1, end);
            }
            let an = spec_attr_name_end(b, s1 + 1, end);
            proof {
                lemma_tag_runs(b, an, end);
            }
            let sp = spec_tag_space_end(b, an, end);
            if sp < end && b[sp] == 61u8 {
                proof {
                    lemma_tag_runs(b, sp + 1, end);
                    lemma_attribute_value_bounds(b, spec_tag_space_end(b, sp + 1, end), end);
                }
                match spec_html_attribute_value(b, spec_tag_space_end(b, sp + 1, end), end) {
                    Some(e) => spec_tag_attrs(b, e as int, end),
                    None => None,
                }
            } else {
                spec_tag_attrs(b, an, end)
            }
        }
    }
}

/// An HTML open or close tag at `k` within `b[..end]`: where it ends.
pub open spec fn spec_html_tag(b: Seq<u8>, k: int, end: int) -> Option<usize> {
    if !(0 <= k < end && b[k] == 60u8) {
        None
    } else {
        let closing = k + 1 < end && b[k + 1] == 47u8;
        let ns = if closing {
            k + 2
        } else {
            k + 1
        };
        if !(ns < end && spec_is_ascii_alpha(b[ns])) {
            None
        } else {
            let ce = spec_name_end(b, ns + 1, end);
            if closing {
                let sp = spec_tag_space_end(b, ce, end);
                if sp < end && b[sp] == 62u8 {
                    Some((sp + 1) as usize)
                } else {
                    None
                }
            } else {
                spec_tag_attrs(b, ce, end)
            }
        }
    }
}

fn skip_spaces(b: &[u8], k: usize, end: usize) -> (r: usize)
    requires
        k <= end <= b@.len(),
    ensures
        k <= r <= end,
        r == spec_tag_space_end(b@, k as int, end as int),
        forall|j: int| k <= j < r ==> spec_tag_space(#[trigger] b@[j]),
        r < end ==> !spec_tag_space(b@[r as int]),
{
    let mut i = k;
    while i < end && (b[i] == 32u8 || b[i] == 9u8 || b[i] == 10u8 || b[i] == 13u8)
        invariant
            k <= i <= end <= b@.len(),
            forall|j: int| k <= j < i ==> spec_tag_space(#[trigger] b@[j]),
            spec_tag_space_end(b@, i as int, end as int) == spec_tag_space_end(b@, k as int, end as int),
        decreases end - i,
    {
        i = i + 1;
    }
    i
}

/// A byte that ends an unquoted attribute value: white space, a quote, `=`,
/// `<`, `>` or a backtick.
pub open spec fn spec_unquoted_stop(c: u8) -> bool {
    c == 32u8 || c == 9u8 || c == 10u8 || c == 12u8 || c == 13u8 || c == 34u8 || c == 39u8 || c == 61u8 || c == 60u8
        || c == 62u8 || c == 96u8
}

/// Where the run of bytes from `i` that do not end an unquoted value ends.
pub open spec fn spec_unquoted_end(b: Seq<u8>, i: int, end: int) -> int
    decreases end - i,
{
    if 0 <= i < end && !spec_unquoted_stop(b[i]) {
        spec_unquoted_end(b, i + 1, end)
    } else {
        i
    }
}

/// An HTML attribute value at `k` within `b[..end]`: quoted up to the same
/// quote, or unquoted and non-empty. Where it ends.
pub open spec fn spec_html_attribute_value(b: Seq<u8>, k: int, end: int) -> Option<usize> {
    if k >= end {
        None
    } else if b[k] == 34u8 || b[k] == 39u8 {
        match crate::links::spec_find_byte(b.subrange(0, end), k + 1, b[k]) {
            Some(q) => Some((q + 1) as usize),
            None => None,
        }
    } else if b[k] == 61u8 || b[k] == 60u8 || b[k] == 62u8 || b[k] == 96u8 {
        None
    } else {
        let e = spec_unquoted_end(b, k, end);
        if e == k {
            None
        } else {
            Some(e as usize)
        }
    }
}

fn parse_html_attribute_value(b: &[u8], k: usize, end: usize) -> (r: Option<usize>)
    requires
        k <= end <= b@.len(),
    ensures
        r matches Some(e) ==> k < e <= end,
        r == spec_html_attribute_value(b@, k as int, end as int),
{
    if k >= end {
        return None;
    }
    let c = b[k];
    if c == 34u8 || c == 39u8 {
        let mut i = k + 1;
        proof {
            crate::literal_autolink::lemma_find_byte_bounds(b@.subrange(0, end as int), k + 1, c);
        }
        while i < end
            invariant
                k < i <= end <= b@.len(),
                c == b@[k as int],
                c == 34u8 || c == 39u8,
                crate::links::spec_find_byte(b@.subrange(0, end as int), i as int, c) == crate::links::spec_find_byte(
                    b@.subrange(0, end as int),
                    k + 1,
                    c,
                ),
            decreases end - i,
        {
            if b[i] == c {
                assert(b@.subrange(0, end as int)[i as int] == b@[i as int]);
                return Some(i + 1);
            }
            i = i + 1;
        }
        return None;
    }
    if c == 61u8 || c == 60u8 || c == 62u8 || c == 96u8 {
        return None;
    }
    let mut i = k;
    while i < end && !(b[i] == 32u8 || b[i] == 9u8 || b[i] == 10u8 || b[i] == 12u8 || b[i] == 13u8 || b[i] == 34u8
        || b[i] == 39u8 || b[i] == 61u8 || b[i] == 60u8 || b[i] == 62u8 || b[i] == 96u8)
        invariant
            k <= i <= end <= b@.len(),
            spec_unquoted_end(b@, i as int, end as int) == spec_unquoted_end(b@, k as int, end as int),
        decreases end - i,
    {
        i = i + 1;
    }
    if i == k {
        None
    } else {
        Some(i)
    }
}

/// Parses an HTML open or close tag at `k`, returning where it ends.
pub(crate) fn parse_html_tag(b: &[u8], k: usize, end: usize) -> (r: Option<usize>)
    requires
        k <= end <= b@.len(),
    ensures
        r matches Some(e) ==> k < e <= end && b@[e - 1] == 62u8,
        r == spec_html_tag(b@, k as int, end as int),
{
    if !(k < end && b[k] == 60u8) {
        return None;
    }
    let closing = end - k > 1 && b[k + 1] == 47u8;
    let name_start = if closing {
        k + 2
    } else {
        k + 1
    };
    if !(name_start < end && is_ascii_alpha(b[name_start])) {
        return None;
    }
    let mut cursor = name_end(b, name_start + 1, end);
    if closing {
        cursor = skip_spaces(b, cursor, end);
        if cursor < end && b[cursor] == 62u8 {
            return Some(cursor + 1);
        }
        return None;
    }
    let ghost total = spec_tag_attrs(b@, cursor as int, end as int);
    assert(total == spec_html_tag(b@, k as int, end as int));
    while cursor < end
        invariant
            k < cursor <= end <= b@.len(),
            spec_tag_attrs(b@, cursor as int, end as int) == total,
            total == spec_html_tag(b@, k as int, end as int),
        decreases end - cursor,
    {
        let before = cursor;
        let ghost at_top = cursor;
        cursor = skip_spaces(b, cursor, end);
        let had_space = cursor > before;
        if cursor >= end {
            return None;
        }
        let c = b[cursor];
        if c == 62u8 {
            return Some(cursor + 1);
        }
        if c == 47u8 {
            if end - cursor > 1 && b[cursor + 1] == 62u8 {
                return Some(cursor + 2);
            }
            return None;
        }
        if !(had_space && (is_ascii_alpha(c) || c == 95u8 || c == 58u8)) {
            return None;
        }
        let ghost at_name = cursor as int;
        cursor = cursor + 1;
        while cursor < end && (is_ascii_alnum(b[cursor]) || b[cursor] == 95u8 || b[cursor] == 58u8 || b[cursor]
            == 46u8 || b[cursor] == 45u8)
            invariant
                k < cursor <= end <= b@.len(),
                cursor > at_top,
                spec_attr_name_end(b@, cursor as int, end as int) == spec_attr_name_end(b@, at_name + 1, end as int),
            decreases end - cursor,
        {
            cursor = cursor + 1;
        }
        let after_name = cursor;
        let after_spaces = skip_spaces(b, cursor, end);
        if after_spaces < end && b[after_spaces] == 61u8 {
            let v = skip_spaces(b, after_spaces + 1, end);
            match parse_html_attribute_value(b, v, end) {
                Some(e) => {
                    cursor = e;
                },
                None => {
                    return None;
                },
            }
        } else {
            cursor = after_name;
        }
    }
    None
}

/// The kind of HTML block that starts at `start` on the line ending at `end`
/// (see [`html_block_start`]).
pub open spec fn spec_html_block_start(b: Seq<u8>, start: int, end: int) -> Option<HtmlBlockKind> {
    let t = spec_trim_end(b, start, end);
    if !(start < t && b[start] == 60u8) {
        None
    } else if spec_raw_tag_start(b, start, t) {
        Some(HtmlBlockKind::RawTag)
    } else if spec_starts_with_at(b, start, seq![60u8, 33u8, 45u8, 45u8]) && t - start >= 4 {
        Some(HtmlBlockKind::Comment)
    } else if spec_starts_with_at(b, start, seq![60u8, 63u8]) && t - start >= 2 {
        Some(HtmlBlockKind::Processing)
    } else if spec_declaration_start(b, start, t) {
        Some(HtmlBlockKind::Declaration)
    } else if t - start >= 9 && spec_starts_with_at(b, start, seq![60u8, 33u8, 91u8, 67u8, 68u8, 65u8, 84u8, 65u8, 91u8]) {
        Some(HtmlBlockKind::Cdata)
    } else if spec_block_tag_start(b, start, t) {
        Some(HtmlBlockKind::BlockTag)
    } else {
        match spec_html_tag(b, start, t) {
            Some(e) => if crate::mdx::spec_skip_ws_within(b, e as int, t) == t {
                Some(HtmlBlockKind::UntilBlank)
            } else {
                None
            },
            None => None,
        }
    }
}

/// How an HTML block starting on the (indent-trimmed) line `b[start..end]`
/// ends, or `None` when the line does not start one.
pub fn html_block_start(b: &[u8], start: usize, end: usize) -> (r: Option<HtmlBlockKind>)
    requires
        start <= end <= b@.len(),
    ensures
        r is Some ==> start < end && b@[start as int] == 60u8,
        r == Some(HtmlBlockKind::RawTag) <==> (start < end && b@[start as int] == 60u8 && spec_raw_tag_start(
            b@,
            start as int,
            spec_trim_end(b@, start as int, end as int),
        )),
        r == spec_html_block_start(b@, start as int, end as int),
{
    let t = trim_end(b, start, end);
    if !(start < t && b[start] == 60u8) {
        return None;
    }
    if raw_html_tag_start(b, start, t) {
        return Some(HtmlBlockKind::RawTag);
    }
    if starts_with_at(b, start, &[60u8, 33u8, 45u8, 45u8]) && t - start >= 4 {
        return Some(HtmlBlockKind::Comment);
    }
    if starts_with_at(b, start, &[60u8, 63u8]) && t - start >= 2 {
        return Some(HtmlBlockKind::Processing);
    }
    if is_declaration_start(b, start, t) {
        return Some(HtmlBlockKind::Declaration);
    }
    if t - start >= 9 && starts_with_at(b, start, &[60u8, 33u8, 91u8, 67u8, 68u8, 65u8, 84u8, 65u8, 91u8]) {
        return Some(HtmlBlockKind::Cdata);
    }
    if html_block_tag_start(b, start, t) {
        return Some(HtmlBlockKind::BlockTag);
    }
    match parse_html_tag(b, start, t) {
        Some(e) => {
            let rest = skip_all_ws(b, e, t);
            if rest == t {
                Some(HtmlBlockKind::UntilBlank)
            } else {
                None
            }
        },
        None => None,
    }
}

/// The first index in `[k, end)` that does not start a whitespace scalar fitting before `end`.
pub fn skip_all_ws(b: &[u8], k: usize, end: usize) -> (r: usize)
    requires
        k <= end <= b@.len(),
    ensures
        k <= r <= end,
        r == crate::mdx::spec_skip_ws_within(b@, k as int, end as int),
{
    let mut i = k;
    while i < end
        invariant
            k <= i <= end <= b@.len(),
            crate::mdx::spec_skip_ws_within(b@, i as int, end as int) == crate::mdx::spec_skip_ws_within(
                b@,
                k as int,
                end as int,
            ),
        ensures
            crate::mdx::spec_skip_ws_within(b@, i as int, end as int) == i,
            crate::mdx::spec_skip_ws_within(b@, k as int, end as int) == i,
            k <= i <= end,
        decreases end - i,
    {
        let w = whitespace_len_at(b, i);
        if w == 0 || end - i < w {
            break;
        }
        i = i + w;
    }
    i
}

/// Whether an HTML block starts on the line `b[start..end]` after at most
/// three columns of indentation.
pub open spec fn spec_line_starts_html_block(b: Seq<u8>, start: int, end: int) -> bool {
    match spec_trim_up_to_three(b.subrange(start, end)) {
        Some(o) => spec_html_block_start(b, start + o, end) is Some,
        None => false,
    }
}

/// Whether the line `b[start..end]` starts an HTML block: at most three columns
/// of indentation, then a start `html_block_start` accepts.
pub fn line_starts_html_block(b: &[u8], start: usize, end: usize) -> (r: bool)
    requires
        start <= end <= b@.len(),
    ensures
        r ==> spec_trim_up_to_three(b@.subrange(start as int, end as int)) is Some,
        r == spec_line_starts_html_block(b@, start as int, end as int),
{
    match trim_up_to_three_spaces(b, start, end) {
        Some(k) => html_block_start(b, k, end).is_some(),
        None => false,
    }
}

// ---------------------------------------------------------------------------
// List markers.
// ---------------------------------------------------------------------------

/// Whether `k` is the end of `b[..end]` or holds a space or tab.
pub open spec fn spec_list_padding(b: Seq<u8>, k: int, end: int) -> bool {
    k >= end || b[k] == 32u8 || b[k] == 9u8
}

/// Whether the content `b[k..end]` (after indentation) begins with a list
/// marker: `-`, `*` or `+`, or one to nine digits and `.` or `)`; then the end,
/// a space or a tab.
pub open spec fn spec_list_marker_at(b: Seq<u8>, k: int, end: int) -> bool {
    if k >= end {
        false
    } else if b[k] == 45u8 || b[k] == 42u8 || b[k] == 43u8 {
        spec_list_padding(b, k + 1, end)
    } else if spec_is_ascii_digit(b[k]) {
        let d = spec_digit_run(b, k, end);
        d <= 9 && k + d < end && (b[k + d] == 46u8 || b[k + d] == 41u8) && spec_list_padding(b, k + d + 1, end)
    } else {
        false
    }
}

/// The length of the run of ASCII digits at `k` (before `end`).
pub open spec fn spec_digit_run(b: Seq<u8>, k: int, end: int) -> nat
    decreases end - k,
{
    if 0 <= k < end && k < b.len() && spec_is_ascii_digit(b[k]) {
        1 + spec_digit_run(b, k + 1, end)
    } else {
        0
    }
}

fn digit_run(b: &[u8], k: usize, end: usize) -> (r: usize)
    requires
        k <= end <= b@.len(),
    ensures
        r == spec_digit_run(b@, k as int, end as int),
        k + r <= end,
    decreases end - k,
{
    if k < end && is_ascii_digit(b[k]) {
        1 + digit_run(b, k + 1, end)
    } else {
        0
    }
}

/// Whether the line `b[start..end]` starts with a list marker.
pub open spec fn spec_is_list_marker_line(b: Seq<u8>, start: int, end: int) -> bool {
    match spec_trim_up_to_three(b.subrange(start, end)) {
        Some(k) => spec_list_marker_at(b, start + k, end),
        None => false,
    }
}

pub fn is_list_marker_line(b: &[u8], start: usize, end: usize) -> (r: bool)
    requires
        start <= end <= b@.len(),
    ensures
        r == spec_is_list_marker_line(b@, start as int, end as int),
{
    let k = match trim_up_to_three_spaces(b, start, end) {
        Some(k) => k,
        None => {
            return false;
        },
    };
    if k >= end {
        return false;
    }
    let c = b[k];
    if c == 45u8 || c == 42u8 || c == 43u8 {
        return k + 1 >= end || b[k + 1] == 32u8 || b[k + 1] == 9u8;
    }
    if !is_ascii_digit(c) {
        return false;
    }
    let d = digit_run(b, k, end);
    d <= 9 && k + d < end && (b[k + d] == 46u8 || b[k + d] == 41u8) && (k + d + 1 >= end || b[k + d + 1] == 32u8
        || b[k + d + 1] == 9u8)
}

// ---------------------------------------------------------------------------
// GFM table rows.
// ---------------------------------------------------------------------------

/// Whether `b[start..end]` holds a `|` that no odd run of backslashes escapes.
pub open spec fn spec_has_unescaped_pipe(b: Seq<u8>, start: int, end: int) -> bool {
    exists|p: int| start <= p < end && #[trigger] b[p] == 124u8 && !spec_is_escaped_at(b.subrange(start, end), p - start)
}

fn contains_plain_unescaped_pipe(b: &[u8], start: usize, end: usize) -> (r: bool)
    requires
        start <= end <= b@.len(),
    ensures
        r == spec_has_unescaped_pipe(b@, start as int, end as int),
{
    let line = copy_line(b, start, end);
    let mut p = start;
    while p < end
        invariant
            start <= p <= end <= b@.len(),
            line@ == b@.subrange(start as int, end as int),
            forall|q: int| start <= q < p ==> !(#[trigger] b@[q] == 124u8 && !spec_is_escaped_at(line@, q - start)),
        decreases end - p,
    {
        if b[p] == 124u8 && !is_escaped_at(line.as_slice(), p - start) {
            return true;
        }
        p = p + 1;
    }
    false
}

/// The length of the backtick run at `k` in `t`.
fn backtick_run(t: &[u8], k: usize) -> (r: usize)
    requires
        k <= t@.len(),
    ensures
        k + r <= t@.len(),
        k < t@.len() && t@[k as int] == 96u8 ==> r >= 1,
        r == spec_run_len(t@, k as int, 96u8),
{
    run_len(t, k, 96u8)
}

/// Whether a later backtick run in `t` has exactly `length` backticks (the run
/// of `length` at `start` is closed).
/// From `i` on, a backtick run of exactly `length` comes.
pub open spec fn spec_backtick_close_from(t: Seq<u8>, i: int, length: nat) -> bool
    decreases t.len() - i,
{
    if i < 0 || i >= t.len() {
        false
    } else if t[i] == 96u8 {
        let run = spec_run_len(t, i, 96u8);
        if run == length {
            true
        } else if run == 0 || i + run > t.len() {
            false
        } else {
            spec_backtick_close_from(t, i + run, length)
        }
    } else {
        spec_backtick_close_from(t, i + 1, length)
    }
}

fn backtick_run_has_close(t: &[u8], start: usize, length: usize) -> (r: bool)
    requires
        start + length <= t@.len(),
    ensures
        r == spec_backtick_close_from(t@, start + length, length as nat),
{
    let n = t.len();
    let mut i = start + length;
    while i < n
        invariant
            i <= n == t@.len(),
            start + length <= i,
            spec_backtick_close_from(t@, i as int, length as nat) == spec_backtick_close_from(
                t@,
                start + length,
                length as nat,
            ),
        decreases n - i,
    {
        if t[i] == 96u8 {
            let run = backtick_run(t, i);
            if run == length {
                return true;
            }
            i = i + run;
        } else {
            i = i + 1;
        }
    }
    false
}

/// Whether the `||` at `cursor` closes an open spoiler (`Some(false)`) or
/// opens one that closes later on the line (`Some(true)`).
pub open spec fn spec_spoiler_toggle(t: Seq<u8>, cursor: int, spoiler_open: bool) -> Option<bool> {
    let closes = spoiler_open && !(cursor > 0 && t[cursor - 1] == 124u8);
    let opens = !spoiler_open && !(cursor + 2 < t.len() && t[cursor + 2] == 124u8)
        && crate::delimited::spec_spoiler_close_scan(t, cursor + 2, cursor + 2) is Some;
    if closes || opens {
        Some(opens)
    } else {
        None
    }
}

/// What a `||` at `cursor` of the trimmed row `t` does to an open spoiler, when
/// spoilers are on, no code span is open and no backslash escapes it: `Some`
/// with the new spoiler state when it closes the open spoiler or opens one
/// that closes later.
fn spoiler_toggle(t: &[u8], cursor: usize, spoiler_open: bool) -> (r: Option<bool>)
    requires
        cursor + 1 < t@.len(),
    ensures
        r == spec_spoiler_toggle(t@, cursor as int, spoiler_open),
{
    let closes = spoiler_open && !(cursor > 0 && t[cursor - 1] == 124u8);
    let opens = !spoiler_open && !(t.len() - cursor > 2 && t[cursor + 2] == 124u8)
        && crate::delimited::find_spoiler_close(t, cursor + 2).is_some();
    if closes || opens {
        Some(opens)
    } else {
        None
    }
}

/// Whether the spoiler-aware scan of `t` from `cursor` meets a `|` that would
/// split the row: not escaped, not in a code span, not inside a spoiler, and
/// not a spoiler delimiter.
pub open spec fn spec_pipe_scan(t: Seq<u8>, cursor: int, fence: Option<usize>, open: bool) -> bool
    decreases t.len() - cursor,
{
    if cursor < 0 || cursor >= t.len() {
        false
    } else {
        let n = t.len() as int;
        let c = t[cursor];
        let pipe_run = spec_backslash_pipe(t, cursor, n);
        let doubled = c == 124u8 && n - cursor > 1 && t[cursor + 1] == 124u8;
        if c == 92u8 && pipe_run is Some {
            let (pipe_at, escaped) = pipe_run->0;
            let pipe = pipe_at as int;
            if pipe <= cursor {
                false
            } else if escaped {
                spec_pipe_scan(t, pipe + 1, fence, open)
            } else {
                spec_pipe_scan(t, pipe, fence, open)
            }
        } else if c == 96u8 {
            let length = spec_run_len(t, cursor, 96u8);
            let next_fence = if fence == Some(length as usize) {
                None
            } else if fence is None {
                Some(length as usize)
            } else {
                fence
            };
            if length < 1 || cursor + length > n {
                false
            } else {
                spec_pipe_scan(t, cursor + length, next_fence, open)
            }
        } else if doubled && fence is Some {
            spec_pipe_scan(t, cursor + 2, fence, open)
        } else if doubled && !spec_is_escaped_at(t, cursor) && spec_spoiler_toggle(t, cursor, open) is Some {
            spec_pipe_scan(t, cursor + 2, fence, spec_spoiler_toggle(t, cursor, open)->0)
        } else if c == 124u8 && !open && !spec_is_escaped_at(t, cursor) {
            true
        } else {
            let w = crate::text::spec_char_len_at(t, cursor);
            if w < 1 {
                false
            } else {
                spec_pipe_scan(t, cursor + w, fence, open)
            }
        }
    }
}

/// Whether the row `b[start..end]` holds a cell-delimiting `|`: one that no
/// odd run of backslashes escapes and, with spoilers on, that is not part of a
/// `||` spoiler marker (or inside a spoiler).
fn contains_unescaped_pipe(b: &[u8], start: usize, end: usize, spoiler: bool) -> (r: bool)
    requires
        start <= end <= b@.len(),
    ensures
        !spoiler ==> r == spec_has_unescaped_pipe(b@, start as int, end as int),
        spoiler ==> r == spec_pipe_scan(b@.subrange(start as int, end as int), 0, None, false),
{
    if !spoiler {
        return contains_plain_unescaped_pipe(b, start, end);
    }
    let line = copy_line(b, start, end);
    let t = line.as_slice();
    let n = t.len();
    let mut cursor: usize = 0;
    let mut code_fence: Option<usize> = None;
    let mut spoiler_open = false;
    while cursor < n
        invariant
            n == t@.len(),
            cursor <= n,
            spoiler,
            t@ == b@.subrange(start as int, end as int),
            spec_pipe_scan(t@, cursor as int, code_fence, spoiler_open) == spec_pipe_scan(t@, 0, None, false),
        decreases n - cursor,
    {
        let c = t[cursor];
        if c == 92u8 {
            match table_backslash_pipe_run(t, cursor, n) {
                Some((pipe, escaped)) => {
                    cursor = if escaped {
                        pipe + 1
                    } else {
                        pipe
                    };
                    continue;
                },
                None => {},
            }
        }
        if c == 96u8 {
            let length = backtick_run(t, cursor);
            if code_fence == Some(length) {
                code_fence = None;
            } else if code_fence.is_none() {
                code_fence = Some(length);
            }
            cursor = cursor + length;
            continue;
        }
        if c == 124u8 && n - cursor > 1 && t[cursor + 1] == 124u8 {
            if code_fence.is_some() {
                cursor = cursor + 2;
                continue;
            }
            if !is_escaped_at(t, cursor) {
                match spoiler_toggle(t, cursor, spoiler_open) {
                    Some(open) => {
                        spoiler_open = open;
                        cursor = cursor + 2;
                        continue;
                    },
                    None => {},
                }
            }
        }
        if c == 124u8 && !spoiler_open && !is_escaped_at(t, cursor) {
            return true;
        }
        let w = crate::text::char_len_at(t, cursor);
        cursor = cursor + w;
    }
    false
}

fn copy_line(b: &[u8], start: usize, end: usize) -> (r: Vec<u8>)
    requires
        start <= end <= b@.len(),
    ensures
        r@ == b@.subrange(start as int, end as int),
{
    crate::text::copy_range(b, start, end)
}

/// The alignment that a delimiter cell `b[start..end]` (trimmed) spells:
/// `:?-+:?`, or `None` when it is not a delimiter cell.
pub open spec fn spec_delimiter_alignment(b: Seq<u8>, start: int, end: int) -> Option<TableAlignment> {
    let left = start < end && b[start] == 58u8;
    let d0 = if left {
        start + 1
    } else {
        start
    };
    let d = spec_run_len(b.subrange(0, end), d0, 45u8) as int;
    let after = d0 + d;
    let right = after < end && b[after] == 58u8;
    let fin = if right {
        after + 1
    } else {
        after
    };
    if d == 0 || fin != end {
        None
    } else if left && right {
        Some(TableAlignment::Center)
    } else if left {
        Some(TableAlignment::Left)
    } else if right {
        Some(TableAlignment::Right)
    } else {
        Some(TableAlignment::Unaligned)
    }
}

fn table_delimiter_alignment(b: &[u8], start: usize, end: usize) -> (r: Option<TableAlignment>)
    requires
        start <= end <= b@.len(),
    ensures
        r == spec_delimiter_alignment(b@, start as int, end as int),
{
    let prefix = copy_line(b, 0, end);
    let left = start < end && b[start] == 58u8;
    let d0 = if left {
        start + 1
    } else {
        start
    };
    let d = run_len(prefix.as_slice(), d0, 45u8);
    let after = d0 + d;
    let right = after < end && b[after] == 58u8;
    let fin = if right {
        after + 1
    } else {
        after
    };
    if d == 0 || fin != end {
        None
    } else if left && right {
        Some(TableAlignment::Center)
    } else if left {
        Some(TableAlignment::Left)
    } else if right {
        Some(TableAlignment::Right)
    } else {
        Some(TableAlignment::Unaligned)
    }
}

/// The end of the run of backslashes at `cursor` if a `|` follows it, and
/// whether the run is odd (the pipe escaped).
/// Where the run of backslashes from `i` ends, not past `end`.
pub open spec fn spec_backslash_run_end(b: Seq<u8>, i: int, end: int) -> int
    decreases end - i,
{
    if 0 <= i < end && b[i] == 92u8 {
        spec_backslash_run_end(b, i + 1, end)
    } else {
        i
    }
}

/// A run of backslashes at `cursor` that ends at a `|` before `end`: where the
/// pipe is, and whether the run escapes it (an odd count).
pub open spec fn spec_backslash_pipe(b: Seq<u8>, cursor: int, end: int) -> Option<(usize, bool)> {
    if cursor < end && b[cursor] == 92u8 {
        let p = spec_backslash_run_end(b, cursor, end);
        if p < end && b[p] == 124u8 && p > cursor {
            Some((p as usize, (p - cursor) % 2 == 1))
        } else {
            None
        }
    } else {
        None
    }
}

fn table_backslash_pipe_run(b: &[u8], cursor: usize, end: usize) -> (r: Option<(usize, bool)>)
    requires
        cursor <= end <= b@.len(),
    ensures
        r matches Some(x) ==> cursor < x.0 < end && b@[x.0 as int] == 124u8,
        r == spec_backslash_pipe(b@, cursor as int, end as int),
{
    if !(cursor < end && b[cursor] == 92u8) {
        return None;
    }
    let mut pipe = cursor;
    while pipe < end && b[pipe] == 92u8
        invariant
            cursor <= pipe <= end <= b@.len(),
            spec_backslash_run_end(b@, pipe as int, end as int) == spec_backslash_run_end(b@, cursor as int, end as int),
        decreases end - pipe,
    {
        pipe = pipe + 1;
    }
    if pipe < end && b[pipe] == 124u8 && pipe > cursor {
        Some((pipe, (pipe - cursor) % 2 == 1))
    } else {
        None
    }
}

/// `count` backslashes.
pub open spec fn spec_backslashes(count: int) -> Seq<u8> {
    Seq::new(count as nat, |i: int| 92u8)
}

/// The scan of a trimmed table row `t` from `cursor`: the cells closed so far,
/// the cell being read, the open code span's fence, whether a spoiler is open,
/// and where the last cell delimiter ended. Gives the closed cells, the last
/// cell and the end of the last delimiter.
pub open spec fn spec_row_scan(
    t: Seq<u8>,
    spoiler: bool,
    cursor: int,
    cells: Seq<Seq<u8>>,
    cell: Seq<u8>,
    fence: Option<usize>,
    open: bool,
    trailing: Option<usize>,
) -> (Seq<Seq<u8>>, Seq<u8>, Option<usize>)
    decreases t.len() - cursor,
{
    if cursor < 0 || cursor >= t.len() {
        (cells, cell, trailing)
    } else {
        let n = t.len() as int;
        let c = t[cursor];
        let pipe_run = spec_backslash_pipe(t, cursor, n);
        let doubled = spoiler && c == 124u8 && n - cursor > 1 && t[cursor + 1] == 124u8;
        if c == 92u8 && pipe_run is Some {
            let (pipe_at, escaped) = pipe_run->0;
            let pipe = pipe_at as int;
            if pipe <= cursor {
                (cells, cell, trailing)
            } else if escaped {
                spec_row_scan(t, spoiler, pipe + 1, cells, cell + spec_backslashes(pipe - cursor - 1) + seq![124u8], fence, open, trailing)
            } else {
                spec_row_scan(t, spoiler, pipe, cells, cell + spec_backslashes(pipe - cursor), fence, open, trailing)
            }
        } else if c == 96u8 {
            let length = spec_run_len(t, cursor, 96u8);
            let next_fence = if fence == Some(length as usize) {
                None
            } else if fence is None && spec_backtick_close_from(t, cursor + length, length) {
                Some(length as usize)
            } else {
                fence
            };
            if length < 1 || cursor + length > n {
                (cells, cell, trailing)
            } else {
                spec_row_scan(t, spoiler, cursor + length, cells, cell + t.subrange(cursor, cursor + length), next_fence, open, trailing)
            }
        } else if doubled && fence is Some {
            spec_row_scan(t, spoiler, cursor + 2, cells, cell + seq![124u8, 124u8], fence, open, trailing)
        } else if doubled && !spec_is_escaped_at(t, cursor) && spec_spoiler_toggle(t, cursor, open) is Some {
            spec_row_scan(t, spoiler, cursor + 2, cells, cell + seq![124u8, 124u8], fence, spec_spoiler_toggle(t, cursor, open)->0, trailing)
        } else {
            let w = crate::text::spec_char_len_at(t, cursor);
            if w < 1 {
                (cells, cell, trailing)
            } else if c == 124u8 && !open && !spec_is_escaped_at(t, cursor) {
                spec_row_scan(t, spoiler, cursor + w, cells.push(cell), Seq::empty(), fence, false, Some((cursor + w) as usize))
            } else {
                spec_row_scan(t, spoiler, cursor + w, cells, cell + t.subrange(cursor, cursor + w), fence, open, trailing)
            }
        }
    }
}

/// The cells of the table row `b[start..end]` (see [`split_table_row`]).
pub open spec fn spec_split_row(b: Seq<u8>, start: int, end: int, spoiler: bool) -> Seq<Seq<u8>> {
    let s = crate::mdx::spec_skip_ws_within(b, start, end);
    let e = spec_trim_end(b, s, end);
    let t = b.subrange(s, e);
    let scan = spec_row_scan(t, spoiler, 0, Seq::empty(), Seq::empty(), None, false, None);
    let all = scan.0.push(scan.1);
    let a = if t.len() > 0 && t[0] == 124u8 && all.len() > 0 {
        all.subrange(1, all.len() as int)
    } else {
        all
    };
    match scan.2 {
        Some(x) => if crate::mdx::spec_skip_ws_within(t, x as int, t.len() as int) == t.len() && a.len() > 0 {
            a.drop_last()
        } else {
            a
        },
        None => a,
    }
}

/// Splits a table row `b[start..end]` into its cells: trimmed of whitespace,
/// split at each `|` that no backslash escapes, an odd backslash run before a
/// pipe losing one backslash to make the pipe literal; an opening border pipe
/// and a closing one (with only whitespace after it) make no cell. With
/// spoilers on, a `||` that opens a spoiler closing later in the row (or closes
/// the open one), or that sits in a code span, stays in its cell, and no pipe
/// splits a cell inside a spoiler.
pub fn split_table_row(b: &[u8], start: usize, end: usize, spoiler: bool) -> (r: Vec<Vec<u8>>)
    requires
        start <= end <= b@.len(),
    ensures
        r.deep_view() == spec_split_row(b@, start as int, end as int, spoiler),
{
    let s = skip_all_ws(b, start, end);
    let e = trim_end(b, s, end);
    let trimmed = copy_line(b, s, e);
    let t = trimmed.as_slice();
    let n = t.len();
    let mut cells: Vec<Vec<u8>> = Vec::new();
    let mut cell: Vec<u8> = Vec::new();
    let mut cursor: usize = 0;
    let mut code_fence: Option<usize> = None;
    let mut spoiler_open = false;
    let mut trailing_delimiter_end: Option<usize> = None;
    let ghost total = spec_row_scan(t@, spoiler, 0, Seq::empty(), Seq::empty(), None, false, None);
    proof {
        assert(cells.deep_view() =~= Seq::<Seq<u8>>::empty());
        assert(cell@ =~= Seq::<u8>::empty());
    }
    while cursor < n
        invariant
            n == t@.len(),
            cursor <= n,
            trailing_delimiter_end matches Some(x) ==> x <= n,
            spec_row_scan(t@, spoiler, cursor as int, cells.deep_view(), cell@, code_fence, spoiler_open, trailing_delimiter_end) == total,
        decreases n - cursor,
    {
        let c = t[cursor];
        if c == 92u8 {
            match table_backslash_pipe_run(t, cursor, n) {
                Some((pipe, escaped)) => {
                    let count = if escaped {
                        pipe - cursor - 1
                    } else {
                        pipe - cursor
                    };
                    let ghost cell0 = cell@;
                    let ghost target = if escaped {
                        cell0 + spec_backslashes(count as int) + seq![124u8]
                    } else {
                        cell0 + spec_backslashes(count as int)
                    };
                    let ghost next: int = if escaped {
                        pipe + 1
                    } else {
                        pipe as int
                    };
                    proof {
                        assert(total == spec_row_scan(t@, spoiler, next, cells.deep_view(), target, code_fence, spoiler_open, trailing_delimiter_end));
                    }
                    let mut k: usize = 0;
                    while k < count
                        invariant
                            k <= count,
                            cell@ == cell0 + spec_backslashes(k as int),
                        decreases count - k,
                    {
                        cell.push(92u8);
                        k = k + 1;
                        proof {
                            assert(cell@ =~= cell0 + spec_backslashes(k as int));
                        }
                    }
                    if escaped {
                        cell.push(124u8);
                        cursor = pipe + 1;
                    } else {
                        cursor = pipe;
                    }
                    proof {
                        assert(cell@ =~= target);
                    }
                    continue;
                },
                None => {},
            }
        }
        if c == 96u8 {
            let length = backtick_run(t, cursor);
            if code_fence == Some(length) {
                code_fence = None;
            } else if code_fence.is_none() && backtick_run_has_close(t, cursor, length) {
                code_fence = Some(length);
            }
            crate::text::push_range(&mut cell, t, cursor, cursor + length);
            cursor = cursor + length;
            continue;
        }
        if spoiler && c == 124u8 && n - cursor > 1 && t[cursor + 1] == 124u8 {
            if code_fence.is_some() {
                let ghost cell0 = cell@;
                cell.push(124u8);
                cell.push(124u8);
                proof {
                    assert(cell@ =~= cell0 + seq![124u8, 124u8]);
                }
                cursor = cursor + 2;
                continue;
            }
            if !is_escaped_at(t, cursor) {
                match spoiler_toggle(t, cursor, spoiler_open) {
                    Some(open) => {
                        let ghost cell0 = cell@;
                        spoiler_open = open;
                        cell.push(124u8);
                        cell.push(124u8);
                        proof {
                            assert(cell@ =~= cell0 + seq![124u8, 124u8]);
                        }
                        cursor = cursor + 2;
                        continue;
                    },
                    None => {},
                }
            }
        }
        let w = crate::text::char_len_at(t, cursor);
        if c == 124u8 && !spoiler_open && !is_escaped_at(t, cursor) {
            let ghost cells0 = cells.deep_view();
            let ghost cell0 = cell@;
            cells.push(cell);
            proof {
                assert(cells@[cells0.len() as int].deep_view() =~= cell0);
                assert(cells.deep_view() =~= cells0.push(cell0));
            }
            cell = Vec::new();
            proof {
                assert(cell@ =~= Seq::<u8>::empty());
            }
            spoiler_open = false;
            trailing_delimiter_end = Some(cursor + w);
        } else {
            crate::text::push_range(&mut cell, t, cursor, cursor + w);
        }
        cursor = cursor + w;
    }
    let ghost last = cell@;
    let ghost cells0 = cells.deep_view();
    assert(total == (cells0, last, trailing_delimiter_end));
    cells.push(cell);
    proof {
        assert(cells@[cells0.len() as int].deep_view() =~= last);
        assert(cells.deep_view() =~= total.0.push(last));
    }
    if n > 0 && t[0] == 124u8 && cells.len() > 0 {
        let ghost before = cells.deep_view();
        cells.remove(0);
        proof {
            assert(cells.deep_view() =~= before.subrange(1, before.len() as int));
        }
    }
    match trailing_delimiter_end {
        Some(x) => {
            if skip_all_ws(t, x, n) == n && cells.len() > 0 {
                let ghost before = cells.deep_view();
                cells.pop();
                proof {
                    assert(cells.deep_view() =~= before.drop_last());
                }
            }
        },
        None => {},
    }
    cells
}

/// The alignment that a delimiter row cell spells, once trimmed.
pub open spec fn spec_cell_alignment(cell: Seq<u8>) -> Option<TableAlignment> {
    let cs = crate::mdx::spec_skip_ws_within(cell, 0, cell.len() as int);
    let ce = spec_trim_end(cell, cs, cell.len() as int);
    spec_delimiter_alignment(cell, cs, ce)
}

/// Whether the cells of a row make a delimiter row: at least one, and each
/// spells an alignment.
pub open spec fn spec_delimiter_row_ok(cells: Seq<Seq<u8>>) -> bool {
    cells.len() > 0 && forall|k: int| 0 <= k < cells.len() ==> (#[trigger] spec_cell_alignment(cells[k])) is Some
}

/// The alignments of a delimiter row, or `None` when it has no cells or a cell
/// is not `:?-+:?`.
pub fn parse_table_delimiter(b: &[u8], start: usize, end: usize, spoiler: bool) -> (r: Option<Vec<TableAlignment>>)
    requires
        start <= end <= b@.len(),
    ensures
        r matches Some(v) ==> v@.len() > 0,
        r is Some <==> spec_delimiter_row_ok(spec_split_row(b@, start as int, end as int, spoiler)),
        r matches Some(v) ==> v@.len() == spec_split_row(b@, start as int, end as int, spoiler).len() && forall|k: int|
            0 <= k < v@.len() ==> Some(#[trigger] v@[k]) == spec_cell_alignment(
                spec_split_row(b@, start as int, end as int, spoiler)[k],
            ),
{
    let cells = split_table_row(b, start, end, spoiler);
    let ghost row = cells.deep_view();
    if cells.len() == 0 {
        return None;
    }
    let mut alignments: Vec<TableAlignment> = Vec::new();
    let mut k: usize = 0;
    while k < cells.len()
        invariant
            k <= cells@.len(),
            alignments@.len() == k,
            row == cells.deep_view(),
            row == spec_split_row(b@, start as int, end as int, spoiler),
            row.len() > 0,
            forall|j: int| 0 <= j < k ==> Some(#[trigger] alignments@[j]) == spec_cell_alignment(row[j]),
        decreases cells@.len() - k,
    {
        proof {
            assert(cells@[k as int]@ =~= row[k as int]);
        }
        let cell = cells[k].as_slice();
        let cs = skip_all_ws(cell, 0, cell.len());
        let ce = trim_end(cell, cs, cell.len());
        match table_delimiter_alignment(cell, cs, ce) {
            Some(a) => alignments.push(a),
            None => {
                proof {
                    assert(spec_cell_alignment(row[k as int]) is None);
                }
                return None;
            },
        }
        k = k + 1;
    }
    proof {
        assert forall|j: int| 0 <= j < row.len() implies (#[trigger] spec_cell_alignment(row[j])) is Some by {
            assert(Some(alignments@[j]) == spec_cell_alignment(row[j]));
        }
    }
    Some(alignments)
}

/// Whether `b[start..end]` holds a `|` that splits a row (see
/// [`contains_unescaped_pipe`]).
pub open spec fn spec_row_has_pipe(b: Seq<u8>, start: int, end: int, spoiler: bool) -> bool {
    if spoiler {
        spec_pipe_scan(b.subrange(start, end), 0, None, false)
    } else {
        spec_has_unescaped_pipe(b, start, end)
    }
}

/// Whether a delimiter row is told apart from a paragraph line: it is not a
/// delimiter row at all, or has several cells, or one of the two lines shows
/// a splitting pipe, or the delimiter shows a colon.
pub open spec fn spec_table_has_separator(b: Seq<u8>, hs: int, he: int, d: Seq<u8>, ds: int, de: int, spoiler: bool) -> bool {
    let row = spec_split_row(d, ds, de, spoiler);
    !spec_delimiter_row_ok(row) || row.len() != 1 || spec_row_has_pipe(b, hs, he, spoiler) || spec_row_has_pipe(
        d,
        ds,
        de,
        spoiler,
    ) || exists|k: int| ds <= k < de && d[k] == 58u8
}

/// Whether a header line and a delimiter line start a GFM table (see
/// [`table_can_start_source`]).
pub open spec fn spec_table_can_start(
    header: Seq<u8>,
    hs: int,
    he: int,
    delimiter: Seq<u8>,
    ds: int,
    de: int,
    indented_code: bool,
    spoiler: bool,
) -> bool {
    let start = if indented_code {
        match spec_trim_up_to_three(delimiter.subrange(ds, de)) {
            Some(o) => Some(ds + o),
            None => None,
        }
    } else {
        Some(ds)
    };
    match start {
        None => false,
        Some(k) => !spec_is_list_marker_line(delimiter, k, de) && spec_table_has_separator(
            header,
            hs,
            he,
            delimiter,
            k,
            de,
            spoiler,
        ) && spec_delimiter_row_ok(spec_split_row(delimiter, k, de, spoiler)) && spec_split_row(header, hs, he, spoiler).len()
            == spec_split_row(delimiter, k, de, spoiler).len(),
    }
}

fn table_has_separator(b: &[u8], hs: usize, he: usize, d: &[u8], ds: usize, de: usize, spoiler: bool) -> (r: bool)
    requires
        hs <= he <= b@.len(),
        ds <= de <= d@.len(),
    ensures
        r == spec_table_has_separator(b@, hs as int, he as int, d@, ds as int, de as int, spoiler),
{
    match parse_table_delimiter(d, ds, de, spoiler) {
        None => true,
        Some(alignments) => {
            if alignments.len() == 1 {
                contains_unescaped_pipe(b, hs, he, spoiler) || contains_unescaped_pipe(d, ds, de, spoiler) || has_colon(
                    d,
                    ds,
                    de,
                )
            } else {
                true
            }
        },
    }
}

fn has_colon(b: &[u8], start: usize, end: usize) -> (r: bool)
    requires
        start <= end <= b@.len(),
    ensures
        r == exists|k: int| start <= k < end && b@[k] == 58u8,
{
    let mut k = start;
    while k < end
        invariant
            start <= k <= end <= b@.len(),
            forall|j: int| start <= j < k ==> b@[j] != 58u8,
        decreases end - k,
    {
        if b[k] == 58u8 {
            return true;
        }
        k = k + 1;
    }
    false
}

/// Whether a header line and a delimiter line start a GFM table: the delimiter
/// (with at most three columns of indentation when indented code is on) is
/// not a list item, spells one alignment per header cell, and (with one
/// column) shows a pipe or a colon.
pub fn table_can_start_source(
    header: &[u8],
    hs: usize,
    he: usize,
    delimiter: &[u8],
    ds: usize,
    de: usize,
    indented_code: bool,
    spoiler: bool,
) -> (r: bool)
    requires
        hs <= he <= header@.len(),
        ds <= de <= delimiter@.len(),
    ensures
        r && indented_code ==> spec_trim_up_to_three(delimiter@.subrange(ds as int, de as int)) is Some,
        r == spec_table_can_start(header@, hs as int, he as int, delimiter@, ds as int, de as int, indented_code, spoiler),
{
    let k = if indented_code {
        match trim_up_to_three_spaces(delimiter, ds, de) {
            Some(k) => k,
            None => {
                return false;
            },
        }
    } else {
        ds
    };
    if is_list_marker_line(delimiter, k, de) {
        return false;
    }
    if !table_has_separator(header, hs, he, delimiter, k, de, spoiler) {
        return false;
    }
    match parse_table_delimiter(delimiter, k, de, spoiler) {
        Some(alignments) => split_table_row(header, hs, he, spoiler).len() == alignments.len(),
        None => false,
    }
}

/// Whether a header line and a delimiter line start a GFM table, with the
/// indentation rule of indented code (see [`table_can_start_source`]).
pub fn gfm_table_can_start_source(header: &[u8], hs: usize, he: usize, delimiter: &[u8], ds: usize, de: usize) -> (r: bool)
    requires
        hs <= he <= header@.len(),
        ds <= de <= delimiter@.len(),
    ensures
        r ==> spec_trim_up_to_three(delimiter@.subrange(ds as int, de as int)) is Some,
        r == spec_table_can_start(header@, hs as int, he as int, delimiter@, ds as int, de as int, true, false),
{
    table_can_start_source(header, hs, he, delimiter, ds, de, true, false)
}

} // verus!
