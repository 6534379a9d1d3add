//! Reference labels: the normalized identifier under which a link reference is
//! matched against a definition.
use vstd::prelude::*;

use crate::text::{
    char_len_at, push_range, spec_char_len_at, spec_lossy_utf8, spec_to_lowercase, spec_to_uppercase,
    spec_ws_len_at, string_from_bytes, to_lowercase, to_uppercase, whitespace_len_at,
};

verus! {

/// Whether the scalar at `k` is U+1E9E LATIN CAPITAL LETTER SHARP S.
pub open spec fn spec_is_capital_sharp_s(b: Seq<u8>, k: int) -> bool {
    0 <= k && k + 2 < b.len() && b[k] == 0xE1 && b[k + 1] == 0xBA && b[k + 2] == 0x9E
}

/// The words of `b[k..]` (maximal runs of non-whitespace scalars), joined by
/// single spaces, each capital sharp S spelled `ss` when `fold` is set.
/// `emitted` says whether a word was already written and `pending` whether
/// whitespace followed it.
pub open spec fn spec_collapse_from(b: Seq<u8>, k: int, emitted: bool, pending: bool, fold: bool) -> Seq<u8>
    decreases b.len() - k,
{
    if k < 0 || k >= b.len() {
        Seq::empty()
    } else if spec_ws_len_at(b, k) > 0 {
        spec_collapse_from(b, k + spec_ws_len_at(b, k), emitted, true, fold)
    } else {
        let sep = if emitted && pending {
            seq![32u8]
        } else {
            Seq::empty()
        };
        let w = spec_char_len_at(b, k) as int;
        let word = if fold && spec_is_capital_sharp_s(b, k) {
            seq![115u8, 115u8]
        } else {
            b.subrange(k, k + w)
        };
        sep + word + spec_collapse_from(b, k + w, true, false, fold)
    }
}

/// The words of `b` joined by single spaces, capital sharp S spelled `ss`.
pub open spec fn spec_collapse_label(b: Seq<u8>) -> Seq<u8> {
    spec_collapse_from(b, 0, false, false, true)
}

/// The words of `b` joined by single spaces.
pub open spec fn spec_collapse_words(b: Seq<u8>) -> Seq<u8> {
    spec_collapse_from(b, 0, false, false, false)
}

/// The identifier of a label: its words joined by single spaces, then
/// uppercased and lowercased (Unicode case folding as the standard library
/// maps case).
pub open spec fn spec_normalize_label(b: Seq<u8>) -> Seq<char> {
    spec_to_lowercase(spec_to_uppercase(spec_lossy_utf8(spec_collapse_label(b))))
}

pub fn collapse_label(label: &[u8], fold: bool) -> (r: Vec<u8>)
    ensures
        r@ == spec_collapse_from(label@, 0, false, false, fold),
{
    let n = label.len();
    let mut out: Vec<u8> = Vec::new();
    let mut emitted = false;
    let mut pending = false;
    let mut k: usize = 0;
    while k < n
        invariant
            n == label@.len(),
            k <= n,
            out@ + spec_collapse_from(label@, k as int, emitted, pending, fold) == spec_collapse_from(
                label@,
                0,
                false,
                false,
                fold,
            ),
        decreases n - k,
    {
        let ghost before = out@;
        let ws = whitespace_len_at(label, k);
        if ws > 0 {
            pending = true;
            k = k + ws;
        } else {
            let w = char_len_at(label, k);
            if emitted && pending {
                out.push(32u8);
            }
            if fold && n - k > 2 && label[k] == 0xE1 && label[k + 1] == 0xBA && label[k + 2] == 0x9E {
                out.push(115u8);
                out.push(115u8);
            } else {
                push_range(&mut out, label, k, k + w);
            }
            assert(out@ + spec_collapse_from(label@, (k + w) as int, true, false, fold) =~= before
                + spec_collapse_from(label@, k as int, emitted, pending, fold));
            emitted = true;
            pending = false;
            k = k + w;
        }
    }
    assert(out@ =~= out@ + spec_collapse_from(label@, k as int, emitted, pending, fold));
    out
}

/// The identifier under which a reference label matches a definition.
pub fn normalize_label(label: &[u8]) -> (r: String)
    ensures
        r@ == spec_normalize_label(label@),
{
    let collapsed = collapse_label(label, true);
    let text = string_from_bytes(collapsed.as_slice());
    let upper = to_uppercase(text.as_str());
    to_lowercase(upper.as_str())
}

} // verus!
