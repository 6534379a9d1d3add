//! Source locations: byte-offset [`Span`]s and their [`LineIndex`] translation
//! into human-readable line/column [`LinePosition`]s.
use vstd::prelude::*;
use vstd::string::StringSliceAdditionalSpecFns;

verus! {

/// A half-open byte range `start..end` into the original source string. These are
/// absolute UTF-8 byte offsets from the start of the document (not line/column);
/// use [`LineIndex`] to translate an offset into a line and column.
#[derive(Clone, Copy, Debug, Default, PartialEq, Eq, Hash, Structural)]
pub struct Span {
    /// Inclusive start byte offset.
    pub start: usize,
    /// Exclusive end byte offset (one past the last byte).
    pub end: usize,
}

impl Span {
    /// Construct a span from a start and end byte offset.
    pub fn new(start: usize, end: usize) -> (r: Self)
        ensures
            r.start == start,
            r.end == end,
    {
        Span { start, end }
    }

    /// The length of the span in bytes (`0` if `end <= start`).
    pub fn len(self) -> (r: usize)
        ensures
            r == (if self.end >= self.start { self.end - self.start } else { 0 }),
    {
        if self.end >= self.start {
            self.end - self.start
        } else {
            0
        }
    }

    /// Whether the span covers zero bytes (its length is zero, so a reversed
    /// span is empty too).
    pub fn is_empty(self) -> (r: bool)
        ensures
            r == (self.end <= self.start),
    {
        self.end <= self.start
    }

    /// Whether `other` lies entirely within this span.
    pub fn contains(self, other: Span) -> (r: bool)
        ensures
            r == (self.start <= other.start && other.end <= self.end),
    {
        self.start <= other.start && other.end <= self.end
    }

    /// Whether `start <= end` (a well-formed range).
    pub fn is_valid(self) -> (r: bool)
        ensures
            r == (self.start <= self.end),
    {
        self.start <= self.end
    }
}

/// A valid span is empty exactly when its length is zero.
pub proof fn lemma_span_empty_iff_zero_len(s: Span)
    requires
        s.start <= s.end,
    ensures
        (s.start == s.end) <==> (s.end - s.start == 0),
{
}

/// Containment between spans is reflexive and transitive.
pub proof fn lemma_span_contains_preorder(a: Span, b: Span, c: Span)
    ensures
        a.start <= a.start && a.end <= a.end,
        (a.start <= b.start && b.end <= a.end && b.start <= c.start && c.end <= b.end) ==> (
        a.start <= c.start && c.end <= a.end),
{
}

/// A 1-based line and column, derived from a byte offset by [`LineIndex`].
#[derive(Clone, Copy, Debug, PartialEq, Eq, Structural)]
pub struct LinePosition {
    /// 1-based line number.
    pub line: usize,
    /// 1-based column number (counted in bytes from the line start).
    pub column: usize,
}

/// Whether `k` is the first byte offset of a line other than the first: it
/// directly follows a `\n`, or a `\r` that is not followed by `\n`.
pub open spec fn is_line_start_after_break(bytes: Seq<u8>, k: int) -> bool {
    &&& 0 < k <= bytes.len()
    &&& (bytes[k - 1] == 10u8 || (bytes[k - 1] == 13u8 && (k == bytes.len() || bytes[k] != 10u8)))
}

/// The line starts of `bytes`: `0`, then each offset that follows a line break,
/// strictly increasing and complete.
pub open spec fn is_line_start_table(bytes: Seq<u8>, starts: Seq<usize>) -> bool {
    &&& starts.len() >= 1
    &&& starts[0] == 0
    &&& forall|i: int, j: int| 0 <= i < j < starts.len() ==> starts[i] < starts[j]
    &&& forall|i: int| 1 <= i < starts.len() ==> is_line_start_after_break(bytes, #[trigger] starts[i] as int)
    &&& forall|k: int| is_line_start_after_break(bytes, k) ==> exists|i: int| 0 <= i < starts.len() && #[trigger] starts[i] == k
}

/// The number of line breaks among the first `k` bytes: the offsets in
/// `1..=k` that start a line.
pub open spec fn spec_break_count(bytes: Seq<u8>, k: int) -> nat
    decreases k,
{
    if k <= 0 {
        0
    } else {
        spec_break_count(bytes, k - 1) + (if is_line_start_after_break(bytes, k) {
            1nat
        } else {
            0nat
        })
    }
}

/// A precomputed map from byte offsets to line/column positions for one source
/// string. Build it once with [`LineIndex::new`], then query repeatedly.
#[derive(Clone, Debug, PartialEq, Eq)]
pub struct LineIndex {
    line_starts: Vec<usize>,
    len: usize,
}

impl LineIndex {
    /// The offsets at which lines start.
    pub closed spec fn starts(&self) -> Seq<usize> {
        self.line_starts@
    }

    /// The byte length of the indexed source.
    pub closed spec fn source_len(&self) -> usize {
        self.len
    }

    /// The index is a line-start table of some source of its recorded length.
    pub closed spec fn wf(&self) -> bool {
        &&& self.line_starts@.len() >= 1
        &&& self.line_starts@[0] == 0
        &&& self.len < usize::MAX
        &&& forall|i: int, j: int|
            0 <= i < j < self.line_starts@.len() ==> self.line_starts@[i] < self.line_starts@[j]
        &&& forall|i: int| 0 <= i < self.line_starts@.len() ==> #[trigger] self.line_starts@[i] <= self.len
    }

    /// Build a line index for `source`, scanning its line breaks
    /// (`\n`, `\r`, and `\r\n`).
    pub fn new(source: &str) -> (r: Self)
        requires
            source.spec_bytes().len() < usize::MAX,
        ensures
            r.wf(),
            r.source_len() == source.spec_bytes().len(),
            is_line_start_table(source.spec_bytes(), r.starts()),
            r.starts().len() == 1 + spec_break_count(source.spec_bytes(), source.spec_bytes().len() as int),
    {
        let bytes = source.as_bytes();
        let n = bytes.len();
        let mut starts: Vec<usize> = Vec::new();
        starts.push(0);
        let mut index: usize = 0;
        while index < n
            invariant
                n == bytes@.len(),
                bytes@ == source.spec_bytes(),
                index <= n,
                starts@.len() >= 1,
                starts@[0] == 0,
                forall|i: int, j: int| 0 <= i < j < starts@.len() ==> starts@[i] < starts@[j],
                forall|i: int| 0 <= i < starts@.len() ==> #[trigger] starts@[i] <= index,
                forall|i: int|
                    1 <= i < starts@.len() ==> is_line_start_after_break(bytes@, #[trigger] starts@[i] as int),
                forall|k: int|
                    0 < k <= index && is_line_start_after_break(bytes@, k) ==> exists|i: int|
                        0 <= i < starts@.len() && #[trigger] starts@[i] == k,
                index > 0 && index < n ==> !(bytes@[index - 1] == 13u8 && bytes@[index as int] == 10u8),
                starts@.len() == 1 + spec_break_count(bytes@, index as int),
            decreases n - index,
        {
            let ghost old_index = index;
            let ghost old_starts = starts@;
            let b = bytes[index];
            if b == 13u8 {
                if index + 1 < n && bytes[index + 1] == 10u8 {
                    proof {
                        assert(!is_line_start_after_break(bytes@, index + 1));
                        assert(spec_break_count(bytes@, index + 1) == spec_break_count(bytes@, index as int));
                    }
                    index = index + 2;
                } else {
                    index = index + 1;
                }
                starts.push(index);
                assert(starts@[starts@.len() - 1] == index);
            } else if b == 10u8 {
                index = index + 1;
                starts.push(index);
                assert(starts@[starts@.len() - 1] == index);
            } else {
                index = index + 1;
            }
            assert forall|k: int|
                0 < k <= index && is_line_start_after_break(bytes@, k) implies exists|i: int|
                    0 <= i < starts@.len() && #[trigger] starts@[i] == k by {
                if k <= old_index {
                    let i = choose|i: int| 0 <= i < old_starts.len() && #[trigger] old_starts[i] == k;
                    assert(starts@[i] == k);
                } else {
                    assert(starts@[starts@.len() - 1] == index);
                    if k < index {
                        assert(k == old_index + 1);
                        assert(bytes@[old_index as int] == 13u8 && bytes@[k] == 10u8);
                    }
                }
            }
        }
        LineIndex { line_starts: starts, len: n }
    }

    /// Translate a byte `offset` into its 1-based line and column (clamped to the
    /// end of the source).
    pub fn position(&self, offset: usize) -> (r: LinePosition)
        requires
            self.wf(),
        ensures
            ({
                let o = if offset < self.source_len() { offset } else { self.source_len() };
                &&& 1 <= r.line <= self.starts().len()
                &&& self.starts()[r.line - 1] <= o
                &&& (r.line as int) < self.starts().len() ==> o < self.starts()[r.line as int]
                &&& r.column == o - self.starts()[r.line - 1] + 1
            }),
    {
        let o = if offset < self.len { offset } else { self.len };
        // Binary search for the last line start that is <= o.
        let mut lo: usize = 0;
        let mut hi: usize = self.line_starts.len();
        while lo + 1 < hi
            invariant
                self.wf(),
                o <= self.len,
                0 <= lo < hi <= self.line_starts@.len(),
                self.line_starts@[lo as int] <= o,
                (hi as int) < self.line_starts@.len() ==> o < self.line_starts@[hi as int],
            decreases hi - lo,
        {
            let mid = lo + (hi - lo) / 2;
            if self.line_starts[mid] <= o {
                lo = mid;
            } else {
                hi = mid;
            }
        }
        let line_start = self.line_starts[lo];
        assert(lo + 1 < self.line_starts@.len() ==> o < self.line_starts@[lo + 1]);
        LinePosition { line: lo + 1, column: o - line_start + 1 }
    }

    /// Translate a [`Span`] into its start and end [`LinePosition`]s.
    pub fn span(&self, span: Span) -> (r: (LinePosition, LinePosition))
        requires
            self.wf(),
        ensures
            ({
                let s = if span.start < self.source_len() { span.start } else { self.source_len() };
                &&& 1 <= r.0.line <= self.starts().len()
                &&& self.starts()[r.0.line - 1] <= s
                &&& (r.0.line as int) < self.starts().len() ==> s < self.starts()[r.0.line as int]
                &&& r.0.column == s - self.starts()[r.0.line - 1] + 1
            }),
            ({
                let e = if span.end < self.source_len() { span.end } else { self.source_len() };
                &&& 1 <= r.1.line <= self.starts().len()
                &&& self.starts()[r.1.line - 1] <= e
                &&& (r.1.line as int) < self.starts().len() ==> e < self.starts()[r.1.line as int]
                &&& r.1.column == e - self.starts()[r.1.line - 1] + 1
            }),
    {
        (self.position(span.start), self.position(span.end))
    }
}

} // verus!
