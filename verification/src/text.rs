//! Byte-level text utilities shared by the parser and the serializer: ASCII
//! classification, UTF-8 scalar lengths, whitespace, trimming, and the few
//! conversions that go through the standard library.
use vstd::prelude::*;
use vstd::string::StringSliceAdditionalSpecFns;
use vstd::utf8::*;

verus! {

// ---------------------------------------------------------------------------
// Conversions through the standard library.
// ---------------------------------------------------------------------------

/// The characters that `String::from_utf8_lossy` decodes from `bytes`.
pub uninterp spec fn spec_lossy_utf8(bytes: Seq<u8>) -> Seq<char>;

/// Decodes `bytes` as UTF-8 into an owned `String`, replacing each invalid
/// sequence with U+FFFD (`String::from_utf8_lossy`). The result is a function of
/// the bytes alone; on valid UTF-8 it is exactly the decoded text, as the
/// standard library documents.
#[verifier::external_body]
pub fn string_from_bytes(bytes: &[u8]) -> (r: String)
    ensures
        r@ == spec_lossy_utf8(bytes@),
        valid_utf8(bytes@) ==> r@ == decode_utf8(bytes@),
{
    String::from_utf8_lossy(bytes).into_owned()
}

/// The characters of `str::to_uppercase` applied to `s`.
pub uninterp spec fn spec_to_uppercase(s: Seq<char>) -> Seq<char>;

/// Unicode uppercase mapping of `s` (`str::to_uppercase`); what it returns is a
/// function of `s` alone, named by `spec_to_uppercase`.
#[verifier::external_body]
pub fn to_uppercase(s: &str) -> (r: String)
    ensures
        r@ == spec_to_uppercase(s@),
{
    s.to_uppercase()
}

/// The characters of `str::to_lowercase` applied to `s`.
pub uninterp spec fn spec_to_lowercase(s: Seq<char>) -> Seq<char>;

/// Unicode lowercase mapping of `s` (`str::to_lowercase`); what it returns is a
/// function of `s` alone, named by `spec_to_lowercase`.
#[verifier::external_body]
pub fn to_lowercase(s: &str) -> (r: String)
    ensures
        r@ == spec_to_lowercase(s@),
{
    s.to_lowercase()
}

/// The UTF-8 bytes of a `String`.
pub fn string_bytes(s: &String) -> (r: &[u8])
    ensures
        r@ == encode_utf8(s@),
{
    s.as_str().as_bytes()
}

// ---------------------------------------------------------------------------
// Byte buffers.
// ---------------------------------------------------------------------------

/// Appends `bytes` to `out`.
pub fn push_bytes(out: &mut Vec<u8>, bytes: &[u8])
    ensures
        final(out)@ == old(out)@ + bytes@,
{
    let mut i: usize = 0;
    while i < bytes.len()
        invariant
            i <= bytes@.len(),
            out@ == old(out)@ + bytes@.subrange(0, i as int),
        decreases bytes@.len() - i,
    {
        out.push(bytes[i]);
        i = i + 1;
        assert(out@ =~= old(out)@ + bytes@.subrange(0, i as int));
    }
    assert(bytes@.subrange(0, bytes@.len() as int) =~= bytes@);
}

/// Appends the bytes `bytes[start..end]` to `out`.
pub fn push_range(out: &mut Vec<u8>, bytes: &[u8], start: usize, end: usize)
    requires
        start <= end <= bytes@.len(),
    ensures
        final(out)@ == old(out)@ + bytes@.subrange(start as int, end as int),
{
    let mut i: usize = start;
    while i < end
        invariant
            start <= i <= end <= bytes@.len(),
            out@ == old(out)@ + bytes@.subrange(start as int, i as int),
        decreases end - i,
    {
        out.push(bytes[i]);
        i = i + 1;
        assert(out@ =~= old(out)@ + bytes@.subrange(start as int, i as int));
    }
}

/// A fresh buffer holding `bytes[start..end]`.
pub fn copy_range(bytes: &[u8], start: usize, end: usize) -> (r: Vec<u8>)
    requires
        start <= end <= bytes@.len(),
    ensures
        r@ == bytes@.subrange(start as int, end as int),
{
    let mut out: Vec<u8> = Vec::new();
    push_range(&mut out, bytes, start, end);
    assert(out@ =~= bytes@.subrange(start as int, end as int));
    out
}

/// An owned string decoded from `bytes[start..end]`.
pub fn string_from_range(bytes: &[u8], start: usize, end: usize) -> (r: String)
    requires
        start <= end <= bytes@.len(),
    ensures
        r@ == spec_lossy_utf8(bytes@.subrange(start as int, end as int)),
{
    let v = copy_range(bytes, start, end);
    string_from_bytes(v.as_slice())
}

/// Whether `bytes[index..]` starts with `prefix`.
pub open spec fn spec_starts_with_at(bytes: Seq<u8>, index: int, prefix: Seq<u8>) -> bool {
    &&& 0 <= index
    &&& index + prefix.len() <= bytes.len()
    &&& bytes.subrange(index, index + prefix.len()) == prefix
}

/// Whether `bytes[index..]` starts with `prefix`.
pub fn starts_with_at(bytes: &[u8], index: usize, prefix: &[u8]) -> (r: bool)
    ensures
        r == spec_starts_with_at(bytes@, index as int, prefix@),
{
    if index > bytes.len() || bytes.len() - index < prefix.len() {
        return false;
    }
    let mut i: usize = 0;
    while i < prefix.len()
        invariant
            index + prefix@.len() <= bytes@.len(),
            bytes@.len() == bytes.len(),
            i <= prefix@.len(),
            forall|k: int| 0 <= k < i ==> bytes@[index + k] == prefix@[k],
        decreases prefix@.len() - i,
    {
        assert(index + i < bytes@.len());
        if bytes[index + i] != prefix[i] {
            assert(bytes@.subrange(index as int, index + prefix@.len())[i as int] != prefix@[i as int]);
            return false;
        }
        i = i + 1;
    }
    assert(bytes@.subrange(index as int, index + prefix@.len()) =~= prefix@);
    true
}

/// Whether `bytes` contains the byte `b`.
pub fn contains_byte(bytes: &[u8], b: u8) -> (r: bool)
    ensures
        r == bytes@.contains(b),
{
    let mut i: usize = 0;
    while i < bytes.len()
        invariant
            i <= bytes@.len(),
            forall|k: int| 0 <= k < i ==> bytes@[k] != b,
        decreases bytes@.len() - i,
    {
        if bytes[i] == b {
            assert(bytes@[i as int] == b);
            return true;
        }
        i = i + 1;
    }
    false
}

/// The first index at or after `from` holding `b`, if any.
pub fn find_byte_from(bytes: &[u8], from: usize, b: u8) -> (r: Option<usize>)
    ensures
        match r {
            Some(k) => from <= k < bytes@.len() && bytes@[k as int] == b && forall|j: int|
                from <= j < k ==> bytes@[j] != b,
            None => forall|j: int| from <= j < bytes@.len() ==> bytes@[j] != b,
        },
{
    let mut i: usize = from;
    while i < bytes.len()
        invariant
            from <= i || i >= bytes@.len(),
            forall|j: int| from <= j < i && j < bytes@.len() ==> bytes@[j] != b,
        decreases bytes@.len() - i,
    {
        if bytes[i] == b {
            return Some(i);
        }
        i = i + 1;
    }
    None
}

/// The length of the run of byte `b` starting at `index`.
pub open spec fn spec_run_len(bytes: Seq<u8>, index: int, b: u8) -> nat
    decreases bytes.len() - index,
{
    if index < 0 || index >= bytes.len() || bytes[index] != b {
        0
    } else {
        1 + spec_run_len(bytes, index + 1, b)
    }
}

/// The length of the run of byte `b` starting at `index`.
pub fn run_len(bytes: &[u8], index: usize, b: u8) -> (r: usize)
    ensures
        r == spec_run_len(bytes@, index as int, b),
        index <= bytes@.len() ==> index + r <= bytes@.len(),
        forall|k: int| index <= k < index + r ==> bytes@[k] == b,
{
    if index >= bytes.len() {
        return 0;
    }
    let mut end: usize = bytes.len();
    let mut i: usize = index;
    // Find the end of the run first, then count back to relate it to the spec.
    while i < bytes.len() && bytes[i] == b
        invariant
            index <= i <= bytes@.len(),
            forall|k: int| index <= k < i ==> bytes@[k] == b,
        decreases bytes@.len() - i,
    {
        i = i + 1;
    }
    end = i;
    let mut j: usize = end;
    let mut count: usize = 0;
    assert(spec_run_len(bytes@, end as int, b) == 0);
    while j > index
        invariant
            index <= j <= end,
            end <= bytes@.len(),
            count == end - j,
            forall|k: int| index <= k < end ==> bytes@[k] == b,
            spec_run_len(bytes@, end as int, b) == 0,
            spec_run_len(bytes@, j as int, b) == count,
        decreases j - index,
    {
        j = j - 1;
        count = count + 1;
    }
    count
}

// ---------------------------------------------------------------------------
// ASCII classification.
// ---------------------------------------------------------------------------

/// ASCII punctuation (`char::is_ascii_punctuation`).
pub open spec fn spec_is_ascii_punctuation(b: u8) -> bool {
    (33 <= b <= 47) || (58 <= b <= 64) || (91 <= b <= 96) || (123 <= b <= 126)
}

/// ASCII punctuation (`char::is_ascii_punctuation`).
pub fn is_ascii_punctuation(b: u8) -> (r: bool)
    ensures
        r == spec_is_ascii_punctuation(b),
{
    (33 <= b && b <= 47) || (58 <= b && b <= 64) || (91 <= b && b <= 96) || (123 <= b && b <= 126)
}

/// ASCII letter.
pub open spec fn spec_is_ascii_alpha(b: u8) -> bool {
    (65 <= b <= 90) || (97 <= b <= 122)
}

/// ASCII letter.
pub fn is_ascii_alpha(b: u8) -> (r: bool)
    ensures
        r == spec_is_ascii_alpha(b),
{
    (65 <= b && b <= 90) || (97 <= b && b <= 122)
}

/// ASCII decimal digit.
pub open spec fn spec_is_ascii_digit(b: u8) -> bool {
    48 <= b <= 57
}

/// ASCII decimal digit.
pub fn is_ascii_digit(b: u8) -> (r: bool)
    ensures
        r == spec_is_ascii_digit(b),
{
    48 <= b && b <= 57
}

/// ASCII letter or digit.
pub open spec fn spec_is_ascii_alnum(b: u8) -> bool {
    spec_is_ascii_alpha(b) || spec_is_ascii_digit(b)
}

/// ASCII letter or digit.
pub fn is_ascii_alnum(b: u8) -> (r: bool)
    ensures
        r == spec_is_ascii_alnum(b),
{
    is_ascii_alpha(b) || is_ascii_digit(b)
}

/// ASCII hexadecimal digit.
pub open spec fn spec_is_ascii_hex(b: u8) -> bool {
    spec_is_ascii_digit(b) || (65 <= b <= 70) || (97 <= b <= 102)
}

/// ASCII hexadecimal digit.
pub fn is_ascii_hex(b: u8) -> (r: bool)
    ensures
        r == spec_is_ascii_hex(b),
{
    is_ascii_digit(b) || (65 <= b && b <= 70) || (97 <= b && b <= 102)
}

/// The value of an ASCII hexadecimal digit.
pub fn hex_value(b: u8) -> (r: u32)
    requires
        spec_is_ascii_hex(b),
    ensures
        r < 16,
        spec_is_ascii_digit(b) ==> r == b - 48,
        65 <= b <= 70 ==> r == b - 55,
        97 <= b <= 102 ==> r == b - 87,
{
    if b <= 57 {
        (b - 48) as u32
    } else if b <= 70 {
        (b - 55) as u32
    } else {
        (b - 87) as u32
    }
}

/// ASCII lowercase of a byte (non-letters unchanged).
pub open spec fn spec_ascii_lower(b: u8) -> u8 {
    if 65 <= b <= 90 {
        (b + 32) as u8
    } else {
        b
    }
}

/// ASCII lowercase of a byte (non-letters unchanged).
pub fn ascii_lower(b: u8) -> (r: u8)
    ensures
        r == spec_ascii_lower(b),
{
    if 65 <= b && b <= 90 {
        b + 32
    } else {
        b
    }
}

/// Whether `bytes[index..]` starts with `prefix` ignoring ASCII case (`prefix`
/// is lowercase).
pub open spec fn spec_starts_with_ci(bytes: Seq<u8>, index: int, prefix: Seq<u8>) -> bool {
    &&& 0 <= index
    &&& index + prefix.len() <= bytes.len()
    &&& forall|k: int| 0 <= k < prefix.len() ==> spec_ascii_lower(#[trigger] bytes[index + k]) == prefix[k]
}

/// Whether `bytes[index..]` starts with the lowercase `prefix`, ignoring ASCII case.
pub fn starts_with_ci(bytes: &[u8], index: usize, prefix: &[u8]) -> (r: bool)
    ensures
        r == spec_starts_with_ci(bytes@, index as int, prefix@),
{
    if index > bytes.len() || bytes.len() - index < prefix.len() {
        return false;
    }
    let mut i: usize = 0;
    while i < prefix.len()
        invariant
            index + prefix@.len() <= bytes@.len(),
            bytes@.len() == bytes.len(),
            i <= prefix@.len(),
            forall|k: int| 0 <= k < i ==> spec_ascii_lower(#[trigger] bytes@[index + k]) == prefix@[k],
        decreases prefix@.len() - i,
    {
        assert(index + i < bytes@.len());
        if ascii_lower(bytes[index + i]) != prefix[i] {
            return false;
        }
        i = i + 1;
    }
    true
}

// ---------------------------------------------------------------------------
// UTF-8 scalars and whitespace.
// ---------------------------------------------------------------------------

/// The byte length of the UTF-8 scalar whose leading byte is `b` (an invalid
/// leading byte counts as one byte).
pub open spec fn spec_utf8_width(b: u8) -> nat {
    if b < 0x80 {
        1
    } else if 0xC0 <= b < 0xE0 {
        2
    } else if 0xE0 <= b < 0xF0 {
        3
    } else if 0xF0 <= b < 0xF8 {
        4
    } else {
        1
    }
}

/// The byte length of the scalar starting at `index`, clamped to the input.
pub open spec fn spec_char_len_at(bytes: Seq<u8>, index: int) -> nat {
    let w = spec_utf8_width(bytes[index]);
    if index + w <= bytes.len() {
        w
    } else {
        1
    }
}

/// The byte length of the scalar starting at `index`, clamped to the input.
pub fn char_len_at(bytes: &[u8], index: usize) -> (r: usize)
    requires
        index < bytes@.len(),
    ensures
        r == spec_char_len_at(bytes@, index as int),
        1 <= r <= 4,
        index + r <= bytes@.len(),
{
    let b = bytes[index];
    let w: usize = if b < 0x80 {
        1
    } else if 0xC0 <= b && b < 0xE0 {
        2
    } else if 0xE0 <= b && b < 0xF0 {
        3
    } else if 0xF0 <= b && b < 0xF8 {
        4
    } else {
        1
    };
    if w <= bytes.len() - index {
        w
    } else {
        1
    }
}

/// The code point decoded from the scalar starting at `index`: the leading
/// byte's payload bits followed by six bits of each continuation byte (the
/// leading byte itself when the scalar is a single byte).
pub open spec fn spec_code_point_at(bytes: Seq<u8>, index: int) -> u32 {
    let len = spec_char_len_at(bytes, index);
    let b0 = bytes[index] as u32;
    if len == 1 {
        b0
    } else if len == 2 {
        ((b0 & 0x1F) * 64 + (bytes[index + 1] & 0x3F) as u32) as u32
    } else if len == 3 {
        ((b0 & 0x0F) * 4096 + (bytes[index + 1] & 0x3F) as u32 * 64 + (bytes[index + 2] & 0x3F) as u32) as u32
    } else {
        ((b0 & 0x07) * 262144 + (bytes[index + 1] & 0x3F) as u32 * 4096 + (bytes[index + 2] & 0x3F) as u32
            * 64 + (bytes[index + 3] & 0x3F) as u32) as u32
    }
}

/// The code point decoded from the scalar starting at `index` (the leading
/// byte's value when the sequence is malformed or truncated).
pub fn code_point_at(bytes: &[u8], index: usize) -> (r: (usize, u32))
    requires
        index < bytes@.len(),
    ensures
        r.0 == spec_char_len_at(bytes@, index as int),
        r.1 == spec_code_point_at(bytes@, index as int),
        bytes@[index as int] < 0x80 ==> r.1 == bytes@[index as int] && r.0 == 1,
        r.1 <= 0x1FFFFF,
{
    let len = char_len_at(bytes, index);
    let b0 = bytes[index] as u32;
    if len == 1 {
        return (1, b0);
    }
    let x1 = bytes[index + 1];
    let b1 = (x1 & 0x3F) as u32;
    assert(b1 <= 0x3F) by (bit_vector)
        requires
            b1 == (x1 & 0x3F) as u32,
    ;
    assert((b0 & 0x1F) <= 0x1F) by (bit_vector);
    assert((b0 & 0x0F) <= 0x0F) by (bit_vector);
    assert((b0 & 0x07) <= 0x07) by (bit_vector);
    if len == 2 {
        let cp = ((b0 & 0x1F) * 64) + b1;
        return (2, cp);
    }
    let x2 = bytes[index + 2];
    let b2 = (x2 & 0x3F) as u32;
    assert(b2 <= 0x3F) by (bit_vector)
        requires
            b2 == (x2 & 0x3F) as u32,
    ;
    if len == 3 {
        let cp = ((b0 & 0x0F) * 4096) + (b1 * 64) + b2;
        return (3, cp);
    }
    let x3 = bytes[index + 3];
    let b3 = (x3 & 0x3F) as u32;
    assert(b3 <= 0x3F) by (bit_vector)
        requires
            b3 == (x3 & 0x3F) as u32,
    ;
    let cp = ((b0 & 0x07) * 262144) + (b1 * 4096) + (b2 * 64) + b3;
    (4, cp)
}

/// Unicode `White_Space` (`char::is_whitespace`).
pub open spec fn spec_is_whitespace_cp(c: u32) -> bool {
    (9 <= c <= 13) || c == 32 || c == 0x85 || c == 0xA0 || c == 0x1680 || (0x2000 <= c <= 0x200A)
        || c == 0x2028 || c == 0x2029 || c == 0x202F || c == 0x205F || c == 0x3000
}

/// Unicode `White_Space` (`char::is_whitespace`).
pub fn is_whitespace_cp(c: u32) -> (r: bool)
    ensures
        r == spec_is_whitespace_cp(c),
{
    (9 <= c && c <= 13) || c == 32 || c == 0x85 || c == 0xA0 || c == 0x1680 || (0x2000 <= c && c
        <= 0x200A) || c == 0x2028 || c == 0x2029 || c == 0x202F || c == 0x205F || c == 0x3000
}

/// Unicode general category `Cc` (`char::is_control`).
pub open spec fn spec_is_control_cp(c: u32) -> bool {
    c <= 0x1F || (0x7F <= c <= 0x9F)
}

/// Unicode general category `Cc` (`char::is_control`).
pub fn is_control_cp(c: u32) -> (r: bool)
    ensures
        r == spec_is_control_cp(c),
{
    c <= 0x1F || (0x7F <= c && c <= 0x9F)
}

/// The byte length of the Unicode `White_Space` scalar whose UTF-8 encoding
/// starts at `k`, or 0 when none does.
pub open spec fn spec_ws_len_at(b: Seq<u8>, k: int) -> nat {
    if k < 0 || k >= b.len() {
        0
    } else if (9 <= b[k] <= 13) || b[k] == 32 {
        1
    } else if k + 1 < b.len() && b[k] == 0xC2 && (b[k + 1] == 0x85 || b[k + 1] == 0xA0) {
        2
    } else if k + 2 < b.len() && b[k] == 0xE1 && b[k + 1] == 0x9A && b[k + 2] == 0x80 {
        3
    } else if k + 2 < b.len() && b[k] == 0xE2 && b[k + 1] == 0x80 && ((0x80 <= b[k + 2] <= 0x8A)
        || b[k + 2] == 0xA8 || b[k + 2] == 0xA9 || b[k + 2] == 0xAF) {
        3
    } else if k + 2 < b.len() && b[k] == 0xE2 && b[k + 1] == 0x81 && b[k + 2] == 0x9F {
        3
    } else if k + 2 < b.len() && b[k] == 0xE3 && b[k + 1] == 0x80 && b[k + 2] == 0x80 {
        3
    } else {
        0
    }
}

/// The byte length of the whitespace scalar at `index`, or 0 when the scalar
/// there is not whitespace.
pub fn whitespace_len_at(bytes: &[u8], index: usize) -> (r: usize)
    requires
        index < bytes@.len(),
    ensures
        r == spec_ws_len_at(bytes@, index as int),
        index + r <= bytes@.len(),
{
    let n = bytes.len();
    let b = bytes[index];
    if (9 <= b && b <= 13) || b == 32 {
        1
    } else if n - index > 1 && b == 0xC2 && (bytes[index + 1] == 0x85 || bytes[index + 1] == 0xA0) {
        2
    } else if n - index > 2 && b == 0xE1 && bytes[index + 1] == 0x9A && bytes[index + 2] == 0x80 {
        3
    } else if n - index > 2 && b == 0xE2 && bytes[index + 1] == 0x80 && ((0x80 <= bytes[index + 2]
        && bytes[index + 2] <= 0x8A) || bytes[index + 2] == 0xA8 || bytes[index + 2] == 0xA9
        || bytes[index + 2] == 0xAF) {
        3
    } else if n - index > 2 && b == 0xE2 && bytes[index + 1] == 0x81 && bytes[index + 2] == 0x9F {
        3
    } else if n - index > 2 && b == 0xE3 && bytes[index + 1] == 0x80 && bytes[index + 2] == 0x80 {
        3
    } else {
        0
    }
}

/// Whether `b[k..]` consists only of whitespace scalars.
pub open spec fn spec_all_ws_from(b: Seq<u8>, k: int) -> bool
    decreases b.len() - k,
{
    if k >= b.len() {
        true
    } else if spec_ws_len_at(b, k) == 0 {
        false
    } else {
        spec_all_ws_from(b, k + spec_ws_len_at(b, k))
    }
}

/// Whether `bytes` consists only of whitespace scalars (`str::trim().is_empty()`).
pub fn is_all_whitespace(bytes: &[u8]) -> (r: bool)
    ensures
        r == spec_all_ws_from(bytes@, 0),
{
    let mut k: usize = 0;
    while k < bytes.len()
        invariant
            k <= bytes@.len(),
            spec_all_ws_from(bytes@, 0) == spec_all_ws_from(bytes@, k as int),
        decreases bytes@.len() - k,
    {
        let w = whitespace_len_at(bytes, k);
        if w == 0 {
            return false;
        }
        k = k + w;
    }
    true
}

/// ASCII space or tab.
pub open spec fn spec_is_space_or_tab(b: u8) -> bool {
    b == 32 || b == 9
}

/// Where the run of spaces and tabs from `k` ends, not past `end`.
pub open spec fn spec_space_tab_end(b: Seq<u8>, k: int, end: int) -> int
    decreases end - k,
{
    if 0 <= k < end && (b[k] == 32u8 || b[k] == 9u8) {
        spec_space_tab_end(b, k + 1, end)
    } else {
        k
    }
}

/// The first index in `[start, end)` that is not a space or tab (or `end`).
pub fn skip_spaces_tabs(bytes: &[u8], start: usize, end: usize) -> (r: usize)
    requires
        start <= end <= bytes@.len(),
    ensures
        start <= r <= end,
        r == spec_space_tab_end(bytes@, start as int, end as int),
        forall|k: int| start <= k < r ==> spec_is_space_or_tab(#[trigger] bytes@[k]),
        r < end ==> !spec_is_space_or_tab(bytes@[r as int]),
{
    let mut i = start;
    while i < end && (bytes[i] == 32u8 || bytes[i] == 9u8)
        invariant
            start <= i <= end <= bytes@.len(),
            forall|k: int| start <= k < i ==> spec_is_space_or_tab(#[trigger] bytes@[k]),
            spec_space_tab_end(bytes@, i as int, end as int) == spec_space_tab_end(bytes@, start as int, end as int),
        decreases end - i,
    {
        i = i + 1;
    }
    i
}

/// One past the last index in `[start, end)` that is not a space or tab (or `start`).
pub fn trim_end_spaces_tabs(bytes: &[u8], start: usize, end: usize) -> (r: usize)
    requires
        start <= end <= bytes@.len(),
    ensures
        start <= r <= end,
        forall|k: int| r <= k < end ==> spec_is_space_or_tab(#[trigger] bytes@[k]),
        r > start ==> !spec_is_space_or_tab(bytes@[r - 1]),
{
    let mut i = end;
    while i > start && (bytes[i - 1] == 32u8 || bytes[i - 1] == 9u8)
        invariant
            start <= i <= end <= bytes@.len(),
            forall|k: int| i <= k < end ==> spec_is_space_or_tab(#[trigger] bytes@[k]),
        decreases i - start,
    {
        i = i - 1;
    }
    i
}

/// The first index at or after `from` where `needle` (non-empty) occurs in `b`.
pub open spec fn spec_find_sub(b: Seq<u8>, from: int, needle: Seq<u8>) -> Option<int>
    decreases b.len() - from,
{
    if from < 0 || from >= b.len() || from + needle.len() > b.len() {
        None
    } else if spec_starts_with_at(b, from, needle) {
        Some(from)
    } else {
        spec_find_sub(b, from + 1, needle)
    }
}

/// The first index at or after `from` where `needle` occurs in `bytes`.
pub fn find_sub(bytes: &[u8], from: usize, needle: &[u8]) -> (r: Option<usize>)
    ensures
        r matches Some(k) ==> spec_find_sub(bytes@, from as int, needle@) == Some(k as int),
        r is None ==> spec_find_sub(bytes@, from as int, needle@) is None,
        r matches Some(k) ==> from <= k && k + needle@.len() <= bytes@.len(),
{
    let n = bytes.len();
    let m = needle.len();
    if from >= n || n - from < m {
        return None;
    }
    let last = n - m;
    let mut i = from;
    while i < n && i <= last
        invariant
            n == bytes@.len(),
            m == needle@.len(),
            last + m == n,
            from <= i,
            spec_find_sub(bytes@, i as int, needle@) == spec_find_sub(bytes@, from as int, needle@),
        decreases last + 1 - i,
    {
        if starts_with_at(bytes, i, needle) {
            return Some(i);
        }
        i = i + 1;
    }
    None
}

// ---------------------------------------------------------------------------
// Indentation.
// ---------------------------------------------------------------------------

/// The indentation of `b` from byte `k` on, at column `col`: the column and the
/// byte reached after its leading spaces and tabs (a tab advances to the next
/// multiple of four).
pub open spec fn spec_leading_indent_from(b: Seq<u8>, k: int, col: nat) -> (nat, int)
    decreases b.len() - k,
{
    if k < 0 || k >= b.len() {
        (col, k)
    } else if b[k] == 32u8 {
        spec_leading_indent_from(b, k + 1, col + 1)
    } else if b[k] == 9u8 {
        spec_leading_indent_from(b, k + 1, (col + 4 - col % 4) as nat)
    } else {
        (col, k)
    }
}

/// The columns and the bytes of the leading spaces and tabs of `b`.
pub open spec fn spec_leading_indent(b: Seq<u8>) -> (nat, int) {
    spec_leading_indent_from(b, 0, 0)
}

/// Where the content of `b` starts once at most three columns of indentation
/// are removed, or `None` when the indentation is wider.
pub open spec fn spec_trim_up_to_three(b: Seq<u8>) -> Option<int> {
    let (col, k) = spec_leading_indent(b);
    if col <= 3 {
        Some(k)
    } else {
        None
    }
}

proof fn lemma_leading_indent_grows(b: Seq<u8>, k: int, col: nat)
    requires
        0 <= k,
    ensures
        spec_leading_indent_from(b, k, col).0 >= col,
        k <= spec_leading_indent_from(b, k, col).1,
        k <= b.len() ==> spec_leading_indent_from(b, k, col).1 <= b.len(),
    decreases b.len() - k,
{
    if k < b.len() && b[k] == 32u8 {
        lemma_leading_indent_grows(b, k + 1, col + 1);
    } else if k < b.len() && b[k] == 9u8 {
        lemma_leading_indent_grows(b, k + 1, (col + 4 - col % 4) as nat);
    }
}

/// Where the content of the line `bytes[start..end]` starts once at most three
/// columns of indentation are removed (an index into `bytes`), or `None` when
/// the indentation is wider.
pub fn trim_up_to_three_spaces(bytes: &[u8], start: usize, end: usize) -> (r: Option<usize>)
    requires
        start <= end <= bytes@.len(),
    ensures
        r is None <==> spec_trim_up_to_three(bytes@.subrange(start as int, end as int)) is None,
        r matches Some(k) ==> start <= k <= end && spec_trim_up_to_three(
            bytes@.subrange(start as int, end as int),
        ) == Some(k - start),
{
    let ghost line = bytes@.subrange(start as int, end as int);
    let mut k = start;
    let mut col: usize = 0;
    proof {
        lemma_leading_indent_grows(line, 0, 0);
    }
    while k < end
        invariant
            start <= k <= end <= bytes@.len(),
            col <= 3,
            line == bytes@.subrange(start as int, end as int),
            spec_leading_indent_from(line, (k - start) as int, col as nat) == spec_leading_indent(line),
        ensures
            start <= k <= end,
            col <= 3,
            spec_leading_indent(line) == (col as nat, (k - start) as int),
        decreases end - k,
    {
        let c = bytes[k];
        if c == 32u8 {
            col = col + 1;
        } else if c == 9u8 {
            col = col + 4 - col % 4;
        } else {
            break;
        }
        k = k + 1;
        if col > 3 {
            proof {
                lemma_leading_indent_grows(line, (k - start) as int, col as nat);
            }
            return None;
        }
    }
    Some(k)
}

/// The first byte at or after `k` that does not start a whitespace scalar.
pub open spec fn spec_skip_ws(b: Seq<u8>, k: int) -> int
    decreases b.len() - k,
{
    if 0 <= k < b.len() && spec_ws_len_at(b, k) > 0 {
        spec_skip_ws(b, k + spec_ws_len_at(b, k))
    } else {
        k
    }
}

/// The first byte at or after `k` that does not start a whitespace scalar.
pub fn skip_ws(bytes: &[u8], k: usize) -> (r: usize)
    requires
        k <= bytes@.len(),
    ensures
        r == spec_skip_ws(bytes@, k as int),
        k <= r <= bytes@.len(),
{
    let n = bytes.len();
    let mut i = k;
    while i < n
        invariant
            n == bytes@.len(),
            k <= i <= n,
            spec_skip_ws(bytes@, i as int) == spec_skip_ws(bytes@, k as int),
        ensures
            k <= i <= n,
            i == spec_skip_ws(bytes@, k as int),
        decreases n - i,
    {
        let w = whitespace_len_at(bytes, i);
        if w == 0 {
            break;
        }
        i = i + w;
    }
    i
}

/// Whether `bytes[k..]` consists only of whitespace scalars.
pub fn all_ws_from(bytes: &[u8], k: usize) -> (r: bool)
    requires
        k <= bytes@.len(),
    ensures
        r == spec_all_ws_from(bytes@, k as int),
{
    let n = bytes.len();
    let mut i = k;
    while i < n
        invariant
            n == bytes@.len(),
            k <= i <= n,
            spec_all_ws_from(bytes@, i as int) == spec_all_ws_from(bytes@, k as int),
        decreases n - i,
    {
        let w = whitespace_len_at(bytes, i);
        if w == 0 {
            return false;
        }
        i = i + w;
    }
    true
}

/// Whether two byte strings are equal.
pub fn bytes_equal(a: &[u8], b: &[u8]) -> (r: bool)
    ensures
        r == (a@ == b@),
{
    let n = a.len();
    if n != b.len() {
        return false;
    }
    let mut k: usize = 0;
    while k < n
        invariant
            n == a@.len(),
            n == b@.len(),
            k <= n,
            forall|j: int| 0 <= j < k ==> a@[j] == b@[j],
        decreases n - k,
    {
        if a[k] != b[k] {
            return false;
        }
        k = k + 1;
    }
    assert(a@ =~= b@);
    true
}

} // verus!
