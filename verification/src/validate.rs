//! AST validation: [`Document::validate`] walks the tree and reports each
//! invalid or unsupported node shape as a [`Diagnostic`]. Serialization runs
//! this first and refuses an invalid document.
use vstd::prelude::*;
use vstd::utf8::encode_utf8;

use crate::ast::{
    Autolink, AutolinkKind, Block, CodeInline, ContainerDirective, DescriptionDetails,
    DescriptionItem, DirectiveAttribute, Document, Escape, Heading, Inline, LeafDirective, List,
    ListItem, MathInlineKind, Table, TableCell, TableRow, TextDirective,
};
use crate::diagnostic::{Diagnostic, DiagnosticCode, DiagnosticSeverity};
use crate::span::Span;
use crate::text::{
    is_all_whitespace, is_ascii_alnum, is_ascii_alpha, spec_all_ws_from, spec_is_ascii_alnum,
    spec_is_ascii_alpha, spec_ws_len_at, string_bytes, whitespace_len_at,
};

verus! {

// ---------------------------------------------------------------------------
// What a valid document is.
// ---------------------------------------------------------------------------

/// A directive name: an ASCII letter, then ASCII letters, digits, `_` or `-`.
pub open spec fn spec_is_directive_name(b: Seq<u8>) -> bool {
    &&& b.len() > 0
    &&& spec_is_ascii_alpha(b[0])
    &&& forall|k: int| 1 <= k < b.len() ==> spec_is_ascii_alnum(#[trigger] b[k]) || b[k] == 95u8 || b[k] == 45u8
}

/// A directive attribute name: an ASCII letter, `_` or `-`, then ASCII letters,
/// digits, `_`, `-` or `:`.
pub open spec fn spec_is_attribute_name(b: Seq<u8>) -> bool {
    &&& b.len() > 0
    &&& (spec_is_ascii_alpha(b[0]) || b[0] == 95u8 || b[0] == 45u8)
    &&& forall|k: int|
        1 <= k < b.len() ==> spec_is_ascii_alnum(#[trigger] b[k]) || b[k] == 95u8 || b[k] == 45u8
            || b[k] == 58u8
}

/// Whether `b[i..j]` is a maximal run of backticks.
pub open spec fn spec_is_tick_run(b: Seq<u8>, i: int, j: int) -> bool {
    &&& 0 <= i <= j <= b.len()
    &&& (i == 0 || b[i - 1] != 96u8)
    &&& (j == b.len() || b[j] != 96u8)
    &&& forall|k: int| i <= k < j ==> #[trigger] b[k] == 96u8
}

/// Whether `b` holds a maximal run of backticks of exactly `len` bytes.
pub open spec fn spec_has_backtick_run(b: Seq<u8>, len: nat) -> bool {
    exists|i: int, j: int| #[trigger] spec_is_tick_run(b, i, j) && j - i == len
}

/// Whether `b` holds a whitespace scalar, `<` or `>`.
pub open spec fn spec_has_ws_or_angle(b: Seq<u8>) -> bool {
    exists|k: int| 0 <= k < b.len() && (spec_ws_len_at(b, k) > 0 || b[k] == 60u8 || b[k] == 62u8)
}

/// Whether an inline node is well-formed (its own shape and its subtree).
pub open spec fn spec_inline_ok(node: Inline) -> bool
    decreases node,
{
    match node {
        Inline::Emphasis(n) => n.children@.len() > 0 && spec_inlines_ok(n.children@),
        Inline::Strong(n) => n.children@.len() > 0 && spec_inlines_ok(n.children@),
        Inline::Underline(n) => n.children@.len() > 0 && spec_inlines_ok(n.children@),
        Inline::Delete(n) => n.children@.len() > 0 && spec_inlines_ok(n.children@),
        Inline::Insert(n) => n.children@.len() > 0 && spec_inlines_ok(n.children@),
        Inline::Mark(n) => n.children@.len() > 0 && spec_inlines_ok(n.children@),
        Inline::Subscript(n) => n.children@.len() > 0 && spec_inlines_ok(n.children@),
        Inline::Superscript(n) => n.children@.len() > 0 && spec_inlines_ok(n.children@),
        Inline::Spoiler(n) => n.children@.len() > 0 && spec_inlines_ok(n.children@),
        Inline::Shortcode(n) => n.name@.len() > 0,
        Inline::Link(n) => spec_inlines_ok(n.children@),
        Inline::Image(n) => spec_inlines_ok(n.alt@),
        Inline::LinkReference(n) => n.identifier@.len() > 0 && spec_inlines_ok(n.children@),
        Inline::ImageReference(n) => n.identifier@.len() > 0 && spec_inlines_ok(n.alt@),
        Inline::Escape(n) => {
            let c = n.value as u32;
            (33 <= c <= 47) || (58 <= c <= 64) || (91 <= c <= 96) || (123 <= c <= 126)
        },
        Inline::CharacterReference(n) => n.reference@.len() > 0 && n.value@.len() > 0,
        Inline::TextDirective(n) => spec_is_directive_name(encode_utf8(n.name@))
            && spec_attributes_ok(n.attributes@) && spec_inlines_ok(n.label@),
        Inline::FootnoteReference(n) => n.identifier@.len() > 0,
        Inline::InlineFootnote(n) => spec_inlines_ok(n.children@),
        Inline::WikiLink(n) => n.target@.len() > 0,
        Inline::Code(n) => n.fence_length == 0 || !spec_has_backtick_run(
            encode_utf8(n.raw@),
            n.fence_length as nat,
        ),
        Inline::Autolink(n) => n.kind is GfmLiteral || !spec_has_ws_or_angle(
            encode_utf8(n.destination@),
        ),
        Inline::Math(n) => n.kind != (MathInlineKind::Dollar { dollars: 0 }),
        _ => true,
    }
}

/// Whether an inline sequence is well-formed: it does not end with a hard line
/// break, and every node is well-formed.
pub open spec fn spec_inlines_ok(s: Seq<Inline>) -> bool
    decreases s,
{
    &&& (s.len() == 0 || !(s.last() is LineBreak))
    &&& forall|k: int| 0 <= k < s.len() ==> spec_inline_ok(#[trigger] s[k])
}

/// Whether every directive attribute has a valid name.
pub open spec fn spec_attributes_ok(s: Seq<DirectiveAttribute>) -> bool {
    forall|k: int| 0 <= k < s.len() ==> spec_is_attribute_name(encode_utf8(#[trigger] s[k].name@))
}

/// Whether a block node is well-formed (its own shape and its subtree).
pub open spec fn spec_block_ok(node: Block) -> bool
    decreases node,
{
    match node {
        Block::Paragraph(n) => spec_inlines_ok(n.children@),
        Block::Heading(n) => 1 <= n.depth <= 6 && spec_inlines_ok(n.children@),
        Block::BlockQuote(n) => spec_blocks_ok(n.children@),
        Block::Alert(n) => spec_blocks_ok(n.children@),
        Block::List(n) => (!n.ordered || n.start is None || n.start->0 <= 999_999_999)
            && spec_items_ok(n.children@),
        Block::DescriptionList(n) => spec_description_items_ok(n.children@),
        Block::Table(n) => spec_table_ok(n),
        Block::FootnoteDefinition(n) => n.identifier@.len() > 0 && spec_blocks_ok(n.children@),
        Block::Definition(n) => !spec_all_ws_from(encode_utf8(n.identifier@), 0),
        Block::LeafDirective(n) => spec_is_directive_name(encode_utf8(n.name@))
            && spec_attributes_ok(n.attributes@) && spec_inlines_ok(n.label@),
        Block::ContainerDirective(n) => spec_is_directive_name(encode_utf8(n.name@))
            && spec_attributes_ok(n.attributes@) && spec_inlines_ok(n.label@) && spec_blocks_ok(
            n.children@,
        ),
        _ => true,
    }
}

/// Whether every block of a sequence is well-formed.
pub open spec fn spec_blocks_ok(s: Seq<Block>) -> bool
    decreases s,
{
    forall|k: int| 0 <= k < s.len() ==> spec_block_ok(#[trigger] s[k])
}

/// Whether every list item's blocks are well-formed.
pub open spec fn spec_items_ok(s: Seq<ListItem>) -> bool
    decreases s,
{
    forall|k: int| 0 <= k < s.len() ==> spec_blocks_ok(#[trigger] s[k].children@)
}

/// Whether every description item has a well-formed term and at least one,
/// well-formed, details group.
pub open spec fn spec_description_items_ok(s: Seq<DescriptionItem>) -> bool
    decreases s,
{
    forall|k: int|
        #![trigger s[k]]
        0 <= k < s.len() ==> spec_inlines_ok(s[k].term@) && s[k].details@.len() > 0
            && spec_details_ok(s[k].details@)
}

/// Whether every details group's blocks are well-formed.
pub open spec fn spec_details_ok(s: Seq<DescriptionDetails>) -> bool
    decreases s,
{
    forall|k: int| 0 <= k < s.len() ==> spec_blocks_ok(#[trigger] s[k].children@)
}

/// Whether a table has a non-empty header, one alignment per header cell,
/// rows of the header's width, and well-formed cells.
pub open spec fn spec_table_ok(t: Table) -> bool
    decreases t,
{
    &&& t.rows@.len() > 0
    &&& t.rows@[0].cells@.len() > 0
    &&& t.alignments@.len() == t.rows@[0].cells@.len()
    &&& forall|r: int|
        0 <= r < t.rows@.len() ==> (#[trigger] t.rows@[r]).cells@.len() == t.rows@[0].cells@.len()
            && spec_cells_ok(t.rows@[r].cells@)
}

/// Whether every table cell's inlines are well-formed.
pub open spec fn spec_cells_ok(s: Seq<TableCell>) -> bool
    decreases s,
{
    forall|k: int| 0 <= k < s.len() ==> spec_inlines_ok(#[trigger] s[k].children@)
}

/// Whether a document is well-formed.
pub open spec fn spec_document_ok(doc: Document) -> bool {
    spec_blocks_ok(doc.children@)
}

/// `d` extends `old` with validation diagnostics only.
pub open spec fn appends_invalid(old: Seq<Diagnostic>, d: Seq<Diagnostic>) -> bool {
    &&& d.len() >= old.len()
    &&& d.subrange(0, old.len() as int) == old
    &&& forall|k: int|
        old.len() <= k < d.len() ==> (#[trigger] d[k]).code == DiagnosticCode::InvalidDocument
            && d[k].severity == DiagnosticSeverity::Error
}

// ---------------------------------------------------------------------------
// What the validator reports: one diagnostic per failed check, in document
// order, each with the span of the offending node and a fixed message.
// ---------------------------------------------------------------------------

/// A reported problem: the span of the offending node and the message.
pub type Report = (Option<Span>, Seq<char>);

/// The span and message of a diagnostic.
pub open spec fn spec_report_of(d: Diagnostic) -> Report {
    (d.span, d.message@)
}

/// The spans and messages of a diagnostic list, in order.
pub open spec fn spec_reports_of(s: Seq<Diagnostic>) -> Seq<Report> {
    s.map_values(|d: Diagnostic| spec_report_of(d))
}

/// One report of `message` at `span` when the check `failed`, none otherwise.
pub open spec fn spec_report(failed: bool, span: Option<Span>, message: Seq<char>) -> Seq<Report> {
    if failed {
        seq![(span, message)]
    } else {
        seq![]
    }
}

/// The reports for an inline node and its subtree.
pub open spec fn spec_inline_reports(node: Inline) -> Seq<Report>
    decreases node, 0nat,
{
    match node {
        Inline::Emphasis(n) => spec_report(n.children@.len() == 0, n.meta.span, "emphasis-like inline container cannot have empty children"@) + spec_inlines_reports(n.children@),
        Inline::Strong(n) => spec_report(n.children@.len() == 0, n.meta.span, "emphasis-like inline container cannot have empty children"@) + spec_inlines_reports(n.children@),
        Inline::Underline(n) => spec_report(n.children@.len() == 0, n.meta.span, "emphasis-like inline container cannot have empty children"@) + spec_inlines_reports(n.children@),
        Inline::Delete(n) => spec_report(n.children@.len() == 0, n.meta.span, "emphasis-like inline container cannot have empty children"@) + spec_inlines_reports(n.children@),
        Inline::Insert(n) => spec_report(n.children@.len() == 0, n.meta.span, "emphasis-like inline container cannot have empty children"@) + spec_inlines_reports(n.children@),
        Inline::Mark(n) => spec_report(n.children@.len() == 0, n.meta.span, "emphasis-like inline container cannot have empty children"@) + spec_inlines_reports(n.children@),
        Inline::Subscript(n) => spec_report(n.children@.len() == 0, n.meta.span, "emphasis-like inline container cannot have empty children"@) + spec_inlines_reports(n.children@),
        Inline::Superscript(n) => spec_report(n.children@.len() == 0, n.meta.span, "emphasis-like inline container cannot have empty children"@) + spec_inlines_reports(n.children@),
        Inline::Spoiler(n) => spec_report(n.children@.len() == 0, n.meta.span, "emphasis-like inline container cannot have empty children"@) + spec_inlines_reports(n.children@),
        Inline::Shortcode(n) => spec_report(n.name@.len() == 0, n.meta.span, "shortcode name cannot be empty"@),
        Inline::Link(n) => spec_inlines_reports(n.children@),
        Inline::Image(n) => spec_inlines_reports(n.alt@),
        Inline::LinkReference(n) => spec_report(n.identifier@.len() == 0, n.meta.span, "link reference identifier cannot be empty"@) + spec_inlines_reports(n.children@),
        Inline::ImageReference(n) => spec_report(n.identifier@.len() == 0, n.meta.span, "image reference identifier cannot be empty"@) + spec_inlines_reports(n.alt@),
        Inline::Escape(n) => {
            let c = n.value as u32;
            spec_report(
                !((33 <= c <= 47) || (58 <= c <= 64) || (91 <= c <= 96) || (123 <= c <= 126)),
                n.meta.span,
                "escaped value must be an ASCII punctuation character"@,
            )
        },
        Inline::CharacterReference(n) => spec_report(n.reference@.len() == 0, n.meta.span, "character reference source cannot be empty"@) + spec_report(n.value@.len() == 0, n.meta.span, "character reference value cannot be empty"@),
        Inline::TextDirective(n) => spec_directive_reports(n.meta.span, n.name@, n.attributes@) + spec_inlines_reports(n.label@),
        Inline::FootnoteReference(n) => spec_report(n.identifier@.len() == 0, n.meta.span, "footnote reference identifier cannot be empty"@),
        Inline::InlineFootnote(n) => spec_inlines_reports(n.children@),
        Inline::WikiLink(n) => spec_report(n.target@.len() == 0, n.meta.span, "wikilink target cannot be empty"@),
        Inline::Code(n) => spec_report(
            n.fence_length != 0 && spec_has_backtick_run(encode_utf8(n.raw@), n.fence_length as nat),
            n.meta.span,
            "inline code raw passthrough contains a backtick run equal to its fence length"@,
        ),
        Inline::Autolink(n) => spec_report(
            !(n.kind is GfmLiteral) && spec_has_ws_or_angle(encode_utf8(n.destination@)),
            n.meta.span,
            "autolink destination cannot contain whitespace, `<`, or `>`"@,
        ),
        Inline::Math(n) => spec_report(n.kind == (MathInlineKind::Dollar { dollars: 0 }), n.meta.span, "dollar-fenced inline math must have a fence length of at least 1"@),
        _ => seq![],
    }
}

/// The reports for the inlines of one container: a final hard line break
/// first, then each node's reports in order.
pub open spec fn spec_inlines_reports(s: Seq<Inline>) -> Seq<Report>
    decreases s, 1nat,
{
    spec_report(
        s.len() > 0 && s.last() is LineBreak,
        crate::ast::spec_inline_meta(s.last()).span,
        "hard line break cannot be the final inline of its container"@,
    ) + spec_inline_list_reports(s)
}

/// Each node's reports, in order.
pub open spec fn spec_inline_list_reports(s: Seq<Inline>) -> Seq<Report>
    decreases s, 0nat,
{
    if s.len() == 0 {
        seq![]
    } else {
        spec_inline_list_reports(s.subrange(0, s.len() - 1)) + spec_inline_reports(s[s.len() - 1])
    }
}

/// The reports for each directive attribute whose name is invalid.
pub open spec fn spec_attribute_reports(s: Seq<DirectiveAttribute>) -> Seq<Report>
    decreases s,
{
    if s.len() == 0 {
        seq![]
    } else {
        spec_attribute_reports(s.subrange(0, s.len() - 1)) + spec_report(
            !spec_is_attribute_name(encode_utf8(s[s.len() - 1].name@)),
            None,
            "directive attribute name must start with a letter, `_`, or `-`"@,
        )
    }
}

/// The reports for a directive's name and attributes.
pub open spec fn spec_directive_reports(span: Option<Span>, name: Seq<char>, attributes: Seq<DirectiveAttribute>) -> Seq<Report> {
    spec_report(
        !spec_is_directive_name(encode_utf8(name)),
        span,
        "directive name must start with a letter and contain letters, digits, `_`, or `-`"@,
    ) + spec_attribute_reports(attributes)
}

/// The reports for table cells, cell by cell.
pub open spec fn spec_cells_reports(s: Seq<TableCell>) -> Seq<Report>
    decreases s,
{
    if s.len() == 0 {
        seq![]
    } else {
        spec_cells_reports(s.subrange(0, s.len() - 1)) + spec_inlines_reports(s[s.len() - 1].children@)
    }
}

/// The reports for table rows: each row's width, then its cells.
pub open spec fn spec_rows_reports(s: Seq<TableRow>, width: nat) -> Seq<Report>
    decreases s,
{
    if s.len() == 0 {
        seq![]
    } else {
        let row = s[s.len() - 1];
        spec_rows_reports(s.subrange(0, s.len() - 1), width) + spec_report(
            row.cells@.len() != width,
            row.meta.span,
            "table row width must match header width"@,
        ) + spec_cells_reports(row.cells@)
    }
}

/// The reports for a table.
pub open spec fn spec_table_reports(t: Table) -> Seq<Report> {
    if t.rows@.len() == 0 {
        spec_report(true, t.meta.span, "table must contain at least a header row"@)
    } else {
        let width = t.rows@[0].cells@.len();
        spec_report(width == 0, t.meta.span, "table header row must contain at least one cell"@)
            + spec_report(t.alignments@.len() != width, t.meta.span, "table alignment count must match header width"@)
            + spec_rows_reports(t.rows@, width)
    }
}

/// The reports for a block node and its subtree.
pub open spec fn spec_block_reports(node: Block) -> Seq<Report>
    decreases node,
{
    match node {
        Block::Paragraph(n) => spec_inlines_reports(n.children@),
        Block::Heading(n) => spec_report(n.depth == 0 || n.depth > 6, n.meta.span, "heading depth must be in the range 1..=6"@) + spec_inlines_reports(n.children@),
        Block::BlockQuote(n) => spec_blocks_reports(n.children@),
        Block::Alert(n) => spec_blocks_reports(n.children@),
        Block::List(n) => spec_report(
            n.ordered && n.start is Some && n.start->0 > 999_999_999,
            n.meta.span,
            "ordered list start must be representable in at most 9 digits"@,
        ) + spec_items_reports(n.children@),
        Block::DescriptionList(n) => spec_description_items_reports(n.children@),
        Block::Table(n) => spec_table_reports(n),
        Block::FootnoteDefinition(n) => spec_report(n.identifier@.len() == 0, n.meta.span, "footnote definition identifier cannot be empty"@) + spec_blocks_reports(n.children@),
        Block::Definition(n) => spec_report(spec_all_ws_from(encode_utf8(n.identifier@), 0), n.meta.span, "definition identifier cannot be empty"@),
        Block::LeafDirective(n) => spec_directive_reports(n.meta.span, n.name@, n.attributes@) + spec_inlines_reports(n.label@),
        Block::ContainerDirective(n) => spec_directive_reports(n.meta.span, n.name@, n.attributes@) + spec_inlines_reports(n.label@) + spec_blocks_reports(n.children@),
        _ => seq![],
    }
}

/// The reports for a block sequence, block by block.
pub open spec fn spec_blocks_reports(s: Seq<Block>) -> Seq<Report>
    decreases s,
{
    if s.len() == 0 {
        seq![]
    } else {
        spec_blocks_reports(s.subrange(0, s.len() - 1)) + spec_block_reports(s[s.len() - 1])
    }
}

/// The reports for list items' blocks.
pub open spec fn spec_items_reports(s: Seq<ListItem>) -> Seq<Report>
    decreases s,
{
    if s.len() == 0 {
        seq![]
    } else {
        spec_items_reports(s.subrange(0, s.len() - 1)) + spec_blocks_reports(s[s.len() - 1].children@)
    }
}

/// The reports for description items: each term, a missing details group,
/// then the details.
pub open spec fn spec_description_items_reports(s: Seq<DescriptionItem>) -> Seq<Report>
    decreases s,
{
    if s.len() == 0 {
        seq![]
    } else {
        let item = s[s.len() - 1];
        spec_description_items_reports(s.subrange(0, s.len() - 1)) + spec_inlines_reports(item.term@)
            + spec_report(item.details@.len() == 0, item.meta.span, "description item must contain at least one details block"@)
            + spec_details_reports(item.details@)
    }
}

/// The reports for details groups' blocks.
pub open spec fn spec_details_reports(s: Seq<DescriptionDetails>) -> Seq<Report>
    decreases s,
{
    if s.len() == 0 {
        seq![]
    } else {
        spec_details_reports(s.subrange(0, s.len() - 1)) + spec_blocks_reports(s[s.len() - 1].children@)
    }
}

/// The reports for a document: those of its blocks, in document order.
pub open spec fn spec_document_reports(doc: Document) -> Seq<Report> {
    spec_blocks_reports(doc.children@)
}

// ---------------------------------------------------------------------------
// The walk.
// ---------------------------------------------------------------------------

impl Document {
    /// Validate this document's AST shape, returning a diagnostic for each
    /// invalid or unsupported node (empty when the document is well-formed).
    pub fn validate(&self) -> (r: Vec<Diagnostic>)
        ensures
            r@.len() == 0 <==> spec_document_ok(*self),
            spec_reports_of(r@) == spec_document_reports(*self),
            forall|k: int|
                0 <= k < r@.len() ==> (#[trigger] r@[k]).code == DiagnosticCode::InvalidDocument
                    && r@[k].severity == DiagnosticSeverity::Error,
    {
        validate_document(self)
    }
}

/// The diagnostics of [`Document::validate`].
pub fn validate_document(document: &Document) -> (r: Vec<Diagnostic>)
    ensures
        r@.len() == 0 <==> spec_document_ok(*document),
        spec_reports_of(r@) == spec_document_reports(*document),
        forall|k: int|
            0 <= k < r@.len() ==> (#[trigger] r@[k]).code == DiagnosticCode::InvalidDocument
                && r@[k].severity == DiagnosticSeverity::Error,
{
    let mut diagnostics: Vec<Diagnostic> = Vec::new();
    proof {
        assert(spec_reports_of(diagnostics@) =~= seq![]);
    }
    validate_blocks(document.children.as_slice(), &mut diagnostics);
    proof {
        assert(spec_reports_of(diagnostics@) =~= spec_blocks_reports(document.children@));
    }
    diagnostics
}

fn push_invalid(diagnostics: &mut Vec<Diagnostic>, span: Option<Span>, message: &str)
    ensures
        final(diagnostics)@.len() == old(diagnostics)@.len() + 1,
        appends_invalid(old(diagnostics)@, final(diagnostics)@),
        final(diagnostics)@[old(diagnostics)@.len() as int].span == span,
        final(diagnostics)@[old(diagnostics)@.len() as int].message@ == message@,
        spec_reports_of(final(diagnostics)@) == spec_reports_of(old(diagnostics)@) + seq![(span, message@)],
{
    diagnostics.push(Diagnostic::invalid(span, message));
    assert(spec_reports_of(final(diagnostics)@) =~= spec_reports_of(old(diagnostics)@) + seq![(span, message@)]);
    assert(final(diagnostics)@.subrange(0, old(diagnostics)@.len() as int) =~= old(diagnostics)@);
}

fn push_invalid_if(diagnostics: &mut Vec<Diagnostic>, cond: bool, span: Option<Span>, message: &str)
    ensures
        final(diagnostics)@.len() == old(diagnostics)@.len() + (if cond { 1int } else { 0int }),
        appends_invalid(old(diagnostics)@, final(diagnostics)@),
        spec_reports_of(final(diagnostics)@) == spec_reports_of(old(diagnostics)@) + spec_report(cond, span, message@),
{
    if cond {
        push_invalid(diagnostics, span, message);
    } else {
        proof {
            lemma_appends_refl(diagnostics@);
            assert(spec_reports_of(diagnostics@) =~= spec_reports_of(diagnostics@) + spec_report(cond, span, message@));
        }
    }
}

/// Reports appended in two steps are the two lists' concatenation.
proof fn lemma_chain(a: Seq<Report>, x: Seq<Report>, b: Seq<Report>, y: Seq<Report>, c: Seq<Report>)
    requires
        b == a + x,
        c == b + y,
    ensures
        c == a + (x + y),
{
    assert(c =~= a + (x + y));
}

/// Nothing appended.
proof fn lemma_none(a: Seq<Report>)
    ensures
        a == a + Seq::<Report>::empty(),
{
    assert(a =~= a + Seq::<Report>::empty());
}

proof fn lemma_appends_trans(a: Seq<Diagnostic>, b: Seq<Diagnostic>, c: Seq<Diagnostic>)
    requires
        appends_invalid(a, b),
        appends_invalid(b, c),
    ensures
        appends_invalid(a, c),
{
    assert forall|k: int| 0 <= k < a.len() implies c[k] == a[k] by {
        assert(c.subrange(0, b.len() as int)[k] == c[k]);
        assert(b.subrange(0, a.len() as int)[k] == b[k]);
    }
    assert(c.subrange(0, a.len() as int) =~= a);
    assert forall|k: int| a.len() <= k < c.len() implies (#[trigger] c[k]).code
        == DiagnosticCode::InvalidDocument && c[k].severity == DiagnosticSeverity::Error by {
        if k < b.len() {
            assert(c.subrange(0, b.len() as int)[k] == c[k]);
            assert(b[k].code == DiagnosticCode::InvalidDocument);
        }
    }
}

proof fn lemma_appends_refl(a: Seq<Diagnostic>)
    ensures
        appends_invalid(a, a),
{
    assert(a.subrange(0, a.len() as int) =~= a);
}

fn validate_blocks(blocks: &[Block], diagnostics: &mut Vec<Diagnostic>)
    ensures
        appends_invalid(old(diagnostics)@, final(diagnostics)@),
        spec_reports_of(final(diagnostics)@) == spec_reports_of(old(diagnostics)@) + spec_blocks_reports(blocks@),
        final(diagnostics)@.len() == old(diagnostics)@.len() <==> spec_blocks_ok(blocks@),
    decreases blocks@, 2nat,
{
    let ghost start = diagnostics@;
    proof {
        lemma_appends_refl(start);
    }
    proof {
        assert(spec_blocks_reports(blocks@.subrange(0, 0)) =~= Seq::<Report>::empty());
        lemma_none(spec_reports_of(diagnostics@));
    }
    let mut i: usize = 0;
    while i < blocks.len()
        invariant
            i <= blocks@.len(),
            appends_invalid(start, diagnostics@),
            spec_reports_of(diagnostics@) == spec_reports_of(start) + spec_blocks_reports(blocks@.subrange(0, i as int)),
            diagnostics@.len() == start.len() <==> forall|k: int| 0 <= k < i ==> spec_block_ok(#[trigger] blocks@[k]),
        decreases blocks@.len() - i,
    {
        let ghost before = diagnostics@;
        proof {
            assert(blocks@.subrange(0, i + 1).subrange(0, i as int) =~= blocks@.subrange(0, i as int));
            assert(blocks@.subrange(0, i + 1)[i as int] == blocks@[i as int]);
        }
        let ghost pre = spec_reports_of(diagnostics@);
        validate_block(&blocks[i], diagnostics);
        proof {
            lemma_appends_trans(start, before, diagnostics@);
        }
        i = i + 1;
    }
    proof {
        assert(blocks@.subrange(0, i as int) =~= blocks@);
    }
}

fn validate_block(block: &Block, diagnostics: &mut Vec<Diagnostic>)
    ensures
        appends_invalid(old(diagnostics)@, final(diagnostics)@),
        spec_reports_of(final(diagnostics)@) == spec_reports_of(old(diagnostics)@) + spec_block_reports(*block),
        final(diagnostics)@.len() == old(diagnostics)@.len() <==> spec_block_ok(*block),
    decreases *block, 1nat,
{
    let ghost start = diagnostics@;
    proof {
        lemma_appends_refl(start);
    }
    match block {
        Block::Paragraph(paragraph) => validate_inlines(paragraph.children.as_slice(), diagnostics),
        Block::Heading(heading) => validate_heading(heading, diagnostics),
        Block::BlockQuote(block_quote) => validate_blocks(block_quote.children.as_slice(), diagnostics),
        Block::Alert(alert) => validate_blocks(alert.children.as_slice(), diagnostics),
        Block::List(list) => {
            validate_list_start(list, diagnostics);
            let ghost mid = diagnostics@;
            validate_items(list.children.as_slice(), diagnostics);
            proof {
                lemma_appends_trans(start, mid, diagnostics@);
            }
        },
        Block::DescriptionList(list) => validate_description_items(list.children.as_slice(), diagnostics),
        Block::Table(table) => validate_table(table, diagnostics),
        Block::FootnoteDefinition(definition) => {
            push_invalid_if(diagnostics, definition.identifier.as_str().is_empty(), definition.meta.span, "footnote definition identifier cannot be empty");
            let ghost mid = diagnostics@;
            validate_blocks(definition.children.as_slice(), diagnostics);
            proof {
                lemma_appends_trans(start, mid, diagnostics@);
            }
        },
        Block::Definition(definition) => {
            push_invalid_if(diagnostics, is_all_whitespace(string_bytes(&definition.identifier)), definition.meta.span, "definition identifier cannot be empty");
        },
        Block::LeafDirective(directive) => validate_leaf_directive(directive, diagnostics),
        Block::ContainerDirective(directive) => validate_container_directive(directive, diagnostics),
        _ => {},
    }
}

fn validate_items(items: &[ListItem], diagnostics: &mut Vec<Diagnostic>)
    ensures
        appends_invalid(old(diagnostics)@, final(diagnostics)@),
        spec_reports_of(final(diagnostics)@) == spec_reports_of(old(diagnostics)@) + spec_items_reports(items@),
        final(diagnostics)@.len() == old(diagnostics)@.len() <==> spec_items_ok(items@),
    decreases items@, 2nat,
{
    let ghost start = diagnostics@;
    proof {
        lemma_appends_refl(start);
    }
    proof {
        assert(spec_items_reports(items@.subrange(0, 0)) =~= Seq::<Report>::empty());
        lemma_none(spec_reports_of(diagnostics@));
    }
    let mut i: usize = 0;
    while i < items.len()
        invariant
            i <= items@.len(),
            appends_invalid(start, diagnostics@),
            spec_reports_of(diagnostics@) == spec_reports_of(start) + spec_items_reports(items@.subrange(0, i as int)),
            diagnostics@.len() == start.len() <==> forall|k: int|
                0 <= k < i ==> spec_blocks_ok(#[trigger] items@[k].children@),
        decreases items@.len() - i,
    {
        let ghost before = diagnostics@;
        proof {
            assert(items@.subrange(0, i + 1).subrange(0, i as int) =~= items@.subrange(0, i as int));
            assert(items@.subrange(0, i + 1)[i as int] == items@[i as int]);
        }
        let ghost pre = spec_reports_of(diagnostics@);
        validate_blocks(items[i].children.as_slice(), diagnostics);
        proof {
            lemma_appends_trans(start, before, diagnostics@);
        }
        i = i + 1;
    }
    proof {
        assert(items@.subrange(0, i as int) =~= items@);
    }
}

fn validate_description_items(items: &[DescriptionItem], diagnostics: &mut Vec<Diagnostic>)
    ensures
        appends_invalid(old(diagnostics)@, final(diagnostics)@),
        spec_reports_of(final(diagnostics)@) == spec_reports_of(old(diagnostics)@) + spec_description_items_reports(items@),
        final(diagnostics)@.len() == old(diagnostics)@.len() <==> spec_description_items_ok(items@),
    decreases items@, 2nat,
{
    let ghost start = diagnostics@;
    proof {
        lemma_appends_refl(start);
    }
    proof {
        assert(spec_description_items_reports(items@.subrange(0, 0)) =~= Seq::<Report>::empty());
        lemma_none(spec_reports_of(diagnostics@));
    }
    let mut i: usize = 0;
    while i < items.len()
        invariant
            i <= items@.len(),
            appends_invalid(start, diagnostics@),
            spec_reports_of(diagnostics@) == spec_reports_of(start) + spec_description_items_reports(items@.subrange(0, i as int)),
            diagnostics@.len() == start.len() <==> forall|k: int|
                #![trigger items@[k]]
                0 <= k < i ==> spec_inlines_ok(items@[k].term@) && items@[k].details@.len() > 0
                    && spec_details_ok(items@[k].details@),
        decreases items@.len() - i,
    {
        let ghost before = diagnostics@;
        proof {
            assert(items@.subrange(0, i + 1).subrange(0, i as int) =~= items@.subrange(0, i as int));
            assert(items@.subrange(0, i + 1)[i as int] == items@[i as int]);
        }
        let ghost pre = spec_reports_of(diagnostics@);
        let item = &items[i];
        validate_inlines(item.term.as_slice(), diagnostics);
        let ghost m1 = diagnostics@;
        push_invalid_if(diagnostics, item.details.len() == 0, item.meta.span, "description item must contain at least one details block");
        let ghost m2 = diagnostics@;
        validate_details(item.details.as_slice(), diagnostics);
        proof {
            lemma_appends_trans(before, m1, m2);
            lemma_appends_trans(before, m2, diagnostics@);
            lemma_appends_trans(start, before, diagnostics@);
            assert(diagnostics@.len() == before.len() <==> (spec_inlines_ok(items@[i as int].term@)
                && items@[i as int].details@.len() > 0 && spec_details_ok(items@[i as int].details@)));
        }
        i = i + 1;
    }
    proof {
        assert(items@.subrange(0, i as int) =~= items@);
    }
}

fn validate_details(details: &[DescriptionDetails], diagnostics: &mut Vec<Diagnostic>)
    ensures
        appends_invalid(old(diagnostics)@, final(diagnostics)@),
        spec_reports_of(final(diagnostics)@) == spec_reports_of(old(diagnostics)@) + spec_details_reports(details@),
        final(diagnostics)@.len() == old(diagnostics)@.len() <==> spec_details_ok(details@),
    decreases details@, 2nat,
{
    let ghost start = diagnostics@;
    proof {
        lemma_appends_refl(start);
    }
    proof {
        assert(spec_details_reports(details@.subrange(0, 0)) =~= Seq::<Report>::empty());
        lemma_none(spec_reports_of(diagnostics@));
    }
    let mut i: usize = 0;
    while i < details.len()
        invariant
            i <= details@.len(),
            appends_invalid(start, diagnostics@),
            spec_reports_of(diagnostics@) == spec_reports_of(start) + spec_details_reports(details@.subrange(0, i as int)),
            diagnostics@.len() == start.len() <==> forall|k: int|
                0 <= k < i ==> spec_blocks_ok(#[trigger] details@[k].children@),
        decreases details@.len() - i,
    {
        let ghost before = diagnostics@;
        proof {
            assert(details@.subrange(0, i + 1).subrange(0, i as int) =~= details@.subrange(0, i as int));
            assert(details@.subrange(0, i + 1)[i as int] == details@[i as int]);
        }
        let ghost pre = spec_reports_of(diagnostics@);
        validate_blocks(details[i].children.as_slice(), diagnostics);
        proof {
            lemma_appends_trans(start, before, diagnostics@);
        }
        i = i + 1;
    }
    proof {
        assert(details@.subrange(0, i as int) =~= details@);
    }
}

fn validate_heading(heading: &Heading, diagnostics: &mut Vec<Diagnostic>)
    ensures
        appends_invalid(old(diagnostics)@, final(diagnostics)@),
        spec_reports_of(final(diagnostics)@) == spec_reports_of(old(diagnostics)@) + (spec_report(heading.depth == 0 || heading.depth > 6, heading.meta.span, "heading depth must be in the range 1..=6"@) + spec_inlines_reports(heading.children@)),
        final(diagnostics)@.len() == old(diagnostics)@.len() <==> (1 <= heading.depth <= 6
            && spec_inlines_ok(heading.children@)),
    decreases *heading, 0nat,
{
    let ghost start = diagnostics@;
    proof {
        lemma_appends_refl(start);
    }
    push_invalid_if(diagnostics, heading.depth == 0 || heading.depth > 6, heading.meta.span, "heading depth must be in the range 1..=6");
    let ghost mid = diagnostics@;
    validate_inlines(heading.children.as_slice(), diagnostics);
    proof {
        lemma_appends_trans(start, mid, diagnostics@);
    }
}

fn validate_table(table: &Table, diagnostics: &mut Vec<Diagnostic>)
    ensures
        appends_invalid(old(diagnostics)@, final(diagnostics)@),
        spec_reports_of(final(diagnostics)@) == spec_reports_of(old(diagnostics)@) + spec_table_reports(*table),
        final(diagnostics)@.len() == old(diagnostics)@.len() <==> spec_table_ok(*table),
    decreases *table, 0nat,
{
    let ghost start = diagnostics@;
    proof {
        lemma_appends_refl(start);
    }
    if table.rows.len() == 0 {
        push_invalid(diagnostics, table.meta.span, "table must contain at least a header row");
        return;
    }
    let width = table.rows[0].cells.len();
    push_invalid_if(diagnostics, width == 0, table.meta.span, "table header row must contain at least one cell");
    let ghost m1 = diagnostics@;
    push_invalid_if(diagnostics, table.alignments.len() != width, table.meta.span, "table alignment count must match header width");
    let ghost m2 = diagnostics@;
    proof {
        lemma_appends_trans(start, m1, m2);
        lemma_appends_refl(m2);
        assert(spec_rows_reports(table.rows@.subrange(0, 0), width as nat) =~= Seq::<Report>::empty());
        lemma_none(spec_reports_of(m2));
    }
    let ghost head = spec_report(width == 0, table.meta.span, "table header row must contain at least one cell"@)
        + spec_report(table.alignments@.len() != width, table.meta.span, "table alignment count must match header width"@);
    let mut i: usize = 0;
    while i < table.rows.len()
        invariant
            i <= table.rows@.len(),
            width == table.rows@[0].cells@.len(),
            spec_reports_of(m2) == spec_reports_of(start) + head,
            spec_reports_of(diagnostics@) == spec_reports_of(m2) + spec_rows_reports(table.rows@.subrange(0, i as int), width as nat),
            appends_invalid(start, m2),
            appends_invalid(m2, diagnostics@),
            m2.len() == start.len() <==> (width > 0 && table.alignments@.len() == width),
            diagnostics@.len() == m2.len() <==> forall|r: int|
                0 <= r < i ==> (#[trigger] table.rows@[r]).cells@.len() == width && spec_cells_ok(
                    table.rows@[r].cells@,
                ),
        decreases table.rows@.len() - i,
    {
        let ghost before = diagnostics@;
        proof {
            assert(table.rows@.subrange(0, i + 1).subrange(0, i as int) =~= table.rows@.subrange(0, i as int));
            assert(table.rows@.subrange(0, i + 1)[i as int] == table.rows@[i as int]);
        }
        let row = &table.rows[i];
        push_invalid_if(diagnostics, row.cells.len() != width, row.meta.span, "table row width must match header width");
        let ghost mid = diagnostics@;
        validate_cells(row.cells.as_slice(), diagnostics);
        proof {
            lemma_appends_trans(before, mid, diagnostics@);
            lemma_appends_trans(m2, before, diagnostics@);
        }
        i = i + 1;
    }
    proof {
        lemma_appends_trans(start, m2, diagnostics@);
        assert(table.rows@.subrange(0, i as int) =~= table.rows@);
        lemma_chain(spec_reports_of(start), head, spec_reports_of(m2), spec_rows_reports(table.rows@, width as nat), spec_reports_of(diagnostics@));
    }
}

fn validate_cells(cells: &[TableCell], diagnostics: &mut Vec<Diagnostic>)
    ensures
        appends_invalid(old(diagnostics)@, final(diagnostics)@),
        spec_reports_of(final(diagnostics)@) == spec_reports_of(old(diagnostics)@) + spec_cells_reports(cells@),
        final(diagnostics)@.len() == old(diagnostics)@.len() <==> spec_cells_ok(cells@),
    decreases cells@, 2nat,
{
    let ghost start = diagnostics@;
    proof {
        lemma_appends_refl(start);
    }
    proof {
        assert(spec_cells_reports(cells@.subrange(0, 0)) =~= Seq::<Report>::empty());
        lemma_none(spec_reports_of(diagnostics@));
    }
    let mut i: usize = 0;
    while i < cells.len()
        invariant
            i <= cells@.len(),
            appends_invalid(start, diagnostics@),
            spec_reports_of(diagnostics@) == spec_reports_of(start) + spec_cells_reports(cells@.subrange(0, i as int)),
            diagnostics@.len() == start.len() <==> forall|k: int|
                0 <= k < i ==> spec_inlines_ok(#[trigger] cells@[k].children@),
        decreases cells@.len() - i,
    {
        let ghost before = diagnostics@;
        proof {
            assert(cells@.subrange(0, i + 1).subrange(0, i as int) =~= cells@.subrange(0, i as int));
            assert(cells@.subrange(0, i + 1)[i as int] == cells@[i as int]);
        }
        let ghost pre = spec_reports_of(diagnostics@);
        validate_inlines(cells[i].children.as_slice(), diagnostics);
        proof {
            lemma_appends_trans(start, before, diagnostics@);
        }
        i = i + 1;
    }
    proof {
        assert(cells@.subrange(0, i as int) =~= cells@);
    }
}

fn validate_leaf_directive(directive: &LeafDirective, diagnostics: &mut Vec<Diagnostic>)
    ensures
        appends_invalid(old(diagnostics)@, final(diagnostics)@),
        spec_reports_of(final(diagnostics)@) == spec_reports_of(old(diagnostics)@) + (spec_directive_reports(directive.meta.span, directive.name@, directive.attributes@) + spec_inlines_reports(directive.label@)),
        final(diagnostics)@.len() == old(diagnostics)@.len() <==> (spec_is_directive_name(
            encode_utf8(directive.name@),
        ) && spec_attributes_ok(directive.attributes@) && spec_inlines_ok(directive.label@)),
    decreases *directive, 0nat,
{
    let ghost start = diagnostics@;
    validate_directive_name(directive.meta.span, &directive.name, diagnostics);
    let ghost m1 = diagnostics@;
    validate_directive_attributes(directive.attributes.as_slice(), diagnostics);
    let ghost m2 = diagnostics@;
    validate_inlines(directive.label.as_slice(), diagnostics);
    proof {
        lemma_appends_trans(start, m1, m2);
        lemma_appends_trans(start, m2, diagnostics@);
    }
}

fn validate_container_directive(directive: &ContainerDirective, diagnostics: &mut Vec<Diagnostic>)
    ensures
        appends_invalid(old(diagnostics)@, final(diagnostics)@),
        spec_reports_of(final(diagnostics)@) == spec_reports_of(old(diagnostics)@) + (spec_directive_reports(directive.meta.span, directive.name@, directive.attributes@) + spec_inlines_reports(directive.label@) + spec_blocks_reports(directive.children@)),
        final(diagnostics)@.len() == old(diagnostics)@.len() <==> (spec_is_directive_name(
            encode_utf8(directive.name@),
        ) && spec_attributes_ok(directive.attributes@) && spec_inlines_ok(directive.label@)
            && spec_blocks_ok(directive.children@)),
    decreases *directive, 0nat,
{
    let ghost start = diagnostics@;
    validate_directive_name(directive.meta.span, &directive.name, diagnostics);
    let ghost m1 = diagnostics@;
    validate_directive_attributes(directive.attributes.as_slice(), diagnostics);
    let ghost m2 = diagnostics@;
    validate_inlines(directive.label.as_slice(), diagnostics);
    let ghost m3 = diagnostics@;
    validate_blocks(directive.children.as_slice(), diagnostics);
    proof {
        lemma_appends_trans(start, m1, m2);
        lemma_appends_trans(start, m2, m3);
        lemma_appends_trans(start, m3, diagnostics@);
    }
}

fn validate_inlines(inlines: &[Inline], diagnostics: &mut Vec<Diagnostic>)
    ensures
        appends_invalid(old(diagnostics)@, final(diagnostics)@),
        spec_reports_of(final(diagnostics)@) == spec_reports_of(old(diagnostics)@) + spec_inlines_reports(inlines@),
        final(diagnostics)@.len() == old(diagnostics)@.len() <==> spec_inlines_ok(inlines@),
        inlines@.len() > 0 && inlines@.last() is LineBreak ==> {
            let d = final(diagnostics)@[old(diagnostics)@.len() as int];
            &&& d.span == crate::ast::spec_inline_meta(inlines@.last()).span
            &&& d.message@ == "hard line break cannot be the final inline of its container"@
        },
    decreases inlines@, 2nat,
{
    let ghost start = diagnostics@;
    proof {
        lemma_appends_refl(start);
    }
    let n = inlines.len();
    if n > 0 {
        if let Inline::LineBreak(node) = &inlines[n - 1] {
            push_invalid(
                diagnostics,
                node.meta.span,
                "hard line break cannot be the final inline of its container",
            );
        }
    }
    let ghost m1 = diagnostics@;
    let ghost head = spec_report(
        inlines@.len() > 0 && inlines@.last() is LineBreak,
        crate::ast::spec_inline_meta(inlines@.last()).span,
        "hard line break cannot be the final inline of its container"@,
    );
    proof {
        lemma_appends_refl(m1);
        if n > 0 && inlines@.last() is LineBreak {
            assert(spec_reports_of(m1) == spec_reports_of(start) + head);
        } else {
            lemma_none(spec_reports_of(start));
            assert(spec_reports_of(m1) == spec_reports_of(start) + head);
        }
        assert(spec_inline_list_reports(inlines@.subrange(0, 0)) =~= Seq::<Report>::empty());
        lemma_none(spec_reports_of(m1));
    }
    let mut i: usize = 0;
    while i < n
        invariant
            n == inlines@.len(),
            i <= n,
            spec_reports_of(m1) == spec_reports_of(start) + head,
            spec_reports_of(diagnostics@) == spec_reports_of(m1) + spec_inline_list_reports(inlines@.subrange(0, i as int)),
            appends_invalid(start, m1),
            appends_invalid(m1, diagnostics@),
            m1.len() == start.len() <==> (n == 0 || !(inlines@.last() is LineBreak)),
            diagnostics@.len() == m1.len() <==> forall|k: int| 0 <= k < i ==> spec_inline_ok(#[trigger] inlines@[k]),
        decreases n - i,
    {
        let ghost before = diagnostics@;
        proof {
            assert(inlines@.subrange(0, i + 1).subrange(0, i as int) =~= inlines@.subrange(0, i as int));
            assert(inlines@.subrange(0, i + 1)[i as int] == inlines@[i as int]);
        }
        validate_inline(&inlines[i], diagnostics);
        proof {
            lemma_appends_trans(m1, before, diagnostics@);
        }
        i = i + 1;
    }
    proof {
        assert(inlines@.subrange(0, i as int) =~= inlines@);
        lemma_chain(spec_reports_of(start), head, spec_reports_of(m1), spec_inline_list_reports(inlines@), spec_reports_of(diagnostics@));
        lemma_appends_trans(start, m1, diagnostics@);
        if n > 0 && inlines@.last() is LineBreak {
            assert(diagnostics@.subrange(0, m1.len() as int)[start.len() as int] == diagnostics@[start.len() as int]);
        }
    }
}

fn validate_emphasis_container(children: &[Inline], span: Option<Span>, diagnostics: &mut Vec<Diagnostic>)
    ensures
        appends_invalid(old(diagnostics)@, final(diagnostics)@),
        spec_reports_of(final(diagnostics)@) == spec_reports_of(old(diagnostics)@) + (spec_report(children@.len() == 0, span, "emphasis-like inline container cannot have empty children"@) + spec_inlines_reports(children@)),
        final(diagnostics)@.len() == old(diagnostics)@.len() <==> (children@.len() > 0
            && spec_inlines_ok(children@)),
    decreases children@, 3nat,
{
    let ghost start = diagnostics@;
    proof {
        lemma_appends_refl(start);
    }
    push_invalid_if(diagnostics, children.len() == 0, span, "emphasis-like inline container cannot have empty children");
    let ghost mid = diagnostics@;
    validate_inlines(children, diagnostics);
    proof {
        lemma_appends_trans(start, mid, diagnostics@);
    }
}

fn validate_inline(inline: &Inline, diagnostics: &mut Vec<Diagnostic>)
    ensures
        appends_invalid(old(diagnostics)@, final(diagnostics)@),
        spec_reports_of(final(diagnostics)@) == spec_reports_of(old(diagnostics)@) + spec_inline_reports(*inline),
        final(diagnostics)@.len() == old(diagnostics)@.len() <==> spec_inline_ok(*inline),
    decreases *inline, 1nat,
{
    let ghost start = diagnostics@;
    proof {
        lemma_appends_refl(start);
    }
    match inline {
        Inline::Emphasis(node) => validate_emphasis_container(node.children.as_slice(), node.meta.span, diagnostics),
        Inline::Strong(node) => validate_emphasis_container(node.children.as_slice(), node.meta.span, diagnostics),
        Inline::Underline(node) => validate_emphasis_container(node.children.as_slice(), node.meta.span, diagnostics),
        Inline::Delete(node) => validate_emphasis_container(node.children.as_slice(), node.meta.span, diagnostics),
        Inline::Insert(node) => validate_emphasis_container(node.children.as_slice(), node.meta.span, diagnostics),
        Inline::Mark(node) => validate_emphasis_container(node.children.as_slice(), node.meta.span, diagnostics),
        Inline::Subscript(node) => validate_emphasis_container(node.children.as_slice(), node.meta.span, diagnostics),
        Inline::Superscript(node) => validate_emphasis_container(node.children.as_slice(), node.meta.span, diagnostics),
        Inline::Spoiler(node) => validate_emphasis_container(node.children.as_slice(), node.meta.span, diagnostics),
        Inline::Shortcode(node) => {
            push_invalid_if(diagnostics, node.name.as_str().is_empty(), node.meta.span, "shortcode name cannot be empty");
        },
        Inline::Link(node) => validate_inlines(node.children.as_slice(), diagnostics),
        Inline::Image(node) => validate_inlines(node.alt.as_slice(), diagnostics),
        Inline::LinkReference(node) => {
            push_invalid_if(diagnostics, node.identifier.as_str().is_empty(), node.meta.span, "link reference identifier cannot be empty");
            let ghost mid = diagnostics@;
            validate_inlines(node.children.as_slice(), diagnostics);
            proof {
                lemma_appends_trans(start, mid, diagnostics@);
            }
        },
        Inline::ImageReference(node) => {
            push_invalid_if(diagnostics, node.identifier.as_str().is_empty(), node.meta.span, "image reference identifier cannot be empty");
            let ghost mid = diagnostics@;
            validate_inlines(node.alt.as_slice(), diagnostics);
            proof {
                lemma_appends_trans(start, mid, diagnostics@);
            }
        },
        Inline::Escape(node) => validate_escape(node, diagnostics),
        Inline::CharacterReference(node) => {
            push_invalid_if(diagnostics, node.reference.as_str().is_empty(), node.meta.span, "character reference source cannot be empty");
            let ghost mid = diagnostics@;
            push_invalid_if(diagnostics, node.value.as_str().is_empty(), node.meta.span, "character reference value cannot be empty");
            proof {
                lemma_appends_trans(start, mid, diagnostics@);
            }
        },
        Inline::TextDirective(node) => validate_text_directive(node, diagnostics),
        Inline::FootnoteReference(node) => {
            push_invalid_if(diagnostics, node.identifier.as_str().is_empty(), node.meta.span, "footnote reference identifier cannot be empty");
        },
        Inline::InlineFootnote(node) => validate_inlines(node.children.as_slice(), diagnostics),
        Inline::WikiLink(node) => {
            push_invalid_if(diagnostics, node.target.as_str().is_empty(), node.meta.span, "wikilink target cannot be empty");
        },
        Inline::Code(node) => validate_code_inline(node, diagnostics),
        Inline::Autolink(node) => validate_autolink(node, diagnostics),
        Inline::Math(node) => {
            let zero = match node.kind {
                MathInlineKind::Dollar { dollars } => dollars == 0,
                MathInlineKind::Code => false,
            };
            push_invalid_if(
                diagnostics,
                zero,
                node.meta.span,
                "dollar-fenced inline math must have a fence length of at least 1",
            );
        },
        _ => {},
    }
}

fn validate_escape(escape: &Escape, diagnostics: &mut Vec<Diagnostic>)
    ensures
        appends_invalid(old(diagnostics)@, final(diagnostics)@),
        spec_reports_of(final(diagnostics)@) == spec_reports_of(old(diagnostics)@) + spec_report(!({ let c = escape.value as u32; (33 <= c <= 47) || (58 <= c <= 64) || (91 <= c <= 96) || (123 <= c <= 126) }), escape.meta.span, "escaped value must be an ASCII punctuation character"@),
        final(diagnostics)@.len() == old(diagnostics)@.len() <==> ({
            let c = escape.value as u32;
            (33 <= c <= 47) || (58 <= c <= 64) || (91 <= c <= 96) || (123 <= c <= 126)
        }),
{
    proof {
        lemma_appends_refl(diagnostics@);
    }
    let c = escape.value as u32;
    push_invalid_if(diagnostics, !((33 <= c && c <= 47) || (58 <= c && c <= 64) || (91 <= c && c <= 96) || (123 <= c && c <= 126)), escape.meta.span, "escaped value must be an ASCII punctuation character");
}

fn validate_autolink(autolink: &Autolink, diagnostics: &mut Vec<Diagnostic>)
    ensures
        appends_invalid(old(diagnostics)@, final(diagnostics)@),
        spec_reports_of(final(diagnostics)@) == spec_reports_of(old(diagnostics)@) + spec_report(!(autolink.kind is GfmLiteral) && spec_has_ws_or_angle(encode_utf8(autolink.destination@)), autolink.meta.span, "autolink destination cannot contain whitespace, `<`, or `>`"@),
        final(diagnostics)@.len() == old(diagnostics)@.len() <==> (autolink.kind is GfmLiteral
            || !spec_has_ws_or_angle(encode_utf8(autolink.destination@))),
{
    proof {
        lemma_appends_refl(diagnostics@);
    }
    // GFM literal autolinks carry a synthesized destination that may contain
    // `>`; only angle-bracket autolinks forbid whitespace, `<`, and `>`.
    if let AutolinkKind::GfmLiteral { .. } = autolink.kind {
        return;
    }
    push_invalid_if(diagnostics, has_ws_or_angle(string_bytes(&autolink.destination)), autolink.meta.span, "autolink destination cannot contain whitespace, `<`, or `>`");
}

fn has_ws_or_angle(b: &[u8]) -> (r: bool)
    ensures
        r == spec_has_ws_or_angle(b@),
{
    let mut k: usize = 0;
    while k < b.len()
        invariant
            k <= b@.len(),
            forall|j: int|
                0 <= j < k ==> !(spec_ws_len_at(b@, j) > 0 || b@[j] == 60u8 || b@[j] == 62u8),
        decreases b@.len() - k,
    {
        if whitespace_len_at(b, k) > 0 || b[k] == 60u8 || b[k] == 62u8 {
            return true;
        }
        k = k + 1;
    }
    false
}

fn validate_code_inline(code: &CodeInline, diagnostics: &mut Vec<Diagnostic>)
    ensures
        appends_invalid(old(diagnostics)@, final(diagnostics)@),
        spec_reports_of(final(diagnostics)@) == spec_reports_of(old(diagnostics)@) + spec_report(code.fence_length != 0 && spec_has_backtick_run(encode_utf8(code.raw@), code.fence_length as nat), code.meta.span, "inline code raw passthrough contains a backtick run equal to its fence length"@),
        final(diagnostics)@.len() == old(diagnostics)@.len() <==> (code.fence_length == 0
            || !spec_has_backtick_run(encode_utf8(code.raw@), code.fence_length as nat)),
{
    proof {
        lemma_appends_refl(diagnostics@);
    }
    if code.fence_length == 0 {
        return;
    }
    // A code span fence of length N is closed only by a backtick run of exactly
    // length N, so only an exactly-matching interior run would close it early.
    push_invalid_if(diagnostics, raw_has_backtick_run(string_bytes(&code.raw), code.fence_length), code.meta.span, "inline code raw passthrough contains a backtick run equal to its fence length");
}

/// Whether `input` holds a maximal backtick run of exactly `length` bytes.
fn raw_has_backtick_run(input: &[u8], length: usize) -> (r: bool)
    ensures
        r == spec_has_backtick_run(input@, length as nat),
{
    let n = input.len();
    let mut current: usize = 0;
    let mut i: usize = 0;
    while i < n
        invariant
            n == input@.len(),
            i <= n,
            current <= i,
            forall|k: int| i - current <= k < i ==> #[trigger] input@[k] == 96u8,
            i - current == 0 || input@[i - current - 1] != 96u8,
            forall|a: int, b: int| #[trigger] spec_is_tick_run(input@, a, b) && b < i ==> b - a != length,
        decreases n - i,
    {
        if input[i] == 96u8 {
            current = current + 1;
        } else {
            if current == length {
                assert(spec_is_tick_run(input@, i - current, i as int));
                return true;
            }
            assert forall|a: int, b: int| #[trigger] spec_is_tick_run(input@, a, b) && b < i + 1 implies b - a != length by {
                if b == i {
                    if a < i - current {
                        assert(input@[i - current - 1] == 96u8);
                    } else if a > i - current {
                        assert(input@[a - 1] == 96u8);
                    }
                }
            }
            current = 0;
        }
        i = i + 1;
    }
    if current == length {
        assert(spec_is_tick_run(input@, n - current, n as int));
        return true;
    }
    assert forall|a: int, b: int| #[trigger] spec_is_tick_run(input@, a, b) implies b - a != length by {
        if b == n {
            if a < n - current {
                assert(input@[n - current - 1] == 96u8);
            } else if a > n - current {
                assert(input@[a - 1] == 96u8);
            }
        }
    }
    false
}

fn validate_list_start(list: &List, diagnostics: &mut Vec<Diagnostic>)
    ensures
        appends_invalid(old(diagnostics)@, final(diagnostics)@),
        spec_reports_of(final(diagnostics)@) == spec_reports_of(old(diagnostics)@) + spec_report(list.ordered && list.start is Some && list.start->0 > 999_999_999, list.meta.span, "ordered list start must be representable in at most 9 digits"@),
        final(diagnostics)@.len() == old(diagnostics)@.len() <==> (!list.ordered || list.start is None
            || list.start->0 <= 999_999_999),
{
    proof {
        lemma_appends_refl(diagnostics@);
    }
    if !list.ordered {
        return;
    }
    if let Some(start) = list.start {
        push_invalid_if(diagnostics, start > 999_999_999, list.meta.span, "ordered list start must be representable in at most 9 digits");
    }
}

fn validate_text_directive(directive: &TextDirective, diagnostics: &mut Vec<Diagnostic>)
    ensures
        appends_invalid(old(diagnostics)@, final(diagnostics)@),
        spec_reports_of(final(diagnostics)@) == spec_reports_of(old(diagnostics)@) + (spec_directive_reports(directive.meta.span, directive.name@, directive.attributes@) + spec_inlines_reports(directive.label@)),
        final(diagnostics)@.len() == old(diagnostics)@.len() <==> (spec_is_directive_name(
            encode_utf8(directive.name@),
        ) && spec_attributes_ok(directive.attributes@) && spec_inlines_ok(directive.label@)),
    decreases *directive, 0nat,
{
    let ghost start = diagnostics@;
    validate_directive_name(directive.meta.span, &directive.name, diagnostics);
    let ghost m1 = diagnostics@;
    validate_directive_attributes(directive.attributes.as_slice(), diagnostics);
    let ghost m2 = diagnostics@;
    validate_inlines(directive.label.as_slice(), diagnostics);
    proof {
        lemma_appends_trans(start, m1, m2);
        lemma_appends_trans(start, m2, diagnostics@);
    }
}

fn validate_directive_name(span: Option<Span>, name: &String, diagnostics: &mut Vec<Diagnostic>)
    ensures
        appends_invalid(old(diagnostics)@, final(diagnostics)@),
        spec_reports_of(final(diagnostics)@) == spec_reports_of(old(diagnostics)@) + spec_report(!spec_is_directive_name(encode_utf8(name@)), span, "directive name must start with a letter and contain letters, digits, `_`, or `-`"@),
        final(diagnostics)@.len() == old(diagnostics)@.len() <==> spec_is_directive_name(
            encode_utf8(name@),
        ),
{
    proof {
        lemma_appends_refl(diagnostics@);
    }
    push_invalid_if(diagnostics, !is_directive_name(string_bytes(name)), span, "directive name must start with a letter and contain letters, digits, `_`, or `-`");
}

fn validate_directive_attributes(attributes: &[DirectiveAttribute], diagnostics: &mut Vec<Diagnostic>)
    ensures
        appends_invalid(old(diagnostics)@, final(diagnostics)@),
        spec_reports_of(final(diagnostics)@) == spec_reports_of(old(diagnostics)@) + spec_attribute_reports(attributes@),
        final(diagnostics)@.len() == old(diagnostics)@.len() <==> spec_attributes_ok(attributes@),
{
    let ghost start = diagnostics@;
    proof {
        lemma_appends_refl(start);
    }
    proof {
        assert(spec_attribute_reports(attributes@.subrange(0, 0)) =~= Seq::<Report>::empty());
        lemma_none(spec_reports_of(diagnostics@));
    }
    let mut i: usize = 0;
    while i < attributes.len()
        invariant
            i <= attributes@.len(),
            appends_invalid(start, diagnostics@),
            spec_reports_of(diagnostics@) == spec_reports_of(start) + spec_attribute_reports(attributes@.subrange(0, i as int)),
            diagnostics@.len() == start.len() <==> forall|k: int|
                0 <= k < i ==> spec_is_attribute_name(encode_utf8(#[trigger] attributes@[k].name@)),
        decreases attributes@.len() - i,
    {
        let ghost before = diagnostics@;
        proof {
            assert(attributes@.subrange(0, i + 1).subrange(0, i as int) =~= attributes@.subrange(0, i as int));
            assert(attributes@.subrange(0, i + 1)[i as int] == attributes@[i as int]);
        }
        let ghost pre = spec_reports_of(diagnostics@);
        push_invalid_if(diagnostics, !is_attribute_name(string_bytes(&attributes[i].name)), None, "directive attribute name must start with a letter, `_`, or `-`");
        proof {
            lemma_appends_refl(before);
            lemma_appends_trans(start, before, diagnostics@);
        }
        i = i + 1;
    }
    proof {
        assert(attributes@.subrange(0, i as int) =~= attributes@);
    }
}

/// Whether `name` is a directive name: an ASCII letter followed by ASCII
/// letters, digits, `_` or `-`.
pub fn is_directive_name(name: &[u8]) -> (r: bool)
    ensures
        r == spec_is_directive_name(name@),
{
    if name.len() == 0 || !is_ascii_alpha(name[0]) {
        return false;
    }
    let mut i: usize = 1;
    while i < name.len()
        invariant
            1 <= i <= name@.len(),
            forall|k: int| 1 <= k < i ==> spec_is_ascii_alnum(#[trigger] name@[k]) || name@[k] == 95u8 || name@[k] == 45u8,
        decreases name@.len() - i,
    {
        let c = name[i];
        if !(is_ascii_alnum(c) || c == 95u8 || c == 45u8) {
            return false;
        }
        i = i + 1;
    }
    true
}

/// Whether `name` is a directive attribute name: an ASCII letter, `_` or `-`,
/// followed by ASCII letters, digits, `_`, `-` or `:`.
pub fn is_attribute_name(name: &[u8]) -> (r: bool)
    ensures
        r == spec_is_attribute_name(name@),
{
    if name.len() == 0 {
        return false;
    }
    let first = name[0];
    if !(is_ascii_alpha(first) || first == 95u8 || first == 45u8) {
        return false;
    }
    let mut i: usize = 1;
    while i < name.len()
        invariant
            1 <= i <= name@.len(),
            forall|k: int|
                1 <= k < i ==> spec_is_ascii_alnum(#[trigger] name@[k]) || name@[k] == 95u8 || name@[k]
                    == 45u8 || name@[k] == 58u8,
        decreases name@.len() - i,
    {
        let c = name[i];
        if !(is_ascii_alnum(c) || c == 95u8 || c == 45u8 || c == 58u8) {
            return false;
        }
        i = i + 1;
    }
    true
}

} // verus!
