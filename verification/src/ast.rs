//! The owned Markdown AST that [`parse()`](crate::parse()) produces and
//! `Document::to_markdown`/`to_html` consume. Every node carries a [`NodeMeta`]
//! with an optional source [`Span`]. [`Block`] and [`Inline`] are the two node
//! enums; everything else is a concrete node struct or a small enum describing
//! a node's variant.

use vstd::prelude::*;

use crate::span::Span;

verus! {

/// Metadata attached to every AST node; currently just the source span.
#[derive(Clone, Copy, Debug, Default, PartialEq, Eq, Structural)]
pub struct NodeMeta {
    /// The node's source location, or `None` for hand-built nodes.
    pub span: Option<Span>,
}

impl NodeMeta {
    /// Wrap an optional [`Span`] into a [`NodeMeta`].
    pub fn new(span: Option<Span>) -> (r: Self)
        ensures
            r.span == span,
    {
        NodeMeta { span }
    }

    /// Metadata with no source span, for hand-built nodes.
    pub fn none() -> (r: Self)
        ensures
            r.span is None,
    {
        NodeMeta { span: None }
    }
}

/// The root of a parsed document: a sequence of top-level [`Block`]s.
#[derive(Debug, PartialEq, Eq)]
pub struct Document {
    /// Node metadata (source span).
    pub meta: NodeMeta,
    /// The document's top-level blocks, in source order.
    pub children: Vec<Block>,
}

/// A block-level node: the building blocks of a document's vertical structure.
#[derive(Debug, PartialEq, Eq)]
pub enum Block {
    /// A paragraph of inline content.
    Paragraph(Paragraph),
    /// An ATX (`# h`) or setext (underlined) heading.
    Heading(Heading),
    /// A thematic break / horizontal rule: `---`, `***`, or `___`.
    ThematicBreak(ThematicBreak),
    /// A block quote: lines prefixed with `> `.
    BlockQuote(BlockQuote),
    /// A GFM alert / admonition: `> [!NOTE]` etc.
    Alert(Alert),
    /// A bullet or ordered list.
    List(List),
    /// A description / definition list (term + details).
    DescriptionList(DescriptionList),
    /// A fenced (```` ``` ````) or indented code block.
    CodeBlock(CodeBlock),
    /// A raw HTML block.
    HtmlBlock(HtmlBlock),
    /// A link reference definition: `[label]: url "title"`.
    Definition(Definition),
    /// A footnote definition: `[^id]: text`.
    FootnoteDefinition(FootnoteDefinition),
    /// A GFM pipe table.
    Table(Table),
    /// A display math block: `$$ … $$`.
    MathBlock(MathBlock),
    /// A leading frontmatter block (`---` YAML or `+++` TOML).
    Frontmatter(Frontmatter),
    /// An MDX ESM block (`import`/`export` statements).
    MdxEsm(MdxEsm),
    /// A block-level MDX expression: `{ … }`.
    MdxExpression(MdxExpression),
    /// A block-level MDX JSX element.
    MdxJsx(MdxJsx),
    /// A leaf directive: `::name[label]{attrs}` (distinct from MDX).
    LeafDirective(LeafDirective),
    /// A container directive: `:::name … :::` (distinct from MDX).
    ContainerDirective(ContainerDirective),
}

/// A paragraph: a run of inline content. Source: any plain text line(s).
#[derive(Debug, PartialEq, Eq)]
pub struct Paragraph {
    /// Node metadata (source span).
    pub meta: NodeMeta,
    /// The paragraph's inline content.
    pub children: Vec<Inline>,
}

/// A heading. Source: `# Title` (ATX) or `Title\n===` (setext).
#[derive(Debug, PartialEq, Eq)]
pub struct Heading {
    /// Node metadata (source span).
    pub meta: NodeMeta,
    /// Heading level, 1..=6.
    pub depth: u8,
    /// Whether the heading used ATX or setext syntax.
    pub kind: HeadingKind,
    /// The heading's inline content.
    pub children: Vec<Inline>,
}

/// Which heading syntax produced a [`Heading`].
#[derive(Clone, Copy, Debug, PartialEq, Eq, Structural)]
pub enum HeadingKind {
    /// ATX heading: `# Title` … `###### Title`.
    Atx,
    /// Setext heading: `Title` underlined with `===` (level 1) or `---` (level 2).
    Setext,
}

/// A thematic break / horizontal rule. Source: `---`, `***`, or `___`.
#[derive(Clone, Debug, PartialEq, Eq)]
pub struct ThematicBreak {
    /// Node metadata (source span).
    pub meta: NodeMeta,
    /// Which character formed the break.
    pub marker: ThematicBreakMarker,
}

/// The character used to draw a [`ThematicBreak`].
#[derive(Clone, Copy, Debug, PartialEq, Eq, Structural)]
pub enum ThematicBreakMarker {
    /// Dashes: `---`.
    Dash,
    /// Asterisks: `***`.
    Asterisk,
    /// Underscores: `___`.
    Underscore,
}

/// A block quote: content prefixed with `> `.
#[derive(Debug, PartialEq, Eq)]
pub struct BlockQuote {
    /// Node metadata (source span).
    pub meta: NodeMeta,
    /// The quoted block content.
    pub children: Vec<Block>,
}

/// A GFM alert / admonition. Source: `> [!NOTE]` followed by quoted content.
#[derive(Debug, PartialEq, Eq)]
pub struct Alert {
    /// Node metadata (source span).
    pub meta: NodeMeta,
    /// The alert severity / type.
    pub kind: AlertKind,
    /// An optional custom title following the `[!KIND]` marker.
    pub title: Option<String>,
    /// The alert's block content.
    pub children: Vec<Block>,
}

/// The kind of a GFM [`Alert`] (the `[!KIND]` marker).
#[derive(Clone, Copy, Debug, PartialEq, Eq, Structural)]
pub enum AlertKind {
    /// `> [!NOTE]`.
    Note,
    /// `> [!TIP]`.
    Tip,
    /// `> [!IMPORTANT]`.
    Important,
    /// `> [!WARNING]`.
    Warning,
    /// `> [!CAUTION]`.
    Caution,
}

/// A bullet or ordered list. Source: `- a` / `1. a` lines.
#[derive(Debug, PartialEq, Eq)]
pub struct List {
    /// Node metadata (source span).
    pub meta: NodeMeta,
    /// `true` for an ordered list, `false` for a bullet list.
    pub ordered: bool,
    /// The starting number of an ordered list (e.g. `3.` => `Some(3)`).
    pub start: Option<u64>,
    /// The marker delimiter used by the list items.
    pub delimiter: ListDelimiter,
    /// `true` if the list is tight (no blank lines between items / no `<p>`).
    pub tight: bool,
    /// The list's items.
    pub children: Vec<ListItem>,
}

/// The marker character that delimits a list's items.
#[derive(Clone, Copy, Debug, PartialEq, Eq, Structural)]
pub enum ListDelimiter {
    /// Bullet `-`.
    Dash,
    /// Bullet `*`.
    Asterisk,
    /// Bullet `+`.
    Plus,
    /// Ordered `1.`.
    Period,
    /// Ordered `1)`.
    Paren,
}

/// A single list item, optionally a GFM task-list checkbox.
#[derive(Debug, PartialEq, Eq)]
pub struct ListItem {
    /// Node metadata (source span).
    pub meta: NodeMeta,
    /// Task-list state: `Some(true)` for `[x]`, `Some(false)` for `[ ]`, `None` otherwise.
    pub checked: Option<bool>,
    /// The item's block content.
    pub children: Vec<Block>,
}

/// A description / definition list of term + details pairs.
#[derive(Debug, PartialEq, Eq)]
pub struct DescriptionList {
    /// Node metadata (source span).
    pub meta: NodeMeta,
    /// `true` if the list is tight (no blank lines between items).
    pub tight: bool,
    /// The list's term/details items.
    pub children: Vec<DescriptionItem>,
}

/// One entry of a [`DescriptionList`]: a term and its detail blocks. Source: a
/// term line followed by `: details` lines.
#[derive(Debug, PartialEq, Eq)]
pub struct DescriptionItem {
    /// Node metadata (source span).
    pub meta: NodeMeta,
    /// The term's inline content.
    pub term: Vec<Inline>,
    /// The detail group(s) attached to this term.
    pub details: Vec<DescriptionDetails>,
}

/// The details (`: …`) attached to a [`DescriptionItem`]'s term.
#[derive(Debug, PartialEq, Eq)]
pub struct DescriptionDetails {
    /// Node metadata (source span).
    pub meta: NodeMeta,
    /// The details' block content.
    pub children: Vec<Block>,
}

/// A code block. Source: ```` ```lang … ``` ```` (fenced) or 4-space-indented lines.
#[derive(Clone, Debug, PartialEq, Eq)]
pub struct CodeBlock {
    /// Node metadata (source span).
    pub meta: NodeMeta,
    /// Whether the block is fenced (and with what fence) or indented.
    pub kind: CodeBlockKind,
    /// The info string after a fence (e.g. the `rust` in ```` ```rust ````).
    pub info: Option<String>,
    /// The literal code contents.
    pub value: String,
}

/// Whether a [`CodeBlock`] is fenced or indented.
#[derive(Clone, Copy, Debug, PartialEq, Eq, Structural)]
pub enum CodeBlockKind {
    /// A fenced code block; records the fence char and its run length.
    Fenced {
        /// Which character formed the fence (backtick or tilde).
        marker: FenceMarker,
        /// The number of fence characters in the opening fence (>=3).
        length: usize,
    },
    /// A 4-space-indented code block.
    Indented,
}

/// The character used to fence a [`CodeBlock`].
#[derive(Clone, Copy, Debug, PartialEq, Eq, Structural)]
pub enum FenceMarker {
    /// Backtick fence: ```` ``` ````.
    Backtick,
    /// Tilde fence: `~~~`.
    Tilde,
}

/// A raw HTML block: HTML emitted verbatim.
#[derive(Clone, Debug, PartialEq, Eq)]
pub struct HtmlBlock {
    /// Node metadata (source span).
    pub meta: NodeMeta,
    /// The literal HTML source.
    pub value: String,
}

/// A link reference definition. Source: `[label]: destination "title"`.
#[derive(Clone, Debug, PartialEq, Eq)]
pub struct Definition {
    /// Node metadata (source span).
    pub meta: NodeMeta,
    /// The label as written in the source (e.g. `Foo Bar`).
    pub label: String,
    /// The normalized lookup key (case-folded, whitespace-collapsed) for matching references.
    pub identifier: String,
    /// The link target URL.
    pub destination: String,
    /// How the destination was delimited (bare or `<…>`).
    pub destination_kind: LinkDestinationKind,
    /// The optional link title.
    pub title: Option<String>,
    /// How the title was quoted, if present.
    pub title_kind: Option<LinkTitleKind>,
}

/// A footnote definition. Source: `[^id]: footnote text`.
#[derive(Debug, PartialEq, Eq)]
pub struct FootnoteDefinition {
    /// Node metadata (source span).
    pub meta: NodeMeta,
    /// The label as written in the source (the text after `^`).
    pub label: String,
    /// The normalized lookup key matching [`FootnoteReference`]s.
    pub identifier: String,
    /// The footnote's block content.
    pub children: Vec<Block>,
}

/// A GFM pipe table: a header row, an alignment row, then body rows. Source:
/// `| a | b |` / `|---|---|` / `| 1 | 2 |`.
#[derive(Debug, PartialEq, Eq)]
pub struct Table {
    /// Node metadata (source span).
    pub meta: NodeMeta,
    /// Per-column alignment from the delimiter row.
    pub alignments: Vec<TableAlignment>,
    /// All rows; the first is the header row.
    pub rows: Vec<TableRow>,
}

/// The alignment of a [`Table`] column, from the `:---:` delimiter row.
#[derive(Clone, Copy, Debug, PartialEq, Eq, Structural)]
pub enum TableAlignment {
    /// No explicit alignment: `---`.
    Unaligned,
    /// Left-aligned: `:---`.
    Left,
    /// Center-aligned: `:---:`.
    Center,
    /// Right-aligned: `---:`.
    Right,
}

/// A single row of a [`Table`].
#[derive(Debug, PartialEq, Eq)]
pub struct TableRow {
    /// Node metadata (source span).
    pub meta: NodeMeta,
    /// The row's cells.
    pub cells: Vec<TableCell>,
}

/// A single cell of a [`TableRow`].
#[derive(Debug, PartialEq, Eq)]
pub struct TableCell {
    /// Node metadata (source span).
    pub meta: NodeMeta,
    /// The cell's inline content.
    pub children: Vec<Inline>,
}

/// A display math block. Source: `$$ … $$`.
#[derive(Clone, Debug, PartialEq, Eq)]
pub struct MathBlock {
    /// Node metadata (source span).
    pub meta: NodeMeta,
    /// The literal math contents (between the `$$` fences).
    pub value: String,
}

/// A leading frontmatter block. Source: `---` YAML or `+++` TOML at the top of
/// the document.
#[derive(Clone, Debug, PartialEq, Eq)]
pub struct Frontmatter {
    /// Node metadata (source span).
    pub meta: NodeMeta,
    /// Whether the frontmatter is YAML or TOML.
    pub kind: FrontmatterKind,
    /// The literal frontmatter contents (between the fences).
    pub value: String,
}

/// The format of a [`Frontmatter`] block.
#[derive(Clone, Copy, Debug, PartialEq, Eq, Structural)]
pub enum FrontmatterKind {
    /// YAML frontmatter, fenced by `---`.
    Yaml,
    /// TOML frontmatter, fenced by `+++`.
    Toml,
}

/// An MDX ESM block: top-level `import`/`export` statements (distinct from directives).
#[derive(Clone, Debug, PartialEq, Eq)]
pub struct MdxEsm {
    /// Node metadata (source span).
    pub meta: NodeMeta,
    /// The literal ESM source.
    pub value: String,
}

/// A block-level MDX expression: `{ … }` (distinct from directives).
#[derive(Clone, Debug, PartialEq, Eq)]
pub struct MdxExpression {
    /// Node metadata (source span).
    pub meta: NodeMeta,
    /// The literal expression source (between the braces).
    pub value: String,
}

/// A block-level MDX JSX element (distinct from directives).
#[derive(Clone, Debug, PartialEq, Eq)]
pub struct MdxJsx {
    /// Node metadata (source span).
    pub meta: NodeMeta,
    /// The literal JSX source.
    pub value: String,
}

/// A leaf directive. Source: `::name[label]{attrs}` (a directive feature,
/// not MDX).
#[derive(Debug, PartialEq, Eq)]
pub struct LeafDirective {
    /// Node metadata (source span).
    pub meta: NodeMeta,
    /// The directive name following the `::`.
    pub name: String,
    /// The optional `[label]` inline content.
    pub label: Vec<Inline>,
    /// The optional `{attrs}` attributes.
    pub attributes: Vec<DirectiveAttribute>,
}

/// A container directive. Source: `:::name[label]{attrs}` … `:::` (a directive
/// feature, not MDX).
#[derive(Debug, PartialEq, Eq)]
pub struct ContainerDirective {
    /// Node metadata (source span).
    pub meta: NodeMeta,
    /// The directive name following the `:::`.
    pub name: String,
    /// The optional `[label]` inline content.
    pub label: Vec<Inline>,
    /// The optional `{attrs}` attributes.
    pub attributes: Vec<DirectiveAttribute>,
    /// The directive's enclosed block content.
    pub children: Vec<Block>,
}

/// An inline-level node: the leaf and span content inside blocks.
#[derive(Debug, PartialEq, Eq)]
pub enum Inline {
    /// Literal text.
    Text(Text),
    /// A backslash escape such as `\*`.
    Escape(Escape),
    /// A character reference such as `&amp;` or `&#247;`.
    CharacterReference(CharacterReference),
    /// Emphasis: `*text*` or `_text_`.
    Emphasis(Emphasis),
    /// Strong emphasis: `**text**` or `__text__`.
    Strong(Strong),
    /// Underline: `__text__`/`___text___` (underscore extension).
    Underline(Underline),
    /// Strikethrough: `~~text~~`.
    Delete(Delete),
    /// A CriticMarkup-style insertion: `++text++`.
    Insert(Insert),
    /// A highlight / "mark" span: `==text==`.
    Mark(Mark),
    /// Subscript: `~x~`.
    Subscript(Subscript),
    /// Superscript: `^x^`.
    Superscript(Superscript),
    /// A spoiler span: `||text||`.
    Spoiler(Spoiler),
    /// An emoji-style shortcode: `:name:`.
    Shortcode(Shortcode),
    /// An inline code span: `` `code` ``.
    Code(CodeInline),
    /// An inline link: `[text](url)`.
    Link(Link),
    /// An inline image: `![alt](url)`.
    Image(Image),
    /// A reference link: `[text][label]`.
    LinkReference(LinkReference),
    /// A reference image: `![alt][label]`.
    ImageReference(ImageReference),
    /// An autolink: `<url>` or a GFM bare URL.
    Autolink(Autolink),
    /// Raw inline HTML such as `<span>`.
    Html(HtmlInline),
    /// A soft line break (a plain newline within a paragraph).
    SoftBreak(SoftBreak),
    /// A hard line break (`\` or two trailing spaces).
    LineBreak(LineBreak),
    /// Inline math: `$x$`.
    Math(MathInline),
    /// A footnote reference: `[^id]`.
    FootnoteReference(FootnoteReference),
    /// An inline footnote: `^[inline note]`.
    InlineFootnote(InlineFootnote),
    /// A wiki link: `[[target|label]]`.
    WikiLink(WikiLink),
    /// An inline MDX expression: `{ … }` (distinct from directives).
    MdxExpression(MdxExpressionInline),
    /// An inline MDX JSX element (distinct from directives).
    MdxJsx(MdxJsxInline),
    /// A text directive: `:name[label]{attrs}` (distinct from MDX).
    TextDirective(TextDirective),
}

/// Literal text content.
#[derive(Clone, Debug, PartialEq, Eq)]
pub struct Text {
    /// Node metadata (source span).
    pub meta: NodeMeta,
    /// The text value.
    pub value: String,
}

/// A backslash escape such as `\*` or `\\`.
#[derive(Clone, Debug, PartialEq, Eq)]
pub struct Escape {
    /// Node metadata (source span).
    pub meta: NodeMeta,
    /// The escaped (literal) character.
    pub value: char,
}

/// A character reference such as `&amp;` or `&#247;`.
#[derive(Clone, Debug, PartialEq, Eq)]
pub struct CharacterReference {
    /// Node metadata (source span).
    pub meta: NodeMeta,
    /// The reference as written, including `&` and `;` (e.g. `amp` for `&amp;`).
    pub reference: String,
    /// The resolved character value (e.g. `&` for `&amp;`).
    pub value: String,
}

/// Emphasis (typically italic): `*text*` or `_text_`.
#[derive(Debug, PartialEq, Eq)]
pub struct Emphasis {
    /// Node metadata (source span).
    pub meta: NodeMeta,
    /// The emphasized inline content.
    pub children: Vec<Inline>,
}

/// Strong emphasis (typically bold): `**text**` or `__text__`.
#[derive(Debug, PartialEq, Eq)]
pub struct Strong {
    /// Node metadata (source span).
    pub meta: NodeMeta,
    /// The strongly-emphasized inline content.
    pub children: Vec<Inline>,
}

/// Underline (underscore extension): `__text__` or `___text___`.
#[derive(Debug, PartialEq, Eq)]
pub struct Underline {
    /// Node metadata (source span).
    pub meta: NodeMeta,
    /// The underlined inline content.
    pub children: Vec<Inline>,
}

/// Strikethrough: `~~text~~` (or single `~text~` when single-tilde is enabled).
#[derive(Debug, PartialEq, Eq)]
pub struct Delete {
    /// Node metadata (source span).
    pub meta: NodeMeta,
    /// Whether the span used one or two tildes.
    pub marker: DeleteMarker,
    /// The struck-through inline content.
    pub children: Vec<Inline>,
}

/// Which tilde run delimited a [`Delete`] span.
#[derive(Clone, Copy, Debug, PartialEq, Eq, Structural)]
pub enum DeleteMarker {
    /// Single-tilde strikethrough: `~text~`.
    SingleTilde,
    /// Double-tilde strikethrough: `~~text~~`.
    DoubleTilde,
}

/// A CriticMarkup-style insertion: `++text++`.
#[derive(Debug, PartialEq, Eq)]
pub struct Insert {
    /// Node metadata (source span).
    pub meta: NodeMeta,
    /// The inserted inline content.
    pub children: Vec<Inline>,
}

/// A highlight / "mark" span: `==text==`.
#[derive(Debug, PartialEq, Eq)]
pub struct Mark {
    /// Node metadata (source span).
    pub meta: NodeMeta,
    /// The highlighted inline content.
    pub children: Vec<Inline>,
}

/// Subscript: `~x~`.
#[derive(Debug, PartialEq, Eq)]
pub struct Subscript {
    /// Node metadata (source span).
    pub meta: NodeMeta,
    /// The subscripted inline content.
    pub children: Vec<Inline>,
}

/// Superscript: `^x^`.
#[derive(Debug, PartialEq, Eq)]
pub struct Superscript {
    /// Node metadata (source span).
    pub meta: NodeMeta,
    /// The superscripted inline content.
    pub children: Vec<Inline>,
}

/// A spoiler span: `||text||`.
#[derive(Debug, PartialEq, Eq)]
pub struct Spoiler {
    /// Node metadata (source span).
    pub meta: NodeMeta,
    /// The hidden inline content.
    pub children: Vec<Inline>,
}

/// An emoji-style shortcode: `:name:`.
#[derive(Clone, Debug, PartialEq, Eq)]
pub struct Shortcode {
    /// Node metadata (source span).
    pub meta: NodeMeta,
    /// The shortcode name between the colons (e.g. `smile` for `:smile:`).
    pub name: String,
}

/// An inline code span: `` `code` ``.
#[derive(Clone, Debug, PartialEq, Eq)]
pub struct CodeInline {
    /// Node metadata (source span).
    pub meta: NodeMeta,
    /// The normalized code text (trimmed/collapsed per CommonMark).
    pub value: String,
    /// The raw text between the backtick fences, before normalization.
    pub raw: String,
    /// The number of backticks in the fence.
    pub fence_length: usize,
}

/// An inline link: `[text](destination "title")`.
#[derive(Debug, PartialEq, Eq)]
pub struct Link {
    /// Node metadata (source span).
    pub meta: NodeMeta,
    /// The link target URL.
    pub destination: String,
    /// How the destination was delimited (bare or `<…>`).
    pub destination_kind: LinkDestinationKind,
    /// The optional link title.
    pub title: Option<String>,
    /// How the title was quoted, if present.
    pub title_kind: Option<LinkTitleKind>,
    /// The link's inline content (the visible text).
    pub children: Vec<Inline>,
}

/// An inline image: `![alt](destination "title")`.
#[derive(Debug, PartialEq, Eq)]
pub struct Image {
    /// Node metadata (source span).
    pub meta: NodeMeta,
    /// The image source URL.
    pub destination: String,
    /// How the destination was delimited (bare or `<…>`).
    pub destination_kind: LinkDestinationKind,
    /// The optional image title.
    pub title: Option<String>,
    /// How the title was quoted, if present.
    pub title_kind: Option<LinkTitleKind>,
    /// The image's alt-text inline content.
    pub alt: Vec<Inline>,
}

/// How a link/image destination was delimited in the source.
#[derive(Clone, Copy, Debug, PartialEq, Eq, Structural)]
pub enum LinkDestinationKind {
    /// A bare destination: `(url)`.
    Bare,
    /// An angle-bracketed destination: `(<url>)`.
    Angle,
    /// No destination present: `()`.
    Omitted,
}

/// How a link/image title was quoted in the source.
#[derive(Clone, Copy, Debug, PartialEq, Eq, Structural)]
pub enum LinkTitleKind {
    /// Double-quoted: `"title"`.
    DoubleQuote,
    /// Single-quoted: `'title'`.
    SingleQuote,
    /// Parenthesized: `(title)`.
    Paren,
}

/// A reference link: `[text][label]`, `[text][]`, or `[text]`.
#[derive(Debug, PartialEq, Eq)]
pub struct LinkReference {
    /// Node metadata (source span).
    pub meta: NodeMeta,
    /// The normalized lookup key matching a [`Definition`].
    pub identifier: String,
    /// The label as written in the source.
    pub label: String,
    /// Whether the reference is full, collapsed, or shortcut form.
    pub kind: ReferenceKind,
    /// The link's inline content (the visible text).
    pub children: Vec<Inline>,
}

/// A reference image: `![alt][label]`, `![alt][]`, or `![alt]`.
#[derive(Debug, PartialEq, Eq)]
pub struct ImageReference {
    /// Node metadata (source span).
    pub meta: NodeMeta,
    /// The normalized lookup key matching a [`Definition`].
    pub identifier: String,
    /// The label as written in the source.
    pub label: String,
    /// Whether the reference is full, collapsed, or shortcut form.
    pub kind: ReferenceKind,
    /// The image's alt-text inline content.
    pub alt: Vec<Inline>,
}

/// The form of a reference link/image.
#[derive(Clone, Copy, Debug, PartialEq, Eq, Structural)]
pub enum ReferenceKind {
    /// Full reference: `[text][label]`.
    Full,
    /// Collapsed reference: `[label][]`.
    Collapsed,
    /// Shortcut reference: `[label]`.
    Shortcut,
}

/// An autolink: `<url>` or a GFM bare URL.
#[derive(Clone, Debug, PartialEq, Eq)]
pub struct Autolink {
    /// Node metadata (source span).
    pub meta: NodeMeta,
    /// The resolved link href.
    pub destination: String,
    /// Whether the link was angle-bracketed or a GFM literal.
    pub kind: AutolinkKind,
}

/// Whether an [`Autolink`] is angle-bracketed or a GFM bare literal.
#[derive(Clone, Debug, PartialEq, Eq)]
pub enum AutolinkKind {
    /// An angle-bracket autolink `<dest>`. The destination is the raw text
    /// between the brackets; `>` is forbidden in the destination and the
    /// serializer re-emits `<dest>`.
    Angle,
    /// A GFM literal autolink (bare `www.`/`http(s)://`/`mailto:`/`xmpp:` URL
    /// or email). `original` is the raw source text that produced the link
    /// (the visible label); `destination` is the synthesized href (e.g. a
    /// `http://`/`mailto:` prefix may have been prepended). The serializer
    /// re-emits `original`, which re-parses to the same literal.
    GfmLiteral {
        /// The raw source text that produced the link (the visible label).
        original: String,
    },
}

/// Raw inline HTML such as `<span>` or `</em>`.
#[derive(Clone, Debug, PartialEq, Eq)]
pub struct HtmlInline {
    /// Node metadata (source span).
    pub meta: NodeMeta,
    /// The literal HTML source.
    pub value: String,
}

/// A soft line break: a plain newline within a paragraph.
#[derive(Clone, Debug, PartialEq, Eq)]
pub struct SoftBreak {
    /// Node metadata (source span).
    pub meta: NodeMeta,
}

/// A hard line break: a trailing `\` or two trailing spaces.
#[derive(Clone, Debug, PartialEq, Eq)]
pub struct LineBreak {
    /// Node metadata (source span).
    pub meta: NodeMeta,
    /// Which syntax produced the break.
    pub kind: LineBreakKind,
}

/// Which syntax produced a hard [`LineBreak`].
#[derive(Clone, Copy, Debug, PartialEq, Eq, Structural)]
pub enum LineBreakKind {
    /// A trailing backslash: `\`.
    Backslash,
    /// Two or more trailing spaces.
    Spaces,
}

/// Which syntax delimited an inline [`MathInline`] span.
#[derive(Clone, Copy, Debug, PartialEq, Eq, Structural)]
pub enum MathInlineKind {
    /// Dollar-fenced inline math (`$…$`, `$$…$$`, …); `dollars` is the fence
    /// length (>=1). Dollar math always renders inline, while a 2-dollar fence
    /// is conventionally treated as display elsewhere in the ecosystem.
    Dollar {
        /// The number of `$` characters in the fence (>=1).
        dollars: u8,
    },
    /// Math-code span: `$`…`$`.
    Code,
}

/// Inline math: `$x$`.
#[derive(Clone, Debug, PartialEq, Eq)]
pub struct MathInline {
    /// Node metadata (source span).
    pub meta: NodeMeta,
    /// The literal math contents (between the fences).
    pub value: String,
    /// Which delimiter syntax was used.
    pub kind: MathInlineKind,
}

/// A footnote reference: `[^id]`.
#[derive(Clone, Debug, PartialEq, Eq)]
pub struct FootnoteReference {
    /// Node metadata (source span).
    pub meta: NodeMeta,
    /// The label as written in the source (the text after `^`).
    pub label: String,
    /// The normalized lookup key matching a [`FootnoteDefinition`].
    pub identifier: String,
}

/// An inline footnote: `^[inline note]`.
#[derive(Debug, PartialEq, Eq)]
pub struct InlineFootnote {
    /// Node metadata (source span).
    pub meta: NodeMeta,
    /// The footnote's inline content.
    pub children: Vec<Inline>,
}

/// A wiki link: `[[target|label]]`.
#[derive(Clone, Debug, PartialEq, Eq)]
pub struct WikiLink {
    /// Node metadata (source span).
    pub meta: NodeMeta,
    /// The link target (page name).
    pub target: String,
    /// The visible label.
    pub label: String,
    /// Whether the label appeared before or after the `|` in the source.
    pub label_order: WikiLinkLabelOrder,
}

/// Whether a [`WikiLink`]'s label preceded or followed the `|` separator.
#[derive(Clone, Copy, Debug, PartialEq, Eq, Structural)]
pub enum WikiLinkLabelOrder {
    /// Target then label: `[[target|label]]`.
    AfterPipe,
    /// Label then target: `[[label|target]]`.
    BeforePipe,
}

/// An inline MDX expression: `{ … }` (distinct from directives).
#[derive(Clone, Debug, PartialEq, Eq)]
pub struct MdxExpressionInline {
    /// Node metadata (source span).
    pub meta: NodeMeta,
    /// The literal expression source (between the braces).
    pub value: String,
}

/// An inline MDX JSX element (distinct from directives).
#[derive(Clone, Debug, PartialEq, Eq)]
pub struct MdxJsxInline {
    /// Node metadata (source span).
    pub meta: NodeMeta,
    /// The literal JSX source.
    pub value: String,
}

/// A text directive. Source: `:name[label]{attrs}` (a directive feature,
/// not MDX).
#[derive(Debug, PartialEq, Eq)]
pub struct TextDirective {
    /// Node metadata (source span).
    pub meta: NodeMeta,
    /// The directive name following the `:`.
    pub name: String,
    /// The optional `[label]` inline content.
    pub label: Vec<Inline>,
    /// The optional `{attrs}` attributes.
    pub attributes: Vec<DirectiveAttribute>,
}

/// One attribute of a directive's `{name=value}` block.
#[derive(Clone, Debug, PartialEq, Eq)]
pub struct DirectiveAttribute {
    /// The attribute name.
    pub name: String,
    /// The attribute value, or `None` for a valueless attribute.
    pub value: Option<String>,
}

/// The inline subtree of a node (`children`, `alt` or `label`), empty for a leaf.
pub open spec fn spec_inline_children(node: Inline) -> Seq<Inline> {
    match node {
        Inline::Emphasis(n) => n.children@,
        Inline::Strong(n) => n.children@,
        Inline::Underline(n) => n.children@,
        Inline::Delete(n) => n.children@,
        Inline::Insert(n) => n.children@,
        Inline::Mark(n) => n.children@,
        Inline::Subscript(n) => n.children@,
        Inline::Superscript(n) => n.children@,
        Inline::Spoiler(n) => n.children@,
        Inline::Link(n) => n.children@,
        Inline::Image(n) => n.alt@,
        Inline::LinkReference(n) => n.children@,
        Inline::ImageReference(n) => n.alt@,
        Inline::InlineFootnote(n) => n.children@,
        Inline::TextDirective(n) => n.label@,
        _ => Seq::empty(),
    }
}

/// The metadata carried by a [`Block`] node.
pub open spec fn spec_block_meta(node: Block) -> NodeMeta {
    match node {
        Block::Paragraph(n) => n.meta,
        Block::Heading(n) => n.meta,
        Block::ThematicBreak(n) => n.meta,
        Block::BlockQuote(n) => n.meta,
        Block::Alert(n) => n.meta,
        Block::List(n) => n.meta,
        Block::DescriptionList(n) => n.meta,
        Block::CodeBlock(n) => n.meta,
        Block::HtmlBlock(n) => n.meta,
        Block::Definition(n) => n.meta,
        Block::FootnoteDefinition(n) => n.meta,
        Block::Table(n) => n.meta,
        Block::MathBlock(n) => n.meta,
        Block::Frontmatter(n) => n.meta,
        Block::MdxEsm(n) => n.meta,
        Block::MdxExpression(n) => n.meta,
        Block::MdxJsx(n) => n.meta,
        Block::LeafDirective(n) => n.meta,
        Block::ContainerDirective(n) => n.meta,
    }
}

impl Block {
    /// Borrow this node's [`NodeMeta`].
    pub fn meta(&self) -> (r: &NodeMeta)
        ensures
            *r == spec_block_meta(*self),
    {
        match self {
            Block::Paragraph(n) => &n.meta,
            Block::Heading(n) => &n.meta,
            Block::ThematicBreak(n) => &n.meta,
            Block::BlockQuote(n) => &n.meta,
            Block::Alert(n) => &n.meta,
            Block::List(n) => &n.meta,
            Block::DescriptionList(n) => &n.meta,
            Block::CodeBlock(n) => &n.meta,
            Block::HtmlBlock(n) => &n.meta,
            Block::Definition(n) => &n.meta,
            Block::FootnoteDefinition(n) => &n.meta,
            Block::Table(n) => &n.meta,
            Block::MathBlock(n) => &n.meta,
            Block::Frontmatter(n) => &n.meta,
            Block::MdxEsm(n) => &n.meta,
            Block::MdxExpression(n) => &n.meta,
            Block::MdxJsx(n) => &n.meta,
            Block::LeafDirective(n) => &n.meta,
            Block::ContainerDirective(n) => &n.meta,
        }
    }

    /// This node's source span, if it carries one.
    pub fn span(&self) -> (r: Option<Span>)
        ensures
            r == spec_block_meta(*self).span,
    {
        self.meta().span
    }
}

/// The metadata carried by a [`Inline`] node.
pub open spec fn spec_inline_meta(node: Inline) -> NodeMeta {
    match node {
        Inline::Text(n) => n.meta,
        Inline::Escape(n) => n.meta,
        Inline::CharacterReference(n) => n.meta,
        Inline::Emphasis(n) => n.meta,
        Inline::Strong(n) => n.meta,
        Inline::Underline(n) => n.meta,
        Inline::Delete(n) => n.meta,
        Inline::Insert(n) => n.meta,
        Inline::Mark(n) => n.meta,
        Inline::Subscript(n) => n.meta,
        Inline::Superscript(n) => n.meta,
        Inline::Spoiler(n) => n.meta,
        Inline::Shortcode(n) => n.meta,
        Inline::Code(n) => n.meta,
        Inline::Link(n) => n.meta,
        Inline::Image(n) => n.meta,
        Inline::LinkReference(n) => n.meta,
        Inline::ImageReference(n) => n.meta,
        Inline::Autolink(n) => n.meta,
        Inline::Html(n) => n.meta,
        Inline::SoftBreak(n) => n.meta,
        Inline::LineBreak(n) => n.meta,
        Inline::Math(n) => n.meta,
        Inline::FootnoteReference(n) => n.meta,
        Inline::InlineFootnote(n) => n.meta,
        Inline::WikiLink(n) => n.meta,
        Inline::MdxExpression(n) => n.meta,
        Inline::MdxJsx(n) => n.meta,
        Inline::TextDirective(n) => n.meta,
    }
}

impl Inline {
    /// Borrow this node's [`NodeMeta`].
    pub fn meta(&self) -> (r: &NodeMeta)
        ensures
            *r == spec_inline_meta(*self),
    {
        match self {
            Inline::Text(n) => &n.meta,
            Inline::Escape(n) => &n.meta,
            Inline::CharacterReference(n) => &n.meta,
            Inline::Emphasis(n) => &n.meta,
            Inline::Strong(n) => &n.meta,
            Inline::Underline(n) => &n.meta,
            Inline::Delete(n) => &n.meta,
            Inline::Insert(n) => &n.meta,
            Inline::Mark(n) => &n.meta,
            Inline::Subscript(n) => &n.meta,
            Inline::Superscript(n) => &n.meta,
            Inline::Spoiler(n) => &n.meta,
            Inline::Shortcode(n) => &n.meta,
            Inline::Code(n) => &n.meta,
            Inline::Link(n) => &n.meta,
            Inline::Image(n) => &n.meta,
            Inline::LinkReference(n) => &n.meta,
            Inline::ImageReference(n) => &n.meta,
            Inline::Autolink(n) => &n.meta,
            Inline::Html(n) => &n.meta,
            Inline::SoftBreak(n) => &n.meta,
            Inline::LineBreak(n) => &n.meta,
            Inline::Math(n) => &n.meta,
            Inline::FootnoteReference(n) => &n.meta,
            Inline::InlineFootnote(n) => &n.meta,
            Inline::WikiLink(n) => &n.meta,
            Inline::MdxExpression(n) => &n.meta,
            Inline::MdxJsx(n) => &n.meta,
            Inline::TextDirective(n) => &n.meta,
        }
    }

    /// This node's source span, if it carries one.
    pub fn span(&self) -> (r: Option<Span>)
        ensures
            r == spec_inline_meta(*self).span,
    {
        self.meta().span
    }

    /// The inline subtree of this node, or an empty slice for a leaf. Covers the
    /// `alt`/`label` fields uniformly, so a generic walker never silently skips
    /// an image's alt text or a directive's label.
    pub fn children(&self) -> (r: &[Inline])
        ensures
            r@ == spec_inline_children(*self),
    {
        match self {
            Inline::Emphasis(n) => n.children.as_slice(),
            Inline::Strong(n) => n.children.as_slice(),
            Inline::Underline(n) => n.children.as_slice(),
            Inline::Delete(n) => n.children.as_slice(),
            Inline::Insert(n) => n.children.as_slice(),
            Inline::Mark(n) => n.children.as_slice(),
            Inline::Subscript(n) => n.children.as_slice(),
            Inline::Superscript(n) => n.children.as_slice(),
            Inline::Spoiler(n) => n.children.as_slice(),
            Inline::Link(n) => n.children.as_slice(),
            Inline::Image(n) => n.alt.as_slice(),
            Inline::LinkReference(n) => n.children.as_slice(),
            Inline::ImageReference(n) => n.alt.as_slice(),
            Inline::InlineFootnote(n) => n.children.as_slice(),
            Inline::TextDirective(n) => n.label.as_slice(),
            _ => &[],
        }
    }
}

impl Default for Document {
    fn default() -> (r: Self)
        ensures
            r.meta.span is None,
            r.children@.len() == 0,
    {
        Document { meta: NodeMeta { span: None }, children: Vec::new() }
    }
}

impl Text {
    /// A text node with the given string value.
    pub fn new(value: &str) -> (r: Self)
        ensures
            r.meta.span is None,
            r.value@ == value@,
    {
        Text { meta: NodeMeta { span: None }, value: value.to_owned() }
    }
}

impl Paragraph {
    /// A paragraph with the given inline children.
    pub fn new(children: Vec<Inline>) -> (r: Self)
        ensures
            r.meta.span is None,
            r.children == children,
    {
        Paragraph { meta: NodeMeta { span: None }, children }
    }
}

impl Heading {
    /// An ATX heading of the given depth.
    pub fn new(depth: u8, children: Vec<Inline>) -> (r: Self)
        ensures
            r.meta.span is None,
            r.depth == depth,
            r.kind == HeadingKind::Atx,
            r.children == children,
    {
        Heading { meta: NodeMeta { span: None }, depth, kind: HeadingKind::Atx, children }
    }
}

impl Link {
    /// A bare-destination link with no title.
    pub fn new(destination: &str, children: Vec<Inline>) -> (r: Self)
        ensures
            r.meta.span is None,
            r.destination@ == destination@,
            r.destination_kind == LinkDestinationKind::Bare,
            r.title is None,
            r.title_kind is None,
            r.children == children,
    {
        Link {
            meta: NodeMeta { span: None },
            destination: destination.to_owned(),
            destination_kind: LinkDestinationKind::Bare,
            title: None,
            title_kind: None,
            children,
        }
    }
}

impl CodeInline {
    /// An inline code span with a single-backtick fence.
    pub fn new(value: &str) -> (r: Self)
        ensures
            r.meta.span is None,
            r.value@ == value@,
            r.raw@ == value@,
            r.fence_length == 1,
    {
        CodeInline {
            meta: NodeMeta { span: None },
            raw: value.to_owned(),
            value: value.to_owned(),
            fence_length: 1,
        }
    }
}

impl List {
    /// A tight, dash-delimited bullet list.
    pub fn new(children: Vec<ListItem>) -> (r: Self)
        ensures
            r.meta.span is None,
            !r.ordered,
            r.start is None,
            r.delimiter == ListDelimiter::Dash,
            r.tight,
            r.children == children,
    {
        List {
            meta: NodeMeta { span: None },
            ordered: false,
            start: None,
            delimiter: ListDelimiter::Dash,
            tight: true,
            children,
        }
    }
}

} // verus!
