//! Markdown syntax: Markdown source to an owned AST, the AST back to canonical
//! Markdown source, and AST validation.
pub mod ast;
pub mod block_start;
pub mod delimited;
pub mod diagnostic;
pub mod directive;
pub mod emphasis;
pub mod escape;
pub mod footnotes;
pub mod html;
pub mod inline_parse;
pub mod label;
pub mod links;
pub mod literal_autolink;
pub mod mdx;
pub mod options;
pub mod parse;
pub mod serialize;
pub mod span;
pub mod text;
pub mod text_escape;
pub mod validate;

pub use ast::{
    Alert, AlertKind, Autolink, AutolinkKind, Block, BlockQuote, CharacterReference, CodeBlock,
    CodeBlockKind, CodeInline, ContainerDirective, Definition, Delete, DeleteMarker,
    DescriptionDetails, DescriptionItem, DescriptionList, DirectiveAttribute, Document, Emphasis,
    Escape, FenceMarker, FootnoteDefinition, FootnoteReference, Frontmatter, FrontmatterKind,
    Heading, HeadingKind, HtmlBlock, HtmlInline, Image, ImageReference, Inline, InlineFootnote,
    Insert, LeafDirective, LineBreak, LineBreakKind, Link, LinkDestinationKind, LinkReference,
    LinkTitleKind, List, ListDelimiter, ListItem, Mark, MathBlock, MathInline, MathInlineKind,
    MdxEsm, MdxExpression, MdxExpressionInline, MdxJsx, MdxJsxInline, NodeMeta, Paragraph,
    ReferenceKind, Shortcode, SoftBreak, Spoiler, Strong, Subscript, Superscript, Table,
    TableAlignment, TableCell, TableRow, Text, TextDirective, ThematicBreak, ThematicBreakMarker,
    Underline, WikiLink, WikiLinkLabelOrder,
};
pub use diagnostic::{Diagnostic, DiagnosticCode, DiagnosticSeverity};
pub use html::{HtmlError, HtmlOptions, SafeRawHtmlForm, TasklistAttrOrder};
pub use options::{
    Construct, Constructs, ParseOptions, SyntaxConfigError, SyntaxOptions, WikiLinkOrder,
};
pub use parse::{parse, parse_strict_with_options, parse_with_options, ParseOutput, ParseStrictError};
pub use serialize::{to_markdown, to_markdown_with_options, LineEnding, SerializeError, SerializeOptions};
pub use span::{LineIndex, LinePosition, Span};
