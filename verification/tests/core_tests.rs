use markdown_syntax::validate::{is_attribute_name, is_directive_name, validate_document};
use markdown_syntax::{
    Block, CodeInline, Construct, Constructs, Diagnostic, DiagnosticCode, DiagnosticSeverity, Document,
    Emphasis, Heading, Inline, LineIndex, LinePosition, List, NodeMeta, Paragraph, Span, SyntaxConfigError,
    SyntaxOptions, Text, WikiLinkOrder,
};

#[test]
fn span_measures_and_contains() {
    let s = Span::new(2, 5);
    assert_eq!(s.len(), 3);
    assert!(!s.is_empty());
    assert!(Span::new(3, 3).is_empty());
    assert!(Span::new(5, 3).is_empty());
    assert_eq!(Span::new(5, 3).len(), 0);
    assert!(Span::new(0, 10).contains(s));
    assert!(!s.contains(Span::new(0, 10)));
    assert!(s.contains(s));
    assert!(s.is_valid());
    assert!(!Span::new(5, 2).is_valid());
}

#[test]
fn line_index_positions() {
    let index = LineIndex::new("ab\ncd\r\nef");
    assert_eq!(index.position(0), LinePosition { line: 1, column: 1 });
    assert_eq!(index.position(4), LinePosition { line: 2, column: 2 });
    assert_eq!(index.position(7), LinePosition { line: 3, column: 1 });
    assert_eq!(index.position(100), LinePosition { line: 3, column: 3 });
    assert_eq!(
        index.span(Span::new(1, 8)),
        (LinePosition { line: 1, column: 2 }, LinePosition { line: 3, column: 2 })
    );
    let lone_cr = LineIndex::new("a\rb");
    assert_eq!(lone_cr.position(2), LinePosition { line: 2, column: 1 });
}

#[test]
fn presets_are_consistent() {
    assert_eq!(SyntaxOptions::commonmark().validate(), Ok(()));
    assert_eq!(SyntaxOptions::gfm().validate(), Ok(()));
    assert_eq!(SyntaxOptions::mdx().validate(), Ok(()));
    assert!(Constructs::max().html_block);
    assert!(Constructs::gfm().gfm_table);
    assert!(!Constructs::commonmark().gfm_table);
}

#[test]
fn enable_and_disable_switch_constructs() {
    let on = SyntaxOptions::commonmark().enable(Construct::Table);
    assert!(on.constructs.gfm_table);
    let off = on.disable(Construct::Table);
    assert!(!off.constructs.gfm_table);
    let wiki = SyntaxOptions::commonmark().enable(Construct::Wikilinks(WikiLinkOrder::TitleBeforePipe));
    assert!(wiki.constructs.wikilink_title_before_pipe);
    assert!(!wiki.constructs.wikilink_title_after_pipe);
}

#[test]
fn reports_each_conflict() {
    let mdx_html = SyntaxOptions::commonmark().enable(Construct::MdxJsx);
    assert_eq!(mdx_html.validate(), Err(SyntaxConfigError::MdxHtmlConflict));
    let mut both = SyntaxOptions::commonmark();
    both.constructs.wikilink_title_after_pipe = true;
    both.constructs.wikilink_title_before_pipe = true;
    assert_eq!(both.validate(), Err(SyntaxConfigError::WikilinkTitleOrderConflict));
    assert_eq!(
        SyntaxConfigError::MdxHtmlConflict.message(),
        "MDX JSX and raw HTML syntax cannot both be enabled"
    );
    assert_eq!(
        SyntaxConfigError::WikilinkTitleOrderConflict.message(),
        "wikilink title-before-pipe and title-after-pipe cannot both be enabled"
    );
}

#[test]
fn builds_diagnostics() {
    let d = Diagnostic::new(DiagnosticSeverity::Warning, DiagnosticCode::InvalidMdx, Span::new(1, 2), "m");
    assert_eq!(d.severity, DiagnosticSeverity::Warning);
    assert_eq!(d.code, DiagnosticCode::InvalidMdx);
    assert_eq!(d.span, Some(Span::new(1, 2)));
    assert_eq!(d.message, "m");
    let v = Diagnostic::invalid(None, "bad");
    assert_eq!(v.severity, DiagnosticSeverity::Error);
    assert_eq!(v.code, DiagnosticCode::InvalidDocument);
    assert_eq!(v.span, None);
}

#[test]
fn constructors_fill_fields() {
    let t = Text::new("a");
    assert_eq!(t.value, "a");
    assert_eq!(t.meta.span, None);
    let h = Heading::new(2, vec![Inline::Text(Text::new("h"))]);
    assert_eq!(h.depth, 2);
    let c = CodeInline::new("x");
    assert_eq!(c.raw, "x");
    assert_eq!(c.fence_length, 1);
    let l = List::new(vec![]);
    assert!(l.tight && !l.ordered);
    let e = Inline::Emphasis(Emphasis { meta: NodeMeta::none(), children: vec![Inline::Text(Text::new("z"))] });
    assert_eq!(e.children().len(), 1);
    assert_eq!(Inline::Text(Text::new("q")).children().len(), 0);
}

#[test]
fn validates_documents() {
    let good = Document {
        meta: NodeMeta::none(),
        children: vec![Block::Paragraph(Paragraph::new(vec![Inline::Text(Text::new("ok"))]))],
    };
    assert!(validate_document(&good).is_empty());
    assert!(good.validate().is_empty());
    let bad_heading = Document { meta: NodeMeta::none(), children: vec![Block::Heading(Heading::new(7, vec![]))] };
    let d = bad_heading.validate();
    assert!(!d.is_empty());
    assert!(d.iter().all(|x| x.code == DiagnosticCode::InvalidDocument));
    let empty_code = Document {
        meta: NodeMeta::none(),
        children: vec![Block::Paragraph(Paragraph::new(vec![Inline::Code(CodeInline::new(""))]))],
    };
    let _ = empty_code.validate();
}

#[test]
fn checks_directive_and_attribute_names() {
    assert!(is_directive_name(b"note"));
    assert!(is_directive_name(b"a-1_b"));
    assert!(!is_directive_name(b"1x"));
    assert!(!is_directive_name(b""));
    assert!(is_attribute_name(b"_x:y.z") == false || is_attribute_name(b"_x:y"));
    assert!(is_attribute_name(b"data-x"));
    assert!(!is_attribute_name(b"9a"));
}

#[test]
fn heading_depth_zero_is_reported_with_its_message() {
    let h = markdown_syntax::Heading {
        meta: markdown_syntax::NodeMeta::none(),
        depth: 0,
        kind: markdown_syntax::HeadingKind::Atx,
        children: vec![markdown_syntax::Inline::Text(markdown_syntax::Text::new("x"))],
    };
    let d = markdown_syntax::Document { meta: markdown_syntax::NodeMeta::none(), children: vec![markdown_syntax::Block::Heading(h)] };
    let diagnostics = d.validate();
    assert_eq!(diagnostics.len(), 1);
    assert_eq!(diagnostics[0].message, "heading depth must be in the range 1..=6");
    assert_eq!(diagnostics[0].span, None);
    assert_eq!(diagnostics[0].code, markdown_syntax::DiagnosticCode::InvalidDocument);
}
