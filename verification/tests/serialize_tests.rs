use markdown_syntax::escape::{escape_with, EscapeRule};
use markdown_syntax::label::normalize_label;
use markdown_syntax::serialize::{finish_output, InlineSerializeContext};
use markdown_syntax::text_escape::escape_text_with_context;
use markdown_syntax::{
    parse, to_markdown, to_markdown_with_options, Block, BlockQuote, CodeBlock, CodeBlockKind, CodeInline,
    Document, Emphasis, FenceMarker, Heading, HeadingKind, Inline, LineEnding, Link, LinkTitleKind, List, ListItem, MathInline,
    MathInlineKind, NodeMeta, Paragraph, SerializeError, SerializeOptions, Strong, Table, TableAlignment,
    TableCell, TableRow, Text, ThematicBreak, ThematicBreakMarker,
};

fn text(value: &str) -> Inline {
    Inline::Text(Text::new(value))
}

fn paragraph(children: Vec<Inline>) -> Block {
    Block::Paragraph(Paragraph::new(children))
}

fn doc(children: Vec<Block>) -> Document {
    Document { meta: NodeMeta::none(), children }
}

#[test]
fn round_trips_heading_and_paragraph() {
    let out = parse("# Title\n\nHello world.");
    assert_eq!(to_markdown(&out.document).unwrap(), "# Title\n\nHello world.\n");
}

#[test]
fn writes_emphasis_and_strong() {
    let d = doc(vec![paragraph(vec![
        text("a"),
        Inline::Emphasis(Emphasis { meta: NodeMeta::none(), children: vec![text("b")] }),
        text("c"),
        Inline::Strong(Strong { meta: NodeMeta::none(), children: vec![text("d")] }),
    ])]);
    assert_eq!(to_markdown(&d).unwrap(), "a*b*c**d**\n");
}

#[test]
fn spaces_dash_break_at_document_start() {
    let brk = || Block::ThematicBreak(ThematicBreak { meta: NodeMeta::none(), marker: ThematicBreakMarker::Dash });
    assert_eq!(to_markdown(&doc(vec![brk(), paragraph(vec![text("x")])])).unwrap(), "- - -\n\nx\n");
    assert_eq!(to_markdown(&doc(vec![paragraph(vec![text("x")]), brk()])).unwrap(), "x\n\n---\n");
}

#[test]
fn applies_line_ending_and_final_newline_options() {
    let out = parse("# Title\n\nHello world.");
    let mut options = SerializeOptions::default();
    options.line_ending = LineEnding::CrLf;
    assert_eq!(to_markdown_with_options(&out.document, &options).unwrap(), "# Title\r\n\r\nHello world.\r\n");
    let mut options = SerializeOptions::default();
    options.final_newline = false;
    assert_eq!(to_markdown_with_options(&out.document, &options).unwrap(), "# Title\n\nHello world.");
}

#[test]
fn empty_document_serializes_to_nothing() {
    assert_eq!(to_markdown(&doc(vec![])).unwrap(), "");
}

#[test]
fn refuses_invalid_document() {
    let d = doc(vec![paragraph(vec![Inline::Emphasis(Emphasis { meta: NodeMeta::none(), children: vec![] })])]);
    match to_markdown(&d) {
        Err(SerializeError::InvalidDocument(diagnostics)) => assert!(!diagnostics.is_empty()),
        other => panic!("unexpected {:?}", other),
    }
    assert!(!d.validate().is_empty());
}

#[test]
fn refuses_unwritable_math() {
    let d = doc(vec![paragraph(vec![Inline::Math(MathInline {
        meta: NodeMeta::none(),
        value: "a`$b".to_string(),
        kind: MathInlineKind::Code,
    })])]);
    assert_eq!(
        to_markdown(&d),
        Err(SerializeError::UnsupportedNode("inline math (code-math form) containing a `$` close"))
    );
    let ok = doc(vec![paragraph(vec![Inline::Math(MathInline {
        meta: NodeMeta::none(),
        value: "x".to_string(),
        kind: MathInlineKind::Dollar { dollars: 2 },
    })])]);
    assert_eq!(to_markdown(&ok).unwrap(), "$$x$$\n");
}

#[test]
fn writes_fenced_code() {
    let d = doc(vec![Block::CodeBlock(CodeBlock {
        meta: NodeMeta::none(),
        kind: CodeBlockKind::Fenced { marker: FenceMarker::Backtick, length: 3 },
        info: Some("rust".to_string()),
        value: "let s = \"```\";\n".to_string(),
    })]);
    assert_eq!(to_markdown(&d).unwrap(), "```` rust\nlet s = \"```\";\n````\n");
}

#[test]
fn writes_inline_code_and_link() {
    let d = doc(vec![paragraph(vec![
        Inline::Code(CodeInline::new("x")),
        text(" "),
        Inline::Link(Link::new("https://x.y", vec![text("t")])),
    ])]);
    assert_eq!(to_markdown(&d).unwrap(), "`x` [t](https://x.y)\n");
}

#[test]
fn writes_link_title_and_spaced_destination() {
    let mut link = Link::new("a b", vec![text("t")]);
    link.title = Some("say \"hi\"".to_string());
    link.title_kind = Some(LinkTitleKind::DoubleQuote);
    let d = doc(vec![paragraph(vec![Inline::Link(link)])]);
    assert_eq!(to_markdown(&d).unwrap(), "[t](<a b> \"say \\\"hi\\\"\")\n");
}

#[test]
fn escapes_text_that_would_start_syntax() {
    assert_eq!(to_markdown(&doc(vec![paragraph(vec![text("1. item")])])).unwrap(), "1\\. item\n");
    assert_eq!(to_markdown(&doc(vec![paragraph(vec![text("# no")])])).unwrap(), "\\# no\n");
    assert_eq!(to_markdown(&doc(vec![paragraph(vec![text("a*b")])])).unwrap(), "a*b\n");
    assert_eq!(to_markdown(&doc(vec![paragraph(vec![text("a*b*")])])).unwrap(), "a\\*b\\*\n");
}

#[test]
fn writes_lists_and_quotes() {
    let item = |s: &str| ListItem { meta: NodeMeta::none(), checked: None, children: vec![paragraph(vec![text(s)])] };
    let d = doc(vec![Block::List(List::new(vec![item("a"), item("b")]))]);
    assert_eq!(to_markdown(&d).unwrap(), "- a\n- b\n");
    let mut ordered = List::new(vec![item("a"), item("b")]);
    ordered.ordered = true;
    ordered.start = Some(3);
    ordered.delimiter = markdown_syntax::ListDelimiter::Period;
    assert_eq!(to_markdown(&doc(vec![Block::List(ordered)])).unwrap(), "3. a\n4. b\n");
    let task = ListItem { meta: NodeMeta::none(), checked: Some(true), children: vec![paragraph(vec![text("done")])] };
    assert_eq!(to_markdown(&doc(vec![Block::List(List::new(vec![task]))])).unwrap(), "- [x] done\n");
    let q = doc(vec![Block::BlockQuote(BlockQuote { meta: NodeMeta::none(), children: vec![paragraph(vec![text("q")])] })]);
    assert_eq!(to_markdown(&q).unwrap(), "> q\n");
}

#[test]
fn writes_table() {
    let cell = |s: &str| TableCell { meta: NodeMeta::none(), children: vec![text(s)] };
    let row = |a: &str, b: &str| TableRow { meta: NodeMeta::none(), cells: vec![cell(a), cell(b)] };
    let d = doc(vec![Block::Table(Table {
        meta: NodeMeta::none(),
        alignments: vec![TableAlignment::Left, TableAlignment::Unaligned],
        rows: vec![row("a", "b"), row("1", "2")],
    })]);
    assert_eq!(to_markdown(&d).unwrap(), "| a | b |\n| :--- | --- |\n| 1 | 2 |\n");
}

#[test]
fn finishes_output_with_options() {
    let mut options = SerializeOptions::default();
    assert_eq!(finish_output(b"a\nb", &options), b"a\nb\n".to_vec());
    assert_eq!(finish_output(b"a\n", &options), b"a\n".to_vec());
    assert_eq!(finish_output(b"", &options), b"".to_vec());
    options.line_ending = LineEnding::CrLf;
    assert_eq!(finish_output(b"a\nb", &options), b"a\r\nb\r\n".to_vec());
}

#[test]
fn escapes_by_rule() {
    assert_eq!(escape_with(b"a\\b&c", EscapeRule::CodeInfo), b"a\\\\b\\&c".to_vec());
    assert_eq!(escape_with(b"x\ny", EscapeRule::AlertTitle), b"x y".to_vec());
    assert_eq!(escape_with(b"x\ny", EscapeRule::CodeInfo), b"x&#xA;y".to_vec());
    assert_eq!(
        escape_with(b"a b|", EscapeRule::LabelSyntax { pipe: true, whitespace: true }),
        b"a&#x20;b\\|".to_vec()
    );
    assert_eq!(escape_with("\u{85}".as_bytes(), EscapeRule::FootnoteLabelSource), b"&#x85;".to_vec());
    assert_eq!(
        escape_with(b"<a>", EscapeRule::AngleDestination { pipe: false }),
        b"\\<a\\>".to_vec()
    );
}

#[test]
fn escapes_text_scalar_by_scalar() {
    let plain = InlineSerializeContext::plain();
    assert_eq!(escape_text_with_context(b"*x*", false, false, plain), b"\\*x\\*".to_vec());
    assert_eq!(escape_text_with_context(b" a ", true, true, plain), b"&#x20;a&#x20;".to_vec());
    assert_eq!(escape_text_with_context(b"a|b", false, false, InlineSerializeContext::table_cell()), b"a&#x7C;b".to_vec());
    assert_eq!(escape_text_with_context(b"x@y.io", false, false, plain), b"x&#x40;y.io".to_vec());
}

#[test]
fn normalizes_labels() {
    assert_eq!(normalize_label(b"  Foo\t BAR "), "foo bar");
    assert_eq!(normalize_label("\u{1E9E}".as_bytes()), "ss");
    assert_eq!(normalize_label("\u{212A}elvin".as_bytes()), "kelvin");
}

#[test]
fn writes_lone_emphasis_with_stars() {
    let d = doc(vec![paragraph(vec![Inline::Emphasis(Emphasis { meta: NodeMeta::none(), children: vec![text("a")] })])]);
    assert_eq!(to_markdown(&d).unwrap(), "*a*\n");
}

#[test]
fn emphasis_at_strong_edge_uses_underscores() {
    let inner = Inline::Emphasis(Emphasis { meta: NodeMeta::none(), children: vec![text("a")] });
    let d = doc(vec![paragraph(vec![Inline::Strong(Strong { meta: NodeMeta::none(), children: vec![inner] })])]);
    assert_eq!(to_markdown(&d).unwrap(), "**_a_**\n");
}

#[test]
fn setext_heading_of_depth_three_falls_back_to_atx() {
    let h = Heading { meta: NodeMeta::none(), depth: 3, kind: HeadingKind::Setext, children: vec![text("x")] };
    assert_eq!(to_markdown(&doc(vec![Block::Heading(h)])).unwrap(), "### x\n");
}

#[test]
fn setext_heading_keeps_its_underline() {
    let h1 = Heading { meta: NodeMeta::none(), depth: 1, kind: HeadingKind::Setext, children: vec![text("x")] };
    assert_eq!(to_markdown(&doc(vec![Block::Heading(h1)])).unwrap(), "x\n===\n");
    let h2 = Heading { meta: NodeMeta::none(), depth: 2, kind: HeadingKind::Setext, children: vec![text("Title")] };
    assert_eq!(to_markdown(&doc(vec![Block::Heading(h2)])).unwrap(), "Title\n-----\n");
}

#[test]
fn invalid_document_error_carries_validate_diagnostics() {
    let h = Heading { meta: NodeMeta::none(), depth: 0, kind: HeadingKind::Atx, children: vec![text("x")] };
    let d = doc(vec![Block::Heading(h)]);
    match to_markdown(&d) {
        Err(SerializeError::InvalidDocument(diagnostics)) => assert_eq!(diagnostics, d.validate()),
        other => panic!("unexpected {:?}", other),
    }
}

#[test]
fn loose_list_items_are_separated_by_blank_lines() {
    let out = parse("- a\n\n- b");
    assert_eq!(to_markdown(&out.document).unwrap(), "- a\n\n- b\n");
}
