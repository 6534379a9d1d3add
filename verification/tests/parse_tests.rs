use markdown_syntax::parse::strict_outcome;
use markdown_syntax::{Diagnostic, DiagnosticCode, DiagnosticSeverity, Document, NodeMeta, ParseOutput};
use markdown_syntax::{
    parse, parse_strict_with_options, parse_with_options, Block, CodeBlockKind, Construct, DeleteMarker, FenceMarker,
    AutolinkKind, HeadingKind, Inline, LineBreakKind, LinkDestinationKind, LinkTitleKind, ParseStrictError, ReferenceKind, Span,
    SyntaxConfigError, SyntaxOptions, TableAlignment, MathInlineKind, FrontmatterKind, AlertKind,
    ThematicBreakMarker,
};

fn inlines_of(block: &Block) -> &Vec<Inline> {
    match block {
        Block::Paragraph(p) => &p.children,
        Block::Heading(h) => &h.children,
        _ => panic!("no inline content"),
    }
}

fn text_of(inline: &Inline) -> &str {
    match inline {
        Inline::Text(t) => t.value.as_str(),
        _ => panic!("not a text node"),
    }
}

#[test]
fn parses_heading_and_paragraph() {
    let out = parse("# Title\n\nHello world.");
    assert!(out.diagnostics.is_empty());
    assert_eq!(out.document.meta.span, Some(Span::new(0, 21)));
    assert_eq!(out.document.children.len(), 2);
    match &out.document.children[0] {
        Block::Heading(h) => {
            assert_eq!(h.depth, 1);
            assert_eq!(h.kind, HeadingKind::Atx);
            assert_eq!(h.meta.span, Some(Span::new(0, 7)));
            assert_eq!(h.children.len(), 1);
            assert_eq!(text_of(&h.children[0]), "Title");
            match &h.children[0] {
                Inline::Text(t) => assert_eq!(t.meta.span, Some(Span::new(2, 7))),
                _ => panic!(),
            }
        }
        _ => panic!("expected a heading"),
    }
    match &out.document.children[1] {
        Block::Paragraph(p) => {
            assert_eq!(p.meta.span, Some(Span::new(9, 21)));
            assert_eq!(text_of(&p.children[0]), "Hello world.");
        }
        _ => panic!("expected a paragraph"),
    }
}

#[test]
fn parses_empty_input() {
    let out = parse("");
    assert!(out.document.children.is_empty());
    assert_eq!(out.document.meta.span, Some(Span::new(0, 0)));
}

#[test]
fn parses_atx_closing_sequence() {
    let out = parse("## Title ##");
    match &out.document.children[0] {
        Block::Heading(h) => {
            assert_eq!(h.depth, 2);
            assert_eq!(text_of(&h.children[0]), "Title");
        }
        _ => panic!(),
    }
    let out = parse("####### seven");
    assert!(matches!(&out.document.children[0], Block::Paragraph(_)));
}

#[test]
fn parses_setext_heading() {
    let out = parse("Title\n===\n");
    match &out.document.children[0] {
        Block::Heading(h) => {
            assert_eq!(h.depth, 1);
            assert_eq!(h.kind, HeadingKind::Setext);
            assert_eq!(h.meta.span, Some(Span::new(0, 9)));
            assert_eq!(text_of(&h.children[0]), "Title");
        }
        _ => panic!(),
    }
    let out = parse("Sub\n---");
    match &out.document.children[0] {
        Block::Heading(h) => assert_eq!(h.depth, 2),
        _ => panic!(),
    }
}

#[test]
fn parses_thematic_breaks() {
    let out = parse("***\n\n- - -\n\n___");
    let markers: Vec<ThematicBreakMarker> = out
        .document
        .children
        .iter()
        .map(|b| match b {
            Block::ThematicBreak(t) => t.marker,
            _ => panic!("expected a thematic break"),
        })
        .collect();
    assert_eq!(
        markers,
        vec![ThematicBreakMarker::Asterisk, ThematicBreakMarker::Dash, ThematicBreakMarker::Underscore]
    );
}

#[test]
fn parses_fenced_code() {
    let out = parse("```rust\nlet x = 1;\n```\n");
    match &out.document.children[0] {
        Block::CodeBlock(c) => {
            assert_eq!(c.kind, CodeBlockKind::Fenced { marker: FenceMarker::Backtick, length: 3 });
            assert_eq!(c.info.as_deref(), Some("rust"));
            assert_eq!(c.value, "let x = 1;\n");
            assert_eq!(c.meta.span, Some(Span::new(0, 23)));
        }
        _ => panic!(),
    }
}

#[test]
fn parses_unclosed_fence_to_end() {
    let out = parse("~~~\na\nb");
    match &out.document.children[0] {
        Block::CodeBlock(c) => {
            assert_eq!(c.kind, CodeBlockKind::Fenced { marker: FenceMarker::Tilde, length: 3 });
            assert_eq!(c.info, None);
            assert_eq!(c.value, "a\nb");
        }
        _ => panic!(),
    }
}

#[test]
fn parses_indented_code() {
    let out = parse("    code\n");
    match &out.document.children[0] {
        Block::CodeBlock(c) => {
            assert_eq!(c.kind, CodeBlockKind::Indented);
            assert_eq!(c.value, "code\n");
        }
        _ => panic!(),
    }
}

#[test]
fn parses_html_block() {
    let out = parse("<div>\nhi\n</div>");
    match &out.document.children[0] {
        Block::HtmlBlock(h) => assert_eq!(h.value, "<div>\nhi\n</div>"),
        _ => panic!(),
    }
}

#[test]
fn parses_inline_escapes_and_references() {
    let out = parse("a\\*b &#65;&#x42;");
    let inlines = inlines_of(&out.document.children[0]);
    assert_eq!(inlines.len(), 1);
    assert_eq!(text_of(&inlines[0]), "a*b AB");
}

#[test]
fn keeps_escapes_when_asked() {
    let mut options = SyntaxOptions::commonmark();
    options.parse.preserve_character_escapes = true;
    let out = parse_with_options("a\\*b", &options).unwrap();
    let inlines = inlines_of(&out.document.children[0]);
    assert_eq!(inlines.len(), 3);
    assert_eq!(text_of(&inlines[0]), "a");
    match &inlines[1] {
        Inline::Escape(e) => assert_eq!(e.value, '*'),
        _ => panic!(),
    }
    assert_eq!(text_of(&inlines[2]), "b");
}

#[test]
fn keeps_character_references_when_asked() {
    let mut options = SyntaxOptions::commonmark();
    options.parse.preserve_character_references = true;
    let out = parse_with_options("&#x41;", &options).unwrap();
    match &inlines_of(&out.document.children[0])[0] {
        Inline::CharacterReference(c) => {
            assert_eq!(c.reference, "&#x41;");
            assert_eq!(c.value, "A");
        }
        _ => panic!(),
    }
}

#[test]
fn decodes_invalid_references_to_replacement() {
    let out = parse("&#0;&#xD800;");
    assert_eq!(text_of(&inlines_of(&out.document.children[0])[0]), "\u{FFFD}\u{FFFD}");
}

#[test]
fn parses_code_span() {
    let out = parse("`` a`b ``");
    match &inlines_of(&out.document.children[0])[0] {
        Inline::Code(c) => {
            assert_eq!(c.value, "a`b");
            assert_eq!(c.raw, " a`b ");
            assert_eq!(c.fence_length, 2);
        }
        _ => panic!(),
    }
}

#[test]
fn unmatched_backticks_are_text() {
    let out = parse("```a``");
    assert_eq!(text_of(&inlines_of(&out.document.children[0])[0]), "```a``");
}

#[test]
fn parses_line_breaks() {
    let out = parse("a  \nb");
    let inlines = inlines_of(&out.document.children[0]);
    assert_eq!(inlines.len(), 3);
    match &inlines[1] {
        Inline::LineBreak(l) => {
            assert_eq!(l.kind, LineBreakKind::Spaces);
            assert_eq!(l.meta.span, Some(Span::new(1, 4)));
        }
        _ => panic!(),
    }
    let out = parse("a\\\nb");
    match &inlines_of(&out.document.children[0])[1] {
        Inline::LineBreak(l) => assert_eq!(l.kind, LineBreakKind::Backslash),
        _ => panic!(),
    }
    let out = parse("a\nb");
    assert!(matches!(&inlines_of(&out.document.children[0])[1], Inline::SoftBreak(_)));
}

#[test]
fn strips_byte_order_mark_and_nul() {
    let out = parse("\u{feff}x");
    assert_eq!(out.document.meta.span, Some(Span::new(0, 1)));
    assert_eq!(text_of(&inlines_of(&out.document.children[0])[0]), "x");
    let out = parse("a\0b");
    assert_eq!(text_of(&inlines_of(&out.document.children[0])[0]), "a\u{FFFD}b");
}

#[test]
fn refuses_conflicting_options() {
    let options = SyntaxOptions::commonmark().enable(Construct::MdxJsx);
    assert_eq!(parse_with_options("x", &options), Err(SyntaxConfigError::MdxHtmlConflict));
    assert_eq!(
        parse_strict_with_options("x", &options),
        Err(ParseStrictError::Config(SyntaxConfigError::MdxHtmlConflict))
    );
    let ok = parse_strict_with_options("x", &SyntaxOptions::gfm()).unwrap();
    assert!(ok.diagnostics.is_empty());
}

#[test]
fn paragraph_ends_at_block_start() {
    let out = parse("text\n# head");
    assert_eq!(out.document.children.len(), 2);
    assert!(matches!(&out.document.children[1], Block::Heading(_)));
}

#[test]
fn parses_block_quote() {
    let out = parse("> a\n> b");
    match &out.document.children[0] {
        Block::BlockQuote(q) => {
            assert_eq!(q.meta.span, Some(Span::new(0, 7)));
            assert_eq!(q.children.len(), 1);
            let inlines = inlines_of(&q.children[0]);
            assert_eq!(inlines.len(), 3);
            assert_eq!(text_of(&inlines[0]), "a");
            assert!(matches!(&inlines[1], Inline::SoftBreak(_)));
            assert_eq!(text_of(&inlines[2]), "b");
            match &inlines[0] {
                Inline::Text(t) => assert_eq!(t.meta.span, Some(Span::new(2, 3))),
                _ => panic!(),
            }
        }
        _ => panic!("expected a block quote"),
    }
}

#[test]
fn block_quote_takes_lazy_paragraph_lines() {
    let out = parse("> a\nb\n\nc");
    assert_eq!(out.document.children.len(), 2);
    match &out.document.children[0] {
        Block::BlockQuote(q) => assert_eq!(inlines_of(&q.children[0]).len(), 3),
        _ => panic!(),
    }
}

#[test]
fn parses_tight_bullet_list() {
    let out = parse("- a\n- b");
    match &out.document.children[0] {
        Block::List(l) => {
            assert!(!l.ordered);
            assert!(l.tight);
            assert_eq!(l.delimiter, markdown_syntax::ListDelimiter::Dash);
            assert_eq!(l.children.len(), 2);
            assert_eq!(l.meta.span, Some(Span::new(0, 7)));
            assert_eq!(text_of(&inlines_of(&l.children[1].children[0])[0]), "b");
            match &l.children[0].children[0] {
                Block::Paragraph(p) => assert_eq!(p.meta.span, Some(Span::new(2, 3))),
                _ => panic!(),
            }
        }
        _ => panic!("expected a list"),
    }
}

#[test]
fn parses_ordered_and_loose_lists() {
    let out = parse("3. x\n4. y");
    match &out.document.children[0] {
        Block::List(l) => {
            assert!(l.ordered);
            assert_eq!(l.start, Some(3));
            assert_eq!(l.delimiter, markdown_syntax::ListDelimiter::Period);
        }
        _ => panic!(),
    }
    let out = parse("- a\n\n- b");
    match &out.document.children[0] {
        Block::List(l) => {
            assert!(!l.tight);
            assert_eq!(l.children.len(), 2);
        }
        _ => panic!(),
    }
}

#[test]
fn parses_nested_list() {
    let out = parse("- a\n  - b");
    match &out.document.children[0] {
        Block::List(l) => {
            assert_eq!(l.children.len(), 1);
            let item = &l.children[0];
            assert_eq!(item.children.len(), 2);
            assert!(matches!(&item.children[0], Block::Paragraph(_)));
            assert!(matches!(&item.children[1], Block::List(_)));
        }
        _ => panic!(),
    }
}

#[test]
fn lists_and_quotes_round_trip() {
    for source in ["- a\n- b\n", "> q\n", "1. x\n2. y\n", "# T\n\n- a\n\n- b\n"] {
        let first = markdown_syntax::to_markdown(&parse(source).document).unwrap();
        let second = markdown_syntax::to_markdown(&parse(&first).document).unwrap();
        assert_eq!(first, second, "unstable for {:?}", source);
    }
    assert_eq!(markdown_syntax::to_markdown(&parse("- a\n- b").document).unwrap(), "- a\n- b\n");
}

fn only_paragraph_inlines(source: &str) -> Vec<Inline> {
    let out = parse(source);
    assert_eq!(out.document.children.len(), 1);
    match out.document.children.into_iter().next().unwrap() {
        Block::Paragraph(p) => p.children,
        _ => panic!("expected a paragraph"),
    }
}

#[test]
fn parses_emphasis_and_strong() {
    let inlines = only_paragraph_inlines("*a* and **b**");
    assert_eq!(inlines.len(), 3);
    match &inlines[0] {
        Inline::Emphasis(e) => {
            assert_eq!(e.meta.span, Some(Span::new(0, 3)));
            assert_eq!(text_of(&e.children[0]), "a");
        }
        _ => panic!("expected emphasis"),
    }
    assert_eq!(text_of(&inlines[1]), " and ");
    match &inlines[2] {
        Inline::Strong(s) => {
            assert_eq!(s.meta.span, Some(Span::new(8, 13)));
            assert_eq!(text_of(&s.children[0]), "b");
        }
        _ => panic!("expected strong"),
    }
}

#[test]
fn underscore_emphasis_needs_flanking() {
    let inlines = only_paragraph_inlines("_x_ snake_case_name");
    assert!(matches!(&inlines[0], Inline::Emphasis(_)));
    assert_eq!(inlines.len(), 2);
    assert_eq!(text_of(&inlines[1]), " snake_case_name");
}

#[test]
fn unmatched_delimiters_stay_text() {
    let inlines = only_paragraph_inlines("a * b *");
    assert_eq!(inlines.len(), 1);
    assert_eq!(text_of(&inlines[0]), "a * b *");
}

#[test]
fn leftover_delimiters_stay_text() {
    let inlines = only_paragraph_inlines("**foo*");
    assert_eq!(inlines.len(), 2);
    assert_eq!(text_of(&inlines[0]), "*");
    match &inlines[1] {
        Inline::Emphasis(e) => assert_eq!(text_of(&e.children[0]), "foo"),
        _ => panic!("expected emphasis"),
    }
}

#[test]
fn rule_of_three_nests_strong_in_emphasis() {
    let inlines = only_paragraph_inlines("*foo**bar**baz*");
    assert_eq!(inlines.len(), 1);
    match &inlines[0] {
        Inline::Emphasis(e) => {
            assert_eq!(e.children.len(), 3);
            assert_eq!(text_of(&e.children[0]), "foo");
            match &e.children[1] {
                Inline::Strong(s) => assert_eq!(text_of(&s.children[0]), "bar"),
                _ => panic!("expected strong"),
            }
            assert_eq!(text_of(&e.children[2]), "baz");
        }
        _ => panic!("expected emphasis"),
    }
}

#[test]
fn triple_delimiters_give_strong_inside_emphasis() {
    let inlines = only_paragraph_inlines("***x***");
    assert_eq!(inlines.len(), 1);
    match &inlines[0] {
        Inline::Emphasis(e) => match &e.children[0] {
            Inline::Strong(s) => assert_eq!(text_of(&s.children[0]), "x"),
            _ => panic!("expected strong"),
        },
        _ => panic!("expected emphasis"),
    }
}

#[test]
fn strikethrough_only_with_gfm() {
    let inlines = only_paragraph_inlines("~~c~~");
    assert_eq!(inlines.len(), 1);
    assert_eq!(text_of(&inlines[0]), "~~c~~");
    let out = parse_with_options("~~c~~ ~d~", &SyntaxOptions::gfm()).unwrap();
    let inlines = inlines_of(&out.document.children[0]);
    match &inlines[0] {
        Inline::Delete(d) => {
            assert_eq!(d.marker, DeleteMarker::DoubleTilde);
            assert_eq!(text_of(&d.children[0]), "c");
        }
        _ => panic!("expected strikethrough"),
    }
    assert_eq!(text_of(&inlines[1]), " ");
    match &inlines[2] {
        Inline::Delete(d) => {
            assert_eq!(d.marker, DeleteMarker::SingleTilde);
            assert_eq!(text_of(&d.children[0]), "d");
        }
        _ => panic!("expected strikethrough"),
    }
}

#[test]
fn emphasis_round_trips() {
    for source in ["*a* **b**\n", "_x_ and __y__\n", "***z***\n", "**foo*\n"] {
        let first = markdown_syntax::to_markdown(&parse(source).document).unwrap();
        let second = markdown_syntax::to_markdown(&parse(&first).document).unwrap();
        assert_eq!(first, second, "unstable for {:?}", source);
    }
}

#[test]
fn parses_inline_link_with_title() {
    let inlines = only_paragraph_inlines("[a *b*](http://x \"t\") end");
    match &inlines[0] {
        Inline::Link(l) => {
            assert_eq!(l.meta.span, Some(Span::new(0, 21)));
            assert_eq!(l.destination, "http://x");
            assert_eq!(l.destination_kind, LinkDestinationKind::Bare);
            assert_eq!(l.title.as_deref(), Some("t"));
            assert_eq!(l.title_kind, Some(LinkTitleKind::DoubleQuote));
            assert_eq!(text_of(&l.children[0]), "a ");
            assert!(matches!(&l.children[1], Inline::Emphasis(_)));
        }
        _ => panic!("expected a link"),
    }
    assert_eq!(text_of(&inlines[1]), " end");
}

#[test]
fn parses_angle_destination_and_escapes() {
    let inlines = only_paragraph_inlines("[x](<a b> 'q\\'r')");
    match &inlines[0] {
        Inline::Link(l) => {
            assert_eq!(l.destination, "a b");
            assert_eq!(l.destination_kind, LinkDestinationKind::Angle);
            assert_eq!(l.title.as_deref(), Some("q'r"));
            assert_eq!(l.title_kind, Some(LinkTitleKind::SingleQuote));
        }
        _ => panic!("expected a link"),
    }
}

#[test]
fn parses_link_with_omitted_destination() {
    let inlines = only_paragraph_inlines("[x]()");
    match &inlines[0] {
        Inline::Link(l) => {
            assert_eq!(l.destination, "");
            assert_eq!(l.destination_kind, LinkDestinationKind::Omitted);
            assert_eq!(l.title, None);
        }
        _ => panic!("expected a link"),
    }
}

#[test]
fn links_do_not_nest() {
    let inlines = only_paragraph_inlines("[a [b](c)](d)");
    assert_eq!(text_of(&inlines[0]), "[a ");
    match &inlines[1] {
        Inline::Link(l) => assert_eq!(l.destination, "c"),
        _ => panic!("expected the inner link"),
    }
    assert_eq!(text_of(&inlines[2]), "](d)");
}

#[test]
fn bracket_without_resource_is_text() {
    let inlines = only_paragraph_inlines("[a] (b)");
    assert_eq!(inlines.len(), 1);
    assert_eq!(text_of(&inlines[0]), "[a] (b)");
}

#[test]
fn parses_inline_image() {
    let inlines = only_paragraph_inlines("![the *alt*](img.png)");
    assert_eq!(inlines.len(), 1);
    match &inlines[0] {
        Inline::Image(i) => {
            assert_eq!(i.destination, "img.png");
            assert_eq!(i.meta.span, Some(Span::new(0, 21)));
            assert_eq!(text_of(&i.alt[0]), "the ");
            assert!(matches!(&i.alt[1], Inline::Emphasis(_)));
        }
        _ => panic!("expected an image"),
    }
}

#[test]
fn parses_autolinks() {
    let inlines = only_paragraph_inlines("<https://example.com/a?b> and <me@example.org>");
    match &inlines[0] {
        Inline::Autolink(a) => {
            assert_eq!(a.destination, "https://example.com/a?b");
            assert_eq!(a.kind, AutolinkKind::Angle);
            assert_eq!(a.meta.span, Some(Span::new(0, 25)));
        }
        _ => panic!("expected an autolink"),
    }
    match &inlines[2] {
        Inline::Autolink(a) => assert_eq!(a.destination, "me@example.org"),
        _ => panic!("expected an email autolink"),
    }
    let plain = only_paragraph_inlines("x <9p:q> y");
    assert_eq!(plain.len(), 1);
    assert_eq!(text_of(&plain[0]), "x <9p:q> y");
}

#[test]
fn parses_raw_inline_html() {
    let inlines = only_paragraph_inlines("a <b class=\"x\">c</b> <!-- d -->");
    assert_eq!(text_of(&inlines[0]), "a ");
    match &inlines[1] {
        Inline::Html(h) => assert_eq!(h.value, "<b class=\"x\">"),
        _ => panic!("expected raw html"),
    }
    assert_eq!(text_of(&inlines[2]), "c");
    match &inlines[3] {
        Inline::Html(h) => assert_eq!(h.value, "</b>"),
        _ => panic!("expected raw html"),
    }
    match &inlines[5] {
        Inline::Html(h) => assert_eq!(h.value, "<!-- d -->"),
        _ => panic!("expected an html comment"),
    }
}

#[test]
fn links_round_trip() {
    for source in [
        "[a](http://x \"t\")\n",
        "![i](p.png)\n",
        "<https://e.com>\n",
        "[x](<a b>)\n",
        "a <b>c</b>\n",
    ] {
        let first = markdown_syntax::to_markdown(&parse(source).document).unwrap();
        let second = markdown_syntax::to_markdown(&parse(&first).document).unwrap();
        assert_eq!(first, second, "unstable for {:?}", source);
    }
}

#[test]
fn parses_definition_and_shortcut_reference() {
    let out = parse("[foo]: /url \"title\"\n\n[foo]");
    assert_eq!(out.document.children.len(), 2);
    match &out.document.children[0] {
        Block::Definition(d) => {
            assert_eq!(d.meta.span, Some(Span::new(0, 20)));
            assert_eq!(d.label, "foo");
            assert_eq!(d.identifier, "foo");
            assert_eq!(d.destination, "/url");
            assert_eq!(d.title.as_deref(), Some("title"));
            assert_eq!(d.title_kind, Some(LinkTitleKind::DoubleQuote));
        }
        _ => panic!("expected a definition"),
    }
    let inlines = inlines_of(&out.document.children[1]);
    match &inlines[0] {
        Inline::LinkReference(r) => {
            assert_eq!(r.identifier, "foo");
            assert_eq!(r.label, "foo");
            assert_eq!(r.kind, ReferenceKind::Shortcut);
            assert_eq!(text_of(&r.children[0]), "foo");
        }
        _ => panic!("expected a reference link"),
    }
}

#[test]
fn parses_full_and_collapsed_references() {
    let out = parse("[x][Foo  Bar] and [FOO BAR][]\n\n[foo bar]: /u");
    let inlines = inlines_of(&out.document.children[0]);
    match &inlines[0] {
        Inline::LinkReference(r) => {
            assert_eq!(r.kind, ReferenceKind::Full);
            assert_eq!(r.identifier, "foo bar");
            assert_eq!(r.label, "Foo  Bar");
            assert_eq!(r.meta.span, Some(Span::new(0, 13)));
        }
        _ => panic!("expected a full reference"),
    }
    match &inlines[2] {
        Inline::LinkReference(r) => assert_eq!(r.kind, ReferenceKind::Collapsed),
        _ => panic!("expected a collapsed reference"),
    }
}

#[test]
fn undefined_references_stay_text() {
    let inlines = only_paragraph_inlines("[x][nowhere] and [y]");
    assert_eq!(inlines.len(), 1);
    assert_eq!(text_of(&inlines[0]), "[x][nowhere] and [y]");
}

#[test]
fn parses_definition_with_title_on_next_line() {
    let out = parse("[a]: <b c>\n'the title'\n\n![pic][a]");
    match &out.document.children[0] {
        Block::Definition(d) => {
            assert_eq!(d.destination, "b c");
            assert_eq!(d.destination_kind, LinkDestinationKind::Angle);
            assert_eq!(d.title.as_deref(), Some("the title"));
            assert_eq!(d.meta.span, Some(Span::new(0, 23)));
        }
        _ => panic!("expected a definition"),
    }
    let inlines = inlines_of(&out.document.children[1]);
    match &inlines[0] {
        Inline::ImageReference(r) => {
            assert_eq!(r.identifier, "a");
            assert_eq!(r.kind, ReferenceKind::Full);
            assert_eq!(text_of(&r.alt[0]), "pic");
        }
        _ => panic!("expected an image reference"),
    }
}

#[test]
fn definition_needs_a_destination() {
    let out = parse("[a]:\n\nb");
    assert!(matches!(&out.document.children[0], Block::Paragraph(_)));
}

#[test]
fn definitions_round_trip() {
    for source in ["[a]: /u \"t\"\n\n[a]\n", "[x][y]\n\n[y]: <a b>\n"] {
        let first = markdown_syntax::to_markdown(&parse(source).document).unwrap();
        let second = markdown_syntax::to_markdown(&parse(&first).document).unwrap();
        assert_eq!(first, second, "unstable for {:?}", source);
    }
}

#[test]
fn parses_gfm_table() {
    let source = "| a | b |\n|:--|--:|\n| 1 | 2 |\n| 3 |\n\nafter";
    let out = parse_with_options(source, &SyntaxOptions::gfm()).unwrap();
    assert_eq!(out.document.children.len(), 2);
    match &out.document.children[0] {
        Block::Table(t) => {
            assert_eq!(t.alignments, vec![TableAlignment::Left, TableAlignment::Right]);
            assert_eq!(t.rows.len(), 3);
            assert_eq!(t.meta.span, Some(Span::new(0, 36)));
            assert_eq!(text_of(&t.rows[0].cells[0].children[0]), "a");
            assert_eq!(text_of(&t.rows[1].cells[1].children[0]), "2");
            assert_eq!(t.rows[2].cells.len(), 2);
            assert!(t.rows[2].cells[1].children.is_empty());
        }
        _ => panic!("expected a table"),
    }
    let plain = parse(source);
    assert!(matches!(&plain.document.children[0], Block::Paragraph(_)));
}

#[test]
fn table_interrupts_paragraph_and_needs_matching_width() {
    let out = parse_with_options("intro\na | b\n--- | ---\nc | d", &SyntaxOptions::gfm()).unwrap();
    assert!(matches!(&out.document.children[0], Block::Paragraph(_)));
    assert!(matches!(&out.document.children[1], Block::Table(_)));
    let out = parse_with_options("a | b\n---", &SyntaxOptions::gfm()).unwrap();
    assert!(!matches!(&out.document.children[0], Block::Table(_)));
}

#[test]
fn tables_round_trip() {
    let source = "| a | b |\n| :-- | --: |\n| 1 | 2 |\n";
    let options = SyntaxOptions::gfm();
    let first = markdown_syntax::to_markdown(&parse_with_options(source, &options).unwrap().document).unwrap();
    let second = markdown_syntax::to_markdown(&parse_with_options(&first, &options).unwrap().document).unwrap();
    assert_eq!(first, second);
}

#[test]
fn parses_task_list_items() {
    let out = parse_with_options("- [ ] todo\n- [x] done\n- [X]\n- plain", &SyntaxOptions::gfm()).unwrap();
    match &out.document.children[0] {
        Block::List(l) => {
            assert_eq!(l.children.len(), 4);
            assert_eq!(l.children[0].checked, Some(false));
            assert_eq!(text_of(&inlines_of(&l.children[0].children[0])[0]), "todo");
            assert_eq!(l.children[1].checked, Some(true));
            assert_eq!(l.children[2].checked, None);
            assert_eq!(l.children[3].checked, None);
        }
        _ => panic!("expected a list"),
    }
    let plain = parse("- [ ] todo");
    match &plain.document.children[0] {
        Block::List(l) => {
            assert_eq!(l.children[0].checked, None);
            assert_eq!(text_of(&inlines_of(&l.children[0].children[0])[0]), "[ ] todo");
        }
        _ => panic!("expected a list"),
    }
}

#[test]
fn task_lists_round_trip() {
    let options = SyntaxOptions::gfm();
    let source = "- [ ] a\n- [x] b\n";
    let first = markdown_syntax::to_markdown(&parse_with_options(source, &options).unwrap().document).unwrap();
    let second = markdown_syntax::to_markdown(&parse_with_options(&first, &options).unwrap().document).unwrap();
    assert_eq!(first, second);
}

fn inlines_with(source: &str, construct: Construct) -> Vec<Inline> {
    let options = SyntaxOptions::commonmark().enable(construct);
    let out = parse_with_options(source, &options).unwrap();
    match out.document.children.into_iter().next().unwrap() {
        Block::Paragraph(p) => p.children,
        _ => panic!("expected a paragraph"),
    }
}

#[test]
fn parses_insert_highlight_and_spoiler() {
    let inlines = inlines_with("a ++b++ c", Construct::Insert);
    match &inlines[1] {
        Inline::Insert(n) => {
            assert_eq!(n.meta.span, Some(Span::new(2, 7)));
            assert_eq!(text_of(&n.children[0]), "b");
        }
        _ => panic!("expected an insert"),
    }
    let inlines = inlines_with("==m==", Construct::Highlight);
    assert!(matches!(&inlines[0], Inline::Mark(_)));
    let inlines = inlines_with("||s||", Construct::Spoiler);
    match &inlines[0] {
        Inline::Spoiler(n) => assert_eq!(text_of(&n.children[0]), "s"),
        _ => panic!("expected a spoiler"),
    }
    let plain = only_paragraph_inlines("a ++b++ c");
    assert_eq!(plain.len(), 1);
}

#[test]
fn parses_sub_and_superscript() {
    let inlines = inlines_with("H~2~O", Construct::Subscript);
    match &inlines[1] {
        Inline::Subscript(n) => {
            assert_eq!(n.meta.span, Some(Span::new(1, 4)));
            assert_eq!(text_of(&n.children[0]), "2");
        }
        _ => panic!("expected a subscript"),
    }
    let inlines = inlines_with("x^2^", Construct::Superscript);
    match &inlines[1] {
        Inline::Superscript(n) => assert_eq!(text_of(&n.children[0]), "2"),
        _ => panic!("expected a superscript"),
    }
}

#[test]
fn parses_underline() {
    let inlines = inlines_with("__u__ and ___v___", Construct::Underline);
    match &inlines[0] {
        Inline::Underline(n) => {
            assert_eq!(n.meta.span, Some(Span::new(0, 5)));
            assert_eq!(text_of(&n.children[0]), "u");
        }
        _ => panic!("expected an underline"),
    }
    match &inlines[2] {
        Inline::Emphasis(e) => assert!(matches!(&e.children[0], Inline::Underline(_))),
        _ => panic!("expected emphasis around an underline"),
    }
}

#[test]
fn parses_footnote_references_and_inline_footnotes() {
    let inlines = inlines_with("a[^Note] b^[inline *x*]", Construct::Footnotes);
    match &inlines[1] {
        Inline::FootnoteReference(r) => {
            assert_eq!(r.label, "Note");
            assert_eq!(r.identifier, "note");
            assert_eq!(r.meta.span, Some(Span::new(1, 8)));
        }
        _ => panic!("expected a footnote reference"),
    }
    match &inlines[3] {
        Inline::InlineFootnote(f) => {
            assert_eq!(text_of(&f.children[0]), "inline ");
            assert!(matches!(&f.children[1], Inline::Emphasis(_)));
        }
        _ => panic!("expected an inline footnote"),
    }
}

#[test]
fn extension_inlines_round_trip() {
    let options = SyntaxOptions::commonmark()
        .enable(Construct::Insert)
        .enable(Construct::Highlight)
        .enable(Construct::Subscript)
        .enable(Construct::Superscript)
        .enable(Construct::Underline);
    for source in ["a ++b++ ==c==\n", "H~2~O x^2^\n", "__u__\n"] {
        let first = markdown_syntax::to_markdown(&parse_with_options(source, &options).unwrap().document).unwrap();
        let second = markdown_syntax::to_markdown(&parse_with_options(&first, &options).unwrap().document).unwrap();
        assert_eq!(first, second, "unstable for {:?}", source);
    }
}

#[test]
fn parses_inline_math() {
    let inlines = inlines_with("a $x + y$ b $$z$$ c $`w`$", Construct::Math);
    match &inlines[1] {
        Inline::Math(m) => {
            assert_eq!(m.value, "x + y");
            assert_eq!(m.kind, MathInlineKind::Dollar { dollars: 1 });
            assert_eq!(m.meta.span, Some(Span::new(2, 9)));
        }
        _ => panic!("expected inline math"),
    }
    match &inlines[3] {
        Inline::Math(m) => assert_eq!(m.kind, MathInlineKind::Dollar { dollars: 2 }),
        _ => panic!("expected display-style inline math"),
    }
    match &inlines[5] {
        Inline::Math(m) => {
            assert_eq!(m.value, "w");
            assert_eq!(m.kind, MathInlineKind::Code);
        }
        _ => panic!("expected math code"),
    }
    let plain = inlines_with("$$$foo$$ and $ 1$", Construct::Math);
    assert_eq!(plain.len(), 1);
    assert_eq!(text_of(&plain[0]), "$$$foo$$ and $ 1$");
}

#[test]
fn parses_math_block() {
    let options = SyntaxOptions::commonmark().enable(Construct::Math);
    let out = parse_with_options("$$\na + b\n$$\nafter", &options).unwrap();
    match &out.document.children[0] {
        Block::MathBlock(m) => {
            assert_eq!(m.value, "a + b\n");
            assert_eq!(m.meta.span, Some(Span::new(0, 12)));
        }
        _ => panic!("expected a math block"),
    }
    assert!(matches!(&out.document.children[1], Block::Paragraph(_)));
}

#[test]
fn parses_frontmatter() {
    let options = SyntaxOptions::commonmark().enable(Construct::Frontmatter);
    let out = parse_with_options("---\ntitle: x\nn: 1\n---\n# H", &options).unwrap();
    match &out.document.children[0] {
        Block::Frontmatter(f) => {
            assert_eq!(f.kind, FrontmatterKind::Yaml);
            assert_eq!(f.value, "title: x\nn: 1");
            assert_eq!(f.meta.span, Some(Span::new(0, 22)));
        }
        _ => panic!("expected frontmatter"),
    }
    assert!(matches!(&out.document.children[1], Block::Heading(_)));
    let plain = parse("---\ntitle: x\n---");
    assert!(!matches!(&plain.document.children[0], Block::Frontmatter(_)));
}

#[test]
fn parses_footnote_definition() {
    let options = SyntaxOptions::commonmark().enable(Construct::Footnotes);
    let out = parse_with_options("Text[^1].\n\n[^1]: The note\n    continues.\n\n    Second para.\n\nAfter.", &options).unwrap();
    assert_eq!(out.document.children.len(), 3);
    match &out.document.children[1] {
        Block::FootnoteDefinition(d) => {
            assert_eq!(d.label, "1");
            assert_eq!(d.identifier, "1");
            assert_eq!(d.children.len(), 2);
            assert_eq!(text_of(&inlines_of(&d.children[0])[0]), "The note");
            assert_eq!(text_of(&inlines_of(&d.children[0])[2]), "continues.");
            assert_eq!(d.meta.span, Some(Span::new(11, 59)));
        }
        _ => panic!("expected a footnote definition"),
    }
    assert!(matches!(&out.document.children[2], Block::Paragraph(_)));
}

#[test]
fn footnotes_round_trip() {
    let options = SyntaxOptions::commonmark().enable(Construct::Footnotes);
    let source = "A[^n].\n\n[^n]: Note.\n";
    let first = markdown_syntax::to_markdown(&parse_with_options(source, &options).unwrap().document).unwrap();
    let second = markdown_syntax::to_markdown(&parse_with_options(&first, &options).unwrap().document).unwrap();
    assert_eq!(first, second);
}

#[test]
fn parses_gfm_alert() {
    let options = SyntaxOptions::gfm().enable(Construct::Alert);
    let out = parse_with_options("> [!Warning] Careful\n> Body text.", &options).unwrap();
    match &out.document.children[0] {
        Block::Alert(a) => {
            assert_eq!(a.kind, AlertKind::Warning);
            assert_eq!(a.title.as_deref(), Some("Careful"));
            assert_eq!(a.children.len(), 1);
            assert_eq!(text_of(&inlines_of(&a.children[0])[0]), "Body text.");
        }
        _ => panic!("expected an alert"),
    }
    let out = parse_with_options("> [!nope]\n> x", &options).unwrap();
    assert!(matches!(&out.document.children[0], Block::BlockQuote(_)));
    let plain = parse("> [!NOTE]\n> x");
    assert!(matches!(&plain.document.children[0], Block::BlockQuote(_)));
}

#[test]
fn alerts_round_trip() {
    let options = SyntaxOptions::gfm().enable(Construct::Alert);
    let source = "> [!NOTE]\n> Hello.\n";
    let first = markdown_syntax::to_markdown(&parse_with_options(source, &options).unwrap().document).unwrap();
    let second = markdown_syntax::to_markdown(&parse_with_options(&first, &options).unwrap().document).unwrap();
    assert_eq!(first, second);
}

#[test]
fn parses_description_list() {
    let options = SyntaxOptions::commonmark().enable(Construct::DescriptionList);
    let out = parse_with_options("Term\n: Details\n: More\n\nTerm 2\n: Last", &options).unwrap();
    match &out.document.children[0] {
        Block::DescriptionList(l) => {
            assert!(l.tight);
            assert_eq!(l.children.len(), 2);
            assert_eq!(text_of(&l.children[0].term[0]), "Term");
            assert_eq!(l.children[0].details.len(), 2);
            assert_eq!(text_of(&inlines_of(&l.children[0].details[0].children[0])[0]), "Details");
            assert_eq!(text_of(&l.children[1].term[0]), "Term 2");
        }
        _ => panic!("expected a description list"),
    }
    let plain = parse("Term\n: Details");
    assert!(matches!(&plain.document.children[0], Block::Paragraph(_)));
}

#[test]
fn description_lists_round_trip() {
    let options = SyntaxOptions::commonmark().enable(Construct::DescriptionList);
    let source = "Term\n: Details\n";
    let first = markdown_syntax::to_markdown(&parse_with_options(source, &options).unwrap().document).unwrap();
    let second = markdown_syntax::to_markdown(&parse_with_options(&first, &options).unwrap().document).unwrap();
    assert_eq!(first, second);
}

#[test]
fn parses_wikilinks_and_shortcodes() {
    let inlines = inlines_with("see [[Page|the page]] :smile: ::x::", Construct::Wikilinks(markdown_syntax::WikiLinkOrder::TitleAfterPipe));
    match &inlines[1] {
        Inline::WikiLink(w) => {
            assert_eq!(w.target, "Page");
            assert_eq!(w.label, "the page");
            assert_eq!(w.meta.span, Some(Span::new(4, 21)));
        }
        _ => panic!("expected a wikilink"),
    }
    let inlines = inlines_with("[[title|Target]]", Construct::Wikilinks(markdown_syntax::WikiLinkOrder::TitleBeforePipe));
    match &inlines[0] {
        Inline::WikiLink(w) => {
            assert_eq!(w.target, "Target");
            assert_eq!(w.label, "title");
        }
        _ => panic!("expected a wikilink"),
    }
    let inlines = inlines_with("a :smile: b ::x::", Construct::Shortcode);
    match &inlines[1] {
        Inline::Shortcode(s) => {
            assert_eq!(s.name, "smile");
            assert_eq!(s.meta.span, Some(Span::new(2, 9)));
        }
        _ => panic!("expected a shortcode"),
    }
    assert_eq!(text_of(&inlines[2]), " b :");
    assert!(matches!(&inlines[3], Inline::Shortcode(_)));
    assert_eq!(text_of(&inlines[4]), ":");
}

#[test]
fn parses_container_leaf_and_text_directives() {
    let options = SyntaxOptions::commonmark().enable(Construct::Directives);
    let source = ":::note[Title]{#x .y key=\"v w\" flag}\nBody :abbr[H]{t=1}\n:::\n::leaf[L]\n";
    let out = parse_with_options(source, &options).unwrap();
    assert!(out.diagnostics.is_empty());
    match &out.document.children[0] {
        Block::ContainerDirective(d) => {
            assert_eq!(d.name, "note");
            assert_eq!(text_of(&d.label[0]), "Title");
            assert_eq!(d.attributes.len(), 4);
            assert_eq!(d.attributes[0].name, "id");
            assert_eq!(d.attributes[0].value.as_deref(), Some("x"));
            assert_eq!(d.attributes[1].name, "class");
            assert_eq!(d.attributes[2].value.as_deref(), Some("v w"));
            assert_eq!(d.attributes[3].name, "flag");
            assert_eq!(d.attributes[3].value, None);
            let inlines = inlines_of(&d.children[0]);
            assert_eq!(text_of(&inlines[0]), "Body ");
            match &inlines[1] {
                Inline::TextDirective(t) => {
                    assert_eq!(t.name, "abbr");
                    assert_eq!(t.attributes[0].value.as_deref(), Some("1"));
                }
                _ => panic!("expected a text directive"),
            }
            assert_eq!(d.meta.span, Some(Span::new(0, 60)));
        }
        _ => panic!("expected a container directive"),
    }
    match &out.document.children[1] {
        Block::LeafDirective(d) => assert_eq!(d.name, "leaf"),
        _ => panic!("expected a leaf directive"),
    }
}

#[test]
fn directive_errors_are_reported() {
    let options = SyntaxOptions::commonmark().enable(Construct::Directives);
    let out = parse_with_options(":::9bad\nx", &options).unwrap();
    assert_eq!(out.diagnostics.len(), 1);
    assert_eq!(out.diagnostics[0].code, markdown_syntax::DiagnosticCode::InvalidDirectiveName);
    let out = parse_with_options(":::open\nbody", &options).unwrap();
    assert_eq!(out.diagnostics[0].code, markdown_syntax::DiagnosticCode::UnclosedDirectiveContainer);
    assert!(matches!(&out.document.children[0], Block::ContainerDirective(_)));
    assert!(matches!(
        parse_strict_with_options(":::open\nbody", &options),
        Err(ParseStrictError::Diagnostic(_))
    ));
    assert!(parse(":::9bad\nx").diagnostics.is_empty());
}

#[test]
fn directives_round_trip() {
    let options = SyntaxOptions::commonmark().enable(Construct::Directives);
    let source = ":::note[T]{#a}\nBody\n:::\n";
    let first = markdown_syntax::to_markdown(&parse_with_options(source, &options).unwrap().document).unwrap();
    let second = markdown_syntax::to_markdown(&parse_with_options(&first, &options).unwrap().document).unwrap();
    assert_eq!(first, second);
}

fn gfm_blocks(source: &str) -> Vec<Block> {
    let out = parse_with_options(source, &SyntaxOptions::gfm()).unwrap();
    assert_eq!(out.document.children.len(), 1);
    out.document.children
}

fn literal_of(inline: &Inline) -> (String, String) {
    match inline {
        Inline::Autolink(a) => match &a.kind {
            AutolinkKind::GfmLiteral { original } => (a.destination.clone(), original.clone()),
            _ => panic!("not a literal autolink"),
        },
        _ => panic!("not an autolink"),
    }
}

#[test]
fn gfm_www_literal_gets_http_href() {
    let blocks = gfm_blocks("see www.example.com now");
    let inlines = inlines_of(&blocks[0]);
    assert_eq!(inlines.len(), 3);
    assert_eq!(text_of(&inlines[0]), "see ");
    assert_eq!(literal_of(&inlines[1]), ("http://www.example.com".to_string(), "www.example.com".to_string()));
    assert_eq!(text_of(&inlines[2]), " now");
    match &inlines[1] {
        Inline::Autolink(a) => assert_eq!(a.meta.span, Some(Span::new(4, 19))),
        _ => unreachable!(),
    }
}

#[test]
fn gfm_url_literal_trims_trailing_punctuation_and_parens() {
    let blocks = gfm_blocks("visit https://example.com/path.");
    let inlines = inlines_of(&blocks[0]);
    assert_eq!(literal_of(&inlines[1]).0, "https://example.com/path");
    assert_eq!(text_of(&inlines[2]), ".");
    let blocks = gfm_blocks("(https://a.b/c(d))");
    let inlines = inlines_of(&blocks[0]);
    assert_eq!(text_of(&inlines[0]), "(");
    assert_eq!(literal_of(&inlines[1]).0, "https://a.b/c(d)");
    assert_eq!(text_of(&inlines[2]), ")");
}

#[test]
fn gfm_email_literals() {
    let blocks = gfm_blocks("mail foo@bar.baz");
    let inlines = inlines_of(&blocks[0]);
    assert_eq!(literal_of(&inlines[1]), ("mailto:foo@bar.baz".to_string(), "foo@bar.baz".to_string()));
    let blocks = gfm_blocks("a_b@c.de");
    let inlines = inlines_of(&blocks[0]);
    assert_eq!(literal_of(&inlines[0]).0, "mailto:a_b@c.de");
    let blocks = gfm_blocks("mailto:me@x.org");
    let inlines = inlines_of(&blocks[0]);
    assert_eq!(literal_of(&inlines[0]).0, "mailto:me@x.org");
    // A hyphen ending the domain disqualifies the address.
    let blocks = gfm_blocks("a@b.c-");
    let inlines = inlines_of(&blocks[0]);
    assert_eq!(inlines.len(), 1);
    assert_eq!(text_of(&inlines[0]), "a@b.c-");
}

#[test]
fn gfm_relaxed_scheme_literal_and_rejections() {
    let blocks = gfm_blocks("smb://host/x");
    let inlines = inlines_of(&blocks[0]);
    assert_eq!(literal_of(&inlines[0]).0, "smb://host/x");
    // The relaxed pass links a bare `scheme://`, but not a scheme-less `://`
    // followed by white space.
    let blocks = gfm_blocks("http:// x");
    let inlines = inlines_of(&blocks[0]);
    assert_eq!(literal_of(&inlines[0]).0, "http://");
    let blocks = gfm_blocks("a :// b");
    let inlines = inlines_of(&blocks[0]);
    assert!(inlines.iter().all(|i| !matches!(i, Inline::Autolink(_))));
    let blocks = gfm_blocks("mmmhttp://a.b");
    let inlines = inlines_of(&blocks[0]);
    assert_eq!(inlines.len(), 1);
}

#[test]
fn literal_autolinks_are_off_in_commonmark() {
    let out = parse("see www.example.com now");
    let inlines = inlines_of(&out.document.children[0]);
    assert_eq!(inlines.len(), 1);
    assert_eq!(text_of(&inlines[0]), "see www.example.com now");
}

fn mdx_parse(source: &str) -> markdown_syntax::ParseOutput {
    parse_with_options(source, &SyntaxOptions::mdx()).unwrap()
}

#[test]
fn mdx_inline_expression_and_unclosed_brace() {
    let out = mdx_parse("a {1 + {2}} b");
    assert!(out.diagnostics.is_empty());
    let inlines = inlines_of(&out.document.children[0]);
    assert_eq!(inlines.len(), 3);
    assert_eq!(text_of(&inlines[0]), "a ");
    match &inlines[1] {
        Inline::MdxExpression(e) => {
            assert_eq!(e.value, "1 + {2}");
            assert_eq!(e.meta.span, Some(Span::new(2, 11)));
        },
        _ => panic!("expected an MDX expression"),
    }
    assert_eq!(text_of(&inlines[2]), " b");
    // A brace inside a string does not close the expression.
    let out = mdx_parse("x {'}'} y");
    let inlines = inlines_of(&out.document.children[0]);
    match &inlines[1] {
        Inline::MdxExpression(e) => assert_eq!(e.value, "'}'"),
        _ => panic!("expected an MDX expression"),
    }
    let out = mdx_parse("a {b");
    assert_eq!(out.diagnostics.len(), 1);
    assert_eq!(out.diagnostics[0].code, markdown_syntax::DiagnosticCode::InvalidMdx);
    assert_eq!(out.diagnostics[0].span, Some(Span::new(2, 4)));
}

#[test]
fn mdx_expression_block_spans_lines() {
    let out = mdx_parse("{\n  x\n}\n\nafter");
    assert!(out.diagnostics.is_empty());
    assert_eq!(out.document.children.len(), 2);
    match &out.document.children[0] {
        Block::MdxExpression(e) => {
            assert_eq!(e.value, "\n  x\n");
            assert_eq!(e.meta.span, Some(Span::new(0, 7)));
        },
        _ => panic!("expected an MDX expression block"),
    }
    let out = mdx_parse("{ // }\n}");
    match &out.document.children[0] {
        Block::MdxExpression(e) => assert_eq!(e.value, " // }\n"),
        _ => panic!("expected an MDX expression block"),
    }
}

#[test]
fn mdx_esm_blocks() {
    let out = mdx_parse("import a from 'b'\nexport const c = 1\n\n# Hi");
    assert!(out.diagnostics.is_empty());
    assert_eq!(out.document.children.len(), 2);
    match &out.document.children[0] {
        Block::MdxEsm(e) => assert_eq!(e.value, "import a from 'b'\nexport const c = 1"),
        _ => panic!("expected an ESM block"),
    }
    let out = mdx_parse("export const x = {\n  a: 1");
    assert_eq!(out.diagnostics.len(), 1);
    assert_eq!(out.diagnostics[0].code, markdown_syntax::DiagnosticCode::InvalidMdx);
    match &out.document.children[0] {
        Block::MdxEsm(e) => assert_eq!(e.value, "export const x = {\n  a: 1"),
        _ => panic!("expected an ESM block"),
    }
}

#[test]
fn mdx_jsx_blocks_and_inline_elements() {
    let out = mdx_parse("<Box>\n  <Box>hi</Box>\n</Box>\n\ntext");
    assert!(out.diagnostics.is_empty());
    match &out.document.children[0] {
        Block::MdxJsx(j) => assert_eq!(j.value, "<Box>\n  <Box>hi</Box>\n</Box>"),
        _ => panic!("expected a JSX block"),
    }
    let out = mdx_parse("<Img src=\"a>b\" />");
    match &out.document.children[0] {
        Block::MdxJsx(j) => assert_eq!(j.value, "<Img src=\"a>b\" />"),
        _ => panic!("expected a JSX block"),
    }
    let out = mdx_parse("<Box>\nhi");
    assert_eq!(out.diagnostics.len(), 1);
    assert_eq!(out.diagnostics[0].code, markdown_syntax::DiagnosticCode::InvalidMdx);
    let out = mdx_parse("a <b>x</b> c");
    let inlines = inlines_of(&out.document.children[0]);
    match &inlines[1] {
        Inline::MdxJsx(j) => assert_eq!(j.value, "<b>x</b>"),
        _ => panic!("expected an inline JSX element"),
    }
}

#[test]
fn strict_outcome_keeps_clean_output_and_reports_first_error() {
    let empty = || Document { meta: NodeMeta::none(), children: vec![] };
    let warning = Diagnostic::new(DiagnosticSeverity::Warning, DiagnosticCode::UnclosedDirectiveContainer, Span::new(0, 1), "w");
    let first = Diagnostic::new(DiagnosticSeverity::Error, DiagnosticCode::UnclosedDirectiveContainer, Span::new(2, 7), "first");
    let second = Diagnostic::new(DiagnosticSeverity::Error, DiagnosticCode::UnclosedDirectiveContainer, Span::new(8, 9), "second");
    let clean = ParseOutput { document: empty(), diagnostics: vec![warning.clone()] };
    assert_eq!(strict_outcome(clean), Ok(ParseOutput { document: empty(), diagnostics: vec![warning.clone()] }));
    let failing = ParseOutput { document: empty(), diagnostics: vec![warning, first.clone(), second] };
    assert_eq!(strict_outcome(failing), Err(ParseStrictError::Diagnostic(first)));
}

#[test]
fn every_top_level_block_has_a_span_in_source_order() {
    let out = parse("# a\n\n> q\nlazy\n\n- x\n- y\n\n```\ncode\n```\n\npara");
    let spans: Vec<Span> = out
        .document
        .children
        .iter()
        .map(|b| b.span().expect("block without a span"))
        .collect();
    assert_eq!(spans.len(), 5);
    for w in spans.windows(2) {
        assert!(w[0].end <= w[1].start);
    }
}
