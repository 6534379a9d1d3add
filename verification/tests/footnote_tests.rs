use markdown_syntax::footnotes::build_footnotes;
use markdown_syntax::{
    Block, FootnoteDefinition, FootnoteReference, Inline, InlineFootnote, LineIndex, NodeMeta, Paragraph, Text,
};

fn text(value: &str) -> Inline {
    Inline::Text(Text { meta: NodeMeta::default(), value: value.into() })
}

fn reference(id: &str) -> Inline {
    Inline::FootnoteReference(FootnoteReference { meta: NodeMeta::default(), label: id.into(), identifier: id.into() })
}

fn definition(id: &str) -> Block {
    Block::FootnoteDefinition(FootnoteDefinition {
        meta: NodeMeta::default(),
        label: id.into(),
        identifier: id.into(),
        children: vec![Block::Paragraph(Paragraph { meta: NodeMeta::default(), children: vec![text("body")] })],
    })
}

#[test]
fn footnotes_number_in_first_reference_order() {
    let body = Block::Paragraph(Paragraph {
        meta: NodeMeta::default(),
        children: vec![
            reference("b"),
            reference("a"),
            reference("b"),
            reference("x"),
            Inline::InlineFootnote(InlineFootnote { meta: NodeMeta::default(), children: vec![text("inline")] }),
        ],
    });
    let blocks = vec![body, definition("a"), definition("b"), definition("c")];
    let ctx = build_footnotes(&blocks);
    assert!(ctx.has_any());
    assert_eq!(ctx.number("b"), 1);
    assert_eq!(ctx.number("a"), 2);
    assert_eq!(ctx.number("__inline_1"), 3);
    assert_eq!(ctx.number("c"), 0);
    assert_eq!(ctx.number("x"), 0);
    assert!(ctx.is_defined("a"));
    assert!(!ctx.is_defined("c"));
    assert!(!ctx.is_defined("x"));
}

#[test]
fn footnotes_absent_without_references() {
    let blocks = vec![definition("a")];
    let ctx = build_footnotes(&blocks);
    assert!(!ctx.has_any());
    assert_eq!(ctx.number("a"), 0);
}

#[test]
fn inline_footnote_ids_replay_in_order() {
    let blocks = vec![Block::Paragraph(Paragraph {
        meta: NodeMeta::default(),
        children: vec![Inline::InlineFootnote(InlineFootnote {
            meta: NodeMeta::default(),
            children: vec![text("one"), Inline::InlineFootnote(InlineFootnote { meta: NodeMeta::default(), children: vec![text("two")] })],
        })],
    })];
    let mut ctx = build_footnotes(&blocks);
    assert_eq!(ctx.number("__inline_1"), 1);
    assert_eq!(ctx.number("__inline_2"), 2);
    assert_eq!(ctx.next_inline_id(), "__inline_1");
    assert_eq!(ctx.next_inline_id(), "__inline_2");
}

#[test]
fn line_count_is_one_plus_breaks() {
    let index = LineIndex::new("a\nb\r\nc\rd\n");
    assert_eq!(index.position(100).line, 5);
    assert_eq!(LineIndex::new("").position(0).line, 1);
}
