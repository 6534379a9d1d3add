use markdown_syntax::html::{apply_tagfilter, flatten_alt, normalize_label, table_align_attr, visible_text, DefMap};
use markdown_syntax::{parse, Block, HtmlOptions, Inline, SafeRawHtmlForm, TableAlignment, TasklistAttrOrder};

#[test]
fn default_html_options_are_safe() {
    let options = HtmlOptions::default();
    assert!(!options.allow_dangerous_html);
    assert!(!options.allow_dangerous_protocol);
    assert!(!options.allow_any_img_src);
    assert!(!options.gfm_tagfilter);
    assert!(!options.tasklist_checkable);
    assert_eq!(options.safe_raw_html_form, SafeRawHtmlForm::EscapeText);
    assert_eq!(options.tasklist_attr_order, TasklistAttrOrder::DisabledFirst);
    assert!(!options.gfm_url_denylist());
    let gfm = HtmlOptions { safe_raw_html_form: SafeRawHtmlForm::OmitPlaceholder, ..HtmlOptions::default() };
    assert!(gfm.gfm_url_denylist());
}

#[test]
fn html_label_keys_collapse_and_fold() {
    assert_eq!(normalize_label("  Foo \t BAR  "), "foo bar");
    assert_eq!(normalize_label("ẞ"), "ß");
}

#[test]
fn definition_map_keeps_first_definition() {
    let doc = parse("> [A]: /first\n\n[a]: /second\n\n- [B]: /nested\n").document;
    let map = DefMap::build(&doc.children);
    assert_eq!(map.resolve("  a ").map(|d| d.destination.as_str()), Some("/first"));
    assert_eq!(map.resolve("b").map(|d| d.destination.as_str()), Some("/nested"));
    assert!(map.resolve("c").is_none());
}

#[test]
fn autolink_visible_text_drops_synthesized_prefixes() {
    assert_eq!(visible_text("mailto:me@example.com"), "me@example.com");
    assert_eq!(visible_text("mailto:nobody"), "mailto:nobody");
    assert_eq!(visible_text("http://www.example.com"), "www.example.com");
    assert_eq!(visible_text("http://example.com"), "http://example.com");
}

#[test]
fn flattens_alt_text() {
    let doc = parse("a *b* `c`\\&d <https://e.f>").document;
    match &doc.children[0] {
        Block::Paragraph(p) => assert_eq!(flatten_alt(&p.children), "a b c&d https://e.f"),
        _ => panic!("expected a paragraph"),
    }
    let image = parse("![x **y**\nz](p.png)").document;
    match &image.children[0] {
        Block::Paragraph(p) => match &p.children[0] {
            Inline::Image(i) => assert_eq!(flatten_alt(&i.alt), "x y\nz"),
            _ => panic!("expected an image"),
        },
        _ => panic!("expected a paragraph"),
    }
}

#[test]
fn table_alignment_attributes() {
    assert_eq!(table_align_attr(TableAlignment::Unaligned), "");
    assert_eq!(table_align_attr(TableAlignment::Left), " align=\"left\"");
    assert_eq!(table_align_attr(TableAlignment::Right), " align=\"right\"");
    assert_eq!(table_align_attr(TableAlignment::Center), " align=\"center\"");
}

#[test]
fn tagfilter_disarms_blocked_open_and_close_tags() {
    assert_eq!(apply_tagfilter("<script>alert(1)</script>"), "&lt;script>alert(1)&lt;/script>");
    assert_eq!(apply_tagfilter("<TITLE >x"), "&lt;TITLE >x");
    assert_eq!(apply_tagfilter("<style/>"), "&lt;style/>");
    assert_eq!(apply_tagfilter("<xmp"), "&lt;xmp");
    assert_eq!(apply_tagfilter("<iframe\u{a0}src>"), "&lt;iframe\u{a0}src>");
    assert_eq!(apply_tagfilter("<plaintext>"), "&lt;plaintext>");
}

#[test]
fn tagfilter_keeps_other_tags_and_text() {
    assert_eq!(apply_tagfilter("<scriptx>"), "<scriptx>");
    assert_eq!(apply_tagfilter("<b>bold</b>"), "<b>bold</b>");
    assert_eq!(apply_tagfilter("a < b, é"), "a < b, é");
    assert_eq!(apply_tagfilter(""), "");
    assert_eq!(apply_tagfilter("<"), "<");
}

#[test]
fn definition_map_keeps_whole_first_definition() {
    let doc = parse("[A]: /first \"One\"\n\n[a]: /second \"Two\"\n").document;
    let map = DefMap::build(&doc.children);
    let d = map.resolve("a").unwrap();
    assert_eq!(d.destination, "/first");
    assert_eq!(d.title.as_deref(), Some("One"));
    assert_eq!(d.label, "A");
}

#[test]
fn tagfilter_accepts_names_that_end_inside_a_character() {
    assert_eq!(apply_tagfilter("<xmé>"), "<xmé>");
    assert_eq!(apply_tagfilter("<tiéx"), "<tiéx");
    assert_eq!(apply_tagfilter("a<scriptà b"), "a<scriptà b");
}
