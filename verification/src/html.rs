//! HTML rendering options and the renderer's document helpers: the map of
//! link reference definitions, the plain-text reduction of image alternative
//! text, the display text of autolinks, and table alignment attributes.
use vstd::prelude::*;

use crate::ast::{Block, DescriptionItem, DescriptionDetails, Definition, Inline, ListItem, TableAlignment};
use crate::diagnostic::Diagnostic;
use crate::inline_parse::{push_char_bytes, spec_utf8};
use crate::label::{collapse_label, spec_collapse_words};
use crate::text::{
    is_whitespace_cp, spec_code_point_at, spec_is_whitespace_cp, spec_starts_with_ci, starts_with_ci,
    bytes_equal, contains_byte, push_bytes, spec_lossy_utf8, spec_starts_with_at, spec_to_lowercase,
    spec_to_uppercase, starts_with_at, string_bytes, string_from_bytes, to_lowercase, to_uppercase,
};
use vstd::utf8::encode_utf8;

verus! {

/// How raw HTML is handled in safe mode (when `allow_dangerous_html` is off).
#[derive(Clone, Copy, Debug, PartialEq, Eq, Structural)]
pub enum SafeRawHtmlForm {
    /// Escape raw HTML as text, with the CommonMark link-scheme allowlist.
    EscapeText,
    /// Emit the GFM raw-HTML placeholder, with the GFM link-scheme denylist.
    OmitPlaceholder,
}

/// The attribute order on disabled task-list checkbox inputs.
#[derive(Clone, Copy, Debug, PartialEq, Eq, Structural)]
pub enum TasklistAttrOrder {
    /// `disabled=""` before `checked=""`.
    DisabledFirst,
    /// `checked=""` before `disabled=""`.
    CheckedFirst,
}

/// HTML rendering options. The default is safe: raw HTML is escaped,
/// dangerous link and image protocols are blanked, and task-list checkboxes
/// are disabled.
#[derive(Clone, Debug, PartialEq, Eq, Structural)]
pub struct HtmlOptions {
    /// Emit raw HTML blocks and inlines verbatim.
    pub allow_dangerous_html: bool,
    /// Keep dangerous link and image protocols.
    pub allow_dangerous_protocol: bool,
    /// Let image sources bypass the protocol filter.
    pub allow_any_img_src: bool,
    /// Apply the GFM tag filter to raw HTML when dangerous HTML is on.
    pub gfm_tagfilter: bool,
    /// Omit `disabled=""` from task-list checkboxes.
    pub tasklist_checkable: bool,
    /// The safe-mode raw HTML convention.
    pub safe_raw_html_form: SafeRawHtmlForm,
    /// The attribute order of disabled task-list checkboxes.
    pub tasklist_attr_order: TasklistAttrOrder,
}

/// The safe default options.
pub open spec fn spec_default_html_options() -> HtmlOptions {
    HtmlOptions {
        allow_dangerous_html: false,
        allow_dangerous_protocol: false,
        allow_any_img_src: false,
        gfm_tagfilter: false,
        tasklist_checkable: false,
        safe_raw_html_form: SafeRawHtmlForm::EscapeText,
        tasklist_attr_order: TasklistAttrOrder::DisabledFirst,
    }
}

impl Default for HtmlOptions {
    fn default() -> (r: Self)
        ensures
            r == spec_default_html_options(),
    {
        HtmlOptions {
            allow_dangerous_html: false,
            allow_dangerous_protocol: false,
            allow_any_img_src: false,
            gfm_tagfilter: false,
            tasklist_checkable: false,
            safe_raw_html_form: SafeRawHtmlForm::EscapeText,
            tasklist_attr_order: TasklistAttrOrder::DisabledFirst,
        }
    }
}

impl HtmlOptions {
    /// Whether unknown URL schemes are judged by the GFM denylist (with the
    /// GFM raw-HTML convention) rather than the CommonMark allowlist.
    pub fn gfm_url_denylist(&self) -> (r: bool)
        ensures
            r == (self.safe_raw_html_form == SafeRawHtmlForm::OmitPlaceholder),
    {
        match self.safe_raw_html_form {
            SafeRawHtmlForm::OmitPlaceholder => true,
            SafeRawHtmlForm::EscapeText => false,
        }
    }
}

/// Why HTML rendering failed.
#[derive(Clone, Debug, PartialEq, Eq)]
pub enum HtmlError {
    /// The AST failed validation before rendering.
    InvalidDocument(Vec<Diagnostic>),
}

// ---------------------------------------------------------------------------
// Labels and definitions.
// ---------------------------------------------------------------------------

/// The key of a label: its words joined by single spaces, then uppercased and
/// lowercased.
pub open spec fn spec_html_label_key(label: Seq<char>) -> Seq<char> {
    spec_to_lowercase(spec_to_uppercase(spec_lossy_utf8(spec_collapse_words(encode_utf8(label)))))
}

/// The key under which a reference label is looked up among definitions.
pub fn normalize_label(label: &str) -> (r: String)
    ensures
        r@ == spec_html_label_key(label@),
{
    let bytes = label.as_bytes();
    proof {
        assert(bytes@ == encode_utf8(label@));
    }
    let collapsed = collapse_label(bytes, false);
    let text = string_from_bytes(collapsed.as_slice());
    let upper = to_uppercase(text.as_str());
    to_lowercase(upper.as_str())
}

/// Strings with the same UTF-8 encoding are equal.
pub proof fn lemma_encode_utf8_injective(a: Seq<char>, b: Seq<char>)
    ensures
        encode_utf8(a) == encode_utf8(b) ==> a == b,
{
    vstd::utf8::encode_utf8_decode_utf8(a);
    vstd::utf8::encode_utf8_decode_utf8(b);
}

/// Whether `block` is, or holds in its containers, a definition whose
/// identifier has the key `key`.
pub open spec fn spec_block_defines(block: Block, key: Seq<char>) -> bool
    decreases block,
{
    match block {
        Block::Definition(d) => spec_html_label_key(d.identifier@) == key,
        Block::BlockQuote(n) => spec_blocks_define(n.children@, key),
        Block::Alert(n) => spec_blocks_define(n.children@, key),
        Block::List(n) => spec_items_define(n.children@, key),
        Block::DescriptionList(n) => spec_description_items_define(n.children@, key),
        Block::FootnoteDefinition(n) => spec_blocks_define(n.children@, key),
        Block::ContainerDirective(n) => spec_blocks_define(n.children@, key),
        _ => false,
    }
}

/// Whether some block of `s` defines `key`.
pub open spec fn spec_blocks_define(s: Seq<Block>, key: Seq<char>) -> bool
    decreases s,
{
    exists|k: int| 0 <= k < s.len() && spec_block_defines(#[trigger] s[k], key)
}

/// Whether the blocks of some list item of `s` define `key`.
pub open spec fn spec_items_define(s: Seq<ListItem>, key: Seq<char>) -> bool
    decreases s,
{
    exists|k: int| 0 <= k < s.len() && spec_blocks_define(#[trigger] s[k].children@, key)
}

/// Whether the details of some description item of `s` define `key`.
pub open spec fn spec_description_items_define(s: Seq<DescriptionItem>, key: Seq<char>) -> bool
    decreases s,
{
    exists|k: int| 0 <= k < s.len() && spec_details_define(#[trigger] s[k].details@, key)
}

/// Whether the blocks of some details group of `s` define `key`.
pub open spec fn spec_details_define(s: Seq<DescriptionDetails>, key: Seq<char>) -> bool
    decreases s,
{
    exists|k: int| 0 <= k < s.len() && spec_blocks_define(#[trigger] s[k].children@, key)
}

/// The link reference definitions of `block` in document order (pre-order),
/// looking into the containers that can hold them.
pub open spec fn spec_block_definitions(block: Block) -> Seq<Definition>
    decreases block,
{
    match block {
        Block::Definition(d) => seq![d],
        Block::BlockQuote(n) => spec_blocks_definitions(n.children@),
        Block::Alert(n) => spec_blocks_definitions(n.children@),
        Block::List(n) => spec_items_definitions(n.children@),
        Block::DescriptionList(n) => spec_description_items_definitions(n.children@),
        Block::FootnoteDefinition(n) => spec_blocks_definitions(n.children@),
        Block::ContainerDirective(n) => spec_blocks_definitions(n.children@),
        _ => Seq::empty(),
    }
}

/// The definitions of a block sequence, in document order.
pub open spec fn spec_blocks_definitions(s: Seq<Block>) -> Seq<Definition>
    decreases s,
{
    if s.len() == 0 {
        Seq::empty()
    } else {
        spec_blocks_definitions(s.subrange(0, s.len() - 1)) + spec_block_definitions(s[s.len() - 1])
    }
}

/// The definitions of list items' blocks, in document order.
pub open spec fn spec_items_definitions(s: Seq<ListItem>) -> Seq<Definition>
    decreases s,
{
    if s.len() == 0 {
        Seq::empty()
    } else {
        spec_items_definitions(s.subrange(0, s.len() - 1)) + spec_blocks_definitions(s[s.len() - 1].children@)
    }
}

/// The definitions of description items' details, in document order.
pub open spec fn spec_description_items_definitions(s: Seq<DescriptionItem>) -> Seq<Definition>
    decreases s,
{
    if s.len() == 0 {
        Seq::empty()
    } else {
        spec_description_items_definitions(s.subrange(0, s.len() - 1)) + spec_details_definitions(
            s[s.len() - 1].details@,
        )
    }
}

/// The definitions of details groups' blocks, in document order.
pub open spec fn spec_details_definitions(s: Seq<DescriptionDetails>) -> Seq<Definition>
    decreases s,
{
    if s.len() == 0 {
        Seq::empty()
    } else {
        spec_details_definitions(s.subrange(0, s.len() - 1)) + spec_blocks_definitions(s[s.len() - 1].children@)
    }
}

/// `entries` with `d` added under its key unless the key is taken.
pub open spec fn spec_insert_first(entries: Seq<(Seq<char>, Definition)>, d: Definition) -> Seq<(Seq<char>, Definition)> {
    let key = spec_html_label_key(d.identifier@);
    if exists|i: int| 0 <= i < entries.len() && (#[trigger] entries[i]).0 == key {
        entries
    } else {
        entries.push((key, d))
    }
}

/// `entries` with each of `ds` added in order, the first definition for a key
/// winning.
pub open spec fn spec_insert_all(entries: Seq<(Seq<char>, Definition)>, ds: Seq<Definition>) -> Seq<(Seq<char>, Definition)>
    decreases ds.len(),
{
    if ds.len() == 0 {
        entries
    } else {
        spec_insert_first(spec_insert_all(entries, ds.drop_last()), ds.last())
    }
}

/// Adding two runs of definitions is adding their concatenation.
proof fn lemma_insert_all_concat(e: Seq<(Seq<char>, Definition)>, a: Seq<Definition>, b: Seq<Definition>)
    ensures
        spec_insert_all(e, a + b) == spec_insert_all(spec_insert_all(e, a), b),
    decreases b.len(),
{
    if b.len() == 0 {
        assert(a + b =~= a);
    } else {
        lemma_insert_all_concat(e, a, b.drop_last());
        assert((a + b).drop_last() =~= a + b.drop_last());
        assert((a + b).last() == b.last());
    }
}

/// A copy of a definition, field by field.
fn copy_definition(d: &Definition) -> (r: Definition)
    ensures
        r == *d,
{
    let title = match &d.title {
        Some(t) => Some(t.clone()),
        None => None,
    };
    Definition {
        meta: d.meta,
        label: d.label.clone(),
        identifier: d.identifier.clone(),
        destination: d.destination.clone(),
        destination_kind: d.destination_kind,
        title,
        title_kind: d.title_kind,
    }
}

/// The resolved link reference definitions, each under the key of its
/// identifier; the first definition for a key wins.
pub struct DefMap {
    entries: Vec<(String, Definition)>,
}

impl DefMap {
    /// The keys, in the order their definitions came.
    pub closed spec fn keys(&self) -> Seq<Seq<char>> {
        Seq::new(self.entries@.len(), |i: int| self.entries@[i].0@)
    }

    /// The definitions, in the order of their keys.
    pub closed spec fn definitions(&self) -> Seq<Definition> {
        Seq::new(self.entries@.len(), |i: int| self.entries@[i].1)
    }

    /// The entries: each key with its definition, in the order they came.
    pub closed spec fn entries_view(&self) -> Seq<(Seq<char>, Definition)> {
        Seq::new(self.entries@.len(), |i: int| (self.entries@[i].0@, self.entries@[i].1))
    }

    /// The keys and definitions of `earlier` come first, in their order.
    pub open spec fn extends(&self, earlier: &DefMap) -> bool {
        &&& earlier.keys().len() <= self.keys().len()
        &&& self.keys().len() == self.definitions().len()
        &&& earlier.keys().len() == earlier.definitions().len()
        &&& forall|i: int| 0 <= i < earlier.keys().len() ==> #[trigger] self.keys()[i] == earlier.keys()[i]
        &&& forall|i: int| 0 <= i < earlier.keys().len() ==> #[trigger] self.definitions()[i] == earlier.definitions()[i]
    }

    /// No key occurs twice.
    pub closed spec fn wf(&self) -> bool {
        forall|i: int, j: int| 0 <= i < j < self.entries@.len() ==> self.entries@[i].0@ != self.entries@[j].0@
    }

    /// Adds `definition` under its key unless the key is taken.
    fn insert_first(&mut self, definition: &Definition)
        requires
            old(self).wf(),
        ensures
            final(self).wf(),
            final(self).extends(&*old(self)),
            final(self).entries_view() == spec_insert_first(old(self).entries_view(), *definition),
            final(self).keys() == (if old(self).keys().contains(spec_html_label_key(definition.identifier@)) {
                old(self).keys()
            } else {
                old(self).keys().push(spec_html_label_key(definition.identifier@))
            }),
            forall|key: Seq<char>|
                #![trigger final(self).keys().contains(key)]
                final(self).keys().contains(key) <==> (old(self).keys().contains(key) || key == spec_html_label_key(
                    definition.identifier@,
                )),
    {
        let ghost start = *self;
        let key = normalize_label(definition.identifier.as_str());
        let kb = string_bytes(&key);
        let mut k: usize = 0;
        while k < self.entries.len()
            invariant
                k <= self.entries@.len(),
                forall|i: int| 0 <= i < k ==> self.entries@[i].0@ != key@,
                kb@ == encode_utf8(key@),
                self.wf(),
                *self == start,
                key@ == spec_html_label_key(definition.identifier@),
            decreases self.entries@.len() - k,
        {
            if bytes_equal(string_bytes(&self.entries[k].0), kb) {
                proof {
                    lemma_encode_utf8_injective(self.entries@[k as int].0@, key@);
                    assert(self.keys()[k as int] == key@);
                    assert(self.entries_view()[k as int].0 == key@);
                }
                return;
            }
            proof {
                lemma_encode_utf8_injective(self.entries@[k as int].0@, key@);
            }
            k = k + 1;
        }
        proof {
            assert(!self.keys().contains(key@));
            assert forall|i: int| 0 <= i < start.entries_view().len() implies (#[trigger] start.entries_view()[i]).0
                != key@ by {
                assert(start.keys()[i] == start.entries_view()[i].0);
            }
        }
        self.entries.push((key, copy_definition(definition)));
        proof {
            assert(self.entries_view() =~= start.entries_view().push((key@, *definition)));
            assert(self.keys() =~= start.keys().push(key@));
            assert forall|key2: Seq<char>| self.keys().contains(key2) <==> (start.keys().contains(key2) || key2 == key@) by {
                if start.keys().contains(key2) {
                    let w = choose|w: int| 0 <= w < start.keys().len() && start.keys()[w] == key2;
                    assert(self.keys()[w] == key2);
                }
                if key2 == key@ {
                    assert(self.keys()[start.keys().len() as int] == key2);
                }
            }
        }
    }

    /// Collects the definitions of `blocks`, containers included.
    fn collect_blocks(&mut self, blocks: &[Block])
        requires
            old(self).wf(),
        ensures
            final(self).wf(),
            final(self).extends(&*old(self)),
            forall|key: Seq<char>|
                #![trigger final(self).keys().contains(key)]
                final(self).keys().contains(key) <==> (old(self).keys().contains(key) || spec_blocks_define(blocks@, key)),
            final(self).entries_view() == spec_insert_all(old(self).entries_view(), spec_blocks_definitions(blocks@)),
        decreases blocks@, 2nat,
    {
        let ghost start = *self;
        let mut i: usize = 0;
        while i < blocks.len()
            invariant
                i <= blocks@.len(),
                self.wf(),
                self.extends(&start),
                start.keys().len() == start.definitions().len(),
                forall|key: Seq<char>|
                    #![trigger self.keys().contains(key)]
                    self.keys().contains(key) <==> (start.keys().contains(key) || exists|j: int|
                        0 <= j < i && spec_block_defines(#[trigger] blocks@[j], key)),
                self.entries_view() == spec_insert_all(start.entries_view(), spec_blocks_definitions(blocks@.subrange(0, i as int))),
            decreases blocks@.len() - i,
        {
            proof {
                assert(blocks@.subrange(0, i + 1).subrange(0, i as int) =~= blocks@.subrange(0, i as int));
                assert(blocks@.subrange(0, i + 1)[i as int] == blocks@[i as int]);
                lemma_insert_all_concat(start.entries_view(), spec_blocks_definitions(blocks@.subrange(0, i as int)), spec_block_definitions(blocks@[i as int]));
            }
            self.collect_block(&blocks[i]);
            i = i + 1;
        }
        proof {
            assert(blocks@.subrange(0, i as int) =~= blocks@);
        }
        proof {
            assert forall|key: Seq<char>| #[trigger] spec_blocks_define(blocks@, key) == (exists|j: int| 0 <= j < blocks@.len() && spec_block_defines(#[trigger] blocks@[j], key)) by {
                reveal_with_fuel(spec_blocks_define, 2);
            }
        }
    }

    fn collect_block(&mut self, block: &Block)
        requires
            old(self).wf(),
        ensures
            final(self).wf(),
            final(self).extends(&*old(self)),
            forall|key: Seq<char>|
                #![trigger final(self).keys().contains(key)]
                final(self).keys().contains(key) <==> (old(self).keys().contains(key) || spec_block_defines(*block, key)),
            final(self).entries_view() == spec_insert_all(old(self).entries_view(), spec_block_definitions(*block)),
        decreases *block, 1nat,
    {
        match block {
            Block::Definition(definition) => {
                let ghost e = self.entries_view();
                proof {
                    assert(seq![*definition].drop_last() =~= Seq::<Definition>::empty());
                    assert(seq![*definition].last() == *definition);
                    assert(spec_insert_all(e, Seq::<Definition>::empty()) == e);
                    assert(spec_insert_all(e, seq![*definition]) == spec_insert_first(e, *definition));
                }
                self.insert_first(definition);
            },
            Block::BlockQuote(quote) => self.collect_blocks(quote.children.as_slice()),
            Block::Alert(alert) => self.collect_blocks(alert.children.as_slice()),
            Block::List(list) => self.collect_items(list.children.as_slice()),
            Block::DescriptionList(list) => self.collect_description_items(list.children.as_slice()),
            Block::FootnoteDefinition(definition) => self.collect_blocks(definition.children.as_slice()),
            Block::ContainerDirective(directive) => self.collect_blocks(directive.children.as_slice()),
            _ => {},
        }
    }

    fn collect_items(&mut self, items: &[ListItem])
        requires
            old(self).wf(),
        ensures
            final(self).wf(),
            final(self).extends(&*old(self)),
            forall|key: Seq<char>|
                #![trigger final(self).keys().contains(key)]
                final(self).keys().contains(key) <==> (old(self).keys().contains(key) || spec_items_define(items@, key)),
            final(self).entries_view() == spec_insert_all(old(self).entries_view(), spec_items_definitions(items@)),
        decreases items@, 2nat,
    {
        let ghost start = *self;
        let mut i: usize = 0;
        while i < items.len()
            invariant
                i <= items@.len(),
                self.wf(),
                self.extends(&start),
                start.keys().len() == start.definitions().len(),
                forall|key: Seq<char>|
                    #![trigger self.keys().contains(key)]
                    self.keys().contains(key) <==> (start.keys().contains(key) || exists|j: int|
                        0 <= j < i && spec_blocks_define(#[trigger] items@[j].children@, key)),
                self.entries_view() == spec_insert_all(start.entries_view(), spec_items_definitions(items@.subrange(0, i as int))),
            decreases items@.len() - i,
        {
            proof {
                assert(items@.subrange(0, i + 1).subrange(0, i as int) =~= items@.subrange(0, i as int));
                assert(items@.subrange(0, i + 1)[i as int] == items@[i as int]);
                lemma_insert_all_concat(start.entries_view(), spec_items_definitions(items@.subrange(0, i as int)), spec_blocks_definitions(items@[i as int].children@));
            }
            self.collect_blocks(items[i].children.as_slice());
            i = i + 1;
        }
        proof {
            assert(items@.subrange(0, i as int) =~= items@);
        }
        proof {
            assert forall|key: Seq<char>| #[trigger] spec_items_define(items@, key) == (exists|j: int| 0 <= j < items@.len() && spec_blocks_define(#[trigger] items@[j].children@, key)) by {
                reveal_with_fuel(spec_items_define, 2);
            }
        }
    }

    fn collect_description_items(&mut self, items: &[DescriptionItem])
        requires
            old(self).wf(),
        ensures
            final(self).wf(),
            final(self).extends(&*old(self)),
            forall|key: Seq<char>|
                #![trigger final(self).keys().contains(key)]
                final(self).keys().contains(key) <==> (old(self).keys().contains(key) || spec_description_items_define(items@, key)),
            final(self).entries_view() == spec_insert_all(old(self).entries_view(), spec_description_items_definitions(items@)),
        decreases items@, 2nat,
    {
        let ghost start = *self;
        let mut i: usize = 0;
        while i < items.len()
            invariant
                i <= items@.len(),
                self.wf(),
                self.extends(&start),
                start.keys().len() == start.definitions().len(),
                forall|key: Seq<char>|
                    #![trigger self.keys().contains(key)]
                    self.keys().contains(key) <==> (start.keys().contains(key) || exists|j: int|
                        0 <= j < i && spec_details_define(#[trigger] items@[j].details@, key)),
                self.entries_view() == spec_insert_all(start.entries_view(), spec_description_items_definitions(items@.subrange(0, i as int))),
            decreases items@.len() - i,
        {
            proof {
                assert(items@.subrange(0, i + 1).subrange(0, i as int) =~= items@.subrange(0, i as int));
                assert(items@.subrange(0, i + 1)[i as int] == items@[i as int]);
                lemma_insert_all_concat(start.entries_view(), spec_description_items_definitions(items@.subrange(0, i as int)), spec_details_definitions(items@[i as int].details@));
            }
            self.collect_details(items[i].details.as_slice());
            i = i + 1;
        }
        proof {
            assert(items@.subrange(0, i as int) =~= items@);
        }
        proof {
            assert forall|key: Seq<char>| #[trigger] spec_description_items_define(items@, key) == (exists|j: int| 0 <= j < items@.len() && spec_details_define(#[trigger] items@[j].details@, key)) by {
                reveal_with_fuel(spec_description_items_define, 2);
            }
        }
    }

    fn collect_details(&mut self, details: &[DescriptionDetails])
        requires
            old(self).wf(),
        ensures
            final(self).wf(),
            final(self).extends(&*old(self)),
            forall|key: Seq<char>|
                #![trigger final(self).keys().contains(key)]
                final(self).keys().contains(key) <==> (old(self).keys().contains(key) || spec_details_define(details@, key)),
            final(self).entries_view() == spec_insert_all(old(self).entries_view(), spec_details_definitions(details@)),
        decreases details@, 2nat,
    {
        let ghost start = *self;
        let mut i: usize = 0;
        while i < details.len()
            invariant
                i <= details@.len(),
                self.wf(),
                self.extends(&start),
                start.keys().len() == start.definitions().len(),
                forall|key: Seq<char>|
                    #![trigger self.keys().contains(key)]
                    self.keys().contains(key) <==> (start.keys().contains(key) || exists|j: int|
                        0 <= j < i && spec_blocks_define(#[trigger] details@[j].children@, key)),
                self.entries_view() == spec_insert_all(start.entries_view(), spec_details_definitions(details@.subrange(0, i as int))),
            decreases details@.len() - i,
        {
            proof {
                assert(details@.subrange(0, i + 1).subrange(0, i as int) =~= details@.subrange(0, i as int));
                assert(details@.subrange(0, i + 1)[i as int] == details@[i as int]);
                lemma_insert_all_concat(start.entries_view(), spec_details_definitions(details@.subrange(0, i as int)), spec_blocks_definitions(details@[i as int].children@));
            }
            self.collect_blocks(details[i].children.as_slice());
            i = i + 1;
        }
        proof {
            assert(details@.subrange(0, i as int) =~= details@);
        }
        proof {
            assert forall|key: Seq<char>| #[trigger] spec_details_define(details@, key) == (exists|j: int| 0 <= j < details@.len() && spec_blocks_define(#[trigger] details@[j].children@, key)) by {
                reveal_with_fuel(spec_details_define, 2);
            }
        }
    }

    /// The definition map of a document, walking the whole block tree
    /// (definitions may sit inside block quotes, list items and other
    /// containers).
    pub fn build(blocks: &[Block]) -> (r: Self)
        ensures
            r.wf(),
            forall|key: Seq<char>| #[trigger] r.keys().contains(key) <==> spec_blocks_define(blocks@, key),
            r.entries_view() == spec_insert_all(Seq::empty(), spec_blocks_definitions(blocks@)),
    {
        let mut map = DefMap { entries: Vec::new() };
        assert(map.keys().len() == 0);
        assert(map.entries_view() =~= Seq::empty());
        map.collect_blocks(blocks);
        map
    }

    /// The definition whose key is the key of `identifier`, if any.
    pub fn resolve(&self, identifier: &str) -> (r: Option<&Definition>)
        ensures
            r is Some <==> self.keys().contains(spec_html_label_key(identifier@)),
            r matches Some(d) ==> exists|i: int|
                0 <= i < self.keys().len() && self.keys()[i] == spec_html_label_key(identifier@) && *d
                    == self.definitions()[i],
            r is Some <==> exists|i: int|
                0 <= i < self.entries_view().len() && (#[trigger] self.entries_view()[i]).0 == spec_html_label_key(
                    identifier@,
                ),
            r matches Some(d) ==> exists|i: int|
                0 <= i < self.entries_view().len() && #[trigger] self.entries_view()[i] == (
                spec_html_label_key(identifier@),
                *d,
            ),
    {
        let key = normalize_label(identifier);
        let kb = string_bytes(&key);
        let mut k: usize = 0;
        while k < self.entries.len()
            invariant
                k <= self.entries@.len(),
                key@ == spec_html_label_key(identifier@),
                kb@ == encode_utf8(key@),
                forall|i: int| 0 <= i < k ==> self.entries@[i].0@ != key@,
            decreases self.entries@.len() - k,
        {
            if bytes_equal(string_bytes(&self.entries[k].0), kb) {
                proof {
                    lemma_encode_utf8_injective(self.entries@[k as int].0@, key@);
                    assert(self.keys()[k as int] == key@);
                    assert(self.definitions()[k as int] == self.entries@[k as int].1);
                    assert(self.entries_view()[k as int] == (key@, self.entries@[k as int].1));
                }
                return Some(&self.entries[k].1);
            }
            proof {
                lemma_encode_utf8_injective(self.entries@[k as int].0@, key@);
            }
            k = k + 1;
        }
        proof {
            assert(forall|i: int| 0 <= i < self.keys().len() ==> self.keys()[i] != key@);
            assert forall|i: int| 0 <= i < self.entries_view().len() implies (#[trigger] self.entries_view()[i]).0 != key@ by {
                assert(self.keys()[i] == self.entries_view()[i].0);
            }
        }
        None
    }
}

// ---------------------------------------------------------------------------
// Plain text of inline content.
// ---------------------------------------------------------------------------

/// The display bytes of an autolink destination: a synthesized `mailto:`
/// (before an address with `@`) or `http://` (before `www`) is dropped.
pub open spec fn spec_visible_bytes(d: Seq<u8>) -> Seq<u8> {
    if spec_starts_with_at(d, 0, seq![109u8, 97u8, 105u8, 108u8, 116u8, 111u8, 58u8]) && d.subrange(7, d.len() as int).contains(64u8) {
        d.subrange(7, d.len() as int)
    } else if spec_starts_with_at(d, 0, seq![104u8, 116u8, 116u8, 112u8, 58u8, 47u8, 47u8]) && spec_starts_with_at(d, 7, seq![119u8, 119u8, 119u8]) {
        d.subrange(7, d.len() as int)
    } else {
        d
    }
}

fn visible_bytes(d: &[u8]) -> (r: Vec<u8>)
    ensures
        r@ == spec_visible_bytes(d@),
{
    let n = d.len();
    if starts_with_at(d, 0, &[109u8, 97u8, 105u8, 108u8, 116u8, 111u8, 58u8]) {
        let rest = crate::text::copy_range(d, 7, n);
        if contains_byte(rest.as_slice(), 64u8) {
            return rest;
        }
    }
    if starts_with_at(d, 0, &[104u8, 116u8, 116u8, 112u8, 58u8, 47u8, 47u8]) && starts_with_at(d, 7, &[119u8, 119u8, 119u8]) {
        return crate::text::copy_range(d, 7, n);
    }
    crate::text::copy_range(d, 0, n)
}

/// The display text of an autolink destination (see [`spec_visible_bytes`]).
pub fn visible_text(dest: &str) -> (r: String)
    ensures
        r@ == spec_lossy_utf8(spec_visible_bytes(encode_utf8(dest@))),
        vstd::utf8::valid_utf8(spec_visible_bytes(encode_utf8(dest@))) ==> r@ == vstd::utf8::decode_utf8(
            spec_visible_bytes(encode_utf8(dest@)),
        ),
{
    let bytes = dest.as_bytes();
    proof {
        assert(bytes@ == encode_utf8(dest@));
    }
    let v = visible_bytes(bytes);
    string_from_bytes(v.as_slice())
}

/// The plain text of inline content, as image alternative text shows it:
/// textual content and decoded references survive, markup is dropped, line
/// breaks become line feeds, autolinks show their display text.
pub fn flatten_alt(inlines: &[Inline]) -> (r: String)
    ensures
        r@ == spec_lossy_utf8(spec_flatten_inlines(inlines@)),
        vstd::utf8::valid_utf8(spec_flatten_inlines(inlines@)) ==> r@ == vstd::utf8::decode_utf8(
            spec_flatten_inlines(inlines@),
        ),
{
    let mut out: Vec<u8> = Vec::new();
    flatten_into(inlines, &mut out);
    string_from_bytes(out.as_slice())
}

fn push_string(out: &mut Vec<u8>, s: &String)
    ensures
        final(out)@ == old(out)@ + encode_utf8(s@),
{
    push_bytes(out, string_bytes(s));
}

/// The plain text bytes of one inline node (see [`flatten_alt`]).
pub open spec fn spec_flatten_inline(node: Inline) -> Seq<u8>
    decreases node,
{
    match node {
        Inline::Text(t) => encode_utf8(t.value@),
        Inline::Escape(e) => spec_utf8(e.value as u32),
        Inline::CharacterReference(c) => encode_utf8(c.value@),
        Inline::Code(c) => encode_utf8(c.value@),
        Inline::Math(m) => encode_utf8(m.value@),
        Inline::Emphasis(n) => spec_flatten_inlines(n.children@),
        Inline::Strong(n) => spec_flatten_inlines(n.children@),
        Inline::Underline(n) => spec_flatten_inlines(n.children@),
        Inline::Delete(n) => spec_flatten_inlines(n.children@),
        Inline::Insert(n) => spec_flatten_inlines(n.children@),
        Inline::Mark(n) => spec_flatten_inlines(n.children@),
        Inline::Subscript(n) => spec_flatten_inlines(n.children@),
        Inline::Superscript(n) => spec_flatten_inlines(n.children@),
        Inline::Spoiler(n) => spec_flatten_inlines(n.children@),
        Inline::Link(n) => spec_flatten_inlines(n.children@),
        Inline::LinkReference(n) => spec_flatten_inlines(n.children@),
        Inline::Image(n) => spec_flatten_inlines(n.alt@),
        Inline::ImageReference(n) => spec_flatten_inlines(n.alt@),
        Inline::InlineFootnote(n) => spec_flatten_inlines(n.children@),
        Inline::SoftBreak(_) => seq![10u8],
        Inline::LineBreak(_) => seq![10u8],
        Inline::Html(h) => encode_utf8(h.value@),
        Inline::Autolink(a) => spec_visible_bytes(encode_utf8(a.destination@)),
        Inline::WikiLink(w) => encode_utf8(w.label@),
        Inline::Shortcode(n) => encode_utf8(n.name@),
        Inline::TextDirective(d) => spec_flatten_inlines(d.label@),
        _ => Seq::empty(),
    }
}

/// The plain text bytes of an inline sequence: its nodes' texts in order.
pub open spec fn spec_flatten_inlines(s: Seq<Inline>) -> Seq<u8>
    decreases s,
{
    if s.len() == 0 {
        Seq::empty()
    } else {
        spec_flatten_inlines(s.subrange(0, s.len() - 1)) + spec_flatten_inline(s[s.len() - 1])
    }
}

fn flatten_into(inlines: &[Inline], out: &mut Vec<u8>)
    ensures
        final(out)@ == old(out)@ + spec_flatten_inlines(inlines@),
    decreases inlines@, 1nat,
{
    let ghost start = out@;
    let mut i: usize = 0;
    while i < inlines.len()
        invariant
            i <= inlines@.len(),
            out@ == start + spec_flatten_inlines(inlines@.subrange(0, i as int)),
        decreases inlines@.len() - i,
    {
        proof {
            assert(inlines@.subrange(0, i + 1).subrange(0, i as int) =~= inlines@.subrange(0, i as int));
        }
        flatten_one(&inlines[i], out);
        i = i + 1;
        proof {
            assert(out@ =~= start + spec_flatten_inlines(inlines@.subrange(0, i as int)));
        }
    }
    proof {
        assert(inlines@.subrange(0, i as int) =~= inlines@);
    }
}

fn flatten_one(inline: &Inline, out: &mut Vec<u8>)
    ensures
        final(out)@ == old(out)@ + spec_flatten_inline(*inline),
    decreases *inline, 0nat,
{
    match inline {
        Inline::Text(t) => push_string(out, &t.value),
        Inline::Escape(e) => push_char_bytes(out, e.value),
        Inline::CharacterReference(c) => push_string(out, &c.value),
        Inline::Code(c) => push_string(out, &c.value),
        Inline::Math(m) => push_string(out, &m.value),
        Inline::Emphasis(n) => flatten_into(n.children.as_slice(), out),
        Inline::Strong(n) => flatten_into(n.children.as_slice(), out),
        Inline::Underline(n) => flatten_into(n.children.as_slice(), out),
        Inline::Delete(n) => flatten_into(n.children.as_slice(), out),
        Inline::Insert(n) => flatten_into(n.children.as_slice(), out),
        Inline::Mark(n) => flatten_into(n.children.as_slice(), out),
        Inline::Subscript(n) => flatten_into(n.children.as_slice(), out),
        Inline::Superscript(n) => flatten_into(n.children.as_slice(), out),
        Inline::Spoiler(n) => flatten_into(n.children.as_slice(), out),
        Inline::Link(n) => flatten_into(n.children.as_slice(), out),
        Inline::LinkReference(n) => flatten_into(n.children.as_slice(), out),
        Inline::Image(n) => flatten_into(n.alt.as_slice(), out),
        Inline::ImageReference(n) => flatten_into(n.alt.as_slice(), out),
        Inline::InlineFootnote(n) => flatten_into(n.children.as_slice(), out),
        Inline::SoftBreak(_) => out.push(10u8),
        Inline::LineBreak(_) => out.push(10u8),
        Inline::Html(h) => push_string(out, &h.value),
        Inline::Autolink(a) => {
            let v = visible_bytes(string_bytes(&a.destination));
            push_bytes(out, v.as_slice());
        },
        Inline::WikiLink(w) => push_string(out, &w.label),
        Inline::Shortcode(s) => push_string(out, &s.name),
        Inline::FootnoteReference(_) => {},
        Inline::TextDirective(d) => flatten_into(d.label.as_slice(), out),
        Inline::MdxExpression(_) => {},
        Inline::MdxJsx(_) => {},
    }
}

// ---------------------------------------------------------------------------
// Tables.
// ---------------------------------------------------------------------------

/// The alignment attribute of a table column (`align="..."`), empty for an
/// unaligned column.
pub fn table_align_attr(a: TableAlignment) -> (r: &'static str)
    ensures
        a == TableAlignment::Unaligned ==> r@ == ""@,
        a == TableAlignment::Left ==> r@ == " align=\"left\""@,
        a == TableAlignment::Right ==> r@ == " align=\"right\""@,
        a == TableAlignment::Center ==> r@ == " align=\"center\""@,
{
    match a {
        TableAlignment::Unaligned => "",
        TableAlignment::Left => " align=\"left\"",
        TableAlignment::Right => " align=\"right\"",
        TableAlignment::Center => " align=\"center\"",
    }
}


// ---------------------------------------------------------------------------
// GFM tagfilter.
// ---------------------------------------------------------------------------

/// The lowercase names of the tags that the GFM tagfilter disarms, in the
/// order they are tried: `title`, `textarea`, `style`, `xmp`, `iframe`,
/// `noembed`, `noframes`, `script`, `plaintext`.
pub open spec fn spec_blocked_tags() -> Seq<Seq<u8>> {
    seq![
        seq![116u8, 105u8, 116u8, 108u8, 101u8],
        seq![116u8, 101u8, 120u8, 116u8, 97u8, 114u8, 101u8, 97u8],
        seq![115u8, 116u8, 121u8, 108u8, 101u8],
        seq![120u8, 109u8, 112u8],
        seq![105u8, 102u8, 114u8, 97u8, 109u8, 101u8],
        seq![110u8, 111u8, 101u8, 109u8, 98u8, 101u8, 100u8],
        seq![110u8, 111u8, 102u8, 114u8, 97u8, 109u8, 101u8, 115u8],
        seq![115u8, 99u8, 114u8, 105u8, 112u8, 116u8],
        seq![112u8, 108u8, 97u8, 105u8, 110u8, 116u8, 101u8, 120u8, 116u8],
    ]
}

/// The `k`-th blocked tag name.
fn blocked_tag(k: usize) -> (r: &'static [u8])
    requires
        k < 9,
    ensures
        r@ == spec_blocked_tags()[k as int],
{
    let r: &'static [u8] = match k {
        0 => &[116u8, 105u8, 116u8, 108u8, 101u8],
        1 => &[116u8, 101u8, 120u8, 116u8, 97u8, 114u8, 101u8, 97u8],
        2 => &[115u8, 116u8, 121u8, 108u8, 101u8],
        3 => &[120u8, 109u8, 112u8],
        4 => &[105u8, 102u8, 114u8, 97u8, 109u8, 101u8],
        5 => &[110u8, 111u8, 101u8, 109u8, 98u8, 101u8, 100u8],
        6 => &[110u8, 111u8, 102u8, 114u8, 97u8, 109u8, 101u8, 115u8],
        7 => &[115u8, 99u8, 114u8, 105u8, 112u8, 116u8],
        _ => &[112u8, 108u8, 97u8, 105u8, 110u8, 116u8, 101u8, 120u8, 116u8],
    };
    assert(r@ =~= spec_blocked_tags()[k as int]);
    r
}

/// Where the tag name after a `<` at `i` starts: past an optional `/`.
pub open spec fn spec_tag_name_start(b: Seq<u8>, i: int) -> int {
    if i + 1 < b.len() && b[i + 1] == 47u8 {
        i + 2
    } else {
        i + 1
    }
}

/// Whether the tag name ends at `q`: at the end of the text, or before `>`,
/// `/` or a Unicode white-space scalar.
pub open spec fn spec_tag_name_ends(b: Seq<u8>, q: int) -> bool {
    q >= b.len() || b[q] == 62u8 || b[q] == 47u8 || spec_is_whitespace_cp(spec_code_point_at(b, q))
}

/// The tag name at `p` is the `k`-th blocked tag, in any ASCII case, and ends
/// right after it.
pub open spec fn spec_tag_is_blocked(b: Seq<u8>, p: int, k: int) -> bool {
    let q = p + spec_blocked_tags()[k].len();
    &&& spec_starts_with_ci(b, p, spec_blocked_tags()[k])
    &&& spec_tag_name_ends(b, q)
}

/// Trying the blocked tags from the `k`-th on, the name at `p` matches one.
pub open spec fn spec_tag_scan_matches(b: Seq<u8>, p: int, k: nat) -> bool
    decreases 9 - k,
{
    if k >= 9 {
        false
    } else if spec_tag_is_blocked(b, p, k as int) {
        true
    } else {
        spec_tag_scan_matches(b, p, k + 1)
    }
}

/// The `<` at `i` opens a blocked tag.
pub open spec fn spec_opens_blocked_tag(b: Seq<u8>, i: int) -> bool {
    b[i] == 60u8 && spec_tag_scan_matches(b, spec_tag_name_start(b, i), 0)
}

/// The bytes that the tagfilter makes of `b[..n]`: each `<` that opens a
/// blocked tag becomes `&lt;`, every other byte is kept.
pub open spec fn spec_tagfilter_prefix(b: Seq<u8>, n: int) -> Seq<u8>
    decreases n,
{
    if n <= 0 {
        Seq::empty()
    } else if spec_opens_blocked_tag(b, n - 1) {
        spec_tagfilter_prefix(b, n - 1) + seq![38u8, 108u8, 116u8, 59u8]
    } else {
        spec_tagfilter_prefix(b, n - 1).push(b[n - 1])
    }
}

/// Whether the tag name ends at `q` (see [`spec_tag_name_ends`]).
fn tag_name_ends(b: &[u8], q: usize) -> (r: bool)
    ensures
        r == spec_tag_name_ends(b@, q as int),
{
    if q >= b.len() {
        return true;
    }
    if b[q] == 62u8 || b[q] == 47u8 {
        return true;
    }
    let (_, cp) = crate::text::code_point_at(b, q);
    is_whitespace_cp(cp)
}

/// Tries the blocked tags from the `k`-th on against the name at `p`.
fn tag_scan(b: &[u8], p: usize, k: usize) -> (r: bool)
    requires
        p <= b@.len(),
        k <= 9,
    ensures
        r == spec_tag_scan_matches(b@, p as int, k as nat),
    decreases 9 - k,
{
    if k >= 9 {
        return false;
    }
    let tag = blocked_tag(k);
    let len = tag.len();
    if len <= b.len() - p {
        if !starts_with_ci(b, p, tag) {
            return tag_scan(b, p, k + 1);
        }
        if !tag_name_ends(b, p + len) {
            return tag_scan(b, p, k + 1);
        }
        return true;
    }
    proof {
        assert(!spec_starts_with_ci(b@, p as int, spec_blocked_tags()[k as int]));
    }
    tag_scan(b, p, k + 1)
}

/// The tag names that GFM's tagfilter extension disarms: `title`, `textarea`,
/// `style`, `xmp`, `iframe`, `noembed`, `noframes`, `script`, `plaintext`.
pub open spec fn spec_is_gfm_filtered_name(name: Seq<u8>) -> bool {
    ||| name == seq![116u8, 105u8, 116u8, 108u8, 101u8]
    ||| name == seq![116u8, 101u8, 120u8, 116u8, 97u8, 114u8, 101u8, 97u8]
    ||| name == seq![115u8, 116u8, 121u8, 108u8, 101u8]
    ||| name == seq![120u8, 109u8, 112u8]
    ||| name == seq![105u8, 102u8, 114u8, 97u8, 109u8, 101u8]
    ||| name == seq![110u8, 111u8, 101u8, 109u8, 98u8, 101u8, 100u8]
    ||| name == seq![110u8, 111u8, 102u8, 114u8, 97u8, 109u8, 101u8, 115u8]
    ||| name == seq![115u8, 99u8, 114u8, 105u8, 112u8, 116u8]
    ||| name == seq![112u8, 108u8, 97u8, 105u8, 110u8, 116u8, 101u8, 120u8, 116u8]
}

/// Whether the `<` at `i` starts `<name` or `</name`, `name` in any ASCII
/// case and ending there, for some name that the tagfilter disarms.
pub open spec fn spec_starts_gfm_filtered_tag(b: Seq<u8>, i: int) -> bool {
    &&& 0 <= i < b.len()
    &&& b[i] == 60u8
    &&& exists|name: Seq<u8>|
        #[trigger] spec_is_gfm_filtered_name(name) && spec_starts_with_ci(b, spec_tag_name_start(b, i), name)
            && spec_tag_name_ends(b, spec_tag_name_start(b, i) + name.len())
}

proof fn lemma_tag_scan_reaches(b: Seq<u8>, p: int, j: nat, k: nat)
    requires
        j <= k < 9,
        spec_tag_is_blocked(b, p, k as int),
    ensures
        spec_tag_scan_matches(b, p, j),
    decreases k - j,
{
    if j < k && !spec_tag_is_blocked(b, p, j as int) {
        lemma_tag_scan_reaches(b, p, j + 1, k);
    }
}

proof fn lemma_tag_scan_finds(b: Seq<u8>, p: int, j: nat) -> (k: nat)
    requires
        spec_tag_scan_matches(b, p, j),
    ensures
        j <= k < 9,
        spec_tag_is_blocked(b, p, k as int),
    decreases 9 - j,
{
    if spec_tag_is_blocked(b, p, j as int) {
        j
    } else {
        lemma_tag_scan_finds(b, p, j + 1)
    }
}

proof fn lemma_blocked_tags_are_gfm_names()
    ensures
        spec_blocked_tags().len() == 9,
        forall|k: int| 0 <= k < 9 ==> spec_is_gfm_filtered_name(#[trigger] spec_blocked_tags()[k]),
        forall|name: Seq<u8>|
            #[trigger] spec_is_gfm_filtered_name(name) ==> exists|k: int| 0 <= k < 9 && spec_blocked_tags()[k] == name,
{
    let t = spec_blocked_tags();
    assert(t[0] == seq![116u8, 105u8, 116u8, 108u8, 101u8]);
    assert(t[1] == seq![116u8, 101u8, 120u8, 116u8, 97u8, 114u8, 101u8, 97u8]);
    assert(t[2] == seq![115u8, 116u8, 121u8, 108u8, 101u8]);
    assert(t[3] == seq![120u8, 109u8, 112u8]);
    assert(t[4] == seq![105u8, 102u8, 114u8, 97u8, 109u8, 101u8]);
    assert(t[5] == seq![110u8, 111u8, 101u8, 109u8, 98u8, 101u8, 100u8]);
    assert(t[6] == seq![110u8, 111u8, 102u8, 114u8, 97u8, 109u8, 101u8, 115u8]);
    assert(t[7] == seq![115u8, 99u8, 114u8, 105u8, 112u8, 116u8]);
    assert(t[8] == seq![112u8, 108u8, 97u8, 105u8, 110u8, 116u8, 101u8, 120u8, 116u8]);
}

/// The tagfilter turns the `<` of `<name` or `</name` into `&lt;` for exactly
/// the GFM-disarmed names (in any ASCII case, the name ending at the end of
/// the text, `>`, `/` or white space); every other byte is kept as it is.
pub proof fn lemma_tagfilter_disarms_exactly_gfm_tags(b: Seq<u8>, i: int)
    requires
        0 <= i < b.len(),
    ensures
        spec_starts_gfm_filtered_tag(b, i) ==> spec_tagfilter_prefix(b, i + 1) == spec_tagfilter_prefix(b, i)
            + seq![38u8, 108u8, 116u8, 59u8],
        !spec_starts_gfm_filtered_tag(b, i) ==> spec_tagfilter_prefix(b, i + 1) == spec_tagfilter_prefix(b, i).push(
            b[i],
        ),
{
    lemma_blocked_tags_are_gfm_names();
    let p = spec_tag_name_start(b, i);
    if spec_starts_gfm_filtered_tag(b, i) {
        let name = choose|name: Seq<u8>|
            #[trigger] spec_is_gfm_filtered_name(name) && spec_starts_with_ci(b, p, name) && spec_tag_name_ends(
                b,
                p + name.len(),
            );
        let k = choose|k: int| 0 <= k < 9 && spec_blocked_tags()[k] == name;
        assert(spec_tag_is_blocked(b, p, k));
        lemma_tag_scan_reaches(b, p, 0, k as nat);
        assert(spec_opens_blocked_tag(b, i));
    } else if spec_opens_blocked_tag(b, i) {
        let k = lemma_tag_scan_finds(b, p, 0);
        let name = spec_blocked_tags()[k as int];
        assert(spec_is_gfm_filtered_name(name));
        assert(spec_starts_gfm_filtered_tag(b, i));
    }
}

/// GFM tagfilter: rewrites the leading `<` of each opening or closing tag whose
/// name is blocked (`title`, `textarea`, `style`, `xmp`, `iframe`, `noembed`,
/// `noframes`, `script`, `plaintext`, in any ASCII case, followed by the end of
/// the text, `>`, `/` or white space) to `&lt;`; everything else is kept.
pub fn apply_tagfilter(value: &str) -> (r: String)
    ensures
        r@ == spec_lossy_utf8(spec_tagfilter_prefix(encode_utf8(value@), encode_utf8(value@).len() as int)),
        vstd::utf8::valid_utf8(spec_tagfilter_prefix(encode_utf8(value@), encode_utf8(value@).len() as int)) ==> r@
            == vstd::utf8::decode_utf8(spec_tagfilter_prefix(encode_utf8(value@), encode_utf8(value@).len() as int)),
{
    let b = value.as_bytes();
    proof {
        assert(b@ == encode_utf8(value@));
    }
    let mut out: Vec<u8> = Vec::new();
    let mut i: usize = 0;
    while i < b.len()
        invariant
            i <= b@.len(),
            out@ == spec_tagfilter_prefix(b@, i as int),
        decreases b@.len() - i,
    {
        let mut blocked = false;
        if b[i] == 60u8 {
            let p: usize = if i + 1 < b.len() && b[i + 1] == 47u8 {
                i + 2
            } else {
                i + 1
            };
            proof {
                assert(p as int == spec_tag_name_start(b@, i as int));
            }
            blocked = tag_scan(b, p, 0);
        }
        if blocked {
            out.push(38u8);
            out.push(108u8);
            out.push(116u8);
            out.push(59u8);
        } else {
            out.push(b[i]);
        }
        proof {
            assert(blocked == spec_opens_blocked_tag(b@, i as int));
        }
        i = i + 1;
        assert(out@ =~= spec_tagfilter_prefix(b@, i as int));
    }
    string_from_bytes(out.as_slice())
}

} // verus!
