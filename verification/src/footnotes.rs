//! The footnote pre-pass: which footnotes a document references, numbered
//! from 1 in the order of their first reference. A reference counts only when
//! it resolves to a definition, so unreferenced definitions drop out; each
//! inline footnote `^[..]` is its own definition, named `__inline_N` for the
//! N-th one in document order.
use vstd::prelude::*;

use crate::ast::{Block, DescriptionDetails, DescriptionItem, Inline, ListItem, TableCell, TableRow};
use crate::text::{bytes_equal, string_bytes, string_from_bytes};
use vstd::utf8::encode_utf8;

verus! {

// ---------------------------------------------------------------------------
// Identifiers.
// ---------------------------------------------------------------------------

/// The decimal digits of `n`.
pub open spec fn spec_decimal(n: nat) -> Seq<u8>
    decreases n,
{
    if n < 10 {
        seq![(48 + n) as u8]
    } else {
        spec_decimal(n / 10).push((48 + n % 10) as u8)
    }
}

/// The identifier (UTF-8 bytes) minted for the `n`-th inline footnote:
/// `__inline_` followed by `n` in decimal.
pub open spec fn spec_inline_id(n: nat) -> Seq<u8> {
    seq![95u8, 95u8, 105u8, 110u8, 108u8, 105u8, 110u8, 101u8, 95u8] + spec_decimal(n)
}

/// The identifiers of a sequence of strings, as UTF-8 bytes.
pub open spec fn spec_string_ids(s: Seq<String>) -> Seq<Seq<u8>> {
    Seq::new(s.len(), |i: int| encode_utf8(s[i]@))
}

/// No identifier occurs twice.
pub open spec fn spec_distinct(s: Seq<Seq<u8>>) -> bool {
    forall|i: int, j: int| 0 <= i < j < s.len() ==> s[i] != s[j]
}

/// Decimal digits are ASCII digits.
proof fn lemma_decimal_digits(n: nat)
    ensures
        forall|i: int| 0 <= i < spec_decimal(n).len() ==> 48 <= #[trigger] spec_decimal(n)[i] <= 57,
    decreases n,
{
    if n >= 10 {
        lemma_decimal_digits(n / 10);
        let prev = spec_decimal(n / 10);
        assert forall|i: int| 0 <= i < spec_decimal(n).len() implies 48 <= #[trigger] spec_decimal(n)[i] <= 57 by {
            if i < prev.len() {
                assert(spec_decimal(n)[i] == prev[i]);
            }
        }
    }
}

/// Bytes below 128 are valid UTF-8.
proof fn lemma_ascii_valid(b: Seq<u8>)
    requires
        forall|i: int| 0 <= i < b.len() ==> #[trigger] b[i] < 128,
    ensures
        vstd::utf8::valid_utf8(b),
    decreases b.len(),
{
    if b.len() > 0 {
        assert(vstd::utf8::pop_first_scalar(b) =~= b.drop_first());
        lemma_ascii_valid(b.drop_first());
    }
}

/// Appends the decimal digits of `n`.
fn push_decimal(out: &mut Vec<u8>, n: usize)
    ensures
        final(out)@ == old(out)@ + spec_decimal(n as nat),
    decreases n,
{
    let ghost start = out@;
    if n >= 10 {
        push_decimal(out, n / 10);
    }
    let d: u8 = (n % 10) as u8;
    out.push(48u8 + d);
    proof {
        if n >= 10 {
            assert(out@ =~= start + spec_decimal(n as nat));
        } else {
            assert(out@ =~= start + spec_decimal(n as nat));
        }
    }
}

/// The identifier of the `n`-th inline footnote.
fn inline_id(n: usize) -> (r: String)
    ensures
        encode_utf8(r@) == spec_inline_id(n as nat),
{
    let mut bytes: Vec<u8> = vec![95u8, 95u8, 105u8, 110u8, 108u8, 105u8, 110u8, 101u8, 95u8];
    let ghost prefix = bytes@;
    push_decimal(&mut bytes, n);
    proof {
        assert(prefix =~= seq![95u8, 95u8, 105u8, 110u8, 108u8, 105u8, 110u8, 101u8, 95u8]);
        assert(bytes@ =~= spec_inline_id(n as nat));
        lemma_decimal_digits(n as nat);
        assert forall|i: int| 0 <= i < bytes@.len() implies #[trigger] bytes@[i] < 128 by {
            if i >= 9 {
                assert(bytes@[i] == spec_decimal(n as nat)[i - 9]);
            }
        }
        lemma_ascii_valid(bytes@);
        vstd::utf8::decode_utf8_encode_utf8(bytes@);
    }
    string_from_bytes(bytes.as_slice())
}


// ---------------------------------------------------------------------------
// Definitions.
// ---------------------------------------------------------------------------

/// Whether `block` is, or holds in a block quote, alert, list, description
/// list or container directive, a footnote definition with identifier `id`
/// (definitions nested in other footnote definitions do not count).
pub open spec fn spec_block_defines_footnote(block: Block, id: Seq<u8>) -> bool
    decreases block,
{
    match block {
        Block::FootnoteDefinition(d) => encode_utf8(d.identifier@) == id,
        Block::BlockQuote(n) => spec_blocks_define_footnote(n.children@, id),
        Block::Alert(n) => spec_blocks_define_footnote(n.children@, id),
        Block::List(n) => spec_items_define_footnote(n.children@, id),
        Block::DescriptionList(n) => spec_description_items_define_footnote(n.children@, id),
        Block::ContainerDirective(n) => spec_blocks_define_footnote(n.children@, id),
        _ => false,
    }
}

/// Whether some block of `s` defines the footnote `id`.
pub open spec fn spec_blocks_define_footnote(s: Seq<Block>, id: Seq<u8>) -> bool
    decreases s,
{
    exists|k: int| 0 <= k < s.len() && spec_block_defines_footnote(#[trigger] s[k], id)
}

/// Whether the blocks of some list item of `s` define the footnote `id`.
pub open spec fn spec_items_define_footnote(s: Seq<ListItem>, id: Seq<u8>) -> bool
    decreases s,
{
    exists|k: int| 0 <= k < s.len() && spec_blocks_define_footnote(#[trigger] s[k].children@, id)
}

/// Whether the details of some description item of `s` define the footnote `id`.
pub open spec fn spec_description_items_define_footnote(s: Seq<DescriptionItem>, id: Seq<u8>) -> bool
    decreases s,
{
    exists|k: int| 0 <= k < s.len() && spec_details_define_footnote(#[trigger] s[k].details@, id)
}

/// Whether the blocks of some details group of `s` define the footnote `id`.
pub open spec fn spec_details_define_footnote(s: Seq<DescriptionDetails>, id: Seq<u8>) -> bool
    decreases s,
{
    exists|k: int| 0 <= k < s.len() && spec_blocks_define_footnote(#[trigger] s[k].children@, id)
}

/// Appends the identifier of a footnote definition.
fn push_footnote_id(out: &mut Vec<String>, identifier: &String)
    ensures
        forall|id: Seq<u8>|
            #![trigger spec_string_ids(final(out)@).contains(id)]
            spec_string_ids(final(out)@).contains(id) <==> (spec_string_ids(old(out)@).contains(id) || id
                == encode_utf8(identifier@)),
{
    let ghost start = out@;
    out.push(identifier.clone());
    proof {
        assert(spec_string_ids(out@) =~= spec_string_ids(start).push(encode_utf8(identifier@)));
        assert forall|id: Seq<u8>| spec_string_ids(out@).contains(id) <==> (spec_string_ids(start).contains(id) || id
            == encode_utf8(identifier@)) by {
            if spec_string_ids(start).contains(id) {
                let w = choose|w: int| 0 <= w < spec_string_ids(start).len() && spec_string_ids(start)[w] == id;
                assert(spec_string_ids(out@)[w] == id);
            }
            if id == encode_utf8(identifier@) {
                assert(spec_string_ids(out@)[start.len() as int] == id);
            }
        }
    }
}

fn collect_footnote_defs(blocks: &[Block], out: &mut Vec<String>)
    ensures
        forall|id: Seq<u8>|
            #![trigger spec_string_ids(final(out)@).contains(id)]
            spec_string_ids(final(out)@).contains(id) <==> (spec_string_ids(old(out)@).contains(id) || spec_blocks_define_footnote(blocks@, id)),
    decreases blocks@, 2nat,
{
    let ghost start = out@;
    let mut i: usize = 0;
    while i < blocks.len()
        invariant
            i <= blocks@.len(),
            forall|id: Seq<u8>|
                #![trigger spec_string_ids(out@).contains(id)]
                spec_string_ids(out@).contains(id) <==> (spec_string_ids(start).contains(id) || exists|j: int|
                    0 <= j < i && spec_block_defines_footnote(#[trigger] blocks@[j], id)),
        decreases blocks@.len() - i,
    {
        collect_footnote_defs_in_block(&blocks[i], out);
        i = i + 1;
    }
    proof {
        assert forall|id: Seq<u8>| #[trigger] spec_blocks_define_footnote(blocks@, id) == (exists|j: int| 0 <= j < blocks@.len() && spec_block_defines_footnote(#[trigger] blocks@[j], id)) by {
            reveal_with_fuel(spec_blocks_define_footnote, 2);
        }
    }
}

fn collect_footnote_defs_in_items(items: &[ListItem], out: &mut Vec<String>)
    ensures
        forall|id: Seq<u8>|
            #![trigger spec_string_ids(final(out)@).contains(id)]
            spec_string_ids(final(out)@).contains(id) <==> (spec_string_ids(old(out)@).contains(id) || spec_items_define_footnote(items@, id)),
    decreases items@, 2nat,
{
    let ghost start = out@;
    let mut i: usize = 0;
    while i < items.len()
        invariant
            i <= items@.len(),
            forall|id: Seq<u8>|
                #![trigger spec_string_ids(out@).contains(id)]
                spec_string_ids(out@).contains(id) <==> (spec_string_ids(start).contains(id) || exists|j: int|
                    0 <= j < i && spec_blocks_define_footnote(#[trigger] items@[j].children@, id)),
        decreases items@.len() - i,
    {
        collect_footnote_defs(items[i].children.as_slice(), out);
        i = i + 1;
    }
    proof {
        assert forall|id: Seq<u8>| #[trigger] spec_items_define_footnote(items@, id) == (exists|j: int| 0 <= j < items@.len() && spec_blocks_define_footnote(#[trigger] items@[j].children@, id)) by {
            reveal_with_fuel(spec_items_define_footnote, 2);
        }
    }
}

fn collect_footnote_defs_in_description_items(items: &[DescriptionItem], out: &mut Vec<String>)
    ensures
        forall|id: Seq<u8>|
            #![trigger spec_string_ids(final(out)@).contains(id)]
            spec_string_ids(final(out)@).contains(id) <==> (spec_string_ids(old(out)@).contains(id) || spec_description_items_define_footnote(items@, id)),
    decreases items@, 2nat,
{
    let ghost start = out@;
    let mut i: usize = 0;
    while i < items.len()
        invariant
            i <= items@.len(),
            forall|id: Seq<u8>|
                #![trigger spec_string_ids(out@).contains(id)]
                spec_string_ids(out@).contains(id) <==> (spec_string_ids(start).contains(id) || exists|j: int|
                    0 <= j < i && spec_details_define_footnote(#[trigger] items@[j].details@, id)),
        decreases items@.len() - i,
    {
        collect_footnote_defs_in_details(items[i].details.as_slice(), out);
        i = i + 1;
    }
    proof {
        assert forall|id: Seq<u8>| #[trigger] spec_description_items_define_footnote(items@, id) == (exists|j: int| 0 <= j < items@.len() && spec_details_define_footnote(#[trigger] items@[j].details@, id)) by {
            reveal_with_fuel(spec_description_items_define_footnote, 2);
        }
    }
}

fn collect_footnote_defs_in_details(details: &[DescriptionDetails], out: &mut Vec<String>)
    ensures
        forall|id: Seq<u8>|
            #![trigger spec_string_ids(final(out)@).contains(id)]
            spec_string_ids(final(out)@).contains(id) <==> (spec_string_ids(old(out)@).contains(id) || spec_details_define_footnote(details@, id)),
    decreases details@, 2nat,
{
    let ghost start = out@;
    let mut i: usize = 0;
    while i < details.len()
        invariant
            i <= details@.len(),
            forall|id: Seq<u8>|
                #![trigger spec_string_ids(out@).contains(id)]
                spec_string_ids(out@).contains(id) <==> (spec_string_ids(start).contains(id) || exists|j: int|
                    0 <= j < i && spec_blocks_define_footnote(#[trigger] details@[j].children@, id)),
        decreases details@.len() - i,
    {
        collect_footnote_defs(details[i].children.as_slice(), out);
        i = i + 1;
    }
    proof {
        assert forall|id: Seq<u8>| #[trigger] spec_details_define_footnote(details@, id) == (exists|j: int| 0 <= j < details@.len() && spec_blocks_define_footnote(#[trigger] details@[j].children@, id)) by {
            reveal_with_fuel(spec_details_define_footnote, 2);
        }
    }
}

fn collect_footnote_defs_in_block(block: &Block, out: &mut Vec<String>)
    ensures
        forall|id: Seq<u8>|
            #![trigger spec_string_ids(final(out)@).contains(id)]
            spec_string_ids(final(out)@).contains(id) <==> (spec_string_ids(old(out)@).contains(id) || spec_block_defines_footnote(*block, id)),
    decreases *block, 1nat,
{
    match block {
        Block::FootnoteDefinition(definition) => push_footnote_id(out, &definition.identifier),
        Block::BlockQuote(quote) => collect_footnote_defs(quote.children.as_slice(), out),
        Block::Alert(alert) => collect_footnote_defs(alert.children.as_slice(), out),
        Block::List(list) => collect_footnote_defs_in_items(list.children.as_slice(), out),
        Block::DescriptionList(list) => collect_footnote_defs_in_description_items(list.children.as_slice(), out),
        Block::ContainerDirective(directive) => collect_footnote_defs(directive.children.as_slice(), out),
        _ => {},
    }
}


// ---------------------------------------------------------------------------
// References, in document order.
// ---------------------------------------------------------------------------

/// `order` after a reference to `id`: appended on its first reference.
pub open spec fn spec_registered(order: Seq<Seq<u8>>, id: Seq<u8>) -> Seq<Seq<u8>> {
    if order.contains(id) {
        order
    } else {
        order.push(id)
    }
}

/// Whether `id` resolves once `counter` inline footnotes have been met: a
/// definition of the document `top`, or one of those inline footnotes.
pub open spec fn spec_defined_now(top: Seq<Block>, counter: nat, id: Seq<u8>) -> bool {
    spec_blocks_define_footnote(top, id) || exists|k: nat| 1 <= k <= counter && id == #[trigger] spec_inline_id(k)
}

/// The inline footnote count after one more (it stops at the largest `usize`).
pub open spec fn spec_next_counter(c: nat) -> nat {
    if c < usize::MAX {
        c + 1
    } else {
        c
    }
}

/// The walk of one inline node: the referenced ids so far and the inline
/// footnote count, after `node`.
pub open spec fn spec_walk_inline(node: Inline, top: Seq<Block>, st: (Seq<Seq<u8>>, nat)) -> (Seq<Seq<u8>>, nat)
    decreases node,
{
    match node {
        Inline::FootnoteReference(r) => if spec_defined_now(top, st.1, encode_utf8(r.identifier@)) {
            (spec_registered(st.0, encode_utf8(r.identifier@)), st.1)
        } else {
            st
        },
        Inline::InlineFootnote(n) => {
            let c = spec_next_counter(st.1);
            spec_walk_inlines(n.children@, top, (spec_registered(st.0, spec_inline_id(c)), c))
        },
        Inline::Emphasis(n) => spec_walk_inlines(n.children@, top, st),
        Inline::Strong(n) => spec_walk_inlines(n.children@, top, st),
        Inline::Underline(n) => spec_walk_inlines(n.children@, top, st),
        Inline::Delete(n) => spec_walk_inlines(n.children@, top, st),
        Inline::Insert(n) => spec_walk_inlines(n.children@, top, st),
        Inline::Mark(n) => spec_walk_inlines(n.children@, top, st),
        Inline::Subscript(n) => spec_walk_inlines(n.children@, top, st),
        Inline::Superscript(n) => spec_walk_inlines(n.children@, top, st),
        Inline::Spoiler(n) => spec_walk_inlines(n.children@, top, st),
        Inline::Link(n) => spec_walk_inlines(n.children@, top, st),
        Inline::LinkReference(n) => spec_walk_inlines(n.children@, top, st),
        Inline::TextDirective(d) => spec_walk_inlines(d.label@, top, st),
        _ => st,
    }
}

/// The walk of an inline sequence, node by node.
pub open spec fn spec_walk_inlines(s: Seq<Inline>, top: Seq<Block>, st: (Seq<Seq<u8>>, nat)) -> (Seq<Seq<u8>>, nat)
    decreases s,
{
    if s.len() == 0 {
        st
    } else {
        spec_walk_inline(s[s.len() - 1], top, spec_walk_inlines(s.subrange(0, s.len() - 1), top, st))
    }
}

/// The walk of one block.
pub open spec fn spec_walk_block(block: Block, top: Seq<Block>, st: (Seq<Seq<u8>>, nat)) -> (Seq<Seq<u8>>, nat)
    decreases block,
{
    match block {
        Block::Paragraph(n) => spec_walk_inlines(n.children@, top, st),
        Block::Heading(n) => spec_walk_inlines(n.children@, top, st),
        Block::BlockQuote(n) => spec_walk_blocks(n.children@, top, st),
        Block::Alert(n) => spec_walk_blocks(n.children@, top, st),
        Block::List(n) => spec_walk_items(n.children@, top, st),
        Block::DescriptionList(n) => spec_walk_description_items(n.children@, top, st),
        Block::Table(t) => spec_walk_rows(t.rows@, top, st),
        Block::FootnoteDefinition(n) => spec_walk_blocks(n.children@, top, st),
        Block::ContainerDirective(n) => spec_walk_blocks(n.children@, top, spec_walk_inlines(n.label@, top, st)),
        Block::LeafDirective(n) => spec_walk_inlines(n.label@, top, st),
        _ => st,
    }
}

/// The walk of a block sequence.
pub open spec fn spec_walk_blocks(s: Seq<Block>, top: Seq<Block>, st: (Seq<Seq<u8>>, nat)) -> (Seq<Seq<u8>>, nat)
    decreases s,
{
    if s.len() == 0 {
        st
    } else {
        spec_walk_block(s[s.len() - 1], top, spec_walk_blocks(s.subrange(0, s.len() - 1), top, st))
    }
}

/// The walk of list items' blocks.
pub open spec fn spec_walk_items(s: Seq<ListItem>, top: Seq<Block>, st: (Seq<Seq<u8>>, nat)) -> (Seq<Seq<u8>>, nat)
    decreases s,
{
    if s.len() == 0 {
        st
    } else {
        spec_walk_blocks(s[s.len() - 1].children@, top, spec_walk_items(s.subrange(0, s.len() - 1), top, st))
    }
}

/// The walk of description items: each term, then its details.
pub open spec fn spec_walk_description_items(s: Seq<DescriptionItem>, top: Seq<Block>, st: (Seq<Seq<u8>>, nat)) -> (Seq<Seq<u8>>, nat)
    decreases s,
{
    if s.len() == 0 {
        st
    } else {
        let last = s[s.len() - 1];
        spec_walk_details(
            last.details@,
            top,
            spec_walk_inlines(last.term@, top, spec_walk_description_items(s.subrange(0, s.len() - 1), top, st)),
        )
    }
}

/// The walk of details groups' blocks.
pub open spec fn spec_walk_details(s: Seq<DescriptionDetails>, top: Seq<Block>, st: (Seq<Seq<u8>>, nat)) -> (Seq<Seq<u8>>, nat)
    decreases s,
{
    if s.len() == 0 {
        st
    } else {
        spec_walk_blocks(s[s.len() - 1].children@, top, spec_walk_details(s.subrange(0, s.len() - 1), top, st))
    }
}

/// The walk of table rows.
pub open spec fn spec_walk_rows(s: Seq<TableRow>, top: Seq<Block>, st: (Seq<Seq<u8>>, nat)) -> (Seq<Seq<u8>>, nat)
    decreases s,
{
    if s.len() == 0 {
        st
    } else {
        spec_walk_cells(s[s.len() - 1].cells@, top, spec_walk_rows(s.subrange(0, s.len() - 1), top, st))
    }
}

/// The walk of table cells.
pub open spec fn spec_walk_cells(s: Seq<TableCell>, top: Seq<Block>, st: (Seq<Seq<u8>>, nat)) -> (Seq<Seq<u8>>, nat)
    decreases s,
{
    if s.len() == 0 {
        st
    } else {
        spec_walk_inlines(s[s.len() - 1].children@, top, spec_walk_cells(s.subrange(0, s.len() - 1), top, st))
    }
}

/// The footnote ids that `blocks` references, in the order of their first
/// reference: a reference counts only when it resolves to a definition.
pub open spec fn spec_referenced_ids(blocks: Seq<Block>) -> Seq<Seq<u8>> {
    spec_walk_blocks(blocks, blocks, (Seq::empty(), 0)).0
}


/// Whether `id` is among the strings of `v`.
fn contains_id(v: &Vec<String>, id: &String) -> (r: bool)
    ensures
        r == spec_string_ids(v@).contains(encode_utf8(id@)),
{
    let key = string_bytes(id);
    let mut k: usize = 0;
    while k < v.len()
        invariant
            k <= v@.len(),
            key@ == encode_utf8(id@),
            forall|j: int| 0 <= j < k ==> spec_string_ids(v@)[j] != encode_utf8(id@),
        decreases v@.len() - k,
    {
        if bytes_equal(string_bytes(&v[k]), key) {
            proof {
                assert(spec_string_ids(v@)[k as int] == encode_utf8(id@));
            }
            return true;
        }
        k = k + 1;
    }
    false
}

/// The state of the reference walk.
struct RefBuilder {
    order: Vec<String>,
    defined: Vec<String>,
    counter: usize,
}

impl RefBuilder {
    /// The referenced ids so far and the inline footnote count.
    spec fn state(&self) -> (Seq<Seq<u8>>, nat) {
        (spec_string_ids(self.order@), self.counter as nat)
    }

    /// No id is referenced twice, and `defined` holds exactly the ids that
    /// resolve now.
    spec fn inv(&self, top: Seq<Block>) -> bool {
        &&& spec_distinct(spec_string_ids(self.order@))
        &&& forall|id: Seq<u8>|
            #![trigger spec_string_ids(self.defined@).contains(id)]
            spec_string_ids(self.defined@).contains(id) <==> spec_defined_now(top, self.counter as nat, id)
    }

    /// Records a reference to `id`.
    fn register(&mut self, id: String, Ghost(top): Ghost<Seq<Block>>)
        requires
            old(self).inv(top),
        ensures
            final(self).inv(top),
            final(self).state() == (spec_registered(old(self).state().0, encode_utf8(id@)), old(self).state().1),
    {
        if !contains_id(&self.order, &id) {
            let ghost before = spec_string_ids(self.order@);
            self.order.push(id);
            proof {
                assert(spec_string_ids(self.order@) =~= before.push(encode_utf8(id@)));
            }
        }
    }

    fn walk_inline(&mut self, inline: &Inline, Ghost(top): Ghost<Seq<Block>>)
        requires
            old(self).inv(top),
        ensures
            final(self).inv(top),
            final(self).state() == spec_walk_inline(*inline, top, old(self).state()),
        decreases *inline, 0nat,
    {
        match inline {
            Inline::FootnoteReference(r) => {
                if contains_id(&self.defined, &r.identifier) {
                    self.register(r.identifier.clone(), Ghost(top));
                }
            },
            Inline::InlineFootnote(n) => {
                let ghost st0 = self.state();
                if self.counter < usize::MAX {
                    self.counter = self.counter + 1;
                }
                let id = inline_id(self.counter);
                let ghost before = spec_string_ids(self.defined@);
                self.defined.push(id.clone());
                proof {
                    let c = self.counter as nat;
                    assert(spec_string_ids(self.defined@) =~= before.push(spec_inline_id(c)));
                    assert forall|x: Seq<u8>| #[trigger] spec_string_ids(self.defined@).contains(x) <==> spec_defined_now(top, c, x) by {
                        if spec_string_ids(self.defined@).contains(x) {
                            let w = choose|w: int| 0 <= w < spec_string_ids(self.defined@).len() && spec_string_ids(self.defined@)[w] == x;
                            if w < before.len() {
                                assert(before.contains(x));
                            } else {
                                assert(x == spec_inline_id(c));
                            }
                        }
                        if spec_defined_now(top, c, x) {
                            if spec_blocks_define_footnote(top, x) || exists|k: nat| 1 <= k <= st0.1 && x == #[trigger] spec_inline_id(k) {
                                assert(spec_defined_now(top, st0.1, x));
                                assert(before.contains(x));
                                let w = choose|w: int| 0 <= w < before.len() && before[w] == x;
                                assert(spec_string_ids(self.defined@)[w] == x);
                            } else {
                                let k = choose|k: nat| 1 <= k <= c && x == #[trigger] spec_inline_id(k);
                                assert(k == c);
                                assert(spec_string_ids(self.defined@)[before.len() as int] == x);
                            }
                        }
                    }
                }
                self.register(id, Ghost(top));
                self.walk_inlines(n.children.as_slice(), Ghost(top));
            },
            Inline::Emphasis(n) => self.walk_inlines(n.children.as_slice(), Ghost(top)),
            Inline::Strong(n) => self.walk_inlines(n.children.as_slice(), Ghost(top)),
            Inline::Underline(n) => self.walk_inlines(n.children.as_slice(), Ghost(top)),
            Inline::Delete(n) => self.walk_inlines(n.children.as_slice(), Ghost(top)),
            Inline::Insert(n) => self.walk_inlines(n.children.as_slice(), Ghost(top)),
            Inline::Mark(n) => self.walk_inlines(n.children.as_slice(), Ghost(top)),
            Inline::Subscript(n) => self.walk_inlines(n.children.as_slice(), Ghost(top)),
            Inline::Superscript(n) => self.walk_inlines(n.children.as_slice(), Ghost(top)),
            Inline::Spoiler(n) => self.walk_inlines(n.children.as_slice(), Ghost(top)),
            Inline::Link(n) => self.walk_inlines(n.children.as_slice(), Ghost(top)),
            Inline::LinkReference(n) => self.walk_inlines(n.children.as_slice(), Ghost(top)),
            Inline::TextDirective(d) => self.walk_inlines(d.label.as_slice(), Ghost(top)),
            _ => {},
        }
    }

    fn walk_inlines(&mut self, inlines: &[Inline], Ghost(top): Ghost<Seq<Block>>)
        requires
            old(self).inv(top),
        ensures
            final(self).inv(top),
            final(self).state() == spec_walk_inlines(inlines@, top, old(self).state()),
        decreases inlines@, 1nat,
    {
        let ghost st0 = self.state();
        let mut i: usize = 0;
        while i < inlines.len()
            invariant
                i <= inlines@.len(),
                self.inv(top),
                self.state() == spec_walk_inlines(inlines@.subrange(0, i as int), top, st0),
            decreases inlines@.len() - i,
        {
            proof {
                assert(inlines@.subrange(0, i + 1).subrange(0, i as int) =~= inlines@.subrange(0, i as int));
                assert(inlines@.subrange(0, i + 1)[i as int] == inlines@[i as int]);
            }
            self.walk_inline(&inlines[i], Ghost(top));
            i = i + 1;
        }
        proof {
            assert(inlines@.subrange(0, i as int) =~= inlines@);
        }
    }

    fn walk_block(&mut self, block: &Block, Ghost(top): Ghost<Seq<Block>>)
        requires
            old(self).inv(top),
        ensures
            final(self).inv(top),
            final(self).state() == spec_walk_block(*block, top, old(self).state()),
        decreases *block, 0nat,
    {
        match block {
            Block::Paragraph(n) => self.walk_inlines(n.children.as_slice(), Ghost(top)),
            Block::Heading(n) => self.walk_inlines(n.children.as_slice(), Ghost(top)),
            Block::BlockQuote(n) => self.walk_blocks(n.children.as_slice(), Ghost(top)),
            Block::Alert(n) => self.walk_blocks(n.children.as_slice(), Ghost(top)),
            Block::List(n) => self.walk_items(n.children.as_slice(), Ghost(top)),
            Block::DescriptionList(n) => self.walk_description_items(n.children.as_slice(), Ghost(top)),
            Block::Table(t) => self.walk_rows(t.rows.as_slice(), Ghost(top)),
            Block::FootnoteDefinition(n) => self.walk_blocks(n.children.as_slice(), Ghost(top)),
            Block::ContainerDirective(n) => {
                self.walk_inlines(n.label.as_slice(), Ghost(top));
                self.walk_blocks(n.children.as_slice(), Ghost(top));
            },
            Block::LeafDirective(n) => self.walk_inlines(n.label.as_slice(), Ghost(top)),
            _ => {},
        }
    }

    fn walk_blocks(&mut self, blocks: &[Block], Ghost(top): Ghost<Seq<Block>>)
        requires
            old(self).inv(top),
        ensures
            final(self).inv(top),
            final(self).state() == spec_walk_blocks(blocks@, top, old(self).state()),
        decreases blocks@, 1nat,
    {
        let ghost st0 = self.state();
        let mut i: usize = 0;
        while i < blocks.len()
            invariant
                i <= blocks@.len(),
                self.inv(top),
                self.state() == spec_walk_blocks(blocks@.subrange(0, i as int), top, st0),
            decreases blocks@.len() - i,
        {
            proof {
                assert(blocks@.subrange(0, i + 1).subrange(0, i as int) =~= blocks@.subrange(0, i as int));
                assert(blocks@.subrange(0, i + 1)[i as int] == blocks@[i as int]);
            }
            self.walk_block(&blocks[i], Ghost(top));
            i = i + 1;
        }
        proof {
            assert(blocks@.subrange(0, i as int) =~= blocks@);
        }
    }

    fn walk_items(&mut self, items: &[ListItem], Ghost(top): Ghost<Seq<Block>>)
        requires
            old(self).inv(top),
        ensures
            final(self).inv(top),
            final(self).state() == spec_walk_items(items@, top, old(self).state()),
        decreases items@, 1nat,
    {
        let ghost st0 = self.state();
        let mut i: usize = 0;
        while i < items.len()
            invariant
                i <= items@.len(),
                self.inv(top),
                self.state() == spec_walk_items(items@.subrange(0, i as int), top, st0),
            decreases items@.len() - i,
        {
            proof {
                assert(items@.subrange(0, i + 1).subrange(0, i as int) =~= items@.subrange(0, i as int));
                assert(items@.subrange(0, i + 1)[i as int] == items@[i as int]);
            }
            self.walk_blocks(items[i].children.as_slice(), Ghost(top));
            i = i + 1;
        }
        proof {
            assert(items@.subrange(0, i as int) =~= items@);
        }
    }

    fn walk_description_items(&mut self, items: &[DescriptionItem], Ghost(top): Ghost<Seq<Block>>)
        requires
            old(self).inv(top),
        ensures
            final(self).inv(top),
            final(self).state() == spec_walk_description_items(items@, top, old(self).state()),
        decreases items@, 1nat,
    {
        let ghost st0 = self.state();
        let mut i: usize = 0;
        while i < items.len()
            invariant
                i <= items@.len(),
                self.inv(top),
                self.state() == spec_walk_description_items(items@.subrange(0, i as int), top, st0),
            decreases items@.len() - i,
        {
            proof {
                assert(items@.subrange(0, i + 1).subrange(0, i as int) =~= items@.subrange(0, i as int));
                assert(items@.subrange(0, i + 1)[i as int] == items@[i as int]);
            }
            self.walk_inlines(items[i].term.as_slice(), Ghost(top));
            self.walk_details(items[i].details.as_slice(), Ghost(top));
            i = i + 1;
        }
        proof {
            assert(items@.subrange(0, i as int) =~= items@);
        }
    }

    fn walk_details(&mut self, details: &[DescriptionDetails], Ghost(top): Ghost<Seq<Block>>)
        requires
            old(self).inv(top),
        ensures
            final(self).inv(top),
            final(self).state() == spec_walk_details(details@, top, old(self).state()),
        decreases details@, 1nat,
    {
        let ghost st0 = self.state();
        let mut i: usize = 0;
        while i < details.len()
            invariant
                i <= details@.len(),
                self.inv(top),
                self.state() == spec_walk_details(details@.subrange(0, i as int), top, st0),
            decreases details@.len() - i,
        {
            proof {
                assert(details@.subrange(0, i + 1).subrange(0, i as int) =~= details@.subrange(0, i as int));
                assert(details@.subrange(0, i + 1)[i as int] == details@[i as int]);
            }
            self.walk_blocks(details[i].children.as_slice(), Ghost(top));
            i = i + 1;
        }
        proof {
            assert(details@.subrange(0, i as int) =~= details@);
        }
    }

    fn walk_rows(&mut self, rows: &[TableRow], Ghost(top): Ghost<Seq<Block>>)
        requires
            old(self).inv(top),
        ensures
            final(self).inv(top),
            final(self).state() == spec_walk_rows(rows@, top, old(self).state()),
        decreases rows@, 1nat,
    {
        let ghost st0 = self.state();
        let mut i: usize = 0;
        while i < rows.len()
            invariant
                i <= rows@.len(),
                self.inv(top),
                self.state() == spec_walk_rows(rows@.subrange(0, i as int), top, st0),
            decreases rows@.len() - i,
        {
            proof {
                assert(rows@.subrange(0, i + 1).subrange(0, i as int) =~= rows@.subrange(0, i as int));
                assert(rows@.subrange(0, i + 1)[i as int] == rows@[i as int]);
            }
            self.walk_cells(rows[i].cells.as_slice(), Ghost(top));
            i = i + 1;
        }
        proof {
            assert(rows@.subrange(0, i as int) =~= rows@);
        }
    }

    fn walk_cells(&mut self, cells: &[TableCell], Ghost(top): Ghost<Seq<Block>>)
        requires
            old(self).inv(top),
        ensures
            final(self).inv(top),
            final(self).state() == spec_walk_cells(cells@, top, old(self).state()),
        decreases cells@, 1nat,
    {
        let ghost st0 = self.state();
        let mut i: usize = 0;
        while i < cells.len()
            invariant
                i <= cells@.len(),
                self.inv(top),
                self.state() == spec_walk_cells(cells@.subrange(0, i as int), top, st0),
            decreases cells@.len() - i,
        {
            proof {
                assert(cells@.subrange(0, i + 1).subrange(0, i as int) =~= cells@.subrange(0, i as int));
                assert(cells@.subrange(0, i + 1)[i as int] == cells@[i as int]);
            }
            self.walk_inlines(cells[i].children.as_slice(), Ghost(top));
            i = i + 1;
        }
        proof {
            assert(cells@.subrange(0, i as int) =~= cells@);
        }
    }
}



// ---------------------------------------------------------------------------
// Every referenced footnote resolves.
// ---------------------------------------------------------------------------

/// Every id recorded in `st` resolves with its inline footnote count.
pub open spec fn spec_resolves_all(top: Seq<Block>, st: (Seq<Seq<u8>>, nat)) -> bool {
    forall|i: int| 0 <= i < st.0.len() ==> spec_defined_now(top, st.1, #[trigger] st.0[i])
}

/// Meeting more inline footnotes keeps every resolved id resolved.
proof fn lemma_resolves_grow(top: Seq<Block>, st: (Seq<Seq<u8>>, nat), c: nat)
    requires
        spec_resolves_all(top, st),
        st.1 <= c,
    ensures
        spec_resolves_all(top, (st.0, c)),
{
    assert forall|i: int| 0 <= i < st.0.len() implies spec_defined_now(top, c, #[trigger] st.0[i]) by {
        assert(spec_defined_now(top, st.1, st.0[i]));
        if !spec_blocks_define_footnote(top, st.0[i]) {
            let k = choose|k: nat| 1 <= k <= st.1 && st.0[i] == #[trigger] spec_inline_id(k);
            assert(1 <= k <= c && st.0[i] == spec_inline_id(k));
        }
    }
}

/// Recording a resolving id keeps every recorded id resolving.
proof fn lemma_resolves_register(top: Seq<Block>, st: (Seq<Seq<u8>>, nat), id: Seq<u8>)
    requires
        spec_resolves_all(top, st),
        spec_defined_now(top, st.1, id),
    ensures
        spec_resolves_all(top, (spec_registered(st.0, id), st.1)),
{
    let o = spec_registered(st.0, id);
    assert forall|i: int| 0 <= i < o.len() implies spec_defined_now(top, st.1, #[trigger] o[i]) by {
        if i < st.0.len() {
            assert(o[i] == st.0[i]);
        }
    }
}

proof fn lemma_walk_inline_resolves(node: Inline, top: Seq<Block>, st: (Seq<Seq<u8>>, nat))
    requires
        spec_resolves_all(top, st),
    ensures
        spec_resolves_all(top, spec_walk_inline(node, top, st)),
        spec_walk_inline(node, top, st).1 >= st.1,
    decreases node,
{
    match node {
        Inline::FootnoteReference(r) => {
            if spec_defined_now(top, st.1, encode_utf8(r.identifier@)) {
                lemma_resolves_register(top, st, encode_utf8(r.identifier@));
            }
        },
        Inline::InlineFootnote(n) => {
            let c = spec_next_counter(st.1);
            lemma_resolves_grow(top, st, c);
            assert(spec_defined_now(top, c, spec_inline_id(c)));
            lemma_resolves_register(top, (st.0, c), spec_inline_id(c));
            lemma_walk_inlines_resolves(n.children@, top, (spec_registered(st.0, spec_inline_id(c)), c));
        },
        Inline::Emphasis(n) => lemma_walk_inlines_resolves(n.children@, top, st),
        Inline::Strong(n) => lemma_walk_inlines_resolves(n.children@, top, st),
        Inline::Underline(n) => lemma_walk_inlines_resolves(n.children@, top, st),
        Inline::Delete(n) => lemma_walk_inlines_resolves(n.children@, top, st),
        Inline::Insert(n) => lemma_walk_inlines_resolves(n.children@, top, st),
        Inline::Mark(n) => lemma_walk_inlines_resolves(n.children@, top, st),
        Inline::Subscript(n) => lemma_walk_inlines_resolves(n.children@, top, st),
        Inline::Superscript(n) => lemma_walk_inlines_resolves(n.children@, top, st),
        Inline::Spoiler(n) => lemma_walk_inlines_resolves(n.children@, top, st),
        Inline::Link(n) => lemma_walk_inlines_resolves(n.children@, top, st),
        Inline::LinkReference(n) => lemma_walk_inlines_resolves(n.children@, top, st),
        Inline::TextDirective(d) => lemma_walk_inlines_resolves(d.label@, top, st),
        _ => {},
    }
}

proof fn lemma_walk_inlines_resolves(s: Seq<Inline>, top: Seq<Block>, st: (Seq<Seq<u8>>, nat))
    requires
        spec_resolves_all(top, st),
    ensures
        spec_resolves_all(top, spec_walk_inlines(s, top, st)),
        spec_walk_inlines(s, top, st).1 >= st.1,
    decreases s,
{
    if s.len() > 0 {
        let prefix = s.subrange(0, s.len() - 1);
        lemma_walk_inlines_resolves(prefix, top, st);
        let mid = spec_walk_inlines(prefix, top, st);
        let last = s[s.len() - 1];
        lemma_walk_inline_resolves(last, top, mid);
    }
}

proof fn lemma_walk_block_resolves(block: Block, top: Seq<Block>, st: (Seq<Seq<u8>>, nat))
    requires
        spec_resolves_all(top, st),
    ensures
        spec_resolves_all(top, spec_walk_block(block, top, st)),
        spec_walk_block(block, top, st).1 >= st.1,
    decreases block,
{
    match block {
        Block::Paragraph(n) => lemma_walk_inlines_resolves(n.children@, top, st),
        Block::Heading(n) => lemma_walk_inlines_resolves(n.children@, top, st),
        Block::BlockQuote(n) => lemma_walk_blocks_resolves(n.children@, top, st),
        Block::Alert(n) => lemma_walk_blocks_resolves(n.children@, top, st),
        Block::List(n) => lemma_walk_items_resolves(n.children@, top, st),
        Block::DescriptionList(n) => lemma_walk_description_items_resolves(n.children@, top, st),
        Block::Table(t) => lemma_walk_rows_resolves(t.rows@, top, st),
        Block::FootnoteDefinition(n) => lemma_walk_blocks_resolves(n.children@, top, st),
        Block::ContainerDirective(n) => {
            lemma_walk_inlines_resolves(n.label@, top, st);
            lemma_walk_blocks_resolves(n.children@, top, spec_walk_inlines(n.label@, top, st));
        },
        Block::LeafDirective(n) => lemma_walk_inlines_resolves(n.label@, top, st),
        _ => {},
    }
}

proof fn lemma_walk_blocks_resolves(s: Seq<Block>, top: Seq<Block>, st: (Seq<Seq<u8>>, nat))
    requires
        spec_resolves_all(top, st),
    ensures
        spec_resolves_all(top, spec_walk_blocks(s, top, st)),
        spec_walk_blocks(s, top, st).1 >= st.1,
    decreases s,
{
    if s.len() > 0 {
        let prefix = s.subrange(0, s.len() - 1);
        lemma_walk_blocks_resolves(prefix, top, st);
        let mid = spec_walk_blocks(prefix, top, st);
        let last = s[s.len() - 1];
        lemma_walk_block_resolves(last, top, mid);
    }
}

proof fn lemma_walk_items_resolves(s: Seq<ListItem>, top: Seq<Block>, st: (Seq<Seq<u8>>, nat))
    requires
        spec_resolves_all(top, st),
    ensures
        spec_resolves_all(top, spec_walk_items(s, top, st)),
        spec_walk_items(s, top, st).1 >= st.1,
    decreases s,
{
    if s.len() > 0 {
        let prefix = s.subrange(0, s.len() - 1);
        lemma_walk_items_resolves(prefix, top, st);
        let mid = spec_walk_items(prefix, top, st);
        let last = s[s.len() - 1];
        lemma_walk_blocks_resolves(last.children@, top, mid);
    }
}

proof fn lemma_walk_description_items_resolves(s: Seq<DescriptionItem>, top: Seq<Block>, st: (Seq<Seq<u8>>, nat))
    requires
        spec_resolves_all(top, st),
    ensures
        spec_resolves_all(top, spec_walk_description_items(s, top, st)),
        spec_walk_description_items(s, top, st).1 >= st.1,
    decreases s,
{
    if s.len() > 0 {
        let prefix = s.subrange(0, s.len() - 1);
        lemma_walk_description_items_resolves(prefix, top, st);
        let mid = spec_walk_description_items(prefix, top, st);
        let last = s[s.len() - 1];
        lemma_walk_inlines_resolves(last.term@, top, mid);
        lemma_walk_details_resolves(last.details@, top, spec_walk_inlines(last.term@, top, mid));
    }
}

proof fn lemma_walk_details_resolves(s: Seq<DescriptionDetails>, top: Seq<Block>, st: (Seq<Seq<u8>>, nat))
    requires
        spec_resolves_all(top, st),
    ensures
        spec_resolves_all(top, spec_walk_details(s, top, st)),
        spec_walk_details(s, top, st).1 >= st.1,
    decreases s,
{
    if s.len() > 0 {
        let prefix = s.subrange(0, s.len() - 1);
        lemma_walk_details_resolves(prefix, top, st);
        let mid = spec_walk_details(prefix, top, st);
        let last = s[s.len() - 1];
        lemma_walk_blocks_resolves(last.children@, top, mid);
    }
}

proof fn lemma_walk_rows_resolves(s: Seq<TableRow>, top: Seq<Block>, st: (Seq<Seq<u8>>, nat))
    requires
        spec_resolves_all(top, st),
    ensures
        spec_resolves_all(top, spec_walk_rows(s, top, st)),
        spec_walk_rows(s, top, st).1 >= st.1,
    decreases s,
{
    if s.len() > 0 {
        let prefix = s.subrange(0, s.len() - 1);
        lemma_walk_rows_resolves(prefix, top, st);
        let mid = spec_walk_rows(prefix, top, st);
        let last = s[s.len() - 1];
        lemma_walk_cells_resolves(last.cells@, top, mid);
    }
}

proof fn lemma_walk_cells_resolves(s: Seq<TableCell>, top: Seq<Block>, st: (Seq<Seq<u8>>, nat))
    requires
        spec_resolves_all(top, st),
    ensures
        spec_resolves_all(top, spec_walk_cells(s, top, st)),
        spec_walk_cells(s, top, st).1 >= st.1,
    decreases s,
{
    if s.len() > 0 {
        let prefix = s.subrange(0, s.len() - 1);
        lemma_walk_cells_resolves(prefix, top, st);
        let mid = spec_walk_cells(prefix, top, st);
        let last = s[s.len() - 1];
        lemma_walk_inlines_resolves(last.children@, top, mid);
    }
}

/// Only footnotes that resolve are numbered: every referenced id is the
/// identifier of a footnote definition of the document, or the id of one of
/// its inline footnotes; so definitions that nothing references, and
/// references to undefined ids, get no number.
pub proof fn lemma_referenced_ids_resolve(blocks: Seq<Block>)
    ensures
        forall|i: int|
            0 <= i < spec_referenced_ids(blocks).len() ==> spec_blocks_define_footnote(
                blocks,
                #[trigger] spec_referenced_ids(blocks)[i],
            ) || exists|k: nat| 1 <= k && spec_referenced_ids(blocks)[i] == #[trigger] spec_inline_id(k),
{
    let st0: (Seq<Seq<u8>>, nat) = (Seq::empty(), 0);
    lemma_walk_blocks_resolves(blocks, blocks, st0);
    let fin = spec_walk_blocks(blocks, blocks, st0);
    assert forall|i: int| 0 <= i < spec_referenced_ids(blocks).len() implies spec_blocks_define_footnote(
        blocks,
        #[trigger] spec_referenced_ids(blocks)[i],
    ) || exists|k: nat| 1 <= k && spec_referenced_ids(blocks)[i] == #[trigger] spec_inline_id(k) by {
        assert(spec_defined_now(blocks, fin.1, fin.0[i]));
        if !spec_blocks_define_footnote(blocks, fin.0[i]) {
            let k = choose|k: nat| 1 <= k <= fin.1 && fin.0[i] == #[trigger] spec_inline_id(k);
            assert(1 <= k && fin.0[i] == spec_inline_id(k));
        }
    }
}

// ---------------------------------------------------------------------------
// Every resolving reference is numbered.
// ---------------------------------------------------------------------------

/// Whether an inline node holds, at any depth the reference pass visits, a
/// footnote reference to `id`.
pub open spec fn spec_inline_mentions(node: Inline, id: Seq<u8>) -> bool
    decreases node,
{
    match node {
        Inline::FootnoteReference(r) => encode_utf8(r.identifier@) == id,
        Inline::InlineFootnote(n) => spec_inlines_mention(n.children@, id),
        Inline::Emphasis(n) => spec_inlines_mention(n.children@, id),
        Inline::Strong(n) => spec_inlines_mention(n.children@, id),
        Inline::Underline(n) => spec_inlines_mention(n.children@, id),
        Inline::Delete(n) => spec_inlines_mention(n.children@, id),
        Inline::Insert(n) => spec_inlines_mention(n.children@, id),
        Inline::Mark(n) => spec_inlines_mention(n.children@, id),
        Inline::Subscript(n) => spec_inlines_mention(n.children@, id),
        Inline::Superscript(n) => spec_inlines_mention(n.children@, id),
        Inline::Spoiler(n) => spec_inlines_mention(n.children@, id),
        Inline::Link(n) => spec_inlines_mention(n.children@, id),
        Inline::LinkReference(n) => spec_inlines_mention(n.children@, id),
        Inline::TextDirective(d) => spec_inlines_mention(d.label@, id),
        _ => false,
    }
}

/// Whether some node of `s` mentions `id`.
pub open spec fn spec_inlines_mention(s: Seq<Inline>, id: Seq<u8>) -> bool
    decreases s,
{
    exists|k: int| 0 <= k < s.len() && spec_inline_mentions(#[trigger] s[k], id)
}

/// Whether a block holds, anywhere in its tree (paragraphs, headings, quotes,
/// alerts, list items, description terms and details, table cells, footnote
/// definitions, directive labels and bodies), a footnote reference to `id`.
pub open spec fn spec_block_mentions(block: Block, id: Seq<u8>) -> bool
    decreases block,
{
    match block {
        Block::Paragraph(n) => spec_inlines_mention(n.children@, id),
        Block::Heading(n) => spec_inlines_mention(n.children@, id),
        Block::BlockQuote(n) => spec_blocks_mention(n.children@, id),
        Block::Alert(n) => spec_blocks_mention(n.children@, id),
        Block::List(n) => exists|k: int|
            0 <= k < n.children@.len() && spec_blocks_mention(#[trigger] n.children@[k].children@, id),
        Block::DescriptionList(n) => exists|k: int|
            0 <= k < n.children@.len() && spec_description_item_mentions(#[trigger] n.children@[k], id),
        Block::Table(t) => exists|r: int, c: int|
            0 <= r < t.rows@.len() && 0 <= c < t.rows@[r].cells@.len() && spec_inlines_mention(
                #[trigger] t.rows@[r].cells@[c].children@,
                id,
            ),
        Block::FootnoteDefinition(n) => spec_blocks_mention(n.children@, id),
        Block::ContainerDirective(n) => spec_inlines_mention(n.label@, id) || spec_blocks_mention(n.children@, id),
        Block::LeafDirective(n) => spec_inlines_mention(n.label@, id),
        _ => false,
    }
}

/// Whether a description item's term or one of its details groups mentions
/// `id`.
pub open spec fn spec_description_item_mentions(item: DescriptionItem, id: Seq<u8>) -> bool
    decreases item,
{
    spec_inlines_mention(item.term@, id) || exists|d: int|
        0 <= d < item.details@.len() && spec_blocks_mention(#[trigger] item.details@[d].children@, id)
}

/// Whether some block of `s` mentions `id`.
pub open spec fn spec_blocks_mention(s: Seq<Block>, id: Seq<u8>) -> bool
    decreases s,
{
    exists|k: int| 0 <= k < s.len() && spec_block_mentions(#[trigger] s[k], id)
}

/// A walk only adds ids: everything in `a` is still in `b`.
pub open spec fn spec_kept(a: Seq<Seq<u8>>, b: Seq<Seq<u8>>) -> bool {
    forall|x: Seq<u8>| #[trigger] a.contains(x) ==> b.contains(x)
}

proof fn lemma_registered_keeps(order: Seq<Seq<u8>>, id: Seq<u8>)
    ensures
        spec_kept(order, spec_registered(order, id)),
        spec_registered(order, id).contains(id),
{
    let o = spec_registered(order, id);
    if !order.contains(id) {
        assert(o[order.len() as int] == id);
        assert forall|x: Seq<u8>| #[trigger] order.contains(x) implies o.contains(x) by {
            let w = choose|w: int| 0 <= w < order.len() && order[w] == x;
            assert(o[w] == x);
        }
    }
}

proof fn lemma_mentions_inline(node: Inline, top: Seq<Block>, st: (Seq<Seq<u8>>, nat), id: Seq<u8>)
    requires
        spec_blocks_define_footnote(top, id),
    ensures
        spec_kept(st.0, spec_walk_inline(node, top, st).0),
        spec_inline_mentions(node, id) ==> spec_walk_inline(node, top, st).0.contains(id),
    decreases node,
{
    match node {
        Inline::FootnoteReference(r) => {
            let rid = encode_utf8(r.identifier@);
            lemma_registered_keeps(st.0, rid);
        },
        Inline::InlineFootnote(n) => {
            let c = spec_next_counter(st.1);
            lemma_registered_keeps(st.0, spec_inline_id(c));
            lemma_mentions_inlines(n.children@, top, (spec_registered(st.0, spec_inline_id(c)), c), id);
        },
        Inline::Emphasis(n) => lemma_mentions_inlines(n.children@, top, st, id),
        Inline::Strong(n) => lemma_mentions_inlines(n.children@, top, st, id),
        Inline::Underline(n) => lemma_mentions_inlines(n.children@, top, st, id),
        Inline::Delete(n) => lemma_mentions_inlines(n.children@, top, st, id),
        Inline::Insert(n) => lemma_mentions_inlines(n.children@, top, st, id),
        Inline::Mark(n) => lemma_mentions_inlines(n.children@, top, st, id),
        Inline::Subscript(n) => lemma_mentions_inlines(n.children@, top, st, id),
        Inline::Superscript(n) => lemma_mentions_inlines(n.children@, top, st, id),
        Inline::Spoiler(n) => lemma_mentions_inlines(n.children@, top, st, id),
        Inline::Link(n) => lemma_mentions_inlines(n.children@, top, st, id),
        Inline::LinkReference(n) => lemma_mentions_inlines(n.children@, top, st, id),
        Inline::TextDirective(d) => lemma_mentions_inlines(d.label@, top, st, id),
        _ => {},
    }
}

proof fn lemma_mentions_inlines(s: Seq<Inline>, top: Seq<Block>, st: (Seq<Seq<u8>>, nat), id: Seq<u8>)
    requires
        spec_blocks_define_footnote(top, id),
    ensures
        spec_kept(st.0, spec_walk_inlines(s, top, st).0),
        spec_inlines_mention(s, id) ==> spec_walk_inlines(s, top, st).0.contains(id),
    decreases s,
{
    if s.len() > 0 {
        let pre = s.subrange(0, s.len() - 1);
        let last = s[s.len() - 1];
        lemma_mentions_inlines(pre, top, st, id);
        let mid = spec_walk_inlines(pre, top, st);
        lemma_mentions_inline(last, top, mid, id);
        if spec_inlines_mention(s, id) {
            let k = choose|k: int| 0 <= k < s.len() && spec_inline_mentions(#[trigger] s[k], id);
            if k < s.len() - 1 {
                assert(pre[k] == s[k]);
                assert(spec_inlines_mention(pre, id));
            }
        }
    }
}

proof fn lemma_mentions_block(block: Block, top: Seq<Block>, st: (Seq<Seq<u8>>, nat), id: Seq<u8>)
    requires
        spec_blocks_define_footnote(top, id),
    ensures
        spec_kept(st.0, spec_walk_block(block, top, st).0),
        spec_block_mentions(block, id) ==> spec_walk_block(block, top, st).0.contains(id),
    decreases block,
{
    match block {
        Block::Paragraph(n) => lemma_mentions_inlines(n.children@, top, st, id),
        Block::Heading(n) => lemma_mentions_inlines(n.children@, top, st, id),
        Block::BlockQuote(n) => lemma_mentions_blocks(n.children@, top, st, id),
        Block::Alert(n) => lemma_mentions_blocks(n.children@, top, st, id),
        Block::List(n) => lemma_mentions_items(n.children@, top, st, id),
        Block::DescriptionList(n) => lemma_mentions_description_items(n.children@, top, st, id),
        Block::Table(t) => lemma_mentions_rows(t.rows@, top, st, id),
        Block::FootnoteDefinition(n) => lemma_mentions_blocks(n.children@, top, st, id),
        Block::ContainerDirective(n) => {
            lemma_mentions_inlines(n.label@, top, st, id);
            lemma_mentions_blocks(n.children@, top, spec_walk_inlines(n.label@, top, st), id);
        },
        Block::LeafDirective(n) => lemma_mentions_inlines(n.label@, top, st, id),
        _ => {},
    }
}

proof fn lemma_mentions_blocks(s: Seq<Block>, top: Seq<Block>, st: (Seq<Seq<u8>>, nat), id: Seq<u8>)
    requires
        spec_blocks_define_footnote(top, id),
    ensures
        spec_kept(st.0, spec_walk_blocks(s, top, st).0),
        spec_blocks_mention(s, id) ==> spec_walk_blocks(s, top, st).0.contains(id),
    decreases s,
{
    if s.len() > 0 {
        let pre = s.subrange(0, s.len() - 1);
        let last = s[s.len() - 1];
        lemma_mentions_blocks(pre, top, st, id);
        let mid = spec_walk_blocks(pre, top, st);
        lemma_mentions_block(last, top, mid, id);
        if spec_blocks_mention(s, id) {
            let k = choose|k: int| 0 <= k < s.len() && spec_block_mentions(#[trigger] s[k], id);
            if k < s.len() - 1 {
                assert(pre[k] == s[k]);
                assert(spec_blocks_mention(pre, id));
            }
        }
    }
}

proof fn lemma_mentions_items(s: Seq<ListItem>, top: Seq<Block>, st: (Seq<Seq<u8>>, nat), id: Seq<u8>)
    requires
        spec_blocks_define_footnote(top, id),
    ensures
        spec_kept(st.0, spec_walk_items(s, top, st).0),
        (exists|k: int| 0 <= k < s.len() && spec_blocks_mention(#[trigger] s[k].children@, id))
            ==> spec_walk_items(s, top, st).0.contains(id),
    decreases s,
{
    if s.len() > 0 {
        let pre = s.subrange(0, s.len() - 1);
        lemma_mentions_items(pre, top, st, id);
        let mid = spec_walk_items(pre, top, st);
        lemma_mentions_blocks(s[s.len() - 1].children@, top, mid, id);
        if exists|k: int| 0 <= k < s.len() && spec_blocks_mention(#[trigger] s[k].children@, id) {
            let k = choose|k: int| 0 <= k < s.len() && spec_blocks_mention(#[trigger] s[k].children@, id);
            if k < s.len() - 1 {
                assert(pre[k] == s[k]);
                assert(spec_blocks_mention(pre[k].children@, id));
            } else {
                assert(spec_blocks_mention(s[s.len() - 1].children@, id));
            }
        }
    }
}

proof fn lemma_mentions_details(s: Seq<DescriptionDetails>, top: Seq<Block>, st: (Seq<Seq<u8>>, nat), id: Seq<u8>)
    requires
        spec_blocks_define_footnote(top, id),
    ensures
        spec_kept(st.0, spec_walk_details(s, top, st).0),
        (exists|k: int| 0 <= k < s.len() && spec_blocks_mention(#[trigger] s[k].children@, id))
            ==> spec_walk_details(s, top, st).0.contains(id),
    decreases s,
{
    if s.len() > 0 {
        let pre = s.subrange(0, s.len() - 1);
        lemma_mentions_details(pre, top, st, id);
        let mid = spec_walk_details(pre, top, st);
        lemma_mentions_blocks(s[s.len() - 1].children@, top, mid, id);
        if exists|k: int| 0 <= k < s.len() && spec_blocks_mention(#[trigger] s[k].children@, id) {
            let k = choose|k: int| 0 <= k < s.len() && spec_blocks_mention(#[trigger] s[k].children@, id);
            if k < s.len() - 1 {
                assert(pre[k] == s[k]);
                assert(spec_blocks_mention(pre[k].children@, id));
            } else {
                assert(spec_blocks_mention(s[s.len() - 1].children@, id));
            }
        }
    }
}

proof fn lemma_mentions_description_items(s: Seq<DescriptionItem>, top: Seq<Block>, st: (Seq<Seq<u8>>, nat), id: Seq<u8>)
    requires
        spec_blocks_define_footnote(top, id),
    ensures
        spec_kept(st.0, spec_walk_description_items(s, top, st).0),
        (exists|k: int| 0 <= k < s.len() && spec_description_item_mentions(#[trigger] s[k], id))
            ==> spec_walk_description_items(s, top, st).0.contains(id),
    decreases s,
{
    if s.len() > 0 {
        let pre = s.subrange(0, s.len() - 1);
        let last = s[s.len() - 1];
        lemma_mentions_description_items(pre, top, st, id);
        let m1 = spec_walk_description_items(pre, top, st);
        lemma_mentions_inlines(last.term@, top, m1, id);
        let m2 = spec_walk_inlines(last.term@, top, m1);
        lemma_mentions_details(last.details@, top, m2, id);
        if exists|k: int| 0 <= k < s.len() && spec_description_item_mentions(#[trigger] s[k], id) {
            let k = choose|k: int| 0 <= k < s.len() && spec_description_item_mentions(#[trigger] s[k], id);
            if k < s.len() - 1 {
                assert(pre[k] == s[k]);
                assert(spec_description_item_mentions(pre[k], id));
            } else if !spec_inlines_mention(last.term@, id) {
                let d = choose|d: int| 0 <= d < last.details@.len() && spec_blocks_mention(#[trigger] last.details@[d].children@, id);
                assert(spec_blocks_mention(last.details@[d].children@, id));
            }
        }
    }
}

proof fn lemma_mentions_cells(s: Seq<TableCell>, top: Seq<Block>, st: (Seq<Seq<u8>>, nat), id: Seq<u8>)
    requires
        spec_blocks_define_footnote(top, id),
    ensures
        spec_kept(st.0, spec_walk_cells(s, top, st).0),
        (exists|k: int| 0 <= k < s.len() && spec_inlines_mention(#[trigger] s[k].children@, id))
            ==> spec_walk_cells(s, top, st).0.contains(id),
    decreases s,
{
    if s.len() > 0 {
        let pre = s.subrange(0, s.len() - 1);
        lemma_mentions_cells(pre, top, st, id);
        let mid = spec_walk_cells(pre, top, st);
        lemma_mentions_inlines(s[s.len() - 1].children@, top, mid, id);
        if exists|k: int| 0 <= k < s.len() && spec_inlines_mention(#[trigger] s[k].children@, id) {
            let k = choose|k: int| 0 <= k < s.len() && spec_inlines_mention(#[trigger] s[k].children@, id);
            if k < s.len() - 1 {
                assert(pre[k] == s[k]);
                assert(spec_inlines_mention(pre[k].children@, id));
            } else {
                assert(spec_inlines_mention(s[s.len() - 1].children@, id));
            }
        }
    }
}

proof fn lemma_mentions_rows(s: Seq<TableRow>, top: Seq<Block>, st: (Seq<Seq<u8>>, nat), id: Seq<u8>)
    requires
        spec_blocks_define_footnote(top, id),
    ensures
        spec_kept(st.0, spec_walk_rows(s, top, st).0),
        (exists|r: int, c: int|
            0 <= r < s.len() && 0 <= c < s[r].cells@.len() && spec_inlines_mention(#[trigger] s[r].cells@[c].children@, id))
            ==> spec_walk_rows(s, top, st).0.contains(id),
    decreases s,
{
    if s.len() > 0 {
        let pre = s.subrange(0, s.len() - 1);
        lemma_mentions_rows(pre, top, st, id);
        let mid = spec_walk_rows(pre, top, st);
        lemma_mentions_cells(s[s.len() - 1].cells@, top, mid, id);
        if exists|r: int, c: int|
            0 <= r < s.len() && 0 <= c < s[r].cells@.len() && spec_inlines_mention(#[trigger] s[r].cells@[c].children@, id) {
            let (r, c) = choose|r: int, c: int|
                0 <= r < s.len() && 0 <= c < s[r].cells@.len() && spec_inlines_mention(#[trigger] s[r].cells@[c].children@, id);
            if r < s.len() - 1 {
                assert(pre[r] == s[r]);
            } else {
                assert(spec_inlines_mention(s[s.len() - 1].cells@[c].children@, id));
            }
        }
    }
}

/// Every footnote reference anywhere in the document tree (inside list items,
/// quotes, tables, description lists, directives, emphasis, links, inline
/// footnotes...) whose id has a definition gets a number: its id is among the
/// referenced ids.
pub proof fn lemma_defined_references_are_numbered(blocks: Seq<Block>, id: Seq<u8>)
    requires
        spec_blocks_define_footnote(blocks, id),
        spec_blocks_mention(blocks, id),
    ensures
        spec_referenced_ids(blocks).contains(id),
{
    lemma_mentions_blocks(blocks, blocks, (Seq::empty(), 0), id);
}

// ---------------------------------------------------------------------------
// The footnote context.
// ---------------------------------------------------------------------------

/// What the pre-pass learns of a document's footnotes: the referenced ids in
/// first-reference order (an id's 1-based position is its display number),
/// and how many inline footnotes the body render has met so far.
pub struct FootnoteContext {
    order: Vec<String>,
    inline_emitted: usize,
}

impl FootnoteContext {
    /// The referenced footnote ids (UTF-8 bytes), in first-reference order.
    pub closed spec fn spec_order(&self) -> Seq<Seq<u8>> {
        spec_string_ids(self.order@)
    }

    /// How many inline footnotes the body render has met.
    pub closed spec fn spec_inline_emitted(&self) -> nat {
        self.inline_emitted as nat
    }

    /// No id occurs twice in the order.
    pub closed spec fn wf(&self) -> bool {
        spec_distinct(self.spec_order())
    }

    /// Whether at least one footnote is referenced.
    pub fn has_any(&self) -> (r: bool)
        ensures
            r == (self.spec_order().len() > 0),
    {
        self.order.len() > 0
    }

    /// The 1-based display number of `id`: its position in first-reference
    /// order, or 0 when it is not referenced.
    pub fn number(&self, id: &str) -> (r: usize)
        requires
            self.wf(),
        ensures
            r == 0 <==> !self.spec_order().contains(encode_utf8(id@)),
            r > 0 ==> r <= self.spec_order().len() && self.spec_order()[r - 1] == encode_utf8(id@),
    {
        let key = id.as_bytes();
        let mut k: usize = 0;
        while k < self.order.len()
            invariant
                k <= self.order@.len(),
                key@ == encode_utf8(id@),
                forall|j: int| 0 <= j < k ==> self.spec_order()[j] != encode_utf8(id@),
            decreases self.order@.len() - k,
        {
            if bytes_equal(string_bytes(&self.order[k]), key) {
                proof {
                    assert(self.spec_order()[k as int] == encode_utf8(id@));
                }
                return k + 1;
            }
            k = k + 1;
        }
        0
    }

    /// Whether `id` is a referenced footnote with a definition.
    pub fn is_defined(&self, id: &str) -> (r: bool)
        requires
            self.wf(),
        ensures
            r == self.spec_order().contains(encode_utf8(id@)),
    {
        self.number(id) > 0
    }

    /// The id of the next inline footnote the body render meets: the body
    /// render meets them in the order the pre-pass did, so the N-th one gets
    /// `__inline_N` again.
    pub fn next_inline_id(&mut self) -> (r: String)
        requires
            old(self).spec_inline_emitted() < usize::MAX,
        ensures
            final(self).spec_inline_emitted() == old(self).spec_inline_emitted() + 1,
            final(self).spec_order() == old(self).spec_order(),
            encode_utf8(r@) == spec_inline_id(final(self).spec_inline_emitted()),
    {
        self.inline_emitted = self.inline_emitted + 1;
        inline_id(self.inline_emitted)
    }
}

/// The footnote pre-pass over a whole document: the definitions anywhere in
/// the tree first, then the references in document order.
pub fn build_footnotes(blocks: &[Block]) -> (r: FootnoteContext)
    ensures
        r.wf(),
        r.spec_order() == spec_referenced_ids(blocks@),
        r.spec_inline_emitted() == 0,
{
    let mut defined: Vec<String> = Vec::new();
    proof {
        assert(spec_string_ids(defined@) =~= Seq::<Seq<u8>>::empty());
    }
    collect_footnote_defs(blocks, &mut defined);
    let mut refs = RefBuilder { order: Vec::new(), defined, counter: 0 };
    proof {
        assert(spec_string_ids(refs.order@) =~= Seq::<Seq<u8>>::empty());
        assert forall|id: Seq<u8>| #[trigger] spec_string_ids(refs.defined@).contains(id) <==> spec_defined_now(
            blocks@,
            0,
            id,
        ) by {
            if exists|k: nat| 1 <= k <= 0 && id == #[trigger] spec_inline_id(k) {
                let k = choose|k: nat| 1 <= k <= 0 && id == #[trigger] spec_inline_id(k);
                assert(false);
            }
        }
    }
    refs.walk_blocks(blocks, Ghost(blocks@));
    FootnoteContext { order: refs.order, inline_emitted: 0 }
}

} // verus!
