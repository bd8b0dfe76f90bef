//! The binary encoding of patches sent to the frontend.
//!
//! All integers are little endian. A string or a byte array is its length as a
//! `u32` followed by its bytes (UTF-8 for strings). An id is `0` when empty, else
//! `1` followed by its 8 bytes. An option is `0` or `1` followed by its value.
use crate::blob::{opt_view, Blob, BlobView};
use crate::render::{bounded, component_dom, lemma_bounded_all, unique_components, RenderResult, RenderedComponent};
use crate::vdom::{Attr, EventHandler, Patch, PatchItem, PatchOp, VElement, VNode};
use crate::Id;
use std::sync::Arc;
use vstd::prelude::*;
use vstd::utf8::encode_utf8;

verus! {

/// The 4 little-endian bytes of `x`.
pub open spec fn u32_le(x: u32) -> Seq<u8> {
    seq![
        (x % 256) as u8,
        ((x / 256) % 256) as u8,
        ((x / 65536) % 256) as u8,
        (x / 16777216) as u8,
    ]
}

/// The 8 little-endian bytes of `x`.
pub open spec fn u64_le(x: u64) -> Seq<u8> {
    seq![
        (x % 256) as u8,
        ((x / 0x100) % 256) as u8,
        ((x / 0x10000) % 256) as u8,
        ((x / 0x1000000) % 256) as u8,
        ((x / 0x100000000) % 256) as u8,
        ((x / 0x10000000000) % 256) as u8,
        ((x / 0x1000000000000) % 256) as u8,
        (x / 0x100000000000000) as u8,
    ]
}

/// An id: `0` when empty, else `1` and its data.
pub open spec fn enc_id(id: u64) -> Seq<u8> {
    if id == 0 {
        seq![0u8]
    } else {
        seq![1u8] + u64_le(id)
    }
}

/// A byte array: its length as a `u32`, then its bytes.
pub open spec fn enc_bytes(b: Seq<u8>) -> Seq<u8> {
    u32_le(b.len() as u32) + b
}

/// A string: its UTF-8 bytes as a byte array.
pub open spec fn enc_str(s: Seq<char>) -> Seq<u8> {
    enc_bytes(encode_utf8(s))
}

/// A boolean as a byte.
pub open spec fn enc_bool(b: bool) -> u8 {
    if b {
        1
    } else {
        0
    }
}

/// An optional string.
pub open spec fn enc_opt_str(s: Option<Seq<char>>) -> Seq<u8> {
    match s {
        Some(x) => seq![1u8] + enc_str(x),
        None => seq![0u8],
    }
}

/// An event handler: its two flags, then its name.
pub open spec fn enc_handler(h: EventHandler) -> Seq<u8> {
    seq![enc_bool(h.no_propagate), enc_bool(h.prevent_default)] + enc_str(h.name@)
}

/// A list of attributes: key and value of each.
pub open spec fn enc_attrs(attrs: Seq<Attr>) -> Seq<u8>
    decreases attrs.len(),
{
    if attrs.len() == 0 {
        Seq::empty()
    } else {
        enc_attrs(attrs.drop_last()) + enc_str(attrs.last().key@) + enc_str(attrs.last().value@)
    }
}

/// A list of event handlers.
pub open spec fn enc_handlers(hs: Seq<EventHandler>) -> Seq<u8>
    decreases hs.len(),
{
    if hs.len() == 0 {
        Seq::empty()
    } else {
        enc_handlers(hs.drop_last()) + enc_handler(hs.last())
    }
}

/// The beginning of an element: `0`, its id, tag, attributes, event handlers
/// and number of children.
pub open spec fn enc_element_head(e: VElement) -> Seq<u8> {
    seq![0u8] + enc_id(e.id@) + enc_str(e.tag@) + u32_le(e.attr@.len() as u32) + enc_attrs(e.attr@)
        + u32_le(e.events@.len() as u32) + enc_handlers(e.events@) + u32_le(
        e.children@.len() as u32,
    )
}

/// A node. An element is `0`, its id, tag, attributes, event handlers,
/// children and namespace; a text is `1` and the text. A placeholder is
/// encoded as the DOM of its component.
pub open spec fn enc_node(comps: Seq<Arc<RenderedComponent>>, node: VNode, fuel: nat) -> Seq<u8>
    decreases fuel, node, 2nat,
{
    match node {
        VNode::Element(e) => enc_element_head(e) + enc_nodes(comps, e.children@, fuel)
            + enc_opt_str(opt_view(e.namespace)),
        VNode::Text(t) => seq![1u8] + enc_str(t@),
        VNode::Placeholder(id) => match component_dom(comps, id@) {
            Some(d) => if fuel > 0 {
                enc_node(comps, d, (fuel - 1) as nat)
            } else {
                Seq::empty()
            },
            None => Seq::empty(),
        },
    }
}

/// A list of nodes, one after the other.
pub open spec fn enc_nodes(comps: Seq<Arc<RenderedComponent>>, nodes: Seq<VNode>, fuel: nat) -> Seq<u8>
    decreases fuel, nodes, 0nat,
{
    if nodes.len() == 0 {
        Seq::empty()
    } else {
        enc_nodes(comps, nodes.drop_last(), fuel) + enc_node(comps, nodes.last(), fuel)
    }
}

/// A blob: its id, hash, mime-type and data.
pub open spec fn enc_blob(b: BlobView) -> Seq<u8> {
    enc_id(b.id) + u64_le(b.hash) + enc_str(b.mime_type) + enc_bytes(b.data)
}

/// The encoding of a node that may resolve every placeholder it holds.
pub open spec fn enc_full_node(comps: Seq<Arc<RenderedComponent>>, node: VNode) -> Seq<u8> {
    enc_node(comps, node, (comps.len() + 1) as nat)
}

/// One patch item: a tag byte, then its arguments.
pub open spec fn enc_op(comps: Seq<Arc<RenderedComponent>>, op: PatchOp) -> Seq<u8> {
    match op {
        PatchOp::AppendSibling(n) => seq![1u8] + enc_full_node(comps, n),
        PatchOp::Replace(n) => seq![3u8] + enc_full_node(comps, n),
        PatchOp::ChangeText(t) => seq![4u8] + enc_str(t),
        PatchOp::Ascend => seq![5u8],
        PatchOp::Descend => seq![6u8],
        PatchOp::RemoveChildren => seq![7u8],
        PatchOp::TruncateSiblings => seq![8u8],
        PatchOp::NextNode => seq![9u8],
        PatchOp::RemoveAttribute(k) => seq![10u8] + enc_str(k),
        PatchOp::AddAttribute(k, v) => seq![11u8] + enc_str(k) + enc_str(v),
        PatchOp::ReplaceAttribute(k, v) => seq![12u8] + enc_str(k) + enc_str(v),
        PatchOp::AddBlob(b) => seq![13u8] + enc_blob(b),
        PatchOp::RemoveBlob(id) => seq![14u8] + enc_id(id),
        PatchOp::RemoveJsEvent(k) => seq![15u8] + enc_str(k),
        PatchOp::AddJsEvent(k, v) => seq![16u8] + enc_str(k) + enc_str(v),
        PatchOp::ReplaceJsEvent(k, v) => seq![17u8] + enc_str(k) + enc_str(v),
    }
}

/// The value of 4 little-endian bytes.
pub open spec fn le32_val(b: Seq<u8>) -> int {
    b[0] as int + 256 * (b[1] as int) + 65536 * (b[2] as int) + 16777216 * (b[3] as int)
}

/// Reads a byte array: a length as 4 little-endian bytes, then that many
/// bytes; the bytes and what follows them.
pub open spec fn dec_bytes(b: Seq<u8>) -> Option<(Seq<u8>, Seq<u8>)> {
    if b.len() < 4 {
        None
    } else if b.len() < 4 + le32_val(b) {
        None
    } else {
        Some((b.subrange(4, 4 + le32_val(b)), b.skip(4 + le32_val(b))))
    }
}

/// A patch item as the frontend reads it back, for the items that carry no
/// node, blob or id: its tag and the bytes of its strings.
pub enum ReadItem {
    Bare(u8),
    Str(u8, Seq<u8>),
    Pair(u8, Seq<u8>, Seq<u8>),
}

/// Reads one patch item that carries no node, blob or id; the item and what
/// follows it.
pub open spec fn dec_item(b: Seq<u8>) -> Option<(ReadItem, Seq<u8>)> {
    if b.len() == 0 {
        None
    } else {
        let t = b[0];
        let r = b.skip(1);
        if 5 <= t <= 9 {
            Some((ReadItem::Bare(t), r))
        } else if t == 4 || t == 10 || t == 15 {
            match dec_bytes(r) {
                Some((x, r2)) => Some((ReadItem::Str(t, x), r2)),
                None => None,
            }
        } else if t == 11 || t == 12 || t == 16 || t == 17 {
            match dec_bytes(r) {
                Some((k, r2)) => match dec_bytes(r2) {
                    Some((v, r3)) => Some((ReadItem::Pair(t, k, v), r3)),
                    None => None,
                },
                None => None,
            }
        } else {
            None
        }
    }
}

/// What the frontend is to read for an item that carries no node, blob or id:
/// the item's tag of the protocol and the UTF-8 bytes of its strings, keys
/// before values.
pub open spec fn item_read_as(op: PatchOp) -> Option<ReadItem> {
    match op {
        PatchOp::ChangeText(t) => Some(ReadItem::Str(4, encode_utf8(t))),
        PatchOp::Ascend => Some(ReadItem::Bare(5)),
        PatchOp::Descend => Some(ReadItem::Bare(6)),
        PatchOp::RemoveChildren => Some(ReadItem::Bare(7)),
        PatchOp::TruncateSiblings => Some(ReadItem::Bare(8)),
        PatchOp::NextNode => Some(ReadItem::Bare(9)),
        PatchOp::RemoveAttribute(k) => Some(ReadItem::Str(10, encode_utf8(k))),
        PatchOp::AddAttribute(k, v) => Some(ReadItem::Pair(11, encode_utf8(k), encode_utf8(v))),
        PatchOp::ReplaceAttribute(k, v) => Some(ReadItem::Pair(12, encode_utf8(k), encode_utf8(v))),
        PatchOp::RemoveJsEvent(k) => Some(ReadItem::Str(15, encode_utf8(k))),
        PatchOp::AddJsEvent(k, v) => Some(ReadItem::Pair(16, encode_utf8(k), encode_utf8(v))),
        PatchOp::ReplaceJsEvent(k, v) => Some(ReadItem::Pair(17, encode_utf8(k), encode_utf8(v))),
        _ => None,
    }
}

/// The strings of an item are short enough for their length to fit in 4 bytes.
pub open spec fn item_strings_fit(op: PatchOp) -> bool {
    match op {
        PatchOp::ChangeText(t) => encode_utf8(t).len() < 0x1_0000_0000,
        PatchOp::RemoveAttribute(k) => encode_utf8(k).len() < 0x1_0000_0000,
        PatchOp::RemoveJsEvent(k) => encode_utf8(k).len() < 0x1_0000_0000,
        PatchOp::AddAttribute(k, v) => encode_utf8(k).len() < 0x1_0000_0000 && encode_utf8(v).len() < 0x1_0000_0000,
        PatchOp::ReplaceAttribute(k, v) => encode_utf8(k).len() < 0x1_0000_0000 && encode_utf8(v).len()
            < 0x1_0000_0000,
        PatchOp::AddJsEvent(k, v) => encode_utf8(k).len() < 0x1_0000_0000 && encode_utf8(v).len() < 0x1_0000_0000,
        PatchOp::ReplaceJsEvent(k, v) => encode_utf8(k).len() < 0x1_0000_0000 && encode_utf8(v).len()
            < 0x1_0000_0000,
        _ => true,
    }
}

/// The 4 bytes of a `u32` read back as that number.
pub proof fn lemma_u32_le(x: u32)
    ensures
        u32_le(x).len() == 4,
        le32_val(u32_le(x)) == x,
{
    assert((x % 256) + 256 * ((x / 256) % 256) + 65536 * ((x / 65536) % 256) + 16777216 * (x / 16777216) == x)
        by (bit_vector);
    assert(x / 16777216 < 256) by (bit_vector);
}

/// A byte array, followed by anything, reads back as the array and what
/// follows.
pub proof fn lemma_dec_bytes(b: Seq<u8>, rest: Seq<u8>)
    requires
        b.len() < 0x1_0000_0000,
    ensures
        dec_bytes(enc_bytes(b) + rest) == Some((b, rest)),
{
    let x = b.len() as u32;
    lemma_u32_le(x);
    let e = enc_bytes(b) + rest;
    assert(e.take(4) =~= u32_le(x));
    assert(le32_val(e) == le32_val(u32_le(x))) by {
        assert(e[0] == u32_le(x)[0] && e[1] == u32_le(x)[1] && e[2] == u32_le(x)[2] && e[3] == u32_le(x)[3]);
    }
    assert(e.subrange(4, 4 + b.len() as int) =~= b);
    assert(e.skip(4 + b.len() as int) =~= rest);
}

/// An item with one string reads back as its tag and the string's bytes.
proof fn lemma_str_item(t: u8, x: Seq<char>, rest: Seq<u8>)
    requires
        t == 4 || t == 10 || t == 15,
        encode_utf8(x).len() < 0x1_0000_0000,
    ensures
        dec_item(seq![t] + enc_str(x) + rest) == Some((ReadItem::Str(t, encode_utf8(x)), rest)),
{
    let e = seq![t] + enc_str(x) + rest;
    lemma_dec_bytes(encode_utf8(x), rest);
    assert(e.skip(1) =~= enc_bytes(encode_utf8(x)) + rest);
}

/// An item with a key and a value reads back as its tag and the bytes of the
/// key, then of the value.
proof fn lemma_pair_item(t: u8, k: Seq<char>, v: Seq<char>, rest: Seq<u8>)
    requires
        t == 11 || t == 12 || t == 16 || t == 17,
        encode_utf8(k).len() < 0x1_0000_0000,
        encode_utf8(v).len() < 0x1_0000_0000,
    ensures
        dec_item(seq![t] + enc_str(k) + enc_str(v) + rest) == Some(
            (ReadItem::Pair(t, encode_utf8(k), encode_utf8(v)), rest),
        ),
{
    let e = seq![t] + enc_str(k) + enc_str(v) + rest;
    lemma_dec_bytes(encode_utf8(v), rest);
    lemma_dec_bytes(encode_utf8(k), enc_bytes(encode_utf8(v)) + rest);
    assert(e.skip(1) =~= enc_bytes(encode_utf8(k)) + (enc_bytes(encode_utf8(v)) + rest));
}

/// An item that carries no node, blob or id reads back, whatever follows it,
/// as its tag and the bytes of its strings, keys before values, and leaves
/// what follows: the frontend reads exactly what the patch said.
pub proof fn lemma_item_reads_back(comps: Seq<Arc<RenderedComponent>>, op: PatchOp, rest: Seq<u8>)
    requires
        item_read_as(op) is Some,
        item_strings_fit(op),
    ensures
        dec_item(enc_op(comps, op) + rest) == Some((item_read_as(op).unwrap(), rest)),
{
    match op {
        PatchOp::ChangeText(x) => {
            assert(enc_op(comps, op) == seq![4u8] + enc_str(x));
            lemma_str_item(4, x, rest);
        },
        PatchOp::RemoveAttribute(x) => {
            assert(enc_op(comps, op) == seq![10u8] + enc_str(x));
            lemma_str_item(10, x, rest);
        },
        PatchOp::RemoveJsEvent(x) => {
            assert(enc_op(comps, op) == seq![15u8] + enc_str(x));
            lemma_str_item(15, x, rest);
        },
        PatchOp::AddAttribute(k, v) => {
            assert(enc_op(comps, op) == seq![11u8] + enc_str(k) + enc_str(v));
            lemma_pair_item(11, k, v, rest);
        },
        PatchOp::ReplaceAttribute(k, v) => {
            assert(enc_op(comps, op) == seq![12u8] + enc_str(k) + enc_str(v));
            lemma_pair_item(12, k, v, rest);
        },
        PatchOp::AddJsEvent(k, v) => {
            assert(enc_op(comps, op) == seq![16u8] + enc_str(k) + enc_str(v));
            lemma_pair_item(16, k, v, rest);
        },
        PatchOp::ReplaceJsEvent(k, v) => {
            assert(enc_op(comps, op) == seq![17u8] + enc_str(k) + enc_str(v));
            lemma_pair_item(17, k, v, rest);
        },
        PatchOp::Ascend => lemma_bare_item(5, rest),
        PatchOp::Descend => lemma_bare_item(6, rest),
        PatchOp::RemoveChildren => lemma_bare_item(7, rest),
        PatchOp::TruncateSiblings => lemma_bare_item(8, rest),
        PatchOp::NextNode => lemma_bare_item(9, rest),
        _ => {},
    }
}

/// An item without payload reads back as its tag.
proof fn lemma_bare_item(t: u8, rest: Seq<u8>)
    requires
        5 <= t <= 9,
    ensures
        dec_item(seq![t] + rest) == Some((ReadItem::Bare(t), rest)),
{
    assert((seq![t] + rest).skip(1) =~= rest);
}

/// A list of patch items, one after the other.
pub open spec fn enc_ops(comps: Seq<Arc<RenderedComponent>>, ops: Seq<PatchOp>) -> Seq<u8>
    decreases ops.len(),
{
    if ops.len() == 0 {
        Seq::empty()
    } else {
        enc_ops(comps, ops.drop_last()) + enc_op(comps, ops.last())
    }
}

/// Reads `n` patch items that carry no node, blob or id, one after the other;
/// the items and what follows them.
pub open spec fn read_items(b: Seq<u8>, n: nat) -> Option<(Seq<ReadItem>, Seq<u8>)>
    decreases n,
{
    if n == 0 {
        Some((Seq::empty(), b))
    } else {
        match dec_item(b) {
            Some((it, r)) => match read_items(r, (n - 1) as nat) {
                Some((its, r2)) => Some((seq![it] + its, r2)),
                None => None,
            },
            None => None,
        }
    }
}

/// Reading `n` items reads the first, then `n - 1` from what follows it.
proof fn lemma_read_step(b: Seq<u8>, n: nat, it: ReadItem, r: Seq<u8>)
    requires
        n > 0,
        dec_item(b) == Some((it, r)),
    ensures
        read_items(b, n) == match read_items(r, (n - 1) as nat) {
            Some((its, r2)) => Some((seq![it] + its, r2)),
            None => None,
        },
{
}

/// The encoding of a list of items is that of the first, then that of the rest.
proof fn lemma_enc_ops_first(comps: Seq<Arc<RenderedComponent>>, ops: Seq<PatchOp>)
    requires
        ops.len() > 0,
    ensures
        enc_ops(comps, ops) == enc_op(comps, ops[0]) + enc_ops(comps, ops.drop_first()),
    decreases ops.len(),
{
    if ops.len() == 1 {
        assert(ops.drop_first() =~= Seq::<PatchOp>::empty());
        assert(ops.drop_last() =~= Seq::<PatchOp>::empty());
        assert(enc_ops(comps, ops.drop_last()) == Seq::<u8>::empty());
        assert(ops.last() == ops[0]);
        assert(enc_ops(comps, ops) == enc_ops(comps, ops.drop_last()) + enc_op(comps, ops.last()));
        assert(enc_ops(comps, ops.drop_first()) == Seq::<u8>::empty());
        assert(enc_ops(comps, ops) =~= enc_op(comps, ops[0]) + enc_ops(comps, ops.drop_first()));
    } else {
        lemma_enc_ops_first(comps, ops.drop_last());
        assert(ops.drop_last().drop_first() =~= ops.drop_first().drop_last());
        assert(ops.drop_first().last() == ops.last());
        assert(ops.drop_last()[0] == ops[0]);
        assert(enc_ops(comps, ops) =~= enc_op(comps, ops[0]) + enc_ops(comps, ops.drop_first()));
    }
}

/// A patch whose items carry no node, blob or id reads back, whatever follows
/// it, item after item, as exactly its items: their tags and the bytes of
/// their strings, in order.
#[verifier::rlimit(50)]
pub proof fn lemma_items_read_back(comps: Seq<Arc<RenderedComponent>>, ops: Seq<PatchOp>, rest: Seq<u8>)
    requires
        forall|i: int| 0 <= i < ops.len() ==> (#[trigger] item_read_as(ops[i])) is Some && item_strings_fit(ops[i]),
    ensures
        read_items(enc_ops(comps, ops) + rest, ops.len()) == Some(
            (ops.map_values(|op: PatchOp| item_read_as(op).unwrap()), rest),
        ),
    decreases ops.len(),
{
    if ops.len() == 0 {
        assert(enc_ops(comps, ops) + rest =~= rest);
        assert(ops.map_values(|op: PatchOp| item_read_as(op).unwrap()) =~= Seq::<ReadItem>::empty());
    } else {
        let tail = ops.drop_first();
        assert forall|i: int| 0 <= i < tail.len() implies (#[trigger] item_read_as(tail[i])) is Some && item_strings_fit(tail[i]) by {
            assert(tail[i] == ops[i + 1]);
            assert(item_read_as(ops[i + 1]) is Some);
        }
        lemma_items_read_back(comps, tail, rest);
        lemma_enc_ops_first(comps, ops);
        assert(item_read_as(ops[0]) is Some);
        lemma_item_reads_back(comps, ops[0], enc_ops(comps, tail) + rest);
        assert(enc_ops(comps, ops) + rest =~= enc_op(comps, ops[0]) + (enc_ops(comps, tail) + rest));
        lemma_read_step(enc_ops(comps, ops) + rest, ops.len(), item_read_as(ops[0]).unwrap(), enc_ops(comps, tail) + rest);
        assert(ops.map_values(|op: PatchOp| item_read_as(op).unwrap()) =~= seq![item_read_as(ops[0]).unwrap()]
            + tail.map_values(|op: PatchOp| item_read_as(op).unwrap()));
    }
}

/// Every node a patch item refers to resolves all of its placeholders.
pub open spec fn op_resolvable(comps: Seq<Arc<RenderedComponent>>, op: PatchOp) -> bool {
    match op {
        PatchOp::AppendSibling(n) => bounded(comps, n, 0),
        PatchOp::Replace(n) => bounded(comps, n, 0),
        _ => true,
    }
}

/// Appends bytes to the output.
fn push_bytes(output: &mut Vec<u8>, bytes: &[u8])
    ensures
        final(output)@ == old(output)@ + bytes@,
{
    let mut i: usize = 0;
    while i < bytes.len()
        invariant
            i <= bytes@.len(),
            output@ == old(output)@ + bytes@.take(i as int),
        decreases bytes@.len() - i,
    {
        output.push(bytes[i]);
        i += 1;
        assert(output@ =~= old(output)@ + bytes@.take(i as int));
    }
    assert(bytes@.take(bytes@.len() as int) =~= bytes@);
}

/// Appends a `u32`.
fn serialize_u32(x: u32, output: &mut Vec<u8>)
    ensures
        final(output)@ == old(output)@ + u32_le(x),
{
    output.push((x % 256) as u8);
    output.push(((x / 256) % 256) as u8);
    output.push(((x / 65536) % 256) as u8);
    output.push((x / 16777216) as u8);
    assert(output@ =~= old(output)@ + u32_le(x));
}

/// Appends a `u64`.
fn serialize_u64(x: u64, output: &mut Vec<u8>)
    ensures
        final(output)@ == old(output)@ + u64_le(x),
{
    output.push((x % 256) as u8);
    output.push(((x / 0x100) % 256) as u8);
    output.push(((x / 0x10000) % 256) as u8);
    output.push(((x / 0x1000000) % 256) as u8);
    output.push(((x / 0x100000000) % 256) as u8);
    output.push(((x / 0x10000000000) % 256) as u8);
    output.push(((x / 0x1000000000000) % 256) as u8);
    output.push((x / 0x100000000000000) as u8);
    assert(output@ =~= old(output)@ + u64_le(x));
}

/// Appends an id.
fn serialize_id(id: Id, output: &mut Vec<u8>)
    ensures
        final(output)@ == old(output)@ + enc_id(id@),
{
    if id.is_empty() {
        output.push(0);
        assert(output@ =~= old(output)@ + enc_id(id@));
    } else {
        output.push(1);
        serialize_u64(id.data(), output);
        assert(output@ =~= old(output)@ + enc_id(id@));
    }
}

/// Appends a byte array.
fn serialize_bytes(data: &[u8], output: &mut Vec<u8>)
    ensures
        final(output)@ == old(output)@ + enc_bytes(data@),
{
    serialize_u32(data.len() as u32, output);
    push_bytes(output, data);
    assert(output@ =~= old(output)@ + enc_bytes(data@));
}

/// Appends a string.
fn serialize_str(s: &str, output: &mut Vec<u8>)
    ensures
        final(output)@ == old(output)@ + enc_str(s@),
{
    serialize_bytes(s.as_bytes(), output);
}

/// Appends an optional string.
fn serialize_opt_str(s: &Option<String>, output: &mut Vec<u8>)
    ensures
        final(output)@ == old(output)@ + enc_opt_str(opt_view(*s)),
{
    match s {
        Some(x) => {
            output.push(1);
            serialize_str(x.as_str(), output);
            assert(output@ =~= old(output)@ + enc_opt_str(opt_view(*s)));
        },
        None => {
            output.push(0);
            assert(output@ =~= old(output)@ + enc_opt_str(opt_view(*s)));
        },
    }
}

/// Appends an event handler.
fn serialize_handler(h: &EventHandler, output: &mut Vec<u8>)
    ensures
        final(output)@ == old(output)@ + enc_handler(*h),
{
    output.push(if h.no_propagate { 1 } else { 0 });
    output.push(if h.prevent_default { 1 } else { 0 });
    serialize_str(h.name.as_str(), output);
    assert(output@ =~= old(output)@ + enc_handler(*h));
}

/// Appends a blob.
fn serialize_blob(blob: &Blob, output: &mut Vec<u8>)
    ensures
        final(output)@ == old(output)@ + enc_blob(blob@),
{
    serialize_id(blob.id(), output);
    serialize_u64(blob.hash(), output);
    serialize_str(blob.mime_type(), output);
    serialize_bytes(blob.data().as_slice(), output);
    assert(output@ =~= old(output)@ + enc_blob(blob@));
}

/// Appends a list of attributes.
fn serialize_attrs(attrs: &Vec<Attr>, output: &mut Vec<u8>)
    ensures
        final(output)@ == old(output)@ + enc_attrs(attrs@),
{
    let mut k: usize = 0;
    assert(attrs@.take(0) =~= Seq::<Attr>::empty());
    assert(old(output)@ + Seq::<u8>::empty() =~= old(output)@);
    while k < attrs.len()
        invariant
            k <= attrs@.len(),
            output@ == old(output)@ + enc_attrs(attrs@.take(k as int)),
        decreases attrs@.len() - k,
    {
        let ghost prev = output@;
        serialize_str(attrs[k].key.as_str(), output);
        serialize_str(attrs[k].value.as_str(), output);
        assert(attrs@.take(k + 1).drop_last() =~= attrs@.take(k as int));
        assert(output@ =~= old(output)@ + enc_attrs(attrs@.take(k + 1)));
        k += 1;
    }
    assert(attrs@.take(attrs@.len() as int) =~= attrs@);
}

/// Appends a list of event handlers.
fn serialize_handlers(hs: &Vec<EventHandler>, output: &mut Vec<u8>)
    ensures
        final(output)@ == old(output)@ + enc_handlers(hs@),
{
    let mut k: usize = 0;
    assert(hs@.take(0) =~= Seq::<EventHandler>::empty());
    assert(old(output)@ + Seq::<u8>::empty() =~= old(output)@);
    while k < hs.len()
        invariant
            k <= hs@.len(),
            output@ == old(output)@ + enc_handlers(hs@.take(k as int)),
        decreases hs@.len() - k,
    {
        serialize_handler(&hs[k], output);
        assert(hs@.take(k + 1).drop_last() =~= hs@.take(k as int));
        assert(output@ =~= old(output)@ + enc_handlers(hs@.take(k + 1)));
        k += 1;
    }
    assert(hs@.take(hs@.len() as int) =~= hs@);
}

/// Appends a list of nodes.
fn serialize_children(
    rendered: &RenderResult,
    children: &Vec<VNode>,
    output: &mut Vec<u8>,
    Ghost(lo): Ghost<int>,
    Ghost(fuel): Ghost<nat>,
)
    requires
        rendered.wf(),
        0 <= lo,
        fuel >= rendered.components@.len() - lo + 1,
        forall|i: int|
            0 <= i < children@.len() ==> #[trigger] bounded(
                rendered.components@,
                children@[i],
                lo,
            ),
    ensures
        final(output)@ == old(output)@ + enc_nodes(rendered.components@, children@, fuel),
    decreases fuel, children@, 0nat,
{
    let ghost comps = rendered.components@;
    let mut k: usize = 0;
    assert(children@.take(0) =~= Seq::<VNode>::empty());
    assert(old(output)@ + Seq::<u8>::empty() =~= old(output)@);
    while k < children.len()
        invariant
            rendered.wf(),
            0 <= lo,
            fuel >= comps.len() - lo + 1,
            comps == rendered.components@,
            forall|i: int|
                0 <= i < children@.len() ==> #[trigger] bounded(comps, children@[i], lo),
            k <= children@.len(),
            output@ == old(output)@ + enc_nodes(comps, children@.take(k as int), fuel),
        decreases children@.len() - k,
    {
        serialize_node(rendered, &children[k], output, Ghost(lo), Ghost(fuel));
        assert(children@.take(k + 1).drop_last() =~= children@.take(k as int));
        assert(children@.take(k + 1).last() == children@[k as int]);
        assert(output@ =~= old(output)@ + enc_nodes(comps, children@.take(k + 1), fuel));
        k += 1;
    }
    assert(children@.take(children@.len() as int) =~= children@);
}

/// Appends an element.
fn serialize_element(
    rendered: &RenderResult,
    elem: &VElement,
    output: &mut Vec<u8>,
    Ghost(lo): Ghost<int>,
    Ghost(fuel): Ghost<nat>,
)
    requires
        rendered.wf(),
        0 <= lo,
        fuel >= rendered.components@.len() - lo + 1,
        bounded(rendered.components@, VNode::Element(*elem), lo),
    ensures
        final(output)@ == old(output)@ + enc_node(rendered.components@, VNode::Element(*elem), fuel),
    decreases fuel, *elem, 1nat,
{
    proof {
        lemma_bounded_all(rendered.components@, elem.children@, lo);
    }
    let ghost o0 = output@;
    output.push(0);
    serialize_id(elem.id, output);
    serialize_str(elem.tag.as_str(), output);
    serialize_u32(#[verifier::truncate] (elem.attr.len() as u32), output);
    serialize_attrs(&elem.attr, output);
    serialize_u32(#[verifier::truncate] (elem.events.len() as u32), output);
    serialize_handlers(&elem.events, output);
    serialize_u32(#[verifier::truncate] (elem.children.len() as u32), output);
    assert(output@ =~= o0 + enc_element_head(*elem));
    let ghost o1 = output@;
    serialize_children(rendered, &elem.children, output, Ghost(lo), Ghost(fuel));
    let ghost o2 = output@;
    serialize_opt_str(&elem.namespace, output);
    assert(output@ =~= o0 + (enc_element_head(*elem) + enc_nodes(
        rendered.components@,
        elem.children@,
        fuel,
    ) + enc_opt_str(opt_view(elem.namespace))));
}

/// Appends a node; placeholders are replaced by the DOMs of their components.
fn serialize_node(
    rendered: &RenderResult,
    node: &VNode,
    output: &mut Vec<u8>,
    Ghost(lo): Ghost<int>,
    Ghost(fuel): Ghost<nat>,
)
    requires
        rendered.wf(),
        0 <= lo,
        fuel >= rendered.components@.len() - lo + 1,
        bounded(rendered.components@, *node, lo),
    ensures
        final(output)@ == old(output)@ + enc_node(rendered.components@, *node, fuel),
    decreases fuel, *node, 2nat,
{
    let ghost comps = rendered.components@;
    match node {
        VNode::Element(elem) => {
            serialize_element(rendered, elem, output, Ghost(lo), Ghost(fuel));
        },
        VNode::Text(text) => {
            output.push(1);
            serialize_str(text.as_str(), output);
            assert(output@ =~= old(output)@ + enc_node(comps, *node, fuel));
        },
        VNode::Placeholder(id) => {
            let ghost j = choose|j: int| 0 <= j < comps.len() && (#[trigger] comps[j]).id@ == id@;
            proof {
                let w = choose|w: int| lo <= w < comps.len() && (#[trigger] comps[w]).id@ == id@;
                assert(w == j);
                assert(bounded(comps, comps[j].vdom, j + 1));
            }
            let vdom = rendered.get_component_vdom(*id).unwrap();
            serialize_node(rendered, vdom, output, Ghost(j + 1), Ghost((fuel - 1) as nat));
        },
    }
}

/// Encodes a patch for the frontend. Placeholders in the nodes the patch refers
/// to are replaced by the DOMs of their components in `rendered`.
pub fn serialize(rendered: &RenderResult, patch: &Patch) -> (res: Vec<u8>)
    requires
        rendered.wf(),
        forall|i: int|
            0 <= i < patch@.items.len() ==> op_resolvable(
                rendered.components@,
                #[trigger] patch@.items[i],
            ),
    ensures
        res@ == enc_ops(rendered.components@, patch@.items),
{
    let ghost comps = rendered.components@;
    let ghost ops = patch@.items;
    let ghost fuel = (comps.len() + 1) as nat;
    let mut output: Vec<u8> = Vec::new();
    let mut k: usize = 0;
    assert(ops.take(0) =~= Seq::<PatchOp>::empty());
    assert(output@ =~= enc_ops(comps, ops.take(0)));
    while k < patch.items.len()
        invariant
            rendered.wf(),
            comps == rendered.components@,
            fuel == comps.len() + 1,
            ops == patch@.items,
            ops.len() == patch.items@.len(),
            forall|i: int| 0 <= i < ops.len() ==> op_resolvable(comps, #[trigger] ops[i]),
            k <= ops.len(),
            output@ == enc_ops(comps, ops.take(k as int)),
        decreases ops.len() - k,
    {
        let ghost prev = output@;
        let item = &patch.items[k];
        assert(ops[k as int] == item@);
        assert(op_resolvable(comps, ops[k as int]));
        match item {
            PatchItem::AppendSibling(node) => {
                output.push(1);
                serialize_node(rendered, node, &mut output, Ghost(0), Ghost(fuel));
            },
            PatchItem::Replace(node) => {
                output.push(3);
                serialize_node(rendered, node, &mut output, Ghost(0), Ghost(fuel));
            },
            PatchItem::ChangeText(text) => {
                output.push(4);
                serialize_str(text, &mut output);
            },
            PatchItem::Ascend() => {
                output.push(5);
            },
            PatchItem::Descend() => {
                output.push(6);
            },
            PatchItem::RemoveChildren() => {
                output.push(7);
            },
            PatchItem::TruncateSiblings() => {
                output.push(8);
            },
            PatchItem::NextNode() => {
                output.push(9);
            },
            PatchItem::RemoveAttribute(key) => {
                output.push(10);
                serialize_str(key, &mut output);
            },
            PatchItem::AddAtrribute(key, value) => {
                output.push(11);
                serialize_str(key, &mut output);
                serialize_str(value, &mut output);
            },
            PatchItem::ReplaceAttribute(key, value) => {
                output.push(12);
                serialize_str(key, &mut output);
                serialize_str(value, &mut output);
            },
            PatchItem::AddBlob(blob) => {
                output.push(13);
                serialize_blob(blob, &mut output);
            },
            PatchItem::RemoveBlob(blob_id) => {
                output.push(14);
                serialize_id(*blob_id, &mut output);
            },
            PatchItem::RemoveJsEvent(key) => {
                output.push(15);
                serialize_str(key, &mut output);
            },
            PatchItem::AddJsEvent(key, value) => {
                output.push(16);
                serialize_str(key, &mut output);
                serialize_str(value, &mut output);
            },
            PatchItem::ReplaceJsEvent(key, value) => {
                output.push(17);
                serialize_str(key, &mut output);
                serialize_str(value, &mut output);
            },
        }
        assert(ops.take(k + 1).drop_last() =~= ops.take(k as int));
        assert(ops.take(k + 1).last() == ops[k as int]);
        assert(output@ =~= prev + enc_op(comps, ops[k as int]));
        k += 1;
    }
    assert(ops.take(ops.len() as int) =~= ops);
    output
}

} // verus!