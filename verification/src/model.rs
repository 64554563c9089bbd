//! The shared chunk model: the rules that interpret a byte span as a chunk
//! header, classify a chunk, and locate its content and its children.
//!
//! Both the reader and the builder are specified against the functions in
//! this module, so that the two sides agree on one definition of the wire
//! format.  The laws at the end relate encoding and parsing.

use vstd::prelude::*;

use crate::FourCC;
use vstd::bytes::spec_u32_from_le_bytes;
use vstd::bytes::spec_u32_to_le_bytes;

verus! {

/// The bytes of the `RIFF` identifier, which opens a typed container.
pub open spec fn riff_id() -> Seq<u8> {
    seq![0x52u8, 0x49u8, 0x46u8, 0x46u8]
}

/// The bytes of the `LIST` identifier, which opens a typed container.
pub open spec fn list_id() -> Seq<u8> {
    seq![0x4cu8, 0x49u8, 0x53u8, 0x54u8]
}

/// The bytes of the `seqt` identifier, which opens an untyped container.
pub open spec fn seqt_id() -> Seq<u8> {
    seq![0x73u8, 0x65u8, 0x71u8, 0x74u8]
}

/// How a chunk's payload is to be read, decided by its identifier alone.
#[derive(Debug, Clone, Copy, PartialEq, Eq, Structural)]
pub enum ChunkClass {
    /// The payload opens with a four-byte form type; the rest is child chunks.
    TypedContainer,
    /// The whole payload is child chunks.
    UntypedContainer,
    /// The whole payload is raw content.
    Leaf,
}

/// Classifies an identifier: `RIFF` and `LIST` open typed containers, `seqt`
/// opens an untyped container, and every other identifier marks a leaf.
pub open spec fn spec_classify(id: Seq<u8>) -> ChunkClass {
    if id == riff_id() || id == list_id() {
        ChunkClass::TypedContainer
    } else if id == seqt_id() {
        ChunkClass::UntypedContainer
    } else {
        ChunkClass::Leaf
    }
}

/// Where a chunk's content begins, counted from the chunk's first byte: after
/// the eight-byte header, plus four more for a typed container's form type.
pub open spec fn spec_content_offset(class: ChunkClass) -> int {
    if class is TypedContainer {
        12
    } else {
        8
    }
}

/// The declared payload length, read as 32-bit little-endian from the fifth
/// through eighth byte of a chunk.
pub open spec fn spec_payload_len(chunk: Seq<u8>) -> int {
    spec_u32_from_le_bytes(chunk.subrange(4, 8)) as int
}

/// One zero byte follows every odd payload on the wire, so that each chunk
/// occupies an even number of bytes.
pub open spec fn spec_pad_len(payload_len: int) -> int {
    payload_len % 2
}

/// Moves a cursor past one child chunk: its header, its payload, and its pad.
pub open spec fn spec_advance(cursor: int, payload_len: int) -> int {
    cursor + 8 + payload_len + spec_pad_len(payload_len)
}

impl FourCC {
    /// Classifies this identifier by exact byte comparison.
    pub fn classify(&self) -> (c: ChunkClass)
        ensures
            c == spec_classify(self@),
    {
        let b = self.as_bytes();
        if b[0] == 0x52 && b[1] == 0x49 && b[2] == 0x46 && b[3] == 0x46 {
            assert(self@ =~= riff_id());
            ChunkClass::TypedContainer
        } else if b[0] == 0x4c && b[1] == 0x49 && b[2] == 0x53 && b[3] == 0x54 {
            assert(self@ =~= list_id());
            ChunkClass::TypedContainer
        } else if b[0] == 0x73 && b[1] == 0x65 && b[2] == 0x71 && b[3] == 0x74 {
            assert(self@ =~= seqt_id());
            ChunkClass::UntypedContainer
        } else {
            assert(self@ != riff_id() && self@ != list_id() && self@ != seqt_id());
            ChunkClass::Leaf
        }
    }
}

/// Where a chunk's content begins, as executable code.
pub fn content_offset(class: ChunkClass) -> (r: u64)
    ensures
        r == spec_content_offset(class),
{
    match class {
        ChunkClass::TypedContainer => 12,
        _ => 8,
    }
}

/// Moves a cursor past one child chunk, as executable code.
pub fn advance(cursor: u64, payload_len: u32) -> (r: u64)
    requires
        spec_advance(cursor as int, payload_len as int) <= u64::MAX,
    ensures
        r == spec_advance(cursor as int, payload_len as int),
{
    cursor + 8 + payload_len as u64 + (payload_len % 2) as u64
}

/// Where iteration over a chunk's children starts and ends, as absolute
/// positions: the content offset past the header, to the end of the payload.
/// A typed container's four form-type bytes count toward its payload length
/// but never hold children, so they are left out of the span.
pub open spec fn spec_iteration_bounds(pos: int, payload_len: int, class: ChunkClass) -> (int, int) {
    let start = pos + spec_content_offset(class);
    let end = start + payload_len - if class is TypedContainer {
        4int
    } else {
        0int
    };
    (start, end)
}

/// Where iteration over a chunk's children starts and ends, as executable code.
pub fn iteration_bounds(pos: u64, payload_len: u32, class: ChunkClass) -> (r: (u64, u64))
    requires
        class is TypedContainer ==> payload_len >= 4,
        pos + spec_content_offset(class) + payload_len <= u64::MAX,
    ensures
        (r.0 as int, r.1 as int) == spec_iteration_bounds(pos as int, payload_len as int, class),
{
    let start = pos + content_offset(class);
    let end = match class {
        ChunkClass::TypedContainer => start + payload_len as u64 - 4,
        _ => start + payload_len as u64,
    };
    (start, end)
}

/// The abstract shape of a chunk: what a byte span means once the wire
/// details of lengths and padding are stripped away.
pub enum ChunkTree {
    /// A chunk whose payload is raw content.
    Leaf { id: Seq<u8>, content: Seq<u8> },
    /// A chunk whose payload is a form type followed by child chunks.
    Typed { id: Seq<u8>, form: Seq<u8>, children: Seq<ChunkTree> },
    /// A chunk whose payload is child chunks alone.
    Untyped { id: Seq<u8>, children: Seq<ChunkTree> },
}

/// The declared payload length of a tree node: the content of a leaf, or the
/// form type (for a typed container) plus the encoded sizes of the children.
/// Pad bytes of the node itself are never counted; pad bytes of the children
/// are, because they lie inside the parent's payload.
pub open spec fn payload_of(t: ChunkTree) -> int
    decreases t, 1int,
{
    match t {
        ChunkTree::Leaf { content, .. } => content.len() as int,
        ChunkTree::Typed { children, .. } => 4 + children_size(children),
        ChunkTree::Untyped { children, .. } => children_size(children),
    }
}

/// How many bytes a node occupies on the wire: header, payload, and pad.
pub open spec fn encoded_size_of(t: ChunkTree) -> int
    decreases t, 2int,
{
    8 + payload_of(t) + spec_pad_len(payload_of(t))
}

/// How many bytes a sequence of sibling chunks occupies on the wire.
pub open spec fn children_size(ts: Seq<ChunkTree>) -> int
    decreases ts, 0int,
{
    if ts.len() == 0 {
        0
    } else {
        encoded_size_of(ts[0]) + children_size(ts.drop_first())
    }
}

/// The pad that follows a payload on the wire: one zero byte when the
/// payload length is odd, nothing when it is even.
pub open spec fn spec_pad_bytes(payload_len: int) -> Seq<u8> {
    if payload_len % 2 == 1 {
        seq![0u8]
    } else {
        Seq::<u8>::empty()
    }
}

/// A node's encoding without its own trailing pad: identifier, little-endian
/// payload length, and the payload itself.
pub open spec fn encode_core(t: ChunkTree) -> Seq<u8>
    decreases t, 1int,
{
    match t {
        ChunkTree::Leaf { id, content } => id + spec_u32_to_le_bytes(content.len() as u32)
            + content,
        ChunkTree::Typed { id, form, children } => id + spec_u32_to_le_bytes(
            (4 + children_size(children)) as u32,
        ) + form + encode_children(children),
        ChunkTree::Untyped { id, children } => id + spec_u32_to_le_bytes(
            children_size(children) as u32,
        ) + encode_children(children),
    }
}

/// A node's full wire encoding, trailing pad included.
pub open spec fn encode_chunk(t: ChunkTree) -> Seq<u8>
    decreases t, 2int,
{
    encode_core(t) + spec_pad_bytes(payload_of(t))
}

/// The wire encoding of a sequence of sibling chunks.
pub open spec fn encode_children(ts: Seq<ChunkTree>) -> Seq<u8>
    decreases ts, 0int,
{
    if ts.len() == 0 {
        Seq::<u8>::empty()
    } else {
        encode_chunk(ts[0]) + encode_children(ts.drop_first())
    }
}

/// A valid tree node: the identifier's classification agrees with the node's
/// shape, identifiers and form types hold four bytes, and every payload
/// length fits the 32-bit length field.
pub open spec fn wf_tree(t: ChunkTree) -> bool
    decreases t, 1int,
{
    match t {
        ChunkTree::Leaf { id, content } => id.len() == 4 && spec_classify(id) is Leaf
            && content.len() <= u32::MAX,
        ChunkTree::Typed { id, form, children } => id.len() == 4 && spec_classify(
            id,
        ) is TypedContainer && form.len() == 4 && wf_children(children) && 4 + children_size(
            children,
        ) <= u32::MAX,
        ChunkTree::Untyped { id, children } => id.len() == 4 && spec_classify(
            id,
        ) is UntypedContainer && wf_children(children) && children_size(children) <= u32::MAX,
    }
}

/// Validity of a sequence of sibling nodes.
pub open spec fn wf_children(ts: Seq<ChunkTree>) -> bool
    decreases ts, 0int,
{
    ts.len() == 0 || (wf_tree(ts[0]) && wf_children(ts.drop_first()))
}

/// Parses one chunk from a byte span that must hold exactly the chunk's
/// header and payload (a trailing pad, if any, is the parent's business).
/// `None` marks a malformed span.
pub open spec fn parse_chunk(chunk: Seq<u8>) -> Option<ChunkTree>
    decreases chunk.len(), 0int,
{
    if chunk.len() < 8 {
        None
    } else {
        let plen = spec_payload_len(chunk);
        if chunk.len() != 8 + plen {
            None
        } else {
            let id = chunk.subrange(0, 4);
            match spec_classify(id) {
                ChunkClass::Leaf => Some(
                    ChunkTree::Leaf { id, content: chunk.subrange(8, 8 + plen) },
                ),
                ChunkClass::TypedContainer => if plen < 4 {
                    None
                } else {
                    match parse_children_from(chunk.subrange(12, 8 + plen), 0) {
                        Some(children) => Some(
                            ChunkTree::Typed { id, form: chunk.subrange(8, 12), children },
                        ),
                        None => None,
                    }
                },
                ChunkClass::UntypedContainer => match parse_children_from(
                    chunk.subrange(8, 8 + plen),
                    0,
                ) {
                    Some(children) => Some(ChunkTree::Untyped { id, children }),
                    None => None,
                },
            }
        }
    }
}

/// The payload length a child chunk at `pos` declares.
pub open spec fn child_payload_at(region: Seq<u8>, pos: int) -> int {
    spec_u32_from_le_bytes(region.subrange(pos + 4, pos + 8)) as int
}

/// Whether a child chunk at `pos` fits the region: its header is present
/// and its span — header, payload, pad — ends at or before the region's end.
pub open spec fn child_ok_at(region: Seq<u8>, pos: int) -> bool {
    &&& pos + 8 <= region.len()
    &&& spec_advance(pos, child_payload_at(region, pos)) <= region.len()
}

/// Parses the sibling chunks that fill `region` from `pos` to the region's
/// end.  Each child must lie entirely inside the region, pad included, and
/// the last child must end exactly at the region's end.
pub open spec fn parse_children_from(region: Seq<u8>, pos: int) -> Option<Seq<ChunkTree>>
    decreases region.len() - pos, 1int,
        when 0 <= pos <= region.len()
{
    if pos == region.len() {
        Some(Seq::<ChunkTree>::empty())
    } else if pos + 8 > region.len() {
        None
    } else {
        let plen = child_payload_at(region, pos);
        let next = spec_advance(pos, plen);
        if next > region.len() {
            None
        } else {
            match (parse_chunk(region.subrange(pos, pos + 8 + plen)), parse_children_from(
                region,
                next,
            )) {
                (Some(t), Some(rest)) => Some(seq![t] + rest),
                _ => None,
            }
        }
    }
}

/// Payload lengths and encoded sizes are never negative.
pub proof fn lemma_size_nonneg(t: ChunkTree)
    ensures
        payload_of(t) >= 0,
        encoded_size_of(t) >= 8,
    decreases t, 1int,
{
    match t {
        ChunkTree::Leaf { .. } => {},
        ChunkTree::Typed { children, .. } => lemma_children_size_nonneg(children),
        ChunkTree::Untyped { children, .. } => lemma_children_size_nonneg(children),
    }
}

/// The summed size of a run of siblings is never negative.
pub proof fn lemma_children_size_nonneg(ts: Seq<ChunkTree>)
    ensures
        children_size(ts) >= 0,
    decreases ts, 0int,
{
    if ts.len() > 0 {
        lemma_size_nonneg(ts[0]);
        lemma_children_size_nonneg(ts.drop_first());
    }
}

/// A valid node's encoding is as long as its size says: eight header bytes
/// plus the payload for the core, plus the pad for the full encoding.
pub proof fn lemma_sizes(t: ChunkTree)
    requires
        wf_tree(t),
    ensures
        payload_of(t) >= 0,
        encoded_size_of(t) >= 8,
        encode_core(t).len() == 8 + payload_of(t),
        encode_chunk(t).len() == encoded_size_of(t),
    decreases t, 1int,
{
    vstd::bytes::lemma_auto_spec_u32_to_from_le_bytes();
    lemma_size_nonneg(t);
    match t {
        ChunkTree::Leaf { .. } => {},
        ChunkTree::Typed { children, .. } => lemma_children_sizes(children),
        ChunkTree::Untyped { children, .. } => lemma_children_sizes(children),
    }
}

/// The encoding of a run of valid siblings is as long as their summed sizes.
pub proof fn lemma_children_sizes(ts: Seq<ChunkTree>)
    requires
        wf_children(ts),
    ensures
        children_size(ts) >= 0,
        encode_children(ts).len() == children_size(ts),
    decreases ts, 0int,
{
    lemma_children_size_nonneg(ts);
    if ts.len() > 0 {
        lemma_sizes(ts[0]);
        lemma_children_sizes(ts.drop_first());
    }
}

/// Every chunk occupies an even number of bytes on the wire, so a run of
/// sibling chunks does too.
pub proof fn lemma_children_size_even(ts: Seq<ChunkTree>)
    ensures
        children_size(ts) % 2 == 0,
    decreases ts,
{
    if ts.len() > 0 {
        lemma_size_nonneg(ts[0]);
        lemma_children_size_even(ts.drop_first());
    }
}

/// A container's payload length is always even, so a container's encoding
/// carries no pad of its own.
pub proof fn lemma_container_unpadded(t: ChunkTree)
    requires
        t is Typed || t is Untyped,
    ensures
        payload_of(t) % 2 == 0,
        encode_chunk(t) == encode_core(t),
{
    match t {
        ChunkTree::Leaf { .. } => {},
        ChunkTree::Typed { children, .. } => lemma_children_size_even(children),
        ChunkTree::Untyped { children, .. } => lemma_children_size_even(children),
    }
    assert(encode_chunk(t) =~= encode_core(t));
}

/// The identifier of a tree node.
pub open spec fn tree_id(t: ChunkTree) -> Seq<u8> {
    match t {
        ChunkTree::Leaf { id, .. } => id,
        ChunkTree::Typed { id, .. } => id,
        ChunkTree::Untyped { id, .. } => id,
    }
}

/// A valid node's encoding opens with its identifier and its little-endian
/// payload length.
pub proof fn lemma_encode_header(t: ChunkTree)
    requires
        wf_tree(t),
    ensures
        0 <= payload_of(t) <= u32::MAX,
        encode_core(t).subrange(0, 4) == tree_id(t),
        encode_core(t).subrange(4, 8) == spec_u32_to_le_bytes(payload_of(t) as u32),
        encode_chunk(t).subrange(0, 4) == tree_id(t),
        encode_chunk(t).subrange(4, 8) == spec_u32_to_le_bytes(payload_of(t) as u32),
{
    vstd::bytes::lemma_auto_spec_u32_to_from_le_bytes();
    lemma_sizes(t);
    let e = encode_core(t);
    let le = spec_u32_to_le_bytes(payload_of(t) as u32);
    match t {
        ChunkTree::Leaf { id, content } => {
            assert(e.subrange(0, 4) =~= id);
            assert(e.subrange(4, 8) =~= le);
        },
        ChunkTree::Typed { id, form, children } => {
            lemma_children_size_nonneg(children);
            assert(e.subrange(0, 4) =~= id);
            assert(e.subrange(4, 8) =~= le);
        },
        ChunkTree::Untyped { id, children } => {
            lemma_children_size_nonneg(children);
            assert(e.subrange(0, 4) =~= id);
            assert(e.subrange(4, 8) =~= le);
        },
    }
    assert(encode_chunk(t).subrange(0, 4) =~= e.subrange(0, 4));
    assert(encode_chunk(t).subrange(4, 8) =~= e.subrange(4, 8));
}

/// Parsing siblings from a position looks only at the bytes from that
/// position on.
proof fn lemma_parse_children_suffix(region: Seq<u8>, pos: int)
    requires
        0 <= pos <= region.len(),
    ensures
        parse_children_from(region, pos) == parse_children_from(
            region.subrange(pos, region.len() as int),
            0,
        ),
    decreases region.len() - pos,
{
    let suffix = region.subrange(pos, region.len() as int);
    if pos == region.len() {
    } else if pos + 8 > region.len() {
    } else {
        let plen = child_payload_at(region, pos);
        assert(suffix.subrange(4, 8) =~= region.subrange(pos + 4, pos + 8));
        let next = spec_advance(pos, plen);
        if next <= region.len() {
            assert(suffix.subrange(0, 8 + plen) =~= region.subrange(pos, pos + 8 + plen));
            lemma_parse_children_suffix(region, next);
            lemma_parse_children_suffix(suffix, next - pos);
            assert(suffix.subrange(next - pos, suffix.len() as int) =~= region.subrange(
                next,
                region.len() as int,
            ));
        }
    }
}

/// Round-trip law for one node: a valid node's encoding parses back to that
/// very node.
pub proof fn lemma_parse_encode_core(t: ChunkTree)
    requires
        wf_tree(t),
    ensures
        parse_chunk(encode_core(t)) == Some(t),
    decreases t, 1int,
{
    vstd::bytes::lemma_auto_spec_u32_to_from_le_bytes();
    lemma_sizes(t);
    let e = encode_core(t);
    match t {
        ChunkTree::Leaf { id, content } => {
            assert(e.subrange(4, 8) =~= spec_u32_to_le_bytes(content.len() as u32));
            assert(e.subrange(0, 4) =~= id);
            assert(e.subrange(8, 8 + content.len() as int) =~= content);
        },
        ChunkTree::Typed { id, form, children } => {
            lemma_children_sizes(children);
            let plen = 4 + children_size(children);
            assert(e.subrange(4, 8) =~= spec_u32_to_le_bytes(plen as u32));
            assert(e.subrange(0, 4) =~= id);
            assert(e.subrange(8, 12) =~= form);
            assert(e.subrange(12, 8 + plen) =~= encode_children(children));
            lemma_parse_encode_children(children);
        },
        ChunkTree::Untyped { id, children } => {
            lemma_children_sizes(children);
            let plen = children_size(children);
            assert(e.subrange(4, 8) =~= spec_u32_to_le_bytes(plen as u32));
            assert(e.subrange(0, 4) =~= id);
            assert(e.subrange(8, 8 + plen) =~= encode_children(children));
            lemma_parse_encode_children(children);
        },
    }
}

/// Round-trip law for siblings: the concatenated encodings of valid nodes
/// parse back to those very nodes, in order.
pub proof fn lemma_parse_encode_children(ts: Seq<ChunkTree>)
    requires
        wf_children(ts),
    ensures
        parse_children_from(encode_children(ts), 0) == Some(ts),
    decreases ts, 0int,
{
    vstd::bytes::lemma_auto_spec_u32_to_from_le_bytes();
    let e = encode_children(ts);
    if ts.len() == 0 {
        assert(ts =~= Seq::<ChunkTree>::empty());
    } else {
        let t = ts[0];
        let rest = ts.drop_first();
        lemma_sizes(t);
        lemma_children_sizes(rest);
        lemma_encode_header(t);
        let plen = payload_of(t);
        assert(e == encode_chunk(t) + encode_children(rest));
        assert(e.subrange(4, 8) =~= encode_chunk(t).subrange(4, 8));
        let next = spec_advance(0, plen);
        assert(next == encoded_size_of(t));
        assert(e.subrange(0, 8 + plen) =~= encode_core(t));
        lemma_parse_encode_core(t);
        lemma_parse_children_suffix(e, next);
        assert(e.subrange(next, e.len() as int) =~= encode_children(rest));
        lemma_parse_encode_children(rest);
        assert(seq![t] + rest =~= ts);
    }
}

/// Round-trip law for a whole file: a valid typed container — a `RIFF` root
/// in particular — serializes with no trailing pad, and its full encoding
/// parses back to the same tree, identifier, form type, payloads and all.
pub proof fn lemma_file_round_trip(t: ChunkTree)
    requires
        wf_tree(t),
        t is Typed,
    ensures
        parse_chunk(encode_chunk(t)) == Some(t),
{
    lemma_container_unpadded(t);
    lemma_parse_encode_core(t);
}

/// Padding law: a leaf with odd-length content encodes to its header and
/// content followed by exactly one zero pad byte, while the declared payload
/// length still counts the content alone.
pub proof fn lemma_odd_payload_padding(id: Seq<u8>, content: Seq<u8>)
    requires
        id.len() == 4,
        content.len() % 2 == 1,
        content.len() <= u32::MAX,
    ensures
        ({
            let e = encode_chunk(ChunkTree::Leaf { id, content });
            &&& e.len() == 8 + content.len() + 1
            &&& e.last() == 0
            &&& spec_payload_len(e) == content.len()
            &&& e.subrange(8, 8 + content.len() as int) == content
        }),
{
    vstd::bytes::lemma_auto_spec_u32_to_from_le_bytes();
    let t = ChunkTree::Leaf { id, content };
    let e = encode_chunk(t);
    assert(encode_core(t).len() == 8 + content.len());
    assert(e.len() == 8 + content.len() + 1);
    assert(e.subrange(4, 8) =~= spec_u32_to_le_bytes(content.len() as u32));
    assert(e.last() == spec_pad_bytes(content.len() as int)[0]);
    assert(e.subrange(8, 8 + content.len() as int) =~= content);
}

/// Whether repeatedly applying `spec_advance` from `pos` lands exactly on
/// the region's end, reading each child's payload length on the way.
pub open spec fn advances_to_end(region: Seq<u8>, pos: int) -> bool
    decreases region.len() - pos,
        when 0 <= pos <= region.len()
{
    if pos == region.len() {
        true
    } else if pos + 8 > region.len() {
        false
    } else {
        let plen = child_payload_at(region, pos);
        let next = spec_advance(pos, plen);
        next <= region.len() && advances_to_end(region, next)
    }
}

/// One parsing step at a well-placed child: the run parses exactly when the
/// child and the remaining run both parse, and the results concatenate.
pub proof fn lemma_parse_children_step(region: Seq<u8>, pos: int)
    requires
        0 <= pos < region.len(),
        child_ok_at(region, pos),
    ensures
        ({
            let plen = child_payload_at(region, pos);
            let next = spec_advance(pos, plen);
            let child = parse_chunk(region.subrange(pos, pos + 8 + plen));
            let rest = parse_children_from(region, next);
            &&& (parse_children_from(region, pos) is Some <==> (child is Some && rest is Some))
            &&& ((child is Some && rest is Some) ==> parse_children_from(region, pos) == Some(
                seq![child->0] + rest->0,
            ))
        }),
{
}

/// A child that does not fit the region makes the whole run malformed.
pub proof fn lemma_parse_children_stuck(region: Seq<u8>, pos: int)
    requires
        0 <= pos < region.len(),
        !child_ok_at(region, pos),
    ensures
        parse_children_from(region, pos) is None,
{
}

/// A container node with one more child appended; a leaf is left unchanged.
pub open spec fn tree_with_child(t: ChunkTree, c: ChunkTree) -> ChunkTree {
    match t {
        ChunkTree::Leaf { .. } => t,
        ChunkTree::Typed { id, form, children } => ChunkTree::Typed {
            id,
            form,
            children: children.push(c),
        },
        ChunkTree::Untyped { id, children } => ChunkTree::Untyped {
            id,
            children: children.push(c),
        },
    }
}

/// Appending a sibling grows the summed size by that sibling's encoded size.
pub proof fn lemma_children_size_push(ts: Seq<ChunkTree>, t: ChunkTree)
    ensures
        children_size(ts.push(t)) == children_size(ts) + encoded_size_of(t),
    decreases ts,
{
    if ts.len() == 0 {
        assert(ts.push(t)[0] == t);
        assert(ts.push(t).drop_first() =~= Seq::<ChunkTree>::empty());
        assert(children_size(Seq::<ChunkTree>::empty()) == 0);
    } else {
        assert(ts.push(t)[0] == ts[0]);
        assert(ts.push(t).drop_first() =~= ts.drop_first().push(t));
        lemma_children_size_push(ts.drop_first(), t);
    }
}

/// Appending a sibling extends the encoding by that sibling's encoding.
pub proof fn lemma_encode_children_push(ts: Seq<ChunkTree>, t: ChunkTree)
    ensures
        encode_children(ts.push(t)) == encode_children(ts) + encode_chunk(t),
    decreases ts,
{
    if ts.len() == 0 {
        assert(ts.push(t)[0] == t);
        assert(ts.push(t).drop_first() =~= Seq::<ChunkTree>::empty());
        assert(encode_children(Seq::<ChunkTree>::empty()) =~= Seq::<u8>::empty());
        assert(encode_children(ts.push(t)) =~= encode_children(ts) + encode_chunk(t));
    } else {
        assert(ts.push(t)[0] == ts[0]);
        assert(ts.push(t).drop_first() =~= ts.drop_first().push(t));
        lemma_encode_children_push(ts.drop_first(), t);
        assert(encode_children(ts.push(t)) =~= encode_children(ts) + encode_chunk(t));
    }
}

/// The summed size splits at any point into the prefix's and the suffix's.
pub proof fn lemma_children_size_split(ts: Seq<ChunkTree>, i: int)
    requires
        0 <= i <= ts.len(),
    ensures
        children_size(ts) == children_size(ts.take(i)) + children_size(ts.skip(i)),
    decreases i,
{
    if i == 0 {
        assert(ts.take(0) =~= Seq::<ChunkTree>::empty());
        assert(ts.skip(0) =~= ts);
    } else {
        let rest = ts.drop_first();
        lemma_children_size_split(rest, i - 1);
        assert(ts.take(i)[0] == ts[0]);
        assert(ts.take(i).drop_first() =~= rest.take(i - 1));
        assert(ts.skip(i) =~= rest.skip(i - 1));
    }
}

/// No sibling's encoded size exceeds the run's summed size.
pub proof fn lemma_children_size_bound(ts: Seq<ChunkTree>, i: int)
    requires
        0 <= i < ts.len(),
    ensures
        encoded_size_of(ts[i]) <= children_size(ts),
    decreases i,
{
    lemma_children_size_nonneg(ts.drop_first());
    lemma_size_nonneg(ts[0]);
    if i == 0 {
    } else {
        lemma_children_size_bound(ts.drop_first(), i - 1);
    }
}

/// Advance law: wherever a run of siblings parses, the advance rule applied
/// repeatedly from the start of the run reaches its end exactly — no gap,
/// no overshoot.
pub proof fn lemma_advance_reaches_end(region: Seq<u8>, pos: int)
    requires
        0 <= pos <= region.len(),
        parse_children_from(region, pos) is Some,
    ensures
        advances_to_end(region, pos),
    decreases region.len() - pos,
{
    if pos == region.len() {
    } else {
        let plen = child_payload_at(region, pos);
        let next = spec_advance(pos, plen);
        lemma_advance_reaches_end(region, next);
    }
}

} // verus!
