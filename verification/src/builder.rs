//! Assembling a chunk tree bottom-up and serializing it to bytes.
//!
//! Every node stores its payload length eagerly; well-formedness
//! ([`ChunkBuilder::wf`]) states that the stored length always equals the
//! true encoded size of the node's contents, and every operation preserves
//! it.  Serialization is specified against [`crate::model::encode_chunk`],
//! so the round-trip laws of the model apply to the bytes produced here.

use vstd::prelude::*;

use crate::error::{RiffError, RiffResult};
use crate::model::{
    children_size, encode_children, encode_chunk, encoded_size_of, spec_classify, spec_pad_bytes,
    tree_with_child, wf_children, ChunkTree,
};
use crate::FourCC;

verus! {

/// A chunk under construction: an identifier, the declared payload length,
/// an optional form type, and the contents.
#[derive(Debug)]
pub struct ChunkBuilder {
    pub chunk_id: FourCC,
    pub payload_len: u32,
    pub chunk_type: Option<FourCC>,
    pub data: ChunkData,
}

/// The two kinds of content a chunk under construction can hold.
#[derive(Debug)]
pub enum ChunkData {
    /// Raw leaf content, stored already padded to an even length.
    RawData(Vec<u8>),
    /// Child chunks, concatenated in order on serialization.
    ChunkList(Vec<ChunkBuilder>),
}

/// The abstract trees of a sequence of builder nodes, in order.
pub open spec fn abs_list(cs: Seq<ChunkBuilder>) -> Seq<ChunkTree>
    decreases cs,
{
    if cs.len() == 0 {
        Seq::<ChunkTree>::empty()
    } else {
        seq![cs[0].abs()] + abs_list(cs.drop_first())
    }
}

/// Validity of a sequence of builder nodes.
pub open spec fn wf_list(cs: Seq<ChunkBuilder>) -> bool
    decreases cs,
{
    cs.len() == 0 || (cs[0].wf() && wf_list(cs.drop_first()))
}

impl ChunkBuilder {
    /// The abstract tree this node stands for.  A leaf that carries a form
    /// type contributes those four bytes as the head of its content, exactly
    /// as they will appear in its payload on the wire.
    pub open spec fn abs(self) -> ChunkTree
        decreases self,
    {
        match self.data {
            ChunkData::RawData(v) => ChunkTree::Leaf {
                id: self.chunk_id@,
                content: match self.chunk_type {
                    Some(f) => f@ + v@.take(self.payload_len - 4),
                    None => v@.take(self.payload_len as int),
                },
            },
            ChunkData::ChunkList(cs) => match self.chunk_type {
                Some(f) => ChunkTree::Typed {
                    id: self.chunk_id@,
                    form: f@,
                    children: abs_list(cs@),
                },
                None => ChunkTree::Untyped { id: self.chunk_id@, children: abs_list(cs@) },
            },
        }
    }

    /// Validity: the identifier's classification agrees with the node's
    /// shape, raw content is stored padded, and the stored payload length
    /// equals the true encoded size of the contents.
    pub open spec fn wf(self) -> bool
        decreases self,
    {
        match self.data {
            ChunkData::RawData(v) => {
                let type_len: int = if self.chunk_type is Some {
                    4
                } else {
                    0
                };
                let raw_len = self.payload_len - type_len;
                &&& spec_classify(self.chunk_id@) is Leaf
                &&& self.payload_len >= type_len
                &&& v@.len() == raw_len + raw_len % 2
                &&& (raw_len % 2 == 1 ==> v@.last() == 0)
            },
            ChunkData::ChunkList(cs) => {
                let type_len: int = if self.chunk_type is Some {
                    4
                } else {
                    0
                };
                &&& (match self.chunk_type {
                    Some(_) => spec_classify(self.chunk_id@) is TypedContainer,
                    None => spec_classify(self.chunk_id@) is UntypedContainer,
                })
                &&& wf_list(cs@)
                &&& self.payload_len as int == type_len + children_size(abs_list(cs@))
            },
        }
    }
}

/// Every node of a valid sequence is valid.
proof fn lemma_wf_list_index(cs: Seq<ChunkBuilder>, i: int)
    requires
        wf_list(cs),
        0 <= i < cs.len(),
    ensures
        cs[i].wf(),
    decreases i,
{
    if i > 0 {
        lemma_wf_list_index(cs.drop_first(), i - 1);
    }
}

/// The abstract trees are as many as the nodes, matched index by index.
proof fn lemma_abs_list_index(cs: Seq<ChunkBuilder>, i: int)
    requires
        0 <= i < cs.len(),
    ensures
        abs_list(cs).len() == cs.len(),
        abs_list(cs)[i] == cs[i].abs(),
    decreases cs,
{
    lemma_abs_list_len(cs);
    if i > 0 {
        lemma_abs_list_index(cs.drop_first(), i - 1);
    }
}

/// The abstract trees are as many as the nodes.
proof fn lemma_abs_list_len(cs: Seq<ChunkBuilder>)
    ensures
        abs_list(cs).len() == cs.len(),
    decreases cs,
{
    if cs.len() > 0 {
        lemma_abs_list_len(cs.drop_first());
    }
}

/// Appending a node appends its abstract tree.
proof fn lemma_abs_list_push(cs: Seq<ChunkBuilder>, c: ChunkBuilder)
    ensures
        abs_list(cs.push(c)) == abs_list(cs).push(c.abs()),
    decreases cs,
{
    if cs.len() == 0 {
        assert(cs.push(c)[0] == c);
        assert(cs.push(c).drop_first() =~= Seq::<ChunkBuilder>::empty());
        assert(abs_list(Seq::<ChunkBuilder>::empty()) =~= Seq::<ChunkTree>::empty());
        assert(abs_list(cs.push(c)) =~= abs_list(cs).push(c.abs()));
    } else {
        assert(cs.push(c)[0] == cs[0]);
        assert(cs.push(c).drop_first() =~= cs.drop_first().push(c));
        lemma_abs_list_push(cs.drop_first(), c);
        assert(abs_list(cs.push(c)) =~= abs_list(cs).push(c.abs()));
    }
}

/// Appending a valid node to a valid sequence keeps it valid.
proof fn lemma_wf_list_push(cs: Seq<ChunkBuilder>, c: ChunkBuilder)
    requires
        wf_list(cs),
        c.wf(),
    ensures
        wf_list(cs.push(c)),
    decreases cs,
{
    if cs.len() == 0 {
        assert(cs.push(c)[0] == c);
        assert(cs.push(c).drop_first() =~= Seq::<ChunkBuilder>::empty());
        assert(wf_list(Seq::<ChunkBuilder>::empty()));
    } else {
        assert(cs.push(c)[0] == cs[0]);
        assert(cs.push(c).drop_first() =~= cs.drop_first().push(c));
        lemma_wf_list_push(cs.drop_first(), c);
    }
}

/// A valid node stands for a valid tree whose payload length is the one the
/// node stores.
pub proof fn lemma_wf_abs(b: ChunkBuilder)
    requires
        b.wf(),
    ensures
        crate::model::wf_tree(b.abs()),
        crate::model::payload_of(b.abs()) == b.payload_len,
    decreases b,
{
    match b.data {
        ChunkData::RawData(v) => {},
        ChunkData::ChunkList(cs) => {
            lemma_wf_abs_list(cs@);
            crate::model::lemma_children_size_nonneg(abs_list(cs@));
        },
    }
}

/// A valid sequence of nodes stands for a valid run of sibling trees.
pub proof fn lemma_wf_abs_list(cs: Seq<ChunkBuilder>)
    requires
        wf_list(cs),
    ensures
        wf_children(abs_list(cs)),
    decreases cs,
{
    if cs.len() > 0 {
        lemma_wf_abs(cs[0]);
        lemma_wf_abs_list(cs.drop_first());
        assert(abs_list(cs)[0] == cs[0].abs());
        assert(abs_list(cs).drop_first() =~= abs_list(cs.drop_first()));
    }
}

impl ChunkBuilder {
    /// The payload length a node with these contents will declare: the raw
    /// content length of a leaf, or the summed encoded sizes of the
    /// children, plus `offset` for a form type that will follow the header.
    fn calculate_payload(data: &ChunkData, offset: u32) -> (r: u32)
        requires
            offset <= 4,
            match data {
                ChunkData::RawData(v) => offset + v@.len() <= u32::MAX,
                ChunkData::ChunkList(cs) => wf_list(cs@) && offset + children_size(abs_list(cs@))
                    <= u32::MAX,
            },
        ensures
            r as int == offset + (match data {
                ChunkData::RawData(v) => v@.len() as int,
                ChunkData::ChunkList(cs) => children_size(abs_list(cs@)),
            }),
    {
        match data {
            ChunkData::RawData(v) => offset + v.len() as u32,
            ChunkData::ChunkList(cs) => {
                let ghost ts = abs_list(cs@);
                proof {
                    lemma_abs_list_len(cs@);
                }
                let mut sum: u64 = 0;
                let mut i: usize = 0;
                while i < cs.len()
                    invariant
                        wf_list(cs@),
                        ts == abs_list(cs@),
                        ts.len() == cs@.len(),
                        offset + children_size(ts) <= u32::MAX,
                        i <= cs@.len(),
                        sum == children_size(ts.take(i as int)),
                    decreases cs@.len() - i,
                {
                    proof {
                        lemma_wf_list_index(cs@, i as int);
                        lemma_abs_list_index(cs@, i as int);
                        lemma_wf_abs(cs@[i as int]);
                        assert(ts.take(i + 1) =~= ts.take(i as int).push(ts[i as int]));
                        crate::model::lemma_children_size_push(ts.take(i as int), ts[i as int]);
                        crate::model::lemma_children_size_split(ts, i + 1);
                        crate::model::lemma_children_size_nonneg(ts.skip(i + 1));
                    }
                    let c = &cs[i];
                    sum = sum + 8 + c.payload_len as u64 + (c.payload_len % 2) as u64;
                    i = i + 1;
                }
                proof {
                    assert(ts.take(cs@.len() as int) =~= ts);
                }
                offset + sum as u32
            },
        }
    }

    /// Pads raw content with one zero byte when its length is odd, as the
    /// wire format requires; child lists are returned unchanged.
    fn fit_data(data: ChunkData) -> (r: ChunkData)
        ensures
            match data {
                ChunkData::RawData(v) => r matches ChunkData::RawData(w) && w@ == v@
                    + spec_pad_bytes(v@.len() as int),
                ChunkData::ChunkList(_) => r == data,
            },
    {
        match data {
            ChunkData::RawData(mut v) => {
                let ghost v0 = v@;
                if v.len() % 2 == 1 {
                    v.push(0);
                }
                assert(v@ =~= v0 + spec_pad_bytes(v0.len() as int));
                ChunkData::RawData(v)
            },
            chunks => chunks,
        }
    }

    /// Builds a node without a form type: a leaf from raw content, or an
    /// untyped container (a `seqt`-class identifier) from child nodes.
    pub fn new_notype(id: FourCC, data: ChunkData) -> (r: Self)
        requires
            match data {
                ChunkData::RawData(v) => spec_classify(id@) is Leaf && v@.len() <= u32::MAX,
                ChunkData::ChunkList(cs) => spec_classify(id@) is UntypedContainer && wf_list(cs@)
                    && children_size(abs_list(cs@)) <= u32::MAX,
            },
        ensures
            r.wf(),
            r.chunk_id@ == id@,
            r.chunk_type is None,
            r.payload_len as int == crate::model::payload_of(r.abs()),
            r.abs() == (match data {
                ChunkData::RawData(v) => ChunkTree::Leaf { id: id@, content: v@ },
                ChunkData::ChunkList(cs) => ChunkTree::Untyped {
                    id: id@,
                    children: abs_list(cs@),
                },
            }),
    {
        let ghost d0 = data;
        let payload_len = Self::calculate_payload(&data, 0);
        let data = Self::fit_data(data);
        let r = ChunkBuilder { chunk_id: id, payload_len, chunk_type: None, data };
        proof {
            match d0 {
                ChunkData::RawData(v) => {
                    assert(r.data matches ChunkData::RawData(w) && w@ == v@ + spec_pad_bytes(
                        v@.len() as int,
                    ) && w@.take(payload_len as int) =~= v@);
                },
                ChunkData::ChunkList(cs) => {},
            }
        }
        r
    }

    /// Builds a node with a form type: a leaf whose payload opens with those
    /// four bytes, or a typed container (`RIFF` or `LIST`) of child nodes.
    pub fn new_type(id: FourCC, chunk_type: FourCC, data: ChunkData) -> (r: Self)
        requires
            match data {
                ChunkData::RawData(v) => spec_classify(id@) is Leaf && 4 + v@.len() <= u32::MAX,
                ChunkData::ChunkList(cs) => spec_classify(id@) is TypedContainer && wf_list(cs@)
                    && 4 + children_size(abs_list(cs@)) <= u32::MAX,
            },
        ensures
            r.wf(),
            r.chunk_id@ == id@,
            r.chunk_type matches Some(f) && f@ == chunk_type@,
            r.payload_len as int == crate::model::payload_of(r.abs()),
            r.abs() == (match data {
                ChunkData::RawData(v) => ChunkTree::Leaf { id: id@, content: chunk_type@ + v@ },
                ChunkData::ChunkList(cs) => ChunkTree::Typed {
                    id: id@,
                    form: chunk_type@,
                    children: abs_list(cs@),
                },
            }),
    {
        let ghost d0 = data;
        let payload_len = Self::calculate_payload(&data, 4);
        let data = Self::fit_data(data);
        let r = ChunkBuilder { chunk_id: id, payload_len, chunk_type: Some(chunk_type), data };
        proof {
            match d0 {
                ChunkData::RawData(v) => {
                    assert(r.data matches ChunkData::RawData(w) && w@ == v@ + spec_pad_bytes(
                        v@.len() as int,
                    ) && w@.take(payload_len - 4) =~= v@);
                },
                ChunkData::ChunkList(cs) => {},
            }
        }
        r
    }

    /// Appends a child to a container node, growing the stored payload
    /// length by the child's encoded size — which, by the well-formedness
    /// invariant, keeps it equal to the true encoded size of the contents.
    /// Fails on a leaf, and on a payload that would no longer fit the
    /// 32-bit length field.
    pub fn add_chunk(self, chunk: ChunkBuilder) -> (r: RiffResult<Self>)
        requires
            self.wf(),
            chunk.wf(),
        ensures
            self.data is RawData ==> (r matches Err(RiffError::MismatchChunkAdded)),
            self.data is ChunkList ==> ({
                let new_payload = self.payload_len + encoded_size_of(chunk.abs());
                if new_payload <= u32::MAX {
                    &&& r matches Ok(b) && b.wf() && b.payload_len == new_payload
                        && b.chunk_id@ == self.chunk_id@ && b.chunk_type == self.chunk_type
                        && b.abs() == tree_with_child(self.abs(), chunk.abs()) && (match (
                        self.data,
                        b.data,
                    ) {
                        (ChunkData::ChunkList(cs), ChunkData::ChunkList(cs2)) => cs2@ == cs@.push(
                            chunk,
                        ),
                        _ => false,
                    })
                } else {
                    r matches Err(RiffError::SizeOverflow)
                }
            }),
    {
        proof {
            lemma_wf_abs(chunk);
        }
        let ChunkBuilder { chunk_id, payload_len, chunk_type, data } = self;
        match data {
            ChunkData::RawData(v) => Err(RiffError::MismatchChunkAdded),
            ChunkData::ChunkList(mut cs) => {
                let added = 8u64 + chunk.payload_len as u64 + (chunk.payload_len % 2) as u64;
                let new_payload = payload_len as u64 + added;
                if new_payload > u32::MAX as u64 {
                    Err(RiffError::SizeOverflow)
                } else {
                    proof {
                        lemma_abs_list_push(cs@, chunk);
                        lemma_wf_list_push(cs@, chunk);
                        crate::model::lemma_children_size_push(abs_list(cs@), chunk.abs());
                    }
                    cs.push(chunk);
                    Ok(
                        ChunkBuilder {
                            chunk_id,
                            payload_len: new_payload as u32,
                            chunk_type,
                            data: ChunkData::ChunkList(cs),
                        },
                    )
                }
            },
        }
    }

    /// Padding law at the builder: a leaf node with an odd payload length
    /// serializes — [`Self::to_bytes`] appends `encode_chunk` of the node —
    /// to its identifier, its little-endian length field, its stored
    /// content, and exactly one trailing zero pad byte; the length field
    /// still counts the logical content alone.
    pub proof fn lemma_odd_leaf_padding(self)
        requires
            self.wf(),
            self.data is RawData,
            self.payload_len % 2 == 1,
        ensures
            ({
                let e = encode_chunk(self.abs());
                &&& e.len() == 8 + self.payload_len + 1
                &&& e.last() == 0
                &&& crate::model::spec_payload_len(e) == self.payload_len
                &&& e.subrange(0, 4) == self.chunk_id@
                &&& (match (self.chunk_type, self.data) {
                    (None, ChunkData::RawData(v)) => e == self.chunk_id@
                        + vstd::bytes::spec_u32_to_le_bytes(self.payload_len) + v@,
                    (Some(f), ChunkData::RawData(v)) => e == self.chunk_id@
                        + vstd::bytes::spec_u32_to_le_bytes(self.payload_len) + f@ + v@,
                    _ => true,
                })
            }),
    {
        vstd::bytes::lemma_auto_spec_u32_to_from_le_bytes();
        lemma_wf_abs(self);
        crate::model::lemma_sizes(self.abs());
        crate::model::lemma_encode_header(self.abs());
        let e = encode_chunk(self.abs());
        match (self.chunk_type, self.data) {
            (None, ChunkData::RawData(v)) => {
                let content = v@.take(self.payload_len as int);
                crate::model::lemma_odd_payload_padding(self.chunk_id@, content);
                assert(v@ =~= content + seq![0u8]);
                assert(e =~= self.chunk_id@ + vstd::bytes::spec_u32_to_le_bytes(self.payload_len)
                    + v@);
            },
            (Some(f), ChunkData::RawData(v)) => {
                let raw = v@.take(self.payload_len - 4);
                let content = f@ + raw;
                crate::model::lemma_odd_payload_padding(self.chunk_id@, content);
                assert(v@ =~= raw + seq![0u8]);
                assert(e =~= self.chunk_id@ + vstd::bytes::spec_u32_to_le_bytes(self.payload_len)
                    + f@ + v@);
            },
            _ => {},
        }
    }

    /// Appends this node's full wire encoding — header, form type, payload,
    /// pad — to `out`, children depth-first in one forward pass.
    fn to_bytes(&self, out: &mut Vec<u8>)
        requires
            self.wf(),
        ensures
            final(out)@ == old(out)@ + encode_chunk(self.abs()),
        decreases encoded_size_of(self.abs()),
    {
        proof {
            lemma_wf_abs(*self);
            crate::model::lemma_sizes(self.abs());
        }
        let ghost base = out@;
        out.extend_from_slice(self.chunk_id.as_bytes().as_slice());
        let mut le = vstd::bytes::u32_to_le_bytes(self.payload_len);
        out.append(&mut le);
        match &self.chunk_type {
            Some(f) => out.extend_from_slice(f.as_bytes().as_slice()),
            None => {},
        }
        match &self.data {
            ChunkData::RawData(v) => {
                out.extend_from_slice(v.as_slice());
                assert(out@ =~= base + encode_chunk(self.abs()));
            },
            ChunkData::ChunkList(cs) => {
                let ghost ts = abs_list(cs@);
                let ghost header = out@;
                proof {
                    lemma_abs_list_len(cs@);
                    lemma_wf_abs_list(cs@);
                }
                let mut i: usize = 0;
                while i < cs.len()
                    invariant
                        wf_list(cs@),
                        ts == abs_list(cs@),
                        ts.len() == cs@.len(),
                        wf_children(ts),
                        i <= cs@.len(),
                        out@ == header + encode_children(ts.take(i as int)),
                        encoded_size_of(self.abs()) >= 8 + children_size(ts),
                    decreases cs@.len() - i,
                {
                    proof {
                        lemma_wf_list_index(cs@, i as int);
                        lemma_abs_list_index(cs@, i as int);
                        crate::model::lemma_children_size_bound(ts, i as int);
                        crate::model::lemma_size_nonneg(ts[i as int]);
                        assert(ts.take(i + 1) =~= ts.take(i as int).push(ts[i as int]));
                        crate::model::lemma_encode_children_push(ts.take(i as int), ts[i as int]);
                    }
                    let c = &cs[i];
                    c.to_bytes(out);
                    i = i + 1;
                }
                proof {
                    assert(ts.take(cs@.len() as int) =~= ts);
                    crate::model::lemma_container_unpadded(self.abs());
                    assert(out@ =~= base + encode_chunk(self.abs()));
                }
            },
        }
    }
}

/// The root of a file under construction: a `RIFF` chunk with a form type
/// and a list of child nodes.  The stored payload length counts the four
/// form-type bytes and the encoded sizes of the children.
#[derive(Debug)]
pub struct RiffBuilder {
    pub payload_len: u32,
    pub chunk_type: FourCC,
    pub data: Vec<ChunkBuilder>,
}

impl RiffBuilder {
    /// The abstract tree this root stands for.
    pub open spec fn abs(self) -> ChunkTree {
        ChunkTree::Typed {
            id: crate::model::riff_id(),
            form: self.chunk_type@,
            children: abs_list(self.data@),
        }
    }

    /// Validity: the children are valid and the stored payload length
    /// equals four plus their summed encoded sizes.
    pub open spec fn wf(self) -> bool {
        &&& wf_list(self.data@)
        &&& self.payload_len as int == 4 + children_size(abs_list(self.data@))
    }

    /// A valid root stands for a valid typed tree whose payload length is
    /// the one the root stores.
    pub proof fn lemma_wf_abs(self)
        requires
            self.wf(),
        ensures
            crate::model::wf_tree(self.abs()),
            crate::model::payload_of(self.abs()) == self.payload_len,
            self.abs() is Typed,
    {
        lemma_wf_abs_list(self.data@);
        crate::model::lemma_children_size_nonneg(abs_list(self.data@));
        assert(spec_classify(crate::model::riff_id()) is TypedContainer);
    }

    /// An empty root with the given form type; its payload holds the four
    /// form-type bytes and nothing else yet.
    pub fn new(chunk_type: FourCC) -> (r: Self)
        ensures
            r.wf(),
            r.payload_len == 4,
            r.chunk_type@ == chunk_type@,
            r.data@.len() == 0,
            r.abs() == (ChunkTree::Typed {
                id: crate::model::riff_id(),
                form: chunk_type@,
                children: Seq::<ChunkTree>::empty(),
            }),
    {
        let r = RiffBuilder { payload_len: 4, chunk_type, data: Vec::new() };
        proof {
            assert(abs_list(r.data@) =~= Seq::<ChunkTree>::empty());
            assert(children_size(Seq::<ChunkTree>::empty()) == 0);
        }
        r
    }

    /// Appends a child node, growing the stored payload length by the
    /// child's encoded size — which, by the well-formedness invariant,
    /// keeps it equal to the true encoded size of the contents.  Fails on
    /// a payload that would no longer fit the 32-bit length field.
    pub fn add_chunk(self, chunk: ChunkBuilder) -> (r: RiffResult<Self>)
        requires
            self.wf(),
            chunk.wf(),
        ensures
            ({
                let new_payload = self.payload_len + encoded_size_of(chunk.abs());
                if new_payload <= u32::MAX {
                    &&& r matches Ok(b) && b.wf() && b.payload_len == new_payload
                        && b.chunk_type@ == self.chunk_type@ && b.data@ == self.data@.push(chunk)
                        && b.abs() == tree_with_child(self.abs(), chunk.abs())
                } else {
                    r matches Err(RiffError::SizeOverflow)
                }
            }),
    {
        proof {
            lemma_wf_abs(chunk);
        }
        let RiffBuilder { payload_len, chunk_type, data: mut cs } = self;
        let added = 8u64 + chunk.payload_len as u64 + (chunk.payload_len % 2) as u64;
        let new_payload = payload_len as u64 + added;
        if new_payload > u32::MAX as u64 {
            Err(RiffError::SizeOverflow)
        } else {
            proof {
                lemma_abs_list_push(cs@, chunk);
                lemma_wf_list_push(cs@, chunk);
                crate::model::lemma_children_size_push(abs_list(cs@), chunk.abs());
            }
            cs.push(chunk);
            Ok(RiffBuilder { payload_len: new_payload as u32, chunk_type, data: cs })
        }
    }

    /// Round-trip law: the bytes that `to_bytes` produces — the encoding of
    /// the tree this root stands for — parse back, under the model's
    /// parser, to exactly that tree: identifier, form type, payloads,
    /// contents and order all preserved.
    pub proof fn lemma_round_trip(self)
        requires
            self.wf(),
        ensures
            crate::model::parse_chunk(encode_chunk(self.abs())) == Some(self.abs()),
    {
        self.lemma_wf_abs();
        crate::model::lemma_file_round_trip(self.abs());
    }

    /// Serializes the whole tree: the `RIFF` header, the root's form type,
    /// then every child depth-first, in one forward pass.  The root's
    /// payload is always even, so the file carries no trailing pad.
    pub fn to_bytes(&self) -> (r: Vec<u8>)
        requires
            self.wf(),
        ensures
            r@ == encode_chunk(self.abs()),
            r@ == crate::model::encode_core(self.abs()),
    {
        proof {
            self.lemma_wf_abs();
            crate::model::lemma_sizes(self.abs());
            crate::model::lemma_container_unpadded(self.abs());
        }
        let mut out: Vec<u8> = Vec::new();
        let riff: [u8; 4] = [0x52, 0x49, 0x46, 0x46];
        proof {
            assert(riff@ =~= crate::model::riff_id());
        }
        out.extend_from_slice(riff.as_slice());
        let mut le = vstd::bytes::u32_to_le_bytes(self.payload_len);
        out.append(&mut le);
        out.extend_from_slice(self.chunk_type.as_bytes().as_slice());
        let ghost ts = abs_list(self.data@);
        let ghost header = out@;
        proof {
            lemma_abs_list_len(self.data@);
            lemma_wf_abs_list(self.data@);
        }
        let cs = &self.data;
        let mut i: usize = 0;
        while i < cs.len()
            invariant
                cs == &self.data,
                wf_list(cs@),
                ts == abs_list(cs@),
                ts.len() == cs@.len(),
                wf_children(ts),
                i <= cs@.len(),
                out@ == header + encode_children(ts.take(i as int)),
            decreases cs@.len() - i,
        {
            proof {
                lemma_wf_list_index(cs@, i as int);
                lemma_abs_list_index(cs@, i as int);
                assert(ts.take(i + 1) =~= ts.take(i as int).push(ts[i as int]));
                crate::model::lemma_encode_children_push(ts.take(i as int), ts[i as int]);
            }
            let c = &cs[i];
            c.to_bytes(&mut out);
            i = i + 1;
        }
        proof {
            assert(ts.take(cs@.len() as int) =~= ts);
            assert(out@ =~= crate::model::encode_core(self.abs()));
        }
        out
    }
}

} // verus!
