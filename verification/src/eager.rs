//! The eager reader: the whole file resides in one byte buffer, and every
//! chunk is a zero-copy view into it.
//!
//! Each accessor is specified against the chunk model, and the conversion
//! to [`ChunkRamContent`] is specified against the model's parser, so the
//! round-trip laws of [`crate::model`] carry over to what this module
//! returns.

use vstd::prelude::*;

use crate::error::{
    ChunkTooSmall, ChunkTooSmallForChunkType, PayloadLenMismatch, RiffError, RiffResult,
};
use crate::model::{
    child_payload_at, parse_children_from, parse_chunk, riff_id, spec_advance, spec_classify,
    spec_content_offset, spec_payload_len, ChunkClass, ChunkTree,
};
use crate::FourCC;
use vstd::bytes::u32_from_le_bytes;
use vstd::slice::{slice_subrange, slice_to_vec};

verus! {

/// A whole chunked file, resident in memory.  The buffer always holds at
/// least a header and opens with the `RIFF` identifier; nothing more is
/// checked at load time.
#[derive(Debug)]
pub struct RiffRam {
    data: Vec<u8>,
}

impl RiffRam {
    /// The bytes of the file.
    pub closed spec fn bytes(&self) -> Seq<u8> {
        self.data@
    }

    #[verifier::type_invariant]
    spec fn inv(&self) -> bool {
        &&& self.data@.len() >= 8
        &&& self.data@.subrange(0, 4) == riff_id()
    }

    /// Takes ownership of a byte buffer as a chunked file.  Fails on fewer
    /// than eight bytes, and on a first identifier other than `RIFF`.
    pub fn from_bytes(data: Vec<u8>) -> (r: RiffResult<RiffRam>)
        ensures
            r is Ok <==> (data@.len() >= 8 && data@.subrange(0, 4) == riff_id()),
            r matches Ok(riff) ==> riff.bytes() == data@,
            data@.len() < 8 ==> (r matches Err(RiffError::ChunkTooSmall(_))),
            data@.len() >= 8 && data@.subrange(0, 4) != riff_id() ==> (r matches Err(
                RiffError::InvalidRiffHeader,
            )),
    {
        if data.len() >= 8 {
            if data[0] == 0x52 && data[1] == 0x49 && data[2] == 0x46 && data[3] == 0x46 {
                proof {
                    assert(data@.subrange(0, 4) =~= riff_id());
                }
                Ok(RiffRam { data })
            } else {
                proof {
                    let head = data@.subrange(0, 4);
                    assert(head[0] == data@[0] && head[1] == data@[1] && head[2] == data@[2]
                        && head[3] == data@[3]);
                }
                Err(RiffError::InvalidRiffHeader)
            }
        } else {
            Err(RiffError::ChunkTooSmall(ChunkTooSmall { data }))
        }
    }

    /// The file's identifier: always the four bytes `RIFF`.
    pub fn id(&self) -> (r: FourCC)
        ensures
            r@ == self.bytes().subrange(0, 4),
            r@ == riff_id(),
    {
        proof {
            use_type_invariant(self);
        }
        let b: [u8; 4] = [self.data[0], self.data[1], self.data[2], self.data[3]];
        proof {
            assert(b@ =~= self.data@.subrange(0, 4));
        }
        FourCC::new(&b)
    }

    /// The declared payload length of the root chunk: the bytes that follow
    /// the eight-byte header, the four form-type bytes included.
    pub fn payload_len(&self) -> (r: u32)
        ensures
            r as int == spec_payload_len(self.bytes()),
    {
        proof {
            use_type_invariant(self);
        }
        u32_from_le_bytes(slice_subrange(self.data.as_slice(), 4, 8))
    }

    /// The whole file as a byte slice.
    pub fn as_bytes(&self) -> (r: &[u8])
        ensures
            r@ == self.bytes(),
    {
        self.data.as_slice()
    }
}

/// One chunk of an in-memory file: a zero-copy view of exactly the chunk's
/// header and payload.  A trailing pad, if any, lies outside the view.
#[derive(Debug, Clone, Copy)]
pub struct ChunkRam<'a> {
    data: &'a [u8],
}

impl<'a> ChunkRam<'a> {
    /// The bytes of this chunk: its header and its payload.
    pub closed spec fn bytes(&self) -> Seq<u8> {
        self.data@
    }

    #[verifier::type_invariant]
    spec fn inv(&self) -> bool {
        &&& self.data@.len() >= 8
        &&& self.data@.len() == 8 + spec_payload_len(self.data@)
    }

    /// Wraps a byte span as a chunk.  Fails on fewer than eight bytes, and
    /// on a span whose length does not equal eight plus the declared
    /// payload length.
    pub fn from_raw_u8(data: &'a [u8]) -> (r: RiffResult<ChunkRam<'a>>)
        ensures
            r is Ok <==> (data@.len() >= 8 && data@.len() == 8 + spec_payload_len(data@)),
            r matches Ok(c) ==> c.bytes() == data@,
            data@.len() < 8 ==> (r matches Err(RiffError::ChunkTooSmall(_))),
            data@.len() >= 8 && data@.len() != 8 + spec_payload_len(data@) ==> (r matches Err(
                RiffError::PayloadLenMismatch(_),
            )),
    {
        if data.len() >= 8 {
            let plen = u32_from_le_bytes(slice_subrange(data, 4, 8));
            if data.len() as u64 == 8 + plen as u64 {
                Ok(ChunkRam { data })
            } else {
                Err(RiffError::PayloadLenMismatch(PayloadLenMismatch { data: slice_to_vec(data) }))
            }
        } else {
            Err(RiffError::ChunkTooSmall(ChunkTooSmall { data: slice_to_vec(data) }))
        }
    }

    /// This chunk's four-byte identifier.
    pub fn id(&self) -> (r: FourCC)
        ensures
            r@ == self.bytes().subrange(0, 4),
    {
        proof {
            use_type_invariant(self);
        }
        let b: [u8; 4] = [self.data[0], self.data[1], self.data[2], self.data[3]];
        proof {
            assert(b@ =~= self.data@.subrange(0, 4));
        }
        FourCC::new(&b)
    }

    /// This chunk's declared payload length.
    pub fn payload_len(&self) -> (r: u32)
        ensures
            r as int == spec_payload_len(self.bytes()),
    {
        proof {
            use_type_invariant(self);
        }
        u32_from_le_bytes(slice_subrange(self.data, 4, 8))
    }

    /// The four form-type bytes of a typed container.  Fails on a chunk
    /// that is not a typed container, and on a typed container whose
    /// payload is too short to hold the form type.
    pub fn chunk_type(&self) -> (r: RiffResult<FourCC>)
        ensures
            r is Ok <==> (spec_classify(self.bytes().subrange(0, 4)) is TypedContainer
                && spec_payload_len(self.bytes()) >= 4),
            r matches Ok(f) ==> f@ == self.bytes().subrange(8, 12),
            r is Err ==> (r matches Err(RiffError::ChunkTooSmallForChunkType(_))),
    {
        proof {
            use_type_invariant(self);
        }
        let id = self.id();
        match id.classify() {
            ChunkClass::TypedContainer => {
                if self.data.len() >= 12 {
                    let b: [u8; 4] = [self.data[8], self.data[9], self.data[10], self.data[11]];
                    proof {
                        assert(b@ =~= self.data@.subrange(8, 12));
                    }
                    Ok(FourCC::new(&b))
                } else {
                    Err(
                        RiffError::ChunkTooSmallForChunkType(
                            ChunkTooSmallForChunkType { data: slice_to_vec(self.data) },
                        ),
                    )
                }
            },
            _ => Err(
                RiffError::ChunkTooSmallForChunkType(
                    ChunkTooSmallForChunkType { data: slice_to_vec(self.data) },
                ),
            ),
        }
    }

    /// The chunk's content: the payload after the header and, for a typed
    /// container, after the four form-type bytes.  Fails only on a typed
    /// container whose payload is too short to hold the form type.
    pub fn get_raw_child(&self) -> (r: RiffResult<&'a [u8]>)
        ensures
            ({
                let class = spec_classify(self.bytes().subrange(0, 4));
                let plen = spec_payload_len(self.bytes());
                &&& (r is Ok <==> (class is TypedContainer ==> plen >= 4))
                &&& (r matches Ok(s) ==> s@ == self.bytes().subrange(
                    spec_content_offset(class),
                    8 + plen,
                ))
                &&& (r is Err ==> (r matches Err(RiffError::PayloadLenMismatch(_))))
            }),
    {
        proof {
            use_type_invariant(self);
        }
        let id = self.id();
        match id.classify() {
            ChunkClass::TypedContainer => {
                if self.data.len() >= 12 {
                    Ok(slice_subrange(self.data, 12, self.data.len()))
                } else {
                    Err(
                        RiffError::PayloadLenMismatch(
                            PayloadLenMismatch { data: slice_to_vec(self.data) },
                        ),
                    )
                }
            },
            _ => Ok(slice_subrange(self.data, 8, self.data.len())),
        }
    }

    /// An iterator over this chunk's children, positioned at the start of
    /// the chunk's content.  On a typed container whose payload cannot hold
    /// its form type the iterator starts out failed: it yields one error
    /// and then nothing.
    pub fn iter(&self) -> (r: ChunkRamIter<'a>)
        ensures
            ({
                let class = spec_classify(self.bytes().subrange(0, 4));
                let plen = spec_payload_len(self.bytes());
                if class is TypedContainer && plen < 4 {
                    r.is_failed()
                } else {
                    &&& r.is_active()
                    &&& r.pos() == 0
                    &&& r.region_bytes() == self.bytes().subrange(
                        spec_content_offset(class),
                        8 + plen,
                    )
                }
            }),
    {
        proof {
            use_type_invariant(self);
        }
        let id = self.id();
        match id.classify() {
            ChunkClass::TypedContainer => {
                if self.data.len() >= 12 {
                    ChunkRamIter {
                        region: slice_subrange(self.data, 12, self.data.len()),
                        cursor: 0,
                        status: IterStatus::Active,
                    }
                } else {
                    ChunkRamIter {
                        region: slice_subrange(self.data, 0, 0),
                        cursor: 0,
                        status: IterStatus::Failed,
                    }
                }
            },
            _ => ChunkRamIter {
                region: slice_subrange(self.data, 8, self.data.len()),
                cursor: 0,
                status: IterStatus::Active,
            },
        }
    }
}

impl RiffRam {
    /// An iterator over the root chunk's children.  Fails when the buffer's
    /// length does not equal eight plus the root's declared payload length.
    pub fn iter<'a>(&'a self) -> (r: RiffResult<ChunkRamIter<'a>>)
        ensures
            r is Ok <==> self.bytes().len() == 8 + spec_payload_len(self.bytes()),
            r is Err ==> (r matches Err(RiffError::PayloadLenMismatch(_))),
            r matches Ok(it) ==> ({
                let plen = spec_payload_len(self.bytes());
                if plen < 4 {
                    it.is_failed()
                } else {
                    &&& it.is_active()
                    &&& it.pos() == 0
                    &&& it.region_bytes() == self.bytes().subrange(12, 8 + plen)
                }
            }),
    {
        proof {
            use_type_invariant(self);
        }
        match ChunkRam::from_raw_u8(self.data.as_slice()) {
            Ok(c) => Ok(c.iter()),
            Err(e) => Err(e),
        }
    }
}

/// Where an iterator over children stands: still walking, failed before it
/// could start, or finished for good — by reaching the end or by yielding
/// an error once.
#[derive(Debug, Clone, Copy, PartialEq, Eq, Structural)]
enum IterStatus {
    Active,
    Failed,
    Exhausted,
}

/// An iterator over the children of a chunk.  It re-reads a child header at
/// the cursor on every step, advances by the child's padded size, and stops
/// for good either at the region's end or right after yielding the first
/// error — one malformed child poisons the rest of the run.
#[derive(Debug)]
pub struct ChunkRamIter<'a> {
    region: &'a [u8],
    cursor: usize,
    status: IterStatus,
}

impl<'a> ChunkRamIter<'a> {
    /// The byte region the iterator walks: the parent's content, without
    /// the header and without a typed container's form type.
    pub closed spec fn region_bytes(&self) -> Seq<u8> {
        self.region@
    }

    /// The cursor: where in the region the next child would be read.
    pub closed spec fn pos(&self) -> int {
        self.cursor as int
    }

    /// Whether the iterator is still walking.
    pub closed spec fn is_active(&self) -> bool {
        self.status is Active
    }

    /// Whether the iterator failed before it could start.
    pub closed spec fn is_failed(&self) -> bool {
        self.status is Failed
    }

    /// Whether the iterator is finished for good.
    pub closed spec fn is_exhausted(&self) -> bool {
        self.status is Exhausted
    }

    #[verifier::type_invariant]
    spec fn inv(&self) -> bool {
        self.cursor <= self.region@.len()
    }

    /// The three states are all there are: an iterator is always walking,
    /// failed at the start, or finished for good.
    pub proof fn lemma_status_exhaustive(&self)
        ensures
            self.is_active() || self.is_failed() || self.is_exhausted(),
    {
    }

    /// Yields the next child.  At the region's end, or after an earlier
    /// error, nothing comes; on a well-placed child the chunk view comes
    /// and the cursor advances past the child's pad; on a malformed child
    /// one error comes and the iterator is exhausted for good.
    pub fn next(&mut self) -> (r: Option<RiffResult<ChunkRam<'a>>>)
        ensures
            final(self).region_bytes() == old(self).region_bytes(),
            0 <= final(self).pos() <= final(self).region_bytes().len(),
            old(self).is_exhausted() ==> (r is None && final(self).is_exhausted()
                && final(self).pos() == old(self).pos()),
            old(self).is_failed() ==> ((r matches Some(
                Err(RiffError::ChunkTooSmallForChunkType(_)),
            )) && final(self).is_exhausted()),
            old(self).is_active() ==> ({
                let region = old(self).region_bytes();
                let pos = old(self).pos();
                if pos == region.len() {
                    r is None && final(self).is_exhausted()
                } else if pos + 8 > region.len() {
                    (r matches Some(Err(RiffError::ChunkTooSmall(_))))
                        && final(self).is_exhausted()
                } else if spec_advance(pos, child_payload_at(region, pos)) > region.len() {
                    (r matches Some(Err(RiffError::PayloadLenMismatch(_))))
                        && final(self).is_exhausted()
                } else {
                    let plen = child_payload_at(region, pos);
                    &&& r matches Some(Ok(c)) && c.bytes() == region.subrange(pos, pos + 8 + plen)
                    &&& final(self).is_active()
                    &&& final(self).pos() == spec_advance(pos, plen)
                }
            }),
    {
        proof {
            use_type_invariant(&*self);
        }
        match self.status {
            IterStatus::Exhausted => None,
            IterStatus::Failed => {
                self.status = IterStatus::Exhausted;
                Some(
                    Err(
                        RiffError::ChunkTooSmallForChunkType(
                            ChunkTooSmallForChunkType { data: slice_to_vec(self.region) },
                        ),
                    ),
                )
            },
            IterStatus::Active => {
                if self.cursor == self.region.len() {
                    self.status = IterStatus::Exhausted;
                    None
                } else if self.region.len() - self.cursor < 8 {
                    self.status = IterStatus::Exhausted;
                    Some(
                        Err(
                            RiffError::ChunkTooSmall(
                                ChunkTooSmall {
                                    data: slice_to_vec(
                                        slice_subrange(self.region, self.cursor, self.region.len()),
                                    ),
                                },
                            ),
                        ),
                    )
                } else {
                    let plen = u32_from_le_bytes(
                        slice_subrange(self.region, self.cursor + 4, self.cursor + 8),
                    );
                    let rem = self.region.len() - self.cursor;
                    if plen as u64 + (plen % 2) as u64 > rem as u64 - 8 {
                        self.status = IterStatus::Exhausted;
                        Some(
                            Err(
                                RiffError::PayloadLenMismatch(
                                    PayloadLenMismatch {
                                        data: slice_to_vec(
                                            slice_subrange(
                                                self.region,
                                                self.cursor,
                                                self.region.len(),
                                            ),
                                        ),
                                    },
                                ),
                            ),
                        )
                    } else {
                        let child = slice_subrange(
                            self.region,
                            self.cursor,
                            self.cursor + 8 + plen as usize,
                        );
                        proof {
                            assert(child@.subrange(4, 8) =~= self.region@.subrange(
                                self.cursor + 4,
                                self.cursor + 8,
                            ));
                        }
                        let c = ChunkRam { data: child };
                        self.cursor = self.cursor + 8 + plen as usize + (plen % 2) as usize;
                        Some(Ok(c))
                    }
                }
            },
        }
    }
}

/// A chunk's contents, fully materialized: raw bytes for a leaf, child
/// contents for a container, with the form type of a typed container.
#[derive(Debug)]
pub enum ChunkRamContent<'a> {
    /// A leaf chunk: its identifier and its raw content.
    RawData(FourCC, &'a [u8]),
    /// A typed container: its identifier, its form type, and its children.
    Children(FourCC, FourCC, Vec<ChunkRamContent<'a>>),
    /// An untyped container: its identifier and its children.
    ChildrenNoType(FourCC, Vec<ChunkRamContent<'a>>),
}

/// The abstract tree a materialized content stands for.
pub open spec fn content_abs<'a>(c: ChunkRamContent<'a>) -> ChunkTree
    decreases c,
{
    match c {
        ChunkRamContent::RawData(id, bytes) => ChunkTree::Leaf { id: id@, content: bytes@ },
        ChunkRamContent::Children(id, form, v) => ChunkTree::Typed {
            id: id@,
            form: form@,
            children: content_abs_list(v@),
        },
        ChunkRamContent::ChildrenNoType(id, v) => ChunkTree::Untyped {
            id: id@,
            children: content_abs_list(v@),
        },
    }
}

/// The abstract trees of a sequence of materialized contents, in order.
pub open spec fn content_abs_list<'a>(cs: Seq<ChunkRamContent<'a>>) -> Seq<ChunkTree>
    decreases cs,
{
    if cs.len() == 0 {
        Seq::<ChunkTree>::empty()
    } else {
        seq![content_abs(cs[0])] + content_abs_list(cs.drop_first())
    }
}

/// Appending a content appends its abstract tree.
proof fn lemma_content_abs_list_push<'a>(cs: Seq<ChunkRamContent<'a>>, c: ChunkRamContent<'a>)
    ensures
        content_abs_list(cs.push(c)) == content_abs_list(cs).push(content_abs(c)),
    decreases cs,
{
    if cs.len() == 0 {
        assert(cs.push(c)[0] == c);
        assert(cs.push(c).drop_first() =~= Seq::<ChunkRamContent<'a>>::empty());
        assert(content_abs_list(Seq::<ChunkRamContent<'a>>::empty()) =~= Seq::<
            ChunkTree,
        >::empty());
        assert(content_abs_list(cs.push(c)) =~= content_abs_list(cs).push(content_abs(c)));
    } else {
        assert(cs.push(c)[0] == cs[0]);
        assert(cs.push(c).drop_first() =~= cs.drop_first().push(c));
        lemma_content_abs_list_push(cs.drop_first(), c);
        assert(content_abs_list(cs.push(c)) =~= content_abs_list(cs).push(content_abs(c)));
    }
}

/// Walks an iterator to its end, materializing every child.  Succeeds
/// exactly when the whole region parses as a run of sibling chunks, and
/// then returns their contents in order; the first malformed child's error
/// is returned instead.
#[verifier::loop_isolation(false)]
fn collect_children<'a>(mut it: ChunkRamIter<'a>) -> (r: RiffResult<Vec<ChunkRamContent<'a>>>)
    requires
        it.is_active(),
        it.pos() == 0,
    ensures
        r is Ok <==> parse_children_from(it.region_bytes(), 0) is Some,
        r matches Ok(v) ==> parse_children_from(it.region_bytes(), 0) == Some(
            content_abs_list(v@),
        ),
    decreases it.region_bytes().len(), 1int,
{
    let ghost region = it.region_bytes();
    let mut out: Vec<ChunkRamContent<'a>> = Vec::new();
    let mut failure: Option<RiffError> = None;
    let mut done = false;
    proof {
        assert(content_abs_list(out@) =~= Seq::<ChunkTree>::empty());
    }
    while !done
        invariant
            it.region_bytes() == region,
            0 <= it.pos() <= region.len(),
            !done ==> ({
                &&& failure is None
                &&& it.is_active()
                &&& (parse_children_from(region, it.pos()) matches Some(rest)
                    ==> parse_children_from(region, 0) == Some(content_abs_list(out@) + rest))
                &&& (parse_children_from(region, it.pos()) is None ==> parse_children_from(
                    region,
                    0,
                ) is None)
            }),
            done ==> (match failure {
                None => parse_children_from(region, 0) == Some(content_abs_list(out@)),
                Some(_) => parse_children_from(region, 0) is None,
            }),
        decreases (if done {
            0int
        } else {
            1int
        }), region.len() - it.pos(),
    {
        let ghost pos0 = it.pos();
        let step = it.next();
        match step {
            None => {
                proof {
                    assert(parse_children_from(region, pos0) == Some(Seq::<ChunkTree>::empty()));
                    assert(content_abs_list(out@) + Seq::<ChunkTree>::empty() =~= content_abs_list(
                        out@,
                    ));
                }
                done = true;
            },
            Some(Ok(c)) => {
                let ghost plen = child_payload_at(region, pos0);
                let ghost next = spec_advance(pos0, plen);
                proof {
                    crate::model::lemma_parse_children_step(region, pos0);
                    assert(c.bytes() == region.subrange(pos0, pos0 + 8 + plen));
                    assert(c.bytes().len() == 8 + plen);
                    assert(8 + plen <= region.len());
                }
                match ChunkRamContent::from_chunk(c) {
                    Ok(item) => {
                        proof {
                            lemma_content_abs_list_push(out@, item);
                            if parse_children_from(region, next) is Some {
                                let rest2 = parse_children_from(region, next)->0;
                                assert(parse_children_from(region, pos0) == Some(
                                    seq![content_abs(item)] + rest2,
                                ));
                                assert(content_abs_list(out@) + (seq![content_abs(item)] + rest2)
                                    =~= content_abs_list(out@).push(content_abs(item)) + rest2);
                            }
                        }
                        out.push(item);
                    },
                    Err(e) => {
                        proof {
                            assert(parse_chunk(c.bytes()) is None);
                            assert(parse_children_from(region, pos0) is None);
                        }
                        failure = Some(e);
                        done = true;
                    },
                }
            },
            Some(Err(e)) => {
                proof {
                    crate::model::lemma_parse_children_stuck(region, pos0);
                }
                failure = Some(e);
                done = true;
            },
        }
    }
    match failure {
        None => Ok(out),
        Some(e) => Err(e),
    }
}

impl<'a> ChunkRamContent<'a> {
    /// Materializes a chunk's contents, walking the whole subtree beneath
    /// it.  Succeeds exactly when the chunk's bytes parse under the model,
    /// and then returns the very tree the parser describes; the first
    /// structural fault found is returned as the error.
    pub fn from_chunk(chunk: ChunkRam<'a>) -> (r: RiffResult<ChunkRamContent<'a>>)
        ensures
            r is Ok <==> parse_chunk(chunk.bytes()) is Some,
            r matches Ok(c) ==> parse_chunk(chunk.bytes()) == Some(content_abs(c)),
        decreases chunk.bytes().len(), 0int,
    {
        proof {
            use_type_invariant(&chunk);
        }
        let id = chunk.id();
        match id.classify() {
            ChunkClass::Leaf => {
                match chunk.get_raw_child() {
                    Ok(raw) => Ok(ChunkRamContent::RawData(id, raw)),
                    Err(e) => {
                        proof {
                            assert(false);
                        }
                        Err(e)
                    },
                }
            },
            ChunkClass::TypedContainer => {
                match chunk.chunk_type() {
                    Ok(form) => {
                        let it = chunk.iter();
                        match collect_children(it) {
                            Ok(v) => Ok(ChunkRamContent::Children(id, form, v)),
                            Err(e) => Err(e),
                        }
                    },
                    Err(e) => Err(e),
                }
            },
            ChunkClass::UntypedContainer => {
                let it = chunk.iter();
                match collect_children(it) {
                    Ok(v) => Ok(ChunkRamContent::ChildrenNoType(id, v)),
                    Err(e) => Err(e),
                }
            },
        }
    }
}

} // verus!
