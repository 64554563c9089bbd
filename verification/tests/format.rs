use riffu::builder::{ChunkBuilder, ChunkData, RiffBuilder};
use riffu::eager::{ChunkRam, ChunkRamContent, RiffRam};
use riffu::error::RiffError;
use riffu::FourCC;

#[test]
fn fourcc_from_text_accepts_exactly_four_bytes() {
    assert!(FourCC::from_text("smpl").is_ok());
    assert_eq!(FourCC::from_text("smpl").unwrap().as_bytes(), b"smpl");
    assert!(matches!(
        FourCC::from_text("abc"),
        Err(RiffError::LengthMismatch)
    ));
    assert!(matches!(
        FourCC::from_text("abcde"),
        Err(RiffError::LengthMismatch)
    ));
    // Two characters, but four bytes once encoded.
    let f = FourCC::from_text("a\u{20ac}").unwrap();
    assert_eq!(f.as_bytes(), &[0x61, 0xe2, 0x82, 0xac]);
    // Four characters, five bytes once encoded.
    assert!(matches!(
        FourCC::from_text("ab\u{e9}c"),
        Err(RiffError::LengthMismatch)
    ));
}

#[test]
fn fourcc_as_text_fails_exactly_on_invalid_utf8() {
    assert_eq!(FourCC::new(b"RIFF").as_text().unwrap(), "RIFF");
    assert_eq!(
        FourCC::new(&[0x61, 0xe2, 0x82, 0xac]).as_text().unwrap(),
        "a\u{20ac}"
    );
    assert!(matches!(
        FourCC::new(&[0xff, 0xfe, 0xfd, 0xfc]).as_text(),
        Err(RiffError::Utf8Error)
    ));
    assert_eq!(FourCC::new(b"smpl").into_bytes(), *b"smpl");
}

#[test]
fn truncated_file_is_too_small() {
    // Any well-formed file cut to seven bytes fails cleanly at load time.
    let whole = vec![
        82u8, 73, 70, 70, 14, 0, 0, 0, 115, 109, 112, 108, 116, 101, 115, 116, 1, 0, 0, 0, 255, 0,
    ];
    let truncated: Vec<u8> = whole[..7].to_vec();
    assert!(matches!(
        RiffRam::from_bytes(truncated),
        Err(RiffError::ChunkTooSmall(_))
    ));
    assert!(matches!(
        RiffRam::from_bytes(Vec::new()),
        Err(RiffError::ChunkTooSmall(_))
    ));
}

#[test]
fn wrong_root_identifier_is_invalid_header() {
    let bytes = vec![74u8, 85, 78, 75, 4, 0, 0, 0, 115, 109, 112, 108];
    assert!(matches!(
        RiffRam::from_bytes(bytes),
        Err(RiffError::InvalidRiffHeader)
    ));
}

#[test]
fn declared_length_beyond_buffer_is_payload_mismatch() {
    // The root declares 20 payload bytes but only 6 follow the header.
    let mut bytes = vec![82u8, 73, 70, 70];
    bytes.extend_from_slice(&20u32.to_le_bytes());
    bytes.extend_from_slice(b"smpl");
    bytes.extend_from_slice(&[0, 0]);
    let file = RiffRam::from_bytes(bytes).unwrap();
    assert!(matches!(
        file.iter(),
        Err(RiffError::PayloadLenMismatch(_))
    ));
}

#[test]
fn chunk_type_of_a_leaf_fails() {
    let bytes = vec![116u8, 101, 115, 116, 4, 0, 0, 0, 1, 2, 3, 4];
    let chunk = ChunkRam::from_raw_u8(&bytes).unwrap();
    assert!(matches!(
        chunk.chunk_type(),
        Err(RiffError::ChunkTooSmallForChunkType(_))
    ));
    // The four payload bytes are content, not a form type.
    assert_eq!(chunk.get_raw_child().unwrap(), &[1, 2, 3, 4]);
}

#[test]
fn typed_container_too_small_for_its_form_type() {
    // A `LIST` whose two payload bytes cannot hold the four form-type
    // bytes: the form type, the content and the children all fail cleanly.
    let bytes = vec![76u8, 73, 83, 84, 2, 0, 0, 0, 9, 9];
    let chunk = ChunkRam::from_raw_u8(&bytes).unwrap();
    assert!(matches!(
        chunk.chunk_type(),
        Err(RiffError::ChunkTooSmallForChunkType(_))
    ));
    assert!(matches!(
        chunk.get_raw_child(),
        Err(RiffError::PayloadLenMismatch(_))
    ));
    let mut it = chunk.iter();
    assert!(matches!(
        it.next(),
        Some(Err(RiffError::ChunkTooSmallForChunkType(_)))
    ));
    assert!(it.next().is_none());
}

#[test]
fn appending_to_a_leaf_fails() {
    let leaf = ChunkBuilder::new_notype(FourCC::new(b"test"), ChunkData::RawData(vec![1]));
    let other = ChunkBuilder::new_notype(FourCC::new(b"tst2"), ChunkData::RawData(vec![2]));
    assert!(matches!(
        leaf.add_chunk(other),
        Err(RiffError::MismatchChunkAdded)
    ));
}

#[test]
fn oversized_payload_is_size_overflow() {
    // A synthetic node whose declared payload length already sits at the
    // 32-bit ceiling: no root payload can represent it and its header.
    let huge = ChunkBuilder {
        chunk_id: FourCC::new(b"hugh"),
        payload_len: u32::MAX,
        chunk_type: None,
        data: ChunkData::RawData(vec![]),
    };
    assert!(matches!(
        RiffBuilder::new(FourCC::new(b"smpl")).add_chunk(huge),
        Err(RiffError::SizeOverflow)
    ));
}

#[test]
fn odd_leaf_payload_gets_one_zero_pad_byte() {
    // A three-byte leaf: the wire carries one trailing zero pad byte that
    // the declared payload length does not count.
    let built = RiffBuilder::new(FourCC::new(b"smpl"))
        .add_chunk(ChunkBuilder::new_notype(
            FourCC::new(b"test"),
            ChunkData::RawData(vec![1, 2, 3]),
        ))
        .unwrap();
    let bytes = built.to_bytes();
    let mut expected = vec![82u8, 73, 70, 70];
    expected.extend_from_slice(&16u32.to_le_bytes());
    expected.extend_from_slice(b"smpl");
    expected.extend_from_slice(b"test");
    expected.extend_from_slice(&3u32.to_le_bytes());
    expected.extend_from_slice(&[1, 2, 3, 0]);
    assert_eq!(bytes, expected);
    // Reading it back: the payload length and content exclude the pad.
    let file = RiffRam::from_bytes(bytes).unwrap();
    let mut it = file.iter().unwrap();
    let child = it.next().unwrap().unwrap();
    assert_eq!(child.payload_len(), 3);
    assert_eq!(child.get_raw_child().unwrap(), &[1, 2, 3]);
    assert!(it.next().is_none());
}

#[test]
fn list_with_odd_leaves_parses_past_the_pad() {
    // A `LIST` of type `tst1` holding two `test` leaves with odd-length
    // string payloads; the pad byte after the first does not disturb the
    // second.
    let mut bytes = Vec::new();
    bytes.extend_from_slice(b"LIST");
    bytes.extend_from_slice(&34u32.to_le_bytes());
    bytes.extend_from_slice(b"tst1");
    bytes.extend_from_slice(b"test");
    bytes.extend_from_slice(&5u32.to_le_bytes());
    bytes.extend_from_slice(b"five!");
    bytes.push(0);
    bytes.extend_from_slice(b"test");
    bytes.extend_from_slice(&7u32.to_le_bytes());
    bytes.extend_from_slice(b"seven!!");
    bytes.push(0);
    let chunk = ChunkRam::from_raw_u8(&bytes).unwrap();
    assert_eq!(chunk.id().as_bytes(), b"LIST");
    assert_eq!(chunk.chunk_type().unwrap().as_bytes(), b"tst1");
    let mut it = chunk.iter();
    let first = it.next().unwrap().unwrap();
    assert_eq!(first.id().as_bytes(), b"test");
    assert_eq!(first.get_raw_child().unwrap(), b"five!");
    let second = it.next().unwrap().unwrap();
    assert_eq!(second.id().as_bytes(), b"test");
    assert_eq!(second.get_raw_child().unwrap(), b"seven!!");
    assert!(it.next().is_none());
}

#[test]
fn iteration_error_is_sticky() {
    // The single child claims more payload than the region holds: one
    // length-mismatch error comes, then nothing, forever.
    let mut bytes = vec![82u8, 73, 70, 70];
    bytes.extend_from_slice(&16u32.to_le_bytes());
    bytes.extend_from_slice(b"smpl");
    bytes.extend_from_slice(b"test");
    bytes.extend_from_slice(&100u32.to_le_bytes());
    bytes.extend_from_slice(&[0, 0, 0, 0]);
    let file = RiffRam::from_bytes(bytes).unwrap();
    let mut it = file.iter().unwrap();
    assert!(matches!(
        it.next(),
        Some(Err(RiffError::PayloadLenMismatch(_)))
    ));
    assert!(it.next().is_none());
    assert!(it.next().is_none());
}

#[test]
fn trailing_bytes_short_of_a_header_are_too_small() {
    // Four bytes remain where a child header needs eight: one too-small
    // error comes, then nothing.
    let mut bytes = vec![82u8, 73, 70, 70];
    bytes.extend_from_slice(&8u32.to_le_bytes());
    bytes.extend_from_slice(b"smpl");
    bytes.extend_from_slice(&[1, 2, 3, 4]);
    let file = RiffRam::from_bytes(bytes).unwrap();
    let mut it = file.iter().unwrap();
    assert!(matches!(
        it.next(),
        Some(Err(RiffError::ChunkTooSmall(_)))
    ));
    assert!(it.next().is_none());
}

#[test]
fn round_trip_two_leaves() {
    // Builder to bytes, bytes back through the eager reader: the same two
    // (identifier, content) pairs come out, in the order they went in, and
    // the bytes equal the reference image.
    let built = RiffBuilder::new(FourCC::new(b"smpl"))
        .add_chunk(ChunkBuilder::new_notype(
            FourCC::new(b"tst1"),
            ChunkData::RawData(vec![0xff]),
        ))
        .unwrap()
        .add_chunk(ChunkBuilder::new_notype(
            FourCC::new(b"tst2"),
            ChunkData::RawData(vec![0xee]),
        ))
        .unwrap();
    let bytes = built.to_bytes();
    let mut reference = vec![82u8, 73, 70, 70, 24, 0, 0, 0, 115, 109, 112, 108];
    reference.extend_from_slice(b"tst1");
    reference.extend_from_slice(&[1, 0, 0, 0, 255, 0]);
    reference.extend_from_slice(b"tst2");
    reference.extend_from_slice(&[1, 0, 0, 0, 238, 0]);
    assert_eq!(bytes, reference);
    let file = RiffRam::from_bytes(bytes).unwrap();
    let mut it = file.iter().unwrap();
    let first = it.next().unwrap().unwrap();
    assert_eq!(first.id().as_bytes(), b"tst1");
    assert_eq!(first.get_raw_child().unwrap(), &[0xff]);
    let second = it.next().unwrap().unwrap();
    assert_eq!(second.id().as_bytes(), b"tst2");
    assert_eq!(second.get_raw_child().unwrap(), &[0xee]);
    assert!(it.next().is_none());
}

#[test]
fn round_trip_nested_tree_through_content() {
    // A full tree — typed list, untyped list, odd and even leaves — walks
    // back out of the serialized bytes with every identifier, form type
    // and content intact.
    let built = RiffBuilder::new(FourCC::new(b"smpl"))
        .add_chunk(ChunkBuilder::new_type(
            FourCC::new(b"LIST"),
            FourCC::new(b"tst1"),
            ChunkData::ChunkList(vec![
                ChunkBuilder::new_notype(FourCC::new(b"one "), ChunkData::RawData(vec![9])),
                ChunkBuilder::new_notype(
                    FourCC::new(b"two "),
                    ChunkData::RawData(vec![1, 2, 3, 4]),
                ),
            ]),
        ))
        .unwrap()
        .add_chunk(ChunkBuilder::new_notype(
            FourCC::new(b"seqt"),
            ChunkData::ChunkList(vec![ChunkBuilder::new_notype(
                FourCC::new(b"thre"),
                ChunkData::RawData(vec![7, 7, 7]),
            )]),
        ))
        .unwrap();
    let bytes = built.to_bytes();
    let file = RiffRam::from_bytes(bytes).unwrap();
    let root = ChunkRam::from_raw_u8(file.as_bytes()).unwrap();
    let content = ChunkRamContent::from_chunk(root).unwrap();
    match content {
        ChunkRamContent::Children(id, form, children) => {
            assert_eq!(id.as_bytes(), b"RIFF");
            assert_eq!(form.as_bytes(), b"smpl");
            assert_eq!(children.len(), 2);
            match &children[0] {
                ChunkRamContent::Children(list_id, list_form, leaves) => {
                    assert_eq!(list_id.as_bytes(), b"LIST");
                    assert_eq!(list_form.as_bytes(), b"tst1");
                    assert_eq!(leaves.len(), 2);
                    match (&leaves[0], &leaves[1]) {
                        (
                            ChunkRamContent::RawData(a_id, a_bytes),
                            ChunkRamContent::RawData(b_id, b_bytes),
                        ) => {
                            assert_eq!(a_id.as_bytes(), b"one ");
                            assert_eq!(*a_bytes, &[9]);
                            assert_eq!(b_id.as_bytes(), b"two ");
                            assert_eq!(*b_bytes, &[1, 2, 3, 4]);
                        }
                        _ => panic!("expected two leaves"),
                    }
                }
                _ => panic!("expected a typed list first"),
            }
            match &children[1] {
                ChunkRamContent::ChildrenNoType(seqt_id, leaves) => {
                    assert_eq!(seqt_id.as_bytes(), b"seqt");
                    assert_eq!(leaves.len(), 1);
                    match &leaves[0] {
                        ChunkRamContent::RawData(c_id, c_bytes) => {
                            assert_eq!(c_id.as_bytes(), b"thre");
                            assert_eq!(*c_bytes, &[7, 7, 7]);
                        }
                        _ => panic!("expected a leaf"),
                    }
                }
                _ => panic!("expected an untyped list second"),
            }
        }
        _ => panic!("expected a typed root"),
    }
}
