use riffu::builder::{ChunkBuilder, ChunkData, RiffBuilder};
use riffu::eager::RiffRam;
use riffu::FourCC;

/// The bytes of a minimal file: `RIFF` len=14 `smpl`, one `test` leaf with
/// payload `[0xFF]` and one pad byte.
fn builder_set_1_bytes() -> Vec<u8> {
    vec![
        82, 73, 70, 70, 14, 0, 0, 0, 115, 109, 112, 108, 116, 101, 115, 116, 1, 0, 0, 0, 255, 0,
    ]
}

/// `RIFF` len=24 `smpl`, leaves `tst1:[0xFF]` and `tst2:[0xEE]`, each padded.
fn builder_set_2_bytes() -> Vec<u8> {
    let mut v = vec![82, 73, 70, 70, 24, 0, 0, 0, 115, 109, 112, 108];
    v.extend_from_slice(b"tst1");
    v.extend_from_slice(&[1, 0, 0, 0, 255, 0]);
    v.extend_from_slice(b"tst2");
    v.extend_from_slice(&[1, 0, 0, 0, 238, 0]);
    v
}

/// `RIFF` len=100 `smpl`, a `LIST` of type `tst1` with two `test` leaves,
/// then a `seqt` container with one `test` leaf.
fn builder_set_3_bytes() -> Vec<u8> {
    let mut v = vec![82, 73, 70, 70, 100, 0, 0, 0, 115, 109, 112, 108];
    v.extend_from_slice(b"LIST");
    v.extend_from_slice(&[62, 0, 0, 0]);
    v.extend_from_slice(b"tst1");
    v.extend_from_slice(b"test");
    v.extend_from_slice(&[18, 0, 0, 0]);
    v.extend_from_slice(b"hey this is a test");
    v.extend_from_slice(b"test");
    v.extend_from_slice(&[24, 0, 0, 0]);
    v.extend_from_slice(b"hey this is another test");
    v.extend_from_slice(b"seqt");
    v.extend_from_slice(&[18, 0, 0, 0]);
    v.extend_from_slice(b"test");
    v.extend_from_slice(&[10, 0, 0, 0]);
    v.extend_from_slice(b"final test");
    v
}

#[test]
pub fn test_size() {
    let r = b"smpl";
    assert_eq!(RiffBuilder::new(FourCC::new(r)).payload_len, 4);
    let chunk_1 = ChunkBuilder::new_type(
        FourCC::new(b"test"),
        FourCC::new(b"test"),
        ChunkData::RawData(vec![]),
    );
    assert_eq!(chunk_1.payload_len, 4);
    let chunk_2 = ChunkBuilder::new_notype(FourCC::new(b"test"), ChunkData::RawData(vec![]));
    assert_eq!(chunk_2.payload_len, 0);
    let built_riff = RiffBuilder::new(FourCC::new(b"smpl"))
        .add_chunk(chunk_1)
        .unwrap()
        .add_chunk(chunk_2)
        .unwrap();
    assert_eq!(built_riff.payload_len, 4 + (4 + 4 + 4) + (4 + 4));
}

#[test]
pub fn builder_test_set_1() {
    let read_riff = RiffRam::from_bytes(builder_set_1_bytes()).unwrap();
    let built_riff = RiffBuilder::new(FourCC::new(b"smpl"))
        .add_chunk(ChunkBuilder::new_notype(
            FourCC::new(b"test"),
            ChunkData::RawData(vec![255]),
        ))
        .unwrap();
    assert_eq!(read_riff.as_bytes(), built_riff.to_bytes().as_slice());
}

#[test]
pub fn builder_test_set_2() {
    let read_riff = RiffRam::from_bytes(builder_set_2_bytes()).unwrap();
    let built_riff = RiffBuilder::new(FourCC::new(b"smpl"))
        .add_chunk(ChunkBuilder::new_notype(
            FourCC::new(b"tst1"),
            ChunkData::RawData(vec![255]),
        ))
        .unwrap()
        .add_chunk(ChunkBuilder::new_notype(
            FourCC::new(b"tst2"),
            ChunkData::RawData(vec![238]),
        ))
        .unwrap();
    assert_eq!(read_riff.as_bytes(), built_riff.to_bytes().as_slice());
}

#[test]
pub fn builder_test_set_3() {
    let read_riff = RiffRam::from_bytes(builder_set_3_bytes()).unwrap();
    let built_riff = RiffBuilder::new(FourCC::new(b"smpl"))
        .add_chunk(ChunkBuilder::new_type(
            FourCC::new(b"LIST"),
            FourCC::new(b"tst1"),
            ChunkData::ChunkList(vec![
                ChunkBuilder::new_notype(
                    FourCC::new(b"test"),
                    ChunkData::RawData("hey this is a test".into()),
                ),
                ChunkBuilder::new_notype(
                    FourCC::new(b"test"),
                    ChunkData::RawData("hey this is another test".into()),
                ),
            ]),
        ))
        .unwrap()
        .add_chunk(ChunkBuilder::new_notype(
            FourCC::new(b"seqt"),
            ChunkData::ChunkList(vec![ChunkBuilder::new_notype(
                FourCC::new(b"test"),
                ChunkData::RawData("final test".into()),
            )]),
        ))
        .unwrap();
    assert_eq!(read_riff.as_bytes(), built_riff.to_bytes().as_slice());
}
