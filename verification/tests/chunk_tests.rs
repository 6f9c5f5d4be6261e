use rust_secret_png::chunk::{Chunk, Frame};
use rust_secret_png::chunk_type::ChunkType;
use rust_secret_png::error::PngError;
use rust_secret_png::text::render_bytes;
use rust_secret_png::wire::{append_bytes, u32_from_be, u32_to_be};

fn testing_chunk() -> Chunk {
    let chunk_type = ChunkType::from_str("RuSt").unwrap();
    let data: Vec<u8> = "This is where your secret message will be!"
        .bytes()
        .collect();
    Chunk::new(chunk_type, data).unwrap()
}

fn testing_bytes(crc: u32) -> Vec<u8> {
    let data_length: u32 = 42;
    let chunk_type = "RuSt".as_bytes();
    let message_bytes = "This is where your secret message will be!".as_bytes();
    data_length
        .to_be_bytes()
        .iter()
        .chain(chunk_type.iter())
        .chain(message_bytes.iter())
        .chain(crc.to_be_bytes().iter())
        .copied()
        .collect()
}

#[test]
fn test_chunk_length() {
    let chunk = testing_chunk();
    assert_eq!(chunk.length(), 42);
}

#[test]
fn test_chunk_type() {
    let chunk = testing_chunk();
    assert_eq!(chunk.chunk_type().to_string(), String::from("RuSt"));
}

#[test]
fn test_chunk_string() {
    let chunk = testing_chunk();
    let chunk_string = chunk.data_as_string().unwrap();
    let expected_chunk_string = String::from("This is where your secret message will be!");
    assert_eq!(chunk_string, expected_chunk_string);
}

#[test]
fn test_chunk_crc() {
    let chunk = testing_chunk();
    assert_eq!(chunk.crc(), 2882656334);
}

#[test]
fn test_valid_chunk_from_bytes() {
    let data_length: u32 = 42;
    let chunk_type = "RuSt".as_bytes();
    let message_bytes = "This is where your secret message will be!".as_bytes();
    let crc: u32 = 2882656334;

    let chunk_data: Vec<u8> = data_length
        .to_be_bytes()
        .iter()
        .chain(chunk_type.iter())
        .chain(message_bytes.iter())
        .chain(crc.to_be_bytes().iter())
        .copied()
        .collect();

    let chunk = Chunk::try_from(chunk_data.as_ref()).unwrap();

    let chunk_string = chunk.data_as_string().unwrap();
    let expected_chunk_string = String::from("This is where your secret message will be!");

    assert_eq!(chunk.length(), 42);
    assert_eq!(chunk.chunk_type().to_string(), String::from("RuSt"));
    assert_eq!(chunk_string, expected_chunk_string);
    assert_eq!(chunk.crc(), 2882656334);
}

#[test]
fn test_invalid_chunk_from_bytes() {
    let data_length: u32 = 42;
    let chunk_type = "RuSt".as_bytes();
    let message_bytes = "This is where your secret message will be!".as_bytes();
    let crc: u32 = 111111111;

    let chunk_data: Vec<u8> = data_length
        .to_be_bytes()
        .iter()
        .chain(chunk_type.iter())
        .chain(message_bytes.iter())
        .chain(crc.to_be_bytes().iter())
        .copied()
        .collect();

    let chunk = Chunk::try_from(chunk_data.as_ref());

    assert!(chunk.is_err());
}

#[test]
fn wrong_checksum_is_a_crc_mismatch() {
    let bytes = testing_bytes(111111111);
    assert_eq!(Chunk::try_from(&bytes).unwrap_err(), PngError::CrcMismatch);
}

#[test]
fn checksum_is_crc32_of_tag_and_payload() {
    assert_eq!(Chunk::calculate_crc(b"IEND", b""), 0xae42_6082);
    assert_eq!(Chunk::calculate_crc(b"", b"123456789"), 0xcbf4_3926);
    assert_eq!(Chunk::calculate_crc(b"1234", b"56789"), 0xcbf4_3926);
    assert_eq!(Chunk::calculate_crc(b"", b""), 0);
    let end = Chunk::new(ChunkType::new(*b"IEND"), Vec::new()).unwrap();
    assert_eq!(end.crc(), 0xae42_6082);
    assert_eq!(end.length(), 0);
}

#[test]
fn serialized_chunk_is_length_tag_payload_checksum() {
    let chunk = testing_chunk();
    assert_eq!(chunk.as_bytes(), testing_bytes(2882656334));
    let end = Chunk::new(ChunkType::new(*b"IEND"), Vec::new()).unwrap();
    assert_eq!(
        end.as_bytes(),
        vec![0, 0, 0, 0, 0x49, 0x45, 0x4e, 0x44, 0xae, 0x42, 0x60, 0x82]
    );
}

#[test]
fn chunk_round_trip() {
    let payloads: Vec<Vec<u8>> = vec![
        Vec::new(),
        vec![0],
        vec![255, 0, 128, 7],
        (0..=255).collect(),
        vec![9; 70000],
    ];
    for name in ["RuSt", "ruSt", "IEND", "tEXt", "zZZz"] {
        for payload in payloads.iter() {
            let tag = ChunkType::from_str(name).unwrap();
            let chunk = Chunk::new(tag, payload.clone()).unwrap();
            let again = Chunk::try_from(&chunk.as_bytes()).unwrap();
            assert_eq!(again.length(), chunk.length());
            assert_eq!(again.length() as usize, payload.len());
            assert_eq!(again.chunk_type(), chunk.chunk_type());
            assert_eq!(again.chunk_type(), &tag);
            assert_eq!(again.data(), chunk.data());
            assert_eq!(again.data(), payload.as_slice());
            assert_eq!(again.crc(), chunk.crc());
            assert_eq!(again.as_bytes(), chunk.as_bytes());
        }
    }
}

#[test]
fn chunk_with_an_invalid_tag_does_not_read_back() {
    let chunk = Chunk::new(ChunkType::new(*b"Rust"), vec![1, 2, 3]).unwrap();
    assert_eq!(chunk.length(), 3);
    assert_eq!(
        Chunk::try_from(&chunk.as_bytes()).unwrap_err(),
        PngError::InvalidChunkType
    );
}

#[test]
fn bytes_behind_a_chunk_are_not_looked_at() {
    let mut bytes = testing_bytes(2882656334);
    bytes.extend_from_slice(&[1, 2, 3]);
    let chunk = Chunk::try_from(&bytes).unwrap();
    assert_eq!(chunk.length(), 42);
    assert_eq!(chunk.crc(), 2882656334);
}

#[test]
fn short_input_is_truncated() {
    let whole = testing_bytes(2882656334);
    for n in 0..12 {
        assert_eq!(
            Chunk::try_from(&whole[..n]).unwrap_err(),
            PngError::TruncatedChunk
        );
    }
    assert_eq!(Chunk::try_from(&[]).unwrap_err(), PngError::TruncatedChunk);
}

#[test]
fn input_shorter_than_its_length_field_is_truncated() {
    let whole = testing_bytes(2882656334);
    for n in 12..whole.len() {
        assert_eq!(
            Chunk::try_from(&whole[..n]).unwrap_err(),
            PngError::TruncatedChunk
        );
    }
    let huge = [0xff, 0xff, 0xff, 0xff, 82, 117, 83, 116, 0, 0, 0, 0, 0, 0];
    assert_eq!(Chunk::try_from(&huge).unwrap_err(), PngError::TruncatedChunk);
}

#[test]
fn truncation_is_reported_before_an_invalid_tag() {
    let bytes = [0, 0, 0, 9, b'R', b'u', b's', b't', 0, 0, 0, 0];
    assert_eq!(Chunk::try_from(&bytes).unwrap_err(), PngError::TruncatedChunk);
}

#[test]
fn invalid_tag_is_reported_before_a_wrong_checksum() {
    let bytes = [0, 0, 0, 0, b'R', b'u', b's', b't', 0, 0, 0, 0];
    assert_eq!(Chunk::try_from(&bytes).unwrap_err(), PngError::InvalidChunkType);
    let bytes = [0, 0, 0, 0, b'R', b'u', b'1', b't', 0, 0, 0, 0];
    assert_eq!(Chunk::try_from(&bytes).unwrap_err(), PngError::InvalidChunkType);
}

#[test]
fn flipping_a_bit_of_the_payload_is_a_crc_mismatch() {
    let whole = testing_bytes(2882656334);
    for at in 8..(8 + 42) {
        for bit in 0..8 {
            let mut bytes = whole.clone();
            bytes[at] ^= 1 << bit;
            assert_eq!(Chunk::try_from(&bytes).unwrap_err(), PngError::CrcMismatch);
        }
    }
}

#[test]
fn flipping_a_bit_of_the_tag_is_refused() {
    let whole = testing_bytes(2882656334);
    let mut mismatches = 0;
    for at in 4..8 {
        for bit in 0..8 {
            let mut bytes = whole.clone();
            bytes[at] ^= 1 << bit;
            let tag = [bytes[4], bytes[5], bytes[6], bytes[7]];
            let expected = if ChunkType::new(tag).is_valid() {
                mismatches += 1;
                PngError::CrcMismatch
            } else {
                PngError::InvalidChunkType
            };
            assert_eq!(Chunk::try_from(&bytes).unwrap_err(), expected);
        }
    }
    assert!(mismatches > 0);
}

#[test]
fn frame_is_read_without_judging_the_checksum() {
    let bytes = testing_bytes(111111111);
    let frame = Frame::read(&bytes).unwrap();
    assert_eq!(frame.chunk_type, ChunkType::new(*b"RuSt"));
    assert_eq!(frame.data, b"This is where your secret message will be!".to_vec());
    assert_eq!(frame.crc, 111111111);
    assert_eq!(frame.verify(111111111), Ok(()));
    assert_eq!(frame.verify(2882656334), Err(PngError::CrcMismatch));
    assert_eq!(Frame::read(&bytes[..20]).unwrap_err(), PngError::TruncatedChunk);
    let bad_tag = [0, 0, 0, 1, b'R', b'u', b's', b't', 7, 0, 0, 0, 0];
    assert_eq!(Frame::read(&bad_tag).unwrap_err(), PngError::InvalidChunkType);
    let one = [0, 0, 0, 1, b'R', b'u', b'S', b't', 7, 1, 2, 3, 4, 99];
    let frame = Frame::read(&one).unwrap();
    assert_eq!(frame.data, vec![7]);
    assert_eq!(frame.crc, 0x0102_0304);
}

#[test]
fn payload_is_rendered_byte_by_byte() {
    let chunk = Chunk::new(ChunkType::new(*b"RuSt"), vec![b'h', b'i', 0xe9, 0xff, 0]).unwrap();
    assert_eq!(chunk.to_string(), "hi\u{e9}\u{ff}\u{0}");
    assert_eq!(chunk.data_as_string(), Ok(String::from("hi\u{e9}\u{ff}\u{0}")));
    assert_eq!(render_bytes(b""), "");
    assert_eq!(render_bytes(b"hello"), "hello");
    assert_eq!(render_bytes(&[0x80]), "\u{80}");
}

#[test]
fn getters_give_what_the_chunk_was_built_from() {
    let chunk = Chunk::new(ChunkType::new(*b"tEXt"), vec![5, 6]).unwrap();
    assert_eq!(chunk.length(), 2);
    assert_eq!(chunk.chunk_type().bytes(), b"tEXt");
    assert_eq!(chunk.data(), &[5, 6]);
    assert_eq!(chunk.crc(), Chunk::calculate_crc(b"tEXt", &[5, 6]));
}

#[test]
fn big_endian_fields() {
    assert_eq!(u32_to_be(0), [0, 0, 0, 0]);
    assert_eq!(u32_to_be(42), [0, 0, 0, 42]);
    assert_eq!(u32_to_be(0x0102_0304), [1, 2, 3, 4]);
    assert_eq!(u32_to_be(u32::MAX), [255, 255, 255, 255]);
    assert_eq!(u32_to_be(2882656334), 2882656334u32.to_be_bytes());
    assert_eq!(u32_from_be(&[1, 2, 3, 4], 0), 0x0102_0304);
    assert_eq!(u32_from_be(&[9, 0, 0, 1, 0], 1), 256);
    assert_eq!(u32_from_be(&[255, 255, 255, 255], 0), u32::MAX);
    for n in [0u32, 1, 255, 256, 65535, 65536, 0x00ff_ffff, 0x0100_0000, 0x8000_0000, u32::MAX] {
        assert_eq!(u32_from_be(&u32_to_be(n), 0), n);
    }
}

#[test]
fn appending_bytes_keeps_what_was_there() {
    let mut out = vec![1, 2];
    append_bytes(&mut out, &[3, 4, 5]);
    assert_eq!(out, vec![1, 2, 3, 4, 5]);
    append_bytes(&mut out, &[]);
    assert_eq!(out, vec![1, 2, 3, 4, 5]);
}
