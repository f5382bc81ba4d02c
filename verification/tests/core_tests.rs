//! Tests of the four-layer parser and its views.

use canp::data_layer::{CanFrame, DecompressedHeader, FileHeader, ParseError};
use canp::parser::{DataLayerParser, ParsedFileData};
use canp::testdata::TestDataGenerator;

fn build_frame(timestamp: u64, can_id: u32, dlc: u8, data: [u8; 8]) -> Vec<u8> {
    let mut out = Vec::new();
    out.extend_from_slice(&timestamp.to_be_bytes());
    out.extend_from_slice(&can_id.to_be_bytes());
    out.push(dlc);
    out.extend_from_slice(&[0u8; 3]);
    out.extend_from_slice(&data);
    out
}

fn build_sequence(sequence_id: u32, timestamp: u64, frames: &[Vec<u8>]) -> Vec<u8> {
    let mut body = Vec::new();
    for f in frames {
        body.extend_from_slice(f);
    }
    let mut out = Vec::new();
    out.extend_from_slice(&sequence_id.to_be_bytes());
    out.extend_from_slice(&timestamp.to_be_bytes());
    out.extend_from_slice(&(body.len() as u32).to_be_bytes());
    out.extend_from_slice(&body);
    out
}

fn build_chunk(version: u32, total_frames: u32, file_index: u32, body: &[u8]) -> Vec<u8> {
    let mut out = Vec::new();
    out.extend_from_slice(b"FRAM");
    out.extend_from_slice(&version.to_be_bytes());
    out.extend_from_slice(&total_frames.to_be_bytes());
    out.extend_from_slice(&file_index.to_be_bytes());
    out.extend_from_slice(&(body.len() as u32).to_be_bytes());
    out.extend_from_slice(body);
    out
}

fn build_block(serial: &[u8; 18], decompressed: &[u8]) -> Vec<u8> {
    let compressed = canp::parser::compress_payload(decompressed);
    let mut out = Vec::new();
    out.extend_from_slice(serial);
    out.extend_from_slice(&[0u8; 13]);
    out.extend_from_slice(&(compressed.len() as u32).to_be_bytes());
    out.extend_from_slice(&compressed);
    out
}

#[test]
fn test_file_header_parsing() {
    let mut header_data = vec![0u8; 35];
    header_data[0..8].copy_from_slice(b"CANDATA\0");
    header_data[8..12].copy_from_slice(&1u32.to_be_bytes());
    header_data[12..16].copy_from_slice(&123u32.to_be_bytes());
    header_data[16..24].copy_from_slice(&1640995200u64.to_be_bytes());
    header_data[24..28].copy_from_slice(&0u32.to_be_bytes());
    header_data[28..32].copy_from_slice(&1000u32.to_be_bytes());

    let header = FileHeader::from_bytes(&header_data).unwrap();
    assert_eq!(header.version, 1);
    assert_eq!(header.file_index, 123);
    assert_eq!(header.compressed_length, 1000);
    assert!(header.validate().is_ok());
}

#[test]
fn data_layer_parser_test_can_frame_parsing() {
    let mut frame_data = vec![0u8; 24];
    frame_data[0..8].copy_from_slice(&1640995200u64.to_be_bytes());
    frame_data[8..12].copy_from_slice(&0x123u32.to_be_bytes());
    frame_data[12] = 8;
    frame_data[16..24].copy_from_slice(&[1, 2, 3, 4, 5, 6, 7, 8]);

    let frame = CanFrame::from_bytes(&frame_data).unwrap();
    assert_eq!(frame.can_id, 0x123);
    assert_eq!(frame.dlc, 8);
    assert_eq!(frame.data, vec![1, 2, 3, 4, 5, 6, 7, 8]);
    assert!(frame.validate());
}

#[test]
fn test_short_file_yields_nothing() {
    let mut parser = DataLayerParser::new();
    let out = parser.parse_file_all(&[0u8; 34]).unwrap();
    assert!(out.is_empty());
    assert_eq!(parser.get_stats().parse_errors, 0);
    assert_eq!(parser.get_stats().files_processed, 0);
}

#[test]
fn test_truncated_header_errors() {
    assert_eq!(
        FileHeader::from_bytes(&[0u8; 10]).unwrap_err(),
        ParseError::TruncatedInput
    );
    assert_eq!(
        DecompressedHeader::from_bytes(&[0u8; 19]).unwrap_err(),
        ParseError::TruncatedInput
    );
    assert_eq!(
        CanFrame::from_bytes(&[0u8; 23]).unwrap_err(),
        ParseError::TruncatedInput
    );
}

#[test]
fn test_single_block_two_frames() {
    let f1 = build_frame(10, 0x100, 2, [0xAA, 0xBB, 0, 0, 0, 0, 0, 0]);
    let f2 = build_frame(20, 0x200, 8, [1, 2, 3, 4, 5, 6, 7, 8]);
    let seq = build_sequence(7, 999, &[f1, f2]);
    let chunk = build_chunk(2, 2, 0, &seq);
    let serial = *b"SERIAL-0123456789A";
    let file = build_block(&serial, &chunk);

    let mut parser = DataLayerParser::new();
    let out = parser.parse_file_all(&file).unwrap();
    assert_eq!(out.len(), 1);
    let parsed: &ParsedFileData = &out[0];
    assert_eq!(parsed.serial, serial.to_vec());
    assert_eq!(parsed.decompressed_header.data_type, b"FRAM".to_vec());
    assert_eq!(parsed.decompressed_header.version, 2);
    assert_eq!(parsed.frame_sequences.len(), 1);
    let frames = &parsed.frame_sequences[0].frames;
    assert_eq!(frames.len(), 2);
    assert_eq!(frames[0].can_id, 0x100);
    assert_eq!(frames[0].data, vec![0xAA, 0xBB]);
    assert_eq!(frames[1].can_id, 0x200);
    assert_eq!(frames[1].data, vec![1, 2, 3, 4, 5, 6, 7, 8]);
    assert_eq!(parsed.frame_sequences[0].info.sequence_id, 7);
    assert_eq!(parsed.frame_sequences[0].info.timestamp, 999);
    assert_eq!(parser.get_stats().frames_parsed, 2);
    assert_eq!(parser.get_stats().sequences_parsed, 1);
    assert_eq!(parser.get_stats().invalid_frames, 0);
    assert_eq!(parsed.total_frames(), 2);
    assert_eq!(parsed.valid_frames(), 2);
    assert_eq!(parsed.unique_can_ids(), vec![0x100, 0x200]);
}

#[test]
fn test_dlc_zero_and_dlc_eight() {
    let f0 = build_frame(1, 0x10, 0, [9; 8]);
    let f8 = build_frame(2, 0x20, 8, [1, 2, 3, 4, 5, 6, 7, 8]);
    let seq = build_sequence(0, 0, &[f0, f8]);
    let chunk = build_chunk(1, 2, 0, &seq);
    let file = build_block(b"ser-000000000000-A", &chunk);

    let mut parser = DataLayerParser::new();
    let out = parser.parse_file_all(&file).unwrap();
    let frames = &out[0].frame_sequences[0].frames;
    assert_eq!(frames.len(), 2);
    assert_eq!(frames[0].dlc, 0);
    assert!(frames[0].data.is_empty());
    assert!(frames[0].validate());
    assert_eq!(frames[1].dlc, 8);
    assert_eq!(frames[1].data.len(), 8);
}

#[test]
fn test_invalid_dlc_counted_and_skipped() {
    let good1 = build_frame(1, 0x100, 1, [7; 8]);
    let bad = build_frame(2, 0x200, 9, [1; 8]);
    let good2 = build_frame(3, 0x300, 2, [5; 8]);
    let seq = build_sequence(0, 0, &[good1, bad, good2]);
    let chunk = build_chunk(1, 3, 0, &seq);
    let file = build_block(b"ser-000000000000-B", &chunk);

    let mut parser = DataLayerParser::new();
    let out = parser.parse_file_all(&file).unwrap();
    let frames = &out[0].frame_sequences[0].frames;
    assert_eq!(frames.len(), 2);
    assert_eq!(frames[0].can_id, 0x100);
    assert_eq!(frames[1].can_id, 0x300);
    assert_eq!(parser.get_stats().invalid_frames, 1);
    assert_eq!(parser.get_stats().frames_parsed, 2);
}

#[test]
fn test_overlong_chunk_stops_iteration() {
    let f = build_frame(1, 0x42, 1, [3; 8]);
    let seq = build_sequence(0, 0, &[f]);
    let good_chunk = build_chunk(1, 1, 0, &seq);
    // a second chunk whose declared body length exceeds what follows
    let mut bad_chunk = Vec::new();
    bad_chunk.extend_from_slice(b"FRAM");
    bad_chunk.extend_from_slice(&1u32.to_be_bytes());
    bad_chunk.extend_from_slice(&1u32.to_be_bytes());
    bad_chunk.extend_from_slice(&0u32.to_be_bytes());
    bad_chunk.extend_from_slice(&10_000u32.to_be_bytes());
    bad_chunk.extend_from_slice(&[0u8; 4]);
    let mut dec = good_chunk.clone();
    dec.extend_from_slice(&bad_chunk);
    let file = build_block(b"ser-000000000000-C", &dec);

    let mut parser = DataLayerParser::new();
    let out = parser.parse_file_all(&file).unwrap();
    assert_eq!(out.len(), 1);
    assert_eq!(out[0].frame_sequences[0].frames.len(), 1);
}

#[test]
fn test_bad_tag_stops_chunks_and_counts_error() {
    let f = build_frame(1, 0x42, 1, [3; 8]);
    let seq = build_sequence(0, 0, &[f]);
    let good_chunk = build_chunk(1, 1, 0, &seq);
    let mut bad_chunk = build_chunk(1, 1, 0, &seq);
    bad_chunk[0] = b'X';
    let mut dec = good_chunk.clone();
    dec.extend_from_slice(&bad_chunk);
    let file = build_block(b"ser-000000000000-D", &dec);

    let mut parser = DataLayerParser::new();
    let out = parser.parse_file_all(&file).unwrap();
    assert_eq!(out.len(), 1);
    assert_eq!(parser.get_stats().parse_errors, 1);
}

#[test]
fn test_corrupt_payload_skips_block_and_continues() {
    let f = build_frame(1, 0x77, 1, [3; 8]);
    let seq = build_sequence(0, 0, &[f]);
    let chunk = build_chunk(1, 1, 0, &seq);

    // first block declares more compressed bytes than the stream holds
    let compressed = canp::parser::compress_payload(&chunk);
    let mut corrupt = Vec::new();
    corrupt.extend_from_slice(b"ser-000000000000-E");
    corrupt.extend_from_slice(&[0u8; 13]);
    corrupt.extend_from_slice(&((compressed.len() as u32) - 4).to_be_bytes());
    corrupt.extend_from_slice(&compressed[..compressed.len() - 4]);

    let good = build_block(b"ser-000000000000-F", &chunk);
    let mut file = corrupt;
    let skip_to = file.len();
    file.extend_from_slice(&good);

    let mut parser = DataLayerParser::new();
    let out = parser.parse_file_all(&file).unwrap();
    assert_eq!(out.len(), 1, "the second block still parses");
    assert_eq!(out[0].serial, b"ser-000000000000-F".to_vec());
    assert_eq!(parser.get_stats().parse_errors, 1);
    assert!(skip_to > 35);
}

#[test]
fn test_block_cursor_advances_exactly() {
    let f = build_frame(1, 0x42, 1, [3; 8]);
    let seq = build_sequence(0, 0, &[f]);
    let chunk = build_chunk(1, 1, 0, &seq);
    let b1 = build_block(b"ser-000000000000-G", &chunk);
    let b2 = build_block(b"ser-000000000000-H", &chunk);
    let mut file = b1.clone();
    file.extend_from_slice(&b2);

    let parser = DataLayerParser::new();
    let mut cursor = parser.iter_compressed_blocks();
    let first = cursor.next(&file).unwrap();
    assert_eq!(first.start, 35);
    assert_eq!(first.start + first.len, b1.len());
    assert_eq!(cursor.offset, b1.len());
    let second = cursor.next(&file).unwrap();
    assert_eq!(second.serial, b"ser-000000000000-H".to_vec());
    assert_eq!(cursor.offset, file.len());
    assert!(cursor.next(&file).is_none());
    // the two block spans tile the file exactly
    assert_eq!(b1.len() + b2.len(), file.len());
}

#[test]
fn test_chunk_cursor_checks_tag() {
    let f = build_frame(1, 0x42, 1, [3; 8]);
    let seq = build_sequence(0, 0, &[f]);
    let mut chunk = build_chunk(1, 1, 0, &seq);
    let parser = DataLayerParser::new();
    let mut cursor = parser.iter_decompressed_chunks();
    let c = cursor.next(&chunk).unwrap();
    assert_eq!(c.header.data_type, b"FRAM".to_vec());
    assert_eq!(c.start, 20);
    chunk[0] = b'X';
    let mut cursor2 = parser.iter_decompressed_chunks();
    assert!(cursor2.next(&chunk).is_none());
}

#[test]
fn test_frame_cursor_clamps_invalid_dlc() {
    let bad = build_frame(5, 0x300, 9, [1; 8]);
    let parser = DataLayerParser::new();
    let mut cursor = parser.iter_frames();
    let fr = cursor.next(&bad).unwrap();
    assert_eq!(fr.dlc, 9);
    assert_eq!(fr.len, 8);
    assert_eq!(fr.start, 16);
    assert_eq!(cursor.offset, 24);
}

#[test]
fn test_framing_round_trip() {
    let mut frames = Vec::new();
    for k in 0..6u64 {
        let frame = canp::testdata::CanFrame::generate_realistic_vehicle_frame(
            1000 + k,
            if k % 2 == 0 {
                canp::testdata::CanFrameType::Standard
            } else {
                canp::testdata::CanFrameType::Extended
            },
        );
        frames.push(frame);
    }
    let body = canp::testdata::encode_frames(&frames);
    assert_eq!(body.len(), frames.len() * 24);

    let seq_header = TestDataGenerator::new(canp::testdata::TestDataConfig::default())
        .generate_sequence_header(1, 42, body.len() as u32);
    let mut seq = seq_header;
    seq.extend_from_slice(&body);
    let chunk = build_chunk(2, frames.len() as u32, 0, &seq);
    let file = build_block(b"ser-000000000000-I", &chunk);

    let mut parser = DataLayerParser::new();
    let out = parser.parse_file_all(&file).unwrap();
    let parsed = &out[0].frame_sequences[0].frames;
    assert_eq!(parsed.len(), frames.len());
    for (orig, got) in frames.iter().zip(parsed.iter()) {
        assert_eq!(got.timestamp, orig.timestamp);
        assert_eq!(got.can_id, orig.id);
        assert_eq!(got.dlc, orig.dlc);
        assert_eq!(got.data, orig.data);
        assert_eq!(got.reserved, vec![0, 0, 0]);
    }
}

#[test]
fn test_whole_format_round_trip() {
    let mut frames = Vec::new();
    for k in 0..5u64 {
        frames.push(canp::testdata::CanFrame::generate_realistic_vehicle_frame(
            7000 + k,
            canp::testdata::CanFrameType::Standard,
        ));
    }
    let generator = TestDataGenerator::new(canp::testdata::TestDataConfig::default());
    let file = generator
        .encode_single_sequence_file(&b"serial-9876543210A".to_vec(), 3, 555, &frames)
        .unwrap();

    let mut parser = DataLayerParser::new();
    let out = parser.parse_file_all(&file).unwrap();
    assert_eq!(out.len(), 1);
    assert_eq!(out[0].serial, b"serial-9876543210A".to_vec());
    assert_eq!(out[0].decompressed_header.data_type, b"FRAM".to_vec());
    assert_eq!(out[0].frame_sequences.len(), 1);
    let seq = &out[0].frame_sequences[0];
    assert_eq!(seq.info.sequence_id, 3);
    assert_eq!(seq.info.timestamp, 555);
    assert_eq!(seq.frames.len(), frames.len());
    for (orig, got) in frames.iter().zip(seq.frames.iter()) {
        assert_eq!(got.timestamp, orig.timestamp);
        assert_eq!(got.can_id, orig.id);
        assert_eq!(got.dlc, orig.dlc);
        assert_eq!(got.data, orig.data);
    }
}

#[test]
fn test_gzip_round_trip_through_parser() {
    let payload = b"some measurement bytes 0123456789".to_vec();
    let compressed = canp::parser::compress_payload(&payload);
    assert_ne!(compressed, payload, "compression must transform the bytes");
    assert!(compressed.len() >= 18, "a gzip stream carries header and trailer");
}
