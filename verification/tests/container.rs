use hdr10plus_tool::error::{Av1Error, ParserError};
use hdr10plus_tool::frames::{read_ivf_frame, write_ivf_frame};
use hdr10plus_tool::ivf::{
    is_ivf, read_ivf_frame_header, try_read_ivf_file_header, write_ivf_frame_header,
    IVF_SIGNATURE,
};
use hdr10plus_tool::progress::{bar_length, bar_position};
use hdr10plus_tool::reader::ByteReader;

fn file_header() -> Vec<u8> {
    let mut header = b"DKIF".to_vec();
    header.extend_from_slice(&[0, 0, 32, 0]);
    header.extend_from_slice(b"AV01");
    header.extend_from_slice(&[7; 20]);
    header
}

#[test]
fn signature_is_dkif() {
    assert_eq!(IVF_SIGNATURE, *b"DKIF");
    assert!(is_ivf(b"DKIF"));
    assert!(is_ivf(b"DKIFxyz"));
    assert!(!is_ivf(b"DKI"));
    assert!(!is_ivf(b"DKIX"));
}

#[test]
fn file_header_is_taken() {
    let mut bytes = file_header();
    bytes.push(0x99);
    let mut reader = ByteReader::new(bytes.clone());
    let header = try_read_ivf_file_header(&mut reader).unwrap().unwrap();
    assert_eq!(&header[..], &bytes[..32]);
    assert_eq!(reader.fill_buf(), &[0x99]);
}

#[test]
fn other_streams_are_left_alone() {
    let mut reader = ByteReader::new(vec![0x12, 0x00, 0x0A]);
    assert_eq!(try_read_ivf_file_header(&mut reader), Ok(None));
    assert_eq!(reader.fill_buf(), &[0x12, 0x00, 0x0A]);
}

#[test]
fn short_file_header_is_refused() {
    let mut reader = ByteReader::new(file_header()[..31].to_vec());
    assert_eq!(try_read_ivf_file_header(&mut reader), Err(Av1Error::UnexpectedEof));
}

#[test]
fn frame_header_is_little_endian() {
    let mut out = vec![0xFF];
    assert_eq!(write_ivf_frame_header(&mut out, 0x04030201, 0x0C0B0A0908070605), Ok(()));
    assert_eq!(out, vec![0xFF, 1, 2, 3, 4, 5, 6, 7, 8, 9, 10, 11, 12]);
}

#[test]
fn frame_header_round_trips() {
    for (size, timestamp) in [(0u32, 0u64), (1, 2), (u32::MAX, u64::MAX), (0x8000_0000, 1 << 63)] {
        let mut out = Vec::new();
        write_ivf_frame_header(&mut out, size, timestamp).unwrap();
        assert_eq!(out.len(), 12);
        let mut reader = ByteReader::new(out);
        let header = read_ivf_frame_header(&mut reader).unwrap().unwrap();
        assert_eq!((header.frame_size, header.timestamp), (size, timestamp));
        assert!(reader.fill_buf().is_empty());
    }
}

#[test]
fn missing_frame_header_ends_the_file() {
    for len in [0usize, 1, 11] {
        let mut reader = ByteReader::new(vec![1; len]);
        assert!(matches!(read_ivf_frame_header(&mut reader), Ok(None)));
        assert!(reader.fill_buf().is_empty());
    }
}

#[test]
fn frame_is_read_with_its_units() {
    let mut bytes = Vec::new();
    write_ivf_frame_header(&mut bytes, 5, 42).unwrap();
    bytes.extend_from_slice(&[0x12, 0x00, 0x32, 0x01, 0x77, 0xEE]);
    let mut reader = ByteReader::new(bytes);
    let frame = read_ivf_frame(&mut reader).unwrap().unwrap();
    assert_eq!(frame.timestamp, 42);
    assert_eq!(frame.obus.len(), 2);
    assert_eq!(frame.obus[1].payload, vec![0x77]);
    assert_eq!(reader.fill_buf(), &[0xEE]);
}

#[test]
fn short_frame_is_refused() {
    let mut bytes = Vec::new();
    write_ivf_frame_header(&mut bytes, 3, 0).unwrap();
    bytes.extend_from_slice(&[0x12, 0x00]);
    let mut reader = ByteReader::new(bytes);
    assert!(matches!(read_ivf_frame(&mut reader), Err(Av1Error::UnexpectedEof)));
}

#[test]
fn parser_errors_have_their_texts() {
    assert_eq!(ParserError::NoMetadataFound.message(), "File doesn't contain dynamic metadata");
    assert_eq!(ParserError::MetadataDetected.message(), "Dynamic HDR10+ metadata detected.");
}

#[test]
fn progress_is_in_percent() {
    assert_eq!(bar_length(99_999_999), 0);
    assert_eq!(bar_length(1_234_567_890), 12);
    assert_eq!(bar_position(50, 200), 25);
    assert_eq!(bar_position(2, 3), 66);
    assert_eq!(bar_position(7, 0), 700);
}

#[test]
fn frame_is_written_with_its_header() {
    let mut out = vec![0xFF];
    assert_eq!(write_ivf_frame(&mut out, 7, &[0x12, 0x00]), Ok(()));
    assert_eq!(out, vec![0xFF, 2, 0, 0, 0, 7, 0, 0, 0, 0, 0, 0, 0, 0x12, 0x00]);
}
