use hdr10plus_tool::detect::{extract_hdr10plus_t35_bytes, is_hdr10plus_obu};
use hdr10plus_tool::encode::{
    encode_av1_from_json, encode_av1_metadata_obu, encode_av1_metadata_payload,
    OBU_METADATA_TYPE_HDR10_PLUS,
};
use hdr10plus_tool::error::Av1Error;
use hdr10plus_tool::leb128::{decode_leb128, encode_leb128, write_uleb128};
use hdr10plus_tool::metadata::{
    Hdr10PlusJsonMetadata, Hdr10PlusMetadata, Hdr10PlusMetadataEncOpts,
};
use hdr10plus_tool::obu::{Obu, OBU_METADATA};
use hdr10plus_tool::reader::ByteReader;

fn parse_uleb128(bytes: &[u8]) -> (usize, usize) {
    let mut value = 0usize;
    let mut shift = 0usize;

    for (idx, &b) in bytes.iter().enumerate() {
        value |= ((b & 0x7f) as usize) << shift;
        if (b & 0x80) == 0 {
            return (value, idx + 1);
        }
        shift += 7;
    }

    (value, bytes.len())
}

fn metadata(message: &[u8]) -> Hdr10PlusMetadata {
    Hdr10PlusMetadata { message: message.to_vec(), conforms: true }
}

fn hdr10plus_message(tail: &[u8]) -> Vec<u8> {
    let mut message = vec![0x00, 0x3C, 0x00, 0x01, 0x04, 0x01];
    message.extend_from_slice(tail);
    message
}

#[test]
fn encoded_obu_includes_country_code() {
    let entry = Hdr10PlusJsonMetadata {
        metadata: Some(metadata(&[0x00, 0x3B, 0x00, 0x01, 0x04, 0x01, 0x40])),
    };

    let obu = encode_av1_from_json(&entry, true).unwrap();

    // Header should be a metadata OBU with a size field.
    assert_eq!((obu[0] >> 3) & 0x1f, OBU_METADATA);
    assert_eq!(obu[0] & 0x02, 0x02);

    let (payload_len, leb_len) = parse_uleb128(&obu[1..]);
    let payload_start = 1 + leb_len;
    let payload_end = payload_start + payload_len;
    let payload = &obu[payload_start..payload_end];

    // metadata_type + ITU-T T.35 country code (0xB5 0x00 0x3B)
    assert!(payload.starts_with(&[OBU_METADATA_TYPE_HDR10_PLUS, 0xB5, 0x00, 0x3B]));
}

#[test]
fn encoded_obu_has_the_documented_layout() {
    let meta = metadata(&hdr10plus_message(&[0xDE, 0xAD]));
    let obu = encode_av1_metadata_obu(&meta, true).unwrap();
    assert_eq!(
        obu,
        vec![0x2A, 10, 0x04, 0xB5, 0x00, 0x3C, 0x00, 0x01, 0x04, 0x01, 0xDE, 0xAD]
    );
}

#[test]
fn payload_starts_with_type_and_country_code() {
    let meta = metadata(&[1, 2, 3]);
    assert_eq!(encode_av1_metadata_payload(&meta, false), Ok(vec![4, 0xB5, 1, 2, 3]));
}

#[test]
fn long_payload_takes_a_longer_size_field() {
    let meta = metadata(&[0x55; 200]);
    let obu = encode_av1_metadata_obu(&meta, false).unwrap();
    // 202 == 0xCA: low seven bits 0x4A, then 1.
    assert_eq!(&obu[..5], &[0x2A, 0xCA, 0x01, 0x04, 0xB5]);
    assert_eq!(obu.len(), 1 + 2 + 202);
}

#[test]
fn validation_refuses_nonconforming_metadata() {
    let meta = Hdr10PlusMetadata { message: hdr10plus_message(&[]), conforms: false };
    assert_eq!(encode_av1_metadata_payload(&meta, true), Err(Av1Error::InvalidMetadata));
    assert_eq!(encode_av1_metadata_obu(&meta, true), Err(Av1Error::InvalidMetadata));
    assert!(encode_av1_metadata_obu(&meta, false).is_ok());
}

#[test]
fn entry_without_metadata_is_refused() {
    let entry = Hdr10PlusJsonMetadata { metadata: None };
    assert_eq!(encode_av1_from_json(&entry, true), Err(Av1Error::InvalidJson));
    assert_eq!(encode_av1_from_json(&entry, false), Err(Av1Error::InvalidJson));
}

#[test]
fn country_code_is_optional_in_the_message() {
    let meta = metadata(&[7, 8]);
    let with = Hdr10PlusMetadataEncOpts { validate: true, with_country_code: true };
    let without = Hdr10PlusMetadataEncOpts { validate: true, with_country_code: false };
    assert_eq!(meta.encode_with_opts(&with), Ok(vec![0xB5, 7, 8]));
    assert_eq!(meta.encode_with_opts(&without), Ok(vec![7, 8]));
}

#[test]
fn encoded_metadata_reads_back_and_is_detected() {
    let meta = metadata(&hdr10plus_message(&[9, 8, 7]));
    let mut bytes = encode_av1_metadata_obu(&meta, true).unwrap();
    let raw = bytes.clone();
    bytes.extend_from_slice(&[0x12, 0x00]);
    let mut reader = ByteReader::new(bytes);
    let obu = Obu::read_from(&mut reader).unwrap().unwrap();
    assert_eq!(obu.obu_type, OBU_METADATA);
    assert_eq!(obu.raw_bytes, raw);
    assert!(is_hdr10plus_obu(&obu, true));
    assert_eq!(
        extract_hdr10plus_t35_bytes(&obu.payload, true),
        Some(vec![0xB5, 0x00, 0x3C, 0x00, 0x01, 0x04, 0x01, 9, 8, 7])
    );
    assert_eq!(reader.fill_buf(), &[0x12, 0x00]);
}

#[test]
fn detection_checks_every_identifier() {
    let good: Vec<u8> = vec![4, 0xB5, 0x00, 0x3C, 0x00, 0x01, 4, 1];
    assert_eq!(extract_hdr10plus_t35_bytes(&good, true), Some(good[1..].to_vec()));
    for i in 0..good.len() {
        let mut bad = good.clone();
        bad[i] ^= 0x02;
        assert_eq!(extract_hdr10plus_t35_bytes(&bad, true), None);
        assert_eq!(extract_hdr10plus_t35_bytes(&bad, false), None);
    }
    assert_eq!(extract_hdr10plus_t35_bytes(&good[..7], false), None);
    assert_eq!(extract_hdr10plus_t35_bytes(&[], false), None);
}

#[test]
fn detection_takes_version_zero_without_validation() {
    let payload = [4, 0xB5, 0x00, 0x3C, 0x00, 0x01, 4, 0];
    assert_eq!(extract_hdr10plus_t35_bytes(&payload, true), None);
    assert_eq!(extract_hdr10plus_t35_bytes(&payload, false), Some(payload[1..].to_vec()));
    let version_two = [4, 0xB5, 0x00, 0x3C, 0x00, 0x01, 4, 2];
    assert_eq!(extract_hdr10plus_t35_bytes(&version_two, false), None);
}

#[test]
fn detection_reads_the_type_as_leb128() {
    // 4 with a padded second byte.
    let payload = [0x84, 0x00, 0xB5, 0x00, 0x3C, 0x00, 0x01, 4, 1];
    assert_eq!(extract_hdr10plus_t35_bytes(&payload, true), Some(payload[2..].to_vec()));
}

#[test]
fn only_metadata_units_are_detected() {
    let payload = vec![4, 0xB5, 0x00, 0x3C, 0x00, 0x01, 4, 1];
    let unit = |obu_type: u8| Obu {
        obu_type,
        temporal_id: 0,
        spatial_id: 0,
        payload: payload.clone(),
        raw_bytes: Vec::new(),
    };
    assert!(is_hdr10plus_obu(&unit(5), true));
    assert!(!is_hdr10plus_obu(&unit(6), true));
}

#[test]
fn leb128_documented_values() {
    assert_eq!(encode_leb128(4), vec![0x04]);
    assert_eq!(encode_leb128(128), vec![0x80, 0x01]);
    assert_eq!(write_uleb128(0), vec![0x00]);
    assert_eq!(write_uleb128(127), vec![0x7F]);
    assert_eq!(write_uleb128(300), vec![0xAC, 0x02]);
    assert_eq!(
        encode_leb128(u64::MAX),
        vec![0xFF, 0xFF, 0xFF, 0xFF, 0xFF, 0xFF, 0xFF, 0xFF, 0xFF, 0x01]
    );
}

#[test]
fn leb128_round_trips() {
    for value in [0u64, 1, 127, 128, 16383, 16384, 1 << 35, (1 << 56) - 1] {
        let mut bytes = encode_leb128(value);
        let len = bytes.len();
        bytes.push(0xEE);
        assert_eq!(decode_leb128(&bytes), (value, len));
    }
    assert_eq!(decode_leb128(&[]), (0, 0));
    assert_eq!(decode_leb128(&[0x81]), (1, 1));
}
