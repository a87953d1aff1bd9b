use hdr10plus_tool::error::Av1Error;
use hdr10plus_tool::obu::{obu_step, Obu, ObuStep};
use hdr10plus_tool::reader::ByteReader;
use hdr10plus_tool::stream::read_obus_from_ivf_frame;

fn read_one(bytes: &[u8]) -> (Result<Option<Obu>, Av1Error>, Vec<u8>) {
    let mut reader = ByteReader::new(bytes.to_vec());
    let r = Obu::read_from(&mut reader);
    let rest = reader.fill_buf().to_vec();
    (r, rest)
}

#[test]
fn reads_a_plain_unit() {
    let (r, rest) = read_one(&[0x32, 0x03, 1, 2, 3, 9]);
    let obu = r.unwrap().unwrap();
    assert_eq!(obu.obu_type, 6);
    assert_eq!((obu.temporal_id, obu.spatial_id), (0, 0));
    assert_eq!(obu.payload, vec![1, 2, 3]);
    assert_eq!(obu.raw_bytes, vec![0x32, 0x03, 1, 2, 3]);
    assert_eq!(rest, vec![9]);
}

#[test]
fn reads_the_extension_byte() {
    // type 6, extension flag, size flag; temporal_id 5, spatial_id 2
    let (r, rest) = read_one(&[0x36, 0xB0, 0x01, 0xAA]);
    let obu = r.unwrap().unwrap();
    assert_eq!((obu.obu_type, obu.temporal_id, obu.spatial_id), (6, 5, 2));
    assert_eq!(obu.payload, vec![0xAA]);
    assert_eq!(obu.raw_bytes, vec![0x36, 0xB0, 0x01, 0xAA]);
    assert!(rest.is_empty());
}

#[test]
fn end_of_input_is_no_unit() {
    let (r, _) = read_one(&[]);
    assert!(matches!(r, Ok(None)));
}

#[test]
fn forbidden_bit_is_refused() {
    let (r, rest) = read_one(&[0x92, 0x00]);
    assert!(matches!(r, Err(Av1Error::ForbiddenBit { byte: 0x92 })));
    assert_eq!(rest, vec![0x00]);
}

#[test]
fn missing_size_field_is_refused() {
    let (r, _) = read_one(&[0x30, 0x00]);
    assert!(matches!(r, Err(Av1Error::NoSizeField { obu_type: 6 })));
}

#[test]
fn truncated_units_are_refused() {
    for bytes in [&[0x36u8][..], &[0x32], &[0x32, 0x80], &[0x32, 0x02, 1]] {
        let (r, rest) = read_one(bytes);
        assert!(matches!(r, Err(Av1Error::UnexpectedEof)));
        assert!(rest.is_empty());
    }
}

#[test]
fn endless_size_field_is_refused() {
    let mut bytes = vec![0x32];
    bytes.extend_from_slice(&[0x80; 9]);
    let (r, rest) = read_one(&bytes);
    assert!(matches!(r, Err(Av1Error::Leb128Overflow)));
    assert_eq!(rest, vec![0x80]);
}

#[test]
fn padded_size_field_is_kept() {
    let (r, _) = read_one(&[0x32, 0x82, 0x00, 7, 8]);
    let obu = r.unwrap().unwrap();
    assert_eq!(obu.payload, vec![7, 8]);
    assert_eq!(obu.raw_bytes, vec![0x32, 0x82, 0x00, 7, 8]);
    // rebuilding writes the shortest size field
    assert_eq!(obu.rebuild_raw(), vec![0x32, 0x02, 7, 8]);
}

#[test]
fn rebuilt_unit_reads_back_with_a_new_payload() {
    let (r, _) = read_one(&[0x36, 0xB0, 0x01, 0xAA]);
    let mut obu = r.unwrap().unwrap();
    obu.payload = vec![0x11; 130];
    let raw = obu.rebuild_raw();
    assert_eq!(&raw[..4], &[0x36, 0xB0, 0x82, 0x01]);
    let (again, rest) = read_one(&raw);
    let again = again.unwrap().unwrap();
    assert_eq!(again.payload, vec![0x11; 130]);
    assert_eq!((again.temporal_id, again.spatial_id), (5, 2));
    assert!(rest.is_empty());
}

#[test]
fn reads_all_units_of_a_frame() {
    let data = vec![0x12, 0x00, 0x0A, 0x01, 0x55, 0x32, 0x02, 1, 2];
    let obus = read_obus_from_ivf_frame(data.clone()).unwrap();
    let types: Vec<u8> = obus.iter().map(|o| o.obu_type).collect();
    assert_eq!(types, vec![2, 1, 6]);
    let raw: Vec<u8> = obus.iter().flat_map(|o| o.raw_bytes.clone()).collect();
    assert_eq!(raw, data);
    assert!(read_obus_from_ivf_frame(Vec::new()).unwrap().is_empty());
}

#[test]
fn fault_in_a_frame_is_reported() {
    let r = read_obus_from_ivf_frame(vec![0x12, 0x00, 0x32, 0x05, 1]);
    assert!(matches!(r, Err(Av1Error::UnexpectedEof)));
}

#[test]
fn steps_ask_for_the_bytes_of_a_unit() {
    let unit = [0x36u8, 0xB0, 0x82, 0x00, 7, 8];
    let mut read: Vec<u8> = Vec::new();
    let mut asked: Vec<u64> = Vec::new();
    loop {
        match obu_step(&read) {
            ObuStep::Need(n) => {
                asked.push(n);
                let end = read.len() + n as usize;
                read.extend_from_slice(&unit[read.len()..end]);
            }
            ObuStep::Done => break,
            ObuStep::Fail(_) => panic!("no unit"),
        }
    }
    assert_eq!(asked, vec![1, 1, 1, 1, 2]);
    assert_eq!(read, unit.to_vec());
    assert!(matches!(obu_step(&[0x80]), ObuStep::Fail(Av1Error::ForbiddenBit { byte: 0x80 })));
    assert!(matches!(obu_step(&[0x30]), ObuStep::Fail(Av1Error::NoSizeField { obu_type: 6 })));
    let endless = [0x32, 0x80, 0x80, 0x80, 0x80, 0x80, 0x80, 0x80, 0x80];
    assert!(matches!(obu_step(&endless), ObuStep::Fail(Av1Error::Leb128Overflow)));
}

#[test]
fn reader_consumes_what_it_gives() {
    let mut reader = ByteReader::new(vec![1, 2, 3]);
    assert_eq!(reader.read_exact(2), Ok(vec![1, 2]));
    assert_eq!(reader.fill_buf(), &[3]);
    assert_eq!(reader.read_exact(2), Err(Av1Error::UnexpectedEof));
    assert!(reader.fill_buf().is_empty());
}
