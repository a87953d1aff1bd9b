use hdr10plus_tool::error::Av1Error;
use hdr10plus_tool::ivf::write_ivf_frame_header;
use hdr10plus_tool::reader::ByteReader;
use hdr10plus_tool::remove::Remover;
use hdr10plus_tool::stream::read_obus_from_ivf_frame;

const TD: [u8; 2] = [0x12, 0x00];
const FRAME: [u8; 4] = [0x32, 0x02, 0x10, 0x20];
const HDR: [u8; 10] = [0x2A, 8, 4, 0xB5, 0x00, 0x3C, 0x00, 0x01, 4, 1];
const HDR_V0: [u8; 10] = [0x2A, 8, 4, 0xB5, 0x00, 0x3C, 0x00, 0x01, 4, 0];
// metadata type 1, no T.35 message
const OTHER: [u8; 4] = [0x2A, 0x02, 0x01, 0x55];

fn ivf_header() -> Vec<u8> {
    let mut header = b"DKIF".to_vec();
    header.extend_from_slice(&[3; 28]);
    header
}

fn ivf_frame(timestamp: u64, data: &[u8]) -> Vec<u8> {
    let mut out = Vec::new();
    write_ivf_frame_header(&mut out, data.len() as u32, timestamp).unwrap();
    out.extend_from_slice(data);
    out
}

fn run(validate: bool, input: &[u8]) -> (Result<(), Av1Error>, Vec<u8>) {
    let mut out = Vec::new();
    let r = Remover { validate }.run(input.to_vec(), &mut out);
    (r, out)
}

#[test]
fn metadata_is_dropped_from_a_raw_stream() {
    let input = [&TD[..], &HDR, &OTHER, &FRAME, &HDR, &TD, &FRAME].concat();
    let clean = [&TD[..], &OTHER, &FRAME, &TD, &FRAME].concat();
    assert_eq!(run(true, &input), (Ok(()), clean.clone()));
    // to remove twice is to remove once
    assert_eq!(run(true, &clean), (Ok(()), clean));
}

#[test]
fn validation_decides_on_version_zero() {
    let input = [&TD[..], &HDR_V0, &FRAME].concat();
    assert_eq!(run(true, &input), (Ok(()), input.clone()));
    assert_eq!(run(false, &input), (Ok(()), [&TD[..], &FRAME].concat()));
}

#[test]
fn frame_sizes_are_rewritten() {
    let first = [&TD[..], &HDR, &FRAME].concat();
    let second = [&TD[..], &FRAME].concat();
    let input = [ivf_header(), ivf_frame(5, &first), ivf_frame(6, &second)].concat();
    let clean = [ivf_header(), ivf_frame(5, &second), ivf_frame(6, &second)].concat();
    assert_eq!(run(true, &input), (Ok(()), clean.clone()));
    assert_eq!(run(true, &clean), (Ok(()), clean));
}

#[test]
fn frame_of_nothing_but_metadata_becomes_empty() {
    let input = [ivf_header(), ivf_frame(1, &HDR)].concat();
    assert_eq!(run(true, &input), (Ok(()), [ivf_header(), ivf_frame(1, &[])].concat()));
}

#[test]
fn clean_input_is_kept() {
    let raw = [&TD[..], &OTHER, &FRAME].concat();
    assert_eq!(run(true, &raw), (Ok(()), raw.clone()));
    let ivf = [ivf_header(), ivf_frame(9, &raw)].concat();
    assert_eq!(run(true, &ivf), (Ok(()), ivf.clone()));
    assert_eq!(run(true, &[]), (Ok(()), Vec::new()));
}

#[test]
fn cut_off_frame_header_is_dropped() {
    let frame = ivf_frame(9, &TD);
    let input = [ivf_header(), frame.clone(), vec![1; 11]].concat();
    assert_eq!(run(true, &input), (Ok(()), [ivf_header(), frame].concat()));
}

#[test]
fn fault_stops_the_rewriting() {
    let raw = [&TD[..], &HDR, &FRAME, &[0x32, 0x05, 1]].concat();
    assert_eq!(run(true, &raw), (Err(Av1Error::UnexpectedEof), [&TD[..], &FRAME].concat()));
    let raw = [&TD[..], &[0xFF]].concat();
    assert_eq!(run(true, &raw), (Err(Av1Error::ForbiddenBit { byte: 0xFF }), TD.to_vec()));
    let ivf = [ivf_header(), ivf_frame(1, &TD), ivf_frame(2, &[0x30])].concat();
    assert_eq!(
        run(true, &ivf),
        (
            Err(Av1Error::NoSizeField { obu_type: 6 }),
            [ivf_header(), ivf_frame(1, &TD)].concat()
        )
    );
    let short = &ivf_header()[..20];
    assert_eq!(run(true, short), (Err(Av1Error::UnexpectedEof), Vec::new()));
}

#[test]
fn output_is_appended() {
    let remover = Remover { validate: true };
    let mut out = vec![0xAB];
    let input = [&TD[..], &HDR].concat();
    assert_eq!(remover.remove_raw(ByteReader::new(input), &mut out), Ok(()));
    assert_eq!(out, vec![0xAB, 0x12, 0x00]);
    let frame = ivf_frame(3, &HDR);
    assert_eq!(remover.remove_ivf(ByteReader::new(frame), &mut out), Ok(()));
    assert_eq!(out.len(), 3 + 12);
}

#[test]
fn units_of_one_frame() {
    let data = [&TD[..], &HDR, &FRAME].concat();
    let obus = read_obus_from_ivf_frame(data).unwrap();
    let out = Remover { validate: true }.output_frame(&obus);
    assert_eq!(out, [&TD[..], &FRAME].concat());
}
