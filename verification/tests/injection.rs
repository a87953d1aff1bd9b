use hdr10plus_tool::encode::encode_av1_from_json;
use hdr10plus_tool::error::Av1Error;
use hdr10plus_tool::inject::{Injection, Injector, Notice};
use hdr10plus_tool::ivf::write_ivf_frame_header;
use hdr10plus_tool::metadata::{Hdr10PlusJsonMetadata, Hdr10PlusMetadata};
use hdr10plus_tool::obu::Obu;
use hdr10plus_tool::reader::ByteReader;
use hdr10plus_tool::remove::Remover;
use hdr10plus_tool::stream::read_obus_from_ivf_frame;

const TD: [u8; 2] = [0x12, 0x00];
const SEQ: [u8; 3] = [0x0A, 0x01, 0x08];
const FRAME: [u8; 4] = [0x32, 0x02, 0x10, 0x20];
const HDR: [u8; 10] = [0x2A, 8, 4, 0xB5, 0x00, 0x3C, 0x00, 0x01, 4, 1];

fn entry(tag: u8) -> Hdr10PlusJsonMetadata {
    Hdr10PlusJsonMetadata {
        metadata: Some(Hdr10PlusMetadata {
            message: vec![0x00, 0x3C, 0x00, 0x01, 0x04, 0x01, tag],
            conforms: true,
        }),
    }
}

fn nonconforming() -> Hdr10PlusJsonMetadata {
    Hdr10PlusJsonMetadata {
        metadata: Some(Hdr10PlusMetadata {
            message: vec![0x00, 0x3C, 0x00, 0x01, 0x04, 0x01],
            conforms: false,
        }),
    }
}

fn encoded(tag: u8) -> Vec<u8> {
    vec![0x2A, 9, 4, 0xB5, 0x00, 0x3C, 0x00, 0x01, 4, 1, tag]
}

fn ivf_header() -> Vec<u8> {
    let mut header = b"DKIF".to_vec();
    header.extend_from_slice(&[3; 28]);
    header
}

fn ivf_frame(timestamp: u64, data: &[u8]) -> Vec<u8> {
    let mut out = Vec::new();
    write_ivf_frame_header(&mut out, data.len() as u32, timestamp).unwrap();
    out.extend_from_slice(data);
    out
}

fn run(
    input: &[u8],
    list: &[Hdr10PlusJsonMetadata],
) -> (Result<(), Av1Error>, Vec<u8>, Vec<Notice>) {
    let mut out = Vec::new();
    let mut notices = Vec::new();
    let r = Injector { validate: true }.run(input.to_vec(), &mut out, list, &mut notices);
    (r, out, notices)
}

fn remove(input: &[u8]) -> Vec<u8> {
    let mut out = Vec::new();
    Remover { validate: true }.run(input.to_vec(), &mut out).unwrap();
    out
}

#[test]
fn entry_is_encoded_as_expected() {
    assert_eq!(encode_av1_from_json(&entry(7), true), Ok(encoded(7)));
}

#[test]
fn metadata_goes_right_after_the_delimiter() {
    let obus = read_obus_from_ivf_frame([&SEQ[..], &TD, &FRAME].concat()).unwrap();
    let out = Injector::build_output_frame(&obus, &encoded(1), true);
    assert_eq!(out, [&SEQ[..], &TD, &encoded(1), &FRAME].concat());
}

#[test]
fn metadata_goes_first_without_a_delimiter() {
    let obus = read_obus_from_ivf_frame([&SEQ[..], &FRAME].concat()).unwrap();
    let out = Injector::build_output_frame(&obus, &encoded(1), true);
    assert_eq!(out, [&encoded(1)[..], &SEQ, &FRAME].concat());
}

#[test]
fn metadata_stands_alone_in_an_empty_frame() {
    let none: Vec<Obu> = Vec::new();
    assert_eq!(Injector::build_output_frame(&none, &encoded(1), true), encoded(1));
    let delimiter = read_obus_from_ivf_frame(TD.to_vec()).unwrap();
    assert_eq!(
        Injector::build_output_frame(&delimiter, &encoded(1), true),
        [&TD[..], &encoded(1)].concat()
    );
}

#[test]
fn only_the_first_delimiter_counts() {
    let obus = read_obus_from_ivf_frame([&TD[..], &HDR, &TD, &HDR].concat()).unwrap();
    let out = Injector::build_output_frame(&obus, &encoded(1), true);
    assert_eq!(out, [&TD[..], &encoded(1), &TD].concat());
}

#[test]
fn raw_stream_gets_one_unit_per_temporal_unit() {
    let input = [&TD[..], &SEQ, &FRAME, &TD, &FRAME].concat();
    let (r, out, notices) = run(&input, &[entry(1), entry(2)]);
    assert_eq!(r, Ok(()));
    assert_eq!(
        out,
        [&TD[..], &encoded(1), &SEQ, &FRAME, &TD, &encoded(2), &FRAME].concat()
    );
    assert!(notices.is_empty());
}

#[test]
fn ivf_file_gets_one_unit_per_frame() {
    let plain = [&TD[..], &FRAME].concat();
    let input = [ivf_header(), ivf_frame(10, &plain), ivf_frame(20, &plain)].concat();
    let (r, out, notices) = run(&input, &[entry(1), entry(2)]);
    assert_eq!(r, Ok(()));
    let first = [&TD[..], &encoded(1), &FRAME].concat();
    let second = [&TD[..], &encoded(2), &FRAME].concat();
    assert_eq!(out, [ivf_header(), ivf_frame(10, &first), ivf_frame(20, &second)].concat());
    assert!(notices.is_empty());
}

#[test]
fn last_entry_is_duplicated() {
    let input = [&TD[..], &FRAME].concat().repeat(4);
    let (r, out, notices) = run(&input, &[entry(1), entry(2)]);
    assert_eq!(r, Ok(()));
    let unit = |tag: u8| [&TD[..], &encoded(tag), &FRAME].concat();
    assert_eq!(out, [unit(1), unit(2), unit(2), unit(2)].concat());
    assert_eq!(notices, vec![Notice::MoreFrames { entries: 2 }]);
}

#[test]
fn excess_entries_are_ignored() {
    let input = [&TD[..], &FRAME].concat();
    let (r, out, notices) = run(&input, &[entry(1), entry(2), entry(3)]);
    assert_eq!(r, Ok(()));
    assert_eq!(out, [&TD[..], &encoded(1), &FRAME].concat());
    assert_eq!(notices, vec![Notice::ExcessMetadata { entries: 3, frames: 1 }]);
    let ivf = [ivf_header(), ivf_frame(0, &input)].concat();
    let (_, _, notices) = run(&ivf, &[entry(1), entry(2), entry(3)]);
    assert_eq!(notices, vec![Notice::ExcessMetadata { entries: 3, frames: 1 }]);
}

#[test]
fn existing_metadata_is_replaced_and_told_once() {
    let input = [&TD[..], &HDR, &FRAME, &HDR, &TD, &FRAME, &HDR].concat();
    let (r, out, notices) = run(&input, &[entry(1), entry(2)]);
    assert_eq!(r, Ok(()));
    assert_eq!(out, [&TD[..], &encoded(1), &FRAME, &TD, &encoded(2), &FRAME].concat());
    assert_eq!(notices, vec![Notice::ExistingMetadata]);
}

#[test]
fn notices_come_in_order() {
    let plain = [&TD[..], &FRAME].concat();
    let existing = [&TD[..], &HDR].concat();
    let input =
        [ivf_header(), ivf_frame(0, &plain), ivf_frame(1, &existing), ivf_frame(2, &existing)]
            .concat();
    let (r, _, notices) = run(&input, &[entry(1)]);
    assert_eq!(r, Ok(()));
    assert_eq!(notices, vec![Notice::ExistingMetadata, Notice::MoreFrames { entries: 1 }]);
}

#[test]
fn units_before_the_first_delimiter_are_kept() {
    let input = [&SEQ[..], &HDR, &TD, &FRAME].concat();
    let (r, out, notices) = run(&input, &[entry(1)]);
    assert_eq!(r, Ok(()));
    assert_eq!(out, [&SEQ[..], &HDR, &TD, &encoded(1), &FRAME].concat());
    assert!(notices.is_empty());
}

#[test]
fn stream_without_delimiters_is_kept() {
    let (r, out, notices) = run(&FRAME, &[entry(1)]);
    assert_eq!((r, out), (Ok(()), FRAME.to_vec()));
    assert_eq!(notices, vec![Notice::ExcessMetadata { entries: 1, frames: 0 }]);
}

#[test]
fn empty_list_is_refused() {
    let input = [&TD[..], &FRAME].concat();
    let (r, out, notices) = run(&input, &[]);
    assert_eq!(r, Err(Av1Error::EmptySceneInfo));
    assert!(out.is_empty() && notices.is_empty());
}

#[test]
fn empty_list_leaves_a_unit_without_metadata() {
    let injector = Injector { validate: true };
    let mut out = Vec::new();
    let mut notices = Vec::new();
    let input = ByteReader::new([&TD[..], &FRAME].concat());
    let r = injector.inject_raw(input, &mut out, &[], &mut notices);
    assert_eq!(r, Err(Av1Error::NoMetadataForUnit { tu_index: 0 }));
    assert_eq!(notices, vec![Notice::MoreFrames { entries: 0 }]);
    let input = ByteReader::new(ivf_frame(0, &TD));
    let r = injector.inject_ivf(input, &mut out, &[], &mut notices);
    assert_eq!(r, Err(Av1Error::NoMetadataForUnit { tu_index: 0 }));
    assert!(out.is_empty());
}

#[test]
fn refused_metadata_stops_the_injection() {
    let input = [&TD[..], &FRAME].concat().repeat(3);
    let done = [&TD[..], &encoded(1), &FRAME].concat();
    let (r, out, _) = run(&input, &[entry(1), nonconforming()]);
    assert_eq!((r, out), (Err(Av1Error::InvalidMetadata), done.clone()));
    let no_metadata = Hdr10PlusJsonMetadata { metadata: None };
    let (r, out, _) = run(&input, &[entry(1), no_metadata]);
    assert_eq!((r, out), (Err(Av1Error::InvalidJson), done));
}

#[test]
fn skipped_validation_takes_nonconforming_metadata() {
    let mut out = Vec::new();
    let mut notices = Vec::new();
    let r = Injector { validate: false }.run(
        TD.to_vec(),
        &mut out,
        &[nonconforming()],
        &mut notices,
    );
    assert_eq!(r, Ok(()));
    assert_eq!(out, [&TD[..], &HDR].concat());
}

#[test]
fn fault_keeps_the_unit_that_is_being_collected_back() {
    let input = [&TD[..], &FRAME, &TD, &FRAME, &[0xFF]].concat();
    let (r, out, _) = run(&input, &[entry(1), entry(2)]);
    assert_eq!(r, Err(Av1Error::ForbiddenBit { byte: 0xFF }));
    assert_eq!(out, [&TD[..], &encoded(1), &FRAME].concat());
    let ivf = [ivf_header(), ivf_frame(0, &TD), ivf_frame(0, &[0xFF])].concat();
    let (r, out, _) = run(&ivf, &[entry(1), entry(2)]);
    assert_eq!(r, Err(Av1Error::ForbiddenBit { byte: 0xFF }));
    assert_eq!(out, [ivf_header(), ivf_frame(0, &[&TD[..], &encoded(1)].concat())].concat());
    let (r, out, _) = run(b"DKIF", &[entry(1)]);
    assert_eq!((r, out), (Err(Av1Error::UnexpectedEof), Vec::new()));
}

#[test]
fn removal_undoes_injection() {
    let raw = [&TD[..], &HDR, &FRAME, &TD, &FRAME].concat();
    let (_, out, _) = run(&raw, &[entry(1), entry(2)]);
    assert_eq!(remove(&out), remove(&raw));
    let ivf = [ivf_header(), ivf_frame(4, &raw)].concat();
    let (_, out, _) = run(&ivf, &[entry(1)]);
    assert_eq!(remove(&out), remove(&ivf));
}

#[test]
fn injection_again_replaces() {
    let raw = [&TD[..], &HDR, &FRAME, &TD, &FRAME].concat();
    let (_, once, _) = run(&raw, &[entry(1), entry(2)]);
    let (_, twice, notices) = run(&once, &[entry(8), entry(9)]);
    let (_, direct, _) = run(&raw, &[entry(8), entry(9)]);
    assert_eq!(twice, direct);
    assert_eq!(notices, vec![Notice::ExistingMetadata]);
    let ivf = [ivf_header(), ivf_frame(4, &raw)].concat();
    let (_, once, _) = run(&ivf, &[entry(1)]);
    let (_, twice, _) = run(&once, &[entry(8)]);
    let (_, direct, _) = run(&ivf, &[entry(8)]);
    assert_eq!(twice, direct);
}

#[test]
fn injected_units_read_back() {
    let raw = [&TD[..], &SEQ, &FRAME].concat();
    let (_, out, _) = run(&raw, &[entry(5)]);
    let types: Vec<u8> =
        read_obus_from_ivf_frame(out).unwrap().iter().map(|o| o.obu_type).collect();
    assert_eq!(types, vec![2, 5, 1, 6]);
}

#[test]
fn unit_by_unit_injection_gives_the_same_stream() {
    let raw = [&SEQ[..], &TD, &HDR, &FRAME, &TD, &FRAME].concat();
    let list = [entry(1), entry(2)];
    let mut injection = Injection::new(true);
    let mut out = Vec::new();
    for obu in read_obus_from_ivf_frame(raw.clone()).unwrap() {
        out.extend(injection.inject_obu(Some(obu), &list).unwrap());
    }
    out.extend(injection.inject_obu(None, &list).unwrap());
    let (_, direct, _) = run(&raw, &list);
    assert_eq!(out, direct);
    assert_eq!(injection.notices, vec![Notice::ExistingMetadata]);
    assert_eq!(injection.tu_index, 2);
    assert_eq!(injection.av1_parser.temporal_unit_count, 2);
    assert!(injection.av1_parser.reduced_still_picture_header);
}

#[test]
fn frame_by_frame_injection_keeps_the_last_entry() {
    let obus = read_obus_from_ivf_frame([&TD[..], &FRAME].concat()).unwrap();
    let list = [entry(6)];
    let mut injection = Injection::new(true);
    injection.finish(&list);
    assert_eq!(injection.notices, vec![Notice::ExcessMetadata { entries: 1, frames: 0 }]);
    let mut injection = Injection::new(true);
    let expected = [&TD[..], &encoded(6), &FRAME].concat();
    assert_eq!(injection.inject_unit(&obus, &list), Ok(expected.clone()));
    assert_eq!(injection.inject_unit(&obus, &list), Ok(expected));
    injection.finish(&list);
    assert_eq!(injection.notices, vec![Notice::MoreFrames { entries: 1 }]);
}

#[test]
fn any_metadata_unit_is_replaced() {
    // A metadata unit with an extension byte and a padded size field.
    let foreign = [0x2E, 0x20, 0x88, 0x00, 4, 0xB5, 0x00, 0x3C, 0x00, 0x01, 4, 1];
    let obus = read_obus_from_ivf_frame([&TD[..], &FRAME].concat()).unwrap();
    let once = Injector::build_output_frame(&obus, &foreign, true);
    assert_eq!(once, [&TD[..], &foreign, &FRAME].concat());
    let read = read_obus_from_ivf_frame(once).unwrap();
    assert_eq!(
        Injector::build_output_frame(&read, &encoded(3), true),
        Injector::build_output_frame(&obus, &encoded(3), true)
    );
}

#[test]
fn unused_entries_do_not_matter() {
    let other = Hdr10PlusJsonMetadata {
        metadata: Some(Hdr10PlusMetadata { message: vec![1, 2, 3], conforms: true }),
    };
    let none = Hdr10PlusJsonMetadata { metadata: None };
    let raw = [&TD[..], &HDR, &FRAME].concat();
    let (r, out, _) = run(&raw, &[entry(1), other, none]);
    assert_eq!(r, Ok(()));
    assert_eq!(remove(&out), remove(&raw));
}
