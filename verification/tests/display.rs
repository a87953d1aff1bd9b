use hdr10plus_tool::obu::Obu;
use hdr10plus_tool::parser::Av1NaluParser;

fn unit(obu_type: u8, payload: &[u8]) -> Obu {
    Obu {
        obu_type,
        temporal_id: 0,
        spatial_id: 0,
        payload: payload.to_vec(),
        raw_bytes: Vec::new(),
    }
}

fn parse(units: &[Obu]) -> Av1NaluParser {
    let mut parser = Av1NaluParser::new();
    for obu in units {
        parser.process_obu(obu).unwrap();
    }
    parser
}

fn flags(parser: &Av1NaluParser) -> Vec<(usize, bool, bool)> {
    parser
        .temporal_units()
        .iter()
        .map(|t| (t.index, t.is_displayed, t.is_show_existing))
        .collect()
}

#[test]
fn new_parser_knows_nothing() {
    let parser = Av1NaluParser::new();
    assert!(!parser.reduced_still_picture_header);
    assert_eq!(parser.temporal_unit_count, 0);
    assert!(parser.temporal_units().is_empty());
    assert_eq!(parser.display_frame_count(), 0);
}

#[test]
fn show_flags_decide_display() {
    let parser = parse(&[
        unit(2, &[]),
        // show_existing_frame
        unit(3, &[0b1000_0000]),
        unit(2, &[]),
        // frame_type 3, show_frame
        unit(6, &[0b0111_0000]),
        unit(2, &[]),
        // showable_frame only
        unit(6, &[0b0110_1000]),
        unit(2, &[]),
        // no flag; the bits after showable_frame do not count
        unit(6, &[0b0110_0111, 0xFF]),
        unit(2, &[]),
        // empty frame header
        unit(6, &[]),
    ]);
    assert_eq!(
        flags(&parser),
        vec![
            (0, true, true),
            (1, true, false),
            (2, true, false),
            (3, false, false),
            (4, true, false)
        ]
    );
    assert_eq!(parser.temporal_unit_count, 5);
    assert_eq!(parser.display_frame_count(), 4);
}

#[test]
fn reduced_still_picture_implies_display() {
    // seq_profile 7, still_picture 0, reduced_still_picture_header 1
    let parser = parse(&[unit(2, &[]), unit(1, &[0b1110_1000]), unit(6, &[0x00])]);
    assert!(parser.reduced_still_picture_header);
    assert_eq!(flags(&parser), vec![(0, true, false)]);
}

#[test]
fn other_sequence_header_bits_do_not_count() {
    let parser = parse(&[unit(1, &[0b1111_0111]), unit(2, &[]), unit(6, &[0x00])]);
    assert!(!parser.reduced_still_picture_header);
    assert_eq!(flags(&parser), vec![(0, false, false)]);
}

#[test]
fn empty_sequence_header_changes_nothing() {
    let parser = parse(&[unit(1, &[0b0000_1000]), unit(1, &[])]);
    assert!(parser.reduced_still_picture_header);
}

#[test]
fn one_frame_header_counts_per_temporal_unit() {
    let parser = parse(&[
        unit(2, &[]),
        unit(3, &[0x00]),
        unit(7, &[0x80]),
        unit(3, &[0x80]),
        unit(6, &[0x80]),
    ]);
    assert_eq!(flags(&parser), vec![(0, false, false)]);
    assert_eq!(parser.display_frame_count(), 0);
}

#[test]
fn frame_before_the_first_delimiter_has_index_zero() {
    let parser = parse(&[unit(6, &[0x80]), unit(2, &[]), unit(6, &[0x10])]);
    assert_eq!(flags(&parser), vec![(0, true, true), (0, true, false)]);
    assert_eq!(parser.temporal_unit_count, 1);
}

#[test]
fn other_units_are_passed_over() {
    let parser = parse(&[unit(2, &[]), unit(5, &[1]), unit(4, &[2]), unit(15, &[3])]);
    assert!(parser.temporal_units().is_empty());
    assert_eq!(parser.temporal_unit_count, 1);
}

#[test]
fn indices_rise_after_a_first_delimiter() {
    let parser = parse(&[
        unit(2, &[]),
        unit(6, &[0x10]),
        unit(6, &[0x10]),
        unit(2, &[]),
        unit(2, &[]),
        unit(3, &[0x10]),
    ]);
    assert_eq!(flags(&parser), vec![(0, true, false), (2, true, false)]);
    assert_eq!(parser.temporal_unit_count, 3);
}
