//! A parser that follows which temporal units of a stream are displayed.

use crate::bitstream;
use crate::bitstream::{read_bits, slice_bits};
use crate::error::Av1Error;
use crate::obu::{
    Obu, ObuModel, OBU_FRAME, OBU_FRAME_HEADER, OBU_REDUNDANT_FRAME_HEADER, OBU_SEQUENCE_HEADER,
    OBU_TEMPORAL_DELIMITER,
};
use vstd::prelude::*;
use vstd::slice::slice_subrange;

verus! {

/// What a stream says of one temporal unit.
#[derive(Debug, Clone, Copy)]
pub struct TemporalUnitInfo {
    /// Zero-based index of the temporal unit in the stream.
    pub index: usize,
    /// Whether the temporal unit produces a visible output frame. This is
    /// `false` only for frames with `show_frame = 0` and `showable_frame = 0`.
    pub is_displayed: bool,
    /// Whether the temporal unit shows a frame that was decoded before, by
    /// `show_existing_frame`.
    pub is_show_existing: bool,
}

/// A parser to which the units of a stream are given in their order.
pub struct Av1NaluParser {
    /// Taken from the sequence header; frame headers depend on it.
    pub reduced_still_picture_header: bool,
    /// How many temporal delimiters have been seen.
    pub temporal_unit_count: usize,
    /// One entry for each temporal unit whose frame header has been seen.
    pub temporal_units: Vec<TemporalUnitInfo>,
    /// A frame header has been seen since the last temporal delimiter.
    pub frame_header_parsed_in_tu: bool,
}

/// What an [`Av1NaluParser`] knows.
#[verifier::ext_equal]
pub struct ParserModel {
    pub reduced_still_picture_header: bool,
    pub temporal_unit_count: nat,
    pub temporal_units: Seq<TemporalUnitInfo>,
    pub frame_header_seen: bool,
}

impl View for Av1NaluParser {
    type V = ParserModel;

    open spec fn view(&self) -> ParserModel {
        ParserModel {
            reduced_still_picture_header: self.reduced_still_picture_header,
            temporal_unit_count: self.temporal_unit_count as nat,
            temporal_units: self.temporal_units@,
            frame_header_seen: self.frame_header_parsed_in_tu,
        }
    }
}

/// A parser that has seen nothing.
pub open spec fn new_parser() -> ParserModel {
    ParserModel {
        reduced_still_picture_header: false,
        temporal_unit_count: 0,
        temporal_units: Seq::empty(),
        frame_header_seen: false,
    }
}

/// The fifth bit of a sequence header, after `seq_profile` (3 bits) and
/// `still_picture` (1 bit).
pub open spec fn reduced_still_picture_bit(payload: Seq<u8>) -> bool {
    bitstream::bits_of(payload)[4]
}

/// Whether a frame header tells of a displayed frame, and whether it shows an
/// existing one. Its bits are `show_existing_frame` (1 bit), `frame_type`
/// (2 bits), `show_frame` (1 bit) and, where that is 0, `showable_frame`
/// (1 bit). A reduced still picture header implies a shown frame, and so does
/// an empty payload.
pub open spec fn display_info(reduced_still_picture_header: bool, payload: Seq<u8>) -> (
    bool,
    bool,
) {
    let bits = bitstream::bits_of(payload);
    if reduced_still_picture_header || payload.len() == 0 {
        (true, false)
    } else if bits[0] {
        (true, true)
    } else {
        (bits[3] || bits[4], false)
    }
}

/// The index of the temporal unit that is being read.
pub open spec fn current_unit(temporal_unit_count: nat) -> nat {
    if temporal_unit_count == 0 {
        0
    } else {
        (temporal_unit_count - 1) as nat
    }
}

/// What a parser knows after one more unit.
pub open spec fn after_obu(parser: ParserModel, obu: ObuModel) -> ParserModel {
    if obu.obu_type == OBU_TEMPORAL_DELIMITER {
        ParserModel {
            temporal_unit_count: parser.temporal_unit_count + 1,
            frame_header_seen: false,
            ..parser
        }
    } else if obu.obu_type == OBU_SEQUENCE_HEADER && obu.payload.len() > 0 {
        ParserModel {
            reduced_still_picture_header: reduced_still_picture_bit(obu.payload),
            ..parser
        }
    } else if (obu.obu_type == OBU_FRAME_HEADER || obu.obu_type == OBU_FRAME)
        && !parser.frame_header_seen {
        let (is_displayed, is_show_existing) = display_info(
            parser.reduced_still_picture_header,
            obu.payload,
        );
        ParserModel {
            temporal_units: parser.temporal_units.push(
                TemporalUnitInfo {
                    index: current_unit(parser.temporal_unit_count) as usize,
                    is_displayed,
                    is_show_existing,
                },
            ),
            frame_header_seen: true,
            ..parser
        }
    } else {
        parser
    }
}

/// What a parser knows after a run of units.
pub open spec fn after_obus(parser: ParserModel, obus: Seq<ObuModel>) -> ParserModel
    decreases obus.len(),
{
    if obus.len() == 0 {
        parser
    } else {
        after_obu(after_obus(parser, obus.drop_last()), obus.last())
    }
}

/// The entries of displayed temporal units.
pub open spec fn displayed(units: Seq<TemporalUnitInfo>) -> Seq<TemporalUnitInfo> {
    units.filter(|unit: TemporalUnitInfo| unit.is_displayed)
}

impl Av1NaluParser {
    pub fn new() -> (parser: Self)
        ensures
            parser@ == new_parser(),
    {
        Av1NaluParser {
            reduced_still_picture_header: false,
            temporal_unit_count: 0,
            temporal_units: Vec::new(),
            frame_header_parsed_in_tu: false,
        }
    }

    /// Takes in one unit.
    pub fn process_obu(&mut self, obu: &Obu) -> (r: Result<(), Av1Error>)
        requires
            obu.obu_type == OBU_TEMPORAL_DELIMITER ==> old(self).temporal_unit_count < usize::MAX,
        ensures
            r is Ok,
            final(self)@ == after_obu(old(self)@, obu@),
    {
        if obu.obu_type == OBU_TEMPORAL_DELIMITER {
            self.temporal_unit_count = self.temporal_unit_count + 1;
            self.frame_header_parsed_in_tu = false;
        } else if obu.obu_type == OBU_SEQUENCE_HEADER {
            return self.parse_sequence_header(obu.payload.as_slice());
        } else if obu.obu_type == OBU_FRAME_HEADER || obu.obu_type == OBU_FRAME {
            if !self.frame_header_parsed_in_tu {
                let info = match self.parse_frame_display_info(obu.payload.as_slice()) {
                    Ok(info) => info,
                    Err(e) => return Err(e),
                };
                let index: usize = self.temporal_unit_count.saturating_sub(1);
                self.temporal_units.push(
                    TemporalUnitInfo { index, is_displayed: info.0, is_show_existing: info.1 },
                );
                self.frame_header_parsed_in_tu = true;
            }
        }
        Ok(())
    }

    /// The entries collected so far.
    pub fn temporal_units(&self) -> (units: &[TemporalUnitInfo])
        ensures
            units@ == self@.temporal_units,
    {
        self.temporal_units.as_slice()
    }

    /// The number of temporal units that produce a displayed frame.
    pub fn display_frame_count(&self) -> (count: usize)
        ensures
            count == displayed(self@.temporal_units).len(),
    {
        let mut count: usize = 0;
        let mut i: usize = 0;
        let ghost units = self.temporal_units@;
        assert(displayed(units.take(0)).len() == 0) by {
            reveal(Seq::filter);
        }
        while i < self.temporal_units.len()
            invariant
                i <= units.len(),
                units == self.temporal_units@,
                count <= i,
                count == displayed(units.take(i as int)).len(),
            decreases units.len() - i,
        {
            proof {
                reveal(Seq::filter);
                assert(units.take(i + 1).drop_last() =~= units.take(i as int));
            }
            if self.temporal_units[i].is_displayed {
                count = count + 1;
            }
            i = i + 1;
        }
        assert(units.take(i as int) =~= units);
        count
    }

    /// Takes in a sequence header.
    fn parse_sequence_header(&mut self, payload: &[u8]) -> (r: Result<(), Av1Error>)
        ensures
            r is Ok,
            final(self)@ == (if payload@.len() == 0 {
                old(self)@
            } else {
                ParserModel {
                    reduced_still_picture_header: reduced_still_picture_bit(payload@),
                    ..old(self)@
                }
            }),
    {
        if payload.len() < 1 {
            return Ok(());
        }
        let ghost bits = bitstream::bits_of(payload@).take(8);
        proof {
            bitstream::lemma_bits_of_first(payload@);
        }
        // The five bits that matter stand in the first byte.
        let mut reader = slice_bits(slice_subrange(payload, 0, 1));
        // seq_profile
        if read_bits::<3>(&mut reader).is_err() {
            return Err(Av1Error::Bitstream);
        }
        // still_picture
        if read_bits::<1>(&mut reader).is_err() {
            return Err(Av1Error::Bitstream);
        }
        assert(bitstream::unread_bits(reader) =~= bits.skip(4));
        proof {
            bitstream::lemma_bits_value_one(bits.skip(4).take(1));
        }
        match read_bits::<1>(&mut reader) {
            Ok(bit) => {
                self.reduced_still_picture_header = bit != 0;
                Ok(())
            },
            Err(_) => Err(Av1Error::Bitstream),
        }
    }

    /// Reads the display flags of a frame header.
    fn parse_frame_display_info(&self, payload: &[u8]) -> (r: Result<(bool, bool), Av1Error>)
        ensures
            r == Ok::<(bool, bool), Av1Error>(
                display_info(self.reduced_still_picture_header, payload@),
            ),
    {
        if self.reduced_still_picture_header || payload.len() == 0 {
            return Ok((true, false));
        }
        let ghost bits = bitstream::bits_of(payload@).take(8);
        proof {
            bitstream::lemma_bits_of_first(payload@);
        }
        // The five bits that matter stand in the first byte.
        let mut reader = slice_bits(slice_subrange(payload, 0, 1));
        proof {
            bitstream::lemma_bits_value_one(bits.take(1));
            bitstream::lemma_bits_value_one(bits.skip(3).take(1));
            bitstream::lemma_bits_value_one(bits.skip(4).take(1));
        }
        let show_existing_frame: bool = match read_bits::<1>(&mut reader) {
            Ok(bit) => bit != 0,
            Err(_) => return Err(Av1Error::Bitstream),
        };
        if show_existing_frame {
            return Ok((true, true));
        }
        // frame_type
        if read_bits::<2>(&mut reader).is_err() {
            return Err(Av1Error::Bitstream);
        }
        assert(bitstream::unread_bits(reader) =~= bits.skip(3));
        let show_frame: bool = match read_bits::<1>(&mut reader) {
            Ok(bit) => bit != 0,
            Err(_) => return Err(Av1Error::Bitstream),
        };
        if show_frame {
            return Ok((true, false));
        }
        assert(bitstream::unread_bits(reader) =~= bits.skip(4));
        match read_bits::<1>(&mut reader) {
            Ok(bit) => Ok((bit != 0, false)),
            Err(_) => Err(Av1Error::Bitstream),
        }
    }
}

/// Law: a temporal unit is not displayed only where its frame header has
/// `show_existing_frame`, `show_frame` and `showable_frame` at 0, and a unit
/// that shows an existing frame is displayed.
pub proof fn law_hidden_only_without_show_flags(reduced: bool, payload: Seq<u8>)
    ensures
        !display_info(reduced, payload).0 ==> {
            &&& !reduced
            &&& payload.len() > 0
            &&& !bitstream::bits_of(payload)[0]
            &&& !bitstream::bits_of(payload)[3]
            &&& !bitstream::bits_of(payload)[4]
        },
        display_info(reduced, payload).1 ==> display_info(reduced, payload).0,
{
}

/// Law: redundant frame headers, and any further frame header of a temporal
/// unit, leave the parser as it is.
pub proof fn law_one_frame_header_counts(parser: ParserModel, obu: ObuModel)
    requires
        obu.obu_type == OBU_REDUNDANT_FRAME_HEADER || (parser.frame_header_seen && (obu.obu_type
            == OBU_FRAME_HEADER || obu.obu_type == OBU_FRAME)),
    ensures
        after_obu(parser, obu) == parser,
{
}

/// What holds of every parser that started with nothing.
pub open spec fn parser_invariant(parser: ParserModel) -> bool {
    let units = parser.temporal_units;
    &&& forall|i: int|
        0 <= i < units.len() ==> (#[trigger] units[i]).index <= current_unit(
            parser.temporal_unit_count,
        )
    &&& forall|i: int, j: int|
        0 <= i < j < units.len() ==> (#[trigger] units[i]).index <= (#[trigger] units[j]).index
    &&& units.len() + (if parser.frame_header_seen {
        0int
    } else {
        1int
    }) <= parser.temporal_unit_count + 1
}

/// Law: a parser counts the temporal delimiters that it is given.
pub proof fn law_parser_counts_delimiters(obus: Seq<ObuModel>)
    ensures
        after_obus(new_parser(), obus).temporal_unit_count == obus.filter(
            |obu: ObuModel| obu.obu_type == OBU_TEMPORAL_DELIMITER,
        ).len(),
        after_obus(new_parser(), obus).temporal_unit_count <= obus.len(),
    decreases obus.len(),
{
    reveal(Seq::filter);
    if obus.len() > 0 {
        law_parser_counts_delimiters(obus.drop_last());
    }
}

/// Law: whatever units it is given, a parser holds at most one entry for each
/// temporal delimiter and one for what comes before the first, and its entries
/// stand in the order of their indices, none past the current temporal unit.
pub proof fn law_parser_invariant(obus: Seq<ObuModel>)
    requires
        after_obus(new_parser(), obus).temporal_unit_count <= usize::MAX,
    ensures
        parser_invariant(after_obus(new_parser(), obus)),
    decreases obus.len(),
{
    if obus.len() > 0 {
        law_parser_invariant(obus.drop_last());
    }
}

/// What holds of every parser of a stream that begins with a temporal
/// delimiter.
pub open spec fn delimited_parser_invariant(parser: ParserModel) -> bool {
    let units = parser.temporal_units;
    &&& parser.temporal_unit_count > 0
    &&& forall|i: int|
        0 <= i < units.len() ==> (#[trigger] units[i]).index < parser.temporal_unit_count
    &&& forall|i: int, j: int|
        0 <= i < j < units.len() ==> (#[trigger] units[i]).index < (#[trigger] units[j]).index
    &&& !parser.frame_header_seen ==> forall|i: int|
        0 <= i < units.len() ==> (#[trigger] units[i]).index + 1 < parser.temporal_unit_count
    &&& units.len() + (if parser.frame_header_seen {
        0int
    } else {
        1int
    }) <= parser.temporal_unit_count
}

/// Law: in a stream that begins with a temporal delimiter, each temporal unit
/// has at most one entry: the indices of the entries rise strictly, each is that
/// of a temporal unit that has begun, and there are no more entries than
/// temporal units.
pub proof fn law_delimited_parser_invariant(obus: Seq<ObuModel>)
    requires
        obus.len() > 0,
        obus[0].obu_type == OBU_TEMPORAL_DELIMITER,
        after_obus(new_parser(), obus).temporal_unit_count <= usize::MAX,
    ensures
        delimited_parser_invariant(after_obus(new_parser(), obus)),
    decreases obus.len(),
{
    let before = obus.drop_last();
    if before.len() > 0 {
        law_delimited_parser_invariant(before);
    } else {
        reveal_with_fuel(after_obus, 2);
    }
}

/// The first byte of a payload in bits.
proof fn lemma_first_bits(payload: Seq<u8>)
    requires
        payload.len() > 0,
    ensures
        bitstream::bits_of(payload)[0] == (payload[0] >= 128),
        bitstream::bits_of(payload)[3] == ((payload[0] / 16) % 2 == 1),
        bitstream::bits_of(payload)[4] == ((payload[0] / 8) % 2 == 1),
{
}

/// Law: a new parser has seen nothing.
pub proof fn law_new_parser()
    ensures
        !new_parser().reduced_still_picture_header,
        new_parser().temporal_unit_count == 0,
        new_parser().temporal_units.len() == 0,
        !new_parser().frame_header_seen,
{
}

/// Law: a temporal delimiter (type 2) begins a temporal unit whose frame header
/// has not been seen, and changes nothing else.
pub proof fn law_delimiter_begins_a_unit(parser: ParserModel, obu: ObuModel)
    requires
        obu.obu_type == 2,
    ensures
        after_obu(parser, obu).temporal_unit_count == parser.temporal_unit_count + 1,
        !after_obu(parser, obu).frame_header_seen,
        after_obu(parser, obu).temporal_units == parser.temporal_units,
        after_obu(parser, obu).reduced_still_picture_header == parser.reduced_still_picture_header,
{
}

/// Law: of a sequence header (type 1), bit 3 of the first byte alone counts,
/// whatever the other bits are; an empty one changes nothing.
pub proof fn law_sequence_header(parser: ParserModel, obu: ObuModel)
    requires
        obu.obu_type == 1,
    ensures
        after_obu(parser, obu).reduced_still_picture_header == (if obu.payload.len() > 0 {
            (obu.payload[0] / 8) % 2 == 1
        } else {
            parser.reduced_still_picture_header
        }),
        after_obu(parser, obu).temporal_unit_count == parser.temporal_unit_count,
        after_obu(parser, obu).temporal_units == parser.temporal_units,
        after_obu(parser, obu).frame_header_seen == parser.frame_header_seen,
{
    if obu.payload.len() > 0 {
        lemma_first_bits(obu.payload);
    }
}

/// Law: the first frame header of a temporal unit (type 3 or 6) gives the unit
/// one entry. The unit is displayed where the sequence header has the reduced
/// form, the frame header is empty, or one of the bits 7, 4 and 3 of its first
/// byte is set; bit 7 alone, outside the reduced form, tells of an existing
/// frame.
pub proof fn law_frame_header(parser: ParserModel, obu: ObuModel)
    requires
        obu.obu_type == 3 || obu.obu_type == 6,
        !parser.frame_header_seen,
    ensures
        ({
            let after = after_obu(parser, obu);
            let entry = after.temporal_units.last();
            let reduced = parser.reduced_still_picture_header;
            let b = obu.payload[0];
            let empty = obu.payload.len() == 0;
            &&& after.temporal_units.len() == parser.temporal_units.len() + 1
            &&& after.temporal_units.drop_last() == parser.temporal_units
            &&& entry.index == (if parser.temporal_unit_count == 0 {
                0
            } else {
                (parser.temporal_unit_count - 1) as usize
            })
            &&& entry.is_displayed == (reduced || empty || b >= 128 || (b / 16) % 2 == 1 || (b / 8)
                % 2 == 1)
            &&& entry.is_show_existing == (!reduced && !empty && b >= 128)
            &&& after.frame_header_seen
            &&& after.temporal_unit_count == parser.temporal_unit_count
            &&& after.reduced_still_picture_header == reduced
        }),
{
    if obu.payload.len() > 0 {
        lemma_first_bits(obu.payload);
    }
    assert(after_obu(parser, obu).temporal_units.drop_last() =~= parser.temporal_units);
}

/// Law: any further frame header of a temporal unit, and units of other types,
/// change nothing.
pub proof fn law_other_units_change_nothing(parser: ParserModel, obu: ObuModel)
    requires
        obu.obu_type != 1,
        obu.obu_type != 2,
        (obu.obu_type == 3 || obu.obu_type == 6) ==> parser.frame_header_seen,
    ensures
        after_obu(parser, obu) == parser,
{
}

/// Law: a frame header that follows a sequence header with the reduced form is
/// displayed, and shows no existing frame, whatever its bits are.
pub proof fn law_reduced_still_picture_is_displayed(
    parser: ParserModel,
    sequence_header: ObuModel,
    frame: ObuModel,
)
    requires
        !parser.frame_header_seen,
        sequence_header.obu_type == 1,
        sequence_header.payload.len() > 0,
        (sequence_header.payload[0] / 8) % 2 == 1,
        frame.obu_type == 3 || frame.obu_type == 6,
    ensures
        ({
            let entry = after_obu(after_obu(parser, sequence_header), frame).temporal_units.last();
            entry.is_displayed && !entry.is_show_existing
        }),
{
    law_sequence_header(parser, sequence_header);
    law_frame_header(after_obu(parser, sequence_header), frame);
}

/// Law: a run of units is taken in unit by unit.
pub proof fn law_units_are_taken_in_order(parser: ParserModel, obus: Seq<ObuModel>, obu: ObuModel)
    ensures
        after_obus(parser, Seq::empty()) == parser,
        after_obus(parser, obus.push(obu)) == after_obu(after_obus(parser, obus), obu),
{
    assert(obus.push(obu).drop_last() =~= obus);
}

/// Law: each displayed entry counts one, and no other entry counts.
pub proof fn law_displayed_entries_count(units: Seq<TemporalUnitInfo>, unit: TemporalUnitInfo)
    ensures
        displayed(Seq::empty()).len() == 0,
        displayed(units.push(unit)).len() == displayed(units).len() + (if unit.is_displayed {
            1int
        } else {
            0int
        }),
{
    reveal(Seq::filter);
    assert(units.push(unit).drop_last() =~= units);
}

/// Law: a parser knows what its fields hold.
pub proof fn law_parser_model(parser: Av1NaluParser)
    ensures
        parser@.reduced_still_picture_header == parser.reduced_still_picture_header,
        parser@.temporal_unit_count == parser.temporal_unit_count,
        parser@.temporal_units == parser.temporal_units@,
        parser@.frame_header_seen == parser.frame_header_parsed_in_tu,
{
}

} // verus!
