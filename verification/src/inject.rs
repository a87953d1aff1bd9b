//! Injection of HDR10+ metadata into a stream, one metadata unit per temporal
//! unit.

use crate::detect;
use crate::detect::is_hdr10plus_obu;
use crate::encode;
use crate::encode::encode_av1_from_json;
use crate::error::Av1Error;
use crate::metadata;
use crate::metadata::{Hdr10PlusJsonMetadata, MetadataModel};
use crate::obu;
use crate::obu::{Obu, ObuModel, OBU_TEMPORAL_DELIMITER};
use crate::parser;
use crate::parser::{Av1NaluParser, ParserModel};
use crate::remove;
use crate::remove::Remover;
use vstd::prelude::*;
use vstd::slice::slice_subrange;

verus! {

/// What the user is told about an injection.
#[derive(Debug, Clone, Copy, PartialEq, Eq, Structural)]
pub enum Notice {
    /// The input holds HDR10+ metadata units, which are replaced.
    ExistingMetadata,
    /// The video has more frames than the metadata has entries; the last entry
    /// is used for the others.
    MoreFrames { entries: usize },
    /// The metadata has more entries than the video has frames; the others are
    /// ignored.
    ExcessMetadata { entries: usize, frames: usize },
}

// ---------------------------------------------------------------------------
// One temporal unit
// ---------------------------------------------------------------------------

/// Where metadata is put into the units of a temporal unit: right after the
/// first temporal delimiter, or at the start where there is none.
pub open spec fn insertion_point(units: Seq<ObuModel>) -> nat
    decreases units.len(),
{
    if units.len() == 0 {
        0
    } else if insertion_point(units.drop_last()) > 0 {
        insertion_point(units.drop_last())
    } else if units.last().obu_type == OBU_TEMPORAL_DELIMITER {
        units.len()
    } else {
        0
    }
}

/// The bytes of a temporal unit with `encoded` put in and the HDR10+ metadata
/// that it had taken out.
pub open spec fn injected_bytes(
    units: Seq<ObuModel>,
    encoded: Seq<u8>,
    validate: bool,
) -> Seq<u8> {
    let point = insertion_point(units) as int;
    remove::removed_bytes(units.take(point), validate) + encoded + remove::removed_bytes(
        units.skip(point),
        validate,
    )
}

/// A temporal unit that holds HDR10+ metadata.
pub open spec fn has_hdr10plus(units: Seq<ObuModel>, validate: bool) -> bool {
    exists|i: int| 0 <= i < units.len() && detect::is_hdr10plus(#[trigger] units[i], validate)
}

/// What the metadata of temporal unit `index` is encoded as: that of the entry
/// with the same index, or of the last entry where there are fewer.
pub open spec fn unit_metadata(
    entries: Seq<Option<MetadataModel>>,
    validate: bool,
    index: nat,
) -> Result<Seq<u8>, Av1Error> {
    if entries.len() == 0 {
        Err(Av1Error::NoMetadataForUnit { tu_index: index as usize })
    } else if index < entries.len() {
        encode::encoded_entry(entries[index as int], validate)
    } else {
        encode::encoded_entry(entries.last(), validate)
    }
}

// ---------------------------------------------------------------------------
// The state of an injection
// ---------------------------------------------------------------------------

/// An injection that is under way.
pub struct Injection {
    /// Refuse metadata that does not conform to a profile, and take only
    /// metadata of a valid application version for HDR10+.
    pub validate: bool,
    /// How many temporal units have got their metadata.
    pub tu_index: usize,
    /// The metadata unit of the last temporal unit.
    pub last_encoded: Option<Vec<u8>>,
    /// The user has been told of existing metadata.
    pub warned_existing: bool,
    /// The user has been told that there are more frames than entries.
    pub warned_mismatch: bool,
    /// What the user is to be told, in order.
    pub notices: Vec<Notice>,
    /// The temporal unit that is being collected from a raw stream, its
    /// temporal delimiter first; empty before the first one.
    pub unit: Vec<Obu>,
    /// Follows the units of a raw stream.
    pub av1_parser: Av1NaluParser,
}

/// What an [`Injection`] holds.
#[verifier::ext_equal]
pub struct InjectionModel {
    pub validate: bool,
    pub tu_index: nat,
    pub last_encoded: Option<Seq<u8>>,
    pub warned_existing: bool,
    pub warned_mismatch: bool,
    pub notices: Seq<Notice>,
    pub unit: Seq<ObuModel>,
    pub av1_parser: ParserModel,
}

impl View for Injection {
    type V = InjectionModel;

    open spec fn view(&self) -> InjectionModel {
        InjectionModel {
            validate: self.validate,
            tu_index: self.tu_index as nat,
            last_encoded: match self.last_encoded {
                Some(encoded) => Some(encoded@),
                None => None,
            },
            warned_existing: self.warned_existing,
            warned_mismatch: self.warned_mismatch,
            notices: self.notices@,
            unit: obu::obu_models(self.unit@),
            av1_parser: self.av1_parser@,
        }
    }
}

/// An injection that has seen nothing.
pub open spec fn new_injection(validate: bool) -> InjectionModel {
    InjectionModel {
        validate,
        tu_index: 0,
        last_encoded: None,
        warned_existing: false,
        warned_mismatch: false,
        notices: Seq::empty(),
        unit: Seq::empty(),
        av1_parser: parser::new_parser(),
    }
}

/// The metadata unit for the next temporal unit: that of the next entry, or the
/// last one again where there is none.
pub open spec fn next_metadata(
    injection: InjectionModel,
    entries: Seq<Option<MetadataModel>>,
) -> Result<Seq<u8>, Av1Error> {
    if injection.tu_index < entries.len() {
        encode::encoded_entry(entries[injection.tu_index as int], injection.validate)
    } else {
        match injection.last_encoded {
            Some(encoded) => Ok(encoded),
            None => Err(Av1Error::NoMetadataForUnit { tu_index: injection.tu_index as usize }),
        }
    }
}

/// What the user is told at a temporal unit: each thing once.
pub open spec fn next_notices(
    injection: InjectionModel,
    units: Seq<ObuModel>,
    entries: nat,
) -> Seq<Notice> {
    (if !injection.warned_existing && has_hdr10plus(units, injection.validate) {
        seq![Notice::ExistingMetadata]
    } else {
        Seq::empty()
    }) + (if !injection.warned_mismatch && injection.tu_index >= entries {
        seq![Notice::MoreFrames { entries: entries as usize }]
    } else {
        Seq::empty()
    })
}

/// An injection after one more temporal unit. Where there is no metadata for
/// the unit, only the user is told.
pub open spec fn after_unit(
    injection: InjectionModel,
    units: Seq<ObuModel>,
    entries: Seq<Option<MetadataModel>>,
) -> InjectionModel {
    let told = InjectionModel {
        warned_existing: injection.warned_existing || has_hdr10plus(units, injection.validate),
        warned_mismatch: injection.warned_mismatch || injection.tu_index >= entries.len(),
        notices: injection.notices + next_notices(injection, units, entries.len()),
        ..injection
    };
    match next_metadata(injection, entries) {
        Ok(encoded) => InjectionModel {
            tu_index: injection.tu_index + 1,
            last_encoded: Some(encoded),
            ..told
        },
        Err(_) => told,
    }
}

/// Whether the temporal unit that is being collected is complete: at a
/// temporal delimiter and at the end of the stream.
pub open spec fn completes_unit(injection: InjectionModel, obu: Option<ObuModel>) -> bool {
    &&& injection.unit.len() > 0
    &&& obu matches Some(obu) ==> obu.obu_type == OBU_TEMPORAL_DELIMITER
}

/// The bytes that one more unit of a raw stream, or its end, lets out: the
/// completed temporal unit, or the unit itself before the first temporal
/// delimiter.
pub open spec fn raw_output(
    injection: InjectionModel,
    obu: Option<ObuModel>,
    entries: Seq<Option<MetadataModel>>,
) -> Result<Seq<u8>, Av1Error> {
    if completes_unit(injection, obu) {
        match next_metadata(injection, entries) {
            Ok(encoded) => Ok(injected_bytes(injection.unit, encoded, injection.validate)),
            Err(e) => Err(e),
        }
    } else if injection.unit.len() == 0 && obu is Some && obu->0.obu_type
        != OBU_TEMPORAL_DELIMITER {
        Ok(obu->0.raw_bytes)
    } else {
        Ok(Seq::empty())
    }
}

/// The temporal unit that is being collected after one more unit.
pub open spec fn unit_with(unit: Seq<ObuModel>, obu: ObuModel) -> Seq<ObuModel> {
    if obu.obu_type == OBU_TEMPORAL_DELIMITER {
        seq![obu]
    } else if unit.len() > 0 {
        unit.push(obu)
    } else {
        unit
    }
}

/// An injection after one more unit of a raw stream, or its end.
pub open spec fn after_raw(
    injection: InjectionModel,
    obu: Option<ObuModel>,
    entries: Seq<Option<MetadataModel>>,
) -> InjectionModel {
    let flushed = if completes_unit(injection, obu) {
        after_unit(injection, injection.unit, entries)
    } else {
        injection
    };
    if raw_output(injection, obu, entries) is Err {
        flushed
    } else {
        match obu {
            Some(obu) => InjectionModel {
                unit: unit_with(injection.unit, obu),
                av1_parser: parser::after_obu(injection.av1_parser, obu),
                ..flushed
            },
            None => InjectionModel { unit: Seq::empty(), ..flushed },
        }
    }
}

/// Puts HDR10+ metadata into streams.
pub struct Injector {
    /// Refuse metadata that does not conform to a profile, and take only
    /// metadata of a valid application version for HDR10+.
    pub validate: bool,
}

impl Injector {
    /// The bytes of a temporal unit with `encoded` right after its temporal
    /// delimiter, or at its start where it has none, and without the HDR10+
    /// metadata that it had.
    pub fn build_output_frame(obus: &[Obu], encoded: &[u8], validate: bool) -> (out: Vec<u8>)
        ensures
            out@ == injected_bytes(obu::obu_models(obus@), encoded@, validate),
    {
        let ghost units = obu::obu_models(obus@);
        let mut point: usize = 0;
        let mut i: usize = 0;
        assert(units.take(0).len() == 0);
        while i < obus.len()
            invariant
                i <= obus@.len(),
                units == obu::obu_models(obus@),
                point <= i,
                point == insertion_point(units.take(i as int)),
            decreases obus@.len() - i,
        {
            assert(units.take(i + 1).drop_last() =~= units.take(i as int));
            if point == 0 && obus[i].obu_type == OBU_TEMPORAL_DELIMITER {
                point = i + 1;
            }
            i = i + 1;
        }
        assert(units.take(i as int) =~= units);
        let head = slice_subrange(obus, 0, point);
        let tail = slice_subrange(obus, point, obus.len());
        proof {
            assert(obu::obu_models(head@) =~= units.take(point as int));
            assert(obu::obu_models(tail@) =~= units.skip(point as int));
        }
        let remover = Remover { validate };
        let mut out = remover.output_frame(head);
        out.extend_from_slice(encoded);
        out.extend_from_slice(remover.output_frame(tail).as_slice());
        assert(out@ =~= injected_bytes(units, encoded@, validate));
        out
    }
}

impl Injection {
    /// An injection that has seen nothing.
    pub fn new(validate: bool) -> (injection: Self)
        ensures
            injection@ == new_injection(validate),
    {
        let injection = Injection {
            validate,
            tu_index: 0,
            last_encoded: None,
            warned_existing: false,
            warned_mismatch: false,
            notices: Vec::new(),
            unit: Vec::new(),
            av1_parser: Av1NaluParser::new(),
        };
        assert(injection@ =~= new_injection(validate));
        injection
    }

    /// Injects metadata into one temporal unit: the bytes to write for it.
    pub fn inject_unit(&mut self, obus: &[Obu], metadata_list: &[Hdr10PlusJsonMetadata]) -> (r:
        Result<Vec<u8>, Av1Error>)
        requires
            old(self)@.tu_index < usize::MAX,
        ensures
            final(self)@ == after_unit(
                old(self)@,
                obu::obu_models(obus@),
                metadata::json_models(metadata_list@),
            ),
            match r {
                Ok(out) => next_metadata(
                    old(self)@,
                    metadata::json_models(metadata_list@),
                ) matches Ok(encoded) && out@ == injected_bytes(
                    obu::obu_models(obus@),
                    encoded,
                    old(self)@.validate,
                ),
                Err(e) => next_metadata(old(self)@, metadata::json_models(metadata_list@)) == Err::<
                    Seq<u8>,
                    Av1Error,
                >(e),
            },
    {
        let ghost units = obu::obu_models(obus@);
        let ghost entries = metadata::json_models(metadata_list@);
        let ghost before = self@;
        if !self.warned_existing && any_hdr10plus(obus, self.validate) {
            self.warned_existing = true;
            self.notices.push(Notice::ExistingMetadata);
        }
        let encoded: Vec<u8> = if self.tu_index < metadata_list.len() {
            match encode_av1_from_json(&metadata_list[self.tu_index], self.validate) {
                Ok(encoded) => encoded,
                Err(e) => {
                    assert(self@ =~= after_unit(before, units, entries));
                    return Err(e);
                },
            }
        } else {
            if !self.warned_mismatch {
                self.warned_mismatch = true;
                self.notices.push(Notice::MoreFrames { entries: metadata_list.len() });
            }
            match &self.last_encoded {
                Some(encoded) => vstd::slice::slice_to_vec(encoded.as_slice()),
                None => {
                    assert(self@ =~= after_unit(before, units, entries));
                    return Err(Av1Error::NoMetadataForUnit { tu_index: self.tu_index });
                },
            }
        };
        let out = Injector::build_output_frame(obus, encoded.as_slice(), self.validate);
        self.last_encoded = Some(encoded);
        self.tu_index = self.tu_index + 1;
        assert(self@ =~= after_unit(before, units, entries));
        Ok(out)
    }

    /// Takes in one unit of a raw stream, or its end: the bytes to write.
    pub fn inject_obu(
        &mut self,
        obu: Option<Obu>,
        metadata_list: &[Hdr10PlusJsonMetadata],
    ) -> (r: Result<Vec<u8>, Av1Error>)
        requires
            completes_unit(old(self)@, obu_model(obu)) ==> old(self)@.tu_index < usize::MAX,
            obu matches Some(obu) ==> obu.obu_type == OBU_TEMPORAL_DELIMITER ==> old(
                self,
            )@.av1_parser.temporal_unit_count < usize::MAX,
        ensures
            final(self)@ == after_raw(
                old(self)@,
                obu_model(obu),
                metadata::json_models(metadata_list@),
            ),
            match r {
                Ok(out) => raw_output(
                    old(self)@,
                    obu_model(obu),
                    metadata::json_models(metadata_list@),
                ) == Ok::<Seq<u8>, Av1Error>(out@),
                Err(e) => raw_output(
                    old(self)@,
                    obu_model(obu),
                    metadata::json_models(metadata_list@),
                ) == Err::<Seq<u8>, Av1Error>(e),
            },
    {
        let ghost before = self@;
        let ghost entries = metadata::json_models(metadata_list@);
        let is_eof: bool = obu.is_none();
        let is_td: bool = match &obu {
            Some(obu) => obu.obu_type == OBU_TEMPORAL_DELIMITER,
            None => false,
        };
        let mut out: Vec<u8> = Vec::new();
        if (is_eof || is_td) && self.unit.len() > 0 {
            let mut unit: Vec<Obu> = Vec::new();
            std::mem::swap(&mut unit, &mut self.unit);
            match self.inject_unit(unit.as_slice(), metadata_list) {
                Ok(bytes) => {
                    out = bytes;
                },
                Err(e) => {
                    self.unit = unit;
                    assert(self@ =~= after_raw(before, obu_model(obu), entries));
                    return Err(e);
                },
            }
        }
        match obu {
            None => {
                assert(self@ =~= after_raw(before, None, entries));
            },
            Some(obu) => {
                match self.av1_parser.process_obu(&obu) {
                    Ok(()) => {},
                    Err(e) => return Err(e),
                }
                if obu.obu_type == OBU_TEMPORAL_DELIMITER {
                    self.unit.clear();
                    self.unit.push(obu);
                } else if self.unit.len() > 0 {
                    self.unit.push(obu);
                } else {
                    out.extend_from_slice(obu.raw_bytes.as_slice());
                    assert(out@ =~= obu@.raw_bytes);
                }
                assert(self@ =~= after_raw(before, Some(obu@), entries));
            },
        }
        Ok(out)
    }

    /// Ends the injection: the user is told of entries that were not used.
    pub fn finish(&mut self, metadata_list: &[Hdr10PlusJsonMetadata])
        ensures
            final(self)@ == (InjectionModel {
                notices: old(self)@.notices + excess_notices(
                    metadata_list@.len(),
                    old(self)@.tu_index,
                ),
                ..old(self)@
            }),
    {
        let ghost before = self@;
        if self.tu_index < metadata_list.len() {
            let frames: usize = self.tu_index;
            self.notices.push(Notice::ExcessMetadata { entries: metadata_list.len(), frames });
        }
        assert(self@.notices =~= before.notices + excess_notices(
            metadata_list@.len(),
            before.tu_index,
        ));
    }
}

/// What the user is told at the end of a video with `frames` temporal units: of
/// entries that were not used.
pub open spec fn excess_notices(entries: nat, frames: nat) -> Seq<Notice> {
    if frames < entries {
        seq![Notice::ExcessMetadata { entries: entries as usize, frames: frames as usize }]
    } else {
        Seq::empty()
    }
}

/// What a unit that was read, or the end of the stream, holds.
pub open spec fn obu_model(obu: Option<Obu>) -> Option<ObuModel> {
    match obu {
        Some(obu) => Some(obu@),
        None => None,
    }
}

/// Whether one of the units is HDR10+ metadata.
fn any_hdr10plus(obus: &[Obu], validate: bool) -> (r: bool)
    ensures
        r == has_hdr10plus(obu::obu_models(obus@), validate),
{
    let ghost units = obu::obu_models(obus@);
    let mut i: usize = 0;
    while i < obus.len()
        invariant
            i <= obus@.len(),
            units == obu::obu_models(obus@),
            forall|j: int| 0 <= j < i ==> !detect::is_hdr10plus(#[trigger] units[j], validate),
        decreases obus@.len() - i,
    {
        if is_hdr10plus_obu(&obus[i], validate) {
            assert(detect::is_hdr10plus(units[i as int], validate));
            return true;
        }
        assert(units[i as int] == obus@[i as int]@);
        i = i + 1;
    }
    false
}

} // verus!
