//! Encoding of HDR10+ metadata as a metadata unit.

use crate::bitstream;
use crate::bitstream::{bit_writer, write_octet, written_bytes};
use crate::detect;
use crate::error::Av1Error;
use crate::leb128;
use crate::leb128::write_uleb128;
use crate::metadata;
use crate::metadata::{
    Hdr10PlusJsonMetadata, Hdr10PlusMetadata, Hdr10PlusMetadataEncOpts, MetadataModel,
};
use crate::obu;
use crate::obu::{ObuModel, OBU_METADATA};
use vstd::prelude::*;

verus! {

/// Metadata type of a T.35 message, in one byte.
pub const OBU_METADATA_TYPE_HDR10_PLUS: u8 = 4;

/// The header byte of a metadata unit: its type in bits 6 to 3, and the size
/// flag.
pub open spec fn metadata_header() -> u8 {
    0x2A
}

/// The payload of a metadata unit: the metadata type and the T.35 message.
pub open spec fn metadata_payload(metadata: MetadataModel) -> Seq<u8> {
    seq![OBU_METADATA_TYPE_HDR10_PLUS] + metadata::t35_message(metadata)
}

/// The bytes of a metadata unit: header, LEB128 payload size, payload.
pub open spec fn metadata_unit(metadata: MetadataModel) -> Seq<u8> {
    seq![metadata_header()] + leb128::leb128(metadata_payload(metadata).len()) + metadata_payload(
        metadata,
    )
}

/// What encoding metadata gives: its unit, unless validation refuses the
/// metadata or the unit is longer than a `u32` can count.
pub open spec fn encoded(metadata: MetadataModel, validate: bool) -> Result<Seq<u8>, Av1Error> {
    if validate && !metadata.conforms {
        Err(Av1Error::InvalidMetadata)
    } else if metadata_unit(metadata).len() > u32::MAX {
        Err(Av1Error::ObuTooLarge { len: metadata_unit(metadata).len() as usize })
    } else {
        Ok(metadata_unit(metadata))
    }
}

/// What encoding a JSON entry gives.
pub open spec fn encoded_entry(entry: Option<MetadataModel>, validate: bool) -> Result<
    Seq<u8>,
    Av1Error,
> {
    match entry {
        None => Err(Av1Error::InvalidJson),
        Some(metadata) => encoded(metadata, validate),
    }
}

/// The payload of a metadata unit. The T.35 message is taken with its country
/// code.
pub fn encode_av1_metadata_payload(metadata: &Hdr10PlusMetadata, validate: bool) -> (r: Result<
    Vec<u8>,
    Av1Error,
>)
    ensures
        match r {
            Ok(payload) => {
                &&& metadata.conforms || !validate
                &&& payload@ == metadata_payload(metadata@)
            },
            Err(e) => {
                &&& validate && !metadata.conforms
                &&& e == Av1Error::InvalidMetadata
            },
        },
{
    let opts = Hdr10PlusMetadataEncOpts { validate, with_country_code: true };
    let t35 = match metadata.encode_with_opts(&opts) {
        Ok(t35) => t35,
        Err(e) => return Err(e),
    };
    let mut writer = bit_writer(64);
    if write_octet(&mut writer, OBU_METADATA_TYPE_HDR10_PLUS).is_err() {
        return Err(Av1Error::Bitstream);
    }
    let ghost start = seq![OBU_METADATA_TYPE_HDR10_PLUS];
    let mut i: usize = 0;
    proof {
        assert(start + t35@.take(0) =~= start);
        assert(bitstream::written_bits(writer) =~= bitstream::bits_of(start));
    }
    while i < t35.len()
        invariant
            i <= t35@.len(),
            bitstream::written_bits(writer) == bitstream::bits_of(start + t35@.take(i as int)),
        decreases t35@.len() - i,
    {
        proof {
            bitstream::lemma_bits_of_push(start + t35@.take(i as int), t35@[i as int]);
            assert((start + t35@.take(i as int)).push(t35@[i as int]) =~= start + t35@.take(i + 1));
        }
        if write_octet(&mut writer, t35[i]).is_err() {
            return Err(Av1Error::Bitstream);
        }
        i = i + 1;
    }
    let ghost bits = bitstream::written_bits(writer);
    let payload = written_bytes(writer);
    proof {
        assert(t35@.take(i as int) =~= t35@);
        assert(bits.len() % 8 == 0);
        assert(bits.take(bits.len() as int) =~= bits);
        bitstream::law_bits_determine_bytes(payload@, start + t35@);
    }
    Ok(payload)
}

/// The raw unit of an HDR10+ metadata message.
pub fn encode_av1_metadata_obu(metadata: &Hdr10PlusMetadata, validate: bool) -> (r: Result<
    Vec<u8>,
    Av1Error,
>)
    ensures
        match r {
            Ok(data) => encoded(metadata@, validate) == Ok::<Seq<u8>, Av1Error>(data@),
            Err(e) => encoded(metadata@, validate) == Err::<Seq<u8>, Av1Error>(e),
        },
{
    let payload = match encode_av1_metadata_payload(metadata, validate) {
        Ok(payload) => payload,
        Err(e) => return Err(e),
    };
    assert((5u8 << 3) | 0x02 == 0x2A) by (bit_vector);
    let obu_header: u8 = (OBU_METADATA << 3) | 0x02;
    let mut data: Vec<u8> = Vec::new();
    data.push(obu_header);
    data.extend_from_slice(write_uleb128(payload.len()).as_slice());
    data.extend_from_slice(payload.as_slice());
    assert(data@ =~= metadata_unit(metadata@));
    let len: usize = data.len();
    if len as u64 > u32::MAX as u64 {
        return Err(Av1Error::ObuTooLarge { len });
    }
    Ok(data)
}

/// The raw unit of the metadata of a JSON entry.
pub fn encode_av1_from_json(metadata: &Hdr10PlusJsonMetadata, validate: bool) -> (r: Result<
    Vec<u8>,
    Av1Error,
>)
    ensures
        match r {
            Ok(data) => encoded_entry(metadata@, validate) == Ok::<Seq<u8>, Av1Error>(data@),
            Err(e) => encoded_entry(metadata@, validate) == Err::<Seq<u8>, Av1Error>(e),
        },
{
    match Hdr10PlusMetadata::try_from(metadata) {
        Ok(meta) => encode_av1_metadata_obu(meta, validate),
        Err(e) => Err(e),
    }
}

/// The unit that encoded metadata is read back as.
pub open spec fn metadata_obu(metadata: MetadataModel) -> ObuModel {
    ObuModel {
        obu_type: OBU_METADATA,
        temporal_id: 0,
        spatial_id: 0,
        payload: metadata_payload(metadata),
        raw_bytes: metadata_unit(metadata),
    }
}

/// Law: encoded metadata is read back, whatever follows it, as one metadata
/// unit with the metadata's payload.
pub proof fn law_encoded_metadata_reads_back(
    metadata: MetadataModel,
    validate: bool,
    rest: Seq<u8>,
)
    requires
        encoded(metadata, validate) is Ok,
    ensures
        encoded(metadata, validate) matches Ok(data) && obu::parse_obu(data + rest) == Ok::<
            Option<ObuModel>,
            Av1Error,
        >(Some(metadata_obu(metadata))),
{
    let payload = metadata_payload(metadata);
    let stub = ObuModel {
        obu_type: OBU_METADATA,
        temporal_id: 0,
        spatial_id: 0,
        payload,
        raw_bytes: seq![metadata_header()],
    };
    assert(stub.raw_bytes.take(1) =~= stub.raw_bytes);
    assert(obu::rebuilt(stub) =~= metadata_unit(metadata));
    obu::law_rebuilt_unit_reads_back(stub, rest);
}

/// Law: encoded metadata is detected as HDR10+, and its T.35 message is
/// extracted from it as it was, exactly where the message has the HDR10+
/// identifiers.
pub proof fn law_encoded_metadata_is_detected(metadata: MetadataModel, validate: bool)
    ensures
        detect::is_hdr10plus(metadata_obu(metadata), validate) == detect::is_hdr10plus_t35(
            metadata::t35_message(metadata),
            validate,
        ),
        detect::hdr10plus_t35(metadata_payload(metadata), validate) == (
        if detect::is_hdr10plus_t35(metadata::t35_message(metadata), validate) {
            Some(metadata::t35_message(metadata))
        } else {
            None
        }),
{
    let t35 = metadata::t35_message(metadata);
    let payload = metadata_payload(metadata);
    assert(leb128::leb128(4) =~= seq![OBU_METADATA_TYPE_HDR10_PLUS]);
    leb128::law_leb128_round_trip(4, t35);
    assert(payload.skip(1) =~= t35);
}

/// The T.35 message of HDR10+ after its country code starts with these bytes:
/// provider code, oriented code, application identifier and version.
pub open spec fn hdr10plus_identifiers() -> Seq<u8> {
    seq![0x00u8, 0x3C, 0x00, 0x01, 0x04, 0x01]
}

/// Law: metadata whose message starts with the HDR10+ identifiers is encoded as
/// `2A`, the payload size in LEB128, `04 B5 00 3C 00 01 04 01` and the HDR10+
/// bits, and the unit is detected as HDR10+ with and without validation.
pub proof fn law_encoded_hdr10plus_layout(metadata: MetadataModel, validate: bool)
    requires
        metadata.message.len() >= 6,
        metadata.message.take(6) == hdr10plus_identifiers(),
    ensures
        metadata_unit(metadata) == seq![0x2Au8] + leb128::leb128(2 + metadata.message.len()) + seq![
            0x04u8,
            0xB5,
            0x00,
            0x3C,
            0x00,
            0x01,
            0x04,
            0x01,
        ] + metadata.message.skip(6),
        detect::is_hdr10plus(metadata_obu(metadata), validate),
        detect::hdr10plus_t35(metadata_payload(metadata), validate) == Some(
            metadata::t35_message(metadata),
        ),
{
    let message = metadata.message;
    let start = message.take(6);
    assert(start[0] == message[0] && start[1] == message[1] && start[2] == message[2] && start[3]
        == message[3] && start[4] == message[4] && start[5] == message[5]);
    assert(message =~= hdr10plus_identifiers() + message.skip(6));
    assert(metadata_payload(metadata) =~= seq![
        0x04u8,
        0xB5,
        0x00,
        0x3C,
        0x00,
        0x01,
        0x04,
        0x01,
    ] + message.skip(6));
    law_encoded_metadata_is_detected(metadata, validate);
}

/// How long the size field of a payload is that has about as many bytes as a
/// unit may have.
proof fn lemma_long_size_field(n: nat)
    ensures
        n < 0x8_0000_0000 ==> leb128::leb128(n).len() <= 5,
        n >= 0x1000_0000 ==> leb128::leb128(n).len() >= 5,
{
    reveal_with_fuel(leb128::pow128, 6);
    if n < 0x8_0000_0000 {
        leb128::lemma_leb128_len(n, 5);
    }
    if n >= 0x1000_0000 {
        leb128::law_leb128_value_of_form(n);
        leb128::lemma_leb128_value_bound(leb128::leb128(n));
        let k = leb128::leb128(n).len();
        if k <= 4 {
            assert(k == 0 || k == 1 || k == 2 || k == 3 || k == 4);
            assert(leb128::pow128(k) <= 0x1000_0000);
        }
    }
}

/// Law: encoding succeeds exactly where it should: for metadata that conforms,
/// or without validation, and a message of at most 2^32 - 9 bytes. It gives `2A`,
/// the LEB128 payload size, `04 B5` and the message. Otherwise it tells that the
/// metadata does not conform, or else how long the unit would be.
pub proof fn law_encoding(metadata: MetadataModel, validate: bool)
    ensures
        ({
            let n = metadata.message.len();
            let unit = seq![0x2Au8] + leb128::leb128(n + 2) + seq![0x04u8, 0xB5] + metadata.message;
            let allowed = metadata.conforms || !validate;
            &&& allowed && n <= 0xFFFF_FFF7 ==> encoded(metadata, validate) == Ok::<
                Seq<u8>,
                Av1Error,
            >(unit)
            &&& allowed && n > 0xFFFF_FFF7 ==> encoded(metadata, validate) == Err::<
                Seq<u8>,
                Av1Error,
            >(Av1Error::ObuTooLarge { len: unit.len() as usize })
            &&& !allowed ==> encoded(metadata, validate) == Err::<Seq<u8>, Av1Error>(
                Av1Error::InvalidMetadata,
            )
            &&& encoded_entry(Some(metadata), validate) == encoded(metadata, validate)
            &&& encoded_entry(None, validate) == Err::<Seq<u8>, Av1Error>(Av1Error::InvalidJson)
            &&& metadata_payload(metadata) == seq![0x04u8, 0xB5] + metadata.message
            &&& metadata_unit(metadata) == unit
        }),
{
    let n = metadata.message.len();
    let unit = seq![0x2Au8] + leb128::leb128(n + 2) + seq![0x04u8, 0xB5] + metadata.message;
    lemma_long_size_field(n + 2);
    assert(metadata_payload(metadata) =~= seq![0x04u8, 0xB5] + metadata.message);
    assert(metadata_unit(metadata) =~= unit);
}

} // verus!
