//! Open Bitstream Units in the Low Overhead Bitstream Format, where every unit
//! carries a size field.

use crate::error::Av1Error;
use crate::leb128;
use crate::leb128::{decode_leb128, encode_leb128, LEB128_MAX_LEN};
use crate::reader::ByteReader;
use vstd::prelude::*;
use vstd::slice::{slice_subrange, slice_to_vec};

verus! {

pub const OBU_SEQUENCE_HEADER: u8 = 1;

pub const OBU_TEMPORAL_DELIMITER: u8 = 2;

pub const OBU_FRAME_HEADER: u8 = 3;

pub const OBU_METADATA: u8 = 5;

pub const OBU_FRAME: u8 = 6;

pub const OBU_REDUNDANT_FRAME_HEADER: u8 = 7;

/// A single parsed AV1 Open Bitstream Unit.
pub struct Obu {
    pub obu_type: u8,
    pub temporal_id: u8,
    pub spatial_id: u8,
    /// The bytes after the header and the size field.
    pub payload: Vec<u8>,
    /// The whole unit as it stood in the stream: header, size field, payload.
    pub raw_bytes: Vec<u8>,
}

/// What an [`Obu`] holds.
#[verifier::ext_equal]
pub struct ObuModel {
    pub obu_type: u8,
    pub temporal_id: u8,
    pub spatial_id: u8,
    pub payload: Seq<u8>,
    pub raw_bytes: Seq<u8>,
}

impl View for Obu {
    type V = ObuModel;

    open spec fn view(&self) -> ObuModel {
        ObuModel {
            obu_type: self.obu_type,
            temporal_id: self.temporal_id,
            spatial_id: self.spatial_id,
            payload: self.payload@,
            raw_bytes: self.raw_bytes@,
        }
    }
}

/// What a list of units holds.
pub open spec fn obu_models(obus: Seq<Obu>) -> Seq<ObuModel> {
    Seq::new(obus.len(), |i: int| obus[i]@)
}

// ---------------------------------------------------------------------------
// Header layout
// ---------------------------------------------------------------------------

/// Bits 6 to 3 of the header byte.
pub open spec fn header_type(header: u8) -> u8 {
    ((header / 8) % 16) as u8
}

/// Bit 2 of the header byte: a second header byte follows.
pub open spec fn header_has_extension(header: u8) -> bool {
    (header / 4) % 2 == 1
}

/// Bit 1 of the header byte: a size field follows the header.
pub open spec fn header_has_size(header: u8) -> bool {
    (header / 2) % 2 == 1
}

/// How many bytes the header takes.
pub open spec fn header_len(header: u8) -> nat {
    if header_has_extension(header) {
        2
    } else {
        1
    }
}

/// Bits 7 to 5 of the extension byte, or 0 where there is none.
pub open spec fn unit_temporal_id(unit: Seq<u8>) -> u8 {
    if header_has_extension(unit[0]) {
        ((unit[1] / 32) % 8) as u8
    } else {
        0
    }
}

/// Bits 4 and 3 of the extension byte, or 0 where there is none.
pub open spec fn unit_spatial_id(unit: Seq<u8>) -> u8 {
    if header_has_extension(unit[0]) {
        ((unit[1] / 8) % 4) as u8
    } else {
        0
    }
}

/// How many bytes of the size field there are after the header.
pub open spec fn size_field_len(bytes: Seq<u8>) -> nat {
    leb128::leb128_run(bytes.skip(header_len(bytes[0]) as int), LEB128_MAX_LEN as nat)
}

/// Where the payload starts.
pub open spec fn payload_start(bytes: Seq<u8>) -> nat {
    header_len(bytes[0]) + size_field_len(bytes)
}

/// The size field ends within the bytes there are and within eight bytes.
pub open spec fn size_field_ends(bytes: Seq<u8>) -> bool {
    &&& size_field_len(bytes) > 0
    &&& bytes[payload_start(bytes) - 1] < 128
}

/// The number in the size field.
pub open spec fn payload_size(bytes: Seq<u8>) -> nat {
    leb128::leb128_value(
        bytes.subrange(header_len(bytes[0]) as int, payload_start(bytes) as int),
    )
}

/// How many bytes the unit at the start of `bytes` takes.
pub open spec fn unit_len(bytes: Seq<u8>) -> nat {
    payload_start(bytes) + payload_size(bytes)
}

/// The unit at the start of `bytes`.
pub open spec fn unit_at_start(bytes: Seq<u8>) -> ObuModel {
    ObuModel {
        obu_type: header_type(bytes[0]),
        temporal_id: unit_temporal_id(bytes),
        spatial_id: unit_spatial_id(bytes),
        payload: bytes.subrange(payload_start(bytes) as int, unit_len(bytes) as int),
        raw_bytes: bytes.take(unit_len(bytes) as int),
    }
}

/// What reading one unit from `bytes` gives: nothing at the end of the input,
/// the unit, or the first fault.
pub open spec fn parse_obu(bytes: Seq<u8>) -> Result<Option<ObuModel>, Av1Error> {
    if bytes.len() == 0 {
        Ok(None)
    } else if bytes[0] >= 128 {
        Err(Av1Error::ForbiddenBit { byte: bytes[0] })
    } else if bytes.len() < header_len(bytes[0]) {
        Err(Av1Error::UnexpectedEof)
    } else if !header_has_size(bytes[0]) {
        Err(Av1Error::NoSizeField { obu_type: header_type(bytes[0]) })
    } else if !size_field_ends(bytes) {
        if size_field_len(bytes) == LEB128_MAX_LEN {
            Err(Av1Error::Leb128Overflow)
        } else {
            Err(Av1Error::UnexpectedEof)
        }
    } else if bytes.len() < unit_len(bytes) {
        Err(Av1Error::UnexpectedEof)
    } else {
        Ok(Some(unit_at_start(bytes)))
    }
}

/// How many bytes reading one unit consumes: the unit, or everything up to and
/// with the byte that shows the fault.
pub open spec fn parse_obu_consumes(bytes: Seq<u8>) -> nat {
    match parse_obu(bytes) {
        Ok(None) => 0,
        Ok(Some(obu)) => obu.raw_bytes.len(),
        Err(Av1Error::ForbiddenBit { .. }) => 1,
        Err(Av1Error::NoSizeField { .. }) => header_len(bytes[0]),
        Err(Av1Error::Leb128Overflow) => payload_start(bytes),
        Err(_) => bytes.len(),
    }
}

impl Obu {
    /// Reads one unit. Returns `None` at the end of the input.
    pub fn read_from(reader: &mut ByteReader) -> (r: Result<Option<Self>, Av1Error>)
        ensures
            match r {
                Ok(None) => parse_obu(old(reader)@) == Ok::<Option<ObuModel>, Av1Error>(None),
                Ok(Some(obu)) => parse_obu(old(reader)@) == Ok::<Option<ObuModel>, Av1Error>(
                    Some(obu@),
                ),
                Err(e) => parse_obu(old(reader)@) == Err::<Option<ObuModel>, Av1Error>(e),
            },
            final(reader)@ == old(reader)@.skip(parse_obu_consumes(old(reader)@) as int),
    {
        let ghost bytes = reader@;
        let buf = reader.fill_buf();
        let buf_len: usize = buf.len();
        if buf_len == 0 {
            assert(reader@ =~= bytes.skip(0));
            return Ok(None);
        }
        let header: u8 = buf[0];
        let has_extension: bool = (header >> 2) & 1 != 0;
        let has_size_field: bool = (header >> 1) & 1 != 0;
        let obu_type: u8 = (header >> 3) & 0x0F;
        proof {
            lemma_header_bits(header);
        }
        if header >> 7 != 0 {
            let _ = reader.read_exact(1);
            return Err(Av1Error::ForbiddenBit { byte: header });
        }
        let mut temporal_id: u8 = 0;
        let mut spatial_id: u8 = 0;
        let mut header_size: usize = 1;
        if has_extension {
            if buf_len < 2 {
                let _ = reader.read_exact(2);
                assert(reader@ =~= bytes.skip(bytes.len() as int));
                return Err(Av1Error::UnexpectedEof);
            }
            let extension: u8 = buf[1];
            proof {
                lemma_extension_bits(extension);
            }
            temporal_id = (extension >> 5) & 0x07;
            spatial_id = (extension >> 3) & 0x03;
            header_size = 2;
        }
        if !has_size_field {
            let _ = reader.read_exact(header_size);
            return Err(Av1Error::NoSizeField { obu_type });
        }
        let field = slice_subrange(buf, header_size, buf_len);
        assert(field@ =~= bytes.skip(header_size as int));
        let (size, size_len) = decode_leb128(field);
        proof {
            leb128::lemma_leb128_run_bounds(field@, LEB128_MAX_LEN as nat);
            assert(field@.take(size_len as int) =~= bytes.subrange(
                header_size as int,
                payload_start(bytes) as int,
            ));
        }
        let start: usize = header_size + size_len;
        if size_len == 0 || buf[start - 1] >= 128 {
            if size_len == LEB128_MAX_LEN {
                let _ = reader.read_exact(start);
                return Err(Av1Error::Leb128Overflow);
            }
            let _ = reader.read_exact(buf_len);
            assert(reader@ =~= bytes.skip(bytes.len() as int));
            return Err(Av1Error::UnexpectedEof);
        }
        if size > (buf_len - start) as u64 {
            let _ = reader.read_exact(buf_len);
            assert(reader@ =~= bytes.skip(bytes.len() as int));
            return Err(Av1Error::UnexpectedEof);
        }
        let total: usize = start + size as usize;
        match reader.read_exact(total) {
            Err(e) => Err(e),
            Ok(raw_bytes) => {
                let payload = slice_to_vec(slice_subrange(raw_bytes.as_slice(), start, total));
                assert(payload@ =~= unit_at_start(bytes).payload);
                Ok(Some(Obu { obu_type, temporal_id, spatial_id, payload, raw_bytes }))
            },
        }
    }

    /// The unit with its header as it was and its present payload, in the
    /// shortest form: header, LEB128 payload size, payload.
    pub fn rebuild_raw(&self) -> (out: Vec<u8>)
        requires
            self.raw_bytes@.len() > 0,
            self.raw_bytes@.len() >= header_len(self.raw_bytes@[0]),
        ensures
            out@ == rebuilt(self@),
    {
        let header: u8 = self.raw_bytes[0];
        let has_extension: bool = (header >> 2) & 1 != 0;
        proof {
            lemma_header_bits(header);
        }
        let header_size: usize = if has_extension {
            2
        } else {
            1
        };
        let size_bytes = encode_leb128(self.payload.len() as u64);
        let mut out: Vec<u8> = Vec::new();
        out.extend_from_slice(slice_subrange(self.raw_bytes.as_slice(), 0, header_size));
        out.extend_from_slice(size_bytes.as_slice());
        out.extend_from_slice(self.payload.as_slice());
        assert(out@ =~= rebuilt(self@));
        out
    }
}

/// A unit's header, the LEB128 size of its payload, and its payload.
pub open spec fn rebuilt(obu: ObuModel) -> Seq<u8> {
    obu.raw_bytes.take(header_len(obu.raw_bytes[0]) as int) + leb128::leb128(
        obu.payload.len(),
    ) + obu.payload
}

/// What the bytes of a unit read so far ask for.
pub enum ObuStep {
    /// So many more bytes have to be read.
    Need(u64),
    /// The unit is complete.
    Done,
    /// The bytes are no unit.
    Fail(Av1Error),
}

/// What the bytes `read` of a unit ask for.
pub open spec fn step_after(read: Seq<u8>) -> ObuStep {
    if read.len() == 0 {
        ObuStep::Need(1)
    } else if read[0] >= 128 {
        ObuStep::Fail(Av1Error::ForbiddenBit { byte: read[0] })
    } else if read.len() < header_len(read[0]) {
        ObuStep::Need(1)
    } else if !header_has_size(read[0]) {
        ObuStep::Fail(Av1Error::NoSizeField { obu_type: header_type(read[0]) })
    } else if !size_field_ends(read) {
        if size_field_len(read) == LEB128_MAX_LEN {
            ObuStep::Fail(Av1Error::Leb128Overflow)
        } else {
            ObuStep::Need(1)
        }
    } else if read.len() < unit_len(read) {
        ObuStep::Need((unit_len(read) - read.len()) as u64)
    } else {
        ObuStep::Done
    }
}

/// Decides how to go on with a unit of which the bytes `read` have been read:
/// for use with a stream that cannot be held in memory.
pub fn obu_step(read: &[u8]) -> (step: ObuStep)
    ensures
        step == step_after(read@),
{
    let read_len: usize = read.len();
    if read_len == 0 {
        return ObuStep::Need(1);
    }
    let header: u8 = read[0];
    proof {
        lemma_header_bits(header);
    }
    if header >> 7 != 0 {
        return ObuStep::Fail(Av1Error::ForbiddenBit { byte: header });
    }
    let header_size: usize = if (header >> 2) & 1 != 0 {
        2
    } else {
        1
    };
    if read_len < header_size {
        return ObuStep::Need(1);
    }
    if (header >> 1) & 1 == 0 {
        return ObuStep::Fail(Av1Error::NoSizeField { obu_type: (header >> 3) & 0x0F });
    }
    let field = slice_subrange(read, header_size, read_len);
    assert(field@ =~= read@.skip(header_size as int));
    let (size, size_len) = decode_leb128(field);
    proof {
        leb128::lemma_leb128_run_bounds(field@, LEB128_MAX_LEN as nat);
        assert(field@.take(size_len as int) =~= read@.subrange(
            header_size as int,
            payload_start(read@) as int,
        ));
        lemma_payload_size_bound(read@);
    }
    let start: usize = header_size + size_len;
    if size_len == 0 || read[start - 1] >= 128 {
        if size_len == LEB128_MAX_LEN {
            return ObuStep::Fail(Av1Error::Leb128Overflow);
        }
        return ObuStep::Need(1);
    }
    let present: u64 = (read_len - start) as u64;
    if present < size {
        ObuStep::Need(size - present)
    } else {
        ObuStep::Done
    }
}

/// A size field of eight bytes or fewer holds a number below 2^56.
pub proof fn lemma_payload_size_bound(bytes: Seq<u8>)
    requires
        bytes.len() > 0,
        bytes.len() >= header_len(bytes[0]),
    ensures
        payload_size(bytes) < 0x100_0000_0000_0000,
        size_field_len(bytes) <= LEB128_MAX_LEN,
        payload_start(bytes) <= bytes.len(),
{
    let field = bytes.skip(header_len(bytes[0]) as int);
    leb128::lemma_leb128_run_bounds(field, LEB128_MAX_LEN as nat);
    let digits = bytes.subrange(header_len(bytes[0]) as int, payload_start(bytes) as int);
    leb128::lemma_leb128_value_bound(digits);
    reveal_with_fuel(leb128::pow128, 9);
}

/// What is said of a unit's start holds of all bytes with the same start.
proof fn lemma_unit_local(a: Seq<u8>, b: Seq<u8>)
    requires
        a.len() > 0,
        a.len() >= header_len(a[0]),
        size_field_ends(a) || size_field_len(a) == LEB128_MAX_LEN,
        b.len() >= payload_start(a),
        b.take(payload_start(a) as int) == a.take(payload_start(a) as int),
    ensures
        b[0] == a[0],
        size_field_len(b) == size_field_len(a),
        size_field_ends(b) == size_field_ends(a),
        payload_start(b) == payload_start(a),
        payload_size(b) == payload_size(a),
        unit_temporal_id(b) == unit_temporal_id(a),
        unit_spatial_id(b) == unit_spatial_id(a),
{
    lemma_payload_size_bound(a);
    let n = payload_start(a) as int;
    assert forall|i: int| 0 <= i < n implies a[i] == b[i] by {
        assert(b.take(n)[i] == a.take(n)[i]);
    }
    let h = header_len(a[0]) as int;
    let fa = a.skip(h);
    let fb = b.skip(h);
    let k = size_field_len(a) as int;
    assert(fb.take(k) =~= fa.take(k));
    leb128::lemma_leb128_run_local(fa, fb, LEB128_MAX_LEN as nat);
    assert(b.subrange(h, n) =~= a.subrange(h, n));
}

/// Law: a unit delimits itself. The unit that reading gives is the start of
/// what was read, two bytes long at least, and it is read again, the same, from
/// its own bytes whatever follows them.
pub proof fn law_unit_delimits_itself(bytes: Seq<u8>, rest: Seq<u8>)
    requires
        parse_obu(bytes) matches Ok(Some(_)),
    ensures
        parse_obu(bytes) matches Ok(Some(obu)) && {
            &&& 2 <= obu.raw_bytes.len() <= bytes.len()
            &&& obu.raw_bytes == bytes.take(obu.raw_bytes.len() as int)
            &&& parse_obu(obu.raw_bytes + rest) == Ok::<Option<ObuModel>, Av1Error>(Some(obu))
        },
{
    let obu = unit_at_start(bytes);
    let raw = obu.raw_bytes;
    let b = raw + rest;
    let n = payload_start(bytes) as int;
    lemma_payload_size_bound(bytes);
    assert(b.take(n) =~= bytes.take(n));
    lemma_unit_local(bytes, b);
    assert(unit_at_start(b) =~= obu);
}

/// Law: a unit whose payload was changed is read back from its rebuilt bytes
/// with its type and ids as they were and with the changed payload, whatever
/// follows.
pub proof fn law_rebuilt_unit_reads_back(obu: ObuModel, rest: Seq<u8>)
    requires
        obu.raw_bytes.len() > 0,
        obu.raw_bytes[0] < 128,
        header_has_size(obu.raw_bytes[0]),
        obu.raw_bytes.len() >= header_len(obu.raw_bytes[0]),
        obu.payload.len() < 0x100_0000_0000_0000,
    ensures
        parse_obu(rebuilt(obu) + rest) == Ok::<Option<ObuModel>, Av1Error>(
            Some(
                ObuModel {
                    obu_type: header_type(obu.raw_bytes[0]),
                    temporal_id: unit_temporal_id(obu.raw_bytes),
                    spatial_id: unit_spatial_id(obu.raw_bytes),
                    payload: obu.payload,
                    raw_bytes: rebuilt(obu),
                },
            ),
        ),
{
    let h = header_len(obu.raw_bytes[0]) as int;
    let head = obu.raw_bytes.take(h);
    let form = leb128::leb128(obu.payload.len());
    let out = rebuilt(obu);
    let b = out + rest;
    assert(b[0] == obu.raw_bytes[0]);
    assert(b.skip(h) =~= form + (obu.payload + rest));
    leb128::law_leb128_round_trip(obu.payload.len(), obu.payload + rest);
    leb128::lemma_leb128_shape(obu.payload.len());
    assert(b.subrange(h, h + form.len()) =~= (form + (obu.payload + rest)).take(
        form.len() as int,
    ));
    assert(b[h + form.len() - 1] == form.last());
    assert(h == 2 ==> b[1] == obu.raw_bytes[1]);
    assert(unit_at_start(b).payload =~= obu.payload);
    assert(unit_at_start(b).raw_bytes =~= out);
}

/// Law: rebuilding a unit that was read with the shortest size field gives the
/// bytes that were read.
pub proof fn law_rebuild_keeps_short_units(bytes: Seq<u8>)
    requires
        parse_obu(bytes) matches Ok(Some(_)),
        size_field_len(bytes) > 1 ==> bytes[payload_start(bytes) - 1] > 0,
    ensures
        parse_obu(bytes) matches Ok(Some(obu)) && rebuilt(obu) == obu.raw_bytes,
{
    let obu = unit_at_start(bytes);
    let h = header_len(bytes[0]) as int;
    let n = payload_start(bytes) as int;
    lemma_payload_size_bound(bytes);
    let field = bytes.skip(h);
    let digits = bytes.subrange(h, n);
    assert forall|i: int| 0 <= i < digits.len() - 1 implies digits[i] >= 128 by {
        leb128::lemma_leb128_run_continues(field, LEB128_MAX_LEN as nat, i);
        assert(digits[i] == field[i]);
    }
    leb128::law_leb128_form_is_unique(digits);
    assert(rebuilt(obu) =~= obu.raw_bytes);
}

/// Law: reading a unit piece by piece, as [`obu_step`] asks, comes to the same
/// end as reading it from all of its stream. A step fails with the fault of the
/// stream, it finds the unit complete where the stream holds a unit within the
/// bytes read, and it asks for bytes past the end of the stream only where the
/// stream is cut off. A step that asks for bytes that are there asks for none
/// past the unit.
pub proof fn law_steps_read_the_unit(bytes: Seq<u8>, n: int)
    requires
        0 <= n <= bytes.len(),
    ensures
        match step_after(bytes.take(n)) {
            ObuStep::Fail(e) => parse_obu(bytes) == Err::<Option<ObuModel>, Av1Error>(e),
            ObuStep::Done => parse_obu(bytes) matches Ok(Some(obu)) && obu.raw_bytes.len() <= n,
            ObuStep::Need(more) => {
                &&& more > 0
                &&& n + more > bytes.len() ==> parse_obu(bytes) == (if n == 0 {
                    Ok::<Option<ObuModel>, Av1Error>(None)
                } else {
                    Err(Av1Error::UnexpectedEof)
                })
                &&& n + more <= bytes.len() ==> n + more <= parse_obu_consumes(bytes)
            },
        },
{
    let read = bytes.take(n);
    if n > 0 {
        assert(read[0] == bytes[0]);
        if read[0] < 128 && n >= header_len(read[0]) && header_has_size(read[0]) {
            lemma_payload_size_bound(read);
            if size_field_ends(read) || size_field_len(read) == LEB128_MAX_LEN {
                assert(bytes.take(payload_start(read) as int) =~= read.take(
                    payload_start(read) as int,
                ));
                lemma_unit_local(read, bytes);
                lemma_payload_size_bound(bytes);
            } else {
                lemma_unfinished_size_field(bytes, n);
            }
        }
    }
}

/// A size field that the bytes read so far do not end takes all of them after
/// the header, and goes on behind them.
proof fn lemma_unfinished_size_field(bytes: Seq<u8>, n: int)
    requires
        0 < n <= bytes.len(),
        n >= header_len(bytes[0]),
        !size_field_ends(bytes.take(n)),
        size_field_len(bytes.take(n)) < LEB128_MAX_LEN,
    ensures
        payload_start(bytes.take(n)) == n,
        n < bytes.len() ==> payload_start(bytes) > n,
        n == bytes.len() ==> !size_field_ends(bytes) && size_field_len(bytes) < LEB128_MAX_LEN,
{
    let read = bytes.take(n);
    let h = header_len(bytes[0]) as int;
    let fr = read.skip(h);
    let fb = bytes.skip(h);
    let k = size_field_len(read);
    let limit = LEB128_MAX_LEN as nat;
    leb128::lemma_leb128_run_bounds(fr, limit);
    assert forall|i: int| 0 <= i < k implies fr[i] >= 128 by {
        if i < k - 1 {
            leb128::lemma_leb128_run_continues(fr, limit, i);
        } else {
            assert(read[payload_start(read) - 1] == fr[i]);
        }
    }
    leb128::lemma_leb128_run_skip(fr, limit, k);
    leb128::lemma_leb128_run_bounds(fr.skip(k as int), (limit - k) as nat);
    assert(k == fr.len());
    if n < bytes.len() {
        assert forall|i: int| 0 <= i < k implies fb[i] >= 128 by {
            assert(fb[i] == fr[i]);
        }
        leb128::lemma_leb128_run_skip(fb, limit, k);
        leb128::lemma_leb128_run_bounds(fb.skip(k as int), (limit - k) as nat);
    } else {
        assert(read =~= bytes);
    }
}

/// The fields of a header byte.
proof fn lemma_header_bits(header: u8)
    ensures
        (header >> 3) & 0x0F == header_type(header),
        ((header >> 2) & 1 != 0) == header_has_extension(header),
        ((header >> 1) & 1 != 0) == header_has_size(header),
        (header >> 7 != 0) == (header >= 128),
{
    assert((header >> 3) & 0x0F == (header / 8) % 16) by (bit_vector);
    assert(((header >> 2) & 1 != 0) == ((header / 4) % 2 == 1)) by (bit_vector);
    assert(((header >> 1) & 1 != 0) == ((header / 2) % 2 == 1)) by (bit_vector);
    assert((header >> 7 != 0) == (header >= 128)) by (bit_vector);
}

/// The fields of an extension byte.
proof fn lemma_extension_bits(extension: u8)
    ensures
        (extension >> 5) & 0x07 == (extension / 32) % 8,
        (extension >> 3) & 0x03 == (extension / 8) % 4,
{
    assert((extension >> 5) & 0x07 == (extension / 32) % 8) by (bit_vector);
    assert((extension >> 3) & 0x03 == (extension / 8) % 4) by (bit_vector);
}

// ---------------------------------------------------------------------------
// The layout, byte by byte
// ---------------------------------------------------------------------------

/// One to eight bytes that hold the number `n` in LEB128, padded or not.
pub open spec fn is_size_field(field: Seq<u8>, n: nat) -> bool {
    &&& 1 <= field.len() <= 8
    &&& field.last() < 128
    &&& forall|i: int| 0 <= i < field.len() - 1 ==> field[i] >= 128
    &&& leb128::leb128_value(field) == n
}

/// A header: one byte, or two where bit 2 of the first is set.
pub open spec fn is_header(head: Seq<u8>) -> bool {
    &&& head.len() > 0
    &&& head.len() == (if (head[0] / 4) % 2 == 1 {
        2int
    } else {
        1int
    })
}

/// The unit that a header, a size field and a payload make.
pub open spec fn unit_of(head: Seq<u8>, field: Seq<u8>, payload: Seq<u8>) -> ObuModel {
    ObuModel {
        obu_type: ((head[0] / 8) % 16) as u8,
        temporal_id: if head.len() == 2 {
            (head[1] / 32) as u8
        } else {
            0
        },
        spatial_id: if head.len() == 2 {
            ((head[1] / 8) % 4) as u8
        } else {
            0
        },
        payload,
        raw_bytes: head + field + payload,
    }
}

/// How long the size field after a header is.
proof fn lemma_size_field_len(head: Seq<u8>, field: Seq<u8>, n: nat, rest: Seq<u8>)
    requires
        is_header(head),
        is_size_field(field, n),
    ensures
        ({
            let bytes = head + field + rest;
            &&& header_len(bytes[0]) == head.len()
            &&& size_field_len(bytes) == field.len()
            &&& size_field_ends(bytes)
            &&& payload_size(bytes) == n
        }),
{
    let bytes = head + field + rest;
    let h = head.len() as int;
    let k = (field.len() - 1) as nat;
    let tail = bytes.skip(h);
    assert(bytes[0] == head[0]);
    assert(tail =~= field + rest);
    assert forall|i: int| 0 <= i < k implies tail[i] >= 128 by {
        assert(tail[i] == field[i]);
    }
    leb128::lemma_leb128_run_skip(tail, 8, k);
    assert(tail.skip(k as int)[0] == field.last());
    reveal_with_fuel(leb128::leb128_run, 2);
    assert(bytes.subrange(h, h + field.len()) =~= field);
}

/// Law: a header without the forbidden bit and with the size flag, a size field
/// and a payload of that size are read as one unit, whatever follows: its type
/// is in bits 6 to 3 of the first byte, and its ids are in bits 7 to 5 and bits
/// 4 and 3 of the extension byte, or zero.
pub proof fn law_unit_is_read(head: Seq<u8>, field: Seq<u8>, payload: Seq<u8>, rest: Seq<u8>)
    requires
        is_header(head),
        head[0] < 128,
        (head[0] / 2) % 2 == 1,
        is_size_field(field, payload.len()),
    ensures
        parse_obu(head + field + payload + rest) == Ok::<Option<ObuModel>, Av1Error>(
            Some(unit_of(head, field, payload)),
        ),
        parse_obu_consumes(head + field + payload + rest) == head.len() + field.len()
            + payload.len(),
{
    let bytes = head + field + payload + rest;
    assert(bytes =~= head + field + (payload + rest));
    lemma_size_field_len(head, field, payload.len(), payload + rest);
    assert(bytes[0] == head[0]);
    assert(head.len() == 2 ==> bytes[1] == head[1]);
    assert(unit_at_start(bytes).payload =~= payload);
    assert(unit_at_start(bytes).raw_bytes =~= head + field + payload);
}

/// Law: what is read as a unit is a header without the forbidden bit and with
/// the size flag, a size field and a payload of that size.
pub proof fn law_read_unit_is_well_formed(bytes: Seq<u8>)
    requires
        parse_obu(bytes) matches Ok(Some(_)),
    ensures
        parse_obu(bytes) matches Ok(Some(obu)) && {
            let raw = obu.raw_bytes;
            let h: int = if (bytes[0] / 4) % 2 == 1 {
                2
            } else {
                1
            };
            let start = raw.len() - obu.payload.len();
            &&& bytes[0] < 128
            &&& (bytes[0] / 2) % 2 == 1
            &&& h < start <= raw.len() <= bytes.len()
            &&& raw == bytes.take(raw.len() as int)
            &&& is_header(raw.take(h))
            &&& is_size_field(raw.subrange(h, start), obu.payload.len())
            &&& obu == unit_of(raw.take(h), raw.subrange(h, start), raw.skip(start))
        },
{
    let obu = unit_at_start(bytes);
    let raw = obu.raw_bytes;
    let h = header_len(bytes[0]) as int;
    let start = payload_start(bytes) as int;
    lemma_payload_size_bound(bytes);
    let field = raw.subrange(h, start);
    assert(field =~= bytes.subrange(h, start));
    assert forall|i: int| 0 <= i < field.len() - 1 implies field[i] >= 128 by {
        leb128::lemma_leb128_run_continues(bytes.skip(h), LEB128_MAX_LEN as nat, i);
        assert(field[i] == bytes.skip(h)[i]);
    }
    assert(field.last() == bytes[start - 1]);
    assert(obu.payload =~= raw.skip(start));
    assert(raw.take(h) + field + raw.skip(start) =~= raw);
    assert(h == 2 ==> (bytes[1] / 32) % 8 == bytes[1] / 32);
    assert(obu =~= unit_of(raw.take(h), field, raw.skip(start)));
}

/// Law: why a unit is not read. Nothing is read at the end of the input alone.
/// A set forbidden bit, a missing size flag and eight size bytes with the top
/// bit set are faults of their own, each reported at the byte that shows it;
/// what else is no unit is a unit that is cut off, and all of it is consumed.
pub proof fn law_unit_faults(bytes: Seq<u8>)
    ensures
        ({
            let h: int = if (bytes[0] / 4) % 2 == 1 {
                2
            } else {
                1
            };
            let has_header = bytes.len() > 0 && bytes[0] < 128 && bytes.len() >= h;
            let has_size = (bytes[0] / 2) % 2 == 1;
            let endless = bytes.len() >= h + 8 && forall|i: int|
                h <= i < h + 8 ==> bytes[i] >= 128;
            &&& parse_obu(bytes) == Ok::<Option<ObuModel>, Av1Error>(None) <==> bytes.len() == 0
            &&& bytes.len() > 0 && bytes[0] >= 128 ==> {
                &&& parse_obu(bytes) == Err::<Option<ObuModel>, Av1Error>(
                    Av1Error::ForbiddenBit { byte: bytes[0] },
                )
                &&& parse_obu_consumes(bytes) == 1
            }
            &&& has_header && !has_size ==> {
                &&& parse_obu(bytes) == Err::<Option<ObuModel>, Av1Error>(
                    Av1Error::NoSizeField { obu_type: ((bytes[0] / 8) % 16) as u8 },
                )
                &&& parse_obu_consumes(bytes) == h
            }
            &&& has_header && has_size && endless ==> {
                &&& parse_obu(bytes) == Err::<Option<ObuModel>, Av1Error>(Av1Error::Leb128Overflow)
                &&& parse_obu_consumes(bytes) == h + 8
            }
            &&& bytes.len() > 0 && bytes[0] < 128 && (bytes.len() < h || (has_size && !endless))
                && parse_obu(bytes) is Err ==> {
                &&& parse_obu(bytes) == Err::<Option<ObuModel>, Av1Error>(Av1Error::UnexpectedEof)
                &&& parse_obu_consumes(bytes) == bytes.len()
            }
            &&& bytes.len() == 0 ==> parse_obu_consumes(bytes) == 0
        }),
{
    if bytes.len() > 0 && bytes[0] < 128 && bytes.len() >= header_len(bytes[0]) {
        let h = header_len(bytes[0]) as int;
        let field = bytes.skip(h);
        let n = size_field_len(bytes);
        let limit = LEB128_MAX_LEN as nat;
        leb128::law_leb128_run(field, limit);
        if n == 8 {
            assert forall|i: int| h <= i < h + 7 implies bytes[i] >= 128 by {
                assert(field[i - h] == bytes[i]);
            }
        }
        if bytes.len() >= h + 8 && (forall|i: int| h <= i < h + 8 ==> bytes[i] >= 128) {
            assert forall|i: int| 0 <= i < 8 implies field[i] >= 128 by {
                assert(field[i] == bytes[i + h]);
            }
            leb128::lemma_leb128_run_skip(field, limit, 8);
        }
    }
}

/// Law: a unit that starts with a whole header is rebuilt as that header, the
/// shortest size field of its payload, and its payload.
pub proof fn law_rebuilt_layout(head: Seq<u8>, old_rest: Seq<u8>, obu: ObuModel)
    requires
        is_header(head),
        obu.raw_bytes == head + old_rest,
    ensures
        rebuilt(obu) == head + leb128::leb128(obu.payload.len()) + obu.payload,
{
    assert(obu.raw_bytes.take(head.len() as int) =~= head);
}

/// Law: a list of units holds what its units hold, in their order.
pub proof fn law_obu_models(obus: Seq<Obu>, i: int)
    ensures
        obu_models(obus).len() == obus.len(),
        0 <= i < obus.len() ==> {
            &&& obu_models(obus)[i].obu_type == obus[i].obu_type
            &&& obu_models(obus)[i].temporal_id == obus[i].temporal_id
            &&& obu_models(obus)[i].spatial_id == obus[i].spatial_id
            &&& obu_models(obus)[i].payload == obus[i].payload@
            &&& obu_models(obus)[i].raw_bytes == obus[i].raw_bytes@
        },
{
}

/// Law: the types of units have the numbers that AV1 gives them.
pub proof fn law_type_numbers()
    ensures
        OBU_SEQUENCE_HEADER == 1,
        OBU_TEMPORAL_DELIMITER == 2,
        OBU_FRAME_HEADER == 3,
        OBU_METADATA == 5,
        OBU_FRAME == 6,
        OBU_REDUNDANT_FRAME_HEADER == 7,
{
}

} // verus!
