//! What holds of removal as a whole.

use crate::error::Av1Error;
use crate::frames;
use crate::frames::{FrameModel, FrameScan};
use crate::ivf;
use crate::ivf::{IVF_FILE_HEADER_LEN, IVF_FRAME_HEADER_LEN};
use crate::obu;
use crate::obu::ObuModel;
use crate::remove;
use crate::remove::Rewritten;
use crate::stream;
use crate::stream::ObuScan;
use vstd::prelude::*;

verus! {

/// Frames without their HDR10+ metadata units.
pub open spec fn cleaned_frames(frames: Seq<FrameModel>, validate: bool) -> Seq<FrameModel> {
    Seq::new(
        frames.len(),
        |i: int|
            FrameModel {
                timestamp: frames[i].timestamp,
                obus: stream::without_hdr10plus(frames[i].obus, validate),
            },
    )
}

/// Frames of which none holds HDR10+ metadata.
pub open spec fn frames_free_of_hdr10plus(frames: Seq<FrameModel>, validate: bool) -> bool {
    forall|i: int|
        0 <= i < frames.len() ==> stream::free_of_hdr10plus(
            (#[trigger] frames[i]).obus,
            validate,
        )
}

/// Law: what removal writes of a raw stream is read, without a fault, as the
/// units that were read of the stream, in their order, but for the HDR10+
/// metadata; none of them is left.
pub proof fn law_removal_cleans_raw(bytes: Seq<u8>, validate: bool)
    ensures
        stream::scan_obus(remove::removed_raw(bytes, validate).written) == (ObuScan {
            units: stream::without_hdr10plus(stream::scan_obus(bytes).units, validate),
            fault: None::<Av1Error>,
        }),
        stream::free_of_hdr10plus(
            stream::scan_obus(remove::removed_raw(bytes, validate).written).units,
            validate,
        ),
{
    let units = stream::scan_obus(bytes).units;
    stream::law_reading_is_lossless(bytes);
    stream::law_without_hdr10plus(units, validate);
    stream::law_written_units_read_back(stream::without_hdr10plus(units, validate));
}

/// Law: what removal writes of the frames of an IVF file is read, without a
/// fault, as the same frames but for the HDR10+ metadata; none of them is left.
/// Every frame keeps its place and its timestamp.
pub proof fn law_removal_cleans_ivf(bytes: Seq<u8>, validate: bool)
    ensures
        frames::scan_frames(remove::removed_ivf(bytes, validate).written) == (FrameScan {
            frames: cleaned_frames(frames::scan_frames(bytes).frames, validate),
            fault: None::<Av1Error>,
        }),
        frames_free_of_hdr10plus(
            frames::scan_frames(remove::removed_ivf(bytes, validate).written).frames,
            validate,
        ),
{
    let read = frames::scan_frames(bytes).frames;
    let data = remove::removed_frames(read, validate);
    let cleaned = cleaned_frames(read, validate);
    frames::law_reading_frames_is_lossless(bytes);
    assert forall|i: int| 0 <= i < data.len() implies frames::frame_data_reads_as(
        #[trigger] data[i],
        cleaned[i],
    ) by {
        assert(frames::frame_reads_as_itself(read[i]));
        stream::law_without_hdr10plus(read[i].obus, validate);
        stream::law_written_units_read_back(cleaned[i].obus);
    }
    frames::law_written_frames_read_back(data, cleaned);
    assert forall|i: int| 0 <= i < cleaned.len() implies stream::free_of_hdr10plus(
        (#[trigger] cleaned[i]).obus,
        validate,
    ) by {
        stream::law_without_hdr10plus(read[i].obus, validate);
    }
}

/// Law: a raw stream that is read without a fault and holds no HDR10+ metadata
/// is written as it was.
pub proof fn law_removal_keeps_clean_raw(bytes: Seq<u8>, validate: bool)
    requires
        stream::scan_obus(bytes).fault is None,
        stream::free_of_hdr10plus(stream::scan_obus(bytes).units, validate),
    ensures
        remove::removed_raw(bytes, validate) == (Rewritten {
            written: bytes,
            fault: None::<Av1Error>,
        }),
{
    stream::law_reading_is_lossless(bytes);
    stream::law_without_hdr10plus(stream::scan_obus(bytes).units, validate);
}

/// Law: frames that are read without a fault and hold no HDR10+ metadata are
/// written as they were. Only what is too short for a frame header at the end
/// is dropped.
pub proof fn law_removal_keeps_clean_ivf(bytes: Seq<u8>, validate: bool)
    requires
        frames::scan_frames(bytes).fault is None,
        frames_free_of_hdr10plus(frames::scan_frames(bytes).frames, validate),
    ensures
        remove::removed_ivf(bytes, validate).fault is None,
        remove::removed_ivf(bytes, validate).written.len() <= bytes.len(),
        bytes.len() < remove::removed_ivf(bytes, validate).written.len() + IVF_FRAME_HEADER_LEN,
        remove::removed_ivf(bytes, validate).written == bytes.take(
            remove::removed_ivf(bytes, validate).written.len() as int,
        ),
{
    let read = frames::scan_frames(bytes).frames;
    frames::law_reading_frames_is_lossless(bytes);
    let data = remove::removed_frames(read, validate);
    assert forall|i: int| 0 <= i < read.len() implies data[i] == frames::frames_data(read)[i] by {
        assert(stream::free_of_hdr10plus(read[i].obus, validate));
        stream::law_without_hdr10plus(read[i].obus, validate);
    }
    assert(data =~= frames::frames_data(read));
}

/// What is written of units cannot be taken for an IVF file: a unit with a size
/// field does not begin with the first byte of the IVF signature.
pub proof fn lemma_units_are_no_ivf(units: Seq<ObuModel>)
    requires
        stream::all_read_as_themselves(units),
    ensures
        !ivf::starts_with_signature(stream::concat_raw(units)),
{
    let bytes = stream::concat_raw(units);
    stream::law_written_units_read_back(units);
    if ivf::starts_with_signature(bytes) {
        assert(bytes.take(4)[0] == bytes[0]);
        assert(!obu::header_has_size(0x44));
        assert(obu::parse_obu(bytes) is Err);
    }
}

/// Law: to remove twice is to remove once. What removal writes of a file, from
/// which a second removal reads, is written again as it is and without a fault.
pub proof fn law_removal_is_idempotent(file: Seq<u8>, validate: bool)
    ensures
        remove::removed_file(remove::removed_file(file, validate).written, validate) == (
        Rewritten {
            written: remove::removed_file(file, validate).written,
            fault: None::<Av1Error>,
        }),
{
    let first = remove::removed_file(file, validate).written;
    if !ivf::starts_with_signature(file) {
        let units = stream::scan_obus(file).units;
        stream::law_reading_is_lossless(file);
        stream::law_without_hdr10plus(units, validate);
        lemma_units_are_no_ivf(stream::without_hdr10plus(units, validate));
        law_removal_cleans_raw(file, validate);
        stream::law_without_hdr10plus(stream::without_hdr10plus(units, validate), validate);
    } else if file.len() < IVF_FILE_HEADER_LEN {
        lemma_units_are_no_ivf(Seq::empty());
        law_removal_keeps_clean_raw(first, validate);
    } else {
        let n = IVF_FILE_HEADER_LEN as int;
        let body = file.skip(n);
        let written = remove::removed_ivf(body, validate).written;
        assert(first =~= file.take(n) + written);
        assert(first.take(4) =~= file.take(4));
        assert(first.skip(n) =~= written);
        assert(first.take(n) =~= file.take(n));
        law_removal_cleans_ivf(body, validate);
        let read = frames::scan_frames(body).frames;
        let cleaned = cleaned_frames(read, validate);
        let once = remove::removed_frames(read, validate);
        let twice = remove::removed_frames(cleaned, validate);
        assert forall|i: int| 0 <= i < read.len() implies once[i] == twice[i] by {
            stream::law_without_hdr10plus(read[i].obus, validate);
            stream::law_without_hdr10plus(cleaned[i].obus, validate);
        }
        assert(once =~= twice);
    }
}

// ---------------------------------------------------------------------------
// What is written, byte by byte
// ---------------------------------------------------------------------------

/// Law: a result tells of a fault exactly where there is one, and of that one.
pub proof fn law_result_tells_the_fault(r: Result<(), Av1Error>, fault: Option<Av1Error>)
    ensures
        fault is None ==> (remove::tells(r, fault) <==> r is Ok),
        fault matches Some(e) ==> (remove::tells(r, fault) <==> r == Err::<(), Av1Error>(e)),
{
}

/// Law: of units, removal writes the bytes of those that are no HDR10+ metadata,
/// one after the other, and nothing else.
pub proof fn law_removal_of_units(units: Seq<ObuModel>, validate: bool)
    ensures
        remove::removed_bytes(units, validate) == stream::concat_raw(
            stream::without_hdr10plus(units, validate),
        ),
{
}

/// Law: of a raw stream, removal writes what is left of the units that are read,
/// and nothing else. It stops only at a fault of the stream, and tells of it.
pub proof fn law_removal_of_raw(bytes: Seq<u8>, validate: bool)
    ensures
        remove::removed_raw(bytes, validate).written == stream::concat_raw(
            stream::without_hdr10plus(stream::scan_obus(bytes).units, validate),
        ),
        remove::removed_raw(bytes, validate).fault == stream::scan_obus(bytes).fault,
{
}

/// Law: of the frames of an IVF file, removal writes what is left of the frames
/// that are read, each with its own timestamp and its new length, and nothing
/// else. It stops only at a fault of the frames, and tells of it.
pub proof fn law_removal_of_ivf(bytes: Seq<u8>, validate: bool)
    ensures
        remove::removed_ivf(bytes, validate).written == frames::concat_frames(
            frames::frames_data(cleaned_frames(frames::scan_frames(bytes).frames, validate)),
        ),
        remove::removed_ivf(bytes, validate).fault == frames::scan_frames(bytes).fault,
{
    let read = frames::scan_frames(bytes).frames;
    assert(remove::removed_frames(read, validate) =~= frames::frames_data(
        cleaned_frames(read, validate),
    ));
}

/// Law: of a file that starts with `DKIF`, the first 32 bytes are written as they
/// are, whatever they hold, and then what is left of the frames after them. Only
/// a file of less than 32 bytes and a fault of the frames stop the removal.
pub proof fn law_removal_of_ivf_file(file: Seq<u8>, validate: bool)
    requires
        file.len() >= 4,
        file[0] == 0x44 && file[1] == 0x4B && file[2] == 0x49 && file[3] == 0x46,
    ensures
        ({
            let removed = remove::removed_file(file, validate);
            let scan = frames::scan_frames(file.skip(32));
            &&& file.len() >= 32 ==> {
                &&& removed.written.len() >= 32
                &&& removed.written.take(32) == file.take(32)
                &&& removed.written.skip(32) == frames::concat_frames(
                    frames::frames_data(cleaned_frames(scan.frames, validate)),
                )
                &&& removed.fault == scan.fault
            }
            &&& file.len() < 32 ==> {
                &&& removed.written.len() == 0
                &&& removed.fault == Some(Av1Error::UnexpectedEof)
            }
        }),
{
    ivf::law_signature(file);
    if file.len() >= 32 {
        let removed = remove::removed_file(file, validate);
        law_removal_of_ivf(file.skip(32), validate);
        assert(removed.written.take(32) =~= file.take(32));
        assert(removed.written.skip(32) =~= remove::removed_ivf(file.skip(32), validate).written);
    }
}

/// Law: of a file that does not start with `DKIF`, what is left of its units is
/// written. Only a fault of the units stops the removal.
pub proof fn law_removal_of_raw_file(file: Seq<u8>, validate: bool)
    requires
        !(file.len() >= 4 && file[0] == 0x44 && file[1] == 0x4B && file[2] == 0x49 && file[3]
            == 0x46),
    ensures
        remove::removed_file(file, validate).written == stream::concat_raw(
            stream::without_hdr10plus(stream::scan_obus(file).units, validate),
        ),
        remove::removed_file(file, validate).fault == stream::scan_obus(file).fault,
{
    ivf::law_signature(file);
}

/// Law: an IVF file that is read without a fault or leftover bytes and holds no
/// HDR10+ metadata is written byte for byte as it was, without a fault.
pub proof fn law_removal_keeps_clean_ivf_file(file: Seq<u8>, validate: bool)
    requires
        file.len() >= 32,
        file[0] == 0x44 && file[1] == 0x4B && file[2] == 0x49 && file[3] == 0x46,
        frames::scan_frames(file.skip(32)).fault is None,
        frames::concat_frames(
            frames::frames_data(frames::scan_frames(file.skip(32)).frames),
        ).len() == file.len() - 32,
        frames_free_of_hdr10plus(frames::scan_frames(file.skip(32)).frames, validate),
    ensures
        remove::removed_file(file, validate) == (Rewritten {
            written: file,
            fault: None::<Av1Error>,
        }),
{
    let body = file.skip(32);
    let read = frames::scan_frames(body).frames;
    let removed = remove::removed_file(file, validate);
    law_removal_of_ivf_file(file, validate);
    frames::law_reading_frames_is_lossless(body);
    let cleaned = cleaned_frames(read, validate);
    assert forall|i: int| 0 <= i < read.len() implies cleaned[i] == read[i] by {
        assert(stream::free_of_hdr10plus(read[i].obus, validate));
        stream::law_without_hdr10plus(read[i].obus, validate);
    }
    assert(cleaned =~= read);
    assert(body.take(body.len() as int) =~= body);
    assert(removed.written =~= removed.written.take(32) + removed.written.skip(32));
    assert(file =~= file.take(32) + body);
}

/// Law: a raw file that is read without a fault and holds no HDR10+ metadata is
/// written byte for byte as it was, without a fault.
pub proof fn law_removal_keeps_clean_raw_file(file: Seq<u8>, validate: bool)
    requires
        !(file.len() >= 4 && file[0] == 0x44 && file[1] == 0x4B && file[2] == 0x49 && file[3]
            == 0x46),
        stream::scan_obus(file).fault is None,
        stream::free_of_hdr10plus(stream::scan_obus(file).units, validate),
    ensures
        remove::removed_file(file, validate) == (Rewritten {
            written: file,
            fault: None::<Av1Error>,
        }),
{
    law_removal_of_raw_file(file, validate);
    law_removal_keeps_clean_raw(file, validate);
}

/// Law: removal succeeds on every IVF file of a file header and whole frames, and
/// writes the same file header and the same frames, in their order and with their
/// timestamps, without their HDR10+ metadata.
pub proof fn law_removal_succeeds_on_ivf_files(
    header: Seq<u8>,
    read: Seq<FrameModel>,
    validate: bool,
)
    requires
        header.len() == 32,
        header[0] == 0x44 && header[1] == 0x4B && header[2] == 0x49 && header[3] == 0x46,
        forall|i: int|
            0 <= i < read.len() ==> frames::frame_reads_as_itself(#[trigger] read[i]),
    ensures
        remove::removed_file(
            header + frames::concat_frames(frames::frames_data(read)),
            validate,
        ) == (Rewritten {
            written: header + frames::concat_frames(
                frames::frames_data(cleaned_frames(read, validate)),
            ),
            fault: None::<Av1Error>,
        }),
{
    let data = frames::frames_data(read);
    let file = header + frames::concat_frames(data);
    let removed = remove::removed_file(file, validate);
    assert forall|i: int| 0 <= i < data.len() implies frames::frame_data_reads_as(
        #[trigger] data[i],
        read[i],
    ) by {
        assert(frames::frame_reads_as_itself(read[i]));
        stream::law_written_units_read_back(read[i].obus);
    }
    frames::law_written_frames_read_back(data, read);
    assert(file.skip(32) =~= frames::concat_frames(data));
    assert(file.take(32) =~= header);
    law_removal_of_ivf_file(file, validate);
    assert(removed.written =~= removed.written.take(32) + removed.written.skip(32));
}

/// Law: removal succeeds on every raw file of whole units, and writes the same
/// units, in their order, without the HDR10+ metadata.
pub proof fn law_removal_succeeds_on_raw_files(units: Seq<ObuModel>, validate: bool)
    requires
        stream::all_read_as_themselves(units),
    ensures
        remove::removed_file(stream::concat_raw(units), validate) == (Rewritten {
            written: stream::concat_raw(stream::without_hdr10plus(units, validate)),
            fault: None::<Av1Error>,
        }),
{
    let file = stream::concat_raw(units);
    stream::law_written_units_read_back(units);
    lemma_units_are_no_ivf(units);
    ivf::law_signature(file);
    law_removal_of_raw_file(file, validate);
}

} // verus!
