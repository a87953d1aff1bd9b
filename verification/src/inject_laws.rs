//! What holds of injection as a whole.

use crate::detect;
use crate::encode;
use crate::error::Av1Error;
use crate::frames;
use crate::frames::{FrameModel, FrameScan};
use crate::inject;
use crate::inject::Notice;
use crate::inject_stream;
use crate::inject_stream::{Job, RawParts};
use crate::ivf;
use crate::ivf::IVF_FILE_HEADER_LEN;
use crate::metadata;
use crate::metadata::MetadataModel;
use crate::obu::{ObuModel, OBU_METADATA, OBU_TEMPORAL_DELIMITER};
use crate::remove;
use crate::remove_laws;
use crate::stream;
use crate::stream::ObuScan;
use vstd::prelude::*;

verus! {

// ---------------------------------------------------------------------------
// One temporal unit
// ---------------------------------------------------------------------------

/// A temporal unit with the metadata unit `obu` put in and the HDR10+ metadata
/// that it had taken out.
pub open spec fn injected_obus(
    units: Seq<ObuModel>,
    obu: ObuModel,
    validate: bool,
) -> Seq<ObuModel> {
    let point = inject::insertion_point(units) as int;
    stream::without_hdr10plus(units.take(point), validate) + seq![obu] + stream::without_hdr10plus(
        units.skip(point),
        validate,
    )
}

/// How many units are HDR10+ metadata.
pub open spec fn hdr10plus_count(units: Seq<ObuModel>, validate: bool) -> nat {
    units.filter(|obu: ObuModel| detect::is_hdr10plus(obu, validate)).len()
}

/// Metadata whose message has the HDR10+ identifiers.
pub open spec fn is_hdr10plus_metadata(metadata: MetadataModel, validate: bool) -> bool {
    detect::is_hdr10plus_t35(metadata::t35_message(metadata), validate)
}

/// Law: metadata is put right after the first temporal delimiter, and at the
/// start only where there is no temporal delimiter.
pub proof fn law_insertion_point(units: Seq<ObuModel>)
    ensures
        ({
            let point = inject::insertion_point(units) as int;
            &&& point <= units.len()
            &&& point > 0 ==> units[point - 1].obu_type == OBU_TEMPORAL_DELIMITER
            &&& forall|i: int|
                0 <= i < point - 1 ==> (#[trigger] units[i]).obu_type != OBU_TEMPORAL_DELIMITER
            &&& point == 0 ==> forall|i: int|
                0 <= i < units.len() ==> (#[trigger] units[i]).obu_type != OBU_TEMPORAL_DELIMITER
        }),
    decreases units.len(),
{
    if units.len() > 0 {
        let front = units.drop_last();
        law_insertion_point(front);
        assert forall|i: int| 0 <= i < front.len() implies front[i] == #[trigger] units[i] by {}
    }
}

/// The insertion point in two runs of units.
proof fn lemma_insertion_point_add(a: Seq<ObuModel>, b: Seq<ObuModel>)
    ensures
        inject::insertion_point(a + b) == (if inject::insertion_point(a) > 0 {
            inject::insertion_point(a)
        } else if inject::insertion_point(b) > 0 {
            a.len() + inject::insertion_point(b)
        } else {
            0
        }),
    decreases b.len(),
{
    if b.len() == 0 {
        assert(a + b =~= a);
    } else {
        lemma_insertion_point_add(a, b.drop_last());
        assert((a + b).drop_last() =~= a + b.drop_last());
    }
}

/// Taking metadata out leaves units without temporal delimiters without them.
proof fn lemma_without_delimiters(units: Seq<ObuModel>, validate: bool)
    requires
        inject::insertion_point(units) == 0,
    ensures
        inject::insertion_point(stream::without_hdr10plus(units, validate)) == 0,
    decreases units.len(),
{
    reveal(Seq::filter);
    if units.len() > 0 {
        let front = units.drop_last();
        let kept = stream::without_hdr10plus(front, validate);
        lemma_without_delimiters(front, validate);
        assert(kept.push(units.last()).drop_last() =~= kept);
    }
}

/// Law: where a metadata unit is put in, it stands right after the temporal
/// delimiter of the temporal unit, or first where there is none.
pub proof fn law_metadata_follows_delimiter(units: Seq<ObuModel>, obu: ObuModel, validate: bool)
    requires
        obu.obu_type == OBU_METADATA,
    ensures
        ({
            let point = inject::insertion_point(units) as int;
            let injected = injected_obus(units, obu, validate);
            &&& inject::insertion_point(injected) == stream::without_hdr10plus(
                units.take(point),
                validate,
            ).len()
            &&& inject::insertion_point(injected) < injected.len()
            &&& injected[inject::insertion_point(injected) as int] == obu
            &&& inject::insertion_point(injected) == 0 <==> inject::insertion_point(units) == 0
        }),
{
    let point = inject::insertion_point(units) as int;
    let head = stream::without_hdr10plus(units.take(point), validate);
    let middle = seq![obu];
    let tail = stream::without_hdr10plus(units.skip(point), validate);
    law_insertion_point(units);
    lemma_insertion_point_add(head + middle, tail);
    lemma_insertion_point_add(head, middle);
    reveal_with_fuel(inject::insertion_point, 2);
    assert(middle.drop_last() =~= Seq::empty());
    assert(inject::insertion_point(middle) == 0);
    if point == 0 {
        reveal(Seq::filter);
        assert(units.skip(0) =~= units);
        lemma_without_delimiters(units, validate);
    } else {
        let front = units.take(point - 1);
        let delimiter = units[point - 1];
        assert(units.take(point) =~= front.push(delimiter));
        stream::lemma_without_push(front, delimiter, validate);
        law_insertion_point(front);
        assert(inject::insertion_point(front) == 0) by {
            if inject::insertion_point(front) > 0 {
                let i = inject::insertion_point(front) - 1;
                assert(front[i] == units[i]);
            }
        }
        lemma_without_delimiters(front, validate);
        let kept = stream::without_hdr10plus(front, validate);
        assert(kept.push(delimiter).drop_last() =~= kept);
        assert(inject::insertion_point(head) == head.len());
    }
}

/// Law: of a temporal unit, injection writes the bytes of the metadata unit and
/// of the units that are no HDR10+ metadata, one after the other in the order of
/// [`injected_obus`], and nothing else.
pub proof fn law_injected_bytes(units: Seq<ObuModel>, obu: ObuModel, validate: bool)
    ensures
        inject::injected_bytes(units, obu.raw_bytes, validate) == stream::concat_raw(
            injected_obus(units, obu, validate),
        ),
{
    let point = inject::insertion_point(units) as int;
    let head = stream::without_hdr10plus(units.take(point), validate);
    let tail = stream::without_hdr10plus(units.skip(point), validate);
    stream::lemma_concat_raw_add(head + seq![obu], tail);
    stream::lemma_concat_raw_add(head, seq![obu]);
    stream::lemma_concat_raw_one(obu);
}

/// Encoded metadata reads as itself.
proof fn lemma_metadata_reads_as_itself(metadata: MetadataModel, validate: bool)
    requires
        encode::encoded(metadata, validate) is Ok,
    ensures
        stream::reads_as_itself(encode::metadata_obu(metadata)),
{
    encode::law_encoded_metadata_reads_back(metadata, validate, Seq::empty());
    let unit = encode::metadata_unit(metadata);
    assert(unit + Seq::<u8>::empty() =~= unit);
}

/// Units that read as themselves still do so when another one is put in.
proof fn lemma_injected_obus_read_as_themselves(
    units: Seq<ObuModel>,
    obu: ObuModel,
    validate: bool,
)
    requires
        stream::all_read_as_themselves(units),
        stream::reads_as_itself(obu),
    ensures
        stream::all_read_as_themselves(injected_obus(units, obu, validate)),
{
    let point = inject::insertion_point(units) as int;
    law_insertion_point(units);
    let front = units.take(point);
    let back = units.skip(point);
    assert forall|i: int| 0 <= i < front.len() implies #[trigger] stream::reads_as_itself(
        front[i],
    ) by {
        assert(stream::reads_as_itself(units[i]));
    }
    assert forall|i: int| 0 <= i < back.len() implies #[trigger] stream::reads_as_itself(
        back[i],
    ) by {
        assert(stream::reads_as_itself(units[i + point]));
    }
    stream::law_without_hdr10plus(front, validate);
    stream::law_without_hdr10plus(back, validate);
    let injected = injected_obus(units, obu, validate);
    let head = stream::without_hdr10plus(front, validate);
    let tail = stream::without_hdr10plus(back, validate);
    assert forall|i: int| 0 <= i < injected.len() implies #[trigger] stream::reads_as_itself(
        injected[i],
    ) by {
        if i < head.len() {
            assert(stream::reads_as_itself(head[i]));
        } else if i > head.len() {
            assert(stream::reads_as_itself(tail[i - head.len() - 1]));
        }
    }
}

/// Law: a temporal unit with a metadata unit put in is read back as the units
/// that it had but for the HDR10+ metadata, with the metadata unit among them.
pub proof fn law_injected_unit_reads_back(units: Seq<ObuModel>, obu: ObuModel, validate: bool)
    requires
        stream::all_read_as_themselves(units),
        stream::reads_as_itself(obu),
    ensures
        stream::scan_obus(inject::injected_bytes(units, obu.raw_bytes, validate)) == (ObuScan {
            units: injected_obus(units, obu, validate),
            fault: None::<Av1Error>,
        }),
{
    law_injected_bytes(units, obu, validate);
    lemma_injected_obus_read_as_themselves(units, obu, validate);
    stream::law_written_units_read_back(injected_obus(units, obu, validate));
}

/// Units in which no metadata is left have none to count.
proof fn lemma_no_hdr10plus_to_count(units: Seq<ObuModel>, validate: bool)
    requires
        stream::free_of_hdr10plus(units, validate),
    ensures
        hdr10plus_count(units, validate) == 0,
    decreases units.len(),
{
    reveal(Seq::filter);
    if units.len() > 0 {
        let front = units.drop_last();
        assert forall|i: int| 0 <= i < front.len() implies !detect::is_hdr10plus(
            #[trigger] front[i],
            validate,
        ) by {
            assert(front[i] == units[i]);
        }
        lemma_no_hdr10plus_to_count(front, validate);
        assert(!detect::is_hdr10plus(units[units.len() - 1], validate));
    }
}

/// Counting metadata in a run that grows by one unit.
proof fn lemma_count_push(units: Seq<ObuModel>, obu: ObuModel, validate: bool)
    ensures
        hdr10plus_count(units.push(obu), validate) == hdr10plus_count(units, validate) + (
        if detect::is_hdr10plus(obu, validate) {
            1nat
        } else {
            0
        }),
{
    reveal(Seq::filter);
    assert(units.push(obu).drop_last() =~= units);
}

/// Counting metadata in two runs.
proof fn lemma_count_add(a: Seq<ObuModel>, b: Seq<ObuModel>, validate: bool)
    ensures
        hdr10plus_count(a + b, validate) == hdr10plus_count(a, validate) + hdr10plus_count(
            b,
            validate,
        ),
{
    Seq::filter_distributes_over_add(a, b, |obu: ObuModel| detect::is_hdr10plus(obu, validate));
}

/// One metadata unit between runs that hold none.
proof fn lemma_metadata_between(
    head: Seq<ObuModel>,
    obu: ObuModel,
    tail: Seq<ObuModel>,
    validate: bool,
)
    requires
        stream::free_of_hdr10plus(head, validate),
        stream::free_of_hdr10plus(tail, validate),
        detect::is_hdr10plus(obu, validate),
    ensures
        hdr10plus_count(head + seq![obu] + tail, validate) == 1,
        stream::without_hdr10plus(head + seq![obu] + tail, validate) == head + tail,
{
    assert(head + seq![obu] =~= head.push(obu));
    lemma_count_add(head.push(obu), tail, validate);
    lemma_count_push(head, obu, validate);
    lemma_no_hdr10plus_to_count(head, validate);
    lemma_no_hdr10plus_to_count(tail, validate);
    stream::lemma_without_add(head.push(obu), tail, validate);
    stream::lemma_without_push(head, obu, validate);
    stream::law_without_hdr10plus(head, validate);
    stream::law_without_hdr10plus(tail, validate);
}

/// Law: existing HDR10+ metadata is replaced. After an HDR10+ metadata unit is
/// put in, the temporal unit holds one HDR10+ metadata unit, whatever it held
/// before, and to remove it gives what removal gives without the injection.
pub proof fn law_injection_replaces(units: Seq<ObuModel>, obu: ObuModel, validate: bool)
    requires
        detect::is_hdr10plus(obu, validate),
    ensures
        hdr10plus_count(injected_obus(units, obu, validate), validate) == 1,
        stream::without_hdr10plus(injected_obus(units, obu, validate), validate)
            == stream::without_hdr10plus(units, validate),
{
    let point = inject::insertion_point(units) as int;
    law_insertion_point(units);
    let head = stream::without_hdr10plus(units.take(point), validate);
    let tail = stream::without_hdr10plus(units.skip(point), validate);
    stream::law_without_hdr10plus(units.take(point), validate);
    stream::law_without_hdr10plus(units.skip(point), validate);
    lemma_metadata_between(head, obu, tail, validate);
    assert(units.take(point) + units.skip(point) =~= units);
    stream::lemma_without_add(units.take(point), units.skip(point), validate);
}

/// A temporal unit that has got an HDR10+ metadata unit, and then gets other
/// metadata.
proof fn lemma_injected_again(
    units: Seq<ObuModel>,
    obu: ObuModel,
    encoded: Seq<u8>,
    validate: bool,
)
    requires
        detect::is_hdr10plus(obu, validate),
    ensures
        inject::injected_bytes(injected_obus(units, obu, validate), encoded, validate)
            == inject::injected_bytes(units, encoded, validate),
{
    let point = inject::insertion_point(units) as int;
    let head = stream::without_hdr10plus(units.take(point), validate);
    let tail = stream::without_hdr10plus(units.skip(point), validate);
    let injected = injected_obus(units, obu, validate);
    law_metadata_follows_delimiter(units, obu, validate);
    stream::law_without_hdr10plus(units.take(point), validate);
    stream::law_without_hdr10plus(units.skip(point), validate);
    stream::law_without_hdr10plus(head, validate);
    stream::law_without_hdr10plus(tail, validate);
    let n = head.len() as int;
    assert(injected.take(n) =~= head);
    assert(injected.skip(n) =~= seq![obu] + tail);
    stream::lemma_without_add(seq![obu], tail, validate);
    assert(Seq::<ObuModel>::empty().push(obu) =~= seq![obu]);
    stream::lemma_without_push(Seq::empty(), obu, validate);
    assert(stream::without_hdr10plus(Seq::empty(), validate) =~= Seq::empty()) by {
        reveal(Seq::filter);
    }
    assert(stream::without_hdr10plus(injected.skip(n), validate) =~= tail);
}

/// Law: to put any HDR10+ metadata unit into a temporal unit, to read what is
/// written of it, and to put other metadata in writes what the second injection
/// alone writes.
pub proof fn law_injection_again_replaces(
    units: Seq<ObuModel>,
    obu: ObuModel,
    encoded: Seq<u8>,
    validate: bool,
)
    requires
        stream::all_read_as_themselves(units),
        stream::reads_as_itself(obu),
        detect::is_hdr10plus(obu, validate),
    ensures
        inject::injected_bytes(
            stream::scan_obus(inject::injected_bytes(units, obu.raw_bytes, validate)).units,
            encoded,
            validate,
        ) == inject::injected_bytes(units, encoded, validate),
{
    law_injected_unit_reads_back(units, obu, validate);
    lemma_injected_again(units, obu, encoded, validate);
}

// ---------------------------------------------------------------------------
// The metadata of a stream
// ---------------------------------------------------------------------------

/// The index of the entry that temporal unit `index` gets: its own, or the last
/// one where there are fewer.
pub open spec fn entry_index(job: Job, index: nat) -> int {
    if index < job.entries.len() {
        index as int
    } else {
        job.entries.len() - 1
    }
}

/// The metadata that temporal unit `index` gets.
pub open spec fn entry_for(job: Job, index: nat) -> MetadataModel {
    job.entries[entry_index(job, index)]->0
}

/// The entries that `n` temporal units get can all be encoded.
pub open spec fn used_are_encodable(job: Job, n: nat) -> bool {
    forall|i: nat|
        i < n ==> encode::encoded_entry(
            job.entries[#[trigger] entry_index(job, i)],
            job.validate,
        ) is Ok
}

/// Law: temporal unit by temporal unit gets the entry with the same index, and
/// the last entry is duplicated where there are fewer entries. Where the entry
/// can be encoded, the unit gets its encoding.
pub proof fn law_metadata_selection(job: Job, index: nat)
    requires
        job.entries.len() > 0,
    ensures
        inject::unit_metadata(job.entries, job.validate, index) == encode::encoded_entry(
            job.entries[entry_index(job, index)],
            job.validate,
        ),
        inject::unit_metadata(job.entries, job.validate, index) is Ok ==> {
            &&& job.entries[entry_index(job, index)] is Some
            &&& inject_stream::unit_encoding(job, index) == encode::metadata_unit(
                entry_for(job, index),
            )
            &&& encode::encoded(entry_for(job, index), job.validate) is Ok
        },
{
}

/// Law: an injection is stopped by its metadata only where an entry that is
/// used cannot be encoded: the temporal units before that are served, and where
/// the entries that are used can all be encoded, every one is.
pub proof fn law_served_units(job: Job, n: nat)
    ensures
        inject_stream::served(job, n) <= n,
        forall|i: nat|
            i < inject_stream::served(job, n) ==> #[trigger] inject::unit_metadata(
                job.entries,
                job.validate,
                i,
            ) is Ok,
        inject_stream::served(job, n) < n ==> inject::unit_metadata(
            job.entries,
            job.validate,
            inject_stream::served(job, n),
        ) is Err,
        used_are_encodable(job, n) && job.entries.len() > 0 ==> inject_stream::served(job, n) == n,
    decreases n,
{
    if n > 0 {
        law_served_units(job, (n - 1) as nat);
    }
    if used_are_encodable(job, n) && job.entries.len() > 0 && inject_stream::served(job, n) < n {
        let index = inject_stream::served(job, n);
        law_metadata_selection(job, index);
        assert(encode::encoded_entry(
            job.entries[entry_index(job, index)],
            job.validate,
        ) is Ok);
    }
}

/// The metadata that is put into the first `n` temporal units has the HDR10+
/// identifiers.
pub open spec fn served_are_hdr10plus(job: Job, n: nat) -> bool {
    forall|i: nat|
        i < inject_stream::served(job, n) ==> is_hdr10plus_metadata(
            #[trigger] entry_for(job, i),
            job.validate,
        )
}

/// The metadata unit that temporal unit `index` gets.
pub open spec fn obu_for(job: Job, index: nat) -> ObuModel {
    encode::metadata_obu(entry_for(job, index))
}

/// The units that are served have metadata.
pub proof fn lemma_served_entry(job: Job, n: nat, index: nat)
    requires
        index < inject_stream::served(job, n),
    ensures
        inject_stream::unit_encoding(job, index) == obu_for(job, index).raw_bytes,
        stream::reads_as_itself(obu_for(job, index)),
        is_hdr10plus_metadata(entry_for(job, index), job.validate) ==> detect::is_hdr10plus(
            obu_for(job, index),
            job.validate,
        ),
        served_are_hdr10plus(job, n) ==> detect::is_hdr10plus(obu_for(job, index), job.validate),
{
    law_served_units(job, n);
    assert(inject::unit_metadata(job.entries, job.validate, index) is Ok);
    law_metadata_selection(job, index);
    lemma_metadata_reads_as_itself(entry_for(job, index), job.validate);
    encode::law_encoded_metadata_is_detected(entry_for(job, index), job.validate);
}

// ---------------------------------------------------------------------------
// IVF files
// ---------------------------------------------------------------------------

/// The first `n` frames with their metadata.
pub open spec fn injected_frame_models(job: Job, frames: Seq<FrameModel>, n: nat) -> Seq<
    FrameModel,
> {
    Seq::new(
        n,
        |i: int|
            FrameModel {
                timestamp: frames[i].timestamp,
                obus: injected_obus(frames[i].obus, obu_for(job, i as nat), job.validate),
            },
    )
}

/// Frames whose lengths a frame header can give once their metadata is put in.
pub open spec fn frame_lengths_fit(job: Job, frames: Seq<FrameModel>, n: nat) -> bool {
    forall|i: int|
        0 <= i < n ==> (#[trigger] inject_stream::injected_frames(
            job,
            frames,
            n,
        )[i]).data.len() < 0x1_0000_0000
}

/// Law: what injection writes of the frames of an IVF file is read back,
/// without a fault, as the same frames with their metadata put in, in their
/// order and with their timestamps.
pub proof fn law_injected_ivf_reads_back(job: Job, bytes: Seq<u8>)
    requires
        frame_lengths_fit(
            job,
            frames::scan_frames(bytes).frames,
            inject_stream::served(job, frames::scan_frames(bytes).frames.len()),
        ),
    ensures
        frames::scan_frames(inject_stream::injected_ivf(job, bytes).stream.written) == (FrameScan {
            frames: injected_frame_models(
                job,
                frames::scan_frames(bytes).frames,
                inject_stream::served(job, frames::scan_frames(bytes).frames.len()),
            ),
            fault: None::<Av1Error>,
        }),
{
    let read = frames::scan_frames(bytes).frames;
    let n = inject_stream::served(job, read.len());
    let data = inject_stream::injected_frames(job, read, n);
    let injected = injected_frame_models(job, read, n);
    frames::law_reading_frames_is_lossless(bytes);
    law_served_units(job, read.len());
    assert forall|i: int| 0 <= i < n implies frames::frame_data_reads_as(
        #[trigger] data[i],
        injected[i],
    ) by {
        assert(frames::frame_reads_as_itself(read[i]));
        lemma_served_entry(job, read.len(), i as nat);
        law_injected_unit_reads_back(read[i].obus, obu_for(job, i as nat), job.validate);
    }
    frames::law_written_frames_read_back(data, injected);
}

/// Law: in what injection of HDR10+ metadata writes of the frames of an IVF
/// file, every frame holds exactly one HDR10+ metadata unit, that of its entry;
/// it stands right after the frame's temporal delimiter, and the message of the
/// entry is extracted from it.
pub proof fn law_injected_ivf_has_one_unit_per_frame(job: Job, bytes: Seq<u8>, index: int)
    requires
        frame_lengths_fit(
            job,
            frames::scan_frames(bytes).frames,
            inject_stream::served(job, frames::scan_frames(bytes).frames.len()),
        ),
        is_hdr10plus_metadata(entry_for(job, index as nat), job.validate),
        0 <= index < inject_stream::served(job, frames::scan_frames(bytes).frames.len()),
    ensures
        ({
            let written = inject_stream::injected_ivf(job, bytes).stream.written;
            let obus = frames::scan_frames(written).frames[index].obus;
            let point = inject::insertion_point(obus) as int;
            &&& hdr10plus_count(obus, job.validate) == 1
            &&& obus[point] == obu_for(job, index as nat)
            &&& detect::hdr10plus_t35(obus[point].payload, job.validate) == Some(
                metadata::t35_message(entry_for(job, index as nat)),
            )
        }),
{
    let read = frames::scan_frames(bytes).frames;
    law_injected_ivf_reads_back(job, bytes);
    lemma_served_entry(job, read.len(), index as nat);
    let obu = obu_for(job, index as nat);
    law_injection_replaces(read[index].obus, obu, job.validate);
    law_metadata_follows_delimiter(read[index].obus, obu, job.validate);
    encode::law_encoded_metadata_is_detected(entry_for(job, index as nat), job.validate);
}

/// Law: to put HDR10+ metadata into the frames of an IVF file and to remove it
/// is to remove what there was.
pub proof fn law_removal_undoes_injection_ivf(job: Job, bytes: Seq<u8>)
    requires
        frame_lengths_fit(
            job,
            frames::scan_frames(bytes).frames,
            inject_stream::served(job, frames::scan_frames(bytes).frames.len()),
        ),
        served_are_hdr10plus(job, frames::scan_frames(bytes).frames.len()),
        inject_stream::injected_ivf(job, bytes).stream.fault is None,
    ensures
        remove::removed_ivf(
            inject_stream::injected_ivf(job, bytes).stream.written,
            job.validate,
        ) == remove::removed_ivf(bytes, job.validate),
{
    let read = frames::scan_frames(bytes).frames;
    law_served_units(job, read.len());
    law_injected_ivf_reads_back(job, bytes);
    let injected = injected_frame_models(job, read, read.len());
    let a = remove::removed_frames(injected, job.validate);
    let b = remove::removed_frames(read, job.validate);
    assert forall|i: int| 0 <= i < read.len() implies a[i] == b[i] by {
        lemma_served_entry(job, read.len(), i as nat);
        law_injection_replaces(read[i].obus, obu_for(job, i as nat), job.validate);
    }
    assert(a =~= b);
}

/// Law: to put HDR10+ metadata into the frames of an IVF file and then other
/// metadata writes what the second injection alone writes.
pub proof fn law_injection_again_replaces_ivf(first: Job, second: Job, bytes: Seq<u8>)
    requires
        first.validate == second.validate,
        frame_lengths_fit(
            first,
            frames::scan_frames(bytes).frames,
            inject_stream::served(first, frames::scan_frames(bytes).frames.len()),
        ),
        served_are_hdr10plus(first, frames::scan_frames(bytes).frames.len()),
        inject_stream::injected_ivf(first, bytes).stream.fault is None,
    ensures
        inject_stream::injected_ivf(
            second,
            inject_stream::injected_ivf(first, bytes).stream.written,
        ).stream == inject_stream::injected_ivf(second, bytes).stream,
{
    let read = frames::scan_frames(bytes).frames;
    law_served_units(first, read.len());
    law_served_units(second, read.len());
    law_injected_ivf_reads_back(first, bytes);
    let injected = injected_frame_models(first, read, read.len());
    let n = inject_stream::served(second, read.len());
    let a = inject_stream::injected_frames(second, injected, n);
    let b = inject_stream::injected_frames(second, read, n);
    assert forall|i: int| 0 <= i < n implies a[i] == b[i] by {
        lemma_served_entry(first, read.len(), i as nat);
        lemma_injected_again(
            read[i].obus,
            obu_for(first, i as nat),
            inject_stream::unit_encoding(second, i as nat),
            first.validate,
        );
    }
    assert(a =~= b);
}

// ---------------------------------------------------------------------------
// Raw streams
// ---------------------------------------------------------------------------

/// The units of temporal units, one after the other.
pub open spec fn concat_units(units: Seq<Seq<ObuModel>>) -> Seq<ObuModel>
    decreases units.len(),
{
    if units.len() == 0 {
        Seq::empty()
    } else {
        concat_units(units.drop_last()) + units.last()
    }
}

/// Law: the parts of a raw stream, one after the other, are the stream. No
/// temporal delimiter comes before the first temporal unit, and each temporal
/// unit begins with its delimiter and holds no other.
pub proof fn law_raw_parts(obus: Seq<ObuModel>)
    ensures
        inject_stream::raw_parts(obus).prelude + concat_units(inject_stream::raw_parts(obus).units)
            == obus,
        inject::insertion_point(inject_stream::raw_parts(obus).prelude) == 0,
        forall|i: int|
            0 <= i < inject_stream::raw_parts(obus).units.len() ==> inject_stream::is_raw_unit(
                #[trigger] inject_stream::raw_parts(obus).units[i],
            ),
    decreases obus.len(),
{
    inject_stream::lemma_raw_parts_shape(obus);
    let parts = inject_stream::raw_parts(obus);
    if obus.len() > 0 {
        let obu = obus.last();
        let before = inject_stream::raw_parts(obus.drop_last());
        law_raw_parts(obus.drop_last());
        assert(obus =~= before.prelude + concat_units(before.units) + seq![obu]);
        if obu.obu_type == OBU_TEMPORAL_DELIMITER {
            assert(parts.units.drop_last() =~= before.units);
            assert(parts.prelude + concat_units(parts.units) =~= obus);
        } else if before.units.len() > 0 {
            assert(parts.units.drop_last() =~= before.units.drop_last());
            assert(parts.units.last() =~= before.units.last() + seq![obu]);
            assert(parts.prelude + concat_units(parts.units) =~= obus);
        } else {
            assert(before.prelude.push(obu).drop_last() =~= before.prelude);
            assert(parts.prelude + concat_units(parts.units) =~= obus);
        }
    } else {
        assert(parts.prelude + concat_units(parts.units) =~= obus);
    }
}

/// Units before the first temporal delimiter.
proof fn lemma_raw_parts_prelude(prelude: Seq<ObuModel>)
    requires
        inject::insertion_point(prelude) == 0,
    ensures
        inject_stream::raw_parts(prelude) == (RawParts { prelude, units: Seq::empty() }),
    decreases prelude.len(),
{
    if prelude.len() > 0 {
        lemma_raw_parts_prelude(prelude.drop_last());
        assert(prelude.drop_last().push(prelude.last()) =~= prelude);
    } else {
        assert(inject_stream::raw_parts(prelude) =~= (RawParts { prelude, units: Seq::empty() }));
    }
}

/// One more temporal unit of a raw stream.
proof fn lemma_raw_parts_append(obus: Seq<ObuModel>, unit: Seq<ObuModel>)
    requires
        inject_stream::is_raw_unit(unit),
    ensures
        inject_stream::raw_parts(obus + unit) == (RawParts {
            prelude: inject_stream::raw_parts(obus).prelude,
            units: inject_stream::raw_parts(obus).units.push(unit),
        }),
    decreases unit.len(),
{
    let before = inject_stream::raw_parts(obus);
    let front = unit.drop_last();
    assert((obus + unit).drop_last() =~= obus + front);
    if unit.len() == 1 {
        assert(obus + front =~= obus);
        assert(unit =~= seq![unit.last()]);
    } else {
        lemma_raw_parts_append(obus, front);
        assert(before.units.push(front).drop_last() =~= before.units);
        assert(front.push(unit.last()) =~= unit);
    }
}

/// The parts of units that are put together.
proof fn lemma_raw_parts_of(prelude: Seq<ObuModel>, units: Seq<Seq<ObuModel>>)
    requires
        inject::insertion_point(prelude) == 0,
        forall|i: int|
            0 <= i < units.len() ==> inject_stream::is_raw_unit(#[trigger] units[i]),
    ensures
        inject_stream::raw_parts(prelude + concat_units(units)) == (RawParts { prelude, units }),
    decreases units.len(),
{
    if units.len() == 0 {
        lemma_raw_parts_prelude(prelude);
        assert(prelude + concat_units(units) =~= prelude);
        assert(units =~= Seq::empty());
    } else {
        let front = units.drop_last();
        assert forall|i: int| 0 <= i < front.len() implies inject_stream::is_raw_unit(
            #[trigger] front[i],
        ) by {
            assert(front[i] == units[i]);
        }
        lemma_raw_parts_of(prelude, front);
        assert(inject_stream::is_raw_unit(units[units.len() - 1]));
        lemma_raw_parts_append(prelude + concat_units(front), units.last());
        assert(prelude + concat_units(units) =~= prelude + concat_units(front) + units.last());
        assert(front.push(units.last()) =~= units);
    }
}

/// A temporal unit of a raw stream stays one when metadata is put in, and the
/// metadata comes second.
proof fn lemma_injected_raw_unit(unit: Seq<ObuModel>, obu: ObuModel, validate: bool)
    requires
        inject_stream::is_raw_unit(unit),
        obu.obu_type == OBU_METADATA,
    ensures
        inject_stream::is_raw_unit(injected_obus(unit, obu, validate)),
        inject::insertion_point(injected_obus(unit, obu, validate)) == 1,
{
    law_insertion_point(unit);
    let point = inject::insertion_point(unit) as int;
    assert(point == 1) by {
        if point == 0 {
            assert(unit[0].obu_type != OBU_TEMPORAL_DELIMITER);
        }
    }
    let rest = unit.skip(1);
    law_insertion_point(rest);
    assert(inject::insertion_point(rest) == 0) by {
        if inject::insertion_point(rest) > 0 {
            let i = inject::insertion_point(rest) - 1;
            assert(rest[i] == unit[i + 1]);
        }
    }
    lemma_without_delimiters(rest, validate);
    let tail = stream::without_hdr10plus(rest, validate);
    law_insertion_point(tail);
    let head = stream::without_hdr10plus(unit.take(1), validate);
    assert(unit.take(1) =~= Seq::empty().push(unit[0]));
    stream::lemma_without_push(Seq::empty(), unit[0], validate);
    assert(stream::without_hdr10plus(Seq::empty(), validate) =~= Seq::empty()) by {
        reveal(Seq::filter);
    }
    assert(head =~= seq![unit[0]]);
    law_metadata_follows_delimiter(unit, obu, validate);
    let injected = injected_obus(unit, obu, validate);
    assert forall|i: int| 0 < i < injected.len() implies injected[i].obu_type
        != OBU_TEMPORAL_DELIMITER by {
        if i > 1 {
            assert(injected[i] == tail[i - 2]);
        }
    }
}

/// The first `n` temporal units with their metadata.
pub open spec fn injected_unit_models(job: Job, units: Seq<Seq<ObuModel>>, n: nat) -> Seq<
    Seq<ObuModel>,
> {
    Seq::new(n, |i: int| injected_obus(units[i], obu_for(job, i as nat), job.validate))
}

/// The bytes of temporal units with their metadata.
pub proof fn lemma_injected_units_bytes(job: Job, units: Seq<Seq<ObuModel>>, n: nat, served: nat)
    requires
        n <= inject_stream::served(job, served),
    ensures
        inject_stream::injected_units(job, units, n) == stream::concat_raw(
            concat_units(injected_unit_models(job, units, n)),
        ),
    decreases n,
{
    let models = injected_unit_models(job, units, n);
    if n > 0 {
        let k = (n - 1) as nat;
        lemma_injected_units_bytes(job, units, k, served);
        assert(models.drop_last() =~= injected_unit_models(job, units, k));
        lemma_served_entry(job, served, k);
        law_injected_bytes(units[k as int], obu_for(job, k), job.validate);
        stream::lemma_concat_raw_add(concat_units(models.drop_last()), models.last());
    }
}

/// The parts of units that read as themselves.
proof fn lemma_parts_read_as_themselves(obus: Seq<ObuModel>)
    requires
        stream::all_read_as_themselves(obus),
    ensures
        stream::all_read_as_themselves(inject_stream::raw_parts(obus).prelude),
        forall|i: int|
            0 <= i < inject_stream::raw_parts(obus).units.len() ==> stream::all_read_as_themselves(
                #[trigger] inject_stream::raw_parts(obus).units[i],
            ),
    decreases obus.len(),
{
    if obus.len() > 0 {
        let front = obus.drop_last();
        assert forall|i: int| 0 <= i < front.len() implies #[trigger] stream::reads_as_itself(
            front[i],
        ) by {
            assert(stream::reads_as_itself(obus[i]));
        }
        lemma_parts_read_as_themselves(front);
        assert(stream::reads_as_itself(obus[obus.len() - 1]));
        let before = inject_stream::raw_parts(front).units;
        if before.len() > 0 {
            assert(stream::all_read_as_themselves(before[before.len() - 1]));
        }
    }
}

/// Two runs of units that read as themselves.
proof fn lemma_both_read_as_themselves(a: Seq<ObuModel>, b: Seq<ObuModel>)
    requires
        stream::all_read_as_themselves(a),
        stream::all_read_as_themselves(b),
    ensures
        stream::all_read_as_themselves(a + b),
{
    assert forall|i: int| 0 <= i < (a + b).len() implies #[trigger] stream::reads_as_itself(
        (a + b)[i],
    ) by {
        if i < a.len() {
            assert(stream::reads_as_itself(a[i]));
        } else {
            assert(stream::reads_as_itself(b[i - a.len()]));
        }
    }
}

/// Temporal units of units that read as themselves.
proof fn lemma_concat_units_read_as_themselves(units: Seq<Seq<ObuModel>>)
    requires
        forall|i: int|
            0 <= i < units.len() ==> stream::all_read_as_themselves(#[trigger] units[i]),
    ensures
        stream::all_read_as_themselves(concat_units(units)),
    decreases units.len(),
{
    if units.len() > 0 {
        let front = units.drop_last();
        assert forall|i: int| 0 <= i < front.len() implies stream::all_read_as_themselves(
            #[trigger] front[i],
        ) by {
            assert(front[i] == units[i]);
        }
        lemma_concat_units_read_as_themselves(front);
        assert(stream::all_read_as_themselves(units[units.len() - 1]));
        lemma_both_read_as_themselves(concat_units(front), units.last());
    }
}

/// The temporal units of a raw stream that get their metadata, with it.
pub open spec fn injected_raw_models(job: Job, bytes: Seq<u8>) -> Seq<Seq<ObuModel>> {
    let units = inject_stream::complete_units(stream::scan_obus(bytes));
    injected_unit_models(job, units, inject_stream::served(job, units.len()))
}

/// Law: what injection writes of a raw stream is read back, without a fault, as
/// the units before the first temporal delimiter and then the temporal units
/// with their metadata put in, in their order.
pub proof fn law_injected_raw_reads_back(job: Job, bytes: Seq<u8>)
    ensures
        ({
            let written = inject_stream::injected_raw(job, bytes).stream.written;
            let scan = stream::scan_obus(written);
            &&& scan.fault is None
            &&& stream::all_read_as_themselves(scan.units)
            &&& written == stream::concat_raw(scan.units)
            &&& scan.units == inject_stream::raw_parts(scan.units).prelude + concat_units(
                inject_stream::raw_parts(scan.units).units,
            )
            &&& inject_stream::raw_parts(scan.units) == (RawParts {
                prelude: inject_stream::raw_parts(stream::scan_obus(bytes).units).prelude,
                units: injected_raw_models(job, bytes),
            })
        }),
{
    let read = stream::scan_obus(bytes);
    let parts = inject_stream::raw_parts(read.units);
    let units = inject_stream::complete_units(read);
    let n = inject_stream::served(job, units.len());
    let models = injected_unit_models(job, units, n);
    let obus = parts.prelude + concat_units(models);
    stream::law_reading_is_lossless(bytes);
    lemma_parts_read_as_themselves(read.units);
    law_raw_parts(read.units);
    law_served_units(job, units.len());
    assert forall|i: int| 0 <= i < models.len() implies inject_stream::is_raw_unit(
        #[trigger] models[i],
    ) && stream::all_read_as_themselves(models[i]) by {
        assert(units[i] == parts.units[i]);
        lemma_injected_raw_unit(units[i], obu_for(job, i as nat), job.validate);
        lemma_served_entry(job, units.len(), i as nat);
        lemma_injected_obus_read_as_themselves(units[i], obu_for(job, i as nat), job.validate);
    }
    lemma_raw_parts_of(parts.prelude, models);
    lemma_concat_units_read_as_themselves(models);
    lemma_both_read_as_themselves(parts.prelude, concat_units(models));
    lemma_injected_units_bytes(job, units, n, units.len());
    stream::lemma_concat_raw_add(parts.prelude, concat_units(models));
    stream::law_written_units_read_back(obus);
}

/// Law: in what injection of HDR10+ metadata writes of a raw stream, every
/// temporal unit holds exactly one HDR10+ metadata unit, that of its entry; it
/// stands right after the temporal delimiter, and the message of the entry is
/// extracted from it.
pub proof fn law_injected_raw_has_one_unit_per_temporal_unit(job: Job, bytes: Seq<u8>, index: int)
    requires
        is_hdr10plus_metadata(entry_for(job, index as nat), job.validate),
        0 <= index < injected_raw_models(job, bytes).len(),
    ensures
        ({
            let written = inject_stream::injected_raw(job, bytes).stream.written;
            let obus = inject_stream::raw_parts(stream::scan_obus(written).units).units[index];
            &&& hdr10plus_count(obus, job.validate) == 1
            &&& obus[0].obu_type == OBU_TEMPORAL_DELIMITER
            &&& obus[1] == obu_for(job, index as nat)
            &&& detect::hdr10plus_t35(obus[1].payload, job.validate) == Some(
                metadata::t35_message(entry_for(job, index as nat)),
            )
        }),
{
    let read = stream::scan_obus(bytes);
    let units = inject_stream::complete_units(read);
    let obu = obu_for(job, index as nat);
    law_injected_raw_reads_back(job, bytes);
    law_served_units(job, units.len());
    lemma_served_entry(job, units.len(), index as nat);
    law_raw_parts(read.units);
    assert(units[index] == inject_stream::raw_parts(read.units).units[index]);
    lemma_injected_raw_unit(units[index], obu, job.validate);
    law_injection_replaces(units[index], obu, job.validate);
    law_metadata_follows_delimiter(units[index], obu, job.validate);
    encode::law_encoded_metadata_is_detected(entry_for(job, index as nat), job.validate);
}

/// Metadata in temporal units that hold one metadata unit each.
proof fn lemma_count_concat_units(units: Seq<Seq<ObuModel>>, validate: bool)
    requires
        forall|i: int|
            0 <= i < units.len() ==> hdr10plus_count(#[trigger] units[i], validate) == 1,
    ensures
        hdr10plus_count(concat_units(units), validate) == units.len(),
    decreases units.len(),
{
    if units.len() > 0 {
        let front = units.drop_last();
        assert forall|i: int| 0 <= i < front.len() implies hdr10plus_count(
            #[trigger] front[i],
            validate,
        ) == 1 by {
            assert(front[i] == units[i]);
        }
        lemma_count_concat_units(front, validate);
        assert(hdr10plus_count(units[units.len() - 1], validate) == 1);
        lemma_count_add(concat_units(front), units.last(), validate);
    } else {
        lemma_no_hdr10plus_to_count(concat_units(units), validate);
    }
}

/// Law: where no HDR10+ metadata comes before the first temporal delimiter, a
/// raw stream holds after the injection of HDR10+ metadata as many HDR10+
/// metadata units as temporal units: nothing of the metadata that it had is
/// left.
pub proof fn law_injected_raw_replaces_all(job: Job, bytes: Seq<u8>)
    requires
        served_are_hdr10plus(
            job,
            inject_stream::complete_units(stream::scan_obus(bytes)).len(),
        ),
        stream::free_of_hdr10plus(
            inject_stream::raw_parts(stream::scan_obus(bytes).units).prelude,
            job.validate,
        ),
    ensures
        hdr10plus_count(
            stream::scan_obus(inject_stream::injected_raw(job, bytes).stream.written).units,
            job.validate,
        ) == injected_raw_models(job, bytes).len(),
{
    let prelude = inject_stream::raw_parts(stream::scan_obus(bytes).units).prelude;
    let models = injected_raw_models(job, bytes);
    law_injected_raw_reads_back(job, bytes);
    lemma_no_hdr10plus_to_count(prelude, job.validate);
    assert forall|i: int| 0 <= i < models.len() implies hdr10plus_count(
        #[trigger] models[i],
        job.validate,
    ) == 1 by {
        law_injected_raw_has_one_unit_per_temporal_unit(job, bytes, i);
    }
    lemma_count_concat_units(models, job.validate);
    lemma_count_add(prelude, concat_units(models), job.validate);
}

/// Temporal units that are the same without their metadata.
proof fn lemma_without_concat_units(
    a: Seq<Seq<ObuModel>>,
    b: Seq<Seq<ObuModel>>,
    validate: bool,
)
    requires
        a.len() == b.len(),
        forall|i: int|
            0 <= i < a.len() ==> stream::without_hdr10plus(#[trigger] a[i], validate)
                == stream::without_hdr10plus(b[i], validate),
    ensures
        stream::without_hdr10plus(concat_units(a), validate) == stream::without_hdr10plus(
            concat_units(b),
            validate,
        ),
    decreases a.len(),
{
    if a.len() > 0 {
        let front = a.drop_last();
        assert forall|i: int| 0 <= i < front.len() implies stream::without_hdr10plus(
            #[trigger] front[i],
            validate,
        ) == stream::without_hdr10plus(b.drop_last()[i], validate) by {
            assert(front[i] == a[i]);
        }
        lemma_without_concat_units(front, b.drop_last(), validate);
        assert(stream::without_hdr10plus(a[a.len() - 1], validate) == stream::without_hdr10plus(
            b[a.len() - 1],
            validate,
        ));
        stream::lemma_without_add(concat_units(front), a.last(), validate);
        stream::lemma_without_add(concat_units(b.drop_last()), b.last(), validate);
    }
}

/// Law: to put HDR10+ metadata into a raw stream and to remove it is to remove
/// what there was.
pub proof fn law_removal_undoes_injection_raw(job: Job, bytes: Seq<u8>)
    requires
        served_are_hdr10plus(
            job,
            inject_stream::complete_units(stream::scan_obus(bytes)).len(),
        ),
        inject_stream::injected_raw(job, bytes).stream.fault is None,
    ensures
        remove::removed_raw(
            inject_stream::injected_raw(job, bytes).stream.written,
            job.validate,
        ) == remove::removed_raw(bytes, job.validate),
{
    let read = stream::scan_obus(bytes);
    let parts = inject_stream::raw_parts(read.units);
    let n = parts.units.len();
    law_served_units(job, n);
    law_injected_raw_reads_back(job, bytes);
    law_raw_parts(read.units);
    let models = injected_unit_models(job, parts.units, n);
    assert forall|i: int| 0 <= i < n implies stream::without_hdr10plus(
        #[trigger] models[i],
        job.validate,
    ) == stream::without_hdr10plus(parts.units[i], job.validate) by {
        lemma_served_entry(job, n, i as nat);
        law_injection_replaces(parts.units[i], obu_for(job, i as nat), job.validate);
    }
    lemma_without_concat_units(models, parts.units, job.validate);
    stream::lemma_without_add(parts.prelude, concat_units(models), job.validate);
    stream::lemma_without_add(parts.prelude, concat_units(parts.units), job.validate);
}

/// Temporal units into which metadata is put a second time.
proof fn lemma_injected_units_again(
    first: Job,
    second: Job,
    units: Seq<Seq<ObuModel>>,
    n: nat,
    served: nat,
)
    requires
        first.validate == second.validate,
        served_are_hdr10plus(first, served),
        n <= inject_stream::served(first, served),
        n <= units.len(),
        served == units.len(),
    ensures
        inject_stream::injected_units(second, injected_unit_models(first, units, served), n)
            == inject_stream::injected_units(second, units, n),
    decreases n,
{
    if n > 0 {
        let k = (n - 1) as nat;
        lemma_injected_units_again(first, second, units, k, served);
        lemma_served_entry(first, served, k);
        lemma_injected_again(
            units[k as int],
            obu_for(first, k),
            inject_stream::unit_encoding(second, k),
            first.validate,
        );
    }
}

/// Law: to put HDR10+ metadata into a raw stream and then other metadata writes
/// what the second injection alone writes.
pub proof fn law_injection_again_replaces_raw(first: Job, second: Job, bytes: Seq<u8>)
    requires
        first.validate == second.validate,
        served_are_hdr10plus(
            first,
            inject_stream::complete_units(stream::scan_obus(bytes)).len(),
        ),
        inject_stream::injected_raw(first, bytes).stream.fault is None,
    ensures
        inject_stream::injected_raw(
            second,
            inject_stream::injected_raw(first, bytes).stream.written,
        ).stream == inject_stream::injected_raw(second, bytes).stream,
{
    let parts = inject_stream::raw_parts(stream::scan_obus(bytes).units);
    let n = parts.units.len();
    law_served_units(first, n);
    law_served_units(second, n);
    law_injected_raw_reads_back(first, bytes);
    lemma_injected_units_again(
        first,
        second,
        parts.units,
        inject_stream::served(second, n),
        n,
    );
}

// ---------------------------------------------------------------------------
// Files
// ---------------------------------------------------------------------------

/// A file whose frames, if it is an IVF file, keep to lengths that a frame
/// header can give once their metadata is put in.
pub open spec fn file_lengths_fit(job: Job, file: Seq<u8>) -> bool {
    let frames = frames::scan_frames(file.skip(IVF_FILE_HEADER_LEN as int)).frames;
    ivf::starts_with_signature(file) && file.len() >= IVF_FILE_HEADER_LEN ==> frame_lengths_fit(
        job,
        frames,
        inject_stream::served(job, frames.len()),
    )
}

/// How many temporal units a file has: its frames, if it is an IVF file, and the
/// complete temporal units of its raw stream otherwise.
pub open spec fn file_unit_count(file: Seq<u8>) -> nat {
    if ivf::starts_with_signature(file) {
        frames::scan_frames(file.skip(IVF_FILE_HEADER_LEN as int)).frames.len()
    } else {
        inject_stream::complete_units(stream::scan_obus(file)).len()
    }
}

/// What is written of a file is taken for the same kind of file.
proof fn lemma_injected_file_kind(job: Job, file: Seq<u8>)
    requires
        inject_stream::injected_file(job, file).stream.fault is None,
    ensures
        ({
            let written = inject_stream::injected_file(job, file).stream.written;
            let n = IVF_FILE_HEADER_LEN as int;
            &&& ivf::starts_with_signature(written) == ivf::starts_with_signature(file)
            &&& ivf::starts_with_signature(file) ==> {
                &&& file.len() >= n
                &&& written.len() >= n
                &&& written.take(n) == file.take(n)
                &&& written.skip(n) == inject_stream::injected_ivf(
                    job,
                    file.skip(n),
                ).stream.written
            }
        }),
{
    let written = inject_stream::injected_file(job, file).stream.written;
    let n = IVF_FILE_HEADER_LEN as int;
    if ivf::starts_with_signature(file) {
        let rest = inject_stream::injected_ivf(job, file.skip(n)).stream.written;
        assert(written =~= file.take(n) + rest);
        assert(written.take(4) =~= file.take(4));
        assert(written.take(n) =~= file.take(n));
        assert(written.skip(n) =~= rest);
    } else {
        law_injected_raw_reads_back(job, file);
        remove_laws::lemma_units_are_no_ivf(stream::scan_obus(written).units);
    }
}

/// Law: to put HDR10+ metadata into a file and to remove it is to remove what
/// there was.
pub proof fn law_removal_undoes_injection(job: Job, file: Seq<u8>)
    requires
        file_lengths_fit(job, file),
        served_are_hdr10plus(job, file_unit_count(file)),
        inject_stream::injected_file(job, file).stream.fault is None,
    ensures
        remove::removed_file(
            inject_stream::injected_file(job, file).stream.written,
            job.validate,
        ) == remove::removed_file(file, job.validate),
{
    lemma_injected_file_kind(job, file);
    if ivf::starts_with_signature(file) {
        law_removal_undoes_injection_ivf(job, file.skip(IVF_FILE_HEADER_LEN as int));
    } else {
        law_removal_undoes_injection_raw(job, file);
    }
}

/// Law: to put HDR10+ metadata into a file and then other metadata writes what
/// the second injection alone writes.
pub proof fn law_injection_again_replaces_file(first: Job, second: Job, file: Seq<u8>)
    requires
        first.validate == second.validate,
        file_lengths_fit(first, file),
        served_are_hdr10plus(first, file_unit_count(file)),
        inject_stream::injected_file(first, file).stream.fault is None,
    ensures
        inject_stream::injected_file(
            second,
            inject_stream::injected_file(first, file).stream.written,
        ).stream == inject_stream::injected_file(second, file).stream,
{
    lemma_injected_file_kind(first, file);
    if ivf::starts_with_signature(file) {
        law_injection_again_replaces_ivf(first, second, file.skip(IVF_FILE_HEADER_LEN as int));
    } else {
        law_injection_again_replaces_raw(first, second, file);
    }
}

// ---------------------------------------------------------------------------
// What the user is told
// ---------------------------------------------------------------------------

/// One if `b` holds, and zero otherwise.
pub open spec fn one_if(b: bool) -> nat {
    if b {
        1
    } else {
        0
    }
}

/// What is said of the first `n` temporal units.
proof fn lemma_unit_notices(job: Job, units: Seq<Seq<ObuModel>>, n: nat)
    requires
        n <= units.len(),
    ensures
        ({
            let notices = inject_stream::unit_notices(job, units, n);
            let entries = job.entries.len() as usize;
            let existing = inject_stream::any_existing(job, units, n);
            &&& notices.contains(Notice::ExistingMetadata) == existing
            &&& notices.contains(Notice::MoreFrames { entries }) == (n > job.entries.len())
            &&& forall|i: int|
                0 <= i < notices.len() ==> !(#[trigger] notices[i] is ExcessMetadata)
            &&& notices.len() == one_if(existing) + one_if(n > job.entries.len())
        }),
    decreases n,
{
    let notices = inject_stream::unit_notices(job, units, n);
    if n > 0 {
        let k = (n - 1) as nat;
        lemma_unit_notices(job, units, k);
        let before = inject_stream::unit_notices(job, units, k);
        let here = inject::has_hdr10plus(units[k as int], job.validate);
        let known = inject_stream::any_existing(job, units, k);
        assert(inject_stream::any_existing(job, units, n) == (known || here)) by {
            if known {
                let i = choose|i: int|
                    0 <= i < k && inject::has_hdr10plus(#[trigger] units[i], job.validate);
                assert(inject::has_hdr10plus(units[i], job.validate));
            }
        }
        let existing = if here && !known {
            seq![Notice::ExistingMetadata]
        } else {
            Seq::empty()
        };
        let more = if k == job.entries.len() {
            seq![Notice::MoreFrames { entries: k as usize }]
        } else {
            Seq::empty()
        };
        assert(notices == before + existing + more);
        assert forall|notice: Notice| #[trigger] notices.contains(notice) == (before.contains(
            notice,
        ) || existing.contains(notice) || more.contains(notice)) by {
            lemma_contains_add(before + existing, more, notice);
            lemma_contains_add(before, existing, notice);
        }
        assert(here && !known ==> existing[0] == Notice::ExistingMetadata);
        assert(k == job.entries.len() ==> more[0] == Notice::MoreFrames { entries: k as usize });
    }
}

/// What two runs contain.
proof fn lemma_contains_add(a: Seq<Notice>, b: Seq<Notice>, notice: Notice)
    ensures
        (a + b).contains(notice) == (a.contains(notice) || b.contains(notice)),
{
    if a.contains(notice) {
        let i = choose|i: int| 0 <= i < a.len() && a[i] == notice;
        assert((a + b)[i] == notice);
    }
    if b.contains(notice) {
        let i = choose|i: int| 0 <= i < b.len() && b[i] == notice;
        assert((a + b)[a.len() + i] == notice);
    }
}

/// Law: after an injection without a fault the user has been told, each once
/// and nothing else: of existing metadata where there was any, of a mismatch
/// where the video has more temporal units than the list has entries, and of
/// entries that were ignored where it has fewer.
pub proof fn law_notices(job: Job, units: Seq<Seq<ObuModel>>, written: Seq<u8>)
    requires
        inject_stream::served(job, units.len()) == units.len(),
    ensures
        ({
            let notices = inject_stream::outcome(job, units, written, None).notices;
            let n = units.len();
            let total = job.entries.len();
            let existing = inject_stream::any_existing(job, units, n);
            let entries = total as usize;
            let frames = n as usize;
            &&& notices.contains(Notice::ExistingMetadata) == existing
            &&& notices.contains(Notice::MoreFrames { entries }) == (n > total)
            &&& notices.contains(Notice::ExcessMetadata { entries, frames }) == (n < total)
            &&& notices.len() == one_if(existing) + one_if(n != total)
        }),
{
    let n = units.len();
    let last = inject::excess_notices(job.entries.len(), n);
    let before = inject_stream::unit_notices(job, units, n);
    lemma_unit_notices(job, units, n);
    let entries = job.entries.len() as usize;
    let excess = Notice::ExcessMetadata { entries, frames: n as usize };
    lemma_contains_add(before, last, Notice::ExistingMetadata);
    lemma_contains_add(before, last, Notice::MoreFrames { entries });
    lemma_contains_add(before, last, excess);
    assert(n < job.entries.len() ==> last[0] == excess);
}

} // verus!
