//! Injection of HDR10+ metadata into whole streams and files.

use crate::error::Av1Error;
use crate::frames;
use crate::frames::{read_ivf_frame, write_ivf_frame, FrameData, FrameModel};
use crate::inject;
use crate::inject::{Injection, InjectionModel, Injector, Notice};
use crate::ivf;
use crate::ivf::{try_read_ivf_file_header, IVF_FILE_HEADER_LEN};
use crate::metadata;
use crate::metadata::{Hdr10PlusJsonMetadata, MetadataModel};
use crate::obu;
use crate::obu::{Obu, ObuModel, OBU_TEMPORAL_DELIMITER};
use crate::reader::ByteReader;
use crate::remove;
use crate::remove::Rewritten;
use crate::stream;
use vstd::prelude::*;

verus! {

/// What an injection is done with.
#[verifier::ext_equal]
pub struct Job {
    /// The entries of the metadata file.
    pub entries: Seq<Option<MetadataModel>>,
    pub validate: bool,
}

/// The metadata unit of temporal unit `index`, where there is one.
pub open spec fn unit_encoding(job: Job, index: nat) -> Seq<u8> {
    match inject::unit_metadata(job.entries, job.validate, index) {
        Ok(encoded) => encoded,
        Err(_) => Seq::empty(),
    }
}

/// How many of `n` temporal units get metadata before the first that cannot.
pub open spec fn served(job: Job, n: nat) -> nat
    decreases n,
{
    if n == 0 {
        0
    } else if served(job, (n - 1) as nat) == n - 1 && inject::unit_metadata(
        job.entries,
        job.validate,
        (n - 1) as nat,
    ) is Ok {
        n
    } else {
        served(job, (n - 1) as nat)
    }
}

/// How many of `n` temporal units are begun: those served, and the one that
/// cannot be.
pub open spec fn begun(job: Job, n: nat) -> nat {
    if served(job, n) < n {
        served(job, n) + 1
    } else {
        n
    }
}

/// The fault that the metadata of `n` temporal units gives.
pub open spec fn metadata_fault(job: Job, n: nat) -> Option<Av1Error> {
    if served(job, n) < n {
        match inject::unit_metadata(job.entries, job.validate, served(job, n)) {
            Ok(_) => None,
            Err(e) => Some(e),
        }
    } else {
        None
    }
}

/// Whether one of the first `n` temporal units holds HDR10+ metadata.
pub open spec fn any_existing(job: Job, units: Seq<Seq<ObuModel>>, n: nat) -> bool {
    exists|i: int| 0 <= i < n && inject::has_hdr10plus(#[trigger] units[i], job.validate)
}

/// What the user is told at the first `n` temporal units: of existing metadata
/// at the first unit that has any, and of a mismatch at the first unit that has
/// no entry.
pub open spec fn unit_notices(job: Job, units: Seq<Seq<ObuModel>>, n: nat) -> Seq<Notice>
    decreases n,
{
    if n == 0 {
        Seq::empty()
    } else {
        let i = (n - 1) as nat;
        unit_notices(job, units, i) + (if inject::has_hdr10plus(units[i as int], job.validate)
            && !any_existing(job, units, i) {
            seq![Notice::ExistingMetadata]
        } else {
            Seq::empty()
        }) + (if i == job.entries.len() {
            seq![Notice::MoreFrames { entries: i as usize }]
        } else {
            Seq::empty()
        })
    }
}

/// What an injection into a stream gives.
#[verifier::ext_equal]
pub struct Injected {
    /// The bytes written, and the fault that stopped the injection, if there
    /// was one.
    pub stream: Rewritten,
    /// What the user is told.
    pub notices: Seq<Notice>,
}

/// What an injection gives that writes `written` for temporal units `units`,
/// after which reading ends with `fault`.
pub open spec fn outcome(
    job: Job,
    units: Seq<Seq<ObuModel>>,
    written: Seq<u8>,
    fault: Option<Av1Error>,
) -> Injected {
    let n = units.len();
    if served(job, n) < n {
        Injected {
            stream: Rewritten { written, fault: metadata_fault(job, n) },
            notices: unit_notices(job, units, begun(job, n)),
        }
    } else {
        Injected {
            stream: Rewritten { written, fault },
            notices: unit_notices(job, units, n) + (if fault is None {
                inject::excess_notices(job.entries.len(), n)
            } else {
                Seq::empty()
            }),
        }
    }
}

/// The units of each frame.
pub open spec fn frame_units(frames: Seq<FrameModel>) -> Seq<Seq<ObuModel>> {
    Seq::new(frames.len(), |i: int| frames[i].obus)
}

/// The first `n` frames with their metadata.
pub open spec fn injected_frames(job: Job, frames: Seq<FrameModel>, n: nat) -> Seq<FrameData> {
    Seq::new(
        n,
        |i: int|
            FrameData {
                timestamp: frames[i].timestamp,
                data: inject::injected_bytes(
                    frames[i].obus,
                    unit_encoding(job, i as nat),
                    job.validate,
                ),
            },
    )
}

/// What injection makes of the frames of an IVF file.
pub open spec fn injected_ivf(job: Job, bytes: Seq<u8>) -> Injected {
    let scan = frames::scan_frames(bytes);
    outcome(
        job,
        frame_units(scan.frames),
        frames::concat_frames(injected_frames(job, scan.frames, served(job, scan.frames.len()))),
        scan.fault,
    )
}

/// A raw stream in parts: the units before the first temporal delimiter, and
/// the temporal units, each with its delimiter first.
#[verifier::ext_equal]
pub struct RawParts {
    pub prelude: Seq<ObuModel>,
    pub units: Seq<Seq<ObuModel>>,
}

/// The parts of a raw stream.
pub open spec fn raw_parts(obus: Seq<ObuModel>) -> RawParts
    decreases obus.len(),
{
    if obus.len() == 0 {
        RawParts { prelude: Seq::empty(), units: Seq::empty() }
    } else {
        let before = raw_parts(obus.drop_last());
        let obu = obus.last();
        if obu.obu_type == OBU_TEMPORAL_DELIMITER {
            RawParts { units: before.units.push(seq![obu]), ..before }
        } else if before.units.len() > 0 {
            RawParts {
                units: before.units.drop_last().push(before.units.last().push(obu)),
                ..before
            }
        } else {
            RawParts { prelude: before.prelude.push(obu), ..before }
        }
    }
}

/// The temporal units of a raw stream that are known to be complete: all of
/// them at the end of the stream, and all but the last at a fault.
pub open spec fn complete_units(scan: stream::ObuScan) -> Seq<Seq<ObuModel>> {
    let units = raw_parts(scan.units).units;
    if scan.fault is Some && units.len() > 0 {
        units.drop_last()
    } else {
        units
    }
}

/// The bytes of the first `n` temporal units with their metadata.
pub open spec fn injected_units(job: Job, units: Seq<Seq<ObuModel>>, n: nat) -> Seq<u8>
    decreases n,
{
    if n == 0 {
        Seq::empty()
    } else {
        injected_units(job, units, (n - 1) as nat) + inject::injected_bytes(
            units[n - 1],
            unit_encoding(job, (n - 1) as nat),
            job.validate,
        )
    }
}

/// What injection makes of units that are read from a raw stream up to its end
/// or a fault.
pub open spec fn raw_outcome(
    job: Job,
    obus: Seq<ObuModel>,
    fault: Option<Av1Error>,
) -> Injected {
    let units = complete_units(stream::ObuScan { units: obus, fault });
    outcome(
        job,
        units,
        stream::concat_raw(raw_parts(obus).prelude) + injected_units(
            job,
            units,
            served(job, units.len()),
        ),
        fault,
    )
}

/// What injection makes of a raw stream: the units before the first temporal
/// delimiter as they are, then the temporal units with their metadata.
pub open spec fn injected_raw(job: Job, bytes: Seq<u8>) -> Injected {
    raw_outcome(job, stream::scan_obus(bytes).units, stream::scan_obus(bytes).fault)
}

/// What injection makes of a file. The file header of an IVF file is kept.
pub open spec fn injected_file(job: Job, file: Seq<u8>) -> Injected {
    if job.entries.len() == 0 {
        Injected {
            stream: Rewritten { written: Seq::empty(), fault: Some(Av1Error::EmptySceneInfo) },
            notices: Seq::empty(),
        }
    } else if !ivf::starts_with_signature(file) {
        injected_raw(job, file)
    } else if file.len() < IVF_FILE_HEADER_LEN {
        Injected {
            stream: Rewritten { written: Seq::empty(), fault: Some(Av1Error::UnexpectedEof) },
            notices: Seq::empty(),
        }
    } else {
        let rest = injected_ivf(job, file.skip(IVF_FILE_HEADER_LEN as int));
        Injected {
            stream: Rewritten {
                written: file.take(IVF_FILE_HEADER_LEN as int) + rest.stream.written,
                ..rest.stream
            },
            ..rest
        }
    }
}

// ---------------------------------------------------------------------------
// The state of an injection after a number of temporal units
// ---------------------------------------------------------------------------

/// An injection after the first `n` temporal units of a stream, all served.
pub open spec fn is_after(
    injection: InjectionModel,
    job: Job,
    units: Seq<Seq<ObuModel>>,
    n: nat,
) -> bool {
    &&& n <= units.len()
    &&& served(job, n) == n
    &&& injection.validate == job.validate
    &&& injection.tu_index == n
    &&& injection.last_encoded == (if n == 0 {
        None
    } else {
        Some(unit_encoding(job, (n - 1) as nat))
    })
    &&& injection.warned_existing == any_existing(job, units, n)
    &&& injection.warned_mismatch == (n > job.entries.len())
    &&& injection.notices == unit_notices(job, units, n)
}

/// No more temporal units are served than there are.
pub proof fn lemma_served_bound(job: Job, n: nat)
    ensures
        served(job, n) <= n,
    decreases n,
{
    if n > 0 {
        lemma_served_bound(job, (n - 1) as nat);
    }
}

/// One more temporal unit.
pub proof fn lemma_after_unit(
    injection: InjectionModel,
    job: Job,
    units: Seq<Seq<ObuModel>>,
    n: nat,
)
    requires
        is_after(injection, job, units, n),
        n < units.len(),
    ensures
        inject::next_metadata(injection, job.entries) == inject::unit_metadata(
            job.entries,
            job.validate,
            n,
        ),
        inject::next_metadata(injection, job.entries) is Ok ==> is_after(
            inject::after_unit(injection, units[n as int], job.entries),
            job,
            units,
            n + 1,
        ),
        inject::after_unit(injection, units[n as int], job.entries).notices == unit_notices(
            job,
            units,
            n + 1,
        ),
{
    if n > 0 {
        lemma_served_bound(job, (n - 1) as nat);
        assert(inject::unit_metadata(job.entries, job.validate, (n - 1) as nat) is Ok);
    }
    let next = inject::after_unit(injection, units[n as int], job.entries);
    assert(next.notices =~= unit_notices(job, units, n + 1));
    assert(any_existing(job, units, n + 1) == (any_existing(job, units, n)
        || inject::has_hdr10plus(units[n as int], job.validate))) by {
        if any_existing(job, units, n) {
            let i = choose|i: int|
                0 <= i < n && inject::has_hdr10plus(#[trigger] units[i], job.validate);
            assert(inject::has_hdr10plus(units[i], job.validate));
        }
    }
}

/// Where the metadata of a temporal unit is refused, the injection stops there.
proof fn lemma_served_stops(job: Job, k: nat, n: nat)
    requires
        served(job, k) == k,
        inject::unit_metadata(job.entries, job.validate, k) is Err,
        k < n,
    ensures
        served(job, n) == k,
    decreases n,
{
    if n - 1 > k {
        lemma_served_stops(job, k, (n - 1) as nat);
    }
}

/// What is said of the first `n` temporal units depends on them alone.
proof fn lemma_units_agree(job: Job, a: Seq<Seq<ObuModel>>, b: Seq<Seq<ObuModel>>, n: nat)
    requires
        n <= a.len(),
        n <= b.len(),
        forall|i: int| 0 <= i < n ==> a[i] == b[i],
    ensures
        any_existing(job, a, n) == any_existing(job, b, n),
        unit_notices(job, a, n) == unit_notices(job, b, n),
        injected_units(job, a, n) == injected_units(job, b, n),
    decreases n,
{
    if any_existing(job, a, n) {
        let i = choose|i: int| 0 <= i < n && inject::has_hdr10plus(#[trigger] a[i], job.validate);
        assert(inject::has_hdr10plus(b[i], job.validate));
    }
    if any_existing(job, b, n) {
        let i = choose|i: int| 0 <= i < n && inject::has_hdr10plus(#[trigger] b[i], job.validate);
        assert(inject::has_hdr10plus(a[i], job.validate));
    }
    if n > 0 {
        lemma_units_agree(job, a, b, (n - 1) as nat);
    }
}

/// Units that follow do not change what comes before the last temporal unit.
pub proof fn lemma_raw_parts_extend(a: Seq<ObuModel>, b: Seq<ObuModel>)
    ensures
        raw_parts(a).units.len() <= raw_parts(a + b).units.len(),
        raw_parts(a).units.len() > 0 ==> raw_parts(a + b).prelude == raw_parts(a).prelude,
        forall|i: int|
            0 <= i < raw_parts(a).units.len() - 1 ==> raw_parts(a + b).units[i] == raw_parts(
                a,
            ).units[i],
    decreases b.len(),
{
    if b.len() == 0 {
        assert(a + b =~= a);
    } else {
        lemma_raw_parts_extend(a, b.drop_last());
        assert((a + b).drop_last() =~= a + b.drop_last());
    }
}

/// An injection depends on the temporal units that it has been through.
proof fn lemma_is_after_agree(
    injection: InjectionModel,
    job: Job,
    a: Seq<Seq<ObuModel>>,
    b: Seq<Seq<ObuModel>>,
    n: nat,
)
    requires
        is_after(injection, job, a, n),
        n <= b.len(),
        forall|i: int| 0 <= i < n ==> a[i] == b[i],
    ensures
        is_after(injection, job, b, n),
{
    lemma_units_agree(job, a, b, n);
}

/// How many temporal units of a raw stream are complete after `done`.
pub open spec fn raw_complete(done: Seq<ObuModel>) -> nat {
    let n = raw_parts(done).units.len();
    if n == 0 {
        0
    } else {
        (n - 1) as nat
    }
}

/// What has been written of a raw stream after `done`.
pub open spec fn raw_written(job: Job, done: Seq<ObuModel>) -> Seq<u8> {
    stream::concat_raw(raw_parts(done).prelude) + injected_units(
        job,
        raw_parts(done).units,
        raw_complete(done),
    )
}

/// An injection into a raw stream after `done`.
pub open spec fn is_within(injection: InjectionModel, job: Job, done: Seq<ObuModel>) -> bool {
    let units = raw_parts(done).units;
    &&& is_after(injection, job, units, raw_complete(done))
    &&& injection.unit == (if units.len() > 0 {
        units.last()
    } else {
        Seq::empty()
    })
    &&& injection.av1_parser.temporal_unit_count <= done.len()
}

/// Each temporal unit of a raw stream begins with its delimiter, and holds no
/// other.
pub proof fn lemma_raw_parts_shape(obus: Seq<ObuModel>)
    ensures
        raw_parts(obus).units.len() <= obus.len(),
        forall|i: int|
            0 <= i < raw_parts(obus).units.len() ==> is_raw_unit(
                #[trigger] raw_parts(obus).units[i],
            ),
    decreases obus.len(),
{
    if obus.len() > 0 {
        lemma_raw_parts_shape(obus.drop_last());
        let before = raw_parts(obus.drop_last()).units;
        if before.len() > 0 {
            assert(is_raw_unit(before[before.len() - 1]));
        }
    }
}

/// A temporal unit that begins with its delimiter and holds no other.
pub open spec fn is_raw_unit(unit: Seq<ObuModel>) -> bool {
    &&& unit.len() > 0
    &&& unit[0].obu_type == OBU_TEMPORAL_DELIMITER
    &&& forall|i: int| 0 < i < unit.len() ==> unit[i].obu_type != OBU_TEMPORAL_DELIMITER
}

/// An injection into a raw stream at a fault of the stream.
pub proof fn lemma_raw_fault(injection: InjectionModel, job: Job, done: Seq<ObuModel>)
    requires
        is_within(injection, job, done),
    ensures
        forall|fault: Option<Av1Error>|
            fault is Some ==> #[trigger] raw_outcome(job, done, fault) == (Injected {
                stream: Rewritten { written: raw_written(job, done), fault },
                notices: injection.notices,
            }),
{
    let units = raw_parts(done).units;
    let n = raw_complete(done);
    if units.len() > 0 {
        lemma_units_agree(job, units, units.drop_last(), n);
    }
}

/// An injection into a raw stream at its end.
pub proof fn lemma_raw_end(injection: InjectionModel, job: Job, done: Seq<ObuModel>)
    requires
        is_within(injection, job, done),
    ensures
        ({
            let parts = raw_parts(done);
            let n = parts.units.len();
            let after = inject::after_raw(injection, None, job.entries);
            match inject::raw_output(injection, None, job.entries) {
                Ok(out) => {
                    &&& is_after(after, job, parts.units, n)
                    &&& raw_written(job, done) + out == stream::concat_raw(parts.prelude)
                        + injected_units(job, parts.units, n)
                },
                Err(e) => raw_outcome(job, done, None) == (Injected {
                    stream: Rewritten { written: raw_written(job, done), fault: Some(e) },
                    notices: after.notices,
                }),
            }
        }),
{
    let parts = raw_parts(done);
    let n = parts.units.len();
    lemma_raw_parts_shape(done);
    if n > 0 {
        assert(is_raw_unit(parts.units[n - 1]));
        lemma_after_unit(injection, job, parts.units, (n - 1) as nat);
        match inject::raw_output(injection, None, job.entries) {
            Ok(out) => {
                assert(raw_written(job, done) + out =~= stream::concat_raw(parts.prelude)
                    + injected_units(job, parts.units, n));
            },
            Err(_) => {
                lemma_served_stops(job, (n - 1) as nat, n);
            },
        }
    } else {
        assert(raw_written(job, done) + Seq::<u8>::empty() =~= raw_written(job, done));
    }
}

/// An injection into a raw stream at one more unit of it.
pub proof fn lemma_raw_unit(
    injection: InjectionModel,
    job: Job,
    done: Seq<ObuModel>,
    obu: ObuModel,
    rest: Seq<ObuModel>,
    fault: Option<Av1Error>,
)
    requires
        is_within(injection, job, done),
    ensures
        ({
            let after = inject::after_raw(injection, Some(obu), job.entries);
            match inject::raw_output(injection, Some(obu), job.entries) {
                Ok(out) => {
                    &&& is_within(after, job, done.push(obu))
                    &&& raw_written(job, done) + out == raw_written(job, done.push(obu))
                },
                Err(e) => raw_outcome(job, done.push(obu) + rest, fault) == (Injected {
                    stream: Rewritten { written: raw_written(job, done), fault: Some(e) },
                    notices: after.notices,
                }),
            }
        }),
{
    let a = raw_parts(done);
    let n = a.units.len();
    let b = raw_parts(done.push(obu));
    let after = inject::after_raw(injection, Some(obu), job.entries);
    assert(done.push(obu).drop_last() =~= done);
    lemma_raw_parts_shape(done);
    if n > 0 {
        assert(is_raw_unit(a.units[n - 1]));
    }
    if obu.obu_type == OBU_TEMPORAL_DELIMITER && n > 0 {
        let k = (n - 1) as nat;
        lemma_after_unit(injection, job, a.units, k);
        match inject::raw_output(injection, Some(obu), job.entries) {
            Ok(out) => {
                lemma_is_after_agree(
                    inject::after_unit(injection, a.units[k as int], job.entries),
                    job,
                    a.units,
                    b.units,
                    n,
                );
                lemma_units_agree(job, a.units, b.units, n);
                assert(raw_written(job, done) + out =~= raw_written(job, done.push(obu)));
            },
            Err(_) => {
                let units = done.push(obu) + rest;
                lemma_raw_parts_extend(done.push(obu), rest);
                let complete = complete_units(stream::ObuScan { units, fault });
                lemma_served_stops(job, k, complete.len());
                assert forall|i: int| 0 <= i < k + 1 implies a.units[i] == complete[i] by {
                    assert(b.units[i] == a.units[i]);
                }
                lemma_units_agree(job, a.units, complete, k);
                lemma_units_agree(job, a.units, complete, k + 1);
            },
        }
    } else {
        lemma_is_after_agree(injection, job, a.units, b.units, raw_complete(done));
        lemma_units_agree(job, a.units, b.units, raw_complete(done));
        if n == 0 && obu.obu_type != OBU_TEMPORAL_DELIMITER {
            assert(a.prelude.push(obu).drop_last() =~= a.prelude);
            assert(raw_written(job, done) + obu.raw_bytes =~= raw_written(job, done.push(obu)));
        } else {
            assert(raw_written(job, done) + Seq::<u8>::empty() =~= raw_written(
                job,
                done.push(obu),
            ));
        }
    }
}

// ---------------------------------------------------------------------------
// Whole streams
// ---------------------------------------------------------------------------

impl Injector {
    /// Puts metadata into the frames of an IVF file, each of them one temporal
    /// unit. The frame headers give the new sizes.
    pub fn inject_ivf(
        &self,
        input: ByteReader,
        writer: &mut Vec<u8>,
        metadata_list: &[Hdr10PlusJsonMetadata],
        notices: &mut Vec<Notice>,
    ) -> (r: Result<(), Av1Error>)
        ensures
            ({
                let job = Job {
                    entries: metadata::json_models(metadata_list@),
                    validate: self.validate,
                };
                let injected = injected_ivf(job, input@);
                &&& final(writer)@ == old(writer)@ + injected.stream.written
                &&& final(notices)@ == old(notices)@ + injected.notices
                &&& remove::tells(r, injected.stream.fault)
            }),
    {
        let ghost job = Job {
            entries: metadata::json_models(metadata_list@),
            validate: self.validate,
        };
        let ghost all = frames::scan_frames(input@);
        let ghost units = frame_units(all.frames);
        let ghost start = writer@;
        let total: usize = input.fill_buf().len();
        let mut reader: ByteReader = input;
        let mut injection = Injection::new(self.validate);
        let ghost mut done: Seq<FrameModel> = Seq::empty();
        proof {
            assert(all.frames =~= done + frames::scan_frames(reader@).frames);
            assert(start =~= start + frames::concat_frames(injected_frames(job, all.frames, 0)));
        }
        loop
            invariant
                job == (Job {
                    entries: metadata::json_models(metadata_list@),
                    validate: self.validate,
                }),
                all == frames::scan_frames(input@),
                units == frame_units(all.frames),
                start == old(writer)@,
                notices@ == old(notices)@,
                all.frames == done + frames::scan_frames(reader@).frames,
                all.fault == frames::scan_frames(reader@).fault,
                done.len() + reader@.len() <= total,
                is_after(injection@, job, units, done.len()),
                writer@ == start + frames::concat_frames(
                    injected_frames(job, all.frames, done.len()),
                ),
            ensures
                all.frames == done,
                all.fault is None,
                notices@ == old(notices)@,
                is_after(injection@, job, units, done.len()),
                writer@ == start + frames::concat_frames(
                    injected_frames(job, all.frames, done.len()),
                ),
            decreases reader@.len(),
        {
            match read_ivf_frame(&mut reader) {
                Ok(Some(frame)) => {
                    let ghost n = done.len();
                    let ghost earlier = injected_frames(job, all.frames, n);
                    proof {
                        assert(all.frames[n as int] == frame@);
                        assert(units[n as int] == frame@.obus);
                        lemma_after_unit(injection@, job, units, n);
                    }
                    let output_frame = match injection.inject_unit(
                        frame.obus.as_slice(),
                        metadata_list,
                    ) {
                        Ok(output_frame) => output_frame,
                        Err(e) => {
                            proof {
                                lemma_served_stops(job, n, units.len());
                            }
                            notices.append(&mut injection.notices);
                            return Err(e);
                        },
                    };
                    match write_ivf_frame(writer, frame.timestamp, output_frame.as_slice()) {
                        Ok(()) => {},
                        Err(e) => return Err(e),
                    }
                    proof {
                        done = done.push(frame@);
                        assert(all.frames =~= done + frames::scan_frames(reader@).frames);
                        assert(injected_frames(job, all.frames, n + 1).drop_last() =~= earlier);
                        assert(writer@ =~= start + (frames::concat_frames(earlier)
                            + frames::frame_bytes(frame.timestamp, output_frame@)));
                    }
                },
                Ok(None) => {
                    assert(all.frames =~= done);
                    break;
                },
                Err(e) => {
                    assert(all.frames =~= done);
                    notices.append(&mut injection.notices);
                    return Err(e);
                },
            }
        }
        injection.finish(metadata_list);
        notices.append(&mut injection.notices);
        Ok(())
    }

    /// Puts metadata into a raw stream of units, whose temporal units begin
    /// with temporal delimiters. What comes before the first one is kept.
    pub fn inject_raw(
        &self,
        input: ByteReader,
        writer: &mut Vec<u8>,
        metadata_list: &[Hdr10PlusJsonMetadata],
        notices: &mut Vec<Notice>,
    ) -> (r: Result<(), Av1Error>)
        ensures
            ({
                let job = Job {
                    entries: metadata::json_models(metadata_list@),
                    validate: self.validate,
                };
                let injected = injected_raw(job, input@);
                &&& final(writer)@ == old(writer)@ + injected.stream.written
                &&& final(notices)@ == old(notices)@ + injected.notices
                &&& remove::tells(r, injected.stream.fault)
            }),
    {
        let ghost job = Job {
            entries: metadata::json_models(metadata_list@),
            validate: self.validate,
        };
        let ghost all = stream::scan_obus(input@);
        let ghost start = writer@;
        let total: usize = input.fill_buf().len();
        let mut reader: ByteReader = input;
        let mut injection = Injection::new(self.validate);
        let ghost mut done: Seq<ObuModel> = Seq::empty();
        proof {
            assert(all.units =~= done + stream::scan_obus(reader@).units);
            assert(raw_written(job, done) =~= Seq::empty());
            assert(start =~= start + raw_written(job, done));
        }
        loop
            invariant_except_break
                is_within(injection@, job, done),
                writer@ == start + raw_written(job, done),
            invariant
                job == (Job {
                    entries: metadata::json_models(metadata_list@),
                    validate: self.validate,
                }),
                all == stream::scan_obus(input@),
                start == old(writer)@,
                notices@ == old(notices)@,
                all.units == done + stream::scan_obus(reader@).units,
                all.fault == stream::scan_obus(reader@).fault,
                done.len() + reader@.len() <= total,
            ensures
                notices@ == old(notices)@,
                all.units == done,
                all.fault is None,
                is_after(injection@, job, raw_parts(done).units, raw_parts(done).units.len()),
                writer@ == start + (stream::concat_raw(raw_parts(done).prelude) + injected_units(
                    job,
                    raw_parts(done).units,
                    raw_parts(done).units.len(),
                )),
            decreases reader@.len(),
        {
            let ghost before = reader@;
            proof {
                if obu::parse_obu(before) matches Ok(Some(_)) {
                    obu::law_unit_delimits_itself(before, Seq::empty());
                }
            }
            let obu_opt = match Obu::read_from(&mut reader) {
                Ok(obu_opt) => obu_opt,
                Err(e) => {
                    proof {
                        assert(all.units =~= done);
                        lemma_raw_fault(injection@, job, done);
                    }
                    notices.append(&mut injection.notices);
                    return Err(e);
                },
            };
            let is_eof: bool = obu_opt.is_none();
            let ghost rest = stream::scan_obus(reader@).units;
            proof {
                lemma_raw_parts_shape(done);
                match inject::obu_model(obu_opt) {
                    None => {
                        assert(all.units =~= done);
                        lemma_raw_end(injection@, job, done);
                    },
                    Some(obu) => {
                        assert(all.units =~= done.push(obu) + rest);
                        lemma_raw_unit(injection@, job, done, obu, rest, all.fault);
                    },
                }
            }
            match injection.inject_obu(obu_opt, metadata_list) {
                Err(e) => {
                    notices.append(&mut injection.notices);
                    return Err(e);
                },
                Ok(out) => {
                    let ghost earlier = writer@;
                    writer.extend_from_slice(out.as_slice());
                    assert(writer@ =~= earlier + out@);
                },
            }
            if is_eof {
                break;
            }
            proof {
                done = done.push(inject::obu_model(obu_opt)->0);
            }
        }
        injection.finish(metadata_list);
        notices.append(&mut injection.notices);
        Ok(())
    }

    /// Puts metadata into a file, which is an IVF file where it starts with the
    /// IVF signature, and a raw stream of units otherwise. An empty list of
    /// metadata is refused.
    pub fn run(
        &self,
        input: Vec<u8>,
        writer: &mut Vec<u8>,
        metadata_list: &[Hdr10PlusJsonMetadata],
        notices: &mut Vec<Notice>,
    ) -> (r: Result<(), Av1Error>)
        ensures
            ({
                let job = Job {
                    entries: metadata::json_models(metadata_list@),
                    validate: self.validate,
                };
                let injected = injected_file(job, input@);
                &&& final(writer)@ == old(writer)@ + injected.stream.written
                &&& final(notices)@ == old(notices)@ + injected.notices
                &&& remove::tells(r, injected.stream.fault)
            }),
    {
        let ghost job = Job {
            entries: metadata::json_models(metadata_list@),
            validate: self.validate,
        };
        let ghost start = writer@;
        assert(start =~= start + Seq::<u8>::empty());
        assert(notices@ =~= notices@ + Seq::<Notice>::empty());
        if metadata_list.len() == 0 {
            return Err(Av1Error::EmptySceneInfo);
        }
        let mut reader = ByteReader::new(input);
        match try_read_ivf_file_header(&mut reader) {
            Err(e) => Err(e),
            Ok(Some(header)) => {
                writer.extend_from_slice(header.as_slice());
                assert(writer@ =~= start + input@.take(IVF_FILE_HEADER_LEN as int));
                let r = self.inject_ivf(reader, writer, metadata_list, notices);
                assert(writer@ =~= start + injected_file(job, input@).stream.written);
                r
            },
            Ok(None) => self.inject_raw(reader, writer, metadata_list, notices),
        }
    }
}

} // verus!
