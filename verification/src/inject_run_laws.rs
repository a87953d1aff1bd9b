//! What an injection writes and tells, from its first step to whole files.

use crate::detect;
use crate::encode;
use crate::error::Av1Error;
use crate::frames;
use crate::frames::FrameScan;
use crate::inject;
use crate::inject::{Injection, InjectionModel, Notice};
use crate::inject_laws;
use crate::inject_stream;
use crate::inject_stream::{Injected, Job};
use crate::ivf;
use crate::metadata::MetadataModel;
use crate::obu;
use crate::obu::ObuModel;
use crate::parser;
use crate::remove::Rewritten;
use crate::stream;
use vstd::prelude::*;

verus! {

// ---------------------------------------------------------------------------
// Single steps
// ---------------------------------------------------------------------------

/// Law: an injection holds what its fields hold.
pub proof fn law_injection_model(injection: Injection)
    ensures
        injection@.validate == injection.validate,
        injection@.tu_index == injection.tu_index,
        injection@.last_encoded is None <==> injection.last_encoded is None,
        injection.last_encoded matches Some(encoded) ==> injection@.last_encoded == Some(encoded@),
        injection@.warned_existing == injection.warned_existing,
        injection@.warned_mismatch == injection.warned_mismatch,
        injection@.notices == injection.notices@,
        injection@.unit == obu::obu_models(injection.unit@),
        injection@.av1_parser == injection.av1_parser@,
{
}

/// Law: a new injection has done nothing and told nothing.
pub proof fn law_new_injection(validate: bool)
    ensures
        ({
            let injection = inject::new_injection(validate);
            &&& injection.validate == validate
            &&& injection.tu_index == 0
            &&& injection.last_encoded is None
            &&& !injection.warned_existing
            &&& !injection.warned_mismatch
            &&& injection.notices.len() == 0
            &&& injection.unit.len() == 0
            &&& injection.av1_parser == parser::new_parser()
        }),
{
}

/// Law: a temporal unit has HDR10+ metadata where it has a unit of it to count.
pub proof fn law_existing_metadata(units: Seq<ObuModel>, validate: bool)
    ensures
        inject::has_hdr10plus(units, validate) <==> !stream::free_of_hdr10plus(units, validate),
{
    if !stream::free_of_hdr10plus(units, validate) {
        let i = choose|i: int|
            0 <= i < units.len() && detect::is_hdr10plus(#[trigger] units[i], validate);
        assert(detect::is_hdr10plus(units[i], validate));
    }
}

/// Law: the next temporal unit gets the next entry, and after the last entry the
/// last encoding again; before the first, without entries, there is none.
pub proof fn law_next_metadata(injection: InjectionModel, entries: Seq<Option<MetadataModel>>)
    ensures
        injection.tu_index < entries.len() ==> inject::next_metadata(injection, entries)
            == encode::encoded_entry(entries[injection.tu_index as int], injection.validate),
        injection.tu_index >= entries.len() ==> (injection.last_encoded matches Some(encoded)
            ==> inject::next_metadata(injection, entries) == Ok::<Seq<u8>, Av1Error>(encoded)),
        injection.tu_index >= entries.len() && injection.last_encoded is None
            ==> inject::next_metadata(injection, entries) == Err::<Seq<u8>, Av1Error>(
            Av1Error::NoMetadataForUnit { tu_index: injection.tu_index as usize },
        ),
{
}

/// Law: a temporal unit that gets metadata is counted and its encoding is kept;
/// one that gets none is not. Either way the user is told, once each and in this
/// order, of existing metadata and of a missing entry, and nothing else changes.
pub proof fn law_unit_step(
    injection: InjectionModel,
    units: Seq<ObuModel>,
    entries: Seq<Option<MetadataModel>>,
)
    ensures
        ({
            let after = inject::after_unit(injection, units, entries);
            let existing = !stream::free_of_hdr10plus(units, injection.validate);
            let missing = injection.tu_index >= entries.len();
            let tell_existing = existing && !injection.warned_existing;
            let tell_missing = missing && !injection.warned_mismatch;
            let more = Notice::MoreFrames { entries: entries.len() as usize };
            &&& inject::next_metadata(injection, entries) matches Ok(encoded) ==> {
                &&& after.tu_index == injection.tu_index + 1
                &&& after.last_encoded == Some(encoded)
            }
            &&& inject::next_metadata(injection, entries) is Err ==> {
                &&& after.tu_index == injection.tu_index
                &&& after.last_encoded == injection.last_encoded
            }
            &&& after.warned_existing == (injection.warned_existing || existing)
            &&& after.warned_mismatch == (injection.warned_mismatch || missing)
            &&& tell_existing && tell_missing ==> after.notices == injection.notices.push(
                Notice::ExistingMetadata,
            ).push(more)
            &&& tell_existing && !tell_missing ==> after.notices == injection.notices.push(
                Notice::ExistingMetadata,
            )
            &&& !tell_existing && tell_missing ==> after.notices == injection.notices.push(more)
            &&& !tell_existing && !tell_missing ==> after.notices == injection.notices
            &&& after.validate == injection.validate
            &&& after.unit == injection.unit
            &&& after.av1_parser == injection.av1_parser
        }),
{
    law_existing_metadata(units, injection.validate);
    let after = inject::after_unit(injection, units, entries);
    let more = Notice::MoreFrames { entries: entries.len() as usize };
    let both = injection.notices.push(Notice::ExistingMetadata).push(more);
    assert(both =~= injection.notices + (seq![Notice::ExistingMetadata] + seq![more]));
    assert(injection.notices.push(more) =~= injection.notices + (Seq::empty() + seq![more]));
    assert(injection.notices.push(Notice::ExistingMetadata) =~= injection.notices + (
    seq![Notice::ExistingMetadata] + Seq::empty()));
    assert(injection.notices =~= injection.notices + (Seq::<Notice>::empty() + Seq::empty()));
}

/// Law: a unit of a raw stream that is no temporal delimiter is written at once
/// before the first delimiter, and is added to the collected temporal unit after
/// it. Nothing else changes but the parser, which takes the unit in.
pub proof fn law_raw_step_within_a_unit(
    injection: InjectionModel,
    obu: ObuModel,
    entries: Seq<Option<MetadataModel>>,
)
    requires
        obu.obu_type != 2,
    ensures
        inject::raw_output(injection, Some(obu), entries) == Ok::<Seq<u8>, Av1Error>(
            if injection.unit.len() == 0 {
                obu.raw_bytes
            } else {
                Seq::empty()
            },
        ),
        inject::after_raw(injection, Some(obu), entries) == (InjectionModel {
            unit: if injection.unit.len() == 0 {
                injection.unit
            } else {
                injection.unit.push(obu)
            },
            av1_parser: parser::after_obu(injection.av1_parser, obu),
            ..injection
        }),
{
}

/// Law: a temporal delimiter lets the collected temporal unit out with its
/// metadata, and begins the next; where there is no metadata for the unit, the
/// unit stays and the fault is told. The first delimiter lets nothing out.
pub proof fn law_raw_step_at_a_delimiter(
    injection: InjectionModel,
    obu: ObuModel,
    entries: Seq<Option<MetadataModel>>,
)
    requires
        obu.obu_type == 2,
    ensures
        ({
            let out = inject::raw_output(injection, Some(obu), entries);
            let after = inject::after_raw(injection, Some(obu), entries);
            let flushed = inject::after_unit(injection, injection.unit, entries);
            let parsed = parser::after_obu(injection.av1_parser, obu);
            &&& injection.unit.len() == 0 ==> {
                &&& out == Ok::<Seq<u8>, Av1Error>(Seq::empty())
                &&& after == (InjectionModel { unit: seq![obu], av1_parser: parsed, ..injection })
            }
            &&& injection.unit.len() > 0 ==> {
                &&& inject::next_metadata(injection, entries) matches Ok(encoded) ==> {
                    &&& out == Ok::<Seq<u8>, Av1Error>(
                        inject::injected_bytes(injection.unit, encoded, injection.validate),
                    )
                    &&& after == (InjectionModel { unit: seq![obu], av1_parser: parsed, ..flushed })
                }
                &&& inject::next_metadata(injection, entries) matches Err(e) ==> {
                    &&& out == Err::<Seq<u8>, Av1Error>(e)
                    &&& after == flushed
                }
            }
        }),
{
}

/// Law: the end of a raw stream lets the collected temporal unit out with its
/// metadata; without one it lets nothing out and changes nothing.
pub proof fn law_raw_step_at_the_end(
    injection: InjectionModel,
    entries: Seq<Option<MetadataModel>>,
)
    ensures
        ({
            let out = inject::raw_output(injection, None, entries);
            let after = inject::after_raw(injection, None, entries);
            let flushed = inject::after_unit(injection, injection.unit, entries);
            &&& injection.unit.len() == 0 ==> {
                &&& out == Ok::<Seq<u8>, Av1Error>(Seq::empty())
                &&& after == injection
            }
            &&& injection.unit.len() > 0 ==> {
                &&& inject::next_metadata(injection, entries) matches Ok(encoded) ==> {
                    &&& out == Ok::<Seq<u8>, Av1Error>(
                        inject::injected_bytes(injection.unit, encoded, injection.validate),
                    )
                    &&& after == (InjectionModel { unit: Seq::empty(), ..flushed })
                }
                &&& inject::next_metadata(injection, entries) matches Err(e) ==> {
                    &&& out == Err::<Seq<u8>, Av1Error>(e)
                    &&& after == flushed
                }
            }
        }),
{
    assert(injection.unit.len() == 0 ==> injection.unit =~= Seq::empty());
}

/// Law: entries that were not used are told of at the end, with both numbers;
/// otherwise nothing is.
pub proof fn law_excess_is_told(entries: nat, frames: nat)
    ensures
        frames < entries ==> inject::excess_notices(entries, frames) == seq![
            Notice::ExcessMetadata { entries: entries as usize, frames: frames as usize },
        ],
        frames >= entries ==> inject::excess_notices(entries, frames).len() == 0,
{
}

/// Law: without entries there is no metadata for any temporal unit.
pub proof fn law_no_entries(validate: bool, index: nat)
    ensures
        inject::unit_metadata(Seq::empty(), validate, index) == Err::<Seq<u8>, Av1Error>(
            Av1Error::NoMetadataForUnit { tu_index: index as usize },
        ),
{
}

// ---------------------------------------------------------------------------
// Step by step through a stream
// ---------------------------------------------------------------------------

/// An injection after the first `n` temporal units, one step for each.
pub open spec fn after_units(job: Job, units: Seq<Seq<ObuModel>>, n: nat) -> InjectionModel
    decreases n,
{
    if n == 0 {
        inject::new_injection(job.validate)
    } else {
        inject::after_unit(
            after_units(job, units, (n - 1) as nat),
            units[n - 1],
            job.entries,
        )
    }
}

/// Law: step by step, each temporal unit gets the metadata that its index alone
/// decides on, and the user has been told what the whole stream up to there asks
/// for.
pub proof fn law_units_step_by_step(job: Job, units: Seq<Seq<ObuModel>>, n: nat)
    requires
        n <= inject_stream::served(job, units.len()),
    ensures
        ({
            let injection = after_units(job, units, n);
            &&& injection.tu_index == n
            &&& injection.notices == inject_stream::unit_notices(job, units, n)
            &&& n < units.len() ==> inject::next_metadata(injection, job.entries)
                == inject::unit_metadata(job.entries, job.validate, n)
        }),
{
    lemma_after_units(job, units, n);
    if n < units.len() {
        inject_stream::lemma_after_unit(after_units(job, units, n), job, units, n);
    }
}

/// The state of an injection after the first `n` temporal units.
proof fn lemma_after_units(job: Job, units: Seq<Seq<ObuModel>>, n: nat)
    requires
        n <= inject_stream::served(job, units.len()),
    ensures
        inject_stream::is_after(after_units(job, units, n), job, units, n),
    decreases n,
{
    inject_laws::law_served_units(job, units.len());
    if n > 0 {
        let k = (n - 1) as nat;
        lemma_after_units(job, units, k);
        inject_stream::lemma_after_unit(after_units(job, units, k), job, units, k);
        assert(inject::unit_metadata(job.entries, job.validate, k) is Ok);
    }
}

/// An injection into a raw stream, step by step.
#[verifier::ext_equal]
pub struct RawRun {
    pub injection: InjectionModel,
    pub written: Seq<u8>,
    pub fault: Option<Av1Error>,
}

/// An injection into a raw stream after some units, one step for each, up to the
/// first that fails.
pub open spec fn after_obus(job: Job, obus: Seq<ObuModel>) -> RawRun
    decreases obus.len(),
{
    if obus.len() == 0 {
        RawRun {
            injection: inject::new_injection(job.validate),
            written: Seq::empty(),
            fault: None,
        }
    } else {
        let before = after_obus(job, obus.drop_last());
        let next = Some(obus.last());
        if before.fault is Some {
            before
        } else {
            match inject::raw_output(before.injection, next, job.entries) {
                Ok(out) => RawRun {
                    injection: inject::after_raw(before.injection, next, job.entries),
                    written: before.written + out,
                    fault: None,
                },
                Err(e) => RawRun {
                    injection: inject::after_raw(before.injection, next, job.entries),
                    written: before.written,
                    fault: Some(e),
                },
            }
        }
    }
}

/// The state of an injection into a raw stream, step by step.
proof fn lemma_after_obus(job: Job, obus: Seq<ObuModel>)
    ensures
        ({
            let run = after_obus(job, obus);
            run.fault is None ==> {
                &&& inject_stream::is_within(run.injection, job, obus)
                &&& run.written == inject_stream::raw_written(job, obus)
                &&& run.injection.av1_parser == parser::after_obus(parser::new_parser(), obus)
            }
        }),
    decreases obus.len(),
{
    if obus.len() == 0 {
        assert(inject_stream::raw_written(job, obus) =~= Seq::empty());
    } else {
        let front = obus.drop_last();
        lemma_after_obus(job, front);
        let before = after_obus(job, front);
        if before.fault is None {
            inject_stream::lemma_raw_unit(
                before.injection,
                job,
                front,
                obus.last(),
                Seq::empty(),
                None,
            );
            assert(front.push(obus.last()) =~= obus);
        }
    }
}

/// Law: step by step through a raw stream, what is written, told and reported is
/// what the whole stream asks for: at its end, at a fault of the stream, and at
/// the first temporal unit that can get no metadata, whatever follows it. The
/// parser has taken in every unit.
pub proof fn law_raw_step_by_step(
    job: Job,
    obus: Seq<ObuModel>,
    rest: Seq<ObuModel>,
    fault: Option<Av1Error>,
)
    ensures
        ({
            let run = after_obus(job, obus);
            let after = inject::after_raw(run.injection, None, job.entries);
            &&& run.fault is Some ==> inject_stream::raw_outcome(job, obus + rest, fault) == (
            Injected {
                stream: Rewritten { written: run.written, fault: run.fault },
                notices: run.injection.notices,
            })
            &&& run.fault is None ==> run.injection.av1_parser == parser::after_obus(
                parser::new_parser(),
                obus,
            )
            &&& run.fault is None && fault is Some ==> inject_stream::raw_outcome(job, obus, fault)
                == (Injected {
                stream: Rewritten { written: run.written, fault },
                notices: run.injection.notices,
            })
            &&& run.fault is None ==> match inject::raw_output(run.injection, None, job.entries) {
                Ok(out) => inject_stream::raw_outcome(job, obus, None) == (Injected {
                    stream: Rewritten { written: run.written + out, fault: None },
                    notices: after.notices + inject::excess_notices(
                        job.entries.len(),
                        after.tu_index,
                    ),
                }),
                Err(e) => inject_stream::raw_outcome(job, obus, None) == (Injected {
                    stream: Rewritten { written: run.written, fault: Some(e) },
                    notices: after.notices,
                }),
            }
        }),
    decreases obus.len(),
{
    let run = after_obus(job, obus);
    lemma_after_obus(job, obus);
    if run.fault is None {
        inject_stream::lemma_raw_fault(run.injection, job, obus);
        inject_stream::lemma_raw_end(run.injection, job, obus);
    } else {
        let front = obus.drop_last();
        let before = after_obus(job, front);
        assert(obus + rest =~= front + (seq![obus.last()] + rest));
        law_raw_step_by_step(job, front, seq![obus.last()] + rest, fault);
        if before.fault is None {
            lemma_after_obus(job, front);
            inject_stream::lemma_raw_unit(before.injection, job, front, obus.last(), rest, fault);
            assert(front.push(obus.last()) + rest =~= obus + rest);
        }
    }
}

// ---------------------------------------------------------------------------
// What is written of streams
// ---------------------------------------------------------------------------

/// Law: an injection fails only where an entry that is used cannot be encoded,
/// with that entry's fault, or where its stream has a fault, with that one.
pub proof fn law_faults_of_an_injection(
    job: Job,
    units: Seq<Seq<ObuModel>>,
    written: Seq<u8>,
    fault: Option<Av1Error>,
)
    ensures
        ({
            let stream = inject_stream::outcome(job, units, written, fault).stream;
            let n = inject_stream::served(job, units.len());
            &&& stream.written == written
            &&& n == units.len() ==> stream.fault == fault
            &&& n < units.len() ==> (inject::unit_metadata(job.entries, job.validate, n)
                matches Err(e) && stream.fault == Some(e))
        }),
{
    inject_laws::law_served_units(job, units.len());
}

/// Law: of the frames of an IVF file, injection writes the frames that get their
/// metadata, each with its own timestamp, its new length and its metadata, in
/// their order, and nothing else.
pub proof fn law_injection_of_ivf(job: Job, bytes: Seq<u8>)
    ensures
        ({
            let read = frames::scan_frames(bytes).frames;
            let n = inject_stream::served(job, read.len());
            inject_stream::injected_ivf(job, bytes).stream.written == frames::concat_frames(
                frames::frames_data(inject_laws::injected_frame_models(job, read, n)),
            )
        }),
        inject_stream::injected_ivf(job, bytes) == inject_stream::outcome(
            job,
            Seq::new(
                frames::scan_frames(bytes).frames.len(),
                |i: int| frames::scan_frames(bytes).frames[i].obus,
            ),
            inject_stream::injected_ivf(job, bytes).stream.written,
            frames::scan_frames(bytes).fault,
        ),
{
    let read = frames::scan_frames(bytes).frames;
    let n = inject_stream::served(job, read.len());
    let a = inject_stream::injected_frames(job, read, n);
    let b = frames::frames_data(inject_laws::injected_frame_models(job, read, n));
    assert forall|i: int| 0 <= i < n implies a[i] == b[i] by {
        inject_laws::lemma_served_entry(job, read.len(), i as nat);
        inject_laws::law_injected_bytes(
            read[i].obus,
            inject_laws::obu_for(job, i as nat),
            job.validate,
        );
    }
    assert(a =~= b);
}

/// Law: of a raw stream, injection writes the units before the first temporal
/// delimiter and then the temporal units that get their metadata, with it, in
/// their order, and nothing else.
pub proof fn law_injection_of_raw(job: Job, bytes: Seq<u8>)
    ensures
        inject_stream::injected_raw(job, bytes).stream.written == stream::concat_raw(
            inject_stream::raw_parts(stream::scan_obus(bytes).units).prelude
                + inject_laws::concat_units(inject_laws::injected_raw_models(job, bytes)),
        ),
        inject_stream::injected_raw(job, bytes) == inject_stream::outcome(
            job,
            inject_stream::complete_units(stream::scan_obus(bytes)),
            inject_stream::injected_raw(job, bytes).stream.written,
            stream::scan_obus(bytes).fault,
        ),
{
    inject_laws::law_injected_raw_reads_back(job, bytes);
}

/// Law: all temporal units of a raw stream are complete at its end; at a fault
/// the last one is not.
pub proof fn law_complete_units(scan: stream::ObuScan)
    ensures
        ({
            let units = inject_stream::raw_parts(scan.units).units;
            let complete = inject_stream::complete_units(scan);
            &&& scan.fault is None ==> complete == units
            &&& scan.fault is Some && units.len() > 0 ==> complete.push(units.last()) == units
            &&& units.len() == 0 ==> complete.len() == 0
        }),
{
    let units = inject_stream::raw_parts(scan.units).units;
    if units.len() > 0 {
        assert(units.drop_last().push(units.last()) =~= units);
    }
}

// ---------------------------------------------------------------------------
// What the user is told
// ---------------------------------------------------------------------------

/// Law: existing metadata is there where one of the temporal units has it.
pub proof fn law_any_existing(job: Job, units: Seq<Seq<ObuModel>>, n: nat)
    ensures
        inject_stream::any_existing(job, units, n) <==> exists|i: int|
            0 <= i < n && !stream::free_of_hdr10plus(#[trigger] units[i], job.validate),
{
    assert forall|i: int| inject::has_hdr10plus(#[trigger] units[i], job.validate)
        == !stream::free_of_hdr10plus(units[i], job.validate) by {
        law_existing_metadata(units[i], job.validate);
    }
    if inject_stream::any_existing(job, units, n) {
        let i = choose|i: int|
            0 <= i < n && inject::has_hdr10plus(#[trigger] units[i], job.validate);
        assert(!stream::free_of_hdr10plus(units[i], job.validate));
    }
}

/// Law: of the first `n` temporal units the user is told at most two things: of
/// existing metadata, where one of them has any, and of more temporal units than
/// entries, where there are more. The first that shows comes first, and existing
/// metadata where both show at the same temporal unit.
pub proof fn law_order_of_notices(job: Job, units: Seq<Seq<ObuModel>>, n: nat)
    ensures
        ({
            let notices = inject_stream::unit_notices(job, units, n);
            let entries = job.entries.len();
            let existing = inject_stream::any_existing(job, units, n);
            let early = inject_stream::any_existing(job, units, entries + 1);
            let told = Notice::ExistingMetadata;
            let more = Notice::MoreFrames { entries: entries as usize };
            &&& !existing && n <= entries ==> notices == Seq::<Notice>::empty()
            &&& existing && n <= entries ==> notices == seq![told]
            &&& !existing && n > entries ==> notices == seq![more]
            &&& existing && n > entries && early ==> notices == seq![told, more]
            &&& existing && n > entries && !early ==> notices == seq![more, told]
        }),
    decreases n,
{
    if n > 0 {
        let k = (n - 1) as nat;
        let entries = job.entries.len();
        law_order_of_notices(job, units, k);
        let here = inject::has_hdr10plus(units[k as int], job.validate);
        lemma_any_existing_grows(job, units, k);
        if k > entries {
            lemma_any_existing_up_to(job, units, entries + 1, k);
        }
        let notices = inject_stream::unit_notices(job, units, n);
        let before = inject_stream::unit_notices(job, units, k);
        let told = Notice::ExistingMetadata;
        let more = Notice::MoreFrames { entries: entries as usize };
        let known = inject_stream::any_existing(job, units, k);
        if here && !known {
            if k == entries {
                assert(notices =~= seq![told, more]);
            } else if k < entries {
                assert(notices =~= seq![told]);
            } else {
                assert(notices =~= seq![more, told]);
            }
        } else if k == entries {
            assert(notices =~= before + seq![more]);
            assert(known ==> notices =~= seq![told, more]);
            assert(!known ==> notices =~= seq![more]);
        } else {
            assert(notices =~= before);
        }
    } else {
        assert(!inject_stream::any_existing(job, units, 0));
    }
}

/// Existing metadata in one more temporal unit.
proof fn lemma_any_existing_grows(job: Job, units: Seq<Seq<ObuModel>>, k: nat)
    ensures
        inject_stream::any_existing(job, units, k + 1) == (inject_stream::any_existing(
            job,
            units,
            k,
        ) || inject::has_hdr10plus(units[k as int], job.validate)),
{
    if inject_stream::any_existing(job, units, k) {
        let i = choose|i: int|
            0 <= i < k && inject::has_hdr10plus(#[trigger] units[i], job.validate);
        assert(inject::has_hdr10plus(units[i], job.validate));
    }
}

/// Existing metadata in more temporal units.
proof fn lemma_any_existing_up_to(job: Job, units: Seq<Seq<ObuModel>>, a: nat, b: nat)
    requires
        a <= b,
    ensures
        inject_stream::any_existing(job, units, a) ==> inject_stream::any_existing(job, units, b),
{
    if inject_stream::any_existing(job, units, a) {
        let i = choose|i: int|
            0 <= i < a && inject::has_hdr10plus(#[trigger] units[i], job.validate);
        assert(inject::has_hdr10plus(units[i], job.validate));
    }
}

/// Law: an injection tells of the temporal units up to the one that can get no
/// metadata, that one among them. Only one that comes to the end of its stream
/// tells of entries that were not used.
pub proof fn law_notices_of_an_injection(
    job: Job,
    units: Seq<Seq<ObuModel>>,
    written: Seq<u8>,
    fault: Option<Av1Error>,
)
    ensures
        ({
            let notices = inject_stream::outcome(job, units, written, fault).notices;
            let n = inject_stream::served(job, units.len());
            let total = units.len();
            &&& n < total ==> notices == inject_stream::unit_notices(job, units, n + 1)
            &&& n == total && fault is Some ==> notices == inject_stream::unit_notices(
                job,
                units,
                total,
            )
            &&& n == total && fault is None && total >= job.entries.len() ==> notices
                == inject_stream::unit_notices(job, units, total)
            &&& n == total && fault is None && total < job.entries.len() ==> notices
                == inject_stream::unit_notices(job, units, total).push(
                Notice::ExcessMetadata {
                    entries: job.entries.len() as usize,
                    frames: total as usize,
                },
            )
        }),
{
    inject_laws::law_served_units(job, units.len());
    let total = units.len();
    let before = inject_stream::unit_notices(job, units, total);
    let excess = Notice::ExcessMetadata {
        entries: job.entries.len() as usize,
        frames: total as usize,
    };
    assert(before.push(excess) =~= before + seq![excess]);
    assert(before + Seq::<Notice>::empty() =~= before);
}

// ---------------------------------------------------------------------------
// Files
// ---------------------------------------------------------------------------

/// A file that starts with `DKIF`.
pub open spec fn starts_with_dkif(file: Seq<u8>) -> bool {
    file.len() >= 4 && file[0] == 0x44 && file[1] == 0x4B && file[2] == 0x49 && file[3] == 0x46
}

/// Law: an empty list of metadata is refused before anything is written or told.
pub proof fn law_empty_list_is_refused(job: Job, file: Seq<u8>)
    requires
        job.entries.len() == 0,
    ensures
        inject_stream::injected_file(job, file).stream.written.len() == 0,
        inject_stream::injected_file(job, file).stream.fault == Some(Av1Error::EmptySceneInfo),
        inject_stream::injected_file(job, file).notices.len() == 0,
{
}

/// Law: of a file that starts with `DKIF`, the first 32 bytes are written as they
/// are, whatever they hold, and then the frames after them with their metadata.
/// A file of less than 32 bytes is refused.
pub proof fn law_injection_of_ivf_file(job: Job, file: Seq<u8>)
    requires
        job.entries.len() > 0,
        starts_with_dkif(file),
    ensures
        ({
            let injected = inject_stream::injected_file(job, file);
            let rest = inject_stream::injected_ivf(job, file.skip(32));
            &&& file.len() >= 32 ==> {
                &&& injected.stream.written.len() >= 32
                &&& injected.stream.written.take(32) == file.take(32)
                &&& injected.stream.written.skip(32) == rest.stream.written
                &&& injected.stream.fault == rest.stream.fault
                &&& injected.notices == rest.notices
            }
            &&& file.len() < 32 ==> {
                &&& injected.stream.written.len() == 0
                &&& injected.stream.fault == Some(Av1Error::UnexpectedEof)
                &&& injected.notices.len() == 0
            }
        }),
{
    ivf::law_signature(file);
    if file.len() >= 32 {
        let written = inject_stream::injected_file(job, file).stream.written;
        assert(written.take(32) =~= file.take(32));
        assert(written.skip(32) =~= inject_stream::injected_ivf(
            job,
            file.skip(32),
        ).stream.written);
    }
}

/// Law: a file that does not start with `DKIF` is taken for a raw stream.
pub proof fn law_injection_of_raw_file(job: Job, file: Seq<u8>)
    requires
        job.entries.len() > 0,
        !starts_with_dkif(file),
    ensures
        inject_stream::injected_file(job, file) == inject_stream::injected_raw(job, file),
{
    ivf::law_signature(file);
}

/// Law: injection succeeds on every IVF file of at least 32 bytes whose frames
/// are read without a fault, where the entries that are used can be encoded. The
/// first 32 bytes are kept, and what is written after them is every frame with
/// its timestamp and its metadata, which is read back as such where the lengths
/// fit.
pub proof fn law_injection_succeeds_on_ivf_files(job: Job, file: Seq<u8>)
    requires
        job.entries.len() > 0,
        starts_with_dkif(file),
        file.len() >= 32,
        frames::scan_frames(file.skip(32)).fault is None,
        inject_laws::used_are_encodable(job, frames::scan_frames(file.skip(32)).frames.len()),
    ensures
        ({
            let read = frames::scan_frames(file.skip(32)).frames;
            let models = inject_laws::injected_frame_models(job, read, read.len());
            let stream = inject_stream::injected_file(job, file).stream;
            &&& stream.fault is None
            &&& stream.written.take(32) == file.take(32)
            &&& stream.written.skip(32) == frames::concat_frames(frames::frames_data(models))
            &&& inject_laws::frame_lengths_fit(job, read, read.len()) ==> frames::scan_frames(
                stream.written.skip(32),
            ) == (FrameScan { frames: models, fault: None::<Av1Error> })
        }),
{
    let body = file.skip(32);
    let read = frames::scan_frames(body).frames;
    law_injection_of_ivf_file(job, file);
    inject_laws::law_served_units(job, read.len());
    law_injection_of_ivf(job, body);
    if inject_laws::frame_lengths_fit(job, read, read.len()) {
        inject_laws::law_injected_ivf_reads_back(job, body);
    }
}

/// Law: injection succeeds on every raw file that is read without a fault, where
/// the entries that are used can be encoded. What is written is the units before
/// the first temporal delimiter and then every temporal unit with its metadata,
/// and it is read back as such.
pub proof fn law_injection_succeeds_on_raw_files(job: Job, file: Seq<u8>)
    requires
        job.entries.len() > 0,
        !starts_with_dkif(file),
        stream::scan_obus(file).fault is None,
        inject_laws::used_are_encodable(
            job,
            inject_stream::raw_parts(stream::scan_obus(file).units).units.len(),
        ),
    ensures
        ({
            let parts = inject_stream::raw_parts(stream::scan_obus(file).units);
            let models = inject_laws::injected_unit_models(job, parts.units, parts.units.len());
            let stream = inject_stream::injected_file(job, file).stream;
            let obus = parts.prelude + inject_laws::concat_units(models);
            &&& stream.fault is None
            &&& stream.written == stream::concat_raw(obus)
            &&& stream::scan_obus(stream.written) == (stream::ObuScan {
                units: obus,
                fault: None::<Av1Error>,
            })
        }),
{
    let n = inject_stream::raw_parts(stream::scan_obus(file).units).units.len();
    law_injection_of_raw_file(job, file);
    inject_laws::law_served_units(job, n);
    law_injection_of_raw(job, file);
    inject_laws::law_injected_raw_reads_back(job, file);
}

} // verus!
