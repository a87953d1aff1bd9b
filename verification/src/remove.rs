//! Removal of HDR10+ metadata from a stream.

use crate::detect::is_hdr10plus_obu;
use crate::error::Av1Error;
use crate::frames;
use crate::frames::{read_ivf_frame, write_ivf_frame, FrameData, FrameModel};
use crate::ivf;
use crate::ivf::{try_read_ivf_file_header, IVF_FILE_HEADER_LEN};
use crate::obu;
use crate::obu::{Obu, ObuModel};
use crate::reader::ByteReader;
use crate::stream;
use vstd::prelude::*;

verus! {

/// What rewriting a stream gives: the bytes written, and the fault that stopped
/// the rewriting, if there was one.
#[verifier::ext_equal]
pub struct Rewritten {
    pub written: Seq<u8>,
    pub fault: Option<Av1Error>,
}

/// The bytes of units without those that are HDR10+ metadata.
pub open spec fn removed_bytes(units: Seq<ObuModel>, validate: bool) -> Seq<u8> {
    stream::concat_raw(stream::without_hdr10plus(units, validate))
}

/// Frames without HDR10+ metadata.
pub open spec fn removed_frames(frames: Seq<FrameModel>, validate: bool) -> Seq<FrameData> {
    Seq::new(
        frames.len(),
        |i: int|
            FrameData {
                timestamp: frames[i].timestamp,
                data: removed_bytes(frames[i].obus, validate),
            },
    )
}

/// What removal makes of a raw stream of units.
pub open spec fn removed_raw(stream: Seq<u8>, validate: bool) -> Rewritten {
    let scan = stream::scan_obus(stream);
    Rewritten { written: removed_bytes(scan.units, validate), fault: scan.fault }
}

/// What removal makes of the frames of an IVF file.
pub open spec fn removed_ivf(stream: Seq<u8>, validate: bool) -> Rewritten {
    let scan = frames::scan_frames(stream);
    Rewritten {
        written: frames::concat_frames(removed_frames(scan.frames, validate)),
        fault: scan.fault,
    }
}

/// What removal makes of a file. The file header of an IVF file is kept.
pub open spec fn removed_file(file: Seq<u8>, validate: bool) -> Rewritten {
    if !ivf::starts_with_signature(file) {
        removed_raw(file, validate)
    } else if file.len() < IVF_FILE_HEADER_LEN {
        Rewritten { written: Seq::empty(), fault: Some(Av1Error::UnexpectedEof) }
    } else {
        let rest = removed_ivf(file.skip(IVF_FILE_HEADER_LEN as int), validate);
        Rewritten {
            written: file.take(IVF_FILE_HEADER_LEN as int) + rest.written,
            fault: rest.fault,
        }
    }
}

/// Whether a result tells of the fault.
pub open spec fn tells(r: Result<(), Av1Error>, fault: Option<Av1Error>) -> bool {
    match r {
        Ok(()) => fault is None,
        Err(e) => fault == Some(e),
    }
}

/// Takes HDR10+ metadata out of streams.
pub struct Remover {
    /// Only metadata of a valid application version counts as HDR10+.
    pub validate: bool,
}

impl Remover {
    /// The bytes of the units of one frame that are no HDR10+ metadata.
    pub fn output_frame(&self, obus: &[Obu]) -> (out: Vec<u8>)
        ensures
            out@ == removed_bytes(obu::obu_models(obus@), self.validate),
    {
        let mut out: Vec<u8> = Vec::new();
        let mut i: usize = 0;
        let ghost units = obu::obu_models(obus@);
        assert(out@ == removed_bytes(units.take(0), self.validate)) by {
            reveal(Seq::filter);
        }
        while i < obus.len()
            invariant
                i <= obus@.len(),
                units == obu::obu_models(obus@),
                out@ == removed_bytes(units.take(i as int), self.validate),
            decreases obus@.len() - i,
        {
            let obu = &obus[i];
            proof {
                assert(units.take(i + 1) =~= units.take(i as int).push(obu@));
                stream::lemma_without_push(units.take(i as int), obu@, self.validate);
                let kept = stream::without_hdr10plus(units.take(i as int), self.validate);
                assert(kept.push(obu@).drop_last() =~= kept);
            }
            if !is_hdr10plus_obu(obu, self.validate) {
                let ghost before = out@;
                out.extend_from_slice(obu.raw_bytes.as_slice());
                assert(out@ =~= before + obu@.raw_bytes);
            }
            i = i + 1;
        }
        assert(units.take(i as int) =~= units);
        out
    }

    /// Rewrites a raw stream of units.
    pub fn remove_raw(&self, input: ByteReader, writer: &mut Vec<u8>) -> (r: Result<(), Av1Error>)
        ensures
            final(writer)@ == old(writer)@ + removed_raw(input@, self.validate).written,
            tells(r, removed_raw(input@, self.validate).fault),
    {
        let ghost all = stream::scan_obus(input@);
        let ghost start = writer@;
        let mut reader: ByteReader = input;
        let ghost mut done: Seq<ObuModel> = Seq::empty();
        proof {
            reveal(Seq::filter);
            assert(all.units =~= done + stream::scan_obus(reader@).units);
            assert(start =~= start + removed_bytes(done, self.validate));
        }
        loop
            invariant
                all == stream::scan_obus(input@),
                start == old(writer)@,
                all.units == done + stream::scan_obus(reader@).units,
                all.fault == stream::scan_obus(reader@).fault,
                writer@ == start + removed_bytes(done, self.validate),
            ensures
                all.units == done,
                all.fault is None,
                writer@ == start + removed_bytes(done, self.validate),
            decreases reader@.len(),
        {
            let ghost before = reader@;
            proof {
                if obu::parse_obu(before) matches Ok(Some(_)) {
                    obu::law_unit_delimits_itself(before, Seq::empty());
                }
            }
            match Obu::read_from(&mut reader) {
                Ok(Some(obu)) => {
                    let ghost kept = stream::without_hdr10plus(done, self.validate);
                    proof {
                        stream::lemma_without_push(done, obu@, self.validate);
                        assert(kept.push(obu@).drop_last() =~= kept);
                    }
                    if !is_hdr10plus_obu(&obu, self.validate) {
                        writer.extend_from_slice(obu.raw_bytes.as_slice());
                        assert(writer@ =~= start + (stream::concat_raw(kept) + obu@.raw_bytes));
                    }
                    proof {
                        done = done.push(obu@);
                        assert(all.units =~= done + stream::scan_obus(reader@).units);
                    }
                },
                Ok(None) => {
                    assert(all.units =~= done);
                    break;
                },
                Err(e) => {
                    assert(all.units =~= done);
                    return Err(e);
                },
            }
        }
        Ok(())
    }

    /// Rewrites the frames of an IVF file. The frame headers give the new
    /// sizes.
    pub fn remove_ivf(&self, input: ByteReader, writer: &mut Vec<u8>) -> (r: Result<(), Av1Error>)
        ensures
            final(writer)@ == old(writer)@ + removed_ivf(input@, self.validate).written,
            tells(r, removed_ivf(input@, self.validate).fault),
    {
        let ghost all = frames::scan_frames(input@);
        let ghost start = writer@;
        let mut reader: ByteReader = input;
        let ghost mut done: Seq<FrameModel> = Seq::empty();
        proof {
            assert(all.frames =~= done + frames::scan_frames(reader@).frames);
            assert(start =~= start + frames::concat_frames(removed_frames(done, self.validate)));
        }
        loop
            invariant
                all == frames::scan_frames(input@),
                start == old(writer)@,
                all.frames == done + frames::scan_frames(reader@).frames,
                all.fault == frames::scan_frames(reader@).fault,
                writer@ == start + frames::concat_frames(removed_frames(done, self.validate)),
            ensures
                all.frames == done,
                all.fault is None,
                writer@ == start + frames::concat_frames(removed_frames(done, self.validate)),
            decreases reader@.len(),
        {
            match read_ivf_frame(&mut reader) {
                Ok(Some(frame)) => {
                    let ghost earlier = removed_frames(done, self.validate);
                    let output_frame = self.output_frame(frame.obus.as_slice());
                    match write_ivf_frame(writer, frame.timestamp, output_frame.as_slice()) {
                        Ok(()) => {},
                        Err(e) => return Err(e),
                    }
                    proof {
                        done = done.push(frame@);
                        assert(all.frames =~= done + frames::scan_frames(reader@).frames);
                        assert(removed_frames(done, self.validate).drop_last() =~= earlier);
                        assert(writer@ =~= start + (frames::concat_frames(earlier)
                            + frames::frame_bytes(frame.timestamp, output_frame@)));
                    }
                },
                Ok(None) => {
                    assert(all.frames =~= done);
                    break;
                },
                Err(e) => {
                    assert(all.frames =~= done);
                    return Err(e);
                },
            }
        }
        Ok(())
    }

    /// Rewrites a file, which is an IVF file where it starts with the IVF
    /// signature, and a raw stream of units otherwise.
    pub fn run(&self, input: Vec<u8>, writer: &mut Vec<u8>) -> (r: Result<(), Av1Error>)
        ensures
            final(writer)@ == old(writer)@ + removed_file(input@, self.validate).written,
            tells(r, removed_file(input@, self.validate).fault),
    {
        let mut reader = ByteReader::new(input);
        let ghost start = writer@;
        match try_read_ivf_file_header(&mut reader) {
            Err(e) => {
                assert(start =~= start + Seq::<u8>::empty());
                Err(e)
            },
            Ok(Some(header)) => {
                writer.extend_from_slice(header.as_slice());
                assert(writer@ =~= start + input@.take(IVF_FILE_HEADER_LEN as int));
                let r = self.remove_ivf(reader, writer);
                assert(writer@ =~= start + removed_file(input@, self.validate).written);
                r
            },
            Ok(None) => self.remove_raw(reader, writer),
        }
    }
}

} // verus!
