//! Runs of IVF frames, each of them one temporal unit.

use crate::error::Av1Error;
use crate::ivf;
use crate::ivf::{read_ivf_frame_header, write_ivf_frame_header, IVF_FRAME_HEADER_LEN};
use crate::obu;
use crate::obu::{Obu, ObuModel};
use crate::reader::ByteReader;
use crate::stream;
use crate::stream::read_obus_from_ivf_frame;
use vstd::prelude::*;

verus! {

/// One IVF frame: its timestamp and its units.
pub struct IvfFrame {
    pub timestamp: u64,
    pub obus: Vec<Obu>,
}

/// What an [`IvfFrame`] holds.
#[verifier::ext_equal]
pub struct FrameModel {
    pub timestamp: u64,
    pub obus: Seq<ObuModel>,
}

impl View for IvfFrame {
    type V = FrameModel;

    open spec fn view(&self) -> FrameModel {
        FrameModel { timestamp: self.timestamp, obus: obu::obu_models(self.obus@) }
    }
}

/// How many bytes the frame at the start of `bytes` takes with its header.
pub open spec fn frame_len(bytes: Seq<u8>) -> nat {
    IVF_FRAME_HEADER_LEN as nat + ivf::header_frame_size(bytes)
}

/// The units in the frame at the start of `bytes`.
pub open spec fn frame_scan(bytes: Seq<u8>) -> stream::ObuScan {
    stream::scan_obus(bytes.subrange(IVF_FRAME_HEADER_LEN as int, frame_len(bytes) as int))
}

/// What reading one frame from `bytes` gives: nothing where no whole frame
/// header is left, the frame, or the first fault.
pub open spec fn parse_frame(bytes: Seq<u8>) -> Result<Option<FrameModel>, Av1Error> {
    if bytes.len() < IVF_FRAME_HEADER_LEN {
        Ok(None)
    } else if bytes.len() < frame_len(bytes) {
        Err(Av1Error::UnexpectedEof)
    } else {
        match frame_scan(bytes).fault {
            Some(e) => Err(e),
            None => Ok(
                Some(
                    FrameModel {
                        timestamp: ivf::header_timestamp(bytes) as u64,
                        obus: frame_scan(bytes).units,
                    },
                ),
            ),
        }
    }
}

/// What reading frame after frame gives: the frames, and the fault that
/// stopped the reading, if there was one.
#[verifier::ext_equal]
pub struct FrameScan {
    pub frames: Seq<FrameModel>,
    pub fault: Option<Av1Error>,
}

/// The frames of a byte sequence up to its end or its first fault.
pub open spec fn scan_frames(bytes: Seq<u8>) -> FrameScan
    decreases bytes.len(),
{
    match parse_frame(bytes) {
        Ok(None) => FrameScan { frames: Seq::empty(), fault: None },
        Err(e) => FrameScan { frames: Seq::empty(), fault: Some(e) },
        Ok(Some(frame)) => {
            let rest = scan_frames(bytes.skip(frame_len(bytes) as int));
            FrameScan { frames: seq![frame] + rest.frames, fault: rest.fault }
        },
    }
}

/// A frame with its header. The header gives the length of the data in 32
/// bits.
pub open spec fn frame_bytes(timestamp: u64, data: Seq<u8>) -> Seq<u8> {
    ivf::frame_header_bytes((data.len() % 0x1_0000_0000) as u32, timestamp) + data
}

/// Frame data with its timestamp.
#[verifier::ext_equal]
pub struct FrameData {
    pub timestamp: u64,
    pub data: Seq<u8>,
}

/// The bytes of frames, one after the other.
pub open spec fn concat_frames(frames: Seq<FrameData>) -> Seq<u8>
    decreases frames.len(),
{
    if frames.len() == 0 {
        Seq::empty()
    } else {
        concat_frames(frames.drop_last()) + frame_bytes(
            frames.last().timestamp,
            frames.last().data,
        )
    }
}

/// The bytes of two runs of frames.
pub proof fn lemma_concat_frames_add(a: Seq<FrameData>, b: Seq<FrameData>)
    ensures
        concat_frames(a + b) == concat_frames(a) + concat_frames(b),
    decreases b.len(),
{
    if b.len() == 0 {
        assert(a + b =~= a);
        assert(concat_frames(a) + concat_frames(b) =~= concat_frames(a));
    } else {
        lemma_concat_frames_add(a, b.drop_last());
        assert((a + b).drop_last() =~= a + b.drop_last());
        assert(concat_frames(a + b) =~= concat_frames(a) + concat_frames(b));
    }
}

/// Frame data that a frame header can give the length of, and that is read as
/// the units of `frame`.
pub open spec fn frame_data_reads_as(data: FrameData, frame: FrameModel) -> bool {
    &&& data.data.len() < 0x1_0000_0000
    &&& data.timestamp == frame.timestamp
    &&& stream::scan_obus(data.data) == (stream::ObuScan {
        units: frame.obus,
        fault: None::<Av1Error>,
    })
}

/// The bytes of frames, the first one taken apart.
proof fn lemma_concat_frames_first(data: Seq<FrameData>)
    requires
        data.len() > 0,
    ensures
        concat_frames(data) == frame_bytes(data[0].timestamp, data[0].data) + concat_frames(
            data.drop_first(),
        ),
{
    let first = seq![data[0]];
    lemma_concat_frames_add(first, data.drop_first());
    assert(first + data.drop_first() =~= data);
    assert(first.drop_last() =~= Seq::empty());
    reveal_with_fuel(concat_frames, 2);
    assert(concat_frames(first) =~= frame_bytes(data[0].timestamp, data[0].data));
}

/// A frame is read back whatever follows it.
proof fn lemma_written_frame_reads_back(data: FrameData, frame: FrameModel, rest: Seq<u8>)
    requires
        frame_data_reads_as(data, frame),
    ensures
        ({
            let bytes = frame_bytes(data.timestamp, data.data) + rest;
            &&& parse_frame(bytes) == Ok::<Option<FrameModel>, Av1Error>(Some(frame))
            &&& bytes.skip(frame_len(bytes) as int) == rest
        }),
{
    let bytes = frame_bytes(data.timestamp, data.data) + rest;
    let size = (data.data.len() % 0x1_0000_0000) as u32;
    let header = ivf::frame_header_bytes(size, data.timestamp);
    ivf::law_frame_header_round_trip(size, data.timestamp, data.data + rest);
    assert(bytes =~= header + (data.data + rest));
    assert(bytes.subrange(IVF_FRAME_HEADER_LEN as int, frame_len(bytes) as int) =~= data.data);
    assert(bytes.skip(frame_len(bytes) as int) =~= rest);
}

/// Law: frames that are written one after the other are read back as the same
/// frames.
pub proof fn law_written_frames_read_back(data: Seq<FrameData>, frames: Seq<FrameModel>)
    requires
        data.len() == frames.len(),
        forall|i: int|
            0 <= i < data.len() ==> frame_data_reads_as(#[trigger] data[i], frames[i]),
    ensures
        scan_frames(concat_frames(data)) == (FrameScan { frames, fault: None::<Av1Error> }),
    decreases data.len(),
{
    if data.len() == 0 {
        assert(scan_frames(concat_frames(data)).frames =~= frames);
    } else {
        let rest = data.drop_first();
        let tail = frames.drop_first();
        assert forall|i: int| 0 <= i < rest.len() implies frame_data_reads_as(
            #[trigger] rest[i],
            tail[i],
        ) by {
            assert(frame_data_reads_as(data[i + 1], frames[i + 1]));
        }
        law_written_frames_read_back(rest, tail);
        lemma_concat_frames_first(data);
        lemma_written_frame_reads_back(data[0], frames[0], concat_frames(rest));
        assert(seq![frames[0]] + tail =~= frames);
    }
}

/// The data of frames: the bytes of their units.
pub open spec fn frames_data(frames: Seq<FrameModel>) -> Seq<FrameData> {
    Seq::new(
        frames.len(),
        |i: int|
            FrameData {
                timestamp: frames[i].timestamp,
                data: stream::concat_raw(frames[i].obus),
            },
    )
}

/// A frame that its own bytes give when they are read.
pub open spec fn frame_reads_as_itself(frame: FrameModel) -> bool {
    &&& stream::all_read_as_themselves(frame.obus)
    &&& stream::concat_raw(frame.obus).len() < 0x1_0000_0000
}

/// The frame that is read from the start of `bytes`.
proof fn lemma_frame_is_lossless(bytes: Seq<u8>)
    requires
        parse_frame(bytes) matches Ok(Some(_)),
    ensures
        parse_frame(bytes) matches Ok(Some(frame)) && {
            &&& frame_reads_as_itself(frame)
            &&& frame_bytes(frame.timestamp, stream::concat_raw(frame.obus)) == bytes.take(
                frame_len(bytes) as int,
            )
        },
{
    let data = bytes.subrange(IVF_FRAME_HEADER_LEN as int, frame_len(bytes) as int);
    stream::law_reading_is_lossless(data);
    let size_bytes = bytes.subrange(0, 4);
    let time_bytes = bytes.subrange(4, 12);
    reveal_with_fuel(ivf::pow256, 9);
    ivf::law_le_value_bytes(size_bytes);
    ivf::law_le_value_bytes(time_bytes);
    assert(bytes.take(frame_len(bytes) as int) =~= size_bytes + time_bytes + data);
}

/// Law: reading frames loses nothing but what is too short for a frame header
/// at the end. Each frame is what its own bytes give, and the frames, one after
/// the other, are the start of the bytes that were read; without a fault, less
/// than a frame header is left.
pub proof fn law_reading_frames_is_lossless(bytes: Seq<u8>)
    ensures
        forall|i: int|
            0 <= i < scan_frames(bytes).frames.len() ==> frame_reads_as_itself(
                #[trigger] scan_frames(bytes).frames[i],
            ),
        concat_frames(frames_data(scan_frames(bytes).frames)).len() <= bytes.len(),
        concat_frames(frames_data(scan_frames(bytes).frames)) == bytes.take(
            concat_frames(frames_data(scan_frames(bytes).frames)).len() as int,
        ),
        scan_frames(bytes).fault is None ==> bytes.len() < concat_frames(
            frames_data(scan_frames(bytes).frames),
        ).len() + IVF_FRAME_HEADER_LEN,
    decreases bytes.len(),
{
    let scan = scan_frames(bytes);
    let data = frames_data(scan.frames);
    match parse_frame(bytes) {
        Ok(Some(frame)) => {
            lemma_frame_is_lossless(bytes);
            let n = frame_len(bytes) as int;
            law_reading_frames_is_lossless(bytes.skip(n));
            let rest = scan_frames(bytes.skip(n));
            assert(scan.frames =~= seq![frame] + rest.frames);
            lemma_concat_frames_first(data);
            assert(data.drop_first() =~= frames_data(rest.frames));
            let m = concat_frames(frames_data(rest.frames)).len() as int;
            assert(bytes.take(n + m) =~= bytes.take(n) + bytes.skip(n).take(m));
            assert forall|i: int| 0 <= i < scan.frames.len() implies frame_reads_as_itself(
                #[trigger] scan.frames[i],
            ) by {
                if i > 0 {
                    assert(scan.frames[i] == rest.frames[i - 1]);
                }
            }
        },
        _ => {
            assert(data =~= Seq::empty());
            assert(bytes.take(0) =~= Seq::empty());
        },
    }
}

/// Reads one frame. Returns `None` where no whole frame header is left.
pub fn read_ivf_frame(reader: &mut ByteReader) -> (r: Result<Option<IvfFrame>, Av1Error>)
    ensures
        match r {
            Ok(None) => {
                &&& parse_frame(old(reader)@) == Ok::<Option<FrameModel>, Av1Error>(None)
                &&& final(reader)@ == Seq::<u8>::empty()
            },
            Ok(Some(frame)) => {
                &&& parse_frame(old(reader)@) == Ok::<Option<FrameModel>, Av1Error>(Some(frame@))
                &&& final(reader)@ == old(reader)@.skip(frame_len(old(reader)@) as int)
            },
            Err(e) => {
                &&& parse_frame(old(reader)@) == Err::<Option<FrameModel>, Av1Error>(e)
                &&& final(reader)@ == (if old(reader)@.len() < frame_len(old(reader)@) {
                    Seq::<u8>::empty()
                } else {
                    old(reader)@.skip(frame_len(old(reader)@) as int)
                })
            },
        },
{
    let ghost bytes = reader@;
    let header = match read_ivf_frame_header(reader) {
        Ok(Some(header)) => header,
        Ok(None) => return Ok(None),
        Err(e) => return Err(e),
    };
    let size: u64 = header.frame_size as u64;
    if size > reader.fill_buf().len() as u64 {
        let left: usize = reader.fill_buf().len();
        let _ = reader.read_exact(left);
        assert(reader@ =~= Seq::<u8>::empty());
        return Err(Av1Error::UnexpectedEof);
    }
    match reader.read_exact(size as usize) {
        Err(e) => Err(e),
        Ok(data) => {
            proof {
                assert(data@ =~= bytes.subrange(
                    IVF_FRAME_HEADER_LEN as int,
                    frame_len(bytes) as int,
                ));
                assert(reader@ =~= bytes.skip(frame_len(bytes) as int));
            }
            match read_obus_from_ivf_frame(data) {
                Ok(obus) => Ok(Some(IvfFrame { timestamp: header.timestamp, obus })),
                Err(e) => Err(e),
            }
        },
    }
}

/// Writes a frame with its header. The header gives the lowest 32 bits of the
/// length of the data.
pub fn write_ivf_frame(writer: &mut Vec<u8>, timestamp: u64, data: &[u8]) -> (r: Result<
    (),
    Av1Error,
>)
    ensures
        r is Ok,
        final(writer)@ == old(writer)@ + frame_bytes(timestamp, data@),
{
    let ghost start = writer@;
    let size: u32 = (data.len() as u64 % 0x1_0000_0000) as u32;
    match write_ivf_frame_header(writer, size, timestamp) {
        Ok(()) => {},
        Err(e) => return Err(e),
    }
    writer.extend_from_slice(data);
    assert(writer@ =~= start + frame_bytes(timestamp, data@));
    Ok(())
}

/// Law: twelve header bytes and as many data bytes as bytes 0 to 3 say are read
/// as one frame, whatever follows: its timestamp is in bytes 4 to 11, and its
/// units are those of the data. A fault in the data is the fault of the frame.
pub proof fn law_frame_is_read(header: Seq<u8>, data: Seq<u8>, rest: Seq<u8>)
    requires
        header.len() == 12,
        data.len() == header[0] + 0x100 * header[1] + 0x1_0000 * header[2] + 0x100_0000 * header[3],
    ensures
        ({
            let bytes = header + data + rest;
            let scan = stream::scan_obus(data);
            &&& frame_len(bytes) == 12 + data.len()
            &&& scan.fault matches Some(e) ==> parse_frame(bytes) == Err::<
                Option<FrameModel>,
                Av1Error,
            >(e)
            &&& scan.fault is None ==> parse_frame(bytes) == Ok::<Option<FrameModel>, Av1Error>(
                Some(
                    FrameModel {
                        timestamp: (header[4] + 0x100 * header[5] + 0x1_0000 * header[6]
                            + 0x100_0000 * header[7] + 0x1_0000_0000 * header[8] + 0x100_0000_0000
                            * header[9] + 0x1_0000_0000_0000 * header[10] + 0x100_0000_0000_0000
                            * header[11]) as u64,
                        obus: scan.units,
                    },
                ),
            )
        }),
{
    let bytes = header + data + rest;
    ivf::law_frame_header_fields(bytes);
    assert forall|i: int| 0 <= i < 12 implies bytes[i] == header[i] by {}
    assert(bytes.subrange(12, frame_len(bytes) as int) =~= data);
}

/// Law: fewer than twelve bytes are the end of the frames, and a frame with less
/// data than its header says is cut off.
pub proof fn law_frame_is_cut_off(bytes: Seq<u8>)
    ensures
        bytes.len() < 12 <==> parse_frame(bytes) == Ok::<Option<FrameModel>, Av1Error>(None),
        bytes.len() >= 12 && bytes.len() < 12 + bytes[0] + 0x100 * bytes[1] + 0x1_0000 * bytes[2]
            + 0x100_0000 * bytes[3] ==> {
            &&& parse_frame(bytes) == Err::<Option<FrameModel>, Av1Error>(Av1Error::UnexpectedEof)
            &&& frame_len(bytes) == 12 + bytes[0] + 0x100 * bytes[1] + 0x1_0000 * bytes[2]
                + 0x100_0000 * bytes[3]
        },
{
    if bytes.len() >= 12 {
        ivf::law_frame_header_fields(bytes);
    }
}

/// Law: a frame that can be read is read first, whatever follows it, and then
/// what follows is read as it would be alone; where none can be read, reading
/// stops, with the fault if there is one.
pub proof fn law_frames_are_read_in_order(bytes: Seq<u8>, frame: FrameModel)
    ensures
        parse_frame(bytes) == Ok::<Option<FrameModel>, Av1Error>(Some(frame)) ==> {
            let rest = bytes.skip(frame_len(bytes) as int);
            scan_frames(bytes) == (FrameScan {
                frames: seq![frame] + scan_frames(rest).frames,
                fault: scan_frames(rest).fault,
            })
        },
        parse_frame(bytes) matches Err(e) ==> scan_frames(bytes) == (FrameScan {
            frames: Seq::empty(),
            fault: Some(e),
        }),
        bytes.len() < 12 ==> scan_frames(bytes) == (FrameScan {
            frames: Seq::empty(),
            fault: None::<Av1Error>,
        }),
{
}

/// Law: a frame is written as the length of its data in four bytes, its timestamp
/// in eight, the lightest byte first, and its data. Of a length that four bytes
/// cannot hold, the lowest bits are written.
pub proof fn law_frame_layout(timestamp: u64, data: Seq<u8>)
    ensures
        ({
            let bytes = frame_bytes(timestamp, data);
            &&& bytes.len() == 12 + data.len()
            &&& bytes.skip(12) == data
            &&& bytes[0] + 0x100 * bytes[1] + 0x1_0000 * bytes[2] + 0x100_0000 * bytes[3]
                == data.len() % 0x1_0000_0000
            &&& bytes[4] + 0x100 * bytes[5] + 0x1_0000 * bytes[6] + 0x100_0000 * bytes[7]
                + 0x1_0000_0000 * bytes[8] + 0x100_0000_0000 * bytes[9] + 0x1_0000_0000_0000
                * bytes[10] + 0x100_0000_0000_0000 * bytes[11] == timestamp
        }),
{
    let size = (data.len() % 0x1_0000_0000) as u32;
    ivf::law_frame_header_round_trip(size, timestamp, data);
    ivf::law_frame_header_fields(frame_bytes(timestamp, data));
    assert(frame_bytes(timestamp, data).skip(12) =~= data);
}

/// Law: the bytes of frames, one after the other, are known from those of a
/// single frame: they are its bytes, and those of two runs follow each other.
pub proof fn law_concat_frames(a: Seq<FrameData>, b: Seq<FrameData>, frame: FrameData)
    ensures
        concat_frames(Seq::empty()) == Seq::<u8>::empty(),
        concat_frames(seq![frame]) == frame_bytes(frame.timestamp, frame.data),
        concat_frames(a + b) == concat_frames(a) + concat_frames(b),
{
    lemma_concat_frames_add(a, b);
    lemma_concat_frames_first(seq![frame]);
    assert(seq![frame].drop_first() =~= Seq::empty());
    assert(concat_frames(seq![frame]) =~= frame_bytes(frame.timestamp, frame.data));
}

/// Law: a frame holds its timestamp and its units.
pub proof fn law_frame_model(frame: IvfFrame)
    ensures
        frame@.timestamp == frame.timestamp,
        frame@.obus == obu::obu_models(frame.obus@),
{
}

} // verus!
