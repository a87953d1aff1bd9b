//! The IVF container: a file header of 32 bytes, then frames with a header of
//! 12 bytes each. Numbers are little-endian.

use crate::error::Av1Error;
use crate::reader::ByteReader;
use vstd::prelude::*;

verus! {

/// IVF file signature ("DKIF").
pub const IVF_SIGNATURE: [u8; 4] = [0x44, 0x4B, 0x49, 0x46];

/// Size of the IVF file header in bytes.
pub const IVF_FILE_HEADER_LEN: usize = 32;

/// Size of an IVF frame header in bytes.
pub const IVF_FRAME_HEADER_LEN: usize = 12;

/// Header of a single IVF frame.
pub struct IvfFrameHeader {
    /// Number of bytes in the frame data that follows.
    pub frame_size: u32,
    /// Presentation timestamp in the timebase of the stream.
    pub timestamp: u64,
}

/// The number in little-endian bytes.
pub open spec fn le_value(bytes: Seq<u8>) -> nat
    decreases bytes.len(),
{
    if bytes.len() == 0 {
        0
    } else {
        bytes[0] as nat + 256 * le_value(bytes.drop_first())
    }
}

/// The lowest `n` little-endian bytes of a number.
pub open spec fn le_bytes(value: nat, n: nat) -> Seq<u8>
    decreases n,
{
    if n == 0 {
        Seq::empty()
    } else {
        seq![(value % 256) as u8] + le_bytes(value / 256, (n - 1) as nat)
    }
}

/// `256` to the power `n`.
pub open spec fn pow256(n: nat) -> nat
    decreases n,
{
    if n == 0 {
        1
    } else {
        256 * pow256((n - 1) as nat)
    }
}

/// The bytes of a frame header.
pub open spec fn frame_header_bytes(frame_size: u32, timestamp: u64) -> Seq<u8> {
    le_bytes(frame_size as nat, 4) + le_bytes(timestamp as nat, 8)
}

/// The size that a frame header gives.
pub open spec fn header_frame_size(header: Seq<u8>) -> nat {
    le_value(header.subrange(0, 4))
}

/// The timestamp that a frame header gives.
pub open spec fn header_timestamp(header: Seq<u8>) -> nat {
    le_value(header.subrange(4, 12))
}

/// Bytes that start with the IVF file signature.
pub open spec fn starts_with_signature(bytes: Seq<u8>) -> bool {
    &&& bytes.len() >= 4
    &&& bytes.take(4) == IVF_SIGNATURE@
}

/// Law: little-endian bytes give back the number that they were made of.
pub proof fn law_le_bytes_value(value: nat, n: nat)
    requires
        value < pow256(n),
    ensures
        le_bytes(value, n).len() == n,
        le_value(le_bytes(value, n)) == value,
    decreases n,
{
    if n > 0 {
        law_le_bytes_value(value / 256, (n - 1) as nat);
        assert(le_bytes(value, n).drop_first() =~= le_bytes(value / 256, (n - 1) as nat));
    }
}

/// Law: the number in little-endian bytes gives back the bytes.
pub proof fn law_le_value_bytes(bytes: Seq<u8>)
    ensures
        le_value(bytes) < pow256(bytes.len()),
        le_bytes(le_value(bytes), bytes.len()) == bytes,
    decreases bytes.len(),
{
    if bytes.len() > 0 {
        law_le_value_bytes(bytes.drop_first());
        assert(le_value(bytes) % 256 == bytes[0] && le_value(bytes) / 256 == le_value(
            bytes.drop_first(),
        ));
        assert(seq![bytes[0]] + bytes.drop_first() =~= bytes);
    } else {
        assert(le_bytes(le_value(bytes), bytes.len()) =~= bytes);
    }
}

/// Law: a frame header that was written is read back with the same size and
/// timestamp, and takes twelve bytes.
pub proof fn law_frame_header_round_trip(frame_size: u32, timestamp: u64, rest: Seq<u8>)
    ensures
        frame_header_bytes(frame_size, timestamp).len() == IVF_FRAME_HEADER_LEN,
        header_frame_size(frame_header_bytes(frame_size, timestamp) + rest) == frame_size,
        header_timestamp(frame_header_bytes(frame_size, timestamp) + rest) == timestamp,
{
    reveal_with_fuel(pow256, 9);
    law_le_bytes_value(frame_size as nat, 4);
    law_le_bytes_value(timestamp as nat, 8);
    let all = frame_header_bytes(frame_size, timestamp) + rest;
    assert(all.subrange(0, 4) =~= le_bytes(frame_size as nat, 4));
    assert(all.subrange(4, 12) =~= le_bytes(timestamp as nat, 8));
}

/// Whether bytes start with the IVF file signature.
pub fn is_ivf(buf: &[u8]) -> (r: bool)
    ensures
        r == starts_with_signature(buf@),
{
    if buf.len() < 4 {
        return false;
    }
    let r: bool = buf[0] == IVF_SIGNATURE[0] && buf[1] == IVF_SIGNATURE[1] && buf[2]
        == IVF_SIGNATURE[2] && buf[3] == IVF_SIGNATURE[3];
    proof {
        let start = buf@.take(4);
        let signature = IVF_SIGNATURE@;
        if r {
            assert(start =~= signature);
        } else if start == signature {
            assert(start[0] == signature[0] && start[1] == signature[1] && start[2]
                == signature[2] && start[3] == signature[3]);
        }
    }
    r
}

/// Probes for an IVF container. Where the signature is found, the file header
/// is consumed and returned; otherwise no byte is consumed.
pub fn try_read_ivf_file_header(reader: &mut ByteReader) -> (r: Result<
    Option<[u8; IVF_FILE_HEADER_LEN]>,
    Av1Error,
>)
    ensures
        match r {
            Ok(None) => {
                &&& !starts_with_signature(old(reader)@)
                &&& final(reader)@ == old(reader)@
            },
            Ok(Some(header)) => {
                &&& starts_with_signature(old(reader)@)
                &&& old(reader)@.len() >= IVF_FILE_HEADER_LEN
                &&& header@ == old(reader)@.take(IVF_FILE_HEADER_LEN as int)
                &&& final(reader)@ == old(reader)@.skip(IVF_FILE_HEADER_LEN as int)
            },
            Err(e) => {
                &&& starts_with_signature(old(reader)@)
                &&& old(reader)@.len() < IVF_FILE_HEADER_LEN
                &&& e == Av1Error::UnexpectedEof
                &&& final(reader)@ == Seq::<u8>::empty()
            },
        },
{
    if !is_ivf(reader.fill_buf()) {
        return Ok(None);
    }
    match reader.read_exact(IVF_FILE_HEADER_LEN) {
        Err(e) => Err(e),
        Ok(bytes) => {
            let mut header: [u8; IVF_FILE_HEADER_LEN] = [0u8; IVF_FILE_HEADER_LEN];
            let mut i: usize = 0;
            while i < IVF_FILE_HEADER_LEN
                invariant
                    i <= IVF_FILE_HEADER_LEN,
                    bytes@.len() == IVF_FILE_HEADER_LEN,
                    header@.len() == IVF_FILE_HEADER_LEN,
                    forall|j: int| 0 <= j < i ==> header@[j] == bytes@[j],
                decreases IVF_FILE_HEADER_LEN - i,
            {
                header[i] = bytes[i];
                i = i + 1;
            }
            assert(header@ =~= bytes@);
            Ok(Some(header))
        },
    }
}

/// Reads one frame header. Returns `None` where fewer bytes than a header are
/// left; these are consumed.
pub fn read_ivf_frame_header(reader: &mut ByteReader) -> (r: Result<
    Option<IvfFrameHeader>,
    Av1Error,
>)
    ensures
        match r {
            Ok(None) => {
                &&& old(reader)@.len() < IVF_FRAME_HEADER_LEN
                &&& final(reader)@ == Seq::<u8>::empty()
            },
            Ok(Some(header)) => {
                &&& old(reader)@.len() >= IVF_FRAME_HEADER_LEN
                &&& header.frame_size == header_frame_size(old(reader)@)
                &&& header.timestamp == header_timestamp(old(reader)@)
                &&& final(reader)@ == old(reader)@.skip(IVF_FRAME_HEADER_LEN as int)
            },
            Err(_) => false,
        },
{
    let ghost all = reader@;
    match reader.read_exact(IVF_FRAME_HEADER_LEN) {
        Err(_) => Ok(None),
        Ok(buf) => {
            proof {
                assert(buf@.subrange(0, 4) =~= all.subrange(0, 4));
                assert(buf@.subrange(4, 12) =~= all.subrange(4, 12));
            }
            let frame_size: u64 = le_number(&buf, 0, 4);
            let timestamp: u64 = le_number(&buf, 4, 12);
            proof {
                reveal_with_fuel(pow256, 5);
                law_le_value_bytes(buf@.subrange(0, 4));
            }
            Ok(Some(IvfFrameHeader { frame_size: frame_size as u32, timestamp }))
        },
    }
}

/// The number in up to eight little-endian bytes.
fn le_number(bytes: &Vec<u8>, from: usize, to: usize) -> (value: u64)
    requires
        from <= to <= bytes@.len(),
        to - from <= 8,
    ensures
        value == le_value(bytes@.subrange(from as int, to as int)),
{
    let mut value: u64 = 0;
    let mut i: usize = to;
    assert(bytes@.subrange(to as int, to as int) =~= Seq::<u8>::empty());
    while i > from
        invariant
            from <= i <= to <= bytes@.len(),
            to - from <= 8,
            value == le_value(bytes@.subrange(i as int, to as int)),
        decreases i,
    {
        let ghost tail = bytes@.subrange(i as int, to as int);
        let ghost longer = bytes@.subrange(i - 1, to as int);
        proof {
            assert(longer.drop_first() =~= tail);
            law_le_value_bytes(longer);
            reveal_with_fuel(pow256, 9);
        }
        value = value * 256 + bytes[i - 1] as u64;
        i = i - 1;
    }
    value
}

/// Appends a number as `len` little-endian bytes.
fn push_le(out: &mut Vec<u8>, value: u64, len: usize)
    ensures
        final(out)@ == old(out)@ + le_bytes(value as nat, len as nat),
{
    let mut rest: u64 = value;
    let mut left: usize = len;
    assert(out@ + le_bytes(rest as nat, left as nat) =~= old(out)@ + le_bytes(
        value as nat,
        len as nat,
    ));
    while left > 0
        invariant
            out@ + le_bytes(rest as nat, left as nat) == old(out)@ + le_bytes(
                value as nat,
                len as nat,
            ),
        decreases left,
    {
        let ghost before = out@;
        out.push((rest % 256) as u8);
        assert(out@ + le_bytes((rest / 256) as nat, (left - 1) as nat) =~= before + le_bytes(
            rest as nat,
            left as nat,
        ));
        rest = rest / 256;
        left = left - 1;
    }
    assert(out@ + le_bytes(rest as nat, 0) =~= out@);
}

/// Appends a frame header.
pub fn write_ivf_frame_header(writer: &mut Vec<u8>, frame_size: u32, timestamp: u64) -> (r: Result<
    (),
    Av1Error,
>)
    ensures
        r is Ok,
        final(writer)@ == old(writer)@ + frame_header_bytes(frame_size, timestamp),
{
    push_le(writer, frame_size as u64, 4);
    push_le(writer, timestamp, 8);
    assert(writer@ =~= old(writer)@ + frame_header_bytes(frame_size, timestamp));
    Ok(())
}

/// Law: an IVF file is one whose first four bytes are `DKIF`.
pub proof fn law_signature(bytes: Seq<u8>)
    ensures
        starts_with_signature(bytes) <==> bytes.len() >= 4 && bytes[0] == 0x44 && bytes[1] == 0x4B
            && bytes[2] == 0x49 && bytes[3] == 0x46,
{
    let start = bytes.take(4);
    let signature = IVF_SIGNATURE@;
    if bytes.len() >= 4 {
        assert(start[0] == bytes[0] && start[1] == bytes[1] && start[2] == bytes[2] && start[3]
            == bytes[3]);
        if bytes[0] == 0x44 && bytes[1] == 0x4B && bytes[2] == 0x49 && bytes[3] == 0x46 {
            assert(start =~= signature);
        } else if start == signature {
            assert(start[0] == signature[0] && start[1] == signature[1] && start[2]
                == signature[2] && start[3] == signature[3]);
        }
    }
}

/// Law: a frame header gives its size in bytes 0 to 3 and its timestamp in bytes
/// 4 to 11, the lightest byte first.
pub proof fn law_frame_header_fields(header: Seq<u8>)
    requires
        header.len() >= 12,
    ensures
        header_frame_size(header) == header[0] + 0x100 * header[1] + 0x1_0000 * header[2]
            + 0x100_0000 * header[3],
        header_timestamp(header) == header[4] + 0x100 * header[5] + 0x1_0000 * header[6]
            + 0x100_0000 * header[7] + 0x1_0000_0000 * header[8] + 0x100_0000_0000 * header[9]
            + 0x1_0000_0000_0000 * header[10] + 0x100_0000_0000_0000 * header[11],
{
    lemma_le_value_four(header.subrange(0, 4));
    let time = header.subrange(4, 12);
    lemma_le_value_four(time.subrange(4, 8));
    reveal_with_fuel(le_value, 5);
    let rest = time.drop_first().drop_first().drop_first().drop_first();
    assert(rest =~= time.subrange(4, 8));
    assert(time.drop_first()[0] == time[1]);
    assert(time.drop_first().drop_first()[0] == time[2]);
    assert(time.drop_first().drop_first().drop_first()[0] == time[3]);
}

/// The number in four bytes.
proof fn lemma_le_value_four(bytes: Seq<u8>)
    requires
        bytes.len() == 4,
    ensures
        le_value(bytes) == bytes[0] + 0x100 * bytes[1] + 0x1_0000 * bytes[2] + 0x100_0000
            * bytes[3],
{
    reveal_with_fuel(le_value, 5);
    assert(bytes.drop_first()[0] == bytes[1]);
    assert(bytes.drop_first().drop_first()[0] == bytes[2]);
    assert(bytes.drop_first().drop_first().drop_first()[0] == bytes[3]);
}

} // verus!
