//! Bit-level reading and writing, done by the `bitvec_helpers` crate.
//!
//! Bits are taken most significant first: bit 0 of a byte sequence is the
//! top bit of its first byte.

use bitvec_helpers::bitstream_io_reader::BsIoSliceReader;
use bitvec_helpers::bitstream_io_writer::BitstreamIoWriter;
use vstd::prelude::*;

verus! {

/// The weight of bit `k` of a byte, bit 0 being the most significant one.
pub open spec fn bit_weight(k: int) -> int {
    if k == 0 {
        128
    } else if k == 1 {
        64
    } else if k == 2 {
        32
    } else if k == 3 {
        16
    } else if k == 4 {
        8
    } else if k == 5 {
        4
    } else if k == 6 {
        2
    } else {
        1
    }
}

/// Bit `k` of a byte, bit 0 being the most significant one.
pub open spec fn byte_bit(b: u8, k: int) -> bool {
    (b as int / bit_weight(k)) % 2 == 1
}

/// The bits of a byte sequence in stream order.
pub open spec fn bits_of(bytes: Seq<u8>) -> Seq<bool> {
    Seq::new(8 * bytes.len(), |i: int| byte_bit(bytes[i / 8], i % 8))
}

/// The unsigned number that a run of bits stands for, first bit heaviest.
pub open spec fn bits_value(bits: Seq<bool>) -> nat
    decreases bits.len(),
{
    if bits.len() == 0 {
        0
    } else {
        2 * bits_value(bits.drop_last()) + (if bits.last() {
            1nat
        } else {
            0nat
        })
    }
}

/// What is left to read in a bit reader.
pub uninterp spec fn unread_bits(reader: SliceBits<'_>) -> Seq<bool>;

/// What has been put into a bit writer.
pub uninterp spec fn written_bits(writer: BitstreamIoWriter) -> Seq<bool>;

/// An I/O error as the bit reader and the bit writer report it.
#[verifier::external_type_specification]
#[verifier::external_body]
pub struct ExIoError(std::io::Error);

/// The bit writer of `bitvec_helpers`, which fills a `Vec<u8>`.
#[verifier::external_type_specification]
#[verifier::external_body]
pub struct ExBitstreamIoWriter(bitvec_helpers::bitstream_io_writer::BitstreamIoWriter);

/// A reader over the bits of a byte slice, held by
/// `bitvec_helpers::bitstream_io_reader::BsIoSliceReader`.
#[verifier::external_body]
pub struct SliceBits<'a> {
    inner: BsIoSliceReader<'a>,
}

/// Calls `BsIoSliceReader::from_slice`: a reader with every bit of `buf` still
/// to be read. The number of bits has to fit in a `u64`.
#[verifier::external_body]
pub(crate) fn slice_bits<'a>(buf: &'a [u8]) -> (reader: SliceBits<'a>)
    requires
        8 * buf@.len() <= u64::MAX,
    ensures
        unread_bits(reader) == bits_of(buf@),
{
    SliceBits { inner: BsIoSliceReader::from_slice(buf) }
}

/// Calls `BitstreamIoReader::read::<BITS, u8>`: takes the next `BITS` bits as
/// an unsigned number, and fails exactly when fewer are left. What is left in
/// the reader after a failure is not stated.
#[verifier::external_body]
pub(crate) fn read_bits<const BITS: u32>(reader: &mut SliceBits<'_>) -> (r: Result<
    u8,
    std::io::Error,
>)
    requires
        1 <= BITS <= 8,
    ensures
        r is Ok <==> BITS <= unread_bits(*old(reader)).len(),
        r matches Ok(v) ==> v == bits_value(unread_bits(*old(reader)).take(BITS as int)),
        r is Ok ==> unread_bits(*final(reader)) == unread_bits(*old(reader)).skip(BITS as int),
{
    reader.inner.read::<BITS, u8>()
}

/// Calls `BitstreamIoWriter::with_capacity`: a writer that holds nothing yet.
#[verifier::external_body]
pub(crate) fn bit_writer(capacity: usize) -> (writer: BitstreamIoWriter)
    requires
        capacity <= isize::MAX,
    ensures
        written_bits(writer) == Seq::<bool>::empty(),
{
    BitstreamIoWriter::with_capacity(capacity)
}

/// Calls `BitstreamIoWriter::write::<8, u8>`: appends the eight bits of
/// `value`. Eight bits hold every `u8` and the writer fills a `Vec<u8>`, so
/// the call succeeds.
#[verifier::external_body]
pub(crate) fn write_octet(writer: &mut BitstreamIoWriter, value: u8) -> (r: Result<
    (),
    std::io::Error,
>)
    ensures
        r is Ok,
        written_bits(*final(writer)) == written_bits(*old(writer)) + bits_of(seq![value]),
{
    writer.write::<8, u8>(value)
}

/// Calls `BitstreamIoWriter::into_inner`: the whole bytes written so far; bits
/// of an unfinished last byte are dropped.
#[verifier::external_body]
pub(crate) fn written_bytes(writer: BitstreamIoWriter) -> (bytes: Vec<u8>)
    ensures
        bits_of(bytes@) == written_bits(writer).take(
            written_bits(writer).len() - written_bits(writer).len() % 8,
        ),
{
    writer.into_inner()
}

/// The bits of a sequence that grows by one byte.
pub proof fn lemma_bits_of_push(bytes: Seq<u8>, b: u8)
    ensures
        bits_of(bytes.push(b)) == bits_of(bytes) + bits_of(seq![b]),
{
    assert(bits_of(bytes.push(b)) =~= bits_of(bytes) + bits_of(seq![b]));
}

/// The bits of the first byte come first.
pub proof fn lemma_bits_of_first(bytes: Seq<u8>)
    requires
        bytes.len() > 0,
    ensures
        bits_of(bytes.take(1)) == bits_of(bytes).take(8),
{
    assert(bits_of(bytes.take(1)) =~= bits_of(bytes).take(8));
}

/// Where bit `k` of byte `i` stands among the bits of a sequence.
proof fn lemma_bits_of_index(bytes: Seq<u8>, i: int, k: int)
    requires
        0 <= i < bytes.len(),
        0 <= k < 8,
    ensures
        8 * i + k < bits_of(bytes).len(),
        bits_of(bytes)[8 * i + k] == byte_bit(bytes[i], k),
{
    assert((8 * i + k) / 8 == i && (8 * i + k) % 8 == k);
}

/// A byte is known by its eight bits.
proof fn lemma_byte_of_bits(x: u8, y: u8)
    requires
        forall|k: int| 0 <= k < 8 ==> #[trigger] byte_bit(x, k) == byte_bit(y, k),
    ensures
        x == y,
{
    assert(byte_bit(x, 0) == byte_bit(y, 0));
    assert(byte_bit(x, 1) == byte_bit(y, 1));
    assert(byte_bit(x, 2) == byte_bit(y, 2));
    assert(byte_bit(x, 3) == byte_bit(y, 3));
    assert(byte_bit(x, 4) == byte_bit(y, 4));
    assert(byte_bit(x, 5) == byte_bit(y, 5));
    assert(byte_bit(x, 6) == byte_bit(y, 6));
    assert(byte_bit(x, 7) == byte_bit(y, 7));
    assert(((x / 128) % 2 == 1) == ((y / 128) % 2 == 1) && ((x / 64) % 2 == 1) == ((y / 64) % 2
        == 1) && ((x / 32) % 2 == 1) == ((y / 32) % 2 == 1) && ((x / 16) % 2 == 1) == ((y / 16) % 2
        == 1) && ((x / 8) % 2 == 1) == ((y / 8) % 2 == 1) && ((x / 4) % 2 == 1) == ((y / 4) % 2
        == 1) && ((x / 2) % 2 == 1) == ((y / 2) % 2 == 1) && (x % 2 == 1) == (y % 2 == 1) ==> x
        == y) by (bit_vector);
}

/// Law: the bits of a byte sequence determine the sequence.
pub proof fn law_bits_determine_bytes(a: Seq<u8>, b: Seq<u8>)
    requires
        bits_of(a) == bits_of(b),
    ensures
        a == b,
{
    assert(bits_of(a).len() == 8 * a.len() && bits_of(b).len() == 8 * b.len());
    assert forall|i: int| 0 <= i < a.len() implies a[i] == b[i] by {
        assert forall|k: int| 0 <= k < 8 implies #[trigger] byte_bit(a[i], k) == byte_bit(
            b[i],
            k,
        ) by {
            lemma_bits_of_index(a, i, k);
            lemma_bits_of_index(b, i, k);
        }
        lemma_byte_of_bits(a[i], b[i]);
    }
    assert(a =~= b);
}

/// The number that a single bit stands for.
pub proof fn lemma_bits_value_one(bits: Seq<bool>)
    requires
        bits.len() == 1,
    ensures
        bits_value(bits) == (if bits[0] {
            1nat
        } else {
            0nat
        }),
{
    reveal_with_fuel(bits_value, 2);
}

} // verus!
