//! LEB128: unsigned numbers in little-endian groups of seven bits. Every byte
//! but the last has its top bit set.

use vstd::prelude::*;

verus! {

/// The most bytes that a LEB128 field may take in an AV1 stream.
pub const LEB128_MAX_LEN: usize = 8;

/// The shortest LEB128 form of a number.
pub open spec fn leb128(value: nat) -> Seq<u8>
    decreases value,
{
    if value < 128 {
        seq![value as u8]
    } else {
        seq![(128 + value % 128) as u8] + leb128(value / 128)
    }
}

/// The number that a run of LEB128 bytes stands for.
pub open spec fn leb128_value(bytes: Seq<u8>) -> nat
    decreases bytes.len(),
{
    if bytes.len() == 0 {
        0
    } else {
        (bytes[0] % 128) as nat + 128 * leb128_value(bytes.drop_first())
    }
}

/// How many bytes belong to the LEB128 field at the start of `bytes`: up to
/// the first byte without the continuation bit, and no more than `limit`.
pub open spec fn leb128_run(bytes: Seq<u8>, limit: nat) -> nat
    decreases limit,
{
    if bytes.len() == 0 || limit == 0 {
        0
    } else if bytes[0] < 128 {
        1
    } else {
        1 + leb128_run(bytes.drop_first(), (limit - 1) as nat)
    }
}

/// `128` to the power `n`.
pub open spec fn pow128(n: nat) -> nat
    decreases n,
{
    if n == 0 {
        1
    } else {
        128 * pow128((n - 1) as nat)
    }
}

/// The number that one more byte makes of a run.
pub proof fn lemma_leb128_value_push(bytes: Seq<u8>, b: u8)
    ensures
        leb128_value(bytes.push(b)) == leb128_value(bytes) + pow128(bytes.len()) * (b % 128),
    decreases bytes.len(),
{
    reveal_with_fuel(leb128_value, 2);
    if bytes.len() == 0 {
        assert(bytes.push(b).drop_first() =~= Seq::<u8>::empty());
        let p = pow128(0);
        let d = b % 128;
        assert(p * d == d) by (nonlinear_arith)
            requires
                p == 1,
        ;
    } else {
        let rest = bytes.drop_first();
        lemma_leb128_value_push(rest, b);
        assert(bytes.push(b).drop_first() =~= rest.push(b));
        let p = pow128(rest.len());
        let d = b % 128;
        let v = leb128_value(rest);
        assert(128 * (v + p * d) == 128 * v + (128 * p) * d) by (nonlinear_arith);
        assert(pow128(bytes.len()) == 128 * p);
    }
}

/// A run of `n` bytes stands for a number below `128` to the power `n`.
pub proof fn lemma_leb128_value_bound(bytes: Seq<u8>)
    ensures
        leb128_value(bytes) < pow128(bytes.len()),
    decreases bytes.len(),
{
    if bytes.len() > 0 {
        lemma_leb128_value_bound(bytes.drop_first());
    }
}

/// A field is never longer than its limit or than the bytes there are.
pub proof fn lemma_leb128_run_bounds(bytes: Seq<u8>, limit: nat)
    ensures
        leb128_run(bytes, limit) <= limit,
        leb128_run(bytes, limit) <= bytes.len(),
        bytes.len() > 0 && limit > 0 ==> leb128_run(bytes, limit) > 0,
    decreases limit,
{
    if bytes.len() > 0 && limit > 0 && bytes[0] >= 128 {
        lemma_leb128_run_bounds(bytes.drop_first(), (limit - 1) as nat);
    }
}

/// Every byte of a field but its last has the continuation bit.
pub proof fn lemma_leb128_run_continues(bytes: Seq<u8>, limit: nat, i: int)
    requires
        0 <= i < leb128_run(bytes, limit) - 1,
    ensures
        bytes[i] >= 128,
    decreases limit,
{
    lemma_leb128_run_bounds(bytes, limit);
    if i > 0 {
        lemma_leb128_run_continues(bytes.drop_first(), (limit - 1) as nat, i - 1);
    }
}

/// Bytes with the continuation bit can be stepped over.
pub proof fn lemma_leb128_run_skip(bytes: Seq<u8>, limit: nat, n: nat)
    requires
        n <= limit,
        n <= bytes.len(),
        forall|i: int| 0 <= i < n ==> bytes[i] >= 128,
    ensures
        leb128_run(bytes, limit) == n + leb128_run(bytes.skip(n as int), (limit - n) as nat),
    decreases n,
{
    if n == 0 {
        assert(bytes.skip(0) =~= bytes);
    } else {
        let rest = bytes.drop_first();
        assert forall|i: int| 0 <= i < n - 1 implies rest[i] >= 128 by {
            assert(rest[i] == bytes[i + 1]);
        }
        lemma_leb128_run_skip(rest, (limit - 1) as nat, (n - 1) as nat);
        assert(rest.skip(n - 1) =~= bytes.skip(n as int));
    }
}

/// A field that ends with a byte without the continuation bit does not depend
/// on what follows it.
pub proof fn lemma_leb128_run_local(a: Seq<u8>, b: Seq<u8>, limit: nat)
    requires
        leb128_run(a, limit) <= b.len(),
        b.take(leb128_run(a, limit) as int) =~= a.take(leb128_run(a, limit) as int),
        leb128_run(a, limit) == limit || (leb128_run(a, limit) > 0 && a[leb128_run(a, limit) - 1]
            < 128),
    ensures
        leb128_run(b, limit) == leb128_run(a, limit),
{
    let n = leb128_run(a, limit);
    lemma_leb128_run_bounds(a, limit);
    if n > 0 {
        let k = (n - 1) as nat;
        assert forall|i: int| 0 <= i < n implies b[i] == a[i] by {
            assert(b.take(n as int)[i] == a.take(n as int)[i]);
        }
        assert forall|i: int| 0 <= i < k implies b[i] >= 128 by {
            lemma_leb128_run_continues(a, limit, i);
        }
        lemma_leb128_run_skip(b, limit, k);
        assert(b.skip(k as int)[0] == a[n - 1]);
        reveal_with_fuel(leb128_run, 2);
    }
}

/// The shape of the shortest form: its length, and where its continuation bits
/// are set.
pub proof fn lemma_leb128_shape(value: nat)
    ensures
        leb128(value).len() > 0,
        leb128(value).last() < 128,
        forall|i: int| 0 <= i < leb128(value).len() - 1 ==> leb128(value)[i] >= 128,
        value > 0 ==> leb128(value).last() > 0,
    decreases value,
{
    if value >= 128 {
        lemma_leb128_shape(value / 128);
        let tail = leb128(value / 128);
        assert forall|i: int| 0 <= i < leb128(value).len() - 1 implies leb128(value)[i] >= 128 by {
            if i > 0 {
                assert(leb128(value)[i] == tail[i - 1]);
            }
        }
    }
}

/// The shortest form of a number below `128` to the power `n` has at most `n`
/// bytes.
pub proof fn lemma_leb128_len(value: nat, n: nat)
    requires
        n > 0,
        value < pow128(n),
    ensures
        leb128(value).len() <= n,
    decreases n,
{
    if value >= 128 {
        reveal_with_fuel(pow128, 2);
        lemma_leb128_len(value / 128, (n - 1) as nat);
    }
}

/// `pow128` is the power function.
proof fn lemma_pow128(n: nat)
    ensures
        pow128(n) == vstd::arithmetic::power::pow(128, n),
    decreases n,
{
    reveal(vstd::arithmetic::power::pow);
    if n > 0 {
        lemma_pow128((n - 1) as nat);
    }
}

/// Law: byte `i` of a run counts with its low seven bits, times 128 to the
/// power `i`; the top bits do not count.
pub proof fn law_leb128_value_is_weighted(bytes: Seq<u8>, b: u8)
    ensures
        leb128_value(Seq::empty()) == 0,
        leb128_value(bytes.push(b)) == leb128_value(bytes) + vstd::arithmetic::power::pow(
            128,
            bytes.len(),
        ) * (b % 128),
{
    lemma_leb128_value_push(bytes, b);
    lemma_pow128(bytes.len());
}

/// Law: in the shortest form of a number every byte but the last is 128 or
/// more, the last is less than 128, and it is zero only where it is the only
/// byte. A number below 128 is its own form.
pub proof fn law_leb128_form_shape(value: nat)
    ensures
        leb128(value).len() > 0,
        leb128(value).last() < 128,
        forall|i: int| 0 <= i < leb128(value).len() - 1 ==> leb128(value)[i] >= 128,
        leb128(value).len() > 1 ==> leb128(value).last() > 0,
        value < 128 ==> leb128(value) == seq![value as u8],
{
    lemma_leb128_shape(value);
}

/// Law: a field takes all bytes of 128 or more from the start, and the first
/// smaller one, as far as the bytes and the limit go.
pub proof fn law_leb128_run(bytes: Seq<u8>, limit: nat)
    ensures
        ({
            let n = leb128_run(bytes, limit) as int;
            &&& n <= limit
            &&& n <= bytes.len()
            &&& forall|i: int| 0 <= i < n - 1 ==> bytes[i] >= 128
            &&& n < limit && n < bytes.len() ==> n > 0 && bytes[n - 1] < 128
        }),
    decreases limit,
{
    lemma_leb128_run_bounds(bytes, limit);
    let n = leb128_run(bytes, limit) as int;
    assert forall|i: int| 0 <= i < n - 1 implies bytes[i] >= 128 by {
        lemma_leb128_run_continues(bytes, limit, i);
    }
    if bytes.len() > 0 && limit > 0 && bytes[0] >= 128 {
        law_leb128_run(bytes.drop_first(), (limit - 1) as nat);
    }
}

/// Law: decoding the shortest form of a number gives the number back.
pub proof fn law_leb128_value_of_form(value: nat)
    ensures
        leb128_value(leb128(value)) == value,
    decreases value,
{
    reveal_with_fuel(leb128_value, 2);
    if value >= 128 {
        law_leb128_value_of_form(value / 128);
        assert(leb128(value).drop_first() =~= leb128(value / 128));
    } else {
        assert(leb128(value).drop_first() =~= Seq::<u8>::empty());
    }
}

/// Law: a number below 2^56 that is written in LEB128 is read back from the
/// start of any bytes that follow it, as the same number and with the length
/// of its form.
pub proof fn law_leb128_round_trip(value: nat, rest: Seq<u8>)
    requires
        value < 0x100_0000_0000_0000,
    ensures
        leb128_run(leb128(value) + rest, LEB128_MAX_LEN as nat) == leb128(value).len(),
        leb128_value((leb128(value) + rest).take(leb128(value).len() as int)) == value,
{
    let form = leb128(value);
    let n = form.len();
    let k = (n - 1) as nat;
    lemma_leb128_shape(value);
    assert(pow128(8) == 0x100_0000_0000_0000) by {
        reveal_with_fuel(pow128, 9);
    }
    lemma_leb128_len(value, 8);
    lemma_leb128_run_skip(form + rest, 8, k);
    assert((form + rest).skip(k as int)[0] == form.last());
    reveal_with_fuel(leb128_run, 2);
    law_leb128_value_of_form(value);
    assert((form + rest).take(n as int) =~= form);
}

/// Law: a finished field without padding is the shortest form of its number.
pub proof fn law_leb128_form_is_unique(bytes: Seq<u8>)
    requires
        bytes.len() > 0,
        bytes.last() < 128,
        forall|i: int| 0 <= i < bytes.len() - 1 ==> bytes[i] >= 128,
        bytes.len() > 1 ==> bytes.last() > 0,
    ensures
        leb128(leb128_value(bytes)) == bytes,
    decreases bytes.len(),
{
    reveal_with_fuel(leb128_value, 2);
    if bytes.len() == 1 {
        assert(bytes.drop_first() =~= Seq::<u8>::empty());
        assert(leb128(leb128_value(bytes)) =~= bytes);
    } else {
        let rest = bytes.drop_first();
        assert forall|i: int| 0 <= i < rest.len() - 1 implies rest[i] >= 128 by {
            assert(rest[i] == bytes[i + 1]);
        }
        law_leb128_form_is_unique(rest);
        let tail = leb128_value(rest);
        lemma_leb128_value_positive(rest);
        assert(leb128_value(bytes) == (bytes[0] - 128) + 128 * tail);
        assert(leb128_value(bytes) / 128 == tail && leb128_value(bytes) % 128 == bytes[0] - 128);
        assert(seq![bytes[0]] + rest =~= bytes);
    }
}

/// A run whose last byte is a non-zero digit stands for a non-zero number.
proof fn lemma_leb128_value_positive(bytes: Seq<u8>)
    requires
        bytes.len() > 0,
        0 < bytes.last() < 128,
    ensures
        leb128_value(bytes) > 0,
    decreases bytes.len(),
{
    if bytes.len() > 1 {
        lemma_leb128_value_positive(bytes.drop_first());
    }
}

/// Writes a number in its shortest LEB128 form.
pub fn encode_leb128(value: u64) -> (out: Vec<u8>)
    ensures
        out@ == leb128(value as nat),
{
    let mut remaining: u64 = value;
    let mut out: Vec<u8> = Vec::new();
    while remaining >= 128
        invariant
            leb128(value as nat) == out@ + leb128(remaining as nat),
        decreases remaining,
    {
        let byte: u8 = 128 + (remaining % 128) as u8;
        let ghost before = out@;
        out.push(byte);
        assert(out@ + leb128((remaining / 128) as nat) =~= before + leb128(remaining as nat));
        remaining = remaining / 128;
    }
    let ghost before = out@;
    out.push(remaining as u8);
    assert(out@ =~= before + leb128(remaining as nat));
    out
}

/// Writes a length in its shortest LEB128 form.
pub fn write_uleb128(value: usize) -> (out: Vec<u8>)
    ensures
        out@ == leb128(value as nat),
{
    encode_leb128(value as u64)
}

/// Reads the LEB128 field at the start of `data`: its number and its length in
/// bytes. A field that the end of `data` or the limit of eight bytes cuts off
/// counts with the bytes it has.
pub fn decode_leb128(data: &[u8]) -> (r: (u64, usize))
    ensures
        r.1 == leb128_run(data@, LEB128_MAX_LEN as nat),
        r.0 == leb128_value(data@.take(r.1 as int)),
{
    let mut value: u64 = 0;
    let mut weight: u64 = 1;
    let mut len: usize = 0;
    proof {
        reveal_with_fuel(pow128, 9);
        assert(data@.take(0) =~= Seq::<u8>::empty());
    }
    while len < data.len() && len < LEB128_MAX_LEN
        invariant
            len <= data.len(),
            len <= LEB128_MAX_LEN,
            weight == pow128(len as nat),
            value == leb128_value(data@.take(len as int)),
            value < weight,
            forall|i: int| 0 <= i < len ==> data@[i] >= 128,
            pow128(8) == 0x100_0000_0000_0000,
            forall|k: nat| k < 8 ==> #[trigger] pow128(k) <= 0x2_0000_0000_0000,
        decreases data.len() - len,
    {
        let byte: u8 = data[len];
        let digit: u64 = (byte % 128) as u64;
        proof {
            lemma_leb128_value_push(data@.take(len as int), byte);
            lemma_leb128_value_bound(data@.take(len + 1));
            assert(data@.take(len as int).push(byte) =~= data@.take(len + 1));
            assert(weight * digit <= 0x2_0000_0000_0000 * 127) by (nonlinear_arith)
                requires
                    weight <= 0x2_0000_0000_0000,
                    digit <= 127,
            ;
        }
        value = value + weight * digit;
        weight = weight * 128;
        len = len + 1;
        if byte < 128 {
            proof {
                let k = (len - 1) as nat;
                lemma_leb128_run_skip(data@, 8, k);
                assert(data@.skip(k as int)[0] == byte);
                reveal_with_fuel(leb128_run, 2);
            }
            return (value, len);
        }
    }
    proof {
        lemma_leb128_run_skip(data@, 8, len as nat);
    }
    (value, len)
}

} // verus!
