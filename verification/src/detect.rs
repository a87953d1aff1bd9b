//! Detection of HDR10+ metadata units.
//!
//! The payload of a metadata unit that carries HDR10+ data is laid out as
//!
//! ```text
//! metadata_type  (LEB128)  = 4
//! country_code   (u8)      = 0xB5
//! provider_code  (u16 BE)  = 0x003C
//! oriented_code  (u16 BE)  = 0x0001
//! app_id         (u8)      = 4
//! app_version    (u8)      = 1
//! <HDR10+ payload bits>
//! ```

use crate::leb128;
use crate::leb128::{decode_leb128, LEB128_MAX_LEN};
use crate::obu::{OBU_METADATA, Obu, ObuModel};
use vstd::prelude::*;
use vstd::slice::{slice_subrange, slice_to_vec};

verus! {

/// Metadata type for ITU-T T.35.
pub const METADATA_TYPE_ITUT_T35: u64 = 4;

pub const HDR10PLUS_COUNTRY_CODE: u8 = 0xB5;

pub const HDR10PLUS_PROVIDER_CODE: u16 = 0x003C;

pub const HDR10PLUS_ORIENTED_CODE: u16 = 0x0001;

pub const HDR10PLUS_APP_ID: u8 = 4;

/// The number in two bytes, the heavier byte first.
pub open spec fn be16(high: u8, low: u8) -> int {
    high * 256 + low
}

/// An application version that is accepted.
pub open spec fn valid_app_version(version: u8, validate: bool) -> bool {
    if validate {
        version == 1
    } else {
        version <= 1
    }
}

/// A T.35 message, from its country code on, that is HDR10+.
pub open spec fn is_hdr10plus_t35(t35: Seq<u8>, validate: bool) -> bool {
    &&& t35.len() >= 7
    &&& t35[0] == HDR10PLUS_COUNTRY_CODE
    &&& be16(t35[1], t35[2]) == HDR10PLUS_PROVIDER_CODE
    &&& be16(t35[3], t35[4]) == HDR10PLUS_ORIENTED_CODE
    &&& t35[5] == HDR10PLUS_APP_ID
    &&& valid_app_version(t35[6], validate)
}

/// The HDR10+ T.35 message in the payload of a metadata unit, if there is one.
pub open spec fn hdr10plus_t35(payload: Seq<u8>, validate: bool) -> Option<Seq<u8>> {
    let type_len = leb128::leb128_run(payload, LEB128_MAX_LEN as nat);
    let metadata_type = leb128::leb128_value(payload.take(type_len as int));
    let t35 = payload.skip(type_len as int);
    if metadata_type == METADATA_TYPE_ITUT_T35 && is_hdr10plus_t35(t35, validate) {
        Some(t35)
    } else {
        None
    }
}

/// A metadata unit that carries an HDR10+ T.35 message.
pub open spec fn is_hdr10plus(obu: ObuModel, validate: bool) -> bool {
    obu.obu_type == OBU_METADATA && hdr10plus_t35(obu.payload, validate) is Some
}

/// The T.35 bytes, from the country code on, of a metadata payload that
/// contains HDR10+ data.
pub fn extract_hdr10plus_t35_bytes(obu_payload: &[u8], validate: bool) -> (r: Option<Vec<u8>>)
    ensures
        match r {
            Some(t35) => hdr10plus_t35(obu_payload@, validate) == Some(t35@),
            None => hdr10plus_t35(obu_payload@, validate) is None,
        },
{
    let (metadata_type, type_len) = decode_leb128(obu_payload);
    proof {
        leb128::lemma_leb128_run_bounds(obu_payload@, LEB128_MAX_LEN as nat);
    }
    if metadata_type != METADATA_TYPE_ITUT_T35 {
        return None;
    }
    let t35 = slice_subrange(obu_payload, type_len, obu_payload.len());
    assert(t35@ =~= obu_payload@.skip(type_len as int));
    if t35.len() < 7 {
        return None;
    }
    if t35[0] != HDR10PLUS_COUNTRY_CODE {
        return None;
    }
    let provider_code: u16 = t35[1] as u16 * 256 + t35[2] as u16;
    let oriented_code: u16 = t35[3] as u16 * 256 + t35[4] as u16;
    let app_id: u8 = t35[5];
    let app_version: u8 = t35[6];
    if provider_code != HDR10PLUS_PROVIDER_CODE || oriented_code != HDR10PLUS_ORIENTED_CODE
        || app_id != HDR10PLUS_APP_ID {
        return None;
    }
    let valid_version: bool = if validate {
        app_version == 1
    } else {
        app_version <= 1
    };
    if !valid_version {
        return None;
    }
    Some(slice_to_vec(t35))
}

/// Whether a unit is a metadata unit that carries HDR10+ T.35 data.
pub fn is_hdr10plus_obu(obu: &Obu, validate: bool) -> (r: bool)
    ensures
        r == is_hdr10plus(obu@, validate),
{
    obu.obu_type == OBU_METADATA && extract_hdr10plus_t35_bytes(
        obu.payload.as_slice(),
        validate,
    ).is_some()
}

/// Law: what is HDR10+ under validation is HDR10+ without it.
pub proof fn law_validation_only_narrows(payload: Seq<u8>)
    ensures
        hdr10plus_t35(payload, true) is Some ==> hdr10plus_t35(payload, false) == hdr10plus_t35(
            payload,
            true,
        ),
{
}

/// Law: nothing but HDR10+ is detected. A message that is extracted is the end of
/// the payload, what comes before it is the number 4 in LEB128, and the message
/// has at least seven bytes: `B5 00 3C 00 01 04`, then the version 1, or 0
/// without validation.
pub proof fn law_only_hdr10plus_is_detected(payload: Seq<u8>, validate: bool)
    ensures
        hdr10plus_t35(payload, validate) matches Some(t35) ==> {
            let n = payload.len() - t35.len();
            &&& 1 <= n <= 8
            &&& payload.skip(n) == t35
            &&& payload[0] == 4 || payload[0] == 0x84
            &&& forall|i: int| 0 < i < n ==> #[trigger] payload[i] % 128 == 0
            &&& forall|i: int| 0 <= i < n - 1 ==> #[trigger] payload[i] >= 128
            &&& n < 8 ==> payload[n - 1] < 128
            &&& t35.len() >= 7
            &&& t35.take(6) == seq![0xB5u8, 0x00, 0x3C, 0x00, 0x01, 0x04]
            &&& t35[6] == 1 || (t35[6] == 0 && !validate)
        },
{
    let n = leb128::leb128_run(payload, 8);
    leb128::law_leb128_run(payload, 8);
    if hdr10plus_t35(payload, validate) is Some {
        let t35 = payload.skip(n as int);
        let digits = payload.take(n as int);
        if n == 0 {
            assert(digits =~= Seq::empty());
            leb128::law_leb128_value_is_weighted(digits, 0);
        }
        assert(n > 0);
        lemma_digits_of_four(digits);
        assert(payload[0] == digits[0]);
        assert forall|i: int| 0 < i < n implies #[trigger] payload[i] % 128 == 0 by {
            assert(digits[i] == payload[i]);
        }
        assert(t35.take(6) =~= seq![0xB5u8, 0x00, 0x3C, 0x00, 0x01, 0x04]);
    }
}

/// The digits of the number 4.
proof fn lemma_digits_of_four(digits: Seq<u8>)
    requires
        digits.len() > 0,
        leb128::leb128_value(digits) == 4,
    ensures
        digits[0] == 4 || digits[0] == 0x84,
        forall|i: int| 0 < i < digits.len() ==> #[trigger] digits[i] % 128 == 0,
{
    let rest = digits.drop_first();
    assert(leb128::leb128_value(rest) == 0);
    lemma_digits_of_zero(rest);
    assert forall|i: int| 0 < i < digits.len() implies #[trigger] digits[i] % 128 == 0 by {
        assert(digits[i] == rest[i - 1]);
    }
}

/// The digits of the number 0.
proof fn lemma_digits_of_zero(digits: Seq<u8>)
    requires
        leb128::leb128_value(digits) == 0,
    ensures
        forall|i: int| 0 <= i < digits.len() ==> #[trigger] digits[i] % 128 == 0,
    decreases digits.len(),
{
    if digits.len() > 0 {
        let rest = digits.drop_first();
        lemma_digits_of_zero(rest);
        assert forall|i: int| 0 <= i < digits.len() implies #[trigger] digits[i] % 128 == 0 by {
            if i > 0 {
                assert(digits[i] == rest[i - 1]);
            }
        }
    }
}

/// Zero digits make zero.
proof fn lemma_zero_digits(digits: Seq<u8>)
    requires
        forall|i: int| 0 <= i < digits.len() ==> #[trigger] digits[i] % 128 == 0,
    ensures
        leb128::leb128_value(digits) == 0,
    decreases digits.len(),
{
    if digits.len() > 0 {
        let rest = digits.drop_first();
        assert forall|i: int| 0 <= i < rest.len() implies #[trigger] rest[i] % 128 == 0 by {
            assert(rest[i] == digits[i + 1]);
        }
        lemma_zero_digits(rest);
    }
}

/// Law: all HDR10+ is detected. After the number 4 in up to eight bytes of
/// LEB128, a message of `B5 00 3C 00 01 04`, the version 1, or 0 without
/// validation, and any further bytes is extracted as it is.
pub proof fn law_hdr10plus_is_detected(field: Seq<u8>, t35: Seq<u8>, validate: bool)
    requires
        1 <= field.len() <= 8,
        field[0] % 128 == 4,
        forall|i: int| 0 < i < field.len() ==> #[trigger] field[i] % 128 == 0,
        forall|i: int| 0 <= i < field.len() - 1 ==> #[trigger] field[i] >= 128,
        field.last() < 128,
        t35.len() >= 7,
        t35.take(6) == seq![0xB5u8, 0x00, 0x3C, 0x00, 0x01, 0x04],
        t35[6] == 1 || (t35[6] == 0 && !validate),
    ensures
        hdr10plus_t35(field + t35, validate) == Some(t35),
{
    let payload = field + t35;
    let k = (field.len() - 1) as nat;
    assert forall|i: int| 0 <= i < k implies payload[i] >= 128 by {
        assert(payload[i] == field[i]);
    }
    leb128::lemma_leb128_run_skip(payload, 8, k);
    assert(payload.skip(k as int)[0] == field.last());
    reveal_with_fuel(leb128::leb128_run, 2);
    assert(payload.take(field.len() as int) =~= field);
    assert(payload.skip(field.len() as int) =~= t35);
    let rest = field.drop_first();
    assert forall|i: int| 0 <= i < rest.len() implies #[trigger] rest[i] % 128 == 0 by {
        assert(rest[i] == field[i + 1]);
    }
    lemma_zero_digits(rest);
    let start = t35.take(6);
    assert(start[0] == t35[0] && start[1] == t35[1] && start[2] == t35[2] && start[3] == t35[3]
        && start[4] == t35[4] && start[5] == t35[5]);
}

/// Law: a unit is HDR10+ where it is of type 5 and a message is extracted from
/// its payload, and nowhere else.
pub proof fn law_hdr10plus_units(obu: ObuModel, validate: bool)
    ensures
        is_hdr10plus(obu, validate) <==> obu.obu_type == 5 && hdr10plus_t35(
            obu.payload,
            validate,
        ) is Some,
{
}

} // verus!
