//! Runs of units.

use crate::detect;
use crate::error::Av1Error;
use crate::obu;
use crate::obu::{Obu, ObuModel};
use crate::reader::ByteReader;
use vstd::prelude::*;

verus! {

/// What reading unit after unit gives: the units, and the fault that stopped
/// the reading before the end of the input, if there was one.
#[verifier::ext_equal]
pub struct ObuScan {
    pub units: Seq<ObuModel>,
    pub fault: Option<Av1Error>,
}

/// The units of a byte sequence up to its end or its first fault.
pub open spec fn scan_obus(bytes: Seq<u8>) -> ObuScan
    decreases bytes.len(),
{
    match obu::parse_obu(bytes) {
        Ok(None) => ObuScan { units: Seq::empty(), fault: None },
        Err(e) => ObuScan { units: Seq::empty(), fault: Some(e) },
        Ok(Some(obu)) => {
            proof {
                obu::law_unit_delimits_itself(bytes, Seq::empty());
            }
            let rest = scan_obus(bytes.skip(obu.raw_bytes.len() as int));
            ObuScan { units: seq![obu] + rest.units, fault: rest.fault }
        },
    }
}

/// The bytes of units, one after the other.
pub open spec fn concat_raw(units: Seq<ObuModel>) -> Seq<u8>
    decreases units.len(),
{
    if units.len() == 0 {
        Seq::empty()
    } else {
        concat_raw(units.drop_last()) + units.last().raw_bytes
    }
}

/// The units that are no HDR10+ metadata, in their order.
pub open spec fn without_hdr10plus(
    units: Seq<ObuModel>,
    validate: bool,
) -> Seq<ObuModel> {
    units.filter(|obu: ObuModel| !detect::is_hdr10plus(obu, validate))
}

/// A unit that its own bytes give when they are read.
pub open spec fn reads_as_itself(obu: ObuModel) -> bool {
    obu::parse_obu(obu.raw_bytes) == Ok::<Option<ObuModel>, Av1Error>(Some(obu))
}

/// Units that their own bytes give when they are read.
pub open spec fn all_read_as_themselves(units: Seq<ObuModel>) -> bool {
    forall|i: int| 0 <= i < units.len() ==> #[trigger] reads_as_itself(units[i])
}

/// The bytes of two runs of units.
pub proof fn lemma_concat_raw_add(
    a: Seq<ObuModel>,
    b: Seq<ObuModel>,
)
    ensures
        concat_raw(a + b) == concat_raw(a) + concat_raw(b),
    decreases b.len(),
{
    if b.len() == 0 {
        assert(a + b =~= a);
        assert(concat_raw(a) + concat_raw(b) =~= concat_raw(a));
    } else {
        lemma_concat_raw_add(a, b.drop_last());
        assert((a + b).drop_last() =~= a + b.drop_last());
        assert(concat_raw(a + b) =~= concat_raw(a) + concat_raw(b));
    }
}

/// The bytes of a single unit.
pub proof fn lemma_concat_raw_one(obu: ObuModel)
    ensures
        concat_raw(seq![obu]) == obu.raw_bytes,
{
    assert(seq![obu].drop_last() =~= Seq::empty());
    reveal_with_fuel(concat_raw, 2);
    assert(concat_raw(seq![obu]) =~= obu.raw_bytes);
}

/// Law: reading loses nothing. Where a byte sequence is read without a fault,
/// the bytes of its units, one after the other, are the sequence, and each unit
/// is what its own bytes give.
pub proof fn law_reading_is_lossless(bytes: Seq<u8>)
    ensures
        all_read_as_themselves(scan_obus(bytes).units),
        scan_obus(bytes).fault is None ==> concat_raw(scan_obus(bytes).units) == bytes,
    decreases bytes.len(),
{
    match obu::parse_obu(bytes) {
        Ok(Some(obu)) => {
            let n = obu.raw_bytes.len() as int;
            obu::law_unit_delimits_itself(bytes, Seq::empty());
            assert(obu.raw_bytes + Seq::<u8>::empty() =~= obu.raw_bytes);
            law_reading_is_lossless(bytes.skip(n));
            let rest = scan_obus(bytes.skip(n)).units;
            lemma_concat_raw_add(seq![obu], rest);
            lemma_concat_raw_one(obu);
            assert(bytes =~= obu.raw_bytes + bytes.skip(n));
            let units = scan_obus(bytes).units;
            assert(units =~= seq![obu] + rest);
            assert forall|i: int| 0 <= i < units.len() implies #[trigger] reads_as_itself(
                units[i],
            ) by {
                if i > 0 {
                    assert(units[i] == rest[i - 1]);
                }
            }
        },
        Ok(None) => {
            assert(bytes =~= Seq::empty());
        },
        Err(_) => {},
    }
}

/// Law: units that are written one after the other are read back as the same
/// units.
pub proof fn law_written_units_read_back(units: Seq<ObuModel>)
    requires
        all_read_as_themselves(units),
    ensures
        scan_obus(concat_raw(units)) == (ObuScan { units, fault: None::<Av1Error> }),
    decreases units.len(),
{
    if units.len() == 0 {
        assert(scan_obus(concat_raw(units)).units =~= units);
    } else {
        let first = units[0];
        let rest = units.drop_first();
        assert(reads_as_itself(units[0]));
        assert forall|i: int| 0 <= i < rest.len() implies #[trigger] reads_as_itself(rest[i]) by {
            assert(reads_as_itself(units[i + 1]));
        }
        law_written_units_read_back(rest);
        assert(seq![first] + rest =~= units);
        lemma_concat_raw_add(seq![first], rest);
        lemma_concat_raw_one(first);
        let bytes = concat_raw(units);
        obu::law_unit_delimits_itself(first.raw_bytes, concat_raw(rest));
        assert(bytes == first.raw_bytes + concat_raw(rest));
        assert(bytes.skip(first.raw_bytes.len() as int) =~= concat_raw(rest));
    }
}

/// Taking the metadata out of a run that grows by one unit.
pub proof fn lemma_without_push(units: Seq<ObuModel>, obu: ObuModel, validate: bool)
    ensures
        without_hdr10plus(units.push(obu), validate) == (if detect::is_hdr10plus(obu, validate) {
            without_hdr10plus(units, validate)
        } else {
            without_hdr10plus(units, validate).push(obu)
        }),
{
    reveal(Seq::filter);
    assert(units.push(obu).drop_last() =~= units);
}

/// Taking the metadata out of two runs.
pub proof fn lemma_without_add(a: Seq<ObuModel>, b: Seq<ObuModel>, validate: bool)
    ensures
        without_hdr10plus(a + b, validate) == without_hdr10plus(a, validate) + without_hdr10plus(
            b,
            validate,
        ),
{
    Seq::filter_distributes_over_add(
        a,
        b,
        |obu: ObuModel| !detect::is_hdr10plus(obu, validate),
    );
}

/// Units of which none is HDR10+ metadata.
pub open spec fn free_of_hdr10plus(units: Seq<ObuModel>, validate: bool) -> bool {
    forall|i: int| 0 <= i < units.len() ==> !detect::is_hdr10plus(#[trigger] units[i], validate)
}

/// Law: what is left after the metadata is taken out holds none, is what it was
/// where there was none, keeps units that read as themselves, and takes no more
/// bytes than before.
pub proof fn law_without_hdr10plus(units: Seq<ObuModel>, validate: bool)
    ensures
        free_of_hdr10plus(without_hdr10plus(units, validate), validate),
        free_of_hdr10plus(units, validate) ==> without_hdr10plus(units, validate) == units,
        all_read_as_themselves(units) ==> all_read_as_themselves(
            without_hdr10plus(units, validate),
        ),
        concat_raw(without_hdr10plus(units, validate)).len() <= concat_raw(units).len(),
    decreases units.len(),
{
    reveal(Seq::filter);
    if units.len() > 0 {
        let front = units.drop_last();
        let last = units.last();
        law_without_hdr10plus(front, validate);
        let kept = without_hdr10plus(front, validate);
        assert(front.push(last) =~= units);
        lemma_without_push(front, last, validate);
        assert(kept.push(last).drop_last() =~= kept);
        if free_of_hdr10plus(units, validate) {
            assert forall|i: int| 0 <= i < front.len() implies !detect::is_hdr10plus(
                #[trigger] front[i],
                validate,
            ) by {
                assert(front[i] == units[i]);
            }
            assert(!detect::is_hdr10plus(units[units.len() - 1], validate));
        }
        if all_read_as_themselves(units) {
            assert forall|i: int| 0 <= i < front.len() implies #[trigger] reads_as_itself(
                front[i],
            ) by {
                assert(reads_as_itself(units[i]));
            }
            assert(reads_as_itself(units[units.len() - 1]));
        }
    }
}

/// Reads all units of one IVF frame.
pub fn read_obus_from_ivf_frame(frame_data: Vec<u8>) -> (r: Result<Vec<Obu>, Av1Error>)
    ensures
        match r {
            Ok(obus) => scan_obus(frame_data@) == (ObuScan {
                units: obu::obu_models(obus@),
                fault: None::<Av1Error>,
            }),
            Err(e) => scan_obus(frame_data@).fault == Some(e),
        },
{
    let ghost all = scan_obus(frame_data@);
    let mut reader = ByteReader::new(frame_data);
    let mut obus: Vec<Obu> = Vec::new();
    assert(all.units =~= obu::obu_models(obus@) + scan_obus(reader@).units);
    loop
        invariant
            all.units == obu::obu_models(obus@) + scan_obus(reader@).units,
            all.fault == scan_obus(reader@).fault,
            all == scan_obus(frame_data@),
        decreases reader@.len(),
    {
        let ghost before = reader@;
        let ghost read = obus@;
        proof {
            if obu::parse_obu(before) matches Ok(Some(_)) {
                obu::law_unit_delimits_itself(before, Seq::empty());
            }
        }
        match Obu::read_from(&mut reader) {
            Ok(Some(obu)) => {
                obus.push(obu);
                proof {
                    assert(obu::obu_models(obus@) =~= obu::obu_models(read).push(
                        obu@,
                    ));
                    assert(all.units =~= obu::obu_models(obus@) + scan_obus(reader@).units);
                }
            },
            Ok(None) => {
                assert(all.units =~= obu::obu_models(obus@));
                return Ok(obus);
            },
            Err(e) => {
                return Err(e);
            },
        }
    }
}

/// Law: units that are whole are read first, whatever follows them, and then
/// what follows is read as it would be alone.
pub proof fn law_units_are_read_in_order(units: Seq<ObuModel>, rest: Seq<u8>)
    requires
        all_read_as_themselves(units),
    ensures
        scan_obus(concat_raw(units) + rest) == (ObuScan {
            units: units + scan_obus(rest).units,
            fault: scan_obus(rest).fault,
        }),
    decreases units.len(),
{
    if units.len() == 0 {
        assert(concat_raw(units) + rest =~= rest);
        assert(units + scan_obus(rest).units =~= scan_obus(rest).units);
    } else {
        let first = units[0];
        let others = units.drop_first();
        assert(reads_as_itself(units[0]));
        assert forall|i: int| 0 <= i < others.len() implies #[trigger] reads_as_itself(
            others[i],
        ) by {
            assert(reads_as_itself(units[i + 1]));
        }
        law_units_are_read_in_order(others, rest);
        assert(seq![first] + others =~= units);
        lemma_concat_raw_add(seq![first], others);
        lemma_concat_raw_one(first);
        let tail = concat_raw(others) + rest;
        let bytes = concat_raw(units) + rest;
        obu::law_unit_delimits_itself(first.raw_bytes, tail);
        assert(bytes =~= first.raw_bytes + tail);
        assert(bytes.skip(first.raw_bytes.len() as int) =~= tail);
        assert(scan_obus(bytes).units =~= units + scan_obus(rest).units);
    }
}

/// Law: where no unit can be read, reading stops, with the fault if there is
/// one.
pub proof fn law_reading_stops_at_a_fault(bytes: Seq<u8>)
    ensures
        obu::parse_obu(bytes) matches Err(e) ==> scan_obus(bytes) == (ObuScan {
            units: Seq::empty(),
            fault: Some(e),
        }),
        scan_obus(Seq::empty()) == (ObuScan { units: Seq::empty(), fault: None::<Av1Error> }),
{
}

/// Law: the bytes of units, one after the other, are known from those of a
/// single unit: they are its bytes, and those of two runs follow each other.
pub proof fn law_concat_raw(a: Seq<ObuModel>, b: Seq<ObuModel>, obu: ObuModel)
    ensures
        concat_raw(Seq::empty()) == Seq::<u8>::empty(),
        concat_raw(seq![obu]) == obu.raw_bytes,
        concat_raw(a + b) == concat_raw(a) + concat_raw(b),
{
    lemma_concat_raw_one(obu);
    lemma_concat_raw_add(a, b);
}

/// Law: taking metadata out concerns each unit alone: HDR10+ metadata goes, any
/// other unit stays, and the order is kept.
pub proof fn law_each_unit_stays_or_goes(
    a: Seq<ObuModel>,
    b: Seq<ObuModel>,
    obu: ObuModel,
    validate: bool,
)
    ensures
        without_hdr10plus(Seq::empty(), validate) == Seq::<ObuModel>::empty(),
        without_hdr10plus(seq![obu], validate) == (if detect::is_hdr10plus(obu, validate) {
            Seq::empty()
        } else {
            seq![obu]
        }),
        without_hdr10plus(a + b, validate) == without_hdr10plus(a, validate) + without_hdr10plus(
            b,
            validate,
        ),
{
    lemma_without_add(a, b, validate);
    reveal(Seq::filter);
    let none = Seq::<ObuModel>::empty();
    assert(without_hdr10plus(none, validate) =~= none);
    assert(none.push(obu) =~= seq![obu]);
    lemma_without_push(none, obu, validate);
}

} // verus!
