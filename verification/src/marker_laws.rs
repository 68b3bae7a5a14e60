//! Furniture interaction points: clearing the ones a record cannot back
//! is done in one pass.
use vstd::prelude::*;
use crate::bytes::{le32, lemma_le32_splice, splice, u32_bytes};
use crate::furniture::{entry_marker_count, furniture_has_model, invalid_marker_bits, marker_count, markers_cleared};
use crate::hook::marker_bits_step;
use crate::model::{code, EntryView, FieldView, RecordView};
use crate::values::{has_bits, with_bits_cleared};

verus! {

proof fn lemma_cleared_keeps_model_bit(v: FieldView, m: u32)
    requires
        m & 0x4000_0000 == 0,
    ensures
        has_bits(with_bits_cleared(v, m), 0x4000_0000) == has_bits(v, 0x4000_0000),
    decreases v,
{
    match v {
        FieldView::Uint(n) => {
            assert(((n & !(m as u64)) as u32) & 0x4000_0000u32 == (n as u32) & 0x4000_0000u32) by (bit_vector)
                requires
                    m & 0x4000_0000u32 == 0,
            ;
        },
        FieldView::Int(n) => {
            assert(((((n as u32) & !m) as i64) as u32) & 0x4000_0000u32 == (n as u32) & 0x4000_0000u32) by (bit_vector)
                requires
                    m & 0x4000_0000u32 == 0,
            ;
        },
        FieldView::Bytes(b) => {
            if b.len() >= 4 {
                let x = le32(b, 0);
                lemma_le32_splice(b, 0, x & !m);
                assert((x & !m) & 0x4000_0000u32 == x & 0x4000_0000u32) by (bit_vector)
                    requires
                        m & 0x4000_0000u32 == 0,
                ;
            }
        },
        FieldView::Struct(fields) => {
            if fields.len() > 0 {
                assert(decreases_to!(v => fields[0].1));
                lemma_cleared_keeps_model_bit(fields[0].1, m);
            }
        },
        _ => {},
    }
}

proof fn lemma_cleared_twice(v: FieldView, m: u32)
    ensures
        with_bits_cleared(with_bits_cleared(v, m), m) == with_bits_cleared(v, m),
    decreases v,
{
    match v {
        FieldView::Uint(n) => {
            assert((n & !(m as u64)) & !(m as u64) == n & !(m as u64)) by (bit_vector);
        },
        FieldView::Int(n) => {
            assert(((((n as u32) & !m) as i64) as u32 & !m) as i64 == ((n as u32) & !m) as i64) by (bit_vector);
        },
        FieldView::Bytes(b) => {
            if b.len() >= 4 {
                let x = le32(b, 0);
                lemma_le32_splice(b, 0, x & !m);
                assert((x & !m) & !m == x & !m) by (bit_vector);
                let c = splice(b, 0, u32_bytes(x & !m));
                assert(splice(c, 0, u32_bytes(x & !m)) =~= c);
            }
        },
        FieldView::Struct(fields) => {
            if fields.len() > 0 {
                assert(decreases_to!(v => fields[0].1));
                lemma_cleared_twice(fields[0].1, m);
                let once = fields.update(0, (fields[0].0, with_bits_cleared(fields[0].1, m)));
                assert(once.update(0, (once[0].0, with_bits_cleared(once[0].1, m))) =~= once);
            }
        },
        _ => {},
    }
}

proof fn lemma_marker_count_cleared(f: Seq<EntryView>, bits: u32)
    ensures
        marker_count(f.map_values(|e: EntryView| markers_cleared(e, bits))) == marker_count(f),
    decreases f.len(),
{
    let g = f.map_values(|e: EntryView| markers_cleared(e, bits));
    if f.len() > 0 {
        lemma_marker_count_cleared(f.drop_last(), bits);
        assert(g.drop_last() =~= f.drop_last().map_values(|e: EntryView| markers_cleared(e, bits)));
        assert(g.last() == markers_cleared(f.last(), bits));
        assert(entry_marker_count(g.last()) == entry_marker_count(f.last()));
    }
}

proof fn lemma_mask_low(y: u32)
    ensures
        (0x003F_FFFFu32 & y) & 0x4000_0000u32 == 0,
{
    assert((0x003F_FFFFu32 & y) & 0x4000_0000u32 == 0) by (bit_vector);
}

/// Clearing the interaction points a furniture or terminal cannot back is
/// done in one pass: a second pass finds the same points invalid and
/// changes nothing.
pub proof fn law_marker_bits_idempotent(r: RecordView)
    ensures
        marker_bits_step(marker_bits_step(r)) == marker_bits_step(r),
{
    let bits = invalid_marker_bits(r);
    if (r.sig == code('F', 'U', 'R', 'N') || r.sig == code('T', 'E', 'R', 'M')) && bits != 0 {
        let r1 = marker_bits_step(r);
        assert(r1.fields == r.fields.map_values(|e: EntryView| markers_cleared(e, bits)));
        lemma_marker_count_cleared(r.fields, bits);
        let c = if marker_count(r.fields) > 22 { 22nat } else { marker_count(r.fields) };
        let c2 = if c == 0 && furniture_has_model(r) { 1nat } else { c };
        let valid: u32 = if c2 == 0 { 0 } else { ((1u32 << (c2 as u32)) - 1) as u32 };
        assert(bits == 0x003F_FFFFu32 & !valid);
        lemma_mask_low(!valid);
        assert forall|j: int| 0 <= j < r.fields.len() implies (#[trigger] r1.fields[j].sig == code('M', 'N', 'A', 'M')
            && has_bits(r1.fields[j].value, 0x4000_0000)) == (r.fields[j].sig == code('M', 'N', 'A', 'M') && has_bits(
            r.fields[j].value,
            0x4000_0000,
        )) by {
            lemma_cleared_keeps_model_bit(r.fields[j].value, bits);
        }
        assert(furniture_has_model(r1) == furniture_has_model(r)) by {
            if furniture_has_model(r) {
                let j = choose|j: int| 0 <= j < r.fields.len() && #[trigger] r.fields[j].sig == code('M', 'N', 'A', 'M')
                    && has_bits(r.fields[j].value, 0x4000_0000);
                assert(r1.fields[j].sig == code('M', 'N', 'A', 'M'));
            }
            if furniture_has_model(r1) {
                let j = choose|j: int| 0 <= j < r1.fields.len() && #[trigger] r1.fields[j].sig == code('M', 'N', 'A', 'M')
                    && has_bits(r1.fields[j].value, 0x4000_0000);
                assert(r1.fields[j].sig == code('M', 'N', 'A', 'M'));
            }
        }
        assert(invalid_marker_bits(r1) == bits);
        let r2 = marker_bits_step(r1);
        assert forall|j: int| 0 <= j < r1.fields.len() implies #[trigger] r2.fields[j] == r1.fields[j] by {
            if r.fields[j].sig == code('M', 'N', 'A', 'M') {
                lemma_cleared_twice(r.fields[j].value, bits);
            }
        }
        assert(r2.fields =~= r1.fields);
    }
}

} // verus!
