//! ACTI radio receivers. FO76 station frequencies lie in (0, 2048); each is
//! moved up by 2048 so that it cannot meet a frequency of FO4's own
//! stations. Frequencies are single-precision values held as their IEEE-754
//! bit patterns, and the sum is rounded as the hardware rounds it: to the
//! nearest single-precision value, ties to even.
use vstd::prelude::*;
use vstd::string::StringSliceAdditionalSpecFns;
use crate::bytes::{le32, read_u32_le, splice, u32_bytes, write_u32_le};
use crate::effects::Fo76Fo4Hook;
use crate::floatbits::{
    f32_finite, f32_lt, f32_mant, f32_parts, f32_positive, f32_scale, lemma_pow2_mono, lemma_pow2_pos, pow2,
    pow2_u128,
};
use crate::model::{code, lemma_struct_view, named_view, sig_is, EntryView, FieldEntry, FieldValue, FieldView, Record,
    RecordView, Sym};
use crate::names::{find_member, name_index};
use crate::text::{lit, StringInterner};

verus! {

/// `2048.0` as an `f32` bit pattern: the offset given to FO76 frequencies.
pub open spec fn namespace_offset() -> u32 {
    0x4500_0000
}

/// Whether a frequency is moved: a finite number greater than zero and
/// less than 2048.
pub open spec fn frequency_moved(b: u32) -> bool {
    f32_finite(b) && f32_positive(b) && f32_lt(b, namespace_offset())
}

/// `value(b) + 2048`, rounded to the nearest single-precision value with
/// ties to even, for a `b` that `frequency_moved` accepts.
///
/// The single-precision values in [2048, 4096] lie 2^-12 apart, and the bit
/// pattern `0x4500_0000 + n` is `2048 + n * 2^-12` for `n <= 2^23`. With
/// `value(b) = mant * 2^(scale - 150)`, `value(b) * 2^12` is
/// `mant / 2^(138 - scale)`; `n` is that quotient rounded to the nearest
/// integer, ties to the even one.
pub open spec fn f32_plus_2048(b: u32) -> u32 {
    let k = (138 - f32_scale(b)) as nat;
    let q = f32_mant(b) / pow2(k);
    let r = f32_mant(b) % pow2(k);
    let up = 2 * r > pow2(k) || (2 * r == pow2(k) && q % 2 == 1);
    (0x4500_0000 + q + if up { 1int } else { 0int }) as u32
}

/// A moved frequency, or the frequency as it was.
pub open spec fn frequency_namespaced(b: u32) -> u32 {
    if frequency_moved(b) { f32_plus_2048(b) } else { b }
}

proof fn lemma_moved_range(b: u32)
    ensures
        frequency_moved(b) <==> (0 < b && b < 0x4500_0000),
{
}

proof fn lemma_sum_bounds(b: u32)
    requires
        frequency_moved(b),
    ensures
        0x4500_0000 <= f32_plus_2048(b) <= 0x4580_0000,
        !frequency_moved(f32_plus_2048(b)),
{
    lemma_moved_range(b);
    let k = (138 - f32_scale(b)) as nat;
    let m = f32_mant(b);
    let p = pow2(k);
    assert(f32_scale(b) <= 137);
    assert(m < 16777216);
    lemma_pow2_mono(1, k);
    assert(pow2(1) == 2) by {
        reveal_with_fuel(pow2, 2);
    }
    let q = m / p;
    assert(q * 2 <= m) by (nonlinear_arith)
        requires
            p >= 2,
            q == m / p,
    ;
    lemma_moved_range(f32_plus_2048(b));
}

/// Move an FO76 station frequency above 2048 when it is a finite number in
/// (0, 2048); say whether it moved.
pub fn namespace_fo76_radio_frequency(frequency: &mut u32) -> (moved: bool)
    ensures
        moved == frequency_moved(*old(frequency)),
        *final(frequency) == frequency_namespaced(*old(frequency)),
{
    let b = *frequency;
    proof {
        lemma_moved_range(b);
    }
    if b == 0 || b >= 0x4500_0000 {
        return false;
    }
    let (_exp, mant, scale) = f32_parts(b);
    proof {
        lemma_sum_bounds(b);
    }
    let k: u32 = 138 - scale;
    let n: u128 = if k >= 26 {
        proof {
            lemma_pow2_mono(26, k as nat);
            assert(pow2(26) == 67108864) by {
                reveal_with_fuel(pow2, 27);
            }
            let p = pow2(k as nat);
            let mm = mant as nat;
            assert(mm / p == 0 && mm % p == mm) by (nonlinear_arith)
                requires
                    mm < p,
            ;
        }
        0
    } else {
        let pk = pow2_u128(k);
        proof {
            lemma_pow2_pos(k as nat);
            lemma_pow2_mono(k as nat, 25);
            assert(pow2(25) == 33554432) by {
                reveal_with_fuel(pow2, 26);
            }
        }
        let q = mant / pk;
        let r = mant % pk;
        let up = 2 * r > pk || (2 * r == pk && q % 2 == 1);
        if up {
            q + 1
        } else {
            q
        }
    };
    *frequency = (0x4500_0000u128 + n) as u32;
    true
}

/// A raw `RADR` payload with the frequency at offset 4 moved.
pub open spec fn raw_radr_namespaced(b: Seq<u8>) -> Seq<u8> {
    if b.len() >= 8 && frequency_moved(le32(b, 4)) {
        splice(b, 4, u32_bytes(f32_plus_2048(le32(b, 4))))
    } else {
        b
    }
}

/// Struct `RADR` data with its first `Frequency` member moved, when that
/// member is a float.
pub open spec fn struct_radr_namespaced(interner: StringInterner, m: Seq<(Sym, FieldView)>) -> Seq<(Sym, FieldView)> {
    match name_index(interner, m, "Frequency".spec_bytes()) {
        Some(j) => match m[j].1 {
            FieldView::Float(v) => m.update(j, (m[j].0, FieldView::Float(frequency_namespaced(v)))),
            _ => m,
        },
        None => m,
    }
}

/// A `RADR` entry with its frequency moved.
pub open spec fn radr_entry(interner: StringInterner, e: EntryView) -> EntryView {
    if e.sig == code('R', 'A', 'D', 'R') {
        match e.value {
            FieldView::Bytes(b) => EntryView { value: FieldView::Bytes(raw_radr_namespaced(b)), ..e },
            FieldView::Struct(m) => EntryView { value: FieldView::Struct(struct_radr_namespaced(interner, m)), ..e },
            _ => e,
        }
    } else {
        e
    }
}

/// An activator with every receiver frequency moved; other records as they
/// are.
pub open spec fn radio_namespaced(interner: StringInterner, r: RecordView) -> RecordView {
    if r.sig == code('A', 'C', 'T', 'I') {
        RecordView { fields: r.fields.map_values(|e: EntryView| radr_entry(interner, e)), ..r }
    } else {
        r
    }
}

fn radr_entry_exec(interner: &StringInterner, e: FieldEntry) -> (r: FieldEntry)
    ensures
        r@ == radr_entry(*interner, e@),
{
    if !sig_is(e.sig.0, 'R', 'A', 'D', 'R') {
        return e;
    }
    let FieldEntry { sig, value } = e;
    proof {
        if value is Struct {
            lemma_struct_view(value);
        }
    }
    let value = match value {
        FieldValue::Bytes(bytes) => {
            let mut bytes = bytes;
            if bytes.len() >= 8 {
                let mut frequency = read_u32_le(bytes.as_slice(), 4);
                if namespace_fo76_radio_frequency(&mut frequency) {
                    write_u32_le(&mut bytes, 4, frequency);
                }
            }
            FieldValue::Bytes(bytes)
        },
        FieldValue::Struct(fields) => {
            let mut fields = fields;
            match find_member(&fields, interner, lit("Frequency")) {
                Some(j) => {
                    assert(named_view(fields@)[j as int].1 == fields@[j as int].1@);
                    let found: Option<u32> = match &fields[j].1 {
                        FieldValue::Float(v) => Some(*v),
                        _ => None,
                    };
                    if let Some(v) = found {
                        let mut frequency = v;
                        namespace_fo76_radio_frequency(&mut frequency);
                        let name = fields[j].0;
                        let ghost before = named_view(fields@);
                        fields.set(j, (name, FieldValue::Float(frequency)));
                        assert(named_view(fields@) =~= before.update(
                            j as int,
                            (name, FieldView::Float(frequency_namespaced(v))),
                        ));
                    }
                },
                None => {},
            }
            let v = FieldValue::Struct(fields);
            proof {
                lemma_struct_view(v);
            }
            v
        },
        other => other,
    };
    proof {
        if value is Struct {
            lemma_struct_view(value);
        }
    }
    FieldEntry { sig: sig, value: value }
}

impl Fo76Fo4Hook {
    /// Move the frequency of every `RADR` of an activator above 2048.
    pub fn namespace_radio_receiver_frequency(interner: &StringInterner, record: &mut Record)
        ensures
            final(record)@ == radio_namespaced(*interner, old(record)@),
    {
        if !sig_is(record.sig.0, 'A', 'C', 'T', 'I') {
            return;
        }
        let ghost r0 = record@;
        let ghost orig = r0.fields;
        let mut rest: Vec<FieldEntry> = Vec::new();
        core::mem::swap(&mut record.fields, &mut rest);
        let n = rest.len();
        let mut idx: usize = 0;
        while idx < n
            invariant
                orig.len() == n,
                idx <= n,
                rest@.len() == n - idx,
                forall|j: int| 0 <= j < rest@.len() ==> rest@[j]@ == orig[idx + j],
                record.fields@.len() == idx,
                forall|j: int| 0 <= j < idx ==> #[trigger] record.fields@[j]@ == radr_entry(*interner, orig[j]),
                record@.sig == r0.sig,
                record@.form_key == r0.form_key,
                record@.eid == r0.eid,
            decreases n - idx,
        {
            let e = rest.remove(0);
            let m = radr_entry_exec(interner, e);
            record.fields.push(m);
            idx = idx + 1;
        }
        assert(record@.fields =~= radio_namespaced(*interner, r0).fields);
    }
}

} // verus!

verus! {

proof fn lemma_namespaced_once(b: u32)
    ensures
        frequency_namespaced(frequency_namespaced(b)) == frequency_namespaced(b),
{
    if frequency_moved(b) {
        lemma_sum_bounds(b);
    }
}

proof fn lemma_name_index_same_names(
    interner: StringInterner,
    m: Seq<(Sym, FieldView)>,
    m2: Seq<(Sym, FieldView)>,
    name: Seq<u8>,
)
    requires
        m.len() == m2.len(),
        forall|j: int| 0 <= j < m.len() ==> #[trigger] m2[j].0 == m[j].0,
    ensures
        name_index(interner, m2, name) == name_index(interner, m, name),
{
    assert forall|j: int| 0 <= j < m.len() implies (crate::names::name_is_at(interner, m2, name, j)
        == #[trigger] crate::names::name_is_at(interner, m, name, j)) by {
        assert(m2[j].0 == m[j].0);
    }
    assert forall|j: int| 0 <= j < m.len() implies (#[trigger] crate::names::name_is_at(interner, m2, name, j)
        == crate::names::name_is_at(interner, m, name, j)) by {
        assert(m2[j].0 == m[j].0);
    }
    match name_index(interner, m, name) {
        Some(a) => {
            assert(crate::names::name_is_at(interner, m2, name, a));
            assert(forall|k: int| 0 <= k < a ==> !crate::names::name_is_at(interner, m2, name, k));
            match name_index(interner, m2, name) {
                Some(c) => {
                    if c < a {
                        assert(!crate::names::name_is_at(interner, m, name, c));
                    } else if a < c {
                        assert(!crate::names::name_is_at(interner, m2, name, a));
                    }
                },
                None => {},
            }
        },
        None => {
            match name_index(interner, m2, name) {
                Some(c) => {
                    assert(crate::names::name_is_at(interner, m, name, c));
                    assert(forall|k: int| 0 <= k < c ==> !crate::names::name_is_at(interner, m, name, k));
                },
                None => {},
            }
        },
    }
}

proof fn lemma_radr_entry_once(interner: StringInterner, e: EntryView)
    ensures
        radr_entry(interner, radr_entry(interner, e)) == radr_entry(interner, e),
{
    if e.sig == code('R', 'A', 'D', 'R') {
        match e.value {
            FieldView::Bytes(b) => {
                if b.len() >= 8 && frequency_moved(le32(b, 4)) {
                    lemma_sum_bounds(le32(b, 4));
                    crate::bytes::lemma_le32_splice(b, 4, f32_plus_2048(le32(b, 4)));
                }
            },
            FieldView::Struct(m) => {
                let m1 = struct_radr_namespaced(interner, m);
                match name_index(interner, m, "Frequency".spec_bytes()) {
                    Some(j) => {
                        lemma_name_index_same_names(interner, m, m1, "Frequency".spec_bytes());
                        match m[j].1 {
                            FieldView::Float(v) => {
                                lemma_namespaced_once(v);
                                assert(struct_radr_namespaced(interner, m1) =~= m1);
                            },
                            _ => {},
                        }
                    },
                    None => {},
                }
            },
            _ => {},
        }
    }
}

/// A receiver frequency is moved once: moving the frequencies of a record
/// whose frequencies were moved already changes nothing.
pub proof fn law_radio_frequency_moved_once(interner: StringInterner, r: RecordView)
    ensures
        radio_namespaced(interner, radio_namespaced(interner, r)) == radio_namespaced(interner, r),
{
    if r.sig == code('A', 'C', 'T', 'I') {
        let once = radio_namespaced(interner, r);
        assert forall|j: int| 0 <= j < r.fields.len() implies #[trigger] radr_entry(interner, once.fields[j])
            == once.fields[j] by {
            lemma_radr_entry_once(interner, r.fields[j]);
        }
        assert(radio_namespaced(interner, once).fields =~= once.fields);
    }
}

} // verus!
