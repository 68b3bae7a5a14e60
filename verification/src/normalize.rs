//! Hooks that rewrite subrecord values in place to the FO4 layout.
use vstd::prelude::*;
use crate::bytes::{le32, read_u32_le, splice, u32_bytes, write_u32_le};
use crate::effects::Fo76Fo4Hook;
use crate::model::{
    code, sig_is, tag, EntryView, FieldEntry, FieldValue, FieldView, Record, RecordView,
    SubrecordSig,
};
use crate::retain::map_entries;
use crate::values::{field_value_to_u16, value_to_u16};

verus! {

/// The record with `g` applied to every entry.
pub open spec fn map_fields(r: RecordView, g: spec_fn(EntryView) -> EntryView) -> RecordView {
    RecordView { fields: r.fields.map_values(g), ..r }
}

/// A FURN `ZNAM` renamed to `SNAM`.
pub open spec fn znam_renamed(e: EntryView) -> EntryView {
    if e.sig == code('Z', 'N', 'A', 'M') {
        EntryView { sig: code('S', 'N', 'A', 'M'), ..e }
    } else {
        e
    }
}

fn rename_znam(e: FieldEntry) -> (r: FieldEntry)
    ensures
        r@ == znam_renamed(e@),
{
    let mut e = e;
    if sig_is(e.sig.0, 'Z', 'N', 'A', 'M') {
        e.sig = SubrecordSig(tag('S', 'N', 'A', 'M'));
    }
    e
}

/// The FO76-only IDLM flag bit (0x20).
pub open spec fn idlm_unknown_5() -> u8 {
    0x20
}

/// An IDLM `IDLF` with the FO76-only flag bit cleared: integers and a
/// single raw byte.
pub open spec fn idlf_masked(e: EntryView) -> EntryView {
    if e.sig == code('I', 'D', 'L', 'F') {
        match e.value {
            FieldView::Uint(n) => EntryView { value: FieldView::Uint(n & !0x20u64), ..e },
            FieldView::Int(n) => EntryView { value: FieldView::Int(n & !0x20i64), ..e },
            FieldView::Bytes(b) => if b.len() == 1 {
                EntryView { value: FieldView::Bytes(seq![b[0] & !0x20u8]), ..e }
            } else {
                e
            },
            _ => e,
        }
    } else {
        e
    }
}

fn mask_idlf(e: FieldEntry) -> (r: FieldEntry)
    ensures
        r@ == idlf_masked(e@),
{
    let mut e = e;
    if !sig_is(e.sig.0, 'I', 'D', 'L', 'F') {
        return e;
    }
    match &mut e.value {
        FieldValue::Uint(n) => {
            *n = *n & !0x20u64;
        },
        FieldValue::Int(n) => {
            *n = *n & !0x20i64;
        },
        FieldValue::Bytes(bytes) => {
            if bytes.len() == 1 {
                let b = bytes[0] & !0x20u8;
                bytes.set(0, b);
                assert(bytes@ =~= seq![b]);
            }
        },
        _ => {},
    }
    e
}

impl Fo76Fo4Hook {
    /// Rename FURN marker parameters from `ZNAM` to `SNAM`.
    pub fn rename_furniture_marker_parameters(record: &mut Record)
        ensures
            old(record)@.sig != code('F', 'U', 'R', 'N') ==> final(record)@ == old(record)@,
            old(record)@.sig == code('F', 'U', 'R', 'N') ==> final(record)@ == map_fields(
                old(record)@,
                |e: EntryView| znam_renamed(e),
            ),
    {
        if !sig_is(record.sig.0, 'F', 'U', 'R', 'N') {
            return;
        }
        map_entries(&mut record.fields, rename_znam, Ghost(|e: EntryView| znam_renamed(e)));
    }

    /// Clear the FO76-only IDLM flag bit.
    pub fn normalize_idlm_flags(record: &mut Record)
        ensures
            old(record)@.sig != code('I', 'D', 'L', 'M') ==> final(record)@ == old(record)@,
            old(record)@.sig == code('I', 'D', 'L', 'M') ==> final(record)@ == map_fields(
                old(record)@,
                |e: EntryView| idlf_masked(e),
            ),
    {
        if !sig_is(record.sig.0, 'I', 'D', 'L', 'M') {
            return;
        }
        map_entries(&mut record.fields, mask_idlf, Ghost(|e: EntryView| idlf_masked(e)));
    }
}

/// A raw subrecord `sig` cut to at most `max_len` bytes.
pub open spec fn truncated_entry(e: EntryView, sig: [u8; 4], max_len: nat) -> EntryView {
    if e.sig == sig && e.value is Bytes && e.value->Bytes_0.len() > max_len {
        EntryView { value: FieldView::Bytes(e.value->Bytes_0.take(max_len as int)), ..e }
    } else {
        e
    }
}

/// Cut every raw subrecord `sig` to at most `max_len` bytes.
pub fn truncate_raw_subrecord(record: &mut Record, sig: [u8; 4], max_len: usize)
    ensures
        final(record)@ == map_fields(old(record)@, |e: EntryView| truncated_entry(e, sig, max_len as nat)),
{
    let ghost s = old(record)@.fields;
    let mut i: usize = 0;
    while i < record.fields.len()
        invariant
            i <= record.fields@.len(),
            record.fields@.len() == s.len(),
            record.sig == old(record).sig,
            record.form_key == old(record).form_key,
            record.eid == old(record).eid,
            forall|j: int| 0 <= j < i ==> #[trigger] record.fields@[j]@ == truncated_entry(s[j], sig, max_len as nat),
            forall|j: int| i <= j < s.len() ==> #[trigger] record.fields@[j]@ == s[j],
        decreases record.fields@.len() - i,
    {
        let ghost pre = record.fields@;
        assert(record.fields@[i as int]@ == s[i as int]);
        if crate::model::same_code(record.fields[i].sig.0, sig) {
            let old_e = record.fields.remove(i);
            assert(old_e@ == s[i as int]);
            let sig_i = old_e.sig;
            let ghost ov = old_e.value@;
            let e = match old_e.value {
                FieldValue::Bytes(bytes) => {
                    let mut bytes = bytes;
                    let ghost ob = bytes@;
                    assert(ov == FieldView::Bytes(ob));
                    bytes.truncate(max_len);
                    proof {
                        if max_len < ob.len() {
                            assert(bytes@ =~= ob.take(max_len as int));
                        }
                    }
                    let r = FieldEntry { sig: sig_i, value: FieldValue::Bytes(bytes) };
                    assert(r@.value == FieldView::Bytes(bytes@));
                    assert(sig_i.0 == sig);
                    proof {
                        if ob.len() > max_len {
                            assert(bytes@ == ob.take(max_len as int));
                        } else {
                            assert(bytes@ == ob);
                        }
                    }
                    assert(r@ == truncated_entry(EntryView { sig: sig_i.0, value: ov }, sig, max_len as nat));
                    r
                },
                other => FieldEntry { sig: sig_i, value: other },
            };
            record.fields.insert(i, e);
            assert(record.fields@ == pre.update(i as int, e));
            assert(record.fields@[i as int]@ == truncated_entry(s[i as int], sig, max_len as nat));
        }
        assert forall|j: int| 0 <= j < i + 1 implies #[trigger] record.fields@[j]@ == truncated_entry(
            s[j],
            sig,
            max_len as nat,
        ) by {
            if j < i {
                assert(record.fields@[j] == pre[j]);
            }
        }
        i = i + 1;
    }
    assert(record@.fields =~= s.map_values(|e: EntryView| truncated_entry(e, sig, max_len as nat)));
}

} // verus!
