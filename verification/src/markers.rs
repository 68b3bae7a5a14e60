//! Enumerated values whose FO76 numbering differs from FO4's: map-marker
//! icons and dialogue-topic categories.
use vstd::prelude::*;
use crate::bytes::u16_bytes;
use crate::effects::Fo76Fo4Hook;
use crate::model::{code, sig_is, bytes_value, EntryView, FieldEntry, FieldValue, FieldView, Record, RecordView, Sym};
use crate::names::{name_is, name_index, struct_field_name_is, find_member};
use crate::normalize::map_fields;
use crate::retain::map_entries;
use crate::text::StringInterner;
use crate::values::{field_value_to_u16, value_to_u16};
use vstd::string::StringSliceAdditionalSpecFns;

verus! {

/// The FO4 map-marker icon for an FO76 one. Shared icons shift at FO4-only
/// enum slots; FO76-only icons map to their closest FO4 icon; unknown icons
/// become 77.
pub open spec fn marker_type_fo4(t: u16) -> u8 {
    if t <= 1 {
        t as u8
    } else if t <= 15 {
        (t + 1) as u8
    } else if t <= 22 {
        (t + 2) as u8
    } else if t <= 44 {
        (t + 3) as u8
    } else if t <= 54 {
        (t + 4) as u8
    } else if t <= 63 {
        (t + 5) as u8
    } else if t == 64 {
        6
    } else if t == 65 {
        4
    } else if t == 66 {
        8
    } else if t <= 70 {
        15
    } else if t == 71 {
        74
    } else if t == 72 {
        22
    } else if t <= 74 {
        4
    } else if t == 75 {
        21
    } else if t == 76 {
        56
    } else if t == 77 {
        77
    } else if t == 78 {
        26
    } else if t <= 80 {
        18
    } else if t == 81 {
        37
    } else if t == 82 {
        8
    } else if t <= 84 {
        26
    } else if t == 85 {
        18
    } else if t == 86 {
        61
    } else if t == 87 {
        5
    } else if t == 88 {
        9
    } else if t == 89 {
        8
    } else if t == 90 {
        40
    } else if t == 91 {
        62
    } else if t == 92 {
        22
    } else if t == 93 {
        54
    } else if t == 94 {
        4
    } else if t == 95 {
        73
    } else if t == 96 {
        21
    } else if t == 97 {
        69
    } else if t == 98 {
        8
    } else if t == 99 || t == 109 {
        13
    } else if t == 111 {
        8
    } else if t == 112 {
        41
    } else {
        77
    }
}

/// The FO4 map-marker icon for an FO76 one.
pub fn fo76_map_marker_type_to_fo4(source_type: u16) -> (r: u8)
    ensures
        r == marker_type_fo4(source_type),
{
    let t = source_type;
    if t <= 1 {
        t as u8
    } else if t <= 15 {
        (t + 1) as u8
    } else if t <= 22 {
        (t + 2) as u8
    } else if t <= 44 {
        (t + 3) as u8
    } else if t <= 54 {
        (t + 4) as u8
    } else if t <= 63 {
        (t + 5) as u8
    } else if t == 64 {
        6
    } else if t == 65 {
        4
    } else if t == 66 {
        8
    } else if t <= 70 {
        15
    } else if t == 71 {
        74
    } else if t == 72 {
        22
    } else if t <= 74 {
        4
    } else if t == 75 {
        21
    } else if t == 76 {
        56
    } else if t == 77 {
        77
    } else if t == 78 {
        26
    } else if t <= 80 {
        18
    } else if t == 81 {
        37
    } else if t == 82 {
        8
    } else if t <= 84 {
        26
    } else if t == 85 {
        18
    } else if t == 86 {
        61
    } else if t == 87 {
        5
    } else if t == 88 {
        9
    } else if t == 89 {
        8
    } else if t == 90 {
        40
    } else if t == 91 {
        62
    } else if t == 92 {
        22
    } else if t == 93 {
        54
    } else if t == 94 {
        4
    } else if t == 95 {
        73
    } else if t == 96 {
        21
    } else if t == 97 {
        69
    } else if t == 98 {
        8
    } else if t == 99 || t == 109 {
        13
    } else if t == 111 {
        8
    } else if t == 112 {
        41
    } else {
        77
    }
}

/// A REFR `TNAM` that reads as a `u16` marker icon, rewritten as the
/// two-byte FO4 layout (icon, 0).
pub open spec fn tnam_mapped(e: EntryView) -> EntryView {
    if e.sig == code('T', 'N', 'A', 'M') && value_to_u16(e.value) is Some {
        EntryView {
            value: FieldView::Bytes(seq![marker_type_fo4(value_to_u16(e.value)->0), 0u8]),
            ..e
        }
    } else {
        e
    }
}

fn map_tnam(e: FieldEntry) -> (r: FieldEntry)
    ensures
        r@ == tnam_mapped(e@),
{
    if !sig_is(e.sig.0, 'T', 'N', 'A', 'M') {
        return e;
    }
    match field_value_to_u16(&e.value) {
        Some(source_type) => {
            let target = fo76_map_marker_type_to_fo4(source_type);
            let mut out: Vec<u8> = Vec::new();
            out.push(target);
            out.push(0);
            assert(out@ =~= seq![target, 0u8]);
            FieldEntry { sig: e.sig, value: FieldValue::Bytes(out) }
        },
        None => e,
    }
}

impl Fo76Fo4Hook {
    /// Rewrite REFR map-marker icons to the FO4 two-byte layout.
    pub fn normalize_refr_map_marker_tnam(record: &mut Record)
        ensures
            old(record)@.sig != code('R', 'E', 'F', 'R') ==> final(record)@ == old(record)@,
            old(record)@.sig == code('R', 'E', 'F', 'R') ==> final(record)@ == map_fields(
                old(record)@,
                |e: EntryView| tnam_mapped(e),
            ),
    {
        if !sig_is(record.sig.0, 'R', 'E', 'F', 'R') {
            return;
        }
        map_entries(&mut record.fields, map_tnam, Ghost(|e: EntryView| tnam_mapped(e)));
    }
}

/// The FO4 dialogue-topic category for an FO76 one: detection 4 becomes 5,
/// miscellaneous 5 becomes 7, others keep their number.
pub open spec fn dial_category_fo4(v: u8) -> u8 {
    if v == 4 {
        5
    } else if v == 5 {
        7
    } else {
        v
    }
}

/// The FO4 dialogue-topic category for an FO76 one.
pub fn fo76_dial_category_to_fo4(value: u8) -> (r: u8)
    ensures
        r == dial_category_fo4(value),
{
    if value == 4 {
        5
    } else if value == 5 {
        7
    } else {
        value
    }
}

/// A byte-sized value remapped by `f`: in-range integers and the first byte
/// of a non-empty byte string; anything else is unchanged.
pub open spec fn u8_remapped(v: FieldView, f: spec_fn(u8) -> u8) -> FieldView {
    match v {
        FieldView::Uint(n) => if n <= 255 { FieldView::Uint(f(n as u8) as u64) } else { v },
        FieldView::Int(n) => if 0 <= n <= 255 { FieldView::Int(f(n as u8) as i64) } else { v },
        FieldView::Bytes(b) => if b.len() > 0 { FieldView::Bytes(b.update(0, f(b[0]))) } else { v },
        _ => v,
    }
}

/// Remap a byte-sized value with `map`, which computes exactly `f`.
pub fn normalize_u8_field_value<F: Fn(u8) -> u8>(
    value: &mut FieldValue,
    map: F,
    Ghost(f): Ghost<spec_fn(u8) -> u8>,
)
    requires
        forall|b: u8| #[trigger] map.requires((b,)),
        forall|b: u8, r: u8| map.ensures((b,), r) ==> r == f(b),
    ensures
        final(value)@ == u8_remapped(old(value)@, f),
{
    match value {
        FieldValue::Uint(n) => {
            if *n <= 255 {
                *n = map(*n as u8) as u64;
            }
        },
        FieldValue::Int(n) => {
            if 0 <= *n && *n <= 255 {
                *n = map(*n as u8) as i64;
            }
        },
        FieldValue::Bytes(bytes) => {
            if bytes.len() > 0 {
                let m = map(bytes[0]);
                bytes.set(0, m);
            }
        },
        _ => {},
    }
}

/// A DIAL `DATA` value with its category remapped: raw byte 1 of at least
/// two bytes, or the struct member named `category`.
pub open spec fn dial_data_remapped(interner: StringInterner, v: FieldView) -> FieldView {
    match v {
        FieldView::Bytes(b) => if b.len() >= 2 {
            FieldView::Bytes(b.update(1, dial_category_fo4(b[1])))
        } else {
            v
        },
        FieldView::Struct(fields) => match name_index(interner, fields, "category".spec_bytes()) {
            Some(j) => FieldView::Struct(
                fields.update(j, (fields[j].0, u8_remapped(fields[j].1, |b: u8| dial_category_fo4(b)))),
            ),
            None => v,
        },
        _ => v,
    }
}

impl Fo76Fo4Hook {
    /// Remap the category of a DIAL `DATA` value.
    pub fn normalize_dial_data_category_value(interner: &StringInterner, value: &mut FieldValue)
        ensures
            final(value)@ == dial_data_remapped(*interner, old(value)@),
    {
        match value {
            FieldValue::Bytes(bytes) => {
                if bytes.len() >= 2 {
                    let m = fo76_dial_category_to_fo4(bytes[1]);
                    bytes.set(1, m);
                }
            },
            FieldValue::Struct(fields) => {
                proof {
                    crate::model::lemma_members_view(fields@);
                }
                let ghost before = fields@;
                match find_member(fields, interner, crate::text::lit("category")) {
                    Some(j) => {
                        let (name, mut member) = fields.remove(j);
                        normalize_u8_field_value(
                            &mut member,
                            fo76_dial_category_to_fo4,
                            Ghost(|b: u8| dial_category_fo4(b)),
                        );
                        fields.insert(j, (name, member));
                        proof {
                            crate::model::lemma_members_view(fields@);
                            assert(fields@ == before.update(j as int, (name, member)));
                            assert(crate::model::named_view(fields@) =~= crate::model::named_view(
                                before,
                            ).update(j as int, (name, member@)));
                        }
                    },
                    None => {},
                }
            },
            _ => {},
        }
    }
}

/// A DIAL `DATA` entry with its category remapped.
pub open spec fn dial_entry_remapped(interner: StringInterner, e: EntryView) -> EntryView {
    if e.sig == code('D', 'A', 'T', 'A') {
        EntryView { value: dial_data_remapped(interner, e.value), ..e }
    } else {
        e
    }
}

impl Fo76Fo4Hook {
    /// Remap the topic category of every DIAL `DATA`.
    pub fn normalize_dial_data_category(interner: &StringInterner, record: &mut Record)
        ensures
            old(record)@.sig != code('D', 'I', 'A', 'L') ==> final(record)@ == old(record)@,
            old(record)@.sig == code('D', 'I', 'A', 'L') ==> final(record)@ == map_fields(
                old(record)@,
                |e: EntryView| dial_entry_remapped(*interner, e),
            ),
    {
        if !sig_is(record.sig.0, 'D', 'I', 'A', 'L') {
            return;
        }
        let ghost s = old(record)@.fields;
        let mut i: usize = 0;
        while i < record.fields.len()
            invariant
                i <= record.fields@.len(),
                record.fields@.len() == s.len(),
                record.sig == old(record).sig,
                record.form_key == old(record).form_key,
                record.eid == old(record).eid,
                forall|j: int| 0 <= j < i ==> #[trigger] record.fields@[j]@ == dial_entry_remapped(*interner, s[j]),
                forall|j: int| i <= j < s.len() ==> #[trigger] record.fields@[j]@ == s[j],
            decreases record.fields@.len() - i,
        {
            let ghost pre = record.fields@;
            assert(record.fields@[i as int]@ == s[i as int]);
            if sig_is(record.fields[i].sig.0, 'D', 'A', 'T', 'A') {
                let mut e = record.fields.remove(i);
                Self::normalize_dial_data_category_value(interner, &mut e.value);
                record.fields.insert(i, e);
                assert(record.fields@ == pre.update(i as int, e));
            }
            assert forall|j: int| 0 <= j < i + 1 implies #[trigger] record.fields@[j]@ == dial_entry_remapped(*interner, s[j]) by {
                if j < i {
                    assert(record.fields@[j] == pre[j]);
                }
            }
            i = i + 1;
        }
        assert(record@.fields =~= s.map_values(|e: EntryView| dial_entry_remapped(*interner, e)));
    }
}


/// FO76's map-marker icons that FO4 shares are shifted past FO4's extra
/// enum slots: icons 0 and 1 stay, 2..=15 move up by one, 16..=22 by two,
/// 23..=44 by three, 45..=54 by four and 55..=63 by five.
pub proof fn law_marker_icon_shifts(t: u16)
    ensures
        t <= 1 ==> marker_type_fo4(t) == t,
        2 <= t <= 15 ==> marker_type_fo4(t) == t + 1,
        16 <= t <= 22 ==> marker_type_fo4(t) == t + 2,
        23 <= t <= 44 ==> marker_type_fo4(t) == t + 3,
        45 <= t <= 54 ==> marker_type_fo4(t) == t + 4,
        55 <= t <= 63 ==> marker_type_fo4(t) == t + 5,
{
}

/// In a reference whose map-marker icon (`TNAM`) reads as FO76 icon `t`
/// with 23 <= t <= 44, the icon becomes the two bytes `[t + 3, 0]`.
pub proof fn law_refr_marker_icon(r: RecordView, j: int, t: u16)
    requires
        r.sig == code('R', 'E', 'F', 'R'),
        0 <= j < r.fields.len(),
        r.fields[j].sig == code('T', 'N', 'A', 'M'),
        value_to_u16(r.fields[j].value) == Some(t),
        23 <= t <= 44,
    ensures
        map_fields(r, |e: EntryView| tnam_mapped(e)).fields[j].value == FieldView::Bytes(seq![(t + 3) as u8, 0u8]),
{
    law_marker_icon_shifts(t);
}


/// Dialogue-topic categories: FO76's detection (4) is FO4's 5, FO76's
/// miscellaneous (5) is FO4's 7, and every other category keeps its number.
pub proof fn law_dial_categories(v: u8)
    ensures
        v == 4 ==> dial_category_fo4(v) == 5,
        v == 5 ==> dial_category_fo4(v) == 7,
        v != 4 && v != 5 ==> dial_category_fo4(v) == v,
{
}

} // verus!
