//! Light radius ceilings and flag rules for FO4: FO76's omnidirectional
//! sunlight fills are capped at radius 256, shadow-casting lights at 1024 (FO4
//! renders one full shadow map per such light in range), and FO4's flags keep
//! only its defined bits, without `non_specular`, and without
//! `attenuation_only` on a shadow spotlight.
use vstd::prelude::*;
use crate::text::{intern_all, intern_each, strs_bytes};
use vstd::string::StringSliceAdditionalSpecFns;
use crate::bytes::{le32, read_u32_le, splice, u32_bytes, write_u32_le};
use crate::effects::Fo76Fo4Hook;
use crate::model::{code, lemma_struct_view, named_view, sig_is, EntryView, FieldEntry, FieldValue, FieldView, Record,
    RecordView, Sym};
use crate::names::{field_value_positive_u32, find_member, name_index, name_is, positive_u32, struct_field_name_is};
use crate::text::{bytes_contains, bytes_starts_with, contains, handle_of, lit, lower, name_handle, starts_with, to_lower,
    StringInterner};

verus! {

/// FO4 light flags: only FO4's defined bits (`0x3F_FFFF`), `non_specular`
/// (`0x8000`) cleared, and `attenuation_only` (`0x1_0000`) cleared on a
/// shadow spotlight (`0x400`).
pub open spec fn fo4_flags(f: u32) -> u32 {
    let n = (f & 0x003F_FFFFu32) & !0x0000_8000u32;
    if n & 0x0400u32 != 0 { n & !0x0001_0000u32 } else { n }
}

impl Fo76Fo4Hook {
    /// FO4 light flags for FO76 ones.
    pub fn normalize_light_flags_for_fo4(flags: u32) -> (r: u32)
        ensures
            r == fo4_flags(flags),
    {
        let mut normalized = (flags & 0x003F_FFFF) & !0x0000_8000u32;
        if normalized & 0x0400 != 0 {
            normalized = normalized & !0x0001_0000u32;
        }
        normalized
    }
}

/// Whether an editor id names an FO76 omnidirectional sunlight fill:
/// lower-cased, `lgt_sunlight` followed by `ns`, `ns_…`, `s` or `s_…`.
pub open spec fn omni_sunlight_eid(eid: Seq<u8>) -> bool {
    let l = lower(eid);
    let p = "lgt_sunlight".spec_bytes();
    &&& starts_with(l, p)
    &&& {
        let suffix = l.subrange(p.len() as int, l.len() as int);
        ||| suffix == "ns".spec_bytes()
        ||| starts_with(suffix, "ns_".spec_bytes())
        ||| suffix == "s".spec_bytes()
        ||| starts_with(suffix, "s_".spec_bytes())
    }
}

fn slice_from(s: &[u8], from: usize) -> (r: Vec<u8>)
    requires
        from <= s@.len(),
    ensures
        r@ == s@.subrange(from as int, s@.len() as int),
{
    let mut out: Vec<u8> = Vec::new();
    let mut i: usize = from;
    while i < s.len()
        invariant
            from <= i <= s@.len(),
            out@ == s@.subrange(from as int, i as int),
        decreases s.len() - i,
    {
        out.push(s[i]);
        assert(out@ =~= s@.subrange(from as int, i + 1));
        i = i + 1;
    }
    out
}

impl Fo76Fo4Hook {
    /// Whether an editor id names an FO76 omnidirectional sunlight fill.
    pub fn is_fo76_omni_sunlight_editor_id(editor_id: &[u8]) -> (r: bool)
        ensures
            r == omni_sunlight_eid(editor_id@),
    {
        let l = to_lower(editor_id);
        let p = lit("lgt_sunlight");
        if !bytes_starts_with(l.as_slice(), p) {
            return false;
        }
        let suffix = slice_from(l.as_slice(), p.len());
        crate::text::bytes_eq(suffix.as_slice(), lit("ns")) || bytes_starts_with(suffix.as_slice(), lit("ns_"))
            || crate::text::bytes_eq(suffix.as_slice(), lit("s")) || bytes_starts_with(suffix.as_slice(), lit("s_"))
    }
}

/// Whether a record's editor id, lower-cased, holds both `fire` and
/// `flicker`.
pub open spec fn fire_light(interner: StringInterner, r: RecordView) -> bool {
    r.eid matches Some(e) && interner.spec_resolve(e) matches Some(s) && contains(lower(s), "fire".spec_bytes())
        && contains(lower(s), "flicker".spec_bytes())
}

impl Fo76Fo4Hook {
    /// Whether a light's editor id marks it as a flickering fire.
    pub fn is_fire_light(interner: &StringInterner, record: &Record) -> (r: bool)
        ensures
            r == fire_light(*interner, record@),
    {
        match record.eid {
            Some(e) => match interner.resolve(e) {
                Some(s) => {
                    let l = to_lower(s);
                    bytes_contains(l.as_slice(), lit("fire")) && bytes_contains(l.as_slice(), lit("flicker"))
                },
                None => false,
            },
            None => false,
        }
    }
}

/// The `u32` reading of an integer flags value.
pub open spec fn int_flags(v: FieldView) -> Option<u32> {
    match v {
        FieldView::Uint(n) => if n <= u32::MAX { Some(n as u32) } else { None },
        FieldView::Int(n) => if 0 <= n <= u32::MAX { Some(n as u32) } else { None },
        _ => None,
    }
}

/// Whether some `Flags` member of struct light data holds an integer with a
/// shadow bit (`0x1C00`: spotlight, hemisphere, omnidirectional).
pub open spec fn struct_casts_shadows(interner: StringInterner, m: Seq<(Sym, FieldView)>) -> bool {
    exists|j: int|
        0 <= j < m.len() && name_is(interner, #[trigger] m[j].0, "Flags".spec_bytes()) && (int_flags(m[j].1) matches Some(
            f,
        ) && f & 0x1C00u32 != 0)
}

impl Fo76Fo4Hook {
    /// Whether struct light data carries a shadow-casting flag bit.
    pub fn struct_light_flags_cast_shadows(interner: &StringInterner, fields: &Vec<(Sym, FieldValue)>) -> (r: bool)
        ensures
            r == struct_casts_shadows(*interner, named_view(fields@)),
    {
        let ghost m = named_view(fields@);
        let mut j: usize = 0;
        while j < fields.len()
            invariant
                j <= fields@.len(),
                m == named_view(fields@),
                forall|q: int|
                    0 <= q < j ==> !(name_is(*interner, #[trigger] m[q].0, "Flags".spec_bytes()) && (int_flags(
                        m[q].1,
                    ) matches Some(f) && f & 0x1C00u32 != 0)),
            decreases fields.len() - j,
        {
            assert(m[j as int] == (fields@[j as int].0, fields@[j as int].1@));
            if struct_field_name_is(interner, fields[j].0, lit("Flags")) {
                let f: Option<u32> = match &fields[j].1 {
                    FieldValue::Uint(n) => if *n <= 0xffff_ffff { Some(*n as u32) } else { None },
                    FieldValue::Int(n) => if 0 <= *n && *n <= 0xffff_ffff { Some(*n as u32) } else { None },
                    _ => None,
                };
                if let Some(f) = f {
                    if f & 0x1C00 != 0 {
                        assert(int_flags(m[j as int].1) == Some(f));
                        assert(name_is(*interner, m[j as int].0, "Flags".spec_bytes()));
                        return true;
                    }
                }
            }
            j = j + 1;
        }
        false
    }
}

/// Raw light data whose radius (offset 4) passes `max`, capped at `max`.
pub open spec fn raw_radius_capped(b: Seq<u8>, max: u32) -> Seq<u8> {
    if b.len() >= 8 && le32(b, 4) > max {
        splice(b, 4, u32_bytes(max))
    } else {
        b
    }
}

/// Struct light data whose first `Radius` member is a positive `u32` above
/// `max`, with that member set to `max`.
pub open spec fn struct_radius_capped(interner: StringInterner, m: Seq<(Sym, FieldView)>, max: u32) -> Seq<(Sym, FieldView)> {
    match name_index(interner, m, "Radius".spec_bytes()) {
        Some(j) => if positive_u32(m[j].1) matches Some(r) && r > max {
            m.update(j, (m[j].0, FieldView::Uint(max as u64)))
        } else {
            m
        },
        None => m,
    }
}

/// A sunlight `DATA` entry with its radius capped at 256.
pub open spec fn sunlight_entry(interner: StringInterner, e: EntryView) -> EntryView {
    if e.sig == code('D', 'A', 'T', 'A') {
        match e.value {
            FieldView::Bytes(b) => EntryView { value: FieldView::Bytes(raw_radius_capped(b, 256)), ..e },
            FieldView::Struct(m) => EntryView { value: FieldView::Struct(struct_radius_capped(interner, m, 256)), ..e },
            _ => e,
        }
    } else {
        e
    }
}

/// A shadow-casting light's `DATA` entry with its radius capped at 1024:
/// raw data whose flags (offset 12) hold a shadow bit, struct data with a
/// shadow-casting `Flags` member.
pub open spec fn shadow_entry(interner: StringInterner, e: EntryView) -> EntryView {
    if e.sig == code('D', 'A', 'T', 'A') {
        match e.value {
            FieldView::Bytes(b) => if b.len() >= 16 && le32(b, 12) & 0x1C00u32 != 0 {
                EntryView { value: FieldView::Bytes(raw_radius_capped(b, 1024)), ..e }
            } else {
                e
            },
            FieldView::Struct(m) => if struct_casts_shadows(interner, m) {
                EntryView { value: FieldView::Struct(struct_radius_capped(interner, m, 1024)), ..e }
            } else {
                e
            },
            _ => e,
        }
    } else {
        e
    }
}

/// A light whose editor id names an omnidirectional sunlight fill, with its
/// radii capped at 256; other records as they are.
pub open spec fn sunlight_capped(interner: StringInterner, r: RecordView) -> RecordView {
    if r.sig == code('L', 'I', 'G', 'H') && (r.eid matches Some(e) && interner.spec_resolve(e) matches Some(s)
        && omni_sunlight_eid(s)) {
        RecordView { fields: r.fields.map_values(|e: EntryView| sunlight_entry(interner, e)), ..r }
    } else {
        r
    }
}

/// A light with every shadow-casting `DATA` radius capped at 1024; other
/// records as they are.
pub open spec fn shadow_radius_capped(interner: StringInterner, r: RecordView) -> RecordView {
    if r.sig == code('L', 'I', 'G', 'H') {
        RecordView { fields: r.fields.map_values(|e: EntryView| shadow_entry(interner, e)), ..r }
    } else {
        r
    }
}

fn cap_struct_radius(interner: &StringInterner, fields: &mut Vec<(Sym, FieldValue)>, max: u32)
    ensures
        named_view(final(fields)@) == struct_radius_capped(*interner, named_view(old(fields)@), max),
{
    match find_member(fields, interner, lit("Radius")) {
        Some(j) => {
            assert(named_view(fields@)[j as int].1 == fields@[j as int].1@);
            match field_value_positive_u32(&fields[j].1) {
                Some(r) => if r > max {
                    let name = fields[j].0;
                    let ghost before = named_view(fields@);
                    fields.set(j, (name, FieldValue::Uint(max as u64)));
                    assert(named_view(fields@) =~= before.update(j as int, (name, FieldView::Uint(max as u64))));
                },
                None => {},
            }
        },
        None => {},
    }
}

fn capped_entry_exec(interner: &StringInterner, e: FieldEntry, shadow: bool) -> (r: FieldEntry)
    ensures
        shadow ==> r@ == shadow_entry(*interner, e@),
        !shadow ==> r@ == sunlight_entry(*interner, e@),
{
    if !sig_is(e.sig.0, 'D', 'A', 'T', 'A') {
        return e;
    }
    let FieldEntry { sig, value } = e;
    proof {
        if value is Struct {
            lemma_struct_view(value);
        }
    }
    let value = match value {
        FieldValue::Bytes(bytes) => {
            let mut bytes = bytes;
            let applies = !shadow || (bytes.len() >= 16 && read_u32_le(bytes.as_slice(), 12) & 0x1C00 != 0);
            let max: u32 = if shadow { 1024 } else { 256 };
            if applies && bytes.len() >= 8 && read_u32_le(bytes.as_slice(), 4) > max {
                write_u32_le(&mut bytes, 4, max);
            }
            FieldValue::Bytes(bytes)
        },
        FieldValue::Struct(fields) => {
            let mut fields = fields;
            let applies = !shadow || Fo76Fo4Hook::struct_light_flags_cast_shadows(interner, &fields);
            let max: u32 = if shadow { 1024 } else { 256 };
            if applies {
                cap_struct_radius(interner, &mut fields, max);
            }
            let v = FieldValue::Struct(fields);
            proof {
                lemma_struct_view(v);
            }
            v
        },
        other => other,
    };
    proof {
        if value is Struct {
            lemma_struct_view(value);
        }
    }
    FieldEntry { sig: sig, value: value }
}

fn cap_light_radii(interner: &StringInterner, record: &mut Record, shadow: bool)
    requires
        old(record)@.sig == code('L', 'I', 'G', 'H'),
    ensures
        shadow ==> final(record)@ == shadow_radius_capped(*interner, old(record)@),
        !shadow ==> final(record)@ == (RecordView {
            fields: old(record)@.fields.map_values(|e: EntryView| sunlight_entry(*interner, e)),
            ..old(record)@
        }),
{
    let ghost r0 = record@;
    let ghost orig = r0.fields;
    let mut rest: Vec<FieldEntry> = Vec::new();
    core::mem::swap(&mut record.fields, &mut rest);
    let n = rest.len();
    let mut idx: usize = 0;
    while idx < n
        invariant
            orig.len() == n,
            idx <= n,
            rest@.len() == n - idx,
            forall|j: int| 0 <= j < rest@.len() ==> rest@[j]@ == orig[idx + j],
            record.fields@.len() == idx,
            forall|j: int| 0 <= j < idx ==> #[trigger] record.fields@[j]@ == (if shadow {
                shadow_entry(*interner, orig[j])
            } else {
                sunlight_entry(*interner, orig[j])
            }),
            record@.sig == r0.sig,
            record@.form_key == r0.form_key,
            record@.eid == r0.eid,
        decreases n - idx,
    {
        let e = rest.remove(0);
        let m = capped_entry_exec(interner, e, shadow);
        record.fields.push(m);
        idx = idx + 1;
    }
    if shadow {
        assert(record@.fields =~= shadow_radius_capped(*interner, r0).fields);
    } else {
        assert(record@.fields =~= orig.map_values(|e: EntryView| sunlight_entry(*interner, e)));
    }
}

impl Fo76Fo4Hook {
    /// Cap the radius of an FO76 omnidirectional sunlight fill at 256.
    pub fn normalize_sunlight_radius_for_fo4(interner: &StringInterner, record: &mut Record)
        ensures
            final(record)@ == sunlight_capped(*interner, old(record)@),
    {
        if !sig_is(record.sig.0, 'L', 'I', 'G', 'H') {
            return;
        }
        let is_sunlight = match record.eid {
            Some(e) => match interner.resolve(e) {
                Some(s) => Self::is_fo76_omni_sunlight_editor_id(s),
                None => false,
            },
            None => false,
        };
        if !is_sunlight {
            return;
        }
        cap_light_radii(interner, record, false);
    }

    /// Cap the radius of every shadow-casting light `DATA` at 1024.
    pub fn clamp_shadow_caster_radius_for_fo4(interner: &StringInterner, record: &mut Record)
        ensures
            final(record)@ == shadow_radius_capped(*interner, old(record)@),
    {
        if !sig_is(record.sig.0, 'L', 'I', 'G', 'H') {
            return;
        }
        cap_light_radii(interner, record, true);
    }

    /// Set the first member named `field_name` to the float `value`, or add
    /// one holding it; the name must be held by the interner already.
    /// The names it writes are interned first.
    pub fn set_struct_float_field(interner: &mut StringInterner,
        fields: &mut Vec<(Sym, FieldValue)>,
        field_name: &str,
        value: u32,)
        requires
            old(interner).wf(),
            old(interner)@.len() + 1 <= u32::MAX,
        ensures
            final(interner).wf(),
            final(interner)@ == intern_all(old(interner)@, seq![field_name.spec_bytes()]),
            named_view(final(fields)@) == match name_index(*final(interner), named_view(old(fields)@), field_name.spec_bytes()) {
                Some(j) => named_view(old(fields)@).update(j, (named_view(old(fields)@)[j].0, FieldView::Float(value))),
                None => named_view(old(fields)@).push((handle_of(final(interner)@, field_name.spec_bytes()), FieldView::Float(value))),
            },
    {
        let names: Vec<&str> = vec![field_name];
        intern_each(interner, names.as_slice());
        proof {
            assert(strs_bytes(names@) =~= seq![field_name.spec_bytes()]);
            assert(interner@.contains(strs_bytes(names@)[0]));
        }
        Self::set_struct_float_field_interned(interner, fields, field_name, value)
    }

    /// Set the first member named `field_name` to the float `value`, or add
    /// one holding it; the name must be held by the interner already.
    pub(crate) fn set_struct_float_field_interned(
        interner: &StringInterner,
        fields: &mut Vec<(Sym, FieldValue)>,
        field_name: &str,
        value: u32,
    )
        requires
            interner.wf(),
            interner@.contains(field_name.spec_bytes()),
        ensures
            named_view(final(fields)@) == match name_index(*interner, named_view(old(fields)@), field_name.spec_bytes()) {
                Some(j) => named_view(old(fields)@).update(j, (named_view(old(fields)@)[j].0, FieldView::Float(value))),
                None => named_view(old(fields)@).push((handle_of(interner@, field_name.spec_bytes()), FieldView::Float(value))),
            },
    {
        let ghost before = named_view(fields@);
        match find_member(fields, interner, lit(field_name)) {
            Some(j) => {
                let name = fields[j].0;
                fields.set(j, (name, FieldValue::Float(value)));
                assert(named_view(fields@) =~= before.update(j as int, (name, FieldView::Float(value))));
            },
            None => {
                let h = name_handle(interner, field_name);
                fields.push((h, FieldValue::Float(value)));
                assert(named_view(fields@) =~= before.push((h, FieldView::Float(value))));
            },
        }
    }
}


/// Capping a light's raw radius at `max` leaves it at most `max`, and data
/// whose radius is already within the cap unchanged.
pub proof fn law_light_radius_capped(b: Seq<u8>, max: u32)
    requires
        b.len() >= 8,
    ensures
        raw_radius_capped(b, max).len() == b.len(),
        le32(raw_radius_capped(b, max), 4) <= max,
        le32(b, 4) <= max ==> raw_radius_capped(b, max) == b,
{
    if le32(b, 4) > max {
        crate::bytes::lemma_le32_splice(b, 4, max);
    }
}


/// A shadow-casting light (a raw `DATA` whose flags hold the spotlight,
/// hemisphere or omnidirectional shadow bit, 0x400, 0x800 or 0x1000) ends
/// with a radius of at most 1024, kept when it already was.
pub proof fn law_shadow_radius_at_most_1024(interner: StringInterner, e: EntryView, b: Seq<u8>)
    requires
        e.sig == code('D', 'A', 'T', 'A'),
        e.value == FieldView::Bytes(b),
        b.len() >= 16,
        le32(b, 12) & 0x400u32 != 0 || le32(b, 12) & 0x800u32 != 0 || le32(b, 12) & 0x1000u32 != 0,
    ensures
        shadow_entry(interner, e).value is Bytes,
        le32(shadow_entry(interner, e).value->Bytes_0, 4) <= 1024,
        le32(b, 4) <= 1024 ==> shadow_entry(interner, e) == e,
{
    let f = le32(b, 12);
    assert(f & 0x1C00u32 != 0) by (bit_vector)
        requires
            f & 0x400u32 != 0 || f & 0x800u32 != 0 || f & 0x1000u32 != 0,
    ;
    law_light_radius_capped(b, 1024);
}

/// An omnidirectional sunlight fill ends with a raw radius of at most 256,
/// kept when it already was.
pub proof fn law_sunlight_radius_at_most_256(interner: StringInterner, e: EntryView, b: Seq<u8>)
    requires
        e.sig == code('D', 'A', 'T', 'A'),
        e.value == FieldView::Bytes(b),
        b.len() >= 8,
    ensures
        sunlight_entry(interner, e).value is Bytes,
        le32(sunlight_entry(interner, e).value->Bytes_0, 4) <= 256,
        le32(b, 4) <= 256 ==> sunlight_entry(interner, e) == e,
{
    law_light_radius_capped(b, 256);
}

} // verus!
