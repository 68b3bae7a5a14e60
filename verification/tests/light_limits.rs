#![allow(dead_code)]
use fo76_fo4::effects::Fo76Fo4Hook;
use fo76_fo4::model::{FieldEntry, FieldValue, FormKey, Record, SigCode, SubrecordSig, Sym};
use fo76_fo4::text::StringInterner;

fn sig4(s: &str) -> [u8; 4] {
    let b = s.as_bytes();
    [b[0], b[1], b[2], b[3]]
}

fn make_record(sig: &str, interner: &mut StringInterner) -> Record {
    let plugin = interner.intern_str("SeventySix.esm");
    Record { sig: SigCode(sig4(sig)), form_key: FormKey { local: 0x000800, plugin }, eid: None, fields: Vec::new() }
}

fn push_field(record: &mut Record, sig: &str, value: FieldValue) {
    record.fields.push(FieldEntry { sig: SubrecordSig(sig4(sig)), value });
}

fn raw_bytes(bytes: &[u8]) -> FieldValue {
    FieldValue::Bytes(bytes.to_vec())
}

fn sig_str(sig: [u8; 4]) -> String {
    String::from_utf8(sig.to_vec()).unwrap()
}

fn sigs(record: &Record) -> Vec<String> {
    record.fields.iter().map(|field| sig_str(field.sig.0)).collect()
}

fn resolve(interner: &StringInterner, sym: Sym) -> Option<String> {
    interner.resolve(sym).map(|bytes| String::from_utf8(bytes.to_vec()).unwrap())
}

fn named_value<'a>(fields: &'a [(Sym, FieldValue)], name: &str, interner: &StringInterner) -> Option<&'a FieldValue> {
    fields.iter().find(|(sym, _)| resolve(interner, *sym).as_deref() == Some(name)).map(|(_, value)| value)
}

fn field<'a>(record: &'a Record, sig: &str) -> Option<&'a FieldEntry> {
    record.fields.iter().find(|entry| entry.sig.0 == sig4(sig))
}

fn pre(interner: &mut StringInterner, record: &mut Record) {
    Fo76Fo4Hook::intern_hook_names(interner);
    Fo76Fo4Hook::pre_translate(interner, record);
}

fn post(interner: &mut StringInterner, record: &mut Record) {
    Fo76Fo4Hook::intern_hook_names(interner);
    Fo76Fo4Hook::post_translate(interner, record, Vec::new());
}

fn raw_ctda(function_id: u16) -> FieldValue {
    raw_ctda_with_parameter_1(function_id, 0)
}

fn raw_ctda_with_parameter_1(function_id: u16, parameter_1: u32) -> FieldValue {
    let mut bytes = vec![0_u8; 32];
    bytes[8..10].copy_from_slice(&function_id.to_le_bytes());
    bytes[12..16].copy_from_slice(&parameter_1.to_le_bytes());
    FieldValue::Bytes(bytes)
}

fn raw_ctda_with_run_on(function_id: u16, parameter_1: u32, run_on: u32) -> FieldValue {
    let mut bytes = vec![0_u8; 32];
    bytes[8..10].copy_from_slice(&function_id.to_le_bytes());
    bytes[12..16].copy_from_slice(&parameter_1.to_le_bytes());
    bytes[20..24].copy_from_slice(&run_on.to_le_bytes());
    FieldValue::Bytes(bytes)
}

fn light_data(radius: u32, flags: u32) -> Vec<u8> {
    let mut b = vec![0_u8; 64];
    b[4..8].copy_from_slice(&radius.to_le_bytes());
    b[12..16].copy_from_slice(&flags.to_le_bytes());
    b
}

fn radius_of(record: &Record) -> u32 {
    match &record.fields[0].value {
        FieldValue::Bytes(b) => u32::from_le_bytes(b[4..8].try_into().unwrap()),
        other => panic!("expected bytes, got {other:?}"),
    }
}

#[test]
fn light_flags_keep_fo4_bits_without_specular_and_spot_attenuation() {
    assert_eq!(Fo76Fo4Hook::normalize_light_flags_for_fo4(0xFFFF_FFFF), 0x003F_FFFF & !0x8000 & !0x1_0000);
    assert_eq!(Fo76Fo4Hook::normalize_light_flags_for_fo4(0x0001_8000), 0x0001_0000);
    assert_eq!(Fo76Fo4Hook::normalize_light_flags_for_fo4(0x0001_0400), 0x0000_0400);
    assert_eq!(Fo76Fo4Hook::normalize_light_flags_for_fo4(0x0040_0001), 0x0000_0001);
}

#[test]
fn omni_sunlight_editor_ids_are_recognised() {
    for id in ["LGT_SunlightNS", "lgt_sunlights", "LGT_SunlightNS_Interior", "lgt_sunlightS_02"] {
        assert!(Fo76Fo4Hook::is_fo76_omni_sunlight_editor_id(id.as_bytes()), "{id}");
    }
    for id in ["LGT_Sunlight", "LGT_SunlightNSX", "LGT_Sunlight_S", "Sunlights", "LGT_SunlightSpot"] {
        assert!(!Fo76Fo4Hook::is_fo76_omni_sunlight_editor_id(id.as_bytes()), "{id}");
    }
}

#[test]
fn sunlight_radius_is_capped_at_256() {
    let mut interner = StringInterner::new();
    let eid = interner.intern_str("LGT_SunlightNS_Foo");
    let mut record = make_record("LIGH", &mut interner);
    record.eid = Some(eid);
    push_field(&mut record, "DATA", raw_bytes(&light_data(900, 0)));
    Fo76Fo4Hook::normalize_sunlight_radius_for_fo4(&interner, &mut record);
    assert_eq!(radius_of(&record), 256);

    let other = interner.intern_str("LGT_Lamp");
    let mut lamp = make_record("LIGH", &mut interner);
    lamp.eid = Some(other);
    push_field(&mut lamp, "DATA", raw_bytes(&light_data(900, 0)));
    Fo76Fo4Hook::normalize_sunlight_radius_for_fo4(&interner, &mut lamp);
    assert_eq!(radius_of(&lamp), 900);

    let radius = interner.intern_str("Radius");
    let mut structured = make_record("LIGH", &mut interner);
    structured.eid = Some(eid);
    push_field(&mut structured, "DATA", FieldValue::Struct(vec![(radius, FieldValue::Uint(4000))]));
    Fo76Fo4Hook::normalize_sunlight_radius_for_fo4(&interner, &mut structured);
    assert_eq!(structured.fields[0].value, FieldValue::Struct(vec![(radius, FieldValue::Uint(256))]));
}

#[test]
fn shadow_caster_radius_is_capped_at_1024() {
    let mut interner = StringInterner::new();
    let mut record = make_record("LIGH", &mut interner);
    push_field(&mut record, "DATA", raw_bytes(&light_data(5000, 0x0800)));
    Fo76Fo4Hook::clamp_shadow_caster_radius_for_fo4(&interner, &mut record);
    assert_eq!(radius_of(&record), 1024);
    Fo76Fo4Hook::clamp_shadow_caster_radius_for_fo4(&interner, &mut record);
    assert_eq!(radius_of(&record), 1024);

    let mut plain = make_record("LIGH", &mut interner);
    push_field(&mut plain, "DATA", raw_bytes(&light_data(5000, 0x0001)));
    Fo76Fo4Hook::clamp_shadow_caster_radius_for_fo4(&interner, &mut plain);
    assert_eq!(radius_of(&plain), 5000);

    let flags = interner.intern_str("Flags");
    let radius = interner.intern_str("Radius");
    let mut structured = make_record("LIGH", &mut interner);
    push_field(
        &mut structured,
        "DATA",
        FieldValue::Struct(vec![(flags, FieldValue::Uint(0x1000)), (radius, FieldValue::Float(3000.0_f32.to_bits()))]),
    );
    Fo76Fo4Hook::clamp_shadow_caster_radius_for_fo4(&interner, &mut structured);
    assert_eq!(
        structured.fields[0].value,
        FieldValue::Struct(vec![(flags, FieldValue::Uint(0x1000)), (radius, FieldValue::Uint(1024))])
    );
}

#[test]
fn fire_lights_are_named_fire_and_flicker() {
    let mut interner = StringInterner::new();
    let eid = interner.intern_str("LGT_FireFlickerWarm");
    let mut record = make_record("LIGH", &mut interner);
    record.eid = Some(eid);
    assert!(Fo76Fo4Hook::is_fire_light(&interner, &record));
    let calm = interner.intern_str("LGT_FireCalm");
    record.eid = Some(calm);
    assert!(!Fo76Fo4Hook::is_fire_light(&interner, &record));
    record.eid = None;
    assert!(!Fo76Fo4Hook::is_fire_light(&interner, &record));
}

#[test]
fn struct_float_field_is_set_or_added() {
    let mut interner = StringInterner::new();
    let scalar = interner.intern_str("Scalar");
    let exponent = interner.intern_str("Exponent");
    let mut fields = vec![(scalar, FieldValue::Uint(3))];
    Fo76Fo4Hook::set_struct_float_field(&mut interner, &mut fields, "Scalar", 1.0_f32.to_bits());
    Fo76Fo4Hook::set_struct_float_field(&mut interner, &mut fields, "Exponent", 2.0_f32.to_bits());
    assert_eq!(
        fields,
        vec![(scalar, FieldValue::Float(1.0_f32.to_bits())), (exponent, FieldValue::Float(2.0_f32.to_bits()))]
    );
}
