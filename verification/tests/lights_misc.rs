#![allow(dead_code)]
use fo76_fo4::effects::Fo76Fo4Hook;
use fo76_fo4::model::{FieldEntry, FieldValue, FormKey, Record, SigCode, SubrecordSig, Sym};
use fo76_fo4::text::StringInterner;

fn sig4(s: &str) -> [u8; 4] {
    let b = s.as_bytes();
    [b[0], b[1], b[2], b[3]]
}

fn make_record(sig: &str, interner: &mut StringInterner) -> Record {
    let plugin = interner.intern_str("SeventySix.esm");
    Record { sig: SigCode(sig4(sig)), form_key: FormKey { local: 0x000800, plugin }, eid: None, fields: Vec::new() }
}

fn push_field(record: &mut Record, sig: &str, value: FieldValue) {
    record.fields.push(FieldEntry { sig: SubrecordSig(sig4(sig)), value });
}

fn raw_bytes(bytes: &[u8]) -> FieldValue {
    FieldValue::Bytes(bytes.to_vec())
}

fn sig_str(sig: [u8; 4]) -> String {
    String::from_utf8(sig.to_vec()).unwrap()
}

fn sigs(record: &Record) -> Vec<String> {
    record.fields.iter().map(|field| sig_str(field.sig.0)).collect()
}

fn resolve(interner: &StringInterner, sym: Sym) -> Option<String> {
    interner.resolve(sym).map(|bytes| String::from_utf8(bytes.to_vec()).unwrap())
}

fn named_value<'a>(fields: &'a [(Sym, FieldValue)], name: &str, interner: &StringInterner) -> Option<&'a FieldValue> {
    fields.iter().find(|(sym, _)| resolve(interner, *sym).as_deref() == Some(name)).map(|(_, value)| value)
}

fn field<'a>(record: &'a Record, sig: &str) -> Option<&'a FieldEntry> {
    record.fields.iter().find(|entry| entry.sig.0 == sig4(sig))
}

fn pre(interner: &mut StringInterner, record: &mut Record) {
    Fo76Fo4Hook::intern_hook_names(interner);
    Fo76Fo4Hook::pre_translate(interner, record);
}

fn post(interner: &mut StringInterner, record: &mut Record) {
    Fo76Fo4Hook::intern_hook_names(interner);
    Fo76Fo4Hook::post_translate(interner, record, Vec::new());
}

fn raw_ctda(function_id: u16) -> FieldValue {
    raw_ctda_with_parameter_1(function_id, 0)
}

fn raw_ctda_with_parameter_1(function_id: u16, parameter_1: u32) -> FieldValue {
    let mut bytes = vec![0_u8; 32];
    bytes[8..10].copy_from_slice(&function_id.to_le_bytes());
    bytes[12..16].copy_from_slice(&parameter_1.to_le_bytes());
    FieldValue::Bytes(bytes)
}

fn raw_ctda_with_run_on(function_id: u16, parameter_1: u32, run_on: u32) -> FieldValue {
    let mut bytes = vec![0_u8; 32];
    bytes[8..10].copy_from_slice(&function_id.to_le_bytes());
    bytes[12..16].copy_from_slice(&parameter_1.to_le_bytes());
    bytes[20..24].copy_from_slice(&run_on.to_le_bytes());
    FieldValue::Bytes(bytes)
}

fn u32_at(bytes: &[u8], offset: usize) -> u32 {
    u32::from_le_bytes(bytes[offset..offset + 4].try_into().unwrap())
}

fn f32_at(bytes: &[u8], offset: usize) -> f32 {
    f32::from_le_bytes(bytes[offset..offset + 4].try_into().unwrap())
}

fn float(value: f32) -> FieldValue {
    FieldValue::Float(value.to_bits())
}

fn first_bytes(record: &Record) -> Vec<u8> {
    let FieldValue::Bytes(bytes) = &record.fields[0].value else {
        panic!("expected raw DATA bytes");
    };
    bytes.clone()
}

fn member<'a>(record: &'a Record, name: &str, interner: &StringInterner) -> Option<&'a FieldValue> {
    let FieldValue::Struct(fields) = &record.fields[0].value else {
        panic!("expected structured DATA");
    };
    named_value(fields, name, interner)
}

#[test]
fn post_translate_sets_missing_raw_light_radius_from_value() {
    let mut interner = StringInterner::new();
    let mut record = make_record("LIGH", &mut interner);
    let mut raw = vec![0_u8; 68];
    raw[56..60].copy_from_slice(&400_u32.to_le_bytes());
    push_field(&mut record, "DATA", FieldValue::Bytes(raw));

    post(&mut interner, &mut record);

    let bytes = first_bytes(&record);
    assert_eq!(u32_at(&bytes, 4), 400);
    assert_eq!(bytes.len(), 64);
    assert_eq!(f32_at(&bytes, 44), 1.0);
    assert_eq!(f32_at(&bytes, 48), 2.0);
    assert_eq!(u32_at(&bytes, 56), 0);
    assert_eq!(f32_at(&bytes, 60), 0.0);
}

#[test]
fn post_translate_keeps_existing_positive_raw_light_radius() {
    let mut interner = StringInterner::new();
    let mut record = make_record("LIGH", &mut interner);
    let mut raw = vec![0_u8; 64];
    raw[4..8].copy_from_slice(&128_u32.to_le_bytes());
    raw[56..60].copy_from_slice(&400_u32.to_le_bytes());
    push_field(&mut record, "DATA", FieldValue::Bytes(raw));

    post(&mut interner, &mut record);

    assert_eq!(u32_at(&first_bytes(&record), 4), 128);
}

#[test]
fn post_translate_clamps_missing_raw_light_radius_from_large_value() {
    let mut interner = StringInterner::new();
    let mut record = make_record("LIGH", &mut interner);
    let mut raw = vec![0_u8; 68];
    raw[56..60].copy_from_slice(&250_000_u32.to_le_bytes());
    push_field(&mut record, "DATA", FieldValue::Bytes(raw));

    post(&mut interner, &mut record);

    let bytes = first_bytes(&record);
    assert_eq!(u32_at(&bytes, 4), 2048);
    assert_eq!(f32_at(&bytes, 44), 1.0);
    assert_eq!(u32_at(&bytes, 56), 0);
}

#[test]
fn post_translate_sets_structured_light_radius_from_value() {
    let mut interner = StringInterner::new();
    let mut record = make_record("LIGH", &mut interner);
    let value = interner.intern_str("Value");
    let bytes19 = interner.intern_str("Bytes19");
    push_field(&mut record, "DATA", FieldValue::Struct(vec![(value, FieldValue::Uint(400)), (bytes19, FieldValue::Bytes(vec![0; 8]))]));

    post(&mut interner, &mut record);

    assert_eq!(member(&record, "Radius", &interner), Some(&FieldValue::Uint(400)));
    let FieldValue::Struct(fields) = &record.fields[0].value else {
        panic!("expected structured DATA");
    };
    assert!(fields.iter().all(|(name, _)| {
        let name = resolve(&interner, *name);
        name.as_deref() != Some("Value") && name.as_deref() != Some("Bytes19")
    }));
    assert_eq!(member(&record, "Scalar", &interner), Some(&float(1.0)));
    assert_eq!(member(&record, "Exponent", &interner), Some(&float(2.0)));
}

#[test]
fn post_translate_clamps_missing_structured_light_radius_from_large_value() {
    let mut interner = StringInterner::new();
    let mut record = make_record("LIGH", &mut interner);
    let value = interner.intern_str("Value");
    push_field(&mut record, "DATA", FieldValue::Struct(vec![(value, FieldValue::Uint(250_000))]));

    post(&mut interner, &mut record);

    assert_eq!(member(&record, "Radius", &interner), Some(&FieldValue::Uint(2048)));
}

#[test]
fn post_translate_caps_raw_cage_bulb_gobo_light_radius() {
    let mut interner = StringInterner::new();
    let mut record = make_record("LIGH", &mut interner);
    let mut raw = vec![0_u8; 68];
    raw[4..8].copy_from_slice(&1200_u32.to_le_bytes());
    raw[24..28].copy_from_slice(&1.0_f32.to_le_bytes());
    push_field(&mut record, "DATA", FieldValue::Bytes(raw));
    let gobo = interner.intern_str("data\\Textures\\Effects\\Gobos\\CageBulbGobo01_d.DDS");
    push_field(&mut record, "NAM0", FieldValue::String(gobo));

    post(&mut interner, &mut record);

    let bytes = first_bytes(&record);
    assert_eq!(u32_at(&bytes, 4), 256);
    assert_eq!(f32_at(&bytes, 24), 32.0);
}

#[test]
fn post_translate_caps_structured_cage_bulb_gobo_light_radius() {
    let mut interner = StringInterner::new();
    let mut record = make_record("LIGH", &mut interner);
    let radius = interner.intern_str("Radius");
    let near_clip = interner.intern_str("NearClip");
    let value = interner.intern_str("Value");
    push_field(
        &mut record,
        "DATA",
        FieldValue::Struct(vec![(radius, FieldValue::Uint(1200)), (near_clip, float(1.0)), (value, FieldValue::Uint(1200))]),
    );
    let gobo = interner.intern_str("Textures\\Effects\\Gobos\\CageBulbGobo01_d.DDS");
    push_field(&mut record, "NAM0", FieldValue::String(gobo));

    post(&mut interner, &mut record);

    assert_eq!(member(&record, "Radius", &interner), Some(&FieldValue::Uint(256)));
    assert_eq!(member(&record, "NearClip", &interner), Some(&float(32.0)));
}

#[test]
fn post_translate_inserts_missing_light_fade_value_after_data() {
    let mut interner = StringInterner::new();
    let mut record = make_record("LIGH", &mut interner);
    push_field(&mut record, "DATA", FieldValue::Bytes(vec![0_u8; 64]));

    post(&mut interner, &mut record);

    assert_eq!(sigs(&record), vec!["DATA", "FNAM"]);
    assert_eq!(record.fields[1].value, float(1.0));
}

#[test]
fn post_translate_keeps_existing_light_fade_value() {
    let mut interner = StringInterner::new();
    let mut record = make_record("LIGH", &mut interner);
    push_field(&mut record, "FNAM", float(0.25));

    post(&mut interner, &mut record);

    let fades: Vec<&FieldValue> = record.fields.iter().filter(|field| field.sig.0 == *b"FNAM").map(|field| &field.value).collect();
    assert_eq!(fades, vec![&float(0.25)]);
}

#[test]
fn post_translate_drops_perk_vmad() {
    let mut interner = StringInterner::new();
    let mut record = make_record("PERK", &mut interner);
    push_field(&mut record, "EDID", FieldValue::Null);
    push_field(&mut record, "VMAD", FieldValue::Bytes(vec![1, 2, 3, 4]));
    let name = interner.intern_str("Perk");
    push_field(&mut record, "FULL", FieldValue::String(name));

    post(&mut interner, &mut record);

    assert_eq!(sigs(&record), vec!["EDID", "FULL"]);
}

#[test]
fn post_translate_preserves_race_late_field_order() {
    let mut interner = StringInterner::new();
    let mut record = make_record("RACE", &mut interner);
    for sig in ["TTED", "MPPF", "MSM0", "BSMS", "MPPM", "TTGE", "MSM1"] {
        push_field(&mut record, sig, FieldValue::Null);
    }

    post(&mut interner, &mut record);

    assert_eq!(sigs(&record), vec!["TTED", "MPPF", "MSM0", "BSMS", "MPPM", "TTGE", "MSM1"]);
}

#[test]
fn post_translate_masks_only_fo76_idlm_unknown_5_flag() {
    let mut interner = StringInterner::new();
    let mut record = make_record("IDLM", &mut interner);
    push_field(&mut record, "IDLF", FieldValue::Uint(0x3f));
    push_field(&mut record, "IDLF", FieldValue::Int(0x28));
    push_field(&mut record, "IDLF", raw_bytes(&[0x28]));
    push_field(&mut record, "IDLF", raw_bytes(&[0x28, 0xff]));

    post(&mut interner, &mut record);

    assert_eq!(record.fields[0].value, FieldValue::Uint(0x1f));
    assert_eq!(record.fields[1].value, FieldValue::Int(0x08));
    assert_eq!(record.fields[2].value, raw_bytes(&[0x08]));
    assert_eq!(record.fields[3].value, raw_bytes(&[0x28, 0xff]));
}

#[test]
fn post_translate_does_not_mask_idlf_on_other_records() {
    let mut interner = StringInterner::new();
    let mut record = make_record("PACK", &mut interner);
    push_field(&mut record, "IDLF", FieldValue::Uint(0x28));

    post(&mut interner, &mut record);

    assert_eq!(record.fields[0].value, FieldValue::Uint(0x28));
}

#[test]
fn post_translate_idlm_flag_mask_is_idempotent() {
    let mut interner = StringInterner::new();
    let mut record = make_record("IDLM", &mut interner);
    push_field(&mut record, "IDLF", FieldValue::Uint(0x28));

    post(&mut interner, &mut record);
    let once: Vec<FieldEntry> = record.fields.iter().map(|entry| entry.duplicate()).collect();
    post(&mut interner, &mut record);

    assert_eq!(record.fields, once);
    assert_eq!(record.fields[0].value, FieldValue::Uint(0x08));
}

#[test]
fn synthesize_records_returns_empty() {
    assert!(Fo76Fo4Hook::synthesize_records().is_empty());
}

fn fo76_ligh_data(flags: u32, near_clip: f32, flicker_intensity_amp: f32) -> Vec<u8> {
    let mut bytes = vec![0_u8; 72];
    bytes[12..16].copy_from_slice(&flags.to_le_bytes());
    bytes[24..28].copy_from_slice(&near_clip.to_le_bytes());
    bytes[32..36].copy_from_slice(&flicker_intensity_amp.to_le_bytes());
    bytes
}

fn ligh_with_data(interner: &mut StringInterner, data: Vec<u8>, gobo: Option<&str>) -> Record {
    let mut record = make_record("LIGH", interner);
    push_field(&mut record, "DATA", FieldValue::Bytes(data));
    if let Some(path) = gobo {
        let sym = interner.intern_str(path);
        push_field(&mut record, "NAM0", FieldValue::String(sym));
    }
    record
}

fn ligh_data_bytes(record: &Record) -> Vec<u8> {
    record
        .fields
        .iter()
        .find(|e| e.sig.0 == *b"DATA")
        .and_then(|e| match &e.value {
            FieldValue::Bytes(b) => Some(b.to_vec()),
            _ => None,
        })
        .expect("DATA bytes")
}

#[test]
fn light_normalize_clears_nonspecular_and_masks_fo76_bits() {
    let mut interner = StringInterner::new();
    let mut record = ligh_with_data(&mut interner, fo76_ligh_data(0x0080_8009, 1.0, 10.0), None);
    Fo76Fo4Hook::intern_hook_names(&mut interner);
    Fo76Fo4Hook::normalize_light_data_for_fo4(&mut interner, &mut record);
    let data = ligh_data_bytes(&record);
    assert_eq!(u32_at(&data, 12), 0x0000_0009, "non_specular and FO76-only bit dropped, unknown0 + flicker kept");
}

#[test]
fn light_normalize_floors_small_near_clip() {
    let mut interner = StringInterner::new();
    let mut record = ligh_with_data(&mut interner, fo76_ligh_data(0x0009, 1.0, 0.4), None);
    Fo76Fo4Hook::intern_hook_names(&mut interner);
    Fo76Fo4Hook::normalize_light_data_for_fo4(&mut interner, &mut record);
    assert_eq!(f32_at(&ligh_data_bytes(&record), 24), 7.217);
}

#[test]
fn light_normalize_preserves_large_near_clip() {
    let mut interner = StringInterner::new();
    let mut record = ligh_with_data(&mut interner, fo76_ligh_data(0x0009, 64.0, 0.4), None);
    Fo76Fo4Hook::intern_hook_names(&mut interner);
    Fo76Fo4Hook::normalize_light_data_for_fo4(&mut interner, &mut record);
    assert_eq!(f32_at(&ligh_data_bytes(&record), 24), 64.0);
}

#[test]
fn light_normalize_clamps_flicker_gobo_tighter_and_truncates() {
    let mut interner = StringInterner::new();
    let gobo = Some("Data\\textures\\effects\\gobos\\worklightgobo_d.dds");
    let mut record = ligh_with_data(&mut interner, fo76_ligh_data(0x8009, 1.0, 10.0), gobo);
    Fo76Fo4Hook::intern_hook_names(&mut interner);
    Fo76Fo4Hook::normalize_light_data_for_fo4(&mut interner, &mut record);
    let data = ligh_data_bytes(&record);
    assert_eq!(f32_at(&data, 32), 0.8);
    assert_eq!(data.len(), 64, "truncated to FO4 DATA length");
}

#[test]
fn light_normalize_clamps_flicker_nongobo_to_ceiling() {
    let mut interner = StringInterner::new();
    let mut record = ligh_with_data(&mut interner, fo76_ligh_data(0x8009, 1.0, 30000.0), None);
    Fo76Fo4Hook::intern_hook_names(&mut interner);
    Fo76Fo4Hook::normalize_light_data_for_fo4(&mut interner, &mut record);
    assert_eq!(f32_at(&ligh_data_bytes(&record), 32), 2.0);
}

#[test]
fn light_normalize_leaves_in_range_flicker_untouched() {
    let mut interner = StringInterner::new();
    let gobo = Some("Data\\textures\\effects\\gobos\\worklightgobo_d.dds");
    let mut record = ligh_with_data(&mut interner, fo76_ligh_data(0x8009, 32.0, 0.45), gobo);
    Fo76Fo4Hook::intern_hook_names(&mut interner);
    Fo76Fo4Hook::normalize_light_data_for_fo4(&mut interner, &mut record);
    assert_eq!(f32_at(&ligh_data_bytes(&record), 32), 0.45, "value already inside FO4's gobo range is preserved");
}

fn term_snam_values(record: &Record) -> Vec<&FieldValue> {
    record.fields.iter().filter(|entry| entry.sig.0 == *b"SNAM").map(|entry| &entry.value).collect()
}

#[test]
fn term_looping_sound_snam_is_stripped() {
    let mut interner = StringInterner::new();
    let mut record = make_record("TERM", &mut interner);
    let plugin = interner.intern_str("SeventySix.esm");
    push_field(&mut record, "SNAM", FieldValue::FormKey(FormKey { local: 0x800000, plugin }));
    push_field(&mut record, "SNAM", FieldValue::Null);
    push_field(&mut record, "SNAM", FieldValue::Bytes(vec![0_u8; 4]));

    Fo76Fo4Hook::strip_term_looping_sound_snam(&mut record);

    assert!(term_snam_values(&record).is_empty());
}

#[test]
fn term_marker_parameter_snam_rows_are_kept() {
    let mut interner = StringInterner::new();
    let mut record = make_record("TERM", &mut interner);
    push_field(&mut record, "SNAM", FieldValue::Bytes(vec![0_u8; 48]));
    push_field(&mut record, "SNAM", FieldValue::List(vec![FieldValue::Struct(Vec::new())]));

    Fo76Fo4Hook::strip_term_looping_sound_snam(&mut record);

    assert_eq!(term_snam_values(&record).len(), 2);
}

#[test]
fn furn_snam_is_not_touched_by_term_strip() {
    let mut interner = StringInterner::new();
    let mut record = make_record("FURN", &mut interner);
    let plugin = interner.intern_str("SeventySix.esm");
    push_field(&mut record, "SNAM", FieldValue::FormKey(FormKey { local: 0x000123, plugin }));

    Fo76Fo4Hook::strip_term_looping_sound_snam(&mut record);

    assert_eq!(term_snam_values(&record).len(), 1);
}
