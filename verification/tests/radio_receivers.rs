#![allow(dead_code)]
use fo76_fo4::effects::Fo76Fo4Hook;
use fo76_fo4::model::{FieldEntry, FieldValue, FormKey, Record, SigCode, SubrecordSig, Sym};
use fo76_fo4::text::StringInterner;

fn sig4(s: &str) -> [u8; 4] {
    let b = s.as_bytes();
    [b[0], b[1], b[2], b[3]]
}

fn make_record(sig: &str, interner: &mut StringInterner) -> Record {
    let plugin = interner.intern_str("SeventySix.esm");
    Record { sig: SigCode(sig4(sig)), form_key: FormKey { local: 0x000800, plugin }, eid: None, fields: Vec::new() }
}

fn push_field(record: &mut Record, sig: &str, value: FieldValue) {
    record.fields.push(FieldEntry { sig: SubrecordSig(sig4(sig)), value });
}

fn raw_bytes(bytes: &[u8]) -> FieldValue {
    FieldValue::Bytes(bytes.to_vec())
}

fn sig_str(sig: [u8; 4]) -> String {
    String::from_utf8(sig.to_vec()).unwrap()
}

fn sigs(record: &Record) -> Vec<String> {
    record.fields.iter().map(|field| sig_str(field.sig.0)).collect()
}

fn resolve(interner: &StringInterner, sym: Sym) -> Option<String> {
    interner.resolve(sym).map(|bytes| String::from_utf8(bytes.to_vec()).unwrap())
}

fn named_value<'a>(fields: &'a [(Sym, FieldValue)], name: &str, interner: &StringInterner) -> Option<&'a FieldValue> {
    fields.iter().find(|(sym, _)| resolve(interner, *sym).as_deref() == Some(name)).map(|(_, value)| value)
}

fn field<'a>(record: &'a Record, sig: &str) -> Option<&'a FieldEntry> {
    record.fields.iter().find(|entry| entry.sig.0 == sig4(sig))
}

fn pre(interner: &mut StringInterner, record: &mut Record) {
    Fo76Fo4Hook::intern_hook_names(interner);
    Fo76Fo4Hook::pre_translate(interner, record);
}

fn post(interner: &mut StringInterner, record: &mut Record) {
    Fo76Fo4Hook::intern_hook_names(interner);
    Fo76Fo4Hook::post_translate(interner, record, Vec::new());
}

fn raw_ctda(function_id: u16) -> FieldValue {
    raw_ctda_with_parameter_1(function_id, 0)
}

fn raw_ctda_with_parameter_1(function_id: u16, parameter_1: u32) -> FieldValue {
    let mut bytes = vec![0_u8; 32];
    bytes[8..10].copy_from_slice(&function_id.to_le_bytes());
    bytes[12..16].copy_from_slice(&parameter_1.to_le_bytes());
    FieldValue::Bytes(bytes)
}

fn raw_ctda_with_run_on(function_id: u16, parameter_1: u32, run_on: u32) -> FieldValue {
    let mut bytes = vec![0_u8; 32];
    bytes[8..10].copy_from_slice(&function_id.to_le_bytes());
    bytes[12..16].copy_from_slice(&parameter_1.to_le_bytes());
    bytes[20..24].copy_from_slice(&run_on.to_le_bytes());
    FieldValue::Bytes(bytes)
}

fn float(value: f32) -> FieldValue {
    FieldValue::Float(value.to_bits())
}

const FO76_RADIO_FREQUENCY_NAMESPACE_OFFSET: f32 = 2048.0;

#[test]
fn post_translate_namespaces_raw_radio_receiver_frequency_once() {
    let mut interner = StringInterner::new();
    let mut record = make_record("ACTI", &mut interner);
    let mut receiver = vec![0_u8; 14];
    receiver[4..8].copy_from_slice(&98.2_f32.to_le_bytes());
    push_field(&mut record, "RADR", raw_bytes(&receiver));

    post(&mut interner, &mut record);
    let once: Vec<FieldEntry> = record
        .fields
        .iter()
        .map(|entry| entry.duplicate())
        .collect();
    post(&mut interner, &mut record);

    let FieldValue::Bytes(receiver) = &record.fields[0].value else {
        panic!("expected raw RADR");
    };
    assert_eq!(
        f32::from_le_bytes(receiver[4..8].try_into().unwrap()),
        98.2 + FO76_RADIO_FREQUENCY_NAMESPACE_OFFSET
    );
    assert_eq!(record.fields, once);
}

#[test]
fn post_translate_namespaces_structured_radio_receiver_frequency() {
    let mut interner = StringInterner::new();
    let mut record = make_record("ACTI", &mut interner);
    let sound_model = interner.intern_str("SoundModel");
    let frequency = interner.intern_str("Frequency");
    push_field(
        &mut record,
        "RADR",
        FieldValue::Struct(vec![(sound_model, FieldValue::Uint(0x0B5183)), (frequency, float(80.5))]),
    );

    post(&mut interner, &mut record);

    let FieldValue::Struct(fields) = &record.fields[0].value else {
        panic!("expected structured RADR");
    };
    assert_eq!(fields[1].1, float(80.5 + FO76_RADIO_FREQUENCY_NAMESPACE_OFFSET));
}

fn moved(bits: u32) -> (bool, u32) {
    let mut frequency = bits;
    let changed = fo76_fo4::radio::namespace_fo76_radio_frequency(&mut frequency);
    (changed, frequency)
}

#[test]
fn radio_frequency_sum_rounds_as_hardware_does() {
    let samples: [f32; 14] = [
        98.2,
        80.5,
        1.0e-40,
        1.4e-45,
        0.000_122_07,
        0.000_061_035_156,
        0.000_183_105_47,
        1.5,
        1023.999_9,
        2047.999_9,
        2047.999_8,
        1024.000_1,
        3.141_592_7,
        0.000_244_140_62,
    ];
    for value in samples {
        let (changed, bits) = moved(value.to_bits());
        assert!(changed, "{value} moves");
        assert_eq!(bits, (value + 2048.0).to_bits(), "{value}");
    }
    let mut bits: u32 = 1;
    while bits < 0x4500_0000 {
        let (changed, out) = moved(bits);
        assert!(changed);
        assert_eq!(out, (f32::from_bits(bits) + 2048.0).to_bits(), "bits {bits:#x}");
        bits += 0x1357;
    }
}

#[test]
fn radio_frequency_outside_range_stays() {
    for value in [0.0_f32, -0.0, -5.0, 2048.0, 2500.0, f32::INFINITY, f32::NEG_INFINITY, f32::NAN] {
        let (changed, bits) = moved(value.to_bits());
        assert!(!changed, "{value}");
        assert_eq!(bits, value.to_bits());
    }
}

#[test]
fn radio_frequency_moved_once_on_concrete_record() {
    let mut interner = StringInterner::new();
    let mut record = make_record("ACTI", &mut interner);
    let frequency = interner.intern_str("Frequency");
    let mut receiver = vec![0_u8; 8];
    receiver[4..8].copy_from_slice(&100.0_f32.to_le_bytes());
    push_field(&mut record, "RADR", raw_bytes(&receiver));
    push_field(&mut record, "RADR", FieldValue::Struct(vec![(frequency, float(0.5))]));
    Fo76Fo4Hook::namespace_radio_receiver_frequency(&interner, &mut record);
    let FieldValue::Bytes(first) = &record.fields[0].value else { panic!("raw") };
    assert_eq!(f32::from_le_bytes(first[4..8].try_into().unwrap()), 2148.0);
    assert_eq!(record.fields[1].value, FieldValue::Struct(vec![(frequency, float(2048.5))]));
    Fo76Fo4Hook::namespace_radio_receiver_frequency(&interner, &mut record);
    let FieldValue::Bytes(first) = &record.fields[0].value else { panic!("raw") };
    assert_eq!(f32::from_le_bytes(first[4..8].try_into().unwrap()), 2148.0);
    assert_eq!(record.fields[1].value, FieldValue::Struct(vec![(frequency, float(2048.5))]));
}

#[test]
fn radio_frequency_short_payload_and_other_records_stay() {
    let mut interner = StringInterner::new();
    let mut record = make_record("ACTI", &mut interner);
    push_field(&mut record, "RADR", raw_bytes(&[0, 0, 0, 0, 0, 0, 0x80]));
    Fo76Fo4Hook::namespace_radio_receiver_frequency(&interner, &mut record);
    assert_eq!(record.fields[0].value, raw_bytes(&[0, 0, 0, 0, 0, 0, 0x80]));

    let mut other = make_record("STAT", &mut interner);
    let mut receiver = vec![0_u8; 8];
    receiver[4..8].copy_from_slice(&100.0_f32.to_le_bytes());
    push_field(&mut other, "RADR", raw_bytes(&receiver));
    Fo76Fo4Hook::namespace_radio_receiver_frequency(&interner, &mut other);
    assert_eq!(other.fields[0].value, raw_bytes(&receiver));
}
