#![allow(dead_code)]
use fo76_fo4::effects::Fo76Fo4Hook;
use fo76_fo4::model::{FieldEntry, FieldValue, FormKey, Record, SigCode, SubrecordSig, Sym};
use fo76_fo4::text::StringInterner;

fn sig4(s: &str) -> [u8; 4] {
    let b = s.as_bytes();
    [b[0], b[1], b[2], b[3]]
}

fn make_record(sig: &str, interner: &mut StringInterner) -> Record {
    let plugin = interner.intern_str("SeventySix.esm");
    Record { sig: SigCode(sig4(sig)), form_key: FormKey { local: 0x000800, plugin }, eid: None, fields: Vec::new() }
}

fn push_field(record: &mut Record, sig: &str, value: FieldValue) {
    record.fields.push(FieldEntry { sig: SubrecordSig(sig4(sig)), value });
}

fn raw_bytes(bytes: &[u8]) -> FieldValue {
    FieldValue::Bytes(bytes.to_vec())
}

fn sig_str(sig: [u8; 4]) -> String {
    String::from_utf8(sig.to_vec()).unwrap()
}

fn sigs(record: &Record) -> Vec<String> {
    record.fields.iter().map(|field| sig_str(field.sig.0)).collect()
}

fn resolve(interner: &StringInterner, sym: Sym) -> Option<String> {
    interner.resolve(sym).map(|bytes| String::from_utf8(bytes.to_vec()).unwrap())
}

fn named_value<'a>(fields: &'a [(Sym, FieldValue)], name: &str, interner: &StringInterner) -> Option<&'a FieldValue> {
    fields.iter().find(|(sym, _)| resolve(interner, *sym).as_deref() == Some(name)).map(|(_, value)| value)
}

fn field<'a>(record: &'a Record, sig: &str) -> Option<&'a FieldEntry> {
    record.fields.iter().find(|entry| entry.sig.0 == sig4(sig))
}

fn pre(interner: &mut StringInterner, record: &mut Record) {
    Fo76Fo4Hook::intern_hook_names(interner);
    Fo76Fo4Hook::pre_translate(interner, record);
}

fn post(interner: &mut StringInterner, record: &mut Record) {
    Fo76Fo4Hook::intern_hook_names(interner);
    Fo76Fo4Hook::post_translate(interner, record, Vec::new());
}

fn raw_ctda(function_id: u16) -> FieldValue {
    raw_ctda_with_parameter_1(function_id, 0)
}

fn raw_ctda_with_parameter_1(function_id: u16, parameter_1: u32) -> FieldValue {
    let mut bytes = vec![0_u8; 32];
    bytes[8..10].copy_from_slice(&function_id.to_le_bytes());
    bytes[12..16].copy_from_slice(&parameter_1.to_le_bytes());
    FieldValue::Bytes(bytes)
}

fn raw_ctda_with_run_on(function_id: u16, parameter_1: u32, run_on: u32) -> FieldValue {
    let mut bytes = vec![0_u8; 32];
    bytes[8..10].copy_from_slice(&function_id.to_le_bytes());
    bytes[12..16].copy_from_slice(&parameter_1.to_le_bytes());
    bytes[20..24].copy_from_slice(&run_on.to_le_bytes());
    FieldValue::Bytes(bytes)
}
use fo76_fo4::flags::{clear_low_byte_flag, field_value_matches_zstring, u32_field_value};

fn row(function: u16, p1: u32) -> Vec<u8> {
    let mut b = vec![0_u8; 32];
    b[8..10].copy_from_slice(&function.to_le_bytes());
    b[12..16].copy_from_slice(&p1.to_le_bytes());
    b
}

#[test]
fn low_flag_byte_is_cleared_throughout() {
    let mut interner = StringInterner::new();
    let name = interner.intern_str("Flags");
    let mut value = FieldValue::List(vec![
        FieldValue::Uint(0x0F),
        FieldValue::Int(-1),
        FieldValue::Bytes(vec![0x0C, 0x0C]),
        FieldValue::Bytes(vec![]),
        FieldValue::Struct(vec![(name, FieldValue::Uint(4)), (name, FieldValue::Uint(5))]),
    ]);
    clear_low_byte_flag(&mut value, 4);
    assert_eq!(
        value,
        FieldValue::List(vec![
            FieldValue::Uint(0x0B),
            FieldValue::Int(-5),
            FieldValue::Bytes(vec![0x08, 0x0C]),
            FieldValue::Bytes(vec![]),
            FieldValue::Struct(vec![(name, FieldValue::Uint(0)), (name, FieldValue::Uint(1))]),
        ])
    );
}

#[test]
fn leveled_use_all_flag_is_cleared() {
    let mut interner = StringInterner::new();
    let mut record = make_record("LVLI", &mut interner);
    push_field(&mut record, "LVLF", FieldValue::Uint(0x07));
    push_field(&mut record, "LVLD", FieldValue::Uint(0x07));
    Fo76Fo4Hook::clear_leveled_list_use_all(&mut record);
    assert_eq!(record.fields[0].value, FieldValue::Uint(0x03));
    assert_eq!(record.fields[1].value, FieldValue::Uint(0x07));
}

#[test]
fn u32_readings_follow_the_first_member() {
    let mut interner = StringInterner::new();
    let name = interner.intern_str("Value");
    assert_eq!(u32_field_value(&FieldValue::Uint(0x1_0000_0002)), Some(2));
    assert_eq!(u32_field_value(&FieldValue::Int(-1)), Some(u32::MAX));
    assert_eq!(u32_field_value(&FieldValue::Bytes(vec![1, 0, 0, 0, 9])), Some(1));
    assert_eq!(u32_field_value(&FieldValue::Bytes(vec![1, 0, 0])), None);
    assert_eq!(u32_field_value(&FieldValue::Struct(vec![(name, FieldValue::Uint(7)), (name, FieldValue::Uint(8))])), Some(7));
    assert_eq!(u32_field_value(&FieldValue::Struct(vec![])), None);
    assert_eq!(u32_field_value(&FieldValue::Null), None);
}

#[test]
fn zero_terminated_strings_match_ignoring_case() {
    let mut interner = StringInterner::new();
    let s = interner.intern_str("Player");
    assert!(field_value_matches_zstring(&interner, &FieldValue::String(s), "player"));
    assert!(field_value_matches_zstring(&interner, &raw_bytes(b"PLAYER\0"), "Player"));
    assert!(field_value_matches_zstring(&interner, &raw_bytes(b"Player"), "Player"));
    assert!(!field_value_matches_zstring(&interner, &raw_bytes(b"Player\0\0"), "Player"));
    assert!(!field_value_matches_zstring(&interner, &FieldValue::Uint(1), "Player"));
}

#[test]
fn editor_location_and_is_player_conditions_are_remapped() {
    let mut interner = StringInterner::new();
    let mut record = make_record("PACK", &mut interner);
    push_field(&mut record, "CTDA", FieldValue::Bytes(row(579, 0x55)));
    push_field(&mut record, "CTDT", FieldValue::Bytes(row(828, 0)));
    push_field(&mut record, "CIS1", FieldValue::Bytes(row(579, 0x55)));
    Fo76Fo4Hook::normalize_fo76_editor_location_has_keyword_conditions(&mut record);
    Fo76Fo4Hook::normalize_fo76_get_is_player_conditions(&mut record);
    assert_eq!(record.fields[0].value, FieldValue::Bytes(row(562, 0x55)));
    assert_eq!(record.fields[1].value, FieldValue::Bytes(row(72, 7)));
    assert_eq!(record.fields[2].value, FieldValue::Bytes(row(579, 0x55)));
}
