#![allow(dead_code)]
use fo76_fo4::effects::Fo76Fo4Hook;
use fo76_fo4::model::{FieldEntry, FieldValue, FormKey, Record, SigCode, SubrecordSig, Sym};
use fo76_fo4::text::StringInterner;

fn sig4(s: &str) -> [u8; 4] {
    let b = s.as_bytes();
    [b[0], b[1], b[2], b[3]]
}

fn make_record(sig: &str, interner: &mut StringInterner) -> Record {
    let plugin = interner.intern_str("SeventySix.esm");
    Record { sig: SigCode(sig4(sig)), form_key: FormKey { local: 0x000800, plugin }, eid: None, fields: Vec::new() }
}

fn push_field(record: &mut Record, sig: &str, value: FieldValue) {
    record.fields.push(FieldEntry { sig: SubrecordSig(sig4(sig)), value });
}

fn raw_bytes(bytes: &[u8]) -> FieldValue {
    FieldValue::Bytes(bytes.to_vec())
}

fn sig_str(sig: [u8; 4]) -> String {
    String::from_utf8(sig.to_vec()).unwrap()
}

fn sigs(record: &Record) -> Vec<String> {
    record.fields.iter().map(|field| sig_str(field.sig.0)).collect()
}

fn resolve(interner: &StringInterner, sym: Sym) -> Option<String> {
    interner.resolve(sym).map(|bytes| String::from_utf8(bytes.to_vec()).unwrap())
}

fn named_value<'a>(fields: &'a [(Sym, FieldValue)], name: &str, interner: &StringInterner) -> Option<&'a FieldValue> {
    fields.iter().find(|(sym, _)| resolve(interner, *sym).as_deref() == Some(name)).map(|(_, value)| value)
}

fn field<'a>(record: &'a Record, sig: &str) -> Option<&'a FieldEntry> {
    record.fields.iter().find(|entry| entry.sig.0 == sig4(sig))
}

fn pre(interner: &mut StringInterner, record: &mut Record) {
    Fo76Fo4Hook::intern_hook_names(interner);
    Fo76Fo4Hook::pre_translate(interner, record);
}

fn post(interner: &mut StringInterner, record: &mut Record) {
    Fo76Fo4Hook::intern_hook_names(interner);
    Fo76Fo4Hook::post_translate(interner, record, Vec::new());
}

fn raw_ctda(function_id: u16) -> FieldValue {
    raw_ctda_with_parameter_1(function_id, 0)
}

fn raw_ctda_with_parameter_1(function_id: u16, parameter_1: u32) -> FieldValue {
    let mut bytes = vec![0_u8; 32];
    bytes[8..10].copy_from_slice(&function_id.to_le_bytes());
    bytes[12..16].copy_from_slice(&parameter_1.to_le_bytes());
    FieldValue::Bytes(bytes)
}

fn raw_ctda_with_run_on(function_id: u16, parameter_1: u32, run_on: u32) -> FieldValue {
    let mut bytes = vec![0_u8; 32];
    bytes[8..10].copy_from_slice(&function_id.to_le_bytes());
    bytes[12..16].copy_from_slice(&parameter_1.to_le_bytes());
    bytes[20..24].copy_from_slice(&run_on.to_le_bytes());
    FieldValue::Bytes(bytes)
}
use fo76_fo4::vmad::{
    append_vmad_string_property, single_propertyless_vmad_script_property_count_offset, vmad_contains_name,
    workbench_data_has_no_bench_type,
};

fn vmad_string(s: &str) -> Vec<u8> {
    let mut out = (s.len() as u16).to_le_bytes().to_vec();
    out.extend_from_slice(s.as_bytes());
    out
}

fn lone_script(name: &str) -> Vec<u8> {
    let mut b = Vec::new();
    b.extend_from_slice(&6_u16.to_le_bytes());
    b.extend_from_slice(&2_u16.to_le_bytes());
    b.extend_from_slice(&1_u16.to_le_bytes());
    b.extend(vmad_string(name));
    b.push(0);
    b.extend_from_slice(&0_u16.to_le_bytes());
    b
}

#[test]
fn vmad_names_match_with_their_length_prefix() {
    let blob = lone_script("WorkbenchScript");
    assert!(vmad_contains_name(&blob, "WorkbenchScript"));
    assert!(!vmad_contains_name(&blob, "Workbench"));
    assert!(!vmad_contains_name(b"WorkbenchScript", "WorkbenchScript"));
}

#[test]
fn lone_propertyless_script_offset_is_found() {
    let blob = lone_script("Default1StateActivator");
    assert_eq!(single_propertyless_vmad_script_property_count_offset(&blob, "default1stateactivator"), Some(blob.len() - 2));
    assert_eq!(single_propertyless_vmad_script_property_count_offset(&blob, "OtherScript"), None);
    let mut with_property = blob.clone();
    let at = with_property.len() - 2;
    with_property[at] = 1;
    assert_eq!(single_propertyless_vmad_script_property_count_offset(&with_property, "Default1StateActivator"), None);
    let mut two = blob.clone();
    two[4] = 2;
    assert_eq!(single_propertyless_vmad_script_property_count_offset(&two, "Default1StateActivator"), None);
    assert_eq!(single_propertyless_vmad_script_property_count_offset(&blob[..10], "Default1StateActivator"), None);
}

#[test]
fn string_property_is_appended() {
    let mut blob = lone_script("S");
    let off = blob.len() - 2;
    append_vmad_string_property(&mut blob, off, "Anim", "Play01");
    let mut want = lone_script("S");
    want[off] = 1;
    want.extend(vmad_string("Anim"));
    want.extend([2, 1]);
    want.extend(vmad_string("Play01"));
    assert_eq!(blob, want);
}

#[test]
fn one_state_activator_gets_play01() {
    let mut interner = StringInterner::new();
    let mut record = make_record("ACTI", &mut interner);
    push_field(&mut record, "VMAD", raw_bytes(&lone_script("Default1StateActivator")));
    Fo76Fo4Hook::ensure_default_one_state_activator_animation(&mut record);
    let FieldValue::Bytes(b) = &record.fields[0].value else { panic!("bytes") };
    assert!(vmad_contains_name(b, "Anim"));
    assert!(vmad_contains_name(b, "Play01"));
    let once = b.clone();
    Fo76Fo4Hook::ensure_default_one_state_activator_animation(&mut record);
    assert_eq!(record.fields[0].value, FieldValue::Bytes(once));
}

#[test]
fn bench_type_is_read_from_values_and_structs() {
    let mut interner = StringInterner::new();
    let bench = interner.intern_str("benchtype");
    let other = interner.intern_str("Other");
    assert!(workbench_data_has_no_bench_type(&FieldValue::Null, &interner));
    assert!(workbench_data_has_no_bench_type(&FieldValue::Uint(0x100), &interner));
    assert!(!workbench_data_has_no_bench_type(&FieldValue::Int(3), &interner));
    assert!(workbench_data_has_no_bench_type(&FieldValue::Bytes(vec![]), &interner));
    assert!(!workbench_data_has_no_bench_type(&FieldValue::Bytes(vec![2, 0]), &interner));
    assert!(workbench_data_has_no_bench_type(&FieldValue::Struct(vec![(other, FieldValue::Uint(5))]), &interner));
    assert!(!workbench_data_has_no_bench_type(
        &FieldValue::Struct(vec![(other, FieldValue::Uint(0)), (bench, FieldValue::Uint(5))]),
        &interner
    ));
    assert!(!workbench_data_has_no_bench_type(&FieldValue::String(bench), &interner));
}

#[test]
fn furniture_without_bench_type_loses_its_workbench_data() {
    let mut interner = StringInterner::new();
    let mut record = make_record("FURN", &mut interner);
    push_field(&mut record, "WBDT", raw_bytes(&[0, 1]));
    push_field(&mut record, "WBDT", raw_bytes(&[3, 1]));
    push_field(&mut record, "FULL", raw_bytes(&[0]));
    Fo76Fo4Hook::drop_furniture_workbench_data_without_bench_type(&interner, &mut record);
    assert_eq!(sigs(&record), vec!["WBDT", "FULL"]);
    assert_eq!(record.fields[0].value, raw_bytes(&[3, 1]));
}

#[test]
fn workbench_script_is_added_or_appended() {
    let mut interner = StringInterner::new();
    let fallout4 = interner.intern_str("Fallout4.esm");
    let mut script = lone_script("WorkbenchScript");
    script.extend([0xAA]);
    let keyword = FieldValue::FormKey(FormKey { local: 0x091FD4, plugin: fallout4 });

    let mut bare = make_record("FURN", &mut interner);
    push_field(&mut bare, "KWDA", keyword.duplicate());
    Fo76Fo4Hook::ensure_workbench_script_vmad(&interner, &mut bare, script.clone());
    assert_eq!(sigs(&bare), vec!["VMAD", "KWDA"]);
    assert_eq!(bare.fields[0].value, FieldValue::Bytes(script.clone()));

    let mut carried = make_record("FURN", &mut interner);
    push_field(&mut carried, "VMAD", raw_bytes(&lone_script("FO76BenchScript")));
    push_field(&mut carried, "KWDA", keyword.duplicate());
    Fo76Fo4Hook::ensure_workbench_script_vmad(&interner, &mut carried, script.clone());
    let mut want = lone_script("FO76BenchScript");
    want[4] = 2;
    want.extend_from_slice(&script[6..]);
    assert_eq!(carried.fields[0].value, FieldValue::Bytes(want.clone()));
    Fo76Fo4Hook::ensure_workbench_script_vmad(&interner, &mut carried, script.clone());
    assert_eq!(carried.fields[0].value, FieldValue::Bytes(want), "a blob holding WorkbenchScript is left");

    let mut plain = make_record("FURN", &mut interner);
    push_field(&mut plain, "FULL", raw_bytes(&[0]));
    Fo76Fo4Hook::ensure_workbench_script_vmad(&interner, &mut plain, script);
    assert_eq!(sigs(&plain), vec!["FULL"]);
}
