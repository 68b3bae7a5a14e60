#![allow(dead_code)]
use fo76_fo4::effects::Fo76Fo4Hook;
use fo76_fo4::model::{FieldEntry, FieldValue, FormKey, Record, SigCode, SubrecordSig, Sym};
use fo76_fo4::text::StringInterner;

fn sig4(s: &str) -> [u8; 4] {
    let b = s.as_bytes();
    [b[0], b[1], b[2], b[3]]
}

fn make_record(sig: &str, interner: &mut StringInterner) -> Record {
    let plugin = interner.intern_str("SeventySix.esm");
    Record { sig: SigCode(sig4(sig)), form_key: FormKey { local: 0x000800, plugin }, eid: None, fields: Vec::new() }
}

fn push_field(record: &mut Record, sig: &str, value: FieldValue) {
    record.fields.push(FieldEntry { sig: SubrecordSig(sig4(sig)), value });
}

fn raw_bytes(bytes: &[u8]) -> FieldValue {
    FieldValue::Bytes(bytes.to_vec())
}

fn sig_str(sig: [u8; 4]) -> String {
    String::from_utf8(sig.to_vec()).unwrap()
}

fn sigs(record: &Record) -> Vec<String> {
    record.fields.iter().map(|field| sig_str(field.sig.0)).collect()
}

fn resolve(interner: &StringInterner, sym: Sym) -> Option<String> {
    interner.resolve(sym).map(|bytes| String::from_utf8(bytes.to_vec()).unwrap())
}

fn named_value<'a>(fields: &'a [(Sym, FieldValue)], name: &str, interner: &StringInterner) -> Option<&'a FieldValue> {
    fields.iter().find(|(sym, _)| resolve(interner, *sym).as_deref() == Some(name)).map(|(_, value)| value)
}

fn field<'a>(record: &'a Record, sig: &str) -> Option<&'a FieldEntry> {
    record.fields.iter().find(|entry| entry.sig.0 == sig4(sig))
}

fn pre(interner: &mut StringInterner, record: &mut Record) {
    Fo76Fo4Hook::intern_hook_names(interner);
    Fo76Fo4Hook::pre_translate(interner, record);
}

fn post(interner: &mut StringInterner, record: &mut Record) {
    Fo76Fo4Hook::intern_hook_names(interner);
    Fo76Fo4Hook::post_translate(interner, record, Vec::new());
}

fn raw_ctda(function_id: u16) -> FieldValue {
    raw_ctda_with_parameter_1(function_id, 0)
}

fn raw_ctda_with_parameter_1(function_id: u16, parameter_1: u32) -> FieldValue {
    let mut bytes = vec![0_u8; 32];
    bytes[8..10].copy_from_slice(&function_id.to_le_bytes());
    bytes[12..16].copy_from_slice(&parameter_1.to_le_bytes());
    FieldValue::Bytes(bytes)
}

fn raw_ctda_with_run_on(function_id: u16, parameter_1: u32, run_on: u32) -> FieldValue {
    let mut bytes = vec![0_u8; 32];
    bytes[8..10].copy_from_slice(&function_id.to_le_bytes());
    bytes[12..16].copy_from_slice(&parameter_1.to_le_bytes());
    bytes[20..24].copy_from_slice(&run_on.to_le_bytes());
    FieldValue::Bytes(bytes)
}

fn has_sig(record: &Record, sig: &str) -> bool {
    record.fields.iter().any(|entry| entry.sig.0 == sig4(sig))
}

fn posted(sig: &str, conditions: Vec<(&str, FieldValue)>) -> Record {
    let mut interner = StringInterner::new();
    let mut record = make_record(sig, &mut interner);
    for (field_sig, value) in conditions {
        push_field(&mut record, field_sig, value);
    }
    post(&mut interner, &mut record);
    record
}

fn ctda_function(record: &Record) -> (u16, u32) {
    let ctda = field(record, "CTDA").expect("remapped CTDA must survive the incompatibility drop");
    let FieldValue::Bytes(bytes) = &ctda.value else {
        panic!("expected raw CTDA bytes");
    };
    (u16::from_le_bytes([bytes[8], bytes[9]]), u32::from_le_bytes([bytes[12], bytes[13], bytes[14], bytes[15]]))
}

#[test]
fn post_translate_drops_raw_ctda_with_fo76_only_function_id() {
    let record = posted("MGEF", vec![("EDID", FieldValue::Null), ("CTDA", raw_ctda(10017))]);
    assert!(has_sig(&record, "EDID"));
    assert!(!has_sig(&record, "CTDA"));
}

#[test]
fn post_translate_drops_orphaned_condition_strings_with_dropped_ctda() {
    let record = posted(
        "TERM",
        vec![
            ("BSIZ", raw_bytes(&2_u32.to_le_bytes())),
            ("BTXT", raw_bytes(&1_u32.to_le_bytes())),
            ("CTDA", raw_ctda(10017)),
            ("CIS2", raw_bytes(b"Fo76Only\0")),
            ("BTXT", raw_bytes(&2_u32.to_le_bytes())),
            ("CTDA", raw_ctda(560)),
            ("CIS2", raw_bytes(b"Keep\0")),
        ],
    );
    assert_eq!(
        sigs(&record),
        vec!["BSIZ", "BTXT", "BTXT", "CTDA", "CIS2"],
        "a dropped CTDA must take its trailing CIS2 with it; a kept CTDA keeps its CIS2",
    );
    let cis2 = field(&record, "CIS2").expect("kept CIS2 survives");
    let FieldValue::Bytes(bytes) = &cis2.value else {
        panic!("expected raw CIS2 bytes");
    };
    assert_eq!(bytes.as_slice(), b"Keep\0", "surviving CIS2 must be the one paired with the kept CTDA");
}

#[test]
fn post_translate_keeps_raw_ctda_with_fo4_function_id() {
    let record = posted("MGEF", vec![("CTDA", raw_ctda(560))]);
    assert!(has_sig(&record, "CTDA"));
}

#[test]
fn post_translate_remaps_fo76_is_quest_active_to_get_quest_running() {
    let record = posted("LSCR", vec![("CTDA", raw_ctda_with_parameter_1(876, 0x0000_FFED))]);
    let (function_id, parameter_1) = ctda_function(&record);
    assert_eq!(function_id, 56, "876 IsQuestActive should remap to 56 GetQuestRunning");
    assert_eq!(parameter_1, 0x0000_FFED, "quest Parameter #1 must be preserved");
}

#[test]
fn post_translate_remaps_fo76_current_location_exact_to_get_in_current_location() {
    let record = posted("LSCR", vec![("CTDA", raw_ctda_with_parameter_1(844, 0x007A_8A73))]);
    let (function_id, parameter_1) = ctda_function(&record);
    assert_eq!(function_id, 359, "844 GetIsCurrentLocationExact should remap to 359 GetInCurrentLocation");
    assert_eq!(parameter_1, 0x007A_8A73, "location Parameter #1 must be preserved");
}

#[test]
fn post_translate_drops_raw_ctda_with_fo76_function_info_parameter() {
    let record = posted("MUST", vec![("CTDA", raw_ctda_with_parameter_1(67, 0x0063_78CE))]);
    assert!(!has_sig(&record, "CTDA"));
}

#[test]
fn post_translate_keeps_raw_ctda_with_fo76_function_info_without_parameter() {
    let record = posted("MUST", vec![("CTDA", raw_ctda(67))]);
    assert!(has_sig(&record, "CTDA"));
}

#[test]
fn post_translate_drops_quest_param_ctda_with_null_parameter_1() {
    let record = posted("TERM", vec![("EDID", FieldValue::Null), ("CTDA", raw_ctda(58)), ("CIS1", raw_bytes(b"alias\0"))]);
    assert!(has_sig(&record, "EDID"));
    assert!(!has_sig(&record, "CTDA"), "null-quest CTDA must be dropped");
    assert!(!has_sig(&record, "CIS1"), "the dropped CTDA's trailing CIS1 must go with it");
}

#[test]
fn post_translate_keeps_quest_param_ctda_with_resolved_parameter_1() {
    let record = posted("TERM", vec![("CTDA", raw_ctda_with_parameter_1(58, 0x0001_2345))]);
    assert!(has_sig(&record, "CTDA"));
}

#[test]
fn post_translate_keeps_non_quest_param_ctda_with_null_parameter_1() {
    let record = posted("TERM", vec![("CTDA", raw_ctda(560))]);
    assert!(has_sig(&record, "CTDA"));
}

#[test]
fn post_translate_drops_quest_alias_run_on_ctda_on_non_quest_record() {
    let record = posted(
        "ACTI",
        vec![("EDID", FieldValue::Null), ("CTDA", raw_ctda_with_run_on(59, 500, 5)), ("CIS2", raw_bytes(b"alias\0"))],
    );
    assert!(has_sig(&record, "EDID"));
    assert!(!has_sig(&record, "CTDA"), "quest-alias RunOn CTDA dropped on ACTI");
    assert!(!has_sig(&record, "CIS2"), "trailing CIS2 dropped with it");
}

#[test]
fn post_translate_keeps_quest_alias_run_on_ctda_on_quest_record() {
    let record = posted("QUST", vec![("CTDA", raw_ctda_with_run_on(58, 500, 5))]);
    assert!(has_sig(&record, "CTDA"), "quest-context record keeps quest-alias RunOn CTDA");
}

#[test]
fn post_translate_keeps_get_is_alias_ref_ctda_on_quest_context_record() {
    let record = posted("INFO", vec![("CTDA", raw_ctda_with_parameter_1(566, 3)), ("CIS1", raw_bytes(b"alias\0"))]);
    assert!(has_sig(&record, "CTDA"), "alias-index CTDA is kept");
    assert!(has_sig(&record, "CIS1"), "trailing CIS1 is kept with it");
}

#[test]
fn post_translate_drops_get_is_alias_ref_ctda_without_quest_context() {
    let record = posted("ACTI", vec![("CTDA", raw_ctda_with_parameter_1(566, 3)), ("CIS1", raw_bytes(b"alias\0"))]);
    assert!(!has_sig(&record, "CTDA"), "contextless alias-index CTDA is dropped");
    assert!(!has_sig(&record, "CIS1"), "trailing CIS1 dropped with it");
}

#[test]
fn post_translate_keeps_non_quest_alias_run_on_ctda_on_non_quest_record() {
    let record = posted("ACTI", vec![("CTDA", raw_ctda_with_run_on(560, 0, 0))]);
    assert!(has_sig(&record, "CTDA"));
}

#[test]
fn post_translate_maps_fo76_interior_acoustic_condition_to_fo4_interior() {
    let record = posted("SNDR", vec![("CTDA", raw_ctda(276))]);
    let ctda = field(&record, "CTDA").expect("mapped CTDA remains");
    let FieldValue::Bytes(bytes) = &ctda.value else {
        panic!("expected raw CTDA bytes");
    };
    assert_eq!(Fo76Fo4Hook::raw_condition_function_id(bytes), Some(300));
}

#[test]
fn post_translate_drops_fo76_only_raw_ctda_below_fo4_max() {
    let record = posted("SNDR", vec![("CTDA", raw_ctda(737))]);
    assert!(!has_sig(&record, "CTDA"));
}

#[test]
fn post_translate_drops_fo76_only_function_596_ctda() {
    let record = posted("INFO", vec![("CTDA", raw_ctda_with_parameter_1(596, 0x0738_08CE))]);
    assert!(!has_sig(&record, "CTDA"), "func=596 CTDA must be dropped");
}

#[test]
fn post_translate_keeps_fo4_valid_function_699_ctda() {
    let record = posted("INFO", vec![("CTDA", raw_ctda_with_parameter_1(699, 0x0738_08CE))]);
    assert!(has_sig(&record, "CTDA"), "func=699 CTDA must be kept (FO4-valid)");
}

#[test]
fn post_translate_drops_cobj_raw_ctda_with_ck_rejected_cell_parameter() {
    let record = posted("COBJ", vec![("CTDA", raw_ctda_with_parameter_1(310, 0x0000_DC58))]);
    assert!(!has_sig(&record, "CTDA"));
}

#[test]
fn post_translate_keeps_cobj_raw_ctda_without_cell_parameter() {
    let record = posted("COBJ", vec![("CTDA", raw_ctda(310))]);
    assert!(has_sig(&record, "CTDA"));
}

#[test]
fn post_translate_keeps_non_cobj_raw_ctda_with_same_cell_parameter() {
    let record = posted("MGEF", vec![("CTDA", raw_ctda_with_parameter_1(310, 0x0000_DC58))]);
    assert!(has_sig(&record, "CTDA"));
}

#[test]
fn post_translate_drops_structured_ctda_with_fo76_only_function_id() {
    let mut interner = StringInterner::new();
    let mut record = make_record("MGEF", &mut interner);
    let function = interner.intern_str("Function");
    push_field(&mut record, "CTDA", FieldValue::Struct(vec![(function, FieldValue::Uint(10017))]));

    post(&mut interner, &mut record);

    assert!(!has_sig(&record, "CTDA"));
}

#[test]
fn post_translate_drops_structured_ctda_with_fo76_function_info_parameter() {
    let mut interner = StringInterner::new();
    let mut record = make_record("MUST", &mut interner);
    let variant = interner.intern_str("variant");
    let value = interner.intern_str("value");
    let function = interner.intern_str("Function");
    let parameter = interner.intern_str("Parameter1");
    let base_object = interner.intern_str("base_object");
    push_field(
        &mut record,
        "CTDA",
        FieldValue::Struct(vec![
            (function, FieldValue::Uint(67)),
            (parameter, FieldValue::Struct(vec![(variant, FieldValue::String(base_object)), (value, FieldValue::Uint(0x0063_78CE))])),
        ]),
    );

    post(&mut interner, &mut record);

    assert!(!has_sig(&record, "CTDA"));
}
