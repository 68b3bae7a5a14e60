#![allow(dead_code)]
use fo76_fo4::effects::Fo76Fo4Hook;
use fo76_fo4::model::{FieldEntry, FieldValue, FormKey, Record, SigCode, SubrecordSig, Sym};
use fo76_fo4::text::StringInterner;

fn sig4(s: &str) -> [u8; 4] {
    let b = s.as_bytes();
    [b[0], b[1], b[2], b[3]]
}

fn make_record(sig: &str, interner: &mut StringInterner) -> Record {
    let plugin = interner.intern_str("SeventySix.esm");
    Record { sig: SigCode(sig4(sig)), form_key: FormKey { local: 0x000800, plugin }, eid: None, fields: Vec::new() }
}

fn push_field(record: &mut Record, sig: &str, value: FieldValue) {
    record.fields.push(FieldEntry { sig: SubrecordSig(sig4(sig)), value });
}

fn raw_bytes(bytes: &[u8]) -> FieldValue {
    FieldValue::Bytes(bytes.to_vec())
}

fn sig_str(sig: [u8; 4]) -> String {
    String::from_utf8(sig.to_vec()).unwrap()
}

fn sigs(record: &Record) -> Vec<String> {
    record.fields.iter().map(|field| sig_str(field.sig.0)).collect()
}

fn resolve(interner: &StringInterner, sym: Sym) -> Option<String> {
    interner.resolve(sym).map(|bytes| String::from_utf8(bytes.to_vec()).unwrap())
}

fn named_value<'a>(fields: &'a [(Sym, FieldValue)], name: &str, interner: &StringInterner) -> Option<&'a FieldValue> {
    fields.iter().find(|(sym, _)| resolve(interner, *sym).as_deref() == Some(name)).map(|(_, value)| value)
}

fn field<'a>(record: &'a Record, sig: &str) -> Option<&'a FieldEntry> {
    record.fields.iter().find(|entry| entry.sig.0 == sig4(sig))
}

fn pre(interner: &mut StringInterner, record: &mut Record) {
    Fo76Fo4Hook::intern_hook_names(interner);
    Fo76Fo4Hook::pre_translate(interner, record);
}

fn post(interner: &mut StringInterner, record: &mut Record) {
    Fo76Fo4Hook::intern_hook_names(interner);
    Fo76Fo4Hook::post_translate(interner, record, Vec::new());
}

fn raw_ctda(function_id: u16) -> FieldValue {
    raw_ctda_with_parameter_1(function_id, 0)
}

fn raw_ctda_with_parameter_1(function_id: u16, parameter_1: u32) -> FieldValue {
    let mut bytes = vec![0_u8; 32];
    bytes[8..10].copy_from_slice(&function_id.to_le_bytes());
    bytes[12..16].copy_from_slice(&parameter_1.to_le_bytes());
    FieldValue::Bytes(bytes)
}

fn raw_ctda_with_run_on(function_id: u16, parameter_1: u32, run_on: u32) -> FieldValue {
    let mut bytes = vec![0_u8; 32];
    bytes[8..10].copy_from_slice(&function_id.to_le_bytes());
    bytes[12..16].copy_from_slice(&parameter_1.to_le_bytes());
    bytes[20..24].copy_from_slice(&run_on.to_le_bytes());
    FieldValue::Bytes(bytes)
}
use fo76_fo4::furniture::fo4_keyword_value;

fn has_sig(record: &Record, sig: &str) -> bool {
    record.fields.iter().any(|entry| entry.sig.0 == sig4(sig))
}

fn first_bytes(record: &Record) -> Vec<u8> {
    let FieldValue::Bytes(bytes) = &record.fields[0].value else {
        panic!("expected raw bytes");
    };
    bytes.clone()
}

fn u32_at(bytes: &[u8], offset: usize) -> u32 {
    u32::from_le_bytes(bytes[offset..offset + 4].try_into().unwrap())
}

fn vmad_string(out: &mut Vec<u8>, value: &str) {
    out.extend_from_slice(&(value.len() as u16).to_le_bytes());
    out.extend_from_slice(value.as_bytes());
}

/// The FO4 battery-insert script payload, encoded as FO4 VMAD: version 6,
/// object format 2, one script with five edited object properties.
fn power_armor_vmad() -> Vec<u8> {
    let mut out = Vec::new();
    out.extend_from_slice(&6_u16.to_le_bytes());
    out.extend_from_slice(&2_u16.to_le_bytes());
    out.extend_from_slice(&1_u16.to_le_bytes());
    vmad_string(&mut out, "PowerArmorBatteryInsertScript");
    out.push(0);
    let properties = [
        ("firstPersonKW", 0x0A56D7_u32),
        ("batteryInsertAnimKW", 0x05BDA8),
        ("PlayerPathToFurniture", 0x06D5BB),
        ("batteryItemKW", 0x05BDAA),
        ("powerArmorFurnitureKW", 0x03430B),
    ];
    out.extend_from_slice(&(properties.len() as u16).to_le_bytes());
    for (name, form_id) in properties {
        vmad_string(&mut out, name);
        out.push(1);
        out.push(1);
        out.extend_from_slice(&0_u16.to_le_bytes());
        out.extend_from_slice(&(-1_i16).to_le_bytes());
        out.extend_from_slice(&form_id.to_le_bytes());
    }
    out
}

fn read_vmad_string(bytes: &[u8], offset: &mut usize) -> String {
    let length = u16::from_le_bytes(bytes[*offset..*offset + 2].try_into().unwrap()) as usize;
    *offset += 2;
    let value = std::str::from_utf8(&bytes[*offset..*offset + length]).unwrap().to_string();
    *offset += length;
    value
}

fn read_power_armor_vmad(bytes: &[u8]) -> (String, Vec<(String, u32)>) {
    let mut offset = 0;
    assert_eq!(u16::from_le_bytes(bytes[offset..offset + 2].try_into().unwrap()), 6);
    offset += 2;
    assert_eq!(u16::from_le_bytes(bytes[offset..offset + 2].try_into().unwrap()), 2);
    offset += 2;
    assert_eq!(u16::from_le_bytes(bytes[offset..offset + 2].try_into().unwrap()), 1);
    offset += 2;
    let script_name = read_vmad_string(bytes, &mut offset);
    assert_eq!(bytes[offset], 0);
    offset += 1;
    let property_count = u16::from_le_bytes(bytes[offset..offset + 2].try_into().unwrap()) as usize;
    offset += 2;
    let mut properties = Vec::with_capacity(property_count);
    for _ in 0..property_count {
        let name = read_vmad_string(bytes, &mut offset);
        assert_eq!(bytes[offset], 1);
        offset += 1;
        assert_eq!(bytes[offset], 1);
        offset += 1;
        assert_eq!(u16::from_le_bytes(bytes[offset..offset + 2].try_into().unwrap()), 0);
        offset += 2;
        assert_eq!(i16::from_le_bytes(bytes[offset..offset + 2].try_into().unwrap()), -1);
        offset += 2;
        let form_id = u32::from_le_bytes(bytes[offset..offset + 4].try_into().unwrap());
        offset += 4;
        properties.push((name, form_id));
    }
    assert_eq!(offset, bytes.len());
    (script_name, properties)
}

#[test]
fn pre_translate_converts_fo76_mgef_data_to_fo4_layout() {
    let mut interner = StringInterner::new();
    let mut record = make_record("MGEF", &mut interner);
    let mut data = vec![0_u8; 160];
    data[0..4].copy_from_slice(&0xAABBCCDD_u32.to_le_bytes());
    data[4..8].copy_from_slice(&0x11223344_u32.to_le_bytes());
    data[68..72].copy_from_slice(&36_u32.to_le_bytes());
    data[72..76].copy_from_slice(&0x00000823_u32.to_le_bytes());
    data[140..144].copy_from_slice(&0x00110839_u32.to_le_bytes());
    data[156..160].copy_from_slice(&0xDEADBEEF_u32.to_le_bytes());
    push_field(&mut record, "DATA", FieldValue::Bytes(data));

    pre(&mut interner, &mut record);

    let bytes = first_bytes(&record);
    assert_eq!(bytes.len(), 152);
    assert_eq!(u32_at(&bytes, 0), 0xAABBCCDD);
    assert_eq!(u32_at(&bytes, 64), 36);
    assert_eq!(u32_at(&bytes, 68), 0x00000823);
    assert_eq!(u32_at(&bytes, 136), 0x00110839);
}

#[test]
fn pre_translate_normalizes_fo76_only_mgef_archetypes() {
    let mut interner = StringInterner::new();
    for (source, expected) in [(50_u32, 1_u32), (51, 1), (52, 33), (0, 0), (49, 49), (0x07000814, 1)] {
        let mut record = make_record("MGEF", &mut interner);
        let mut data = vec![0_u8; 152];
        data[64..68].copy_from_slice(&source.to_le_bytes());
        push_field(&mut record, "DATA", FieldValue::Bytes(data));

        pre(&mut interner, &mut record);

        assert_eq!(u32_at(&first_bytes(&record), 64), expected);
    }
}

#[test]
fn post_translate_trims_fo76_workbench_data_to_fo4_size() {
    let mut interner = StringInterner::new();
    for record_sig in ["FURN", "TERM"] {
        let mut record = make_record(record_sig, &mut interner);
        push_field(&mut record, "WBDT", FieldValue::Bytes(vec![7, 1]));

        post(&mut interner, &mut record);

        assert_eq!(first_bytes(&record), vec![7, 1]);
    }
}

#[test]
fn post_translate_clears_invalid_marker_bits_but_keeps_model_backed_point_0() {
    let mut interner = StringInterner::new();
    for record_sig in ["FURN", "TERM"] {
        let mut record = make_record(record_sig, &mut interner);
        push_field(&mut record, "MNAM", raw_bytes(&0x4000_001F_u32.to_le_bytes()));

        post(&mut interner, &mut record);

        assert_eq!(
            u32_at(&first_bytes(&record), 0),
            0x4000_0001,
            "model-backed Interaction Point 0 must survive; invalid points clear",
        );
    }
}

#[test]
fn post_translate_clears_all_marker_bits_without_model_or_markers() {
    let mut interner = StringInterner::new();
    for record_sig in ["FURN", "TERM"] {
        let mut record = make_record(record_sig, &mut interner);
        push_field(&mut record, "MNAM", raw_bytes(&0x0000_001F_u32.to_le_bytes()));

        post(&mut interner, &mut record);

        assert_eq!(u32_at(&first_bytes(&record), 0), 0x0000_0000);
    }
}

#[test]
fn post_translate_keeps_furniture_marker_bits_with_target_markers() {
    let mut interner = StringInterner::new();
    let mut record = make_record("FURN", &mut interner);
    push_field(&mut record, "MNAM", raw_bytes(&0x4000_0007_u32.to_le_bytes()));
    push_field(&mut record, "SNAM", raw_bytes(&[0_u8; 48]));

    post(&mut interner, &mut record);

    assert_eq!(u32_at(&first_bytes(&record), 0), 0x4000_0003);
}

#[test]
fn post_translate_adds_terminal_player_path_keyword_once() {
    let mut interner = StringInterner::new();
    let fo4 = interner.intern_str("Fallout4.esm");
    let mut record = make_record("TERM", &mut interner);
    push_field(&mut record, "MNAM", raw_bytes(&(0x4000_0000_u32 | 1).to_le_bytes()));
    push_field(&mut record, "KSIZ", FieldValue::Uint(1));
    push_field(&mut record, "KWDA", FieldValue::List(vec![FieldValue::FormKey(FormKey { local: 0x0A56D7, plugin: fo4 })]));

    post(&mut interner, &mut record);
    post(&mut interner, &mut record);

    let ksiz = field(&record, "KSIZ").expect("terminal should retain KSIZ");
    assert_eq!(ksiz.value, FieldValue::Uint(2));
    let kwda = field(&record, "KWDA").expect("terminal should retain KWDA");
    let FieldValue::List(keywords) = &kwda.value else {
        panic!("KWDA should remain a FormKey list");
    };
    assert_eq!(keywords.len(), 2);
    assert!(fo4_keyword_value(&kwda.value, &interner, 0x06D5BB));
}

#[test]
fn post_translate_adds_terminal_keyword_block_when_missing() {
    let mut interner = StringInterner::new();
    let mut record = make_record("TERM", &mut interner);
    push_field(&mut record, "MNAM", raw_bytes(&(0x4000_0000_u32 | 1).to_le_bytes()));

    post(&mut interner, &mut record);

    assert_eq!(sigs(&record), vec!["MNAM", "KSIZ", "KWDA"]);
    assert_eq!(record.fields[1].value, FieldValue::Uint(1));
    assert!(fo4_keyword_value(&record.fields[2].value, &interner, 0x06D5BB));
}

#[test]
fn post_translate_adds_power_armor_battery_script_and_keeps_markers() {
    let mut interner = StringInterner::new();
    let fo4 = interner.intern_str("Fallout4.esm");
    let mut record = make_record("FURN", &mut interner);
    push_field(&mut record, "KWDA", FieldValue::List(vec![FieldValue::FormKey(FormKey { local: 0x03430B, plugin: fo4 })]));
    push_field(&mut record, "MNAM", raw_bytes(&0x4000_0003_u32.to_le_bytes()));
    push_field(&mut record, "SNAM", raw_bytes(&[0_u8; 48]));

    Fo76Fo4Hook::intern_hook_names(&mut interner);
    Fo76Fo4Hook::post_translate(&mut interner, &mut record, power_armor_vmad());

    let vmad = field(&record, "VMAD").expect("power armor furniture should have VMAD");
    let FieldValue::Bytes(bytes) = &vmad.value else {
        panic!("VMAD should be raw bytes");
    };
    let (script_name, properties) = read_power_armor_vmad(bytes);
    assert_eq!(script_name, "PowerArmorBatteryInsertScript");
    assert_eq!(
        properties,
        vec![
            ("firstPersonKW".to_string(), 0x0A56D7),
            ("batteryInsertAnimKW".to_string(), 0x05BDA8),
            ("PlayerPathToFurniture".to_string(), 0x06D5BB),
            ("batteryItemKW".to_string(), 0x05BDAA),
            ("powerArmorFurnitureKW".to_string(), 0x03430B),
        ]
    );
    let mnam = field(&record, "MNAM").expect("MNAM");
    let FieldValue::Bytes(bytes) = &mnam.value else {
        panic!("MNAM should be raw bytes");
    };
    assert_eq!(u32_at(bytes, 0), 0x4000_0003);
}

#[test]
fn post_translate_recognizes_raw_power_armor_furniture_keywords() {
    let mut interner = StringInterner::new();
    let mut record = make_record("FURN", &mut interner);
    push_field(&mut record, "KWDA", raw_bytes(&0x03430B_u32.to_le_bytes()));

    Fo76Fo4Hook::intern_hook_names(&mut interner);
    Fo76Fo4Hook::post_translate(&mut interner, &mut record, power_armor_vmad());

    assert!(has_sig(&record, "VMAD"));
}

#[test]
fn post_translate_projects_fo76_damage_type_rows_to_fo4_ck_size() {
    let mut interner = StringInterner::new();
    for record_sig in ["ARMO", "WEAP"] {
        let mut raw = Vec::new();
        raw.extend_from_slice(&0x0102_0304_u32.to_le_bytes());
        raw.extend_from_slice(&11_u32.to_le_bytes());
        raw.extend_from_slice(&0xA0A1_A2A3_u32.to_le_bytes());
        raw.extend_from_slice(&0x0506_0708_u32.to_le_bytes());
        raw.extend_from_slice(&22_u32.to_le_bytes());
        raw.extend_from_slice(&0xB0B1_B2B3_u32.to_le_bytes());
        let mut record = make_record(record_sig, &mut interner);
        push_field(&mut record, "DAMA", FieldValue::Bytes(raw));

        post(&mut interner, &mut record);

        let bytes = first_bytes(&record);
        assert_eq!(bytes.len(), 16);
        assert_eq!(&bytes[0..4], &0x0102_0304_u32.to_le_bytes());
        assert_eq!(&bytes[4..8], &11_u32.to_le_bytes());
        assert_eq!(&bytes[8..12], &0x0506_0708_u32.to_le_bytes());
        assert_eq!(&bytes[12..16], &22_u32.to_le_bytes());
    }
}

#[test]
fn post_translate_trims_fo76_movement_speed_data_to_fo4_ck_size() {
    let mut interner = StringInterner::new();
    let mut record = make_record("MOVT", &mut interner);
    push_field(&mut record, "SPED", FieldValue::Bytes((0_u8..124).collect::<Vec<_>>()));

    post(&mut interner, &mut record);

    let bytes = first_bytes(&record);
    assert_eq!(bytes.len(), 112);
    assert_eq!(bytes.as_slice(), (0_u8..112).collect::<Vec<_>>().as_slice());
}
