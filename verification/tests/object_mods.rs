#![allow(dead_code)]
use fo76_fo4::effects::Fo76Fo4Hook;
use fo76_fo4::model::{FieldEntry, FieldValue, FormKey, Record, SigCode, SubrecordSig, Sym};
use fo76_fo4::text::StringInterner;

fn sig4(s: &str) -> [u8; 4] {
    let b = s.as_bytes();
    [b[0], b[1], b[2], b[3]]
}

fn make_record(sig: &str, interner: &mut StringInterner) -> Record {
    let plugin = interner.intern_str("SeventySix.esm");
    Record { sig: SigCode(sig4(sig)), form_key: FormKey { local: 0x000800, plugin }, eid: None, fields: Vec::new() }
}

fn push_field(record: &mut Record, sig: &str, value: FieldValue) {
    record.fields.push(FieldEntry { sig: SubrecordSig(sig4(sig)), value });
}

fn raw_bytes(bytes: &[u8]) -> FieldValue {
    FieldValue::Bytes(bytes.to_vec())
}

fn sig_str(sig: [u8; 4]) -> String {
    String::from_utf8(sig.to_vec()).unwrap()
}

fn sigs(record: &Record) -> Vec<String> {
    record.fields.iter().map(|field| sig_str(field.sig.0)).collect()
}

fn resolve(interner: &StringInterner, sym: Sym) -> Option<String> {
    interner.resolve(sym).map(|bytes| String::from_utf8(bytes.to_vec()).unwrap())
}

fn named_value<'a>(fields: &'a [(Sym, FieldValue)], name: &str, interner: &StringInterner) -> Option<&'a FieldValue> {
    fields.iter().find(|(sym, _)| resolve(interner, *sym).as_deref() == Some(name)).map(|(_, value)| value)
}

fn field<'a>(record: &'a Record, sig: &str) -> Option<&'a FieldEntry> {
    record.fields.iter().find(|entry| entry.sig.0 == sig4(sig))
}

fn pre(interner: &mut StringInterner, record: &mut Record) {
    Fo76Fo4Hook::intern_hook_names(interner);
    Fo76Fo4Hook::pre_translate(interner, record);
}

fn post(interner: &mut StringInterner, record: &mut Record) {
    Fo76Fo4Hook::intern_hook_names(interner);
    Fo76Fo4Hook::post_translate(interner, record, Vec::new());
}

fn raw_ctda(function_id: u16) -> FieldValue {
    raw_ctda_with_parameter_1(function_id, 0)
}

fn raw_ctda_with_parameter_1(function_id: u16, parameter_1: u32) -> FieldValue {
    let mut bytes = vec![0_u8; 32];
    bytes[8..10].copy_from_slice(&function_id.to_le_bytes());
    bytes[12..16].copy_from_slice(&parameter_1.to_le_bytes());
    FieldValue::Bytes(bytes)
}

fn raw_ctda_with_run_on(function_id: u16, parameter_1: u32, run_on: u32) -> FieldValue {
    let mut bytes = vec![0_u8; 32];
    bytes[8..10].copy_from_slice(&function_id.to_le_bytes());
    bytes[12..16].copy_from_slice(&parameter_1.to_le_bytes());
    bytes[20..24].copy_from_slice(&run_on.to_le_bytes());
    FieldValue::Bytes(bytes)
}
use fo76_fo4::values::field_value_to_u16;

fn property_row(interner: &mut StringInterner, property_id: u16) -> FieldValue {
    property_row_with_function_type(interner, property_id, 2)
}

fn property_row_with_function_type(interner: &mut StringInterner, property_id: u16, function_type: u64) -> FieldValue {
    FieldValue::Struct(vec![
        (interner.intern_str("value_type"), FieldValue::Uint(4)),
        (interner.intern_str("function_type"), FieldValue::Uint(function_type)),
        (interner.intern_str("property"), FieldValue::Uint(property_id as u64)),
        (interner.intern_str("value_1"), FieldValue::Uint(0)),
        (interner.intern_str("value_2"), FieldValue::Uint(0)),
        (interner.intern_str("step"), FieldValue::Float(0.0f32.to_bits())),
    ])
}

fn property_ids(value: &FieldValue, interner: &StringInterner) -> Vec<u16> {
    let FieldValue::Struct(fields) = value else {
        panic!("expected struct");
    };
    let Some(FieldValue::List(properties)) = named_value(fields, "properties", interner) else {
        panic!("expected properties list");
    };
    properties
        .iter()
        .map(|property| {
            let FieldValue::Struct(row_fields) = property else {
                panic!("expected property row struct");
            };
            field_value_to_u16(named_value(row_fields, "property", interner).unwrap()).expect("property id")
        })
        .collect()
}

fn property_function_types(value: &FieldValue, interner: &StringInterner) -> Vec<u16> {
    let FieldValue::Struct(fields) = value else {
        panic!("expected struct");
    };
    let Some(FieldValue::List(properties)) = named_value(fields, "properties", interner) else {
        panic!("expected properties list");
    };
    properties
        .iter()
        .map(|property| {
            let FieldValue::Struct(row_fields) = property else {
                panic!("expected property row struct");
            };
            named_value(row_fields, "function_type", interner).and_then(field_value_to_u16).unwrap_or(0)
        })
        .collect()
}

fn raw_property_row(property_id: u16) -> [u8; 24] {
    raw_property_row_with_function_type(property_id, 2)
}

fn raw_property_row_with_function_type(property_id: u16, function_type: u8) -> [u8; 24] {
    let mut row = [0; 24];
    row[0] = 4;
    row[4] = function_type;
    row[8..10].copy_from_slice(&property_id.to_le_bytes());
    row
}

fn raw_obts(property_ids: &[u16]) -> FieldValue {
    let mut raw = Vec::new();
    raw.extend_from_slice(&0_u32.to_le_bytes());
    raw.extend_from_slice(&(property_ids.len() as u32).to_le_bytes());
    raw.extend_from_slice(&[0, 0, 0, 0]);
    raw.extend_from_slice(&(-1_i16).to_le_bytes());
    raw.push(1);
    raw.push(0);
    raw.push(0);
    raw.push(0);
    for property_id in property_ids {
        raw.extend_from_slice(&raw_property_row(*property_id));
    }
    FieldValue::Bytes(raw)
}

fn raw_obts_property_ids(value: &FieldValue) -> Vec<u16> {
    let FieldValue::Bytes(bytes) = value else {
        panic!("expected raw OBTS bytes");
    };
    let property_count = u32::from_le_bytes(bytes[4..8].try_into().unwrap()) as usize;
    (0..property_count)
        .map(|index| {
            let offset = 18 + index * 24;
            u16::from_le_bytes(bytes[offset + 8..offset + 10].try_into().unwrap())
        })
        .collect()
}

fn raw_omod_data(form_type: &[u8; 4], property_ids: &[u16]) -> FieldValue {
    let rows: Vec<[u8; 24]> = property_ids.iter().map(|property_id| raw_property_row(*property_id)).collect();
    raw_omod_data_rows(form_type, &rows)
}

fn raw_omod_data_rows(form_type: &[u8; 4], rows: &[[u8; 24]]) -> FieldValue {
    let mut raw = Vec::new();
    raw.extend_from_slice(&0_u32.to_le_bytes());
    raw.extend_from_slice(&(rows.len() as u32).to_le_bytes());
    raw.push(0);
    raw.push(0);
    raw.extend_from_slice(form_type);
    raw.push(0);
    raw.push(0);
    raw.extend_from_slice(&0_u32.to_le_bytes());
    raw.extend_from_slice(&0_u32.to_le_bytes());
    raw.extend_from_slice(&0_u32.to_le_bytes());
    for row in rows {
        raw.extend_from_slice(row);
    }
    FieldValue::Bytes(raw)
}

fn raw_omod_property_ids(value: &FieldValue) -> Vec<u16> {
    let FieldValue::Bytes(bytes) = value else {
        panic!("expected raw OMOD DATA bytes");
    };
    let property_count = u32::from_le_bytes(bytes[4..8].try_into().unwrap()) as usize;
    (0..property_count)
        .map(|index| {
            let offset = 28 + index * 24;
            u16::from_le_bytes(bytes[offset + 8..offset + 10].try_into().unwrap())
        })
        .collect()
}

fn raw_omod_property_function_types(value: &FieldValue) -> Vec<u8> {
    let FieldValue::Bytes(bytes) = value else {
        panic!("expected raw OMOD DATA bytes");
    };
    let property_count = u32::from_le_bytes(bytes[4..8].try_into().unwrap()) as usize;
    (0..property_count).map(|index| bytes[28 + index * 24 + 4]).collect()
}

fn omod_data(interner: &mut StringInterner, form_type: &[u8; 4], rows: Vec<FieldValue>) -> FieldValue {
    FieldValue::Struct(vec![
        (interner.intern_str("form_type"), FieldValue::Uint(u32::from_le_bytes(*form_type) as u64)),
        (interner.intern_str("properties"), FieldValue::List(rows)),
    ])
}

fn has_sig(record: &Record, sig: &str) -> bool {
    record.fields.iter().any(|entry| entry.sig.0 == sig4(sig))
}

#[test]
fn pre_translate_strips_tesla_cannon_receiver_base_model() {
    let mut interner = StringInterner::new();
    let mut record = make_record("OMOD", &mut interner);
    let model = interner.intern_str("Weapons\\TeslaCannon\\Weapon_TeslaCannon.nif");
    push_field(&mut record, "MODL", FieldValue::String(model));
    push_field(&mut record, "MODT", raw_bytes(&[0; 20]));
    push_field(&mut record, "ENLT", raw_bytes(&[0; 4]));
    push_field(&mut record, "INDX", FieldValue::Uint(0));
    let row = property_row(&mut interner, 34);
    let data = omod_data(&mut interner, b"WEAP", vec![row]);
    push_field(&mut record, "DATA", data);

    pre(&mut interner, &mut record);

    assert!(!has_sig(&record, "MODL"));
    assert!(!has_sig(&record, "MODT"));
    assert!(!has_sig(&record, "ENLT"));
    assert!(!has_sig(&record, "INDX"));
    assert!(has_sig(&record, "DATA"));
}

#[test]
fn pre_translate_keeps_other_indexed_omod_models() {
    let mut interner = StringInterner::new();
    let mut record = make_record("OMOD", &mut interner);
    let model = interner.intern_str("Weapons\\Other\\Receiver.nif");
    push_field(&mut record, "MODL", FieldValue::String(model));
    push_field(&mut record, "INDX", FieldValue::Uint(0));

    pre(&mut interner, &mut record);

    assert!(has_sig(&record, "MODL"));
}

#[test]
fn pre_translate_strips_model_fields_from_material_omod() {
    let mut interner = StringInterner::new();
    let mut record = make_record("OMOD", &mut interner);
    let model = interner.intern_str("ATX/BackPacks/Backpack_HoldAll.nif");
    push_field(&mut record, "MODL", FieldValue::String(model));
    push_field(&mut record, "MODT", FieldValue::Bytes(vec![0_u8; 20]));
    push_field(&mut record, "MODB", FieldValue::Float(0.0f32.to_bits()));
    push_field(&mut record, "MODF", FieldValue::Uint(0));
    let row = property_row(&mut interner, 13);
    let data = omod_data(&mut interner, b"ARMO", vec![row]);
    push_field(&mut record, "DATA", data);

    pre(&mut interner, &mut record);

    assert!(!has_sig(&record, "MODL"));
    assert!(!has_sig(&record, "MODT"));
    assert!(!has_sig(&record, "MODB"));
    assert!(!has_sig(&record, "MODF"));
    assert!(has_sig(&record, "DATA"));
}

#[test]
fn pre_translate_drops_redundant_omod_target_keyword_keeps_others() {
    let mut interner = StringInterner::new();
    let mut record = make_record("OMOD", &mut interner);
    let plugin = interner.intern_str("SeventySix.esm");
    let ma_gun = FormKey { local: 0x37D0B2, plugin };
    let keeper = FormKey { local: 0x0ABCDE, plugin };
    push_field(&mut record, "MNAM", FieldValue::List(vec![FieldValue::FormKey(ma_gun), FieldValue::FormKey(keeper)]));

    pre(&mut interner, &mut record);

    let mnam = field(&record, "MNAM").expect("MNAM must survive while it still has a keeper entry");
    let FieldValue::List(items) = &mnam.value else {
        panic!("expected MNAM list");
    };
    let locals: Vec<u32> = items
        .iter()
        .map(|item| match item {
            FieldValue::FormKey(fk) => fk.local,
            other => panic!("expected FormKey, got {other:?}"),
        })
        .collect();
    assert_eq!(locals, vec![0xABCDE], "ma_Gun_Appearance must be dropped from MNAM; the keeper must remain");
}

#[test]
fn pre_translate_removes_emptied_omod_mnam_subrecord() {
    let mut interner = StringInterner::new();
    let mut record = make_record("OMOD", &mut interner);
    let plugin = interner.intern_str("SeventySix.esm");
    push_field(&mut record, "MNAM", FieldValue::List(vec![FieldValue::FormKey(FormKey { local: 0x37D0B2, plugin })]));

    pre(&mut interner, &mut record);

    assert!(!has_sig(&record, "MNAM"), "an MNAM array emptied by the filter must be removed entirely");
}

#[test]
fn pre_translate_drops_redundant_omod_target_keyword_in_raw_bytes() {
    let mut interner = StringInterner::new();
    let mut record = make_record("OMOD", &mut interner);
    let mut bytes = Vec::new();
    bytes.extend_from_slice(&0x0737_D0B2_u32.to_le_bytes());
    bytes.extend_from_slice(&0x0700_ABCD_u32.to_le_bytes());
    push_field(&mut record, "MNAM", raw_bytes(&bytes));

    pre(&mut interner, &mut record);

    let mnam = field(&record, "MNAM").expect("MNAM must survive while it still has a keeper entry");
    let FieldValue::Bytes(out) = &mnam.value else {
        panic!("expected MNAM bytes");
    };
    assert_eq!(out.as_slice(), &0x0700_ABCD_u32.to_le_bytes(), "only the ma_Gun_Appearance row should be removed from the raw array");
}

#[test]
fn pre_translate_keeps_material_omod_appearance_target_keyword() {
    let mut interner = StringInterner::new();
    let mut record = make_record("OMOD", &mut interner);
    let plugin = interner.intern_str("SeventySix.esm");
    push_field(&mut record, "MNAM", FieldValue::List(vec![FieldValue::FormKey(FormKey { local: 0x37D0B2, plugin })]));
    let row = property_row(&mut interner, 89);
    let data = omod_data(&mut interner, b"WEAP", vec![row]);
    push_field(&mut record, "DATA", data);

    pre(&mut interner, &mut record);

    let mnam = field(&record, "MNAM").expect("material OMOD appearance target keyword must survive for FO4 mapping");
    let FieldValue::List(items) = &mnam.value else {
        panic!("expected MNAM list");
    };
    assert_eq!(items.len(), 1);
    let FieldValue::FormKey(fk) = &items[0] else {
        panic!("expected FormKey");
    };
    assert_eq!(fk.local, 0x0037_D0B2);
}

#[test]
fn pre_translate_keeps_model_fields_for_non_material_omod() {
    let mut interner = StringInterner::new();
    let mut record = make_record("OMOD", &mut interner);
    let model = interner.intern_str("Armor/BackPack.nif");
    push_field(&mut record, "MODL", FieldValue::String(model));
    let row = property_row(&mut interner, 3);
    let data = omod_data(&mut interner, b"ARMO", vec![row]);
    push_field(&mut record, "DATA", data);

    pre(&mut interner, &mut record);

    assert!(has_sig(&record, "MODL"));
}

#[test]
fn post_translate_drops_unknown_weap_object_template_property() {
    let mut interner = StringInterner::new();
    let mut record = make_record("WEAP", &mut interner);
    let count = interner.intern_str("property_count");
    let properties = interner.intern_str("properties");
    let rows = vec![property_row(&mut interner, 31), property_row(&mut interner, 103)];
    push_field(&mut record, "OBTS", FieldValue::Struct(vec![(count, FieldValue::Uint(2)), (properties, FieldValue::List(rows))]));

    post(&mut interner, &mut record);

    let obts = field(&record, "OBTS").expect("OBTS remains");
    assert_eq!(property_ids(&obts.value, &interner), vec![31]);
    let FieldValue::Struct(fields) = &obts.value else {
        panic!("expected OBTS struct");
    };
    assert_eq!(field_value_to_u16(named_value(fields, "property_count", &interner).unwrap()), Some(1));
}

#[test]
fn post_translate_drops_unknown_raw_weap_object_template_property() {
    let mut interner = StringInterner::new();
    let mut record = make_record("WEAP", &mut interner);
    push_field(&mut record, "OBTS", raw_obts(&[31, 103]));

    post(&mut interner, &mut record);

    let obts = field(&record, "OBTS").expect("OBTS remains");
    assert_eq!(raw_obts_property_ids(&obts.value), vec![31]);
}

#[test]
fn post_translate_drops_unknown_omod_property_for_form_type() {
    let mut interner = StringInterner::new();
    let mut record = make_record("OMOD", &mut interner);
    let form_type = interner.intern_str("form_type");
    let count = interner.intern_str("property_count");
    let properties = interner.intern_str("properties");
    let rows = vec![property_row(&mut interner, 3), property_row(&mut interner, 31)];
    push_field(
        &mut record,
        "DATA",
        FieldValue::Struct(vec![
            (form_type, FieldValue::Uint(u32::from_le_bytes(*b"ARMO") as u64)),
            (count, FieldValue::Uint(2)),
            (properties, FieldValue::List(rows)),
        ]),
    );

    post(&mut interner, &mut record);

    let data = field(&record, "DATA").expect("DATA remains");
    assert_eq!(property_ids(&data.value, &interner), vec![3]);
    let FieldValue::Struct(fields) = &data.value else {
        panic!("expected DATA struct");
    };
    assert_eq!(field_value_to_u16(named_value(fields, "property_count", &interner).unwrap()), Some(1));
}

#[test]
fn post_translate_drops_unknown_raw_omod_property_for_form_type() {
    let mut interner = StringInterner::new();
    let mut record = make_record("OMOD", &mut interner);
    push_field(&mut record, "DATA", raw_omod_data(b"ARMO", &[3, 31]));

    post(&mut interner, &mut record);

    let data = field(&record, "DATA").expect("DATA remains");
    assert_eq!(raw_omod_property_ids(&data.value), vec![3]);
}

#[test]
fn post_translate_drops_mstt_omod_data() {
    let mut interner = StringInterner::new();
    let mut record = make_record("OMOD", &mut interner);
    let form_type = interner.intern_str("form_type");
    push_field(&mut record, "DATA", FieldValue::Struct(vec![(form_type, FieldValue::Uint(u32::from_le_bytes(*b"MSTT") as u64))]));
    let name = interner.intern_str("Nuka Victory Wallpaper");
    push_field(&mut record, "FULL", FieldValue::String(name));

    post(&mut interner, &mut record);

    assert!(!has_sig(&record, "DATA"), "MSTT OMOD DATA must be dropped");
    assert!(has_sig(&record, "FULL"), "non-DATA fields remain");
}

#[test]
fn post_translate_drops_raw_mstt_omod_data() {
    let mut interner = StringInterner::new();
    let mut record = make_record("OMOD", &mut interner);
    push_field(&mut record, "DATA", raw_omod_data(b"MSTT", &[3]));

    post(&mut interner, &mut record);

    assert!(!has_sig(&record, "DATA"), "raw MSTT OMOD DATA must be dropped");
}

#[test]
fn post_translate_sets_material_swap_function_type() {
    let mut interner = StringInterner::new();
    let mut record = make_record("OMOD", &mut interner);
    let rows = vec![
        property_row_with_function_type(&mut interner, 89, 0),
        property_row_with_function_type(&mut interner, 31, 0),
    ];
    let data = omod_data(&mut interner, b"WEAP", rows);
    push_field(&mut record, "DATA", data);

    post(&mut interner, &mut record);

    let data = field(&record, "DATA").expect("DATA remains");
    assert_eq!(property_ids(&data.value, &interner), vec![89, 31]);
    assert_eq!(property_function_types(&data.value, &interner), vec![2, 0]);
}

#[test]
fn post_translate_sets_raw_material_swap_function_type() {
    let mut interner = StringInterner::new();
    let mut record = make_record("OMOD", &mut interner);
    push_field(
        &mut record,
        "DATA",
        raw_omod_data_rows(b"WEAP", &[raw_property_row_with_function_type(89, 0), raw_property_row_with_function_type(31, 0)]),
    );

    post(&mut interner, &mut record);

    let data = field(&record, "DATA").expect("DATA remains");
    assert_eq!(raw_omod_property_ids(&data.value), vec![89, 31]);
    assert_eq!(raw_omod_property_function_types(&data.value), vec![2, 0]);
}
