#![allow(dead_code)]
use fo76_fo4::effects::Fo76Fo4Hook;
use fo76_fo4::model::{FieldEntry, FieldValue, FormKey, Record, SigCode, SubrecordSig, Sym};
use fo76_fo4::text::StringInterner;

fn sig4(s: &str) -> [u8; 4] {
    let b = s.as_bytes();
    [b[0], b[1], b[2], b[3]]
}

fn make_record(sig: &str, interner: &mut StringInterner) -> Record {
    let plugin = interner.intern_str("SeventySix.esm");
    Record { sig: SigCode(sig4(sig)), form_key: FormKey { local: 0x000800, plugin }, eid: None, fields: Vec::new() }
}

fn push_field(record: &mut Record, sig: &str, value: FieldValue) {
    record.fields.push(FieldEntry { sig: SubrecordSig(sig4(sig)), value });
}

fn raw_bytes(bytes: &[u8]) -> FieldValue {
    FieldValue::Bytes(bytes.to_vec())
}

fn sig_str(sig: [u8; 4]) -> String {
    String::from_utf8(sig.to_vec()).unwrap()
}

fn sigs(record: &Record) -> Vec<String> {
    record.fields.iter().map(|field| sig_str(field.sig.0)).collect()
}

fn resolve(interner: &StringInterner, sym: Sym) -> Option<String> {
    interner.resolve(sym).map(|bytes| String::from_utf8(bytes.to_vec()).unwrap())
}

fn named_value<'a>(fields: &'a [(Sym, FieldValue)], name: &str, interner: &StringInterner) -> Option<&'a FieldValue> {
    fields.iter().find(|(sym, _)| resolve(interner, *sym).as_deref() == Some(name)).map(|(_, value)| value)
}

fn field<'a>(record: &'a Record, sig: &str) -> Option<&'a FieldEntry> {
    record.fields.iter().find(|entry| entry.sig.0 == sig4(sig))
}

fn pre(interner: &mut StringInterner, record: &mut Record) {
    Fo76Fo4Hook::intern_hook_names(interner);
    Fo76Fo4Hook::pre_translate(interner, record);
}

fn post(interner: &mut StringInterner, record: &mut Record) {
    Fo76Fo4Hook::intern_hook_names(interner);
    Fo76Fo4Hook::post_translate(interner, record, Vec::new());
}

fn raw_ctda(function_id: u16) -> FieldValue {
    raw_ctda_with_parameter_1(function_id, 0)
}

fn raw_ctda_with_parameter_1(function_id: u16, parameter_1: u32) -> FieldValue {
    let mut bytes = vec![0_u8; 32];
    bytes[8..10].copy_from_slice(&function_id.to_le_bytes());
    bytes[12..16].copy_from_slice(&parameter_1.to_le_bytes());
    FieldValue::Bytes(bytes)
}

fn raw_ctda_with_run_on(function_id: u16, parameter_1: u32, run_on: u32) -> FieldValue {
    let mut bytes = vec![0_u8; 32];
    bytes[8..10].copy_from_slice(&function_id.to_le_bytes());
    bytes[12..16].copy_from_slice(&parameter_1.to_le_bytes());
    bytes[20..24].copy_from_slice(&run_on.to_le_bytes());
    FieldValue::Bytes(bytes)
}

fn raw_ctda_full(function_id: u16, operator: u8, comparison_value: f32) -> FieldValue {
    let mut bytes = vec![0_u8; 32];
    bytes[0] = operator << 5;
    bytes[4..8].copy_from_slice(&comparison_value.to_le_bytes());
    bytes[8..10].copy_from_slice(&function_id.to_le_bytes());
    FieldValue::Bytes(bytes)
}

fn float(value: f32) -> FieldValue {
    FieldValue::Float(value.to_bits())
}

/// The level, reference and count of a converted FO4 `LVLO`, read from its
/// members.
fn lvlo_parts(value: &FieldValue, interner: &StringInterner, reference: &str) -> (Vec<u8>, FormKey, Vec<u8>) {
    let FieldValue::Struct(fields) = value else {
        panic!("LVLO should be converted into an FO4 struct, got {value:?}");
    };
    let names: Vec<String> = fields.iter().map(|(sym, _)| resolve(interner, *sym).unwrap()).collect();
    assert_eq!(names, vec!["level", "unknown_u8_1", "unknown_u8_2", reference, "count", "chance_none", "unknown_u8_6"]);
    let FieldValue::Bytes(level) = named_value(fields, "level", interner).unwrap() else { panic!("level bytes") };
    let FieldValue::FormKey(fk) = named_value(fields, reference, interner).unwrap() else { panic!("reference form key") };
    let FieldValue::Bytes(count) = named_value(fields, "count", interner).unwrap() else { panic!("count bytes") };
    (level.clone(), *fk, count.clone())
}

#[test]
fn pre_translate_converts_fo76_lvli_split_rows_to_fo4_lvlo() {
    let mut interner = StringInterner::new();
    let mut record = make_record("LVLI", &mut interner);
    let variant_sym = interner.intern_str("variant");
    let value_sym = interner.intern_str("value");
    let reference_variant = interner.intern_str("reference");
    push_field(&mut record, "LLCT", FieldValue::Uint(2));
    push_field(
        &mut record,
        "LVLO",
        FieldValue::Struct(vec![(variant_sym, FieldValue::String(reference_variant)), (value_sym, FieldValue::Uint(0x08E3A8))]),
    );
    push_field(&mut record, "LVIV", float(2.0));
    push_field(&mut record, "LVLV", float(3.0));
    push_field(&mut record, "LVLO", FieldValue::Uint(0x02C59E));
    push_field(&mut record, "LVIV", float(1.0));
    push_field(&mut record, "LVLV", float(1.0));

    pre(&mut interner, &mut record);

    assert_eq!(field(&record, "LLCT").map(|entry| &entry.value), Some(&FieldValue::Uint(2)));
    let lvlo: Vec<_> = record.fields.iter().filter(|entry| entry.sig.0 == *b"LVLO").collect();
    assert_eq!(lvlo.len(), 2);
    let source = interner.intern_str("SeventySix.esm");
    // Encoded in the FO4 layout these read [3,0,0,0,A8,E3,08,0,2,0,0,0] and
    // [1,0,0,0,9E,C5,02,0,1,0,0,0].
    let (level, fk, count) = lvlo_parts(&lvlo[0].value, &interner, "item");
    assert_eq!((level, fk, count), (vec![3, 0], FormKey { local: 0x08E3A8, plugin: source }, vec![2, 0]));
    let (level, fk, count) = lvlo_parts(&lvlo[1].value, &interner, "item");
    assert_eq!((level, fk, count), (vec![1, 0], FormKey { local: 0x02C59E, plugin: source }, vec![1, 0]));
}

#[test]
fn condition_gates_dropped_world_state_classifies_nuke_and_event_globals() {
    assert!(Fo76Fo4Hook::condition_gates_dropped_world_state(&raw_ctda_full(849, 0, 0.0)));
    assert!(Fo76Fo4Hook::condition_gates_dropped_world_state(&raw_ctda_full(74, 0, 1.0)));
    assert!(Fo76Fo4Hook::condition_gates_dropped_world_state(&raw_ctda_full(74, 1, 0.0)));
    assert!(Fo76Fo4Hook::condition_gates_dropped_world_state(&raw_ctda_full(74, 3, 1.0)));
    assert!(!Fo76Fo4Hook::condition_gates_dropped_world_state(&raw_ctda_full(74, 0, 0.0)));
    assert!(!Fo76Fo4Hook::condition_gates_dropped_world_state(&raw_ctda_full(56, 0, 1.0)));
}

#[test]
fn pre_translate_drops_nuke_and_event_gated_leveled_entries() {
    let mut interner = StringInterner::new();
    let mut record = make_record("LVLI", &mut interner);
    push_field(&mut record, "LLCT", FieldValue::Uint(3));
    push_field(&mut record, "LVLO", FieldValue::Uint(0x58AFD6));
    push_field(&mut record, "CTDA", raw_ctda_full(849, 0, 1.0));
    push_field(&mut record, "LVLO", FieldValue::Uint(0x5A0019));
    push_field(&mut record, "CTDA", raw_ctda_full(74, 0, 1.0));
    push_field(&mut record, "LVLO", FieldValue::Uint(0x58AFD5));

    pre(&mut interner, &mut record);

    let lvlo: Vec<_> = record.fields.iter().filter(|entry| entry.sig.0 == *b"LVLO").collect();
    assert_eq!(lvlo.len(), 1, "nuke + event-gated entries dropped, normal kept");
    assert_eq!(field(&record, "LLCT").map(|entry| &entry.value), Some(&FieldValue::Uint(1)));
}

#[test]
fn pre_translate_converts_fo76_lvln_reference_to_fo4_npc_lvlo() {
    let mut interner = StringInterner::new();
    let mut record = make_record("LVLN", &mut interner);
    let variant_sym = interner.intern_str("variant");
    let value_sym = interner.intern_str("value");
    let reference_variant = interner.intern_str("reference");
    push_field(&mut record, "LLCT", FieldValue::Uint(1));
    push_field(
        &mut record,
        "LVLO",
        FieldValue::Struct(vec![(variant_sym, FieldValue::String(reference_variant)), (value_sym, FieldValue::Uint(0x868BB8))]),
    );
    push_field(&mut record, "LVIV", float(1.0));
    push_field(&mut record, "LVLV", float(1.0));

    pre(&mut interner, &mut record);

    let lvlo = field(&record, "LVLO").expect("converted LVLO");
    let source = interner.intern_str("SeventySix.esm");
    // Encoded: [1,0,0,0,B8,8B,86,0,1,0,0,0].
    let (level, fk, count) = lvlo_parts(&lvlo.value, &interner, "npc");
    assert_eq!((level, fk, count), (vec![1, 0], FormKey { local: 0x868BB8, plugin: source }, vec![1, 0]));
}

#[test]
fn pre_translate_converts_raw_fo76_lvlo_bytes_to_source_plugin_formkey() {
    let mut interner = StringInterner::new();
    let mut record = make_record("LVLI", &mut interner);
    let mut raw_lvlo = vec![1, 0, 0, 0];
    raw_lvlo.extend_from_slice(&0x0083_9C65_u32.to_le_bytes());
    raw_lvlo.extend_from_slice(&[1, 0, 0, 0]);
    push_field(&mut record, "LVLO", FieldValue::Bytes(raw_lvlo));

    pre(&mut interner, &mut record);

    let lvlo = field(&record, "LVLO").expect("converted LVLO");
    let FieldValue::Struct(fields) = &lvlo.value else {
        panic!("LVLO should be converted into an FO4 struct");
    };
    let item = named_value(fields, "item", &interner).expect("item reference");
    let FieldValue::FormKey(fk) = item else {
        panic!("LVLO item should be a typed FormKey, got {item:?}");
    };
    assert_eq!(fk.local, 0x0083_9C65);
    assert_eq!(resolve(&interner, fk.plugin).as_deref(), Some("SeventySix.esm"));
}

#[test]
fn pre_translate_converts_four_byte_fo76_lvlo_reference_without_using_it_as_level() {
    let mut interner = StringInterner::new();
    let mut record = make_record("LVLI", &mut interner);
    push_field(&mut record, "LVLO", FieldValue::Bytes(0x0083_9C65_u32.to_le_bytes().to_vec()));
    push_field(&mut record, "LVIV", float(7.0));
    push_field(&mut record, "LVLV", float(2.0));

    pre(&mut interner, &mut record);

    let lvlo = field(&record, "LVLO").expect("converted LVLO");
    let source = interner.intern_str("SeventySix.esm");
    // Encoded: [2,0,0,0,65,9C,83,0,7,0,0,0].
    let (level, fk, count) = lvlo_parts(&lvlo.value, &interner, "item");
    assert_eq!((level, fk, count), (vec![2, 0], FormKey { local: 0x839C65, plugin: source }, vec![7, 0]));
}

#[test]
fn pre_translate_remaps_raw_fo76_caps_lvlo_to_fo4_caps_misc() {
    let mut interner = StringInterner::new();
    let mut record = make_record("LVLI", &mut interner);
    let raw_lvlo = vec![1, 0, 0, 0, 0x0F, 0, 0, 0, 100, 0, 0, 0];
    push_field(&mut record, "LLCT", FieldValue::Uint(1));
    push_field(&mut record, "LVLO", FieldValue::Bytes(raw_lvlo));

    pre(&mut interner, &mut record);

    let lvlo = field(&record, "LVLO").expect("converted LVLO");
    let FieldValue::Struct(fields) = &lvlo.value else {
        panic!("LVLO should be converted into an FO4 struct");
    };
    let item = named_value(fields, "item", &interner).expect("item reference");
    let FieldValue::FormKey(fk) = item else {
        panic!("LVLO item should be a typed FormKey, got {item:?}");
    };
    assert_eq!(fk.local, 0x00000F);
    assert_eq!(resolve(&interner, fk.plugin).as_deref(), Some("Fallout4.esm"));
    // Encoded: [1,0,0,0,0F,0,0,0,100,0,0,0].
    let (level, _, count) = lvlo_parts(&lvlo.value, &interner, "item");
    assert_eq!((level, count), (vec![1, 0], vec![100, 0]));
}

#[test]
fn pre_translate_preserves_npc_object_template_group() {
    let mut interner = StringInterner::new();
    let mut record = make_record("NPC_", &mut interner);
    let template_name = interner.intern_str("Default Template");
    let record_name = interner.intern_str("Thrasher");
    push_field(&mut record, "EDID", FieldValue::Null);
    push_field(&mut record, "OBTE", FieldValue::Bytes(vec![1, 0, 0, 0]));
    push_field(&mut record, "OBTF", FieldValue::Bytes(Vec::new()));
    push_field(&mut record, "FULL", FieldValue::String(template_name));
    push_field(&mut record, "OBTS", FieldValue::Bytes(vec![0; 25]));
    push_field(&mut record, "STOP", FieldValue::Bytes(Vec::new()));
    push_field(&mut record, "CNAM", FieldValue::Bytes(vec![1, 2, 3, 4]));
    push_field(&mut record, "FULL", FieldValue::String(record_name));
    push_field(&mut record, "DATA", FieldValue::Null);

    pre(&mut interner, &mut record);

    assert_eq!(sigs(&record), vec!["EDID", "OBTE", "OBTF", "FULL", "OBTS", "STOP", "CNAM", "FULL", "DATA"]);
    let full_names: Vec<String> = record
        .fields
        .iter()
        .filter_map(|field| match &field.value {
            FieldValue::String(sym) if field.sig.0 == *b"FULL" => resolve(&interner, *sym),
            _ => None,
        })
        .collect();
    assert_eq!(full_names, vec!["Default Template", "Thrasher"]);
}

#[test]
fn post_translate_normalizes_npc_raw_form_refs() {
    let mut interner = StringInterner::new();
    let mut record = make_record("NPC_", &mut interner);
    push_field(&mut record, "SNAM", raw_bytes(&[0x08, 0xC0, 0x3F, 0x00, 0xFE]));
    push_field(&mut record, "CNTO", raw_bytes(&[0x84, 0xAB, 0x33, 0x00, 1, 0, 0, 0]));
    push_field(&mut record, "INAM", raw_bytes(&[0x50, 0xE3, 0x04, 0x00]));

    post(&mut interner, &mut record);

    let snam = field(&record, "SNAM").expect("SNAM remains");
    let FieldValue::Struct(snam_fields) = &snam.value else {
        panic!("SNAM should be structured");
    };
    let FieldValue::FormKey(faction) = named_value(snam_fields, "faction", &interner).expect("faction") else {
        panic!("faction should be a FormKey");
    };
    assert_eq!(faction.local, 0x3FC008);
    assert_eq!(resolve(&interner, faction.plugin).as_deref(), Some("SeventySix.esm"));
    assert_eq!(named_value(snam_fields, "rank", &interner).expect("rank"), &raw_bytes(&[0xFE]));

    let cnto = field(&record, "CNTO").expect("CNTO remains");
    let FieldValue::Struct(cnto_fields) = &cnto.value else {
        panic!("CNTO should be structured");
    };
    let FieldValue::FormKey(item) = named_value(cnto_fields, "item", &interner).expect("item") else {
        panic!("item should be a FormKey");
    };
    assert_eq!(item.local, 0x33AB84);
    assert_eq!(resolve(&interner, item.plugin).as_deref(), Some("SeventySix.esm"));
    assert_eq!(named_value(cnto_fields, "count", &interner).expect("count"), &raw_bytes(&[1, 0, 0, 0]));

    let inam = field(&record, "INAM").expect("INAM remains");
    let FieldValue::FormKey(death_item) = &inam.value else {
        panic!("INAM should be a FormKey");
    };
    assert_eq!(death_item.local, 0x04E350);
    assert_eq!(resolve(&interner, death_item.plugin).as_deref(), Some("SeventySix.esm"));
}

#[test]
fn post_translate_remaps_rd01_assassin_combat_style_to_ranged() {
    let mut interner = StringInterner::new();
    let source_plugin = interner.intern_str("SeventySix.esm");
    let mut record = Record {
        sig: SigCode(*b"NPC_"),
        form_key: FormKey { local: 0x78BD9B, plugin: source_plugin },
        eid: None,
        fields: Vec::new(),
    };
    let eid = interner.intern_str("RD01_Enc04_Assassin");
    record.eid = Some(eid);
    push_field(&mut record, "EDID", FieldValue::String(eid));
    push_field(&mut record, "ZNAM", FieldValue::FormKey(FormKey { local: 0x047165, plugin: source_plugin }));

    post(&mut interner, &mut record);

    let combat_style = field(&record, "ZNAM").expect("combat style remains");
    let FieldValue::FormKey(fk) = &combat_style.value else {
        panic!("combat style should be a FormKey");
    };
    assert_eq!(fk.local, 0x03183B);
    assert_eq!(fk.plugin, source_plugin);
}

#[test]
fn pre_translate_converts_raw_cell_xcri() {
    let mut interner = StringInterner::new();
    let mut record = make_record("CELL", &mut interner);
    let mut raw = Vec::new();
    raw.extend_from_slice(&2_u64.to_le_bytes());
    raw.extend_from_slice(&1_u64.to_le_bytes());
    raw.extend_from_slice(&0x1111_1111_u32.to_le_bytes());
    raw.extend_from_slice(&[1, 2, 3, 4]);
    raw.extend_from_slice(&0x2222_2222_u32.to_le_bytes());
    raw.extend_from_slice(&[5, 6, 7, 8]);
    raw.extend_from_slice(&0xAABB_CCDD_u32.to_le_bytes());
    raw.extend_from_slice(&[9, 10, 11, 12]);
    raw.extend_from_slice(&0x3333_3333_u32.to_le_bytes());
    raw.extend_from_slice(&[13, 14, 15, 16]);
    push_field(&mut record, "EDID", FieldValue::Null);
    push_field(&mut record, "XCRI", FieldValue::Bytes(raw));
    push_field(&mut record, "XCLC", FieldValue::Null);

    pre(&mut interner, &mut record);

    assert_eq!(sigs(&record), vec!["EDID", "XCRI", "XCLC"]);
    let FieldValue::Bytes(bytes) = &record.fields[1].value else {
        panic!("expected raw XCRI bytes");
    };
    let mut expected = Vec::new();
    expected.extend_from_slice(&2_u32.to_le_bytes());
    expected.extend_from_slice(&1_u32.to_le_bytes());
    expected.extend_from_slice(&0x1111_1111_u32.to_le_bytes());
    expected.extend_from_slice(&0x2222_2222_u32.to_le_bytes());
    expected.extend_from_slice(&0xAABB_CCDD_u32.to_le_bytes());
    expected.extend_from_slice(&0x3333_3333_u32.to_le_bytes());
    assert_eq!(bytes.as_slice(), expected.as_slice());
}

#[test]
fn pre_translate_converts_structured_cell_xcri() {
    let mut interner = StringInterner::new();
    let mut record = make_record("CELL", &mut interner);
    let meshes_count = interner.intern_str("meshes_count");
    let references_count = interner.intern_str("references_count");
    let meshes = interner.intern_str("meshes");
    let combined_mesh = interner.intern_str("combined_mesh");
    let unknown = interner.intern_str("unknown_u8_1");
    let references = interner.intern_str("references");
    let reference = interner.intern_str("reference");
    let xcri = FieldValue::Struct(vec![
        (meshes_count, FieldValue::Uint(1)),
        (references_count, FieldValue::Uint(1)),
        (meshes, FieldValue::List(vec![FieldValue::Struct(vec![(combined_mesh, FieldValue::Uint(7)), (unknown, FieldValue::Uint(255))])])),
        (
            references,
            FieldValue::List(vec![FieldValue::Struct(vec![
                (reference, FieldValue::Bytes(0x1234_5678_u32.to_le_bytes().to_vec())),
                (unknown, FieldValue::Uint(255)),
                (combined_mesh, FieldValue::Uint(7)),
            ])]),
        ),
    ]);
    push_field(&mut record, "XCRI", xcri);

    pre(&mut interner, &mut record);

    assert_eq!(record.fields.len(), 1);
    // Encoded in the FO4 layout: counts 1 and 1, mesh 7, then the reference
    // 0x12345678 with mesh 7.
    let FieldValue::Struct(fields) = &record.fields[0].value else {
        panic!("expected structured XCRI");
    };
    assert_eq!(named_value(fields, "meshes_count", &interner), Some(&FieldValue::Uint(1)));
    assert_eq!(named_value(fields, "references_count", &interner), Some(&FieldValue::Uint(1)));
    let Some(FieldValue::List(mesh_rows)) = named_value(fields, "meshes", &interner) else {
        panic!("meshes list");
    };
    assert_eq!(mesh_rows.len(), 1);
    assert_eq!(mesh_rows[0], FieldValue::Uint(7));
    let Some(FieldValue::List(reference_rows)) = named_value(fields, "references", &interner) else {
        panic!("references list");
    };
    assert_eq!(reference_rows.len(), 1);
    let FieldValue::Struct(row) = &reference_rows[0] else { panic!("reference row") };
    assert_eq!(row.len(), 2);
    assert_eq!(named_value(row, "reference", &interner), Some(&FieldValue::Bytes(0x1234_5678_u32.to_le_bytes().to_vec())));
    assert_eq!(named_value(row, "combined_mesh", &interner), Some(&FieldValue::Uint(7)));
}

#[test]
fn pre_translate_drops_malformed_cell_xcri() {
    let mut interner = StringInterner::new();
    let mut record = make_record("CELL", &mut interner);
    push_field(&mut record, "EDID", FieldValue::Null);
    push_field(&mut record, "XCRI", FieldValue::Bytes(vec![1, 2, 3]));

    pre(&mut interner, &mut record);

    assert_eq!(sigs(&record), vec!["EDID"]);
}

#[test]
fn pre_translate_keeps_xcri_on_non_cell_records() {
    let mut interner = StringInterner::new();
    let mut record = make_record("STAT", &mut interner);
    push_field(&mut record, "XCRI", FieldValue::Bytes(vec![0; 32]));

    pre(&mut interner, &mut record);

    assert_eq!(sigs(&record), vec!["XCRI"]);
}
