use fo76_fo4::cndf::ConditionFormCatalog;
use fo76_fo4::effects::Fo76Fo4Hook;
use fo76_fo4::model::{FieldEntry, FieldValue, FormKey, Record, SigCode, SubrecordSig};
use fo76_fo4::text::StringInterner;
use fo76_fo4::xcri::convert_cell_xcri_raw_to_fo4;

fn sig4(s: &str) -> [u8; 4] {
    let b = s.as_bytes();
    [b[0], b[1], b[2], b[3]]
}

fn make_record(sig: &str, interner: &mut StringInterner) -> Record {
    let plugin = interner.intern_str("SeventySix.esm");
    Record { sig: SigCode(sig4(sig)), form_key: FormKey { local: 0x000800, plugin }, eid: None, fields: Vec::new() }
}

fn push_field(record: &mut Record, sig: &str, value: FieldValue) {
    record.fields.push(FieldEntry { sig: SubrecordSig(sig4(sig)), value });
}

fn sig_names(record: &Record) -> Vec<String> {
    record.fields.iter().map(|e| String::from_utf8(e.sig.0.to_vec()).unwrap()).collect()
}

fn row(flags: u8, comparison: f32, function: u16, p1: u32) -> Vec<u8> {
    let mut b = vec![0_u8; 32];
    b[0] = flags;
    b[4..8].copy_from_slice(&comparison.to_le_bytes());
    b[8..10].copy_from_slice(&function.to_le_bytes());
    b[12..16].copy_from_slice(&p1.to_le_bytes());
    b
}

fn u32_at(b: &[u8], off: usize) -> u32 {
    u32::from_le_bytes([b[off], b[off + 1], b[off + 2], b[off + 3]])
}

#[test]
fn workshop_category_ignores_editor_id_case() {
    for (upper, lower) in [
        ("WorkshopCampFire01", "workshopcampfire01"),
        ("WS_WallDecor_Poster", "ws_walldecor_poster"),
        ("WORKSHOP_GENERATOR_SMALL", "workshop_generator_small"),
    ] {
        assert_eq!(
            Fo76Fo4Hook::infer_workshop_category(upper.as_bytes()),
            Fo76Fo4Hook::infer_workshop_category(lower.as_bytes())
        );
    }
    assert_eq!(Fo76Fo4Hook::infer_workshop_category(b"CAMPFIRE"), (0x06201F, 0x05B5E3));
}

#[test]
fn fo4_shaped_combined_reference_index_is_returned_unchanged() {
    let mut raw = Vec::new();
    raw.extend_from_slice(&1u32.to_le_bytes());
    raw.extend_from_slice(&1u32.to_le_bytes());
    raw.extend_from_slice(&0x0001_2345u32.to_le_bytes());
    raw.extend_from_slice(&0x0001_0001u32.to_le_bytes());
    raw.extend_from_slice(&0x0001_0002u32.to_le_bytes());
    assert_eq!(raw.len(), 20);
    assert_eq!(convert_cell_xcri_raw_to_fo4(&raw), Some(raw.clone()));
}

#[test]
fn inlining_keeps_fields_outside_condition_blocks_in_order() {
    let mut interner = StringInterner::new();
    let mut catalog = ConditionFormCatalog::new(1);
    catalog.insert(0x10, vec![row(0x00, 1.0, 72, 7), row(0x40, 2.0, 80, 0)], false);
    let mut record = make_record("INFO", &mut interner);
    push_field(&mut record, "EDID", FieldValue::Bytes(b"Info\0".to_vec()));
    push_field(&mut record, "CTDA", FieldValue::Bytes(row(0x00, 1.0, 875, 0x0100_0010)));
    push_field(&mut record, "NAM1", FieldValue::Bytes(b"Hello\0".to_vec()));
    Fo76Fo4Hook::inline_fo76_condition_forms(&mut record, &catalog);
    assert_eq!(sig_names(&record), vec!["EDID", "CTDA", "CTDA", "NAM1"]);
    assert_eq!(record.fields[0].value, FieldValue::Bytes(b"Info\0".to_vec()));
    assert_eq!(record.fields[3].value, FieldValue::Bytes(b"Hello\0".to_vec()));
}

#[test]
fn inlining_leaves_a_record_without_form_conditions_as_it_was() {
    let mut interner = StringInterner::new();
    let catalog = ConditionFormCatalog::new(1);
    let build = |interner: &mut StringInterner| {
        let mut record = make_record("INFO", interner);
        push_field(&mut record, "CTDA", FieldValue::Bytes(row(0x00, 1.0, 72, 7)));
        push_field(&mut record, "CITC", FieldValue::Uint(9));
        record
    };
    let mut record = build(&mut interner);
    let before = build(&mut interner);
    Fo76Fo4Hook::inline_fo76_condition_forms(&mut record, &catalog);
    assert_eq!(record, before);
}

#[test]
fn dropping_incompatible_conditions_keeps_other_fields_and_loadable_conditions() {
    let mut interner = StringInterner::new();
    let mut record = make_record("INFO", &mut interner);
    push_field(&mut record, "EDID", FieldValue::Bytes(b"Info\0".to_vec()));
    push_field(&mut record, "CTDA", FieldValue::Bytes(row(0x00, 1.0, 72, 7)));
    push_field(&mut record, "CTDA", FieldValue::Bytes(row(0x00, 1.0, 849, 0)));
    push_field(&mut record, "NAM1", FieldValue::Bytes(b"Hello\0".to_vec()));
    Fo76Fo4Hook::drop_fo4_incompatible_conditions(&interner, &mut record);
    assert_eq!(sig_names(&record), vec!["EDID", "CTDA", "NAM1"]);
    assert_eq!(record.fields[1].value, FieldValue::Bytes(row(0x00, 1.0, 72, 7)));
}

#[test]
fn leveled_list_without_count_gets_one_in_front() {
    let mut interner = StringInterner::new();
    Fo76Fo4Hook::intern_hook_names(&mut interner);
    let mut record = make_record("LVLI", &mut interner);
    let mut lvlo = vec![0_u8; 12];
    lvlo[0..2].copy_from_slice(&5u16.to_le_bytes());
    lvlo[4..8].copy_from_slice(&0x0000_1234u32.to_le_bytes());
    lvlo[8..10].copy_from_slice(&2u16.to_le_bytes());
    push_field(&mut record, "LVLO", FieldValue::Bytes(lvlo));
    Fo76Fo4Hook::convert_fo76_leveled_list_entries(&mut interner, &mut record);
    assert_eq!(sig_names(&record), vec!["LLCT", "LVLO"]);
    assert_eq!(record.fields[0].value, FieldValue::Uint(1));
    match &record.fields[1].value {
        FieldValue::Struct(members) => {
            let names: Vec<String> = members
                .iter()
                .map(|(sym, _)| String::from_utf8(interner.resolve(*sym).unwrap().to_vec()).unwrap())
                .collect();
            assert_eq!(names, vec!["level", "unknown_u8_1", "unknown_u8_2", "item", "count", "chance_none", "unknown_u8_6"]);
        },
        other => panic!("expected a struct, got {other:?}"),
    }
}

#[test]
fn light_radius_is_made_positive_and_shadow_radius_capped() {
    let mut interner = StringInterner::new();
    Fo76Fo4Hook::intern_hook_names(&mut interner);
    let mut data = vec![0_u8; 64];
    data[56..60].copy_from_slice(&5000u32.to_le_bytes());
    let mut record = make_record("LIGH", &mut interner);
    push_field(&mut record, "DATA", FieldValue::Bytes(data));
    Fo76Fo4Hook::ensure_light_radius(&mut interner, &mut record);
    match &record.fields[0].value {
        FieldValue::Bytes(b) => assert_eq!(u32_at(b, 4), 2048),
        other => panic!("expected bytes, got {other:?}"),
    }
    let mut shadow = vec![0_u8; 64];
    shadow[4..8].copy_from_slice(&4096u32.to_le_bytes());
    shadow[12..16].copy_from_slice(&0x0000_0400u32.to_le_bytes());
    let mut record = make_record("LIGH", &mut interner);
    push_field(&mut record, "DATA", FieldValue::Bytes(shadow));
    Fo76Fo4Hook::clamp_shadow_caster_radius_for_fo4(&interner, &mut record);
    match &record.fields[0].value {
        FieldValue::Bytes(b) => assert_eq!(u32_at(b, 4), 1024),
        other => panic!("expected bytes, got {other:?}"),
    }
}

#[test]
fn light_data_floats_end_finite_and_in_range() {
    let mut interner = StringInterner::new();
    Fo76Fo4Hook::intern_hook_names(&mut interner);
    let mut data = vec![0_u8; 72];
    data[12..16].copy_from_slice(&0xFFFF_FFFFu32.to_le_bytes());
    data[24..28].copy_from_slice(&f32::NAN.to_le_bytes());
    data[32..36].copy_from_slice(&f32::INFINITY.to_le_bytes());
    let mut record = make_record("LIGH", &mut interner);
    push_field(&mut record, "DATA", FieldValue::Bytes(data));
    Fo76Fo4Hook::normalize_light_data_for_fo4(&mut interner, &mut record);
    match &record.fields[0].value {
        FieldValue::Bytes(b) => {
            assert_eq!(b.len(), 64);
            assert_eq!(f32::from_le_bytes([b[24], b[25], b[26], b[27]]), 7.217);
            assert_eq!(f32::from_le_bytes([b[32], b[33], b[34], b[35]]), 2.0);
            assert_eq!(u32_at(b, 12), 0x003F_7FFF);
        },
        other => panic!("expected bytes, got {other:?}"),
    }
}

#[test]
fn qust_dnam_flags_follow_type_and_editor_id() {
    let cases: [(&str, u8, u16, u16); 5] = [
        ("MQ_Dialogue01", 2, 0x8000, 0x8001),
        ("MQ_Dialogue01", 6, 0x8001, 0x8000),
        ("TestQuest", 2, 0x8001, 0x8000),
        ("RadioStation01", 2, 0x0001, 0x0001),
        ("PlainQuest", 2, 0x0001, 0x0000),
    ];
    for (eid, quest_type, flags, want) in cases {
        let mut interner = StringInterner::new();
        let mut record = make_record("QUST", &mut interner);
        record.eid = Some(interner.intern_str(eid));
        let mut data = vec![0_u8; 16];
        data[0..2].copy_from_slice(&flags.to_le_bytes());
        data[4] = 7;
        data[12] = quest_type;
        push_field(&mut record, "DATA", FieldValue::Bytes(data));
        Fo76Fo4Hook::convert_qust_data_to_fo4_dnam(&interner, &mut record);
        assert_eq!(sig_names(&record), vec!["DNAM"]);
        match &record.fields[0].value {
            FieldValue::Bytes(d) => {
                assert_eq!(d.len(), 12);
                assert_eq!(u16::from_le_bytes([d[0], d[1]]), want, "{eid}");
                assert_eq!(d[2], 7);
                assert_eq!(d[8], quest_type);
            },
            other => panic!("expected bytes, got {other:?}"),
        }
    }
}

#[test]
fn pack_tree_fallback_becomes_sequence_and_procedures_are_fo4_names() {
    let mut interner = StringInterner::new();
    Fo76Fo4Hook::intern_hook_names(&mut interner);
    let fallback = interner.intern_str("Fallback");
    let entries = vec![
        FieldEntry { sig: SubrecordSig(sig4("ANAM")), value: FieldValue::String(fallback) },
        FieldEntry { sig: SubrecordSig(sig4("PNAM")), value: FieldValue::Bytes(b"Travel\0".to_vec()) },
        FieldEntry { sig: SubrecordSig(sig4("PNAM")), value: FieldValue::Bytes(b"NoSuchProcedure\0".to_vec()) },
    ];
    let out = Fo76Fo4Hook::rewrite_pack_procedure_tree_entries(&mut interner, &entries);
    for e in &out {
        if e.sig.0 == sig4("ANAM") {
            if let FieldValue::String(sym) = e.value {
                assert_ne!(interner.resolve(sym).unwrap(), b"Fallback".as_slice());
            }
        }
        if e.sig.0 == sig4("PNAM") {
            match e.value {
                FieldValue::String(sym) => assert_eq!(interner.resolve(sym).unwrap(), b"Travel".as_slice()),
                ref other => panic!("expected an interned name, got {other:?}"),
            }
        }
    }
    assert!(out.iter().any(|e| e.sig.0 == sig4("ANAM")
        && e.value == FieldValue::String(interner.find(b"Sequence").unwrap())));
}

#[test]
fn converted_combined_reference_index_converts_to_itself() {
    let mut raw = Vec::new();
    raw.extend_from_slice(&1u64.to_le_bytes());
    raw.extend_from_slice(&1u64.to_le_bytes());
    raw.extend_from_slice(&0x0001_2345u32.to_le_bytes());
    raw.extend_from_slice(&0xAAAA_AAAAu32.to_le_bytes());
    raw.extend_from_slice(&0x0001_0001u32.to_le_bytes());
    raw.extend_from_slice(&0xBBBB_BBBBu32.to_le_bytes());
    raw.extend_from_slice(&0x0001_0002u32.to_le_bytes());
    raw.extend_from_slice(&0xCCCC_CCCCu32.to_le_bytes());
    let once = convert_cell_xcri_raw_to_fo4(&raw).expect("FO76 layout converts");
    assert_eq!(once.len(), 8 + 4 + 8);
    assert_eq!(convert_cell_xcri_raw_to_fo4(&once), Some(once.clone()));
}

#[test]
fn parameter_strings_leave_with_their_dropped_condition() {
    let mut interner = StringInterner::new();
    let mut record = make_record("INFO", &mut interner);
    push_field(&mut record, "CTDA", FieldValue::Bytes(row(0x00, 1.0, 849, 0)));
    push_field(&mut record, "CIS1", FieldValue::Bytes(b"a\0".to_vec()));
    push_field(&mut record, "CTDA", FieldValue::Bytes(row(0x00, 1.0, 72, 7)));
    push_field(&mut record, "CIS1", FieldValue::Bytes(b"b\0".to_vec()));
    push_field(&mut record, "CITC", FieldValue::Uint(2));
    Fo76Fo4Hook::drop_fo4_incompatible_conditions(&interner, &mut record);
    assert_eq!(sig_names(&record), vec!["CTDA", "CIS1", "CITC"]);
    assert_eq!(record.fields[1].value, FieldValue::Bytes(b"b\0".to_vec()));
    assert_eq!(record.fields[2].value, FieldValue::Uint(1));
}

#[test]
fn refused_condition_form_block_stays_with_its_count() {
    let mut interner = StringInterner::new();
    let catalog = ConditionFormCatalog::new(1);
    let build = |interner: &mut StringInterner| {
        let mut record = make_record("INFO", interner);
        push_field(&mut record, "CTDA", FieldValue::Bytes(row(0x00, 1.0, 875, 0x0100_0099)));
        push_field(&mut record, "CITC", FieldValue::Uint(1));
        record
    };
    let mut record = build(&mut interner);
    let before = build(&mut interner);
    Fo76Fo4Hook::inline_fo76_condition_forms(&mut record, &catalog);
    assert_eq!(record, before);
}
