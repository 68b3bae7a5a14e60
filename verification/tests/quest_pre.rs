#![allow(dead_code)]
use fo76_fo4::effects::Fo76Fo4Hook;
use fo76_fo4::model::{FieldEntry, FieldValue, FormKey, Record, SigCode, SubrecordSig, Sym};
use fo76_fo4::text::StringInterner;

fn sig4(s: &str) -> [u8; 4] {
    let b = s.as_bytes();
    [b[0], b[1], b[2], b[3]]
}

fn make_record(sig: &str, interner: &mut StringInterner) -> Record {
    let plugin = interner.intern_str("SeventySix.esm");
    Record { sig: SigCode(sig4(sig)), form_key: FormKey { local: 0x000800, plugin }, eid: None, fields: Vec::new() }
}

fn push_field(record: &mut Record, sig: &str, value: FieldValue) {
    record.fields.push(FieldEntry { sig: SubrecordSig(sig4(sig)), value });
}

fn raw_bytes(bytes: &[u8]) -> FieldValue {
    FieldValue::Bytes(bytes.to_vec())
}

fn sig_str(sig: [u8; 4]) -> String {
    String::from_utf8(sig.to_vec()).unwrap()
}

fn sigs(record: &Record) -> Vec<String> {
    record.fields.iter().map(|field| sig_str(field.sig.0)).collect()
}

fn resolve(interner: &StringInterner, sym: Sym) -> Option<String> {
    interner.resolve(sym).map(|bytes| String::from_utf8(bytes.to_vec()).unwrap())
}

fn named_value<'a>(fields: &'a [(Sym, FieldValue)], name: &str, interner: &StringInterner) -> Option<&'a FieldValue> {
    fields.iter().find(|(sym, _)| resolve(interner, *sym).as_deref() == Some(name)).map(|(_, value)| value)
}

fn field<'a>(record: &'a Record, sig: &str) -> Option<&'a FieldEntry> {
    record.fields.iter().find(|entry| entry.sig.0 == sig4(sig))
}

fn pre(interner: &mut StringInterner, record: &mut Record) {
    Fo76Fo4Hook::intern_hook_names(interner);
    Fo76Fo4Hook::pre_translate(interner, record);
}

fn post(interner: &mut StringInterner, record: &mut Record) {
    Fo76Fo4Hook::intern_hook_names(interner);
    Fo76Fo4Hook::post_translate(interner, record, Vec::new());
}

fn raw_ctda(function_id: u16) -> FieldValue {
    raw_ctda_with_parameter_1(function_id, 0)
}

fn raw_ctda_with_parameter_1(function_id: u16, parameter_1: u32) -> FieldValue {
    let mut bytes = vec![0_u8; 32];
    bytes[8..10].copy_from_slice(&function_id.to_le_bytes());
    bytes[12..16].copy_from_slice(&parameter_1.to_le_bytes());
    FieldValue::Bytes(bytes)
}

fn raw_ctda_with_run_on(function_id: u16, parameter_1: u32, run_on: u32) -> FieldValue {
    let mut bytes = vec![0_u8; 32];
    bytes[8..10].copy_from_slice(&function_id.to_le_bytes());
    bytes[12..16].copy_from_slice(&parameter_1.to_le_bytes());
    bytes[20..24].copy_from_slice(&run_on.to_le_bytes());
    FieldValue::Bytes(bytes)
}
use fo76_fo4::quest::{build_fo4_qust_dnam_from_fo76_data, qust_eid_is_holotape};

fn qust_with_data(interner: &mut StringInterner, eid: &str, flags: u64, quest_type: u8) -> Record {
    let mut record = make_record("QUST", interner);
    let sym = interner.intern_str(eid);
    push_field(&mut record, "EDID", FieldValue::String(sym));
    let mut data = vec![0u8; 20];
    data[0..8].copy_from_slice(&flags.to_le_bytes());
    data[16] = quest_type;
    push_field(&mut record, "DATA", raw_bytes(&data));
    record
}

fn dnam_flags(record: &Record) -> u16 {
    let dnam = field(record, "DNAM").expect("FO4 DNAM emitted");
    let FieldValue::Bytes(bytes) = &dnam.value else {
        panic!("DNAM bytes")
    };
    u16::from_le_bytes([bytes[0], bytes[1]])
}

#[test]
fn pre_translate_keeps_qust_vmad_and_full_alias_chain() {
    let mut interner = StringInterner::new();
    let mut record = make_record("QUST", &mut interner);
    push_field(&mut record, "EDID", FieldValue::Null);
    push_field(&mut record, "VMAD", FieldValue::Bytes(vec![1, 2, 3]));
    push_field(&mut record, "FULL", FieldValue::Null);
    push_field(&mut record, "FNAM", FieldValue::Bytes(vec![0; 4]));
    push_field(&mut record, "ANAM", FieldValue::Bytes(34_u32.to_le_bytes().to_vec()));
    push_field(&mut record, "ALST", FieldValue::Bytes(0_u32.to_le_bytes().to_vec()));
    push_field(&mut record, "ALID", FieldValue::Bytes(Vec::new()));
    push_field(&mut record, "KNAM", FieldValue::Bytes(Vec::new()));
    push_field(&mut record, "ALFC", FieldValue::Bytes(Vec::new()));
    push_field(&mut record, "ALFE", FieldValue::Bytes(Vec::new()));
    push_field(&mut record, "ALFD", FieldValue::Bytes(0x00003152_u32.to_le_bytes().to_vec()));
    push_field(&mut record, "ALLS", FieldValue::Bytes(35_u32.to_le_bytes().to_vec()));
    push_field(&mut record, "ALCS", FieldValue::Bytes(36_u32.to_le_bytes().to_vec()));
    push_field(&mut record, "KSIZ", FieldValue::Bytes(1_u32.to_le_bytes().to_vec()));
    push_field(&mut record, "KWDA", FieldValue::Bytes(vec![1, 0, 0, 0]));
    push_field(&mut record, "ALRT", FieldValue::Bytes(Vec::new()));
    push_field(&mut record, "SNAM", FieldValue::Null);

    pre(&mut interner, &mut record);

    assert_eq!(
        sigs(&record),
        vec!["EDID", "VMAD", "FULL", "FNAM", "ANAM", "ALST", "ALID", "ALLS", "ALCS", "KSIZ", "KWDA", "ALRT", "SNAM"]
    );
    match &record.fields[4].value {
        FieldValue::Bytes(bytes) => assert_eq!(&bytes[..4], &34_u32.to_le_bytes()),
        other => panic!("ANAM should retain next alias id bytes, got {other:?}"),
    }
}

#[test]
fn pre_translate_marks_event_filled_qust_alias_optional_when_fill_is_stripped() {
    let mut interner = StringInterner::new();
    let mut record = make_record("QUST", &mut interner);
    push_field(&mut record, "EDID", FieldValue::Null);
    push_field(&mut record, "ANAM", FieldValue::Bytes(14_u32.to_le_bytes().to_vec()));
    push_field(&mut record, "ALST", FieldValue::Bytes(13_u32.to_le_bytes().to_vec()));
    push_field(&mut record, "ALID", FieldValue::Bytes(Vec::new()));
    push_field(&mut record, "FNAM", FieldValue::Bytes(0_u32.to_le_bytes().to_vec()));
    push_field(&mut record, "ALFE", FieldValue::Bytes(1329742913_u32.to_le_bytes().to_vec()));
    push_field(&mut record, "ALFD", FieldValue::Bytes(1_u32.to_le_bytes().to_vec()));
    push_field(&mut record, "ALED", FieldValue::Null);

    pre(&mut interner, &mut record);

    assert_eq!(sigs(&record), vec!["EDID", "ANAM", "ALST", "ALID", "FNAM", "ALED"]);
    let fnam = field(&record, "FNAM").expect("alias FNAM");
    let FieldValue::Bytes(bytes) = &fnam.value else {
        panic!("FNAM should stay raw bytes");
    };
    let raw_flags = u32::from_le_bytes(bytes[0..4].try_into().unwrap());
    assert_eq!(raw_flags & 0x2, 0x2);
}

#[test]
fn build_fo4_qust_dnam_relayouts_20_byte_flags64_variant() {
    let mut data = vec![0u8; 20];
    data[0..8].copy_from_slice(&0x0000_0000_0000_8311_u64.to_le_bytes());
    data[8] = 5;
    data[12..16].copy_from_slice(&1.5_f32.to_le_bytes());
    data[16] = 2;

    let dnam = build_fo4_qust_dnam_from_fo76_data(&data).expect("dnam");
    assert_eq!(dnam.len(), 12);
    assert_eq!(u16::from_le_bytes([dnam[0], dnam[1]]), 0x8311);
    assert_eq!(dnam[0] & 0x01, 0x01, "start_game_enabled bit preserved");
    assert_eq!(dnam[2], 5, "priority");
    assert_eq!(f32::from_le_bytes(dnam[4..8].try_into().unwrap()), 1.5);
    assert_eq!(dnam[8], 2, "quest_type");
}

#[test]
fn build_fo4_qust_dnam_relayouts_16_byte_flags32_variant() {
    let mut data = vec![0u8; 16];
    data[0..4].copy_from_slice(&0x0000_0111_u32.to_le_bytes());
    data[4] = 7;
    data[8..12].copy_from_slice(&2.0_f32.to_le_bytes());
    data[12] = 3;

    let dnam = build_fo4_qust_dnam_from_fo76_data(&data).expect("dnam");
    assert_eq!(u16::from_le_bytes([dnam[0], dnam[1]]), 0x0111);
    assert_eq!(dnam[2], 7);
    assert_eq!(f32::from_le_bytes(dnam[4..8].try_into().unwrap()), 2.0);
    assert_eq!(dnam[8], 3);
}

#[test]
fn build_fo4_qust_dnam_masks_fo76_only_high_flag_bits() {
    let mut data = vec![0u8; 20];
    data[0..8].copy_from_slice(&0x0000_0000_0008_8311_u64.to_le_bytes());
    let dnam = build_fo4_qust_dnam_from_fo76_data(&data).expect("dnam");
    assert_eq!(u16::from_le_bytes([dnam[0], dnam[1]]), 0x8311, "FO76-only high flag bits masked off");
}

#[test]
fn build_fo4_qust_dnam_rejects_unknown_length() {
    assert!(build_fo4_qust_dnam_from_fo76_data(&[0u8; 13]).is_none());
}

#[test]
fn pre_translate_converts_qust_data_to_fo4_dnam() {
    let mut interner = StringInterner::new();
    let mut record = make_record("QUST", &mut interner);
    push_field(&mut record, "EDID", FieldValue::Null);
    let mut data = vec![0u8; 20];
    data[0..8].copy_from_slice(&0x0000_0000_0000_8311_u64.to_le_bytes());
    data[8] = 5;
    data[16] = 2;
    push_field(&mut record, "DATA", raw_bytes(&data));

    pre(&mut interner, &mut record);

    let sigs = sigs(&record);
    assert!(!sigs.contains(&"DATA".to_string()), "FO76 DATA renamed away");
    assert!(sigs.contains(&"DNAM".to_string()), "FO4 DNAM emitted");
    let FieldValue::Bytes(bytes) = &field(&record, "DNAM").unwrap().value else {
        panic!("DNAM should be raw bytes");
    };
    assert_eq!(bytes.len(), 12);
    assert_eq!(u16::from_le_bytes([bytes[0], bytes[1]]), 0x8310);
}

#[test]
fn pre_translate_qust_keeps_existing_dnam_untouched() {
    let mut interner = StringInterner::new();
    let mut record = make_record("QUST", &mut interner);
    push_field(&mut record, "EDID", FieldValue::Null);
    push_field(&mut record, "DNAM", raw_bytes(&[0x01, 0x00, 9, 0, 0, 0, 0, 0, 1, 0, 0, 0]));

    pre(&mut interner, &mut record);

    let FieldValue::Bytes(bytes) = &field(&record, "DNAM").unwrap().value else {
        panic!("DNAM bytes");
    };
    assert_eq!(bytes[2], 9, "existing DNAM priority preserved");
}

#[test]
fn qust_eid_holotape_matches_container_not_gameplay() {
    let mut interner = StringInterner::new();
    let mut mk = |eid: &str| {
        let mut r = make_record("QUST", &mut interner);
        let sym = interner.intern_str(eid);
        push_field(&mut r, "EDID", FieldValue::String(sym));
        qust_eid_is_holotape(&interner, &r)
    };
    assert!(mk("HolotapeQuest_Overseer"));
    assert!(mk("HolotapeQuest_DB"));
    assert!(mk("Burn_HolotapeQuest"));
    assert!(mk("Storm_Holotapes_Cassidy"));
    assert!(mk("HolotapesQuest"));
    assert!(!mk("Storm_MQ09_OberlinPt3_DanHolotape"));
    assert!(!mk("E06_PocketWatch_Holotape_Misc"));
    assert!(!mk("EN07_MQ_Nuke_Master"));
}

#[test]
fn pre_translate_forces_holotape_container_autostart() {
    let mut interner = StringInterner::new();
    let mut record = qust_with_data(&mut interner, "HolotapeQuest_Overseer", 0x8000, 0);
    pre(&mut interner, &mut record);
    assert_eq!(dnam_flags(&record), 0x8001);
}

#[test]
fn pre_translate_force_starts_dialogue_named_quest() {
    let mut interner = StringInterner::new();
    let mut record = qust_with_data(&mut interner, "XPD_Dialogue_WhitespringGreeter", 0x8500, 0);
    pre(&mut interner, &mut record);
    assert_eq!(dnam_flags(&record) & 0x0001, 0x0001, "dialogue-named quest forced Start-Game-Enabled");
}

#[test]
fn pre_translate_does_not_force_start_gameplay_quest() {
    let mut interner = StringInterner::new();
    let mut record = qust_with_data(&mut interner, "RE_SceneKMK01", 0x8500, 0);
    pre(&mut interner, &mut record);
    assert_eq!(dnam_flags(&record) & 0x0001, 0, "gameplay quest left non-SGE");
}

#[test]
fn pre_translate_disables_event_quest_even_when_dialogue_named() {
    let mut interner = StringInterner::new();
    let mut record = qust_with_data(&mut interner, "Dialogue_EventActivity", 0x8501, 8);
    pre(&mut interner, &mut record);
    assert_eq!(dnam_flags(&record) & 0x0001, 0);
}

#[test]
fn pre_translate_does_not_force_start_test_dialogue_quest() {
    let mut interner = StringInterner::new();
    let mut record = qust_with_data(&mut interner, "test_VHarbison_Dialogue_Someone", 0x8500, 0);
    pre(&mut interner, &mut record);
    assert_eq!(dnam_flags(&record) & 0x0001, 0, "test/dev dialogue quest must NOT be force-started (scene CTD)");
}

#[test]
fn pre_translate_clears_sge_on_faithfully_sge_test_quest() {
    let mut interner = StringInterner::new();
    let mut record = qust_with_data(&mut interner, "TestDialogueExpressions", 0x8501, 0);
    pre(&mut interner, &mut record);
    assert_eq!(dnam_flags(&record) & 0x0001, 0, "developer test quest must never auto-start, even if FO76 marked it SGE");
}

#[test]
fn pre_translate_disables_gameplay_quest_with_fo76_sge() {
    let mut interner = StringInterner::new();
    let mut record = qust_with_data(&mut interner, "RE_SceneKMK01", 0x8501, 0);
    pre(&mut interner, &mut record);
    assert_eq!(dnam_flags(&record) & 0x0001, 0, "non-dialogue/non-radio quest must be disabled even if FO76 marked it SGE");
}

#[test]
fn pre_translate_preserves_radio_station_autostart() {
    let mut interner = StringInterner::new();
    let mut record = qust_with_data(&mut interner, "SQ_RadioAppalachia", 0x8501, 0);
    pre(&mut interner, &mut record);
    assert_eq!(dnam_flags(&record) & 0x0001, 0x0001, "radio station keeps its FO76 start-game-enabled flag");
}

#[test]
fn pre_translate_disables_high_school_pa_autostart() {
    let mut interner = StringInterner::new();
    let mut record = qust_with_data(&mut interner, "CB_HighSchoolPASystem_RadioScenes", 0x8501, 0);
    pre(&mut interner, &mut record);
    assert_eq!(dnam_flags(&record) & 0x0001, 0, "local high-school PA loop is not a radio station and must stay off");
}

#[test]
fn pre_translate_does_not_enable_mq_radio_segment() {
    let mut interner = StringInterner::new();
    let mut record = qust_with_data(&mut interner, "W05_MQ_003P_Radio", 0x8500, 0);
    pre(&mut interner, &mut record);
    assert_eq!(dnam_flags(&record) & 0x0001, 0, "radio quest with no FO76 SGE (main-quest segment) stays off");
}

#[test]
fn pre_translate_strips_fo76_qust_event_scope() {
    let mut interner = StringInterner::new();
    let mut record = make_record("QUST", &mut interner);
    push_field(&mut record, "EDID", FieldValue::Null);
    push_field(&mut record, "DNAM", raw_bytes(&[0x11, 0x03, 5, 0]));
    push_field(&mut record, "ENAM", FieldValue::Bytes(0x434F_4C49_u32.to_le_bytes().to_vec()));
    push_field(&mut record, "LNAM", FieldValue::Null);

    pre(&mut interner, &mut record);

    assert_eq!(sigs(&record), vec!["EDID", "DNAM", "LNAM"]);
}

#[test]
fn pre_translate_strips_qust_objective_targets_but_keeps_alias_chain() {
    let mut interner = StringInterner::new();
    let mut record = make_record("QUST", &mut interner);
    push_field(&mut record, "EDID", FieldValue::Null);
    push_field(&mut record, "CTDA", raw_ctda(300));
    push_field(&mut record, "INDX", FieldValue::Null);
    push_field(&mut record, "QSDT", FieldValue::Null);
    push_field(&mut record, "CTDA", raw_ctda(300));
    push_field(&mut record, "QOBJ", FieldValue::Uint(10));
    push_field(&mut record, "FNAM", FieldValue::Uint(0));
    push_field(&mut record, "NNAM", FieldValue::Null);
    push_field(&mut record, "QSTA", FieldValue::Bytes(vec![3, 0, 0, 0]));
    push_field(&mut record, "CTDA", raw_ctda(300));
    push_field(&mut record, "CIS1", FieldValue::Null);
    push_field(&mut record, "CIS2", FieldValue::Null);
    push_field(&mut record, "QSTA", FieldValue::Bytes(vec![4, 0, 0, 0]));
    push_field(&mut record, "QOBJ", FieldValue::Uint(20));
    push_field(&mut record, "ANAM", FieldValue::Bytes(5_u32.to_le_bytes().to_vec()));
    push_field(&mut record, "ALST", FieldValue::Bytes(Vec::new()));

    pre(&mut interner, &mut record);

    assert_eq!(
        sigs(&record),
        vec!["EDID", "CTDA", "INDX", "QSDT", "CTDA", "QOBJ", "FNAM", "NNAM", "QOBJ", "ANAM", "ALST"]
    );
}

#[test]
fn pre_translate_drops_only_objective_scope_qust_snam() {
    let mut interner = StringInterner::new();
    let mut record = make_record("QUST", &mut interner);
    push_field(&mut record, "EDID", FieldValue::Null);
    push_field(&mut record, "SNAM", raw_bytes(b"Interface/Quest.swf\0"));
    push_field(&mut record, "QOBJ", FieldValue::Uint(11));
    push_field(&mut record, "FNAM", FieldValue::Uint(0));
    push_field(&mut record, "QOTM", FieldValue::Null);
    push_field(&mut record, "SNAM", raw_bytes(&u16::MAX.to_le_bytes()));
    push_field(&mut record, "NNAM", FieldValue::Null);
    push_field(&mut record, "ANAM", FieldValue::Bytes(1_u32.to_le_bytes().to_vec()));
    push_field(&mut record, "ALST", FieldValue::Bytes(Vec::new()));
    push_field(&mut record, "SNAM", raw_bytes(b"AliasDisplayName\0"));

    pre(&mut interner, &mut record);

    let snam_values: Vec<&[u8]> = record
        .fields
        .iter()
        .filter(|entry| entry.sig.0 == *b"SNAM")
        .map(|entry| match &entry.value {
            FieldValue::Bytes(bytes) => bytes.as_slice(),
            other => panic!("SNAM must stay Bytes, got {other:?}"),
        })
        .collect();
    assert_eq!(snam_values, vec![b"Interface/Quest.swf\0".as_slice(), b"AliasDisplayName\0".as_slice()]);
}

#[test]
fn pre_translate_keeps_qust_alias_like_sigs_before_anam() {
    let mut interner = StringInterner::new();
    let mut record = make_record("QUST", &mut interner);
    push_field(&mut record, "EDID", FieldValue::Null);
    push_field(&mut record, "CTDA", FieldValue::Bytes(Vec::new()));
    push_field(&mut record, "FNAM", FieldValue::Bytes(Vec::new()));
    push_field(&mut record, "ANAM", FieldValue::Bytes(vec![0; 4]));

    pre(&mut interner, &mut record);

    assert_eq!(sigs(&record), vec!["EDID", "CTDA", "FNAM", "ANAM"]);
}

#[test]
fn pre_translate_is_noop_when_no_global_fields_present() {
    let mut interner = StringInterner::new();
    let mut record = make_record("WEAP", &mut interner);
    push_field(&mut record, "EDID", FieldValue::Null);
    push_field(&mut record, "FULL", FieldValue::Null);

    pre(&mut interner, &mut record);

    assert_eq!(record.fields.len(), 2);
}
