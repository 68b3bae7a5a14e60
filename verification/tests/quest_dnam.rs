use fo76_fo4::effects::Fo76Fo4Hook;
use fo76_fo4::model::{FieldEntry, FieldValue, FormKey, Record, SigCode, SubrecordSig, Sym};
use fo76_fo4::quest::{
    build_fo4_qust_dnam_from_fo76_data, force_dialogue_quest_autostart,
    fo76_qust_type_disables_start_game, qust_eid_is_dialogue_conversation,
    qust_eid_is_holotape, qust_eid_is_radio, qust_eid_is_test_or_dev, suppress_quest_autostart,
};
use fo76_fo4::text::StringInterner;

fn make_record(sig: &[u8; 4], interner: &mut StringInterner) -> Record {
    let plugin = interner.intern_str("SeventySix.esm");
    Record {
        sig: SigCode(*sig),
        form_key: FormKey { local: 0x000800, plugin },
        eid: None,
        fields: Vec::new(),
    }
}

fn push_field(record: &mut Record, sig: &[u8; 4], value: FieldValue) {
    record.fields.push(FieldEntry { sig: SubrecordSig(*sig), value });
}

fn raw_bytes(bytes: &[u8]) -> FieldValue {
    FieldValue::Bytes(bytes.to_vec())
}

#[test]
fn force_dialogue_autostart_sets_sge_when_has_dialogue_data() {
    let mut dnam = vec![0x00, 0x80, 5, 0, 0, 0, 0, 0, 2, 0, 0, 0];
    force_dialogue_quest_autostart(&mut dnam);
    let flags = u16::from_le_bytes([dnam[0], dnam[1]]);
    assert_eq!(flags & 0x0001, 0x0001, "start_game_enabled set");
    assert_eq!(flags & 0x8000, 0x8000, "has_dialogue_data preserved");
    assert_eq!(dnam[2], 5, "priority untouched");
}

#[test]
fn force_dialogue_autostart_noop_without_has_dialogue_data() {
    let mut dnam = vec![0x00, 0x00, 5, 0, 0, 0, 0, 0, 2, 0, 0, 0];
    force_dialogue_quest_autostart(&mut dnam);
    assert_eq!(u16::from_le_bytes([dnam[0], dnam[1]]) & 0x0001, 0, "SGE not added");
}

#[test]
fn force_dialogue_autostart_is_idempotent() {
    let mut dnam = vec![0x01, 0x80, 5, 0, 0, 0, 0, 0, 2, 0, 0, 0];
    force_dialogue_quest_autostart(&mut dnam);
    assert_eq!(u16::from_le_bytes([dnam[0], dnam[1]]), 0x8001);
}

#[test]
fn suppress_autostart_clears_only_the_start_game_flag() {
    let mut dnam = vec![0x11, 0x80, 5, 0, 0, 0, 0, 0, 2, 0, 0, 0];
    suppress_quest_autostart(&mut dnam);
    assert_eq!(dnam, vec![0x10, 0x80, 5, 0, 0, 0, 0, 0, 2, 0, 0, 0]);
    let mut short = vec![0x01];
    suppress_quest_autostart(&mut short);
    assert_eq!(short, vec![0x01]);
}

#[test]
fn dnam_relayout_from_flags64_and_flags32_data() {
    let mut data64 = vec![0u8; 20];
    data64[0] = 0x01;
    data64[1] = 0x80;
    data64[2] = 0xFF; // FO76-only high flag bits are dropped
    data64[8] = 7;
    data64[12..16].copy_from_slice(&[1, 2, 3, 4]);
    data64[16] = 9;
    assert_eq!(
        build_fo4_qust_dnam_from_fo76_data(&data64),
        Some(vec![0x01, 0x80, 7, 0, 1, 2, 3, 4, 9, 0, 0, 0])
    );

    let mut data32 = vec![0u8; 16];
    data32[0] = 0x10;
    data32[4] = 3;
    data32[8..12].copy_from_slice(&[5, 6, 7, 8]);
    data32[12] = 6;
    assert_eq!(
        build_fo4_qust_dnam_from_fo76_data(&data32),
        Some(vec![0x10, 0, 3, 0, 5, 6, 7, 8, 6, 0, 0, 0])
    );
    assert_eq!(build_fo4_qust_dnam_from_fo76_data(&[0u8; 12]), None);
}

#[test]
fn event_quest_types_disable_start_game() {
    assert!(fo76_qust_type_disables_start_game(6));
    assert!(fo76_qust_type_disables_start_game(8));
    assert!(!fo76_qust_type_disables_start_game(0));
    assert!(!fo76_qust_type_disables_start_game(7));
}

#[test]
fn qust_eid_dialogue_match_explicit_containers_only() {
    let mut interner = StringInterner::new();
    let mut r1 = make_record(b"QUST", &mut interner);
    let sym = interner.intern_str("XPD_Dialogue_WhitespringGreeter");
    push_field(&mut r1, b"EDID", FieldValue::String(sym));
    assert!(qust_eid_is_dialogue_conversation(&interner, &r1));

    let mut r2 = make_record(b"QUST", &mut interner);
    push_field(&mut r2, b"EDID", raw_bytes(b"some_dialogue_thing\x00"));
    assert!(qust_eid_is_dialogue_conversation(&interner, &r2));

    let mut r3 = make_record(b"QUST", &mut interner);
    r3.eid = Some(interner.intern_str("NPCConversation_Biv"));
    assert!(qust_eid_is_dialogue_conversation(&interner, &r3));

    let mut r4 = make_record(b"QUST", &mut interner);
    r4.eid = Some(interner.intern_str("TW043"));
    assert!(!qust_eid_is_dialogue_conversation(&interner, &r4));

    let mut r5 = make_record(b"QUST", &mut interner);
    let sym = interner.intern_str("EN07_MQ_Nuke_Master");
    push_field(&mut r5, b"EDID", FieldValue::String(sym));
    assert!(!qust_eid_is_dialogue_conversation(&interner, &r5));

    let r6 = make_record(b"QUST", &mut interner);
    assert!(!qust_eid_is_dialogue_conversation(&interner, &r6));
}

#[test]
fn qust_eid_classifies_test_radio_and_holotape_quests() {
    let mut interner = StringInterner::new();
    let mut test = make_record(b"QUST", &mut interner);
    test.eid = Some(interner.intern_str("Test_VHarbison_Dialogue_Someone"));
    assert!(qust_eid_is_test_or_dev(&interner, &test));

    let mut zz = make_record(b"QUST", &mut interner);
    push_field(&mut zz, b"EDID", raw_bytes(b"ZZZOldQuest\x00"));
    assert!(qust_eid_is_test_or_dev(&interner, &zz));

    let mut radio = make_record(b"QUST", &mut interner);
    radio.eid = Some(interner.intern_str("AppalachiaRadio"));
    assert!(qust_eid_is_radio(&interner, &radio));

    let mut pa = make_record(b"QUST", &mut interner);
    pa.eid = Some(interner.intern_str("CB_HighSchoolPASystem_RadioScenes"));
    assert!(!qust_eid_is_radio(&interner, &pa));

    let mut holo = make_record(b"QUST", &mut interner);
    holo.eid = Some(interner.intern_str("HolotapeQuest_Rose"));
    assert!(qust_eid_is_holotape(&interner, &holo));

    let mut bare = make_record(b"QUST", &mut interner);
    bare.eid = Some(interner.intern_str("MQ01_DanHolotape"));
    assert!(!qust_eid_is_holotape(&interner, &bare));

    let mut invalid = make_record(b"QUST", &mut interner);
    push_field(&mut invalid, b"EDID", raw_bytes(&[0xFF, 0xFE, b'r', b'a', b'd', b'i', b'o']));
    assert!(!qust_eid_is_radio(&interner, &invalid));
}

fn dnam_bytes(record: &Record) -> Vec<u8> {
    let dnam = record.fields.iter().find(|f| &f.sig.0 == b"DNAM").expect("DNAM");
    match &dnam.value {
        FieldValue::Bytes(bytes) => bytes.clone(),
        _ => panic!("DNAM bytes"),
    }
}

#[test]
fn qust_data_becomes_dnam_with_dialogue_autostart() {
    let mut interner = StringInterner::new();
    let mut record = make_record(b"QUST", &mut interner);
    record.eid = Some(interner.intern_str("Dialogue_Greeter"));
    let mut data = vec![0u8; 20];
    data[1] = 0x80; // has_dialogue_data
    data[8] = 9;
    push_field(&mut record, b"DATA", raw_bytes(&data));
    Fo76Fo4Hook::convert_qust_data_to_fo4_dnam(&interner, &mut record);
    assert!(record.fields.iter().all(|f| &f.sig.0 != b"DATA"));
    let dnam = dnam_bytes(&record);
    assert_eq!(dnam.len(), 12);
    assert_eq!(u16::from_le_bytes([dnam[0], dnam[1]]), 0x8001);
    assert_eq!(dnam[2], 9, "priority carried");
}

#[test]
fn qust_data_to_dnam_suppresses_gameplay_and_event_quests() {
    let mut interner = StringInterner::new();
    let mut record = make_record(b"QUST", &mut interner);
    record.eid = Some(interner.intern_str("RE_Scene01"));
    let mut data = vec![0u8; 16];
    data[0] = 0x01;
    push_field(&mut record, b"DATA", raw_bytes(&data));
    Fo76Fo4Hook::convert_qust_data_to_fo4_dnam(&interner, &mut record);
    assert_eq!(u16::from_le_bytes([dnam_bytes(&record)[0], dnam_bytes(&record)[1]]), 0);

    let mut event = make_record(b"QUST", &mut interner);
    event.eid = Some(interner.intern_str("Dialogue_Event"));
    let mut data = vec![0u8; 20];
    data[0] = 0x01;
    data[1] = 0x80;
    data[16] = 8; // event quest type
    push_field(&mut event, b"DATA", raw_bytes(&data));
    Fo76Fo4Hook::convert_qust_data_to_fo4_dnam(&interner, &mut event);
    assert_eq!(u16::from_le_bytes([dnam_bytes(&event)[0], dnam_bytes(&event)[1]]), 0x8000);
}

#[test]
fn qust_data_to_dnam_keeps_radio_flag_and_existing_dnam() {
    let mut interner = StringInterner::new();
    let mut radio = make_record(b"QUST", &mut interner);
    radio.eid = Some(interner.intern_str("RadioStationQuest"));
    let mut data = vec![0u8; 16];
    data[0] = 0x01;
    push_field(&mut radio, b"DATA", raw_bytes(&data));
    Fo76Fo4Hook::convert_qust_data_to_fo4_dnam(&interner, &mut radio);
    assert_eq!(dnam_bytes(&radio)[0], 0x01);

    let mut existing = make_record(b"QUST", &mut interner);
    push_field(&mut existing, b"DNAM", raw_bytes(&[0, 0, 9, 0, 0, 0, 0, 0, 0, 0, 0, 0]));
    push_field(&mut existing, b"DATA", raw_bytes(&[0u8; 20]));
    Fo76Fo4Hook::convert_qust_data_to_fo4_dnam(&interner, &mut existing);
    assert_eq!(existing.fields.len(), 2);
    assert_eq!(dnam_bytes(&existing)[2], 9, "existing DNAM priority preserved");
}

#[test]
fn pre_translate_qust_data_to_dnam_ignores_non_qust() {
    let mut interner = StringInterner::new();
    let mut record = make_record(b"WEAP", &mut interner);
    push_field(&mut record, b"DATA", raw_bytes(&[0u8; 20]));
    Fo76Fo4Hook::convert_qust_data_to_fo4_dnam(&interner, &mut record);
    let sigs: Vec<[u8; 4]> = record.fields.iter().map(|f| f.sig.0).collect();
    assert!(sigs.contains(b"DATA"), "non-QUST DATA left untouched");
    assert!(!sigs.contains(b"DNAM"));
}
