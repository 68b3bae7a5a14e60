#![allow(dead_code)]
use fo76_fo4::effects::Fo76Fo4Hook;
use fo76_fo4::model::{FieldEntry, FieldValue, FormKey, Record, SigCode, SubrecordSig, Sym};
use fo76_fo4::text::StringInterner;

fn sig4(s: &str) -> [u8; 4] {
    let b = s.as_bytes();
    [b[0], b[1], b[2], b[3]]
}

fn make_record(sig: &str, interner: &mut StringInterner) -> Record {
    let plugin = interner.intern_str("SeventySix.esm");
    Record { sig: SigCode(sig4(sig)), form_key: FormKey { local: 0x000800, plugin }, eid: None, fields: Vec::new() }
}

fn push_field(record: &mut Record, sig: &str, value: FieldValue) {
    record.fields.push(FieldEntry { sig: SubrecordSig(sig4(sig)), value });
}

fn raw_bytes(bytes: &[u8]) -> FieldValue {
    FieldValue::Bytes(bytes.to_vec())
}

fn sig_str(sig: [u8; 4]) -> String {
    String::from_utf8(sig.to_vec()).unwrap()
}

fn sigs(record: &Record) -> Vec<String> {
    record.fields.iter().map(|field| sig_str(field.sig.0)).collect()
}

fn resolve(interner: &StringInterner, sym: Sym) -> Option<String> {
    interner.resolve(sym).map(|bytes| String::from_utf8(bytes.to_vec()).unwrap())
}

fn named_value<'a>(fields: &'a [(Sym, FieldValue)], name: &str, interner: &StringInterner) -> Option<&'a FieldValue> {
    fields.iter().find(|(sym, _)| resolve(interner, *sym).as_deref() == Some(name)).map(|(_, value)| value)
}

fn field<'a>(record: &'a Record, sig: &str) -> Option<&'a FieldEntry> {
    record.fields.iter().find(|entry| entry.sig.0 == sig4(sig))
}

fn pre(interner: &mut StringInterner, record: &mut Record) {
    Fo76Fo4Hook::intern_hook_names(interner);
    Fo76Fo4Hook::pre_translate(interner, record);
}

fn post(interner: &mut StringInterner, record: &mut Record) {
    Fo76Fo4Hook::intern_hook_names(interner);
    Fo76Fo4Hook::post_translate(interner, record, Vec::new());
}

fn raw_ctda(function_id: u16) -> FieldValue {
    raw_ctda_with_parameter_1(function_id, 0)
}

fn raw_ctda_with_parameter_1(function_id: u16, parameter_1: u32) -> FieldValue {
    let mut bytes = vec![0_u8; 32];
    bytes[8..10].copy_from_slice(&function_id.to_le_bytes());
    bytes[12..16].copy_from_slice(&parameter_1.to_le_bytes());
    FieldValue::Bytes(bytes)
}

fn raw_ctda_with_run_on(function_id: u16, parameter_1: u32, run_on: u32) -> FieldValue {
    let mut bytes = vec![0_u8; 32];
    bytes[8..10].copy_from_slice(&function_id.to_le_bytes());
    bytes[12..16].copy_from_slice(&parameter_1.to_le_bytes());
    bytes[20..24].copy_from_slice(&run_on.to_le_bytes());
    FieldValue::Bytes(bytes)
}

#[test]
fn pre_translate_upper_body_skin_drops_fo76_attachment_slots() {
    let mut interner = StringInterner::new();
    let mut record = make_record("ARMA", &mut interner);
    let attachment_slots = (41..=45).fold(0_u64, |mask, slot| mask | (1 << (slot - 30)));
    push_field(&mut record, "BOD2", FieldValue::Uint((1 << (33 - 30)) | attachment_slots | (1 << (60 - 30))));
    push_field(&mut record, "XFLG", FieldValue::Uint(1 << 1));

    pre(&mut interner, &mut record);

    let mask = match field(&record, "BOD2").expect("ARMA BOD2 mask").value {
        FieldValue::Uint(mask) => mask,
        _ => panic!("expected BOD2 mask"),
    };
    assert_eq!(mask, (1 << (33 - 30)) | (1 << (60 - 30)));
}

#[test]
fn pre_translate_chinese_stealth_arma_keeps_pipboy_visible() {
    let mut interner = StringInterner::new();
    let mut record = make_record("ARMA", &mut interner);
    let eid = interner.intern_str("AA_ArmorChineseStealth");
    push_field(&mut record, "EDID", FieldValue::String(eid));
    push_field(&mut record, "BOD2", FieldValue::Uint((1 << (33 - 30)) | (1 << (60 - 30))));

    pre(&mut interner, &mut record);

    let mask = match field(&record, "BOD2").expect("ARMA BOD2 mask").value {
        FieldValue::Uint(mask) => mask,
        _ => panic!("expected BOD2 mask"),
    };
    assert_eq!(mask, 1 << (33 - 30));
}

#[test]
fn pre_translate_converts_nif_backed_empty_scol_to_stat() {
    let mut interner = StringInterner::new();
    let mut record = make_record("SCOL", &mut interner);
    let form_key_before = record.form_key;
    let eid = interner.intern_str("ToxicCreeperSC01_Copy02");
    record.eid = Some(eid);
    push_field(&mut record, "EDID", FieldValue::String(eid));
    push_field(&mut record, "OBND", raw_bytes(&[0; 12]));
    let model = interner.intern_str("SCOL\\SeventySix.esm\\CM007D2AB2.NIF");
    push_field(&mut record, "MODL", FieldValue::String(model));
    push_field(&mut record, "MODT", raw_bytes(&[1, 2, 3, 4]));
    push_field(&mut record, "ONAM", raw_bytes(&[0; 8]));
    push_field(&mut record, "DATA", raw_bytes(&[0; 28]));
    push_field(&mut record, "DEFL", FieldValue::Uint(0xA4E1));

    pre(&mut interner, &mut record);

    assert_eq!(record.sig, SigCode(*b"STAT"));
    assert_eq!(record.form_key, form_key_before);
    assert_eq!(record.eid, Some(eid));
    assert_eq!(sigs(&record), vec!["EDID", "OBND", "MODL", "MODT"]);
}

#[test]
fn pre_translate_keeps_scol_with_a_usable_part() {
    let mut interner = StringInterner::new();
    let mut record = make_record("SCOL", &mut interner);
    let model = interner.intern_str("SCOL\\SeventySix.esm\\CM00001234.NIF");
    push_field(&mut record, "MODL", FieldValue::String(model));
    push_field(&mut record, "ONAM", raw_bytes(&[0x12, 0x58, 0x03, 0x00, 0, 0, 0, 0]));

    pre(&mut interner, &mut record);

    assert_eq!(record.sig, SigCode(*b"SCOL"));
    assert!(record.fields.iter().any(|entry| entry.sig.0 == *b"ONAM"));
}

#[test]
fn pre_translate_keeps_empty_scol_without_a_non_empty_model() {
    let mut interner = StringInterner::new();
    for model in [None, Some(" \t\0 ")] {
        let mut record = make_record("SCOL", &mut interner);
        if let Some(model) = model {
            let sym = interner.intern_str(model);
            push_field(&mut record, "MODL", FieldValue::String(sym));
        }
        push_field(&mut record, "ONAM", FieldValue::Null);

        pre(&mut interner, &mut record);

        assert_eq!(record.sig, SigCode(*b"SCOL"));
    }
}

#[test]
fn pre_translate_strips_fo76_info_editor_id() {
    let mut interner = StringInterner::new();
    let mut record = make_record("INFO", &mut interner);
    push_field(&mut record, "ENAM", FieldValue::Null);
    push_field(&mut record, "EDID", raw_bytes(b"FO76OnlyInfoEditorId\0"));

    pre(&mut interner, &mut record);

    assert_eq!(sigs(&record), vec!["ENAM"]);
}

#[test]
fn pre_translate_drops_only_unanchored_term_condition_groups() {
    let mut interner = StringInterner::new();
    let mut record = make_record("TERM", &mut interner);
    push_field(&mut record, "BSIZ", raw_bytes(&1_u32.to_le_bytes()));
    push_field(&mut record, "BTXT", FieldValue::Null);
    push_field(&mut record, "CTDA", raw_ctda(1));
    push_field(&mut record, "CIS1", FieldValue::Null);
    push_field(&mut record, "ISIZ", raw_bytes(&1_u32.to_le_bytes()));
    push_field(&mut record, "CTDA", raw_ctda(2));
    push_field(&mut record, "CIS1", FieldValue::Null);
    push_field(&mut record, "CIS2", FieldValue::Null);
    push_field(&mut record, "ITXT", FieldValue::Null);
    push_field(&mut record, "ANAM", FieldValue::Null);
    push_field(&mut record, "ITID", FieldValue::Null);
    push_field(&mut record, "CTDA", raw_ctda(3));
    push_field(&mut record, "CIS2", FieldValue::Null);
    push_field(&mut record, "UNAM", FieldValue::Null);
    push_field(&mut record, "CTDA", raw_ctda(4));
    push_field(&mut record, "CIS1", FieldValue::Null);

    pre(&mut interner, &mut record);

    assert_eq!(
        sigs(&record),
        vec!["BSIZ", "BTXT", "CTDA", "CIS1", "ISIZ", "ITXT", "ANAM", "ITID", "CTDA", "CIS2", "UNAM"]
    );
}

#[test]
fn pre_translate_maps_refr_marker_types_to_two_byte_fo4_layout() {
    let mut interner = StringInterner::new();
    for (source_type, target_type) in [(2_u16, 3_u8), (7, 8), (54, 58), (64, 6), (65, 4), (66, 8)] {
        let mut record = make_record("REFR", &mut interner);
        push_field(&mut record, "TNAM", raw_bytes(&u32::from(source_type).to_le_bytes()));

        pre(&mut interner, &mut record);

        match &record.fields[0].value {
            FieldValue::Bytes(bytes) => assert_eq!(bytes.as_slice(), &[target_type, 0]),
            value => panic!("expected TNAM bytes, got {value:?}"),
        }
    }
}

#[test]
fn pre_translate_does_not_rewrite_non_refr_tnam() {
    let mut interner = StringInterner::new();
    let mut record = make_record("TERM", &mut interner);
    push_field(&mut record, "TNAM", raw_bytes(&64_u32.to_le_bytes()));

    pre(&mut interner, &mut record);

    match &record.fields[0].value {
        FieldValue::Bytes(bytes) => assert_eq!(bytes.as_slice(), &64_u32.to_le_bytes()),
        value => panic!("expected TNAM bytes, got {value:?}"),
    }
}

#[test]
fn zero_health_cont_destructible_strip_spans_fo76_interstitials() {
    let mut interner = StringInterner::new();
    let mut record = make_record("CONT", &mut interner);
    push_field(&mut record, "EDID", FieldValue::Null);
    push_field(&mut record, "DEST", raw_bytes(&0_i32.to_le_bytes()));
    push_field(&mut record, "HGLB", raw_bytes(&[1, 0, 0, 0]));
    push_field(&mut record, "DSTD", raw_bytes(&[0; 28]));
    push_field(&mut record, "DMDL", raw_bytes(b"destroyed.nif\0"));
    push_field(&mut record, "DMDT", raw_bytes(&[0; 20]));
    push_field(&mut record, "ENLT", raw_bytes(&[0; 4]));
    push_field(&mut record, "ENLS", raw_bytes(&[0; 4]));
    push_field(&mut record, "AUUV", raw_bytes(&[0; 32]));
    push_field(&mut record, "DSTF", FieldValue::Null);
    push_field(&mut record, "DATA", raw_bytes(&[1]));

    Fo76Fo4Hook::strip_zero_health_cont_destructibles(&interner, &mut record);

    assert_eq!(sigs(&record), vec!["EDID", "DATA"]);
}

#[test]
fn nonzero_health_cont_destructible_is_preserved() {
    let mut interner = StringInterner::new();
    let mut record = make_record("CONT", &mut interner);
    push_field(&mut record, "DEST", raw_bytes(&50_i32.to_le_bytes()));
    push_field(&mut record, "HGLB", raw_bytes(&[1, 0, 0, 0]));
    push_field(&mut record, "DSTD", raw_bytes(&[0; 28]));
    push_field(&mut record, "DMDL", raw_bytes(b"destroyed.nif\0"));
    push_field(&mut record, "DMDT", raw_bytes(&[0; 20]));
    push_field(&mut record, "ENLT", raw_bytes(&[0; 4]));
    push_field(&mut record, "ENLS", raw_bytes(&[0; 4]));
    push_field(&mut record, "AUUV", raw_bytes(&[0; 32]));
    push_field(&mut record, "DSTF", FieldValue::Null);
    push_field(&mut record, "DATA", raw_bytes(&[1]));

    Fo76Fo4Hook::strip_zero_health_cont_destructibles(&interner, &mut record);

    assert_eq!(sigs(&record), vec!["DEST", "HGLB", "DSTD", "DMDL", "DMDT", "ENLT", "ENLS", "AUUV", "DSTF", "DATA"]);
}

#[test]
fn pre_translate_strips_scorched_statue_activation_conditions() {
    let mut interner = StringInterner::new();
    let mut record = make_record("ACTI", &mut interner);
    record.eid = Some(interner.intern_str("ScorchedStatue01"));
    push_field(&mut record, "FULL", FieldValue::Null);
    push_field(&mut record, "CNDC", raw_bytes(&0_u32.to_le_bytes()));
    push_field(&mut record, "CITC", raw_bytes(&3_u32.to_le_bytes()));
    push_field(&mut record, "CTDA", raw_ctda(203));
    push_field(&mut record, "CTDA", raw_ctda(77));
    push_field(&mut record, "CTDA", raw_ctda(828));
    push_field(&mut record, "CNDC", raw_bytes(&1_u32.to_le_bytes()));
    push_field(&mut record, "CITC", raw_bytes(&1_u32.to_le_bytes()));
    push_field(&mut record, "CTDA", raw_ctda(203));
    push_field(&mut record, "FNAM", FieldValue::Null);

    pre(&mut interner, &mut record);

    assert_eq!(sigs(&record), vec!["FULL", "FNAM"]);
}

#[test]
fn pre_translate_keeps_unrelated_acti_activation_conditions() {
    let mut interner = StringInterner::new();
    let mut record = make_record("ACTI", &mut interner);
    record.eid = Some(interner.intern_str("OtherSearchActivator"));
    push_field(&mut record, "CITC", raw_bytes(&1_u32.to_le_bytes()));
    push_field(&mut record, "CTDA", raw_ctda(203));

    pre(&mut interner, &mut record);

    assert_eq!(sigs(&record), vec!["CITC", "CTDA"]);
}

#[test]
fn pre_translate_renames_only_furniture_marker_parameters() {
    let mut interner = StringInterner::new();
    let mut furniture = make_record("FURN", &mut interner);
    push_field(&mut furniture, "ZNAM", raw_bytes(&[0_u8; 24]));
    pre(&mut interner, &mut furniture);
    assert_eq!(sig_str(furniture.fields[0].sig.0), "SNAM");

    let mut terminal = make_record("TERM", &mut interner);
    push_field(&mut terminal, "SNAM", raw_bytes(&1_u32.to_le_bytes()));
    push_field(&mut terminal, "ZNAM", raw_bytes(&[0_u8; 24]));
    pre(&mut interner, &mut terminal);

    assert_eq!(sigs(&terminal), vec!["SNAM", "ZNAM"]);
}

#[test]
fn pre_translate_remaps_structured_dial_misc_category_to_fo4() {
    let mut interner = StringInterner::new();
    let mut record = make_record("DIAL", &mut interner);
    let topic_flags = interner.intern_str("topic_flags");
    let category = interner.intern_str("category");
    let subtype = interner.intern_str("subtype");
    push_field(
        &mut record,
        "DATA",
        FieldValue::Struct(vec![
            (topic_flags, FieldValue::Uint(0)),
            (category, FieldValue::Uint(5)),
            (subtype, FieldValue::Uint(118)),
        ]),
    );

    pre(&mut interner, &mut record);

    let data = field(&record, "DATA").expect("DATA remains");
    let FieldValue::Struct(fields) = &data.value else {
        panic!("expected structured DIAL DATA");
    };
    let category = named_value(fields, "category", &interner).expect("category field remains");
    assert_eq!(category, &FieldValue::Uint(7));
}

#[test]
fn pre_translate_remaps_raw_dial_detection_category_to_fo4() {
    let mut interner = StringInterner::new();
    let mut record = make_record("DIAL", &mut interner);
    push_field(&mut record, "DATA", raw_bytes(&[0, 4, 88, 0]));

    pre(&mut interner, &mut record);

    let data = field(&record, "DATA").expect("DATA remains");
    assert_eq!(data.value, raw_bytes(&[0, 5, 88, 0]));
}

#[test]
fn pre_translate_maps_scen_escs_choices_to_fo4_player_dialogue_slots() {
    let mut interner = StringInterner::new();
    let mut record = make_record("SCEN", &mut interner);
    push_field(&mut record, "ANAM", FieldValue::Uint(3));
    push_field(&mut record, "INAM", FieldValue::Uint(56));
    push_field(&mut record, "DTGT", FieldValue::Int(0));
    push_field(&mut record, "ESCE", raw_bytes(&0x56A146_u32.to_le_bytes()));
    push_field(&mut record, "ESCS", raw_bytes(&0x56A145_u32.to_le_bytes()));
    push_field(&mut record, "ESCE", raw_bytes(&0x56A144_u32.to_le_bytes()));
    push_field(&mut record, "ESCS", raw_bytes(&0x56A143_u32.to_le_bytes()));

    pre(&mut interner, &mut record);

    assert_eq!(sigs(&record), vec!["ANAM", "INAM", "PTOP", "NTOP", "NPOT", "NNGT", "DTGT"]);
    let source_plugin = interner.intern_str("SeventySix.esm");
    assert_eq!(record.fields[2].value, FieldValue::FormKey(FormKey { local: 0x56A145, plugin: source_plugin }));
    assert_eq!(record.fields[2].value, record.fields[4].value);
    assert_eq!(record.fields[3].value, FieldValue::FormKey(FormKey { local: 0x56A143, plugin: source_plugin }));
    assert_eq!(record.fields[3].value, record.fields[5].value);
}

#[test]
fn pre_translate_resets_scen_choice_slots_for_each_action() {
    let mut interner = StringInterner::new();
    let mut record = make_record("SCEN", &mut interner);
    push_field(&mut record, "ANAM", FieldValue::Uint(3));
    push_field(&mut record, "ESCS", raw_bytes(&0x56A145_u32.to_le_bytes()));
    push_field(&mut record, "ANAM", FieldValue::Uint(3));
    push_field(&mut record, "ESCS", raw_bytes(&0x58F9DB_u32.to_le_bytes()));

    pre(&mut interner, &mut record);

    assert_eq!(sigs(&record), vec!["ANAM", "PTOP", "NPOT", "ANAM", "PTOP", "NPOT"]);
}

#[test]
fn pre_translate_drops_wrld_runtime_tables() {
    let mut interner = StringInterner::new();
    let mut record = make_record("WRLD", &mut interner);
    for sig in ["EDID", "RNAM", "MHDT", "OFST", "CLSZ", "NAM0"] {
        push_field(&mut record, sig, raw_bytes(&[0, 1, 2, 3]));
    }

    pre(&mut interner, &mut record);

    assert_eq!(sigs(&record), vec!["EDID", "NAM0"]);
}

#[test]
fn drop_incompatible_condition_reconciles_citc() {
    let mut interner = StringInterner::new();
    let mut record = make_record("MUST", &mut interner);
    push_field(&mut record, "CNAM", raw_bytes(&0u32.to_le_bytes()));
    push_field(&mut record, "CITC", raw_bytes(&2u32.to_le_bytes()));
    push_field(&mut record, "CTDA", raw_ctda(74));
    push_field(&mut record, "CTDA", raw_ctda(875));

    Fo76Fo4Hook::drop_fo4_incompatible_conditions(&interner, &mut record);

    let ctda_count = record.fields.iter().filter(|f| f.sig.0 == *b"CTDA").count();
    assert_eq!(ctda_count, 1, "fn 875 condition dropped");
    let citc = field(&record, "CITC").expect("CITC remains");
    assert_eq!(citc.value, raw_bytes(&1u32.to_le_bytes()), "CITC reconciled to surviving CTDA count");
}

#[test]
fn drop_incompatible_conditions_reconciles_preexisting_citc_mismatch() {
    let mut interner = StringInterner::new();
    let mut record = make_record("MUST", &mut interner);
    push_field(&mut record, "CITC", raw_bytes(&2u32.to_le_bytes()));
    push_field(&mut record, "CTDA", raw_ctda(74));

    Fo76Fo4Hook::drop_fo4_incompatible_conditions(&interner, &mut record);

    let citc = field(&record, "CITC").expect("CITC remains");
    assert_eq!(
        citc.value,
        raw_bytes(&1u32.to_le_bytes()),
        "preexisting stale CITC reconciled even when this hook drops nothing"
    );
}

#[test]
fn pre_translate_converts_raw_npc_prkr_to_typed_formkey() {
    let mut interner = StringInterner::new();
    let mut record = make_record("NPC_", &mut interner);
    push_field(&mut record, "PRKR", raw_bytes(&[0xF5, 0x64, 0x84, 0x00, 0x02]));

    pre(&mut interner, &mut record);

    let prkr = field(&record, "PRKR").expect("PRKR remains");
    let FieldValue::Struct(fields) = &prkr.value else {
        panic!("PRKR should be structured");
    };
    let FieldValue::FormKey(perk) = named_value(fields, "Perk", &interner).expect("perk reference") else {
        panic!("PRKR perk should be a FormKey");
    };
    assert_eq!(perk.local, 0x8464F5);
    assert_eq!(resolve(&interner, perk.plugin).as_deref(), Some("SeventySix.esm"));
    let expected_rank = raw_bytes(&[0x02]);
    assert_eq!(named_value(fields, "Rank", &interner).expect("perk rank"), &expected_rank);
}

#[test]
fn pre_translate_converts_note_snam_scene_to_typed_formkey() {
    let mut interner = StringInterner::new();
    let mut record = make_record("NOTE", &mut interner);
    push_field(&mut record, "SNAM", FieldValue::Uint(0x0053_4F51));

    pre(&mut interner, &mut record);

    let snam = field(&record, "SNAM").expect("SNAM remains");
    let FieldValue::FormKey(scene) = &snam.value else {
        panic!("SNAM should be a FormKey");
    };
    assert_eq!(scene.local, 0x534F51);
    assert_eq!(resolve(&interner, scene.plugin).as_deref(), Some("SeventySix.esm"));
}

#[test]
fn pre_translate_drops_magf_subrecord() {
    let mut interner = StringInterner::new();
    let mut record = make_record("WEAP", &mut interner);
    push_field(&mut record, "MAGF", FieldValue::Null);
    push_field(&mut record, "EDID", FieldValue::Null);

    pre(&mut interner, &mut record);

    let sigs = sigs(&record);
    assert!(!sigs.contains(&"MAGF".to_string()), "MAGF should be dropped");
    assert!(sigs.contains(&"EDID".to_string()), "EDID should be preserved");
}

#[test]
fn pre_translate_drops_codv_subrecord() {
    let mut interner = StringInterner::new();
    let mut record = make_record("ARMO", &mut interner);
    push_field(&mut record, "CODV", FieldValue::Null);
    let name = interner.intern_str("Armor");
    push_field(&mut record, "FULL", FieldValue::String(name));

    pre(&mut interner, &mut record);

    let sigs = sigs(&record);
    assert!(!sigs.contains(&"CODV".to_string()));
    assert!(sigs.contains(&"FULL".to_string()));
}

#[test]
fn pre_translate_drops_version_control_sigs() {
    let mut interner = StringInterner::new();
    let mut record = make_record("WEAP", &mut interner);
    push_field(&mut record, "VCTX", FieldValue::Null);
    push_field(&mut record, "FVER", FieldValue::Null);
    push_field(&mut record, "EDID", FieldValue::Null);

    pre(&mut interner, &mut record);

    let sigs = sigs(&record);
    assert!(!sigs.contains(&"VCTX".to_string()));
    assert!(!sigs.contains(&"FVER".to_string()));
    assert!(sigs.contains(&"EDID".to_string()));
}

#[test]
fn pre_translate_drops_all_global_sigs() {
    let mut interner = StringInterner::new();
    let mut record = make_record("NPC_", &mut interner);
    for sig in &["VCTX", "FVER", "FL76", "FLWR", "MIID", "MAGF", "CODV", "OPDS"] {
        push_field(&mut record, sig, FieldValue::Null);
    }
    push_field(&mut record, "EDID", FieldValue::Null);

    pre(&mut interner, &mut record);

    assert_eq!(record.fields.len(), 1);
    assert_eq!(sig_str(record.fields[0].sig.0), "EDID");
}
