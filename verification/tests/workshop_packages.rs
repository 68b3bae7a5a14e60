#![allow(dead_code)]
use fo76_fo4::effects::Fo76Fo4Hook;
use fo76_fo4::model::{FieldEntry, FieldValue, FormKey, Record, SigCode, SubrecordSig, Sym};
use fo76_fo4::text::StringInterner;

fn sig4(s: &str) -> [u8; 4] {
    let b = s.as_bytes();
    [b[0], b[1], b[2], b[3]]
}

fn make_record(sig: &str, interner: &mut StringInterner) -> Record {
    let plugin = interner.intern_str("SeventySix.esm");
    Record { sig: SigCode(sig4(sig)), form_key: FormKey { local: 0x000800, plugin }, eid: None, fields: Vec::new() }
}

fn push_field(record: &mut Record, sig: &str, value: FieldValue) {
    record.fields.push(FieldEntry { sig: SubrecordSig(sig4(sig)), value });
}

fn raw_bytes(bytes: &[u8]) -> FieldValue {
    FieldValue::Bytes(bytes.to_vec())
}

fn sig_str(sig: [u8; 4]) -> String {
    String::from_utf8(sig.to_vec()).unwrap()
}

fn sigs(record: &Record) -> Vec<String> {
    record.fields.iter().map(|field| sig_str(field.sig.0)).collect()
}

fn resolve(interner: &StringInterner, sym: Sym) -> Option<String> {
    interner.resolve(sym).map(|bytes| String::from_utf8(bytes.to_vec()).unwrap())
}

fn named_value<'a>(fields: &'a [(Sym, FieldValue)], name: &str, interner: &StringInterner) -> Option<&'a FieldValue> {
    fields.iter().find(|(sym, _)| resolve(interner, *sym).as_deref() == Some(name)).map(|(_, value)| value)
}

fn field<'a>(record: &'a Record, sig: &str) -> Option<&'a FieldEntry> {
    record.fields.iter().find(|entry| entry.sig.0 == sig4(sig))
}

fn pre(interner: &mut StringInterner, record: &mut Record) {
    Fo76Fo4Hook::intern_hook_names(interner);
    Fo76Fo4Hook::pre_translate(interner, record);
}

fn post(interner: &mut StringInterner, record: &mut Record) {
    Fo76Fo4Hook::intern_hook_names(interner);
    Fo76Fo4Hook::post_translate(interner, record, Vec::new());
}

fn raw_ctda(function_id: u16) -> FieldValue {
    raw_ctda_with_parameter_1(function_id, 0)
}

fn raw_ctda_with_parameter_1(function_id: u16, parameter_1: u32) -> FieldValue {
    let mut bytes = vec![0_u8; 32];
    bytes[8..10].copy_from_slice(&function_id.to_le_bytes());
    bytes[12..16].copy_from_slice(&parameter_1.to_le_bytes());
    FieldValue::Bytes(bytes)
}

fn raw_ctda_with_run_on(function_id: u16, parameter_1: u32, run_on: u32) -> FieldValue {
    let mut bytes = vec![0_u8; 32];
    bytes[8..10].copy_from_slice(&function_id.to_le_bytes());
    bytes[12..16].copy_from_slice(&parameter_1.to_le_bytes());
    bytes[20..24].copy_from_slice(&run_on.to_le_bytes());
    FieldValue::Bytes(bytes)
}

fn has_sig(record: &Record, sig: &str) -> bool {
    record.fields.iter().any(|entry| entry.sig.0 == sig4(sig))
}

fn workshop_cobj(interner: &mut StringInterner, eid: &str, bench: u32) -> Record {
    let mut record = make_record("COBJ", interner);
    record.eid = Some(interner.intern_str(eid));
    let plugin = interner.intern_str("SeventySix.esm");
    push_field(&mut record, "CNAM", FieldValue::FormKey(FormKey { local: 0x001000, plugin }));
    push_field(&mut record, "BNAM", FieldValue::FormKey(FormKey { local: bench, plugin }));
    record
}

fn workshop_cobj_form_key(record: &Record, sig: &[u8; 4]) -> FormKey {
    let field = record
        .fields
        .iter()
        .find(|field| &field.sig.0 == sig)
        .unwrap_or_else(|| panic!("missing {}", std::str::from_utf8(sig).unwrap()));
    match &field.value {
        FieldValue::FormKey(form_key) => *form_key,
        FieldValue::List(values) => match values.first() {
            Some(FieldValue::FormKey(form_key)) => *form_key,
            other => panic!("expected FormKey list, got {other:?}"),
        },
        other => panic!("expected FormKey, got {other:?}"),
    }
}

fn trimmed(bytes: &[u8]) -> Vec<u8> {
    let mut end = bytes.len();
    while end > 0 && bytes[end - 1] == 0 {
        end -= 1;
    }
    bytes[..end].to_vec()
}

#[test]
fn workshop_cobj_scope_accepts_only_intended_editor_ids() {
    let mut interner = StringInterner::new();
    for eid in ["workshop_co_Wall", "ATX_workshop_co_Lights_TrainHeadlight", "SCORE_S24_Workshop_CO_DriveInStatue"] {
        let record = workshop_cobj(&mut interner, eid, 0x1573F0);
        assert!(Fo76Fo4Hook::is_convertible_workshop_cobj(&interner, &record), "{eid}");
    }
    for eid in [
        "zzz_ATX_workshop_co_Wall",
        "ZZZworkshop_co_Wall",
        "co_mod_Weapon_Rifle",
        "ATX_co_mod_Weapon_Rifle",
        "SCORE_co_modScrapRecipe",
        "ATX_workshop_co_mod_Weapon_Rifle",
        "co_Clothes_Outfit",
        "ATX_co_Clothes_Outfit",
        "SCORE_co_Cloths_Outfit",
        "SCORE_workshop_co_clothes_Outfit",
        "ATX_workbench_co_NotWorkshop",
    ] {
        let record = workshop_cobj(&mut interner, eid, 0x1573F0);
        assert!(!Fo76Fo4Hook::is_convertible_workshop_cobj(&interner, &record), "{eid}");
    }
}

#[test]
fn post_translate_moves_fo76_workshop_category_to_fnam_and_sets_matching_bnam() {
    let mut interner = StringInterner::new();
    let mut record = workshop_cobj(&mut interner, "ATX_workshop_co_Lights_TrainHeadlight", 0x06201F);
    post(&mut interner, &mut record);

    let bench = workshop_cobj_form_key(&record, b"BNAM");
    assert_eq!(bench.local, 0x05A0CA);
    assert_eq!(resolve(&interner, bench.plugin).as_deref(), Some("Fallout4.esm"));
    let category = workshop_cobj_form_key(&record, b"FNAM");
    assert_eq!(category.local, 0x06201F);
    assert_eq!(resolve(&interner, category.plugin).as_deref(), Some("SeventySix.esm"));
}

#[test]
fn post_translate_handles_fo76_main_workshop_category_keyword() {
    let mut interner = StringInterner::new();
    let mut record = workshop_cobj(&mut interner, "ATX_workshop_co_Furniture_Generic", 0x8229E2);
    post(&mut interner, &mut record);

    assert_eq!(workshop_cobj_form_key(&record, b"BNAM").local, 0x05B5E3);
    assert_eq!(workshop_cobj_form_key(&record, b"FNAM").local, 0x8229E2);
}

#[test]
fn post_translate_infers_category_for_workshop_all_type_recipe() {
    let mut interner = StringInterner::new();
    let mut record = workshop_cobj(&mut interner, "SCORE_S25_workshop_co_Structure_VinesJailCell_WallFull", 0x89383D);
    post(&mut interner, &mut record);

    assert_eq!(workshop_cobj_form_key(&record, b"BNAM").local, 0x05A0C8);
    assert_eq!(workshop_cobj_form_key(&record, b"FNAM").local, 0x1573F0);
}

#[test]
fn post_translate_keeps_non_powered_fire_lights_on_furniture_workbench() {
    let mut interner = StringInterner::new();
    let mut record = workshop_cobj(&mut interner, "workshop_co_Lights_CampFire01", 0x89383D);
    post(&mut interner, &mut record);

    assert_eq!(workshop_cobj_form_key(&record, b"BNAM").local, 0x05B5E3);
    assert_eq!(workshop_cobj_form_key(&record, b"FNAM").local, 0x06201F);
}

#[test]
fn post_translate_does_not_touch_excluded_workshop_recipe_family() {
    let mut interner = StringInterner::new();
    let mut record = workshop_cobj(&mut interner, "ATX_workshop_co_mod_Weapon", 0x06201F);
    post(&mut interner, &mut record);

    assert_eq!(workshop_cobj_form_key(&record, b"BNAM").local, 0x06201F);
    assert!(!has_sig(&record, "FNAM"));
}

#[test]
fn post_translate_does_not_expose_workshop_recipe_without_created_object() {
    let mut interner = StringInterner::new();
    let mut record = workshop_cobj(&mut interner, "SCORE_S25_workshop_co_Structure_VinesJailCell_WallFull", 0x1573F0);
    record.fields.retain(|field| field.sig.0 != *b"CNAM");
    post(&mut interner, &mut record);

    assert_eq!(workshop_cobj_form_key(&record, b"BNAM").plugin, interner.intern_str("SeventySix.esm"));
    assert!(!has_sig(&record, "FNAM"));
}

#[test]
fn post_translate_strips_pack_conditions_and_resets_condition_counts() {
    let mut interner = StringInterner::new();
    let mut record = make_record("PACK", &mut interner);
    push_field(&mut record, "EDID", FieldValue::Null);
    push_field(&mut record, "XNAM", raw_bytes(&[0x0D]));
    push_field(&mut record, "ANAM", raw_bytes(b"Procedure\0"));
    push_field(&mut record, "CITC", raw_bytes(&2_u32.to_le_bytes()));
    push_field(&mut record, "CTDA", raw_ctda(0x012C));
    push_field(&mut record, "CIS1", raw_bytes(b"alias\0"));
    push_field(&mut record, "CTDT", raw_ctda(0x0190));
    push_field(&mut record, "CIS2", raw_bytes(b"function\0"));
    push_field(&mut record, "PNAM", raw_bytes(b"Trav"));

    post(&mut interner, &mut record);

    assert!(has_sig(&record, "EDID"));
    assert!(has_sig(&record, "PNAM"));
    assert!(!has_sig(&record, "CTDA"));
    assert!(!has_sig(&record, "CTDT"));
    assert!(!has_sig(&record, "CIS1"));
    assert!(!has_sig(&record, "CIS2"));
    let citc = field(&record, "CITC").expect("CITC remains");
    assert_eq!(citc.value, raw_bytes(&0_u32.to_le_bytes()));
}

#[test]
fn post_translate_preserves_pack_location_and_target_references() {
    let mut interner = StringInterner::new();
    let mut record = make_record("PACK", &mut interner);
    push_field(&mut record, "PKCU", raw_bytes(&[0; 12]));
    push_field(&mut record, "PLDT", raw_bytes(&[0, 0x52, 0x7D, 0x52, 0]));
    push_field(&mut record, "PTDA", raw_bytes(&[0, 0x52, 0x7D, 0x52, 0]));
    push_field(&mut record, "CNAM", raw_bytes(&[1, 2, 3, 4]));

    post(&mut interner, &mut record);

    assert!(has_sig(&record, "PKCU"));
    assert!(has_sig(&record, "CNAM"));
    assert!(has_sig(&record, "PLDT"));
    assert!(has_sig(&record, "PTDA"));
}

fn pldt_bytes(type_value: i32, location_value: u32) -> FieldValue {
    let mut raw = Vec::with_capacity(16);
    raw.extend_from_slice(&type_value.to_le_bytes());
    raw.extend_from_slice(&location_value.to_le_bytes());
    raw.extend_from_slice(&(-1i32).to_le_bytes());
    raw.extend_from_slice(&0u32.to_le_bytes());
    raw_bytes(&raw)
}

fn ptda_bytes(type_value: i32, target_value: u32) -> FieldValue {
    let mut raw = Vec::with_capacity(12);
    raw.extend_from_slice(&type_value.to_le_bytes());
    raw.extend_from_slice(&target_value.to_le_bytes());
    raw.extend_from_slice(&1i32.to_le_bytes());
    raw_bytes(&raw)
}

#[test]
fn post_translate_neutralizes_dangling_pack_alias_location_and_target() {
    let mut interner = StringInterner::new();
    let mut record = make_record("PACK", &mut interner);
    push_field(&mut record, "PKCU", raw_bytes(&[0; 12]));
    push_field(&mut record, "PLDT", pldt_bytes(8, 34));
    push_field(&mut record, "PTDA", ptda_bytes(4, 12));

    post(&mut interner, &mut record);

    let FieldValue::Bytes(b) = &field(&record, "PLDT").expect("PLDT survives").value else {
        panic!("PLDT bytes");
    };
    assert_eq!(b.len(), 16, "PLDT length unchanged");
    assert_eq!(i32::from_le_bytes(b[0..4].try_into().unwrap()), 2, "Type -> Near Package Start");
    assert_eq!(u32::from_le_bytes(b[4..8].try_into().unwrap()), 0, "dangling alias index zeroed");

    let FieldValue::Bytes(b) = &field(&record, "PTDA").expect("PTDA survives").value else {
        panic!("PTDA bytes");
    };
    assert_eq!(b.len(), 12, "PTDA length unchanged");
    assert_eq!(i32::from_le_bytes(b[0..4].try_into().unwrap()), 6, "Type -> Self");
    assert_eq!(u32::from_le_bytes(b[4..8].try_into().unwrap()), 0, "dangling alias index zeroed");
}

#[test]
fn post_translate_leaves_non_alias_pack_location_types_untouched() {
    let mut interner = StringInterner::new();
    let mut record = make_record("PACK", &mut interner);
    push_field(&mut record, "PKCU", raw_bytes(&[0; 12]));
    push_field(&mut record, "PLDT", pldt_bytes(0, 0x0001_2345));
    push_field(&mut record, "PTDA", ptda_bytes(1, 0x0006_789A));

    post(&mut interner, &mut record);

    assert_eq!(field(&record, "PLDT").unwrap().value, pldt_bytes(0, 0x0001_2345), "non-alias PLDT untouched");
    assert_eq!(field(&record, "PTDA").unwrap().value, ptda_bytes(1, 0x0006_789A), "non-alias PTDA untouched");
}

#[test]
fn post_translate_neutralizes_dangling_pack_alias_in_plvd_location() {
    let mut interner = StringInterner::new();
    let mut record = make_record("PACK", &mut interner);
    push_field(&mut record, "PLVD", pldt_bytes(14, 7));

    post(&mut interner, &mut record);

    let FieldValue::Bytes(b) = &field(&record, "PLVD").unwrap().value else {
        panic!("PLVD bytes");
    };
    assert_eq!(i32::from_le_bytes(b[0..4].try_into().unwrap()), 2);
    assert_eq!(u32::from_le_bytes(b[4..8].try_into().unwrap()), 0);
}

fn procedure_text(value: &FieldValue, interner: &StringInterner) -> String {
    match value {
        FieldValue::Bytes(bytes) => String::from_utf8(trimmed(bytes)).unwrap(),
        FieldValue::String(sym) => resolve(interner, *sym).unwrap(),
        other => panic!("expected procedure string-ish value, got {other:?}"),
    }
}

#[test]
fn post_translate_maps_pack_fallback_procedure_to_sequence() {
    let mut interner = StringInterner::new();
    let mut record = make_record("PACK", &mut interner);
    push_field(&mut record, "PKCU", raw_bytes(&[0; 12]));
    push_field(&mut record, "ANAM", raw_bytes(b"Fallback\0"));
    push_field(&mut record, "XNAM", raw_bytes(&[0]));
    push_field(&mut record, "ANAM", raw_bytes(b"Fallback\0"));
    let fallback = interner.intern_str("Fallback");
    push_field(&mut record, "ANAM", FieldValue::String(fallback));

    post(&mut interner, &mut record);

    let anams: Vec<String> = record
        .fields
        .iter()
        .filter(|field| field.sig.0 == *b"ANAM" || field.sig.0 == *b"PNAM")
        .map(|field| procedure_text(&field.value, &interner))
        .collect();
    assert_eq!(anams, vec!["Fallback", "Sequence", "Sequence"]);
}

#[test]
fn post_translate_rewrites_fo76_pack_procedure_tree_for_fo4() {
    let mut interner = StringInterner::new();
    let mut record = make_record("PACK", &mut interner);
    push_field(&mut record, "PKCU", raw_bytes(&[0; 12]));
    push_field(&mut record, "XNAM", raw_bytes(&[0x0D]));
    push_field(&mut record, "ANAM", raw_bytes(b"Stacked\0"));
    push_field(&mut record, "CITC", FieldValue::Uint(0));
    push_field(&mut record, "PRCB", raw_bytes(&[1, 0, 0, 0, 0, 0, 0, 0]));
    push_field(&mut record, "PNAM", raw_bytes(b"Foll"));
    push_field(&mut record, "FNAM", FieldValue::Uint(0));
    push_field(&mut record, "PKC2", FieldValue::Uint(0));
    push_field(&mut record, "ANAM", raw_bytes(b"Procedure\0"));
    push_field(&mut record, "CITC", FieldValue::Uint(0));
    push_field(&mut record, "PNAM", raw_bytes(&[1, 0, 0, 0]));
    push_field(&mut record, "PKC2", FieldValue::Uint(1));
    push_field(&mut record, "UNAM", FieldValue::Uint(0));
    push_field(&mut record, "BNAM", raw_bytes(b"target\0"));
    push_field(&mut record, "PNAM", raw_bytes(&[1, 0, 0, 0]));

    post(&mut interner, &mut record);

    assert_eq!(
        sigs(&record),
        vec!["PKCU", "XNAM", "ANAM", "CITC", "PRCB", "ANAM", "CITC", "PNAM", "FNAM", "PKC2", "PKC2", "UNAM", "BNAM", "PNAM"]
    );
    let procedure_names: Vec<String> = record
        .fields
        .iter()
        .take_while(|field| field.sig.0 != *b"UNAM")
        .filter(|field| field.sig.0 == *b"PNAM")
        .map(|field| procedure_text(&field.value, &interner))
        .collect();
    assert_eq!(procedure_names, vec!["Follow"]);
}

#[test]
fn post_translate_preserves_valid_fo4_procedures_with_long_names() {
    let mut interner = StringInterner::new();
    let mut record = make_record("PACK", &mut interner);
    let mut s = |interner: &mut StringInterner, v: &str| FieldValue::String(interner.intern_str(v));
    push_field(&mut record, "PKCU", raw_bytes(&[0; 12]));
    push_field(&mut record, "XNAM", raw_bytes(&[0x0D]));
    push_field(&mut record, "ANAM", s(&mut interner, "Simultaneous"));
    push_field(&mut record, "CITC", FieldValue::Uint(0));
    push_field(&mut record, "PRCB", raw_bytes(&[1, 0, 0, 0, 0, 0, 0, 0]));
    push_field(&mut record, "ANAM", s(&mut interner, "Procedure"));
    push_field(&mut record, "CITC", FieldValue::Uint(0));
    push_field(&mut record, "PNAM", s(&mut interner, "GuardArea"));
    push_field(&mut record, "FNAM", FieldValue::Uint(0));
    push_field(&mut record, "PKC2", FieldValue::Uint(0));
    push_field(&mut record, "ANAM", s(&mut interner, "Procedure"));
    push_field(&mut record, "CITC", FieldValue::Uint(0));
    push_field(&mut record, "PNAM", s(&mut interner, "Sandbox"));
    push_field(&mut record, "FNAM", FieldValue::Uint(0));
    push_field(&mut record, "PKC2", FieldValue::Uint(0));
    push_field(&mut record, "UNAM", FieldValue::Uint(0));
    push_field(&mut record, "BNAM", s(&mut interner, "target"));
    push_field(&mut record, "PNAM", raw_bytes(&[1, 0, 0, 0]));

    post(&mut interner, &mut record);

    let proc_names: Vec<String> = record
        .fields
        .iter()
        .take_while(|f| f.sig.0 != *b"UNAM")
        .filter(|f| f.sig.0 == *b"PNAM")
        .map(|f| procedure_text(&f.value, &interner))
        .collect();
    assert_eq!(
        proc_names,
        vec!["GuardArea".to_string(), "Sandbox".to_string()],
        "GuardArea is a valid FO4 procedure and must be preserved, not dropped"
    );

    for name in ["GuardArea", "Hover", "KeepAnEyeOn", "LockDoors", "UseMagic", "Acquire", "FollowTo"] {
        let entry = FieldEntry { sig: SubrecordSig(*b"PNAM"), value: s(&mut interner, name) };
        assert_eq!(Fo76Fo4Hook::fo76_pack_procedure_name(&interner, &entry), Some(name), "{name} must map to itself");
    }
}

#[test]
fn post_translate_maps_observed_fo76_pack_procedure_codes() {
    let mut interner = StringInterner::new();
    Fo76Fo4Hook::intern_hook_names(&mut interner);
    let names = [
        (b"Trav".as_slice(), "Travel"),
        (b"Rang".as_slice(), "Range"),
        (b"Unlo".as_slice(), "UnlockDoors"),
        (b"Hold".as_slice(), "HoldPosition"),
        (b"Say\0".as_slice(), "ForceGreet"),
        (b"UseI".as_slice(), "UseIdleMarker"),
    ];

    for (raw, expected) in names {
        let mut entry = FieldEntry { sig: SubrecordSig(*b"PNAM"), value: raw_bytes(raw) };
        let mapped = Fo76Fo4Hook::fo76_pack_procedure_name(&interner, &entry).expect("mapped procedure");
        assert_eq!(mapped, expected);
        Fo76Fo4Hook::set_pack_tree_text_value(&mut interner, &mut entry, mapped);
        match entry.value {
            FieldValue::String(sym) => assert_eq!(resolve(&interner, sym).as_deref(), Some(expected)),
            other => panic!("expected interned string, got {other:?}"),
        }
    }
}
