#![allow(dead_code)]
use fo76_fo4::effects::Fo76Fo4Hook;
use fo76_fo4::model::{FieldEntry, FieldValue, FormKey, Record, SigCode, SubrecordSig, Sym};
use fo76_fo4::text::StringInterner;

fn sig4(s: &str) -> [u8; 4] {
    let b = s.as_bytes();
    [b[0], b[1], b[2], b[3]]
}

fn make_record(sig: &str, interner: &mut StringInterner) -> Record {
    let plugin = interner.intern_str("SeventySix.esm");
    Record { sig: SigCode(sig4(sig)), form_key: FormKey { local: 0x000800, plugin }, eid: None, fields: Vec::new() }
}

fn push_field(record: &mut Record, sig: &str, value: FieldValue) {
    record.fields.push(FieldEntry { sig: SubrecordSig(sig4(sig)), value });
}

fn raw_bytes(bytes: &[u8]) -> FieldValue {
    FieldValue::Bytes(bytes.to_vec())
}

fn sig_str(sig: [u8; 4]) -> String {
    String::from_utf8(sig.to_vec()).unwrap()
}

fn sigs(record: &Record) -> Vec<String> {
    record.fields.iter().map(|field| sig_str(field.sig.0)).collect()
}

fn resolve(interner: &StringInterner, sym: Sym) -> Option<String> {
    interner.resolve(sym).map(|bytes| String::from_utf8(bytes.to_vec()).unwrap())
}

fn named_value<'a>(fields: &'a [(Sym, FieldValue)], name: &str, interner: &StringInterner) -> Option<&'a FieldValue> {
    fields.iter().find(|(sym, _)| resolve(interner, *sym).as_deref() == Some(name)).map(|(_, value)| value)
}

fn field<'a>(record: &'a Record, sig: &str) -> Option<&'a FieldEntry> {
    record.fields.iter().find(|entry| entry.sig.0 == sig4(sig))
}

fn pre(interner: &mut StringInterner, record: &mut Record) {
    Fo76Fo4Hook::intern_hook_names(interner);
    Fo76Fo4Hook::pre_translate(interner, record);
}

fn post(interner: &mut StringInterner, record: &mut Record) {
    Fo76Fo4Hook::intern_hook_names(interner);
    Fo76Fo4Hook::post_translate(interner, record, Vec::new());
}

fn raw_ctda(function_id: u16) -> FieldValue {
    raw_ctda_with_parameter_1(function_id, 0)
}

fn raw_ctda_with_parameter_1(function_id: u16, parameter_1: u32) -> FieldValue {
    let mut bytes = vec![0_u8; 32];
    bytes[8..10].copy_from_slice(&function_id.to_le_bytes());
    bytes[12..16].copy_from_slice(&parameter_1.to_le_bytes());
    FieldValue::Bytes(bytes)
}

fn raw_ctda_with_run_on(function_id: u16, parameter_1: u32, run_on: u32) -> FieldValue {
    let mut bytes = vec![0_u8; 32];
    bytes[8..10].copy_from_slice(&function_id.to_le_bytes());
    bytes[12..16].copy_from_slice(&parameter_1.to_le_bytes());
    bytes[20..24].copy_from_slice(&run_on.to_le_bytes());
    FieldValue::Bytes(bytes)
}
use fo76_fo4::dialogue::{
    apply_xdi_scene_player_padding, push_xdi_padded_scen_action, scen_dialogue_actions, scene_actions_require_xdi,
    translate_info_unknown_17_to_say_once,
};

#[test]
fn info_flag_17_becomes_say_once_everywhere() {
    let mut interner = StringInterner::new();
    let name = interner.intern_str("Flags");
    let mut value = FieldValue::List(vec![
        FieldValue::Uint(0x2_0001),
        FieldValue::Int(0x2_0010),
        FieldValue::Int(-1),
        FieldValue::Bytes(vec![0x00, 0x00, 0x02, 0x00, 0xAA]),
        FieldValue::Struct(vec![(name, FieldValue::Uint(0x2_0000)), (name, FieldValue::Uint(0x8))]),
        FieldValue::Bytes(vec![0x00, 0x00, 0x02]),
    ]);
    translate_info_unknown_17_to_say_once(&mut value);
    assert_eq!(
        value,
        FieldValue::List(vec![
            FieldValue::Uint(0x5),
            FieldValue::Int(0x14),
            FieldValue::Int(-1),
            FieldValue::Bytes(vec![0x04, 0x00, 0x00, 0x00, 0xAA]),
            FieldValue::Struct(vec![(name, FieldValue::Uint(0x4)), (name, FieldValue::Uint(0x8))]),
            FieldValue::Bytes(vec![0x00, 0x00, 0x02]),
        ])
    );
}

#[test]
fn info_response_flags_normalize_only_enam() {
    let mut interner = StringInterner::new();
    let mut record = make_record("INFO", &mut interner);
    push_field(&mut record, "ENAM", FieldValue::Uint(0x2_0000));
    push_field(&mut record, "DATA", FieldValue::Uint(0x2_0000));
    Fo76Fo4Hook::normalize_info_response_flags(&mut record);
    assert_eq!(record.fields[0].value, FieldValue::Uint(4));
    assert_eq!(record.fields[1].value, FieldValue::Uint(0x2_0000));

    let mut other = make_record("DIAL", &mut interner);
    push_field(&mut other, "ENAM", FieldValue::Uint(0x2_0000));
    Fo76Fo4Hook::normalize_info_response_flags(&mut other);
    assert_eq!(other.fields[0].value, FieldValue::Uint(0x2_0000));
}

#[test]
fn headtracking_aliases_outside_topic_actions_become_raw() {
    let mut interner = StringInterner::new();
    let plugin = interner.intern_str("SeventySix.esm");
    let key = FieldValue::FormKey(FormKey { local: 0x0112_3456, plugin });
    let mut record = make_record("SCEN", &mut interner);
    push_field(&mut record, "HTID", key.duplicate());
    push_field(&mut record, "ANAM", FieldValue::Uint(0));
    push_field(&mut record, "DATA", FieldValue::Uint(0));
    push_field(&mut record, "HTID", key.duplicate());
    push_field(&mut record, "DMAX", FieldValue::Uint(0));
    push_field(&mut record, "HTID", key.duplicate());
    push_field(&mut record, "ANAM", FieldValue::Uint(0));
    push_field(&mut record, "HTID", key.duplicate());
    Fo76Fo4Hook::normalize_scen_headtracking_aliases(&mut record);
    let raw = FieldValue::Bytes(vec![0x56, 0x34, 0x12, 0x00]);
    assert_eq!(record.fields[0].value, raw);
    assert_eq!(record.fields[3].value, key, "inside a non-looping topic action");
    assert_eq!(record.fields[5].value, raw, "looping action");
    assert_eq!(record.fields[7].value, raw, "new action without a topic");
}

#[test]
fn scene_dialogue_actions_collect_topics_per_action() {
    let mut interner = StringInterner::new();
    let mut record = make_record("SCEN", &mut interner);
    let plugin = record.form_key.plugin;
    push_field(&mut record, "ESCS", FieldValue::Uint(0x99));
    push_field(&mut record, "ANAM", FieldValue::Uint(0));
    push_field(&mut record, "ESCS", FieldValue::Uint(0x10));
    push_field(&mut record, "ESCS", FieldValue::Null);
    push_field(&mut record, "ESCE", raw_bytes(&[0x20, 0, 0, 0]));
    push_field(&mut record, "ANAM", FieldValue::Uint(1));
    for id in 0x30..0x35_u64 {
        push_field(&mut record, "ESCS", FieldValue::Uint(id));
    }
    let actions = scen_dialogue_actions(&record);
    assert_eq!(actions.len(), 2);
    assert_eq!(actions[0].player_topics, vec![FormKey { local: 0x10, plugin }]);
    assert_eq!(actions[0].npc_topics, vec![FormKey { local: 0x20, plugin }]);
    assert_eq!(actions[1].player_topics.len(), 5);
    assert!(scene_actions_require_xdi(&actions));
    assert!(!scene_actions_require_xdi(&actions[..1].iter().map(|a| fo76_fo4::dialogue::ScenDialogueAction {
        player_topics: a.player_topics.clone(),
        npc_topics: a.npc_topics.clone(),
    }).collect()));
    let other = make_record("INFO", &mut interner);
    assert!(scen_dialogue_actions(&other).is_empty());
}

#[test]
fn short_player_rows_are_padded_before_the_npc_slots() {
    let mut interner = StringInterner::new();
    let plugin = interner.intern_str("SeventySix.esm");
    let filler = FormKey { local: 0x777, plugin };
    let topic = |local: u32| FieldValue::FormKey(FormKey { local, plugin });
    let mut record = make_record("SCEN", &mut interner);
    push_field(&mut record, "FNAM", FieldValue::Uint(0));
    push_field(&mut record, "ANAM", FieldValue::Uint(0));
    push_field(&mut record, "PTOP", topic(1));
    push_field(&mut record, "NTOP", topic(2));
    push_field(&mut record, "NPOT", topic(3));
    push_field(&mut record, "ANAM", FieldValue::Uint(1));
    push_field(&mut record, "DATA", FieldValue::Uint(1));
    apply_xdi_scene_player_padding(&mut record, filler);
    assert_eq!(sigs(&record), vec!["FNAM", "ANAM", "PTOP", "NTOP", "NETO", "QTOP", "NPOT", "ANAM", "DATA"]);
    assert_eq!(record.fields[4].value, FieldValue::FormKey(filler));
    assert_eq!(record.fields[5].value, FieldValue::FormKey(filler));

    let mut retained = Vec::new();
    let row = vec![
        FieldEntry { sig: SubrecordSig(*b"ANAM"), value: FieldValue::Uint(0) },
        FieldEntry { sig: SubrecordSig(*b"PTOP"), value: topic(1) },
    ];
    push_xdi_padded_scen_action(row, filler, &mut retained);
    let got: Vec<String> = retained.iter().map(|e| sig_str(e.sig.0)).collect();
    assert_eq!(got, vec!["ANAM", "PTOP", "NTOP", "NETO", "QTOP"]);
}
