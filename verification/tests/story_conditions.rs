#![allow(dead_code)]
use fo76_fo4::effects::Fo76Fo4Hook;
use fo76_fo4::model::{FieldEntry, FieldValue, FormKey, Record, SigCode, SubrecordSig, Sym};
use fo76_fo4::text::StringInterner;

fn sig4(s: &str) -> [u8; 4] {
    let b = s.as_bytes();
    [b[0], b[1], b[2], b[3]]
}

fn make_record(sig: &str, interner: &mut StringInterner) -> Record {
    let plugin = interner.intern_str("SeventySix.esm");
    Record { sig: SigCode(sig4(sig)), form_key: FormKey { local: 0x000800, plugin }, eid: None, fields: Vec::new() }
}

fn push_field(record: &mut Record, sig: &str, value: FieldValue) {
    record.fields.push(FieldEntry { sig: SubrecordSig(sig4(sig)), value });
}

fn raw_bytes(bytes: &[u8]) -> FieldValue {
    FieldValue::Bytes(bytes.to_vec())
}

fn sig_str(sig: [u8; 4]) -> String {
    String::from_utf8(sig.to_vec()).unwrap()
}

fn sigs(record: &Record) -> Vec<String> {
    record.fields.iter().map(|field| sig_str(field.sig.0)).collect()
}

fn resolve(interner: &StringInterner, sym: Sym) -> Option<String> {
    interner.resolve(sym).map(|bytes| String::from_utf8(bytes.to_vec()).unwrap())
}

fn named_value<'a>(fields: &'a [(Sym, FieldValue)], name: &str, interner: &StringInterner) -> Option<&'a FieldValue> {
    fields.iter().find(|(sym, _)| resolve(interner, *sym).as_deref() == Some(name)).map(|(_, value)| value)
}

fn field<'a>(record: &'a Record, sig: &str) -> Option<&'a FieldEntry> {
    record.fields.iter().find(|entry| entry.sig.0 == sig4(sig))
}

fn pre(interner: &mut StringInterner, record: &mut Record) {
    Fo76Fo4Hook::intern_hook_names(interner);
    Fo76Fo4Hook::pre_translate(interner, record);
}

fn post(interner: &mut StringInterner, record: &mut Record) {
    Fo76Fo4Hook::intern_hook_names(interner);
    Fo76Fo4Hook::post_translate(interner, record, Vec::new());
}

fn raw_ctda(function_id: u16) -> FieldValue {
    raw_ctda_with_parameter_1(function_id, 0)
}

fn raw_ctda_with_parameter_1(function_id: u16, parameter_1: u32) -> FieldValue {
    let mut bytes = vec![0_u8; 32];
    bytes[8..10].copy_from_slice(&function_id.to_le_bytes());
    bytes[12..16].copy_from_slice(&parameter_1.to_le_bytes());
    FieldValue::Bytes(bytes)
}

fn raw_ctda_with_run_on(function_id: u16, parameter_1: u32, run_on: u32) -> FieldValue {
    let mut bytes = vec![0_u8; 32];
    bytes[8..10].copy_from_slice(&function_id.to_le_bytes());
    bytes[12..16].copy_from_slice(&parameter_1.to_le_bytes());
    bytes[20..24].copy_from_slice(&run_on.to_le_bytes());
    FieldValue::Bytes(bytes)
}

fn row(flags: u8, comparison: f32, function: u16, p1: u32, p2: u32, run_on: u32, reference: u32, p3: u32) -> Vec<u8> {
    let mut b = vec![0_u8; 32];
    b[0] = flags;
    b[4..8].copy_from_slice(&comparison.to_le_bytes());
    b[8..10].copy_from_slice(&function.to_le_bytes());
    b[12..16].copy_from_slice(&p1.to_le_bytes());
    b[16..20].copy_from_slice(&p2.to_le_bytes());
    b[20..24].copy_from_slice(&run_on.to_le_bytes());
    b[24..28].copy_from_slice(&reference.to_le_bytes());
    b[28..32].copy_from_slice(&p3.to_le_bytes());
    b
}

fn u16_at(b: &[u8], off: usize) -> u16 {
    u16::from_le_bytes([b[off], b[off + 1]])
}

fn u32_at(b: &[u8], off: usize) -> u32 {
    u32::from_le_bytes(b[off..off + 4].try_into().unwrap())
}

fn f32_at(b: &[u8], off: usize) -> f32 {
    f32::from_le_bytes(b[off..off + 4].try_into().unwrap())
}

fn bytes_of(value: &FieldValue) -> &Vec<u8> {
    match value {
        FieldValue::Bytes(b) => b,
        other => panic!("expected bytes, got {other:?}"),
    }
}

#[test]
fn story_manager_gates_are_recognised() {
    let start = FieldValue::Bytes(row(0, 1.0, 576, 0x314B_0000, 0x1234, 0, 0, u32::MAX));
    assert_eq!(Fo76Fo4Hook::story_manager_start_keyword(&start), Some(0x1234));
    let no_keyword = FieldValue::Bytes(row(0, 1.0, 576, 0x314B_0000, 0, 0, 0, u32::MAX));
    assert_eq!(Fo76Fo4Hook::story_manager_start_keyword(&no_keyword), None);

    let active = FieldValue::Bytes(row(0, 0.0, 560, 0xABCD, 0, 7, 0, 0x3352));
    assert_eq!(Fo76Fo4Hook::story_manager_active_keyword(&active), Some(0xABCD));
    let negative_zero = FieldValue::Bytes(row(0, -0.0, 560, 0xABCD, 0, 7, 0, 0x3352));
    assert_eq!(Fo76Fo4Hook::story_manager_active_keyword(&negative_zero), Some(0xABCD));
    let wrong_run_on = FieldValue::Bytes(row(0, 0.0, 560, 0xABCD, 0, 0, 0, 0x3352));
    assert_eq!(Fo76Fo4Hook::story_manager_active_keyword(&wrong_run_on), None);

    let completion = FieldValue::Bytes(row(0xA0, 0.0, 857, 0x77, 0, 7, 0, 0x3352));
    assert_eq!(Fo76Fo4Hook::story_manager_completion_quest(&completion), Some(0x77));
    let greater = FieldValue::Bytes(row(0x40, 0.0, 857, 0x77, 0, 7, 0, 0x3352));
    assert_eq!(Fo76Fo4Hook::story_manager_completion_quest(&greater), None);
    assert_eq!(Fo76Fo4Hook::story_manager_completion_quest(&FieldValue::Uint(857)), None);
}

#[test]
fn story_manager_activity_gate_lowers_to_get_quest_running() {
    let mut value = FieldValue::Bytes(row(0, 0.0, 560, 0xABCD, 0, 7, 0, 0x3352));
    assert!(Fo76Fo4Hook::lower_story_manager_active_keyword_condition(&mut value, 0x0042));
    let b = bytes_of(&value);
    assert_eq!(u16_at(b, 8), 56);
    assert_eq!(u32_at(b, 12), 0x0042);
    assert_eq!(u32_at(b, 16), 0);
    assert_eq!(u32_at(b, 20), 0);
    assert_eq!(u32_at(b, 24), 0);
    assert_eq!(u32_at(b, 28), u32::MAX);

    let mut other = FieldValue::Bytes(row(0, 0.0, 561, 0xABCD, 0, 7, 0, 0x3352));
    let before = other.duplicate();
    assert!(!Fo76Fo4Hook::lower_story_manager_active_keyword_condition(&mut other, 0x0042));
    assert_eq!(other, before);
}

#[test]
fn story_manager_completion_gate_lowers_to_get_quest_completed() {
    let mut value = FieldValue::Bytes(row(0, 0.0, 857, 0x77, 0, 7, 0, 0x3352));
    assert!(Fo76Fo4Hook::lower_story_manager_completion_condition(&mut value));
    let b = bytes_of(&value);
    assert_eq!(u16_at(b, 8), 543);
    assert_eq!(u32_at(b, 12), 0x77);
    assert_eq!(u32_at(b, 20), 0);
    assert_eq!(u32_at(b, 28), u32::MAX);
}

fn carry(op: u8, comparison: f32) -> Option<(f32, bool)> {
    Fo76Fo4Hook::quest_completed_comparison_for_count_predicate(op, comparison.to_bits())
        .map(|(target, exact)| (f32::from_bits(target), exact))
}

#[test]
fn completion_count_predicates_carry_onto_a_boolean() {
    assert_eq!(carry(0, 0.0), Some((0.0, true)));
    assert_eq!(carry(4, 1.0), Some((0.0, true)));
    assert_eq!(carry(5, 0.0), Some((0.0, true)));
    assert_eq!(carry(3, 1.0), Some((1.0, true)));
    assert_eq!(carry(2, 0.0), Some((1.0, true)));
    assert_eq!(carry(0, 1.0), Some((1.0, false)));
    assert_eq!(carry(3, 2.0), Some((1.0, false)));
    assert_eq!(carry(5, 1.0), None);
    assert_eq!(carry(4, 3.0), None);
    assert_eq!(carry(3, 0.0), None);
    assert_eq!(carry(4, 0.0), None);
    assert_eq!(carry(6, 1.0), None);
    assert_eq!(carry(0, f32::NAN), None);
    assert_eq!(carry(3, f32::INFINITY), None);
}

#[test]
fn numeric_condition_matching_follows_ieee() {
    let m = |v: f32, op: u8, c: f32| Fo76Fo4Hook::numeric_condition_matches(v.to_bits(), op, c.to_bits());
    assert!(m(0.0, 0, -0.0));
    assert!(!m(f32::NAN, 0, f32::NAN));
    assert!(m(f32::NAN, 1, 1.0));
    assert!(m(2.0, 2, 1.0));
    assert!(m(1.0, 3, 1.0));
    assert!(m(-3.0, 4, -2.0));
    assert!(m(-2.0, 5, -2.0));
    assert!(!m(1.0, 7, 1.0));
    for v in [-5.0_f32, -0.0, 0.0, 0.5, 1.0, 3.0, 1.0e9] {
        for c in [-5.0_f32, -0.0, 0.0, 1.0, 2.5, 1.0e9] {
            assert_eq!(m(v, 0, c), v == c);
            assert_eq!(m(v, 1, c), v != c);
            assert_eq!(m(v, 2, c), v > c);
            assert_eq!(m(v, 3, c), v >= c);
            assert_eq!(m(v, 4, c), v < c);
            assert_eq!(m(v, 5, c), v <= c);
        }
    }
}

#[test]
fn completion_count_condition_lowers_onto_get_quest_completed() {
    let mut value = FieldValue::Bytes(row(0x60 | 0x01, 1.0, 857, 0x77, 5, 1, 9, 3));
    assert_eq!(Fo76Fo4Hook::lower_quest_completion_count_condition(&mut value), Some(true));
    let b = bytes_of(&value);
    assert_eq!(b[0], 0x01);
    assert_eq!(f32_at(b, 4), 1.0);
    assert_eq!(u16_at(b, 8), 543);
    assert_eq!(u32_at(b, 12), 0x77);
    assert_eq!(u32_at(b, 16), 0);
    assert_eq!(u32_at(b, 20), 0);
    assert_eq!(u32_at(b, 24), 0);
    assert_eq!(u32_at(b, 28), u32::MAX);

    let mut widened = FieldValue::Bytes(row(0x00, 1.0, 857, 0x77, 0, 0, 0, 0));
    assert_eq!(Fo76Fo4Hook::lower_quest_completion_count_condition(&mut widened), Some(false));

    let mut global = FieldValue::Bytes(row(0x60 | 0x04, 1.0, 857, 0x77, 0, 0, 0, 0));
    let before = global.duplicate();
    assert_eq!(Fo76Fo4Hook::lower_quest_completion_count_condition(&mut global), None);
    assert_eq!(global, before);

    let mut story = FieldValue::Bytes(row(0xA0, 0.0, 857, 0x77, 0, 7, 0, 0x3352));
    let before = story.duplicate();
    assert_eq!(Fo76Fo4Hook::lower_quest_completion_count_condition(&mut story), None);
    assert_eq!(story, before);

    let mut no_quest = FieldValue::Bytes(row(0x60, 1.0, 857, 0, 0, 0, 0, 0));
    assert_eq!(Fo76Fo4Hook::lower_quest_completion_count_condition(&mut no_quest), None);
}

#[test]
fn completion_conditions_are_lowered_once() {
    let mut interner = StringInterner::new();
    let mut record = make_record("INFO", &mut interner);
    push_field(&mut record, "CTDA", FieldValue::Bytes(row(0x60, 1.0, 857, 0x77, 0, 0, 0, 0)));
    push_field(&mut record, "CTDA", FieldValue::Bytes(row(0xA0, 1.0, 857, 0x78, 0, 0, 0, 0)));
    push_field(&mut record, "CIS1", FieldValue::Bytes(row(0x60, 1.0, 857, 0x77, 0, 0, 0, 0)));
    Fo76Fo4Hook::normalize_fo76_quest_completion_conditions(&mut record);
    assert_eq!(u16_at(bytes_of(&record.fields[0].value), 8), 543);
    assert_eq!(u16_at(bytes_of(&record.fields[1].value), 8), 857, "<= 1 has no sound boolean");
    assert_eq!(u16_at(bytes_of(&record.fields[2].value), 8), 857, "only condition rows are lowered");
    let once: Vec<FieldEntry> = record.fields.iter().map(|entry| entry.duplicate()).collect();
    Fo76Fo4Hook::normalize_fo76_quest_completion_conditions(&mut record);
    assert_eq!(record.fields, once);
}

#[test]
fn closed_gate_reads_get_is_id_player() {
    let mut bytes = row(0x20 | 0x04 | 0x01, 5.0, 854, 0x33D253, 9, 1, 0x55, 0x66);
    assert!(fo76_fo4::story::close_condition_gate(&mut bytes));
    assert_eq!(bytes[0], 0x01);
    assert_eq!(&bytes[1..4], &[0, 0, 0]);
    assert_eq!(f32_at(&bytes, 4), 1.0);
    assert_eq!(u16_at(&bytes, 8), 72);
    assert_eq!(&bytes[10..12], &[0, 0]);
    assert_eq!(u32_at(&bytes, 12), 7);
    assert_eq!(u32_at(&bytes, 16), 0);
    assert_eq!(u32_at(&bytes, 20), 0);
    assert_eq!(u32_at(&bytes, 24), 0);
    assert_eq!(u32_at(&bytes, 28), 0);

    let mut short = vec![0xE1_u8; 23];
    assert!(!fo76_fo4::story::close_condition_gate(&mut short));
    assert_eq!(short, vec![0xE1_u8; 23]);

    let mut exact = vec![0xFF_u8; 24];
    assert!(fo76_fo4::story::close_condition_gate(&mut exact));
    assert_eq!(exact.len(), 24);
    assert_eq!(exact[0], 0x01);

    let mut value = FieldValue::Uint(3);
    assert!(!Fo76Fo4Hook::close_condition_gate(&mut value));
    assert_eq!(value, FieldValue::Uint(3));
}

#[test]
fn source_shaped_context_get_stage_is_recognised() {
    let get_stage = |flags: u8, comparison: f32| FieldValue::Bytes(row(flags, comparison, 58, 0, 0, 0, 0, u32::MAX));
    assert!(Fo76Fo4Hook::is_source_shaped_context_get_stage(&get_stage(0x60, 10.0)));
    assert!(Fo76Fo4Hook::is_source_shaped_context_get_stage(&get_stage(0x00, 0.0)));
    assert!(Fo76Fo4Hook::is_source_shaped_context_get_stage(&get_stage(0xA0, 65535.0)));
    assert!(Fo76Fo4Hook::is_source_shaped_context_get_stage(&get_stage(0x00, -0.0)));
    assert!(!Fo76Fo4Hook::is_source_shaped_context_get_stage(&get_stage(0x00, 10.5)));
    assert!(!Fo76Fo4Hook::is_source_shaped_context_get_stage(&get_stage(0x00, -1.0)));
    assert!(!Fo76Fo4Hook::is_source_shaped_context_get_stage(&get_stage(0x00, 65536.0)));
    assert!(!Fo76Fo4Hook::is_source_shaped_context_get_stage(&get_stage(0xC0, 10.0)));
    assert!(!Fo76Fo4Hook::is_source_shaped_context_get_stage(&get_stage(0x04, 10.0)));
    assert!(!Fo76Fo4Hook::is_source_shaped_context_get_stage(&get_stage(0x00, f32::NAN)));
    let mut long = row(0, 10.0, 58, 0, 0, 0, 0, u32::MAX);
    long.push(0);
    assert!(!Fo76Fo4Hook::is_source_shaped_context_get_stage(&FieldValue::Bytes(long)));
}

#[test]
fn story_manager_player_event_data_moves_to_subject() {
    let mut interner = StringInterner::new();
    let mut record = make_record("SMQN", &mut interner);
    push_field(&mut record, "CTDA", FieldValue::Bytes(row(0, 5.0, 80, 0, 0, 7, 0x44, 0x3150)));
    push_field(&mut record, "CTDA", FieldValue::Bytes(row(0, 5.0, 80, 0, 0, 7, 0x44, 0x3152)));
    Fo76Fo4Hook::normalize_fo76_story_manager_event_data_run_on(&mut record);
    let moved = bytes_of(&record.fields[0].value);
    assert_eq!((u32_at(moved, 20), u32_at(moved, 24), u32_at(moved, 28)), (0, 0, u32::MAX));
    let kept = bytes_of(&record.fields[1].value);
    assert_eq!((u32_at(kept, 20), u32_at(kept, 24), u32_at(kept, 28)), (7, 0x44, 0x3152));

    let mut other = make_record("INFO", &mut interner);
    push_field(&mut other, "CTDA", FieldValue::Bytes(row(0, 5.0, 80, 0, 0, 7, 0x44, 0x3150)));
    Fo76Fo4Hook::normalize_fo76_story_manager_event_data_run_on(&mut other);
    assert_eq!(u32_at(bytes_of(&other.fields[0].value), 20), 7);
}

#[test]
fn level_event_data_under_increase_level_lowers_to_get_level() {
    let mut interner = StringInterner::new();
    let fallout4 = interner.intern_str("Fallout4.esm");
    let mut record = make_record("SMQN", &mut interner);
    push_field(&mut record, "PNAM", FieldValue::FormKey(FormKey { local: 0x0016_556F, plugin: fallout4 }));
    let mut level = row(0x60, 20.0, 576, 0x3156_0002, 0, 0, 0, u32::MAX);
    level[10] = 0xAA;
    level[11] = 0xBB;
    push_field(&mut record, "CTDA", FieldValue::Bytes(level));
    Fo76Fo4Hook::normalize_fo76_story_manager_level_event_data(&mut record);
    let b = bytes_of(&record.fields[1].value);
    assert_eq!(u16_at(b, 8), 80);
    assert_eq!(&b[10..12], &[0, 0]);
    assert_eq!(u32_at(b, 12), 0);
    assert_eq!(u32_at(b, 28), u32::MAX);
    assert_eq!(f32_at(b, 4), 20.0);
    assert_eq!(b[0], 0x60);

    let mut two_parents = make_record("SMQN", &mut interner);
    push_field(&mut two_parents, "PNAM", FieldValue::FormKey(FormKey { local: 0x0016_556F, plugin: fallout4 }));
    push_field(&mut two_parents, "PNAM", FieldValue::FormKey(FormKey { local: 0x0016_556F, plugin: fallout4 }));
    push_field(&mut two_parents, "CTDA", FieldValue::Bytes(row(0, 20.0, 576, 0x3156_0002, 0, 0, 0, u32::MAX)));
    Fo76Fo4Hook::normalize_fo76_story_manager_level_event_data(&mut two_parents);
    assert_eq!(u16_at(bytes_of(&two_parents.fields[2].value), 8), 576);
}

#[test]
fn nested_form_id_looks_into_lists_and_structs() {
    let mut interner = StringInterner::new();
    let plugin = interner.intern_str("SeventySix.esm");
    let name = interner.intern_str("Parent");
    assert_eq!(Fo76Fo4Hook::nested_form_id(&FieldValue::FormKey(FormKey { local: 0x0112_3456, plugin })), Some(0x12_3456));
    assert_eq!(Fo76Fo4Hook::nested_form_id(&FieldValue::Uint(0x1_0000_0000)), None);
    assert_eq!(Fo76Fo4Hook::nested_form_id(&FieldValue::Int(-1)), None);
    assert_eq!(Fo76Fo4Hook::nested_form_id(&FieldValue::Bytes(vec![1, 2, 3])), None);
    assert_eq!(Fo76Fo4Hook::nested_form_id(&FieldValue::Bytes(vec![0x56, 0x34, 0x12, 0xFF])), Some(0x12_3456));
    let nested = FieldValue::List(vec![
        FieldValue::Null,
        FieldValue::Struct(vec![(name, FieldValue::Bytes(vec![1])), (name, FieldValue::Uint(0x0A00_0007))]),
        FieldValue::Uint(9),
    ]);
    assert_eq!(Fo76Fo4Hook::nested_form_id(&nested), Some(7));
}
