#![allow(dead_code)]
use fo76_fo4::effects::Fo76Fo4Hook;
use fo76_fo4::model::{FieldEntry, FieldValue, FormKey, Record, SigCode, SubrecordSig, Sym};
use fo76_fo4::text::StringInterner;

fn sig4(s: &str) -> [u8; 4] {
    let b = s.as_bytes();
    [b[0], b[1], b[2], b[3]]
}

fn make_record(sig: &str, interner: &mut StringInterner) -> Record {
    let plugin = interner.intern_str("SeventySix.esm");
    Record { sig: SigCode(sig4(sig)), form_key: FormKey { local: 0x000800, plugin }, eid: None, fields: Vec::new() }
}

fn push_field(record: &mut Record, sig: &str, value: FieldValue) {
    record.fields.push(FieldEntry { sig: SubrecordSig(sig4(sig)), value });
}

fn raw_bytes(bytes: &[u8]) -> FieldValue {
    FieldValue::Bytes(bytes.to_vec())
}

fn sig_str(sig: [u8; 4]) -> String {
    String::from_utf8(sig.to_vec()).unwrap()
}

fn sigs(record: &Record) -> Vec<String> {
    record.fields.iter().map(|field| sig_str(field.sig.0)).collect()
}

fn resolve(interner: &StringInterner, sym: Sym) -> Option<String> {
    interner.resolve(sym).map(|bytes| String::from_utf8(bytes.to_vec()).unwrap())
}

fn named_value<'a>(fields: &'a [(Sym, FieldValue)], name: &str, interner: &StringInterner) -> Option<&'a FieldValue> {
    fields.iter().find(|(sym, _)| resolve(interner, *sym).as_deref() == Some(name)).map(|(_, value)| value)
}

fn field<'a>(record: &'a Record, sig: &str) -> Option<&'a FieldEntry> {
    record.fields.iter().find(|entry| entry.sig.0 == sig4(sig))
}

fn pre(interner: &mut StringInterner, record: &mut Record) {
    Fo76Fo4Hook::intern_hook_names(interner);
    Fo76Fo4Hook::pre_translate(interner, record);
}

fn post(interner: &mut StringInterner, record: &mut Record) {
    Fo76Fo4Hook::intern_hook_names(interner);
    Fo76Fo4Hook::post_translate(interner, record, Vec::new());
}

fn raw_ctda(function_id: u16) -> FieldValue {
    raw_ctda_with_parameter_1(function_id, 0)
}

fn raw_ctda_with_parameter_1(function_id: u16, parameter_1: u32) -> FieldValue {
    let mut bytes = vec![0_u8; 32];
    bytes[8..10].copy_from_slice(&function_id.to_le_bytes());
    bytes[12..16].copy_from_slice(&parameter_1.to_le_bytes());
    FieldValue::Bytes(bytes)
}

fn raw_ctda_with_run_on(function_id: u16, parameter_1: u32, run_on: u32) -> FieldValue {
    let mut bytes = vec![0_u8; 32];
    bytes[8..10].copy_from_slice(&function_id.to_le_bytes());
    bytes[12..16].copy_from_slice(&parameter_1.to_le_bytes());
    bytes[20..24].copy_from_slice(&run_on.to_le_bytes());
    FieldValue::Bytes(bytes)
}
use fo76_fo4::cndf::{condition_form_from_subrecords, ConditionFormCatalog};

fn row(flags: u8, comparison: f32, function: u16, p1: u32, run_on: u32, reference: u32) -> Vec<u8> {
    let mut b = vec![0_u8; 32];
    b[0] = flags;
    b[4..8].copy_from_slice(&comparison.to_le_bytes());
    b[8..10].copy_from_slice(&function.to_le_bytes());
    b[12..16].copy_from_slice(&p1.to_le_bytes());
    b[20..24].copy_from_slice(&run_on.to_le_bytes());
    b[24..28].copy_from_slice(&reference.to_le_bytes());
    b
}

const OR: u8 = 0x01;
const EQ: u8 = 0x00;
const NE: u8 = 0x20;
const GT: u8 = 0x40;
const LE: u8 = 0xA0;

fn form_ref(flags: u8, comparison: f32, object_id: u32) -> Vec<u8> {
    row(flags, comparison, 875, 0x0100_0000 | object_id, 0, 0)
}

fn bytes_of(entry: &FieldEntry) -> Vec<u8> {
    match &entry.value {
        FieldValue::Bytes(b) => b.clone(),
        other => panic!("expected bytes, got {other:?}"),
    }
}

fn record_with(rows: &[(&str, Vec<u8>)], interner: &mut StringInterner) -> Record {
    let mut record = make_record("INFO", interner);
    for (sig, bytes) in rows {
        push_field(&mut record, sig, FieldValue::Bytes(bytes.clone()));
    }
    record
}

#[test]
fn catalog_reads_back_what_was_inserted_for_own_ids() {
    let mut catalog = ConditionFormCatalog::new(1);
    assert_eq!(catalog.len(), 0);
    catalog.insert(0x0500_0123, vec![row(GT, 5.0, 80, 0, 0, 0)], false);
    assert_eq!(catalog.len(), 1);
    let form = catalog.get(0x0100_0123).expect("own id");
    assert_eq!(form.rows, vec![row(GT, 5.0, 80, 0, 0, 0)]);
    assert!(!form.has_parameter_strings);
    assert!(catalog.get(0x0200_0123).is_none(), "a master's id is not an own form");
    assert!(catalog.get(0x0100_0124).is_none());
    catalog.insert(0x0123, vec![], true);
    assert_eq!(catalog.len(), 1);
    assert!(catalog.get(0x0100_0123).unwrap().has_parameter_strings);
}

#[test]
fn condition_form_reads_rows_and_parameter_strings_from_subrecords() {
    let subrecords = vec![
        (*b"EDID", b"Form\0".to_vec()),
        (*b"CTDA", row(EQ, 1.0, 72, 7, 0, 0)),
        (*b"CIS1", b"x\0".to_vec()),
        (*b"CTDT", row(GT, 2.0, 80, 0, 0, 0)),
    ];
    let (rows, strings) = condition_form_from_subrecords(&subrecords);
    assert_eq!(rows, vec![row(EQ, 1.0, 72, 7, 0, 0), row(GT, 2.0, 80, 0, 0, 0)]);
    assert!(strings);
    let (rows, strings) = condition_form_from_subrecords(&vec![(*b"EDID", vec![0])]);
    assert!(rows.is_empty());
    assert!(!strings);
}

#[test]
fn single_row_form_is_substituted_with_the_slot_flag() {
    let mut interner = StringInterner::new();
    let mut catalog = ConditionFormCatalog::new(1);
    catalog.insert(0x10, vec![row(GT, 5.0, 80, 0, 0, 0)], false);
    let mut record = record_with(&[("CTDA", form_ref(EQ | OR, 1.0, 0x10)), ("CTDA", row(EQ | OR, 1.0, 72, 7, 0, 0))], &mut interner);
    Fo76Fo4Hook::inline_fo76_condition_forms(&mut record, &catalog);
    assert_eq!(record.fields.len(), 2);
    assert_eq!(bytes_of(&record.fields[0]), row(GT | OR, 5.0, 80, 0, 0, 0));
}

#[test]
fn negated_single_row_form_complements_the_operator() {
    let mut interner = StringInterner::new();
    let mut catalog = ConditionFormCatalog::new(1);
    catalog.insert(0x10, vec![row(GT | OR, 5.0, 80, 0, 0, 0)], false);
    let mut record = record_with(&[("CTDA", form_ref(EQ, 0.0, 0x10))], &mut interner);
    Fo76Fo4Hook::inline_fo76_condition_forms(&mut record, &catalog);
    assert_eq!(bytes_of(&record.fields[0]), row(LE, 5.0, 80, 0, 0, 0));
}

#[test]
fn multi_row_form_is_spliced_into_an_and_slot() {
    let mut interner = StringInterner::new();
    let mut catalog = ConditionFormCatalog::new(1);
    let a = row(EQ | OR, 1.0, 72, 7, 0, 0);
    let b = row(EQ | OR, 1.0, 72, 8, 0, 0);
    let c = row(GT, 2.0, 80, 0, 0, 0);
    catalog.insert(0x10, vec![a.clone(), b.clone(), c.clone()], false);
    let host = row(EQ, 1.0, 72, 9, 0, 0);
    let mut record = record_with(&[("CTDA", host.clone()), ("CTDA", form_ref(NE, 0.0, 0x10))], &mut interner);
    Fo76Fo4Hook::inline_fo76_condition_forms(&mut record, &catalog);
    let rows: Vec<Vec<u8>> = record.fields.iter().map(bytes_of).collect();
    assert_eq!(rows, vec![host, a, b, c]);
}

#[test]
fn negated_multi_row_form_becomes_an_or_group() {
    let mut interner = StringInterner::new();
    let mut catalog = ConditionFormCatalog::new(1);
    catalog.insert(0x10, vec![row(EQ, 1.0, 72, 7, 0, 0), row(GT, 2.0, 80, 0, 0, 0)], false);
    let mut record = record_with(&[("CTDA", form_ref(NE, 1.0, 0x10))], &mut interner);
    Fo76Fo4Hook::inline_fo76_condition_forms(&mut record, &catalog);
    let rows: Vec<Vec<u8>> = record.fields.iter().map(bytes_of).collect();
    assert_eq!(rows, vec![row(NE | OR, 1.0, 72, 7, 0, 0), row(LE | OR, 2.0, 80, 0, 0, 0)]);
}

#[test]
fn refused_shapes_leave_the_block_as_it_was() {
    let mut interner = StringInterner::new();
    let mut catalog = ConditionFormCatalog::new(1);
    catalog.insert(0x10, vec![row(EQ, 1.0, 72, 7, 0, 0), row(GT, 2.0, 80, 0, 0, 0)], false);
    catalog.insert(0x11, vec![form_ref(EQ, 1.0, 0x11)], false);
    catalog.insert(0x12, vec![row(EQ, 1.0, 72, 7, 0, 0)], true);
    catalog.insert(0x13, vec![row(EQ, 1.0, 900, 7, 0, 0)], false);
    catalog.insert(0x14, vec![row(EQ | OR, 1.0, 72, 7, 0, 0), row(GT, 2.0, 80, 0, 0, 0)], false);
    let cases: Vec<Vec<(&str, Vec<u8>)>> = vec![
        vec![("CTDA", form_ref(EQ | OR, 1.0, 0x10)), ("CTDA", row(EQ | OR, 1.0, 72, 9, 0, 0))],
        vec![("CTDA", form_ref(EQ, 1.0, 0x11))],
        vec![("CTDA", form_ref(EQ, 1.0, 0x12))],
        vec![("CTDA", form_ref(EQ, 1.0, 0x13))],
        vec![("CTDA", form_ref(EQ, 0.0, 0x14))],
        vec![("CTDA", form_ref(EQ, 1.0, 0x99))],
        vec![("CTDA", form_ref(GT, 1.0, 0x10))],
        vec![("CTDA", row(EQ, 1.0, 875, 0x0100_0010, 1, 0))],
        vec![("CTDA", row(EQ, 1.0, 875, 0x0100_0010, 0, 0x20))],
        vec![("CTDA", row(EQ | OR, 1.0, 72, 9, 0, 0)), ("CTDA", form_ref(EQ, 1.0, 0x14))],
    ];
    for rows in cases {
        let mut record = record_with(&rows, &mut interner);
        Fo76Fo4Hook::inline_fo76_condition_forms(&mut record, &catalog);
        let got: Vec<Vec<u8>> = record.fields.iter().map(bytes_of).collect();
        let want: Vec<Vec<u8>> = rows.iter().map(|(_, b)| b.clone()).collect();
        assert_eq!(got, want);
    }
}

#[test]
fn nested_forms_expand_and_parameter_strings_stay_with_their_row() {
    let mut interner = StringInterner::new();
    let mut catalog = ConditionFormCatalog::new(1);
    catalog.insert(0x20, vec![form_ref(EQ, 1.0, 0x21)], false);
    catalog.insert(0x21, vec![row(GT, 3.0, 80, 0, 0, 0)], false);
    let plain = row(EQ, 1.0, 72, 7, 0, 0);
    let mut record = make_record("INFO", &mut interner);
    push_field(&mut record, "CITC", FieldValue::Uint(9));
    push_field(&mut record, "CTDA", FieldValue::Bytes(plain.clone()));
    push_field(&mut record, "CIS1", FieldValue::Bytes(b"param\0".to_vec()));
    push_field(&mut record, "CTDT", FieldValue::Bytes(form_ref(EQ, 1.0, 0x20)));
    push_field(&mut record, "NAM1", FieldValue::Null);
    Fo76Fo4Hook::inline_fo76_condition_forms(&mut record, &catalog);
    assert_eq!(sigs(&record), vec!["CITC", "CTDA", "CIS1", "CTDA", "NAM1"]);
    assert_eq!(record.fields[0].value, FieldValue::Uint(2));
    assert_eq!(bytes_of(&record.fields[1]), plain);
    assert_eq!(record.fields[2].value, FieldValue::Bytes(b"param\0".to_vec()));
    assert_eq!(bytes_of(&record.fields[3]), row(GT, 3.0, 80, 0, 0, 0));
}

#[test]
fn records_without_form_conditions_are_untouched() {
    let mut interner = StringInterner::new();
    let catalog = ConditionFormCatalog::new(1);
    let mut record = make_record("INFO", &mut interner);
    push_field(&mut record, "CITC", FieldValue::Uint(9));
    push_field(&mut record, "CTDA", FieldValue::Bytes(row(EQ, 1.0, 72, 7, 0, 0)));
    Fo76Fo4Hook::inline_fo76_condition_forms(&mut record, &catalog);
    assert_eq!(record.fields[0].value, FieldValue::Uint(9));
}
