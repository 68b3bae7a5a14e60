//! Terminals and furniture: condition groups without an anchor, interaction
//! markers the record cannot back, keyword lists and their counts, and
//! FO76-only tails of fixed-size subrecords.
use vstd::prelude::*;
use crate::text::{intern_all, intern_each, strs_bytes};
use vstd::string::StringSliceAdditionalSpecFns;
use vstd::pervasive::VecAdditionalExecFns;
use crate::bytes::{le32, read_u32_le, u32_bytes};
use crate::effects::Fo76Fo4Hook;
use crate::fields::{find_sig, first_with_sig, has_sig, push_entry};
use crate::model::{code, entries_view, lemma_list_view, lemma_struct_view, named_view, sig_is, tag,
    values_view, EntryView, FieldEntry, FieldValue, FieldView, FormKey, Record, RecordView, SubrecordSig, Sym};
use crate::normalize::{map_fields, truncate_raw_subrecord, truncated_entry};
use crate::text::{bytes_eq_ignore_case, eq_ignore_case, handle_of, lemma_handle_of, lit, StringInterner};
use crate::values::{clear_u32_bits, has_bits, set_u32_count, u32_field_has_bits, with_bits_cleared, with_count};

verus! {

/// The state of a scan over a terminal's subrecords.
pub struct TermScan {
    pub out: Seq<EntryView>,
    pub anchor: bool,
    pub started: bool,
    pub keep: bool,
}

/// One step: body and item sizes reset the scan; body and item texts anchor
/// the conditions that follow; conditions (and their strings) are kept only
/// under an anchor; any other entry closes a started group.
pub open spec fn term_step(st: TermScan, e: EntryView) -> TermScan {
    let s = e.sig;
    if s == code('B', 'S', 'I', 'Z') || s == code('I', 'S', 'I', 'Z') {
        TermScan { out: st.out.push(e), anchor: false, started: false, keep: false }
    } else if s == code('B', 'T', 'X', 'T') || s == code('I', 'T', 'X', 'T') {
        TermScan { out: st.out.push(e), anchor: true, started: false, keep: false }
    } else if s == code('C', 'T', 'D', 'A') || s == code('C', 'T', 'D', 'T') {
        if st.anchor {
            TermScan { out: st.out.push(e), started: true, keep: true, ..st }
        } else {
            TermScan { keep: false, ..st }
        }
    } else if s == code('C', 'I', 'S', '1') || s == code('C', 'I', 'S', '2') {
        if st.keep {
            TermScan { out: st.out.push(e), ..st }
        } else {
            st
        }
    } else {
        TermScan {
            out: st.out.push(e),
            anchor: if st.started { false } else { st.anchor },
            started: false,
            keep: false,
        }
    }
}

/// The scan over a sequence of subrecords.
pub open spec fn term_scan(f: Seq<EntryView>) -> TermScan
    decreases f.len(),
{
    if f.len() == 0 {
        TermScan { out: Seq::empty(), anchor: false, started: false, keep: false }
    } else {
        term_step(term_scan(f.drop_last()), f.last())
    }
}

impl Fo76Fo4Hook {
    /// Drop a terminal's condition groups that no body or item text anchors.
    pub fn strip_orphan_term_conditions(record: &mut Record)
        ensures
            old(record)@.sig == code('T', 'E', 'R', 'M') ==> final(record)@ == (RecordView {
                fields: term_scan(old(record)@.fields).out,
                ..old(record)@
            }),
            old(record)@.sig == code('T', 'E', 'R', 'M') ==> final(record)@.fields == term_kept_entries(
                old(record)@.fields,
                old(record)@.fields.len() as int,
            ),
            old(record)@.sig != code('T', 'E', 'R', 'M') ==> final(record)@ == old(record)@,
    {
        if !sig_is(record.sig.0, 'T', 'E', 'R', 'M') {
            return;
        }
        let ghost orig = record@.fields;
        let mut rest: Vec<FieldEntry> = Vec::new();
        core::mem::swap(&mut record.fields, &mut rest);
        let n = rest.len();
        let mut kept: Vec<FieldEntry> = Vec::new();
        let mut anchor = false;
        let mut started = false;
        let mut keep = false;
        let mut idx: usize = 0;
        assert(entries_view(kept@) =~= Seq::<EntryView>::empty());
        while idx < n
            invariant
                orig.len() == n,
                idx <= n,
                rest@.len() == n - idx,
                forall|j: int| 0 <= j < rest@.len() ==> rest@[j]@ == orig[idx + j],
                ({
                    let st = term_scan(orig.take(idx as int));
                    &&& entries_view(kept@) == st.out
                    &&& anchor == st.anchor
                    &&& started == st.started
                    &&& keep == st.keep
                }),
            decreases n - idx,
        {
            let e = rest.remove(0);
            proof {
                assert(orig.take(idx + 1).drop_last() =~= orig.take(idx as int));
                assert(orig.take(idx + 1).last() == orig[idx as int]);
            }
            let s = e.sig.0;
            if sig_is(s, 'B', 'S', 'I', 'Z') || sig_is(s, 'I', 'S', 'I', 'Z') {
                anchor = false;
                started = false;
                keep = false;
                push_entry(&mut kept, e);
            } else if sig_is(s, 'B', 'T', 'X', 'T') || sig_is(s, 'I', 'T', 'X', 'T') {
                anchor = true;
                started = false;
                keep = false;
                push_entry(&mut kept, e);
            } else if sig_is(s, 'C', 'T', 'D', 'A') || sig_is(s, 'C', 'T', 'D', 'T') {
                keep = anchor;
                if keep {
                    started = true;
                    push_entry(&mut kept, e);
                }
            } else if sig_is(s, 'C', 'I', 'S', '1') || sig_is(s, 'C', 'I', 'S', '2') {
                if keep {
                    push_entry(&mut kept, e);
                }
            } else {
                if started {
                    anchor = false;
                    started = false;
                }
                keep = false;
                push_entry(&mut kept, e);
            }
            idx = idx + 1;
        }
        assert(orig.take(n as int) =~= orig);
        record.fields = kept;
        proof {
            law_term_conditions_kept_exactly(orig);
        }
    }
}

/// How many markers a marker entry lists.
pub open spec fn marker_entries(v: FieldView) -> nat {
    match v {
        FieldView::Null => 0,
        FieldView::List(items) => items.len(),
        _ => 1,
    }
}

/// How many marker-parameter rows an entry holds (24 bytes per raw row).
pub open spec fn marker_parameter_rows(v: FieldView) -> nat {
    match v {
        FieldView::Null => 0,
        FieldView::List(items) => items.len(),
        FieldView::Bytes(b) => b.len() / 24,
        _ => 1,
    }
}

/// How many markers an entry declares for the target layout.
pub open spec fn entry_marker_count(e: EntryView) -> nat {
    if e.sig == code('S', 'N', 'A', 'M') {
        marker_parameter_rows(e.value)
    } else if e.sig == code('F', 'N', 'P', 'R') || e.sig == code('E', 'N', 'A', 'M') || e.sig == code('N', 'A', 'M', '0') {
        marker_entries(e.value)
    } else {
        0
    }
}

/// The most markers any entry declares.
pub open spec fn marker_count(f: Seq<EntryView>) -> nat
    decreases f.len(),
{
    if f.len() == 0 {
        0
    } else {
        let rest = marker_count(f.drop_last());
        let here = entry_marker_count(f.last());
        if here > rest { here } else { rest }
    }
}

/// Whether a record's `MNAM` marks it as having a model.
pub open spec fn furniture_has_model(r: RecordView) -> bool {
    exists|j: int|
        0 <= j < r.fields.len() && #[trigger] r.fields[j].sig == code('M', 'N', 'A', 'M') && has_bits(
            r.fields[j].value,
            0x4000_0000,
        )
}

/// The interaction-point bits the record cannot back: points past its
/// marker count (at most 22; a record with a model backs point 0).
pub open spec fn invalid_marker_bits(r: RecordView) -> u32 {
    let c = if marker_count(r.fields) > 22 { 22nat } else { marker_count(r.fields) };
    let c2 = if c == 0 && furniture_has_model(r) { 1nat } else { c };
    let valid: u32 = if c2 == 0 { 0 } else { ((1u32 << (c2 as u32)) - 1) as u32 };
    0x003F_FFFF & !valid
}

/// A marker entry with the invalid interaction points cleared.
pub open spec fn markers_cleared(e: EntryView, bits: u32) -> EntryView {
    if e.sig == code('M', 'N', 'A', 'M') {
        EntryView { value: with_bits_cleared(e.value, bits), ..e }
    } else {
        e
    }
}

/// The number of markers a marker entry lists.
pub fn marker_entry_count(value: &FieldValue) -> (r: usize)
    ensures
        r == marker_entries(value@),
{
    match value {
        FieldValue::Null => 0,
        FieldValue::List(items) => {
            proof {
                lemma_list_view(*value);
            }
            items.len()
        },
        _ => 1,
    }
}

/// The number of marker-parameter rows an entry holds.
pub fn marker_parameters_row_count(value: &FieldValue) -> (r: usize)
    ensures
        r == marker_parameter_rows(value@),
{
    match value {
        FieldValue::Null => 0,
        FieldValue::List(items) => {
            proof {
                lemma_list_view(*value);
            }
            items.len()
        },
        FieldValue::Bytes(b) => b.len() / 24,
        _ => 1,
    }
}

/// The most markers any entry declares.
pub fn target_furniture_marker_count(record: &Record) -> (r: usize)
    ensures
        r == marker_count(record@.fields),
{
    let ghost f = record@.fields;
    let mut count: usize = 0;
    let mut i: usize = 0;
    while i < record.fields.len()
        invariant
            i <= record.fields@.len(),
            f == record@.fields,
            count == marker_count(f.take(i as int)),
        decreases record.fields@.len() - i,
    {
        assert(f[i as int] == record.fields@[i as int]@);
        assert(f.take(i + 1).drop_last() =~= f.take(i as int));
        assert(f.take(i + 1).last() == f[i as int]);
        let s = record.fields[i].sig.0;
        let here = if sig_is(s, 'S', 'N', 'A', 'M') {
            marker_parameters_row_count(&record.fields[i].value)
        } else if sig_is(s, 'F', 'N', 'P', 'R') || sig_is(s, 'E', 'N', 'A', 'M') || sig_is(s, 'N', 'A', 'M', '0') {
            marker_entry_count(&record.fields[i].value)
        } else {
            0
        };
        if here > count {
            count = here;
        }
        i = i + 1;
    }
    assert(f.take(i as int) =~= f);
    count
}

/// Whether a record's `MNAM` marks it as having a model.
pub fn furniture_record_has_model(record: &Record) -> (r: bool)
    ensures
        r == furniture_has_model(record@),
{
    let mut i: usize = 0;
    while i < record.fields.len()
        invariant
            i <= record.fields@.len(),
            forall|j: int| 0 <= j < i ==> !(#[trigger] record@.fields[j].sig == code('M', 'N', 'A', 'M') && has_bits(
                record@.fields[j].value,
                0x4000_0000,
            )),
        decreases record.fields@.len() - i,
    {
        assert(record@.fields[i as int] == record.fields@[i as int]@);
        if sig_is(record.fields[i].sig.0, 'M', 'N', 'A', 'M') && u32_field_has_bits(&record.fields[i].value, 0x4000_0000) {
            assert(record@.fields[i as int].sig == code('M', 'N', 'A', 'M') && has_bits(record@.fields[i as int].value, 0x4000_0000));
            return true;
        }
        i = i + 1;
    }
    false
}

impl Fo76Fo4Hook {
    /// Clear the interaction points a furniture or terminal cannot back.
    pub fn clear_invalid_furniture_active_marker_bits(record: &mut Record)
        ensures
            (old(record)@.sig == code('F', 'U', 'R', 'N') || old(record)@.sig == code('T', 'E', 'R', 'M'))
                && invalid_marker_bits(old(record)@) != 0 ==> final(record)@ == map_fields(
                old(record)@,
                |e: EntryView| markers_cleared(e, invalid_marker_bits(old(record)@)),
            ),
            !(old(record)@.sig == code('F', 'U', 'R', 'N') || old(record)@.sig == code('T', 'E', 'R', 'M'))
                || invalid_marker_bits(old(record)@) == 0 ==> final(record)@ == old(record)@,
    {
        if !(sig_is(record.sig.0, 'F', 'U', 'R', 'N') || sig_is(record.sig.0, 'T', 'E', 'R', 'M')) {
            return;
        }
        let ghost r0 = record@;
        let mut count = target_furniture_marker_count(record);
        if count > 22 {
            count = 22;
        }
        if count == 0 && furniture_record_has_model(record) {
            count = 1;
        }
        let valid: u32 = if count == 0 {
            0
        } else {
            let c = count as u32;
            let shifted: u32 = 1u32 << c;
            assert(shifted >= 1) by (bit_vector)
                requires
                    shifted == 1u32 << c,
                    1 <= c <= 22,
            ;
            shifted - 1
        };
        let invalid = 0x003F_FFFF & !valid;
        assert(invalid == invalid_marker_bits(r0));
        if invalid == 0 {
            return;
        }
        let n = record.fields.len();
        let mut i: usize = 0;
        while i < n
            invariant
                n == record.fields@.len(),
                r0.fields.len() == n,
                i <= n,
                forall|j: int| 0 <= j < i ==> #[trigger] record@.fields[j] == markers_cleared(r0.fields[j], invalid),
                forall|j: int| i <= j < n ==> #[trigger] record@.fields[j] == r0.fields[j],
                record@.sig == r0.sig,
                record@.form_key == r0.form_key,
                record@.eid == r0.eid,
            decreases n - i,
        {
            assert(record@.fields[i as int] == record.fields@[i as int]@);
            if sig_is(record.fields[i].sig.0, 'M', 'N', 'A', 'M') {
                let ghost before = record@.fields;
                let mut e = record.fields.remove(i);
                clear_u32_bits(&mut e.value, invalid);
                let ghost ev = e@;
                record.fields.insert(i, e);
                assert(record@.fields =~= before.update(i as int, ev));
            }
            i = i + 1;
        }
        assert(record@.fields =~= map_fields(r0, |e: EntryView| markers_cleared(e, invalid_marker_bits(r0))).fields);
    }
}


/// Whether a plugin handle names the FO4 master, ignoring case.
pub open spec fn names_fo4_master(interner: StringInterner, plugin: Sym) -> bool {
    interner.spec_resolve(plugin) matches Some(p) && eq_ignore_case(p, "Fallout4.esm".spec_bytes())
}

/// Whether the raw form-id row at byte offset `off` names `keyword` (low 24
/// bits).
pub open spec fn raw_keyword_row(b: Seq<u8>, off: int, keyword: u32) -> bool {
    0 <= off && off % 4 == 0 && off + 4 <= b.len() && le32(b, off) & 0x00FF_FFFF == keyword
}

/// Whether some raw form-id row names `keyword`.
pub open spec fn raw_has_keyword(b: Seq<u8>, keyword: u32) -> bool {
    exists|off: int| #[trigger] raw_keyword_row(b, off, keyword)
}

/// Whether a keyword value names the FO4 keyword `keyword`: a FO4 form key,
/// a list or struct holding one, or a raw form-id row.
pub open spec fn has_fo4_keyword(interner: StringInterner, v: FieldView, keyword: u32) -> bool
    decreases v,
{
    match v {
        FieldView::FormKey(fk) => fk.local == keyword && names_fo4_master(interner, fk.plugin),
        FieldView::List(items) => keyword_in_items(interner, items, keyword),
        FieldView::Struct(fields) => keyword_in_members(interner, fields, keyword),
        FieldView::Bytes(b) => raw_has_keyword(b, keyword),
        _ => false,
    }
}

/// Whether some item names the keyword.
pub open spec fn keyword_in_items(interner: StringInterner, s: Seq<FieldView>, keyword: u32) -> bool
    decreases s,
{
    s.len() > 0 && (has_fo4_keyword(interner, s[0], keyword) || keyword_in_items(
        interner,
        s.subrange(1, s.len() as int),
        keyword,
    ))
}

/// Whether some member names the keyword.
pub open spec fn keyword_in_members(interner: StringInterner, s: Seq<(Sym, FieldView)>, keyword: u32) -> bool
    decreases s,
{
    s.len() > 0 && (has_fo4_keyword(interner, s[0].1, keyword) || keyword_in_members(
        interner,
        s.subrange(1, s.len() as int),
        keyword,
    ))
}

/// Whether a keyword value names the FO4 keyword `keyword`.
pub fn fo4_keyword_value(value: &FieldValue, interner: &StringInterner, keyword: u32) -> (r: bool)
    ensures
        r == has_fo4_keyword(*interner, value@, keyword),
    decreases value,
{
    match value {
        FieldValue::FormKey(fk) => fk.local == keyword && match interner.resolve(fk.plugin) {
            Some(p) => bytes_eq_ignore_case(p, lit("Fallout4.esm")),
            None => false,
        },
        FieldValue::List(items) => {
            let ghost s = value@->List_0;
            proof {
                lemma_list_view(*value);
            }
            let n = items.len();
            let mut i: usize = 0;
            assert(s.subrange(0, s.len() as int) =~= s);
            while i < n
                invariant
                    n == items@.len(),
                    i <= n,
                    *value is List,
                    value->List_0 == *items,
                    s == values_view(items@),
                    value@ == FieldView::List(s),
                    s.len() == n,
                    keyword_in_items(*interner, s, keyword) == keyword_in_items(*interner, s.subrange(i as int, n as int), keyword),
                decreases n - i,
            {
                proof {
                    let ghost all = value->List_0;
                    assert(decreases_to!(all => all@));
                    assert(decreases_to!(all@ => all@[i as int]));
                    let t = s.subrange(i as int, n as int);
                    assert(t[0] == s[i as int]);
                    assert(t.subrange(1, t.len() as int) =~= s.subrange(i + 1, n as int));
                }
                if fo4_keyword_value(&items[i], interner, keyword) {
                    assert(keyword_in_items(*interner, s.subrange(i as int, n as int), keyword));
                    return true;
                }
                i = i + 1;
            }
            false
        },
        FieldValue::Struct(fields) => {
            let ghost s = value@->Struct_0;
            proof {
                lemma_struct_view(*value);
            }
            let n = fields.len();
            let mut i: usize = 0;
            assert(s.subrange(0, s.len() as int) =~= s);
            while i < n
                invariant
                    n == fields@.len(),
                    i <= n,
                    *value is Struct,
                    value->Struct_0 == *fields,
                    s == named_view(fields@),
                    value@ == FieldView::Struct(s),
                    s.len() == n,
                    keyword_in_members(*interner, s, keyword) == keyword_in_members(*interner, s.subrange(i as int, n as int), keyword),
                decreases n - i,
            {
                proof {
                    let ghost all = value->Struct_0;
                    assert(decreases_to!(all => all@));
                    assert(decreases_to!(all@ => all@[i as int]));
                    assert(decreases_to!(all@[i as int] => all@[i as int].1));
                    let t = s.subrange(i as int, n as int);
                    assert(t[0] == s[i as int]);
                    assert(t.subrange(1, t.len() as int) =~= s.subrange(i + 1, n as int));
                }
                if fo4_keyword_value(&fields[i].1, interner, keyword) {
                    assert(keyword_in_members(*interner, s.subrange(i as int, n as int), keyword));
                    return true;
                }
                i = i + 1;
            }
            false
        },
        FieldValue::Bytes(b) => {
            let n = b.len();
            let mut off: usize = 0;
            while off <= n && n - off >= 4
                invariant
                    n == b@.len(),
                    *value is Bytes,
                    value->Bytes_0 == *b,
                    value@ == FieldView::Bytes(b@),
                    off % 4 == 0,
                    off <= n + 4,
                    forall|m: int| 0 <= m < off ==> !#[trigger] raw_keyword_row(b@, m, keyword),
                decreases n + 4 - off,
            {
                if read_u32_le(b.as_slice(), off) & 0x00FF_FFFF == keyword {
                    assert(raw_keyword_row(b@, off as int, keyword));
                    return true;
                }
                assert forall|m: int| 0 <= m < off + 4 implies !#[trigger] raw_keyword_row(b@, m, keyword) by {
                    if m >= off && m != off {
                        assert(m % 4 != 0);
                    }
                }
                off = off + 4;
            }
            false
        },
        _ => false,
    }
}


/// How many keywords a `KWDA` value holds.
pub open spec fn kwda_count(v: FieldView) -> nat {
    match v {
        FieldView::List(items) => items.len(),
        FieldView::Bytes(b) => b.len() / 4,
        FieldView::FormKey(_) => 1,
        _ => 0,
    }
}

/// How many keywords all `KWDA` entries hold together.
pub open spec fn keyword_total(f: Seq<EntryView>) -> nat
    decreases f.len(),
{
    if f.len() == 0 {
        0
    } else {
        keyword_total(f.drop_last()) + if f.last().sig == code('K', 'W', 'D', 'A') {
            kwda_count(f.last().value)
        } else {
            0
        }
    }
}

/// The keyword count set to `count`: the first `KSIZ` stores it, or a new
/// `KSIZ` goes before the first `KWDA` (or at the end).
pub open spec fn synced_keywords(f: Seq<EntryView>, count: u32) -> Seq<EntryView> {
    match first_with_sig(f, code('K', 'S', 'I', 'Z')) {
        Some(k) => f.update(k, EntryView { value: with_count(f[k].value, count), ..f[k] }),
        None => {
            let at = match first_with_sig(f, code('K', 'W', 'D', 'A')) {
                Some(k) => k,
                None => f.len() as int,
            };
            f.insert(at, EntryView { sig: code('K', 'S', 'I', 'Z'), value: FieldView::Uint(count as u64) })
        },
    }
}

proof fn lemma_keyword_total_bound(f: Seq<EntryView>, i: int)
    requires
        0 <= i <= f.len(),
    ensures
        keyword_total(f.take(i)) <= keyword_total(f),
    decreases f.len() - i,
{
    if i < f.len() {
        lemma_keyword_total_bound(f, i + 1);
        assert(f.take(i + 1).drop_last() =~= f.take(i));
    } else {
        assert(f.take(i) =~= f);
    }
}

impl Fo76Fo4Hook {
    /// Set the keyword count to the number of keywords held.
    pub fn sync_keyword_count(record: &mut Record)
        requires
            keyword_total(old(record)@.fields) <= u32::MAX,
        ensures
            final(record)@ == (RecordView {
                fields: synced_keywords(old(record)@.fields, keyword_total(old(record)@.fields) as u32),
                ..old(record)@
            }),
    {
        let ghost f = record@.fields;
        let mut count: u32 = 0;
        let mut i: usize = 0;
        while i < record.fields.len()
            invariant
                i <= record.fields@.len(),
                f == record@.fields,
                keyword_total(f) <= u32::MAX,
                count == keyword_total(f.take(i as int)),
            decreases record.fields@.len() - i,
        {
            assert(f[i as int] == record.fields@[i as int]@);
            assert(f.take(i + 1).drop_last() =~= f.take(i as int));
            assert(f.take(i + 1).last() == f[i as int]);
            proof {
                lemma_keyword_total_bound(f, i + 1);
            }
            if sig_is(record.fields[i].sig.0, 'K', 'W', 'D', 'A') {
                let here: u32 = match &record.fields[i].value {
                    FieldValue::List(items) => {
                        proof {
                            lemma_list_view(record.fields@[i as int].value);
                        }
                        items.len() as u32
                    },
                    FieldValue::Bytes(b) => (b.len() / 4) as u32,
                    FieldValue::FormKey(_) => 1,
                    _ => 0,
                };
                count = count + here;
            }
            i = i + 1;
        }
        assert(f.take(i as int) =~= f);
        let ghost before = record@.fields;
        match find_sig(&record.fields, tag('K', 'S', 'I', 'Z')) {
            Some(k) => {
                let mut e = record.fields.remove(k);
                set_u32_count(&mut e.value, count);
                let ghost ev = e@;
                record.fields.insert(k, e);
                assert(record@.fields =~= before.update(k as int, ev));
            },
            None => {
                let at = match find_sig(&record.fields, tag('K', 'W', 'D', 'A')) {
                    Some(k) => k,
                    None => record.fields.len(),
                };
                let e = FieldEntry { sig: SubrecordSig(tag('K', 'S', 'I', 'Z')), value: FieldValue::Uint(count as u64) };
                let ghost ev = e@;
                record.fields.insert(at, e);
                assert(record@.fields =~= before.insert(at as int, ev));
            },
        }
    }
}

/// Whether an `MNAM` entry enables any interaction point.
pub open spec fn interaction_entry(e: EntryView) -> bool {
    e.sig == code('M', 'N', 'A', 'M') && has_bits(e.value, 0x003F_FFFF)
}

/// Whether a `KWDA` entry names the player-path keyword.
pub open spec fn player_path_entry(interner: StringInterner, e: EntryView) -> bool {
    e.sig == code('K', 'W', 'D', 'A') && has_fo4_keyword(interner, e.value, 0x06D5BB)
}

/// Whether a terminal with interaction points lacks the player-path keyword.
pub open spec fn needs_player_path(interner: StringInterner, r: RecordView) -> bool {
    &&& r.sig == code('T', 'E', 'R', 'M')
    &&& exists|j: int| 0 <= j < r.fields.len() && #[trigger] interaction_entry(r.fields[j])
    &&& !exists|j: int| 0 <= j < r.fields.len() && #[trigger] player_path_entry(interner, r.fields[j])
}

/// The keyword entries with the player-path keyword added; `None` when the
/// first `KWDA` has a form the keyword cannot join.
pub open spec fn with_player_path(f: Seq<EntryView>, keyword: FieldView) -> Option<Seq<EntryView>> {
    match first_with_sig(f, code('K', 'W', 'D', 'A')) {
        Some(i) => match f[i].value {
            FieldView::List(items) => Some(f.update(i, EntryView { value: FieldView::List(items.push(keyword)), ..f[i] })),
            FieldView::Bytes(b) => Some(f.update(i, EntryView { value: FieldView::Bytes(b + u32_bytes(0x06D5BB)), ..f[i] })),
            FieldView::FormKey(fk) => Some(
                f.update(i, EntryView { value: FieldView::List(seq![FieldView::FormKey(fk), keyword]), ..f[i] }),
            ),
            _ => None,
        },
        None => Some(f.push(EntryView { sig: code('K', 'W', 'D', 'A'), value: FieldView::List(seq![keyword]) })),
    }
}

/// A terminal given the FO4 player-path keyword and a matching count.
pub open spec fn player_path_added(interner: StringInterner, r: RecordView) -> RecordView {
    let keyword = FieldView::FormKey(FormKey { local: 0x06D5BB, plugin: handle_of(interner@, "Fallout4.esm".spec_bytes()) });
    if !needs_player_path(interner, r) {
        r
    } else {
        match with_player_path(r.fields, keyword) {
            Some(f) => RecordView { fields: synced_keywords(f, keyword_total(f) as u32), ..r },
            None => r,
        }
    }
}

fn has_interaction_points(record: &Record) -> (r: bool)
    ensures
        r == exists|j: int| 0 <= j < record@.fields.len() && #[trigger] interaction_entry(record@.fields[j]),
{
    let mut i: usize = 0;
    while i < record.fields.len()
        invariant
            i <= record.fields@.len(),
            forall|j: int| 0 <= j < i ==> !#[trigger] interaction_entry(record@.fields[j]),
        decreases record.fields@.len() - i,
    {
        assert(record@.fields[i as int] == record.fields@[i as int]@);
        if sig_is(record.fields[i].sig.0, 'M', 'N', 'A', 'M') && u32_field_has_bits(&record.fields[i].value, 0x003F_FFFF) {
            assert(interaction_entry(record@.fields[i as int]));
            return true;
        }
        i = i + 1;
    }
    false
}

fn has_player_path(interner: &StringInterner, record: &Record) -> (r: bool)
    ensures
        r == exists|j: int| 0 <= j < record@.fields.len() && #[trigger] player_path_entry(*interner, record@.fields[j]),
{
    let mut i: usize = 0;
    while i < record.fields.len()
        invariant
            i <= record.fields@.len(),
            forall|j: int| 0 <= j < i ==> !#[trigger] player_path_entry(*interner, record@.fields[j]),
        decreases record.fields@.len() - i,
    {
        assert(record@.fields[i as int] == record.fields@[i as int]@);
        if sig_is(record.fields[i].sig.0, 'K', 'W', 'D', 'A') && fo4_keyword_value(&record.fields[i].value, interner, 0x06D5BB) {
            assert(player_path_entry(*interner, record@.fields[i as int]));
            return true;
        }
        i = i + 1;
    }
    false
}

proof fn lemma_keyword_total_update(f: Seq<EntryView>, i: int, e: EntryView)
    requires
        0 <= i < f.len(),
        f[i].sig == e.sig,
    ensures
        keyword_total(f.update(i, e)) + (if e.sig == code('K', 'W', 'D', 'A') { kwda_count(f[i].value) } else { 0 })
            == keyword_total(f) + (if e.sig == code('K', 'W', 'D', 'A') { kwda_count(e.value) } else { 0 }),
    decreases f.len(),
{
    let g = f.update(i, e);
    if i == f.len() - 1 {
        assert(g.drop_last() =~= f.drop_last());
    } else {
        lemma_keyword_total_update(f.drop_last(), i, e);
        assert(g.drop_last() =~= f.drop_last().update(i, e));
    }
}

impl Fo76Fo4Hook {
    /// Give a terminal with interaction points the FO4 player-path keyword.
    /// The names it writes are interned first.
    pub fn ensure_terminal_player_path_keyword(interner: &mut StringInterner, record: &mut Record)
        requires
            old(interner).wf(),
            old(interner)@.len() + 1 <= u32::MAX,
            keyword_total(old(record)@.fields) + 1 <= u32::MAX,
        ensures
            final(interner).wf(),
            final(interner)@ == intern_all(old(interner)@, seq!["Fallout4.esm".spec_bytes()]),
            final(record)@ == player_path_added(*final(interner), old(record)@),
    {
        let names: Vec<&str> = vec!["Fallout4.esm"];
        intern_each(interner, names.as_slice());
        proof {
            assert(strs_bytes(names@) =~= seq!["Fallout4.esm".spec_bytes()]);
            assert(interner@.contains(strs_bytes(names@)[0]));
        }
        Self::ensure_terminal_player_path_keyword_interned(interner, record)
    }

    /// Give a terminal with interaction points the FO4 player-path keyword.
    pub(crate) fn ensure_terminal_player_path_keyword_interned(interner: &StringInterner, record: &mut Record)
        requires
            interner.wf(),
            interner@.contains("Fallout4.esm".spec_bytes()),
            keyword_total(old(record)@.fields) + 1 <= u32::MAX,
        ensures
            final(record)@ == player_path_added(*interner, old(record)@),
    {
        if !sig_is(record.sig.0, 'T', 'E', 'R', 'M') || !has_interaction_points(record) || has_player_path(interner, record) {
            return;
        }
        let ghost f = record@.fields;
        let plugin = match interner.find(lit("Fallout4.esm")) {
            Some(h) => {
                proof {
                    lemma_handle_of(*interner, h, "Fallout4.esm".spec_bytes());
                }
                h
            },
            None => Sym(0),
        };
        let ghost kv = FieldView::FormKey(FormKey { local: 0x06D5BB, plugin: plugin });
        match find_sig(&record.fields, tag('K', 'W', 'D', 'A')) {
            Some(i) => {
                let mut e = record.fields.remove(i);
                assert(e@ == f[i as int]);
                let value = match e.value {
                    FieldValue::List(items) => {
                        let ghost iv = FieldValue::List(items)@;
                        proof {
                            lemma_list_view(FieldValue::List(items));
                        }
                        let mut items = items;
                        items.push(FieldValue::FormKey(FormKey { local: 0x06D5BB, plugin: plugin }));
                        let v = FieldValue::List(items);
                        proof {
                            lemma_list_view(v);
                            assert(crate::model::values_view(v->List_0@) =~= iv->List_0.push(kv));
                        }
                        v
                    },
                    FieldValue::Bytes(b) => {
                        let mut b = b;
                        let ghost b0 = b@;
                        let tail = crate::values::u32_le_vec(0x06D5BB);
                        let mut tail = tail;
                        b.append(&mut tail);
                        assert(b@ =~= b0 + u32_bytes(0x06D5BB));
                        FieldValue::Bytes(b)
                    },
                    FieldValue::FormKey(fk) => {
                        let v = FieldValue::List(vec![FieldValue::FormKey(fk), FieldValue::FormKey(FormKey { local: 0x06D5BB, plugin: plugin })]);
                        proof {
                            lemma_list_view(v);
                            assert(crate::model::values_view(v->List_0@) =~= seq![FieldView::FormKey(fk), kv]);
                        }
                        v
                    },
                    other => {
                        let e2 = FieldEntry { sig: e.sig, value: other };
                        record.fields.insert(i, e2);
                        assert(record@.fields =~= f);
                        return;
                    },
                };
                let e2 = FieldEntry { sig: e.sig, value: value };
                let ghost ev = e2@;
                record.fields.insert(i, e2);
                assert(record@.fields =~= f.update(i as int, ev));
                proof {
                    lemma_keyword_total_update(f, i as int, ev);
                }
            },
            None => {
                let items: Vec<FieldValue> = vec![FieldValue::FormKey(FormKey { local: 0x06D5BB, plugin: plugin })];
                let v = FieldValue::List(items);
                proof {
                    lemma_list_view(v);
                    assert(crate::model::values_view(v->List_0@) =~= seq![kv]);
                }
                let e2 = FieldEntry { sig: SubrecordSig(tag('K', 'W', 'D', 'A')), value: v };
                let ghost ev = e2@;
                record.fields.push(e2);
                assert(record@.fields =~= f.push(ev));
                assert(record@.fields.drop_last() =~= f);
            },
        }
        Self::sync_keyword_count(record);
    }
}


/// Raw rows of `src` bytes cut to their first `tgt` bytes; a partial last
/// row is dropped.
pub open spec fn projected_rows(b: Seq<u8>, src: nat, tgt: nat) -> Seq<u8>
    decreases b.len(),
{
    if src == 0 || b.len() < src {
        Seq::empty()
    } else {
        b.take(tgt as int) + projected_rows(b.skip(src as int), src, tgt)
    }
}

/// A raw array subrecord `sig` whose whole rows of `src` bytes are cut to
/// `tgt` bytes each (when `tgt` is shorter and non-zero).
pub open spec fn rows_projected(e: EntryView, sig: [u8; 4], src: nat, tgt: nat) -> EntryView {
    if src > tgt && tgt != 0 && e.sig == sig && (e.value matches FieldView::Bytes(b) && b.len() > 0 && b.len() % src == 0) {
        EntryView { value: FieldView::Bytes(projected_rows(e.value->Bytes_0, src, tgt)), ..e }
    } else {
        e
    }
}

fn project_bytes(b: &Vec<u8>, src: usize, tgt: usize) -> (r: Vec<u8>)
    requires
        0 < tgt < src,
    ensures
        r@ == projected_rows(b@, src as nat, tgt as nat),
{
    let n = b.len();
    let mut out: Vec<u8> = Vec::new();
    let mut off: usize = 0;
    assert(b@.skip(0) =~= b@);
    assert(out@ + projected_rows(b@.skip(0), src as nat, tgt as nat) =~= projected_rows(b@, src as nat, tgt as nat));
    while off <= n && n - off >= src
        invariant
            n == b@.len(),
            0 < tgt < src,
            off <= n,
            out@ + projected_rows(b@.skip(off as int), src as nat, tgt as nat) == projected_rows(b@, src as nat, tgt as nat),
        decreases n - off,
    {
        let ghost rest = b@.skip(off as int);
        let ghost o0 = out@;
        let mut k: usize = 0;
        while k < tgt
            invariant
                n == b@.len(),
                off + src <= n,
                0 < tgt < src,
                k <= tgt,
                out@ == o0 + b@.subrange(off as int, off + k),
            decreases tgt - k,
        {
            out.push(b[off + k]);
            k = k + 1;
            assert(out@ =~= o0 + b@.subrange(off as int, off + k));
        }
        assert(rest.take(tgt as int) =~= b@.subrange(off as int, off + tgt));
        assert(rest.skip(src as int) =~= b@.skip(off + src));
        assert(out@ + projected_rows(b@.skip(off + src), src as nat, tgt as nat) =~= o0 + projected_rows(rest, src as nat, tgt as nat));
        off = off + src;
    }
    assert(projected_rows(b@.skip(off as int), src as nat, tgt as nat) =~= Seq::<u8>::empty());
    assert(out@ =~= out@ + Seq::<u8>::empty());
    out
}

/// Cut every whole-row raw array subrecord `sig` to `target_row_len` bytes
/// per row.
pub fn project_raw_array_rows(record: &mut Record, sig: [u8; 4], source_row_len: usize, target_row_len: usize)
    ensures
        final(record)@ == map_fields(
            old(record)@,
            |e: EntryView| rows_projected(e, sig, source_row_len as nat, target_row_len as nat),
        ),
{
    let ghost r0 = record@;
    if source_row_len <= target_row_len || target_row_len == 0 {
        assert(record@.fields =~= map_fields(r0, |e: EntryView| rows_projected(e, sig, source_row_len as nat, target_row_len as nat)).fields);
        return;
    }
    let n = record.fields.len();
    let mut i: usize = 0;
    while i < n
        invariant
            n == record.fields@.len(),
            r0.fields.len() == n,
            i <= n,
            0 < target_row_len < source_row_len,
            forall|j: int| 0 <= j < i ==> #[trigger] record@.fields[j] == rows_projected(r0.fields[j], sig, source_row_len as nat, target_row_len as nat),
            forall|j: int| i <= j < n ==> #[trigger] record@.fields[j] == r0.fields[j],
            record@.sig == r0.sig,
            record@.form_key == r0.form_key,
            record@.eid == r0.eid,
        decreases n - i,
    {
        assert(record@.fields[i as int] == record.fields@[i as int]@);
        if crate::model::same_code(record.fields[i].sig.0, sig) {
            let projected = match &record.fields[i].value {
                FieldValue::Bytes(b) => if b.len() > 0 && b.len() % source_row_len == 0 {
                    Some(project_bytes(b, source_row_len, target_row_len))
                } else {
                    None
                },
                _ => None,
            };
            if let Some(p) = projected {
                let ghost before = record@.fields;
                let e = FieldEntry { sig: SubrecordSig(sig), value: FieldValue::Bytes(p) };
                let ghost ev = e@;
                record.fields.set(i, e);
                assert(record@.fields =~= before.update(i as int, ev));
            }
        }
        i = i + 1;
    }
    assert(record@.fields =~= map_fields(r0, |e: EntryView| rows_projected(e, sig, source_row_len as nat, target_row_len as nat)).fields);
}

impl Fo76Fo4Hook {
    /// Cut FO76-only tails: workbench data to 2 bytes, movement speed data to
    /// 112 bytes, damage-type rows from 12 to 8 bytes.
    pub fn strip_fo76_only_subrecord_tails(record: &mut Record)
        ensures
            (old(record)@.sig == code('F', 'U', 'R', 'N') || old(record)@.sig == code('T', 'E', 'R', 'M'))
                ==> final(record)@ == map_fields(old(record)@, |e: EntryView| truncated_entry(e, code('W', 'B', 'D', 'T'), 2)),
            old(record)@.sig == code('M', 'O', 'V', 'T') ==> final(record)@ == map_fields(
                old(record)@,
                |e: EntryView| truncated_entry(e, code('S', 'P', 'E', 'D'), 112),
            ),
            (old(record)@.sig == code('A', 'R', 'M', 'O') || old(record)@.sig == code('W', 'E', 'A', 'P'))
                ==> final(record)@ == map_fields(old(record)@, |e: EntryView| rows_projected(e, code('D', 'A', 'M', 'A'), 12, 8)),
            !(old(record)@.sig == code('F', 'U', 'R', 'N') || old(record)@.sig == code('T', 'E', 'R', 'M')
                || old(record)@.sig == code('M', 'O', 'V', 'T') || old(record)@.sig == code('A', 'R', 'M', 'O')
                || old(record)@.sig == code('W', 'E', 'A', 'P')) ==> final(record)@ == old(record)@,
    {
        let s = record.sig.0;
        if sig_is(s, 'F', 'U', 'R', 'N') || sig_is(s, 'T', 'E', 'R', 'M') {
            truncate_raw_subrecord(record, tag('W', 'B', 'D', 'T'), 2);
        } else if sig_is(s, 'M', 'O', 'V', 'T') {
            truncate_raw_subrecord(record, tag('S', 'P', 'E', 'D'), 112);
        } else if sig_is(s, 'A', 'R', 'M', 'O') || sig_is(s, 'W', 'E', 'A', 'P') {
            project_raw_array_rows(record, tag('D', 'A', 'M', 'A'), 12, 8);
        }
    }
}

/// Whether a `KWDA` entry names the FO4 power-armor furniture keyword.
pub open spec fn power_armor_entry(interner: StringInterner, e: EntryView) -> bool {
    e.sig == code('K', 'W', 'D', 'A') && has_fo4_keyword(interner, e.value, 0x03430B)
}

/// Whether a furniture is FO4 power-armor furniture without a script.
pub open spec fn needs_power_armor_vmad(interner: StringInterner, r: RecordView) -> bool {
    &&& r.sig == code('F', 'U', 'R', 'N')
    &&& !has_sig(r.fields, code('V', 'M', 'A', 'D'))
    &&& exists|j: int| 0 <= j < r.fields.len() && #[trigger] power_armor_entry(interner, r.fields[j])
}

/// Whether a furniture is FO4 power-armor furniture without a script.
pub fn power_armor_furniture_needs_vmad(interner: &StringInterner, record: &Record) -> (r: bool)
    ensures
        r == needs_power_armor_vmad(*interner, record@),
{
    if !sig_is(record.sig.0, 'F', 'U', 'R', 'N') || crate::fields::any_sig(&record.fields, tag('V', 'M', 'A', 'D')) {
        return false;
    }
    let mut i: usize = 0;
    while i < record.fields.len()
        invariant
            i <= record.fields@.len(),
            record@.sig == code('F', 'U', 'R', 'N'),
            !has_sig(record@.fields, code('V', 'M', 'A', 'D')),
            forall|j: int| 0 <= j < i ==> !#[trigger] power_armor_entry(*interner, record@.fields[j]),
        decreases record.fields@.len() - i,
    {
        assert(record@.fields[i as int] == record.fields@[i as int]@);
        if sig_is(record.fields[i].sig.0, 'K', 'W', 'D', 'A') && fo4_keyword_value(&record.fields[i].value, interner, 0x03430B) {
            assert(power_armor_entry(*interner, record@.fields[i as int]));
            return true;
        }
        i = i + 1;
    }
    false
}

impl Fo76Fo4Hook {
    /// Give power-armor furniture without a script the battery-insert script
    /// `vmad` (the encoded FO4 script payload) as its first subrecord.
    pub fn ensure_power_armor_furniture_vmad(interner: &StringInterner, record: &mut Record, vmad: Vec<u8>)
        ensures
            needs_power_armor_vmad(*interner, old(record)@) ==> final(record)@ == (RecordView {
                fields: seq![EntryView { sig: code('V', 'M', 'A', 'D'), value: FieldView::Bytes(vmad@) }] + old(record)@.fields,
                ..old(record)@
            }),
            !needs_power_armor_vmad(*interner, old(record)@) ==> final(record)@ == old(record)@,
    {
        if !power_armor_furniture_needs_vmad(interner, record) {
            return;
        }
        let ghost before = record@.fields;
        let e = FieldEntry { sig: SubrecordSig(tag('V', 'M', 'A', 'D')), value: FieldValue::Bytes(vmad) };
        let ghost ev = e@;
        record.fields.insert(0, e);
        assert(record@.fields =~= seq![ev] + before);
    }
}


/// Whether entry `i` of a terminal is a body or item size.
pub open spec fn term_size_at(f: Seq<EntryView>, i: int) -> bool {
    f[i].sig == code('B', 'S', 'I', 'Z') || f[i].sig == code('I', 'S', 'I', 'Z')
}

/// Whether entry `i` of a terminal is a body or item text.
pub open spec fn term_text_at(f: Seq<EntryView>, i: int) -> bool {
    f[i].sig == code('B', 'T', 'X', 'T') || f[i].sig == code('I', 'T', 'X', 'T')
}

/// Whether entry `i` of a terminal is a condition.
pub open spec fn term_cond_at(f: Seq<EntryView>, i: int) -> bool {
    f[i].sig == code('C', 'T', 'D', 'A') || f[i].sig == code('C', 'T', 'D', 'T')
}

/// Whether entry `i` of a terminal is a condition parameter string.
pub open spec fn term_string_at(f: Seq<EntryView>, i: int) -> bool {
    f[i].sig == code('C', 'I', 'S', '1') || f[i].sig == code('C', 'I', 'S', '2')
}

/// Whether entry `i` is none of those.
pub open spec fn term_other_at(f: Seq<EntryView>, i: int) -> bool {
    !term_size_at(f, i) && !term_text_at(f, i) && !term_cond_at(f, i) && !term_string_at(f, i)
}

/// Whether a condition lies strictly between `a` and `b`.
pub open spec fn term_cond_between(f: Seq<EntryView>, a: int, b: int) -> bool {
    exists|c: int| a < c < b && #[trigger] term_cond_at(f, c)
}

/// Whether the text at `k` still anchors position `n`: no size or text
/// after it, and no other entry after a condition that followed it.
pub open spec fn term_anchor_holds(f: Seq<EntryView>, k: int, n: int) -> bool {
    forall|m: int| k < m < n ==> #[trigger] term_quiet_at(f, k, m)
}

/// Whether entry `m` leaves the text at `k` anchoring: it is no size or
/// text, and no other entry after a condition that followed `k`.
pub open spec fn term_quiet_at(f: Seq<EntryView>, k: int, m: int) -> bool {
    !term_size_at(f, m) && !term_text_at(f, m) && !(term_other_at(f, m) && term_cond_between(f, k, m))
}

proof fn lemma_anchor_extend(f: Seq<EntryView>, k: int, p: int)
    requires
        term_anchor_holds(f, k, p),
        term_quiet_at(f, k, p),
    ensures
        term_anchor_holds(f, k, p + 1),
{
    assert forall|m: int| k < m < p + 1 implies #[trigger] term_quiet_at(f, k, m) by {
        if m < p {
            assert(term_quiet_at(f, k, m));
        }
    }
}

proof fn lemma_anchor_shrink(f: Seq<EntryView>, k: int, a: int, b: int)
    requires
        a <= b,
        term_anchor_holds(f, k, b),
    ensures
        term_anchor_holds(f, k, a),
{
    assert forall|m: int| k < m < a implies #[trigger] term_quiet_at(f, k, m) by {
        assert(term_quiet_at(f, k, m));
    }
}

/// Whether a body or item text anchors position `n`.
pub open spec fn term_anchored(f: Seq<EntryView>, n: int) -> bool {
    exists|k: int| 0 <= k < n && #[trigger] term_text_at(f, k) && term_anchor_holds(f, k, n)
}

/// Whether a kept condition group is open at `n`: a condition kept under an
/// anchor, followed only by conditions and their strings.
pub open spec fn term_group_open(f: Seq<EntryView>, n: int) -> bool {
    exists|c: int|
        0 <= c < n && #[trigger] term_cond_at(f, c) && term_anchored(f, c) && forall|m: int|
            c < m < n ==> term_cond_at(f, m) || term_string_at(f, m)
}

/// Whether the strings at `n` follow a kept condition.
pub open spec fn term_strings_kept(f: Seq<EntryView>, n: int) -> bool {
    exists|j: int|
        0 <= j < n && #[trigger] term_cond_at(f, j) && term_anchored(f, j) && forall|m: int|
            j < m < n ==> term_string_at(f, m)
}

/// Whether a terminal keeps entry `i`: a condition when a text anchors
/// it, a parameter string when it follows a kept condition, and every
/// other entry.
pub open spec fn term_entry_kept(f: Seq<EntryView>, i: int) -> bool {
    if term_cond_at(f, i) {
        term_anchored(f, i)
    } else if term_string_at(f, i) {
        term_strings_kept(f, i)
    } else {
        true
    }
}

/// The first `n` entries of a terminal that it keeps, in order.
pub open spec fn term_kept_entries(f: Seq<EntryView>, n: int) -> Seq<EntryView>
    decreases n,
{
    if n <= 0 {
        Seq::empty()
    } else if term_entry_kept(f, n - 1) {
        term_kept_entries(f, n - 1).push(f[n - 1])
    } else {
        term_kept_entries(f, n - 1)
    }
}

#[verifier::rlimit(60)]
proof fn lemma_term_scan_direct(f: Seq<EntryView>, n: int)
    requires
        0 <= n <= f.len(),
    ensures
        term_scan(f.take(n)).out == term_kept_entries(f, n),
        term_scan(f.take(n)).anchor == term_anchored(f, n),
        term_scan(f.take(n)).started == term_group_open(f, n),
        term_scan(f.take(n)).keep == term_strings_kept(f, n),
    decreases n,
{
    if n == 0 {
        assert(f.take(0) =~= Seq::<EntryView>::empty());
    } else {
        let p = n - 1;
        lemma_term_scan_direct(f, p);
        assert(f.take(n).drop_last() =~= f.take(p));
        assert(f.take(n).last() == f[p]);
        let st = term_scan(f.take(p));
        let e = f[p];
        assert(term_scan(f.take(n)) == term_step(st, e));
        let a = term_anchored(f, p);
        if term_size_at(f, p) {
            assert(!term_anchored(f, n)) by {
                if term_anchored(f, n) {
                    let k = choose|k: int| 0 <= k < n && #[trigger] term_text_at(f, k) && term_anchor_holds(f, k, n);
                    assert(k != p);
                    assert(term_quiet_at(f, k, p));
                }
            }
            assert(!term_group_open(f, n));
            assert(!term_strings_kept(f, n));
        } else if term_text_at(f, p) {
            assert(term_anchor_holds(f, p, n));
            assert(term_text_at(f, p));
            assert(term_anchored(f, n));
            assert(!term_group_open(f, n));
            assert(!term_strings_kept(f, n));
        } else if term_cond_at(f, p) {
            assert(term_anchored(f, n) == a) by {
                if a {
                    let k = choose|k: int| 0 <= k < p && #[trigger] term_text_at(f, k) && term_anchor_holds(f, k, p);
                    assert(term_quiet_at(f, k, p));
                    lemma_anchor_extend(f, k, p);
                }
                if term_anchored(f, n) {
                    let k = choose|k: int| 0 <= k < n && #[trigger] term_text_at(f, k) && term_anchor_holds(f, k, n);
                    assert(k != p);
                    lemma_anchor_shrink(f, k, p, n);
                }
            }
            if a {
                assert(term_group_open(f, n));
                assert(term_strings_kept(f, n));
            } else {
                assert(term_group_open(f, n) == st.started) by {
                    if st.started {
                        let c = choose|c: int| 0 <= c < p && #[trigger] term_cond_at(f, c) && term_anchored(f, c) && forall|m: int|
                            c < m < p ==> term_cond_at(f, m) || term_string_at(f, m);
                        assert(term_group_open(f, n));
                    }
                    if term_group_open(f, n) {
                        let c = choose|c: int| 0 <= c < n && #[trigger] term_cond_at(f, c) && term_anchored(f, c) && forall|m: int|
                            c < m < n ==> term_cond_at(f, m) || term_string_at(f, m);
                        if c == p {
                            assert(false);
                        }
                        assert(term_group_open(f, p));
                    }
                }
                assert(!term_strings_kept(f, n)) by {
                    if term_strings_kept(f, n) {
                        let j = choose|j: int| 0 <= j < n && #[trigger] term_cond_at(f, j) && term_anchored(f, j) && forall|m: int|
                            j < m < n ==> term_string_at(f, m);
                        if j < p {
                            assert(term_string_at(f, p));
                        }
                    }
                }
            }
        } else if term_string_at(f, p) {
            assert(term_anchored(f, n) == a) by {
                if a {
                    let k = choose|k: int| 0 <= k < p && #[trigger] term_text_at(f, k) && term_anchor_holds(f, k, p);
                    assert(term_quiet_at(f, k, p));
                    lemma_anchor_extend(f, k, p);
                }
                if term_anchored(f, n) {
                    let k = choose|k: int| 0 <= k < n && #[trigger] term_text_at(f, k) && term_anchor_holds(f, k, n);
                    assert(k != p);
                    lemma_anchor_shrink(f, k, p, n);
                }
            }
            assert(term_group_open(f, n) == st.started) by {
                if st.started {
                    let c = choose|c: int| 0 <= c < p && #[trigger] term_cond_at(f, c) && term_anchored(f, c) && forall|m: int|
                        c < m < p ==> term_cond_at(f, m) || term_string_at(f, m);
                    assert(term_group_open(f, n));
                }
                if term_group_open(f, n) {
                    let c = choose|c: int| 0 <= c < n && #[trigger] term_cond_at(f, c) && term_anchored(f, c) && forall|m: int|
                        c < m < n ==> term_cond_at(f, m) || term_string_at(f, m);
                    assert(c != p);
                    assert(term_group_open(f, p));
                }
            }
            assert(term_strings_kept(f, n) == st.keep) by {
                if st.keep {
                    let j = choose|j: int| 0 <= j < p && #[trigger] term_cond_at(f, j) && term_anchored(f, j) && forall|m: int|
                        j < m < p ==> term_string_at(f, m);
                    assert(term_strings_kept(f, n));
                }
                if term_strings_kept(f, n) {
                    let j = choose|j: int| 0 <= j < n && #[trigger] term_cond_at(f, j) && term_anchored(f, j) && forall|m: int|
                        j < m < n ==> term_string_at(f, m);
                    assert(j != p);
                    assert(term_strings_kept(f, p));
                }
            }
        } else {
            assert(term_other_at(f, p));
            let g = st.started;
            assert(term_anchored(f, n) == (a && !g)) by {
                if term_anchored(f, n) {
                    let k = choose|k: int| 0 <= k < n && #[trigger] term_text_at(f, k) && term_anchor_holds(f, k, n);
                    assert(k != p);
                    lemma_anchor_shrink(f, k, p, n);
                    assert(term_quiet_at(f, k, p));
                    assert(!term_cond_between(f, k, p));
                    if g {
                        let c = choose|c: int| 0 <= c < p && #[trigger] term_cond_at(f, c) && term_anchored(f, c) && forall|m: int|
                            c < m < p ==> term_cond_at(f, m) || term_string_at(f, m);
                        if c < k {
                            assert(term_cond_at(f, k) || term_string_at(f, k));
                        }
                        assert(c != k);
                        assert(term_cond_between(f, k, p));
                    }
                }
                if a && !g {
                    let k = choose|k: int| 0 <= k < p && #[trigger] term_text_at(f, k) && term_anchor_holds(f, k, p);
                    assert(!term_cond_between(f, k, p)) by {
                        if term_cond_between(f, k, p) {
                            let c = choose|c: int| k < c < p && #[trigger] term_cond_at(f, c);
                            lemma_anchor_shrink(f, k, c, p);
                            assert(term_anchored(f, c));
                            assert forall|m: int| c < m < p implies term_cond_at(f, m) || term_string_at(f, m) by {
                                assert(term_quiet_at(f, k, m));
                                assert(term_cond_at(f, c));
                                assert(term_cond_between(f, k, m));
                            }
                            assert(term_group_open(f, p));
                        }
                    }
                    assert(term_quiet_at(f, k, p));
                    lemma_anchor_extend(f, k, p);
                }
            }
            assert(!term_group_open(f, n));
            assert(!term_strings_kept(f, n));
        }
        assert(term_scan(f.take(n)).out =~= term_kept_entries(f, n));
    }
}

/// A terminal keeps exactly the entries that `term_entry_kept` names, in
/// order: every entry that is no condition or parameter string, each
/// condition that a body or item text anchors (no size or text since it,
/// and no other entry after a condition since it), and the parameter
/// strings of each kept condition.
pub proof fn law_term_conditions_kept_exactly(f: Seq<EntryView>)
    ensures
        term_scan(f).out == term_kept_entries(f, f.len() as int),
{
    lemma_term_scan_direct(f, f.len() as int);
    assert(f.take(f.len() as int) =~= f);
}

} // verus!
