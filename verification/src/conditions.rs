//! Condition (`CTDA`/`CTDT`) handling: reading the function id, first
//! parameter and run-on target, remapping FO76-only functions to FO4
//! equivalents, and dropping conditions FO4 cannot load.
use vstd::prelude::*;
use crate::bytes::{le16, le32, read_u16_le, read_u32_le, splice, u16_bytes, write_u16_le};
use crate::effects::Fo76Fo4Hook;
use crate::model::{
    code, entries_view, same_code, sig_is, tag, EntryView, FieldEntry, FieldValue, FieldView,
    Record, RecordView, named_view,
};
use crate::names::{canonical_value, named_value_canonical};
use crate::retain::{kept, retain_entries};
use crate::text::{lit, StringInterner};
use crate::values::{field_value_to_u16, field_value_to_u32, set_u32_count, value_to_u16, value_to_u32, with_count};
use vstd::string::StringSliceAdditionalSpecFns;

verus! {

/// FO76-only condition function ids below FO4's highest known id.
pub open spec fn fo76_only_under_max(id: u16) -> bool {
    id == 2 || id == 3 || id == 105 || id == 371 || id == 579 || id == 596 || id == 692 || id
        == 730 || id == 737
}

/// Condition functions with no FO4 equivalent: above FO4's highest known id
/// (817) or FO76-only ids below it.
pub open spec fn incompatible_function(id: u16) -> bool {
    id > 817 || fo76_only_under_max(id)
}

/// Whether a condition function id has no FO4 equivalent.
pub fn is_fo4_incompatible_condition_function_id(function_id: u16) -> (r: bool)
    ensures
        r == incompatible_function(function_id),
{
    function_id > 817 || function_id == 2 || function_id == 3 || function_id == 105 || function_id
        == 371 || function_id == 579 || function_id == 596 || function_id == 692 || function_id
        == 730 || function_id == 737
}

/// The function id of a raw condition (bytes 8..10).
pub open spec fn raw_function_id(b: Seq<u8>) -> Option<u16> {
    if b.len() >= 10 { Some(le16(b, 8)) } else { None }
}

/// The first parameter of a raw condition (bytes 12..16).
pub open spec fn raw_parameter_1(b: Seq<u8>) -> Option<u32> {
    if b.len() >= 16 { Some(le32(b, 12)) } else { None }
}

/// The run-on target of a raw condition (bytes 20..24).
pub open spec fn raw_run_on(b: Seq<u8>) -> Option<u32> {
    if b.len() >= 24 { Some(le32(b, 20)) } else { None }
}

/// The comparison operator of a raw condition (the top three bits of byte 0).
pub open spec fn raw_operator(b: Seq<u8>) -> Option<u8> {
    if b.len() >= 1 { Some((b[0] / 32) as u8) } else { None }
}

impl Fo76Fo4Hook {
    /// Whether a condition function id has no FO4 equivalent.
    pub fn is_fo4_incompatible_condition_function_id(function_id: u16) -> (r: bool)
        ensures
            r == incompatible_function(function_id),
    {
        is_fo4_incompatible_condition_function_id(function_id)
    }

    /// The function id of a raw condition.
    pub fn raw_condition_function_id(bytes: &[u8]) -> (r: Option<u16>)
        ensures
            r == raw_function_id(bytes@),
    {
        if bytes.len() < 10 {
            return None;
        }
        Some(read_u16_le(bytes, 8))
    }

    /// Store a function id into a raw condition long enough to hold one.
    pub fn set_raw_condition_function_id(bytes: &mut Vec<u8>, function_id: u16)
        ensures
            old(bytes)@.len() >= 10 ==> final(bytes)@ == splice(old(bytes)@, 8, u16_bytes(function_id)),
            old(bytes)@.len() < 10 ==> final(bytes)@ == old(bytes)@,
    {
        if bytes.len() >= 10 {
            write_u16_le(bytes, 8, function_id);
        }
    }

    /// The first parameter of a raw condition.
    pub fn raw_condition_parameter_1(bytes: &[u8]) -> (r: Option<u32>)
        ensures
            r == raw_parameter_1(bytes@),
    {
        if bytes.len() < 16 {
            return None;
        }
        Some(read_u32_le(bytes, 12))
    }

    /// The run-on target of a raw condition.
    pub fn raw_condition_run_on(bytes: &[u8]) -> (r: Option<u32>)
        ensures
            r == raw_run_on(bytes@),
    {
        if bytes.len() < 24 {
            return None;
        }
        Some(read_u32_le(bytes, 20))
    }

    /// The comparison operator of a raw condition.
    pub fn raw_condition_operator(bytes: &[u8]) -> (r: Option<u8>)
        ensures
            r == raw_operator(bytes@),
    {
        if bytes.len() == 0 {
            return None;
        }
        Some(bytes[0] / 32)
    }
}

/// The function id of a condition value: raw bytes, or the struct member
/// named `Function` (matched canonically).
pub open spec fn condition_function(interner: StringInterner, v: FieldView) -> Option<u16> {
    match v {
        FieldView::Bytes(b) => raw_function_id(b),
        FieldView::Struct(fields) => match canonical_value(interner, fields, "Function".spec_bytes()) {
            Some(m) => value_to_u16(m),
            None => None,
        },
        _ => None,
    }
}

/// The first parameter of a condition value (`Parameter1` in a struct).
pub open spec fn condition_param_1(interner: StringInterner, v: FieldView) -> Option<u32> {
    match v {
        FieldView::Bytes(b) => raw_parameter_1(b),
        FieldView::Struct(fields) => match canonical_value(interner, fields, "Parameter1".spec_bytes()) {
            Some(m) => value_to_u32(m),
            None => None,
        },
        _ => None,
    }
}

/// The run-on target of a condition value (`RunOn` in a struct).
pub open spec fn condition_run_on_target(interner: StringInterner, v: FieldView) -> Option<u32> {
    match v {
        FieldView::Bytes(b) => raw_run_on(b),
        FieldView::Struct(fields) => match canonical_value(interner, fields, "RunOn".spec_bytes()) {
            Some(m) => value_to_u32(m),
            None => None,
        },
        _ => None,
    }
}

impl Fo76Fo4Hook {
    /// The function id of a condition value.
    pub fn condition_function_id(interner: &StringInterner, value: &FieldValue) -> (r: Option<u16>)
        ensures
            r == condition_function(*interner, value@),
    {
        match value {
            FieldValue::Bytes(bytes) => Self::raw_condition_function_id(bytes.as_slice()),
            FieldValue::Struct(fields) => {
                proof {
                    crate::model::lemma_struct_view(*value);
                }
                match named_value_canonical(fields, lit("Function"), interner) {
                    Some(m) => field_value_to_u16(m),
                    None => None,
                }
            },
            _ => None,
        }
    }

    /// The first parameter of a condition value.
    pub fn condition_parameter_1(interner: &StringInterner, value: &FieldValue) -> (r: Option<u32>)
        ensures
            r == condition_param_1(*interner, value@),
    {
        match value {
            FieldValue::Bytes(bytes) => Self::raw_condition_parameter_1(bytes.as_slice()),
            FieldValue::Struct(fields) => {
                proof {
                    crate::model::lemma_struct_view(*value);
                }
                match named_value_canonical(fields, lit("Parameter1"), interner) {
                    Some(m) => field_value_to_u32(m),
                    None => None,
                }
            },
            _ => None,
        }
    }

    /// The run-on target of a condition value.
    pub fn condition_run_on(interner: &StringInterner, value: &FieldValue) -> (r: Option<u32>)
        ensures
            r == condition_run_on_target(*interner, value@),
    {
        match value {
            FieldValue::Bytes(bytes) => Self::raw_condition_run_on(bytes.as_slice()),
            FieldValue::Struct(fields) => {
                proof {
                    crate::model::lemma_struct_view(*value);
                }
                match named_value_canonical(fields, lit("RunOn"), interner) {
                    Some(m) => field_value_to_u32(m),
                    None => None,
                }
            },
            _ => None,
        }
    }
}

} // verus!

verus! {

/// A condition entry code: `CTDA` or `CTDT`.
pub open spec fn is_condition_sig(s: [u8; 4]) -> bool {
    s == code('C', 'T', 'D', 'A') || s == code('C', 'T', 'D', 'T')
}

/// A condition parameter-string entry code: `CIS1` or `CIS2`.
pub open spec fn is_condition_string_sig(s: [u8; 4]) -> bool {
    s == code('C', 'I', 'S', '1') || s == code('C', 'I', 'S', '2')
}

pub(crate) fn condition_sig(s: [u8; 4]) -> (r: bool)
    ensures
        r == is_condition_sig(s),
{
    sig_is(s, 'C', 'T', 'D', 'A') || sig_is(s, 'C', 'T', 'D', 'T')
}

pub(crate) fn condition_string_sig(s: [u8; 4]) -> (r: bool)
    ensures
        r == is_condition_string_sig(s),
{
    sig_is(s, 'C', 'I', 'S', '1') || sig_is(s, 'C', 'I', 'S', '2')
}

/// FO76-only functions remapped to an FO4 equivalent: 276 to 300, 844 to
/// 359, 876 to 56.
pub open spec fn remapped_function(id: u16) -> u16 {
    if id == 276 {
        300
    } else if id == 844 {
        359
    } else if id == 876 {
        56
    } else {
        id
    }
}

/// A raw condition entry with its FO76-only function remapped.
pub open spec fn remapped_condition_entry(e: EntryView) -> EntryView {
    if is_condition_sig(e.sig) && e.value is Bytes && raw_function_id(e.value->Bytes_0) is Some {
        let b = e.value->Bytes_0;
        let id = raw_function_id(b)->0;
        if remapped_function(id) != id {
            EntryView { value: FieldView::Bytes(splice(b, 8, u16_bytes(remapped_function(id)))), ..e }
        } else {
            e
        }
    } else {
        e
    }
}

fn remap_condition_entry(e: FieldEntry) -> (r: FieldEntry)
    ensures
        r@ == remapped_condition_entry(e@),
{
    let mut e = e;
    if !condition_sig(e.sig.0) {
        return e;
    }
    if let FieldValue::Bytes(bytes) = &mut e.value {
        if let Some(id) = Fo76Fo4Hook::raw_condition_function_id(bytes.as_slice()) {
            if id == 276 {
                Fo76Fo4Hook::set_raw_condition_function_id(bytes, 300);
            } else if id == 844 {
                Fo76Fo4Hook::set_raw_condition_function_id(bytes, 359);
            } else if id == 876 {
                Fo76Fo4Hook::set_raw_condition_function_id(bytes, 56);
            }
        }
    }
    e
}

impl Fo76Fo4Hook {
    /// Remap FO76-only raw condition functions to their FO4 equivalents.
    pub fn normalize_fo76_raw_condition_functions(record: &mut Record)
        ensures
            final(record)@ == (RecordView {
                fields: old(record)@.fields.map_values(|e: EntryView| remapped_condition_entry(e)),
                ..old(record)@
            }),
    {
        crate::retain::map_entries(
            &mut record.fields,
            remap_condition_entry,
            Ghost(|e: EntryView| remapped_condition_entry(e)),
        );
    }
}

/// Functions whose first parameter is a quest.
pub open spec fn quest_parameter_function(id: u16) -> bool {
    id == 56 || id == 58 || id == 59 || id == 543 || id == 629 || id == 664
}

/// Record types whose conditions carry an owning quest context.
pub open spec fn quest_context(s: [u8; 4]) -> bool {
    ||| s == code('Q', 'U', 'S', 'T')
    ||| s == code('S', 'C', 'E', 'N')
    ||| s == code('P', 'A', 'C', 'K')
    ||| s == code('I', 'N', 'F', 'O')
    ||| s == code('D', 'I', 'A', 'L')
}

fn is_quest_context(s: [u8; 4]) -> (r: bool)
    ensures
        r == quest_context(s),
{
    sig_is(s, 'Q', 'U', 'S', 'T') || sig_is(s, 'S', 'C', 'E', 'N') || sig_is(s, 'P', 'A', 'C', 'K')
        || sig_is(s, 'I', 'N', 'F', 'O') || sig_is(s, 'D', 'I', 'A', 'L')
}

/// Whether FO4 cannot load a condition of a record of type `rsig`: its
/// function is incompatible; it is the function-info function (67) with a
/// parameter; a quest-parameter function without a quest; the alias function
/// (566) or a quest-alias run-on target (5) outside a quest context; or the
/// COBJ exterior-cell function (310) with a parameter.
pub open spec fn drops_condition(interner: StringInterner, rsig: [u8; 4], v: FieldView) -> bool {
    match condition_function(interner, v) {
        None => false,
        Some(f) => {
            let p1 = match condition_param_1(interner, v) {
                Some(p) => p,
                None => 0u32,
            };
            let run_on = match condition_run_on_target(interner, v) {
                Some(p) => p,
                None => 0u32,
            };
            ||| incompatible_function(f)
            ||| (f == 67 && p1 != 0)
            ||| (p1 == 0 && quest_parameter_function(f))
            ||| (f == 566 && !quest_context(rsig))
            ||| (run_on == 5 && !quest_context(rsig))
            ||| (rsig == code('C', 'O', 'B', 'J') && f == 310 && p1 != 0)
        },
    }
}

fn condition_is_dropped(interner: &StringInterner, rsig: [u8; 4], value: &FieldValue) -> (r: bool)
    ensures
        r == drops_condition(*interner, rsig, value@),
{
    let Some(f) = Fo76Fo4Hook::condition_function_id(interner, value) else {
        return false;
    };
    if is_fo4_incompatible_condition_function_id(f) {
        return true;
    }
    let p1 = match Fo76Fo4Hook::condition_parameter_1(interner, value) {
        Some(p) => p,
        None => 0,
    };
    if f == 67 && p1 != 0 {
        return true;
    }
    if p1 == 0 && (f == 56 || f == 58 || f == 59 || f == 543 || f == 629 || f == 664) {
        return true;
    }
    let in_quest_context = is_quest_context(rsig);
    if f == 566 && !in_quest_context {
        return true;
    }
    let run_on = match Fo76Fo4Hook::condition_run_on(interner, value) {
        Some(p) => p,
        None => 0,
    };
    if run_on == 5 && !in_quest_context {
        return true;
    }
    sig_is(rsig, 'C', 'O', 'B', 'J') && f == 310 && p1 != 0
}

/// Whether the parameter strings following the end of `prefix` belong to a
/// dropped condition.
pub open spec fn dropping_after(interner: StringInterner, rsig: [u8; 4], prefix: Seq<EntryView>) -> bool
    decreases prefix.len(),
{
    if prefix.len() == 0 {
        false
    } else if is_condition_sig(prefix.last().sig) {
        drops_condition(interner, rsig, prefix.last().value)
    } else if is_condition_string_sig(prefix.last().sig) {
        dropping_after(interner, rsig, prefix.drop_last())
    } else {
        false
    }
}

/// Whether entry `i` survives: conditions FO4 can load, parameter strings of
/// surviving conditions, and every other entry.
pub open spec fn condition_keep(interner: StringInterner, rsig: [u8; 4], s: Seq<EntryView>, i: int) -> bool {
    if is_condition_sig(s[i].sig) {
        !drops_condition(interner, rsig, s[i].value)
    } else if is_condition_string_sig(s[i].sig) {
        !dropping_after(interner, rsig, s.take(i))
    } else {
        true
    }
}

/// The survival flag of every entry.
pub open spec fn condition_mask(interner: StringInterner, rsig: [u8; 4], s: Seq<EntryView>) -> Seq<bool> {
    Seq::new(s.len(), |i: int| condition_keep(interner, rsig, s, i))
}

/// The number of condition entries.
pub open spec fn condition_count(s: Seq<EntryView>) -> nat {
    s.filter(|e: EntryView| is_condition_sig(e.sig)).len()
}

/// A `CITC` entry set to `count`; other entries unchanged.
pub open spec fn citc_with_count(e: EntryView, count: u32) -> EntryView {
    if e.sig == code('C', 'I', 'T', 'C') {
        EntryView { value: with_count(e.value, count), ..e }
    } else {
        e
    }
}

/// Every `CITC` set to the number of condition entries.
pub open spec fn synced_condition_count(s: Seq<EntryView>) -> Seq<EntryView> {
    s.map_values(|e: EntryView| citc_with_count(e, condition_count(s) as u32))
}

/// A record with its FO76-only condition functions remapped, then the
/// conditions FO4 cannot load dropped with their parameter strings, then
/// (when it carries a `CITC`) its condition count resynced.
pub open spec fn without_incompatible_conditions(interner: StringInterner, r: RecordView) -> RecordView {
    let n = r.fields.map_values(|e: EntryView| remapped_condition_entry(e));
    let k = kept(n, condition_mask(interner, r.sig, n));
    RecordView {
        fields: if crate::fields::has_sig(k, code('C', 'I', 'T', 'C')) {
            synced_condition_count(k)
        } else {
            k
        },
        ..r
    }
}

fn is_condition_entry(e: &FieldEntry) -> (b: bool)
    ensures
        b == is_condition_sig(e.sig.0),
{
    condition_sig(e.sig.0)
}

impl Record {
    /// Set every `CITC` to the number of condition entries.
    pub fn sync_condition_count(&mut self)
        ensures
            final(self)@ == (RecordView { fields: synced_condition_count(old(self)@.fields), ..old(self)@ }),
    {
        let count = crate::retain::count_where(
            &self.fields,
            is_condition_entry,
            Ghost(|e: EntryView| is_condition_sig(e.sig)),
        );
        let ghost s = old(self)@.fields;
        let c = count as u32;
        let mut i: usize = 0;
        while i < self.fields.len()
            invariant
                i <= self.fields@.len(),
                self.fields@.len() == s.len(),
                c == condition_count(s) as u32,
                self.sig == old(self).sig,
                self.form_key == old(self).form_key,
                self.eid == old(self).eid,
                forall|j: int| 0 <= j < i ==> #[trigger] self.fields@[j]@ == citc_with_count(s[j], c),
                forall|j: int| i <= j < s.len() ==> #[trigger] self.fields@[j]@ == s[j],
            decreases self.fields@.len() - i,
        {
            let ghost pre = self.fields@;
            assert(self.fields@[i as int]@ == s[i as int]);
            if sig_is(self.fields[i].sig.0, 'C', 'I', 'T', 'C') {
                let mut e = self.fields.remove(i);
                set_u32_count(&mut e.value, c);
                self.fields.insert(i, e);
                assert(self.fields@ == pre.update(i as int, e));
                assert(self.fields@[i as int]@ == citc_with_count(s[i as int], c));
            } else {
                assert(citc_with_count(s[i as int], c) == s[i as int]);
            }
            assert forall|j: int| 0 <= j < i + 1 implies #[trigger] self.fields@[j]@ == citc_with_count(s[j], c) by {
                if j < i {
                    assert(self.fields@[j] == pre[j]);
                }
            }
            i = i + 1;
        }
        assert(self@.fields =~= synced_condition_count(s));
    }
}

impl Fo76Fo4Hook {
    /// Drop conditions FO4 cannot load (after remapping FO76-only
    /// functions), with their parameter strings, and resync the condition
    /// count.
    pub fn drop_fo4_incompatible_conditions(interner: &StringInterner, record: &mut Record)
        ensures
            final(record)@ == without_incompatible_conditions(*interner, old(record)@),
    {
        Self::normalize_fo76_raw_condition_functions(record);
        let rsig = record.sig.0;
        let ghost n = record@.fields;
        let mut keep: Vec<bool> = Vec::new();
        let mut dropping = false;
        let mut i: usize = 0;
        while i < record.fields.len()
            invariant
                i <= record.fields@.len(),
                n == entries_view(record.fields@),
                rsig == record.sig.0,
                keep@.len() == i,
                dropping == dropping_after(*interner, rsig, n.take(i as int)),
                forall|j: int| 0 <= j < i ==> keep@[j] == condition_keep(*interner, rsig, n, j),
            decreases record.fields@.len() - i,
        {
            let s = record.fields[i].sig.0;
            proof {
                assert(n.take(i + 1).drop_last() =~= n.take(i as int));
                assert(n.take(i + 1).last() == n[i as int]);
                assert(n[i as int] == record.fields@[i as int]@);
            }
            if condition_sig(s) {
                let drop = condition_is_dropped(interner, rsig, &record.fields[i].value);
                dropping = drop;
                keep.push(!drop);
            } else if condition_string_sig(s) {
                keep.push(!dropping);
            } else {
                dropping = false;
                keep.push(true);
            }
            i = i + 1;
        }
        assert(keep@ =~= condition_mask(*interner, rsig, n));
        retain_entries(&mut record.fields, &keep);
        if crate::fields::any_sig(&record.fields, tag('C', 'I', 'T', 'C')) {
            record.sync_condition_count();
        }
    }
}


/// The FO76-only condition functions with an FO4 equivalent are rewritten
/// to it (276 to 300, 844 to 359, 876 to 56); every other id is kept.
pub proof fn law_remapped_functions(id: u16)
    ensures
        id == 276 ==> remapped_function(id) == 300,
        id == 844 ==> remapped_function(id) == 359,
        id == 876 ==> remapped_function(id) == 56,
        id != 276 && id != 844 && id != 876 ==> remapped_function(id) == id,
{
}

} // verus!
