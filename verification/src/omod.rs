//! Object mods and object templates: property rows FO4 does not define for
//! the modded form type, material-swap function types, FO76-only form types
//! and target keywords, and models FO4 must not duplicate.
use vstd::prelude::*;
use crate::text::{intern_all, intern_each, strs_bytes};
use vstd::string::StringSliceAdditionalSpecFns;
use vstd::pervasive::VecAdditionalExecFns;
use crate::bytes::{le16, le32, read_u16_le, read_u32_le, read_u32_le_at, set_u32_le_at, splice, u32_bytes};
use crate::effects::Fo76Fo4Hook;
use crate::fields::{push_entry, append_entries};
use crate::model::{code, entries_view, lemma_items_view, lemma_list_view, lemma_struct_view, named_view, sig_is, tag, values_view,
    EntryView, FieldEntry, FieldValue, FieldView, FormKey, Record, RecordView, SubrecordSig, Sym};
use crate::names::{canonical_index, canonical_value, field_index_canonical, named_value_canonical};
use crate::text::{bytes_eq_ignore_case, eq_ignore_case, handle_of, lemma_handle_of, lit, name_handle, trim_nul, trim_nul_suffix, utf8_valid, StringInterner};
use crate::retain::{lemma_kept_filter, retain_entries};
use crate::values::{field_value_to_u16, field_value_to_u32, set_u32_count, value_to_u16, value_to_u32, with_count};

verus! {

/// The form type an object mod or template modifies.
#[derive(Clone, Copy, PartialEq, Eq, Structural)]
pub enum ObjectModPropertyTarget {
    Weapon,
    Armor,
    Actor,
    Object,
}

/// Whether FO4 defines property `id` for the target form type.
pub open spec fn valid_property(target: ObjectModPropertyTarget, id: u16) -> bool {
    match target {
        ObjectModPropertyTarget::Weapon => id <= 94,
        ObjectModPropertyTarget::Armor => id <= 13,
        ObjectModPropertyTarget::Actor => id <= 5,
        ObjectModPropertyTarget::Object => false,
    }
}

/// Whether FO4 defines property `id` for the target form type.
pub fn valid_object_mod_property(target: ObjectModPropertyTarget, property_id: u16) -> (r: bool)
    ensures
        r == valid_property(target, property_id),
{
    match target {
        ObjectModPropertyTarget::Weapon => property_id <= 94,
        ObjectModPropertyTarget::Armor => property_id <= 13,
        ObjectModPropertyTarget::Actor => property_id <= 5,
        ObjectModPropertyTarget::Object => false,
    }
}

/// The material-swap property of a target form type.
pub open spec fn material_swap_id(target: ObjectModPropertyTarget) -> Option<u16> {
    match target {
        ObjectModPropertyTarget::Weapon => Some(89),
        ObjectModPropertyTarget::Armor => Some(13),
        ObjectModPropertyTarget::Actor => Some(5),
        ObjectModPropertyTarget::Object => None,
    }
}

/// The material-swap property of a target form type.
pub fn material_swap_property_id(target: ObjectModPropertyTarget) -> (r: Option<u16>)
    ensures
        r == material_swap_id(target),
{
    match target {
        ObjectModPropertyTarget::Weapon => Some(89),
        ObjectModPropertyTarget::Armor => Some(13),
        ObjectModPropertyTarget::Actor => Some(5),
        ObjectModPropertyTarget::Object => None,
    }
}

/// Whether property rows of `count` 24-byte rows from `start` include one
/// for property `id` (bytes 8..10 of a row); rows past the data never match.
pub open spec fn rows_have_id(b: Seq<u8>, start: int, count: int, id: u16) -> bool
    decreases count,
{
    if count <= 0 || start + 10 > b.len() {
        false
    } else {
        le16(b, start + 8) == id || rows_have_id(b, start + 24, count - 1, id)
    }
}

/// Where the property rows of raw object-mod data start: after a 20-byte
/// header, the attach-slot count and slots, a four-byte item and the
/// seven-byte includes; `None` when shorter than 24 bytes or the offset does
/// not fit.
pub open spec fn omod_properties_start(b: Seq<u8>) -> Option<int> {
    if b.len() < 24 {
        None
    } else {
        let start = 28 + le32(b, 20) * 4 + le32(b, 0) * 7;
        if start <= usize::MAX { Some(start) } else { None }
    }
}

/// Whether raw object-mod data has a row for property `id`.
pub open spec fn raw_has_property(b: Seq<u8>, id: u16) -> bool {
    match omod_properties_start(b) {
        Some(start) => rows_have_id(b, start, le32(b, 4) as int, id),
        None => false,
    }
}

fn omod_properties_start_exec(bytes: &[u8]) -> (r: Option<usize>)
    ensures
        r matches Some(s) ==> omod_properties_start(bytes@) == Some(s as int),
        r is None ==> omod_properties_start(bytes@) is None,
{
    if bytes.len() < 24 {
        return None;
    }
    let slots = read_u32_le(bytes, 20) as u64;
    let includes = read_u32_le(bytes, 0) as u64;
    let start: u64 = 28 + slots * 4 + includes * 7;
    if start <= usize::MAX as u64 {
        Some(start as usize)
    } else {
        None
    }
}

/// Whether raw object-mod data has a row for property `property_id`.
pub fn raw_omod_data_has_property_id(bytes: &[u8], property_id: u16) -> (r: bool)
    ensures
        r == raw_has_property(bytes@, property_id),
{
    let Some(start) = omod_properties_start_exec(bytes) else {
        return false;
    };
    let count = read_u32_le(bytes, 4);
    let n = bytes.len();
    let mut row = start;
    let mut left: u32 = count;
    while left > 0 && row <= n && n - row >= 10
        invariant
            n == bytes@.len(),
            omod_properties_start(bytes@) == Some(start as int),
            count == le32(bytes@, 4),
            rows_have_id(bytes@, start as int, count as int, property_id) == rows_have_id(bytes@, row as int, left as int, property_id),
        decreases left,
    {
        if read_u16_le(bytes, row + 8) == property_id {
            return true;
        }
        if n - row < 24 {
            proof {
                assert(!rows_have_id(bytes@, row + 24, left - 1, property_id));
            }
            return false;
        }
        row = row + 24;
        left = left - 1;
    }
    false
}

/// Rows of `count` 24-byte property rows from `start` with the function type
/// (byte 4) of every row for property `id` set to `ft`.
pub open spec fn rows_with_function_type(b: Seq<u8>, start: int, count: int, id: u16, ft: u8) -> Seq<u8>
    decreases count,
{
    if count <= 0 {
        b
    } else {
        let b1 = if 0 <= start + 4 < b.len() && le16(b, start + 8) == id { b.update(start + 4, ft) } else { b };
        rows_with_function_type(b1, start + 24, count - 1, id, ft)
    }
}

/// How many of those rows change.
pub open spec fn rows_changed(b: Seq<u8>, start: int, count: int, id: u16, ft: u8) -> nat
    decreases count,
{
    if count <= 0 {
        0
    } else {
        let hit = 0 <= start + 4 < b.len() && le16(b, start + 8) == id && b[start + 4] != ft;
        let b1 = if 0 <= start + 4 < b.len() && le16(b, start + 8) == id { b.update(start + 4, ft) } else { b };
        (if hit { 1nat } else { 0nat }) + rows_changed(b1, start + 24, count - 1, id, ft)
    }
}

/// Raw object-mod data with every row for property `id` given function type
/// `ft`, and how many rows changed; unchanged (0) unless every announced row
/// lies within the data.
pub open spec fn raw_function_type_set(b: Seq<u8>, id: u16, ft: u8) -> (Seq<u8>, nat) {
    match omod_properties_start(b) {
        Some(start) => {
            let count = le32(b, 4) as int;
            if start + count * 24 <= b.len() {
                (rows_with_function_type(b, start, count, id, ft), rows_changed(b, start, count, id, ft))
            } else {
                (b, 0)
            }
        },
        None => (b, 0),
    }
}

proof fn lemma_rows_ft_len(b: Seq<u8>, start: int, count: int, id: u16, ft: u8)
    ensures
        rows_with_function_type(b, start, count, id, ft).len() == b.len(),
        rows_changed(b, start, count, id, ft) <= if count <= 0 { 0 } else { count },
    decreases count,
{
    if count > 0 {
        let b1 = if 0 <= start + 4 < b.len() && le16(b, start + 8) == id { b.update(start + 4, ft) } else { b };
        lemma_rows_ft_len(b1, start + 24, count - 1, id, ft);
    }
}

/// Give every raw property row for `property_id` function type
/// `function_type`; returns how many rows changed.
pub fn set_raw_omod_data_property_function_type(bytes: &mut Vec<u8>, property_id: u16, function_type: u8) -> (r: u32)
    ensures
        final(bytes)@ == raw_function_type_set(old(bytes)@, property_id, function_type).0,
        r == raw_function_type_set(old(bytes)@, property_id, function_type).1,
{
    let Some(start) = omod_properties_start_exec(bytes.as_slice()) else {
        return 0;
    };
    let count = read_u32_le(bytes.as_slice(), 4);
    let n = bytes.len();
    let end: u64 = start as u64 + count as u64 * 24;
    if end > n as u64 {
        return 0;
    }
    let ghost b0 = bytes@;
    let mut row = start;
    let mut left: u32 = count;
    let mut changed: u32 = 0;
    proof {
        lemma_rows_ft_len(b0, start as int, count as int, property_id, function_type);
    }
    while left > 0
        invariant
            n == bytes@.len(),
            row + left * 24 <= n,
            changed + left <= count,
            rows_with_function_type(bytes@, row as int, left as int, property_id, function_type)
                == rows_with_function_type(b0, start as int, count as int, property_id, function_type),
            changed + rows_changed(bytes@, row as int, left as int, property_id, function_type)
                == rows_changed(b0, start as int, count as int, property_id, function_type),
        decreases left,
    {
        proof {
            lemma_rows_ft_len(bytes@, row + 24, left - 1, property_id, function_type);
        }
        if read_u16_le(bytes.as_slice(), row + 8) == property_id {
            if bytes[row + 4] != function_type {
                changed = changed + 1;
            }
            bytes.set(row + 4, function_type);
        }
        row = row + 24;
        left = left - 1;
    }
    changed
}

/// `count` 24-byte rows from `start` whose property FO4 defines for the
/// target.
pub open spec fn kept_rows(b: Seq<u8>, start: int, count: int, target: ObjectModPropertyTarget) -> Seq<u8>
    decreases count,
{
    if count <= 0 {
        Seq::empty()
    } else {
        let row = b.subrange(start, start + 24);
        (if valid_property(target, le16(b, start + 8)) { row } else { Seq::empty() }) + kept_rows(
            b,
            start + 24,
            count - 1,
            target,
        )
    }
}

/// How many of those rows are kept.
pub open spec fn kept_row_count(b: Seq<u8>, start: int, count: int, target: ObjectModPropertyTarget) -> nat
    decreases count,
{
    if count <= 0 {
        0
    } else {
        (if valid_property(target, le16(b, start + 8)) { 1nat } else { 0nat }) + kept_row_count(
            b,
            start + 24,
            count - 1,
            target,
        )
    }
}

/// Property rows FO4 does not define for the target removed from raw data,
/// the count at `count_offset` updated; gives the new data and how many rows
/// went. Unchanged (0) when the rows run past the data or all are kept.
pub open spec fn raw_rows_stripped(b: Seq<u8>, count_offset: int, start: int, count: int, target: ObjectModPropertyTarget) -> (Seq<u8>, nat) {
    let end = start + count * 24;
    if end > usize::MAX || end > b.len() {
        (b, 0)
    } else {
        let kept = kept_row_count(b, start, count, target);
        if kept == count {
            (b, 0)
        } else {
            let body = b.take(start) + kept_rows(b, start, count, target) + b.skip(end);
            (
                if count_offset + 4 <= body.len() { splice(body, count_offset, u32_bytes(kept as u32)) } else { body },
                (count - kept) as nat,
            )
        }
    }
}

proof fn lemma_kept_row_count_bound(b: Seq<u8>, start: int, count: int, target: ObjectModPropertyTarget)
    ensures
        kept_row_count(b, start, count, target) <= if count <= 0 { 0 } else { count },
    decreases count,
{
    if count > 0 {
        lemma_kept_row_count_bound(b, start + 24, count - 1, target);
    }
}

/// Remove the raw property rows FO4 does not define for the target; returns
/// how many went.
pub fn strip_raw_object_mod_property_rows(
    bytes: &mut Vec<u8>,
    property_count_offset: usize,
    properties_start: usize,
    property_count: usize,
    target: ObjectModPropertyTarget,
) -> (r: u32)
    requires
        property_count <= u32::MAX,
        property_count_offset + 4 <= usize::MAX,
    ensures
        final(bytes)@ == raw_rows_stripped(old(bytes)@, property_count_offset as int, properties_start as int, property_count as int, target).0,
        r == raw_rows_stripped(old(bytes)@, property_count_offset as int, properties_start as int, property_count as int, target).1,
{
    let ghost b0 = bytes@;
    let n = bytes.len();
    let span: u64 = property_count as u64 * 24;
    if span > usize::MAX as u64 {
        return 0;
    }
    let span = span as usize;
    if properties_start > usize::MAX - span {
        return 0;
    }
    let end = properties_start + span;
    if end > n {
        return 0;
    }
    let mut kept: Vec<u8> = Vec::new();
    let mut kept_count: u32 = 0;
    let mut row = properties_start;
    let mut left = property_count;
    proof {
        lemma_kept_row_count_bound(b0, properties_start as int, property_count as int, target);
    }
    assert(kept@ =~= Seq::<u8>::empty());
    while left > 0
        invariant
            bytes@ == b0,
            n == b0.len(),
            row + left * 24 == end,
            end <= n,
            kept_count + left <= property_count,
            property_count <= u32::MAX,
            kept@ + kept_rows(b0, row as int, left as int, target) == kept_rows(b0, properties_start as int, property_count as int, target),
            kept_count + kept_row_count(b0, row as int, left as int, target) == kept_row_count(b0, properties_start as int, property_count as int, target),
        decreases left,
    {
        proof {
            lemma_kept_row_count_bound(b0, row + 24, left - 1, target);
        }
        let id = read_u16_le(bytes.as_slice(), row + 8);
        let ghost k0 = kept@;
        if valid_object_mod_property(target, id) {
            let mut i: usize = row;
            while i < row + 24
                invariant
                    bytes@ == b0,
                    n == b0.len(),
                    row + 24 <= n,
                    row <= i <= row + 24,
                    kept@ == k0 + b0.subrange(row as int, i as int),
                decreases row + 24 - i,
            {
                kept.push(bytes[i]);
                i = i + 1;
                assert(kept@ =~= k0 + b0.subrange(row as int, i as int));
            }
            kept_count = kept_count + 1;
            assert(kept@ + kept_rows(b0, row + 24, left - 1, target) =~= k0 + kept_rows(b0, row as int, left as int, target));
        } else {
            assert(kept@ + kept_rows(b0, row + 24, left - 1, target) =~= k0 + kept_rows(b0, row as int, left as int, target));
        }
        row = row + 24;
        left = left - 1;
    }
    assert(kept@ =~= kept_rows(b0, properties_start as int, property_count as int, target));
    if kept_count as usize == property_count {
        return 0;
    }
    let mut suffix = bytes.split_off(end);
    bytes.truncate(properties_start);
    bytes.append(&mut kept);
    bytes.append(&mut suffix);
    assert(bytes@ =~= b0.take(properties_start as int) + kept_rows(b0, properties_start as int, property_count as int, target) + b0.skip(end as int));
    set_u32_le_at(bytes, property_count_offset, kept_count);
    (property_count as u32) - kept_count
}

/// Where the property rows of a raw object template start: after a 16-byte
/// header, its keyword ids (count at byte 15), two bytes and the seven-byte
/// includes; `None` when shorter than 18 bytes or the offset does not fit.
pub open spec fn template_properties_start(b: Seq<u8>) -> Option<int> {
    if b.len() < 18 {
        None
    } else {
        let start = 18 + b[15] * 4 + le32(b, 0) * 7;
        if start <= usize::MAX { Some(start) } else { None }
    }
}

/// Raw object-template data with the properties FO4 does not define for the
/// target removed.
pub open spec fn raw_template_stripped(b: Seq<u8>, target: ObjectModPropertyTarget) -> (Seq<u8>, nat) {
    match template_properties_start(b) {
        Some(start) => raw_rows_stripped(b, 4, start, le32(b, 4) as int, target),
        None => (b, 0),
    }
}

/// Raw object-mod data with the properties FO4 does not define for the
/// target removed.
pub open spec fn raw_omod_stripped(b: Seq<u8>, target: ObjectModPropertyTarget) -> (Seq<u8>, nat) {
    match omod_properties_start(b) {
        Some(start) => raw_rows_stripped(b, 4, start, le32(b, 4) as int, target),
        None => (b, 0),
    }
}

/// Remove the properties FO4 does not define for the target from a raw
/// object template; returns how many went.
pub fn strip_raw_object_template_property_rows(bytes: &mut Vec<u8>, target: ObjectModPropertyTarget) -> (r: u32)
    ensures
        final(bytes)@ == raw_template_stripped(old(bytes)@, target).0,
        r == raw_template_stripped(old(bytes)@, target).1,
{
    if bytes.len() < 18 {
        return 0;
    }
    let includes = read_u32_le(bytes.as_slice(), 0) as u64;
    let count = read_u32_le(bytes.as_slice(), 4);
    let keywords = bytes[15] as u64;
    let start: u64 = 18 + keywords * 4 + includes * 7;
    if start > usize::MAX as u64 {
        return 0;
    }
    strip_raw_object_mod_property_rows(bytes, 4, start as usize, count as usize, target)
}

/// Remove the properties FO4 does not define for the target from raw
/// object-mod data; returns how many went.
pub fn strip_raw_omod_data_property_rows(bytes: &mut Vec<u8>, target: ObjectModPropertyTarget) -> (r: u32)
    ensures
        final(bytes)@ == raw_omod_stripped(old(bytes)@, target).0,
        r == raw_omod_stripped(old(bytes)@, target).1,
{
    let Some(start) = omod_properties_start_exec(bytes.as_slice()) else {
        return 0;
    };
    let count = read_u32_le(bytes.as_slice(), 4);
    strip_raw_object_mod_property_rows(bytes, 4, start, count as usize, target)
}

} // verus!

verus! {

/// The property id of a property row: the member named `property` (matched
/// canonically) read as a `u16`, or bytes 8..10 of a raw row of at least ten
/// bytes.
pub open spec fn row_property(interner: StringInterner, v: FieldView) -> Option<u16> {
    match v {
        FieldView::Struct(m) => match canonical_value(interner, m, "property".spec_bytes()) {
            Some(x) => value_to_u16(x),
            None => None,
        },
        FieldView::Bytes(b) => if b.len() >= 10 { Some(le16(b, 8)) } else { None },
        _ => None,
    }
}

/// Whether FO4 defines the property of a row for the target form type.
pub open spec fn keeps_row(interner: StringInterner, target: ObjectModPropertyTarget, v: FieldView) -> bool {
    row_property(interner, v) matches Some(id) && valid_property(target, id)
}

/// The property rows FO4 defines for the target, in their order.
pub open spec fn kept_properties(interner: StringInterner, s: Seq<FieldView>, target: ObjectModPropertyTarget) -> Seq<FieldView>
    decreases s.len(),
{
    if s.len() == 0 {
        s
    } else {
        let rest = kept_properties(interner, s.drop_last(), target);
        if keeps_row(interner, target, s.last()) { rest.push(s.last()) } else { rest }
    }
}

proof fn lemma_kept_properties_len(interner: StringInterner, s: Seq<FieldView>, target: ObjectModPropertyTarget)
    ensures
        kept_properties(interner, s, target).len() <= s.len(),
    decreases s.len(),
{
    if s.len() > 0 {
        lemma_kept_properties_len(interner, s.drop_last(), target);
    }
}

/// The property id of a property row.
pub fn property_id_from_row(value: &FieldValue, interner: &StringInterner) -> (r: Option<u16>)
    ensures
        r == row_property(*interner, value@),
{
    match value {
        FieldValue::Struct(fields) => {
            proof {
                lemma_struct_view(*value);
            }
            match named_value_canonical(fields, lit("property"), interner) {
                Some(m) => field_value_to_u16(m),
                None => None,
            }
        },
        FieldValue::Bytes(bytes) => if bytes.len() >= 10 {
            Some(read_u16_le(bytes.as_slice(), 8))
        } else {
            None
        },
        _ => None,
    }
}

/// A property list with the rows FO4 does not define for the target removed,
/// with how many went (as a `u32`) and how many stayed; `None` when the value
/// is not a list.
pub open spec fn properties_stripped(interner: StringInterner, v: FieldView, target: ObjectModPropertyTarget) -> Option<(FieldView, u32, nat)> {
    match v {
        FieldView::List(items) => {
            let kept = kept_properties(interner, items, target);
            Some((FieldView::List(kept), (items.len() - kept.len()) as u32, kept.len()))
        },
        _ => None,
    }
}

/// Remove the property rows FO4 does not define for the target from a
/// property list; gives how many went and how many stayed, or `None` when
/// the value is not a list.
pub fn strip_properties_value(interner: &StringInterner, value: &mut FieldValue, target: ObjectModPropertyTarget) -> (r: Option<(u32, usize)>)
    ensures
        properties_stripped(*interner, old(value)@, target) is None ==> r is None && final(value)@ == old(value)@,
        properties_stripped(*interner, old(value)@, target) matches Some((nv, removed, kept)) ==> r matches Some((rr, k)) && rr == removed && k == kept && final(value)@ == nv,
{
    match value {
        FieldValue::List(_) => {},
        _ => {
            return None;
        },
    }
    let mut taken = FieldValue::Null;
    core::mem::swap(value, &mut taken);
    proof {
        lemma_list_view(taken);
    }
    let items = match taken {
        FieldValue::List(items) => items,
        _ => Vec::new(),
    };
    let ghost s = values_view(items@);
    let mut out: Vec<FieldValue> = Vec::new();
    let mut i: usize = 0;
    while i < items.len()
        invariant
            i <= items.len(),
            s == values_view(items@),
            values_view(out@) == kept_properties(*interner, s.take(i as int), target),
        decreases items.len() - i,
    {
        let keep = match property_id_from_row(&items[i], interner) {
            Some(id) => valid_object_mod_property(target, id),
            None => false,
        };
        let ghost before = values_view(out@);
        proof {
            assert(s.take(i + 1).drop_last() =~= s.take(i as int));
            assert(s.take(i + 1).last() == items@[i as int]@);
        }
        if keep {
            out.push(items[i].duplicate());
            assert(values_view(out@) =~= before.push(items@[i as int]@));
        }
        i = i + 1;
    }
    assert(s.take(items.len() as int) =~= s);
    proof {
        lemma_kept_properties_len(*interner, s, target);
    }
    let before = items.len();
    let after = out.len();
    *value = FieldValue::List(out);
    proof {
        lemma_list_view(*value);
    }
    Some(((before - after) as u32, after))
}

/// A struct with its `properties` list (matched canonically) stripped of the
/// rows FO4 does not define for the target and, when rows went, its
/// `propertycount` member given the new count; with how many rows went.
/// Values of another shape are unchanged.
pub open spec fn struct_rows_stripped(interner: StringInterner, v: FieldView, target: ObjectModPropertyTarget) -> (FieldView, u32) {
    match v {
        FieldView::Struct(m) => match canonical_index(interner, m, "properties".spec_bytes()) {
            Some(j) => match properties_stripped(interner, m[j].1, target) {
                Some((nv, removed, kept)) => {
                    let m1 = m.update(j, (m[j].0, nv));
                    if removed == 0 {
                        (FieldView::Struct(m1), 0)
                    } else {
                        match canonical_index(interner, m, "propertycount".spec_bytes()) {
                            Some(c) => (FieldView::Struct(m1.update(c, (m1[c].0, with_count(m1[c].1, kept as u32)))), removed),
                            None => (FieldView::Struct(m1), removed),
                        }
                    }
                },
                None => (v, 0),
            },
            None => (v, 0),
        },
        _ => (v, 0),
    }
}

/// Remove the property rows FO4 does not define for the target from a
/// struct's property list, keeping its count in step; returns how many went.
pub fn strip_struct_property_rows(interner: &StringInterner, value: &mut FieldValue, target: ObjectModPropertyTarget) -> (r: u32)
    ensures
        final(value)@ == struct_rows_stripped(*interner, old(value)@, target).0,
        r == struct_rows_stripped(*interner, old(value)@, target).1,
{
    match value {
        FieldValue::Struct(_) => {},
        _ => {
            return 0;
        },
    }
    let mut taken = FieldValue::Null;
    core::mem::swap(value, &mut taken);
    proof {
        lemma_struct_view(taken);
    }
    let ghost v0 = taken@;
    let mut fields = match taken {
        FieldValue::Struct(fields) => fields,
        _ => Vec::new(),
    };
    let ghost m = named_view(fields@);
    let Some(j) = field_index_canonical(&fields, lit("properties"), interner) else {
        *value = FieldValue::Struct(fields);
        proof {
            lemma_struct_view(*value);
        }
        return 0;
    };
    let count_index = field_index_canonical(&fields, lit("propertycount"), interner);
    let name = fields[j].0;
    let mut slot = (name, FieldValue::Null);
    fields.set_and_swap(j, &mut slot);
    let (_, mut member) = slot;
    assert(member@ == m[j as int].1);
    let result = strip_properties_value(interner, &mut member, target);
    let Some((removed, kept)) = result else {
        fields.set(j, (name, member));
        assert(named_view(fields@) =~= m);
        *value = FieldValue::Struct(fields);
        proof {
            lemma_struct_view(*value);
        }
        return 0;
    };
    fields.set(j, (name, member));
    assert(named_view(fields@) =~= m.update(j as int, (m[j as int].0, properties_stripped(*interner, m[j as int].1, target)->Some_0.0)));
    if removed != 0 {
        if let Some(c) = count_index {
            let ghost m1 = named_view(fields@);
            let cname = fields[c].0;
            let mut cslot = (cname, FieldValue::Null);
            fields.set_and_swap(c, &mut cslot);
            let (_, mut cm) = cslot;
            assert(cm@ == m1[c as int].1);
            set_u32_count(&mut cm, kept as u32);
            fields.set(c, (cname, cm));
            assert(named_view(fields@) =~= m1.update(c as int, (m1[c as int].0, with_count(m1[c as int].1, kept as u32))));
        }
    }
    *value = FieldValue::Struct(fields);
    proof {
        lemma_struct_view(*value);
    }
    removed
}

} // verus!

verus! {

/// A property row given function type `ft`, and whether it changed: a
/// struct row stores it into its `functiontype` member (matched canonically)
/// unless that already reads as `ft`, or gains a `FunctionType` member; a raw
/// row of more than four bytes stores it in byte 4. Other rows are
/// unchanged.
pub open spec fn row_function_type_set(interner: StringInterner, v: FieldView, ft: u8) -> (FieldView, bool) {
    match v {
        FieldView::Struct(m) => match canonical_index(interner, m, "functiontype".spec_bytes()) {
            Some(j) => if value_to_u16(m[j].1) == Some(ft as u16) {
                (v, false)
            } else {
                (FieldView::Struct(m.update(j, (m[j].0, with_count(m[j].1, ft as u32)))), true)
            },
            None => (FieldView::Struct(m.push((handle_of(interner@, "FunctionType".spec_bytes()), FieldView::Uint(ft as u64)))), true),
        },
        FieldView::Bytes(b) => if b.len() > 4 {
            if b[4] == ft { (v, false) } else { (FieldView::Bytes(b.update(4, ft)), true) }
        } else {
            (v, false)
        },
        _ => (v, false),
    }
}

/// Give a property row function type `function_type`; returns whether it
/// changed.
/// The names it writes are interned first.
pub fn set_property_row_function_type(interner: &mut StringInterner, value: &mut FieldValue, function_type: u8) -> (r: bool)
    requires
        old(interner).wf(),
        old(interner)@.len() + 1 <= u32::MAX,
    ensures
        final(interner).wf(),
        final(interner)@ == intern_all(old(interner)@, seq!["FunctionType".spec_bytes()]),
        final(value)@ == row_function_type_set(*final(interner), old(value)@, function_type).0,
        r == row_function_type_set(*final(interner), old(value)@, function_type).1,
{
    let names: Vec<&str> = vec!["FunctionType"];
    intern_each(interner, names.as_slice());
    proof {
        assert(strs_bytes(names@) =~= seq!["FunctionType".spec_bytes()]);
        assert(interner@.contains(strs_bytes(names@)[0]));
    }
    set_property_row_function_type_interned(interner, value, function_type)
}

/// Give a property row function type `function_type`; returns whether it
/// changed.
pub(crate) fn set_property_row_function_type_interned(interner: &StringInterner, value: &mut FieldValue, function_type: u8) -> (r: bool)
    requires
        interner.wf(),
        interner@.contains("FunctionType".spec_bytes()),
    ensures
        final(value)@ == row_function_type_set(*interner, old(value)@, function_type).0,
        r == row_function_type_set(*interner, old(value)@, function_type).1,
{
    match value {
        FieldValue::Struct(_) => {},
        FieldValue::Bytes(bytes) => {
            if bytes.len() > 4 {
                if bytes[4] == function_type {
                    return false;
                }
                bytes.set(4, function_type);
                return true;
            }
            return false;
        },
        _ => {
            return false;
        },
    }
    let mut taken = FieldValue::Null;
    core::mem::swap(value, &mut taken);
    proof {
        lemma_struct_view(taken);
    }
    let mut fields = match taken {
        FieldValue::Struct(fields) => fields,
        _ => Vec::new(),
    };
    let ghost m = named_view(fields@);
    let changed = match field_index_canonical(&fields, lit("functiontype"), interner) {
        Some(j) => {
            assert(m[j as int].1 == fields@[j as int].1@);
            if field_value_to_u16(&fields[j].1) == Some(function_type as u16) {
                false
            } else {
                let name = fields[j].0;
                let mut slot = (name, FieldValue::Null);
                fields.set_and_swap(j, &mut slot);
                let (_, mut member) = slot;
                set_u32_count(&mut member, function_type as u32);
                fields.set(j, (name, member));
                assert(named_view(fields@) =~= m.update(j as int, (m[j as int].0, with_count(m[j as int].1, function_type as u32))));
                true
            }
        },
        None => {
            let h = name_handle(interner, "FunctionType");
            fields.push((h, FieldValue::Uint(function_type as u64)));
            assert(named_view(fields@) =~= m.push((h, FieldView::Uint(function_type as u64))));
            true
        },
    };
    *value = FieldValue::Struct(fields);
    proof {
        lemma_struct_view(*value);
    }
    changed
}

/// A property list with every row for property `id` given function type
/// `ft`.
pub open spec fn properties_with_function_type(interner: StringInterner, s: Seq<FieldView>, id: u16, ft: u8) -> Seq<FieldView> {
    Seq::new(
        s.len(),
        |i: int| if row_property(interner, s[i]) == Some(id) { row_function_type_set(interner, s[i], ft).0 } else { s[i] },
    )
}

/// How many rows of a property list for property `id` change when given
/// function type `ft`.
pub open spec fn properties_changed(interner: StringInterner, s: Seq<FieldView>, id: u16, ft: u8) -> nat
    decreases s.len(),
{
    if s.len() == 0 {
        0
    } else {
        properties_changed(interner, s.drop_last(), id, ft) + if row_property(interner, s.last()) == Some(id)
            && row_function_type_set(interner, s.last(), ft).1 { 1nat } else { 0nat }
    }
}

/// A struct whose `properties` list (matched canonically) has every row for
/// property `id` given function type `ft`, with how many rows changed (as a
/// `u32`); values of another shape are unchanged.
pub open spec fn struct_function_type_set(interner: StringInterner, v: FieldView, id: u16, ft: u8) -> (FieldView, u32) {
    match v {
        FieldView::Struct(m) => match canonical_index(interner, m, "properties".spec_bytes()) {
            Some(j) => match m[j].1 {
                FieldView::List(items) => (
                    FieldView::Struct(m.update(j, (m[j].0, FieldView::List(properties_with_function_type(interner, items, id, ft))))),
                    properties_changed(interner, items, id, ft) as u32,
                ),
                _ => (v, 0),
            },
            None => (v, 0),
        },
        _ => (v, 0),
    }
}

fn set_list_function_type(interner: &StringInterner, items: &mut Vec<FieldValue>, property_id: u16, function_type: u8) -> (r: u64)
    requires
        interner.wf(),
        interner@.contains("FunctionType".spec_bytes()),
    ensures
        values_view(final(items)@) == properties_with_function_type(*interner, values_view(old(items)@), property_id, function_type),
        r == properties_changed(*interner, values_view(old(items)@), property_id, function_type),
{
    let ghost s = values_view(items@);
    let n = items.len();
    let mut changed: u64 = 0;
    let mut i: usize = 0;
    while i < n
        invariant
            i <= n,
            n == items@.len(),
            s.len() == n,
            changed <= i,
            interner.wf(),
            interner@.contains("FunctionType".spec_bytes()),
            forall|k: int| 0 <= k < i ==> #[trigger] items@[k]@ == properties_with_function_type(*interner, s, property_id, function_type)[k],
            forall|k: int| i <= k < n ==> #[trigger] items@[k]@ == s[k],
            changed == properties_changed(*interner, s.take(i as int), property_id, function_type),
        decreases n - i,
    {
        proof {
            assert(s.take(i + 1).drop_last() =~= s.take(i as int));
            assert(s.take(i + 1).last() == s[i as int]);
        }
        if property_id_from_row(&items[i], interner) == Some(property_id) {
            let mut slot = FieldValue::Null;
            items.set_and_swap(i, &mut slot);
            let hit = set_property_row_function_type_interned(interner, &mut slot, function_type);
            items.set(i, slot);
            if hit {
                changed = changed + 1;
            }
        }
        i = i + 1;
    }
    assert(s.take(n as int) =~= s);
    assert(values_view(items@) =~= properties_with_function_type(*interner, s, property_id, function_type));
    changed
}

/// Give every row of a struct's property list for `property_id` function
/// type `function_type`; returns how many rows changed.
/// The names it writes are interned first.
pub fn set_struct_property_function_type(interner: &mut StringInterner, value: &mut FieldValue, property_id: u16, function_type: u8) -> (r: u32)
    requires
        old(interner).wf(),
        old(interner)@.len() + 1 <= u32::MAX,
    ensures
        final(interner).wf(),
        final(interner)@ == intern_all(old(interner)@, seq!["FunctionType".spec_bytes()]),
        final(value)@ == struct_function_type_set(*final(interner), old(value)@, property_id, function_type).0,
        r == struct_function_type_set(*final(interner), old(value)@, property_id, function_type).1,
{
    let names: Vec<&str> = vec!["FunctionType"];
    intern_each(interner, names.as_slice());
    proof {
        assert(strs_bytes(names@) =~= seq!["FunctionType".spec_bytes()]);
        assert(interner@.contains(strs_bytes(names@)[0]));
    }
    set_struct_property_function_type_interned(interner, value, property_id, function_type)
}

/// Give every row of a struct's property list for `property_id` function
/// type `function_type`; returns how many rows changed.
pub(crate) fn set_struct_property_function_type_interned(interner: &StringInterner, value: &mut FieldValue, property_id: u16, function_type: u8) -> (r: u32)
    requires
        interner.wf(),
        interner@.contains("FunctionType".spec_bytes()),
    ensures
        final(value)@ == struct_function_type_set(*interner, old(value)@, property_id, function_type).0,
        r == struct_function_type_set(*interner, old(value)@, property_id, function_type).1,
{
    match value {
        FieldValue::Struct(_) => {},
        _ => {
            return 0;
        },
    }
    let mut taken = FieldValue::Null;
    core::mem::swap(value, &mut taken);
    proof {
        lemma_struct_view(taken);
    }
    let mut fields = match taken {
        FieldValue::Struct(fields) => fields,
        _ => Vec::new(),
    };
    let ghost m = named_view(fields@);
    let mut changed: u32 = 0;
    if let Some(j) = field_index_canonical(&fields, lit("properties"), interner) {
        let name = fields[j].0;
        let mut slot = (name, FieldValue::Null);
        fields.set_and_swap(j, &mut slot);
        let (_, member) = slot;
        assert(member@ == m[j as int].1);
        let member = match member {
            FieldValue::List(items) => {
                let mut items = items;
                proof {
                    lemma_items_view(items@);
                }
                let c = set_list_function_type(interner, &mut items, property_id, function_type);
                changed = c as u32;
                let nv = FieldValue::List(items);
                proof {
                    lemma_list_view(nv);
                }
                nv
            },
            other => other,
        };
        fields.set(j, (name, member));
        assert(named_view(fields@) =~= match struct_function_type_set(*interner, FieldView::Struct(m), property_id, function_type).0 {
            FieldView::Struct(m2) => m2,
            _ => m,
        });
    }
    *value = FieldValue::Struct(fields);
    proof {
        lemma_struct_view(*value);
    }
    changed
}

} // verus!

verus! {

/// Object-template rows stripped by shape: a struct by its property list,
/// raw bytes by their rows; other values unchanged.
pub open spec fn template_rows_stripped(interner: StringInterner, v: FieldView, target: ObjectModPropertyTarget) -> (FieldView, u32) {
    match v {
        FieldView::Struct(_) => struct_rows_stripped(interner, v, target),
        FieldView::Bytes(b) => (FieldView::Bytes(raw_template_stripped(b, target).0), raw_template_stripped(b, target).1 as u32),
        _ => (v, 0),
    }
}

/// Object-mod data rows stripped by shape.
pub open spec fn omod_rows_stripped(interner: StringInterner, v: FieldView, target: ObjectModPropertyTarget) -> (FieldView, u32) {
    match v {
        FieldView::Struct(_) => struct_rows_stripped(interner, v, target),
        FieldView::Bytes(b) => (FieldView::Bytes(raw_omod_stripped(b, target).0), raw_omod_stripped(b, target).1 as u32),
        _ => (v, 0),
    }
}

/// Object-mod data with the rows for `id` given function type `ft`, by
/// shape.
pub open spec fn omod_function_type_set(interner: StringInterner, v: FieldView, id: u16, ft: u8) -> (FieldView, u32) {
    match v {
        FieldView::Struct(_) => struct_function_type_set(interner, v, id, ft),
        FieldView::Bytes(b) => (FieldView::Bytes(raw_function_type_set(b, id, ft).0), raw_function_type_set(b, id, ft).1 as u32),
        _ => (v, 0),
    }
}

/// Remove the properties FO4 does not define for the target from an object
/// template value; returns how many went.
pub fn strip_object_template_property_rows(interner: &StringInterner, value: &mut FieldValue, target: ObjectModPropertyTarget) -> (r: u32)
    ensures
        final(value)@ == template_rows_stripped(*interner, old(value)@, target).0,
        r == template_rows_stripped(*interner, old(value)@, target).1,
{
    match value {
        FieldValue::Struct(_) => strip_struct_property_rows(interner, value, target),
        FieldValue::Bytes(bytes) => strip_raw_object_template_property_rows(bytes, target),
        _ => 0,
    }
}

/// Remove the properties FO4 does not define for the target from object-mod
/// data; returns how many went.
pub fn strip_omod_data_property_rows(interner: &StringInterner, value: &mut FieldValue, target: ObjectModPropertyTarget) -> (r: u32)
    ensures
        final(value)@ == omod_rows_stripped(*interner, old(value)@, target).0,
        r == omod_rows_stripped(*interner, old(value)@, target).1,
{
    match value {
        FieldValue::Struct(_) => strip_struct_property_rows(interner, value, target),
        FieldValue::Bytes(bytes) => strip_raw_omod_data_property_rows(bytes, target),
        _ => 0,
    }
}

/// Give every object-mod data row for `property_id` function type
/// `function_type`; returns how many rows changed.
/// The names it writes are interned first.
pub fn set_omod_data_property_function_type(interner: &mut StringInterner, value: &mut FieldValue, property_id: u16, function_type: u8) -> (r: u32)
    requires
        old(interner).wf(),
        old(interner)@.len() + 1 <= u32::MAX,
    ensures
        final(interner).wf(),
        final(interner)@ == intern_all(old(interner)@, seq!["FunctionType".spec_bytes()]),
        final(value)@ == omod_function_type_set(*final(interner), old(value)@, property_id, function_type).0,
        r == omod_function_type_set(*final(interner), old(value)@, property_id, function_type).1,
{
    let names: Vec<&str> = vec!["FunctionType"];
    intern_each(interner, names.as_slice());
    proof {
        assert(strs_bytes(names@) =~= seq!["FunctionType".spec_bytes()]);
        assert(interner@.contains(strs_bytes(names@)[0]));
    }
    set_omod_data_property_function_type_interned(interner, value, property_id, function_type)
}

/// Give every object-mod data row for `property_id` function type
/// `function_type`; returns how many rows changed.
pub(crate) fn set_omod_data_property_function_type_interned(interner: &StringInterner, value: &mut FieldValue, property_id: u16, function_type: u8) -> (r: u32)
    requires
        interner.wf(),
        interner@.contains("FunctionType".spec_bytes()),
    ensures
        final(value)@ == omod_function_type_set(*interner, old(value)@, property_id, function_type).0,
        r == omod_function_type_set(*interner, old(value)@, property_id, function_type).1,
{
    match value {
        FieldValue::Struct(_) => set_struct_property_function_type_interned(interner, value, property_id, function_type),
        FieldValue::Bytes(bytes) => set_raw_omod_data_property_function_type(bytes, property_id, function_type),
        _ => 0,
    }
}

/// The form type object-mod data modifies: the `formtype` member (matched
/// canonically) read as a `u32`, or the little-endian `u32` at byte 10 of
/// raw data.
pub open spec fn data_form_type(interner: StringInterner, v: FieldView) -> Option<u32> {
    match v {
        FieldView::Struct(m) => match canonical_value(interner, m, "formtype".spec_bytes()) {
            Some(x) => value_to_u32(x),
            None => None,
        },
        FieldView::Bytes(b) => if b.len() >= 14 { Some(le32(b, 10)) } else { None },
        _ => None,
    }
}

/// The form type object-mod data modifies.
pub fn omod_data_form_type(value: &FieldValue, interner: &StringInterner) -> (r: Option<u32>)
    ensures
        r == data_form_type(*interner, value@),
{
    match value {
        FieldValue::Struct(fields) => {
            proof {
                lemma_struct_view(*value);
            }
            match named_value_canonical(fields, lit("formtype"), interner) {
                Some(m) => field_value_to_u32(m),
                None => None,
            }
        },
        FieldValue::Bytes(bytes) => read_u32_le_at(bytes.as_slice(), 10),
        _ => None,
    }
}

/// The property target of object-mod data: its form type read as a
/// four-character code (`WEAP`; `ARMO` or `ARMA`; `NPC_`), anything else an
/// object.
pub open spec fn property_target(interner: StringInterner, v: FieldView) -> ObjectModPropertyTarget {
    match data_form_type(interner, v) {
        Some(t) => if t == 0x5041_4557 {
            ObjectModPropertyTarget::Weapon
        } else if t == 0x4F4D_5241 || t == 0x414D_5241 {
            ObjectModPropertyTarget::Armor
        } else if t == 0x5F43_504E {
            ObjectModPropertyTarget::Actor
        } else {
            ObjectModPropertyTarget::Object
        },
        None => ObjectModPropertyTarget::Object,
    }
}

/// The property target of object-mod data.
pub fn omod_property_target(value: &FieldValue, interner: &StringInterner) -> (r: ObjectModPropertyTarget)
    ensures
        r == property_target(*interner, value@),
{
    match omod_data_form_type(value, interner) {
        Some(t) => if t == 0x5041_4557 {
            ObjectModPropertyTarget::Weapon
        } else if t == 0x4F4D_5241 || t == 0x414D_5241 {
            ObjectModPropertyTarget::Armor
        } else if t == 0x5F43_504E {
            ObjectModPropertyTarget::Actor
        } else {
            ObjectModPropertyTarget::Object
        },
        None => ObjectModPropertyTarget::Object,
    }
}

/// Whether object-mod data has a property row for `id`: a struct's
/// `properties` list (matched canonically) holds a row for it, or raw data
/// does.
pub open spec fn data_has_property(interner: StringInterner, v: FieldView, id: u16) -> bool {
    match v {
        FieldView::Struct(m) => match canonical_value(interner, m, "properties".spec_bytes()) {
            Some(FieldView::List(props)) => exists|k: int| 0 <= k < props.len() && #[trigger] row_property(interner, props[k]) == Some(id),
            _ => false,
        },
        FieldView::Bytes(b) => raw_has_property(b, id),
        _ => false,
    }
}

/// Whether object-mod data has a property row for `property_id`.
pub fn omod_data_has_property_id(value: &FieldValue, interner: &StringInterner, property_id: u16) -> (r: bool)
    ensures
        r == data_has_property(*interner, value@, property_id),
{
    match value {
        FieldValue::Struct(fields) => {
            proof {
                lemma_struct_view(*value);
            }
            match named_value_canonical(fields, lit("properties"), interner) {
                Some(FieldValue::List(props)) => {
                    let ghost pv = values_view(props@);
                    proof {
                        lemma_items_view(props@);
                    }
                    let ghost m = named_view(fields@);
                    assert(canonical_value(*interner, m, "properties".spec_bytes()) == Some(FieldView::List(pv)));
                    let mut i: usize = 0;
                    while i < props.len()
                        invariant
                            i <= props@.len(),
                            pv == values_view(props@),
                            value@ == FieldView::Struct(m),
                            canonical_value(*interner, m, "properties".spec_bytes()) == Some(FieldView::List(pv)),
                            forall|k: int| 0 <= k < i ==> #[trigger] row_property(*interner, pv[k]) != Some(property_id),
                        decreases props@.len() - i,
                    {
                        if property_id_from_row(&props[i], interner) == Some(property_id) {
                            assert(row_property(*interner, pv[i as int]) == Some(property_id));
                            return true;
                        }
                        i = i + 1;
                    }
                    false
                },
                _ => false,
            }
        },
        FieldValue::Bytes(bytes) => raw_omod_data_has_property_id(bytes.as_slice(), property_id),
        _ => false,
    }
}

/// Whether an entry is object-mod data whose material-swap property is
/// present.
pub open spec fn material_swap_entry(interner: StringInterner, e: EntryView) -> bool {
    e.sig == code('D', 'A', 'T', 'A') && match material_swap_id(property_target(interner, e.value)) {
        Some(id) => data_has_property(interner, e.value, id),
        None => false,
    }
}

/// Whether an object mod carries material-swap data: a `MODS` entry, or
/// object-mod data with its target's material-swap property.
pub open spec fn has_material_swap(interner: StringInterner, r: RecordView) -> bool {
    ||| exists|j: int| 0 <= j < r.fields.len() && #[trigger] r.fields[j].sig == code('M', 'O', 'D', 'S')
    ||| exists|j: int| 0 <= j < r.fields.len() && #[trigger] material_swap_entry(interner, r.fields[j])
}

fn material_swap_entry_exec(interner: &StringInterner, e: &FieldEntry) -> (r: bool)
    ensures
        r == material_swap_entry(*interner, e@),
{
    if !sig_is(e.sig.0, 'D', 'A', 'T', 'A') {
        return false;
    }
    let target = omod_property_target(&e.value, interner);
    match material_swap_property_id(target) {
        Some(id) => omod_data_has_property_id(&e.value, interner, id),
        None => false,
    }
}

/// Whether an object mod carries material-swap data.
pub fn omod_has_material_swap_data(interner: &StringInterner, record: &Record) -> (r: bool)
    ensures
        r == has_material_swap(*interner, record@),
{
    let ghost f = record@.fields;
    let mut i: usize = 0;
    while i < record.fields.len()
        invariant
            i <= record.fields@.len(),
            f == record@.fields,
            forall|k: int| 0 <= k < i ==> #[trigger] f[k].sig != code('M', 'O', 'D', 'S'),
        decreases record.fields@.len() - i,
    {
        assert(f[i as int] == record.fields@[i as int]@);
        if sig_is(record.fields[i].sig.0, 'M', 'O', 'D', 'S') {
            assert(f[i as int].sig == code('M', 'O', 'D', 'S'));
            return true;
        }
        i = i + 1;
    }
    let mut i: usize = 0;
    while i < record.fields.len()
        invariant
            i <= record.fields@.len(),
            f == record@.fields,
            forall|k: int| 0 <= k < f.len() ==> #[trigger] f[k].sig != code('M', 'O', 'D', 'S'),
            forall|k: int| 0 <= k < i ==> !#[trigger] material_swap_entry(*interner, f[k]),
        decreases record.fields@.len() - i,
    {
        assert(f[i as int] == record.fields@[i as int]@);
        if material_swap_entry_exec(interner, &record.fields[i]) {
            return true;
        }
        i = i + 1;
    }
    false
}

} // verus!

verus! {

/// An `OBTS` entry with its template's undefined properties stripped for the
/// target.
pub open spec fn obts_entry_stripped(interner: StringInterner, e: EntryView, target: ObjectModPropertyTarget) -> EntryView {
    if e.sig == code('O', 'B', 'T', 'S') {
        EntryView { sig: e.sig, value: template_rows_stripped(interner, e.value, target).0 }
    } else {
        e
    }
}

/// A record whose object templates are stripped of the properties FO4 does
/// not define for the target.
pub open spec fn record_obts_stripped(interner: StringInterner, r: RecordView, target: ObjectModPropertyTarget) -> RecordView {
    RecordView { fields: r.fields.map_values(|e: EntryView| obts_entry_stripped(interner, e, target)), ..r }
}

/// A `DATA` entry of an object mod stripped of the properties FO4 does not
/// define for the form type it modifies.
pub open spec fn data_entry_stripped(interner: StringInterner, e: EntryView) -> EntryView {
    if e.sig == code('D', 'A', 'T', 'A') {
        EntryView { sig: e.sig, value: omod_rows_stripped(interner, e.value, property_target(interner, e.value)).0 }
    } else {
        e
    }
}

/// An object mod whose data is stripped of undefined properties.
pub open spec fn record_data_stripped(interner: StringInterner, r: RecordView) -> RecordView {
    RecordView { fields: r.fields.map_values(|e: EntryView| data_entry_stripped(interner, e)), ..r }
}

/// A weapon, armor or actor record with its object templates stripped for
/// its own form type, or an object mod with its data stripped; other records
/// unchanged.
pub open spec fn invalid_properties_stripped(interner: StringInterner, r: RecordView) -> RecordView {
    if r.sig == code('W', 'E', 'A', 'P') {
        record_obts_stripped(interner, r, ObjectModPropertyTarget::Weapon)
    } else if r.sig == code('A', 'R', 'M', 'O') {
        record_obts_stripped(interner, r, ObjectModPropertyTarget::Armor)
    } else if r.sig == code('N', 'P', 'C', '_') {
        record_obts_stripped(interner, r, ObjectModPropertyTarget::Actor)
    } else if r.sig == code('O', 'M', 'O', 'D') {
        record_data_stripped(interner, r)
    } else {
        r
    }
}

fn obts_entry_exec(interner: &StringInterner, e: FieldEntry, target: ObjectModPropertyTarget) -> (r: FieldEntry)
    ensures
        r@ == obts_entry_stripped(*interner, e@, target),
{
    if !sig_is(e.sig.0, 'O', 'B', 'T', 'S') {
        return e;
    }
    let mut e = e;
    strip_object_template_property_rows(interner, &mut e.value, target);
    e
}

fn data_entry_exec(interner: &StringInterner, e: FieldEntry) -> (r: FieldEntry)
    ensures
        r@ == data_entry_stripped(*interner, e@),
{
    if !sig_is(e.sig.0, 'D', 'A', 'T', 'A') {
        return e;
    }
    let mut e = e;
    let target = omod_property_target(&e.value, interner);
    strip_omod_data_property_rows(interner, &mut e.value, target);
    e
}

/// Strip the properties FO4 does not define for the target from every
/// object template of a record.
pub fn strip_record_obts_properties(interner: &StringInterner, record: &mut Record, target: ObjectModPropertyTarget)
    ensures
        final(record)@ == record_obts_stripped(*interner, old(record)@, target),
{
    let ghost r0 = record@;
    let ghost orig = r0.fields;
    let mut rest: Vec<FieldEntry> = Vec::new();
    core::mem::swap(&mut record.fields, &mut rest);
    let n = rest.len();
    let mut idx: usize = 0;
    while idx < n
        invariant
            orig.len() == n,
            idx <= n,
            rest@.len() == n - idx,
            forall|j: int| 0 <= j < rest@.len() ==> rest@[j]@ == orig[idx + j],
            record.fields@.len() == idx,
            forall|j: int| 0 <= j < idx ==> #[trigger] record.fields@[j]@ == obts_entry_stripped(*interner, orig[j], target),
            record@.sig == r0.sig,
            record@.form_key == r0.form_key,
            record@.eid == r0.eid,
        decreases n - idx,
    {
        let e = rest.remove(0);
        let m = obts_entry_exec(interner, e, target);
        record.fields.push(m);
        idx = idx + 1;
    }
    assert(record@.fields =~= record_obts_stripped(*interner, r0, target).fields);
}

/// Strip undefined properties from every `DATA` of an object mod.
pub fn strip_omod_data_properties(interner: &StringInterner, record: &mut Record)
    ensures
        final(record)@ == record_data_stripped(*interner, old(record)@),
{
    let ghost r0 = record@;
    let ghost orig = r0.fields;
    let mut rest: Vec<FieldEntry> = Vec::new();
    core::mem::swap(&mut record.fields, &mut rest);
    let n = rest.len();
    let mut idx: usize = 0;
    while idx < n
        invariant
            orig.len() == n,
            idx <= n,
            rest@.len() == n - idx,
            forall|j: int| 0 <= j < rest@.len() ==> rest@[j]@ == orig[idx + j],
            record.fields@.len() == idx,
            forall|j: int| 0 <= j < idx ==> #[trigger] record.fields@[j]@ == data_entry_stripped(*interner, orig[j]),
            record@.sig == r0.sig,
            record@.form_key == r0.form_key,
            record@.eid == r0.eid,
        decreases n - idx,
    {
        let e = rest.remove(0);
        let m = data_entry_exec(interner, e);
        record.fields.push(m);
        idx = idx + 1;
    }
    assert(record@.fields =~= record_data_stripped(*interner, r0).fields);
}

impl Fo76Fo4Hook {
    /// Strip the object-mod properties FO4 does not define for the modded
    /// form type: weapon, armor and actor templates by their own type,
    /// object-mod data by the type it names.
    pub fn strip_invalid_object_mod_properties(interner: &StringInterner, record: &mut Record)
        ensures
            final(record)@ == invalid_properties_stripped(*interner, old(record)@),
    {
        if sig_is(record.sig.0, 'W', 'E', 'A', 'P') {
            strip_record_obts_properties(interner, record, ObjectModPropertyTarget::Weapon);
        } else if sig_is(record.sig.0, 'A', 'R', 'M', 'O') {
            strip_record_obts_properties(interner, record, ObjectModPropertyTarget::Armor);
        } else if sig_is(record.sig.0, 'N', 'P', 'C', '_') {
            strip_record_obts_properties(interner, record, ObjectModPropertyTarget::Actor);
        } else if sig_is(record.sig.0, 'O', 'M', 'O', 'D') {
            strip_omod_data_properties(interner, record);
        }
    }
}

/// A `DATA` entry whose material-swap property rows get the FO4
/// material-swap function type (2).
pub open spec fn material_swap_entry_normalized(interner: StringInterner, e: EntryView) -> EntryView {
    if e.sig == code('D', 'A', 'T', 'A') {
        match material_swap_id(property_target(interner, e.value)) {
            Some(id) => EntryView { sig: e.sig, value: omod_function_type_set(interner, e.value, id, 2).0 },
            None => e,
        }
    } else {
        e
    }
}

/// An object mod with its material-swap rows given function type 2; other
/// records unchanged.
pub open spec fn material_swap_functions_normalized(interner: StringInterner, r: RecordView) -> RecordView {
    if r.sig == code('O', 'M', 'O', 'D') {
        RecordView { fields: r.fields.map_values(|e: EntryView| material_swap_entry_normalized(interner, e)), ..r }
    } else {
        r
    }
}

fn normalize_material_swap_entry(interner: &StringInterner, e: FieldEntry) -> (r: FieldEntry)
    requires
        interner.wf(),
        interner@.contains("FunctionType".spec_bytes()),
    ensures
        r@ == material_swap_entry_normalized(*interner, e@),
{
    if !sig_is(e.sig.0, 'D', 'A', 'T', 'A') {
        return e;
    }
    let mut e = e;
    let target = omod_property_target(&e.value, interner);
    if let Some(id) = material_swap_property_id(target) {
        set_omod_data_property_function_type_interned(interner, &mut e.value, id, 2);
    }
    e
}

impl Fo76Fo4Hook {
    /// Give an object mod's material-swap property rows the FO4
    /// material-swap function type.
    /// The names it writes are interned first.
    pub fn normalize_omod_material_swap_functions(interner: &mut StringInterner, record: &mut Record)
        requires
            old(interner).wf(),
            old(interner)@.len() + 1 <= u32::MAX,
        ensures
            final(interner).wf(),
            final(interner)@ == intern_all(old(interner)@, seq!["FunctionType".spec_bytes()]),
            final(record)@ == material_swap_functions_normalized(*final(interner), old(record)@),
    {
        let names: Vec<&str> = vec!["FunctionType"];
        intern_each(interner, names.as_slice());
        proof {
            assert(strs_bytes(names@) =~= seq!["FunctionType".spec_bytes()]);
            assert(interner@.contains(strs_bytes(names@)[0]));
        }
        Self::normalize_omod_material_swap_functions_interned(interner, record)
    }

    /// Give an object mod's material-swap property rows the FO4
    /// material-swap function type.
    pub(crate) fn normalize_omod_material_swap_functions_interned(interner: &StringInterner, record: &mut Record)
        requires
            interner.wf(),
            interner@.contains("FunctionType".spec_bytes()),
        ensures
            final(record)@ == material_swap_functions_normalized(*interner, old(record)@),
    {
        if !sig_is(record.sig.0, 'O', 'M', 'O', 'D') {
            return;
        }
        let ghost r0 = record@;
        let ghost orig = r0.fields;
        let mut rest: Vec<FieldEntry> = Vec::new();
        core::mem::swap(&mut record.fields, &mut rest);
        let n = rest.len();
        let mut idx: usize = 0;
        while idx < n
            invariant
                orig.len() == n,
                idx <= n,
                rest@.len() == n - idx,
                forall|j: int| 0 <= j < rest@.len() ==> rest@[j]@ == orig[idx + j],
                record.fields@.len() == idx,
                forall|j: int| 0 <= j < idx ==> #[trigger] record.fields@[j]@ == material_swap_entry_normalized(*interner, orig[j]),
                interner.wf(),
                interner@.contains("FunctionType".spec_bytes()),
                record@.sig == r0.sig,
                record@.form_key == r0.form_key,
                record@.eid == r0.eid,
            decreases n - idx,
        {
            let e = rest.remove(0);
            let m = normalize_material_swap_entry(interner, e);
            record.fields.push(m);
            idx = idx + 1;
        }
        assert(record@.fields =~= material_swap_functions_normalized(*interner, r0).fields);
    }
}

} // verus!

verus! {

/// Whether an entry is object-mod data for the FO76-only `MSTT` form type.
pub open spec fn mstt_data_entry(interner: StringInterner, e: EntryView) -> bool {
    e.sig == code('D', 'A', 'T', 'A') && data_form_type(interner, e.value) == Some(0x5454_534Du32)
}

/// An object mod without its `MSTT` data; other records unchanged.
pub open spec fn mstt_data_dropped(interner: StringInterner, r: RecordView) -> RecordView {
    if r.sig == code('O', 'M', 'O', 'D') {
        RecordView { fields: r.fields.filter(|e: EntryView| !mstt_data_entry(interner, e)), ..r }
    } else {
        r
    }
}

/// Material-swap object mods reuse the base model: the model entries go.
pub open spec fn material_model_sig(s: [u8; 4]) -> bool {
    s == code('M', 'O', 'D', 'L') || s == code('M', 'O', 'D', 'B') || s == code('M', 'O', 'D', 'T') || s == code('M', 'O', 'D', 'F')
}

/// A material-swap object mod without its model entries; other records
/// unchanged.
pub open spec fn material_models_stripped(interner: StringInterner, r: RecordView) -> RecordView {
    if r.sig == code('O', 'M', 'O', 'D') && has_material_swap(interner, r) {
        RecordView { fields: r.fields.filter(|e: EntryView| !material_model_sig(e.sig)), ..r }
    } else {
        r
    }
}

pub(crate) fn keep_entries(fields: &mut Vec<FieldEntry>, keep: &Vec<bool>, Ghost(p): Ghost<spec_fn(EntryView) -> bool>)
    requires
        keep@.len() == old(fields)@.len(),
        forall|j: int| 0 <= j < keep@.len() ==> keep@[j] == p(#[trigger] old(fields)@[j]@),
    ensures
        entries_view(final(fields)@) == entries_view(old(fields)@).filter(p),
{
    let ghost v = entries_view(fields@);
    assert forall|j: int| 0 <= j < v.len() implies keep@[j] == p(#[trigger] v[j]) by {
        assert(v[j] == fields@[j]@);
    }
    retain_entries(fields, keep);
    proof {
        lemma_kept_filter(v, keep@, p);
    }
}

impl Fo76Fo4Hook {
    /// Drop an object mod's data for the FO76-only `MSTT` form type.
    pub fn drop_mstt_omod_data(interner: &StringInterner, record: &mut Record)
        ensures
            final(record)@ == mstt_data_dropped(*interner, old(record)@),
    {
        if !sig_is(record.sig.0, 'O', 'M', 'O', 'D') {
            return;
        }
        let mut keep: Vec<bool> = Vec::new();
        let mut i: usize = 0;
        while i < record.fields.len()
            invariant
                i <= record.fields@.len(),
                keep@.len() == i,
                forall|j: int| 0 <= j < i ==> keep@[j] == !mstt_data_entry(*interner, #[trigger] record.fields@[j]@),
            decreases record.fields@.len() - i,
        {
            let e = &record.fields[i];
            let drop = sig_is(e.sig.0, 'D', 'A', 'T', 'A') && omod_data_form_type(&e.value, interner) == Some(0x5454_534Du32);
            keep.push(!drop);
            i = i + 1;
        }
        keep_entries(&mut record.fields, &keep, Ghost(|e: EntryView| !mstt_data_entry(*interner, e)));
    }

    /// Drop the model entries of a material-swap object mod.
    pub fn strip_material_omod_models(interner: &StringInterner, record: &mut Record)
        ensures
            final(record)@ == material_models_stripped(*interner, old(record)@),
    {
        if !sig_is(record.sig.0, 'O', 'M', 'O', 'D') || !omod_has_material_swap_data(interner, record) {
            return;
        }
        let mut keep: Vec<bool> = Vec::new();
        let mut i: usize = 0;
        while i < record.fields.len()
            invariant
                i <= record.fields@.len(),
                keep@.len() == i,
                forall|j: int| 0 <= j < i ==> keep@[j] == !material_model_sig(#[trigger] record.fields@[j]@.sig),
            decreases record.fields@.len() - i,
        {
            let s = record.fields[i].sig.0;
            let model = sig_is(s, 'M', 'O', 'D', 'L') || sig_is(s, 'M', 'O', 'D', 'B') || sig_is(s, 'M', 'O', 'D', 'T')
                || sig_is(s, 'M', 'O', 'D', 'F');
            keep.push(!model);
            i = i + 1;
        }
        keep_entries(&mut record.fields, &keep, Ghost(|e: EntryView| !material_model_sig(e.sig)));
    }
}

/// The base model of the Tesla cannon, which FO4 reuses for its receiver.
pub open spec fn tesla_base_model() -> Seq<u8> {
    "weapons/teslacannon/weapon_teslacannon.nif".spec_bytes()
}

/// Whether a model path, trailing NULs dropped and `\` read as `/`, names
/// the Tesla cannon base model, case ignored.
pub open spec fn tesla_base_path(p: Seq<u8>) -> bool {
    eq_ignore_case(trim_nul(p).map_values(|c: u8| if c == 92 { 47u8 } else { c }), tesla_base_model())
}

/// Whether an entry is an object-mod index of zero.
pub open spec fn zero_index_entry(e: EntryView) -> bool {
    e.sig == code('I', 'N', 'D', 'X') && match e.value {
        FieldView::Uint(n) => n == 0,
        FieldView::Int(n) => n == 0,
        FieldView::Bytes(b) => b == seq![0u8],
        _ => false,
    }
}

/// Whether an entry is a model naming the Tesla cannon base model: an
/// interned path, or well-formed UTF-8 bytes.
pub open spec fn tesla_model_entry(interner: StringInterner, e: EntryView) -> bool {
    e.sig == code('M', 'O', 'D', 'L') && match e.value {
        FieldView::String(sym) => interner.spec_resolve(sym) matches Some(p) && tesla_base_path(p),
        FieldView::Bytes(b) => vstd::utf8::valid_utf8(b) && tesla_base_path(b),
        _ => false,
    }
}

/// Entries the Tesla cannon receiver mod drops: its model block, flags,
/// enchantment, audio and index.
pub open spec fn receiver_model_sig(s: [u8; 4]) -> bool {
    ||| s == code('M', 'O', 'D', 'L')
    ||| s == code('M', 'O', 'D', 'B')
    ||| s == code('M', 'O', 'D', 'T')
    ||| s == code('M', 'O', 'D', 'S')
    ||| s == code('M', 'O', 'D', 'F')
    ||| s == code('M', 'O', 'D', 'D')
    ||| s == code('X', 'F', 'L', 'G')
    ||| s == code('E', 'N', 'L', 'T')
    ||| s == code('E', 'N', 'L', 'S')
    ||| s == code('A', 'U', 'U', 'V')
    ||| s == code('I', 'N', 'D', 'X')
}

/// An object mod of index zero whose model is the Tesla cannon base model,
/// without its model block; other records unchanged.
pub open spec fn tesla_receiver_stripped(interner: StringInterner, r: RecordView) -> RecordView {
    if r.sig == code('O', 'M', 'O', 'D') && (exists|j: int| 0 <= j < r.fields.len() && #[trigger] zero_index_entry(r.fields[j]))
        && (exists|j: int| 0 <= j < r.fields.len() && #[trigger] tesla_model_entry(interner, r.fields[j])) {
        RecordView { fields: r.fields.filter(|e: EntryView| !receiver_model_sig(e.sig)), ..r }
    } else {
        r
    }
}

fn zero_index_exec(e: &FieldEntry) -> (r: bool)
    ensures
        r == zero_index_entry(e@),
{
    if !sig_is(e.sig.0, 'I', 'N', 'D', 'X') {
        return false;
    }
    match &e.value {
        FieldValue::Uint(n) => *n == 0,
        FieldValue::Int(n) => *n == 0,
        FieldValue::Bytes(b) => {
            let r = b.len() == 1 && b[0] == 0;
            assert(r ==> b@ =~= seq![0u8]);
            r
        },
        _ => false,
    }
}

fn tesla_path_exec(p: &[u8]) -> (r: bool)
    ensures
        r == tesla_base_path(p@),
{
    let t = trim_nul_suffix(p);
    let mut slashed: Vec<u8> = Vec::new();
    let mut i: usize = 0;
    while i < t.len()
        invariant
            i <= t@.len(),
            slashed@ == t@.take(i as int).map_values(|c: u8| if c == 92 { 47u8 } else { c }),
        decreases t@.len() - i,
    {
        let c = t[i];
        slashed.push(if c == 92 { 47u8 } else { c });
        i = i + 1;
        assert(slashed@ =~= t@.take(i as int).map_values(|c: u8| if c == 92 { 47u8 } else { c }));
    }
    assert(t@.take(t@.len() as int) =~= t@);
    bytes_eq_ignore_case(slashed.as_slice(), lit("weapons/teslacannon/weapon_teslacannon.nif"))
}

fn tesla_model_exec(interner: &StringInterner, e: &FieldEntry) -> (r: bool)
    ensures
        r == tesla_model_entry(*interner, e@),
{
    if !sig_is(e.sig.0, 'M', 'O', 'D', 'L') {
        return false;
    }
    match &e.value {
        FieldValue::String(sym) => match interner.resolve(*sym) {
            Some(p) => tesla_path_exec(p),
            None => false,
        },
        FieldValue::Bytes(b) => utf8_valid(b.as_slice()) && tesla_path_exec(b.as_slice()),
        _ => false,
    }
}

fn receiver_model_exec(s: [u8; 4]) -> (r: bool)
    ensures
        r == receiver_model_sig(s),
{
    sig_is(s, 'M', 'O', 'D', 'L') || sig_is(s, 'M', 'O', 'D', 'B') || sig_is(s, 'M', 'O', 'D', 'T')
        || sig_is(s, 'M', 'O', 'D', 'S') || sig_is(s, 'M', 'O', 'D', 'F') || sig_is(s, 'M', 'O', 'D', 'D')
        || sig_is(s, 'X', 'F', 'L', 'G') || sig_is(s, 'E', 'N', 'L', 'T') || sig_is(s, 'E', 'N', 'L', 'S')
        || sig_is(s, 'A', 'U', 'U', 'V') || sig_is(s, 'I', 'N', 'D', 'X')
}

impl Fo76Fo4Hook {
    /// Drop the model block of the Tesla cannon receiver mod, which FO4
    /// would attach as a second copy of the weapon body.
    pub fn strip_tesla_cannon_receiver_model(interner: &StringInterner, record: &mut Record)
        ensures
            final(record)@ == tesla_receiver_stripped(*interner, old(record)@),
    {
        if !sig_is(record.sig.0, 'O', 'M', 'O', 'D') {
            return;
        }
        let ghost f = record@.fields;
        let mut has_index = false;
        let mut i: usize = 0;
        while i < record.fields.len() && !has_index
            invariant
                i <= record.fields@.len(),
                f == record@.fields,
                has_index ==> exists|j: int| 0 <= j < f.len() && #[trigger] zero_index_entry(f[j]),
                !has_index ==> forall|j: int| 0 <= j < i ==> !#[trigger] zero_index_entry(f[j]),
            decreases record.fields@.len() - i + (if has_index { 0int } else { 1int }),
        {
            assert(f[i as int] == record.fields@[i as int]@);
            if zero_index_exec(&record.fields[i]) {
                has_index = true;
            } else {
                i = i + 1;
            }
        }
        if !has_index {
            return;
        }
        let mut has_model = false;
        let mut i: usize = 0;
        while i < record.fields.len() && !has_model
            invariant
                i <= record.fields@.len(),
                f == record@.fields,
                has_model ==> exists|j: int| 0 <= j < f.len() && #[trigger] tesla_model_entry(*interner, f[j]),
                !has_model ==> forall|j: int| 0 <= j < i ==> !#[trigger] tesla_model_entry(*interner, f[j]),
            decreases record.fields@.len() - i + (if has_model { 0int } else { 1int }),
        {
            assert(f[i as int] == record.fields@[i as int]@);
            if tesla_model_exec(interner, &record.fields[i]) {
                has_model = true;
            } else {
                i = i + 1;
            }
        }
        if !has_model {
            return;
        }
        let mut keep: Vec<bool> = Vec::new();
        let mut i: usize = 0;
        while i < record.fields.len()
            invariant
                i <= record.fields@.len(),
                keep@.len() == i,
                forall|j: int| 0 <= j < i ==> keep@[j] == !receiver_model_sig(#[trigger] record.fields@[j]@.sig),
            decreases record.fields@.len() - i,
        {
            keep.push(!receiver_model_exec(record.fields[i].sig.0));
            i = i + 1;
        }
        keep_entries(&mut record.fields, &keep, Ghost(|e: EntryView| !receiver_model_sig(e.sig)));
    }
}

} // verus!

verus! {

/// Whether `x` is one of `ids`.
fn id_in(ids: &[u32], x: u32) -> (r: bool)
    ensures
        r == ids@.contains(x),
{
    let mut i: usize = 0;
    while i < ids.len()
        invariant
            i <= ids@.len(),
            forall|k: int| 0 <= k < i ==> ids@[k] != x,
        decreases ids@.len() - i,
    {
        if ids[i] == x {
            assert(ids@[i as int] == x);
            return true;
        }
        i = i + 1;
    }
    false
}

/// Whether an item of a form-id array names one of `ids` by its object id
/// (the low 24 bits): a form key of `source_plugin`, a raw integer that is
/// not negative, or four raw bytes.
pub open spec fn formkey_item_matches(v: FieldView, source_plugin: Sym, ids: Seq<u32>) -> bool {
    match v {
        FieldView::FormKey(fk) => fk.plugin == source_plugin && ids.contains(fk.local & 0x00FF_FFFF),
        FieldView::Uint(raw) => ids.contains((raw as u32) & 0x00FF_FFFF),
        FieldView::Int(raw) => raw >= 0 && ids.contains((raw as u32) & 0x00FF_FFFF),
        FieldView::Bytes(b) => b.len() == 4 && ids.contains(le32(b, 0) & 0x00FF_FFFF),
        _ => false,
    }
}

/// Whether an item of a form-id array names one of `drop_object_ids`.
pub fn formkey_array_item_matches(value: &FieldValue, source_plugin: Sym, drop_object_ids: &[u32]) -> (r: bool)
    ensures
        r == formkey_item_matches(value@, source_plugin, drop_object_ids@),
{
    match value {
        FieldValue::FormKey(fk) => fk.plugin == source_plugin && id_in(drop_object_ids, fk.local & 0x00FF_FFFF),
        FieldValue::Uint(raw) => id_in(drop_object_ids, (*raw as u32) & 0x00FF_FFFF),
        FieldValue::Int(raw) => *raw >= 0 && id_in(drop_object_ids, (*raw as u32) & 0x00FF_FFFF),
        FieldValue::Bytes(b) => b.len() == 4 && id_in(drop_object_ids, read_u32_le(b.as_slice(), 0) & 0x00FF_FFFF),
        _ => false,
    }
}

/// The four-byte rows of a raw form-id array that do not name one of `ids`,
/// in order; a trailing partial row stays.
pub open spec fn unmatched_rows(b: Seq<u8>, ids: Seq<u32>) -> Seq<u8>
    decreases b.len(),
{
    if b.len() < 4 {
        b
    } else {
        let rest = unmatched_rows(b.skip(4), ids);
        if ids.contains(le32(b, 0) & 0x00FF_FFFF) { rest } else { b.take(4) + rest }
    }
}

/// The items of a form-id list that do not name one of `ids`, in order.
pub open spec fn unmatched_items(s: Seq<FieldView>, source_plugin: Sym, ids: Seq<u32>) -> Seq<FieldView>
    decreases s.len(),
{
    if s.len() == 0 {
        s
    } else {
        let rest = unmatched_items(s.drop_last(), source_plugin, ids);
        if formkey_item_matches(s.last(), source_plugin, ids) { rest } else { rest.push(s.last()) }
    }
}

/// A form-id array without the entries naming one of `ids`: a list by its
/// items, raw bytes by their four-byte rows; other values unchanged.
pub open spec fn formkey_array_filtered(v: FieldView, source_plugin: Sym, ids: Seq<u32>) -> FieldView {
    match v {
        FieldView::List(items) => FieldView::List(unmatched_items(items, source_plugin, ids)),
        FieldView::Bytes(b) => FieldView::Bytes(unmatched_rows(b, ids)),
        _ => v,
    }
}

proof fn lemma_unmatched_rows_step(b: Seq<u8>, i: int, ids: Seq<u32>)
    requires
        0 <= i,
        i + 4 <= b.len(),
    ensures
        unmatched_rows(b.skip(i), ids) == if ids.contains(le32(b, i) & 0x00FF_FFFF) {
            unmatched_rows(b.skip(i + 4), ids)
        } else {
            b.subrange(i, i + 4) + unmatched_rows(b.skip(i + 4), ids)
        },
{
    let t = b.skip(i);
    assert(t.skip(4) =~= b.skip(i + 4));
    assert(t.take(4) =~= b.subrange(i, i + 4));
    assert(le32(t, 0) == le32(b, i));
}

fn filter_raw_rows(bytes: &Vec<u8>, drop_object_ids: &[u32]) -> (r: Vec<u8>)
    ensures
        r@ == unmatched_rows(bytes@, drop_object_ids@),
{
    let b = bytes.as_slice();
    let n = b.len();
    let mut out: Vec<u8> = Vec::new();
    let mut i: usize = 0;
    assert(b@.skip(0) =~= b@);
    assert(out@ + unmatched_rows(b@.skip(0), drop_object_ids@) =~= unmatched_rows(b@, drop_object_ids@));
    while n - i >= 4
        invariant
            n == b@.len(),
            i <= n,
            out@ + unmatched_rows(b@.skip(i as int), drop_object_ids@) == unmatched_rows(b@, drop_object_ids@),
        decreases n - i,
    {
        proof {
            lemma_unmatched_rows_step(b@, i as int, drop_object_ids@);
        }
        let raw = read_u32_le(b, i);
        assert(raw == le32(b@, i as int));
        if !id_in(drop_object_ids, raw & 0x00FF_FFFF) {
            let ghost o = out@;
            out.push(b[i]);
            out.push(b[i + 1]);
            out.push(b[i + 2]);
            out.push(b[i + 3]);
            assert(out@ =~= o + b@.subrange(i as int, i + 4));
            assert(out@ + unmatched_rows(b@.skip(i + 4), drop_object_ids@) =~= o + (b@.subrange(i as int, i + 4) + unmatched_rows(b@.skip(i + 4), drop_object_ids@)));
        }
        i = i + 4;
    }
    assert(unmatched_rows(b@.skip(i as int), drop_object_ids@) == b@.skip(i as int));
    let ghost o = out@;
    while i < n
        invariant
            n == b@.len(),
            i <= n,
            out@ + b@.skip(i as int) == unmatched_rows(b@, drop_object_ids@),
        decreases n - i,
    {
        let ghost o2 = out@;
        out.push(b[i]);
        assert(out@ + b@.skip(i + 1) =~= o2 + b@.skip(i as int));
        i = i + 1;
    }
    assert(out@ =~= out@ + b@.skip(n as int));
    out
}

/// Remove from a form-id array value the entries naming one of
/// `drop_object_ids`.
pub fn filter_formkey_array_value(value: &mut FieldValue, source_plugin: Sym, drop_object_ids: &[u32])
    ensures
        final(value)@ == formkey_array_filtered(old(value)@, source_plugin, drop_object_ids@),
{
    match value {
        FieldValue::Bytes(bytes) => {
            let kept = filter_raw_rows(bytes, drop_object_ids);
            *bytes = kept;
            return;
        },
        FieldValue::List(_) => {},
        _ => {
            return;
        },
    }
    let mut taken = FieldValue::Null;
    core::mem::swap(value, &mut taken);
    proof {
        lemma_list_view(taken);
    }
    let items = match taken {
        FieldValue::List(items) => items,
        _ => Vec::new(),
    };
    let ghost s = values_view(items@);
    let mut out: Vec<FieldValue> = Vec::new();
    let mut i: usize = 0;
    while i < items.len()
        invariant
            i <= items.len(),
            s == values_view(items@),
            values_view(out@) == unmatched_items(s.take(i as int), source_plugin, drop_object_ids@),
        decreases items.len() - i,
    {
        proof {
            assert(s.take(i + 1).drop_last() =~= s.take(i as int));
            assert(s.take(i + 1).last() == items@[i as int]@);
        }
        if !formkey_array_item_matches(&items[i], source_plugin, drop_object_ids) {
            let ghost before = values_view(out@);
            out.push(items[i].duplicate());
            assert(values_view(out@) =~= before.push(items@[i as int]@));
        }
        i = i + 1;
    }
    assert(s.take(items.len() as int) =~= s);
    *value = FieldValue::List(out);
    proof {
        lemma_list_view(*value);
    }
}

/// Whether a form-id array value holds no entry.
pub open spec fn formkey_array_empty(v: FieldView) -> bool {
    match v {
        FieldView::List(items) => items.len() == 0,
        FieldView::Bytes(b) => b.len() == 0,
        _ => false,
    }
}

/// Whether a form-id array value holds no entry.
pub fn formkey_array_value_is_empty(value: &FieldValue) -> (r: bool)
    ensures
        r == formkey_array_empty(value@),
{
    match value {
        FieldValue::List(items) => {
            proof {
                lemma_list_view(*value);
            }
            items.len() == 0
        },
        FieldValue::Bytes(b) => b.len() == 0,
        _ => false,
    }
}

/// The FO76 object id of the mod-association keyword FO4 lacks
/// (`ma_Gun_Appearance`).
pub open spec fn redundant_target_keyword_ids() -> Seq<u32> {
    seq![0x0037_D0B2u32]
}

/// An `MNAM` entry without the redundant FO76 target keywords.
pub open spec fn mnam_filtered(e: EntryView, plugin: Sym) -> EntryView {
    if e.sig == code('M', 'N', 'A', 'M') {
        EntryView { sig: e.sig, value: formkey_array_filtered(e.value, plugin, redundant_target_keyword_ids()) }
    } else {
        e
    }
}

/// Whether an entry is an `MNAM` left empty.
pub open spec fn empty_mnam(e: EntryView) -> bool {
    e.sig == code('M', 'N', 'A', 'M') && formkey_array_empty(e.value)
}

/// An object mod that is not a material swap, its `MNAM` target keywords
/// rid of the FO76 ones FO4 lacks (form keys of `SeventySix.esm`) and of the
/// arrays that leaves empty; other records unchanged.
pub open spec fn redundant_target_keywords_stripped(interner: StringInterner, r: RecordView) -> RecordView {
    if r.sig == code('O', 'M', 'O', 'D') && !has_material_swap(interner, r) {
        let plugin = handle_of(interner@, "SeventySix.esm".spec_bytes());
        RecordView {
            fields: r.fields.map_values(|e: EntryView| mnam_filtered(e, plugin)).filter(|e: EntryView| !empty_mnam(e)),
            ..r
        }
    } else {
        r
    }
}

impl Fo76Fo4Hook {
    /// Drop the FO76-only mod-association keywords from an object mod's
    /// target keywords, and the arrays that leaves empty.
    /// The names it writes are interned first.
    pub fn strip_redundant_omod_target_keywords(interner: &mut StringInterner, record: &mut Record)
        requires
            old(interner).wf(),
            old(interner)@.len() + 1 <= u32::MAX,
        ensures
            final(interner).wf(),
            final(interner)@ == intern_all(old(interner)@, seq!["SeventySix.esm".spec_bytes()]),
            final(record)@ == redundant_target_keywords_stripped(*final(interner), old(record)@),
    {
        let names: Vec<&str> = vec!["SeventySix.esm"];
        intern_each(interner, names.as_slice());
        proof {
            assert(strs_bytes(names@) =~= seq!["SeventySix.esm".spec_bytes()]);
            assert(interner@.contains(strs_bytes(names@)[0]));
        }
        Self::strip_redundant_omod_target_keywords_interned(interner, record)
    }

    /// Drop the FO76-only mod-association keywords from an object mod's
    /// target keywords, and the arrays that leaves empty.
    pub(crate) fn strip_redundant_omod_target_keywords_interned(interner: &StringInterner, record: &mut Record)
        requires
            interner.wf(),
            interner@.contains("SeventySix.esm".spec_bytes()),
        ensures
            final(record)@ == redundant_target_keywords_stripped(*interner, old(record)@),
    {
        if !sig_is(record.sig.0, 'O', 'M', 'O', 'D') || omod_has_material_swap_data(interner, record) {
            return;
        }
        let plugin = name_handle(interner, "SeventySix.esm");
        let ids: Vec<u32> = vec![0x0037_D0B2u32];
        assert(ids@ =~= redundant_target_keyword_ids());
        let ghost r0 = record@;
        let ghost orig = r0.fields;
        let mut rest: Vec<FieldEntry> = Vec::new();
        core::mem::swap(&mut record.fields, &mut rest);
        let n = rest.len();
        let mut idx: usize = 0;
        while idx < n
            invariant
                orig.len() == n,
                idx <= n,
                rest@.len() == n - idx,
                forall|j: int| 0 <= j < rest@.len() ==> rest@[j]@ == orig[idx + j],
                record.fields@.len() == idx,
                forall|j: int| 0 <= j < idx ==> #[trigger] record.fields@[j]@ == mnam_filtered(orig[j], plugin),
                ids@ == redundant_target_keyword_ids(),
                record@.sig == r0.sig,
                record@.form_key == r0.form_key,
                record@.eid == r0.eid,
            decreases n - idx,
        {
            let mut e = rest.remove(0);
            if sig_is(e.sig.0, 'M', 'N', 'A', 'M') {
                filter_formkey_array_value(&mut e.value, plugin, ids.as_slice());
            }
            record.fields.push(e);
            idx = idx + 1;
        }
        let ghost mapped = orig.map_values(|e: EntryView| mnam_filtered(e, plugin));
        assert(record@.fields =~= mapped);
        let mut keep: Vec<bool> = Vec::new();
        let mut i: usize = 0;
        while i < record.fields.len()
            invariant
                i <= record.fields@.len(),
                keep@.len() == i,
                forall|j: int| 0 <= j < i ==> keep@[j] == !empty_mnam(#[trigger] record.fields@[j]@),
            decreases record.fields@.len() - i,
        {
            let e = &record.fields[i];
            keep.push(!(sig_is(e.sig.0, 'M', 'N', 'A', 'M') && formkey_array_value_is_empty(&e.value)));
            i = i + 1;
        }
        keep_entries(&mut record.fields, &keep, Ghost(|e: EntryView| !empty_mnam(e)));
    }
}

} // verus!
